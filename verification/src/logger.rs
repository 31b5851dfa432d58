//! Keeping track of the hosts that have connected.

use crate::constant::Session;
use vstd::prelude::*;

verus! {

/// What the tracker says of a connection.
pub struct Connection {
    /// The host that connected.
    pub host: String,
    /// The path that the host streamed last; empty for none.
    pub last_accessed: String,
    /// Whether this is the first connection of the host, which is logged.
    pub first: bool,
}

/// The tracker once a connection from `host` has been recorded: a host that
/// connects for the first time is entered with the empty path, and for a
/// host that is known nothing changes.
pub open spec fn connected(tracker: Map<Seq<char>, Seq<char>>, host: Seq<char>) -> Map<
    Seq<char>,
    Seq<char>,
> {
    if tracker.contains_key(host) {
        tracker
    } else {
        tracker.insert(host, Seq::empty())
    }
}

/// Records a connection from `host`. A host that connects for the first
/// time is entered with the empty path; for a host that is known the
/// tracker does not change.
pub fn log_connection(host: &str, session: &mut Session) -> (connection: Connection)
    requires
        old(session).wf(),
    ensures
        final(session).wf(),
        final(session).mapping == old(session).mapping,
        connection.host@ == host@,
        connection.first == !old(session).tracker@.contains_key(host@),
        final(session).tracker@ == connected(old(session).tracker@, host@),
        final(session).tracker@.contains_key(host@),
        connection.last_accessed@ == final(session).tracker@[host@],
{
    match session.tracker.get(host) {
        Some(last) => Connection {
            host: host.to_owned(),
            last_accessed: last.clone(),
            first: false,
        },
        None => {
            session.tracker.insert(host.to_owned(), String::new());
            Connection { host: host.to_owned(), last_accessed: String::new(), first: true }
        },
    }
}

} // verus!
