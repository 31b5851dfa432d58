//! The health check, the login form and the profile page.

use crate::authenticator::AuthToken;
use crate::constant::{secure_index, Session, SECURE_INDEX};
use crate::content::{extension_of, file_font, get_file_font, lock_font, ContentEntry, EntryView};
use crate::logger::{connected, log_connection};
use crate::routes::auth::{guarded, refuse};
use crate::settings::Config;
use crate::paths::{file_name, file_name_of};
use crate::responses::{page_reply, plain_reply, reply, Body, BodyView, Page, PageView, Reply};
use crate::text::{chars_of, concat, contains_text, holds_text, string_of};
use vstd::prelude::*;

verus! {

/// Answers the health check.
pub fn health() -> (r: Reply)
    ensures
        r@ == plain_reply(200, BodyView::Json("Healthy"@)),
{
    reply(200, Body::Json("Healthy".to_owned()))
}

/// Shows the login form and records the connection of the host.
pub fn root(host: &str, session: &mut Session) -> (r: Reply)
    requires
        old(session).wf(),
    ensures
        final(session).wf(),
        final(session).mapping == old(session).mapping,
        final(session).tracker@ == connected(old(session).tracker@, host@),
        r@ == page_reply(200, PageView::Index),
{
    let _ = log_connection(host, session);
    reply(200, Body::Html(Page::Index))
}

/// The extension of a path, or nothing where its last component has none.
pub open spec fn extension_or_empty(name: Seq<char>) -> Seq<char> {
    match extension_of(name) {
        Some(extension) => extension,
        None => Seq::empty(),
    }
}

/// How the profile page shows the path that a host streamed last: by the
/// name of the file, with a lock where the path leads into a private
/// directory and with the icon of the file otherwise. A host that streamed
/// nothing is shown nothing.
pub open spec fn last_streamed(path: Seq<char>) -> Option<EntryView> {
    if path.len() == 0 {
        None
    } else {
        Some(
            EntryView {
                name: file_name_of(path),
                path: "/stream/"@ + path,
                font: if contains_text(path, secure_index()) {
                    lock_font()
                } else {
                    file_font(extension_or_empty(file_name_of(path)))
                },
            },
        )
    }
}

/// Handles a request for the profile page, given the verdict on its
/// session token.
///
/// A request without a valid session is redirected to the error page, and
/// nothing is recorded. A user with a valid session is shown the name, the
/// time the session has left, and the file streamed last from this host;
/// the connection of the host is recorded.
pub fn profile(auth_response: &AuthToken, host: &str, config: &Config, session: &mut Session) -> (r:
    Reply)
    requires
        old(session).wf(),
    ensures
        final(session).wf(),
        final(session).mapping == old(session).mapping,
        final(session).tracker@ == (if auth_response.ok {
            connected(old(session).tracker@, host@)
        } else {
            old(session).tracker@
        }),
        r@ == guarded(
            auth_response@,
            config.secure_session,
            page_reply(
                200,
                PageView::Profile {
                    user: auth_response.username@,
                    time_left: auth_response.time_left as int,
                    file: last_streamed(connected(old(session).tracker@, host@)[host@]),
                },
            ),
        ),
{
    if !auth_response.ok {
        return refuse(auth_response, config);
    }
    let connection = log_connection(host, session);
    let path = chars_of(connection.last_accessed.as_str());
    let file = if path.len() == 0 {
        None
    } else {
        let name = file_name(&path);
        let font = if holds_text(&path, &chars_of(SECURE_INDEX)) {
            "fa-solid fa-lock".to_owned()
        } else {
            match crate::content::extension(&name) {
                Some(extension) => get_file_font(string_of(&extension).as_str()),
                None => {
                    proof {
                        reveal_strlit("");
                        assert(""@ =~= Seq::<char>::empty());
                    }
                    get_file_font("")
                },
            }
        };
        Some(
            ContentEntry {
                name: string_of(&name),
                path: concat("/stream/", connection.last_accessed.as_str()),
                font,
            },
        )
    };
    reply(
        200,
        Body::Html(
            Page::Profile {
                user: auth_response.username.clone(),
                time_left: auth_response.time_left,
                file,
            },
        ),
    )
}

} // verus!
