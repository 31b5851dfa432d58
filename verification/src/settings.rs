//! The configuration of the server and the defaults of its optional parts.

use crate::store::TextMap;
use crate::text::{decimal_chars, decimal_text, extend_chars, string_of, texts};
use vstd::prelude::*;

verus! {

/// The configuration that the server runs with. It does not change after
/// startup.
pub struct Config {
    /// Password of every user, by user name.
    pub authorization: TextMap,
    /// The directory whose subtree can be browsed.
    pub media_source: String,
    /// Verbose logging.
    pub debug: bool,
    /// Log times in UTC.
    pub utc_logging: bool,
    /// The address to bind.
    pub media_host: String,
    /// The port to bind.
    pub media_port: u16,
    /// Seconds for which a session stays valid.
    pub session_duration: i64,
    /// The file extensions, without dot, that are served.
    pub file_formats: Vec<String>,
    /// Number of worker threads.
    pub workers: usize,
    /// Most connections served at a time.
    pub max_connections: usize,
    /// Largest request body accepted, in bytes.
    pub max_payload_size: usize,
    /// Origins allowed besides the local ones.
    pub websites: Vec<String>,
    /// Send cookies over TLS only.
    pub secure_session: bool,
    /// Private key of the TLS certificate; empty for none.
    pub key_file: String,
    /// Chain of the TLS certificate; empty for none.
    pub cert_file: String,
}

impl Config {
    /// The user table is well formed.
    pub open spec fn wf(&self) -> bool {
        self.authorization.wf()
    }
}

/// Debug logging is off by default.
pub fn default_debug() -> (r: bool)
    ensures
        !r,
{
    false
}

/// Log times are in UTC by default.
pub fn default_utc_logging() -> (r: bool)
    ensures
        r,
{
    true
}

/// By default there is no TLS file: the empty path.
pub fn default_ssl() -> (r: String)
    ensures
        r@ == Seq::<char>::empty(),
{
    String::new()
}

/// An address that a host name resolved to.
#[derive(Clone, Copy, Debug, PartialEq, Eq, Structural)]
pub enum HostAddress {
    /// An IPv4 address, by its four octets.
    V4 { a: u8, b: u8, c: u8, d: u8 },
    /// An address of any other family.
    Other,
}

/// The text of an IPv4 address: its four octets as decimal numerals, with
/// dots between them.
pub open spec fn dotted(a: u8, b: u8, c: u8, d: u8) -> Seq<char> {
    decimal_text(a as int) + seq!['.'] + decimal_text(b as int) + seq!['.'] + decimal_text(
        c as int,
    ) + seq!['.'] + decimal_text(d as int)
}

/// The text of the first IPv4 address among `addresses`, if there is one.
pub open spec fn first_ipv4_text(addresses: Seq<HostAddress>) -> Option<Seq<char>>
    decreases addresses.len(),
{
    if addresses.len() == 0 {
        None
    } else {
        match addresses[0] {
            HostAddress::V4 { a, b, c, d } => Some(dotted(a, b, c, d)),
            HostAddress::Other => first_ipv4_text(addresses.drop_first()),
        }
    }
}

/// The default host, given the addresses that the local host name resolved
/// to, or nothing where it could not be resolved: the first IPv4 address
/// among them, and `localhost` where there is none.
pub open spec fn host_default(resolved: Option<Seq<HostAddress>>) -> Seq<char> {
    match resolved {
        Some(addresses) => match first_ipv4_text(addresses) {
            Some(text) => text,
            None => "localhost"@,
        },
        None => "localhost"@,
    }
}

/// The addresses of an optional list, as a mathematical value.
pub open spec fn addresses_of(resolved: Option<&Vec<HostAddress>>) -> Option<Seq<HostAddress>> {
    match resolved {
        Some(addresses) => Some(addresses@),
        None => None,
    }
}

/// The text of the first IPv4 address among `addresses`, if there is one.
pub fn first_ipv4(addresses: &Vec<HostAddress>) -> (r: Option<String>)
    ensures
        match r {
            Some(text) => first_ipv4_text(addresses@) == Some(text@) && text@.len() > 0,
            None => first_ipv4_text(addresses@) is None,
        },
{
    let mut i: usize = 0;
    assert(addresses@.skip(0) =~= addresses@);
    while i < addresses.len()
        invariant
            i <= addresses.len(),
            first_ipv4_text(addresses@) == first_ipv4_text(addresses@.skip(i as int)),
        decreases addresses.len() - i,
    {
        let ghost rest = addresses@.skip(i as int);
        assert(rest[0] == addresses@[i as int]);
        assert(rest.drop_first() =~= addresses@.skip(i + 1));
        match addresses[i] {
            HostAddress::V4 { a, b, c, d } => {
                let mut text = decimal_chars(a as i64);
                text.push('.');
                extend_chars(&mut text, &decimal_chars(b as i64));
                text.push('.');
                extend_chars(&mut text, &decimal_chars(c as i64));
                text.push('.');
                extend_chars(&mut text, &decimal_chars(d as i64));
                assert(text@ =~= dotted(a, b, c, d));
                return Some(string_of(&text));
            },
            HostAddress::Other => {},
        }
        i += 1;
    }
    None
}

/// The default host: the first IPv4 address that the local host name
/// resolved to, or `localhost` where it resolved to none or could not be
/// resolved. The result is never empty.
pub fn default_media_host(resolved: Option<&Vec<HostAddress>>) -> (r: String)
    ensures
        r@ == host_default(addresses_of(resolved)),
        r@.len() > 0,
{
    proof {
        reveal_strlit("localhost");
    }
    match resolved {
        Some(addresses) => match first_ipv4(addresses) {
            Some(text) => text,
            None => "localhost".to_owned(),
        },
        None => "localhost".to_owned(),
    }
}

/// The default port.
pub fn default_media_port() -> (r: u16)
    ensures
        r == 8000,
{
    8000
}

/// The default lifetime of a session: one hour.
pub fn default_session_duration() -> (r: i64)
    ensures
        r == 3600,
{
    3600
}

/// The extensions served by default.
pub open spec fn default_formats() -> Seq<Seq<char>> {
    seq!["mp4"@, "mov"@, "jpg"@, "jpeg"@]
}

/// The extensions served by default.
pub fn default_file_formats() -> (r: Vec<String>)
    ensures
        texts(r@) == default_formats(),
{
    let mut r: Vec<String> = Vec::new();
    r.push("mp4".to_owned());
    r.push("mov".to_owned());
    r.push("jpg".to_owned());
    r.push("jpeg".to_owned());
    assert(texts(r@) =~= default_formats());
    r
}

/// The default number of workers: half the number of cores, or three when
/// that number is not known.
pub fn default_workers(cores: Option<usize>) -> (r: usize)
    ensures
        r == match cores {
            Some(n) => n / 2,
            None => 3,
        },
{
    match cores {
        Some(n) => n / 2,
        None => 3,
    }
}

/// The default limit on concurrent connections.
pub fn default_max_connections() -> (r: usize)
    ensures
        r == 3,
{
    3
}

/// The default limit on a request body: one hundred mebibytes.
pub fn default_max_payload_size() -> (r: usize)
    ensures
        r == 100 * 1024 * 1024,
{
    104857600
}

/// By default no origin is allowed besides the local ones.
pub fn default_websites() -> (r: Vec<String>)
    ensures
        r@.len() == 0,
{
    Vec::new()
}

/// By default cookies are not restricted to TLS.
pub fn default_secure_session() -> (r: bool)
    ensures
        !r,
{
    false
}

} // verus!
