//! Startup: reading the configuration from the environment and checking it
//! before the server starts.

use crate::authenticator::is_secure_component;
use crate::constant::{secure_directory, secure_index_of, SECURE_INDEX};
use crate::json::{json_text_list, json_text_map, pair_views, parse_text_list, parse_text_map};
use crate::paths::{below, join_below};
use crate::settings::{
    addresses_of, default_debug, default_file_formats, default_formats, default_max_connections,
    default_max_payload_size, default_media_host, default_media_port, default_secure_session,
    default_session_duration, default_ssl, default_utc_logging, default_websites,
    default_workers, host_default, Config, HostAddress,
};
use crate::store::TextMap;
use crate::text::{
    bounded_integer, chars_of, decimal_chars, decimal_text, extend_chars, has_suffix, join,
    join_chars, parse_integer, rows, same_chars, same_text, split, split_chars, string_of,
    text_of, texts,
};
use vstd::prelude::*;

verus! {

/// The diagnostic for a variable whose value is not of the expected type.
pub open spec fn invalid_value(key: Seq<char>, expected: Seq<char>, raw: Seq<char>) -> Seq<char> {
    seq!['\n'] + key + "\n\texpected "@ + expected + ", received '"@ + raw
        + "' [value=invalid]\n"@
}

/// Writes the diagnostic for a variable whose value is not of the expected
/// type.
pub fn invalid_value_message(key: &str, expected: &str, raw: &str) -> (message: String)
    ensures
        message@ == invalid_value(key@, expected@, raw@),
{
    let mut out: Vec<char> = Vec::new();
    out.push('\n');
    extend_chars(&mut out, &chars_of(key));
    extend_chars(&mut out, &chars_of("\n\texpected "));
    extend_chars(&mut out, &chars_of(expected));
    extend_chars(&mut out, &chars_of(", received '"));
    extend_chars(&mut out, &chars_of(raw));
    extend_chars(&mut out, &chars_of("' [value=invalid]\n"));
    assert(out@ =~= invalid_value(key@, expected@, raw@));
    string_of(&out)
}

/// The truth value that a text writes: `true` or `false`, nothing else.
pub open spec fn truth_value(raw: Seq<char>) -> Option<bool> {
    if raw == "true"@ {
        Some(true)
    } else if raw == "false"@ {
        Some(false)
    } else {
        None
    }
}

/// What reading an optional variable comes to: nothing for a variable that
/// is not set, its value where `read` accepts what is set, and the
/// diagnostic otherwise.
pub open spec fn optional_value<T>(
    env: Map<Seq<char>, Seq<char>>,
    key: Seq<char>,
    expected: Seq<char>,
    read: spec_fn(Seq<char>) -> Option<T>,
) -> Result<Option<T>, Seq<char>> {
    if !env.contains_key(key) {
        Ok(None)
    } else {
        match read(env[key]) {
            Some(value) => Ok(Some(value)),
            None => Err(invalid_value(key, expected, env[key])),
        }
    }
}

/// Reads an optional truth value from the environment.
pub fn parse_bool(key: &str, env: &TextMap) -> (r: Result<Option<bool>, String>)
    requires
        env.wf(),
    ensures
        match r {
            Ok(value) => optional_value(env@, key@, "bool"@, |raw: Seq<char>| truth_value(raw))
                == Ok::<Option<bool>, Seq<char>>(value),
            Err(message) => optional_value(
                env@,
                key@,
                "bool"@,
                |raw: Seq<char>| truth_value(raw),
            ) == Err::<Option<bool>, Seq<char>>(message@),
        },
{
    match env.get(key) {
        None => Ok(None),
        Some(raw) => {
            if same_text(raw.as_str(), "true") {
                Ok(Some(true))
            } else if same_text(raw.as_str(), "false") {
                Ok(Some(false))
            } else {
                Err(invalid_value_message(key, "bool", raw.as_str()))
            }
        },
    }
}

/// Reads an optional number from the environment. The number must lie
/// between `lo` and `hi`; `expected` names its type in the diagnostic.
pub fn parse_number(
    key: &str,
    env: &TextMap,
    signed: bool,
    lo: i64,
    hi: i64,
    expected: &str,
) -> (r: Result<Option<i64>, String>)
    requires
        env.wf(),
    ensures
        match r {
            Ok(Some(value)) => env@.contains_key(key@) && bounded_integer(
                env@[key@],
                signed,
                lo as int,
                hi as int,
            ) == Some(value as int),
            Ok(None) => !env@.contains_key(key@),
            Err(message) => env@.contains_key(key@) && bounded_integer(
                env@[key@],
                signed,
                lo as int,
                hi as int,
            ) is None && message@ == invalid_value(key@, expected@, env@[key@]),
        },
{
    match env.get(key) {
        None => Ok(None),
        Some(raw) => {
            let chars = chars_of(raw.as_str());
            match parse_integer(&chars, signed, lo, hi) {
                Some(value) => Ok(Some(value)),
                None => Err(invalid_value_message(key, expected, raw.as_str())),
            }
        },
    }
}

/// Reads an optional list of strings, written as a JSON array, from the
/// environment.
pub fn parse_vec(key: &str, env: &TextMap) -> (r: Result<Option<Vec<String>>, String>)
    requires
        env.wf(),
    ensures
        match r {
            Ok(Some(items)) => env@.contains_key(key@) && json_text_list(env@[key@]) == Some(
                texts(items@),
            ),
            Ok(None) => !env@.contains_key(key@),
            Err(message) => env@.contains_key(key@) && json_text_list(env@[key@]) is None
                && message@ == invalid_value(key@, "vec"@, env@[key@]),
        },
{
    match env.get(key) {
        None => Ok(None),
        Some(raw) => match parse_text_list(raw.as_str()) {
            Some(items) => Ok(Some(items)),
            None => Err(invalid_value_message(key, "vec", raw.as_str())),
        },
    }
}

/// Reads an optional path from the environment.
pub fn parse_path(key: &str, env: &TextMap) -> (r: Option<String>)
    requires
        env.wf(),
    ensures
        match r {
            Some(path) => env@.contains_key(key@) && env@[key@] == path@,
            None => !env@.contains_key(key@),
        },
{
    match env.get(key) {
        Some(raw) => Some(raw.clone()),
        None => None,
    }
}

/// The number of bytes in one unit of memory: the units are powers of 1024.
pub open spec fn unit_bytes(unit: Seq<char>) -> Option<int> {
    if unit == "KB"@ {
        Some(1024int)
    } else if unit == "MB"@ {
        Some(1048576int)
    } else if unit == "GB"@ {
        Some(1073741824int)
    } else if unit == "TB"@ {
        Some(1099511627776int)
    } else if unit == "ZB"@ {
        Some(1180591620717411303424int)
    } else {
        None
    }
}

/// The number of bytes that a memory size writes: a number, one space, and
/// a unit. A size that does not fit the machine is not valid.
pub open spec fn memory_size(raw: Seq<char>) -> Option<usize> {
    let parts = split(raw, seq![' ']);
    if parts.len() != 2 {
        None
    } else {
        match (bounded_integer(parts[0], false, 0, i64::MAX as int), unit_bytes(parts[1])) {
            (Some(count), Some(bytes)) => if count * bytes <= usize::MAX {
                Some((count * bytes) as usize)
            } else {
                None
            },
            _ => None,
        }
    }
}

fn unit_size(unit: &Vec<char>) -> (r: Option<u128>)
    ensures
        match r {
            Some(bytes) => unit_bytes(unit@) == Some(bytes as int) && 1024 <= bytes
                <= 1180591620717411303424,
            None => unit_bytes(unit@) is None,
        },
{
    if same_chars(unit, &chars_of("KB")) {
        Some(1024)
    } else if same_chars(unit, &chars_of("MB")) {
        Some(1048576)
    } else if same_chars(unit, &chars_of("GB")) {
        Some(1073741824)
    } else if same_chars(unit, &chars_of("TB")) {
        Some(1099511627776)
    } else if same_chars(unit, &chars_of("ZB")) {
        Some(1180591620717411303424)
    } else {
        None
    }
}

/// Reads a memory size.
pub fn parse_memory(raw: &str) -> (r: Option<usize>)
    ensures
        r == memory_size(raw@),
{
    let chars = chars_of(raw);
    let mut space: Vec<char> = Vec::new();
    space.push(' ');
    assert(space@ =~= seq![' ']);
    let parts = split_chars(&chars, &space);
    if parts.len() != 2 {
        return None;
    }
    let ghost all = split(raw@, seq![' ']);
    assert(all[0] == parts@[0]@ && all[1] == parts@[1]@);
    let count = match parse_integer(&parts[0], false, 0, i64::MAX) {
        Some(count) => count,
        None => {
            return None;
        },
    };
    let bytes = match unit_size(&parts[1]) {
        Some(bytes) => bytes,
        None => {
            return None;
        },
    };
    if count > 18014398509481984 {
        assert(count * bytes > usize::MAX) by (nonlinear_arith)
            requires
                count > 18014398509481984,
                bytes >= 1024,
                usize::MAX <= 18446744073709551615,
        ;
        return None;
    }
    assert(count * bytes <= 18014398509481984 * 1180591620717411303424) by (nonlinear_arith)
        requires
            0 <= count <= 18014398509481984,
            0 <= bytes <= 1180591620717411303424,
    ;
    let total: u128 = count as u128 * bytes;
    if total <= usize::MAX as u128 {
        Some(total as usize)
    } else {
        None
    }
}

/// Reads the optional limit on request bodies from the environment.
pub fn parse_max_payload(key: &str, env: &TextMap) -> (r: Result<Option<usize>, String>)
    requires
        env.wf(),
    ensures
        match r {
            Ok(value) => optional_value(
                env@,
                key@,
                "memory size"@,
                |raw: Seq<char>| memory_size(raw),
            ) == Ok::<Option<usize>, Seq<char>>(value),
            Err(message) => optional_value(
                env@,
                key@,
                "memory size"@,
                |raw: Seq<char>| memory_size(raw),
            ) == Err::<Option<usize>, Seq<char>>(message@),
        },
{
    match env.get(key) {
        None => Ok(None),
        Some(raw) => match parse_memory(raw.as_str()) {
            Some(size) => Ok(Some(size)),
            None => Err(invalid_value_message(key, "memory size", raw.as_str())),
        },
    }
}

/// The map that a sequence of entries builds; of two entries with one key
/// the later one stays.
pub open spec fn map_of(pairs: Seq<(Seq<char>, Seq<char>)>) -> Map<Seq<char>, Seq<char>>
    decreases pairs.len(),
{
    if pairs.len() == 0 {
        Map::empty()
    } else {
        map_of(pairs.drop_last()).insert(pairs.last().0, pairs.last().1)
    }
}

/// The diagnostic for a missing user table.
pub open spec fn missing_authorization() -> Seq<char> {
    "\nauthorization\n\texpected a HashMap, received null [value=missing]\n"@
}

/// The diagnostic for a user table that is not a JSON object of strings.
pub open spec fn invalid_authorization() -> Seq<char> {
    "\nauthorization\n\terror parsing JSON [value=invalid]\n"@
}

/// The diagnostic for a missing media root.
pub open spec fn missing_media_source() -> Seq<char> {
    "\nmedia_source\n\texpected a directory path, received null [value=missing]\n"@
}

/// The two settings that have no default: the user table, a JSON object of
/// passwords by user name, and the media root.
pub open spec fn mandatory(env: Map<Seq<char>, Seq<char>>) -> Result<
    (Map<Seq<char>, Seq<char>>, Seq<char>),
    Seq<char>,
> {
    if !env.contains_key("authorization"@) {
        Err(missing_authorization())
    } else {
        match json_text_map(env["authorization"@]) {
            None => Err(invalid_authorization()),
            Some(pairs) => if !env.contains_key("media_source"@) {
                Err(missing_media_source())
            } else {
                Ok((map_of(pairs), env["media_source"@]))
            },
        }
    }
}

/// Reads the two settings that have no default.
pub fn mandatory_vars(env: &TextMap) -> (r: Result<(TextMap, String), String>)
    requires
        env.wf(),
    ensures
        match r {
            Ok((users, source)) => users.wf() && mandatory(env@) == Ok::<
                (Map<Seq<char>, Seq<char>>, Seq<char>),
                Seq<char>,
            >((users@, source@)),
            Err(message) => mandatory(env@) == Err::<
                (Map<Seq<char>, Seq<char>>, Seq<char>),
                Seq<char>,
            >(message@),
        },
{
    let raw = match env.get("authorization") {
        Some(raw) => raw,
        None => {
            return Err(
                "\nauthorization\n\texpected a HashMap, received null [value=missing]\n".to_owned(),
            );
        },
    };
    let pairs = match parse_text_map(raw.as_str()) {
        Some(pairs) => pairs,
        None => {
            return Err("\nauthorization\n\terror parsing JSON [value=invalid]\n".to_owned());
        },
    };
    let source = match env.get("media_source") {
        Some(source) => source.clone(),
        None => {
            return Err(
                "\nmedia_source\n\texpected a directory path, received null [value=missing]\n".to_owned(),
            );
        },
    };
    let ghost all = pair_views(pairs@);
    let mut users = TextMap::new();
    let mut i: usize = 0;
    assert(all.take(0) =~= Seq::<(Seq<char>, Seq<char>)>::empty());
    while i < pairs.len()
        invariant
            i <= pairs.len(),
            all == pair_views(pairs@),
            users.wf(),
            users@ == map_of(all.take(i as int)),
        decreases pairs.len() - i,
    {
        proof {
            let seen = all.take(i + 1);
            assert(seen.drop_last() =~= all.take(i as int));
            assert(seen.last() == (pairs@[i as int].0@, pairs@[i as int].1@));
        }
        users.insert(pairs[i].0.clone(), pairs[i].1.clone());
        i += 1;
    }
    assert(all.take(pairs.len() as int) =~= all);
    Ok((users, source))
}

/// A truth value from the environment, or its default.
pub open spec fn flag_setting(env: Map<Seq<char>, Seq<char>>, key: Seq<char>, default: bool) -> Result<
    bool,
    Seq<char>,
> {
    match optional_value(env, key, "bool"@, |raw: Seq<char>| truth_value(raw)) {
        Ok(Some(value)) => Ok(value),
        Ok(None) => Ok(default),
        Err(message) => Err(message),
    }
}

/// A number from the environment, or its default.
pub open spec fn number_setting(
    env: Map<Seq<char>, Seq<char>>,
    key: Seq<char>,
    signed: bool,
    lo: int,
    hi: int,
    expected: Seq<char>,
    default: int,
) -> Result<int, Seq<char>> {
    if !env.contains_key(key) {
        Ok(default)
    } else {
        match bounded_integer(env[key], signed, lo, hi) {
            Some(value) => Ok(value),
            None => Err(invalid_value(key, expected, env[key])),
        }
    }
}

/// A list of strings from the environment, or its default.
pub open spec fn list_setting(
    env: Map<Seq<char>, Seq<char>>,
    key: Seq<char>,
    default: Seq<Seq<char>>,
) -> Result<Seq<Seq<char>>, Seq<char>> {
    if !env.contains_key(key) {
        Ok(default)
    } else {
        match json_text_list(env[key]) {
            Some(items) => Ok(items),
            None => Err(invalid_value(key, "vec"@, env[key])),
        }
    }
}

/// A text from the environment, or its default.
pub open spec fn text_setting(env: Map<Seq<char>, Seq<char>>, key: Seq<char>, default: Seq<char>) -> Seq<
    char,
> {
    if env.contains_key(key) {
        env[key]
    } else {
        default
    }
}

/// The limit on request bodies from the environment, or its default.
pub open spec fn payload_setting(env: Map<Seq<char>, Seq<char>>) -> Result<usize, Seq<char>> {
    match optional_value(
        env,
        "max_payload_size"@,
        "memory size"@,
        |raw: Seq<char>| memory_size(raw),
    ) {
        Ok(Some(value)) => Ok(value),
        Ok(None) => Ok(104857600usize),
        Err(message) => Err(message),
    }
}

/// The default number of workers, given the number of cores.
pub open spec fn workers_default(cores: Option<usize>) -> int {
    match cores {
        Some(n) => n as int / 2,
        None => 3,
    }
}

/// The diagnostic of the first setting that cannot be read, in the order in
/// which the settings are read; none where every setting can be read.
pub open spec fn load_failure(env: Map<Seq<char>, Seq<char>>, cores: Option<usize>) -> Option<
    Seq<char>,
> {
    if mandatory(env) is Err {
        Some(mandatory(env)->Err_0)
    } else if flag_setting(env, "debug"@, false) is Err {
        Some(flag_setting(env, "debug"@, false)->Err_0)
    } else if flag_setting(env, "utc_logging"@, true) is Err {
        Some(flag_setting(env, "utc_logging"@, true)->Err_0)
    } else if number_setting(env, "media_port"@, false, 0, 65535, "u16"@, 8000) is Err {
        Some(number_setting(env, "media_port"@, false, 0, 65535, "u16"@, 8000)->Err_0)
    } else if number_setting(
        env,
        "session_duration"@,
        true,
        i64::MIN as int,
        i64::MAX as int,
        "i64"@,
        3600,
    ) is Err {
        Some(
            number_setting(
                env,
                "session_duration"@,
                true,
                i64::MIN as int,
                i64::MAX as int,
                "i64"@,
                3600,
            )->Err_0,
        )
    } else if list_setting(env, "file_formats"@, default_formats()) is Err {
        Some(list_setting(env, "file_formats"@, default_formats())->Err_0)
    } else if number_setting(
        env,
        "workers"@,
        false,
        0,
        usize_limit(),
        "usize"@,
        workers_default(cores),
    ) is Err {
        Some(
            number_setting(
                env,
                "workers"@,
                false,
                0,
                usize_limit(),
                "usize"@,
                workers_default(cores),
            )->Err_0,
        )
    } else if number_setting(env, "max_connections"@, false, 0, usize_limit(), "usize"@, 3)
        is Err {
        Some(
            number_setting(env, "max_connections"@, false, 0, usize_limit(), "usize"@, 3)->Err_0,
        )
    } else if payload_setting(env) is Err {
        Some(payload_setting(env)->Err_0)
    } else if list_setting(env, "websites"@, Seq::empty()) is Err {
        Some(list_setting(env, "websites"@, Seq::empty())->Err_0)
    } else if flag_setting(env, "secure_session"@, false) is Err {
        Some(flag_setting(env, "secure_session"@, false)->Err_0)
    } else {
        None
    }
}

/// The largest count that the environment can set: what fits both the
/// machine word and sixty-three bits.
pub open spec fn usize_limit() -> int {
    if usize::MAX < i64::MAX {
        usize::MAX as int
    } else {
        i64::MAX as int
    }
}

fn count_limit() -> (limit: i64)
    ensures
        limit == usize_limit(),
{
    if usize::MAX as u128 <= i64::MAX as u128 {
        usize::MAX as i64
    } else {
        i64::MAX
    }
}

/// Reads the whole configuration from the environment. `resolved` holds
/// the addresses that the local host name resolved to, if it could be
/// resolved, and `cores` the number of cores, if known; they give the
/// defaults of host and workers.
pub fn load_env_vars(
    env: &TextMap,
    resolved: Option<&Vec<HostAddress>>,
    cores: Option<usize>,
) -> (r: Result<Config, String>)
    requires
        env.wf(),
    ensures
        match r {
            Ok(config) => {
                &&& load_failure(env@, cores) is None
                &&& config.wf()
                &&& mandatory(env@) == Ok::<(Map<Seq<char>, Seq<char>>, Seq<char>), Seq<char>>(
                    (config.authorization@, config.media_source@),
                )
                &&& flag_setting(env@, "debug"@, false) == Ok::<bool, Seq<char>>(config.debug)
                &&& flag_setting(env@, "utc_logging"@, true) == Ok::<bool, Seq<char>>(
                    config.utc_logging,
                )
                &&& config.media_host@ == text_setting(
                    env@,
                    "media_host"@,
                    host_default(addresses_of(resolved)),
                )
                &&& number_setting(env@, "media_port"@, false, 0, 65535, "u16"@, 8000) == Ok::<
                    int,
                    Seq<char>,
                >(config.media_port as int)
                &&& number_setting(
                    env@,
                    "session_duration"@,
                    true,
                    i64::MIN as int,
                    i64::MAX as int,
                    "i64"@,
                    3600,
                ) == Ok::<int, Seq<char>>(config.session_duration as int)
                &&& list_setting(env@, "file_formats"@, default_formats()) == Ok::<
                    Seq<Seq<char>>,
                    Seq<char>,
                >(texts(config.file_formats@))
                &&& number_setting(
                    env@,
                    "workers"@,
                    false,
                    0,
                    usize_limit(),
                    "usize"@,
                    workers_default(cores),
                ) == Ok::<int, Seq<char>>(config.workers as int)
                &&& number_setting(
                    env@,
                    "max_connections"@,
                    false,
                    0,
                    usize_limit(),
                    "usize"@,
                    3,
                ) == Ok::<int, Seq<char>>(config.max_connections as int)
                &&& payload_setting(env@) == Ok::<usize, Seq<char>>(config.max_payload_size)
                &&& list_setting(env@, "websites"@, Seq::empty()) == Ok::<
                    Seq<Seq<char>>,
                    Seq<char>,
                >(texts(config.websites@))
                &&& flag_setting(env@, "secure_session"@, false) == Ok::<bool, Seq<char>>(
                    config.secure_session,
                )
                &&& config.key_file@ == text_setting(env@, "key_file"@, Seq::empty())
                &&& config.cert_file@ == text_setting(env@, "cert_file"@, Seq::empty())
            },
            Err(message) => load_failure(env@, cores) == Some(message@),
        },
{
    let (authorization, media_source) = match mandatory_vars(env) {
        Ok(pair) => pair,
        Err(message) => {
            return Err(message);
        },
    };
    let debug = match parse_bool("debug", env) {
        Ok(Some(value)) => value,
        Ok(None) => default_debug(),
        Err(message) => {
            return Err(message);
        },
    };
    let utc_logging = match parse_bool("utc_logging", env) {
        Ok(Some(value)) => value,
        Ok(None) => default_utc_logging(),
        Err(message) => {
            return Err(message);
        },
    };
    let ghost host = host_default(addresses_of(resolved));
    let media_host = match parse_path("media_host", env) {
        Some(host) => host,
        None => default_media_host(resolved),
    };
    assert(media_host@ == text_setting(env@, "media_host"@, host));
    let media_port: u16 = match parse_number("media_port", env, false, 0, 65535, "u16") {
        Ok(Some(value)) => value as u16,
        Ok(None) => default_media_port(),
        Err(message) => {
            return Err(message);
        },
    };
    let session_duration = match parse_number(
        "session_duration",
        env,
        true,
        i64::MIN,
        i64::MAX,
        "i64",
    ) {
        Ok(Some(value)) => value,
        Ok(None) => default_session_duration(),
        Err(message) => {
            return Err(message);
        },
    };
    let file_formats = match parse_vec("file_formats", env) {
        Ok(Some(value)) => value,
        Ok(None) => default_file_formats(),
        Err(message) => {
            return Err(message);
        },
    };
    let limit = count_limit();
    let workers: usize = match parse_number("workers", env, false, 0, limit, "usize") {
        Ok(Some(value)) => value as usize,
        Ok(None) => default_workers(cores),
        Err(message) => {
            return Err(message);
        },
    };
    let max_connections: usize = match parse_number(
        "max_connections",
        env,
        false,
        0,
        limit,
        "usize",
    ) {
        Ok(Some(value)) => value as usize,
        Ok(None) => default_max_connections(),
        Err(message) => {
            return Err(message);
        },
    };
    let max_payload_size = match parse_max_payload("max_payload_size", env) {
        Ok(Some(value)) => value,
        Ok(None) => default_max_payload_size(),
        Err(message) => {
            return Err(message);
        },
    };
    let websites = match parse_vec("websites", env) {
        Ok(Some(value)) => value,
        Ok(None) => {
            let none = default_websites();
            assert(texts(none@) =~= Seq::<Seq<char>>::empty());
            none
        },
        Err(message) => {
            return Err(message);
        },
    };
    let secure_session = match parse_bool("secure_session", env) {
        Ok(Some(value)) => value,
        Ok(None) => default_secure_session(),
        Err(message) => {
            return Err(message);
        },
    };
    let key_file = match parse_path("key_file", env) {
        Some(path) => path,
        None => default_ssl(),
    };
    let cert_file = match parse_path("cert_file", env) {
        Some(path) => path,
        None => default_ssl(),
    };
    Ok(
        Config {
            authorization,
            media_source,
            debug,
            utc_logging,
            media_host,
            media_port,
            session_duration,
            file_formats,
            workers,
            max_connections,
            max_payload_size,
            websites,
            secure_session,
            key_file,
            cert_file,
        },
    )
}

/// As many asterisks as `n`.
pub open spec fn stars(n: nat) -> Seq<char> {
    Seq::new(n, |i: int| '*')
}

/// The diagnostic for a media root that is no directory.
pub open spec fn invalid_media_source(source: Seq<char>) -> Seq<char> {
    "\nmedia_source\n\tInput ["@ + source + "] is not a valid directory [value=invalid]\n"@
}

/// The diagnostic for a part of a user entry that is too short. The
/// password is shown as asterisks.
pub open spec fn short_entry(username: Seq<char>, password: Seq<char>, part: Seq<char>) -> Seq<
    char,
> {
    "\nauthorization\n\t["@ + username + ": "@ + stars(password.len()) + "] "@ + part
        + " or more characters [value=invalid]\n"@
}

/// The diagnostics for one user entry: the user name must have four
/// characters or more, the password eight or more.
pub open spec fn entry_errors(username: Seq<char>, password: Seq<char>) -> Seq<char> {
    (if username.len() < 4 {
        short_entry(username, password, "username should be at least 4"@)
    } else {
        Seq::empty()
    }) + (if password.len() < 8 {
        short_entry(username, password, "password should be at least 8"@)
    } else {
        Seq::empty()
    })
}

/// The diagnostics for the first `count` user entries, in their order.
pub open spec fn entries_errors(
    usernames: Seq<Seq<char>>,
    passwords: Seq<Seq<char>>,
    count: nat,
) -> Seq<char>
    decreases count,
{
    if count == 0 {
        Seq::empty()
    } else {
        entries_errors(usernames, passwords, (count - 1) as nat) + entry_errors(
            usernames[count - 1],
            passwords[count - 1],
        )
    }
}

/// All diagnostics of a configuration; empty for a valid one.
pub open spec fn config_errors(config: &Config, source_is_dir: bool) -> Seq<char> {
    (if source_is_dir {
        Seq::empty()
    } else {
        invalid_media_source(config.media_source@)
    }) + entries_errors(
        config.authorization.key_seq(),
        config.authorization.value_seq(),
        config.authorization.key_seq().len(),
    )
}

fn short_entry_message(username: &str, password: &str, part: &str) -> (message: Vec<char>)
    ensures
        message@ == short_entry(username@, password@, part@),
{
    let mut out = chars_of("\nauthorization\n\t[");
    extend_chars(&mut out, &chars_of(username));
    extend_chars(&mut out, &chars_of(": "));
    let hidden = chars_of(password);
    let ghost before = out@;
    let mut i: usize = 0;
    while i < hidden.len()
        invariant
            i <= hidden.len(),
            out@ == before + stars(i as nat),
        decreases hidden.len() - i,
    {
        out.push('*');
        i += 1;
        assert(out@ =~= before + stars(i as nat));
    }
    extend_chars(&mut out, &chars_of("] "));
    extend_chars(&mut out, &chars_of(part));
    extend_chars(&mut out, &chars_of(" or more characters [value=invalid]\n"));
    assert(out@ =~= short_entry(username@, password@, part@));
    out
}

/// Checks a configuration: the media root must be a directory, every user
/// name must have four characters or more and every password eight or more.
/// All that is wrong is reported at once.
pub fn validate_vars(config: &Config, source_is_dir: bool) -> (r: Result<(), String>)
    requires
        config.wf(),
    ensures
        match r {
            Ok(_) => config_errors(config, source_is_dir).len() == 0,
            Err(message) => message@.len() > 0 && message@ == config_errors(config, source_is_dir),
        },
{
    let mut errors: Vec<char> = Vec::new();
    if !source_is_dir {
        extend_chars(&mut errors, &chars_of("\nmedia_source\n\tInput ["));
        extend_chars(&mut errors, &chars_of(config.media_source.as_str()));
        extend_chars(&mut errors, &chars_of("] is not a valid directory [value=invalid]\n"));
        assert(errors@ =~= invalid_media_source(config.media_source@));
    }
    let ghost first = errors@;
    let ghost usernames = config.authorization.key_seq();
    let ghost passwords = config.authorization.value_seq();
    let count = config.authorization.len();
    let mut i: usize = 0;
    assert(errors@ =~= first + entries_errors(usernames, passwords, 0));
    while i < count
        invariant
            i <= count,
            config.wf(),
            count == config.authorization.key_seq().len(),
            usernames == config.authorization.key_seq(),
            passwords == config.authorization.value_seq(),
            errors@ == first + entries_errors(usernames, passwords, i as nat),
        decreases count - i,
    {
        let username = config.authorization.key_at(i);
        let password = config.authorization.value_at(i);
        let ghost before = errors@;
        let user_chars = chars_of(username.as_str());
        let pass_chars = chars_of(password.as_str());
        if user_chars.len() < 4 {
            let message = short_entry_message(
                username.as_str(),
                password.as_str(),
                "username should be at least 4",
            );
            extend_chars(&mut errors, &message);
        }
        if pass_chars.len() < 8 {
            let message = short_entry_message(
                username.as_str(),
                password.as_str(),
                "password should be at least 8",
            );
            extend_chars(&mut errors, &message);
        }
        assert(errors@ =~= before + entry_errors(username@, password@));
        i += 1;
        assert(errors@ =~= first + entries_errors(usernames, passwords, i as nat));
    }
    if errors.len() == 0 {
        Ok(())
    } else {
        Err(string_of(&errors))
    }
}

/// The name of the environment file: the one named on the command line,
/// else the value of `env_file`, else that of `ENV_FILE`, else `.env`.
pub open spec fn env_file_choice(
    argument: Seq<char>,
    lower: Option<Seq<char>>,
    upper: Option<Seq<char>>,
) -> Seq<char> {
    if argument.len() > 0 {
        argument
    } else {
        match (lower, upper) {
            (Some(name), _) => name,
            (None, Some(name)) => name,
            (None, None) => ".env"@,
        }
    }
}

/// Chooses the environment file, given the name from the command line,
/// empty for none, and the values of the variables `env_file` and
/// `ENV_FILE`.
pub fn env_file_name(argument: &str, lower: Option<&str>, upper: Option<&str>) -> (name: String)
    ensures
        name@ == env_file_choice(
            argument@,
            text_of(lower),
            text_of(upper),
        ),
{
    if chars_of(argument).len() > 0 {
        return argument.to_owned();
    }
    match lower {
        Some(name) => name.to_owned(),
        None => match upper {
            Some(name) => name.to_owned(),
            None => ".env".to_owned(),
        },
    }
}

/// The log filter for the given mode: the web framework logs warnings only
/// unless debugging, when it is too noisy otherwise.
pub open spec fn log_filter_of(debug: bool, crate_name: Seq<char>) -> Seq<char> {
    if debug {
        "actix_web=debug,actix_server=info,"@ + crate_name + "=debug"@
    } else {
        "actix_web=warn,actix_server=warn,"@ + crate_name + "=info"@
    }
}

/// What the logger is started with.
pub struct LoggerSetup {
    /// The value of `RUST_LOG`.
    pub filter: String,
    /// The value of `RUST_BACKTRACE`.
    pub backtrace: String,
    /// Whether log lines carry the local time in place of UTC.
    pub local_time: bool,
}

/// Decides how the logger is started.
pub fn init_logger(debug: bool, utc: bool, crate_name: &str) -> (setup: LoggerSetup)
    ensures
        setup.filter@ == log_filter_of(debug, crate_name@),
        setup.backtrace@ == (if debug {
            "1"@
        } else {
            "0"@
        }),
        setup.local_time == !utc,
{
    if debug {
        LoggerSetup {
            filter: crate::text::concat3("actix_web=debug,actix_server=info,", crate_name, "=debug"),
            backtrace: "1".to_owned(),
            local_time: !utc,
        }
    } else {
        LoggerSetup {
            filter: crate::text::concat3("actix_web=warn,actix_server=warn,", crate_name, "=info"),
            backtrace: "0".to_owned(),
            local_time: !utc,
        }
    }
}

/// A directory, given by its path relative to the media root, that is
/// private by its name but does not lie in the root itself.
pub open spec fn is_misplaced(directory: Seq<char>) -> bool {
    let parts = split(directory, seq!['/']);
    is_secure_component(parts.last()) && parts.len() != 1
}

/// The diagnostic for a misplaced private directory: it names the
/// directory, its depth, and the two ways to mend the layout.
pub open spec fn misplaced_message(directory: Seq<char>, media_source: Seq<char>) -> Seq<char> {
    let parts = split(directory, seq!['/']);
    let name = parts.last();
    let parent = join(parts.drop_last(), seq!['/']);
    "\n\""@ + directory + "\"\n\tSecure index directory [\""@ + name
        + "\"] should be at the root [\""@ + media_source + "\"] [depth="@ + decimal_text(
        parts.len() as int,
    ) + ", valid=1]\n\t> Hint: Either move \""@ + name + "\" within \""@ + media_source
        + "\", [OR] set the 'media_source' to \""@ + below(media_source, parent) + "\"\n"@
}

/// The diagnostics for all misplaced private directories, in the order of
/// the directories.
pub open spec fn structure_errors(directories: Seq<Seq<char>>, media_source: Seq<char>) -> Seq<char>
    decreases directories.len(),
{
    if directories.len() == 0 {
        Seq::empty()
    } else {
        structure_errors(directories.drop_last(), media_source) + (if is_misplaced(
            directories.last(),
        ) {
            misplaced_message(directories.last(), media_source)
        } else {
            Seq::empty()
        })
    }
}

/// The private directories that are still to be created: one for each of
/// the first `count` users whose private directory is not among the
/// directories of the root.
pub open spec fn missing_indexes(
    usernames: Seq<Seq<char>>,
    directories: Seq<Seq<char>>,
    media_source: Seq<char>,
    count: nat,
) -> Seq<Seq<char>>
    decreases count,
{
    if count == 0 {
        Seq::empty()
    } else {
        let before = missing_indexes(usernames, directories, media_source, (count - 1) as nat);
        let name = secure_index_of(usernames[count - 1]);
        if directories.contains(name) {
            before
        } else {
            before.push(below(media_source, name))
        }
    }
}

fn misplaced(directory: &str, media_source: &str) -> (message: Option<Vec<char>>)
    ensures
        match message {
            Some(text) => is_misplaced(directory@) && text@ == misplaced_message(
                directory@,
                media_source@,
            ),
            None => !is_misplaced(directory@),
        },
{
    let chars = chars_of(directory);
    let mut slash: Vec<char> = Vec::new();
    slash.push('/');
    assert(slash@ =~= seq!['/']);
    let parts = split_chars(&chars, &slash);
    let ghost all = split(directory@, seq!['/']);
    let last = parts.len() - 1;
    assert(all.last() == parts@[last as int]@);
    let suffix = chars_of(SECURE_INDEX);
    if !has_suffix(&parts[last], &suffix) || parts.len() == 1 {
        return None;
    }
    let name = &parts[last];
    let mut chain: Vec<Vec<char>> = Vec::new();
    let mut i: usize = 0;
    while i < last
        invariant
            i <= last < parts.len(),
            rows(chain@) == rows(parts@).take(i as int),
        decreases last - i,
    {
        let ghost before = rows(chain@);
        chain.push(crate::text::slice_of(&parts[i], 0, parts[i].len()));
        assert(parts@[i as int]@.subrange(0, parts@[i as int]@.len() as int) =~= parts@[i as int]@);
        assert(rows(chain@) =~= before.push(parts@[i as int]@));
        assert(rows(parts@).take(i + 1) =~= rows(parts@).take(i as int).push(parts@[i as int]@));
        i += 1;
    }
    assert(rows(chain@) =~= all.drop_last());
    assert(rows(chain@).skip(0) =~= rows(chain@));
    let parent = join_chars(&chain, 0, &slash);
    let source = chars_of(media_source);
    let target = join_below(&source, &parent);
    let mut out = chars_of("\n\"");
    extend_chars(&mut out, &chars);
    extend_chars(&mut out, &chars_of("\"\n\tSecure index directory [\""));
    extend_chars(&mut out, name);
    extend_chars(&mut out, &chars_of("\"] should be at the root [\""));
    extend_chars(&mut out, &source);
    extend_chars(&mut out, &chars_of("\"] [depth="));
    extend_chars(&mut out, &crate::text::count_chars(parts.len()));
    extend_chars(&mut out, &chars_of(", valid=1]\n\t> Hint: Either move \""));
    extend_chars(&mut out, name);
    extend_chars(&mut out, &chars_of("\" within \""));
    extend_chars(&mut out, &source);
    extend_chars(&mut out, &chars_of("\", [OR] set the 'media_source' to \""));
    extend_chars(&mut out, &target);
    extend_chars(&mut out, &chars_of("\"\n"));
    assert(out@ =~= misplaced_message(directory@, media_source@));
    Some(out)
}

fn holds_name(names: &Vec<String>, name: &Vec<char>) -> (r: bool)
    ensures
        r == texts(names@).contains(name@),
{
    let mut i: usize = 0;
    while i < names.len()
        invariant
            i <= names.len(),
            forall|j: int| 0 <= j < i ==> texts(names@)[j] != name@,
        decreases names.len() - i,
    {
        if same_chars(&chars_of(names[i].as_str()), name) {
            assert(texts(names@)[i as int] == name@);
            return true;
        }
        i += 1;
    }
    false
}

/// Checks the layout of the media root, given the paths of all directories
/// below it, relative to it.
///
/// A private directory anywhere but in the root itself is an error; all
/// such directories are reported at once. In a sound layout the result is
/// the list of private directories to create: one for every user who has
/// none yet.
pub fn validate_dir_structure(config: &Config, directories: &Vec<String>) -> (r: Result<
    Vec<String>,
    String,
>)
    requires
        config.wf(),
    ensures
        match r {
            Ok(create) => structure_errors(texts(directories@), config.media_source@).len() == 0
                && texts(create@) == missing_indexes(
                config.authorization.key_seq(),
                texts(directories@),
                config.media_source@,
                config.authorization.key_seq().len(),
            ),
            Err(message) => message@.len() > 0 && message@ == structure_errors(
                texts(directories@),
                config.media_source@,
            ),
        },
{
    let ghost all = texts(directories@);
    let mut errors: Vec<char> = Vec::new();
    let mut i: usize = 0;
    assert(all.take(0) =~= Seq::<Seq<char>>::empty());
    while i < directories.len()
        invariant
            i <= directories.len(),
            all == texts(directories@),
            errors@ == structure_errors(all.take(i as int), config.media_source@),
        decreases directories.len() - i,
    {
        proof {
            let seen = all.take(i + 1);
            assert(seen.drop_last() =~= all.take(i as int));
            assert(seen.last() == directories@[i as int]@);
        }
        let ghost before = errors@;
        match misplaced(directories[i].as_str(), config.media_source.as_str()) {
            Some(message) => {
                extend_chars(&mut errors, &message);
            },
            None => {
                assert(errors@ =~= before + Seq::<char>::empty());
            },
        }
        i += 1;
    }
    assert(all.take(directories.len() as int) =~= all);
    if errors.len() > 0 {
        return Err(string_of(&errors));
    }
    let source = chars_of(config.media_source.as_str());
    let ghost usernames = config.authorization.key_seq();
    let count = config.authorization.len();
    let mut create: Vec<String> = Vec::new();
    let mut k: usize = 0;
    assert(texts(create@) =~= missing_indexes(usernames, all, config.media_source@, 0));
    while k < count
        invariant
            k <= count,
            config.wf(),
            count == config.authorization.key_seq().len(),
            usernames == config.authorization.key_seq(),
            all == texts(directories@),
            source@ == config.media_source@,
            texts(create@) == missing_indexes(usernames, all, config.media_source@, k as nat),
        decreases count - k,
    {
        let username = config.authorization.key_at(k);
        let name = secure_directory(username.as_str());
        if !holds_name(directories, &name) {
            let ghost before = texts(create@);
            create.push(string_of(&join_below(&source, &name)));
            assert(texts(create@) =~= before.push(below(config.media_source@, name@)));
        }
        k += 1;
    }
    Ok(create)
}

/// How the server is started.
pub struct StartupPlan {
    /// The address to bind: host and port.
    pub address: String,
    /// Number of worker threads.
    pub workers: usize,
    /// Most connections served at a time.
    pub max_connections: usize,
    /// Largest request body accepted, in bytes.
    pub max_payload_size: usize,
    /// Whether to serve over TLS.
    pub tls: bool,
    /// Whether to warn that the limit on request bodies exceeds one
    /// gibibyte.
    pub warn_payload: bool,
    /// Whether to warn that cookies require TLS or a local host.
    pub warn_secure_session: bool,
}

/// The address to bind.
pub open spec fn bind_address(host: Seq<char>, port: int) -> Seq<char> {
    host + seq![':'] + decimal_text(port)
}

/// Decides how the server is started, given whether the certificate and key
/// files of the configuration exist. TLS is used if both do.
pub fn start(config: &Config, cert_exists: bool, key_exists: bool) -> (plan: StartupPlan)
    ensures
        plan.address@ == bind_address(config.media_host@, config.media_port as int),
        plan.workers == config.workers,
        plan.max_connections == config.max_connections,
        plan.max_payload_size == config.max_payload_size,
        plan.tls == (cert_exists && key_exists),
        plan.warn_payload == (config.max_payload_size > 1024 * 1024 * 1024),
        plan.warn_secure_session == config.secure_session,
{
    let mut address = chars_of(config.media_host.as_str());
    address.push(':');
    extend_chars(&mut address, &decimal_chars(config.media_port as i64));
    assert(address@ =~= bind_address(config.media_host@, config.media_port as int));
    StartupPlan {
        address: string_of(&address),
        workers: config.workers,
        max_connections: config.max_connections,
        max_payload_size: config.max_payload_size,
        tls: cert_exists && key_exists,
        warn_payload: config.max_payload_size > 1073741824,
        warn_secure_session: config.secure_session,
    }
}

/// In a layout without diagnostics no private directory is misplaced:
/// every directory that is private by its name lies in the root itself.
pub proof fn lemma_sound_structure(directories: Seq<Seq<char>>, media_source: Seq<char>)
    requires
        structure_errors(directories, media_source).len() == 0,
    ensures
        forall|i: int| 0 <= i < directories.len() ==> !is_misplaced(#[trigger] directories[i]),
    decreases directories.len(),
{
    if directories.len() > 0 {
        let front = directories.drop_last();
        let last = directories.last();
        if is_misplaced(last) {
            reveal_strlit("\"\n");
            assert(misplaced_message(last, media_source).len() > 0);
        }
        lemma_sound_structure(front, media_source);
        assert forall|i: int| 0 <= i < directories.len() implies !is_misplaced(
            #[trigger] directories[i],
        ) by {
            if i < directories.len() - 1 {
                assert(directories[i] == front[i]);
            }
        }
    }
}

/// Once the missing private directories have been created, every user has
/// a private directory in the root: it was among the directories, or it is
/// among those to create.
pub proof fn lemma_every_user_has_an_index(
    usernames: Seq<Seq<char>>,
    directories: Seq<Seq<char>>,
    media_source: Seq<char>,
    count: nat,
)
    requires
        count <= usernames.len(),
    ensures
        forall|i: int|
            0 <= i < count ==> directories.contains(secure_index_of(#[trigger] usernames[i]))
                || missing_indexes(usernames, directories, media_source, count).contains(
                below(media_source, secure_index_of(usernames[i])),
            ),
    decreases count,
{
    if count > 0 {
        let before = missing_indexes(usernames, directories, media_source, (count - 1) as nat);
        let all = missing_indexes(usernames, directories, media_source, count);
        lemma_every_user_has_an_index(usernames, directories, media_source, (count - 1) as nat);
        assert forall|i: int| 0 <= i < count implies directories.contains(
            secure_index_of(#[trigger] usernames[i]),
        ) || all.contains(below(media_source, secure_index_of(usernames[i]))) by {
            let name = secure_index_of(usernames[i]);
            if !directories.contains(name) {
                if i < count - 1 {
                    let k = choose|k: int|
                        0 <= k < before.len() && before[k] == below(media_source, name);
                    assert(all[k] == before[k]);
                } else {
                    assert(all[all.len() - 1] == below(media_source, name));
                }
            }
        }
    }
}

} // verus!
