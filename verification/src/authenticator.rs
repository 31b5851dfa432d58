//! Authentication: checking the credentials of a login, validating the
//! session token of a request, and guarding the private directories.

use crate::constant::{secure_directory, secure_index, secure_index_of, Session, SECURE_INDEX};
use crate::json::{field_of, find_field, json_object_text, json_text_map, parse_text_map};
use crate::secure::{
    base64_decode, base64_decoding, calculate_hash, constant_time_eq, decrypt, hex_decode,
    hex_decoding, hex_encode, hex_encoding, is_session_key, keygen, no_credentials, sha512_hex,
    text_of_utf8,
};
use crate::settings::Config;
use crate::store::TextMap;
use crate::text::{
    bounded_integer, chars_of, decimal_chars, decimal_text, ends_with, extend_chars, has_suffix,
    parse_integer, rows, same_chars, split, split_chars, string_of, text_of,
};
use vstd::prelude::*;
use vstd::utf8::{decode_utf8, valid_utf8};

verus! {

/// What the check of a session token found.
pub struct AuthToken {
    /// Whether the session is valid.
    pub ok: bool,
    /// The reason, for the user.
    pub detail: String,
    /// The user of the session, `NA` where none could be read.
    pub username: String,
    /// Seconds until the session expires; zero for an invalid session.
    pub time_left: i64,
}

/// An `AuthToken` as a mathematical value.
pub ghost struct AuthTokenView {
    pub ok: bool,
    pub detail: Seq<char>,
    pub username: Seq<char>,
    pub time_left: int,
}

impl View for AuthToken {
    type V = AuthTokenView;

    open spec fn view(&self) -> AuthTokenView {
        AuthTokenView {
            ok: self.ok,
            detail: self.detail@,
            username: self.username@,
            time_left: self.time_left as int,
        }
    }
}

/// The three parts of an authorization header.
pub struct Credentials {
    pub username: String,
    pub signature: String,
    pub timestamp: String,
}

/// `Credentials` as a mathematical value.
pub ghost struct CredentialsView {
    pub username: Seq<char>,
    pub signature: Seq<char>,
    pub timestamp: Seq<char>,
}

impl View for Credentials {
    type V = CredentialsView;

    open spec fn view(&self) -> CredentialsView {
        CredentialsView {
            username: self.username@,
            signature: self.signature@,
            timestamp: self.timestamp@,
        }
    }
}

/// What a successful login hands to the client, inside the session token.
pub struct SessionPayload {
    pub username: String,
    pub key: String,
    pub timestamp: String,
}

/// A path component that names a private directory.
pub open spec fn is_secure_component(component: Seq<char>) -> bool {
    ends_with(component, secure_index())
}

/// The components of a path: what stands between its slashes.
pub open spec fn path_components(path: Seq<char>) -> Seq<Seq<char>> {
    split(path, seq!['/'])
}

/// Whether `username` may reach `path`: the path has no component that names
/// a private directory, or the first such component is the private directory
/// of `username`.
pub open spec fn secure_index_allows(path: Seq<char>, username: Seq<char>) -> bool {
    let parts = path_components(path);
    ||| forall|i: int| 0 <= i < parts.len() ==> !is_secure_component(#[trigger] parts[i])
    ||| exists|i: int|
        0 <= i < parts.len() && is_secure_component(#[trigger] parts[i]) && parts[i]
            == secure_index_of(username) && forall|j: int|
            0 <= j < i ==> !is_secure_component(#[trigger] parts[j])
}

/// Decides whether `username` may read or change what lies at `path`,
/// a path relative to the media root or an absolute one below it.
pub fn verify_secure_index(path: &str, username: &str) -> (allowed: bool)
    ensures
        allowed == secure_index_allows(path@, username@),
{
    let chars = chars_of(path);
    let mut slash: Vec<char> = Vec::new();
    slash.push('/');
    assert(slash@ =~= seq!['/']);
    let parts = split_chars(&chars, &slash);
    let suffix = chars_of(SECURE_INDEX);
    let own = secure_directory(username);
    let ghost all = path_components(path@);
    let mut i: usize = 0;
    while i < parts.len()
        invariant
            i <= parts.len(),
            rows(parts@) == all,
            all == path_components(path@),
            suffix@ == secure_index(),
            own@ == secure_index_of(username@),
            forall|j: int| 0 <= j < i ==> !is_secure_component(#[trigger] all[j]),
        decreases parts.len() - i,
    {
        assert(all[i as int] == parts@[i as int]@);
        if has_suffix(&parts[i], &suffix) {
            let matches = same_chars(&parts[i], &own);
            proof {
                let here = i as int;
                assert(is_secure_component(all[here]));
                if matches {
                    assert(all[here] == secure_index_of(username@));
                } else {
                    assert forall|k: int|
                        0 <= k < all.len() && is_secure_component(#[trigger] all[k]) && all[k]
                            == secure_index_of(username@) implies !(forall|j: int|
                        0 <= j < k ==> !is_secure_component(#[trigger] all[j])) by {
                        if k > here {
                            assert(is_secure_component(all[here]));
                        }
                    }
                }
            }
            return matches;
        }
        i += 1;
    }
    true
}

/// The message for a login that names no known user or carries a wrong
/// signature. It does not tell which of the two failed.
pub open spec fn incorrect_credentials() -> Seq<char> {
    "Incorrect username or password"@
}

/// The credentials that an authorization header carries: the header is
/// base64 text of three fields separated by commas, the user name in
/// hexadecimal form, the signature and the timestamp. Fewer than three
/// fields carry no credentials; fields after the third are ignored.
pub open spec fn extracted_credentials(authorization: Seq<char>) -> Result<
    CredentialsView,
    Seq<char>,
> {
    match base64_decoding(authorization) {
        Err(message) => Err(message),
        Ok(decoded) => {
            let fields = split(decoded, seq![',']);
            if fields.len() < 3 {
                Err(no_credentials())
            } else {
                Ok(
                    CredentialsView {
                        username: hex_decoding(fields[0]),
                        signature: fields[1],
                        timestamp: fields[2],
                    },
                )
            }
        },
    }
}

/// Reads the credentials that an authorization header carries.
pub fn extract_credentials(authorization: &str) -> (r: Result<Credentials, &'static str>)
    ensures
        match r {
            Ok(credentials) => extracted_credentials(authorization@) == Ok::<
                CredentialsView,
                Seq<char>,
            >(credentials@),
            Err(message) => extracted_credentials(authorization@) == Err::<
                CredentialsView,
                Seq<char>,
            >(message@),
        },
{
    match base64_decode(authorization) {
        Ok(decoded) => {
            let chars = chars_of(decoded.as_str());
            let mut comma: Vec<char> = Vec::new();
            comma.push(',');
            assert(comma@ =~= seq![',']);
            let fields = split_chars(&chars, &comma);
            if fields.len() < 3 {
                return Err("No credentials received");
            }
            let ghost all = split(decoded@, seq![',']);
            assert(all[0] == fields@[0]@);
            assert(all[1] == fields@[1]@);
            assert(all[2] == fields@[2]@);
            let hex_username = string_of(&fields[0]);
            Ok(
                Credentials {
                    username: hex_decode(hex_username.as_str()),
                    signature: string_of(&fields[1]),
                    timestamp: string_of(&fields[2]),
                },
            )
        },
        Err(message) => Err(message),
    }
}

/// The signature that the server expects of a login: the SHA-512 digest, in
/// hexadecimal, of the hexadecimal forms of user name and password followed
/// by the timestamp.
pub open spec fn expected_signature(
    username: Seq<char>,
    password: Seq<char>,
    timestamp: Seq<char>,
) -> Seq<char> {
    sha512_hex(hex_encoding(username) + hex_encoding(password) + timestamp)
}

/// What a login attempt comes to: the credentials that it proved, or the
/// message that refuses it.
pub open spec fn login_outcome(
    authorization: Option<Seq<char>>,
    users: Map<Seq<char>, Seq<char>>,
) -> Result<CredentialsView, Seq<char>> {
    match authorization {
        None => Err(no_credentials()),
        Some(header) => match extracted_credentials(header) {
            Err(message) => Err(message),
            Ok(credentials) => if users.contains_key(credentials.username) && expected_signature(
                credentials.username,
                users[credentials.username],
                credentials.timestamp,
            ) == credentials.signature {
                Ok(credentials)
            } else {
                Err(incorrect_credentials())
            },
        },
    }
}

/// Checks the credentials of a login request, given the value of its
/// `Authorization` header. A login that succeeds gets a fresh session key,
/// which replaces any earlier session of the same user; a login that fails
/// changes nothing.
pub fn verify_login(authorization: Option<&str>, config: &Config, session: &mut Session) -> (r:
    Result<SessionPayload, String>)
    requires
        config.wf(),
        old(session).wf(),
    ensures
        final(session).wf(),
        final(session).tracker == old(session).tracker,
        match r {
            Ok(payload) => {
                &&& login_outcome(text_of(authorization), config.authorization@) matches Ok(
                    credentials,
                )
                &&& payload.username@ == credentials.username
                &&& payload.timestamp@ == credentials.timestamp
                &&& is_session_key(payload.key@)
                &&& final(session).mapping@ == old(session).mapping@.insert(
                    payload.username@,
                    payload.key@,
                )
            },
            Err(message) => {
                &&& login_outcome(text_of(authorization), config.authorization@) == Err::<
                    CredentialsView,
                    Seq<char>,
                >(message@)
                &&& final(session).mapping == old(session).mapping
            },
        },
{
    let header = match authorization {
        Some(header) => header,
        None => {
            return Err("No credentials received".to_owned());
        },
    };
    let credentials = match extract_credentials(header) {
        Ok(credentials) => credentials,
        Err(message) => {
            return Err(message.to_owned());
        },
    };
    let password = match config.authorization.get(credentials.username.as_str()) {
        Some(password) => password,
        None => {
            return Err("Incorrect username or password".to_owned());
        },
    };
    let mut message = chars_of(hex_encode(credentials.username.as_str()).as_str());
    let encoded_password = chars_of(hex_encode(password.as_str()).as_str());
    extend_chars(&mut message, &encoded_password);
    let timestamp = chars_of(credentials.timestamp.as_str());
    extend_chars(&mut message, &timestamp);
    let expected = chars_of(calculate_hash(string_of(&message)).as_str());
    let received = chars_of(credentials.signature.as_str());
    if !constant_time_eq(&expected, &received) {
        return Err("Incorrect username or password".to_owned());
    }
    let key = keygen();
    session.mapping.insert(credentials.username.clone(), key.clone());
    Ok(SessionPayload { username: credentials.username, key, timestamp: credentials.timestamp })
}

/// Ends the session of `username`: every token minted for that user is
/// invalid from now on.
pub fn remove_from_mapping(session: &mut Session, username: &str)
    requires
        old(session).wf(),
    ensures
        final(session).wf(),
        final(session).tracker == old(session).tracker,
        final(session).mapping@ == old(session).mapping@.remove(username@),
{
    let _ = session.mapping.remove(username);
}

/// The verdict of a token check that found no valid session.
pub open spec fn rejected(detail: Seq<char>, username: Seq<char>) -> AuthTokenView {
    AuthTokenView { ok: false, detail, username, time_left: 0 }
}

/// The verdict when the server holds no session at all.
pub open spec fn unrecognized_session() -> AuthTokenView {
    rejected("Server doesn't recognize your session"@, "NA"@)
}

/// The verdict for a request without a session cookie.
pub open spec fn missing_session() -> AuthTokenView {
    rejected("Session information not found"@, "NA"@)
}

/// The verdict for a token that cannot be read, or that names a session the
/// server does not hold.
pub open spec fn invalid_session(username: Seq<char>) -> AuthTokenView {
    rejected("Invalid session token"@, username)
}

/// The verdict for a session that has outlived its duration.
pub open spec fn expired_session(username: Seq<char>) -> AuthTokenView {
    rejected("Session Expired"@, username)
}

/// The seconds that a session minted at `timestamp` has left at `now`, at
/// most the largest 64-bit number.
pub open spec fn remaining_seconds(timestamp: int, now: int, duration: int) -> int {
    let left = duration - (now - timestamp);
    if left > i64::MAX {
        i64::MAX as int
    } else {
        left
    }
}

/// The verdict for a valid session.
pub open spec fn valid_session(username: Seq<char>, left: int) -> AuthTokenView {
    AuthTokenView {
        ok: true,
        detail: "Session valid for "@ + decimal_text(left) + "s"@,
        username,
        time_left: left,
    }
}

/// The verdict on the session that a token names. The session is valid if
/// and only if the server holds, for the user of the token, the key of the
/// token, and less than `duration` seconds have passed since `timestamp`.
pub open spec fn session_verdict(
    username: Seq<char>,
    key: Seq<char>,
    timestamp: int,
    mapping: Map<Seq<char>, Seq<char>>,
    now: int,
    duration: int,
) -> AuthTokenView {
    if !mapping.contains_key(username) || mapping[username] != key {
        invalid_session(username)
    } else if now - timestamp >= duration {
        expired_session(username)
    } else {
        valid_session(username, remaining_seconds(timestamp, now, duration))
    }
}

/// Decides on the session that a token names, given the fields of the token.
pub fn check_session(
    username: &str,
    key: &str,
    timestamp: i64,
    mapping: &TextMap,
    now: i64,
    duration: i64,
) -> (token: AuthToken)
    requires
        mapping.wf(),
    ensures
        token@ == session_verdict(
            username@,
            key@,
            timestamp as int,
            mapping@,
            now as int,
            duration as int,
        ),
{
    let known = match mapping.get(username) {
        Some(stored) => crate::text::same_text(stored.as_str(), key),
        None => false,
    };
    if !known {
        return AuthToken {
            ok: false,
            detail: "Invalid session token".to_owned(),
            username: username.to_owned(),
            time_left: 0,
        };
    }
    let age: i128 = now as i128 - timestamp as i128;
    if age >= duration as i128 {
        return AuthToken {
            ok: false,
            detail: "Session Expired".to_owned(),
            username: username.to_owned(),
            time_left: 0,
        };
    }
    let left: i128 = duration as i128 - age;
    let time_left: i64 = if left > i64::MAX as i128 {
        i64::MAX
    } else {
        left as i64
    };
    let mut detail = chars_of("Session valid for ");
    let digits = decimal_chars(time_left);
    extend_chars(&mut detail, &digits);
    detail.push('s');
    proof {
        reveal_strlit("s");
        assert("s"@ =~= seq!['s']);
        assert(detail@ =~= "Session valid for "@ + decimal_text(time_left as int) + "s"@);
    }
    AuthToken { ok: true, detail: string_of(&detail), username: username.to_owned(), time_left }
}

/// The verdict on the plaintext of a token. The plaintext must be UTF-8 text
/// of a JSON object with the strings `username`, `key` and `timestamp`, the
/// last a decimal numeral of seconds; anything else is an invalid token.
pub open spec fn plaintext_verdict(
    plaintext: Option<Seq<u8>>,
    mapping: Map<Seq<char>, Seq<char>>,
    now: int,
    duration: int,
) -> AuthTokenView {
    match plaintext {
        None => invalid_session("NA"@),
        Some(bytes) => if !valid_utf8(bytes) {
            invalid_session("NA"@)
        } else {
            match json_text_map(decode_utf8(bytes)) {
                None => invalid_session("NA"@),
                Some(pairs) => match (
                    field_of(pairs, "username"@),
                    field_of(pairs, "key"@),
                    field_of(pairs, "timestamp"@),
                ) {
                    (Some(username), Some(key), Some(stamp)) => match bounded_integer(
                        stamp,
                        true,
                        i64::MIN as int,
                        i64::MAX as int,
                    ) {
                        Some(timestamp) => session_verdict(
                            username,
                            key,
                            timestamp,
                            mapping,
                            now,
                            duration,
                        ),
                        None => invalid_session("NA"@),
                    },
                    _ => invalid_session("NA"@),
                },
            }
        },
    }
}

/// The bytes that a decryption produced, if it produced any.
pub open spec fn bytes_of(plaintext: Option<Vec<u8>>) -> Option<Seq<u8>> {
    match plaintext {
        Some(bytes) => Some(bytes@),
        None => None,
    }
}

fn invalid_token() -> (token: AuthToken)
    ensures
        token@ == invalid_session("NA"@),
{
    AuthToken {
        ok: false,
        detail: "Invalid session token".to_owned(),
        username: "NA".to_owned(),
        time_left: 0,
    }
}

/// Decides on a token given what its decryption produced: the plaintext, or
/// nothing where the token could not be decrypted.
pub fn check_plaintext(plaintext: Option<Vec<u8>>, mapping: &TextMap, now: i64, duration: i64) -> (token:
    AuthToken)
    requires
        mapping.wf(),
    ensures
        token@ == plaintext_verdict(
            bytes_of(plaintext),
            mapping@,
            now as int,
            duration as int,
        ),
{
    let bytes = match plaintext {
        Some(bytes) => bytes,
        None => {
            return invalid_token();
        },
    };
    let text = match text_of_utf8(bytes) {
        Some(text) => text,
        None => {
            return invalid_token();
        },
    };
    let pairs = match parse_text_map(text.as_str()) {
        Some(pairs) => pairs,
        None => {
            return invalid_token();
        },
    };
    let username = match find_field(&pairs, "username") {
        Some(username) => username,
        None => {
            return invalid_token();
        },
    };
    let key = match find_field(&pairs, "key") {
        Some(key) => key,
        None => {
            return invalid_token();
        },
    };
    let stamp = match find_field(&pairs, "timestamp") {
        Some(stamp) => stamp,
        None => {
            return invalid_token();
        },
    };
    let digits = chars_of(stamp.as_str());
    match parse_integer(&digits, true, i64::MIN, i64::MAX) {
        Some(timestamp) => check_session(
            username.as_str(),
            key.as_str(),
            timestamp,
            mapping,
            now,
            duration,
        ),
        None => invalid_token(),
    }
}

/// The verdict on a request, given what the decryption of its session
/// cookie produced. Without any session on the server the cookie is not
/// even looked at; a request without the cookie has no session; otherwise
/// the verdict is that on the plaintext.
pub open spec fn token_verdict(
    cookie: Option<Seq<char>>,
    plaintext: Option<Seq<u8>>,
    mapping: Map<Seq<char>, Seq<char>>,
    now: int,
    duration: int,
) -> AuthTokenView {
    if mapping == Map::<Seq<char>, Seq<char>>::empty() {
        unrecognized_session()
    } else if cookie is None {
        missing_session()
    } else {
        plaintext_verdict(plaintext, mapping, now, duration)
    }
}

/// Checks the session token of a request: `cookie` is the value of its
/// `session_token` cookie and `now` the time in seconds since the epoch.
///
/// The verdict is the one that `token_verdict` gives for what the
/// decryption of the cookie produced.
pub fn verify_token(
    cookie: Option<&str>,
    now: i64,
    config: &Config,
    cipher: &fernet::Fernet,
    session: &Session,
) -> (token: AuthToken)
    requires
        session.wf(),
    ensures
        exists|plaintext: Option<Seq<u8>>|
            token@ == token_verdict(
                text_of(cookie),
                plaintext,
                session.mapping@,
                now as int,
                config.session_duration as int,
            ),
{
    let ghost none: Option<Seq<u8>> = None;
    if session.mapping.is_empty() {
        let token = AuthToken {
            ok: false,
            detail: "Server doesn't recognize your session".to_owned(),
            username: "NA".to_owned(),
            time_left: 0,
        };
        assert(token@ == token_verdict(
            text_of(cookie),
            none,
            session.mapping@,
            now as int,
            config.session_duration as int,
        ));
        return token;
    }
    match cookie {
        None => {
            let token = AuthToken {
                ok: false,
                detail: "Session information not found".to_owned(),
                username: "NA".to_owned(),
                time_left: 0,
            };
            assert(token@ == token_verdict(
                text_of(cookie),
                none,
                session.mapping@,
                now as int,
                config.session_duration as int,
            ));
            token
        },
        Some(value) => {
            let plaintext = decrypt(cipher, value);
            let ghost witness: Option<Seq<u8>> = bytes_of(plaintext);
            let token = check_plaintext(plaintext, &session.mapping, now, config.session_duration);
            assert(token@ == token_verdict(
                text_of(cookie),
                witness,
                session.mapping@,
                now as int,
                config.session_duration as int,
            ));
            token
        },
    }
}

/// The verdict on the plaintext that a login mints for a session: that on
/// the session itself where the timestamp of the login is a number of
/// seconds, and an invalid token where it is not.
pub open spec fn minted_verdict(
    username: Seq<char>,
    key: Seq<char>,
    timestamp: Seq<char>,
    mapping: Map<Seq<char>, Seq<char>>,
    now: int,
    duration: int,
) -> AuthTokenView {
    match bounded_integer(timestamp, true, i64::MIN as int, i64::MAX as int) {
        Some(seconds) => session_verdict(username, key, seconds, mapping, now, duration),
        None => invalid_session("NA"@),
    }
}

/// The entries of the JSON object that is the plaintext of a session
/// token, ordered by key.
pub open spec fn payload_entries(
    username: Seq<char>,
    key: Seq<char>,
    timestamp: Seq<char>,
) -> Seq<(Seq<char>, Seq<char>)> {
    seq![("key"@, key), ("timestamp"@, timestamp), ("username"@, username)]
}

/// Writes the plaintext of the session token for a login: the JSON object
/// with the user name, the session key and the timestamp of the login.
///
/// Whatever sessions the server holds then, and whenever it looks, the
/// verdict on this plaintext is the verdict on the session it was minted
/// for.
pub fn mint_payload(payload: &SessionPayload) -> (text: String)
    ensures
        text@ == json_object_text(
            payload_entries(payload.username@, payload.key@, payload.timestamp@),
        ),
        forall|mapping: Map<Seq<char>, Seq<char>>, now: int, duration: int|
            #[trigger] plaintext_verdict(
                Some(vstd::utf8::encode_utf8(text@)),
                mapping,
                now,
                duration,
            ) == minted_verdict(
                payload.username@,
                payload.key@,
                payload.timestamp@,
                mapping,
                now,
                duration,
            ),
{
    let mut pairs: Vec<(String, String)> = Vec::new();
    pairs.push(("key".to_owned(), payload.key.clone()));
    pairs.push(("timestamp".to_owned(), payload.timestamp.clone()));
    pairs.push(("username".to_owned(), payload.username.clone()));
    let ghost entries = crate::json::pair_views(pairs@);
    proof {
        reveal_strlit("key");
        reveal_strlit("timestamp");
        reveal_strlit("username");
        assert(entries[0] == ("key"@, payload.key@));
        assert(entries[1] == ("timestamp"@, payload.timestamp@));
        assert(entries[2] == ("username"@, payload.username@));
        assert("key"@.len() == 3 && "timestamp"@.len() == 9 && "username"@.len() == 8);
        assert(entries.drop_first()[0] == entries[1]);
        assert(entries.drop_first().drop_first()[0] == entries[2]);
        assert(entries.drop_first().drop_first().drop_first().len() == 0);
        let rest = entries.drop_first();
        let last = rest.drop_first();
        assert("key"@ != "timestamp"@ && "key"@ != "username"@ && "timestamp"@ != "username"@);
        assert(rest.first() == entries[1] && last.first() == entries[2]);
        assert(field_of(last, "username"@) == Some(payload.username@));
        assert(field_of(rest, "username"@) == field_of(last, "username"@));
        assert(field_of(rest, "timestamp"@) == Some(payload.timestamp@));
        assert(field_of(entries, "key"@) == Some(payload.key@));
        assert(field_of(entries, "timestamp"@) == Some(payload.timestamp@));
        assert(field_of(entries, "username"@) == Some(payload.username@));
    }
    assert(entries =~= payload_entries(payload.username@, payload.key@, payload.timestamp@));
    let text = crate::json::write_text_map(&pairs);
    proof {
        vstd::utf8::encode_utf8_valid_utf8(text@);
        vstd::utf8::encode_utf8_decode_utf8(text@);
    }
    text
}

/// A token minted for a user whose session the server still holds is valid
/// while less than `duration` seconds have passed since its timestamp, and
/// names that user; once `duration` seconds or more have passed it is
/// expired.
pub proof fn lemma_session_lifetime(
    username: Seq<char>,
    key: Seq<char>,
    timestamp: int,
    mapping: Map<Seq<char>, Seq<char>>,
    now: int,
    duration: int,
)
    requires
        mapping.contains_key(username),
        mapping[username] == key,
    ensures
        now - timestamp < duration ==> session_verdict(
            username,
            key,
            timestamp,
            mapping,
            now,
            duration,
        ).ok && session_verdict(username, key, timestamp, mapping, now, duration).username
            == username,
        now - timestamp >= duration ==> session_verdict(
            username,
            key,
            timestamp,
            mapping,
            now,
            duration,
        ) == expired_session(username),
        session_verdict(username, key, timestamp, mapping, now, duration).ok <==> now - timestamp
            < duration,
{
}

/// A session is valid if and only if the server holds, for the user of the
/// token, the key of the token, and less than `duration` seconds have
/// passed since the timestamp of the token.
pub proof fn lemma_session_validity(
    username: Seq<char>,
    key: Seq<char>,
    timestamp: int,
    mapping: Map<Seq<char>, Seq<char>>,
    now: int,
    duration: int,
)
    ensures
        session_verdict(username, key, timestamp, mapping, now, duration).ok <==> (
        mapping.contains_key(username) && mapping[username] == key && now - timestamp
            < duration),
{
}

/// Once the session of a user has been removed, no token of that user is
/// valid, whatever its key and however recent its timestamp.
pub proof fn lemma_removed_session_is_invalid(
    username: Seq<char>,
    key: Seq<char>,
    timestamp: int,
    mapping: Map<Seq<char>, Seq<char>>,
    now: int,
    duration: int,
)
    ensures
        session_verdict(username, key, timestamp, mapping.remove(username), now, duration)
            == invalid_session(username),
        !session_verdict(username, key, timestamp, mapping.remove(username), now, duration).ok,
{
}

/// The plaintext minted for a session verifies as that session: it is
/// valid while less than `duration` seconds have passed since the
/// timestamp of the login, and names the user; once `duration` seconds or
/// more have passed it is expired; and once the session of the user has
/// been removed it is invalid.
pub proof fn lemma_minted_session(
    username: Seq<char>,
    key: Seq<char>,
    timestamp: Seq<char>,
    seconds: int,
    mapping: Map<Seq<char>, Seq<char>>,
    now: int,
    duration: int,
)
    requires
        bounded_integer(timestamp, true, i64::MIN as int, i64::MAX as int) == Some(seconds),
        mapping.contains_key(username),
        mapping[username] == key,
    ensures
        now - seconds < duration ==> minted_verdict(
            username,
            key,
            timestamp,
            mapping,
            now,
            duration,
        ).ok && minted_verdict(username, key, timestamp, mapping, now, duration).username
            == username,
        now - seconds >= duration ==> minted_verdict(
            username,
            key,
            timestamp,
            mapping,
            now,
            duration,
        ) == expired_session(username),
        !minted_verdict(username, key, timestamp, mapping.remove(username), now, duration).ok,
{
}

} // verus!
