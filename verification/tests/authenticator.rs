use rustream::authenticator::{
    check_plaintext, check_session, extract_credentials, remove_from_mapping, verify_login,
    verify_secure_index, verify_token,
};
use rustream::constant::{fernet_object, session_info};
use rustream::secure::{base64_encode, calculate_hash, hex_encode};
use rustream::settings::Config;
use rustream::store::TextMap;

fn config_with(users: &[(&str, &str)]) -> Config {
    let mut authorization = TextMap::new();
    for (user, password) in users {
        authorization.insert(user.to_string(), password.to_string());
    }
    Config {
        authorization,
        media_source: String::from("/M"),
        debug: false,
        utc_logging: true,
        media_host: String::from("localhost"),
        media_port: 8000,
        session_duration: 3600,
        file_formats: vec![String::from("mp4"), String::from("mov")],
        workers: 1,
        max_connections: 3,
        max_payload_size: 104857600,
        websites: Vec::new(),
        secure_session: false,
        key_file: String::new(),
        cert_file: String::new(),
    }
}

fn header_for(user: &str, password: &str, timestamp: &str) -> String {
    let signature = calculate_hash(format!(
        "{}{}{}",
        hex_encode(user),
        hex_encode(password),
        timestamp
    ));
    base64_encode(&format!("{},{},{}", hex_encode(user), signature, timestamp))
}

#[test]
fn secure_index_allows_paths_without_private_component() {
    assert!(verify_secure_index("a/b/c.mp4", "alice"));
    assert!(verify_secure_index("", "alice"));
    assert!(verify_secure_index("/M/a/video.mp4", "alice"));
}

#[test]
fn secure_index_allows_own_directory_only() {
    assert!(verify_secure_index("alice_SECURE_INDEX/clip.mp4", "alice"));
    assert!(!verify_secure_index("alice_SECURE_INDEX/clip.mp4", "bob"));
    assert!(verify_secure_index("/M/alice_SECURE_INDEX", "alice"));
    assert!(!verify_secure_index("/M/bob_SECURE_INDEX/x/y.mp4", "alice"));
}

#[test]
fn secure_index_goes_by_the_first_private_component() {
    assert!(verify_secure_index("alice_SECURE_INDEX/bob_SECURE_INDEX/x.mp4", "alice"));
    assert!(!verify_secure_index("bob_SECURE_INDEX/alice_SECURE_INDEX/x.mp4", "alice"));
    assert!(!verify_secure_index("SECURE_INDEX/x.mp4", "alice"));
    assert!(!verify_secure_index("xalice_SECURE_INDEX/x.mp4", "alice"));
    assert!(verify_secure_index("alice_SECURE_INDEX_old/x.mp4", "bob"));
}

#[test]
fn credentials_are_three_fields() {
    let header = base64_encode(&format!("{},{},{}", hex_encode("alice"), "sig", "1700000000"));
    let credentials = extract_credentials(&header).ok().unwrap();
    assert_eq!(credentials.username, "alice");
    assert_eq!(credentials.signature, "sig");
    assert_eq!(credentials.timestamp, "1700000000");
}

#[test]
fn credentials_with_fewer_fields_are_missing() {
    let header = base64_encode("only,two");
    assert_eq!(extract_credentials(&header).err(), Some("No credentials received"));
    assert_eq!(extract_credentials("").err(), Some("No credentials received"));
    assert_eq!(
        extract_credentials("%%%").err(),
        Some("Server was unable to decrypt the credentials")
    );
}

#[test]
fn login_with_good_signature_opens_a_session() {
    let config = config_with(&[("alice", "pw12345678")]);
    let mut session = session_info();
    let header = header_for("alice", "pw12345678", "1700000000");
    let payload = verify_login(Some(&header), &config, &mut session).ok().unwrap();
    assert_eq!(payload.username, "alice");
    assert_eq!(payload.timestamp, "1700000000");
    assert_eq!(payload.key.chars().count(), 64);
    assert_eq!(session.mapping.get("alice"), Some(&payload.key));
    assert!(session.tracker.is_empty());
}

#[test]
fn login_with_bad_credentials_changes_nothing() {
    let config = config_with(&[("alice", "pw12345678")]);
    let mut session = session_info();
    let wrong_password = header_for("alice", "pw00000000", "1700000000");
    let unknown_user = header_for("mallory", "pw12345678", "1700000000");
    assert_eq!(
        verify_login(Some(&wrong_password), &config, &mut session).err(),
        Some(String::from("Incorrect username or password"))
    );
    assert_eq!(
        verify_login(Some(&unknown_user), &config, &mut session).err(),
        Some(String::from("Incorrect username or password"))
    );
    assert_eq!(
        verify_login(None, &config, &mut session).err(),
        Some(String::from("No credentials received"))
    );
    assert_eq!(
        verify_login(Some("???"), &config, &mut session).err(),
        Some(String::from("Server was unable to decrypt the credentials"))
    );
    assert!(session.mapping.is_empty());
}

#[test]
fn session_is_valid_until_its_duration_has_passed() {
    let mut mapping = TextMap::new();
    mapping.insert(String::from("alice"), String::from("k1"));
    let fresh = check_session("alice", "k1", 1000, &mapping, 1100, 3600);
    assert!(fresh.ok);
    assert_eq!(fresh.username, "alice");
    assert_eq!(fresh.time_left, 3500);
    assert_eq!(fresh.detail, "Session valid for 3500s");
    let last = check_session("alice", "k1", 1000, &mapping, 4599, 3600);
    assert!(last.ok);
    assert_eq!(last.detail, "Session valid for 1s");
    assert_eq!(last.time_left, 1);
    let due = check_session("alice", "k1", 1000, &mapping, 4600, 3600);
    assert!(!due.ok);
    assert_eq!(due.detail, "Session Expired");
    assert_eq!(due.username, "alice");
    assert_eq!(due.time_left, 0);
    let late = check_session("alice", "k1", 1000, &mapping, 4601, 3600);
    assert!(!late.ok);
    assert_eq!(late.detail, "Session Expired");
    assert_eq!(late.username, "alice");
    assert_eq!(late.time_left, 0);
}

#[test]
fn session_with_wrong_key_or_unknown_user_is_invalid() {
    let mut mapping = TextMap::new();
    mapping.insert(String::from("alice"), String::from("k1"));
    let wrong = check_session("alice", "k2", 1000, &mapping, 1100, 3600);
    assert!(!wrong.ok);
    assert_eq!(wrong.detail, "Invalid session token");
    let unknown = check_session("bob", "k1", 1000, &mapping, 1100, 3600);
    assert!(!unknown.ok);
    assert_eq!(unknown.detail, "Invalid session token");
}

#[test]
fn session_time_left_saturates() {
    let mut mapping = TextMap::new();
    mapping.insert(String::from("alice"), String::from("k1"));
    let token = check_session("alice", "k1", i64::MAX, &mapping, i64::MIN, i64::MAX);
    assert!(token.ok);
    assert_eq!(token.time_left, i64::MAX);
}

#[test]
fn plaintext_must_be_a_session_payload() {
    let mut mapping = TextMap::new();
    mapping.insert(String::from("alice"), String::from("k1"));
    let good = br#"{"username":"alice","key":"k1","timestamp":"1000"}"#.to_vec();
    let token = check_plaintext(Some(good), &mapping, 1100, 3600);
    assert!(token.ok);
    assert_eq!(token.username, "alice");
    for bad in [
        &br#"{"username":"alice","key":"k1"}"#[..],
        &br#"{"username":"alice","key":"k1","timestamp":"soon"}"#[..],
        &br#"{"username":"alice","key":"k1","timestamp":1000}"#[..],
        &br#"["alice"]"#[..],
        &b"\xff\xfe"[..],
        &b""[..],
    ] {
        let token = check_plaintext(Some(bad.to_vec()), &mapping, 1100, 3600);
        assert!(!token.ok);
        assert_eq!(token.detail, "Invalid session token");
        assert_eq!(token.username, "NA");
    }
    let none = check_plaintext(None, &mapping, 1100, 3600);
    assert_eq!(none.detail, "Invalid session token");
}

#[test]
fn token_checks_come_in_order() {
    let config = config_with(&[("alice", "pw12345678")]);
    let cipher = fernet_object();
    let mut session = session_info();
    let none = verify_token(Some("anything"), 1000, &config, &cipher, &session);
    assert_eq!(none.detail, "Server doesn't recognize your session");
    assert_eq!(none.username, "NA");
    session.mapping.insert(String::from("alice"), String::from("k1"));
    let missing = verify_token(None, 1000, &config, &cipher, &session);
    assert_eq!(missing.detail, "Session information not found");
    let garbage = verify_token(Some("not a token"), 1000, &config, &cipher, &session);
    assert_eq!(garbage.detail, "Invalid session token");
    assert!(!garbage.ok);
}

#[test]
fn token_round_trip_through_the_cipher() {
    let config = config_with(&[("alice", "pw12345678")]);
    let cipher = fernet_object();
    let mut session = session_info();
    session.mapping.insert(String::from("alice"), String::from("k1"));
    let cookie = cipher.encrypt(br#"{"username":"alice","key":"k1","timestamp":"1700000000"}"#);
    let fresh = verify_token(Some(&cookie), 1700000100, &config, &cipher, &session);
    assert!(fresh.ok);
    assert_eq!(fresh.username, "alice");
    assert_eq!(fresh.time_left, 3500);
    let last = verify_token(Some(&cookie), 1700003599, &config, &cipher, &session);
    assert!(last.ok);
    assert_eq!(last.time_left, 1);
    let due = verify_token(Some(&cookie), 1700003600, &config, &cipher, &session);
    assert!(!due.ok);
    assert_eq!(due.detail, "Session Expired");
    let late = verify_token(Some(&cookie), 1700003601, &config, &cipher, &session);
    assert!(!late.ok);
    assert_eq!(late.detail, "Session Expired");
    let other = fernet_object();
    let foreign = verify_token(Some(&cookie), 1700000100, &config, &other, &session);
    assert_eq!(foreign.detail, "Invalid session token");
}

#[test]
fn removed_session_invalidates_its_tokens() {
    let config = config_with(&[("alice", "pw12345678"), ("bobby", "pw87654321")]);
    let cipher = fernet_object();
    let mut session = session_info();
    session.mapping.insert(String::from("alice"), String::from("k1"));
    session.mapping.insert(String::from("bobby"), String::from("k2"));
    let cookie = cipher.encrypt(br#"{"username":"alice","key":"k1","timestamp":"1700000000"}"#);
    assert!(verify_token(Some(&cookie), 1700000001, &config, &cipher, &session).ok);
    remove_from_mapping(&mut session, "alice");
    let after = verify_token(Some(&cookie), 1700000001, &config, &cipher, &session);
    assert!(!after.ok);
    assert_eq!(after.detail, "Invalid session token");
    assert_eq!(session.mapping.get("bobby"), Some(&String::from("k2")));
}
