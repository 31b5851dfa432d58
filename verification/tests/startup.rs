use rustream::settings::{
    default_debug, default_file_formats, default_max_connections, default_max_payload_size,
    default_media_host, default_media_port, default_secure_session, default_session_duration,
    default_ssl, default_utc_logging, default_websites, default_workers, first_ipv4, Config,
    HostAddress,
};
use rustream::startup::{
    env_file_name, init_logger, load_env_vars, mandatory_vars, parse_bool, parse_max_payload,
    parse_memory, parse_number, parse_path, parse_vec, start, validate_dir_structure,
    validate_vars,
};
use rustream::store::TextMap;

fn env_of(pairs: &[(&str, &str)]) -> TextMap {
    let mut env = TextMap::new();
    for (key, value) in pairs {
        env.insert(key.to_string(), value.to_string());
    }
    env
}

fn strings(names: &[&str]) -> Vec<String> {
    names.iter().map(|n| n.to_string()).collect()
}

fn config_of(users: &[(&str, &str)], source: &str) -> Config {
    Config {
        authorization: env_of(users),
        media_source: source.to_string(),
        debug: false,
        utc_logging: true,
        media_host: String::from("localhost"),
        media_port: 8000,
        session_duration: 3600,
        file_formats: strings(&["mp4"]),
        workers: 1,
        max_connections: 3,
        max_payload_size: 104857600,
        websites: Vec::new(),
        secure_session: false,
        key_file: String::new(),
        cert_file: String::new(),
    }
}

#[test]
fn defaults_are_as_documented() {
    assert!(!default_debug());
    assert!(default_utc_logging());
    assert_eq!(default_ssl(), "");
    assert_eq!(default_media_host(None), "localhost");
    assert_eq!(default_media_host(Some(&Vec::new())), "localhost");
    assert_eq!(default_media_host(Some(&vec![HostAddress::Other])), "localhost");
    let mixed = vec![
        HostAddress::Other,
        HostAddress::V4 { a: 192, b: 168, c: 1, d: 7 },
        HostAddress::V4 { a: 127, b: 0, c: 0, d: 1 },
    ];
    assert_eq!(default_media_host(Some(&mixed)), "192.168.1.7");
    assert_eq!(first_ipv4(&mixed), Some(String::from("192.168.1.7")));
    assert_eq!(first_ipv4(&vec![HostAddress::V4 { a: 0, b: 0, c: 0, d: 255 }]).unwrap(), "0.0.0.255");
    assert_eq!(first_ipv4(&vec![HostAddress::Other, HostAddress::Other]), None);
    assert_eq!(default_media_port(), 8000);
    assert_eq!(default_session_duration(), 3600);
    assert_eq!(default_file_formats(), strings(&["mp4", "mov", "jpg", "jpeg"]));
    assert_eq!(default_workers(Some(8)), 4);
    assert_eq!(default_workers(Some(1)), 0);
    assert_eq!(default_workers(None), 3);
    assert_eq!(default_max_connections(), 3);
    assert_eq!(default_max_payload_size(), 100 * 1024 * 1024);
    assert!(default_websites().is_empty());
    assert!(!default_secure_session());
}

#[test]
fn bool_is_true_or_false_and_nothing_else() {
    let env = env_of(&[("debug", "true"), ("utc_logging", "false"), ("secure_session", "yes")]);
    assert_eq!(parse_bool("debug", &env), Ok(Some(true)));
    assert_eq!(parse_bool("utc_logging", &env), Ok(Some(false)));
    assert_eq!(parse_bool("absent", &env), Ok(None));
    assert_eq!(
        parse_bool("secure_session", &env),
        Err(String::from("\nsecure_session\n\texpected bool, received 'yes' [value=invalid]\n"))
    );
}

#[test]
fn numbers_must_fit_their_type() {
    let env = env_of(&[
        ("media_port", "8080"),
        ("big", "65536"),
        ("minus", "-1"),
        ("plus", "+7"),
        ("words", "eighty"),
        ("empty", ""),
        ("low", "-9223372036854775808"),
        ("lower", "-9223372036854775809"),
        ("high", "9223372036854775807"),
        ("higher", "9223372036854775808"),
        ("zeros", "000123"),
    ]);
    assert_eq!(parse_number("media_port", &env, false, 0, 65535, "u16"), Ok(Some(8080)));
    assert_eq!(parse_number("absent", &env, false, 0, 65535, "u16"), Ok(None));
    assert_eq!(
        parse_number("big", &env, false, 0, 65535, "u16"),
        Err(String::from("\nbig\n\texpected u16, received '65536' [value=invalid]\n"))
    );
    assert_eq!(
        parse_number("minus", &env, false, 0, 65535, "u16"),
        Err(String::from("\nminus\n\texpected u16, received '-1' [value=invalid]\n"))
    );
    assert_eq!(parse_number("minus", &env, true, i64::MIN, i64::MAX, "i64"), Ok(Some(-1)));
    assert_eq!(parse_number("plus", &env, false, 0, 65535, "u16"), Ok(Some(7)));
    assert!(parse_number("words", &env, true, i64::MIN, i64::MAX, "i64").is_err());
    assert!(parse_number("empty", &env, true, i64::MIN, i64::MAX, "i64").is_err());
    assert_eq!(parse_number("low", &env, true, i64::MIN, i64::MAX, "i64"), Ok(Some(i64::MIN)));
    assert!(parse_number("lower", &env, true, i64::MIN, i64::MAX, "i64").is_err());
    assert_eq!(parse_number("high", &env, true, i64::MIN, i64::MAX, "i64"), Ok(Some(i64::MAX)));
    assert!(parse_number("higher", &env, true, i64::MIN, i64::MAX, "i64").is_err());
    assert_eq!(parse_number("zeros", &env, false, 0, 65535, "u16"), Ok(Some(123)));
}

#[test]
fn lists_are_json_arrays_of_strings() {
    let env = env_of(&[
        ("file_formats", r#"["mp4", "mkv"]"#),
        ("websites", "[]"),
        ("broken", "mp4,mkv"),
        ("mixed", r#"["mp4", 3]"#),
    ]);
    assert_eq!(parse_vec("file_formats", &env), Ok(Some(strings(&["mp4", "mkv"]))));
    assert_eq!(parse_vec("websites", &env), Ok(Some(Vec::new())));
    assert_eq!(parse_vec("absent", &env), Ok(None));
    assert_eq!(
        parse_vec("broken", &env),
        Err(String::from("\nbroken\n\texpected vec, received 'mp4,mkv' [value=invalid]\n"))
    );
    assert!(parse_vec("mixed", &env).is_err());
    assert_eq!(parse_path("broken", &env), Some(String::from("mp4,mkv")));
    assert_eq!(parse_path("absent", &env), None);
}

#[test]
fn memory_sizes_are_a_number_and_a_unit() {
    assert_eq!(parse_memory("100 MB"), Some(100 * 1024 * 1024));
    assert_eq!(parse_memory("1 KB"), Some(1024));
    assert_eq!(parse_memory("2 GB"), Some(2 * 1024 * 1024 * 1024));
    assert_eq!(parse_memory("3 TB"), Some(3 * 1024 * 1024 * 1024 * 1024));
    assert_eq!(parse_memory("0 ZB"), Some(0));
    assert_eq!(parse_memory("1 ZB"), None);
    assert_eq!(parse_memory("100MB"), None);
    assert_eq!(parse_memory("100 mb"), None);
    assert_eq!(parse_memory("100  MB"), None);
    assert_eq!(parse_memory("-1 MB"), None);
    assert_eq!(parse_memory("MB"), None);
    assert_eq!(parse_memory(""), None);
    assert_eq!(parse_memory("18014398509481984 KB"), None);
    assert_eq!(parse_memory("18014398509481983 KB"), Some(18014398509481983 * 1024));
    let env = env_of(&[("max_payload_size", "5 GB"), ("bad", "lots")]);
    assert_eq!(parse_max_payload("max_payload_size", &env), Ok(Some(5 * 1024 * 1024 * 1024)));
    assert_eq!(parse_max_payload("absent", &env), Ok(None));
    assert_eq!(
        parse_max_payload("bad", &env),
        Err(String::from("\nbad\n\texpected memory size, received 'lots' [value=invalid]\n"))
    );
}

#[test]
fn mandatory_settings_are_required() {
    assert_eq!(
        mandatory_vars(&env_of(&[("media_source", "/M")])).err(),
        Some(String::from(
            "\nauthorization\n\texpected a HashMap, received null [value=missing]\n"
        ))
    );
    assert_eq!(
        mandatory_vars(&env_of(&[("authorization", "alice"), ("media_source", "/M")])).err(),
        Some(String::from("\nauthorization\n\terror parsing JSON [value=invalid]\n"))
    );
    assert_eq!(
        mandatory_vars(&env_of(&[("authorization", r#"{"alice":"pw12345678"}"#)])).err(),
        Some(String::from(
            "\nmedia_source\n\texpected a directory path, received null [value=missing]\n"
        ))
    );
    let (users, source) = mandatory_vars(&env_of(&[
        ("authorization", r#"{"bobby":"pw87654321","alice":"pw12345678"}"#),
        ("media_source", "/M"),
    ]))
    .ok()
    .unwrap();
    assert_eq!(source, "/M");
    assert_eq!(users.len(), 2);
    assert_eq!(users.get("alice"), Some(&String::from("pw12345678")));
    assert_eq!(users.get("bobby"), Some(&String::from("pw87654321")));
}

#[test]
fn environment_fills_the_configuration() {
    let env = env_of(&[
        ("authorization", r#"{"alice":"pw12345678"}"#),
        ("media_source", "/M"),
        ("debug", "true"),
        ("media_port", "9000"),
        ("session_duration", "60"),
        ("file_formats", r#"["mkv"]"#),
        ("workers", "5"),
        ("max_payload_size", "1 GB"),
        ("websites", r#"["https://example.com"]"#),
        ("secure_session", "true"),
        ("key_file", "key.pem"),
    ]);
    let resolved = vec![HostAddress::Other, HostAddress::V4 { a: 10, b: 0, c: 0, d: 2 }];
    let config = load_env_vars(&env, Some(&resolved), Some(8)).ok().unwrap();
    assert_eq!(config.media_source, "/M");
    assert!(config.debug);
    assert!(config.utc_logging);
    assert_eq!(config.media_host, "10.0.0.2");
    assert_eq!(config.media_port, 9000);
    assert_eq!(config.session_duration, 60);
    assert_eq!(config.file_formats, strings(&["mkv"]));
    assert_eq!(config.workers, 5);
    assert_eq!(config.max_connections, 3);
    assert_eq!(config.max_payload_size, 1024 * 1024 * 1024);
    assert_eq!(config.websites, strings(&["https://example.com"]));
    assert!(config.secure_session);
    assert_eq!(config.key_file, "key.pem");
    assert_eq!(config.cert_file, "");
}

#[test]
fn environment_defaults_apply() {
    let env = env_of(&[("authorization", r#"{"alice":"pw12345678"}"#), ("media_source", "/M")]);
    let config = load_env_vars(&env, None, None).ok().unwrap();
    assert!(!config.debug);
    assert_eq!(config.media_host, "localhost");
    assert_eq!(config.media_port, 8000);
    assert_eq!(config.session_duration, 3600);
    assert_eq!(config.file_formats, strings(&["mp4", "mov", "jpg", "jpeg"]));
    assert_eq!(config.workers, 3);
    assert_eq!(config.max_payload_size, 104857600);
    assert!(config.websites.is_empty());
}

#[test]
fn environment_reports_the_first_unreadable_setting() {
    let env = env_of(&[
        ("authorization", r#"{"alice":"pw12345678"}"#),
        ("media_source", "/M"),
        ("workers", "many"),
        ("media_port", "http"),
    ]);
    assert_eq!(
        load_env_vars(&env, None, None).err(),
        Some(String::from("\nmedia_port\n\texpected u16, received 'http' [value=invalid]\n"))
    );
}

#[test]
fn short_names_and_passwords_are_reported() {
    assert_eq!(validate_vars(&config_of(&[("alice", "pw12345678")], "/M"), true), Ok(()));
    assert_eq!(
        validate_vars(&config_of(&[("al", "pw12345678")], "/M"), true),
        Err(String::from(
            "\nauthorization\n\t[al: **********] username should be at least 4 or more characters [value=invalid]\n"
        ))
    );
    assert_eq!(
        validate_vars(&config_of(&[("alice", "short")], "/M"), true),
        Err(String::from(
            "\nauthorization\n\t[alice: *****] password should be at least 8 or more characters [value=invalid]\n"
        ))
    );
    assert_eq!(
        validate_vars(&config_of(&[("al", "short"), ("bobby", "pw87654321")], "/nowhere"), false),
        Err(String::from(
            "\nmedia_source\n\tInput [/nowhere] is not a valid directory [value=invalid]\n\
             \nauthorization\n\t[al: *****] username should be at least 4 or more characters [value=invalid]\n\
             \nauthorization\n\t[al: *****] password should be at least 8 or more characters [value=invalid]\n"
        ))
    );
}

#[test]
fn private_directories_belong_in_the_root() {
    let config = config_of(&[("alice", "pw12345678"), ("bobby", "pw87654321")], "/M");
    let sound = strings(&["a", "a/b", "alice_SECURE_INDEX", "alice_SECURE_INDEX/more"]);
    assert_eq!(
        validate_dir_structure(&config, &sound),
        Ok(strings(&["/M/bobby_SECURE_INDEX"]))
    );
    assert_eq!(
        validate_dir_structure(&config, &Vec::new()),
        Ok(strings(&["/M/alice_SECURE_INDEX", "/M/bobby_SECURE_INDEX"]))
    );
    let unsound = strings(&["a", "a/b/carol_SECURE_INDEX", "alice_SECURE_INDEX"]);
    assert_eq!(
        validate_dir_structure(&config, &unsound),
        Err(String::from(
            "\n\"a/b/carol_SECURE_INDEX\"\n\tSecure index directory [\"carol_SECURE_INDEX\"] should be at the root [\"/M\"] [depth=3, valid=1]\n\t> Hint: Either move \"carol_SECURE_INDEX\" within \"/M\", [OR] set the 'media_source' to \"/M/a/b\"\n"
        ))
    );
}

#[test]
fn env_file_comes_from_argument_then_environment() {
    assert_eq!(env_file_name("custom.env", Some("a"), Some("b")), "custom.env");
    assert_eq!(env_file_name("", Some("a"), Some("b")), "a");
    assert_eq!(env_file_name("", None, Some("b")), "b");
    assert_eq!(env_file_name("", None, None), ".env");
}

#[test]
fn logger_is_quiet_unless_debugging() {
    let quiet = init_logger(false, true, "rustream");
    assert_eq!(quiet.filter, "actix_web=warn,actix_server=warn,rustream=info");
    assert_eq!(quiet.backtrace, "0");
    assert!(!quiet.local_time);
    let loud = init_logger(true, false, "rustream");
    assert_eq!(loud.filter, "actix_web=debug,actix_server=info,rustream=debug");
    assert_eq!(loud.backtrace, "1");
    assert!(loud.local_time);
}

#[test]
fn startup_plan_follows_the_configuration() {
    let mut config = config_of(&[("alice", "pw12345678")], "/M");
    let plain = start(&config, true, false);
    assert_eq!(plain.address, "localhost:8000");
    assert!(!plain.tls);
    assert!(!plain.warn_payload);
    assert!(!plain.warn_secure_session);
    assert_eq!(plain.workers, 1);
    assert_eq!(plain.max_connections, 3);
    config.max_payload_size = 1024 * 1024 * 1024 + 1;
    config.secure_session = true;
    config.media_port = 0;
    let secure = start(&config, true, true);
    assert_eq!(secure.address, "localhost:0");
    assert!(secure.tls);
    assert!(secure.warn_payload);
    assert!(secure.warn_secure_session);
}
