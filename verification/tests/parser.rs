use rustream::constant::MetaData;
use rustream::logger::log_connection;
use rustream::constant::session_info;
use rustream::middleware::get_cors;
use rustream::parser::{arguments, Arguments};

fn metadata() -> MetaData {
    MetaData {
        crate_name: String::from("rustream"),
        manifest_dir: String::new(),
        authors: Vec::new(),
        description: String::new(),
        homepage: String::new(),
        pkg_name: String::from("RuStream"),
        pkg_repo: String::new(),
        pkg_version: String::from("1.2.3"),
        pkg_version_major: String::from("1"),
        pkg_version_minor: String::from("2"),
        pkg_version_patch: String::from("3"),
        pkg_version_pre: String::new(),
    }
}

fn args(list: &[&str]) -> Vec<String> {
    list.iter().map(|a| a.to_string()).collect()
}

fn text_of(asked: Arguments) -> (u8, String) {
    match asked {
        Arguments::Run { env_file } => (0, env_file),
        Arguments::Print { text } => (1, text),
        Arguments::Fail { text } => (2, text),
    }
}

#[test]
fn arguments_without_options_run_the_server() {
    assert_eq!(text_of(arguments(&args(&["rustream"]), &metadata())), (0, String::new()));
    assert_eq!(text_of(arguments(&args(&[]), &metadata())), (0, String::new()));
    assert_eq!(
        text_of(arguments(&args(&["rustream", "--env_file", "my.env"]), &metadata())),
        (0, String::from("my.env"))
    );
}

#[test]
fn arguments_version_wins_over_running() {
    for flag in ["-v", "-V", "--version"] {
        assert_eq!(
            text_of(arguments(&args(&["rustream", flag, "--env_file", "x"]), &metadata())),
            (1, String::from("RuStream 1.2.3"))
        );
    }
}

#[test]
fn arguments_help_ends_the_reading() {
    let (kind, text) = text_of(arguments(&args(&["rustream", "-h", "--bogus"]), &metadata()));
    assert_eq!(kind, 1);
    assert_eq!(
        text,
        "Usage: rustream [OPTIONS]\n\nRuStream takes the arguments, --env_file and --version/-v\n\n--env_file: Custom filename to load the environment variables. Defaults to '.env'\n--version: Get the package version.\n"
    );
    assert_eq!(text_of(arguments(&args(&["rustream", "--help"]), &metadata())).0, 1);
}

#[test]
fn arguments_that_are_wrong_fail() {
    assert_eq!(
        text_of(arguments(&args(&["rustream", "--bogus"]), &metadata())),
        (2, String::from("Unknown argument: --bogus"))
    );
    assert_eq!(
        text_of(arguments(&args(&["rustream", "-v", "--env_file"]), &metadata())),
        (2, String::from("--env_file requires a value."))
    );
}

#[test]
fn cors_allows_local_origins_and_websites() {
    let policy = get_cors(vec![String::from("https://example.com")]);
    assert_eq!(
        policy.origins,
        vec![
            "http://localhost.com",
            "https://localhost.com",
            "https://example.com",
            "http://localhost.com/*",
            "https://localhost.com/*",
            "https://example.com/*",
        ]
    );
    assert_eq!(policy.methods, vec!["GET", "POST"]);
    assert_eq!(policy.headers, vec!["authorization", "accept", "content-type", "secure-flag"]);
    assert_eq!(policy.max_age, 3600);
    assert_eq!(get_cors(Vec::new()).origins.len(), 4);
}

#[test]
fn connections_are_tracked_once_per_host() {
    let mut session = session_info();
    let first = log_connection("10.0.0.1", &mut session);
    assert!(first.first);
    assert_eq!(first.host, "10.0.0.1");
    assert_eq!(first.last_accessed, "");
    session.tracker.insert(String::from("10.0.0.1"), String::from("a/1.mp4"));
    let again = log_connection("10.0.0.1", &mut session);
    assert!(!again.first);
    assert_eq!(again.last_accessed, "a/1.mp4");
    assert_eq!(session.tracker.len(), 1);
    assert!(session.mapping.is_empty());
}
