use rustream::authenticator::AuthToken;
use rustream::content::{
    default_structure, get_all_stream_content, get_dir_stream_content, get_file_font, get_iter,
    DirectoryItem,
};
use rustream::natural::{order_of_names, sort_by_name};
use rustream::settings::Config;
use rustream::store::TextMap;

fn chars(s: &str) -> Vec<char> {
    s.chars().collect()
}

fn strings(names: &[&str]) -> Vec<String> {
    names.iter().map(|n| n.to_string()).collect()
}

fn config_with_formats(formats: &[&str]) -> Config {
    Config {
        authorization: TextMap::new(),
        media_source: String::from("/M"),
        debug: false,
        utc_logging: true,
        media_host: String::from("localhost"),
        media_port: 8000,
        session_duration: 3600,
        file_formats: strings(formats),
        workers: 1,
        max_connections: 3,
        max_payload_size: 104857600,
        websites: Vec::new(),
        secure_session: false,
        key_file: String::new(),
        cert_file: String::new(),
    }
}

fn token_of(user: &str) -> AuthToken {
    AuthToken { ok: true, detail: String::new(), username: user.to_string(), time_left: 10 }
}

#[test]
fn natural_order_counts_digit_runs_as_numbers() {
    assert_eq!(order_of_names(&chars("file2"), &chars("file10")), -1);
    assert_eq!(order_of_names(&chars("file10"), &chars("file2")), 1);
    assert_eq!(order_of_names(&chars("a1b"), &chars("a10b")), -1);
    assert_eq!(order_of_names(&chars("a"), &chars("a")), 0);
    assert_eq!(order_of_names(&chars("a01"), &chars("a1")), 0);
    assert_eq!(order_of_names(&chars("1"), &chars("a")), -1);
    assert_eq!(order_of_names(&chars("a"), &chars("1")), 1);
    assert_eq!(order_of_names(&chars("a"), &chars("a1")), -1);
    assert_eq!(order_of_names(&chars(""), &chars("a")), -1);
    assert_eq!(order_of_names(&chars("B"), &chars("a")), -1);
}

#[test]
fn natural_order_handles_numbers_beyond_machine_words() {
    let big = "9".repeat(40);
    let bigger = format!("1{}", "0".repeat(40));
    assert_eq!(order_of_names(&chars(&big), &chars(&bigger)), -1);
    assert_eq!(order_of_names(&chars(&bigger), &chars(&big)), 1);
    assert_eq!(order_of_names(&chars(&format!("000{}", big)), &chars(&big)), 0);
}

#[test]
fn natural_sort_is_the_same_for_every_arrangement() {
    let expected = strings(&["1.mp4", "2.mp4", "10.mp4", "a1b", "a10b", "file2", "file10"]);
    let arrangements = [
        strings(&["file10", "file2", "a10b", "a1b", "10.mp4", "2.mp4", "1.mp4"]),
        strings(&["a1b", "1.mp4", "file10", "10.mp4", "a10b", "file2", "2.mp4"]),
        strings(&["2.mp4", "file2", "1.mp4", "a10b", "file10", "a1b", "10.mp4"]),
    ];
    for arrangement in arrangements {
        assert_eq!(sort_by_name(arrangement), expected);
    }
}

#[test]
fn natural_sort_keeps_the_order_of_equal_keys() {
    assert_eq!(sort_by_name(strings(&["a01", "a1", "a001"])), strings(&["a01", "a1", "a001"]));
    assert_eq!(sort_by_name(strings(&["a1", "a01"])), strings(&["a1", "a01"]));
    assert_eq!(sort_by_name(Vec::<String>::new()), Vec::<String>::new());
}

#[test]
fn file_font_by_extension() {
    assert_eq!(get_file_font("png"), "fa-regular fa-file-image");
    assert_eq!(get_file_font("jpeg"), "fa-regular fa-file-image");
    assert_eq!(get_file_font("webp"), "fa-regular fa-file-image");
    assert_eq!(get_file_font("mp4"), "fa-regular fa-file-video");
    assert_eq!(get_file_font(""), "fa-regular fa-file-video");
    assert!(default_structure().is_empty());
}

#[test]
fn root_listing_partitions_entries() {
    let config = config_with_formats(&["mp4", "jpg"]);
    let paths = strings(&[
        "video10.mp4",
        "video2.MP4",
        "notes.txt",
        "_hidden.mp4",
        ".dot.mp4",
        "shows/s1/e1.mp4",
        "shows/s1/e2.mp4",
        "films/heat.mp4",
        "shows/intro.mp4",
        "alice_SECURE_INDEX/clip.mp4",
        "alice_SECURE_INDEX/more/clip2.mp4",
        "bob_SECURE_INDEX/secret.mp4",
        "public/alice_SECURE_INDEX/x.mp4",
        "pics/cat.jpg",
        "empty/readme.md",
    ]);
    let payload = get_all_stream_content(&config, &token_of("alice"), &paths);
    let files: Vec<(&str, &str, &str)> = payload
        .files
        .iter()
        .map(|e| (e.name.as_str(), e.path.as_str(), e.font.as_str()))
        .collect();
    assert_eq!(
        files,
        vec![
            ("video2.MP4", "stream/video2.MP4", "fa-regular fa-file-video"),
            ("video10.mp4", "stream/video10.mp4", "fa-regular fa-file-video"),
        ]
    );
    let directories: Vec<(&str, &str, &str)> = payload
        .directories
        .iter()
        .map(|e| (e.name.as_str(), e.path.as_str(), e.font.as_str()))
        .collect();
    assert_eq!(
        directories,
        vec![
            ("films", "stream/films", "fa fa-folder"),
            ("pics", "stream/pics", "fa fa-folder"),
            ("shows", "stream/shows", "fa-solid fa-folder-tree"),
            ("shows", "stream/shows", "fa fa-folder"),
        ]
    );
    let secured: Vec<(&str, &str, &str)> = payload
        .secured_directories
        .iter()
        .map(|e| (e.name.as_str(), e.path.as_str(), e.font.as_str()))
        .collect();
    assert_eq!(
        secured,
        vec![("alice_SECURE_INDEX", "stream/alice_SECURE_INDEX", "fa-solid fa-lock")]
    );
}

#[test]
fn root_listing_shows_images_with_their_icon() {
    let config = config_with_formats(&["mp4", "jpg"]);
    let payload = get_all_stream_content(&config, &token_of("bob"), &strings(&["cat.JPG"]));
    assert_eq!(payload.files.len(), 1);
    assert_eq!(payload.files[0].font, "fa-regular fa-file-image");
}

#[test]
fn directory_listing_is_single_level() {
    let items = vec![
        DirectoryItem { name: String::from("10.mp4"), is_dir: false },
        DirectoryItem { name: String::from("2.mp4"), is_dir: false },
        DirectoryItem { name: String::from("1.txt"), is_dir: false },
        DirectoryItem { name: String::from("_x.mp4"), is_dir: false },
        DirectoryItem { name: String::from("season2"), is_dir: true },
        DirectoryItem { name: String::from("season10"), is_dir: true },
        DirectoryItem { name: String::from(".git"), is_dir: true },
        DirectoryItem { name: String::from("poster.png"), is_dir: false },
    ];
    let payload = get_dir_stream_content("a", &strings(&["mp4", "png"]), &items);
    let files: Vec<(&str, &str, &str)> = payload
        .files
        .iter()
        .map(|e| (e.name.as_str(), e.path.as_str(), e.font.as_str()))
        .collect();
    assert_eq!(
        files,
        vec![
            ("2.mp4", "a/2.mp4", "fa-regular fa-file-video"),
            ("10.mp4", "a/10.mp4", "fa-regular fa-file-video"),
            ("poster.png", "a/poster.png", "fa-regular fa-file-image"),
        ]
    );
    let directories: Vec<(&str, &str)> =
        payload.directories.iter().map(|e| (e.name.as_str(), e.path.as_str())).collect();
    assert_eq!(directories, vec![("season2", "a/season2"), ("season10", "a/season10")]);
    assert!(payload.secured_directories.is_empty());
}

#[test]
fn iter_gives_the_natural_neighbours() {
    let formats = strings(&["mp4"]);
    let siblings = strings(&["10.mp4", "1.mp4", "2.mp4", "notes.txt"]);
    let middle = get_iter("2.mp4", &formats, &siblings);
    assert_eq!(middle.previous, Some(String::from("1.mp4")));
    assert_eq!(middle.next, Some(String::from("10.mp4")));
    let first = get_iter("1.mp4", &formats, &siblings);
    assert_eq!(first.previous, None);
    assert_eq!(first.next, Some(String::from("2.mp4")));
    let last = get_iter("10.mp4", &formats, &siblings);
    assert_eq!(last.previous, Some(String::from("2.mp4")));
    assert_eq!(last.next, None);
    let absent = get_iter("notes.txt", &formats, &siblings);
    assert_eq!(absent.previous, None);
    assert_eq!(absent.next, None);
}
