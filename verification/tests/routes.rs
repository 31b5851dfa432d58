use rustream::authenticator::{verify_token, AuthToken};
use rustream::constant::{fernet_object, session_info};
use rustream::content::DirectoryItem;
use rustream::responses::{not_found, restricted, Body, Page, Reply};
use rustream::routes::auth::{authorize, error, failed_auth, gate, home, login, logout, welcome};
use rustream::routes::basics::{health, profile, root};
use rustream::routes::fileio::{
    delete, edit, edit_done, extract_media_path, is_valid_name, media_path_candidates, rename,
    EditStep, PathKind, Payload,
};
use rustream::routes::media::{stream, streaming_endpoint, subtitles, track, with_track, Target};
use rustream::routes::upload::{save_files, upload_directory, upload_files, UploadEvent, UploadStep};
use rustream::secure::{base64_encode, calculate_hash, hex_encode};
use rustream::settings::Config;
use rustream::store::TextMap;

fn strings(names: &[&str]) -> Vec<String> {
    names.iter().map(|n| n.to_string()).collect()
}

fn config() -> Config {
    let mut authorization = TextMap::new();
    authorization.insert(String::from("alice"), String::from("pw12345678"));
    authorization.insert(String::from("bobby"), String::from("pw87654321"));
    Config {
        authorization,
        media_source: String::from("/M"),
        debug: false,
        utc_logging: true,
        media_host: String::from("localhost"),
        media_port: 8000,
        session_duration: 3600,
        file_formats: strings(&["mp4", "jpg"]),
        workers: 1,
        max_connections: 3,
        max_payload_size: 104857600,
        websites: Vec::new(),
        secure_session: false,
        key_file: String::new(),
        cert_file: String::new(),
    }
}

fn token_of(user: &str) -> AuthToken {
    AuthToken { ok: true, detail: String::from("ok"), username: user.to_string(), time_left: 42 }
}

fn header_for(user: &str, password: &str, timestamp: &str) -> String {
    let signature = calculate_hash(format!(
        "{}{}{}",
        hex_encode(user),
        hex_encode(password),
        timestamp
    ));
    base64_encode(&format!("{},{},{}", hex_encode(user), signature, timestamp))
}

fn text_body(reply: &Reply) -> &str {
    match &reply.body {
        Body::Json(text) | Body::Redirect(text) | Body::Text(text) => text,
        Body::Detail(error) => &error.detail,
        Body::File(path) => path,
        _ => panic!("the answer has no text"),
    }
}

fn error_page(reply: &Reply) -> (&str, &str, &str, &str, &str, bool) {
    match &reply.body {
        Body::Html(Page::Error(page)) => (
            page.title.as_str(),
            page.description.as_str(),
            page.help.as_str(),
            page.button_text.as_str(),
            page.button_link.as_str(),
            page.block_navigation,
        ),
        _ => panic!("the answer is no error page"),
    }
}

#[test]
fn failed_auth_redirects_with_the_reason() {
    let token = AuthToken {
        ok: false,
        detail: String::from("Session Expired"),
        username: String::from("alice"),
        time_left: 0,
    };
    let mut secure = config();
    secure.secure_session = true;
    let reply = failed_auth(token, &secure);
    assert_eq!(reply.status, 302);
    assert_eq!(reply.location.as_deref(), Some("/error"));
    assert!(matches!(reply.body, Body::Empty));
    let cookie = reply.cookie.unwrap();
    assert_eq!(cookie.name, "detail");
    assert_eq!(cookie.value, "Session Expired");
    assert_eq!(cookie.path.as_deref(), Some("/error"));
    assert!(cookie.http_only);
    assert!(cookie.same_site_strict);
    assert_eq!(cookie.max_age, Some(3));
    assert_eq!(cookie.expires, None);
    assert!(cookie.secure);
    assert!(!cookie.removal);
}

#[test]
fn gate_lets_valid_sessions_pass() {
    assert!(gate(token_of("alice"), &config()).is_ok());
    let refused = AuthToken {
        ok: false,
        detail: String::from("Invalid session token"),
        username: String::from("NA"),
        time_left: 0,
    };
    let reply = gate(refused, &config()).err().unwrap();
    assert_eq!(reply.status, 302);
    assert_eq!(reply.cookie.unwrap().value, "Invalid session token");
}

#[test]
fn login_then_home_with_the_cookie() {
    let config = config();
    let cipher = fernet_object();
    let mut session = session_info();
    let header = header_for("alice", "pw12345678", "1700000000");
    let reply = login(Some(&header), "10.0.0.1", 1700000000, &config, &cipher, &mut session);
    assert_eq!(reply.status, 200);
    assert_eq!(text_body(&reply), "/home");
    assert!(matches!(reply.body, Body::Redirect(_)));
    let cookie = reply.cookie.unwrap();
    assert_eq!(cookie.name, "session_token");
    assert!(cookie.http_only);
    assert!(cookie.same_site_strict);
    assert!(!cookie.secure);
    assert_eq!(cookie.path, None);
    assert_eq!(cookie.max_age, Some(3600));
    assert_eq!(cookie.expires, Some(1700003600));
    assert!(cookie.value.chars().all(|c| c.is_ascii_alphanumeric() || "-_=".contains(c)));
    assert!(session.tracker.contains_key("10.0.0.1"));
    assert_eq!(session.mapping.len(), 1);

    let token = verify_token(Some(&cookie.value), 1700000010, &config, &cipher, &session);
    assert!(token.ok);
    assert_eq!(token.username, "alice");
    assert_eq!(token.time_left, 3590);
    let expired = verify_token(Some(&cookie.value), 1700003601, &config, &cipher, &session);
    assert_eq!(expired.detail, "Session Expired");

    let auth = authorize(Some(&cookie.value), 1700000010, &config, &cipher, &session).ok().unwrap();
    let page = home(&auth, "10.0.0.1", &config, &mut session, &strings(&["b.mp4", "a/x.mp4"]));
    assert_eq!(page.status, 200);
    match page.body {
        Body::Html(Page::Listing { custom_title, content, user, secure_path }) => {
            assert_eq!(custom_title, None);
            assert_eq!(user, "alice");
            assert!(!secure_path);
            assert_eq!(content.files.len(), 1);
            assert_eq!(content.files[0].path, "stream/b.mp4");
            assert_eq!(content.directories.len(), 1);
            assert_eq!(content.directories[0].name, "a");
        }
        _ => panic!("home shows a listing"),
    }
}

#[test]
fn login_with_wrong_password_is_unauthorized() {
    let config = config();
    let cipher = fernet_object();
    let mut session = session_info();
    let header = header_for("alice", "wrong-password", "1700000000");
    let reply = login(Some(&header), "10.0.0.1", 1700000000, &config, &cipher, &mut session);
    assert_eq!(reply.status, 401);
    assert!(matches!(reply.body, Body::Detail(_)));
    assert_eq!(text_body(&reply), "Incorrect username or password");
    assert!(reply.cookie.is_none());
    assert!(session.mapping.is_empty());
    assert!(session.tracker.is_empty());
    let none = login(None, "10.0.0.1", 1700000000, &config, &cipher, &mut session);
    assert_eq!(text_body(&none), "No credentials received");
}

#[test]
fn request_without_cookie_is_redirected_to_the_error_page() {
    let config = config();
    let cipher = fernet_object();
    let mut session = session_info();
    session.mapping.insert(String::from("alice"), String::from("k"));
    let reply = authorize(None, 1700000000, &config, &cipher, &session).err().unwrap();
    let session_reply = rustream::routes::auth::error(
        reply.cookie.as_ref().map(|c| c.value.as_str()),
    );
    assert_eq!(reply.status, 302);
    assert_eq!(reply.location.as_deref(), Some("/error"));
    assert_eq!(session_reply.status, 200);
    match session_reply.body {
        Body::Html(Page::Session { reason }) => assert_eq!(reason, "Session information not found"),
        _ => panic!("the error page shows the reason"),
    }
}

#[test]
fn error_page_without_reason_is_a_failed_login() {
    let reply = error(None);
    assert_eq!(reply.status, 401);
    assert_eq!(
        error_page(&reply),
        (
            "LOGIN FAILED",
            "USER ERROR - REPLACE USER",
            "Forgot Password?\\n\\nRelax and try to remember your password.",
            "LOGIN",
            "/",
            true
        )
    );
}

#[test]
fn welcome_cookie_has_no_expiry_beyond_the_calendar() {
    let reply = welcome(String::from("token"), i64::MAX, &config());
    let cookie = reply.cookie.unwrap();
    assert_eq!(cookie.value, "token");
    assert_eq!(cookie.expires, None);
    assert_eq!(cookie.max_age, Some(3600));
}

#[test]
fn logout_forgets_the_host_and_the_cookie() {
    let mut session = session_info();
    session.tracker.insert(String::from("10.0.0.1"), String::from("a.mp4"));
    session.mapping.insert(String::from("alice"), String::from("k"));
    let reply = logout("10.0.0.1", &token_of("alice"), &mut session);
    assert_eq!(reply.status, 200);
    match &reply.body {
        Body::Html(Page::Logout { detail, show_login }) => {
            assert_eq!(detail, "You have been logged out successfully.");
            assert!(!show_login);
        }
        _ => panic!("logout shows its page"),
    }
    let cookie = reply.cookie.unwrap();
    assert_eq!(cookie.name, "session_token");
    assert_eq!(cookie.value, "");
    assert!(cookie.removal);
    assert!(cookie.same_site_strict);
    assert!(session.tracker.is_empty());
    assert_eq!(session.mapping.len(), 1);
}

#[test]
fn logout_without_session_offers_the_login() {
    let mut session = session_info();
    session.tracker.insert(String::from("10.0.0.1"), String::from("a.mp4"));
    let invalid =
        AuthToken { ok: false, detail: String::new(), username: String::from("NA"), time_left: 0 };
    let reply = logout("10.0.0.1", &invalid, &mut session);
    assert_eq!(reply.status, 200);
    assert!(reply.cookie.is_none());
    match &reply.body {
        Body::Html(Page::Logout { detail, show_login }) => {
            assert_eq!(detail, "You are not logged in. Please click the button below to proceed.");
            assert!(show_login);
        }
        _ => panic!("logout shows its page"),
    }
    assert_eq!(session.tracker.len(), 1);
}

#[test]
fn health_and_root() {
    let reply = health();
    assert_eq!(reply.status, 200);
    assert!(matches!(reply.body, Body::Json(_)));
    assert_eq!(text_body(&reply), "Healthy");
    let mut session = session_info();
    let index = root("10.0.0.9", &mut session);
    assert_eq!(index.status, 200);
    assert!(matches!(index.body, Body::Html(Page::Index)));
    assert_eq!(session.tracker.get("10.0.0.9"), Some(&String::new()));
}

#[test]
fn profile_shows_what_was_streamed_last() {
    let mut session = session_info();
    let fresh = profile(&token_of("alice"), "10.0.0.1", &config(), &mut session);
    match fresh.body {
        Body::Html(Page::Profile { user, time_left, file }) => {
            assert_eq!(user, "alice");
            assert_eq!(time_left, 42);
            assert!(file.is_none());
        }
        _ => panic!("profile shows its page"),
    }
    session.tracker.insert(String::from("10.0.0.1"), String::from("a/b/pic.png"));
    match profile(&token_of("alice"), "10.0.0.1", &config(), &mut session).body {
        Body::Html(Page::Profile { file, .. }) => {
            let file = file.unwrap();
            assert_eq!(file.name, "pic.png");
            assert_eq!(file.path, "/stream/a/b/pic.png");
            assert_eq!(file.font, "fa-regular fa-file-image");
        }
        _ => panic!("profile shows its page"),
    }
    session.tracker.insert(String::from("10.0.0.1"), String::from("alice_SECURE_INDEX/clip"));
    match profile(&token_of("alice"), "10.0.0.1", &config(), &mut session).body {
        Body::Html(Page::Profile { file, .. }) => {
            let file = file.unwrap();
            assert_eq!(file.name, "clip");
            assert_eq!(file.font, "fa-solid fa-lock");
        }
        _ => panic!("profile shows its page"),
    }
}

#[test]
fn error_pages_lead_home() {
    let forbidden = restricted("bobby");
    assert_eq!(forbidden.status, 403);
    assert_eq!(
        error_page(&forbidden),
        (
            "RESTRICTED SECTION",
            "This content is not accessible, as it does not belong to the user profile 'bobby'",
            "Lost your way?\\n\\nHit the HOME button to navigate back to home page.",
            "HOME",
            "/home",
            true
        )
    );
    let missing = not_found("a/b.mp4");
    assert_eq!(missing.status, 404);
    assert_eq!(error_page(&missing).0, "CONTENT UNAVAILABLE");
    assert_eq!(error_page(&missing).1, "'a/b.mp4' was not found");
}

#[test]
fn stream_file_with_natural_neighbours() {
    let config = config();
    let mut session = session_info();
    let target = Target::File {
        siblings: strings(&["10.mp4", "1.mp4", "2.mp4", "2.srt"]),
        vtt_exists: false,
        srt_exists: false,
    };
    let streamed = stream(&token_of("alice"), "a/2.mp4", &target, "h", &config, &mut session);
    assert!(streamed.convert.is_none());
    assert_eq!(streamed.reply.status, 200);
    match streamed.reply.body {
        Body::Html(Page::Landing(landing)) => {
            assert_eq!(landing.media_title, "2.mp4");
            assert_eq!(landing.path, "/media?file=a%2F2.mp4");
            assert_eq!(landing.previous, "1.mp4");
            assert_eq!(landing.next, "10.mp4");
            assert_eq!(landing.user, "alice");
            assert!(!landing.render_image);
            assert_eq!(landing.track, None);
        }
        _ => panic!("a file gets its landing page"),
    }
    assert!(session.tracker.contains_key("h"));
}

#[test]
fn stream_file_with_subtitles() {
    let config = config();
    let mut session = session_info();
    let with_vtt =
        Target::File { siblings: strings(&["my film.mp4"]), vtt_exists: true, srt_exists: true };
    let streamed =
        stream(&token_of("alice"), "a/my film.mp4", &with_vtt, "h", &config, &mut session);
    assert!(streamed.convert.is_none());
    match streamed.reply.body {
        Body::Html(Page::Landing(landing)) => {
            assert_eq!(landing.path, "/media?file=a%2Fmy+film.mp4");
            assert_eq!(landing.track.as_deref(), Some("/track?file=a%2Fmy+film.vtt"));
            assert_eq!(landing.previous, "");
            assert_eq!(landing.next, "");
        }
        _ => panic!("a file gets its landing page"),
    }
    let with_srt =
        Target::File { siblings: strings(&["film.mp4"]), vtt_exists: false, srt_exists: true };
    let streamed = stream(&token_of("alice"), "a/film.mp4", &with_srt, "h", &config, &mut session);
    let files = streamed.convert.unwrap();
    assert_eq!(files.srt, "/M/a/film.srt");
    assert_eq!(files.vtt, "/M/a/film.vtt");
    assert_eq!(files.vtt_file, "a/film.vtt");
    let shown = with_track(streamed.reply, &files.vtt_file);
    match shown.body {
        Body::Html(Page::Landing(landing)) => {
            assert_eq!(landing.track.as_deref(), Some("/track?file=a%2Ffilm.vtt"));
        }
        _ => panic!("a file gets its landing page"),
    }
    let untouched = with_track(health(), "x.vtt");
    assert_eq!(text_body(&untouched), "Healthy");
}

#[test]
fn stream_image_is_rendered_as_image() {
    let config = config();
    let mut session = session_info();
    let target =
        Target::File { siblings: strings(&["cat.JPG"]), vtt_exists: true, srt_exists: true };
    let streamed = stream(&token_of("alice"), "cat.JPG", &target, "h", &config, &mut session);
    assert!(streamed.convert.is_none());
    match streamed.reply.body {
        Body::Html(Page::Landing(landing)) => {
            assert!(landing.render_image);
            assert_eq!(landing.track, None);
            assert_eq!(landing.path, "/media?file=cat.JPG");
        }
        _ => panic!("a file gets its landing page"),
    }
}

#[test]
fn stream_directory_listing() {
    let config = config();
    let mut session = session_info();
    let target = Target::Directory {
        items: vec![
            DirectoryItem { name: String::from("clip10.mp4"), is_dir: false },
            DirectoryItem { name: String::from("clip9.mp4"), is_dir: false },
            DirectoryItem { name: String::from("sub"), is_dir: true },
        ],
    };
    let streamed =
        stream(&token_of("alice"), "alice_SECURE_INDEX", &target, "h", &config, &mut session);
    assert_eq!(streamed.reply.status, 200);
    match streamed.reply.body {
        Body::Html(Page::Listing { custom_title, content, user, secure_path }) => {
            assert_eq!(
                custom_title.as_deref(),
                Some("<i class='fa-solid fa-lock'></i>&nbsp;&nbsp;alice")
            );
            assert_eq!(user, "alice");
            assert!(secure_path);
            let files: Vec<&str> = content.files.iter().map(|e| e.path.as_str()).collect();
            assert_eq!(
                files,
                vec!["alice_SECURE_INDEX/clip9.mp4", "alice_SECURE_INDEX/clip10.mp4"]
            );
            assert_eq!(content.directories[0].path, "alice_SECURE_INDEX/sub");
        }
        _ => panic!("a directory gets its listing"),
    }
    let plain = Target::Directory { items: Vec::new() };
    match stream(&token_of("alice"), "shows/s1", &plain, "h", &config, &mut session).reply.body {
        Body::Html(Page::Listing { custom_title, secure_path, .. }) => {
            assert_eq!(custom_title.as_deref(), Some("s1"));
            assert!(!secure_path);
        }
        _ => panic!("a directory gets its listing"),
    }
}

#[test]
fn stream_refuses_what_is_private_or_missing() {
    let config = config();
    let mut session = session_info();
    let file = Target::File { siblings: Vec::new(), vtt_exists: false, srt_exists: true };
    let streamed =
        stream(&token_of("bobby"), "alice_SECURE_INDEX/clip.mp4", &file, "h", &config, &mut session);
    assert_eq!(streamed.reply.status, 403);
    assert!(streamed.convert.is_none());
    assert_eq!(error_page(&streamed.reply).0, "RESTRICTED SECTION");
    let own =
        stream(&token_of("alice"), "alice_SECURE_INDEX/clip.mp4", &file, "h", &config, &mut session);
    assert_eq!(own.reply.status, 200);
    let missing = stream(&token_of("alice"), "a/none.mp4", &Target::Missing, "h", &config, &mut session);
    assert_eq!(missing.reply.status, 404);
    assert_eq!(error_page(&missing.reply).1, "'a/none.mp4' was not found");
    let other = stream(&token_of("alice"), "dev/null", &Target::Other, "h", &config, &mut session);
    assert_eq!(other.reply.status, 417);
    assert_eq!(text_body(&other.reply), "'dev/null' was neither a file nor a folder");
}

#[test]
fn subtitles_stand_beside_the_media() {
    let files = subtitles("/M/a.b/film.mp4", "a.b/film.mp4");
    assert_eq!(files.srt, "/M/a.b/film.srt");
    assert_eq!(files.vtt, "/M/a.b/film.vtt");
    assert_eq!(files.vtt_file, "a.b/film.vtt");
    let bare = subtitles("/M/a.b/film", "a.b/film");
    assert_eq!(bare.srt, "/M/a.b/film.srt");
    assert_eq!(bare.vtt_file, "a.b/film.vtt");
}

#[test]
fn track_serves_text_or_fails() {
    let mut session = session_info();
    let served =
        track(&token_of("alice"), "a/film.vtt", Some(String::from("WEBVTT\n\n")), "h", &config(), &mut session);
    assert!(session.tracker.contains_key("h"));
    assert_eq!(served.status, 200);
    assert!(matches!(served.body, Body::Text(_)));
    assert_eq!(text_body(&served), "WEBVTT\n\n");
    let missing = track(&token_of("alice"), "a/film.vtt", None, "h", &config(), &mut session);
    assert_eq!(missing.status, 404);
    let private = track(
        &token_of("bobby"),
        "alice_SECURE_INDEX/f.vtt",
        Some(String::from("x")),
        "other",
        &config(),
        &mut session,
    );
    assert_eq!(private.status, 403);
    assert!(!session.tracker.contains_key("other"));
}

#[test]
fn media_is_served_and_tracked() {
    let config = config();
    let mut session = session_info();
    let served =
        streaming_endpoint(&token_of("alice"), "video.mp4", true, "h", &config, &mut session);
    assert_eq!(served.status, 200);
    assert!(matches!(served.body, Body::File(_)));
    assert_eq!(text_body(&served), "/M/video.mp4");
    assert_eq!(session.tracker.get("h"), Some(&String::from("video.mp4")));
    let missing =
        streaming_endpoint(&token_of("alice"), "none.mp4", false, "h", &config, &mut session);
    assert_eq!(missing.status, 404);
    assert_eq!(session.tracker.get("h"), Some(&String::from("video.mp4")));
    let private = streaming_endpoint(
        &token_of("bobby"),
        "alice_SECURE_INDEX/clip.mp4",
        true,
        "other",
        &config,
        &mut session,
    );
    assert_eq!(private.status, 403);
    assert!(!session.tracker.contains_key("other"));
}

#[test]
fn uploads_go_to_the_root_or_the_private_directory() {
    let config = config();
    let chosen = |flag: Option<&str>| upload_directory(&config, &token_of("alice"), flag).ok();
    assert_eq!(chosen(None).as_deref(), Some("/M"));
    assert_eq!(chosen(Some("false")).as_deref(), Some("/M"));
    assert_eq!(chosen(Some("TRUE")).as_deref(), Some("/M"));
    assert_eq!(chosen(Some("true")).as_deref(), Some("/M/alice_SECURE_INDEX"));
    let page = upload_files(&token_of("alice"), &config);
    assert_eq!(page.status, 200);
    match page.body {
        Body::Html(Page::Upload { user }) => assert_eq!(user, "alice"),
        _ => panic!("the upload form is a page"),
    }
}

fn finished(step: UploadStep) -> (u16, String) {
    match step {
        UploadStep::Finish(reply) => match reply.body {
            Body::Json(text) => (reply.status, text),
            Body::Empty => (reply.status, String::new()),
            _ => panic!("an upload ends with JSON or nothing"),
        },
        _ => panic!("the upload goes on"),
    }
}

#[test]
fn upload_steps() {
    let dir = "/M/alice_SECURE_INDEX";
    match save_files(dir, UploadEvent::Field { named: true, filename: Some(String::from("clip.mp4")) }) {
        UploadStep::Create { path } => assert_eq!(path, "/M/alice_SECURE_INDEX/clip.mp4"),
        _ => panic!("a named field creates its file"),
    }
    assert!(matches!(save_files(dir, UploadEvent::Chunk), UploadStep::Write));
    assert_eq!(
        finished(save_files(dir, UploadEvent::Field { named: true, filename: None })),
        (400, String::from("Filename not found in content disposition"))
    );
    assert_eq!(
        finished(save_files(dir, UploadEvent::Field { named: false, filename: None })),
        (400, String::from("Content disposition not found"))
    );
    assert_eq!(
        finished(save_files(dir, UploadEvent::ChunkError { reason: String::from("aborted") })),
        (422, String::from("Error processing chunk: aborted"))
    );
    assert_eq!(
        finished(save_files(dir, UploadEvent::FieldError { reason: String::from("boundary") })),
        (400, String::from("Error processing field: boundary"))
    );
    assert_eq!(finished(save_files(dir, UploadEvent::End)), (200, String::new()));
}

#[test]
fn edit_locators_name_the_path() {
    let payload = Payload {
        url_locator: Some(String::from("http://host/stream/a/1.mp4")),
        path_locator: Some(String::from("stream/a/1.mp4")),
        new_name: None,
    };
    let candidates = media_path_candidates(&payload, "/M").ok().unwrap();
    assert_eq!(candidates, strings(&["/M/a/1.mp4", "/M/a/1.mp4"]));
    assert_eq!(
        extract_media_path(candidates.clone(), &vec![false, true]),
        Ok(String::from("/M/a/1.mp4"))
    );
    assert_eq!(
        extract_media_path(candidates, &vec![false, false]),
        Err(String::from("Unable to extract path from either of the parameters"))
    );
    let partial = Payload {
        url_locator: Some(String::from("http://host/home")),
        path_locator: Some(String::from("streama/2.mp4")),
        new_name: None,
    };
    assert_eq!(media_path_candidates(&partial, "/M"), Ok(strings(&["/M/a/2.mp4"])));
    let twice = Payload {
        url_locator: Some(String::from("http://host/stream/a/stream/b.mp4")),
        path_locator: Some(String::from("/stream")),
        new_name: None,
    };
    assert_eq!(
        media_path_candidates(&twice, "/M"),
        Ok(strings(&["/M/a/stream/b.mp4", "/M/"]))
    );
    let lacking = Payload { url_locator: None, path_locator: Some(String::new()), new_name: None };
    assert_eq!(
        media_path_candidates(&lacking, "/M"),
        Err(String::from("Both URL locator and path locator must be provided"))
    );
}

#[test]
fn rename_rules() {
    assert_eq!(is_valid_name("/M/a/1.mp4", "2.mp4"), Ok(true));
    assert_eq!(
        is_valid_name("/M/a/1.mp4", "1.mp4"),
        Err(String::from("New name cannot be the same as old"))
    );
    assert_eq!(
        is_valid_name("/M/a/1.mp4", "1.mov"),
        Err(String::from("File extension cannot be changed"))
    );
    for name in [".mp4", "_x.mp4", "x.mp4_", "x.mp4."] {
        assert_eq!(
            is_valid_name("/M/a/1.mp4", name),
            Err(String::from("New name cannot start or end with '.' or '_'"))
        );
    }
    assert_eq!(
        is_valid_name("/M/a/1.mp4", "mp4"),
        Err(String::from("At least one character is required as filename"))
    );
    assert_eq!(
        is_valid_name("/M/a/1.mp4", "film"),
        Err(String::from("File extension cannot be changed"))
    );
    assert_eq!(is_valid_name("/M/a/1.tar.gz", "2.tar.gz"), Ok(true));
}

fn answer(step: EditStep) -> (u16, String) {
    match step {
        EditStep::Answer(reply) => match reply.body {
            Body::Text(text) => (reply.status, text),
            Body::Html(Page::Error(page)) => (reply.status, page.title),
            _ => panic!("an edit is answered with text"),
        },
        _ => panic!("the edit changes something"),
    }
}

#[test]
fn edit_decides_what_to_change() {
    let alice = token_of("alice");
    let path = || Ok(String::from("/M/a/1.mp4"));
    match edit(&alice, &config(), path(), PathKind::File, Some("delete"), None) {
        EditStep::RemoveFile { path } => assert_eq!(path, "/M/a/1.mp4"),
        _ => panic!("a file is removed"),
    }
    match edit(&alice, &config(), Ok(String::from("/M/a")), PathKind::Directory, Some("delete"), None) {
        EditStep::RemoveDirectory { path } => assert_eq!(path, "/M/a"),
        _ => panic!("a directory is removed"),
    }
    match edit(&alice, &config(), path(), PathKind::File, Some("rename"), Some("  2.mp4 ")) {
        EditStep::Rename { from, to } => {
            assert_eq!(from, "/M/a/1.mp4");
            assert_eq!(to, "/M/a/2.mp4");
        }
        _ => panic!("a file is renamed"),
    }
    assert_eq!(
        answer(edit(&alice, &config(), path(), PathKind::File, Some("rename"), Some("1.mov"))),
        (400, String::from("File extension cannot be changed"))
    );
    assert_eq!(
        answer(edit(&alice, &config(), path(), PathKind::File, Some("rename"), Some(".mp4"))),
        (400, String::from("New name cannot start or end with '.' or '_'"))
    );
    assert_eq!(
        answer(edit(&alice, &config(), path(), PathKind::File, Some("rename"), None)),
        (400, String::from("New name is missing!"))
    );
    assert_eq!(
        answer(edit(&alice, &config(), path(), PathKind::File, Some("rename"), Some("   "))),
        (400, String::from("New name not received in payload"))
    );
    assert_eq!(
        answer(edit(&alice, &config(), Ok(String::from("/M/a")), PathKind::Directory, Some("rename"), Some("b"))),
        (400, String::from("\"/M/a\" is an invalid file entry"))
    );
    assert_eq!(
        answer(edit(&alice, &config(), path(), PathKind::Other, Some("delete"), None)),
        (400, String::from("\"/M/a/1.mp4\" was neither a file nor a directory"))
    );
    assert_eq!(
        answer(edit(&alice, &config(), path(), PathKind::File, Some("move"), None)),
        (400, String::from("Unsupported action!"))
    );
    assert_eq!(
        answer(edit(&alice, &config(), path(), PathKind::File, None, None)),
        (400, String::from("No action received!"))
    );
    assert_eq!(
        answer(edit(&alice, &config(), Err(String::from("nothing there")), PathKind::Other, Some("delete"), None)),
        (400, String::from("nothing there"))
    );
    assert_eq!(
        answer(edit(
            &token_of("bobby"),
            &config(),
            Ok(String::from("/M/alice_SECURE_INDEX/clip.mp4")),
            PathKind::File,
            Some("delete"),
            None
        )),
        (403, String::from("RESTRICTED SECTION"))
    );
}

#[test]
fn edit_reports_the_outcome_of_the_change() {
    let done = edit_done(delete("/M/a/1.mp4", PathKind::File), None);
    assert_eq!(done.status, 200);
    assert!(matches!(done.body, Body::Empty));
    let failed = edit_done(delete("/M/a/1.mp4", PathKind::File), Some("denied"));
    assert_eq!(failed.status, 500);
    assert_eq!(text_body(&failed), "Error deleting file: denied");
    let failed = edit_done(delete("/M/a", PathKind::Directory), Some("busy"));
    assert_eq!(text_body(&failed), "Error deleting directory: busy");
    let failed = edit_done(rename("/M/a/1.mp4", PathKind::File, "2.mp4"), Some("exists"));
    assert_eq!(failed.status, 500);
    assert_eq!(text_body(&failed), "Error renaming file: exists");
    let refused = edit_done(rename("/M/a/1.mp4", PathKind::File, "1.mov"), Some("ignored"));
    assert_eq!(refused.status, 400);
    assert_eq!(text_body(&refused), "File extension cannot be changed");
}

fn refused_token(detail: &str) -> AuthToken {
    AuthToken { ok: false, detail: detail.to_string(), username: String::from("NA"), time_left: 0 }
}

fn is_redirect(reply: &Reply, detail: &str, secure: bool) {
    assert_eq!(reply.status, 302);
    assert_eq!(reply.location.as_deref(), Some("/error"));
    assert!(matches!(reply.body, Body::Empty));
    let cookie = reply.cookie.as_ref().unwrap();
    assert_eq!(cookie.name, "detail");
    assert_eq!(cookie.value, detail);
    assert_eq!(cookie.path.as_deref(), Some("/error"));
    assert!(cookie.http_only);
    assert_eq!(cookie.max_age, Some(3));
    assert_eq!(cookie.secure, secure);
}

#[test]
fn home_without_valid_session_is_redirected() {
    let mut secure = config();
    secure.secure_session = true;
    let mut session = session_info();
    let token = refused_token("Session information not found");
    let reply = home(&token, "10.0.0.1", &secure, &mut session, &strings(&["b.mp4"]));
    is_redirect(&reply, "Session information not found", true);
    assert!(session.tracker.is_empty());
    assert!(session.mapping.is_empty());
}

#[test]
fn handlers_redirect_every_request_without_valid_session() {
    let config = config();
    let mut session = session_info();
    let token = refused_token("Session Expired");
    is_redirect(&profile(&token, "h", &config, &mut session), "Session Expired", false);
    is_redirect(
        &track(&token, "a.vtt", Some(String::from("x")), "h", &config, &mut session),
        "Session Expired",
        false,
    );
    let file = Target::File { siblings: strings(&["a.mp4"]), vtt_exists: false, srt_exists: true };
    let streamed = stream(&token, "a.mp4", &file, "h", &config, &mut session);
    is_redirect(&streamed.reply, "Session Expired", false);
    assert!(streamed.convert.is_none());
    is_redirect(
        &streaming_endpoint(&token, "a.mp4", true, "h", &config, &mut session),
        "Session Expired",
        false,
    );
    is_redirect(&upload_files(&token, &config), "Session Expired", false);
    is_redirect(
        &upload_directory(&config, &token, Some("true")).err().unwrap(),
        "Session Expired",
        false,
    );
    match edit(&token, &config, Ok(String::from("/M/a.mp4")), PathKind::File, Some("delete"), None) {
        EditStep::Answer(reply) => is_redirect(&reply, "Session Expired", false),
        _ => panic!("nothing is changed without a valid session"),
    }
    assert!(session.tracker.is_empty());
}

#[test]
fn error_page_with_reason_shows_it() {
    let reply = error(Some("Session Expired"));
    assert_eq!(reply.status, 200);
    match reply.body {
        Body::Html(Page::Session { reason }) => assert_eq!(reason, "Session Expired"),
        _ => panic!("the error page shows the reason"),
    }
}
