//! Streaming: the page of a file or a directory, the media itself and its
//! subtitles.

use crate::authenticator::{secure_index_allows, verify_secure_index, AuthToken};
use crate::constant::{image_formats, is_image_format, secure_index, Session, SECURE_INDEX};
use crate::content::{
    dir_stream_content, get_dir_stream_content, get_iter, item_views, lower, lowercase,
    neighbours, DirectoryItem,
};
use crate::logger::{connected, log_connection};
use crate::routes::auth::{guarded, refuse};
use crate::paths::{below, file_name, file_name_of, join_below, replace_extension, with_extension};
use crate::responses::{
    not_found, not_found_reply, page_reply, plain_reply, reply, restricted, restricted_reply, Body,
    BodyView, DetailError, Landing, LandingView, Page, PageView, Reply, ReplyView,
};
use crate::settings::Config;
use crate::text::{
    chars_of, concat, concat3, contains_text, ends_with, find_last, has_suffix, holds_text,
    last_index, lemma_last_index, same_text, slice_of, string_of, texts,
};
use vstd::prelude::*;
use vstd::utf8::encode_utf8;

verus! {

/// The bytes that the form encoding leaves as they are: letters, digits,
/// and the four characters `*`, `-`, `.` and `_`.
pub open spec fn is_kept(b: u8) -> bool {
    ||| b == 0x2a
    ||| b == 0x2d
    ||| b == 0x2e
    ||| 0x30 <= b <= 0x39
    ||| 0x41 <= b <= 0x5a
    ||| b == 0x5f
    ||| 0x61 <= b <= 0x7a
}

/// The uppercase hexadecimal digit for a value below sixteen.
pub open spec fn upper_hex(d: int) -> char {
    if d < 10 {
        (0x30 + d) as u8 as char
    } else {
        (0x41 + d - 10) as u8 as char
    }
}

/// The form encoding of one byte: the byte itself where it is kept, a plus
/// for a space, and a percent sign with two hexadecimal digits otherwise.
pub open spec fn form_byte(b: u8) -> Seq<char> {
    if is_kept(b) {
        seq![b as char]
    } else if b == 0x20 {
        seq!['+']
    } else {
        seq!['%', upper_hex(b as int / 16), upper_hex(b as int % 16)]
    }
}

/// The form encoding of a byte string.
pub open spec fn form_encoding(bytes: Seq<u8>) -> Seq<char>
    decreases bytes.len(),
{
    if bytes.len() == 0 {
        Seq::empty()
    } else {
        form_encoding(bytes.drop_last()) + form_byte(bytes.last())
    }
}

/// Encodes a path for use in a query string.
///
/// Trusted: `url::form_urlencoded::byte_serialize` yields, byte by byte, the
/// `application/x-www-form-urlencoded` form: letters, digits and `*-._` as
/// they are, a space as a plus, any other byte as a percent sign and two
/// uppercase hexadecimal digits.
#[verifier::external_body]
pub(crate) fn url_encode(path: &str) -> (encoded: String)
    ensures
        encoded@ == form_encoding(encode_utf8(path@)),
{
    url::form_urlencoded::byte_serialize(path.as_bytes()).collect::<Vec<_>>().join("")
}

/// What follows the last occurrence of `c` in `s`; all of `s` where it
/// holds no `c`.
pub open spec fn after_last(s: Seq<char>, c: char) -> Seq<char> {
    s.skip(last_index(s, c) + 1)
}

/// What follows the last occurrence of `c` in `s`.
pub fn tail_after(s: &Vec<char>, c: char) -> (r: Vec<char>)
    ensures
        r@ == after_last(s@, c),
{
    proof {
        lemma_last_index(s@, c);
    }
    match find_last(s, c) {
        Some(i) => slice_of(s, i + 1, s.len()),
        None => {
            assert(s@.skip(0) =~= s@);
            slice_of(s, 0, s.len())
        },
    }
}

/// The files that may hold the subtitles of a media file.
pub struct Subtitles {
    /// The SubRip file beside the media file.
    pub srt: String,
    /// The WebVTT file beside the media file.
    pub vtt: String,
    /// The WebVTT file, relative to the media root.
    pub vtt_file: String,
}

/// `Subtitles` as a mathematical value.
pub ghost struct SubtitlesView {
    pub srt: Seq<char>,
    pub vtt: Seq<char>,
    pub vtt_file: Seq<char>,
}

impl View for Subtitles {
    type V = SubtitlesView;

    open spec fn view(&self) -> SubtitlesView {
        SubtitlesView { srt: self.srt@, vtt: self.vtt@, vtt_file: self.vtt_file@ }
    }
}

/// The files that may hold the subtitles of the media file at `true_path`,
/// whose path relative to the media root is `relative_path`.
pub open spec fn subtitles_of(true_path: Seq<char>, relative_path: Seq<char>) -> SubtitlesView {
    SubtitlesView {
        srt: with_extension(true_path, "srt"@),
        vtt: with_extension(true_path, "vtt"@),
        vtt_file: with_extension(relative_path, "vtt"@),
    }
}

/// Names the files that may hold the subtitles of a media file.
pub fn subtitles(true_path: &str, relative_path: &str) -> (r: Subtitles)
    ensures
        r@ == subtitles_of(true_path@, relative_path@),
{
    let srt = chars_of("srt");
    let vtt = chars_of("vtt");
    let path = chars_of(true_path);
    Subtitles {
        srt: string_of(&replace_extension(&path, &srt)),
        vtt: string_of(&replace_extension(&path, &vtt)),
        vtt_file: string_of(&replace_extension(&chars_of(relative_path), &vtt)),
    }
}

/// The address under which the media of a file is fetched.
pub open spec fn media_address(path: Seq<char>) -> Seq<char> {
    "/media?file="@ + form_encoding(encode_utf8(path))
}

/// The address under which subtitles are fetched.
pub open spec fn track_address(path: Seq<char>) -> Seq<char> {
    "/track?file="@ + form_encoding(encode_utf8(path))
}

/// The answer to a request for subtitles: the restricted page for a file
/// in a private directory of somebody else, the content where the file
/// could be read, and the page for missing content where it could not.
pub open spec fn track_reply(username: Seq<char>, file: Seq<char>, content: Option<Seq<char>>) -> ReplyView {
    if !secure_index_allows(file, username) {
        restricted_reply(username)
    } else {
        match content {
            Some(text) => plain_reply(200, BodyView::Text(text)),
            None => not_found_reply(file),
        }
    }
}

/// Handles a request for the subtitles at `file`, a path relative to the
/// media root, given the verdict on the session token of the request and
/// the content of the file where it could be read.
///
/// A request without a valid session is redirected to the error page. The
/// connection of the host is recorded unless the request is redirected or
/// restricted.
pub fn track(
    auth_response: &AuthToken,
    file: &str,
    content: Option<String>,
    host: &str,
    config: &Config,
    session: &mut Session,
) -> (r: Reply)
    requires
        old(session).wf(),
    ensures
        final(session).wf(),
        final(session).mapping == old(session).mapping,
        final(session).tracker@ == (if auth_response.ok && secure_index_allows(
            file@,
            auth_response.username@,
        ) {
            connected(old(session).tracker@, host@)
        } else {
            old(session).tracker@
        }),
        r@ == guarded(
            auth_response@,
            config.secure_session,
            track_reply(
                auth_response.username@,
                file@,
                match content {
                    Some(text) => Some(text@),
                    None => None,
                },
            ),
        ),
{
    if !auth_response.ok {
        return refuse(auth_response, config);
    }
    if !verify_secure_index(file, auth_response.username.as_str()) {
        return restricted(auth_response.username.as_str());
    }
    let _ = log_connection(host, session);
    match content {
        Some(text) => reply(200, Body::Text(text)),
        None => not_found(file),
    }
}

/// What lies at a requested path.
pub enum Target {
    /// Nothing.
    Missing,
    /// A file. `siblings` are the names of the entries of its directory;
    /// the two flags say which of its subtitle files exist.
    File { siblings: Vec<String>, vtt_exists: bool, srt_exists: bool },
    /// A directory with the given entries.
    Directory { items: Vec<DirectoryItem> },
    /// Something that is neither.
    Other,
}

/// What `stream` decides: the answer, and the SubRip file to convert first
/// where the subtitles exist in that form only.
pub struct Streamed {
    pub reply: Reply,
    pub convert: Option<Subtitles>,
}

/// The name of a text, or the empty text for none.
pub open spec fn or_empty(name: Option<Seq<char>>) -> Seq<char> {
    match name {
        Some(name) => name,
        None => Seq::empty(),
    }
}

/// Whether a file is shown as an image: the end of its media address, from
/// the last dot on and in lowercase, is an image format.
pub open spec fn is_image(path: Seq<char>) -> bool {
    image_formats().contains(lower(after_last(media_address(path), '.')))
}

/// The page of the file at `filepath`, a path relative to the media root:
/// its name, the address of its media, and its neighbours in natural
/// order.
pub open spec fn landing_of(
    username: Seq<char>,
    filepath: Seq<char>,
    media_source: Seq<char>,
    siblings: Seq<Seq<char>>,
    formats: Seq<Seq<char>>,
    track: Option<Seq<char>>,
) -> LandingView {
    let name = file_name_of(below(media_source, filepath));
    let near = neighbours(name, siblings, formats);
    LandingView {
        media_title: name,
        path: media_address(filepath),
        previous: or_empty(near.previous),
        next: or_empty(near.next),
        user: username,
        render_image: is_image(filepath),
        track,
    }
}

/// The title of the listing of a directory: its name, and for a private
/// directory a lock and the name of its owner.
pub open spec fn listing_title(child: Seq<char>) -> Seq<char> {
    if ends_with(child, seq!['_'] + secure_index()) {
        "<i class='fa-solid fa-lock'></i>&nbsp;&nbsp;"@ + child.take(
            child.len() - secure_index().len() - 1,
        )
    } else {
        child
    }
}

/// What `Target` holds, as mathematical values.
pub ghost enum TargetView {
    Missing,
    File { siblings: Seq<Seq<char>>, vtt_exists: bool, srt_exists: bool },
    Directory { items: Seq<crate::content::ItemView> },
    Other,
}

impl View for Target {
    type V = TargetView;

    open spec fn view(&self) -> TargetView {
        match self {
            Target::Missing => TargetView::Missing,
            Target::File { siblings, vtt_exists, srt_exists } => TargetView::File {
                siblings: texts(siblings@),
                vtt_exists: *vtt_exists,
                srt_exists: *srt_exists,
            },
            Target::Directory { items } => TargetView::Directory { items: item_views(items@) },
            Target::Other => TargetView::Other,
        }
    }
}

/// The answer to a request for the page of `filepath`.
///
/// A path into a private directory of somebody else is restricted, and a
/// path to nothing is not found. A file gets its landing page: an image is
/// shown as such; any other file is shown with its subtitles where the
/// WebVTT file exists. A directory gets its listing. Anything else is
/// answered with status 417.
pub open spec fn stream_reply(
    username: Seq<char>,
    filepath: Seq<char>,
    target: TargetView,
    media_source: Seq<char>,
    formats: Seq<Seq<char>>,
) -> ReplyView {
    if !secure_index_allows(filepath, username) {
        restricted_reply(username)
    } else {
        match target {
            TargetView::Missing => not_found_reply(filepath),
            TargetView::File { siblings, vtt_exists, srt_exists } => page_reply(
                200,
                PageView::Landing(
                    landing_of(
                        username,
                        filepath,
                        media_source,
                        siblings,
                        formats,
                        if !is_image(filepath) && vtt_exists {
                            Some(track_address(with_extension(filepath, "vtt"@)))
                        } else {
                            None
                        },
                    ),
                ),
            ),
            TargetView::Directory { items } => {
                let child = file_name_of(below(media_source, filepath));
                page_reply(
                    200,
                    PageView::Listing {
                        custom_title: Some(listing_title(child)),
                        content: dir_stream_content(items, child, formats),
                        user: username,
                        secure_path: contains_text(filepath, secure_index()),
                    },
                )
            },
            TargetView::Other => plain_reply(
                417,
                BodyView::Detail("'"@ + filepath + "' was neither a file nor a folder"@),
            ),
        }
    }
}

/// The subtitles to convert before the page of `filepath` is shown: those
/// of a file that is allowed and no image, whose subtitles exist as SubRip
/// but not as WebVTT.
pub open spec fn stream_conversion(
    username: Seq<char>,
    filepath: Seq<char>,
    target: TargetView,
    media_source: Seq<char>,
) -> Option<SubtitlesView> {
    match target {
        TargetView::File { siblings, vtt_exists, srt_exists } => if secure_index_allows(
            filepath,
            username,
        ) && !is_image(filepath) && !vtt_exists && srt_exists {
            Some(subtitles_of(below(media_source, filepath), filepath))
        } else {
            None
        },
        _ => None,
    }
}

fn listing_title_of(child: &Vec<char>) -> (title: String)
    ensures
        title@ == listing_title(child@),
{
    let mut suffix: Vec<char> = Vec::new();
    suffix.push('_');
    crate::text::extend_chars(&mut suffix, &chars_of(SECURE_INDEX));
    assert(suffix@ =~= seq!['_'] + secure_index());
    if has_suffix(child, &suffix) {
        proof {
            reveal_strlit("SECURE_INDEX");
        }
        let owner = slice_of(child, 0, child.len() - suffix.len());
        let mut title = chars_of("<i class='fa-solid fa-lock'></i>&nbsp;&nbsp;");
        crate::text::extend_chars(&mut title, &owner);
        assert(title@ =~= listing_title(child@));
        string_of(&title)
    } else {
        string_of(child)
    }
}

/// Handles a request for the page of `filepath`, a path relative to the
/// media root, given the verdict on the session token of the request and
/// what lies at the path.
///
/// A request without a valid session is redirected to the error page, and
/// nothing is recorded or converted. For a valid session the connection of
/// the host is recorded and the answer is that of `stream_reply`.
pub fn stream(
    auth_response: &AuthToken,
    filepath: &str,
    target: &Target,
    host: &str,
    config: &Config,
    session: &mut Session,
) -> (r: Streamed)
    requires
        old(session).wf(),
    ensures
        final(session).wf(),
        final(session).mapping == old(session).mapping,
        final(session).tracker@ == (if auth_response.ok {
            connected(old(session).tracker@, host@)
        } else {
            old(session).tracker@
        }),
        r.reply@ == guarded(
            auth_response@,
            config.secure_session,
            stream_reply(
                auth_response.username@,
                filepath@,
                target@,
                config.media_source@,
                texts(config.file_formats@),
            ),
        ),
        !auth_response.ok ==> r.convert is None,
        auth_response.ok ==> (match r.convert {
            Some(files) => stream_conversion(
                auth_response.username@,
                filepath@,
                target@,
                config.media_source@,
            ) == Some(files@),
            None => stream_conversion(
                auth_response.username@,
                filepath@,
                target@,
                config.media_source@,
            ) is None,
        }),
{
    if !auth_response.ok {
        return Streamed { reply: refuse(auth_response, config), convert: None };
    }
    let _ = log_connection(host, session);
    let username = auth_response.username.as_str();
    if !verify_secure_index(filepath, username) {
        return Streamed { reply: restricted(username), convert: None };
    }
    let true_path = join_below(&chars_of(config.media_source.as_str()), &chars_of(filepath));
    let name = file_name(&true_path);
    match target {
        Target::Missing => Streamed { reply: not_found(filepath), convert: None },
        Target::File { siblings, vtt_exists, srt_exists } => {
            let near = get_iter(string_of(&name).as_str(), &config.file_formats, siblings);
            let render_path = concat("/media?file=", url_encode(filepath).as_str());
            let extension = lowercase(&tail_after(&chars_of(render_path.as_str()), '.'));
            let image = is_image_format(string_of(&extension).as_str());
            let files = subtitles(string_of(&true_path).as_str(), filepath);
            let track = if !image && *vtt_exists {
                Some(concat("/track?file=", url_encode(files.vtt_file.as_str()).as_str()))
            } else {
                None
            };
            let convert = if !image && !*vtt_exists && *srt_exists {
                Some(files)
            } else {
                None
            };
            let landing = Landing {
                media_title: string_of(&name),
                path: render_path,
                previous: match near.previous {
                    Some(name) => name,
                    None => String::new(),
                },
                next: match near.next {
                    Some(name) => name,
                    None => String::new(),
                },
                user: auth_response.username.clone(),
                render_image: image,
                track,
            };
            Streamed { reply: reply(200, Body::Html(Page::Landing(landing))), convert }
        },
        Target::Directory { items } => {
            let child = string_of(&name);
            let content = get_dir_stream_content(child.as_str(), &config.file_formats, items);
            let secure_path = holds_text(&chars_of(filepath), &chars_of(SECURE_INDEX));
            Streamed {
                reply: reply(
                    200,
                    Body::Html(
                        Page::Listing {
                            custom_title: Some(listing_title_of(&name)),
                            content,
                            user: auth_response.username.clone(),
                            secure_path,
                        },
                    ),
                ),
                convert: None,
            }
        },
        Target::Other => Streamed {
            reply: reply(
                417,
                Body::Detail(
                    DetailError {
                        detail: concat3("'", filepath, "' was neither a file nor a folder"),
                    },
                ),
            ),
            convert: None,
        },
    }
}

/// The page of a file once its subtitles have been converted: the page
/// with the address of the WebVTT file as its track. Any other answer is
/// left as it is.
pub open spec fn subtitled(answer: ReplyView, vtt_file: Seq<char>) -> ReplyView {
    match answer.body {
        BodyView::Html(PageView::Landing(landing)) => ReplyView {
            body: BodyView::Html(
                PageView::Landing(LandingView { track: Some(track_address(vtt_file)), ..landing }),
            ),
            ..answer
        },
        _ => answer,
    }
}

/// Adds the converted subtitles to the page of a file.
pub fn with_track(answer: Reply, vtt_file: &str) -> (r: Reply)
    ensures
        r@ == subtitled(answer@, vtt_file@),
{
    let Reply { status, body, cookie, location } = answer;
    match body {
        Body::Html(Page::Landing(landing)) => {
            let Landing { media_title, path, previous, next, user, render_image, track } = landing;
            Reply {
                status,
                body: Body::Html(
                    Page::Landing(
                        Landing {
                            media_title,
                            path,
                            previous,
                            next,
                            user,
                            render_image,
                            track: Some(concat("/track?file=", url_encode(vtt_file).as_str())),
                        },
                    ),
                ),
                cookie,
                location,
            }
        },
        other => Reply { status, body: other, cookie, location },
    }
}

/// The answer to a request for the media at `file`, a path relative to the
/// media root: the restricted page for a file in a private directory of
/// somebody else, the file itself where it exists, and the page for
/// missing content where it does not.
pub open spec fn media_reply(
    username: Seq<char>,
    file: Seq<char>,
    exists: bool,
    media_source: Seq<char>,
) -> ReplyView {
    if !secure_index_allows(below(media_source, file), username) {
        restricted_reply(username)
    } else if exists {
        plain_reply(200, BodyView::File(below(media_source, file)))
    } else {
        not_found_reply(file)
    }
}

/// What the tracker holds after a request for the media at `file`: for a
/// request that is restricted, what it held; else the connection of the
/// host, and, where the file exists, the file as the path that the host
/// streamed last.
pub open spec fn media_tracker(
    tracker: Map<Seq<char>, Seq<char>>,
    username: Seq<char>,
    file: Seq<char>,
    exists: bool,
    host: Seq<char>,
    media_source: Seq<char>,
) -> Map<Seq<char>, Seq<char>> {
    if !secure_index_allows(below(media_source, file), username) {
        tracker
    } else if exists {
        tracker.insert(host, file)
    } else {
        connected(tracker, host)
    }
}

/// Handles a request for the media at `file`, a path relative to the
/// media root, given the verdict on the session token of the request and
/// whether a file exists at the path.
///
/// A request without a valid session is redirected to the error page, and
/// the tracker stays as it is.
pub fn streaming_endpoint(
    auth_response: &AuthToken,
    file: &str,
    exists: bool,
    host: &str,
    config: &Config,
    session: &mut Session,
) -> (r: Reply)
    requires
        old(session).wf(),
    ensures
        final(session).wf(),
        final(session).mapping == old(session).mapping,
        r@ == guarded(
            auth_response@,
            config.secure_session,
            media_reply(auth_response.username@, file@, exists, config.media_source@),
        ),
        final(session).tracker@ == (if auth_response.ok {
            media_tracker(
                old(session).tracker@,
                auth_response.username@,
                file@,
                exists,
                host@,
                config.media_source@,
            )
        } else {
            old(session).tracker@
        }),
{
    if !auth_response.ok {
        return refuse(auth_response, config);
    }
    let media_path = string_of(
        &join_below(&chars_of(config.media_source.as_str()), &chars_of(file)),
    );
    if !verify_secure_index(media_path.as_str(), auth_response.username.as_str()) {
        return restricted(auth_response.username.as_str());
    }
    let connection = log_connection(host, session);
    if exists {
        if !same_text(connection.last_accessed.as_str(), file) {
            session.tracker.insert(host.to_owned(), file.to_owned());
        } else {
            assert(session.tracker@ =~= session.tracker@.insert(host@, file@));
        }
        assert(session.tracker@ =~= old(session).tracker@.insert(host@, file@));
        reply(200, Body::File(media_path))
    } else {
        not_found(file)
    }
}

} // verus!
