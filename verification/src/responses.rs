//! What a handler answers: status, body and cookie, as plain values for the
//! web framework to send.

use crate::content::{ContentEntry, ContentPayload, EntryView, PayloadView};
use crate::text::{concat3};
use vstd::prelude::*;

verus! {

/// A cookie to set.
pub struct Cookie {
    pub name: String,
    pub value: String,
    /// The path the cookie is restricted to, if any.
    pub path: Option<String>,
    pub http_only: bool,
    pub same_site_strict: bool,
    /// Seconds the cookie lives, if limited.
    pub max_age: Option<i64>,
    /// The time, in seconds since the epoch, at which the cookie expires.
    pub expires: Option<i64>,
    pub secure: bool,
    /// Whether the cookie is sent to make the browser forget it.
    pub removal: bool,
}

/// A `Cookie` as a mathematical value.
pub ghost struct CookieView {
    pub name: Seq<char>,
    pub value: Seq<char>,
    pub path: Option<Seq<char>>,
    pub http_only: bool,
    pub same_site_strict: bool,
    pub max_age: Option<int>,
    pub expires: Option<int>,
    pub secure: bool,
    pub removal: bool,
}

impl View for Cookie {
    type V = CookieView;

    open spec fn view(&self) -> CookieView {
        CookieView {
            name: self.name@,
            value: self.value@,
            path: match self.path {
                Some(path) => Some(path@),
                None => None,
            },
            http_only: self.http_only,
            same_site_strict: self.same_site_strict,
            max_age: match self.max_age {
                Some(age) => Some(age as int),
                None => None,
            },
            expires: match self.expires {
                Some(at) => Some(at as int),
                None => None,
            },
            secure: self.secure,
            removal: self.removal,
        }
    }
}

/// What the error page shows.
pub struct ErrorPage {
    pub title: String,
    pub description: String,
    pub help: String,
    pub button_text: String,
    pub button_link: String,
    pub block_navigation: bool,
}

/// An `ErrorPage` as a mathematical value.
pub ghost struct ErrorPageView {
    pub title: Seq<char>,
    pub description: Seq<char>,
    pub help: Seq<char>,
    pub button_text: Seq<char>,
    pub button_link: Seq<char>,
    pub block_navigation: bool,
}

impl View for ErrorPage {
    type V = ErrorPageView;

    open spec fn view(&self) -> ErrorPageView {
        ErrorPageView {
            title: self.title@,
            description: self.description@,
            help: self.help@,
            button_text: self.button_text@,
            button_link: self.button_link@,
            block_navigation: self.block_navigation,
        }
    }
}

/// What the page of a single file shows.
pub struct Landing {
    pub media_title: String,
    /// The address the media is fetched from.
    pub path: String,
    /// The file before this one, empty for none.
    pub previous: String,
    /// The file after this one, empty for none.
    pub next: String,
    pub user: String,
    /// Whether the file is shown as an image.
    pub render_image: bool,
    /// The address of the subtitles, if there are any.
    pub track: Option<String>,
}

/// A `Landing` as a mathematical value.
pub ghost struct LandingView {
    pub media_title: Seq<char>,
    pub path: Seq<char>,
    pub previous: Seq<char>,
    pub next: Seq<char>,
    pub user: Seq<char>,
    pub render_image: bool,
    pub track: Option<Seq<char>>,
}

impl View for Landing {
    type V = LandingView;

    open spec fn view(&self) -> LandingView {
        LandingView {
            media_title: self.media_title@,
            path: self.path@,
            previous: self.previous@,
            next: self.next@,
            user: self.user@,
            render_image: self.render_image,
            track: match self.track {
                Some(track) => Some(track@),
                None => None,
            },
        }
    }
}

/// A page to render from a template.
pub enum Page {
    /// The login form.
    Index,
    /// A listing of files and directories.
    Listing { custom_title: Option<String>, content: ContentPayload, user: String, secure_path: bool },
    /// A single file.
    Landing(Landing),
    /// The page after a logout.
    Logout { detail: String, show_login: bool },
    /// The page for a session that has ended.
    Session { reason: String },
    /// The error page.
    Error(ErrorPage),
    /// The profile of the user.
    Profile { user: String, time_left: i64, file: Option<ContentEntry> },
    /// The upload form.
    Upload { user: String },
}

/// A `Page` as a mathematical value.
pub ghost enum PageView {
    Index,
    Listing { custom_title: Option<Seq<char>>, content: PayloadView, user: Seq<char>, secure_path: bool },
    Landing(LandingView),
    Logout { detail: Seq<char>, show_login: bool },
    Session { reason: Seq<char> },
    Error(ErrorPageView),
    Profile { user: Seq<char>, time_left: int, file: Option<EntryView> },
    Upload { user: Seq<char> },
}

impl View for Page {
    type V = PageView;

    open spec fn view(&self) -> PageView {
        match self {
            Page::Index => PageView::Index,
            Page::Listing { custom_title, content, user, secure_path } => PageView::Listing {
                custom_title: match custom_title {
                    Some(title) => Some(title@),
                    None => None,
                },
                content: content@,
                user: user@,
                secure_path: *secure_path,
            },
            Page::Landing(landing) => PageView::Landing(landing@),
            Page::Logout { detail, show_login } => PageView::Logout {
                detail: detail@,
                show_login: *show_login,
            },
            Page::Session { reason } => PageView::Session { reason: reason@ },
            Page::Error(page) => PageView::Error(page@),
            Page::Profile { user, time_left, file } => PageView::Profile {
                user: user@,
                time_left: *time_left as int,
                file: match file {
                    Some(entry) => Some(entry@),
                    None => None,
                },
            },
            Page::Upload { user } => PageView::Upload { user: user@ },
        }
    }
}

/// The body of an answer that only carries a reason.
pub struct DetailError {
    pub detail: String,
}

/// The body of an answer.
pub enum Body {
    /// No body.
    Empty,
    /// A JSON string.
    Json(String),
    /// A JSON object with the one field `detail`.
    Detail(DetailError),
    /// A JSON object with the one field `redirect_url`.
    Redirect(String),
    /// Plain text.
    Text(String),
    /// A page.
    Html(Page),
    /// The file at the given path, served with support for ranges.
    File(String),
}

/// A `Body` as a mathematical value.
pub ghost enum BodyView {
    Empty,
    Json(Seq<char>),
    Detail(Seq<char>),
    Redirect(Seq<char>),
    Text(Seq<char>),
    Html(PageView),
    File(Seq<char>),
}

impl View for Body {
    type V = BodyView;

    open spec fn view(&self) -> BodyView {
        match self {
            Body::Empty => BodyView::Empty,
            Body::Json(text) => BodyView::Json(text@),
            Body::Detail(error) => BodyView::Detail(error.detail@),
            Body::Redirect(text) => BodyView::Redirect(text@),
            Body::Text(text) => BodyView::Text(text@),
            Body::Html(page) => BodyView::Html(page@),
            Body::File(path) => BodyView::File(path@),
        }
    }
}

/// An answer to a request.
pub struct Reply {
    /// The status code.
    pub status: u16,
    pub body: Body,
    /// The cookie to set, if any.
    pub cookie: Option<Cookie>,
    /// Where to redirect, if anywhere.
    pub location: Option<String>,
}

/// A `Reply` as a mathematical value.
pub ghost struct ReplyView {
    pub status: int,
    pub body: BodyView,
    pub cookie: Option<CookieView>,
    pub location: Option<Seq<char>>,
}

impl View for Reply {
    type V = ReplyView;

    open spec fn view(&self) -> ReplyView {
        ReplyView {
            status: self.status as int,
            body: self.body@,
            cookie: match self.cookie {
                Some(cookie) => Some(cookie@),
                None => None,
            },
            location: match self.location {
                Some(location) => Some(location@),
                None => None,
            },
        }
    }
}

/// An answer with a status and a body, and nothing else.
pub open spec fn plain_reply(status: int, body: BodyView) -> ReplyView {
    ReplyView { status, body, cookie: None, location: None }
}

/// The answer that shows a page.
pub open spec fn page_reply(status: int, page: PageView) -> ReplyView {
    plain_reply(status, BodyView::Html(page))
}

/// Builds an answer with a status and a body, and nothing else.
pub fn reply(status: u16, body: Body) -> (r: Reply)
    ensures
        r@ == plain_reply(status as int, body@),
{
    Reply { status, body, cookie: None, location: None }
}

/// The help that the error page gives to a user who is logged in.
pub open spec fn home_help() -> Seq<char> {
    "Lost your way?\\n\\nHit the HOME button to navigate back to home page."@
}

/// The error page for a user who is logged in: it leads back home.
pub open spec fn error_page(title: Seq<char>, description: Seq<char>) -> PageView {
    PageView::Error(
        ErrorPageView {
            title,
            description,
            help: home_help(),
            button_text: "HOME"@,
            button_link: "/home"@,
            block_navigation: true,
        },
    )
}

/// The answer that shows the error page to a user who is logged in.
pub fn error(title: &str, description: String, status: u16) -> (r: Reply)
    ensures
        r@ == page_reply(status as int, error_page(title@, description@)),
{
    reply(
        status,
        Body::Html(
            Page::Error(
                ErrorPage {
                    title: title.to_owned(),
                    description,
                    help: "Lost your way?\\n\\nHit the HOME button to navigate back to home page.".to_owned(),
                    button_text: "HOME".to_owned(),
                    button_link: "/home".to_owned(),
                    block_navigation: true,
                },
            ),
        ),
    )
}

/// What the error page says of content that belongs to another user.
pub open spec fn restricted_description(username: Seq<char>) -> Seq<char> {
    "This content is not accessible, as it does not belong to the user profile '"@ + username
        + "'"@
}

/// The answer for content that belongs to another user.
pub open spec fn restricted_reply(username: Seq<char>) -> ReplyView {
    page_reply(403, error_page("RESTRICTED SECTION"@, restricted_description(username)))
}

/// Answers a request for content that belongs to another user.
pub fn restricted(username: &str) -> (r: Reply)
    ensures
        r@ == restricted_reply(username@),
{
    error(
        "RESTRICTED SECTION",
        concat3(
            "This content is not accessible, as it does not belong to the user profile '",
            username,
            "'",
        ),
        403,
    )
}

/// What the error page says of content that does not exist.
pub open spec fn not_found_description(name: Seq<char>) -> Seq<char> {
    "'"@ + name + "' was not found"@
}

/// The answer for content that does not exist.
pub open spec fn not_found_reply(name: Seq<char>) -> ReplyView {
    page_reply(404, error_page("CONTENT UNAVAILABLE"@, not_found_description(name)))
}

/// Answers a request for content that does not exist.
pub fn not_found(name: &str) -> (r: Reply)
    ensures
        r@ == not_found_reply(name@),
{
    error("CONTENT UNAVAILABLE", concat3("'", name, "' was not found"), 404)
}

} // verus!
