//! Login, logout, the home page and the error page.

use crate::authenticator::{
    login_outcome, mint_payload, token_verdict, verify_login, verify_token, AuthToken,
    AuthTokenView,
};
use crate::constant::Session;
use crate::content::{all_stream_content, get_all_stream_content};
use crate::logger::{connected, log_connection};
use crate::responses::{
    page_reply, plain_reply, reply, Body, BodyView, Cookie, CookieView, ErrorPage, ErrorPageView,
    Page, PageView, Reply, ReplyView,
};
pub use crate::responses::DetailError;
use crate::secure::{encrypt, is_session_key};
use crate::settings::Config;
use crate::text::{text_of, texts};
use vstd::prelude::*;

verus! {

/// The cookie that carries the reason of a failed check to the error page.
/// It lives three seconds and is sent to the error page only.
pub open spec fn detail_cookie(detail: Seq<char>, secure: bool) -> CookieView {
    CookieView {
        name: "detail"@,
        value: detail,
        path: Some("/error"@),
        http_only: true,
        same_site_strict: true,
        max_age: Some(3),
        expires: None,
        secure,
        removal: false,
    }
}

/// The answer to a request without a valid session: a redirect to the
/// error page, with the reason in a cookie.
pub open spec fn failed_auth_reply(detail: Seq<char>, secure: bool) -> ReplyView {
    ReplyView {
        status: 302,
        body: BodyView::Empty,
        cookie: Some(detail_cookie(detail, secure)),
        location: Some("/error"@),
    }
}

/// Answers a request whose session token did not pass.
pub fn failed_auth(auth_response: AuthToken, config: &Config) -> (r: Reply)
    ensures
        r@ == failed_auth_reply(auth_response.detail@, config.secure_session),
{
    refuse(&auth_response, config)
}

/// Answers a request whose session token did not pass, given the verdict
/// on the token.
pub fn refuse(auth_response: &AuthToken, config: &Config) -> (r: Reply)
    ensures
        r@ == failed_auth_reply(auth_response.detail@, config.secure_session),
{
    Reply {
        status: 302,
        body: Body::Empty,
        cookie: Some(
            Cookie {
                name: "detail".to_owned(),
                value: auth_response.detail.clone(),
                path: Some("/error".to_owned()),
                http_only: true,
                same_site_strict: true,
                max_age: Some(3),
                expires: None,
                secure: config.secure_session,
                removal: false,
            },
        ),
        location: Some("/error".to_owned()),
    }
}

/// The answer of a handler that asks for a valid session: `answer` for a
/// request whose session is valid, and for any other the redirect to the
/// error page, with the reason in a cookie.
pub open spec fn guarded(token: AuthTokenView, secure: bool, answer: ReplyView) -> ReplyView {
    if token.ok {
        answer
    } else {
        failed_auth_reply(token.detail, secure)
    }
}

/// What becomes of a request with the given verdict on its session token:
/// it passes if the session is valid, and is answered with a redirect to
/// the error page if not.
pub open spec fn admission(verdict: AuthTokenView, secure: bool) -> Result<
    AuthTokenView,
    ReplyView,
> {
    if verdict.ok {
        Ok(verdict)
    } else {
        Err(failed_auth_reply(verdict.detail, secure))
    }
}

/// An admission as a mathematical value.
pub open spec fn admission_view(r: Result<AuthToken, Reply>) -> Result<AuthTokenView, ReplyView> {
    match r {
        Ok(token) => Ok(token@),
        Err(answer) => Err(answer@),
    }
}

/// Lets a request with a valid session pass, and answers any other with a
/// redirect to the error page.
pub fn gate(token: AuthToken, config: &Config) -> (r: Result<AuthToken, Reply>)
    ensures
        admission_view(r) == admission(token@, config.secure_session),
{
    if token.ok {
        Ok(token)
    } else {
        Err(failed_auth(token, config))
    }
}

/// Checks the session token of a request, as `verify_token` does, and
/// answers the request where the token does not pass.
pub fn authorize(
    cookie: Option<&str>,
    now: i64,
    config: &Config,
    cipher: &fernet::Fernet,
    session: &Session,
) -> (r: Result<AuthToken, Reply>)
    requires
        session.wf(),
    ensures
        exists|plaintext: Option<Seq<u8>>|
            admission_view(r) == admission(
                #[trigger] token_verdict(
                    text_of(cookie),
                    plaintext,
                    session.mapping@,
                    now as int,
                    config.session_duration as int,
                ),
                config.secure_session,
            ),
{
    let token = verify_token(cookie, now, config, cipher, session);
    let ghost plaintext = choose|plaintext: Option<Seq<u8>>|
        token@ == token_verdict(
            text_of(cookie),
            plaintext,
            session.mapping@,
            now as int,
            config.session_duration as int,
        );
    let r = gate(token, config);
    assert(admission_view(r) == admission(
        token_verdict(
            text_of(cookie),
            plaintext,
            session.mapping@,
            now as int,
            config.session_duration as int,
        ),
        config.secure_session,
    ));
    r
}

/// The time at which a cookie minted at `now` expires, where that time can
/// be written.
pub open spec fn expiry(now: int, duration: int) -> Option<int> {
    if i64::MIN <= now + duration <= i64::MAX {
        Some(now + duration)
    } else {
        None
    }
}

/// The cookie that carries a session token. It lives as long as the
/// session.
pub open spec fn session_cookie(token: Seq<char>, now: int, duration: int, secure: bool) -> CookieView {
    CookieView {
        name: "session_token"@,
        value: token,
        path: None,
        http_only: true,
        same_site_strict: true,
        max_age: Some(duration),
        expires: expiry(now, duration),
        secure,
        removal: false,
    }
}

/// The answer to a login that succeeded, given the token it minted: the
/// address of the home page, and the token in a cookie.
pub open spec fn welcome_reply(token: Seq<char>, now: int, duration: int, secure: bool) -> ReplyView {
    ReplyView {
        status: 200,
        body: BodyView::Redirect("/home"@),
        cookie: Some(session_cookie(token, now, duration, secure)),
        location: None,
    }
}

/// Answers a login that succeeded, given the encrypted session token.
pub fn welcome(token: String, now: i64, config: &Config) -> (r: Reply)
    ensures
        r@ == welcome_reply(
            token@,
            now as int,
            config.session_duration as int,
            config.secure_session,
        ),
{
    Reply {
        status: 200,
        body: Body::Redirect("/home".to_owned()),
        cookie: Some(
            Cookie {
                name: "session_token".to_owned(),
                value: token,
                path: None,
                http_only: true,
                same_site_strict: true,
                max_age: Some(config.session_duration),
                expires: now.checked_add(config.session_duration),
                secure: config.secure_session,
                removal: false,
            },
        ),
        location: None,
    }
}

/// Handles a login, given the value of the `Authorization` header, the
/// host that connects and the time.
///
/// Credentials that do not pass are answered with status 401 and the
/// reason, and change nothing. Credentials that pass open a session for
/// the user, record the connection of the host, and are answered with a
/// session cookie whose value is the encrypted session token.
pub fn login(
    authorization: Option<&str>,
    host: &str,
    now: i64,
    config: &Config,
    cipher: &fernet::Fernet,
    session: &mut Session,
) -> (r: Reply)
    requires
        config.wf(),
        old(session).wf(),
    ensures
        final(session).wf(),
        match login_outcome(text_of(authorization), config.authorization@) {
            Err(message) => {
                &&& r@ == plain_reply(401, BodyView::Detail(message))
                &&& final(session).mapping == old(session).mapping
                &&& final(session).tracker == old(session).tracker
            },
            Ok(credentials) => {
                &&& exists|token: Seq<char>|
                    r@ == welcome_reply(
                        token,
                        now as int,
                        config.session_duration as int,
                        config.secure_session,
                    )
                &&& exists|key: Seq<char>|
                    is_session_key(key) && final(session).mapping@ == old(
                        session,
                    ).mapping@.insert(credentials.username, key)
                &&& final(session).tracker@ == connected(old(session).tracker@, host@)
            },
        },
{
    match verify_login(authorization, config, session) {
        Err(message) => reply(401, Body::Detail(DetailError { detail: message })),
        Ok(payload) => {
            assert(is_session_key(payload.key@) && session.mapping@ == old(
                session,
            ).mapping@.insert(payload.username@, payload.key@));
            let _ = log_connection(host, session);
            let text = mint_payload(&payload);
            let token = encrypt(cipher, text.as_str().as_bytes());
            let r = welcome(token, now, config);
            assert(r@ == welcome_reply(
                token@,
                now as int,
                config.session_duration as int,
                config.secure_session,
            ));
            r
        },
    }
}

/// What the logout page says to a user who was logged in.
pub open spec fn logged_out() -> Seq<char> {
    "You have been logged out successfully."@
}

/// What the logout page says to a user who was not logged in.
pub open spec fn not_logged_in() -> Seq<char> {
    "You are not logged in. Please click the button below to proceed."@
}

/// The cookie that makes the browser forget the session token.
pub open spec fn removal_cookie() -> CookieView {
    CookieView {
        name: "session_token"@,
        value: Seq::empty(),
        path: None,
        http_only: false,
        same_site_strict: true,
        max_age: None,
        expires: None,
        secure: false,
        removal: true,
    }
}

/// The answer to a logout.
pub open spec fn logout_reply(valid: bool) -> ReplyView {
    if valid {
        ReplyView {
            status: 200,
            body: BodyView::Html(PageView::Logout { detail: logged_out(), show_login: false }),
            cookie: Some(removal_cookie()),
            location: None,
        }
    } else {
        page_reply(200, PageView::Logout { detail: not_logged_in(), show_login: true })
    }
}

/// Handles a logout, given the verdict on the session token of the
/// request. A user with a valid session is no longer tracked under the
/// host, and the browser is told to forget the token; any other user is
/// offered the login.
pub fn logout(host: &str, auth_response: &AuthToken, session: &mut Session) -> (r: Reply)
    requires
        old(session).wf(),
    ensures
        final(session).wf(),
        r@ == logout_reply(auth_response.ok),
        final(session).mapping == old(session).mapping,
        final(session).tracker@ == (if auth_response.ok {
            old(session).tracker@.remove(host@)
        } else {
            old(session).tracker@
        }),
{
    if auth_response.ok {
        let _ = session.tracker.remove(host);
        Reply {
            status: 200,
            body: Body::Html(
                Page::Logout {
                    detail: "You have been logged out successfully.".to_owned(),
                    show_login: false,
                },
            ),
            cookie: Some(
                Cookie {
                    name: "session_token".to_owned(),
                    value: String::new(),
                    path: None,
                    http_only: false,
                    same_site_strict: true,
                    max_age: None,
                    expires: None,
                    secure: false,
                    removal: true,
                },
            ),
            location: None,
        }
    } else {
        reply(
            200,
            Body::Html(
                Page::Logout {
                    detail: "You are not logged in. Please click the button below to proceed.".to_owned(),
                    show_login: true,
                },
            ),
        )
    }
}

/// Handles a request for the home page, given the verdict on its session
/// token and the paths of all files below the media root, relative to it
/// and in the order in which the tree was walked.
///
/// A request without a valid session is redirected to the error page, and
/// nothing is listed or recorded. A user with a valid session is shown the
/// listing of the media root, and the connection of the host is recorded.
pub fn home(
    auth_response: &AuthToken,
    host: &str,
    config: &Config,
    session: &mut Session,
    paths: &Vec<String>,
) -> (r: Reply)
    requires
        old(session).wf(),
    ensures
        final(session).wf(),
        final(session).mapping == old(session).mapping,
        final(session).tracker@ == (if auth_response.ok {
            connected(old(session).tracker@, host@)
        } else {
            old(session).tracker@
        }),
        r@ == guarded(
            auth_response@,
            config.secure_session,
            page_reply(
                200,
                PageView::Listing {
                    custom_title: None,
                    content: all_stream_content(
                        texts(paths@),
                        texts(config.file_formats@),
                        auth_response.username@,
                    ),
                    user: auth_response.username@,
                    secure_path: false,
                },
            ),
        ),
{
    if !auth_response.ok {
        return refuse(auth_response, config);
    }
    let _ = log_connection(host, session);
    let content = get_all_stream_content(config, auth_response, paths);
    reply(
        200,
        Body::Html(
            Page::Listing {
                custom_title: None,
                content,
                user: auth_response.username.clone(),
                secure_path: false,
            },
        ),
    )
}

/// The help that the error page gives to a user who failed to log in.
pub open spec fn login_help() -> Seq<char> {
    "Forgot Password?\\n\\nRelax and try to remember your password."@
}

/// The answer of the error page: the page that shows the reason of a
/// session that ended, where the request carries one in its `detail`
/// cookie, and the page of a failed login, with status 401, where it does
/// not.
pub open spec fn error_reply(detail: Option<Seq<char>>) -> ReplyView {
    match detail {
        Some(reason) => page_reply(200, PageView::Session { reason }),
        None => page_reply(
            401,
            PageView::Error(
                ErrorPageView {
                    title: "LOGIN FAILED"@,
                    description: "USER ERROR - REPLACE USER"@,
                    help: login_help(),
                    button_text: "LOGIN"@,
                    button_link: "/"@,
                    block_navigation: true,
                },
            ),
        ),
    }
}

/// Shows the error page, given the value of the `detail` cookie of the
/// request.
pub fn error(detail: Option<&str>) -> (r: Reply)
    ensures
        r@ == error_reply(text_of(detail)),
{
    match detail {
        Some(reason) => reply(200, Body::Html(Page::Session { reason: reason.to_owned() })),
        None => reply(
            401,
            Body::Html(
                Page::Error(
                    ErrorPage {
                        title: "LOGIN FAILED".to_owned(),
                        description: "USER ERROR - REPLACE USER".to_owned(),
                        help: "Forgot Password?\\n\\nRelax and try to remember your password.".to_owned(),
                        button_text: "LOGIN".to_owned(),
                        button_link: "/".to_owned(),
                        block_navigation: true,
                    },
                ),
            ),
        ),
    }
}

} // verus!
