//! Uploads: where a file goes, and what to do at every step of receiving it.

use crate::authenticator::AuthToken;
use crate::constant::{secure_directory, secure_index_of};
use crate::paths::{below, join_below};
use crate::responses::{page_reply, plain_reply, reply, Body, BodyView, Page, PageView, Reply, ReplyView};
use crate::routes::auth::{failed_auth_reply, guarded, refuse};
use crate::settings::Config;
use crate::text::{chars_of, concat, same_text, string_of, text_of};
use vstd::prelude::*;

verus! {

/// The directory that an upload goes to: the private directory of the user
/// where the request carries the header `secure-flag` with the value
/// `true`, and the media root otherwise.
pub open spec fn upload_directory_of(
    media_source: Seq<char>,
    username: Seq<char>,
    secure_flag: Option<Seq<char>>,
) -> Seq<char> {
    if secure_flag == Some("true"@) {
        below(media_source, secure_index_of(username))
    } else {
        media_source
    }
}

/// Chooses the directory that an upload goes to, given the verdict on the
/// session token of the request and the value of its header `secure-flag`.
/// A request without a valid session is redirected to the error page and
/// uploads nothing.
pub fn upload_directory(config: &Config, auth_response: &AuthToken, secure_flag: Option<&str>) -> (r:
    Result<String, Reply>)
    ensures
        match r {
            Ok(path) => auth_response.ok && path@ == upload_directory_of(
                config.media_source@,
                auth_response.username@,
                text_of(secure_flag),
            ),
            Err(answer) => !auth_response.ok && answer@ == failed_auth_reply(
                auth_response.detail@,
                config.secure_session,
            ),
        },
{
    if !auth_response.ok {
        return Err(refuse(auth_response, config));
    }
    let secure = match secure_flag {
        Some(flag) => same_text(flag, "true"),
        None => false,
    };
    if secure {
        let own = secure_directory(auth_response.username.as_str());
        Ok(string_of(&join_below(&chars_of(config.media_source.as_str()), &own)))
    } else {
        Ok(config.media_source.clone())
    }
}

/// What happens while an upload is received.
pub enum UploadEvent {
    /// A field begins. `named` says whether it has a content disposition,
    /// and `filename` is the file name given there, if any.
    Field { named: bool, filename: Option<String> },
    /// A chunk of the current field has arrived.
    Chunk,
    /// The current field broke off; the client may have aborted.
    ChunkError { reason: String },
    /// A field could not be read.
    FieldError { reason: String },
    /// The upload is complete.
    End,
}

/// What to do next with an upload.
pub enum UploadStep {
    /// Create the file at the path and go on.
    Create { path: String },
    /// Write the chunk to the file of the current field and go on.
    Write,
    /// Send the answer and stop.
    Finish(Reply),
}

/// `UploadEvent` as a mathematical value.
pub ghost enum UploadEventView {
    Field { named: bool, filename: Option<Seq<char>> },
    Chunk,
    ChunkError { reason: Seq<char> },
    FieldError { reason: Seq<char> },
    End,
}

impl View for UploadEvent {
    type V = UploadEventView;

    open spec fn view(&self) -> UploadEventView {
        match self {
            UploadEvent::Field { named, filename } => UploadEventView::Field {
                named: *named,
                filename: match filename {
                    Some(name) => Some(name@),
                    None => None,
                },
            },
            UploadEvent::Chunk => UploadEventView::Chunk,
            UploadEvent::ChunkError { reason } => UploadEventView::ChunkError { reason: reason@ },
            UploadEvent::FieldError { reason } => UploadEventView::FieldError { reason: reason@ },
            UploadEvent::End => UploadEventView::End,
        }
    }
}

/// `UploadStep` as a mathematical value.
pub ghost enum UploadStepView {
    Create { path: Seq<char> },
    Write,
    Finish(ReplyView),
}

impl View for UploadStep {
    type V = UploadStepView;

    open spec fn view(&self) -> UploadStepView {
        match self {
            UploadStep::Create { path } => UploadStepView::Create { path: path@ },
            UploadStep::Write => UploadStepView::Write,
            UploadStep::Finish(answer) => UploadStepView::Finish(answer@),
        }
    }
}

/// What to do next with an upload into `directory`.
///
/// A field with a file name has its file created in the directory; a field
/// without one ends the upload with status 400. A chunk is written. A
/// field that breaks off ends the upload with status 422, a field that
/// cannot be read with status 400, and the end of the upload with status
/// 200.
pub open spec fn upload_step(directory: Seq<char>, event: UploadEventView) -> UploadStepView {
    match event {
        UploadEventView::Field { named, filename } => if !named {
            UploadStepView::Finish(
                plain_reply(400, BodyView::Json("Content disposition not found"@)),
            )
        } else {
            match filename {
                Some(name) => UploadStepView::Create { path: below(directory, name) },
                None => UploadStepView::Finish(
                    plain_reply(400, BodyView::Json("Filename not found in content disposition"@)),
                ),
            }
        },
        UploadEventView::Chunk => UploadStepView::Write,
        UploadEventView::ChunkError { reason } => UploadStepView::Finish(
            plain_reply(422, BodyView::Json("Error processing chunk: "@ + reason)),
        ),
        UploadEventView::FieldError { reason } => UploadStepView::Finish(
            plain_reply(400, BodyView::Json("Error processing field: "@ + reason)),
        ),
        UploadEventView::End => UploadStepView::Finish(plain_reply(200, BodyView::Empty)),
    }
}

/// Decides what to do next with an upload into `directory`.
pub fn save_files(directory: &str, event: UploadEvent) -> (step: UploadStep)
    ensures
        step@ == upload_step(directory@, event@),
{
    match event {
        UploadEvent::Field { named, filename } => {
            if !named {
                UploadStep::Finish(
                    reply(400, Body::Json("Content disposition not found".to_owned())),
                )
            } else {
                match filename {
                    Some(name) => UploadStep::Create {
                        path: string_of(
                            &join_below(&chars_of(directory), &chars_of(name.as_str())),
                        ),
                    },
                    None => UploadStep::Finish(
                        reply(
                            400,
                            Body::Json("Filename not found in content disposition".to_owned()),
                        ),
                    ),
                }
            }
        },
        UploadEvent::Chunk => UploadStep::Write,
        UploadEvent::ChunkError { reason } => UploadStep::Finish(
            reply(422, Body::Json(concat("Error processing chunk: ", reason.as_str()))),
        ),
        UploadEvent::FieldError { reason } => UploadStep::Finish(
            reply(400, Body::Json(concat("Error processing field: ", reason.as_str()))),
        ),
        UploadEvent::End => UploadStep::Finish(reply(200, Body::Empty)),
    }
}

/// Handles a request for the upload form, given the verdict on its session
/// token: the form for a user with a valid session, and the redirect to the
/// error page for any other request.
pub fn upload_files(auth_response: &AuthToken, config: &Config) -> (r: Reply)
    ensures
        r@ == guarded(
            auth_response@,
            config.secure_session,
            page_reply(200, PageView::Upload { user: auth_response.username@ }),
        ),
{
    if !auth_response.ok {
        return refuse(auth_response, config);
    }
    reply(200, Body::Html(Page::Upload { user: auth_response.username.clone() }))
}

} // verus!
