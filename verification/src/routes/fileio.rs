//! Editing: deleting and renaming what lies below the media root.

use crate::authenticator::{secure_index_allows, verify_secure_index, AuthToken};
use crate::content::{extension, extension_of};
use crate::paths::{below, file_name, file_name_of, join_below, parent, parent_of};
use crate::responses::{
    plain_reply, reply, restricted, restricted_reply, Body, BodyView, Reply, ReplyView,
};
use crate::routes::auth::{failed_auth_reply, refuse};
use crate::routes::media::{after_last, tail_after};
use crate::settings::Config;
use crate::text::{
    chars_of, concat, concat3, find_first, first_occurrence, same_chars, same_text, slice_of,
    string_of, text_of, texts, trim_chars, trimmed,
};
use vstd::prelude::*;

verus! {

/// What the client sends to have something edited.
pub struct Payload {
    /// The address at which the browser showed the thing.
    pub url_locator: Option<String>,
    /// The path of the thing as the page knew it.
    pub path_locator: Option<String>,
    /// The new name, for a rename.
    pub new_name: Option<String>,
}

/// The message for a request that lacks a locator.
pub open spec fn locators_missing() -> Seq<char> {
    "Both URL locator and path locator must be provided"@
}

/// The message for locators that lead to nothing.
pub open spec fn path_not_found() -> Seq<char> {
    "Unable to extract path from either of the parameters"@
}

/// The path that a locator names: what follows the first `stream` in it,
/// without one leading slash, below the media root. A locator without
/// `stream` names nothing.
pub open spec fn located(locator: Seq<char>, media_source: Seq<char>) -> Option<Seq<char>> {
    let at = first_occurrence(locator, "stream"@);
    if at < 0 {
        None
    } else {
        let rest = locator.skip(at + "stream"@.len());
        if rest.len() > 0 && rest[0] == '/' {
            Some(below(media_source, rest.drop_first()))
        } else {
            Some(below(media_source, rest))
        }
    }
}

/// The paths that the two locators name, that of the address first.
pub open spec fn candidates_of(
    url_locator: Seq<char>,
    path_locator: Seq<char>,
    media_source: Seq<char>,
) -> Seq<Seq<char>> {
    (match located(url_locator, media_source) {
        Some(path) => seq![path],
        None => Seq::empty(),
    }) + (match located(path_locator, media_source) {
        Some(path) => seq![path],
        None => Seq::empty(),
    })
}

fn locate(locator: &str, media_source: &str) -> (r: Option<String>)
    ensures
        match r {
            Some(path) => located(locator@, media_source@) == Some(path@),
            None => located(locator@, media_source@) is None,
        },
{
    let marker = chars_of("stream");
    proof {
        reveal_strlit("stream");
    }
    let chars = chars_of(locator);
    let at = match find_first(&chars, &marker) {
        Some(at) => at,
        None => {
            return None;
        },
    };
    let start = at + marker.len();
    let source = chars_of(media_source);
    if start < chars.len() && chars[start] == '/' {
        let rest = slice_of(&chars, start + 1, chars.len());
        assert(rest@ == locator@.skip(start as int).drop_first());
        Some(string_of(&join_below(&source, &rest)))
    } else {
        let rest = slice_of(&chars, start, chars.len());
        Some(string_of(&join_below(&source, &rest)))
    }
}

/// The paths that a request to edit may mean, for the caller to look up:
/// one for each locator that names a path. A request that lacks a locator
/// is refused.
pub fn media_path_candidates(payload: &Payload, media_source: &str) -> (r: Result<
    Vec<String>,
    String,
>)
    ensures
        match r {
            Ok(paths) => payload.url_locator is Some && payload.path_locator is Some && texts(
                paths@,
            ) == candidates_of(
                payload.url_locator.unwrap()@,
                payload.path_locator.unwrap()@,
                media_source@,
            ),
            Err(message) => (payload.url_locator is None || payload.path_locator is None)
                && message@ == locators_missing(),
        },
{
    match (&payload.url_locator, &payload.path_locator) {
        (Some(url), Some(path)) => {
            let mut paths: Vec<String> = Vec::new();
            match locate(url.as_str(), media_source) {
                Some(found) => {
                    paths.push(found);
                },
                None => {},
            }
            let ghost first = texts(paths@);
            match locate(path.as_str(), media_source) {
                Some(found) => {
                    paths.push(found);
                    assert(texts(paths@) =~= first + seq![found@]);
                },
                None => {
                    assert(texts(paths@) =~= first + Seq::<Seq<char>>::empty());
                },
            }
            assert(texts(paths@) =~= candidates_of(url@, path@, media_source@));
            Ok(paths)
        },
        _ => Err("Both URL locator and path locator must be provided".to_owned()),
    }
}

/// The first of the candidates that exists.
pub open spec fn first_existing(candidates: Seq<Seq<char>>, exists: Seq<bool>) -> Option<
    Seq<char>,
>
    decreases candidates.len(),
{
    if candidates.len() == 0 || exists.len() == 0 {
        None
    } else if exists[0] {
        Some(candidates[0])
    } else {
        first_existing(candidates.drop_first(), exists.drop_first())
    }
}

/// Chooses the path that a request to edit means: the first of the
/// candidates that exists. `exists` says of every candidate, in order,
/// whether something lies there.
pub fn extract_media_path(candidates: Vec<String>, exists: &Vec<bool>) -> (r: Result<
    String,
    String,
>)
    ensures
        match r {
            Ok(path) => first_existing(texts(candidates@), exists@) == Some(path@),
            Err(message) => first_existing(texts(candidates@), exists@) is None && message@
                == path_not_found(),
        },
{
    let ghost all = texts(candidates@);
    let mut i: usize = 0;
    assert(all.skip(0) =~= all);
    assert(exists@.skip(0) =~= exists@);
    while i < candidates.len() && i < exists.len()
        invariant
            i <= candidates.len(),
            i <= exists.len(),
            all == texts(candidates@),
            first_existing(all, exists@) == first_existing(
                all.skip(i as int),
                exists@.skip(i as int),
            ),
        decreases candidates.len() - i,
    {
        let ghost rest = all.skip(i as int);
        let ghost flags = exists@.skip(i as int);
        assert(rest[0] == candidates@[i as int]@);
        assert(flags[0] == exists@[i as int]);
        assert(rest.drop_first() =~= all.skip(i + 1));
        assert(flags.drop_first() =~= exists@.skip(i + 1));
        if exists[i] {
            return Ok(candidates[i].clone());
        }
        i += 1;
    }
    Err("Unable to extract path from either of the parameters".to_owned())
}

/// The first of the rules for a new file name that `new_name` breaks,
/// given the name that the file has: the new name must differ from the
/// old, must not begin or end with a dot or an underscore, must end in the
/// extension of the old name, and must have a character before that
/// extension.
pub open spec fn name_fault(old_name: Seq<char>, new_name: Seq<char>) -> Option<Seq<char>> {
    let old_extension = match extension_of(old_name) {
        Some(e) => e,
        None => Seq::empty(),
    };
    if old_name == new_name {
        Some("New name cannot be the same as old"@)
    } else if new_name.len() > 0 && (new_name[0] == '_' || new_name[0] == '.' || new_name.last()
        == '_' || new_name.last() == '.') {
        Some("New name cannot start or end with '.' or '_'"@)
    } else if after_last(new_name, '.') != old_extension {
        Some("File extension cannot be changed"@)
    } else if new_name.len() <= old_extension.len() + 1 {
        Some("At least one character is required as filename"@)
    } else {
        None
    }
}

/// Checks a new name for the file at `old_filepath`.
pub fn is_valid_name(old_filepath: &str, new_name: &str) -> (r: Result<bool, String>)
    ensures
        match r {
            Ok(valid) => valid && name_fault(file_name_of(old_filepath@), new_name@) is None,
            Err(message) => name_fault(file_name_of(old_filepath@), new_name@) == Some(message@),
        },
{
    let old_name = file_name(&chars_of(old_filepath));
    let name = chars_of(new_name);
    let old_extension = match extension(&old_name) {
        Some(e) => e,
        None => Vec::new(),
    };
    if same_chars(&old_name, &name) {
        return Err("New name cannot be the same as old".to_owned());
    }
    if name.len() > 0 && (name[0] == '_' || name[0] == '.' || name[name.len() - 1] == '_'
        || name[name.len() - 1] == '.') {
        return Err("New name cannot start or end with '.' or '_'".to_owned());
    }
    let new_extension = tail_after(&name, '.');
    if !same_chars(&new_extension, &old_extension) {
        return Err("File extension cannot be changed".to_owned());
    }
    if name.len() == 0 || name.len() - 1 <= old_extension.len() {
        return Err("At least one character is required as filename".to_owned());
    }
    Ok(true)
}

/// What lies at a path.
#[derive(Clone, Copy, PartialEq, Eq, Structural)]
pub enum PathKind {
    File,
    Directory,
    Other,
}

/// What a request to edit comes to.
pub enum EditStep {
    /// Send the answer; nothing is changed.
    Answer(Reply),
    /// Remove the file at the path, then report with `edit_done`.
    RemoveFile { path: String },
    /// Remove the directory at the path and all below it, then report.
    RemoveDirectory { path: String },
    /// Rename the file, then report.
    Rename { from: String, to: String },
}

/// `EditStep` as a mathematical value.
pub ghost enum EditStepView {
    Answer(ReplyView),
    RemoveFile { path: Seq<char> },
    RemoveDirectory { path: Seq<char> },
    Rename { from: Seq<char>, to: Seq<char> },
}

impl View for EditStep {
    type V = EditStepView;

    open spec fn view(&self) -> EditStepView {
        match self {
            EditStep::Answer(answer) => EditStepView::Answer(answer@),
            EditStep::RemoveFile { path } => EditStepView::RemoveFile { path: path@ },
            EditStep::RemoveDirectory { path } => EditStepView::RemoveDirectory { path: path@ },
            EditStep::Rename { from, to } => EditStepView::Rename { from: from@, to: to@ },
        }
    }
}

/// The answer with status 400 and a message.
pub open spec fn bad_request(message: Seq<char>) -> EditStepView {
    EditStepView::Answer(plain_reply(400, BodyView::Text(message)))
}

/// What a request to delete comes to.
pub open spec fn deletion(media_path: Seq<char>, kind: PathKind) -> EditStepView {
    match kind {
        PathKind::File => EditStepView::RemoveFile { path: media_path },
        PathKind::Directory => EditStepView::RemoveDirectory { path: media_path },
        PathKind::Other => bad_request(
            "\""@ + media_path + "\" was neither a file nor a directory"@,
        ),
    }
}

/// Decides on a request to delete what lies at `media_path`.
pub fn delete(media_path: &str, kind: PathKind) -> (step: EditStep)
    ensures
        step@ == deletion(media_path@, kind),
{
    match kind {
        PathKind::File => EditStep::RemoveFile { path: media_path.to_owned() },
        PathKind::Directory => EditStep::RemoveDirectory { path: media_path.to_owned() },
        PathKind::Other => EditStep::Answer(
            reply(
                400,
                Body::Text(concat3("\"", media_path, "\" was neither a file nor a directory")),
            ),
        ),
    }
}

/// What a request to rename comes to: only a file can be renamed, and only
/// to a valid name; it stays in its directory.
pub open spec fn renaming(media_path: Seq<char>, kind: PathKind, new_name: Seq<char>) -> EditStepView {
    if new_name.len() == 0 {
        bad_request("New name not received in payload"@)
    } else if kind != PathKind::File {
        bad_request("\""@ + media_path + "\" is an invalid file entry"@)
    } else {
        match name_fault(file_name_of(media_path), new_name) {
            Some(message) => bad_request(message),
            None => EditStepView::Rename {
                from: media_path,
                to: below(parent_of(media_path), new_name),
            },
        }
    }
}

/// Decides on a request to rename the file at `media_path`.
pub fn rename(media_path: &str, kind: PathKind, new_name: &str) -> (step: EditStep)
    ensures
        step@ == renaming(media_path@, kind, new_name@),
{
    let name = chars_of(new_name);
    if name.len() == 0 {
        return EditStep::Answer(
            reply(400, Body::Text("New name not received in payload".to_owned())),
        );
    }
    match kind {
        PathKind::File => {},
        _ => {
            return EditStep::Answer(
                reply(400, Body::Text(concat3("\"", media_path, "\" is an invalid file entry"))),
            );
        },
    }
    match is_valid_name(media_path, new_name) {
        Err(message) => EditStep::Answer(reply(400, Body::Text(message))),
        Ok(_) => {
            let directory = parent(&chars_of(media_path));
            EditStep::Rename {
                from: media_path.to_owned(),
                to: string_of(&join_below(&directory, &name)),
            }
        },
    }
}

/// What a request to edit comes to, given the path it means or the reason
/// why it means none, what lies at that path, the value of the header
/// `edit-action` and the new name from the payload.
///
/// A request that means no path is answered with status 400, and one for a
/// path in a private directory of somebody else with the restricted page.
/// The action must be `delete` or `rename`; a new name is stripped of the
/// white space around it.
pub open spec fn edit_step(
    username: Seq<char>,
    media_path: Result<Seq<char>, Seq<char>>,
    kind: PathKind,
    action: Option<Seq<char>>,
    new_name: Option<Seq<char>>,
) -> EditStepView {
    match media_path {
        Err(message) => bad_request(message),
        Ok(path) => if !secure_index_allows(path, username) {
            EditStepView::Answer(restricted_reply(username))
        } else {
            match action {
                None => bad_request("No action received!"@),
                Some(action) => if action == "delete"@ {
                    deletion(path, kind)
                } else if action == "rename"@ {
                    match new_name {
                        Some(name) => renaming(path, kind, trimmed(name)),
                        None => bad_request("New name is missing!"@),
                    }
                } else {
                    bad_request("Unsupported action!"@)
                },
            }
        },
    }
}

/// The path or the message of a result, as mathematical values.
pub open spec fn path_view(media_path: Result<String, String>) -> Result<Seq<char>, Seq<char>> {
    match media_path {
        Ok(path) => Ok(path@),
        Err(message) => Err(message@),
    }
}

/// Decides on a request to edit, given the verdict on its session token.
/// A request without a valid session is redirected to the error page and
/// changes nothing; any other comes to what `edit_step` says.
pub fn edit(
    auth_response: &AuthToken,
    config: &Config,
    media_path: Result<String, String>,
    kind: PathKind,
    action: Option<&str>,
    new_name: Option<&str>,
) -> (step: EditStep)
    ensures
        step@ == (if auth_response.ok {
            edit_step(
                auth_response.username@,
                path_view(media_path),
                kind,
                text_of(action),
                text_of(new_name),
            )
        } else {
            EditStepView::Answer(
                failed_auth_reply(auth_response.detail@, config.secure_session),
            )
        }),
{
    if !auth_response.ok {
        return EditStep::Answer(refuse(auth_response, config));
    }
    let path = match media_path {
        Ok(path) => path,
        Err(message) => {
            return EditStep::Answer(reply(400, Body::Text(message)));
        },
    };
    if !verify_secure_index(path.as_str(), auth_response.username.as_str()) {
        return EditStep::Answer(restricted(auth_response.username.as_str()));
    }
    let action = match action {
        Some(action) => action,
        None => {
            return EditStep::Answer(reply(400, Body::Text("No action received!".to_owned())));
        },
    };
    if same_text(action, "delete") {
        delete(path.as_str(), kind)
    } else if same_text(action, "rename") {
        match new_name {
            Some(name) => {
                let stripped = string_of(&trim_chars(&chars_of(name)));
                rename(path.as_str(), kind, stripped.as_str())
            },
            None => EditStep::Answer(reply(400, Body::Text("New name is missing!".to_owned()))),
        }
    } else {
        EditStep::Answer(reply(400, Body::Text("Unsupported action!".to_owned())))
    }
}

/// The answer once the change has been tried: status 200 where it
/// succeeded, and status 500 with the error where it failed.
pub open spec fn outcome(step: EditStepView, failure: Option<Seq<char>>) -> ReplyView {
    match step {
        EditStepView::Answer(answer) => answer,
        _ => match failure {
            None => plain_reply(200, BodyView::Empty),
            Some(reason) => plain_reply(
                500,
                BodyView::Text(
                    (match step {
                        EditStepView::RemoveFile { .. } => "Error deleting file: "@,
                        EditStepView::RemoveDirectory { .. } => "Error deleting directory: "@,
                        _ => "Error renaming file: "@,
                    }) + reason,
                ),
            ),
        },
    }
}

/// Answers a request to edit once the change has been tried; `failure` is
/// the error of the file system, if there was one.
pub fn edit_done(step: EditStep, failure: Option<&str>) -> (r: Reply)
    ensures
        r@ == outcome(step@, text_of(failure)),
{
    match step {
        EditStep::Answer(answer) => answer,
        EditStep::RemoveFile { path } => match failure {
            None => reply(200, Body::Empty),
            Some(reason) => reply(500, Body::Text(concat("Error deleting file: ", reason))),
        },
        EditStep::RemoveDirectory { path } => match failure {
            None => reply(200, Body::Empty),
            Some(reason) => reply(500, Body::Text(concat("Error deleting directory: ", reason))),
        },
        EditStep::Rename { from, to } => match failure {
            None => reply(200, Body::Empty),
            Some(reason) => reply(500, Body::Text(concat("Error renaming file: ", reason))),
        },
    }
}

} // verus!
