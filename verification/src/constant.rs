//! Names and process-wide state shared by every part of the server.

use crate::store::TextMap;
use crate::text::{chars_of, same_text};
use vstd::prelude::*;

verus! {

/// The suffix that marks a directory as the private space of one user.
pub const SECURE_INDEX: &'static str = "SECURE_INDEX";

/// The suffix that marks a directory as the private space of one user.
pub open spec fn secure_index() -> Seq<char> {
    "SECURE_INDEX"@
}

/// The file extensions that are shown as images.
pub open spec fn image_formats() -> Seq<Seq<char>> {
    seq!["jpeg"@, "jpg"@, "png"@, "gif"@, "bmp"@, "svg"@, "webp"@]
}

/// Whether `extension` is one of the image formats.
pub fn is_image_format(extension: &str) -> (r: bool)
    ensures
        r == image_formats().contains(extension@),
{
    let r = same_text(extension, "jpeg") || same_text(extension, "jpg") || same_text(
        extension,
        "png",
    ) || same_text(extension, "gif") || same_text(extension, "bmp") || same_text(extension, "svg")
        || same_text(extension, "webp");
    proof {
        let f = image_formats();
        if r {
            if extension@ == "jpeg"@ {
                assert(f[0] == extension@);
            } else if extension@ == "jpg"@ {
                assert(f[1] == extension@);
            } else if extension@ == "png"@ {
                assert(f[2] == extension@);
            } else if extension@ == "gif"@ {
                assert(f[3] == extension@);
            } else if extension@ == "bmp"@ {
                assert(f[4] == extension@);
            } else if extension@ == "svg"@ {
                assert(f[5] == extension@);
            } else {
                assert(f[6] == extension@);
            }
        }
    }
    r
}

/// What the build knows about the package.
#[derive(Debug, Clone)]
pub struct MetaData {
    pub crate_name: String,
    pub manifest_dir: String,
    pub authors: Vec<String>,
    pub description: String,
    pub homepage: String,
    pub pkg_name: String,
    pub pkg_repo: String,
    pub pkg_version: String,
    pub pkg_version_major: String,
    pub pkg_version_minor: String,
    pub pkg_version_patch: String,
    pub pkg_version_pre: String,
}

/// The state that changes while the server runs.
///
/// `tracker` maps a host to the path it streamed last, the empty text for
/// a host that has connected and streamed nothing yet. `mapping` maps a
/// user name to the key of that user's current session.
pub struct Session {
    pub tracker: TextMap,
    pub mapping: TextMap,
}

impl Session {
    /// Both maps are well formed.
    pub open spec fn wf(&self) -> bool {
        self.tracker.wf() && self.mapping.wf()
    }
}

/// A session state in which no host is tracked and no user has a session.
pub fn session_info() -> (session: Session)
    ensures
        session.wf(),
        session.tracker@ == Map::<Seq<char>, Seq<char>>::empty(),
        session.mapping@ == Map::<Seq<char>, Seq<char>>::empty(),
{
    Session { tracker: TextMap::new(), mapping: TextMap::new() }
}

/// A cipher with a fresh random key, for the session tokens of this process.
///
/// Trusted: `fernet::Fernet::generate_key` yields a key that
/// `fernet::Fernet::new` accepts; nothing is claimed of the key itself.
#[verifier::external_body]
pub fn fernet_object() -> (cipher: fernet::Fernet) {
    fernet::Fernet::new(&fernet::Fernet::generate_key()).unwrap()
}

/// The name of the directory that is private to `username`.
pub open spec fn secure_index_of(username: Seq<char>) -> Seq<char> {
    username + seq!['_'] + secure_index()
}

/// The name of the directory that is private to `username`.
pub fn secure_directory(username: &str) -> (name: Vec<char>)
    ensures
        name@ == secure_index_of(username@),
{
    let mut name = chars_of(username);
    name.push('_');
    let suffix = chars_of(SECURE_INDEX);
    crate::text::extend_chars(&mut name, &suffix);
    name
}

} // verus!
