//! Content discovery: which files and directories a user is shown, in which
//! order and with which icon, and which files stand beside a streamed file.

use crate::authenticator::{is_secure_component, AuthToken};
use crate::constant::{
    image_formats, is_image_format, secure_directory, secure_index, secure_index_of, SECURE_INDEX,
};
use crate::natural::{lemma_sort_commutes, sort_by_name, sorted_by_name, Named, NamedItem};
use crate::settings::Config;
use crate::text::{
    chars_of, extend_chars, find_last, has_suffix, last_index, lemma_last_index, rows, same_chars,
    same_text, slice_of, split, split_chars, string_of, texts,
};
use vstd::prelude::*;

verus! {

/// One line of a listing.
pub struct ContentEntry {
    /// What the line shows.
    pub name: String,
    /// Where the line leads.
    pub path: String,
    /// The icon of the line.
    pub font: String,
}

/// A `ContentEntry` as a mathematical value.
pub ghost struct EntryView {
    pub name: Seq<char>,
    pub path: Seq<char>,
    pub font: Seq<char>,
}

impl View for ContentEntry {
    type V = EntryView;

    open spec fn view(&self) -> EntryView {
        EntryView { name: self.name@, path: self.path@, font: self.font@ }
    }
}

impl Named for EntryView {
    open spec fn name(&self) -> Seq<char> {
        self.name
    }
}

impl Named for ContentEntry {
    open spec fn name(&self) -> Seq<char> {
        self.name@
    }
}

impl NamedItem for ContentEntry {
    fn name_chars(&self) -> (chars: Vec<char>) {
        chars_of(self.name.as_str())
    }
}

/// The lines of a sequence of entries.
pub open spec fn entry_views(entries: Seq<ContentEntry>) -> Seq<EntryView> {
    entries.map_values(|e: ContentEntry| e@)
}

/// What a listing shows: files, directories, and the private directories of
/// the user.
pub struct ContentPayload {
    pub files: Vec<ContentEntry>,
    pub directories: Vec<ContentEntry>,
    pub secured_directories: Vec<ContentEntry>,
}

/// A `ContentPayload` as a mathematical value.
pub ghost struct PayloadView {
    pub files: Seq<EntryView>,
    pub directories: Seq<EntryView>,
    pub secured_directories: Seq<EntryView>,
}

impl View for ContentPayload {
    type V = PayloadView;

    open spec fn view(&self) -> PayloadView {
        PayloadView {
            files: entry_views(self.files@),
            directories: entry_views(self.directories@),
            secured_directories: entry_views(self.secured_directories@),
        }
    }
}

/// The files before and after a streamed file.
pub struct Iter {
    pub previous: Option<String>,
    pub next: Option<String>,
}

/// A list without any entry.
pub fn default_structure() -> (entries: Vec<ContentEntry>)
    ensures
        entries@.len() == 0,
{
    Vec::new()
}

/// The icon of an image file.
pub open spec fn image_font() -> Seq<char> {
    "fa-regular fa-file-image"@
}

/// The icon of any other file.
pub open spec fn video_font() -> Seq<char> {
    "fa-regular fa-file-video"@
}

/// The icon of a directory that holds media directly.
pub open spec fn folder_font() -> Seq<char> {
    "fa fa-folder"@
}

/// The icon of a directory that holds media further down.
pub open spec fn tree_font() -> Seq<char> {
    "fa-solid fa-folder-tree"@
}

/// The icon of a private directory.
pub open spec fn lock_font() -> Seq<char> {
    "fa-solid fa-lock"@
}

/// The icon for a file with the given extension.
pub open spec fn file_font(extension: Seq<char>) -> Seq<char> {
    if image_formats().contains(extension) {
        image_font()
    } else {
        video_font()
    }
}

/// The icon for a file with the given extension: the image icon for an image
/// format, the video icon for anything else.
pub fn get_file_font(extn: &str) -> (font: String)
    ensures
        font@ == file_font(extn@),
{
    if is_image_format(extn) {
        "fa-regular fa-file-image".to_owned()
    } else {
        "fa-regular fa-file-video".to_owned()
    }
}

/// The lowercase form of an ASCII letter; any other character is unchanged.
pub open spec fn lower_char(c: char) -> char {
    if 'A' <= c <= 'Z' {
        ((c as u8 + 32) as u8) as char
    } else {
        c
    }
}

/// `s` with its ASCII letters in lowercase.
pub open spec fn lower(s: Seq<char>) -> Seq<char> {
    Seq::new(s.len(), |i: int| lower_char(s[i]))
}

/// The ASCII-lowercase form of `s`.
pub fn lowercase(s: &Vec<char>) -> (r: Vec<char>)
    ensures
        r@ == lower(s@),
{
    let mut r: Vec<char> = Vec::new();
    let mut i: usize = 0;
    while i < s.len()
        invariant
            i <= s.len(),
            r@.len() == i,
            forall|j: int| 0 <= j < i ==> r@[j] == lower_char(s@[j]),
        decreases s.len() - i,
    {
        let c = s[i];
        if 'A' <= c && c <= 'Z' {
            r.push((c as u8 + 32) as char);
        } else {
            r.push(c);
        }
        i += 1;
    }
    assert(r@ =~= lower(s@));
    r
}

/// The index of the last dot of `name`, or `-1` when it has none.
pub open spec fn last_dot(name: Seq<char>) -> int {
    last_index(name, '.')
}

/// The extension of a file name: what follows its last dot. A name without
/// a dot has none, and neither has a name whose only dot is its first
/// character.
pub open spec fn extension_of(name: Seq<char>) -> Option<Seq<char>> {
    if last_dot(name) <= 0 {
        None
    } else {
        Some(name.skip(last_dot(name) + 1))
    }
}

/// The extension of a file name.
pub fn extension(name: &Vec<char>) -> (r: Option<Vec<char>>)
    ensures
        match r {
            Some(e) => extension_of(name@) == Some(e@),
            None => extension_of(name@) is None,
        },
{
    proof {
        lemma_last_index(name@, '.');
    }
    match find_last(name, '.') {
        Some(dot) => {
            if dot == 0 {
                None
            } else {
                Some(slice_of(name, dot + 1, name.len()))
            }
        },
        None => None,
    }
}

/// A name that listings leave out: one that begins with an underscore or a
/// dot.
pub open spec fn is_hidden(name: Seq<char>) -> bool {
    name.len() > 0 && (name[0] == '_' || name[0] == '.')
}

/// Whether the extension of a name, in lowercase, is one of the allowed
/// formats.
pub open spec fn has_allowed_extension(name: Seq<char>, formats: Seq<Seq<char>>) -> bool {
    extension_of(name) is Some && formats.contains(lower(extension_of(name).unwrap()))
}

/// Whether a file of this name is listed: the name is not hidden and its
/// extension is allowed.
pub open spec fn is_listed(name: Seq<char>, formats: Seq<Seq<char>>) -> bool {
    !is_hidden(name) && has_allowed_extension(name, formats)
}

/// Whether `formats` holds `extension`.
pub fn allows_format(formats: &Vec<String>, extension: &Vec<char>) -> (r: bool)
    ensures
        r == texts(formats@).contains(extension@),
{
    let mut i: usize = 0;
    while i < formats.len()
        invariant
            i <= formats.len(),
            forall|j: int| 0 <= j < i ==> texts(formats@)[j] != extension@,
        decreases formats.len() - i,
    {
        let format = chars_of(formats[i].as_str());
        if same_chars(&format, extension) {
            assert(texts(formats@)[i as int] == extension@);
            return true;
        }
        i += 1;
    }
    false
}

/// The lowercase extension of a name whose extension is allowed, or nothing
/// for any other name.
pub fn allowed_extension(name: &Vec<char>, formats: &Vec<String>) -> (r: Option<Vec<char>>)
    ensures
        match r {
            Some(e) => has_allowed_extension(name@, texts(formats@)) && e@ == lower(
                extension_of(name@).unwrap(),
            ),
            None => !has_allowed_extension(name@, texts(formats@)),
        },
{
    match extension(name) {
        Some(e) => {
            let lowered = lowercase(&e);
            if allows_format(formats, &lowered) {
                Some(lowered)
            } else {
                None
            }
        },
        None => None,
    }
}

/// Whether a name is hidden.
pub fn hidden(name: &Vec<char>) -> (r: bool)
    ensures
        r == is_hidden(name@),
{
    name.len() > 0 && (name[0] == '_' || name[0] == '.')
}

/// The lowercase extension of a name that is listed, or nothing for a name
/// that is not.
pub fn listed_extension(name: &Vec<char>, formats: &Vec<String>) -> (r: Option<Vec<char>>)
    ensures
        match r {
            Some(e) => is_listed(name@, texts(formats@)) && e@ == lower(
                extension_of(name@).unwrap(),
            ),
            None => !is_listed(name@, texts(formats@)),
        },
{
    if hidden(name) {
        return None;
    }
    match extension(name) {
        Some(e) => {
            let lowered = lowercase(&e);
            if allows_format(formats, &lowered) {
                Some(lowered)
            } else {
                None
            }
        },
        None => None,
    }
}

/// What a walked file contributes to the listing of the media root.
pub ghost enum Listed {
    /// A file that lies in the root itself.
    File(EntryView),
    /// The top-level directory above a file that anyone may see.
    Directory(EntryView),
    /// The private directory of the user, above a file inside it.
    Secured(EntryView),
    /// Nothing: the file is not listed, or lies in a private directory of
    /// somebody else.
    Skipped,
}

/// The address under which a name of the media root is streamed.
pub open spec fn stream_path(name: Seq<char>) -> Seq<char> {
    "stream/"@ + name
}

/// Some component of `chain` names a private directory.
pub open spec fn has_secure_component(chain: Seq<Seq<char>>) -> bool {
    exists|i: int| 0 <= i < chain.len() && is_secure_component(#[trigger] chain[i])
}

/// How the directories above a file are shown in the listing of the root.
pub ghost enum Folder {
    /// As the private directory of the user.
    Secured(EntryView),
    /// As an ordinary directory.
    Open(EntryView),
    /// Not at all.
    Hidden,
}

/// How the chain of directories above a file is shown to `username`: by the
/// top-level directory of the chain. It is shown as a private directory if
/// the chain has a private directory in it and its top is the private
/// directory of the user, not at all if the chain has a private directory
/// in it otherwise, and else as an ordinary directory, with the tree icon
/// where the chain is longer than one directory.
pub open spec fn folder_of(chain: Seq<Seq<char>>, username: Seq<char>) -> Folder {
    let top = chain[0];
    if has_secure_component(chain) {
        if top == secure_index_of(username) {
            Folder::Secured(EntryView { name: top, path: stream_path(top), font: lock_font() })
        } else {
            Folder::Hidden
        }
    } else {
        Folder::Open(
            EntryView {
                name: top,
                path: stream_path(top),
                font: if chain.len() > 1 {
                    tree_font()
                } else {
                    folder_font()
                },
            },
        )
    }
}

/// What the file at `path`, a path relative to the media root, contributes
/// to the listing of the root for `username`: nothing unless the file is
/// listed, a file entry if it lies in the root itself, and else what
/// `folder_of` makes of the directories above it.
pub open spec fn classified(path: Seq<char>, formats: Seq<Seq<char>>, username: Seq<char>) -> Listed {
    let parts = split(path, seq!['/']);
    let name = parts.last();
    if !is_listed(name, formats) {
        Listed::Skipped
    } else if parts.len() == 1 {
        Listed::File(
            EntryView {
                name,
                path: stream_path(name),
                font: file_font(lower(extension_of(name).unwrap())),
            },
        )
    } else {
        match folder_of(parts.drop_last(), username) {
            Folder::Secured(entry) => Listed::Secured(entry),
            Folder::Open(entry) => Listed::Directory(entry),
            Folder::Hidden => Listed::Skipped,
        }
    }
}

/// `list` with `entry` at its end, unless the list holds the entry already.
pub open spec fn with_entry(list: Seq<EntryView>, entry: EntryView) -> Seq<EntryView> {
    if list.contains(entry) {
        list
    } else {
        list.push(entry)
    }
}

/// The listing gathered from the walked files, in the order of the walk.
pub open spec fn gathered(paths: Seq<Seq<char>>, formats: Seq<Seq<char>>, username: Seq<char>) -> PayloadView
    decreases paths.len(),
{
    if paths.len() == 0 {
        PayloadView {
            files: Seq::empty(),
            directories: Seq::empty(),
            secured_directories: Seq::empty(),
        }
    } else {
        let before = gathered(paths.drop_last(), formats, username);
        match classified(paths.last(), formats, username) {
            Listed::File(entry) => PayloadView { files: before.files.push(entry), ..before },
            Listed::Directory(entry) => PayloadView {
                directories: with_entry(before.directories, entry),
                ..before
            },
            Listed::Secured(entry) => PayloadView {
                secured_directories: with_entry(before.secured_directories, entry),
                ..before
            },
            Listed::Skipped => before,
        }
    }
}

/// The listing of the media root for `username`: what the walked files
/// contribute, with files and directories in the natural order of their
/// names.
pub open spec fn all_stream_content(
    paths: Seq<Seq<char>>,
    formats: Seq<Seq<char>>,
    username: Seq<char>,
) -> PayloadView {
    let found = gathered(paths, formats, username);
    PayloadView {
        files: sorted_by_name(found.files),
        directories: sorted_by_name(found.directories),
        secured_directories: found.secured_directories,
    }
}

fn stream_entry(name: &Vec<char>, font: &str) -> (entry: ContentEntry)
    ensures
        entry@ == (EntryView { name: name@, path: stream_path(name@), font: font@ }),
{
    let mut path = chars_of("stream/");
    extend_chars(&mut path, name);
    ContentEntry { name: string_of(name), path: string_of(&path), font: font.to_owned() }
}

fn holds_entry(list: &Vec<ContentEntry>, entry: &ContentEntry) -> (r: bool)
    ensures
        r == entry_views(list@).contains(entry@),
{
    let mut i: usize = 0;
    while i < list.len()
        invariant
            i <= list.len(),
            forall|j: int| 0 <= j < i ==> entry_views(list@)[j] != entry@,
        decreases list.len() - i,
    {
        if same_text(list[i].name.as_str(), entry.name.as_str()) && same_text(
            list[i].path.as_str(),
            entry.path.as_str(),
        ) && same_text(list[i].font.as_str(), entry.font.as_str()) {
            assert(entry_views(list@)[i as int] == entry@);
            return true;
        }
        i += 1;
    }
    false
}

fn add_entry(list: &mut Vec<ContentEntry>, entry: ContentEntry)
    ensures
        entry_views(final(list)@) == with_entry(entry_views(old(list)@), entry@),
{
    if !holds_entry(list, &entry) {
        list.push(entry);
        assert(entry_views(list@) =~= entry_views(old(list)@).push(entry@));
    }
}

fn any_secure(chain: &Vec<Vec<char>>, count: usize) -> (r: bool)
    requires
        count <= chain.len(),
    ensures
        r == has_secure_component(rows(chain@).take(count as int)),
{
    let suffix = chars_of(SECURE_INDEX);
    let ghost parts = rows(chain@).take(count as int);
    let mut i: usize = 0;
    while i < count
        invariant
            i <= count <= chain.len(),
            suffix@ == secure_index(),
            parts == rows(chain@).take(count as int),
            forall|j: int| 0 <= j < i ==> !is_secure_component(#[trigger] parts[j]),
        decreases count - i,
    {
        assert(parts[i as int] == chain@[i as int]@);
        if has_suffix(&chain[i], &suffix) {
            assert(is_secure_component(parts[i as int]));
            return true;
        }
        i += 1;
    }
    false
}

/// How the directories above a file are shown in the listing of the root.
pub enum FolderEntry {
    /// As the private directory of the user.
    Secured(ContentEntry),
    /// As an ordinary directory.
    Open(ContentEntry),
    /// Not at all.
    Hidden,
}

impl View for FolderEntry {
    type V = Folder;

    open spec fn view(&self) -> Folder {
        match self {
            FolderEntry::Secured(entry) => Folder::Secured(entry@),
            FolderEntry::Open(entry) => Folder::Open(entry@),
            FolderEntry::Hidden => Folder::Hidden,
        }
    }
}

/// Decides how the directories above a file are shown to `username`. The
/// chain is the first `depth` components of `parts`.
pub fn get_folder_font(parts: &Vec<Vec<char>>, depth: usize, username: &str) -> (folder:
    FolderEntry)
    requires
        0 < depth <= parts.len(),
    ensures
        folder@ == folder_of(rows(parts@).take(depth as int), username@),
{
    assert(rows(parts@).take(depth as int)[0] == parts@[0]@);
    if any_secure(parts, depth) {
        let own = secure_directory(username);
        if same_chars(&parts[0], &own) {
            FolderEntry::Secured(stream_entry(&parts[0], "fa-solid fa-lock"))
        } else {
            FolderEntry::Hidden
        }
    } else if depth > 1 {
        FolderEntry::Open(stream_entry(&parts[0], "fa-solid fa-folder-tree"))
    } else {
        FolderEntry::Open(stream_entry(&parts[0], "fa fa-folder"))
    }
}

/// Adds to `payload` what the file at `path` contributes to the listing of
/// the media root.
fn gather(payload: &mut ContentPayload, path: &str, formats: &Vec<String>, username: &str)
    ensures
        final(payload)@ == (match classified(path@, texts(formats@), username@) {
            Listed::File(entry) => PayloadView {
                files: old(payload)@.files.push(entry),
                ..old(payload)@
            },
            Listed::Directory(entry) => PayloadView {
                directories: with_entry(old(payload)@.directories, entry),
                ..old(payload)@
            },
            Listed::Secured(entry) => PayloadView {
                secured_directories: with_entry(old(payload)@.secured_directories, entry),
                ..old(payload)@
            },
            Listed::Skipped => old(payload)@,
        }),
{
    let chars = chars_of(path);
    let mut slash: Vec<char> = Vec::new();
    slash.push('/');
    assert(slash@ =~= seq!['/']);
    let parts = split_chars(&chars, &slash);
    let ghost all = split(path@, seq!['/']);
    let last = parts.len() - 1;
    assert(all.last() == parts@[last as int]@);
    assert(all[0] == parts@[0]@);
    let lowered = match listed_extension(&parts[last], formats) {
        Some(lowered) => lowered,
        None => {
            return ;
        },
    };
    if parts.len() == 1 {
        let font = get_file_font(string_of(&lowered).as_str());
        let entry = stream_entry(&parts[last], font.as_str());
        payload.files.push(entry);
        assert(entry_views(payload.files@) =~= entry_views(old(payload).files@).push(entry@));
        return ;
    }
    assert(all.drop_last() =~= rows(parts@).take(last as int));
    match get_folder_font(&parts, last, username) {
        FolderEntry::Secured(entry) => add_entry(&mut payload.secured_directories, entry),
        FolderEntry::Open(entry) => add_entry(&mut payload.directories, entry),
        FolderEntry::Hidden => {},
    }
}

/// The listing of the media root for the user of `auth_response`, given the
/// paths of all files below the root, relative to it and in the order in
/// which the tree was walked.
pub fn get_all_stream_content(
    config: &Config,
    auth_response: &AuthToken,
    paths: &Vec<String>,
) -> (payload: ContentPayload)
    ensures
        payload@ == all_stream_content(
            texts(paths@),
            texts(config.file_formats@),
            auth_response.username@,
        ),
{
    let mut payload = ContentPayload {
        files: Vec::new(),
        directories: Vec::new(),
        secured_directories: Vec::new(),
    };
    let ghost all = texts(paths@);
    let ghost formats = texts(config.file_formats@);
    let ghost user = auth_response.username@;
    assert(payload@.files =~= Seq::<EntryView>::empty());
    assert(payload@.directories =~= Seq::<EntryView>::empty());
    assert(payload@.secured_directories =~= Seq::<EntryView>::empty());
    let mut i: usize = 0;
    while i < paths.len()
        invariant
            i <= paths.len(),
            all == texts(paths@),
            formats == texts(config.file_formats@),
            user == auth_response.username@,
            payload@ == gathered(all.take(i as int), formats, user),
        decreases paths.len() - i,
    {
        proof {
            let seen = all.take(i + 1);
            assert(seen.drop_last() =~= all.take(i as int));
            assert(seen.last() == paths@[i as int]@);
        }
        gather(
            &mut payload,
            paths[i].as_str(),
            &config.file_formats,
            auth_response.username.as_str(),
        );
        i += 1;
    }
    assert(all.take(paths.len() as int) =~= all);
    let ghost found = payload@;
    let files = sort_by_name(payload.files);
    let directories = sort_by_name(payload.directories);
    proof {
        lemma_sort_commutes(payload.files@, |e: ContentEntry| e@);
        lemma_sort_commutes(payload.directories@, |e: ContentEntry| e@);
    }
    ContentPayload { files, directories, secured_directories: payload.secured_directories }
}

/// One entry of a directory.
pub struct DirectoryItem {
    /// The name of the entry.
    pub name: String,
    /// Whether the entry is a directory.
    pub is_dir: bool,
}

/// A `DirectoryItem` as a mathematical value.
pub ghost struct ItemView {
    pub name: Seq<char>,
    pub is_dir: bool,
}

impl View for DirectoryItem {
    type V = ItemView;

    open spec fn view(&self) -> ItemView {
        ItemView { name: self.name@, is_dir: self.is_dir }
    }
}

/// The entries of a directory as mathematical values.
pub open spec fn item_views(items: Seq<DirectoryItem>) -> Seq<ItemView> {
    items.map_values(|i: DirectoryItem| i@)
}

/// The address of `name` inside the directory `child`.
pub open spec fn child_path(child: Seq<char>, name: Seq<char>) -> Seq<char> {
    if child.len() == 0 {
        name
    } else {
        child + seq!['/'] + name
    }
}

/// The listing gathered from the entries of one directory, in their order.
/// Hidden entries are left out; a directory is shown with the folder icon,
/// and a file is shown if its extension is allowed.
pub open spec fn gathered_in(items: Seq<ItemView>, child: Seq<char>, formats: Seq<Seq<char>>) -> PayloadView
    decreases items.len(),
{
    if items.len() == 0 {
        PayloadView {
            files: Seq::empty(),
            directories: Seq::empty(),
            secured_directories: Seq::empty(),
        }
    } else {
        let before = gathered_in(items.drop_last(), child, formats);
        let item = items.last();
        if is_hidden(item.name) {
            before
        } else if item.is_dir {
            PayloadView {
                directories: before.directories.push(
                    EntryView {
                        name: item.name,
                        path: child_path(child, item.name),
                        font: folder_font(),
                    },
                ),
                ..before
            }
        } else if has_allowed_extension(item.name, formats) {
            PayloadView {
                files: before.files.push(
                    EntryView {
                        name: item.name,
                        path: child_path(child, item.name),
                        font: file_font(lower(extension_of(item.name).unwrap())),
                    },
                ),
                ..before
            }
        } else {
            before
        }
    }
}

/// The listing of one directory: what its entries contribute, with files
/// and directories in the natural order of their names.
pub open spec fn dir_stream_content(
    items: Seq<ItemView>,
    child: Seq<char>,
    formats: Seq<Seq<char>>,
) -> PayloadView {
    let found = gathered_in(items, child, formats);
    PayloadView {
        files: sorted_by_name(found.files),
        directories: sorted_by_name(found.directories),
        secured_directories: found.secured_directories,
    }
}

fn child_entry(child: &Vec<char>, name: &str, font: &str) -> (entry: ContentEntry)
    ensures
        entry@ == (EntryView { name: name@, path: child_path(child@, name@), font: font@ }),
{
    let chars = chars_of(name);
    let mut path: Vec<char> = Vec::new();
    if child.len() > 0 {
        extend_chars(&mut path, child);
        path.push('/');
    }
    extend_chars(&mut path, &chars);
    assert(path@ =~= child_path(child@, name@));
    ContentEntry { name: name.to_owned(), path: string_of(&path), font: font.to_owned() }
}

/// The listing of one directory, given its entries and `child`, the last
/// component of its path relative to the media root.
pub fn get_dir_stream_content(
    child: &str,
    file_formats: &Vec<String>,
    items: &Vec<DirectoryItem>,
) -> (payload: ContentPayload)
    ensures
        payload@ == dir_stream_content(item_views(items@), child@, texts(file_formats@)),
{
    let parent = chars_of(child);
    let mut files: Vec<ContentEntry> = Vec::new();
    let mut directories: Vec<ContentEntry> = Vec::new();
    let ghost all = item_views(items@);
    let ghost formats = texts(file_formats@);
    let mut i: usize = 0;
    assert(entry_views(files@) =~= Seq::<EntryView>::empty());
    assert(entry_views(directories@) =~= Seq::<EntryView>::empty());
    while i < items.len()
        invariant
            i <= items.len(),
            all == item_views(items@),
            formats == texts(file_formats@),
            parent@ == child@,
            entry_views(files@) == gathered_in(all.take(i as int), child@, formats).files,
            entry_views(directories@) == gathered_in(
                all.take(i as int),
                child@,
                formats,
            ).directories,
            gathered_in(all.take(i as int), child@, formats).secured_directories
                == Seq::<EntryView>::empty(),
        decreases items.len() - i,
    {
        proof {
            let seen = all.take(i + 1);
            assert(seen.drop_last() =~= all.take(i as int));
            assert(seen.last() == items@[i as int]@);
        }
        let item = &items[i];
        let name = chars_of(item.name.as_str());
        if !hidden(&name) {
            if item.is_dir {
                let entry = child_entry(&parent, item.name.as_str(), "fa fa-folder");
                let ghost before = entry_views(directories@);
                directories.push(entry);
                assert(entry_views(directories@) =~= before.push(entry@));
            } else {
                match allowed_extension(&name, file_formats) {
                    Some(lowered) => {
                        let font = get_file_font(string_of(&lowered).as_str());
                        let entry = child_entry(&parent, item.name.as_str(), font.as_str());
                        let ghost before = entry_views(files@);
                        files.push(entry);
                        assert(entry_views(files@) =~= before.push(entry@));
                    },
                    None => {},
                }
            }
        }
        i += 1;
    }
    assert(all.take(items.len() as int) =~= all);
    proof {
        lemma_sort_commutes(files@, |e: ContentEntry| e@);
        lemma_sort_commutes(directories@, |e: ContentEntry| e@);
    }
    let secured_directories: Vec<ContentEntry> = Vec::new();
    assert(entry_views(secured_directories@) =~= Seq::<EntryView>::empty());
    ContentPayload {
        files: sort_by_name(files),
        directories: sort_by_name(directories),
        secured_directories,
    }
}

/// The names with an allowed extension, in their order.
pub open spec fn with_allowed_extension(names: Seq<Seq<char>>, formats: Seq<Seq<char>>) -> Seq<
    Seq<char>,
>
    decreases names.len(),
{
    if names.len() == 0 {
        Seq::empty()
    } else if has_allowed_extension(names.last(), formats) {
        with_allowed_extension(names.drop_last(), formats).push(names.last())
    } else {
        with_allowed_extension(names.drop_last(), formats)
    }
}

/// The index of the first occurrence of `target` in `names`, or `-1`.
pub open spec fn position_of(names: Seq<Seq<char>>, target: Seq<char>) -> int
    decreases names.len(),
{
    if names.len() == 0 {
        -1
    } else if names[0] == target {
        0
    } else {
        let rest = position_of(names.drop_first(), target);
        if rest < 0 {
            -1
        } else {
            rest + 1
        }
    }
}

/// An `Iter` as a mathematical value.
pub ghost struct IterView {
    pub previous: Option<Seq<char>>,
    pub next: Option<Seq<char>>,
}

impl View for Iter {
    type V = IterView;

    open spec fn view(&self) -> IterView {
        IterView {
            previous: match self.previous {
                Some(name) => Some(name@),
                None => None,
            },
            next: match self.next {
                Some(name) => Some(name@),
                None => None,
            },
        }
    }
}

/// The neighbours of a file among the entries of its directory: the entries
/// with an allowed extension are put in natural order, and the neighbours
/// are the names just before and just after the first occurrence of the
/// file. A file that is not among them has no neighbours.
pub open spec fn neighbours(
    file_name: Seq<char>,
    siblings: Seq<Seq<char>>,
    formats: Seq<Seq<char>>,
) -> IterView {
    let sorted = sorted_by_name(with_allowed_extension(siblings, formats));
    let at = position_of(sorted, file_name);
    if at < 0 || at >= sorted.len() {
        IterView { previous: None, next: None }
    } else {
        IterView {
            previous: if at > 0 {
                Some(sorted[at - 1])
            } else {
                None
            },
            next: if at + 1 < sorted.len() {
                Some(sorted[at + 1])
            } else {
                None
            },
        }
    }
}

/// The files to stream before and after `file_name`, given the names of the
/// entries of its directory.
pub fn get_iter(file_name: &str, file_formats: &Vec<String>, siblings: &Vec<String>) -> (iter: Iter)
    ensures
        iter@ == neighbours(file_name@, texts(siblings@), texts(file_formats@)),
{
    let ghost all = texts(siblings@);
    let ghost formats = texts(file_formats@);
    let mut kept: Vec<String> = Vec::new();
    let mut i: usize = 0;
    assert(texts(kept@) =~= Seq::<Seq<char>>::empty());
    while i < siblings.len()
        invariant
            i <= siblings.len(),
            all == texts(siblings@),
            formats == texts(file_formats@),
            texts(kept@) == with_allowed_extension(all.take(i as int), formats),
        decreases siblings.len() - i,
    {
        proof {
            let seen = all.take(i + 1);
            assert(seen.drop_last() =~= all.take(i as int));
            assert(seen.last() == siblings@[i as int]@);
        }
        let name = chars_of(siblings[i].as_str());
        if allowed_extension(&name, file_formats).is_some() {
            let ghost before = texts(kept@);
            kept.push(siblings[i].clone());
            assert(texts(kept@) =~= before.push(siblings@[i as int]@));
        }
        i += 1;
    }
    assert(all.take(siblings.len() as int) =~= all);
    proof {
        lemma_sort_commutes(kept@, |s: String| s@);
    }
    let sorted = sort_by_name(kept);
    let ghost names = texts(sorted@);
    assert(names == sorted_by_name(with_allowed_extension(all, formats)));
    let mut at: usize = 0;
    assert(names.skip(0) =~= names);
    while at < sorted.len()
        invariant
            at <= sorted.len(),
            names == texts(sorted@),
            names == sorted_by_name(
                with_allowed_extension(texts(siblings@), texts(file_formats@)),
            ),
            position_of(names, file_name@) == (if position_of(
                names.skip(at as int),
                file_name@,
            ) < 0 {
                -1
            } else {
                position_of(names.skip(at as int), file_name@) + at
            }),
        decreases sorted.len() - at,
    {
        let ghost rest = names.skip(at as int);
        assert(rest[0] == sorted@[at as int]@);
        assert(rest.drop_first() =~= names.skip(at + 1));
        if same_text(sorted[at].as_str(), file_name) {
            let previous = if at > 0 {
                Some(sorted[at - 1].clone())
            } else {
                None
            };
            let next = if at + 1 < sorted.len() {
                Some(sorted[at + 1].clone())
            } else {
                None
            };
            return Iter { previous, next };
        }
        at += 1;
    }
    Iter { previous: None, next: None }
}

} // verus!
