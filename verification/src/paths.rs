//! Paths as text: components are separated by slashes.

use crate::text::{extend_chars, find_last, last_index, lemma_last_index, slice_of};
use vstd::prelude::*;

verus! {

/// Where the last component of `path` begins: after its last slash.
pub open spec fn name_start(path: Seq<char>) -> int {
    last_index(path, '/') + 1
}

/// The last component of `path`.
pub open spec fn file_name_of(path: Seq<char>) -> Seq<char> {
    path.skip(name_start(path))
}

/// What precedes the last component of `path` and its slash; empty for a
/// path of one component.
pub open spec fn parent_of(path: Seq<char>) -> Seq<char> {
    if last_index(path, '/') < 0 {
        Seq::empty()
    } else {
        path.take(last_index(path, '/'))
    }
}

/// `path` with the extension of its last component replaced by `extension`,
/// or with a dot and `extension` added where that component has none.
pub open spec fn with_extension(path: Seq<char>, extension: Seq<char>) -> Seq<char> {
    let dot = last_index(file_name_of(path), '.');
    if dot <= 0 {
        path + seq!['.'] + extension
    } else {
        path.take(name_start(path) + dot) + seq!['.'] + extension
    }
}

/// `path` below `root`: the two joined by a slash, or `path` alone where
/// `root` is empty.
pub open spec fn below(root: Seq<char>, path: Seq<char>) -> Seq<char> {
    if root.len() == 0 {
        path
    } else {
        root + seq!['/'] + path
    }
}

/// The last component of `path`.
pub fn file_name(path: &Vec<char>) -> (name: Vec<char>)
    ensures
        name@ == file_name_of(path@),
{
    proof {
        lemma_last_index(path@, '/');
    }
    match find_last(path, '/') {
        Some(slash) => slice_of(path, slash + 1, path.len()),
        None => {
            assert(path@.skip(0) =~= path@);
            slice_of(path, 0, path.len())
        },
    }
}

/// What precedes the last component of `path`.
pub fn parent(path: &Vec<char>) -> (r: Vec<char>)
    ensures
        r@ == parent_of(path@),
{
    proof {
        lemma_last_index(path@, '/');
    }
    match find_last(path, '/') {
        Some(slash) => slice_of(path, 0, slash),
        None => Vec::new(),
    }
}

/// Replaces the extension of the last component of `path`.
pub fn replace_extension(path: &Vec<char>, extension: &Vec<char>) -> (r: Vec<char>)
    ensures
        r@ == with_extension(path@, extension@),
{
    proof {
        lemma_last_index(path@, '/');
    }
    let start: usize = match find_last(path, '/') {
        Some(slash) => slash + 1,
        None => 0,
    };
    let name = slice_of(path, start, path.len());
    assert(name@ == file_name_of(path@));
    proof {
        lemma_last_index(name@, '.');
    }
    let mut r = match find_last(&name, '.') {
        Some(dot) => {
            if dot == 0 {
                slice_of(path, 0, path.len())
            } else {
                slice_of(path, 0, start + dot)
            }
        },
        None => slice_of(path, 0, path.len()),
    };
    assert(path@.subrange(0, path.len() as int) =~= path@);
    r.push('.');
    extend_chars(&mut r, extension);
    assert(r@ =~= with_extension(path@, extension@));
    r
}

/// Joins `path` to `root`.
pub fn join_below(root: &Vec<char>, path: &Vec<char>) -> (r: Vec<char>)
    ensures
        r@ == below(root@, path@),
{
    let mut r: Vec<char> = Vec::new();
    if root.len() > 0 {
        extend_chars(&mut r, root);
        r.push('/');
    }
    extend_chars(&mut r, path);
    assert(r@ =~= below(root@, path@));
    r
}

} // verus!
