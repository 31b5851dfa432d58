//! Conversion of SubRip subtitles into WebVTT.

use crate::content::{extension, extension_of};
use crate::paths::{file_name, file_name_of, replace_extension, with_extension};
use crate::text::{
    chars_of, extend_chars, join, join_chars, replace_chars, replaced, rows, same_chars, split,
    split_chars, string_of, trim_chars, trimmed,
};
use vstd::prelude::*;

verus! {

/// The line that opens every WebVTT file, and the blank line after it.
pub open spec fn vtt_header() -> Seq<char> {
    "WEBVTT\n\n"@
}

/// A line break.
pub open spec fn line_break() -> Seq<char> {
    seq!['\n']
}

/// The blank line between two blocks.
pub open spec fn block_break() -> Seq<char> {
    seq!['\n', '\n']
}

/// The WebVTT form of one subtitle block: the counter in its first line is
/// dropped, its second line is the time code, and the lines after that are
/// the text. A block of fewer than two lines has no WebVTT form.
pub open spec fn vtt_block(block: Seq<char>) -> Option<Seq<char>> {
    let lines = split(block, line_break());
    if lines.len() < 2 {
        None
    } else {
        Some(lines[1] + line_break() + join(lines.skip(2), line_break()) + block_break())
    }
}

/// The WebVTT forms of the blocks, one after the other; none if some block
/// has no WebVTT form.
pub open spec fn vtt_blocks(blocks: Seq<Seq<char>>) -> Option<Seq<char>>
    decreases blocks.len(),
{
    if blocks.len() == 0 {
        Some(Seq::empty())
    } else {
        match (vtt_blocks(blocks.drop_last()), vtt_block(blocks.last())) {
            (Some(before), Some(block)) => Some(before + block),
            _ => None,
        }
    }
}

/// The text of SubRip subtitles prepared for conversion: every comma has
/// become a full stop, every arrow has lost the spaces around it, and the
/// white space at both ends is gone.
pub open spec fn prepared(srt: Seq<char>) -> Seq<char> {
    trimmed(replaced(replaced(srt, seq![','], seq!['.']), " --> "@, "-->"@))
}

/// The WebVTT form of SubRip subtitles: the header, then the WebVTT form of
/// every block of the prepared text, the blocks being what stands between
/// blank lines.
pub open spec fn vtt_of(srt: Seq<char>) -> Option<Seq<char>> {
    match vtt_blocks(split(prepared(srt), block_break())) {
        Some(body) => Some(vtt_header() + body),
        None => None,
    }
}

/// Whether a path names a SubRip file: the extension of its last component
/// is `srt`.
pub open spec fn is_srt(path: Seq<char>) -> bool {
    extension_of(file_name_of(path)) == Some("srt"@)
}

/// Whether a path names a SubRip file.
pub fn is_subrip(path: &str) -> (r: bool)
    ensures
        r == is_srt(path@),
{
    let name = file_name(&chars_of(path));
    match extension(&name) {
        Some(e) => {
            let srt = chars_of("srt");
            same_chars(&e, &srt)
        },
        None => false,
    }
}

/// A WebVTT file to be written beside the SubRip file it was made from.
pub struct VttFile {
    /// Where the file goes.
    pub path: String,
    /// What the file holds.
    pub content: String,
}

/// The message for subtitles that cannot be converted.
pub open spec fn malformed_subtitles() -> Seq<char> {
    "Error converting file: a subtitle block has fewer than two lines"@
}

/// Converts the content of a SubRip file into WebVTT. Content with a block
/// of fewer than two lines cannot be converted.
pub fn convert(srt: &str) -> (vtt: Option<String>)
    ensures
        match vtt {
            Some(text) => vtt_of(srt@) == Some(text@),
            None => vtt_of(srt@) is None,
        },
{
    let mut comma: Vec<char> = Vec::new();
    comma.push(',');
    let mut stop: Vec<char> = Vec::new();
    stop.push('.');
    let wide = chars_of(" --> ");
    let narrow = chars_of("-->");
    let mut line: Vec<char> = Vec::new();
    line.push('\n');
    let mut blank: Vec<char> = Vec::new();
    blank.push('\n');
    blank.push('\n');
    proof {
        reveal_strlit(" --> ");
        assert(comma@ =~= seq![',']);
        assert(stop@ =~= seq!['.']);
        assert(line@ =~= line_break());
        assert(blank@ =~= block_break());
    }
    let source = chars_of(srt);
    let dotted = replace_chars(&source, &comma, &stop);
    let arrowed = replace_chars(&dotted, &wide, &narrow);
    let text = trim_chars(&arrowed);
    assert(text@ == prepared(srt@));
    let blocks = split_chars(&text, &blank);
    let ghost all = split(prepared(srt@), block_break());
    let mut out = chars_of("WEBVTT\n\n");
    let ghost header = out@;
    let mut i: usize = 0;
    assert(all.take(0) =~= Seq::<Seq<char>>::empty());
    assert(out@ =~= header + Seq::<char>::empty());
    while i < blocks.len()
        invariant
            i <= blocks.len(),
            rows(blocks@) == all,
            all == split(prepared(srt@), block_break()),
            line@ == line_break(),
            blank@ == block_break(),
            vtt_blocks(all.take(i as int)) is Some,
            out@ == header + vtt_blocks(all.take(i as int)).unwrap(),
        decreases blocks.len() - i,
    {
        let ghost seen = all.take(i as int);
        let ghost next = all.take(i + 1);
        assert(next.drop_last() =~= seen);
        assert(next.last() == blocks@[i as int]@);
        let lines = split_chars(&blocks[i], &line);
        if lines.len() < 2 {
            proof {
                assert(vtt_block(next.last()) is None);
                lemma_blocks_fail(all, i as int);
            }
            return None;
        }
        let ghost parts = split(blocks@[i as int]@, line_break());
        assert(parts[1] == lines@[1]@);
        let ghost before = out@;
        extend_chars(&mut out, &lines[1]);
        extend_chars(&mut out, &line);
        let body = join_chars(&lines, 2, &line);
        extend_chars(&mut out, &body);
        extend_chars(&mut out, &blank);
        assert(out@ =~= before + vtt_block(next.last()).unwrap());
        assert(out@ =~= header + (vtt_blocks(seen).unwrap() + vtt_block(next.last()).unwrap()));
        i += 1;
    }
    assert(all.take(blocks.len() as int) =~= all);
    assert(header == vtt_header());
    Some(string_of(&out))
}

/// Converts a SubRip file into the WebVTT file that belongs beside it.
///
/// For a path that does not name a SubRip file there is nothing to do. For
/// one that does, the result is the file to write: the path with the
/// extension `vtt`, and the converted content.
pub fn srt_to_vtt(filepath: &str, content: &str) -> (r: Result<Option<VttFile>, String>)
    ensures
        match r {
            Ok(None) => !is_srt(filepath@),
            Ok(Some(file)) => is_srt(filepath@) && vtt_of(content@) == Some(file.content@)
                && file.path@ == with_extension(filepath@, "vtt"@),
            Err(message) => is_srt(filepath@) && vtt_of(content@) is None && message@
                == malformed_subtitles(),
        },
{
    if !is_subrip(filepath) {
        return Ok(None);
    }
    match convert(content) {
        Some(text) => {
            let vtt = chars_of("vtt");
            let path = replace_extension(&chars_of(filepath), &vtt);
            Ok(Some(VttFile { path: string_of(&path), content: text }))
        },
        None => Err("Error converting file: a subtitle block has fewer than two lines".to_owned()),
    }
}

proof fn lemma_blocks_fail(blocks: Seq<Seq<char>>, i: int)
    requires
        0 <= i < blocks.len(),
        vtt_block(blocks[i]) is None,
    ensures
        vtt_blocks(blocks) is None,
    decreases blocks.len(),
{
    if i < blocks.len() - 1 {
        lemma_blocks_fail(blocks.drop_last(), i);
    }
}

} // verus!
