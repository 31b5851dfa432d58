//! Reading the two shapes of JSON text that the server accepts: an object
//! whose values are all strings, and an array of strings.

use vstd::prelude::*;

verus! {

/// The entries of a JSON object whose values are all strings, ordered by
/// key; `None` for any other text.
pub uninterp spec fn json_text_map(text: Seq<char>) -> Option<Seq<(Seq<char>, Seq<char>)>>;

/// The items of a JSON array of strings, in order; `None` for any other text.
pub uninterp spec fn json_text_list(text: Seq<char>) -> Option<Seq<Seq<char>>>;

/// The key and the value of every pair, as character sequences.
pub open spec fn pair_views(pairs: Seq<(String, String)>) -> Seq<(Seq<char>, Seq<char>)> {
    pairs.map_values(|p: (String, String)| (p.0@, p.1@))
}

/// Reads a JSON object of strings.
///
/// Trusted: `serde_json::from_str` into a `BTreeMap<String, String>` is a
/// function of the text alone; the entries of the map come out ordered by
/// key.
#[verifier::external_body]
pub(crate) fn parse_text_map(text: &str) -> (r: Option<Vec<(String, String)>>)
    ensures
        match r {
            Some(pairs) => json_text_map(text@) == Some(pair_views(pairs@)),
            None => json_text_map(text@) is None,
        },
{
    serde_json::from_str::<std::collections::BTreeMap<String, String>>(text).ok().map(
        |m| m.into_iter().collect(),
    )
}

/// Reads a JSON array of strings.
///
/// Trusted: `serde_json::from_str` into a `Vec<String>` is a function of the
/// text alone.
#[verifier::external_body]
pub(crate) fn parse_text_list(text: &str) -> (r: Option<Vec<String>>)
    ensures
        match r {
            Some(items) => json_text_list(text@) == Some(crate::text::texts(items@)),
            None => json_text_list(text@) is None,
        },
{
    serde_json::from_str::<Vec<String>>(text).ok()
}

/// The value of the first pair whose key is `name`.
pub open spec fn field_of(pairs: Seq<(Seq<char>, Seq<char>)>, name: Seq<char>) -> Option<
    Seq<char>,
>
    decreases pairs.len(),
{
    if pairs.len() == 0 {
        None
    } else if pairs.first().0 == name {
        Some(pairs.first().1)
    } else {
        field_of(pairs.drop_first(), name)
    }
}

/// Looks up the value of the first pair whose key is `name`.
pub fn find_field<'a>(pairs: &'a Vec<(String, String)>, name: &str) -> (r: Option<&'a String>)
    ensures
        match r {
            Some(v) => field_of(pair_views(pairs@), name@) == Some(v@),
            None => field_of(pair_views(pairs@), name@) is None,
        },
{
    let ghost all = pair_views(pairs@);
    let mut i: usize = 0;
    assert(all.skip(0) =~= all);
    while i < pairs.len()
        invariant
            i <= pairs.len(),
            all == pair_views(pairs@),
            field_of(all, name@) == field_of(all.skip(i as int), name@),
        decreases pairs.len() - i,
    {
        let ghost rest = all.skip(i as int);
        assert(rest.first() == (pairs@[i as int].0@, pairs@[i as int].1@));
        assert(rest.drop_first() =~= all.skip(i + 1));
        if crate::text::same_text(pairs[i].0.as_str(), name) {
            return Some(&pairs[i].1);
        }
        i += 1;
    }
    None
}

/// The JSON text of an object of strings with the given entries.
pub uninterp spec fn json_object_text(pairs: Seq<(Seq<char>, Seq<char>)>) -> Seq<char>;

/// No two entries have the same key.
pub open spec fn distinct_keys(pairs: Seq<(Seq<char>, Seq<char>)>) -> bool {
    forall|i: int, j: int|
        0 <= i < j < pairs.len() ==> (#[trigger] pairs[i]).0 != (#[trigger] pairs[j]).0
}

/// Writes entries as a JSON object of strings.
///
/// Trusted: `serde_json::to_string` of a `BTreeMap` of strings is a function
/// of the entries alone, and `serde_json::from_str` reads its output back
/// into a map in which every key has the value it was written with and no
/// other key has any. The keys must be distinct, so that every entry is
/// written.
#[verifier::external_body]
pub(crate) fn write_text_map(pairs: &Vec<(String, String)>) -> (text: String)
    requires
        distinct_keys(pair_views(pairs@)),
    ensures
        text@ == json_object_text(pair_views(pairs@)),
        json_text_map(text@) is Some,
        forall|name: Seq<char>|
            field_of(json_text_map(text@).unwrap(), name) == field_of(pair_views(pairs@), name),
{
    serde_json::to_string(
        &pairs.iter().map(|p| (p.0.as_str(), p.1.as_str())).collect::<
            std::collections::BTreeMap<&str, &str>,
        >(),
    ).unwrap()
}

} // verus!
