//! Character-level text utilities: conversions between strings and character
//! vectors, prefix and suffix tests, and splitting on a separator.

use vstd::prelude::*;

verus! {

/// Appends one character to a string.
///
/// Trusted: `String::push` appends exactly the given character and leaves
/// the rest of the string as it was.
#[verifier::external_body]
pub(crate) fn push_char(s: &mut String, c: char)
    ensures
        final(s)@ == old(s)@.push(c),
{
    s.push(c)
}

/// The characters of `s`, in order.
pub fn chars_of(s: &str) -> (v: Vec<char>)
    ensures
        v@ == s@,
{
    let mut v: Vec<char> = Vec::new();
    for c in it: s.chars()
        invariant
            v@ == it.seq().take(it.index() as int),
            it.seq() == s@,
    {
        v.push(c);
    }
    v
}

/// The string made of the characters of `v`, in order.
pub fn string_of(v: &Vec<char>) -> (s: String)
    ensures
        s@ == v@,
{
    let mut s = String::new();
    let mut i: usize = 0;
    while i < v.len()
        invariant
            i <= v.len(),
            s@ == v@.take(i as int),
        decreases v.len() - i,
    {
        push_char(&mut s, v[i]);
        i += 1;
    }
    s
}

/// Whether two strings hold the same characters.
pub fn same_text(a: &str, b: &str) -> (r: bool)
    ensures
        r == (a@ == b@),
{
    let x = chars_of(a);
    let y = chars_of(b);
    same_chars(&x, &y)
}

/// Whether two character vectors are equal.
pub fn same_chars(a: &Vec<char>, b: &Vec<char>) -> (r: bool)
    ensures
        r == (a@ == b@),
{
    if a.len() != b.len() {
        return false;
    }
    let mut i: usize = 0;
    while i < a.len()
        invariant
            i <= a.len(),
            a.len() == b.len(),
            a@.take(i as int) == b@.take(i as int),
        decreases a.len() - i,
    {
        if a[i] != b[i] {
            return false;
        }
        assert(a@.take(i + 1) == a@.take(i as int).push(a@[i as int]));
        assert(b@.take(i + 1) == b@.take(i as int).push(b@[i as int]));
        i += 1;
    }
    assert(a@.take(a.len() as int) == a@);
    assert(b@.take(b.len() as int) == b@);
    true
}

/// `pat` occurs in `s` at index `i`.
pub open spec fn occurs_at(s: Seq<char>, pat: Seq<char>, i: int) -> bool {
    &&& 0 <= i
    &&& i + pat.len() <= s.len()
    &&& s.subrange(i, i + pat.len()) == pat
}

/// `s` begins with `pat`.
pub open spec fn starts_with(s: Seq<char>, pat: Seq<char>) -> bool {
    occurs_at(s, pat, 0)
}

/// `s` ends with `pat`.
pub open spec fn ends_with(s: Seq<char>, pat: Seq<char>) -> bool {
    occurs_at(s, pat, s.len() - pat.len())
}

/// `pat` occurs somewhere in `s`.
pub open spec fn contains_text(s: Seq<char>, pat: Seq<char>) -> bool {
    exists|i: int| occurs_at(s, pat, i)
}

/// Whether `pat` occurs in `s` at index `i`.
pub fn matches_at(s: &Vec<char>, pat: &Vec<char>, i: usize) -> (r: bool)
    ensures
        r == occurs_at(s@, pat@, i as int),
{
    if pat.len() > s.len() || i > s.len() - pat.len() {
        return false;
    }
    let mut k: usize = 0;
    while k < pat.len()
        invariant
            k <= pat.len(),
            i + pat.len() <= s.len(),
            s@.subrange(i as int, i + k) == pat@.take(k as int),
        decreases pat.len() - k,
    {
        if s[i + k] != pat[k] {
            assert(s@.subrange(i as int, i + pat.len())[k as int] != pat@[k as int]);
            return false;
        }
        assert(s@.subrange(i as int, i + k + 1) == s@.subrange(i as int, i + k).push(
            s@[i + k],
        ));
        assert(pat@.take(k + 1) == pat@.take(k as int).push(pat@[k as int]));
        k += 1;
    }
    assert(pat@.take(pat.len() as int) == pat@);
    true
}

/// Whether `s` ends with `pat`.
pub fn has_suffix(s: &Vec<char>, pat: &Vec<char>) -> (r: bool)
    ensures
        r == ends_with(s@, pat@),
{
    if pat.len() > s.len() {
        return false;
    }
    matches_at(s, pat, s.len() - pat.len())
}

/// The characters of `s` from index `from` up to, not including, `to`.
pub fn slice_of(s: &Vec<char>, from: usize, to: usize) -> (r: Vec<char>)
    requires
        from <= to <= s.len(),
    ensures
        r@ == s@.subrange(from as int, to as int),
{
    let mut r: Vec<char> = Vec::new();
    let mut i: usize = from;
    while i < to
        invariant
            from <= i <= to,
            to <= s.len(),
            r@ == s@.subrange(from as int, i as int),
        decreases to - i,
    {
        r.push(s[i]);
        assert(s@.subrange(from as int, i + 1) == s@.subrange(from as int, i as int).push(
            s@[i as int],
        ));
        i += 1;
    }
    r
}

/// Appends the characters of `tail` to `head`.
pub fn extend_chars(head: &mut Vec<char>, tail: &Vec<char>)
    ensures
        final(head)@ == old(head)@ + tail@,
{
    let mut i: usize = 0;
    while i < tail.len()
        invariant
            i <= tail.len(),
            head@ == old(head)@ + tail@.take(i as int),
        decreases tail.len() - i,
    {
        head.push(tail[i]);
        assert(tail@.take(i + 1) == tail@.take(i as int).push(tail@[i as int]));
        i += 1;
    }
    assert(tail@.take(tail.len() as int) == tail@);
}

/// Index of the leftmost occurrence of `pat` in `s`, or `-1` when `pat`
/// does not occur.
pub open spec fn first_occurrence(s: Seq<char>, pat: Seq<char>) -> int
    decreases s.len(),
{
    if s.len() < pat.len() {
        -1
    } else if starts_with(s, pat) {
        0
    } else if s.len() == 0 {
        -1
    } else {
        let r = first_occurrence(s.drop_first(), pat);
        if r < 0 {
            -1
        } else {
            r + 1
        }
    }
}

/// The pieces of `s` between successive, non-overlapping occurrences of the
/// non-empty separator `pat`, scanning from the left. A string without the
/// separator is a single piece.
pub open spec fn split(s: Seq<char>, pat: Seq<char>) -> Seq<Seq<char>>
    decreases s.len(),
{
    let i = first_occurrence(s, pat);
    if i < 0 || pat.len() == 0 || i + pat.len() > s.len() {
        seq![s]
    } else {
        seq![s.take(i)] + split(s.skip(i + pat.len()), pat)
    }
}

/// What `first_occurrence` returns is the leftmost occurrence.
pub proof fn lemma_first_occurrence(s: Seq<char>, pat: Seq<char>)
    ensures
        first_occurrence(s, pat) >= 0 ==> occurs_at(s, pat, first_occurrence(s, pat)),
        first_occurrence(s, pat) >= -1,
        forall|j: int|
            0 <= j && (j < first_occurrence(s, pat) || first_occurrence(s, pat) < 0)
                ==> !occurs_at(s, pat, j),
    decreases s.len(),
{
    if s.len() < pat.len() {
    } else if starts_with(s, pat) {
    } else if s.len() == 0 {
    } else {
        let t = s.drop_first();
        lemma_first_occurrence(t, pat);
        let r = first_occurrence(t, pat);
        assert forall|j: int| occurs_at(s, pat, j + 1) == occurs_at(t, pat, j) by {
            if 0 <= j && j + pat.len() <= t.len() {
                assert(s.subrange(j + 1, j + 1 + pat.len()) == t.subrange(j, j + pat.len()));
            }
        }
        if r >= 0 {
            assert(occurs_at(s, pat, r + 1));
        }
        assert forall|j: int|
            0 <= j && (j < first_occurrence(s, pat) || first_occurrence(s, pat) < 0)
                implies !occurs_at(s, pat, j) by {
            if j > 0 {
                assert(occurs_at(s, pat, (j - 1) + 1) == occurs_at(t, pat, j - 1));
            }
        }
    }
}

/// An occurrence with none before it is the leftmost occurrence.
pub proof fn lemma_first_occurrence_is(s: Seq<char>, pat: Seq<char>, i: int)
    requires
        occurs_at(s, pat, i),
        forall|j: int| 0 <= j < i ==> !occurs_at(s, pat, j),
    ensures
        first_occurrence(s, pat) == i,
{
    lemma_first_occurrence(s, pat);
}

/// A string in which the separator occurs nowhere has no leftmost occurrence.
pub proof fn lemma_first_occurrence_none(s: Seq<char>, pat: Seq<char>)
    requires
        forall|j: int| 0 <= j ==> !occurs_at(s, pat, j),
    ensures
        first_occurrence(s, pat) == -1,
{
    lemma_first_occurrence(s, pat);
}

/// Finds the leftmost occurrence of the non-empty `pat` in `s`.
pub fn find_first(s: &Vec<char>, pat: &Vec<char>) -> (r: Option<usize>)
    requires
        pat@.len() > 0,
    ensures
        match r {
            Some(i) => first_occurrence(s@, pat@) == i && i + pat@.len() <= s@.len(),
            None => first_occurrence(s@, pat@) == -1,
        },
{
    let mut i: usize = 0;
    while i < s.len()
        invariant
            i <= s.len(),
            forall|j: int| 0 <= j < i ==> !occurs_at(s@, pat@, j),
        decreases s.len() - i,
    {
        if matches_at(s, pat, i) {
            proof {
                lemma_first_occurrence_is(s@, pat@, i as int);
            }
            return Some(i);
        }
        i += 1;
    }
    proof {
        assert forall|j: int| 0 <= j implies !occurs_at(s@, pat@, j) by {}
        lemma_first_occurrence_none(s@, pat@);
    }
    None
}

/// The character sequences held by a sequence of character vectors.
pub open spec fn rows(v: Seq<Vec<char>>) -> Seq<Seq<char>> {
    v.map_values(|r: Vec<char>| r@)
}

/// The character sequences held by a sequence of strings.
pub open spec fn texts(v: Seq<String>) -> Seq<Seq<char>> {
    v.map_values(|r: String| r@)
}

/// Splits `s` on the non-empty separator `pat`.
pub fn split_chars(s: &Vec<char>, pat: &Vec<char>) -> (pieces: Vec<Vec<char>>)
    requires
        pat@.len() > 0,
    ensures
        rows(pieces@) == split(s@, pat@),
        pieces.len() >= 1,
{
    let mut pieces: Vec<Vec<char>> = Vec::new();
    let mut start: usize = 0;
    let mut pos: usize = 0;
    assert(s@.skip(0) == s@);
    while pos < s.len()
        invariant
            start <= pos <= s.len(),
            pat@.len() > 0,
            split(s@, pat@) == rows(pieces@) + split(s@.skip(start as int), pat@),
            forall|j: int| start <= j < pos ==> !occurs_at(s@, pat@, j),
        decreases s.len() - pos,
    {
        if matches_at(s, pat, pos) {
            let piece = slice_of(s, start, pos);
            proof {
                let t = s@.skip(start as int);
                assert forall|j: int| 0 <= j implies occurs_at(t, pat@, j) == occurs_at(
                    s@,
                    pat@,
                    j + start,
                ) by {
                    if 0 <= j && j + pat@.len() <= t.len() {
                        assert(t.subrange(j, j + pat@.len()) == s@.subrange(
                            j + start,
                            j + start + pat@.len(),
                        ));
                    }
                }
                assert(occurs_at(t, pat@, pos - start));
                lemma_first_occurrence_is(t, pat@, pos - start);
                assert(t.take(pos - start) == s@.subrange(start as int, pos as int));
                assert(t.skip(pos - start + pat@.len()) == s@.skip(pos + pat@.len()));
                assert(rows(pieces@).push(piece@) + split(s@.skip(pos + pat@.len()), pat@)
                    == rows(pieces@) + (seq![piece@] + split(
                    s@.skip(pos + pat@.len()),
                    pat@,
                )));
            }
            let ghost before = rows(pieces@);
            pieces.push(piece);
            assert(rows(pieces@) =~= before.push(piece@));
            pos = pos + pat.len();
            start = pos;
        } else {
            pos = pos + 1;
        }
    }
    let piece = slice_of(s, start, s.len());
    proof {
        let t = s@.skip(start as int);
        assert forall|j: int| 0 <= j implies !occurs_at(t, pat@, j) by {
            if j + pat@.len() <= t.len() {
                assert(t.subrange(j, j + pat@.len()) == s@.subrange(
                    j + start,
                    j + start + pat@.len(),
                ));
                assert(!occurs_at(s@, pat@, j + start));
            }
        }
        lemma_first_occurrence_none(t, pat@);
        assert(t == s@.subrange(start as int, s.len() as int));
    }
    let ghost before = rows(pieces@);
    pieces.push(piece);
    assert(rows(pieces@) =~= before.push(piece@));
    pieces
}

/// The value of a decimal digit, or `-1` for any other character.
pub open spec fn digit_value(c: char) -> int {
    if '0' <= c <= '9' {
        c as int - '0' as int
    } else {
        -1
    }
}

/// Whether `c` is one of the ten decimal digits.
pub open spec fn is_digit(c: char) -> bool {
    '0' <= c <= '9'
}

/// Every character of `s` is a decimal digit.
pub open spec fn all_digits(s: Seq<char>) -> bool {
    forall|i: int| 0 <= i < s.len() ==> is_digit(#[trigger] s[i])
}

/// The number written by a sequence of decimal digits, most significant
/// first.
pub open spec fn decimal_number(s: Seq<char>) -> int
    decreases s.len(),
{
    if s.len() == 0 {
        0
    } else {
        decimal_number(s.drop_last()) * 10 + digit_value(s.last())
    }
}

/// Whether `s` begins with a sign that a numeral may carry: a plus, or, for
/// a signed numeral, a minus.
pub open spec fn has_sign(s: Seq<char>, signed: bool) -> bool {
    s.len() > 0 && (s[0] == '+' || (signed && s[0] == '-'))
}

/// The integer that a decimal numeral denotes: an optional sign, then one or
/// more decimal digits and nothing else. An unsigned numeral may not carry a
/// minus.
pub open spec fn decimal_integer(s: Seq<char>, signed: bool) -> Option<int> {
    let digits = if has_sign(s, signed) {
        s.drop_first()
    } else {
        s
    };
    if digits.len() > 0 && all_digits(digits) {
        if has_sign(s, signed) && s[0] == '-' {
            Some(-decimal_number(digits))
        } else {
            Some(decimal_number(digits))
        }
    } else {
        None
    }
}

/// The integer that a decimal numeral denotes, provided it lies between `lo`
/// and `hi`.
pub open spec fn bounded_integer(s: Seq<char>, signed: bool, lo: int, hi: int) -> Option<int> {
    match decimal_integer(s, signed) {
        Some(v) => if lo <= v <= hi {
            Some(v)
        } else {
            None
        },
        None => None,
    }
}

proof fn lemma_decimal_number_grows(s: Seq<char>, k: int)
    requires
        all_digits(s),
        0 <= k <= s.len(),
    ensures
        0 <= decimal_number(s.take(k)) <= decimal_number(s),
    decreases s.len() - k,
{
    lemma_decimal_number_nonnegative(s.take(k));
    if k < s.len() {
        lemma_decimal_number_grows(s, k + 1);
        assert(s.take(k + 1).drop_last() == s.take(k));
        assert(is_digit(s[k]));
    } else {
        assert(s.take(k) == s);
    }
}

proof fn lemma_decimal_number_nonnegative(s: Seq<char>)
    requires
        all_digits(s),
    ensures
        0 <= decimal_number(s),
    decreases s.len(),
{
    if s.len() > 0 {
        lemma_decimal_number_nonnegative(s.drop_last());
        assert(is_digit(s[s.len() - 1]));
    }
}

/// Reads a decimal numeral whose value must lie between `lo` and `hi`.
pub fn parse_integer(s: &Vec<char>, signed: bool, lo: i64, hi: i64) -> (r: Option<i64>)
    ensures
        match r {
            Some(v) => bounded_integer(s@, signed, lo as int, hi as int) == Some(v as int),
            None => bounded_integer(s@, signed, lo as int, hi as int) is None,
        },
{
    let signed_start = s.len() > 0 && (s[0] == '+' || (signed && s[0] == '-'));
    let negative = signed_start && s[0] == '-';
    let start: usize = if signed_start {
        1
    } else {
        0
    };
    let ghost digits = s@.skip(start as int);
    assert(s@.skip(0) =~= s@);
    assert(digits == if has_sign(s@, signed) {
        s@.drop_first()
    } else {
        s@
    });
    if start == s.len() {
        return None;
    }
    let limit: i128 = 9223372036854775808;
    let mut acc: i128 = 0;
    let mut i: usize = start;
    while i < s.len()
        invariant
            start <= i <= s.len(),
            start < s.len(),
            signed_start == has_sign(s@, signed),
            start == if signed_start { 1usize } else { 0usize },
            negative == (signed_start && s@[0] == '-'),
            digits == s@.skip(start as int),
            digits == if has_sign(s@, signed) {
                s@.drop_first()
            } else {
                s@
            },
            all_digits(digits.take(i - start)),
            acc == decimal_number(digits.take(i - start)),
            0 <= acc <= limit,
            limit == 9223372036854775808,
        decreases s.len() - i,
    {
        let ghost seen = digits.take(i - start);
        let ghost next = digits.take(i - start + 1);
        assert(next.drop_last() == seen);
        assert(next.last() == s@[i as int]);
        let c = s[i];
        if '0' <= c && c <= '9' {
            let d: i128 = (c as u32 - '0' as u32) as i128;
            assert(all_digits(next)) by {
                assert forall|j: int| 0 <= j < next.len() implies is_digit(#[trigger] next[j]) by {
                    if j < seen.len() {
                        assert(next[j] == seen[j]);
                    }
                }
            }
            acc = acc * 10 + d;
            if acc > limit {
                proof {
                    if all_digits(digits) {
                        lemma_decimal_number_grows(digits, i - start + 1);
                    }
                }
                return None;
            }
        } else {
            assert(!is_digit(digits[i - start]));
            return None;
        }
        i += 1;
    }
    assert(digits.take(i - start) == digits);
    let value: i128 = if negative {
        -acc
    } else {
        acc
    };
    if lo as i128 <= value && value <= hi as i128 {
        Some(value as i64)
    } else {
        None
    }
}

/// The decimal digit for a value below ten.
pub open spec fn digit_char(d: int) -> char {
    if d == 0 {
        '0'
    } else if d == 1 {
        '1'
    } else if d == 2 {
        '2'
    } else if d == 3 {
        '3'
    } else if d == 4 {
        '4'
    } else if d == 5 {
        '5'
    } else if d == 6 {
        '6'
    } else if d == 7 {
        '7'
    } else if d == 8 {
        '8'
    } else {
        '9'
    }
}

/// The decimal digits of `n`, most significant first, without leading
/// zeros; zero has no digits.
pub open spec fn decimal_digits(n: nat) -> Seq<char>
    decreases n,
{
    if n == 0 {
        Seq::empty()
    } else {
        decimal_digits(n / 10).push(digit_char((n % 10) as int))
    }
}

/// The decimal numeral of an integer: a minus for a negative number, then
/// its digits without leading zeros; `0` for zero.
pub open spec fn decimal_text(n: int) -> Seq<char> {
    if n == 0 {
        seq!['0']
    } else if n < 0 {
        seq!['-'] + decimal_digits((-n) as nat)
    } else {
        decimal_digits(n as nat)
    }
}

fn digit_char_of(d: u64) -> (c: char)
    requires
        d < 10,
    ensures
        c == digit_char(d as int),
{
    if d == 0 {
        '0'
    } else if d == 1 {
        '1'
    } else if d == 2 {
        '2'
    } else if d == 3 {
        '3'
    } else if d == 4 {
        '4'
    } else if d == 5 {
        '5'
    } else if d == 6 {
        '6'
    } else if d == 7 {
        '7'
    } else if d == 8 {
        '8'
    } else {
        '9'
    }
}

fn push_decimal_digits(n: u64, out: &mut Vec<char>)
    ensures
        final(out)@ == old(out)@ + decimal_digits(n as nat),
    decreases n,
{
    if n != 0 {
        push_decimal_digits(n / 10, out);
        out.push(digit_char_of(n % 10));
        assert(out@ =~= old(out)@ + decimal_digits(n as nat));
    } else {
        assert(out@ =~= old(out)@ + decimal_digits(n as nat));
    }
}

/// The decimal numeral of `n`.
pub fn decimal_chars(n: i64) -> (r: Vec<char>)
    ensures
        r@ == decimal_text(n as int),
{
    let mut out: Vec<char> = Vec::new();
    if n == 0 {
        out.push('0');
        assert(out@ =~= decimal_text(0));
    } else if n < 0 {
        out.push('-');
        let magnitude: u64 = (-(n as i128)) as u64;
        push_decimal_digits(magnitude, &mut out);
        assert(out@ =~= decimal_text(n as int));
    } else {
        push_decimal_digits(n as u64, &mut out);
        assert(out@ =~= decimal_text(n as int));
    }
    out
}

/// The pieces put together with `sep` between every two of them.
pub open spec fn join(pieces: Seq<Seq<char>>, sep: Seq<char>) -> Seq<char>
    decreases pieces.len(),
{
    if pieces.len() == 0 {
        Seq::empty()
    } else if pieces.len() == 1 {
        pieces[0]
    } else {
        join(pieces.drop_last(), sep) + sep + pieces.last()
    }
}

/// Puts the pieces from index `from` on together, with `sep` between every
/// two of them.
pub fn join_chars(pieces: &Vec<Vec<char>>, from: usize, sep: &Vec<char>) -> (r: Vec<char>)
    requires
        from <= pieces.len(),
    ensures
        r@ == join(rows(pieces@).skip(from as int), sep@),
{
    let ghost all = rows(pieces@).skip(from as int);
    let mut r: Vec<char> = Vec::new();
    let mut i: usize = from;
    assert(all.take(0) =~= Seq::<Seq<char>>::empty());
    while i < pieces.len()
        invariant
            from <= i <= pieces.len(),
            all == rows(pieces@).skip(from as int),
            r@ == join(all.take(i - from), sep@),
        decreases pieces.len() - i,
    {
        proof {
            let seen = all.take(i - from + 1);
            assert(seen.drop_last() =~= all.take(i - from));
            assert(seen.last() == pieces@[i as int]@);
            if i == from {
                assert(seen[0] == pieces@[i as int]@);
            }
        }
        if i > from {
            extend_chars(&mut r, sep);
        }
        extend_chars(&mut r, &pieces[i]);
        i += 1;
    }
    assert(all.take(pieces.len() - from) =~= all);
    r
}

/// `s` with every occurrence of the non-empty `pat`, found from the left
/// without overlap, replaced by `with`.
pub open spec fn replaced(s: Seq<char>, pat: Seq<char>, with: Seq<char>) -> Seq<char> {
    join(split(s, pat), with)
}

/// Replaces every occurrence of the non-empty `pat` in `s` by `with`.
pub fn replace_chars(s: &Vec<char>, pat: &Vec<char>, with: &Vec<char>) -> (r: Vec<char>)
    requires
        pat@.len() > 0,
    ensures
        r@ == replaced(s@, pat@, with@),
{
    let pieces = split_chars(s, pat);
    assert(rows(pieces@).skip(0) =~= rows(pieces@));
    join_chars(&pieces, 0, with)
}

/// The characters that count as white space: the Unicode property
/// `White_Space`.
pub open spec fn is_space(c: char) -> bool {
    let v = c as u32;
    ||| 0x09 <= v <= 0x0d
    ||| v == 0x20
    ||| v == 0x85
    ||| v == 0xa0
    ||| v == 0x1680
    ||| 0x2000 <= v <= 0x200a
    ||| v == 0x2028
    ||| v == 0x2029
    ||| v == 0x202f
    ||| v == 0x205f
    ||| v == 0x3000
}

/// The number of white-space characters at the start of `s`.
pub open spec fn leading_space(s: Seq<char>) -> nat
    decreases s.len(),
{
    if s.len() > 0 && is_space(s[0]) {
        1 + leading_space(s.drop_first())
    } else {
        0
    }
}

/// The number of white-space characters at the end of `s`.
pub open spec fn trailing_space(s: Seq<char>) -> nat
    decreases s.len(),
{
    if s.len() > 0 && is_space(s.last()) {
        1 + trailing_space(s.drop_last())
    } else {
        0
    }
}

/// `s` without the white space at its start and at its end.
pub open spec fn trimmed(s: Seq<char>) -> Seq<char> {
    let lead = leading_space(s);
    if lead >= s.len() {
        Seq::empty()
    } else {
        let rest = s.skip(lead as int);
        rest.take(rest.len() - trailing_space(rest))
    }
}

fn space(c: char) -> (r: bool)
    ensures
        r == is_space(c),
{
    let v = c as u32;
    (0x09 <= v && v <= 0x0d) || v == 0x20 || v == 0x85 || v == 0xa0 || v == 0x1680 || (0x2000 <= v
        && v <= 0x200a) || v == 0x2028 || v == 0x2029 || v == 0x202f || v == 0x205f || v == 0x3000
}

/// Removes the white space at the start and at the end of `s`.
pub fn trim_chars(s: &Vec<char>) -> (r: Vec<char>)
    ensures
        r@ == trimmed(s@),
{
    let mut lead: usize = 0;
    assert(s@.skip(0) =~= s@);
    while lead < s.len() && space(s[lead])
        invariant
            lead <= s.len(),
            leading_space(s@) == lead + leading_space(s@.skip(lead as int)),
        decreases s.len() - lead,
    {
        assert(s@.skip(lead as int)[0] == s@[lead as int]);
        assert(s@.skip(lead as int).drop_first() =~= s@.skip(lead + 1));
        lead += 1;
    }
    if lead == s.len() {
        assert(s@.skip(lead as int).len() == 0);
        return Vec::new();
    }
    assert(s@.skip(lead as int)[0] == s@[lead as int]);
    let ghost rest = s@.skip(lead as int);
    let mut end: usize = s.len();
    assert(rest.take(rest.len() as int) =~= rest);
    while end > lead && space(s[end - 1])
        invariant
            lead <= end <= s.len(),
            rest == s@.skip(lead as int),
            trailing_space(rest) == (s.len() - end) + trailing_space(rest.take(end - lead)),
        decreases end,
    {
        proof {
            let front = rest.take(end - lead);
            assert(front.last() == s@[end - 1]);
            assert(front.drop_last() =~= rest.take(end - 1 - lead));
        }
        end -= 1;
    }
    proof {
        let front = rest.take(end - lead);
        if end > lead {
            assert(front.last() == s@[end - 1]);
        }
        assert(trailing_space(front) == 0);
        assert(front =~= s@.subrange(lead as int, end as int));
    }
    slice_of(s, lead, end)
}

/// The index of the last occurrence of `c` in `s`, or `-1` when `s` does
/// not hold it.
pub open spec fn last_index(s: Seq<char>, c: char) -> int
    decreases s.len(),
{
    if s.len() == 0 {
        -1
    } else if s.last() == c {
        s.len() - 1
    } else {
        last_index(s.drop_last(), c)
    }
}

/// The last occurrence is an occurrence, and none follows it.
pub proof fn lemma_last_index(s: Seq<char>, c: char)
    ensures
        -1 <= last_index(s, c) < s.len(),
        last_index(s, c) >= 0 ==> s[last_index(s, c)] == c,
        forall|i: int| last_index(s, c) < i < s.len() ==> #[trigger] s[i] != c,
    decreases s.len(),
{
    if s.len() > 0 && s.last() != c {
        lemma_last_index(s.drop_last(), c);
        assert forall|i: int| last_index(s, c) < i < s.len() implies #[trigger] s[i] != c by {
            if i < s.len() - 1 {
                assert(s.drop_last()[i] == s[i]);
            }
        }
    }
}

/// Finds the last occurrence of `c` in `s`.
pub fn find_last(s: &Vec<char>, c: char) -> (r: Option<usize>)
    ensures
        match r {
            Some(i) => last_index(s@, c) == i && i < s.len(),
            None => last_index(s@, c) == -1,
        },
{
    let mut i: usize = s.len();
    assert(s@.take(i as int) =~= s@);
    while i > 0
        invariant
            i <= s.len(),
            last_index(s@, c) == last_index(s@.take(i as int), c),
        decreases i,
    {
        let ghost front = s@.take(i as int);
        assert(front.last() == s@[i - 1]);
        assert(front.drop_last() =~= s@.take(i - 1));
        if s[i - 1] == c {
            return Some(i - 1);
        }
        i -= 1;
    }
    None
}

/// The text of an optional value, if there is one.
pub open spec fn text_of(value: Option<&str>) -> Option<Seq<char>> {
    match value {
        Some(text) => Some(text@),
        None => None,
    }
}

/// `a` followed by `b`.
pub fn concat(a: &str, b: &str) -> (r: String)
    ensures
        r@ == a@ + b@,
{
    let mut chars = chars_of(a);
    let tail = chars_of(b);
    extend_chars(&mut chars, &tail);
    string_of(&chars)
}

/// `a`, `b` and `c` in a row.
pub fn concat3(a: &str, b: &str, c: &str) -> (r: String)
    ensures
        r@ == a@ + b@ + c@,
{
    let mut chars = chars_of(a);
    let middle = chars_of(b);
    let tail = chars_of(c);
    extend_chars(&mut chars, &middle);
    extend_chars(&mut chars, &tail);
    string_of(&chars)
}

/// The decimal numeral of a count.
pub fn count_chars(n: usize) -> (r: Vec<char>)
    ensures
        r@ == decimal_text(n as int),
{
    let mut out: Vec<char> = Vec::new();
    if n == 0 {
        out.push('0');
        assert(out@ =~= decimal_text(0));
    } else {
        push_decimal_digits(n as u64, &mut out);
        assert(out@ =~= decimal_text(n as int));
    }
    out
}

/// Whether the non-empty `pat` occurs somewhere in `s`.
pub fn holds_text(s: &Vec<char>, pat: &Vec<char>) -> (r: bool)
    ensures
        r == contains_text(s@, pat@),
{
    let mut i: usize = 0;
    while i < s.len()
        invariant
            i <= s.len(),
            forall|j: int| 0 <= j < i ==> !occurs_at(s@, pat@, j),
        decreases s.len() - i,
    {
        if matches_at(s, pat, i) {
            return true;
        }
        i += 1;
    }
    if matches_at(s, pat, s.len()) {
        return true;
    }
    assert forall|j: int| !occurs_at(s@, pat@, j) by {
        if j > s.len() {
        }
    }
    false
}

} // verus!
