//! Credential encodings: the `\u`-separated hexadecimal form of a string,
//! URL-safe base64, SHA-512 signatures and random session keys.

use crate::text::{
    chars_of, extend_chars, lemma_first_occurrence_is, lemma_first_occurrence_none, occurs_at,
    rows, split, split_chars, string_of,
};
use base64::Engine;
use rand::Rng;
use sha2::Digest;
use vstd::prelude::*;
use vstd::utf8::*;

verus! {

/// The two characters that introduce every unit of the hexadecimal form.
pub open spec fn hex_marker() -> Seq<char> {
    seq!['\\', 'u']
}

/// The lowercase hexadecimal digit for a value below sixteen.
pub open spec fn hex_digit(d: int) -> char {
    if d == 0 {
        '0'
    } else if d == 1 {
        '1'
    } else if d == 2 {
        '2'
    } else if d == 3 {
        '3'
    } else if d == 4 {
        '4'
    } else if d == 5 {
        '5'
    } else if d == 6 {
        '6'
    } else if d == 7 {
        '7'
    } else if d == 8 {
        '8'
    } else if d == 9 {
        '9'
    } else if d == 10 {
        'a'
    } else if d == 11 {
        'b'
    } else if d == 12 {
        'c'
    } else if d == 13 {
        'd'
    } else if d == 14 {
        'e'
    } else {
        'f'
    }
}

/// The value of a hexadecimal digit of either case, or `-1` for any other
/// character.
pub open spec fn hex_value(c: char) -> int {
    if '0' <= c <= '9' {
        c as int - '0' as int
    } else if 'a' <= c <= 'f' {
        c as int - 'a' as int + 10
    } else if 'A' <= c <= 'F' {
        c as int - 'A' as int + 10
    } else {
        -1
    }
}

/// The hexadecimal digits of `n`, most significant first, without leading
/// zeros; zero has no digits.
pub open spec fn hex_digits(n: nat) -> Seq<char>
    decreases n,
{
    if n == 0 {
        Seq::empty()
    } else {
        hex_digits(n / 16).push(hex_digit((n % 16) as int))
    }
}

/// `digits` preceded by as many zeros as it takes to reach four characters.
pub open spec fn pad_four(digits: Seq<char>) -> Seq<char> {
    if digits.len() >= 4 {
        digits
    } else {
        Seq::new((4 - digits.len()) as nat, |i: int| '0') + digits
    }
}

/// The hexadecimal form of one character: its scalar value in lowercase
/// hexadecimal, at least four digits wide.
pub open spec fn hex_unit(c: char) -> Seq<char> {
    pad_four(hex_digits(c as u32 as nat))
}

/// Every character of `s`, each as a marker followed by its hexadecimal form.
pub open spec fn hex_units(s: Seq<char>) -> Seq<char>
    decreases s.len(),
{
    if s.len() == 0 {
        Seq::empty()
    } else {
        hex_units(s.drop_last()) + hex_marker() + hex_unit(s.last())
    }
}

/// The hexadecimal form of a string: the units of its characters, or the bare
/// marker for the empty string.
pub open spec fn hex_encoding(s: Seq<char>) -> Seq<char> {
    if s.len() == 0 {
        hex_marker()
    } else {
        hex_units(s)
    }
}

fn hex_digit_of(d: u32) -> (c: char)
    requires
        d < 16,
    ensures
        c == hex_digit(d as int),
{
    if d == 0 {
        '0'
    } else if d == 1 {
        '1'
    } else if d == 2 {
        '2'
    } else if d == 3 {
        '3'
    } else if d == 4 {
        '4'
    } else if d == 5 {
        '5'
    } else if d == 6 {
        '6'
    } else if d == 7 {
        '7'
    } else if d == 8 {
        '8'
    } else if d == 9 {
        '9'
    } else if d == 10 {
        'a'
    } else if d == 11 {
        'b'
    } else if d == 12 {
        'c'
    } else if d == 13 {
        'd'
    } else if d == 14 {
        'e'
    } else {
        'f'
    }
}

fn push_hex_digits(n: u32, out: &mut Vec<char>)
    ensures
        final(out)@ == old(out)@ + hex_digits(n as nat),
    decreases n,
{
    if n != 0 {
        push_hex_digits(n / 16, out);
        out.push(hex_digit_of(n % 16));
        assert(out@ =~= old(out)@ + hex_digits(n as nat));
    } else {
        assert(out@ =~= old(out)@ + hex_digits(n as nat));
    }
}

fn push_hex_unit(c: char, out: &mut Vec<char>)
    ensures
        final(out)@ == old(out)@ + hex_unit(c),
{
    let mut digits: Vec<char> = Vec::new();
    push_hex_digits(c as u32, &mut digits);
    assert(digits@ =~= hex_digits(c as u32 as nat));
    let ghost start = out@;
    let mut k: usize = digits.len();
    while k < 4
        invariant
            digits.len() <= k,
            digits.len() >= 4 ==> k == digits.len(),
            digits.len() < 4 ==> k <= 4,
            out@ == start + Seq::new((k - digits.len()) as nat, |i: int| '0'),
        decreases 4 - k,
    {
        out.push('0');
        k += 1;
        assert(out@ =~= start + Seq::new((k - digits.len()) as nat, |i: int| '0'));
    }
    extend_chars(out, &digits);
    assert(out@ =~= start + hex_unit(c));
}

/// Encodes a string into its hexadecimal form: every character becomes `\u`
/// followed by the lowercase hexadecimal digits of its scalar value, padded
/// with zeros to four digits. The empty string becomes a bare `\u`.
pub fn hex_encode(value: &str) -> (encoded: String)
    ensures
        encoded@ == hex_encoding(value@),
{
    let chars = chars_of(value);
    let mut out: Vec<char> = Vec::new();
    if chars.len() == 0 {
        out.push('\\');
        out.push('u');
        assert(out@ =~= hex_marker());
    } else {
        let mut i: usize = 0;
        while i < chars.len()
            invariant
                i <= chars.len(),
                out@ == hex_units(chars@.take(i as int)),
            decreases chars.len() - i,
        {
            let ghost before = out@;
            out.push('\\');
            out.push('u');
            assert(out@ =~= before + hex_marker());
            push_hex_unit(chars[i], &mut out);
            proof {
                let t = chars@.take(i + 1);
                assert(t.drop_last() == chars@.take(i as int));
                assert(t.last() == chars@[i as int]);
            }
            i += 1;
        }
        assert(chars@.take(chars.len() as int) == chars@);
    }
    string_of(&out)
}

/// The number written by a sequence of hexadecimal digits, most significant
/// first.
pub open spec fn hex_number(s: Seq<char>) -> int
    decreases s.len(),
{
    if s.len() == 0 {
        0
    } else {
        hex_number(s.drop_last()) * 16 + hex_value(s.last())
    }
}

/// Every character of `s` is a hexadecimal digit.
pub open spec fn all_hex(s: Seq<char>) -> bool {
    forall|i: int| 0 <= i < s.len() ==> hex_value(#[trigger] s[i]) >= 0
}

/// The digits of a hexadecimal numeral: the numeral itself, without the plus
/// sign that may precede it.
pub open spec fn unsigned_part(s: Seq<char>) -> Seq<char> {
    if s.len() > 0 && s[0] == '+' {
        s.drop_first()
    } else {
        s
    }
}

/// The 32-bit number that a hexadecimal numeral denotes: an optional plus
/// sign, then one or more digits of either case, with a value that fits.
pub open spec fn hex_numeral(s: Seq<char>) -> Option<u32> {
    let digits = unsigned_part(s);
    if digits.len() > 0 && all_hex(digits) && hex_number(digits) <= u32::MAX {
        Some(hex_number(digits) as u32)
    } else {
        None
    }
}

/// The character that one piece of a hexadecimal form stands for: none
/// unless the piece is a numeral whose value is a Unicode scalar.
pub open spec fn decoded_piece(piece: Seq<char>) -> Seq<char> {
    match hex_numeral(piece) {
        Some(v) => if is_scalar(v) {
            seq![v as char]
        } else {
            Seq::empty()
        },
        None => Seq::empty(),
    }
}

/// The characters that a sequence of pieces stands for, in order.
pub open spec fn decoded_pieces(pieces: Seq<Seq<char>>) -> Seq<char>
    decreases pieces.len(),
{
    if pieces.len() == 0 {
        Seq::empty()
    } else {
        decoded_pieces(pieces.drop_last()) + decoded_piece(pieces.last())
    }
}

/// The string that a hexadecimal form stands for: the form is cut at every
/// marker, what precedes the first marker is dropped, and every remaining
/// piece that is a numeral of a Unicode scalar gives one character.
pub open spec fn hex_decoding(s: Seq<char>) -> Seq<char> {
    decoded_pieces(split(s, hex_marker()).skip(1))
}

/// The character with the given scalar value.
///
/// Trusted: `char::from_u32` returns the character whose scalar value is the
/// argument, and `None` exactly when the argument is no Unicode scalar (a
/// surrogate, or above `0x10FFFF`).
#[verifier::external_body]
fn char_from_scalar(v: u32) -> (r: Option<char>)
    ensures
        r is Some <==> is_scalar(v),
        r matches Some(c) ==> c as u32 == v && c == v as char,
{
    char::from_u32(v)
}

fn hex_value_of(c: char) -> (r: Option<u32>)
    ensures
        match r {
            Some(d) => d == hex_value(c) && d < 16,
            None => hex_value(c) < 0,
        },
{
    if '0' <= c && c <= '9' {
        Some(c as u32 - '0' as u32)
    } else if 'a' <= c && c <= 'f' {
        Some(c as u32 - 'a' as u32 + 10)
    } else if 'A' <= c && c <= 'F' {
        Some(c as u32 - 'A' as u32 + 10)
    } else {
        None
    }
}

proof fn lemma_hex_number_grows(s: Seq<char>, k: int)
    requires
        all_hex(s),
        0 <= k <= s.len(),
    ensures
        0 <= hex_number(s.take(k)) <= hex_number(s),
    decreases s.len() - k,
{
    lemma_hex_number_nonnegative(s.take(k));
    if k < s.len() {
        lemma_hex_number_grows(s, k + 1);
        assert(s.take(k + 1).drop_last() == s.take(k));
        assert(hex_value(s[k]) >= 0);
    } else {
        assert(s.take(k) == s);
    }
}

proof fn lemma_hex_number_nonnegative(s: Seq<char>)
    requires
        all_hex(s),
    ensures
        0 <= hex_number(s),
    decreases s.len(),
{
    if s.len() > 0 {
        lemma_hex_number_nonnegative(s.drop_last());
        assert(hex_value(s[s.len() - 1]) >= 0);
    }
}

fn parse_hex(s: &Vec<char>) -> (r: Option<u32>)
    ensures
        r == hex_numeral(s@),
{
    let start: usize = if s.len() > 0 && s[0] == '+' {
        1
    } else {
        0
    };
    let ghost digits = unsigned_part(s@);
    assert(digits == s@.skip(start as int));
    if start == s.len() {
        return None;
    }
    let mut acc: u32 = 0;
    let mut i: usize = start;
    while i < s.len()
        invariant
            start <= i <= s.len(),
            start < s.len(),
            digits == s@.skip(start as int),
            digits == unsigned_part(s@),
            all_hex(digits.take(i - start)),
            acc == hex_number(digits.take(i - start)),
        decreases s.len() - i,
    {
        let ghost seen = digits.take(i - start);
        let ghost next = digits.take(i - start + 1);
        assert(next.drop_last() == seen);
        assert(next.last() == s@[i as int]);
        match hex_value_of(s[i]) {
            Some(d) => {
                assert(all_hex(next)) by {
                    assert forall|j: int| 0 <= j < next.len() implies hex_value(
                        #[trigger] next[j],
                    ) >= 0 by {
                        if j < seen.len() {
                            assert(next[j] == seen[j]);
                        }
                    }
                }
                if acc > (u32::MAX - d) / 16 {
                    proof {
                        assert(hex_number(next) > u32::MAX);
                        if all_hex(digits) {
                            lemma_hex_number_grows(digits, i - start + 1);
                        }
                    }
                    return None;
                }
                acc = acc * 16 + d;
            },
            None => {
                assert(hex_value(digits[i - start]) < 0);
                return None;
            },
        }
        i += 1;
    }
    assert(digits.take(i - start) == digits);
    Some(acc)
}

/// Decodes the hexadecimal form of a string. Whatever precedes the first
/// `\u` is ignored, and so is every piece between two markers that is not a
/// hexadecimal numeral of a Unicode scalar.
pub fn hex_decode(value: &str) -> (decoded: String)
    ensures
        decoded@ == hex_decoding(value@),
{
    let chars = chars_of(value);
    let mut marker: Vec<char> = Vec::new();
    marker.push('\\');
    marker.push('u');
    assert(marker@ =~= hex_marker());
    let pieces = split_chars(&chars, &marker);
    let ghost all = split(value@, hex_marker());
    let mut out: Vec<char> = Vec::new();
    let mut i: usize = 1;
    assert(all.skip(1).take(0) =~= Seq::<Seq<char>>::empty());
    while i < pieces.len()
        invariant
            1 <= i <= pieces.len(),
            rows(pieces@) == all,
            out@ == decoded_pieces(all.skip(1).take(i - 1)),
        decreases pieces.len() - i,
    {
        let ghost seen = all.skip(1).take(i - 1);
        let ghost next = all.skip(1).take(i as int);
        assert(next.drop_last() == seen);
        assert(next.last() == pieces@[i as int]@);
        match parse_hex(&pieces[i]) {
            Some(v) => {
                match char_from_scalar(v) {
                    Some(c) => {
                        out.push(c);
                        assert(out@ =~= decoded_pieces(seen) + seq![c]);
                    },
                    None => {
                        assert(out@ =~= decoded_pieces(seen) + Seq::<char>::empty());
                    },
                }
            },
            None => {
                assert(out@ =~= decoded_pieces(seen) + Seq::<char>::empty());
            },
        }
        i += 1;
    }
    assert(all.skip(1).take(pieces.len() - 1) == all.skip(1));
    string_of(&out)
}

/// The pieces of `pieces`, each preceded by a marker.
spec fn marked(pieces: Seq<Seq<char>>) -> Seq<char>
    decreases pieces.len(),
{
    if pieces.len() == 0 {
        Seq::empty()
    } else {
        hex_marker() + pieces.first() + marked(pieces.drop_first())
    }
}

/// The hexadecimal forms of the characters of `s`, one piece for each.
spec fn unit_pieces(s: Seq<char>) -> Seq<Seq<char>> {
    Seq::new(s.len(), |i: int| hex_unit(s[i]))
}

/// No character of `s` is a backslash.
spec fn backslash_free(s: Seq<char>) -> bool {
    forall|i: int| 0 <= i < s.len() ==> #[trigger] s[i] != '\\'
}

proof fn lemma_marked_push(pieces: Seq<Seq<char>>, piece: Seq<char>)
    ensures
        marked(pieces.push(piece)) == marked(pieces) + hex_marker() + piece,
    decreases pieces.len(),
{
    if pieces.len() == 0 {
        let one = pieces.push(piece);
        assert(one.drop_first() =~= Seq::<Seq<char>>::empty());
        assert(marked(one.drop_first()) =~= Seq::<char>::empty());
        assert(one.first() == piece);
        assert(marked(pieces) =~= Seq::<char>::empty());
        assert(marked(one) =~= marked(pieces) + hex_marker() + piece);
    } else {
        lemma_marked_push(pieces.drop_first(), piece);
        assert(pieces.push(piece).drop_first() =~= pieces.drop_first().push(piece));
        assert(marked(pieces.push(piece)) =~= marked(pieces) + hex_marker() + piece);
    }
}

proof fn lemma_split_marked(head: Seq<char>, pieces: Seq<Seq<char>>)
    requires
        backslash_free(head),
        forall|i: int| 0 <= i < pieces.len() ==> backslash_free(#[trigger] pieces[i]),
    ensures
        split(head + marked(pieces), hex_marker()) == seq![head] + pieces,
    decreases pieces.len(),
{
    let s = head + marked(pieces);
    let m = hex_marker();
    assert forall|j: int| 0 <= j < head.len() implies !occurs_at(s, m, j) by {
        if j + m.len() <= s.len() {
            assert(s.subrange(j, j + m.len())[0] == head[j]);
        }
    }
    if pieces.len() == 0 {
        assert(s =~= head);
        assert forall|j: int| 0 <= j implies !occurs_at(s, m, j) by {}
        lemma_first_occurrence_none(s, m);
        assert(split(s, m) =~= seq![head] + pieces);
    } else {
        let rest = pieces.drop_first();
        let tail = pieces.first() + marked(rest);
        assert(s =~= head + m + tail);
        assert(s.subrange(head.len() as int, (head.len() + m.len()) as int) =~= m);
        lemma_first_occurrence_is(s, m, head.len() as int);
        assert(s.take(head.len() as int) =~= head);
        assert(s.skip((head.len() + m.len()) as int) =~= tail);
        assert(backslash_free(pieces[0]));
        assert forall|i: int| 0 <= i < rest.len() implies backslash_free(#[trigger] rest[i]) by {
            assert(rest[i] == pieces[i + 1]);
        }
        lemma_split_marked(pieces.first(), rest);
        assert(seq![head] + (seq![pieces.first()] + rest) =~= seq![head] + pieces);
    }
}

proof fn lemma_hex_digit_value(d: int)
    requires
        0 <= d < 16,
    ensures
        hex_value(hex_digit(d)) == d,
        hex_digit(d) != '\\',
        hex_digit(d) != '+',
{
}

proof fn lemma_hex_digits(n: nat)
    ensures
        all_hex(hex_digits(n)),
        backslash_free(hex_digits(n)),
        hex_number(hex_digits(n)) == n,
        forall|i: int| 0 <= i < hex_digits(n).len() ==> #[trigger] hex_digits(n)[i] != '+',
    decreases n,
{
    if n != 0 {
        lemma_hex_digits(n / 16);
        lemma_hex_digit_value((n % 16) as int);
        let d = hex_digits(n);
        assert(d.drop_last() =~= hex_digits(n / 16));
        assert forall|i: int| 0 <= i < d.len() implies hex_value(#[trigger] d[i]) >= 0 && d[i]
            != '\\' && d[i] != '+' by {
            if i < d.len() - 1 {
                assert(d[i] == hex_digits(n / 16)[i]);
            }
        }
    }
}

proof fn lemma_leading_zeros(k: nat, digits: Seq<char>)
    ensures
        hex_number(Seq::new(k, |i: int| '0') + digits) == hex_number(digits),
    decreases digits.len(), k,
{
    let zeros = Seq::new(k, |i: int| '0');
    let s = zeros + digits;
    if digits.len() > 0 {
        lemma_leading_zeros(k, digits.drop_last());
        assert(s.drop_last() =~= zeros + digits.drop_last());
        assert(s.last() == digits.last());
    } else if k > 0 {
        lemma_leading_zeros((k - 1) as nat, digits);
        assert(s.drop_last() =~= Seq::new((k - 1) as nat, |i: int| '0') + digits);
        assert(s.last() == '0');
    } else {
        assert(s =~= digits);
    }
}

proof fn lemma_hex_unit(c: char)
    ensures
        backslash_free(hex_unit(c)),
        decoded_piece(hex_unit(c)) == seq![c],
{
    let n = c as u32 as nat;
    let digits = hex_digits(n);
    let unit = hex_unit(c);
    lemma_hex_digits(n);
    assert forall|i: int| 0 <= i < unit.len() implies hex_value(#[trigger] unit[i]) >= 0 && unit[i]
        != '\\' && unit[i] != '+' by {
        if digits.len() < 4 {
            if i >= 4 - digits.len() {
                assert(unit[i] == digits[i - (4 - digits.len())]);
            }
        }
    }
    if digits.len() < 4 {
        lemma_leading_zeros((4 - digits.len()) as nat, digits);
    }
    assert(unit.len() >= 4);
    assert(unsigned_part(unit) == unit);
    assert(hex_number(unit) == n);
    assert(hex_numeral(unit) == Some(c as u32));
    broadcast use {char_is_scalar, char_u32_cast};
}

proof fn lemma_decoded_units(s: Seq<char>)
    ensures
        decoded_pieces(unit_pieces(s)) == s,
        hex_units(s) == marked(unit_pieces(s)),
        forall|i: int|
            0 <= i < s.len() ==> backslash_free(
                #[trigger] unit_pieces(s)[i],
            ),
    decreases s.len(),
{
    let units = unit_pieces(s);
    if s.len() == 0 {
        assert(units =~= Seq::<Seq<char>>::empty());
    } else {
        let front = s.drop_last();
        let front_units = unit_pieces(front);
        lemma_decoded_units(front);
        lemma_hex_unit(s.last());
        assert(units.drop_last() =~= front_units);
        assert(units.last() == hex_unit(s.last()));
        assert(units =~= front_units.push(hex_unit(s.last())));
        lemma_marked_push(front_units, hex_unit(s.last()));
        assert(decoded_pieces(units) =~= s);
        assert forall|i: int| 0 <= i < s.len() implies backslash_free(#[trigger] units[i]) by {
            if i < s.len() - 1 {
                assert(units[i] == front_units[i]);
            }
        }
    }
}

/// Decoding the hexadecimal form of any string gives the string back.
pub proof fn lemma_hex_round_trip(s: Seq<char>)
    ensures
        hex_decoding(hex_encoding(s)) == s,
{
    let none = Seq::<char>::empty();
    if s.len() == 0 {
        let pieces = seq![none];
        assert(marked(pieces.drop_first()) =~= none);
        assert(none + marked(pieces) =~= hex_marker());
        lemma_split_marked(none, pieces);
        let all = split(hex_marker(), hex_marker());
        assert(all.skip(1) =~= pieces);
        assert(pieces.drop_last() =~= Seq::<Seq<char>>::empty());
        assert(unsigned_part(none) == none);
        assert(decoded_piece(none) == none);
        assert(decoded_pieces(pieces.drop_last()) =~= none);
        assert(pieces.last() == none);
        assert(decoded_pieces(pieces) =~= none);
        assert(s =~= none);
    } else {
        let units = unit_pieces(s);
        lemma_decoded_units(s);
        assert(none + marked(units) =~= hex_units(s));
        lemma_split_marked(none, units);
        assert((seq![none] + units).skip(1) =~= units);
    }
}

/// The SHA-512 digest of a byte string.
pub uninterp spec fn sha512_digest(data: Seq<u8>) -> Seq<u8>;

/// Computes a SHA-512 digest.
///
/// Trusted: `sha2::Sha512::digest` is a function of the bytes alone and always
/// yields sixty-four bytes.
#[verifier::external_body]
fn sha512(data: &[u8]) -> (digest: Vec<u8>)
    ensures
        digest@ == sha512_digest(data@),
        digest@.len() == 64,
{
    sha2::Sha512::digest(data).to_vec()
}

/// Two lowercase hexadecimal digits for every byte, in order.
pub open spec fn lower_hex(bytes: Seq<u8>) -> Seq<char>
    decreases bytes.len(),
{
    if bytes.len() == 0 {
        Seq::empty()
    } else {
        lower_hex(bytes.drop_last()).push(hex_digit(bytes.last() as int / 16)).push(
            hex_digit(bytes.last() as int % 16),
        )
    }
}

/// The signature of a message: the SHA-512 digest of its UTF-8 bytes, in
/// lowercase hexadecimal.
pub open spec fn sha512_hex(message: Seq<char>) -> Seq<char> {
    lower_hex(sha512_digest(encode_utf8(message)))
}

/// The SHA-512 digest of the UTF-8 bytes of `value`, as 128 lowercase
/// hexadecimal digits.
pub fn calculate_hash(value: String) -> (digest: String)
    ensures
        digest@ == sha512_hex(value@),
{
    let bytes = sha512(value.as_str().as_bytes());
    let mut out: Vec<char> = Vec::new();
    let mut i: usize = 0;
    while i < bytes.len()
        invariant
            i <= bytes.len(),
            out@ == lower_hex(bytes@.take(i as int)),
        decreases bytes.len() - i,
    {
        let b: u32 = bytes[i] as u32;
        out.push(hex_digit_of(b / 16));
        out.push(hex_digit_of(b % 16));
        proof {
            let t = bytes@.take(i + 1);
            assert(t.drop_last() == bytes@.take(i as int));
            assert(t.last() == bytes@[i as int]);
        }
        i += 1;
    }
    assert(bytes@.take(bytes.len() as int) == bytes@);
    string_of(&out)
}

/// The URL-safe, padded base64 text of a byte string.
pub uninterp spec fn base64url_text(bytes: Seq<u8>) -> Seq<char>;

/// The bytes that a URL-safe, padded base64 text stands for, if it is
/// well formed.
pub uninterp spec fn base64url_bytes(text: Seq<char>) -> Option<Seq<u8>>;

/// Encodes bytes in URL-safe base64 with padding.
///
/// Trusted: `Engine::encode` of `base64::engine::general_purpose::URL_SAFE` is
/// a function of the bytes alone, and the same engine decodes its output to
/// those bytes.
#[verifier::external_body]
fn base64url_encode(bytes: &[u8]) -> (encoded: String)
    ensures
        encoded@ == base64url_text(bytes@),
        base64url_bytes(encoded@) == Some(bytes@),
{
    base64::engine::general_purpose::URL_SAFE.encode(bytes)
}

/// Decodes URL-safe base64 with padding.
///
/// Trusted: `Engine::decode` of `base64::engine::general_purpose::URL_SAFE` is
/// a function of the text alone; it fails on text that is not well formed,
/// and decodes the empty text to no bytes.
#[verifier::external_body]
fn base64url_decode(text: &str) -> (decoded: Option<Vec<u8>>)
    ensures
        match decoded {
            Some(bytes) => base64url_bytes(text@) == Some(bytes@),
            None => base64url_bytes(text@) is None,
        },
        text@.len() == 0 ==> decoded is Some && decoded.unwrap()@.len() == 0,
{
    base64::engine::general_purpose::URL_SAFE.decode(text).ok()
}

/// Reads bytes as UTF-8 text.
///
/// Trusted: `String::from_utf8` yields the text that the bytes encode, and
/// fails exactly when they are not valid UTF-8.
#[verifier::external_body]
pub(crate) fn text_of_utf8(bytes: Vec<u8>) -> (text: Option<String>)
    ensures
        text is Some <==> valid_utf8(bytes@),
        text matches Some(t) ==> t@ == decode_utf8(bytes@),
{
    String::from_utf8(bytes).ok()
}

/// The message for credentials that could not be decoded.
pub open spec fn undecodable_credentials() -> Seq<char> {
    "Server was unable to decrypt the credentials"@
}

/// The message for credentials that decode to nothing.
pub open spec fn no_credentials() -> Seq<char> {
    "No credentials received"@
}

/// The text that a base64 value stands for. Text that is not well-formed
/// base64, or whose bytes are not UTF-8, is undecodable; a value that decodes
/// to the empty text carries no credentials.
pub open spec fn base64_decoding(value: Seq<char>) -> Result<Seq<char>, Seq<char>> {
    match base64url_bytes(value) {
        Some(bytes) => if !valid_utf8(bytes) {
            Err(undecodable_credentials())
        } else if bytes.len() == 0 {
            Err(no_credentials())
        } else {
            Ok(decode_utf8(bytes))
        },
        None => Err(undecodable_credentials()),
    }
}

/// The URL-safe, padded base64 encoding of the UTF-8 bytes of `value`.
/// Decoding the result gives `value` back, unless `value` is empty, which
/// decodes to the missing-credentials error.
pub fn base64_encode(value: &str) -> (encoded: String)
    ensures
        encoded@ == base64url_text(encode_utf8(value@)),
        value@.len() > 0 ==> base64_decoding(encoded@) == Ok::<Seq<char>, Seq<char>>(value@),
        value@.len() == 0 ==> base64_decoding(encoded@) == Err::<Seq<char>, Seq<char>>(
            no_credentials(),
        ),
{
    proof {
        encode_utf8_valid_utf8(value@);
        encode_utf8_decode_utf8(value@);
        lemma_encode_utf8_empty(value@);
    }
    base64url_encode(value.as_bytes())
}

proof fn lemma_encode_utf8_empty(s: Seq<char>)
    ensures
        encode_utf8(s).len() == 0 <==> s.len() == 0,
{
    if s.len() > 0 {
        assert(encode_scalar(s[0] as u32).len() > 0);
    }
}

/// Decodes URL-safe, padded base64 into text. The empty value decodes to
/// the missing-credentials error.
pub fn base64_decode(value: &str) -> (decoded: Result<String, &'static str>)
    ensures
        match decoded {
            Ok(text) => base64_decoding(value@) == Ok::<Seq<char>, Seq<char>>(text@),
            Err(message) => base64_decoding(value@) == Err::<Seq<char>, Seq<char>>(message@),
        },
        value@.len() == 0 ==> decoded is Err && decoded->Err_0@ == no_credentials(),
{
    match base64url_decode(value) {
        Some(bytes) => {
            let empty = bytes.len() == 0;
            match text_of_utf8(bytes) {
                Some(text) => {
                    if empty {
                        Err("No credentials received")
                    } else {
                        Ok(text)
                    }
                },
                None => Err("Server was unable to decrypt the credentials"),
            }
        },
        None => Err("Server was unable to decrypt the credentials"),
    }
}

/// The characters a session key is drawn from.
pub open spec fn key_alphabet() -> Seq<char> {
    "ABCDEFGHIJKLMNOPQRSTUVWXYZabcdefghijklmnopqrstuvwxyz0123456789-_"@
}

/// A session key: sixty-four characters of the key alphabet.
pub open spec fn is_session_key(key: Seq<char>) -> bool {
    &&& key.len() == 64
    &&& forall|i: int| 0 <= i < key.len() ==> key_alphabet().contains(#[trigger] key[i])
}

/// Trusted: `rand::rngs::ThreadRng`, the random generator of a thread, as
/// an opaque value.
#[verifier::external_type_specification]
#[verifier::external_body]
pub struct ExThreadRng(rand::rngs::ThreadRng);

/// Trusted: `rand::thread_rng` hands out the generator of the current thread;
/// nothing is claimed of its state.
pub assume_specification[ rand::thread_rng ]() -> (generator: rand::rngs::ThreadRng);

/// Draws an index below `bound`.
///
/// Trusted: `Rng::gen_range` on the half-open range from zero to `bound`
/// returns a value inside the range. It panics on an empty range, which the
/// precondition excludes.
#[verifier::external_body]
fn index_below(generator: &mut rand::rngs::ThreadRng, bound: usize) -> (index: usize)
    requires
        bound > 0,
    ensures
        index < bound,
{
    generator.gen_range(0..bound)
}

/// Sixty-four draws, each an index into the key alphabet.
pub open spec fn is_draw(draws: Seq<usize>) -> bool {
    draws.len() == 64 && forall|i: int| 0 <= i < draws.len() ==> #[trigger] draws[i] < 64
}

/// The key that a sequence of draws gives: for every draw, the character of
/// the key alphabet at that index.
pub open spec fn key_text(draws: Seq<usize>) -> Seq<char> {
    Seq::new(draws.len(), |i: int| key_alphabet()[draws[i] as int])
}

/// Builds the session key that sixty-four draws give.
pub fn key_of(draws: &Vec<usize>) -> (key: String)
    requires
        is_draw(draws@),
    ensures
        key@ == key_text(draws@),
        is_session_key(key@),
{
    let alphabet = chars_of("ABCDEFGHIJKLMNOPQRSTUVWXYZabcdefghijklmnopqrstuvwxyz0123456789-_");
    proof {
        reveal_strlit("ABCDEFGHIJKLMNOPQRSTUVWXYZabcdefghijklmnopqrstuvwxyz0123456789-_");
    }
    assert(alphabet@ == key_alphabet());
    assert(alphabet.len() == 64);
    let mut out: Vec<char> = Vec::new();
    let mut i: usize = 0;
    while i < draws.len()
        invariant
            i <= draws.len(),
            is_draw(draws@),
            out.len() == i,
            alphabet@ == key_alphabet(),
            alphabet.len() == 64,
            forall|j: int| 0 <= j < i ==> out@[j] == key_alphabet()[draws@[j] as int],
        decreases draws.len() - i,
    {
        assert(draws@[i as int] < 64);
        out.push(alphabet[draws[i]]);
        i += 1;
    }
    assert(out@ =~= key_text(draws@));
    assert forall|j: int| 0 <= j < out@.len() implies key_alphabet().contains(
        #[trigger] out@[j],
    ) by {
        assert(draws@[j] < 64);
        assert(key_alphabet()[draws@[j] as int] == out@[j]);
    }
    string_of(&out)
}

/// A fresh random session key: sixty-four indices into the key alphabet
/// are drawn, and the key is the one that these draws give.
pub fn keygen() -> (key: String)
    ensures
        is_session_key(key@),
        exists|draws: Seq<usize>| is_draw(draws) && key@ == key_text(draws),
{
    let mut generator = rand::thread_rng();
    let mut draws: Vec<usize> = Vec::new();
    let mut i: usize = 0;
    while i < 64
        invariant
            i <= 64,
            draws.len() == i,
            forall|j: int| 0 <= j < draws.len() ==> #[trigger] draws@[j] < 64,
        decreases 64 - i,
    {
        let index = index_below(&mut generator, 64);
        draws.push(index);
        i += 1;
    }
    let key = key_of(&draws);
    assert(is_draw(draws@) && key@ == key_text(draws@));
    key
}

/// Trusted: `fernet::Fernet`, a cipher with its key, as an opaque value.
#[verifier::external_type_specification]
#[verifier::external_body]
pub struct ExFernet(fernet::Fernet);

/// Encrypts a payload into a URL-safe token.
///
/// Trusted: nothing is claimed of what `fernet::Fernet::encrypt` returns; the
/// token depends on the clock and on a random initialisation vector.
#[verifier::external_body]
pub(crate) fn encrypt(cipher: &fernet::Fernet, payload: &[u8]) -> (token: String) {
    cipher.encrypt(payload)
}

/// Decrypts a token, or fails.
///
/// Trusted: nothing is claimed of what `fernet::Fernet::decrypt` returns; it
/// rejects a token stamped too far in the future, so its answer depends on
/// the clock.
#[verifier::external_body]
pub(crate) fn decrypt(cipher: &fernet::Fernet, token: &str) -> (payload: Option<Vec<u8>>) {
    cipher.decrypt(token).ok()
}

/// Whether two texts are equal, found without stopping at the first
/// difference.
pub fn constant_time_eq(a: &Vec<char>, b: &Vec<char>) -> (r: bool)
    ensures
        r == (a@ == b@),
{
    if a.len() != b.len() {
        return false;
    }
    let mut equal = true;
    let mut i: usize = 0;
    assert(a@.take(0) =~= b@.take(0));
    while i < a.len()
        invariant
            i <= a.len(),
            a.len() == b.len(),
            equal == (a@.take(i as int) == b@.take(i as int)),
        decreases a.len() - i,
    {
        let here = a[i] == b[i];
        proof {
            let x = a@.take(i + 1);
            let y = b@.take(i + 1);
            assert(x.drop_last() == a@.take(i as int));
            assert(y.drop_last() == b@.take(i as int));
            assert(x.last() == a@[i as int]);
            assert(y.last() == b@[i as int]);
            if a@.take(i as int) == b@.take(i as int) && here {
                assert(x =~= y);
            }
        }
        if !here {
            equal = false;
        }
        i += 1;
    }
    assert(a@.take(a.len() as int) == a@);
    assert(b@.take(b.len() as int) == b@);
    equal
}

} // verus!
