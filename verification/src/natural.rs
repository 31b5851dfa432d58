//! The natural order of file names: runs of decimal digits count as numbers,
//! so that `file2` comes before `file10`.

use crate::text::{all_digits, decimal_number, digit_value, is_digit, slice_of};
use vstd::multiset::Multiset;
use vstd::prelude::*;
use vstd::seq_lib::lemma_multiset_commutative;

verus! {

/// One part of the sort key of a name: the number that a run of digits
/// writes, or a run of other characters.
pub enum KeyPart {
    Number(nat),
    Text(Seq<char>),
}

/// The sign of an integer: `-1`, `0` or `1`.
pub open spec fn sign(n: int) -> int {
    if n < 0 {
        -1
    } else if n == 0 {
        0
    } else {
        1
    }
}

/// The order of two characters by their scalar values.
pub open spec fn char_order(a: char, b: char) -> int {
    sign(a as int - b as int)
}

/// The lexicographic order of two texts by the scalar values of their
/// characters: `-1` when `a` is less than `b`, `0` when they are equal, `1`
/// when `a` is greater. A proper prefix is less than the whole.
pub open spec fn text_order(a: Seq<char>, b: Seq<char>) -> int
    decreases a.len(),
{
    if a.len() == 0 {
        if b.len() == 0 {
            0
        } else {
            -1
        }
    } else if b.len() == 0 {
        1
    } else if char_order(a[0], b[0]) != 0 {
        char_order(a[0], b[0])
    } else {
        text_order(a.drop_first(), b.drop_first())
    }
}

/// The order of two key parts: a number is less than any text, numbers go
/// by their value and texts lexicographically.
pub open spec fn part_order(a: KeyPart, b: KeyPart) -> int {
    match (a, b) {
        (KeyPart::Number(x), KeyPart::Number(y)) => sign(x - y),
        (KeyPart::Number(_), KeyPart::Text(_)) => -1,
        (KeyPart::Text(_), KeyPart::Number(_)) => 1,
        (KeyPart::Text(x), KeyPart::Text(y)) => text_order(x, y),
    }
}

/// The lexicographic order of two keys by the order of their parts.
pub open spec fn key_order(a: Seq<KeyPart>, b: Seq<KeyPart>) -> int
    decreases a.len(),
{
    if a.len() == 0 {
        if b.len() == 0 {
            0
        } else {
            -1
        }
    } else if b.len() == 0 {
        1
    } else if part_order(a[0], b[0]) != 0 {
        part_order(a[0], b[0])
    } else {
        key_order(a.drop_first(), b.drop_first())
    }
}

/// The number of characters at the start of `s` that are digits, if
/// `digits` holds, or that are not digits, if it does not.
pub open spec fn run_length(s: Seq<char>, digits: bool) -> nat
    decreases s.len(),
{
    if s.len() > 0 && is_digit(s[0]) == digits {
        1 + run_length(s.drop_first(), digits)
    } else {
        0
    }
}

/// The key part for one run of characters.
pub open spec fn key_part(run: Seq<char>, digits: bool) -> KeyPart {
    if digits {
        KeyPart::Number(decimal_number(run) as nat)
    } else {
        KeyPart::Text(run)
    }
}

/// The sort key of a name: the name is cut into its maximal runs of digits
/// and of other characters, and every run gives one part.
pub open spec fn natural_key(s: Seq<char>) -> Seq<KeyPart>
    decreases s.len(),
{
    if s.len() == 0 {
        Seq::empty()
    } else {
        let digits = is_digit(s[0]);
        let n = run_length(s, digits);
        if 0 < n <= s.len() {
            seq![key_part(s.take(n as int), digits)] + natural_key(s.skip(n as int))
        } else {
            Seq::empty()
        }
    }
}

/// The natural order of two names: the order of their sort keys.
pub open spec fn natural_order(a: Seq<char>, b: Seq<char>) -> int {
    key_order(natural_key(a), natural_key(b))
}

/// `a` comes no later than `b` in the natural order.
pub open spec fn natural_le(a: Seq<char>, b: Seq<char>) -> bool {
    natural_order(a, b) <= 0
}

/// A run is no longer than the text it starts, and is made of characters of
/// one kind; the character after it, if any, is of the other kind.
pub proof fn lemma_run_length(s: Seq<char>, digits: bool)
    ensures
        run_length(s, digits) <= s.len(),
        forall|i: int| 0 <= i < run_length(s, digits) ==> is_digit(#[trigger] s[i]) == digits,
        run_length(s, digits) < s.len() ==> is_digit(s[run_length(s, digits) as int]) != digits,
        s.len() > 0 && is_digit(s[0]) == digits ==> run_length(s, digits) > 0,
    decreases s.len(),
{
    if s.len() > 0 && is_digit(s[0]) == digits {
        let t = s.drop_first();
        lemma_run_length(t, digits);
        assert forall|i: int| 0 <= i < run_length(s, digits) implies is_digit(#[trigger] s[i])
            == digits by {
            if i > 0 {
                assert(s[i] == t[i - 1]);
            }
        }
        if run_length(s, digits) < s.len() {
            assert(s[run_length(s, digits) as int] == t[run_length(t, digits) as int]);
        }
    }
}

/// A stretch of characters of one kind, followed by a character of the other
/// kind or by nothing, is a run.
pub proof fn lemma_run_length_is(s: Seq<char>, digits: bool, n: int)
    requires
        0 <= n <= s.len(),
        forall|i: int| 0 <= i < n ==> is_digit(#[trigger] s[i]) == digits,
        n < s.len() ==> is_digit(s[n]) != digits,
    ensures
        run_length(s, digits) == n,
    decreases s.len(),
{
    if n > 0 {
        let t = s.drop_first();
        assert(is_digit(s[0]) == digits);
        assert forall|i: int| 0 <= i < n - 1 implies is_digit(#[trigger] t[i]) == digits by {
            assert(t[i] == s[i + 1]);
        }
        if n - 1 < t.len() {
            assert(t[n - 1] == s[n]);
        }
        lemma_run_length_is(t, digits, n - 1);
    }
}

/// Ten to the power of `n`.
pub open spec fn pow10(n: nat) -> nat
    decreases n,
{
    if n == 0 {
        1
    } else {
        10 * pow10((n - 1) as nat)
    }
}

proof fn lemma_number_bound(s: Seq<char>)
    requires
        all_digits(s),
    ensures
        0 <= decimal_number(s) < pow10(s.len()),
        s.len() > 0 && s[0] != '0' ==> decimal_number(s) >= pow10((s.len() - 1) as nat),
    decreases s.len(),
{
    if s.len() > 0 {
        let front = s.drop_last();
        assert(is_digit(s[s.len() - 1]));
        assert forall|i: int| 0 <= i < front.len() implies is_digit(#[trigger] front[i]) by {
            assert(front[i] == s[i]);
        }
        lemma_number_bound(front);
        if s.len() > 1 {
            assert(front[0] == s[0]);
        } else {
            assert(front.len() == 0);
            assert(decimal_number(front) == 0);
            assert(pow10(0) == 1);
        }
    }
}

proof fn lemma_pow10_grows(a: nat, b: nat)
    requires
        a <= b,
    ensures
        pow10(a) <= pow10(b),
        pow10(a) >= 1,
    decreases b,
{
    if b > 0 {
        if a < b {
            lemma_pow10_grows(a, (b - 1) as nat);
        } else {
            lemma_pow10_grows((a - 1) as nat, (b - 1) as nat);
        }
    }
}

proof fn lemma_skip_zeros(s: Seq<char>, z: int)
    requires
        0 <= z <= s.len(),
        forall|i: int| 0 <= i < z ==> #[trigger] s[i] == '0',
    ensures
        decimal_number(s) == decimal_number(s.skip(z)),
    decreases s.len(),
{
    if z == s.len() {
        assert(s.skip(z) =~= Seq::<char>::empty());
        lemma_all_zero(s);
    } else {
        let front = s.drop_last();
        lemma_skip_zeros(front, z);
        assert(front.skip(z) =~= s.skip(z).drop_last());
        assert(s.skip(z).last() == s.last());
    }
}

proof fn lemma_all_zero(s: Seq<char>)
    requires
        forall|i: int| 0 <= i < s.len() ==> #[trigger] s[i] == '0',
    ensures
        decimal_number(s) == 0,
    decreases s.len(),
{
    if s.len() > 0 {
        lemma_all_zero(s.drop_last());
        assert(s[s.len() - 1] == '0');
    }
}

proof fn lemma_number_front(s: Seq<char>)
    requires
        s.len() > 0,
        all_digits(s),
    ensures
        decimal_number(s) == digit_value(s[0]) * pow10((s.len() - 1) as nat) + decimal_number(
            s.drop_first(),
        ),
    decreases s.len(),
{
    let d = digit_value(s[0]);
    if s.len() == 1 {
        assert(s.drop_last() =~= Seq::<char>::empty());
        assert(s.drop_first() =~= Seq::<char>::empty());
        assert(decimal_number(s.drop_last()) == 0);
        assert(decimal_number(s.drop_first()) == 0);
        assert(s.last() == s[0]);
        assert(pow10(0) == 1);
        assert(d * 1 == d);
    } else {
        let front = s.drop_last();
        let rest = s.drop_first();
        assert forall|i: int| 0 <= i < front.len() implies is_digit(#[trigger] front[i]) by {
            assert(front[i] == s[i]);
        }
        lemma_number_front(front);
        assert(front.drop_first() =~= rest.drop_last());
        assert(front[0] == s[0]);
        assert(rest.last() == s.last());
        let p = pow10((s.len() - 2) as nat);
        let inner = decimal_number(front.drop_first());
        let last = digit_value(s.last());
        assert(front.len() - 1 == s.len() - 2);
        assert(decimal_number(front) == d * p + inner);
        assert(decimal_number(s) == decimal_number(front) * 10 + last);
        assert(decimal_number(rest) == inner * 10 + last);
        assert(pow10((s.len() - 1) as nat) == 10 * p);
        assert((d * p + inner) * 10 == d * (10 * p) + inner * 10) by (nonlinear_arith);
    }
}

proof fn lemma_same_length_numbers(x: Seq<char>, y: Seq<char>)
    requires
        x.len() == y.len(),
        all_digits(x),
        all_digits(y),
    ensures
        sign(decimal_number(x) - decimal_number(y)) == text_order(x, y),
    decreases x.len(),
{
    if x.len() > 0 {
        let xs = x.drop_first();
        let ys = y.drop_first();
        assert forall|i: int| 0 <= i < xs.len() implies is_digit(#[trigger] xs[i]) by {
            assert(xs[i] == x[i + 1]);
        }
        assert forall|i: int| 0 <= i < ys.len() implies is_digit(#[trigger] ys[i]) by {
            assert(ys[i] == y[i + 1]);
        }
        lemma_number_front(x);
        lemma_number_front(y);
        lemma_number_bound(xs);
        lemma_number_bound(ys);
        lemma_same_length_numbers(xs, ys);
        assert(is_digit(x[0]) && is_digit(y[0]));
        let p = pow10((x.len() - 1) as nat) as int;
        let dx = digit_value(x[0]);
        let dy = digit_value(y[0]);
        if dx < dy {
            assert(dx * p + p <= dy * p) by (nonlinear_arith)
                requires
                    dx + 1 <= dy,
                    p >= 0,
            ;
        } else if dx > dy {
            assert(dy * p + p <= dx * p) by (nonlinear_arith)
                requires
                    dy + 1 <= dx,
                    p >= 0,
            ;
        }
    }
}

/// The lexicographic order of two texts.
pub fn order_of_texts(x: &Vec<char>, y: &Vec<char>) -> (r: i8)
    ensures
        r == text_order(x@, y@),
{
    let mut i: usize = 0;
    assert(x@.skip(0) =~= x@);
    assert(y@.skip(0) =~= y@);
    while i < x.len() && i < y.len()
        invariant
            i <= x.len(),
            i <= y.len(),
            text_order(x@, y@) == text_order(x@.skip(i as int), y@.skip(i as int)),
        decreases x.len() - i,
    {
        let ghost xs = x@.skip(i as int);
        let ghost ys = y@.skip(i as int);
        assert(xs[0] == x@[i as int] && ys[0] == y@[i as int]);
        assert(xs.drop_first() =~= x@.skip(i + 1));
        assert(ys.drop_first() =~= y@.skip(i + 1));
        if x[i] < y[i] {
            return -1;
        }
        if x[i] > y[i] {
            return 1;
        }
        i += 1;
    }
    if i < y.len() {
        -1
    } else if i < x.len() {
        1
    } else {
        0
    }
}

fn leading_zeros(s: &Vec<char>) -> (z: usize)
    ensures
        z <= s.len(),
        forall|i: int| 0 <= i < z ==> #[trigger] s@[i] == '0',
        z < s.len() ==> s@[z as int] != '0',
{
    let mut z: usize = 0;
    while z < s.len() && s[z] == '0'
        invariant
            z <= s.len(),
            forall|i: int| 0 <= i < z ==> #[trigger] s@[i] == '0',
        decreases s.len() - z,
    {
        z += 1;
    }
    z
}

/// The order of the numbers that two runs of digits write.
pub fn order_of_numbers(x: &Vec<char>, y: &Vec<char>) -> (r: i8)
    requires
        all_digits(x@),
        all_digits(y@),
    ensures
        r == sign(decimal_number(x@) - decimal_number(y@)),
{
    let zx = leading_zeros(x);
    let zy = leading_zeros(y);
    let a = slice_of(x, zx, x.len());
    let b = slice_of(y, zy, y.len());
    proof {
        lemma_skip_zeros(x@, zx as int);
        lemma_skip_zeros(y@, zy as int);
        assert(a@ == x@.skip(zx as int));
        assert(b@ == y@.skip(zy as int));
        assert forall|i: int| 0 <= i < a@.len() implies is_digit(#[trigger] a@[i]) by {
            assert(a@[i] == x@[i + zx]);
        }
        assert forall|i: int| 0 <= i < b@.len() implies is_digit(#[trigger] b@[i]) by {
            assert(b@[i] == y@[i + zy]);
        }
        lemma_number_bound(a@);
        lemma_number_bound(b@);
        if a@.len() < b@.len() {
            lemma_pow10_grows(a@.len(), (b@.len() - 1) as nat);
        }
        if b@.len() < a@.len() {
            lemma_pow10_grows(b@.len(), (a@.len() - 1) as nat);
        }
        if a@.len() == b@.len() {
            lemma_same_length_numbers(a@, b@);
        }
    }
    if a.len() < b.len() {
        -1
    } else if a.len() > b.len() {
        1
    } else {
        order_of_texts(&a, &b)
    }
}

fn digit(c: char) -> (r: bool)
    ensures
        r == is_digit(c),
{
    '0' <= c && c <= '9'
}

fn run_end(s: &Vec<char>, from: usize, digits: bool) -> (end: usize)
    requires
        from <= s.len(),
    ensures
        from <= end <= s.len(),
        end - from == run_length(s@.skip(from as int), digits),
{
    let mut end: usize = from;
    while end < s.len() && digit(s[end]) == digits
        invariant
            from <= end <= s.len(),
            forall|i: int| from <= i < end ==> is_digit(#[trigger] s@[i]) == digits,
        decreases s.len() - end,
    {
        end += 1;
    }
    proof {
        let t = s@.skip(from as int);
        assert forall|i: int| 0 <= i < end - from implies is_digit(#[trigger] t[i]) == digits by {
            assert(t[i] == s@[i + from]);
        }
        lemma_run_length_is(t, digits, end - from);
    }
    end
}

/// The natural order of two names: `-1` when `a` sorts before `b`, `0` when
/// their keys are equal, `1` when `a` sorts after `b`.
pub fn order_of_names(a: &Vec<char>, b: &Vec<char>) -> (r: i8)
    ensures
        r == natural_order(a@, b@),
{
    let mut i: usize = 0;
    let mut j: usize = 0;
    assert(a@.skip(0) =~= a@);
    assert(b@.skip(0) =~= b@);
    while i < a.len() && j < b.len()
        invariant
            i <= a.len(),
            j <= b.len(),
            natural_order(a@, b@) == key_order(
                natural_key(a@.skip(i as int)),
                natural_key(b@.skip(j as int)),
            ),
        decreases a.len() - i,
    {
        let da = digit(a[i]);
        let db = digit(b[j]);
        let ea = run_end(a, i, da);
        let eb = run_end(b, j, db);
        let ra = slice_of(a, i, ea);
        let rb = slice_of(b, j, eb);
        let ghost sa = a@.skip(i as int);
        let ghost sb = b@.skip(j as int);
        proof {
            assert(sa[0] == a@[i as int]);
            assert(sb[0] == b@[j as int]);
            lemma_run_length(sa, da);
            lemma_run_length(sb, db);
            assert(sa.take(ea - i) =~= ra@);
            assert(sb.take(eb - j) =~= rb@);
            assert(sa.skip(ea - i) =~= a@.skip(ea as int));
            assert(sb.skip(eb - j) =~= b@.skip(eb as int));
            let ka = natural_key(sa);
            let kb = natural_key(sb);
            assert(ka =~= seq![key_part(ra@, da)] + natural_key(a@.skip(ea as int)));
            assert(kb =~= seq![key_part(rb@, db)] + natural_key(b@.skip(eb as int)));
            assert(ka.drop_first() =~= natural_key(a@.skip(ea as int)));
            assert(kb.drop_first() =~= natural_key(b@.skip(eb as int)));
            assert(ka[0] == key_part(ra@, da));
            assert(kb[0] == key_part(rb@, db));
            if da {
                assert forall|k: int| 0 <= k < ra@.len() implies is_digit(#[trigger] ra@[k]) by {
                    assert(ra@[k] == sa[k]);
                }
                lemma_number_bound(ra@);
            }
            if db {
                assert forall|k: int| 0 <= k < rb@.len() implies is_digit(#[trigger] rb@[k]) by {
                    assert(rb@[k] == sb[k]);
                }
                lemma_number_bound(rb@);
            }
        }
        let c: i8 = if da && db {
            order_of_numbers(&ra, &rb)
        } else if da {
            -1
        } else if db {
            1
        } else {
            order_of_texts(&ra, &rb)
        };
        if c != 0 {
            return c;
        }
        i = ea;
        j = eb;
    }
    proof {
        let sa = a@.skip(i as int);
        let sb = b@.skip(j as int);
        if i < a.len() {
            lemma_run_length(sa, is_digit(sa[0]));
            assert(natural_key(sa).len() > 0);
        }
        if j < b.len() {
            lemma_run_length(sb, is_digit(sb[0]));
            assert(natural_key(sb).len() > 0);
        }
    }
    if j < b.len() {
        -1
    } else if i < a.len() {
        1
    } else {
        0
    }
}

/// Exchanging the two texts reverses their order.
pub proof fn lemma_text_order_reverses(a: Seq<char>, b: Seq<char>)
    ensures
        text_order(b, a) == -text_order(a, b),
    decreases a.len(),
{
    if a.len() > 0 && b.len() > 0 && char_order(a[0], b[0]) == 0 {
        lemma_text_order_reverses(a.drop_first(), b.drop_first());
    }
}

/// The order of texts is transitive.
pub proof fn lemma_text_order_transitive(a: Seq<char>, b: Seq<char>, c: Seq<char>)
    requires
        text_order(a, b) <= 0,
        text_order(b, c) <= 0,
    ensures
        text_order(a, c) <= 0,
        text_order(a, b) < 0 || text_order(b, c) < 0 ==> text_order(a, c) < 0,
    decreases a.len(),
{
    if a.len() > 0 && b.len() > 0 && c.len() > 0 {
        if char_order(a[0], b[0]) == 0 && char_order(b[0], c[0]) == 0 {
            lemma_text_order_transitive(a.drop_first(), b.drop_first(), c.drop_first());
        }
    }
}

/// Exchanging the two parts reverses their order.
pub proof fn lemma_part_order_reverses(a: KeyPart, b: KeyPart)
    ensures
        part_order(b, a) == -part_order(a, b),
{
    match (a, b) {
        (KeyPart::Text(x), KeyPart::Text(y)) => {
            lemma_text_order_reverses(x, y);
        },
        _ => {},
    }
}

/// The order of parts is transitive.
pub proof fn lemma_part_order_transitive(a: KeyPart, b: KeyPart, c: KeyPart)
    requires
        part_order(a, b) <= 0,
        part_order(b, c) <= 0,
    ensures
        part_order(a, c) <= 0,
        part_order(a, b) < 0 || part_order(b, c) < 0 ==> part_order(a, c) < 0,
{
    match (a, b, c) {
        (KeyPart::Text(x), KeyPart::Text(y), KeyPart::Text(z)) => {
            lemma_text_order_transitive(x, y, z);
        },
        _ => {},
    }
}

/// Exchanging the two keys reverses their order.
pub proof fn lemma_key_order_reverses(a: Seq<KeyPart>, b: Seq<KeyPart>)
    ensures
        key_order(b, a) == -key_order(a, b),
    decreases a.len(),
{
    if a.len() > 0 && b.len() > 0 {
        lemma_part_order_reverses(a[0], b[0]);
        if part_order(a[0], b[0]) == 0 {
            lemma_key_order_reverses(a.drop_first(), b.drop_first());
        }
    }
}

/// The order of keys is transitive.
pub proof fn lemma_key_order_transitive(a: Seq<KeyPart>, b: Seq<KeyPart>, c: Seq<KeyPart>)
    requires
        key_order(a, b) <= 0,
        key_order(b, c) <= 0,
    ensures
        key_order(a, c) <= 0,
        key_order(a, b) < 0 || key_order(b, c) < 0 ==> key_order(a, c) < 0,
    decreases a.len(),
{
    if a.len() > 0 && b.len() > 0 && c.len() > 0 {
        lemma_part_order_reverses(a[0], b[0]);
        lemma_part_order_reverses(b[0], c[0]);
        lemma_part_order_reverses(a[0], c[0]);
        if part_order(a[0], b[0]) <= 0 && part_order(b[0], c[0]) <= 0 {
            lemma_part_order_transitive(a[0], b[0], c[0]);
        }
        if part_order(a[0], b[0]) == 0 && part_order(b[0], c[0]) == 0 {
            lemma_key_order_transitive(a.drop_first(), b.drop_first(), c.drop_first());
        }
    }
}

/// The natural order is total: of two names, one comes no later than the
/// other.
pub proof fn lemma_natural_order_total(a: Seq<char>, b: Seq<char>)
    ensures
        natural_order(b, a) == -natural_order(a, b),
        natural_le(a, b) || natural_le(b, a),
        natural_le(a, a),
{
    lemma_key_order_reverses(natural_key(a), natural_key(b));
    lemma_key_order_reverses(natural_key(a), natural_key(a));
}

/// The natural order is transitive.
pub proof fn lemma_natural_order_transitive(a: Seq<char>, b: Seq<char>, c: Seq<char>)
    requires
        natural_le(a, b),
        natural_le(b, c),
    ensures
        natural_le(a, c),
{
    lemma_key_order_transitive(natural_key(a), natural_key(b), natural_key(c));
}

/// Something that is sorted by a name.
pub trait Named {
    /// The name that the thing is sorted by.
    spec fn name(&self) -> Seq<char>;
}

/// Something whose name can be read when the program runs.
pub trait NamedItem: Named {
    /// The characters of the name.
    fn name_chars(&self) -> (chars: Vec<char>)
        ensures
            chars@ == self.name(),
    ;
}

impl Named for Seq<char> {
    open spec fn name(&self) -> Seq<char> {
        *self
    }
}

impl Named for String {
    open spec fn name(&self) -> Seq<char> {
        self@
    }
}

impl NamedItem for String {
    fn name_chars(&self) -> (chars: Vec<char>) {
        crate::text::chars_of(self.as_str())
    }
}

/// `sorted` with `x` put in front of the first item that `x` comes no later
/// than, or at the end where there is no such item.
pub open spec fn insert_by_name<T: Named>(sorted: Seq<T>, x: T) -> Seq<T>
    decreases sorted.len(),
{
    if sorted.len() == 0 {
        seq![x]
    } else if natural_le(x.name(), sorted[0].name()) {
        seq![x] + sorted
    } else {
        seq![sorted[0]] + insert_by_name(sorted.drop_first(), x)
    }
}

/// The items in the natural order of their names. Items whose names are of
/// equal order keep the order in which they stood.
pub open spec fn sorted_by_name<T: Named>(items: Seq<T>) -> Seq<T>
    decreases items.len(),
{
    if items.len() == 0 {
        Seq::empty()
    } else {
        insert_by_name(sorted_by_name(items.drop_first()), items[0])
    }
}

/// Every item comes no later than the items after it.
pub open spec fn is_sorted_by_name<T: Named>(items: Seq<T>) -> bool {
    forall|i: int, j: int|
        0 <= i < j < items.len() ==> natural_le(
            (#[trigger] items[i]).name(),
            (#[trigger] items[j]).name(),
        )
}

/// The position at which `insert_by_name` puts `x`.
pub open spec fn insert_position<T: Named>(sorted: Seq<T>, x: T) -> int
    decreases sorted.len(),
{
    if sorted.len() == 0 || natural_le(x.name(), sorted[0].name()) {
        0
    } else {
        1 + insert_position(sorted.drop_first(), x)
    }
}

proof fn lemma_insert_position<T: Named>(sorted: Seq<T>, x: T)
    ensures
        0 <= insert_position(sorted, x) <= sorted.len(),
        insert_by_name(sorted, x) == sorted.insert(insert_position(sorted, x), x),
        forall|i: int|
            0 <= i < insert_position(sorted, x) ==> !natural_le(
                x.name(),
                (#[trigger] sorted[i]).name(),
            ),
        insert_position(sorted, x) < sorted.len() ==> natural_le(
            x.name(),
            sorted[insert_position(sorted, x)].name(),
        ),
    decreases sorted.len(),
{
    if sorted.len() == 0 {
        assert(seq![x] =~= sorted.insert(0, x));
    } else if natural_le(x.name(), sorted[0].name()) {
        assert(seq![x] + sorted =~= sorted.insert(0, x));
    } else {
        let rest = sorted.drop_first();
        lemma_insert_position(rest, x);
        let p = insert_position(rest, x);
        assert(seq![sorted[0]] + rest.insert(p, x) =~= sorted.insert(p + 1, x));
        assert forall|i: int| 0 <= i < p + 1 implies !natural_le(
            x.name(),
            (#[trigger] sorted[i]).name(),
        ) by {
            if i > 0 {
                assert(sorted[i] == rest[i - 1]);
            }
        }
        if p < rest.len() {
            assert(sorted[p + 1] == rest[p]);
        }
    }
}

proof fn lemma_position_is<T: Named>(sorted: Seq<T>, x: T, p: int)
    requires
        0 <= p <= sorted.len(),
        forall|i: int| 0 <= i < p ==> !natural_le(x.name(), (#[trigger] sorted[i]).name()),
        p < sorted.len() ==> natural_le(x.name(), sorted[p].name()),
    ensures
        insert_position(sorted, x) == p,
    decreases sorted.len(),
{
    if p > 0 {
        let rest = sorted.drop_first();
        assert(!natural_le(x.name(), sorted[0].name()));
        assert forall|i: int| 0 <= i < p - 1 implies !natural_le(
            x.name(),
            (#[trigger] rest[i]).name(),
        ) by {
            assert(rest[i] == sorted[i + 1]);
        }
        if p - 1 < rest.len() {
            assert(rest[p - 1] == sorted[p]);
        }
        lemma_position_is(rest, x, p - 1);
    }
}

/// Inserting into a sorted sequence leaves it sorted and adds the one item.
pub proof fn lemma_insert_by_name<T: Named>(sorted: Seq<T>, x: T)
    requires
        is_sorted_by_name(sorted),
    ensures
        is_sorted_by_name(insert_by_name(sorted, x)),
        insert_by_name(sorted, x).to_multiset() == sorted.to_multiset().insert(x),
        insert_by_name(sorted, x).len() == sorted.len() + 1,
{
    lemma_insert_position(sorted, x);
    let p = insert_position(sorted, x);
    let r = sorted.insert(p, x);
    assert forall|i: int, j: int| 0 <= i < j < r.len() implies natural_le(
        (#[trigger] r[i]).name(),
        (#[trigger] r[j]).name(),
    ) by {
        if i == p {
            assert(r[j] == sorted[j - 1]);
            if j - 1 > p {
                lemma_natural_order_transitive(x.name(), sorted[p].name(), sorted[j - 1].name());
            }
        } else if j == p {
            assert(r[i] == sorted[i]);
            lemma_natural_order_total(x.name(), sorted[i].name());
        } else {
            let i0 = if i < p {
                i
            } else {
                i - 1
            };
            let j0 = if j < p {
                j
            } else {
                j - 1
            };
            assert(r[i] == sorted[i0] && r[j] == sorted[j0]);
        }
    }
    assert(r =~= sorted.take(p) + seq![x] + sorted.skip(p));
    assert(sorted =~= sorted.take(p) + sorted.skip(p));
    lemma_multiset_commutative(sorted.take(p), sorted.skip(p));
    lemma_multiset_commutative(sorted.take(p) + seq![x], sorted.skip(p));
    lemma_multiset_commutative(sorted.take(p), seq![x]);
    lemma_singleton_multiset(x);
    assert(r.to_multiset() =~= sorted.to_multiset().insert(x));
}

proof fn lemma_singleton_multiset<T>(x: T)
    ensures
        seq![x].to_multiset() == Multiset::<T>::empty().insert(x),
{
    broadcast use vstd::seq_lib::group_to_multiset_ensures;

    assert(seq![x] =~= Seq::<T>::empty().push(x));
    assert(Seq::<T>::empty().to_multiset() =~= Multiset::<T>::empty());
}

/// Sorting yields a sorted arrangement of the same items.
pub proof fn lemma_sorted_by_name<T: Named>(items: Seq<T>)
    ensures
        is_sorted_by_name(sorted_by_name(items)),
        sorted_by_name(items).to_multiset() == items.to_multiset(),
        sorted_by_name(items).len() == items.len(),
    decreases items.len(),
{
    if items.len() == 0 {
        assert(sorted_by_name(items) =~= items);
    } else {
        let rest = items.drop_first();
        lemma_sorted_by_name(rest);
        lemma_insert_by_name(sorted_by_name(rest), items[0]);
        assert(items =~= seq![items[0]] + rest);
        lemma_multiset_commutative(seq![items[0]], rest);
        lemma_singleton_multiset(items[0]);
        assert(items.to_multiset() =~= rest.to_multiset().insert(items[0]));
    }
}

/// Sorts items into the natural order of their names.
pub fn sort_by_name<T: NamedItem>(items: Vec<T>) -> (sorted: Vec<T>)
    ensures
        sorted@ == sorted_by_name(items@),
{
    let mut items = items;
    let ghost given = items@;
    let mut sorted: Vec<T> = Vec::new();
    assert(given.skip(given.len() as int) =~= Seq::<T>::empty());
    while items.len() > 0
        invariant
            items@ == given.take(items.len() as int),
            items.len() <= given.len(),
            sorted@ == sorted_by_name(given.skip(items.len() as int)),
        decreases items.len(),
    {
        let ghost k = items.len() as int;
        let x = items.pop().unwrap();
        let chars = x.name_chars();
        let mut p: usize = 0;
        while p < sorted.len()
            invariant
                p <= sorted.len(),
                chars@ == x.name(),
                forall|i: int| 0 <= i < p ==> !natural_le(x.name(), (#[trigger] sorted@[i]).name()),
            ensures
                p < sorted.len() ==> natural_le(x.name(), sorted@[p as int].name()),
            decreases sorted.len() - p,
        {
            let other = sorted[p].name_chars();
            if order_of_names(&chars, &other) <= 0 {
                break ;
            }
            p += 1;
        }
        proof {
            assert(x == given[k - 1]);
            let tail = given.skip(k - 1);
            assert(tail[0] == x);
            assert(tail.drop_first() =~= given.skip(k));
            lemma_position_is(sorted@, x, p as int);
            lemma_insert_position(sorted@, x);
            assert(items@ =~= given.take(k - 1));
        }
        sorted.insert(p, x);
    }
    assert(given.skip(0) =~= given);
    sorted
}

/// No two different items have names of equal order.
pub open spec fn distinct_by_name<T: Named>(items: Seq<T>) -> bool {
    forall|i: int, j: int|
        0 <= i < items.len() && 0 <= j < items.len() && natural_order(
            (#[trigger] items[i]).name(),
            (#[trigger] items[j]).name(),
        ) == 0 ==> items[i] == items[j]
}

proof fn lemma_sorted_arrangement_is_unique<T: Named>(x: Seq<T>, y: Seq<T>)
    requires
        is_sorted_by_name(x),
        is_sorted_by_name(y),
        x.to_multiset() == y.to_multiset(),
        distinct_by_name(x),
    ensures
        x == y,
    decreases x.len(),
{
    broadcast use vstd::multiset::group_multiset_axioms;
    broadcast use vstd::seq_lib::group_to_multiset_ensures;

    x.to_multiset_ensures();
    y.to_multiset_ensures();
    assert(x.len() == y.len());
    if x.len() == 0 {
        assert(x =~= y);
    } else {
        assert(y.contains(y[0]));
        assert(x.contains(x[0]));
        assert(x.to_multiset().count(y[0]) > 0);
        assert(y.to_multiset().count(x[0]) > 0);
        let i = choose|i: int| 0 <= i < x.len() && x[i] == y[0];
        let j = choose|j: int| 0 <= j < y.len() && y[j] == x[0];
        lemma_natural_order_total(x[0].name(), y[0].name());
        if i > 0 {
            assert(natural_le(x[0].name(), x[i].name()));
        }
        if j > 0 {
            assert(natural_le(y[0].name(), y[j].name()));
        }
        assert(natural_order(x[0].name(), x[i].name()) == 0);
        assert(x[0] == y[0]);
        let xs = x.drop_first();
        let ys = y.drop_first();
        assert(xs =~= x.remove(0));
        assert(ys =~= y.remove(0));
        assert(xs.to_multiset() =~= ys.to_multiset());
        assert forall|a: int, b: int| 0 <= a < b < xs.len() implies natural_le(
            (#[trigger] xs[a]).name(),
            (#[trigger] xs[b]).name(),
        ) by {
            assert(xs[a] == x[a + 1] && xs[b] == x[b + 1]);
        }
        assert forall|a: int, b: int| 0 <= a < b < ys.len() implies natural_le(
            (#[trigger] ys[a]).name(),
            (#[trigger] ys[b]).name(),
        ) by {
            assert(ys[a] == y[a + 1] && ys[b] == y[b + 1]);
        }
        assert forall|a: int, b: int|
            0 <= a < xs.len() && 0 <= b < xs.len() && natural_order(
                (#[trigger] xs[a]).name(),
                (#[trigger] xs[b]).name(),
            ) == 0 implies xs[a] == xs[b] by {
            assert(xs[a] == x[a + 1] && xs[b] == x[b + 1]);
        }
        lemma_sorted_arrangement_is_unique(xs, ys);
        assert(x =~= seq![x[0]] + xs);
        assert(y =~= seq![y[0]] + ys);
    }
}

/// Sorting gives the same result for every arrangement of the same items,
/// provided that no two different items have names of equal order.
pub proof fn lemma_sort_ignores_arrangement<T: Named>(a: Seq<T>, b: Seq<T>)
    requires
        a.to_multiset() == b.to_multiset(),
        distinct_by_name(a),
    ensures
        sorted_by_name(a) == sorted_by_name(b),
{
    broadcast use vstd::multiset::group_multiset_axioms;
    broadcast use vstd::seq_lib::group_to_multiset_ensures;

    lemma_sorted_by_name(a);
    lemma_sorted_by_name(b);
    let x = sorted_by_name(a);
    assert forall|i: int, j: int|
        0 <= i < x.len() && 0 <= j < x.len() && natural_order(
            (#[trigger] x[i]).name(),
            (#[trigger] x[j]).name(),
        ) == 0 implies x[i] == x[j] by {
        assert(x.contains(x[i]));
        assert(x.contains(x[j]));
        assert(a.to_multiset().count(x[i]) > 0);
        assert(a.to_multiset().count(x[j]) > 0);
        assert(a.contains(x[i]));
        assert(a.contains(x[j]));
        let p = choose|p: int| 0 <= p < a.len() && a[p] == x[i];
        let q = choose|q: int| 0 <= q < a.len() && a[q] == x[j];
        assert(a[p] == a[q]);
    }
    lemma_sorted_arrangement_is_unique(x, sorted_by_name(b));
}

/// Sorting commutes with any change of representation that keeps the names.
pub proof fn lemma_sort_commutes<T: Named, U: Named>(items: Seq<T>, f: spec_fn(T) -> U)
    requires
        forall|x: T| (#[trigger] f(x)).name() == x.name(),
    ensures
        sorted_by_name(items).map_values(f) == sorted_by_name(items.map_values(f)),
    decreases items.len(),
{
    if items.len() == 0 {
        assert(sorted_by_name(items).map_values(f) =~= sorted_by_name(items.map_values(f)));
    } else {
        let rest = items.drop_first();
        lemma_sort_commutes(rest, f);
        assert(items.map_values(f).drop_first() =~= rest.map_values(f));
        assert(items.map_values(f)[0] == f(items[0]));
        lemma_insert_commutes(sorted_by_name(rest), items[0], f);
    }
}

proof fn lemma_insert_commutes<T: Named, U: Named>(sorted: Seq<T>, x: T, f: spec_fn(T) -> U)
    requires
        forall|x: T| (#[trigger] f(x)).name() == x.name(),
    ensures
        insert_by_name(sorted, x).map_values(f) == insert_by_name(sorted.map_values(f), f(x)),
    decreases sorted.len(),
{
    let mapped = sorted.map_values(f);
    if sorted.len() == 0 {
        assert(insert_by_name(sorted, x).map_values(f) =~= insert_by_name(mapped, f(x)));
    } else {
        assert(mapped[0] == f(sorted[0]));
        if natural_le(x.name(), sorted[0].name()) {
            assert((seq![x] + sorted).map_values(f) =~= seq![f(x)] + mapped);
        } else {
            lemma_insert_commutes(sorted.drop_first(), x, f);
            assert(mapped.drop_first() =~= sorted.drop_first().map_values(f));
            assert((seq![sorted[0]] + insert_by_name(sorted.drop_first(), x)).map_values(f)
                =~= seq![f(sorted[0])] + insert_by_name(sorted.drop_first(), x).map_values(f));
        }
    }
}

} // verus!
