//! Decimal numerals: how a [`Fixed`] is read from text and written to it.
//!
//! A numeral is an optional sign, digits with or without a point among them,
//! and optionally an exponent: `e` or `E`, an optional sign, and digits. The
//! exponent moves the point. What is left beyond the sixth place after the
//! point rounds that place, half away from zero. A numeral whose value no
//! `Fixed` holds is refused, and so are the words for infinity and for what
//! is not a number: neither has a value in millionths.

use vstd::prelude::*;
use vstd::arithmetic::div_mod::{lemma_fundamental_div_mod, lemma_mod_bound};
use vstd::slice::slice_subrange;
use crate::fixed::{clamped, Fixed};
use crate::text::{find_byte, first_where, is_byte, lemma_first_where, position};

verus! {

/// The minus sign.
pub const MINUS: u8 = 45;

/// The plus sign.
pub const PLUS: u8 = 43;

/// The decimal point.
pub const POINT: u8 = 46;

/// The digit zero; the other digits follow it.
pub const ZERO: u8 = 48;

/// The digit nine.
pub const NINE: u8 = 57;

/// The digit upward from which the digit before is rounded up.
pub const FIVE: u8 = 53;

/// The small letter that begins an exponent.
pub const SMALL_E: u8 = 101;

/// The capital letter that begins an exponent.
pub const CAPITAL_E: u8 = 69;

/// The largest count of millionths that a numeral may write, leaving its
/// sign aside.
pub const LIMIT: u128 = 9_223_372_036_854_775_808;

/// The size from which on an exponent moves every digit out of reach.
pub const FAR: i128 = 1_000_000_000_000_000_000_000_000_000_000;

/// Whether `b` is a digit.
pub open spec fn is_digit(b: u8) -> bool {
    ZERO <= b <= NINE
}

/// The number that the digit `b` stands for.
pub open spec fn digit(b: u8) -> nat {
    if b >= ZERO {
        (b - ZERO) as nat
    } else {
        0
    }
}

/// Whether `s` holds digits only.
pub open spec fn all_digits(s: Seq<u8>) -> bool {
    forall|i: int| 0 <= i < s.len() ==> is_digit(#[trigger] s[i])
}

/// Ten to the power `k`.
pub open spec fn pow10(k: nat) -> nat
    decreases k,
{
    if k == 0 {
        1
    } else {
        10 * pow10((k - 1) as nat)
    }
}

/// The number that the digits `s` write.
pub open spec fn whole_value(s: Seq<u8>) -> nat
    decreases s.len(),
{
    if s.len() == 0 {
        0
    } else {
        whole_value(s.drop_last()) * 10 + digit(s.last())
    }
}

/// The number that the digits `d` write with the point after the first `q`
/// of them, rounded to a whole number, half upward. Where `q` is beyond the
/// digits, zeros follow them; where it is below zero, zeros stand before
/// them.
pub open spec fn scaled(d: Seq<u8>, q: int) -> nat {
    if q > d.len() {
        whole_value(d) * pow10((q - d.len()) as nat)
    } else if q == d.len() {
        whole_value(d)
    } else if q >= 0 {
        whole_value(d.take(q)) + if d[q] >= FIVE {
            1nat
        } else {
            0nat
        }
    } else {
        0
    }
}

/// How many bytes of `s` are its sign.
pub open spec fn sign_len(s: Seq<u8>) -> int {
    if s.len() > 0 && (s[0] == MINUS || s[0] == PLUS) {
        1
    } else {
        0
    }
}

/// Whether `s` begins with a minus sign.
pub open spec fn is_negative(s: Seq<u8>) -> bool {
    s.len() > 0 && s[0] == MINUS
}

/// Whether `b` begins an exponent.
pub open spec fn is_mark(b: u8) -> bool {
    b == SMALL_E || b == CAPITAL_E
}

/// The test for a byte that begins an exponent.
pub open spec fn mark_test() -> spec_fn(u8) -> bool {
    |b: u8| is_mark(b)
}

/// What stands in `s` after the sign.
pub open spec fn unsigned(s: Seq<u8>) -> Seq<u8> {
    s.skip(sign_len(s))
}

/// What stands in `s` between the sign and the exponent.
pub open spec fn mantissa(s: Seq<u8>) -> Seq<u8> {
    unsigned(s).take(first_where(unsigned(s), mark_test()))
}

/// What stands in `s` after the letter that begins the exponent, if there is
/// such a letter.
pub open spec fn exponent_part(s: Seq<u8>) -> Option<Seq<u8>> {
    let m = first_where(unsigned(s), mark_test());
    if 0 <= m < unsigned(s).len() {
        Some(unsigned(s).skip(m + 1))
    } else {
        None
    }
}

/// What stands in `s` between the sign and the point.
pub open spec fn whole_part(s: Seq<u8>) -> Seq<u8> {
    mantissa(s).take(position(mantissa(s), POINT))
}

/// What stands in `s` between the point and the exponent.
pub open spec fn fraction_part(s: Seq<u8>) -> Seq<u8> {
    let p = position(mantissa(s), POINT);
    if 0 <= p < mantissa(s).len() {
        mantissa(s).skip(p + 1)
    } else {
        Seq::empty()
    }
}

/// Whether `t` can follow the letter that begins an exponent: an optional
/// sign, then digits, at least one.
pub open spec fn is_exponent(t: Seq<u8>) -> bool {
    unsigned(t).len() > 0 && all_digits(unsigned(t))
}

/// The number that the exponent `t` writes.
pub open spec fn exponent_value(t: Seq<u8>) -> int {
    if is_negative(t) {
        -(whole_value(unsigned(t)) as int)
    } else {
        whole_value(unsigned(t)) as int
    }
}

/// By how many places the exponent of `s` moves the point to the right.
pub open spec fn exponent(s: Seq<u8>) -> int {
    match exponent_part(s) {
        Some(t) => exponent_value(t),
        None => 0,
    }
}

/// Whether `s` is a numeral.
pub open spec fn is_numeral(s: Seq<u8>) -> bool {
    &&& all_digits(whole_part(s))
    &&& all_digits(fraction_part(s))
    &&& whole_part(s).len() + fraction_part(s).len() > 0
    &&& exponent_part(s) matches Some(t) ==> is_exponent(t)
}

/// The millionths that the numeral `s` counts, leaving its sign aside.
pub open spec fn magnitude(s: Seq<u8>) -> nat {
    scaled(whole_part(s) + fraction_part(s), whole_part(s).len() + exponent(s) + 6)
}

/// The millionths that `s` counts, if it is a numeral that a `Fixed` can
/// hold.
pub open spec fn decimal_value(s: Seq<u8>) -> Option<int> {
    let v = if is_negative(s) {
        -(magnitude(s) as int)
    } else {
        magnitude(s) as int
    };
    if is_numeral(s) && i64::MIN <= v <= i64::MAX {
        Some(v)
    } else {
        None
    }
}

/// The digits that write `n`, without needless zeros.
pub open spec fn digits_of(n: nat) -> Seq<u8>
    decreases n,
{
    if n < 10 {
        seq![(ZERO + n) as u8]
    } else {
        digits_of(n / 10).push((ZERO + n % 10) as u8)
    }
}

/// The digits that write `f` units of the last of `places` places after a
/// point, without needless zeros at the end.
pub open spec fn fraction_text(f: nat, places: nat) -> Seq<u8>
    decreases places,
{
    if f == 0 || places == 0 {
        Seq::empty()
    } else {
        let w = pow10((places - 1) as nat);
        seq![(ZERO + f / w) as u8] + fraction_text(f % w, (places - 1) as nat)
    }
}

/// The numeral for `m` millionths.
pub open spec fn magnitude_text(m: nat) -> Seq<u8> {
    if m % 1_000_000 == 0 {
        digits_of(m / 1_000_000)
    } else {
        digits_of(m / 1_000_000) + seq![POINT] + fraction_text(m % 1_000_000, 6)
    }
}

/// The numeral for `v` millionths: the shortest without an exponent that
/// reads back as `v`.
pub open spec fn decimal_text(v: int) -> Seq<u8> {
    if v < 0 {
        seq![MINUS] + magnitude_text((-v) as nat)
    } else {
        magnitude_text(v as nat)
    }
}

proof fn lemma_pow10_values()
    ensures
        pow10(0) == 1,
        pow10(1) == 10,
        pow10(2) == 100,
        pow10(3) == 1_000,
        pow10(4) == 10_000,
        pow10(5) == 100_000,
        pow10(6) == 1_000_000,
{
    reveal_with_fuel(pow10, 7);
}

proof fn lemma_pow10_positive(k: nat)
    ensures
        pow10(k) > 0,
    decreases k,
{
    if k > 0 {
        lemma_pow10_positive((k - 1) as nat);
    }
}

proof fn lemma_pow10_add(a: nat, b: nat)
    ensures
        pow10(a + b) == pow10(a) * pow10(b),
    decreases a,
{
    if a > 0 {
        lemma_pow10_add((a - 1) as nat, b);
        assert(pow10(a + b) == 10 * pow10((a - 1 + b) as nat));
        assert(10 * (pow10((a - 1) as nat) * pow10(b)) == (10 * pow10((a - 1) as nat)) * pow10(b))
            by (nonlinear_arith);
    } else {
        assert(1 * pow10(b) == pow10(b)) by (nonlinear_arith);
    }
}

proof fn lemma_pow10_nineteen(k: nat)
    requires
        k >= 19,
    ensures
        pow10(k) > LIMIT,
{
    assert(pow10(19) == 10_000_000_000_000_000_000) by {
        reveal_with_fuel(pow10, 20);
    }
    lemma_pow10_add(19, (k - 19) as nat);
    lemma_pow10_positive((k - 19) as nat);
    assert(pow10(19) * pow10((k - 19) as nat) >= pow10(19)) by (nonlinear_arith)
        requires
            pow10((k - 19) as nat) >= 1,
    ;
}

proof fn lemma_whole_value_grows(s: Seq<u8>, k: int)
    requires
        0 <= k <= s.len(),
    ensures
        whole_value(s.take(k)) <= whole_value(s),
    decreases s.len() - k,
{
    if k < s.len() {
        lemma_whole_value_grows(s.drop_last(), k);
        assert(s.drop_last().take(k) =~= s.take(k));
    } else {
        assert(s.take(k) =~= s);
    }
}

proof fn lemma_whole_value_joined(a: Seq<u8>, b: Seq<u8>)
    ensures
        whole_value(a + b) == whole_value(a) * pow10(b.len()) + whole_value(b),
    decreases b.len(),
{
    if b.len() == 0 {
        assert(a + b =~= a);
        assert(whole_value(a) * 1 == whole_value(a)) by (nonlinear_arith);
    } else {
        let all = a + b;
        assert(all.drop_last() =~= a + b.drop_last());
        assert(all.last() == b.last());
        lemma_whole_value_joined(a, b.drop_last());
        let x = whole_value(a);
        let p = pow10(b.drop_last().len());
        let y = whole_value(b.drop_last());
        assert(pow10(b.len()) == 10 * p);
        assert((x * p + y) * 10 == x * (10 * p) + y * 10) by (nonlinear_arith);
    }
}

/// The value with the point far to the right or far to the left does not
/// depend on how far: it is nothing, or more than any `Fixed` holds.
proof fn lemma_scaled_far(d: Seq<u8>, q: int, r: int)
    requires
        (q < 0 && r < 0) || (q >= d.len() + 19 && r >= d.len() + 19),
    ensures
        scaled(d, q) == scaled(d, r) || (scaled(d, q) > LIMIT && scaled(d, r) > LIMIT),
{
    if q >= 0 {
        let w = whole_value(d);
        lemma_pow10_nineteen((q - d.len()) as nat);
        lemma_pow10_nineteen((r - d.len()) as nat);
        if w == 0 {
            assert(0 * pow10((q - d.len()) as nat) == 0) by (nonlinear_arith);
            assert(0 * pow10((r - d.len()) as nat) == 0) by (nonlinear_arith);
        } else {
            assert(w * pow10((q - d.len()) as nat) >= pow10((q - d.len()) as nat))
                by (nonlinear_arith)
                requires
                    w >= 1,
            ;
            assert(w * pow10((r - d.len()) as nat) >= pow10((r - d.len()) as nat))
                by (nonlinear_arith)
                requires
                    w >= 1,
            ;
        }
    }
}

proof fn lemma_digits_of(n: nat)
    ensures
        digits_of(n).len() >= 1,
        all_digits(digits_of(n)),
        whole_value(digits_of(n)) == n,
    decreases n,
{
    if n < 10 {
        let s = digits_of(n);
        assert(s.drop_last() =~= Seq::<u8>::empty());
        assert(whole_value(s.drop_last()) == 0);
    } else {
        lemma_digits_of(n / 10);
        let s = digits_of(n);
        assert(s.drop_last() =~= digits_of(n / 10));
        assert(s.last() == (ZERO + n % 10) as u8);
    }
}

proof fn lemma_fraction_text(f: nat, places: nat)
    requires
        f < pow10(places),
    ensures
        fraction_text(f, places).len() <= places,
        f != 0 ==> fraction_text(f, places).len() >= 1,
        all_digits(fraction_text(f, places)),
        whole_value(fraction_text(f, places)) * pow10(
            (places - fraction_text(f, places).len()) as nat,
        ) == f,
    decreases places,
{
    let t = fraction_text(f, places);
    if f != 0 && places != 0 {
        let w = pow10((places - 1) as nat);
        let d = f / w;
        let r = f % w;
        lemma_pow10_positive((places - 1) as nat);
        lemma_fundamental_div_mod(f as int, w as int);
        lemma_mod_bound(f as int, w as int);
        assert(0 <= d < 10) by (nonlinear_arith)
            requires
                d == f / w,
                w > 0,
                f < 10 * w,
        ;
        lemma_fraction_text(r, (places - 1) as nat);
        let head = seq![(ZERO + d) as u8];
        let tail = fraction_text(r, (places - 1) as nat);
        assert(t == head + tail);
        assert(all_digits(t)) by {
            assert forall|i: int| 0 <= i < t.len() implies is_digit(#[trigger] t[i]) by {
                if i > 0 {
                    assert(t[i] == tail[i - 1]);
                }
            }
        }
        assert(whole_value(head) == d) by {
            assert(head.drop_last() =~= Seq::<u8>::empty());
            assert(whole_value(head.drop_last()) == 0);
        }
        lemma_whole_value_joined(head, tail);
        let left = (places - t.len()) as nat;
        assert(left == places - 1 - tail.len());
        lemma_pow10_add(tail.len(), left);
        let pt = pow10(tail.len());
        let pl = pow10(left);
        let y = whole_value(tail);
        assert(pt * pl == w);
        assert(y * pl == r);
        assert((d * pt + y) * pl == d * (pt * pl) + y * pl) by (nonlinear_arith);
        assert(d * w == w * d) by (nonlinear_arith);
    } else {
        assert(0 * pow10((places - t.len()) as nat) == 0) by (nonlinear_arith);
    }
}

proof fn lemma_magnitude_text(m: nat)
    ensures
        sign_len(magnitude_text(m)) == 0,
        !is_negative(magnitude_text(m)),
        is_numeral(magnitude_text(m)),
        magnitude(magnitude_text(m)) == m,
{
    let w = m / 1_000_000;
    let f = m % 1_000_000;
    let t = magnitude_text(m);
    let digits = digits_of(w);
    lemma_digits_of(w);
    lemma_pow10_values();
    assert(t[0] == digits[0]);
    assert(is_digit(digits[0]));
    assert(t.skip(0) =~= t);
    let frac = if f == 0 {
        Seq::<u8>::empty()
    } else {
        fraction_text(f, 6)
    };
    let p = digits.len() as int;
    if f == 0 {
        assert(all_digits(frac));
        assert(whole_value(frac) == 0);
        assert(0 * pow10(6) == 0) by (nonlinear_arith);
    } else {
        lemma_fraction_text(f, 6);
    }
    assert forall|j: int| 0 <= j < t.len() implies !mark_test()(#[trigger] t[j]) by {
        if j < p {
            assert(t[j] == digits[j]);
            assert(is_digit(digits[j]));
        } else if j > p {
            assert(t[j] == frac[j - p - 1]);
            assert(is_digit(frac[j - p - 1]));
        }
    }
    lemma_first_where(t, mark_test(), t.len() as int);
    assert(t.take(t.len() as int) =~= t);
    assert(mantissa(t) == t);
    assert(exponent_part(t) is None);
    assert forall|j: int| 0 <= j < p implies !is_byte(POINT)(#[trigger] t[j]) by {
        assert(t[j] == digits[j]);
        assert(is_digit(digits[j]));
    }
    if f != 0 {
        assert(t[p] == POINT);
    }
    lemma_first_where(t, is_byte(POINT), p);
    assert(t.take(p) =~= digits);
    if f != 0 {
        assert(t.skip(p + 1) =~= frac);
    }
    assert(whole_part(t) == digits);
    assert(fraction_part(t) == frac);
    let all = digits + frac;
    lemma_whole_value_joined(digits, frac);
    let pk = pow10(frac.len());
    let pl = pow10((6 - frac.len()) as nat);
    lemma_pow10_add(frac.len(), (6 - frac.len()) as nat);
    let y = whole_value(frac);
    assert((w * pk + y) * pl == w * (pk * pl) + y * pl) by (nonlinear_arith);
    assert(y * pl == f);
    assert(whole_value(all) * pl == w * 1_000_000 + f);
    lemma_fundamental_div_mod(m as int, 1_000_000);
    if frac.len() == 6 {
        assert(whole_value(all) * 1 == whole_value(all)) by (nonlinear_arith);
    }
    assert(scaled(all, p + 6) == m);
}

/// Writing a value and reading the text back gives the value again.
pub proof fn law_text_reads_back(v: int)
    requires
        i64::MIN <= v <= i64::MAX,
    ensures
        decimal_value(decimal_text(v)) == Some(v),
{
    if v < 0 {
        let m = (-v) as nat;
        let body = magnitude_text(m);
        let t = decimal_text(v);
        lemma_magnitude_text(m);
        assert(t[0] == MINUS);
        assert(t.skip(1) =~= body);
        assert(body.skip(0) =~= body);
    } else {
        lemma_magnitude_text(v as nat);
    }
}

/// The index of the first byte of `s` at or after `from` that begins an
/// exponent, or the length of `s` where none follows.
fn find_mark(s: &[u8], from: usize) -> (i: usize)
    requires
        from <= s@.len(),
    ensures
        from <= i <= s@.len(),
        i - from == first_where(s@.skip(from as int), mark_test()),
{
    let mut i: usize = from;
    while i < s.len() && s[i] != SMALL_E && s[i] != CAPITAL_E
        invariant
            from <= i <= s@.len(),
            forall|j: int| from <= j < i ==> !is_mark(s@[j]),
        decreases s@.len() - i,
    {
        i += 1;
    }
    proof {
        let rest = s@.skip(from as int);
        assert forall|j: int| 0 <= j < i - from implies !mark_test()(#[trigger] rest[j]) by {
            assert(rest[j] == s@[from + j]);
        }
        lemma_first_where(rest, mark_test(), i - from);
    }
    i
}

/// Adds the bytes of `s` to the end of `out` if they are all digits, and
/// says whether they are.
fn push_if_digits(out: &mut Vec<u8>, s: &[u8]) -> (b: bool)
    ensures
        b == all_digits(s@),
        b ==> final(out)@ == old(out)@ + s@,
{
    let mut i: usize = 0;
    while i < s.len()
        invariant
            i <= s@.len(),
            all_digits(s@.take(i as int)),
            out@ == old(out)@ + s@.take(i as int),
        decreases s@.len() - i,
    {
        let b: u8 = s[i];
        if b < ZERO || b > NINE {
            assert(!is_digit(s@[i as int]));
            return false;
        }
        out.push(b);
        proof {
            let seen = s@.take(i + 1);
            assert forall|k: int| 0 <= k < seen.len() implies is_digit(#[trigger] seen[k]) by {
                if k < i {
                    assert(seen[k] == s@.take(i as int)[k]);
                }
            }
            assert(out@ =~= old(out)@ + seen);
        }
        i += 1;
    }
    assert(s@.take(s@.len() as int) =~= s@);
    true
}

/// The number that the exponent `t` writes, held within [`FAR`] either way;
/// or nothing where `t` is no exponent.
fn read_exponent(t: &[u8]) -> (r: Option<i128>)
    ensures
        (match r {
            Some(e) => is_exponent(t@) && e == clamped(exponent_value(t@), -FAR, FAR as int),
            None => !is_exponent(t@),
        }),
{
    let n: usize = t.len();
    let negative: bool = n > 0 && t[0] == MINUS;
    let start: usize = if n > 0 && (t[0] == MINUS || t[0] == PLUS) {
        1
    } else {
        0
    };
    if start == n {
        return None;
    }
    let ghost digits = t@.skip(start as int);
    let mut size: i128 = 0;
    let mut i: usize = start;
    assert(digits.take(0) =~= Seq::<u8>::empty());
    while i < n
        invariant
            start <= i <= n == t@.len(),
            digits == t@.skip(start as int),
            digits == unsigned(t@),
            all_digits(digits.take(i - start)),
            0 <= size <= FAR,
            size == clamped(whole_value(digits.take(i - start)) as int, 0, FAR as int),
        decreases n - i,
    {
        let b: u8 = t[i];
        if b < ZERO || b > NINE {
            assert(!is_digit(digits[i - start]));
            return None;
        }
        proof {
            let seen = digits.take(i - start + 1);
            assert(seen.drop_last() =~= digits.take(i - start));
            assert(seen.last() == b);
            assert forall|k: int| 0 <= k < seen.len() implies is_digit(#[trigger] seen[k]) by {
                if k < i - start {
                    assert(seen[k] == digits.take(i - start)[k]);
                }
            }
        }
        size = size * 10 + (b - ZERO) as i128;
        if size > FAR {
            size = FAR;
        }
        i += 1;
    }
    assert(digits.take(n - start) =~= digits);
    if negative {
        Some(-size)
    } else {
        Some(size)
    }
}

/// The number that the digits `d` write with the point after the first `q`
/// of them, rounded; or nothing where it is more than [`LIMIT`].
fn scale_digits(d: &[u8], q: i128) -> (r: Option<u128>)
    requires
        all_digits(d@),
        -2 * FAR <= q <= 2 * FAR,
    ensures
        (match r {
            Some(m) => m == scaled(d@, q as int) && m <= LIMIT,
            None => scaled(d@, q as int) > LIMIT,
        }),
{
    let n: usize = d.len();
    let cut: usize = if q <= 0 {
        0
    } else if q >= n as i128 {
        n
    } else {
        q as usize
    };
    let mut kept: u128 = 0;
    let mut k: usize = 0;
    assert(d@.take(0) =~= Seq::<u8>::empty());
    while k < cut
        invariant
            k <= cut <= n == d@.len(),
            all_digits(d@),
            kept == whole_value(d@.take(k as int)),
            kept <= LIMIT,
            q <= 0 ==> cut == 0,
            0 < q < n ==> cut == q,
            q >= n ==> cut == n,
        decreases cut - k,
    {
        let b: u8 = d[k];
        assert(is_digit(d@[k as int]));
        proof {
            let seen = d@.take(k + 1);
            assert(seen.drop_last() =~= d@.take(k as int));
            assert(seen.last() == b);
        }
        kept = kept * 10 + (b - ZERO) as u128;
        if kept > LIMIT {
            proof {
                let front = d@.take(cut as int);
                lemma_whole_value_grows(front, k + 1);
                assert(front.take(k + 1) =~= d@.take(k + 1));
                lemma_scaled_at_least(d@, q as int);
            }
            return None;
        }
        k += 1;
    }
    if q > n as i128 {
        assert(d@.take(n as int) =~= d@);
        let mut left: i128 = q - n as i128;
        let ghost target = scaled(d@, q as int);
        assert(target == kept * pow10(left as nat));
        while left > 0 && kept != 0
            invariant
                0 <= left,
                kept <= LIMIT,
                target == scaled(d@, q as int),
                target == kept * pow10(left as nat),
            decreases left,
        {
            proof {
                let rest = pow10((left - 1) as nat);
                lemma_pow10_positive((left - 1) as nat);
                assert(pow10(left as nat) == 10 * rest);
                assert((kept * 10) * rest == kept * (10 * rest)) by (nonlinear_arith);
                assert((kept * 10) * rest >= kept * 10) by (nonlinear_arith)
                    requires
                        rest >= 1,
                ;
                assert(target == (kept * 10) * rest);
                assert(target >= kept * 10);
            }
            kept = kept * 10;
            left = left - 1;
            if kept > LIMIT {
                assert(target > LIMIT);
                return None;
            }
        }
        proof {
            if kept == 0 {
                assert(0 * pow10(left as nat) == 0) by (nonlinear_arith);
            } else {
                assert(kept * 1 == kept) by (nonlinear_arith);
            }
        }
        Some(kept)
    } else {
        let up: u128 = if q >= 0 && cut < n && d[cut] >= FIVE {
            1
        } else {
            0
        };
        if q == n as i128 {
            assert(d@.take(n as int) =~= d@);
        }
        let total: u128 = kept + up;
        if total > LIMIT {
            None
        } else {
            Some(total)
        }
    }
}

proof fn lemma_scaled_at_least(d: Seq<u8>, q: int)
    ensures
        q <= 0 ==> scaled(d, q) >= 0,
        0 < q < d.len() ==> scaled(d, q) >= whole_value(d.take(q)),
        q >= d.len() ==> scaled(d, q) >= whole_value(d.take(d.len() as int)),
{
    assert(d.take(d.len() as int) =~= d);
    if q > d.len() {
        lemma_pow10_positive((q - d.len()) as nat);
        assert(whole_value(d) * pow10((q - d.len()) as nat) >= whole_value(d)) by (nonlinear_arith)
            requires
                pow10((q - d.len()) as nat) >= 1,
        ;
    }
}

/// The value that the numeral `s` writes, or nothing where `s` is no numeral
/// or writes a value that no `Fixed` holds.
pub fn parse_decimal(s: &[u8]) -> (r: Option<Fixed>)
    ensures
        (match r {
            Some(f) => decimal_value(s@) == Some(f@),
            None => decimal_value(s@) is None,
        }),
{
    let n: usize = s.len();
    let negative: bool = n > 0 && s[0] == MINUS;
    let start: usize = if n > 0 && (s[0] == MINUS || s[0] == PLUS) {
        1
    } else {
        0
    };
    let mark: usize = find_mark(s, start);
    let body: &[u8] = slice_subrange(s, start, mark);
    let point: usize = find_byte(body, 0, POINT);
    proof {
        assert(body@ =~= mantissa(s@));
        assert(body@.skip(0) =~= body@);
        assert(body@.subrange(0, point as int) =~= whole_part(s@));
        if point < body@.len() {
            assert(body@.subrange(point + 1, body@.len() as int) =~= fraction_part(s@));
        }
        if mark < n {
            assert(s@.subrange(mark + 1, n as int) =~= exponent_part(s@)->Some_0);
        }
    }
    let mut digits: Vec<u8> = Vec::new();
    if !push_if_digits(&mut digits, slice_subrange(body, 0, point)) {
        return None;
    }
    if point < body.len() {
        if !push_if_digits(&mut digits, slice_subrange(body, point + 1, body.len())) {
            return None;
        }
    }
    assert(digits@ =~= whole_part(s@) + fraction_part(s@));
    if digits.len() == 0 {
        return None;
    }
    let moved: i128 = if mark < n {
        match read_exponent(slice_subrange(s, mark + 1, n)) {
            Some(e) => e,
            None => {
                return None;
            },
        }
    } else {
        0
    };
    let q: i128 = point as i128 + moved + 6;
    proof {
        let exact = point + exponent(s@) + 6;
        if exponent(s@) > FAR {
            lemma_scaled_far(digits@, q as int, exact);
        } else if exponent(s@) < -FAR {
            lemma_scaled_far(digits@, q as int, exact);
        }
        assert(all_digits(digits@)) by {
            assert forall|i: int| 0 <= i < digits@.len() implies is_digit(#[trigger] digits@[i]) by {
                if i < whole_part(s@).len() {
                    assert(digits@[i] == whole_part(s@)[i]);
                } else {
                    assert(digits@[i] == fraction_part(s@)[i - whole_part(s@).len()]);
                }
            }
        }
    }
    let total: u128 = match scale_digits(digits.as_slice(), q) {
        Some(t) => t,
        None => {
            return None;
        },
    };
    if negative {
        if total == LIMIT {
            Some(Fixed { micros: i64::MIN })
        } else {
            Some(Fixed { micros: -(total as i64) })
        }
    } else {
        if total == LIMIT {
            None
        } else {
            Some(Fixed { micros: total as i64 })
        }
    }
}

/// Adds the digits of `n` to the end of `out`.
fn push_digits(out: &mut Vec<u8>, n: u64)
    ensures
        final(out)@ == old(out)@ + digits_of(n as nat),
    decreases n,
{
    if n >= 10 {
        push_digits(out, n / 10);
    }
    let d: u8 = (n % 10) as u8;
    out.push(ZERO + d);
    assert(out@ =~= old(out)@ + digits_of(n as nat));
}

/// Adds the fractional digits for `f` millionths to the end of `out`.
fn push_fraction(out: &mut Vec<u8>, f: u64)
    requires
        f < 1_000_000,
    ensures
        final(out)@ == old(out)@ + fraction_text(f as nat, 6),
{
    let mut rest: u64 = f;
    let mut weight: u64 = 100_000;
    let mut places: usize = 6;
    proof {
        lemma_pow10_values();
    }
    while rest != 0
        invariant
            places <= 6,
            rest < pow10(places as nat),
            places > 0 ==> weight == pow10((places - 1) as nat),
            out@ + fraction_text(rest as nat, places as nat) == old(out)@ + fraction_text(
                f as nat,
                6,
            ),
        decreases places,
    {
        proof {
            lemma_pow10_values();
            lemma_pow10_positive((places - 1) as nat);
            lemma_mod_bound(rest as int, weight as int);
            assert(rest / weight < 10) by (nonlinear_arith)
                requires
                    weight > 0,
                    rest < 10 * weight,
            ;
        }
        let ghost before = out@;
        let d: u8 = (rest / weight) as u8;
        out.push(ZERO + d);
        proof {
            let tail = fraction_text((rest % weight) as nat, (places - 1) as nat);
            assert(out@ + tail =~= before + fraction_text(rest as nat, places as nat));
        }
        rest = rest % weight;
        weight = weight / 10;
        places = places - 1;
    }
    assert(out@ + Seq::<u8>::empty() =~= out@);
}

/// The numeral for `v`: the shortest that reads back as `v`.
pub fn format_decimal(v: Fixed) -> (text: Vec<u8>)
    ensures
        text@ == decimal_text(v@),
{
    let mut text: Vec<u8> = Vec::new();
    let m: u64 = if v.micros < 0 {
        text.push(MINUS);
        (-(v.micros + 1)) as u64 + 1
    } else {
        v.micros as u64
    };
    let ghost sign = text@;
    push_digits(&mut text, m / 1_000_000);
    if m % 1_000_000 != 0 {
        text.push(POINT);
        push_fraction(&mut text, m % 1_000_000);
        assert(text@ =~= sign + magnitude_text(m as nat));
    }
    assert(text@ =~= decimal_text(v@));
    text
}

} // verus!
