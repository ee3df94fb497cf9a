//! What the reading of amounts amounts to: the digits that are kept and the
//! digit that decides the rounding give the whole number nearest to the
//! number written.
use crate::money::{
    all_digits, digit_value, digits_before, digits_value, exponent_of, fraction_part, is_decimal,
    is_digit, magnitude_at, point_shift, rounds_up, scaled_magnitude, whole_part, written_digits,
};
use vstd::prelude::*;

verus! {

/// Both parts of a row of digits are rows of digits.
pub proof fn lemma_digits_split(s: Seq<char>, at: int)
    requires
        0 <= at <= s.len(),
        all_digits(s),
    ensures
        all_digits(s.take(at)),
        all_digits(s.skip(at)),
{
    assert forall|i: int| 0 <= i < s.take(at).len() implies is_digit(#[trigger] s.take(at)[i]) by {
        assert(s.take(at)[i] == s[i]);
    }
    assert forall|i: int| 0 <= i < s.skip(at).len() implies is_digit(#[trigger] s.skip(at)[i]) by {
        assert(s.skip(at)[i] == s[i + at]);
    }
}

/// Ten to the power of `k`.
pub open spec fn pow10(k: nat) -> nat
    decreases k,
{
    if k == 0 {
        1
    } else {
        10 * pow10((k - 1) as nat)
    }
}

/// Powers of ten multiply by adding their exponents.
pub proof fn lemma_pow10_adds(a: nat, b: nat)
    ensures
        pow10(a + b) == pow10(a) * pow10(b),
        pow10(a) >= 1,
    decreases a,
{
    if a == 0 {
        assert(pow10(0 + b) == 1 * pow10(b));
    } else {
        lemma_pow10_adds((a - 1) as nat, b);
        assert(pow10(a + b) == 10 * pow10((a + b - 1) as nat));
        assert(10 * (pow10((a - 1) as nat) * pow10(b)) == (10 * pow10((a - 1) as nat)) * pow10(b))
            by (nonlinear_arith);
    }
}

/// A greater exponent gives a power of ten that is no less.
pub proof fn lemma_pow10_grows(a: nat, b: nat)
    ensures
        a <= b ==> pow10(a) <= pow10(b),
        pow10(a) >= 1,
    decreases b,
{
    lemma_pow10_adds(a, 0);
    if a < b {
        lemma_pow10_grows(a, (b - 1) as nat);
    }
}

/// Ten to the power of 19 is more than an `i64` holds.
pub proof fn lemma_pow10_19()
    ensures
        pow10(19) == 10_000_000_000_000_000_000,
        pow10(19) > i64::MAX,
{
    reveal_with_fuel(pow10, 20);
}

/// Digits written behind digits: the value of the front moves left by the
/// length of the back.
pub proof fn lemma_digits_value_concat(a: Seq<char>, b: Seq<char>)
    ensures
        digits_value(a + b) == digits_value(a) * pow10(b.len()) + digits_value(b),
    decreases b.len(),
{
    let va = digits_value(a);
    if b.len() == 0 {
        assert(a + b =~= a);
        assert(pow10(0) == 1);
        assert(digits_value(b) == 0);
        assert(va * 1 == va) by (nonlinear_arith);
    } else {
        let front = b.drop_last();
        let d = digit_value(b.last());
        assert((a + b).drop_last() =~= a + front);
        assert((a + b).last() == b.last());
        lemma_digits_value_concat(a, front);
        let p = pow10(front.len());
        let vf = digits_value(front);
        assert(pow10(b.len()) == 10 * p);
        assert(digits_value(a + front) == va * p + vf);
        assert(digits_value(a + b) == digits_value(a + front) * 10 + d);
        assert(digits_value(b) == vf * 10 + d);
        assert((va * p + vf) * 10 + d == va * (10 * p) + (vf * 10 + d)) by (nonlinear_arith);
    }
}

/// A row of digits writes a number below ten to the power of its length.
pub proof fn lemma_digits_value_bound(s: Seq<char>)
    requires
        all_digits(s),
    ensures
        digits_value(s) < pow10(s.len()),
    decreases s.len(),
{
    if s.len() > 0 {
        let front = s.drop_last();
        assert forall|i: int| 0 <= i < front.len() implies is_digit(#[trigger] front[i]) by {
            assert(front[i] == s[i]);
        }
        lemma_digits_value_bound(front);
        assert(is_digit(s[s.len() - 1]));
    }
}

/// Zeros write zero.
pub proof fn lemma_zeros_value(n: nat)
    ensures
        digits_value(Seq::new(n, |i: int| '0')) == 0,
    decreases n,
{
    if n > 0 {
        let zeros = Seq::new(n, |i: int| '0');
        assert(zeros.drop_last() =~= Seq::new((n - 1) as nat, |i: int| '0'));
        lemma_zeros_value((n - 1) as nat);
    }
}

/// Zeros behind digits multiply by a power of ten.
pub proof fn lemma_zeros_behind(digits: Seq<char>, n: nat)
    ensures
        digits_value(digits + Seq::new(n, |i: int| '0')) == digits_value(digits) * pow10(n),
{
    lemma_digits_value_concat(digits, Seq::new(n, |i: int| '0'));
    lemma_zeros_value(n);
}

/// The first digit decides on which side of the half a row of digits lies:
/// twice its value reaches ten to the power of its length exactly when the
/// first digit is five or more.
pub proof fn lemma_half_by_first_digit(s: Seq<char>)
    requires
        all_digits(s),
        s.len() > 0,
    ensures
        digit_value(s[0]) >= 5 <==> 2 * digits_value(s) >= pow10(s.len()),
{
    let head = seq![s[0]];
    let tail = s.skip(1);
    assert(s =~= head + tail);
    lemma_digits_value_concat(head, tail);
    assert(head.drop_last() =~= Seq::<char>::empty());
    assert(digits_value(Seq::<char>::empty()) == 0);
    assert(head.last() == s[0]);
    assert(digits_value(head) == digits_value(head.drop_last()) * 10 + digit_value(head.last()));
    assert(digits_value(head) == digit_value(s[0]));
    assert forall|i: int| 0 <= i < tail.len() implies is_digit(#[trigger] tail[i]) by {
        assert(tail[i] == s[i + 1]);
    }
    lemma_digits_value_bound(tail);
    lemma_pow10_adds(tail.len(), 0);
    let q = pow10(tail.len());
    let d = digit_value(s[0]);
    let r = digits_value(tail);
    assert(pow10(s.len()) == 10 * q);
    assert(is_digit(s[0]));
    if d >= 5 {
        assert(2 * (d * q + r) >= 10 * q) by (nonlinear_arith)
            requires
                d >= 5,
                q >= 1,
                r >= 0,
        ;
    } else {
        assert(2 * (d * q + r) < 10 * q) by (nonlinear_arith)
            requires
                0 <= d <= 4,
                q >= 1,
                0 <= r < q,
        ;
    }
}

/// Rounding law on digits: with `before` digits before the point, the
/// magnitude is the whole number nearest to what the digits write. Where the
/// point stands behind all digits, it is the digits with zeros behind them;
/// where `j` digits stand behind the point, it lies no more than half a unit
/// from the number that the digits write, divided by ten to the power of
/// `j`, and a half is rounded up.
pub proof fn lemma_magnitude_is_nearest(digits: Seq<char>, before: int)
    requires
        all_digits(digits),
    ensures
        ({
            let n = digits_value(digits);
            let m = magnitude_at(digits, before);
            let j = digits.len() - before;
            &&& j <= 0 ==> m == n * pow10((-j) as nat)
            &&& j > 0 ==> 2 * m * pow10(j as nat) - pow10(j as nat) <= 2 * n < 2 * m * pow10(
                j as nat,
            ) + pow10(j as nat)
        }),
{
    let n = digits_value(digits);
    let m = magnitude_at(digits, before);
    let j = digits.len() - before;
    if j <= 0 {
        if before <= 0 {
            assert(digits.len() == 0);
            assert(pow10(0) == 1);
            assert(n * 1 == n) by (nonlinear_arith);
        } else if before == digits.len() {
            assert(digits.take(before) =~= digits);
            assert(pow10(0) == 1);
            assert(n * 1 == n) by (nonlinear_arith);
        } else {
            lemma_zeros_behind(digits, (-j) as nat);
        }
    } else {
        let p = pow10(j as nat);
        lemma_pow10_adds(j as nat, 0);
        if before < 0 {
            lemma_digits_value_bound(digits);
            lemma_pow10_grows(digits.len(), (j - 1) as nat);
            assert(m == 0);
            assert(p == 10 * pow10((j - 1) as nat));
            assert(2 * 0 * p - p <= 2 * n && 2 * n < 2 * 0 * p + p) by (nonlinear_arith)
                requires
                    n < pow10((j - 1) as nat),
                    p == 10 * pow10((j - 1) as nat),
                    n >= 0,
            ;
        } else {
            let kept = digits.take(before);
            let rest = digits.skip(before);
            assert(digits =~= kept + rest);
            lemma_digits_value_concat(kept, rest);
            lemma_digits_split(digits, before);
            lemma_digits_value_bound(rest);
            lemma_half_by_first_digit(rest);
            assert(rest[0] == digits[before]);
            let base = digits_value(kept);
            let r = digits_value(rest);
            if before == 0 {
                assert(kept =~= Seq::<char>::empty());
                assert(digits_before(digits, before) =~= Seq::<char>::empty());
            }
            assert(digits_value(digits_before(digits, before)) == base);
            assert(n == base * p + r);
            if rounds_up(digits, before) {
                assert(m == base + 1);
                assert(2 * (base + 1) * p - p <= 2 * (base * p + r) && 2 * (base * p + r) < 2 * (
                base + 1) * p + p) by (nonlinear_arith)
                    requires
                        2 * r >= p,
                        0 <= r < p,
                        base >= 0,
                ;
            } else {
                assert(m == base);
                assert(2 * base * p - p <= 2 * (base * p + r) && 2 * (base * p + r) < 2 * base * p
                    + p) by (nonlinear_arith)
                    requires
                        2 * r < p,
                        0 <= r,
                        p >= 1,
                        base >= 0,
                ;
            }
        }
    }
}

/// Rounding law: the amount in minor units is the whole number nearest to
/// the number written, times ten to the power of the places, a half rounded
/// up. With `n` the number that the digits write when the point is left
/// out, `f` the digits behind the point and `e` the exponent, the number
/// written is `n * 10^(e - f)`, and so, with `k = places + e - f`, the
/// amount is `n * 10^k` exactly where `k` is not negative, and lies no more
/// than half a unit from `n / 10^-k` where it is.
pub proof fn lemma_scaled_is_nearest(s: Seq<char>, places: nat)
    requires
        is_decimal(s),
    ensures
        ({
            let n = digits_value(written_digits(s));
            let m = scaled_magnitude(s, places);
            let k = places + exponent_of(s) - fraction_part(s).len();
            &&& k >= 0 ==> m == n * pow10(k as nat)
            &&& k < 0 ==> 2 * m * pow10((-k) as nat) - pow10((-k) as nat) <= 2 * n < 2 * m * pow10(
                (-k) as nat,
            ) + pow10((-k) as nat)
        }),
{
    let digits = written_digits(s);
    assert forall|i: int| 0 <= i < digits.len() implies is_digit(#[trigger] digits[i]) by {
        if i < whole_part(s).len() {
            assert(digits[i] == whole_part(s)[i]);
        } else {
            assert(digits[i] == fraction_part(s)[i - whole_part(s).len()]);
        }
    }
    lemma_magnitude_is_nearest(digits, point_shift(s, places));
}

} // verus!
