//! Amounts of money: decimal text to whole minor units.
//!
//! A decimal number is an optional sign, digits with at most one point
//! among them, and, if wanted, an exponent of ten behind an `e`. Its amount
//! in minor units is found on the digits themselves: the point moves by the
//! number of places and by the exponent, and the first digit that falls
//! behind it decides whether the last unit is rounded up. No binary fraction
//! is involved, so `0.1` is one tenth exactly.
use crate::error::{ParseError, ParseErrorView, ParseField};
use crate::text::{chars_of, remove_chars, trim, trimmed, without_chars};
use vstd::prelude::*;

verus! {

/// Satoshis in one bitcoin: eight decimal places.
pub const BTC_PLACES: usize = 8;

/// Cents in one dollar: two decimal places.
pub const USD_PLACES: usize = 2;

/// `c` is a decimal digit.
pub open spec fn is_digit(c: char) -> bool {
    '0' <= c <= '9'
}

/// The number that the digit `c` stands for.
pub open spec fn digit_value(c: char) -> nat {
    (c as int - 48) as nat
}

/// Every character of `s` is a decimal digit.
pub open spec fn all_digits(s: Seq<char>) -> bool {
    forall|i: int| 0 <= i < s.len() ==> is_digit(#[trigger] s[i])
}

/// The number that a row of digits writes; nothing writes zero.
pub open spec fn digits_value(s: Seq<char>) -> nat
    decreases s.len(),
{
    if s.len() == 0 {
        0
    } else {
        digits_value(s.drop_last()) * 10 + digit_value(s.last())
    }
}

/// `s` without the sign that may stand first.
pub open spec fn unsigned_part(s: Seq<char>) -> Seq<char> {
    if s.len() > 0 && (s[0] == '+' || s[0] == '-') {
        s.skip(1)
    } else {
        s
    }
}

/// Where the first character of `s` stands that is `a` or `b`; the length
/// of `s` if it has none.
pub open spec fn mark_index(s: Seq<char>, a: char, b: char) -> int
    decreases s.len(),
{
    if s.len() == 0 {
        0
    } else if s[0] == a || s[0] == b {
        0
    } else {
        1 + mark_index(s.skip(1), a, b)
    }
}

/// What stands before the exponent: the text behind the sign, up to the
/// first `e` or `E`.
pub open spec fn mantissa(s: Seq<char>) -> Seq<char> {
    let body = unsigned_part(s);
    body.take(mark_index(body, 'e', 'E'))
}

/// What stands behind the first `e` or `E`, if there is one.
pub open spec fn exponent_text(s: Seq<char>) -> Option<Seq<char>> {
    let body = unsigned_part(s);
    let at = mark_index(body, 'e', 'E');
    if at < body.len() {
        Some(body.skip(at + 1))
    } else {
        None
    }
}

/// The digits before the point.
pub open spec fn whole_part(s: Seq<char>) -> Seq<char> {
    let m = mantissa(s);
    m.take(mark_index(m, '.', '.'))
}

/// The digits behind the point; none where there is no point.
pub open spec fn fraction_part(s: Seq<char>) -> Seq<char> {
    let m = mantissa(s);
    let p = mark_index(m, '.', '.');
    if p < m.len() {
        m.skip(p + 1)
    } else {
        Seq::empty()
    }
}

/// The digits of the number, the point left out.
pub open spec fn written_digits(s: Seq<char>) -> Seq<char> {
    whole_part(s) + fraction_part(s)
}

/// `t` is an exponent: an optional sign and at least one digit.
pub open spec fn is_exponent(t: Seq<char>) -> bool {
    unsigned_part(t).len() > 0 && all_digits(unsigned_part(t))
}

/// The number that an exponent writes.
pub open spec fn exponent_value(t: Seq<char>) -> int {
    if t.len() > 0 && t[0] == '-' {
        -(digits_value(unsigned_part(t)) as int)
    } else {
        digits_value(unsigned_part(t)) as int
    }
}

/// The exponent of ten by which the number is scaled; 0 where none is
/// written.
pub open spec fn exponent_of(s: Seq<char>) -> int {
    match exponent_text(s) {
        Some(t) => exponent_value(t),
        None => 0,
    }
}

/// `s` is a decimal number: an optional sign, then digits with at most one
/// point among them and at least one digit, then, if wanted, `e` or `E` and
/// an exponent.
pub open spec fn is_decimal(s: Seq<char>) -> bool {
    &&& all_digits(whole_part(s))
    &&& all_digits(fraction_part(s))
    &&& whole_part(s).len() + fraction_part(s).len() > 0
    &&& exponent_text(s) matches Some(t) ==> is_exponent(t)
}

/// How many digits stand before the point once it has moved by `places`
/// and by the exponent; negative where it has moved before the first digit.
pub open spec fn point_shift(s: Seq<char>, places: nat) -> int {
    whole_part(s).len() + places + exponent_of(s)
}

/// The digits that stand before the point when `before` digits do: the
/// first digits of `digits`, with zeros behind them where `digits` has too
/// few, and none where the point stands before the first.
pub open spec fn digits_before(digits: Seq<char>, before: int) -> Seq<char> {
    if before <= 0 {
        Seq::empty()
    } else if before <= digits.len() {
        digits.take(before)
    } else {
        digits + Seq::new((before - digits.len()) as nat, |i: int| '0')
    }
}

/// Whether the digits behind the point make half a unit or more: the first
/// of them is five or more.
pub open spec fn rounds_up(digits: Seq<char>, before: int) -> bool {
    0 <= before < digits.len() && digit_value(digits[before]) >= 5
}

/// The whole number nearest to what `digits` write with `before` of them
/// before the point, a half rounded up.
pub open spec fn magnitude_at(digits: Seq<char>, before: int) -> nat {
    if rounds_up(digits, before) {
        digits_value(digits_before(digits, before)) + 1
    } else {
        digits_value(digits_before(digits, before))
    }
}

/// The size of the decimal number `s` in units of `10^-places`, rounded to
/// the nearest whole unit, a half rounded up. The sign does not count.
pub open spec fn scaled_magnitude(s: Seq<char>, places: nat) -> nat {
    magnitude_at(written_digits(s), point_shift(s, places))
}

/// `v`, or `i64::MAX` where `v` is larger.
pub open spec fn capped(v: nat) -> nat {
    if v > i64::MAX {
        i64::MAX as nat
    } else {
        v
    }
}

/// What an amount in minor units is, as far as an `i64` holds it: the
/// magnitude, or `i64::MAX` where the magnitude is larger.
pub open spec fn minor_units(s: Seq<char>, places: nat) -> int {
    capped(scaled_magnitude(s, places)) as int
}

/// The satoshis that the text `s` stands for, if it is a decimal number.
pub open spec fn btc_to_sats_spec(s: Seq<char>) -> Option<int> {
    if is_decimal(s) {
        Some(minor_units(s, BTC_PLACES as nat))
    } else {
        None
    }
}

/// A dollar amount as it is read: without white space around it, and without
/// dollar signs and commas.
pub open spec fn usd_cleaned(s: Seq<char>) -> Seq<char> {
    without_chars(trimmed(s), '$', ',')
}

/// The cents that the text `s` stands for: zero where it is blank, else the
/// amount of the cleaned text if that is a decimal number.
pub open spec fn usd_to_cents_spec(s: Seq<char>) -> Option<int> {
    if trimmed(s).len() == 0 {
        Some(0)
    } else if is_decimal(usd_cleaned(s)) {
        Some(minor_units(usd_cleaned(s), USD_PLACES as nat))
    } else {
        None
    }
}

/// The first mark of `s` stands at `j` if no mark stands before `j` and
/// either `s` ends at `j` or a mark stands there.
pub proof fn lemma_mark_index(s: Seq<char>, a: char, b: char, j: int)
    requires
        0 <= j <= s.len(),
        forall|k: int| 0 <= k < j ==> s[k] != a && s[k] != b,
        j == s.len() || s[j] == a || s[j] == b,
    ensures
        mark_index(s, a, b) == j,
    decreases j,
{
    if j == 0 {
    } else {
        let rest = s.skip(1);
        assert forall|k: int| 0 <= k < j - 1 implies rest[k] != a && rest[k] != b by {
            assert(rest[k] == s[k + 1]);
        }
        lemma_mark_index(rest, a, b, j - 1);
    }
}

/// Whether `c` is a decimal digit.
pub fn char_is_digit(c: char) -> (r: bool)
    ensures
        r == is_digit(c),
{
    '0' <= c && c <= '9'
}

/// Where the first `a` or `b` stands from `from` up to `to`; `to` if none
/// does.
fn find_mark(s: &Vec<char>, from: usize, to: usize, a: char, b: char) -> (at: usize)
    requires
        from <= to <= s.len(),
    ensures
        from <= at <= to,
        at - from == mark_index(s@.subrange(from as int, to as int), a, b),
        at < to ==> s@[at as int] == a || s@[at as int] == b,
{
    let mut at: usize = from;
    while at < to && s[at] != a && s[at] != b
        invariant
            from <= at <= to <= s.len(),
            forall|k: int| from <= k < at ==> s@[k] != a && s@[k] != b,
        decreases to - at,
    {
        at += 1;
    }
    proof {
        let part = s@.subrange(from as int, to as int);
        assert forall|k: int| 0 <= k < at - from implies part[k] != a && part[k] != b by {
            assert(part[k] == s@[from + k]);
        }
        lemma_mark_index(part, a, b, at - from);
    }
    at
}

/// Whether the characters from `from` up to `to` are digits.
fn digits_in(s: &Vec<char>, from: usize, to: usize) -> (r: bool)
    requires
        from <= to <= s.len(),
    ensures
        r == all_digits(s@.subrange(from as int, to as int)),
{
    let ghost part = s@.subrange(from as int, to as int);
    let mut i: usize = from;
    while i < to
        invariant
            from <= i <= to <= s.len(),
            part == s@.subrange(from as int, to as int),
            forall|k: int| 0 <= k < i - from ==> is_digit(#[trigger] part[k]),
        decreases to - i,
    {
        assert(part[i - from] == s@[i as int]);
        if !char_is_digit(s[i]) {
            return false;
        }
        i += 1;
    }
    true
}

/// `v`, or `cap` where `v` is larger.
pub open spec fn capped_at(v: nat, cap: nat) -> nat {
    if v > cap {
        cap
    } else {
        v
    }
}

/// One more digit behind a number that is held up to `cap`.
fn push_digit(acc: u128, c: char, cap: u128, Ghost(v): Ghost<nat>) -> (r: u128)
    requires
        acc == capped_at(v, cap as nat),
        cap <= 0x1_0000_0000_0000_0000_0000,
        is_digit(c),
    ensures
        r == capped_at(v * 10 + digit_value(c), cap as nat),
{
    let d: u128 = (c as u32 - 48) as u128;
    let wide: u128 = acc * 10 + d;
    if wide > cap {
        cap
    } else {
        wide
    }
}

/// Reads the digits of `s` from `from` up to `to` behind the digits already
/// read, the number held up to `cap`.
fn read_digits(
    s: &Vec<char>,
    from: usize,
    to: usize,
    acc: u128,
    cap: u128,
    Ghost(before): Ghost<Seq<char>>,
) -> (r: u128)
    requires
        from <= to <= s.len(),
        all_digits(s@.subrange(from as int, to as int)),
        acc == capped_at(digits_value(before), cap as nat),
        cap <= 0x1_0000_0000_0000_0000_0000,
    ensures
        r == capped_at(digits_value(before + s@.subrange(from as int, to as int)), cap as nat),
{
    let mut acc = acc;
    let mut i: usize = from;
    let ghost part = s@.subrange(from as int, to as int);
    let ghost mut seen = before;
    assert(before + part.take(0) =~= before);
    while i < to
        invariant
            from <= i <= to <= s.len(),
            part == s@.subrange(from as int, to as int),
            all_digits(part),
            cap <= 0x1_0000_0000_0000_0000_0000,
            seen == before + part.take(i - from),
            acc == capped_at(digits_value(seen), cap as nat),
        decreases to - i,
    {
        let c = s[i];
        assert(part[i - from] == c);
        let ghost next = seen.push(c);
        proof {
            assert(next.drop_last() =~= seen);
            assert(next.last() == c);
            assert(digits_value(next) == digits_value(seen) * 10 + digit_value(c));
            assert(next =~= before + part.take(i + 1 - from));
        }
        acc = push_digit(acc, c, cap, Ghost(digits_value(seen)));
        proof {
            seen = next;
        }
        i += 1;
    }
    assert(part.take(to - from) =~= part);
    acc
}

/// Writes `count` zeros behind the digits already read.
fn read_zeros(acc: u128, count: usize, cap: u128, Ghost(before): Ghost<Seq<char>>) -> (r: u128)
    requires
        acc == capped_at(digits_value(before), cap as nat),
        cap <= 0x1_0000_0000_0000_0000_0000,
    ensures
        r == capped_at(
            digits_value(before + Seq::new(count as nat, |i: int| '0')),
            cap as nat,
        ),
{
    let mut acc = acc;
    let mut z: usize = 0;
    let ghost mut seen = before;
    assert(before + Seq::new(0 as nat, |i: int| '0') =~= before);
    while z < count
        invariant
            z <= count,
            cap <= 0x1_0000_0000_0000_0000_0000,
            seen == before + Seq::new(z as nat, |i: int| '0'),
            acc == capped_at(digits_value(seen), cap as nat),
        decreases count - z,
    {
        let ghost next = seen.push('0');
        proof {
            assert(next.drop_last() =~= seen);
            assert(next.last() == '0');
            assert(digits_value(next) == digits_value(seen) * 10 + digit_value('0'));
            assert(next =~= before + Seq::new((z + 1) as nat, |i: int| '0'));
        }
        acc = push_digit(acc, '0', cap, Ghost(digits_value(seen)));
        proof {
            seen = next;
        }
        z += 1;
    }
    acc
}

/// The greatest size of an exponent that is told apart: beyond it the
/// point stands before all digits or behind more zeros than an `i64` holds.
pub const EXPONENT_CAP: u128 = 0x40_0000_0000_0000_0000;

/// The exponent as far as it is told apart.
pub open spec fn clamped_exponent(v: int) -> int {
    if v > 0x40_0000_0000_0000_0000 {
        0x40_0000_0000_0000_0000
    } else if v < -0x40_0000_0000_0000_0000 {
        -0x40_0000_0000_0000_0000
    } else {
        v
    }
}

/// Reads the exponent that stands from `from` up to `to`. `None` where the
/// text there is no exponent.
fn read_exponent(s: &Vec<char>, from: usize, to: usize) -> (r: Option<i128>)
    requires
        from <= to <= s.len(),
    ensures
        r is Some <==> is_exponent(s@.subrange(from as int, to as int)),
        r matches Some(v) ==> v == clamped_exponent(
            exponent_value(s@.subrange(from as int, to as int)),
        ),
{
    let ghost t = s@.subrange(from as int, to as int);
    let signed = from < to && (s[from] == '+' || s[from] == '-');
    let negative = from < to && s[from] == '-';
    let first: usize = if signed {
        from + 1
    } else {
        from
    };
    proof {
        if from < to {
            assert(t[0] == s@[from as int]);
        }
        assert(unsigned_part(t) =~= s@.subrange(first as int, to as int));
    }
    if first == to || !digits_in(s, first, to) {
        return None;
    }
    assert(digits_value(Seq::<char>::empty()) == 0);
    assert(Seq::<char>::empty() + s@.subrange(first as int, to as int) =~= s@.subrange(
        first as int,
        to as int,
    ));
    let size = read_digits(s, first, to, 0, EXPONENT_CAP, Ghost(Seq::empty()));
    if negative {
        Some(-(size as i128))
    } else {
        Some(size as i128)
    }
}

/// Where the parts of a decimal number stand in `s`.
struct Parts {
    /// Where the whole part begins.
    start: usize,
    /// Where the whole part ends.
    point: usize,
    /// Where the fraction begins.
    fraction: usize,
    /// Where the fraction ends; the exponent, if there is one, begins one
    /// behind.
    end: usize,
}

/// Finds the parts of a decimal number.
fn locate_parts(s: &Vec<char>) -> (at: Parts)
    ensures
        at.start <= at.point <= at.fraction <= at.end <= s.len(),
        whole_part(s@) == s@.subrange(at.start as int, at.point as int),
        fraction_part(s@) == s@.subrange(at.fraction as int, at.end as int),
        at.end < s.len() ==> exponent_text(s@) == Some(
            s@.subrange(at.end + 1, s.len() as int),
        ),
        at.end == s.len() ==> exponent_text(s@) is None,
{
    let n = s.len();
    let start: usize = if n > 0 && (s[0] == '+' || s[0] == '-') {
        1
    } else {
        0
    };
    let ghost body = unsigned_part(s@);
    assert(body =~= s@.subrange(start as int, n as int));
    let end = find_mark(s, start, n, 'e', 'E');
    let ghost m = mantissa(s@);
    assert(m =~= s@.subrange(start as int, end as int));
    let point = find_mark(s, start, end, '.', '.');
    let fraction: usize = if point < end {
        point + 1
    } else {
        end
    };
    assert(whole_part(s@) =~= s@.subrange(start as int, point as int));
    assert(fraction_part(s@) =~= s@.subrange(fraction as int, end as int));
    if end < n {
        assert(body.skip(end - start + 1) =~= s@.subrange(end + 1, n as int));
    }
    Parts { start, point, fraction, end }
}

/// Reads the first `count` of the digits that stand from `a` up to `b` and
/// from `c` up to `d`.
fn read_first_digits(s: &Vec<char>, a: usize, b: usize, c: usize, d: usize, count: usize) -> (r:
    u128)
    requires
        a <= b <= c <= d <= s.len(),
        count <= (b - a) + (d - c),
        all_digits(s@.subrange(a as int, b as int)),
        all_digits(s@.subrange(c as int, d as int)),
    ensures
        r == capped(
            digits_value(
                (s@.subrange(a as int, b as int) + s@.subrange(c as int, d as int)).take(
                    count as int,
                ),
            ),
        ),
{
    let ghost whole = s@.subrange(a as int, b as int);
    let ghost fraction = s@.subrange(c as int, d as int);
    let cap: u128 = 9223372036854775807;
    proof {
        assert(digits_value(Seq::<char>::empty()) == 0);
    }
    if count <= b - a {
        proof {
            assert((whole + fraction).take(count as int) =~= s@.subrange(a as int, a + count));
            assert(Seq::<char>::empty() + s@.subrange(a as int, a + count) =~= s@.subrange(
                a as int,
                a + count,
            ));
            crate::money_laws::lemma_digits_split(whole, count as int);
            assert(whole.take(count as int) =~= s@.subrange(a as int, a + count));
        }
        read_digits(s, a, a + count, 0, cap, Ghost(Seq::empty()))
    } else {
        let more: usize = count - (b - a);
        proof {
            assert(Seq::<char>::empty() + whole =~= whole);
            assert((whole + fraction).take(count as int) =~= whole + s@.subrange(
                c as int,
                c + more,
            ));
            crate::money_laws::lemma_digits_split(fraction, more as int);
            assert(fraction.take(more as int) =~= s@.subrange(c as int, c + more));
        }
        let acc = read_digits(s, a, b, 0, cap, Ghost(Seq::empty()));
        read_digits(s, c, c + more, acc, cap, Ghost(whole))
    }
}

/// The digit at position `at` among the digits that stand from `a` up to
/// `b` and from `c` up to `d`.
fn digit_at(s: &Vec<char>, a: usize, b: usize, c: usize, d: usize, at: usize) -> (r: char)
    requires
        a <= b <= c <= d <= s.len(),
        at < (b - a) + (d - c),
    ensures
        r == (s@.subrange(a as int, b as int) + s@.subrange(c as int, d as int))[at as int],
{
    if at < b - a {
        s[a + at]
    } else {
        s[c + (at - (b - a))]
    }
}

/// The amount that digits make with `before` of them before the point, as
/// far as an `i64` holds it. The digits stand from `a` up to `b` and from
/// `c` up to `d`. Where `before` lies far out, it may stand for a number
/// that lies farther out still.
fn scale(
    s: &Vec<char>,
    a: usize,
    b: usize,
    c: usize,
    d: usize,
    before: i128,
    Ghost(asked): Ghost<int>,
) -> (r: u64)
    requires
        a <= b <= c <= d <= s.len(),
        all_digits(s@.subrange(a as int, b as int)),
        all_digits(s@.subrange(c as int, d as int)),
        before == asked || (before > (b - a) + (d - c) + 19 && asked >= before) || (before < 0
            && asked <= before),
    ensures
        r == capped(
            magnitude_at(s@.subrange(a as int, b as int) + s@.subrange(c as int, d as int), asked),
        ),
{
    let ghost digits = s@.subrange(a as int, b as int) + s@.subrange(c as int, d as int);
    let count: usize = (b - a) + (d - c);
    let cap: u128 = 9223372036854775807;
    proof {
        assert(digits_value(Seq::<char>::empty()) == 0);
        assert forall|i: int| 0 <= i < digits.len() implies is_digit(#[trigger] digits[i]) by {
            if i < b - a {
                assert(digits[i] == s@.subrange(a as int, b as int)[i]);
            } else {
                assert(digits[i] == s@.subrange(c as int, d as int)[i - (b - a)]);
            }
        }
    }
    if before <= 0 {
        let up = before == 0 && count > 0 && (digit_at(s, a, b, c, d, 0) as u32 - 48) >= 5;
        if up {
            1
        } else {
            0
        }
    } else if before <= count as i128 {
        let kept: usize = before as usize;
        let acc = read_first_digits(s, a, b, c, d, kept);
        let up = kept < count && (digit_at(s, a, b, c, d, kept) as u32 - 48) >= 5;
        if up && acc < cap {
            (acc + 1) as u64
        } else {
            acc as u64
        }
    } else {
        let acc = read_first_digits(s, a, b, c, d, count);
        let zeros: i128 = before - count as i128;
        proof {
            assert(digits.take(count as int) =~= digits);
            crate::money_laws::lemma_zeros_behind(digits, (asked - count) as nat);
            crate::money_laws::lemma_pow10_grows(19, (asked - count) as nat);
            crate::money_laws::lemma_pow10_19();
            if acc != 0 && zeros > 19 {
                let p = crate::money_laws::pow10((asked - count) as nat);
                assert(digits_value(digits) * p >= p) by (nonlinear_arith)
                    requires
                        digits_value(digits) >= 1,
                        p >= 0,
                ;
            }
            if acc == 0 {
                assert(digits_value(digits) * crate::money_laws::pow10((asked - count) as nat) == 0)
                    by (nonlinear_arith)
                    requires
                        digits_value(digits) == 0,
                ;
            }
        }
        if acc == 0 {
            0
        } else if zeros > 19 {
            9223372036854775807
        } else {
            read_zeros(acc, zeros as usize, cap, Ghost(digits)) as u64
        }
    }
}

/// Reads a decimal number and gives its size in units of `10^-places`:
/// `None` exactly where the text is no decimal number.
pub fn parse_scaled(s: &Vec<char>, places: usize) -> (r: Option<i64>)
    ensures
        r is Some <==> is_decimal(s@),
        r matches Some(v) ==> v == minor_units(s@, places as nat),
{
    let n = s.len();
    let at = locate_parts(s);
    if !digits_in(s, at.start, at.point) || !digits_in(s, at.fraction, at.end) {
        return None;
    }
    if (at.point - at.start) + (at.end - at.fraction) == 0 {
        return None;
    }
    let exponent: i128 = if at.end < n {
        match read_exponent(s, at.end + 1, n) {
            Some(e) => e,
            None => { return None; },
        }
    } else {
        0
    };
    let before: i128 = (at.point - at.start) as i128 + places as i128 + exponent;
    let amount = scale(
        s,
        at.start,
        at.point,
        at.fraction,
        at.end,
        before,
        Ghost(point_shift(s@, places as nat)),
    );
    Some(amount as i64)
}

/// Satoshis from a decimal quantity of bitcoin: the quantity times
/// 100,000,000, rounded to the nearest whole number, without its sign.
pub fn btc_to_sats(btc_str: &str) -> (r: Result<i64, ParseError>)
    ensures
        match r {
            Ok(sats) => btc_to_sats_spec(btc_str@) == Some(sats as int),
            Err(e) => btc_to_sats_spec(btc_str@) is None && e@ == (ParseErrorView {
                field: ParseField::BtcAmount,
                value: btc_str@,
            }),
        },
{
    let chars = chars_of(btc_str);
    match parse_scaled(&chars, BTC_PLACES) {
        Some(sats) => Ok(sats),
        None => Err(ParseError::new(ParseField::BtcAmount, btc_str)),
    }
}

/// Cents from a dollar amount: blank text is zero; else white space around
/// it, dollar signs and commas are dropped, and the decimal number that is
/// left is taken times 100, rounded to the nearest whole number, without its
/// sign.
pub fn usd_to_cents(usd_str: &str) -> (r: Result<i64, ParseError>)
    ensures
        match r {
            Ok(cents) => usd_to_cents_spec(usd_str@) == Some(cents as int),
            Err(e) => usd_to_cents_spec(usd_str@) is None && e@ == (ParseErrorView {
                field: ParseField::UsdAmount,
                value: usd_str@,
            }),
        },
{
    let chars = chars_of(usd_str);
    let inner = trim(&chars);
    if inner.len() == 0 {
        return Ok(0);
    }
    let cleaned = remove_chars(&inner, '$', ',');
    match parse_scaled(&cleaned, USD_PLACES) {
        Some(cents) => Ok(cents),
        None => Err(ParseError::new(ParseField::UsdAmount, usd_str)),
    }
}

} // verus!
