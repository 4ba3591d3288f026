//! What the interfaces share: the codec between ratios and command values,
//! the selection of a channel, and decimal text.

use vstd::prelude::*;
use vstd::string::StringExecFns;
use crate::binary32::{
    exponent_field, fraction_field, in_smallest_units, in_unit_range, is_negative,
    lemma_assemble, lemma_round24, lemma_round24_exact, lemma_round_half_even,
    lemma_two_to_adds, lemma_two_to_increases, lemma_two_to_orders, product_truncated,
    quotient_of, round24, round_half_even, significand, truncated, two_to, unit_exponent,
    Binary32,
};
use crate::error::Error;

verus! {

/// Largest command value of the Sabertooth 2x32.
pub const RANGE_MAX: i32 = 2047;

/// Smallest command value of the Sabertooth 2x32.
pub const RANGE_MIN: i32 = -2047;

/// The character of a decimal digit.
pub open spec fn digit_char(d: nat) -> char
    recommends
        d < 10,
{
    if d == 0 {
        '0'
    } else if d == 1 {
        '1'
    } else if d == 2 {
        '2'
    } else if d == 3 {
        '3'
    } else if d == 4 {
        '4'
    } else if d == 5 {
        '5'
    } else if d == 6 {
        '6'
    } else if d == 7 {
        '7'
    } else if d == 8 {
        '8'
    } else {
        '9'
    }
}

/// The decimal numeral of `n`, without leading zeros.
pub open spec fn decimal(n: nat) -> Seq<char>
    decreases n,
{
    if n < 10 {
        seq![digit_char(n)]
    } else {
        decimal(n / 10).push(digit_char(n % 10))
    }
}

fn digit_text(d: u128) -> (s: &'static str)
    requires
        d < 10,
    ensures
        s@ == seq![digit_char(d as nat)],
{
    proof {
        reveal_strlit("0");
        reveal_strlit("1");
        reveal_strlit("2");
        reveal_strlit("3");
        reveal_strlit("4");
        reveal_strlit("5");
        reveal_strlit("6");
        reveal_strlit("7");
        reveal_strlit("8");
        reveal_strlit("9");
    }
    let s = match d {
        0 => "0",
        1 => "1",
        2 => "2",
        3 => "3",
        4 => "4",
        5 => "5",
        6 => "6",
        7 => "7",
        8 => "8",
        _ => "9",
    };
    assert(s@ =~= seq![digit_char(d as nat)]);
    s
}

/// Writes `n` in decimal.
pub fn decimal_string(n: u128) -> (s: String)
    ensures
        s@ == decimal(n as nat),
    decreases n,
{
    if n < 10 {
        digit_text(n).to_owned()
    } else {
        let s = decimal_string(n / 10).concat(digit_text(n % 10));
        assert(s@ =~= decimal(n as nat));
        s
    }
}

/// The decimal numeral of `value`, with a minus sign where it is negative.
pub open spec fn signed_decimal(value: int) -> Seq<char> {
    if value < 0 {
        seq!['-'] + decimal((-value) as nat)
    } else {
        decimal(value as nat)
    }
}

/// Writes `value` in decimal, with a minus sign where it is negative.
pub fn signed_decimal_string(value: i32) -> (s: String)
    ensures
        s@ == signed_decimal(value as int),
{
    let wide: i64 = value as i64;
    if wide < 0 {
        proof {
            reveal_strlit("-");
        }
        let s = "-".to_owned().concat(decimal_string((-wide) as u128).as_str());
        assert(s@ =~= signed_decimal(value as int));
        s
    } else {
        decimal_string(wide as u128)
    }
}

/// The description carried by the error for a channel that does not exist.
pub open spec fn channel_fault(channel: usize) -> Seq<char> {
    "channel should be 1 or 2 (was "@ + decimal(channel as nat) + ")"@
}

/// Whether `channel` names one of the two channels of the device.
pub open spec fn channel_exists(channel: usize) -> bool {
    channel == 1 || channel == 2
}

/// The ASCII digit that names `channel` in a command: `'1'` or `'2'`.
pub open spec fn channel_byte(channel: usize) -> u8 {
    if channel == 1 {
        0x31
    } else {
        0x32
    }
}

/// The ASCII digit that names `channel` in a command, for the two channels
/// that exist; any other channel is refused.
pub fn channel_digit(channel: usize) -> (r: Result<u8, Error>)
    ensures
        channel_exists(channel) ==> r == Ok::<u8, Error>(channel_byte(channel)),
        !channel_exists(channel) ==> (r matches Err(Error::InvalidInput(msg)) && msg@
            == channel_fault(channel)),
{
    if channel == 1 {
        Ok(0x31)
    } else if channel == 2 {
        Ok(0x32)
    } else {
        let msg = "channel should be 1 or 2 (was ".to_owned().concat(
            decimal_string(channel as u128).as_str(),
        ).concat(")");
        Err(Error::InvalidInput(msg))
    }
}

/// `value`, or the bound it lies beyond.
pub open spec fn clamped(value: int, low: int, high: int) -> int {
    if value > high {
        high
    } else if value < low {
        low
    } else {
        value
    }
}

/// The name of `channel` in a command, as text: `"1"` or `"2"`.
pub open spec fn channel_text(channel: usize) -> Seq<char> {
    if channel == 1 {
        "1"@
    } else {
        "2"@
    }
}

/// The text that names `channel` in a command, for the two channels that
/// exist; any other channel is refused.
pub fn channel_name(channel: usize) -> (r: Result<&'static str, Error>)
    ensures
        channel_exists(channel) ==> r is Ok && r->Ok_0@ == channel_text(channel),
        !channel_exists(channel) ==> (r matches Err(Error::InvalidInput(msg)) && msg@
            == channel_fault(channel)),
{
    match channel_digit(channel) {
        Ok(digit) => Ok(
            if digit == 0x31 {
                "1"
            } else {
                "2"
            },
        ),
        Err(e) => Err(e),
    }
}

/// The description carried by the error for a ratio beyond one.
pub open spec fn ratio_fault() -> Seq<char> {
    "value out of range -1.0~1.0"@
}

/// The command value of a ratio on a scale that ends at `range_max`: the
/// single-precision product of the two, its fraction dropped, kept within
/// the scale.
pub open spec fn ratio_on_scale(ratio: u32, range_min: int, range_max: int) -> int {
    clamped(product_truncated(ratio, quotient_of(range_max, 1)), range_min, range_max)
}

/// Maps a ratio between -1 and 1 onto the integers up to `range_max`, by
/// multiplying and dropping the fraction; the result is kept at or above
/// `range_min`. A ratio beyond one in magnitude, an infinity or a NaN is
/// refused.
pub fn ratio_to_value_range(ratio: Binary32, range_min: i32, range_max: i32) -> (r: Result<
    i32,
    Error,
>)
    ensures
        in_unit_range(ratio@) ==> r == Ok::<i32, Error>(
            ratio_on_scale(ratio@, range_min as int, range_max as int) as i32,
        ),
        !in_unit_range(ratio@) ==> (r matches Err(Error::InvalidInput(msg)) && msg@
            == ratio_fault()),
{
    if !ratio.within_unit() {
        return Err(Error::InvalidInput("value out of range -1.0~1.0".to_owned()));
    }
    let scale = Binary32::quotient(range_max, 1);
    let value = ratio.mul_to_i32(&scale);
    if value > range_max {
        Ok(range_max)
    } else if value < range_min {
        Ok(range_min)
    } else {
        Ok(value)
    }
}

/// Maps a ratio between -1 and 1 onto the command values -2047 to 2047: the
/// ratio is multiplied by 2047 in single precision and the fraction is
/// dropped. A ratio beyond one in magnitude, an infinity or a NaN is
/// refused.
pub fn ratio_to_value(ratio: Binary32) -> (r: Result<i32, Error>)
    ensures
        in_unit_range(ratio@) ==> r == Ok::<i32, Error>(
            ratio_on_scale(ratio@, RANGE_MIN as int, RANGE_MAX as int) as i32,
        ),
        !in_unit_range(ratio@) ==> (r matches Err(Error::InvalidInput(msg)) && msg@
            == ratio_fault()),
        r matches Ok(value) ==> RANGE_MIN <= value <= RANGE_MAX,
{
    ratio_to_value_range(ratio, RANGE_MIN, RANGE_MAX)
}

/// Maps a command value back to a ratio: `value / 2047` in single
/// precision.
pub fn value_to_ratio(value: i32) -> (ratio: Binary32)
    ensures
        ratio@ == quotient_of(value as int, RANGE_MAX as nat),
{
    Binary32::quotient(value, RANGE_MAX as u32)
}

/// The full scale, 2047, has the single-precision pattern 0x44ffe000.
pub proof fn lemma_full_scale_pattern()
    ensures
        quotient_of(RANGE_MAX as int, 1) == 0x44ff_e000u32,
{
    reveal_with_fuel(round24, 16);
    assert(round24(2047, 1) == (0xff_e000nat, -13int));
    assert(round24(0xff_e000, 1) == (0xff_e000nat, 0int));
}

/// Some powers of two.
proof fn lemma_powers()
    ensures
        two_to(0) == 1,
        two_to(1) == 2,
        two_to(9) == 0x200,
        two_to(10) == 0x400,
        two_to(11) == 0x800,
        two_to(12) == 0x1000,
        two_to(13) == 0x2000,
        two_to(23) == 0x80_0000,
        two_to(24) == 0x100_0000,
{
    reveal_with_fuel(two_to, 25);
}

/// The significand of the full scale: 2047 times 2^13.
pub const FULL_SCALE_SIGNIFICAND: u32 = 0xff_e000;

/// The magnitude of the command value of a ratio: the integer part of the
/// rounded product of the ratio and the full scale.
spec fn scaled_size(ratio: u32) -> nat {
    let r = round24(significand(ratio) * (FULL_SCALE_SIGNIFICAND as nat), 1);
    truncated(r.0, r.1 + unit_exponent(ratio) - 13)
}

/// How the command value of a ratio other than zero comes about: the
/// product of the significands lies in a binade at or above 2^23, the unit
/// of the rounded product is at most 2^-13, and its integer part is at most
/// 2047.
proof fn lemma_scaled_size(ratio: u32)
    requires
        in_unit_range(ratio),
        significand(ratio) > 0,
    ensures
        ({
            let e = unit_exponent(ratio);
            let p = significand(ratio) * (FULL_SCALE_SIGNIFICAND as nat);
            let r = round24(p, 1);
            let a = 13 - e - r.1;
            &&& r.1 >= 0
            &&& a >= 13
            &&& 0x80_0000 <= r.0 <= 0x100_0000
            &&& scaled_size(ratio) == r.0 / two_to(a as nat)
            &&& scaled_size(ratio) <= 2047
            &&& two_to(r.1 as nat) * two_to(a as nat) == 0x2000 * two_to((-e) as nat)
            &&& p <= 2047 * (two_to(r.1 as nat) * two_to(a as nat))
            &&& -(two_to(r.1 as nat) as int) <= 2 * (r.0 * two_to(r.1 as nat) - p) <= two_to(
                r.1 as nat,
            )
            &&& p >= two_to(r.1 as nat) * two_to(a as nat) ==> r.0 >= two_to(a as nat)
            &&& ratio_on_scale(ratio, RANGE_MIN as int, RANGE_MAX as int) == if is_negative(
                ratio,
            ) {
                -(scaled_size(ratio) as int)
            } else {
                scaled_size(ratio) as int
            }
        }),
{
    let m = significand(ratio);
    let e = unit_exponent(ratio);
    let p = m * (FULL_SCALE_SIGNIFICAND as nat);
    let r = round24(p, 1);
    let limit = two_to((-e) as nat);
    lemma_round24(p, 1);
    lemma_full_scale_pattern();
    lemma_powers();
    assert(p >= 0xff_e000 && p <= 0xff_e000 * limit) by (nonlinear_arith)
        requires
            p == m * 0xff_e000,
            1 <= m <= limit,
    ;
    if r.1 < 0 {
        let k = (-r.1) as nat;
        lemma_two_to_increases(1, k);
        assert(false) by (nonlinear_arith)
            requires
                p * two_to(k) < 0x100_0000 * 1,
                p >= 0xff_e000,
                two_to(k) >= 2,
        ;
    }
    let d = two_to(r.1 as nat);
    lemma_two_to_increases(0, r.1 as nat);
    assert(1 * d == d);
    // the unit of the product
    lemma_two_to_adds(r.1 as nat, 23);
    lemma_two_to_adds((-e) as nat, 24);
    assert(two_to((r.1 + 23) as nat) < two_to((24 - e) as nat)) by (nonlinear_arith)
        requires
            two_to((r.1 + 23) as nat) == d * 0x80_0000,
            two_to((24 - e) as nat) == limit * 0x100_0000,
            0x80_0000 * (1 * d) <= p,
            p <= 0xff_e000 * limit,
            limit > 0,
    ;
    lemma_two_to_orders((r.1 + 23) as nat, (24 - e) as nat);
    let a = 13 - e - r.1;
    assert(a >= 13);
    let ta = two_to(a as nat);
    lemma_two_to_adds(r.1 as nat, a as nat);
    lemma_two_to_adds(13, (-e) as nat);
    assert(d * ta == 0x2000 * limit);
    lemma_two_to_increases(13, a as nat);
    // the rounding
    assert(r.0 == round_half_even(p, 1 * d));
    lemma_round_half_even(p, d);
    assert(p <= 2047 * (d * ta)) by (nonlinear_arith)
        requires
            p <= 0xff_e000 * limit,
            d * ta == 0x2000 * limit,
    ;
    assert(r.0 <= 2047 * ta) by (nonlinear_arith)
        requires
            2 * (r.0 * d - p) <= d,
            p <= 2047 * (d * ta),
            d > 0,
            ta > 0,
    ;
    assert(r.0 / ta <= 2047) by (nonlinear_arith)
        requires
            r.0 <= 2047 * ta,
            ta > 0,
    ;
    if p >= d * ta {
        assert(p / d >= ta) by (nonlinear_arith)
            requires
                p >= d * ta,
                d > 0,
        ;
    }
    // the command value
    assert(truncated(r.0, r.1 + e - 13) == r.0 / ta);
    let full: u32 = 0x44ff_e000;
    assert(exponent_field(full) == 137);
    assert(fraction_field(full) == 0x7f_e000);
    assert(significand(full) == 0xff_e000);
    assert(unit_exponent(full) == -13);
    assert(!is_negative(full));
    assert(r.1 + unit_exponent(ratio) + unit_exponent(full) == r.1 + e - 13);
}

/// The significand of a command value over the full scale.
spec fn ratio_significand(value: nat) -> nat {
    round24(round24(value, 1).0, 2047).0
}

/// The exponent of the unit of a command value over the full scale,
/// negated.
spec fn ratio_shift(value: nat) -> int {
    -(round24(value, 1).1 + round24(round24(value, 1).0, 2047).1)
}

/// How the ratio of a command value other than zero comes about: its unit
/// is between 2^-35 and 2^-23, and its significand is the value over 2047
/// in such units, rounded.
proof fn lemma_ratio_of_value(value: int)
    requires
        1 <= value <= 2047 || -2047 <= value <= -1,
    ensures
        ({
            let n = if value < 0 {
                (-value) as nat
            } else {
                value as nat
            };
            let s = ratio_significand(n);
            let b = ratio_shift(n);
            let tb = two_to(b as nat);
            &&& 23 <= b <= 35
            &&& 0x80_0000 <= s <= 0x100_0000
            &&& 0x80_0000 * 2047 <= n * tb < 0x100_0000 * 2047
            &&& -2047 <= 2 * (2047 * s - n * tb) <= 2047
            &&& (n * tb) % 2047 == 0 ==> s == (n * tb) / 2047
            &&& in_smallest_units(quotient_of(value, 2047)) == if value < 0 {
                -(s * two_to((149 - b) as nat))
            } else {
                (s * two_to((149 - b) as nat)) as int
            }
        }),
{
    let n = if value < 0 {
        (-value) as nat
    } else {
        value as nat
    };
    let first = round24(n, 1);
    let second = round24(first.0, 2047);
    let k = (-first.1) as nat;
    lemma_powers();
    lemma_round24_exact(n);
    lemma_round24(first.0, 2047);
    assert(first.0 == n * two_to(k));
    // the first unit
    lemma_two_to_increases(0, k);
    assert(two_to(k) < two_to(24)) by (nonlinear_arith)
        requires
            n * two_to(k) < 0x100_0000,
            n >= 1,
            two_to(24) == 0x100_0000,
    ;
    lemma_two_to_orders(k, 24);
    if k < 13 {
        lemma_two_to_increases(k, 12);
        assert(false) by (nonlinear_arith)
            requires
                0x80_0000 <= n * two_to(k),
                n <= 2047,
                two_to(k) <= 0x1000,
        ;
    }
    // the second unit
    if second.1 >= 0 {
        lemma_two_to_increases(0, second.1 as nat);
        assert(false) by (nonlinear_arith)
            requires
                0x80_0000 * (2047 * two_to(second.1 as nat)) <= first.0,
                first.0 < 0x100_0000,
                two_to(second.1 as nat) >= 1,
        ;
    }
    let j = (-second.1) as nat;
    let b = k + j;
    let tb = two_to(b);
    lemma_two_to_adds(k, j);
    assert(first.0 * two_to(j) == n * tb) by (nonlinear_arith)
        requires
            first.0 == n * two_to(k),
            tb == two_to(k) * two_to(j),
    ;
    assert(two_to(j) < two_to(12)) by (nonlinear_arith)
        requires
            first.0 * two_to(j) < 0x100_0000 * 2047,
            first.0 >= 0x80_0000,
            two_to(12) == 0x1000,
    ;
    lemma_two_to_orders(j, 12);
    assert(j >= 10) by {
        if j < 10 {
            lemma_two_to_increases(j, 9);
            assert(false) by (nonlinear_arith)
                requires
                    0x80_0000 * 2047 <= first.0 * two_to(j),
                    first.0 < 0x100_0000,
                    two_to(j) <= 0x200,
            ;
        }
    }
    lemma_round_half_even(n * tb, 2047);
    assert(second.0 == round_half_even(first.0 * two_to(j), 2047));
    // the pattern
    lemma_assemble(value < 0, second.0, first.1 + second.1);
}

/// The arithmetic at the heart of the round trip. A product `p / w` is
/// rounded to `r0 / ta`, cut to the integer `n` with `rem / ta` dropped,
/// and `n / 2047` is rounded to `s / tb`. Then `2047 * s / tb` is within one
/// of `p / w`, where the second rounding is fine enough for the first, or
/// is exact, or the cut drops nothing.
proof fn lemma_gap(s: int, n: int, tb: int, r0: int, rem: int, ta: int, d: int, p: int, w: int)
    requires
        -2047 <= 2 * (2047 * s - n * tb) <= 2047,
        -d <= 2 * (r0 * d - p) <= d,
        r0 == n * ta + rem,
        0 <= rem < ta,
        w == d * ta,
        d >= 1,
        tb >= 2047,
        tb >= 2047 * ta || 2047 * s == n * tb || rem == 0,
    ensures
        -(w * tb) <= 2047 * s * w - p * tb <= w * tb,
{
    let alpha = 2047 * s - n * tb;
    let beta = r0 * d - p;
    let whole = 2047 * s * w - p * tb;
    assert(w >= d && w >= 1) by (nonlinear_arith)
        requires
            w == d * ta,
            d >= 1,
            ta >= 1,
    ;
    assert(whole == alpha * w + tb * (beta - rem * d)) by (nonlinear_arith)
        requires
            alpha == 2047 * s - n * tb,
            beta == r0 * d - p,
            whole == 2047 * s * w - p * tb,
            r0 == n * ta + rem,
            w == d * ta,
    ;
    let first = alpha * w;
    let second = tb * (beta - rem * d);
    assert(-2047 * w <= 2 * first <= 2047 * w) by (nonlinear_arith)
        requires
            first == alpha * w,
            -2047 <= 2 * alpha <= 2047,
            w >= 1,
    ;
    let spread = beta - rem * d;
    assert(d - 2 * w <= 2 * spread <= d) by (nonlinear_arith)
        requires
            spread == beta - rem * d,
            -d <= 2 * beta <= d,
            0 <= rem <= ta - 1,
            w == d * ta,
            d >= 1,
    ;
    assert(tb * d - 2 * (tb * w) <= 2 * second <= tb * d) by (nonlinear_arith)
        requires
            second == tb * spread,
            d - 2 * w <= 2 * spread <= d,
            tb >= 1,
    ;
    assert(2047 * w <= w * tb && tb * d <= w * tb && tb * w == w * tb) by (nonlinear_arith)
        requires
            tb >= 2047,
            w >= d,
            w >= 1,
            d >= 1,
    ;
    if tb >= 2047 * ta {
        assert(tb * d >= 2047 * w) by (nonlinear_arith)
            requires
                tb >= 2047 * ta,
                w == d * ta,
                d >= 1,
        ;
    } else if 2047 * s == n * tb {
        assert(first == 0) by (nonlinear_arith)
            requires
                first == alpha * w,
                alpha == 0,
        ;
    } else {
        assert(2 * spread >= -d);
        assert(2 * second >= -(tb * d)) by (nonlinear_arith)
            requires
                second == tb * spread,
                2 * spread >= -d,
                tb >= 1,
        ;
    }
}

/// The second rounding is fine enough for the first, or is exact, or the
/// cut drops nothing: the units of the two roundings, `1 / ta` and
/// `1 / tb`, are tied together by the integer `n` that lies between them.
proof fn lemma_fineness(s: int, n: int, a: nat, b: nat, r0: int, rem: int)
    requires
        a >= 13,
        1 <= n <= 2047,
        r0 == n * two_to(a) + rem,
        0 <= rem < two_to(a),
        r0 <= 0x100_0000,
        0x80_0000 * 2047 <= n * two_to(b),
        (n * two_to(b)) % 2047 == 0 ==> s == (n * two_to(b)) / 2047,
    ensures
        two_to(b) >= 2047 * two_to(a) || 2047 * s == n * two_to(b) || rem == 0,
{
    let ta = two_to(a) as int;
    let tb = two_to(b) as int;
    lemma_powers();
    lemma_two_to_increases(0, a);
    assert(n * ta <= 0x100_0000);
    if b <= a + 9 {
        lemma_two_to_increases(b, a + 9);
        lemma_two_to_adds(a, 9);
        assert(false) by (nonlinear_arith)
            requires
                tb <= ta * 0x200,
                n * ta <= 0x100_0000,
                0x80_0000 * 2047 <= n * tb,
                n >= 1,
        ;
    }
    if b >= a + 11 {
        lemma_two_to_increases(a + 11, b);
        lemma_two_to_adds(a, 11);
    } else {
        lemma_two_to_adds(a, 10);
        assert(tb == ta * 0x400);
        let h = two_to((a - 13) as nat) as int;
        lemma_two_to_adds(13, (a - 13) as nat);
        lemma_two_to_increases(0, (a - 13) as nat);
        assert(ta == 0x2000 * h);
        let nh = n * h;
        assert(n * ta == 0x2000 * nh && n * tb == 0x80_0000 * nh) by (nonlinear_arith)
            requires
                nh == n * h,
                tb == ta * 0x400,
                ta == 0x2000 * h,
        ;
        assert(2047 <= nh <= 2048);
        if nh == 2048 {
            assert(rem == 0);
        } else {
            if a > 13 {
                let half = two_to((a - 14) as nat) as int;
                assert(h == 2 * half);
                assert(nh == 2 * (n * half)) by (nonlinear_arith)
                    requires
                        nh == n * h,
                        h == 2 * half,
                ;
                assert(false);
            }
            assert(h == 1);
            assert(n * tb == 2047 * 0x80_0000);
            assert(s == 0x80_0000);
        }
    }
}

/// From the units of the two roundings to the smallest unit: a gap of at
/// most one step between `s / tb` and `m / limit` is a gap of at most one
/// step between `s * fine` and `m * unit`, where `fine * tb` and
/// `unit * limit` are the same number.
proof fn lemma_rescale(s: int, m: int, limit: int, tb: int, fine: int, unit: int, top: int)
    requires
        fine * tb == top,
        unit * limit == top,
        fine >= 1,
        unit >= 1,
        top >= 1,
        -(limit * tb) <= 2047 * (s * limit - m * tb) <= limit * tb,
    ensures
        -top <= 2047 * (s * fine - m * unit) <= top,
{
    let c = s * limit - m * tb;
    let sf = s * fine;
    let mu = m * unit;
    let cf = c * fine;
    let lt = limit * tb;
    assert(cf == sf * limit - m * top) by (nonlinear_arith)
        requires
            cf == c * fine,
            c == s * limit - m * tb,
            sf == s * fine,
            fine * tb == top,
    ;
    assert(lt * fine == limit * top) by (nonlinear_arith)
        requires
            lt == limit * tb,
            fine * tb == top,
    ;
    assert(-(lt * fine) <= 2047 * cf <= lt * fine) by (nonlinear_arith)
        requires
            cf == c * fine,
            -lt <= 2047 * c <= lt,
            fine >= 1,
    ;
    let cfu = cf * unit;
    let ltop = limit * top;
    assert(cfu == top * (sf - mu)) by (nonlinear_arith)
        requires
            cfu == cf * unit,
            cf == sf * limit - m * top,
            mu == m * unit,
            unit * limit == top,
    ;
    assert(ltop * unit == top * top) by (nonlinear_arith)
        requires
            ltop == limit * top,
            unit * limit == top,
    ;
    assert(-(ltop * unit) <= 2047 * cfu <= ltop * unit) by (nonlinear_arith)
        requires
            cfu == cf * unit,
            -ltop <= 2047 * cf <= ltop,
            unit >= 1,
    ;
    let g = sf - mu;
    assert(-top <= 2047 * g <= top) by (nonlinear_arith)
        requires
            -(top * top) <= 2047 * (top * g) <= top * top,
            top >= 1,
    ;
}

/// Going to a command value and back moves a ratio by at most one step of
/// the scale, 1/2047: for every number of magnitude at most one, the ratio
/// that `value_to_ratio` gives for the command value that `ratio_to_value`
/// gives is within 1/2047 of it. Stated in units of 2^-149, in which every
/// number of single precision is an integer.
pub proof fn lemma_round_trip(ratio: u32)
    requires
        in_unit_range(ratio),
    ensures
        ({
            let value = ratio_on_scale(ratio, RANGE_MIN as int, RANGE_MAX as int);
            let back = quotient_of(value, RANGE_MAX as nat);
            let gap = in_smallest_units(back) - in_smallest_units(ratio);
            &&& RANGE_MIN <= value <= RANGE_MAX
            &&& -(two_to(149) as int) <= 2047 * gap <= two_to(149)
        }),
{
    let m = significand(ratio) as int;
    let e = unit_exponent(ratio);
    let value = ratio_on_scale(ratio, RANGE_MIN as int, RANGE_MAX as int);
    let back = quotient_of(value, RANGE_MAX as nat);
    let limit = two_to((-e) as nat) as int;
    let unit = two_to((e + 149) as nat) as int;
    let top = two_to(149) as int;
    lemma_two_to_adds((e + 149) as nat, (-e) as nat);
    lemma_two_to_increases(0, (e + 149) as nat);
    lemma_two_to_increases(0, (-e) as nat);
    lemma_two_to_increases(0, 149);
    assert(unit * limit == top);
    if m == 0 {
        assert(value == 0);
        assert(back == 0);
        assert(significand(0u32) == 0);
        assert(in_smallest_units(back) == 0) by (nonlinear_arith)
            requires
                in_smallest_units(back) == 0 * two_to((unit_exponent(0u32) + 149) as nat),
        ;
        assert(m * unit == 0) by (nonlinear_arith)
            requires
                m == 0,
        ;
    } else {
        lemma_scaled_size(ratio);
        let p = m * (FULL_SCALE_SIGNIFICAND as int);
        let r = round24(p as nat, 1);
        let a = (13 - e - r.1) as nat;
        let d = two_to(r.1 as nat) as int;
        let ta = two_to(a) as int;
        let w = d * ta;
        let n = (r.0 / (ta as nat)) as int;
        let rem = (r.0 % (ta as nat)) as int;
        lemma_two_to_increases(0, r.1 as nat);
        lemma_two_to_increases(0, a);
        vstd::arithmetic::div_mod::lemma_fundamental_div_mod(r.0 as int, ta);
        assert(r.0 == n * ta + rem) by (nonlinear_arith)
            requires
                r.0 == ta * n + rem,
        ;
        assert(w == 0x2000 * limit);
        let mu = m * unit;
        if n == 0 {
            assert(back == 0);
            assert(significand(0u32) == 0);
            assert(in_smallest_units(back) == 0) by (nonlinear_arith)
                requires
                    in_smallest_units(back) == 0 * two_to((unit_exponent(0u32) + 149) as nat),
            ;
            assert(n * ta == 0) by (nonlinear_arith)
                requires
                    n == 0,
            ;
            assert(r.0 < ta);
            assert(p < w);
            assert(2047 * m < limit);
            assert(2047 * mu <= top) by (nonlinear_arith)
                requires
                    mu == m * unit,
                    2047 * m < limit,
                    unit * limit == top,
                    unit >= 1,
            ;
        } else {
            lemma_ratio_of_value(value);
            let s = ratio_significand(n as nat) as int;
            let b = ratio_shift(n as nat) as nat;
            let tb = two_to(b) as int;
            let fine = two_to((149 - b) as nat) as int;
            lemma_powers();
            lemma_two_to_adds((149 - b) as nat, b);
            lemma_two_to_increases(0, (149 - b) as nat);
            lemma_two_to_increases(23, b);
            assert(fine * tb == top);
            lemma_fineness(s, n, a, b, r.0 as int, rem);
            lemma_gap(s, n, tb, r.0 as int, rem, ta, d, p, w);
            let c = s * limit - m * tb;
            assert(2047 * s * w - p * tb == 0x2000 * (2047 * c)) by (nonlinear_arith)
                requires
                    c == s * limit - m * tb,
                    w == 0x2000 * limit,
                    p == m * 0xff_e000,
            ;
            assert(w * tb == 0x2000 * (limit * tb)) by (nonlinear_arith)
                requires
                    w == 0x2000 * limit,
            ;
            lemma_rescale(s, m, limit, tb, fine, unit, top);
        }
    }
}

/// The rounded product behind the command value of a ratio other than
/// zero lies in the binade of its unit, and is the product in such units,
/// rounded.
proof fn lemma_scaled_binade(ratio: u32)
    requires
        in_unit_range(ratio),
        significand(ratio) > 0,
    ensures
        ({
            let p = significand(ratio) * (FULL_SCALE_SIGNIFICAND as nat);
            let r = round24(p, 1);
            let d = two_to(r.1 as nat);
            &&& r.1 >= 0
            &&& 0x80_0000 * d <= p < 0x100_0000 * d
            &&& r.0 == round_half_even(p, d)
        }),
{
    let p = significand(ratio) * (FULL_SCALE_SIGNIFICAND as nat);
    let r = round24(p, 1);
    lemma_scaled_size(ratio);
    lemma_round24(p, 1);
    let d = two_to(r.1 as nat);
    assert(1 * d == d);
}

/// Of two products, the larger one has the coarser unit, or the same: were
/// the unit of the larger one finer by a factor of two or more, the two
/// could not both lie in the binades of their units.
proof fn lemma_unit_order(px: int, dx: int, tax: int, wx: int, py: int, dy: int, tay: int, wy: int)
    requires
        0x80_0000 * dx <= px,
        py < 0x100_0000 * dy,
        wx == dx * tax,
        wy == dy * tay,
        dx >= 1,
        dy >= 1,
        tax >= 1,
        px >= 0,
        py >= 0,
        px * wy <= py * wx,
    ensures
        tay < 2 * tax,
{
    if tay >= 2 * tax {
        lemma_unit_clash(px, dx, tax, wx, py, dy, tay, wy);
    }
}

/// The clash that a finer unit for the larger product leads to: with it,
/// the larger product would be the smaller one.
proof fn lemma_unit_clash(px: int, dx: int, tax: int, wx: int, py: int, dy: int, tay: int, wy: int)
    requires
        0x80_0000 * dx <= px,
        py < 0x100_0000 * dy,
        wx == dx * tax,
        wy == dy * tay,
        dx >= 1,
        dy >= 1,
        tax >= 1,
        px >= 0,
        py >= 0,
        tay >= 2 * tax,
    ensures
        px * wy > py * wx,
{
    let a = px * tax;
    let b = py * tax;
    assert(a >= 0x80_0000 * wx) by (nonlinear_arith)
        requires
            a == px * tax,
            0x80_0000 * dx <= px,
            wx == dx * tax,
            tax >= 1,
    ;
    assert(2 * b < 0x100_0000 * wy) by (nonlinear_arith)
        requires
            b == py * tax,
            py < 0x100_0000 * dy,
            wy == dy * tay,
            tay >= 2 * tax,
            tax >= 1,
            py >= 0,
            dy >= 1,
    ;
    assert(wx >= 1 && wy >= 1) by (nonlinear_arith)
        requires
            wx == dx * tax,
            wy == dy * tay,
            dx >= 1,
            dy >= 1,
            tax >= 1,
            tay >= 2 * tax,
    ;
    if px * wy <= py * wx {
        assert(a * wy <= b * wx) by (nonlinear_arith)
            requires
                a == px * tax,
                b == py * tax,
                px * wy <= py * wx,
                tax >= 1,
        ;
    }
    assert(a * wy >= (0x80_0000 * wx) * wy) by (nonlinear_arith)
        requires
            a >= 0x80_0000 * wx,
            wy >= 1,
    ;
    assert(b * wx < (0x80_0000 * wy) * wx) by (nonlinear_arith)
        requires
            2 * b < 0x100_0000 * wy,
            wx >= 1,
    ;
    assert((0x80_0000 * wx) * wy == (0x80_0000 * wy) * wx) by (nonlinear_arith);
}

/// The arithmetic at the heart of the order. Where the rounded product
/// `r0x / tax` of the smaller of two ratios reaches the integer `k`, so does
/// the rounded product of the larger one: its unit is no finer, and a
/// product half a unit short of `k` is rounded up to it.
proof fn lemma_steps_in_order(
    k: int,
    r0x: int,
    px: int,
    dx: int,
    tax: int,
    wx: int,
    py: int,
    dy: int,
    tay: int,
    wy: int,
)
    requires
        k >= 1,
        r0x >= k * tax,
        2 * (r0x * dx - px) <= dx,
        wx == dx * tax,
        wy == dy * tay,
        dx >= 1,
        dy >= 1,
        tax >= 1,
        tay >= 1,
        tay % 2 == 0,
        tay <= tax,
        px >= 0,
        py >= 0,
        px * wy <= py * wx,
    ensures
        round_half_even(py as nat, dy as nat) >= k * tay,
{
    let big = k * tay;
    assert(wx >= 1 && wy >= 1) by (nonlinear_arith)
        requires
            wx == dx * tax,
            wy == dy * tay,
            dx >= 1,
            dy >= 1,
            tax >= 1,
            tay >= 1,
    ;
    // the smaller product is at most half a unit short of k
    assert(2 * px >= 2 * (k * wx) - dx) by (nonlinear_arith)
        requires
            r0x >= k * tax,
            2 * (r0x * dx - px) <= dx,
            wx == dx * tax,
            dx >= 1,
    ;
    // and so is the larger one, in its own unit
    assert(dx * wy <= dy * wx) by (nonlinear_arith)
        requires
            wx == dx * tax,
            wy == dy * tay,
            tay <= tax,
            dx >= 1,
            dy >= 1,
    ;
    let kw = k * wx;
    assert(2 * (px * wy) >= 2 * (kw * wy) - dx * wy) by (nonlinear_arith)
        requires
            2 * px >= 2 * kw - dx,
            wy >= 1,
    ;
    assert(2 * (py * wx) >= 2 * (kw * wy) - dy * wx);
    assert(kw * wy == (k * wy) * wx) by (nonlinear_arith)
        requires
            kw == k * wx,
    ;
    assert(2 * py >= 2 * (k * wy) - dy) by (nonlinear_arith)
        requires
            2 * (py * wx) >= 2 * ((k * wy) * wx) - dy * wx,
            wx >= 1,
    ;
    assert(k * wy == big * dy) by (nonlinear_arith)
        requires
            wy == dy * tay,
            big == k * tay,
    ;
    // rounding brings it to k
    let q = py / dy;
    let rem = py % dy;
    vstd::arithmetic::div_mod::lemma_fundamental_div_mod(py, dy);
    assert(dy * q == q * dy) by (nonlinear_arith);
    if q < big {
        assert(q == big - 1 && 2 * rem >= dy) by (nonlinear_arith)
            requires
                py == q * dy + rem,
                0 <= rem < dy,
                2 * py >= 2 * (big * dy) - dy,
                q < big,
        ;
        let half = tay / 2;
        assert(tay == 2 * half);
        assert(big == 2 * (k * half)) by (nonlinear_arith)
            requires
                big == k * tay,
                tay == 2 * half,
        ;
        assert(big % 2 == 0);
        assert(q % 2 == 1);
    }
}

/// The magnitude of the command value of a ratio; zero for zero.
spec fn size_of(ratio: u32) -> nat {
    if significand(ratio) == 0 {
        0
    } else {
        scaled_size(ratio)
    }
}

/// The command value of a ratio is its magnitude with its sign.
proof fn lemma_value_of(ratio: u32)
    requires
        in_unit_range(ratio),
    ensures
        size_of(ratio) <= 2047,
        ratio_on_scale(ratio, RANGE_MIN as int, RANGE_MAX as int) == if is_negative(ratio) {
            -(size_of(ratio) as int)
        } else {
            size_of(ratio) as int
        },
{
    if significand(ratio) > 0 {
        lemma_scaled_size(ratio);
    }
}

/// Of two ratios, the one of larger magnitude has the command value of
/// larger magnitude, or the same.
proof fn lemma_size_order(x: u32, y: u32)
    requires
        in_unit_range(x),
        in_unit_range(y),
        significand(x) * two_to((unit_exponent(x) + 149) as nat) <= significand(y) * two_to(
            (unit_exponent(y) + 149) as nat,
        ),
    ensures
        size_of(x) <= size_of(y),
{
    let k = size_of(x) as int;
    let mx = significand(x) as int;
    let my = significand(y) as int;
    let ux = two_to((unit_exponent(x) + 149) as nat) as int;
    let uy = two_to((unit_exponent(y) + 149) as nat) as int;
    lemma_two_to_increases(0, (unit_exponent(x) + 149) as nat);
    lemma_two_to_increases(0, (unit_exponent(y) + 149) as nat);
    if k >= 1 {
        assert(mx >= 1);
        if my == 0 {
            assert(mx * ux >= 1) by (nonlinear_arith)
                requires
                    mx >= 1,
                    ux >= 1,
            ;
            assert(my * uy == 0) by (nonlinear_arith)
                requires
                    my == 0,
            ;
            assert(false);
        }
        lemma_scaled_size(x);
        lemma_scaled_size(y);
        lemma_scaled_binade(x);
        lemma_scaled_binade(y);
        lemma_powers();
        let ex = unit_exponent(x);
        let ey = unit_exponent(y);
        let limx = two_to((-ex) as nat) as int;
        let limy = two_to((-ey) as nat) as int;
        let top = two_to(149) as int;
        lemma_two_to_adds((ex + 149) as nat, (-ex) as nat);
        lemma_two_to_adds((ey + 149) as nat, (-ey) as nat);
        lemma_two_to_increases(0, (-ex) as nat);
        lemma_two_to_increases(0, (-ey) as nat);
        lemma_two_to_increases(0, 149);
        let px = mx * (FULL_SCALE_SIGNIFICAND as int);
        let py = my * (FULL_SCALE_SIGNIFICAND as int);
        let rx = round24(px as nat, 1);
        let ry = round24(py as nat, 1);
        let ax = (13 - ex - rx.1) as nat;
        let ay = (13 - ey - ry.1) as nat;
        let dx = two_to(rx.1 as nat) as int;
        let dy = two_to(ry.1 as nat) as int;
        let tax = two_to(ax) as int;
        let tay = two_to(ay) as int;
        let wx = dx * tax;
        let wy = dy * tay;
        lemma_two_to_increases(0, rx.1 as nat);
        lemma_two_to_increases(0, ry.1 as nat);
        lemma_two_to_increases(0, ax);
        lemma_two_to_increases(0, ay);
        // the order of the ratios is the order of the products
        let cross_x = mx * limy;
        let cross_y = my * limx;
        assert(cross_x * top <= cross_y * top) by (nonlinear_arith)
            requires
                cross_x == mx * limy,
                cross_y == my * limx,
                mx * ux <= my * uy,
                ux * limx == top,
                uy * limy == top,
                limx >= 1,
                limy >= 1,
        ;
        assert(cross_x <= cross_y) by (nonlinear_arith)
            requires
                cross_x * top <= cross_y * top,
                top >= 1,
        ;
        assert(px * wy <= py * wx) by (nonlinear_arith)
            requires
                px == mx * 0xff_e000,
                py == my * 0xff_e000,
                wx == 0x2000 * limx,
                wy == 0x2000 * limy,
                cross_x == mx * limy,
                cross_y == my * limx,
                cross_x <= cross_y,
        ;
        // the larger product has the coarser unit
        if ay > ax {
            lemma_two_to_increases(ax + 1, ay);
            assert(two_to(ax + 1) == 2 * two_to(ax));
            lemma_unit_order(px, dx, tax, wx, py, dy, tay, wy);
        }
        lemma_two_to_increases(ay, ax);
        assert(two_to(ay) == 2 * two_to((ay - 1) as nat));
        // and reaches what the smaller one reaches
        vstd::arithmetic::div_mod::lemma_fundamental_div_mod(rx.0 as int, tax);
        assert(rx.0 >= k * tax) by (nonlinear_arith)
            requires
                rx.0 == tax * k + (rx.0 as int % tax),
                0 <= rx.0 as int % tax,
        ;
        lemma_steps_in_order(k, rx.0 as int, px, dx, tax, wx, py, dy, tay, wy);
        assert(ry.0 as int / tay >= k) by (nonlinear_arith)
            requires
                ry.0 >= k * tay,
                tay >= 1,
        ;
    }
}

/// The command value keeps the order of the ratios: of two numbers of
/// magnitude at most one, the larger one has the larger command value, or
/// the same. The numbers are compared in units of 2^-149, in which every
/// number of single precision is an integer.
pub proof fn lemma_ratio_order(a: u32, b: u32)
    requires
        in_unit_range(a),
        in_unit_range(b),
        in_smallest_units(a) <= in_smallest_units(b),
    ensures
        ratio_on_scale(a, RANGE_MIN as int, RANGE_MAX as int) <= ratio_on_scale(
            b,
            RANGE_MIN as int,
            RANGE_MAX as int,
        ),
{
    lemma_value_of(a);
    lemma_value_of(b);
    let sa = significand(a) * two_to((unit_exponent(a) + 149) as nat);
    let sb = significand(b) * two_to((unit_exponent(b) + 149) as nat);
    lemma_two_to_increases(0, (unit_exponent(a) + 149) as nat);
    lemma_two_to_increases(0, (unit_exponent(b) + 149) as nat);
    assert(significand(a) == 0 <==> sa == 0) by (nonlinear_arith)
        requires
            sa == significand(a) * two_to((unit_exponent(a) + 149) as nat),
            two_to((unit_exponent(a) + 149) as nat) >= 1,
    ;
    assert(significand(b) == 0 <==> sb == 0) by (nonlinear_arith)
        requires
            sb == significand(b) * two_to((unit_exponent(b) + 149) as nat),
            two_to((unit_exponent(b) + 149) as nat) >= 1,
    ;
    if is_negative(a) {
        if is_negative(b) {
            lemma_size_order(b, a);
        }
    } else {
        if is_negative(b) {
            // b is minus zero, and a is zero
            assert(sa == 0 && sb == 0);
            assert(size_of(a) == 0);
            assert(size_of(b) == 0);
        } else {
            lemma_size_order(a, b);
        }
    }
}

} // verus!
