//! Single-precision numbers, held as their IEEE 754 bit patterns, and the
//! few operations on them that the interfaces need, in integer arithmetic.

use vstd::prelude::*;

verus! {

/// Two to the power `n`.
pub open spec fn two_to(n: nat) -> nat
    decreases n,
{
    if n == 0 {
        1
    } else {
        2 * two_to((n - 1) as nat)
    }
}

/// Whether the sign bit of the pattern is set.
pub open spec fn is_negative(bits: u32) -> bool {
    bits >= 0x8000_0000
}

/// The eight exponent bits of the pattern.
pub open spec fn exponent_field(bits: u32) -> nat {
    ((bits / 0x80_0000) % 256) as nat
}

/// The twenty-three fraction bits of the pattern.
pub open spec fn fraction_field(bits: u32) -> nat {
    (bits % 0x80_0000) as nat
}

/// Whether the pattern is a number, and not an infinity or a NaN.
pub open spec fn is_finite(bits: u32) -> bool {
    exponent_field(bits) != 255
}

/// Whether the pattern is a NaN.
pub open spec fn is_nan(bits: u32) -> bool {
    exponent_field(bits) == 255 && fraction_field(bits) != 0
}

/// The significand of a finite pattern, as an integer below 2^24. The
/// magnitude of the number is `significand * 2^unit_exponent`.
pub open spec fn significand(bits: u32) -> nat {
    if exponent_field(bits) == 0 {
        fraction_field(bits)
    } else {
        0x80_0000 + fraction_field(bits)
    }
}

/// The exponent of the unit in the last place of a finite pattern.
pub open spec fn unit_exponent(bits: u32) -> int {
    if exponent_field(bits) == 0 {
        -149
    } else {
        exponent_field(bits) - 150
    }
}

/// Whether the pattern is a zero, of either sign.
pub open spec fn is_zero(bits: u32) -> bool {
    is_finite(bits) && significand(bits) == 0
}

/// Whether the pattern is a number at or above zero; minus zero is.
pub open spec fn at_least_zero(bits: u32) -> bool {
    !is_nan(bits) && (!is_negative(bits) || is_zero(bits))
}

/// Whether the pattern is a number below zero.
pub open spec fn below_zero(bits: u32) -> bool {
    !is_nan(bits) && is_negative(bits) && !is_zero(bits)
}

/// Whether the magnitude of `a` is larger than that of `b`: a larger
/// exponent, or the same exponent and a larger fraction.
pub open spec fn larger(a: u32, b: u32) -> bool {
    exponent_field(a) > exponent_field(b) || (exponent_field(a) == exponent_field(b)
        && fraction_field(a) > fraction_field(b))
}

/// Whether `a` is a number above the number `b`. Nothing is above or below
/// a NaN, and the two zeros are equal.
pub open spec fn above(a: u32, b: u32) -> bool {
    if is_nan(a) || is_nan(b) {
        false
    } else if is_negative(a) {
        is_negative(b) && larger(b, a)
    } else {
        if is_negative(b) {
            !(is_zero(a) && is_zero(b))
        } else {
            larger(a, b)
        }
    }
}

/// The pattern of the same number with the opposite sign.
pub open spec fn negation(bits: u32) -> u32 {
    if bits >= 0x8000_0000 {
        (bits - 0x8000_0000) as u32
    } else {
        (bits + 0x8000_0000) as u32
    }
}

/// Whether the pattern is a number of magnitude at most one.
pub open spec fn in_unit_range(bits: u32) -> bool {
    is_finite(bits) && unit_exponent(bits) < 0 && significand(bits) <= two_to(
        (-unit_exponent(bits)) as nat,
    )
}

/// The integer nearest to `num / den`; of two equally near, the even one.
pub open spec fn round_half_even(num: nat, den: nat) -> nat {
    let q = num / den;
    let r = num % den;
    if 2 * r < den || (2 * r == den && q % 2 == 0) {
        q
    } else {
        q + 1
    }
}

/// `num / den` rounded to twenty-four significant bits, to nearest and ties
/// to even: a significand between 2^23 and 2^24 and the exponent of its
/// unit, found by doubling the numerator or the denominator until their
/// quotient has twenty-four bits.
pub open spec fn round24(num: nat, den: nat) -> (nat, int)
    decreases
            (if num < 0x80_0000 * den {
                0x100_0000 * den - num
            } else {
                num - 0x80_0000 * den
            }),
    when num > 0 && den > 0
{
    if num < 0x80_0000 * den {
        let r = round24(2 * num, den);
        (r.0, r.1 - 1)
    } else if num >= 0x100_0000 * den {
        let r = round24(num, 2 * den);
        (r.0, r.1 + 1)
    } else {
        (round_half_even(num, den), 0)
    }
}

/// The integer part of `sig * 2^exp`.
pub open spec fn truncated(sig: nat, exp: int) -> nat {
    if exp >= 0 {
        sig * two_to(exp as nat)
    } else {
        sig / two_to((-exp) as nat)
    }
}

/// The pattern of the number of magnitude `sig * 2^exp` and the given sign,
/// for a significand between 2^23 and 2^24 and an exponent in the range of
/// the normal numbers.
pub open spec fn assemble(negative: bool, sig: nat, exp: int) -> u32 {
    let sign: int = if negative {
        0x8000_0000
    } else {
        0
    };
    if sig == 0x100_0000 {
        (sign + (exp + 151) * 0x80_0000) as u32
    } else {
        (sign + (exp + 150) * 0x80_0000 + (sig - 0x80_0000)) as u32
    }
}

/// The pattern of zero with the given sign.
pub open spec fn zero(negative: bool) -> u32 {
    if negative {
        0x8000_0000
    } else {
        0
    }
}

/// What single-precision division gives for the integer `num` over the
/// positive integer `den`: `num` is first brought to single precision,
/// which rounds it when it has more than twenty-four bits, and the quotient
/// is rounded again.
pub open spec fn quotient_of(num: int, den: nat) -> u32 {
    let size = if num < 0 {
        (-num) as nat
    } else {
        num as nat
    };
    if size == 0 {
        zero(false)
    } else {
        let first = round24(size, 1);
        let second = round24(first.0, den);
        assemble(num < 0, second.0, first.1 + second.1)
    }
}

/// What single-precision multiplication gives for the integer `value` times
/// the number of pattern `factor`: `value` is first brought to single
/// precision, which rounds it when it has more than twenty-four bits, and
/// the product is rounded again. Meant for a normal `factor` that keeps the
/// product among the normal numbers.
pub open spec fn product_of(value: int, factor: u32) -> u32 {
    let size = if value < 0 {
        (-value) as nat
    } else {
        value as nat
    };
    let negative = (value < 0) != is_negative(factor);
    if size == 0 {
        zero(negative)
    } else {
        let first = round24(size, 1);
        let second = round24(first.0 * significand(factor), 1);
        assemble(negative, second.0, first.1 + second.1 + unit_exponent(factor))
    }
}

/// The number of a finite pattern in units of `2^exp`, for a unit no larger
/// than the pattern's own: an integer.
pub open spec fn aligned(bits: u32, exp: int) -> int {
    let size = significand(bits) * two_to((unit_exponent(bits) - exp) as nat);
    if is_negative(bits) {
        -(size as int)
    } else {
        size as int
    }
}

/// What single-precision subtraction gives for two finite patterns whose
/// difference is zero or a normal number: the exact difference, rounded to
/// twenty-four significant bits. A difference of zero is plus zero; only
/// minus zero less plus zero is minus zero.
pub open spec fn difference_of(a: u32, b: u32) -> u32 {
    let exp = if unit_exponent(a) < unit_exponent(b) {
        unit_exponent(a)
    } else {
        unit_exponent(b)
    };
    let d = aligned(a, exp) - aligned(b, exp);
    if d == 0 {
        zero(is_negative(a) && !is_negative(b))
    } else if d < 0 {
        assemble(true, round24((-d) as nat, 1).0, round24((-d) as nat, 1).1 + exp)
    } else {
        assemble(false, round24(d as nat, 1).0, round24(d as nat, 1).1 + exp)
    }
}

/// What converting the single-precision product of two patterns to `i32`
/// gives: the exact product of the two numbers is rounded to twenty-four
/// significant bits, its fraction is dropped, and what does not fit is
/// replaced by the nearest bound. A NaN gives zero, also the NaN that zero
/// times infinity is. (Where single precision would keep fewer than
/// twenty-four bits, below 2^-126, the integer part is zero either way.)
pub open spec fn product_truncated(a: u32, b: u32) -> int {
    let negative = is_negative(a) != is_negative(b);
    if is_nan(a) || is_nan(b) {
        0
    } else if (is_finite(a) && significand(a) == 0) || (is_finite(b) && significand(b) == 0) {
        0
    } else if !is_finite(a) || !is_finite(b) {
        if negative {
            i32::MIN as int
        } else {
            i32::MAX as int
        }
    } else {
        let r = round24(significand(a) * significand(b), 1);
        let size = truncated(r.0, r.1 + unit_exponent(a) + unit_exponent(b));
        if negative {
            if size >= 0x8000_0000 {
                i32::MIN as int
            } else {
                -(size as int)
            }
        } else {
            if size >= 0x8000_0000 {
                i32::MAX as int
            } else {
                size as int
            }
        }
    }
}

/// A larger exponent gives a larger power.
pub proof fn lemma_two_to_increases(a: nat, b: nat)
    requires
        a <= b,
    ensures
        two_to(a) <= two_to(b),
        two_to(a) > 0,
    decreases b,
{
    if a < b {
        lemma_two_to_increases(a, (b - 1) as nat);
    } else if a > 0 {
        lemma_two_to_increases((a - 1) as nat, (a - 1) as nat);
    }
}

/// Exponents add where powers multiply.
pub proof fn lemma_two_to_adds(a: nat, b: nat)
    ensures
        two_to(a + b) == two_to(a) * two_to(b),
    decreases b,
{
    if b > 0 {
        lemma_two_to_adds(a, (b - 1) as nat);
        assert(2 * (two_to(a) * two_to((b - 1) as nat)) == two_to(a) * (2 * two_to((b - 1) as nat)))
            by (nonlinear_arith);
    } else {
        assert(two_to(a) * 1 == two_to(a)) by (nonlinear_arith);
    }
}

/// A smaller power has a smaller exponent.
pub proof fn lemma_two_to_orders(a: nat, b: nat)
    requires
        two_to(a) < two_to(b),
    ensures
        a < b,
{
    if a >= b {
        lemma_two_to_increases(b, a);
    }
}

/// Whether `num / den` lies in the binade whose unit is `2^exp`: between
/// `2^23` and `2^24` units.
pub open spec fn in_binade(num: nat, den: nat, exp: int) -> bool {
    if exp >= 0 {
        0x80_0000 * (den * two_to(exp as nat)) <= num < 0x100_0000 * (den * two_to(exp as nat))
    } else {
        0x80_0000 * den <= num * two_to((-exp) as nat) < 0x100_0000 * den
    }
}

/// `num / den` in units of `2^exp`, rounded to the nearest whole number of
/// units, ties to even.
pub open spec fn nearest_units(num: nat, den: nat, exp: int) -> nat {
    if exp >= 0 {
        round_half_even(num, den * two_to(exp as nat))
    } else {
        round_half_even(num * two_to((-exp) as nat), den)
    }
}

/// The rounding to twenty-four bits is what its name says: the exponent is
/// that of the binade in which `num / den` lies, and the significand is
/// `num / den` in units of that binade, rounded to nearest, ties to even.
pub proof fn lemma_round24(num: nat, den: nat)
    requires
        num > 0,
        den > 0,
    ensures
        in_binade(num, den, round24(num, den).1),
        round24(num, den).0 == nearest_units(num, den, round24(num, den).1),
        0x80_0000 <= round24(num, den).0 <= 0x100_0000,
    decreases
            (if num < 0x80_0000 * den {
                0x100_0000 * den - num
            } else {
                num - 0x80_0000 * den
            }),
{
    let r = round24(num, den);
    if num < 0x80_0000 * den {
        let inner = round24(2 * num, den);
        lemma_round24(2 * num, den);
        if inner.1 > 0 {
            lemma_two_to_increases(1, inner.1 as nat);
            assert(two_to(1) == 2) by {
                reveal_with_fuel(two_to, 2);
            }
            assert(false) by (nonlinear_arith)
                requires
                    0x80_0000 * (den * two_to(inner.1 as nat)) <= 2 * num,
                    num < 0x80_0000 * den,
                    two_to(inner.1 as nat) >= 2,
                    den > 0,
            ;
        }
        let k = (-inner.1) as nat;
        assert(two_to(k + 1) == 2 * two_to(k));
        assert((2 * num) * two_to(k) == num * two_to(k + 1)) by (nonlinear_arith)
            requires
                two_to(k + 1) == 2 * two_to(k),
        ;
        if k == 0 {
            assert(two_to(0) == 1);
            assert(den * two_to(0) == den) by (nonlinear_arith)
                requires
                    two_to(0) == 1,
            ;
            assert((2 * num) * two_to(0) == 2 * num) by (nonlinear_arith)
                requires
                    two_to(0) == 1,
            ;
        }
        assert(r.1 == inner.1 - 1);
        assert((-r.1) as nat == k + 1);
    } else if num >= 0x100_0000 * den {
        let inner = round24(num, 2 * den);
        lemma_round24(num, 2 * den);
        if inner.1 < 0 {
            lemma_two_to_increases(1, (-inner.1) as nat);
            assert(two_to(1) == 2) by {
                reveal_with_fuel(two_to, 2);
            }
            assert(false) by (nonlinear_arith)
                requires
                    num * two_to((-inner.1) as nat) < 0x100_0000 * (2 * den),
                    num >= 0x100_0000 * den,
                    two_to((-inner.1) as nat) >= 2,
                    den > 0,
            ;
        }
        let k = inner.1 as nat;
        assert(two_to(k + 1) == 2 * two_to(k));
        assert((2 * den) * two_to(k) == den * two_to(k + 1)) by (nonlinear_arith)
            requires
                two_to(k + 1) == 2 * two_to(k),
        ;
        assert(r.1 == inner.1 + 1);
        assert(in_binade(num, den, r.1));
        assert(r.0 == nearest_units(num, den, r.1));
    } else {
        assert(den * two_to(0) == den) by (nonlinear_arith)
            requires
                two_to(0) == 1,
        ;
        assert(0x80_0000 <= num / den < 0x100_0000) by (nonlinear_arith)
            requires
                den > 0,
                0x80_0000 * den <= num < 0x100_0000 * den,
        ;
        assert(r.1 == 0);
        assert(in_binade(num, den, r.1));
        assert(r.0 == nearest_units(num, den, r.1));
    }
}

/// The exponent that rounding gives a whole number follows its size: a
/// number between `2^low` and `2^high` gets a unit between `2^(low - 23)`
/// and `2^(high - 24)`.
pub proof fn lemma_round24_whole(num: nat, low: nat, high: nat)
    requires
        two_to(low) <= num < two_to(high),
    ensures
        low - 23 <= round24(num, 1).1 <= high - 24,
{
    lemma_two_to_increases(0, low);
    lemma_round24(num, 1);
    let e = round24(num, 1).1;
    reveal_with_fuel(two_to, 25);
    assert(two_to(23) == 0x80_0000);
    assert(two_to(24) == 0x100_0000);
    if e >= 0 {
        let k = e as nat;
        lemma_two_to_adds(k, 23);
        lemma_two_to_adds(k, 24);
        assert(0x80_0000 * (1 * two_to(k)) == two_to(k) * 0x80_0000) by (nonlinear_arith);
        assert(0x100_0000 * (1 * two_to(k)) == two_to(k) * 0x100_0000) by (nonlinear_arith);
        lemma_two_to_orders(k + 23, high);
        lemma_two_to_orders(low, k + 24);
    } else {
        let k = (-e) as nat;
        lemma_two_to_adds(low, k);
        lemma_two_to_adds(high, k);
        lemma_two_to_increases(0, k);
        assert(two_to(low) * two_to(k) <= num * two_to(k) < two_to(high) * two_to(k))
            by (nonlinear_arith)
            requires
                two_to(low) <= num < two_to(high),
                two_to(k) > 0,
        ;
        lemma_two_to_orders(low + k, 24);
        lemma_two_to_orders(23, high + k);
    }
}

/// Rounding to the nearest integer moves a quotient by at most one half,
/// never below its integer part, and not at all where the division is
/// exact.
pub proof fn lemma_round_half_even(num: nat, den: nat)
    requires
        den > 0,
    ensures
        -(den as int) <= 2 * (round_half_even(num, den) * den - num) <= den,
        num / den <= round_half_even(num, den) <= num / den + 1,
        num % den == 0 ==> round_half_even(num, den) == num / den,
{
    let q = num / den;
    let r = num % den;
    vstd::arithmetic::div_mod::lemma_fundamental_div_mod(num as int, den as int);
    assert((q + 1) * den == q * den + den) by (nonlinear_arith);
    assert(den * q == q * den) by (nonlinear_arith);
}

/// The number of a finite pattern in units of 2^-149, the smallest positive
/// number of single precision: an integer.
pub open spec fn in_smallest_units(bits: u32) -> int {
    let size = significand(bits) * two_to((unit_exponent(bits) + 149) as nat);
    if is_negative(bits) {
        -(size as int)
    } else {
        size as int
    }
}

/// What is put together from a sign, a significand and an exponent is a
/// finite pattern of that sign and of magnitude `sig * 2^exp`.
pub proof fn lemma_assemble(negative: bool, sig: nat, exp: int)
    requires
        0x80_0000 <= sig <= 0x100_0000,
        -149 <= exp <= 103,
    ensures
        is_finite(assemble(negative, sig, exp)),
        is_negative(assemble(negative, sig, exp)) == negative,
        significand(assemble(negative, sig, exp)) * two_to(
            (unit_exponent(assemble(negative, sig, exp)) + 149) as nat,
        ) == sig * two_to((exp + 149) as nat),
        in_smallest_units(assemble(negative, sig, exp)) == if negative {
            -(sig * two_to((exp + 149) as nat))
        } else {
            (sig * two_to((exp + 149) as nat)) as int
        },
{
    let bits = assemble(negative, sig, exp);
    let sign: int = if negative {
        0x8000_0000
    } else {
        0
    };
    if sig == 0x100_0000 {
        assert(bits == sign + (exp + 151) * 0x80_0000);
        assert(exponent_field(bits) == exp + 151);
        assert(fraction_field(bits) == 0);
        let k = (exp + 149) as nat;
        assert(two_to(k + 1) == 2 * two_to(k));
        assert(0x80_0000 * (2 * two_to(k)) == 0x100_0000 * two_to(k)) by (nonlinear_arith);
    } else {
        assert(bits == sign + (exp + 150) * 0x80_0000 + (sig - 0x80_0000));
        assert(exponent_field(bits) == exp + 150);
        assert(fraction_field(bits) == sig - 0x80_0000);
    }
}

/// A whole number below 2^24 is not changed by rounding to twenty-four
/// bits.
pub proof fn lemma_round24_exact(num: nat)
    requires
        0 < num < 0x100_0000,
    ensures
        round24(num, 1).1 <= 0,
        round24(num, 1).0 == num * two_to((-round24(num, 1).1) as nat),
        0x80_0000 <= round24(num, 1).0 < 0x100_0000,
{
    lemma_round24(num, 1);
    let r = round24(num, 1);
    if r.1 > 0 {
        lemma_two_to_increases(1, r.1 as nat);
        reveal_with_fuel(two_to, 2);
        assert(false) by (nonlinear_arith)
            requires
                0x80_0000 * (1 * two_to(r.1 as nat)) <= num,
                num < 0x100_0000,
                two_to(r.1 as nat) >= 2,
        ;
    }
    if r.1 == 0 {
        assert(two_to(0) == 1);
        assert(1 * two_to(0) == 1) by (nonlinear_arith)
            requires
                two_to(0) == 1,
        ;
        assert(num * two_to(0) == num) by (nonlinear_arith)
            requires
                two_to(0) == 1,
        ;
        lemma_round_half_even(num, 1);
    } else {
        let m = num * two_to((-r.1) as nat);
        lemma_round_half_even(m, 1);
    }
}

/// The numbers of magnitude at most one are the finite patterns that are at
/// most 2^149 smallest units in size: no NaN, no infinity, and no number
/// beyond one is among them.
pub proof fn lemma_unit_range(bits: u32)
    ensures
        is_nan(bits) ==> !in_unit_range(bits),
        !is_finite(bits) ==> !in_unit_range(bits),
        in_unit_range(bits) <==> is_finite(bits) && -(two_to(149) as int) <= in_smallest_units(
            bits,
        ) <= two_to(149),
{
    if is_finite(bits) {
        let m = significand(bits);
        let e = unit_exponent(bits);
        let unit = two_to((e + 149) as nat);
        lemma_two_to_increases(0, (e + 149) as nat);
        if e < 0 {
            let limit = two_to((-e) as nat);
            lemma_two_to_adds((e + 149) as nat, (-e) as nat);
            assert(limit * unit == two_to(149)) by (nonlinear_arith)
                requires
                    two_to(149) == unit * limit,
            ;
            assert(m <= limit <==> m * unit <= limit * unit) by (nonlinear_arith)
                requires
                    unit >= 1,
            ;
        } else {
            lemma_two_to_increases(149, (e + 149) as nat);
            assert(m >= 0x80_0000);
            lemma_two_to_increases(0, 149);
            assert(m * unit > two_to(149)) by (nonlinear_arith)
                requires
                    m >= 2,
                    unit >= two_to(149),
                    two_to(149) >= 1,
            ;
        }
    }
}

/// The order of the patterns is the order of the numbers: of two finite
/// patterns, the one of larger magnitude is the one that is more smallest
/// units in size.
pub proof fn lemma_larger(a: u32, b: u32)
    requires
        is_finite(a),
        is_finite(b),
    ensures
        larger(a, b) <==> significand(a) * two_to((unit_exponent(a) + 149) as nat) > significand(
            b,
        ) * two_to((unit_exponent(b) + 149) as nat),
{
    let ma = significand(a);
    let mb = significand(b);
    let ka = (unit_exponent(a) + 149) as nat;
    let kb = (unit_exponent(b) + 149) as nat;
    let ta = two_to(ka);
    let tb = two_to(kb);
    lemma_two_to_increases(0, ka);
    lemma_two_to_increases(0, kb);
    if ka == kb {
        assert(ma > mb <==> ma * ta > mb * tb) by (nonlinear_arith)
            requires
                ta == tb,
                ta >= 1,
        ;
    } else if ka > kb {
        // the smaller exponent may be that of a subnormal number
        lemma_two_to_increases(kb + 1, ka);
        assert(two_to(kb + 1) == 2 * tb);
        assert(ma * ta > mb * tb) by (nonlinear_arith)
            requires
                ma >= 0x80_0000,
                mb < 0x100_0000,
                ta >= 2 * tb,
                tb >= 1,
        ;
    } else {
        lemma_two_to_increases(ka + 1, kb);
        assert(two_to(ka + 1) == 2 * ta);
        assert(mb * tb > ma * ta) by (nonlinear_arith)
            requires
                mb >= 0x80_0000,
                ma < 0x100_0000,
                tb >= 2 * ta,
                ta >= 1,
        ;
    }
}

/// Computes two to the power `k`.
fn power_of_two(k: u32) -> (p: u64)
    requires
        k <= 62,
    ensures
        p == two_to(k as nat),
        p <= 0x4000_0000_0000_0000,
{
    let mut p: u64 = 1;
    let mut i: u32 = 0;
    proof {
        reveal_with_fuel(two_to, 63);
        assert(two_to(62) == 0x4000_0000_0000_0000);
    }
    while i < k
        invariant
            i <= k <= 62,
            p == two_to(i as nat),
            two_to(62) == 0x4000_0000_0000_0000,
        decreases k - i,
    {
        proof {
            lemma_two_to_increases((i + 1) as nat, 62);
        }
        p = 2 * p;
        i += 1;
    }
    proof {
        lemma_two_to_increases(k as nat, 62);
    }
    p
}

/// Rounds `num / den` to twenty-four significant bits.
fn round24_exec(num: u64, den: u64) -> (r: (u32, i32))
    requires
        0 < num < 0x1_0000_0000_0000,
        0 < den < 0x100_0000,
    ensures
        (r.0 as nat, r.1 as int) == round24(num as nat, den as nat),
        0x80_0000 <= r.0 <= 0x100_0000,
        -47 <= r.1 <= 24,
{
    let mut n: u64 = num;
    let mut d: u64 = den;
    let mut shift: i32 = 0;
    proof {
        reveal_with_fuel(two_to, 48);
        assert(two_to(47) == 0x8000_0000_0000);
        assert(two_to(24) == 0x100_0000);
    }
    while n < d * 0x80_0000
        invariant
            0 < n < 0x1_0000_0000_0000,
            d == den,
            0 < den < 0x100_0000,
            -47 <= shift <= 0,
            n >= two_to((-shift) as nat),
            two_to(47) == 0x8000_0000_0000,
            round24(num as nat, den as nat) == (
                round24(n as nat, d as nat).0,
                round24(n as nat, d as nat).1 + shift,
            ),
        decreases d * 0x100_0000 - n,
    {
        proof {
            if shift == -47 {
                assert(false);
            } else {
                lemma_two_to_increases((-shift + 1) as nat, 47);
            }
        }
        n = 2 * n;
        shift = shift - 1;
    }
    let ghost low = shift;
    let ghost mid = n;
    while n >= d * 0x100_0000
        invariant
            n == mid,
            0 < n < 0x1_0000_0000_0000,
            0 < d < 0x200_0000,
            n >= d * 0x80_0000,
            -47 <= low <= 0,
            low <= shift <= low + 24,
            d >= two_to((shift - low) as nat),
            two_to(24) == 0x100_0000,
            round24(num as nat, den as nat) == (
                round24(n as nat, d as nat).0,
                round24(n as nat, d as nat).1 + shift,
            ),
        decreases n - d * 0x80_0000,
    {
        proof {
            if shift == low + 24 {
                assert(false);
            }
        }
        d = 2 * d;
        shift = shift + 1;
    }
    let q = n / d;
    let rem = n % d;
    assert(0x80_0000 <= q < 0x100_0000) by (nonlinear_arith)
        requires
            q == n / d,
            d > 0,
            d * 0x80_0000 <= n < d * 0x100_0000,
    ;
    let sig = if 2 * rem < d || (2 * rem == d && q % 2 == 0) {
        q
    } else {
        q + 1
    };
    (sig as u32, shift)
}

/// Drops the fraction of `sig * 2^exp`; what reaches 2^31 is reported as
/// 2^31.
fn truncate(sig: u32, exp: i32) -> (size: u64)
    requires
        0x80_0000 <= sig <= 0x100_0000,
    ensures
        truncated(sig as nat, exp as int) >= 0x8000_0000 ==> size == 0x8000_0000,
        truncated(sig as nat, exp as int) < 0x8000_0000 ==> size == truncated(
            sig as nat,
            exp as int,
        ),
{
    proof {
        reveal_with_fuel(two_to, 26);
        assert(two_to(8) == 0x100);
        assert(two_to(25) == 0x200_0000);
    }
    if exp >= 8 {
        proof {
            lemma_two_to_increases(8, exp as nat);
            assert(sig * two_to(exp as nat) >= 0x8000_0000) by (nonlinear_arith)
                requires
                    sig >= 0x80_0000,
                    two_to(exp as nat) >= 0x100,
            ;
        }
        0x8000_0000
    } else if exp >= 0 {
        let p = power_of_two(exp as u32);
        proof {
            lemma_two_to_increases(exp as nat, 8);
            assert(sig * p <= 0x1_0000_0000) by (nonlinear_arith)
                requires
                    sig <= 0x100_0000,
                    p <= 0x100,
            ;
        }
        let size = sig as u64 * p;
        if size >= 0x8000_0000 {
            0x8000_0000
        } else {
            size
        }
    } else if exp <= -25 {
        proof {
            lemma_two_to_increases(25, (-exp) as nat);
            assert(sig as nat / two_to((-exp) as nat) == 0) by (nonlinear_arith)
                requires
                    sig <= 0x100_0000,
                    two_to((-exp) as nat) >= 0x200_0000,
            ;
        }
        0
    } else {
        let p = power_of_two((-exp) as u32);
        proof {
            lemma_two_to_increases(0, (-exp) as nat);
        }
        sig as u64 / p
    }
}

/// An IEEE 754 binary32 number, held as its bit pattern: one sign bit, eight
/// exponent bits, twenty-three fraction bits.
///
/// Ratios, voltages, currents and temperatures cross the interfaces of this
/// crate in this form. Callers convert with the `to_bits` and `from_bits` of
/// their single-precision type.
#[derive(Clone, Copy, PartialEq, Eq, Structural, Debug)]
pub struct Binary32 {
    bits: u32,
}

impl View for Binary32 {
    type V = u32;

    closed spec fn view(&self) -> u32 {
        self.bits
    }
}

impl Binary32 {
    /// The number with the given bit pattern.
    pub closed spec fn of_bits(bits: u32) -> Binary32 {
        Binary32 { bits }
    }

    /// A number is the number of its bit pattern.
    pub broadcast proof fn lemma_of_bits(self)
        ensures
            #[trigger] Binary32::of_bits(self@) == self,
    {
    }

    /// The bit pattern of the number with a given bit pattern is that
    /// pattern.
    pub broadcast proof fn lemma_of_bits_view(bits: u32)
        ensures
            (#[trigger] Binary32::of_bits(bits))@ == bits,
    {
    }

    /// The number with the given bit pattern.
    pub fn from_bits(bits: u32) -> (x: Binary32)
        ensures
            x@ == bits,
    {
        Binary32 { bits }
    }

    /// The bit pattern of the number.
    pub fn to_bits(&self) -> (bits: u32)
        ensures
            bits == self@,
    {
        self.bits
    }

    /// Whether this is a NaN.
    pub fn is_nan(&self) -> (b: bool)
        ensures
            b == is_nan(self@),
    {
        (self.bits / 0x80_0000) % 256 == 255 && self.bits % 0x80_0000 != 0
    }

    /// Whether this is a number, and not an infinity or a NaN.
    pub fn is_finite(&self) -> (b: bool)
        ensures
            b == is_finite(self@),
    {
        (self.bits / 0x80_0000) % 256 != 255
    }

    /// Whether the sign bit is set. It is set for negative numbers, for
    /// minus zero, and for some NaNs.
    pub fn is_sign_negative(&self) -> (b: bool)
        ensures
            b == is_negative(self@),
    {
        self.bits >= 0x8000_0000
    }

    /// Whether this is zero, of either sign.
    pub fn is_zero(&self) -> (b: bool)
        ensures
            b == is_zero(self@),
    {
        self.bits % 0x8000_0000 == 0
    }

    /// Whether this is a number at or above zero; minus zero is.
    pub fn is_at_least_zero(&self) -> (b: bool)
        ensures
            b == at_least_zero(self@),
    {
        !self.is_nan() && (!self.is_sign_negative() || self.is_zero())
    }

    /// Whether this is a number below zero.
    pub fn is_below_zero(&self) -> (b: bool)
        ensures
            b == below_zero(self@),
    {
        !self.is_nan() && self.is_sign_negative() && !self.is_zero()
    }

    /// Whether this is a number above the number `other`.
    pub fn is_above(&self, other: &Binary32) -> (b: bool)
        ensures
            b == above(self@, other@),
    {
        if self.is_nan() || other.is_nan() {
            return false;
        }
        let a = self.bits % 0x8000_0000;
        let b = other.bits % 0x8000_0000;
        assert((a > b) == larger(self@, other@));
        assert((b > a) == larger(other@, self@));
        if self.is_sign_negative() {
            other.is_sign_negative() && b > a
        } else if other.is_sign_negative() {
            !(a == 0 && b == 0)
        } else {
            a > b
        }
    }

    /// Whether this is a number of magnitude at most one.
    pub fn within_unit(&self) -> (b: bool)
        ensures
            b == in_unit_range(self@),
    {
        let size = self.bits % 0x8000_0000;
        proof {
            let field = exponent_field(self.bits);
            reveal_with_fuel(two_to, 25);
            assert(two_to(22) == 0x40_0000);
            assert(two_to(23) == 0x80_0000);
            assert(two_to(24) == 0x100_0000);
            assert(size == field * 0x80_0000 + fraction_field(self.bits));
            if field == 0 {
                lemma_two_to_increases(23, 149);
            } else if field <= 126 {
                lemma_two_to_increases(24, (150 - field) as nat);
            } else if 128 <= field <= 149 {
                lemma_two_to_increases((150 - field) as nat, 22);
            }
        }
        size <= 0x3f80_0000
    }

    /// The same number with the opposite sign.
    pub fn negated(&self) -> (x: Binary32)
        ensures
            x@ == negation(self@),
            is_negative(x@) != is_negative(self@),
            exponent_field(x@) == exponent_field(self@),
            fraction_field(x@) == fraction_field(self@),
    {
        if self.bits >= 0x8000_0000 {
            Binary32 { bits: self.bits - 0x8000_0000 }
        } else {
            Binary32 { bits: self.bits + 0x8000_0000 }
        }
    }

    /// The sign, the significand and the exponent of the unit in the last
    /// place of a finite number.
    fn decode(&self) -> (parts: (bool, u32, i32))
        requires
            is_finite(self@),
        ensures
            parts.0 == is_negative(self@),
            parts.1 == significand(self@),
            parts.2 == unit_exponent(self@),
            parts.1 < 0x100_0000,
            -149 <= parts.2 <= 104,
    {
        let field = (self.bits / 0x80_0000) % 256;
        let fraction = self.bits % 0x80_0000;
        let negative = self.bits >= 0x8000_0000;
        if field == 0 {
            (negative, fraction, -149)
        } else {
            (negative, 0x80_0000 + fraction, field as i32 - 150)
        }
    }

    /// Puts a number together from its sign, a significand between 2^23 and
    /// 2^24 and the exponent of its unit, which must be in the range of the
    /// normal numbers.
    fn encode(negative: bool, sig: u32, exp: i32) -> (x: Binary32)
        requires
            0x80_0000 <= sig <= 0x100_0000,
            -149 <= exp <= 103,
        ensures
            x@ == assemble(negative, sig as nat, exp as int),
    {
        let sign: u32 = if negative {
            0x8000_0000
        } else {
            0
        };
        if sig == 0x100_0000 {
            Binary32 { bits: sign + ((exp + 151) as u32) * 0x80_0000 }
        } else {
            Binary32 { bits: sign + ((exp + 150) as u32) * 0x80_0000 + (sig - 0x80_0000) }
        }
    }

    /// What single-precision division gives for the integer `num` over the
    /// positive integer `den`.
    pub(crate) fn quotient(num: i32, den: u32) -> (x: Binary32)
        requires
            0 < den < 0x100_0000,
        ensures
            x@ == quotient_of(num as int, den as nat),
    {
        let wide: i64 = num as i64;
        let size: u64 = if wide < 0 {
            (-wide) as u64
        } else {
            wide as u64
        };
        if size == 0 {
            return Binary32 { bits: 0 };
        }
        let first = round24_exec(size, 1);
        let second = round24_exec(first.0 as u64, den as u64);
        Binary32::encode(num < 0, second.0, first.1 + second.1)
    }

    /// What single-precision multiplication gives for the integer `value`
    /// times `factor`, for a normal `factor` between 2^-95 and 2^65.
    pub(crate) fn scaled(value: i32, factor: &Binary32) -> (x: Binary32)
        requires
            32 <= exponent_field(factor@) <= 192,
        ensures
            x@ == product_of(value as int, factor@),
    {
        let wide: i64 = value as i64;
        let size: u64 = if wide < 0 {
            (-wide) as u64
        } else {
            wide as u64
        };
        let negative = (value < 0) != factor.is_sign_negative();
        if size == 0 {
            return Binary32 {
                bits: if negative {
                    0x8000_0000
                } else {
                    0
                },
            };
        }
        let f = factor.decode();
        let first = round24_exec(size, 1);
        assert(0x4000_0000_0000 <= first.0 * f.1 < 0x1_0000_0000_0000) by (nonlinear_arith)
            requires
                0x80_0000 <= first.0 <= 0x100_0000,
                0x80_0000 <= f.1 < 0x100_0000,
        ;
        let second = round24_exec(first.0 as u64 * f.1 as u64, 1);
        proof {
            reveal_with_fuel(two_to, 49);
            assert(two_to(0) == 1);
            assert(two_to(32) == 0x1_0000_0000);
            assert(two_to(46) == 0x4000_0000_0000);
            assert(two_to(48) == 0x1_0000_0000_0000);
            lemma_round24_whole(size as nat, 0, 32);
            lemma_round24_whole((first.0 * f.1) as nat, 46, 48);
        }
        Binary32::encode(negative, second.0, first.1 + second.1 + f.2)
    }

    /// What single-precision subtraction gives for this number less
    /// `other`, for two normal numbers between 2^-102 and 2^103 whose
    /// exponents differ by no more than 23.
    pub(crate) fn minus(&self, other: &Binary32) -> (x: Binary32)
        requires
            24 <= exponent_field(self@) <= 229,
            24 <= exponent_field(other@) <= 229,
            exponent_field(self@) <= exponent_field(other@) + 23,
            exponent_field(other@) <= exponent_field(self@) + 23,
        ensures
            x@ == difference_of(self@, other@),
    {
        let a = self.decode();
        let b = other.decode();
        let exp = if a.2 < b.2 {
            a.2
        } else {
            b.2
        };
        let pa = power_of_two((a.2 - exp) as u32);
        let pb = power_of_two((b.2 - exp) as u32);
        proof {
            reveal_with_fuel(two_to, 24);
            assert(two_to(23) == 0x80_0000);
            lemma_two_to_increases((a.2 - exp) as nat, 23);
            lemma_two_to_increases((b.2 - exp) as nat, 23);
            lemma_two_to_increases(0, (a.2 - exp) as nat);
            lemma_two_to_increases(0, (b.2 - exp) as nat);
            assert(0 < a.1 * pa < 0x8000_0000_0000 && 0 < b.1 * pb < 0x8000_0000_0000)
                by (nonlinear_arith)
                requires
                    0 < a.1 < 0x100_0000,
                    0 < b.1 < 0x100_0000,
                    1 <= pa <= 0x80_0000,
                    1 <= pb <= 0x80_0000,
            ;
        }
        let na: i64 = if a.0 {
            -((a.1 as u64 * pa) as i64)
        } else {
            (a.1 as u64 * pa) as i64
        };
        let nb: i64 = if b.0 {
            -((b.1 as u64 * pb) as i64)
        } else {
            (b.1 as u64 * pb) as i64
        };
        let d: i64 = na - nb;
        if d == 0 {
            return Binary32 {
                bits: if a.0 && !b.0 {
                    0x8000_0000
                } else {
                    0
                },
            };
        }
        let size: u64 = if d < 0 {
            (-d) as u64
        } else {
            d as u64
        };
        let r = round24_exec(size, 1);
        proof {
            reveal_with_fuel(two_to, 49);
            assert(two_to(0) == 1);
            assert(two_to(48) == 0x1_0000_0000_0000);
            lemma_round24_whole(size as nat, 0, 48);
        }
        Binary32::encode(d < 0, r.0, r.1 + exp)
    }

    /// The product of this number and `other` as single precision computes
    /// it, converted to `i32`: the fraction is dropped, what does not fit is
    /// replaced by the nearest bound, and a NaN gives zero.
    pub fn mul_to_i32(&self, other: &Binary32) -> (r: i32)
        ensures
            r == product_truncated(self@, other@),
    {
        if self.is_nan() || other.is_nan() {
            return 0;
        }
        if self.is_zero() || other.is_zero() {
            return 0;
        }
        let negative = self.is_sign_negative() != other.is_sign_negative();
        if !self.is_finite() || !other.is_finite() {
            return if negative {
                i32::MIN
            } else {
                i32::MAX
            };
        }
        let a = self.decode();
        let b = other.decode();
        assert(a.1 * b.1 < 0x1_0000_0000_0000 && a.1 * b.1 > 0) by (nonlinear_arith)
            requires
                0 < a.1 < 0x100_0000,
                0 < b.1 < 0x100_0000,
        ;
        let r = round24_exec(a.1 as u64 * b.1 as u64, 1);
        let size = truncate(r.0, r.1 + a.2 + b.2);
        if negative {
            if size >= 0x8000_0000 {
                i32::MIN
            } else {
                -(size as i32)
            }
        } else {
            if size >= 0x8000_0000 {
                i32::MAX
            } else {
                size as i32
            }
        }
    }
}

/// The number that single-precision division gives for `read / unit`.
pub open spec fn divided(read: int, unit: nat) -> Binary32 {
    Binary32::of_bits(quotient_of(read, unit))
}

/// The number that single-precision multiplication gives for `read` times
/// the number of pattern `factor`.
pub open spec fn multiplied(read: int, factor: u32) -> Binary32 {
    Binary32::of_bits(product_of(read, factor))
}

} // verus!
