//! Binary floating-point numbers by their bit patterns, compared and written out exactly.
//!
//! A finite number is an integer multiple of 2^-1074. That integer is its exact value here,
//! so every statement below is one about integers.

use vstd::arithmetic::div_mod;
use vstd::arithmetic::mul;
use vstd::arithmetic::power2;
use vstd::prelude::*;

verus! {

/// A finite number: `significand` times 2 to the power `shift`, in multiples of 2^-1074.
#[derive(Clone, Copy, Debug, PartialEq, Eq, Structural)]
pub struct Exact {
    pub negative: bool,
    pub significand: u64,
    pub shift: u32,
}

impl Exact {
    /// The absolute value.
    pub open spec fn magnitude(self) -> int {
        self.significand * power2::pow2(self.shift as nat)
    }

    /// The value.
    pub open spec fn value(self) -> int {
        if self.negative {
            -self.magnitude()
        } else {
            self.magnitude()
        }
    }

    /// The bounds that every decoded number keeps.
    pub open spec fn decoded(self) -> bool {
        &&& self.significand < 0x20_0000_0000_0000
        &&& self.shift <= 2046
        &&& self.shift > 1000 ==> self.significand >= 0x10_0000_0000_0000
    }
}

/// The value of the number 1.
pub open spec fn one() -> int {
    power2::pow2(1074) as int
}

// ---- binary64 ----

/// The number is neither infinite nor a NaN.
pub open spec fn is_finite64(bits: u64) -> bool {
    (bits / 0x10_0000_0000_0000) % 2048 != 2047
}

/// The number that a binary64 pattern stands for.
pub open spec fn exact64(bits: u64) -> Exact {
    let exponent = (bits / 0x10_0000_0000_0000) % 2048;
    let fraction = bits % 0x10_0000_0000_0000;
    Exact {
        negative: bits >= 0x8000_0000_0000_0000,
        significand: if exponent == 0 {
            fraction
        } else {
            (fraction + 0x10_0000_0000_0000) as u64
        },
        shift: if exponent == 0 {
            0
        } else {
            (exponent - 1) as u32
        },
    }
}

/// The value of a binary64 pattern.
pub open spec fn value64(bits: u64) -> int {
    exact64(bits).value()
}

/// The pattern as a signed integer that orders the finite numbers by their values.
pub open spec fn order64(bits: u64) -> int {
    if bits >= 0x8000_0000_0000_0000 {
        -(bits - 0x8000_0000_0000_0000)
    } else {
        bits as int
    }
}

// ---- binary32 ----

/// The number is neither infinite nor a NaN.
pub open spec fn is_finite32(bits: u32) -> bool {
    (bits / 0x80_0000) % 256 != 255
}

/// The number that a binary32 pattern stands for.
pub open spec fn exact32(bits: u32) -> Exact {
    let exponent = (bits / 0x80_0000) % 256;
    let fraction = bits % 0x80_0000;
    Exact {
        negative: bits >= 0x8000_0000,
        significand: if exponent == 0 {
            (fraction * 0x2000_0000) as u64
        } else {
            ((fraction + 0x80_0000) * 0x2000_0000) as u64
        },
        shift: if exponent == 0 {
            896
        } else {
            (exponent + 895) as u32
        },
    }
}

/// The value of a binary32 pattern.
pub open spec fn value32(bits: u32) -> int {
    exact32(bits).value()
}

/// The pattern as a signed integer that orders the finite numbers by their values.
pub open spec fn order32(bits: u32) -> int {
    if bits >= 0x8000_0000 {
        -(bits - 0x8000_0000)
    } else {
        bits as int
    }
}

// ---- order ----

/// A larger exponent field means a larger number: the step from one power of two to the
/// next outweighs every significand.
proof fn magnitude_grows(m: int, i: nat, n: int, j: nat, top: int)
    requires
        0 <= m < 2 * top,
        top <= n,
        i < j,
    ensures
        m * power2::pow2(i) < n * power2::pow2(j),
{
    power2::lemma_pow2_pos(i);
    power2::lemma_pow2_unfold(i + 1);
    if i + 1 < j {
        power2::lemma_pow2_strictly_increases(i + 1, j);
    }
    let p = power2::pow2(i) as int;
    let q = power2::pow2(j) as int;
    assert(2 * p <= q);
    assert(m * p < (2 * top) * p) by (nonlinear_arith)
        requires
            m < 2 * top,
            p > 0,
    ;
    assert((2 * top) * p == top * (2 * p)) by (nonlinear_arith);
    assert(top * (2 * p) <= n * q) by (nonlinear_arith)
        requires
            0 <= top <= n,
            0 <= 2 * p <= q,
    ;
}

/// Of two patterns without their signs the larger one stands for the larger number.
proof fn magnitudes_follow_patterns64(a: u64, b: u64)
    requires
        a < b < 0x7ff0_0000_0000_0000,
    ensures
        exact64(a).magnitude() < exact64(b).magnitude(),
{
    let ea = a / 0x10_0000_0000_0000;
    let eb = b / 0x10_0000_0000_0000;
    let x = exact64(a);
    let y = exact64(b);
    power2::lemma_pow2_pos(x.shift as nat);
    power2::lemma_pow2_pos(y.shift as nat);
    if x.shift == y.shift {
        assert(x.significand < y.significand);
        mul::lemma_mul_strict_inequality(
            x.significand as int,
            y.significand as int,
            power2::pow2(x.shift as nat) as int,
        );
    } else {
        magnitude_grows(
            x.significand as int,
            x.shift as nat,
            y.significand as int,
            y.shift as nat,
            0x10_0000_0000_0000,
        );
    }
}

/// Of two finite binary64 numbers the smaller one is the one whose pattern orders first.
pub proof fn order_is_by_value64(a: u64, b: u64)
    requires
        is_finite64(a),
        is_finite64(b),
    ensures
        order64(a) < order64(b) <==> value64(a) < value64(b),
        order64(a) == order64(b) <==> value64(a) == value64(b),
{
    let top: u64 = 0x8000_0000_0000_0000;
    let ma = if a >= top { (a - top) as u64 } else { a };
    let mb = if b >= top { (b - top) as u64 } else { b };
    assert(exact64(ma).magnitude() == exact64(a).magnitude());
    assert(exact64(mb).magnitude() == exact64(b).magnitude());
    if ma < mb {
        magnitudes_follow_patterns64(ma, mb);
    }
    if mb < ma {
        magnitudes_follow_patterns64(mb, ma);
    }
    assert(exact64(0).significand == 0);
    assert(exact64(0).magnitude() == 0) by (nonlinear_arith)
        requires
            exact64(0).magnitude() == 0 * power2::pow2(exact64(0).shift as nat),
    ;
    if ma > 0 {
        magnitudes_follow_patterns64(0, ma);
    }
    if mb > 0 {
        magnitudes_follow_patterns64(0, mb);
    }
}

/// Of two patterns without their signs the larger one stands for the larger number.
proof fn magnitudes_follow_patterns32(a: u32, b: u32)
    requires
        a < b < 0x7f80_0000,
    ensures
        exact32(a).magnitude() < exact32(b).magnitude(),
{
    let x = exact32(a);
    let y = exact32(b);
    power2::lemma_pow2_pos(x.shift as nat);
    power2::lemma_pow2_pos(y.shift as nat);
    if x.shift == y.shift {
        assert(x.significand < y.significand);
        mul::lemma_mul_strict_inequality(
            x.significand as int,
            y.significand as int,
            power2::pow2(x.shift as nat) as int,
        );
    } else {
        magnitude_grows(
            x.significand as int,
            x.shift as nat,
            y.significand as int,
            y.shift as nat,
            0x10_0000_0000_0000,
        );
    }
}

/// Of two finite binary32 numbers the smaller one is the one whose pattern orders first.
pub proof fn order_is_by_value32(a: u32, b: u32)
    requires
        is_finite32(a),
        is_finite32(b),
    ensures
        order32(a) < order32(b) <==> value32(a) < value32(b),
        order32(a) == order32(b) <==> value32(a) == value32(b),
{
    let top: u32 = 0x8000_0000;
    let ma = if a >= top { (a - top) as u32 } else { a };
    let mb = if b >= top { (b - top) as u32 } else { b };
    assert(exact32(ma).magnitude() == exact32(a).magnitude());
    assert(exact32(mb).magnitude() == exact32(b).magnitude());
    if ma < mb {
        magnitudes_follow_patterns32(ma, mb);
    }
    if mb < ma {
        magnitudes_follow_patterns32(mb, ma);
    }
    assert(exact32(0).significand == 0);
    assert(exact32(0).magnitude() == 0) by (nonlinear_arith)
        requires
            exact32(0).magnitude() == 0 * power2::pow2(exact32(0).shift as nat),
    ;
    if ma > 0 {
        magnitudes_follow_patterns32(0, ma);
    }
    if mb > 0 {
        magnitudes_follow_patterns32(0, mb);
    }
}

pub fn finite64(bits: u64) -> (finite: bool)
    ensures
        finite == is_finite64(bits),
{
    (bits / 0x10_0000_0000_0000) % 2048 != 2047
}

pub fn finite32(bits: u32) -> (finite: bool)
    ensures
        finite == is_finite32(bits),
{
    (bits / 0x80_0000) % 256 != 255
}

pub fn decode64(bits: u64) -> (exact: Exact)
    requires
        is_finite64(bits),
    ensures
        exact == exact64(bits),
        exact.decoded(),
{
    let exponent: u64 = (bits / 0x10_0000_0000_0000) % 2048;
    let fraction: u64 = bits % 0x10_0000_0000_0000;
    Exact {
        negative: bits >= 0x8000_0000_0000_0000,
        significand: if exponent == 0 {
            fraction
        } else {
            fraction + 0x10_0000_0000_0000
        },
        shift: if exponent == 0 {
            0
        } else {
            (exponent - 1) as u32
        },
    }
}

pub fn decode32(bits: u32) -> (exact: Exact)
    requires
        is_finite32(bits),
    ensures
        exact == exact32(bits),
        exact.decoded(),
{
    let exponent: u32 = (bits / 0x80_0000) % 256;
    let fraction: u32 = bits % 0x80_0000;
    Exact {
        negative: bits >= 0x8000_0000,
        significand: if exponent == 0 {
            fraction as u64 * 0x2000_0000
        } else {
            (fraction as u64 + 0x80_0000) * 0x2000_0000
        },
        shift: if exponent == 0 {
            896
        } else {
            exponent + 895
        },
    }
}

// ---- rounding ----

/// The two formats.
#[derive(Clone, Copy, Debug, PartialEq, Eq, Structural)]
pub enum Format {
    Single,
    Double,
}

impl Format {
    /// The number of binary digits of a significand.
    pub open spec fn precision(self) -> nat {
        match self {
            Format::Single => 24,
            Format::Double => 53,
        }
    }

    /// The exponent of the smallest step between numbers.
    pub open spec fn lowest(self) -> nat {
        match self {
            Format::Single => 925,
            Format::Double => 0,
        }
    }

    /// The smallest significand of a number that is not subnormal.
    pub open spec fn hidden(self) -> nat {
        match self {
            Format::Single => 0x80_0000,
            Format::Double => 0x10_0000_0000_0000,
        }
    }

    /// The pattern of infinity.
    pub open spec fn infinity(self) -> nat {
        match self {
            Format::Single => 0x7f80_0000,
            Format::Double => 0x7ff0_0000_0000_0000,
        }
    }

    fn least_normal(self) -> (significand: u64)
        ensures
            significand == self.hidden(),
            2 * significand == power2::pow2(self.precision()),
    {
        proof {
            power2::lemma2_to64();
            power2::lemma2_to64_rest();
        }
        match self {
            Format::Single => 0x80_0000,
            Format::Double => 0x10_0000_0000_0000,
        }
    }

    fn infinite(self) -> (pattern: u64)
        ensures
            pattern == self.infinity(),
    {
        match self {
            Format::Single => 0x7f80_0000,
            Format::Double => 0x7ff0_0000_0000_0000,
        }
    }
}

/// A quotient rounded to the nearest integer, and to the even one of two that are as near.
pub open spec fn half_even(num: nat, den: nat) -> nat {
    let q = num / den;
    let r = num % den;
    if 2 * r < den || (2 * r == den && q % 2 == 0) {
        q
    } else {
        q + 1
    }
}

/// The step between the numbers of a format around `num / den` is 2^`unit`, where the
/// smallest step of all is 2^`lowest`.
pub open spec fn is_unit(num: nat, den: nat, lowest: nat, format: Format, unit: nat) -> bool {
    &&& unit >= lowest
    &&& num < den * power2::pow2(unit + format.precision())
    &&& unit > lowest ==> num >= den * power2::pow2((unit - 1 + format.precision()) as nat)
}

/// The pattern, without its sign, of the number nearest to `num / den`.
pub open spec fn nearest_from(num: nat, den: nat, lowest: nat, format: Format) -> nat {
    let unit = choose|unit: nat| is_unit(num, den, lowest, format, unit);
    let pattern = (unit - lowest) as nat * format.hidden() + half_even(
        num,
        den * power2::pow2(unit),
    );
    if pattern < format.infinity() {
        pattern
    } else {
        format.infinity()
    }
}

/// The pattern, without its sign, of the number nearest to `num / den` times 2^-1074.
pub open spec fn nearest(num: nat, den: nat, format: Format) -> nat {
    nearest_from(num, den, format.lowest(), format)
}

/// There is only one step around a number.
proof fn one_unit(num: nat, den: nat, lowest: nat, format: Format, u: nat, v: nat)
    requires
        is_unit(num, den, lowest, format, u),
        is_unit(num, den, lowest, format, v),
    ensures
        u == v,
{
    if u < v {
        lower_is_no_unit(num, den, lowest, format, u, v);
    } else if v < u {
        lower_is_no_unit(num, den, lowest, format, v, u);
    }
}

proof fn lower_is_no_unit(num: nat, den: nat, lowest: nat, format: Format, u: nat, v: nat)
    requires
        is_unit(num, den, lowest, format, v),
        lowest <= u < v,
    ensures
        !is_unit(num, den, lowest, format, u),
{
    let p = format.precision();
    if u + p < v - 1 + p {
        power2::lemma_pow2_strictly_increases(u + p, (v - 1 + p) as nat);
    }
    mul::lemma_mul_inequality(
        power2::pow2(u + p) as int,
        power2::pow2((v - 1 + p) as nat) as int,
        den as int,
    );
    mul::lemma_mul_is_commutative(den as int, power2::pow2(u + p) as int);
    mul::lemma_mul_is_commutative(den as int, power2::pow2((v - 1 + p) as nat) as int);
}

/// What is left of a quotient beyond its whole part.
#[derive(Clone, Copy, Debug, PartialEq, Eq, Structural)]
pub enum Rest {
    Nothing,
    BelowHalf,
    Half,
    AboveHalf,
}

impl Rest {
    pub open spec fn of(remainder: int, den: int) -> Rest {
        if remainder == 0 {
            Rest::Nothing
        } else if 2 * remainder < den {
            Rest::BelowHalf
        } else if 2 * remainder == den {
            Rest::Half
        } else {
            Rest::AboveHalf
        }
    }
}

/// `n` and `rest` are the whole part and the rest of `num / (den * 2^low)`.
pub open spec fn splits(num: nat, den: nat, low: nat, n: nat, rest: Rest) -> bool {
    let scaled = den * power2::pow2(low);
    n == num / scaled && rest == Rest::of((num % scaled) as int, scaled as int)
}

/// Twice the divisor: the last binary digit of the whole part goes over to the rest.
proof fn next_split(num: nat, den: nat, low: nat, n: nat, rest: Rest)
    requires
        den > 0,
        splits(num, den, low, n, rest),
    ensures
        splits(
            num,
            den,
            low + 1,
            n / 2,
            if n % 2 == 0 {
                if rest == Rest::Nothing {
                    Rest::Nothing
                } else {
                    Rest::BelowHalf
                }
            } else {
                if rest == Rest::Nothing {
                    Rest::Half
                } else {
                    Rest::AboveHalf
                }
            },
        ),
{
    power2::lemma_pow2_pos(low);
    power2::lemma_pow2_unfold(low + 1);
    let x = power2::pow2(low) as int;
    let s = den * x;
    assert(s > 0) by (nonlinear_arith)
        requires
            den > 0,
            x > 0,
            s == den * x,
    ;
    assert(den * (2 * x) == 2 * s) by (nonlinear_arith)
        requires
            s == den * x,
    ;
    let r = num as int % s;
    div_mod::lemma_fundamental_div_mod(num as int, s);
    let half = n as int / 2;
    let odd = n as int % 2;
    assert(s * n == (2 * s) * half + s * odd) by (nonlinear_arith)
        requires
            n == 2 * half + odd,
    ;
    assert(0 <= s * odd + r < 2 * s) by (nonlinear_arith)
        requires
            0 <= r < s,
            odd == 0 || odd == 1,
    ;
    assert(num == half * (2 * s) + (s * odd + r)) by (nonlinear_arith)
        requires
            num == s * n + r,
            s * n == (2 * s) * half + s * odd,
    ;
    div_mod::lemma_fundamental_div_mod_converse(num as int, 2 * s, half, s * odd + r);
    assert(s * 0 == 0);
    assert(s * 1 == s);
}

/// Half the divisor, where nothing is left over.
proof fn previous_split(num: nat, den: nat, low: nat, n: nat)
    requires
        den > 0,
        low > 0,
        splits(num, den, low, n, Rest::Nothing),
    ensures
        splits(num, den, (low - 1) as nat, 2 * n, Rest::Nothing),
{
    power2::lemma_pow2_pos((low - 1) as nat);
    power2::lemma_pow2_unfold(low);
    let x = power2::pow2((low - 1) as nat) as int;
    let s = den * x;
    assert(s > 0) by (nonlinear_arith)
        requires
            den > 0,
            x > 0,
            s == den * x,
    ;
    assert(den * (2 * x) == 2 * s) by (nonlinear_arith)
        requires
            s == den * x,
    ;
    div_mod::lemma_fundamental_div_mod(num as int, 2 * s);
    assert(num == (2 * n) * s) by (nonlinear_arith)
        requires
            num == (2 * s) * n,
    ;
    div_mod::lemma_fundamental_div_mod_converse(num as int, s, 2 * n as int, 0);
}

/// A bound on the whole part is a bound on the quotient.
proof fn whole_part_bound(num: nat, den: nat, low: nat, n: nat, rest: Rest, digits: nat)
    requires
        den > 0,
        splits(num, den, low, n, rest),
    ensures
        n < power2::pow2(digits) <==> num < den * power2::pow2(low + digits),
{
    power2::lemma_pow2_pos(low);
    power2::lemma_pow2_adds(low, digits);
    let x = power2::pow2(low) as int;
    let y = power2::pow2(digits) as int;
    let s = den * x;
    assert(s > 0) by (nonlinear_arith)
        requires
            den > 0,
            x > 0,
            s == den * x,
    ;
    div_mod::lemma_fundamental_div_mod(num as int, s);
    assert(den * (x * y) == s * y) by (nonlinear_arith)
        requires
            s == den * x,
    ;
    let r = num as int % s;
    if n < y {
        assert(s * n + r < s * y) by (nonlinear_arith)
            requires
                n + 1 <= y,
                0 <= r < s,
        ;
    } else {
        assert(s * n >= s * y) by (nonlinear_arith)
            requires
                n >= y,
                s > 0,
        ;
    }
}

/// Dropping a binary digit does not raise the number; and a 128-bit number has only 128.
proof fn still_small(whole: nat, steps: nat)
    requires
        whole * power2::pow2(steps) < 0x1_0000_0000_0000_0000_0000_0000_0000_0000,
    ensures
        (whole / 2) * power2::pow2(steps + 1) < 0x1_0000_0000_0000_0000_0000_0000_0000_0000,
        whole > 0 ==> steps < 128,
{
    power2::lemma_pow2_unfold(steps + 1);
    let x = power2::pow2(steps) as int;
    let half = whole as int / 2;
    assert(half * (2 * x) <= whole * x) by (nonlinear_arith)
        requires
            2 * half <= whole,
            x >= 0,
    ;
    if whole > 0 && steps >= 128 {
        power2::lemma_pow2_adds(64, 64);
        power2::lemma2_to64_rest();
        if steps > 128 {
            power2::lemma_pow2_strictly_increases(128, steps);
        }
        assert(whole * x >= x) by (nonlinear_arith)
            requires
                whole >= 1,
                x >= 0,
        ;
    }
}

/// Rounds a quotient, given by its whole part and rest.
fn round(
    n: u128,
    low: u32,
    rest: Rest,
    lowest: u32,
    format: Format,
    Ghost(num): Ghost<nat>,
    Ghost(den): Ghost<nat>,
) -> (pattern: u64)
    requires
        den > 0,
        low <= 0x1_0000,
        lowest <= 0x1_0000,
        splits(num, den, low as nat, n as nat, rest),
        rest != Rest::Nothing ==> n >= format.hidden() || low <= lowest,
    ensures
        pattern == nearest_from(num, den, lowest as nat, format),
        pattern <= format.infinity(),
        exists|unit: nat| is_unit(num, den, lowest as nat, format, unit),
{
    let hidden: u64 = format.least_normal();
    let mut whole: u128 = n;
    let mut at: u32 = low;
    let mut left: Rest = rest;
    let ghost top = power2::pow2(format.precision()) as int;
    proof {
        power2::lemma_pow2_unfold(format.precision());
    }
    while left == Rest::Nothing && at > lowest && whole < hidden as u128
        invariant
            den > 0,
            at <= 0x1_0000,
            splits(num, den, at as nat, whole as nat, left),
            left != Rest::Nothing ==> whole >= hidden || at <= lowest,
            hidden == format.hidden(),
            hidden <= 0x10_0000_0000_0000,
        decreases at,
    {
        proof {
            previous_split(num, den, at as nat, whole as nat);
        }
        whole = 2 * whole;
        at = at - 1;
    }
    let ghost start = at;
    proof {
        power2::lemma2_to64();
        assert(whole * power2::pow2(0) == whole);
        if at > lowest {
            let p = (format.precision() - 1) as nat;
            assert(power2::pow2(p) == hidden);
            whole_part_bound(num, den, at as nat, whole as nat, left, p);
        }
    }
    while whole >= 2 * hidden as u128 || at < lowest
        invariant
            den > 0,
            start <= 0x1_0000,
            lowest <= 0x1_0000,
            start <= at <= 0x2_0000,
            whole * power2::pow2((at - start) as nat)
                < 0x1_0000_0000_0000_0000_0000_0000_0000_0000,
            splits(num, den, at as nat, whole as nat, left),
            hidden == format.hidden(),
            2 * hidden == power2::pow2(format.precision()),
            hidden <= 0x10_0000_0000_0000,
            at > lowest ==> num >= den * power2::pow2((at - 1 + format.precision()) as nat),
        decreases whole, 0x2_0000 - at,
    {
        proof {
            next_split(num, den, at as nat, whole as nat, left);
            still_small(whole as nat, (at - start) as nat);
            whole_part_bound(num, den, at as nat, whole as nat, left, format.precision());
        }
        left = if whole % 2 == 0 {
            if left == Rest::Nothing {
                Rest::Nothing
            } else {
                Rest::BelowHalf
            }
        } else {
            if left == Rest::Nothing {
                Rest::Half
            } else {
                Rest::AboveHalf
            }
        };
        whole = whole / 2;
        at = at + 1;
    }
    proof {
        whole_part_bound(num, den, at as nat, whole as nat, left, format.precision());
        assert(is_unit(num, den, lowest as nat, format, at as nat));
        let unit = choose|unit: nat| is_unit(num, den, lowest as nat, format, unit);
        one_unit(num, den, lowest as nat, format, unit, at as nat);
    }
    let rounded: u64 = match left {
        Rest::Nothing => whole as u64,
        Rest::BelowHalf => whole as u64,
        Rest::Half => if whole % 2 == 0 {
            whole as u64
        } else {
            whole as u64 + 1
        },
        Rest::AboveHalf => whole as u64 + 1,
    };
    let infinity: u64 = format.infinite();
    let step: u64 = (at - lowest) as u64;
    proof {
        let scaled = den * power2::pow2(at as nat);
        power2::lemma_pow2_pos(at as nat);
        assert(scaled > 0) by (nonlinear_arith)
            requires
                den > 0,
                power2::pow2(at as nat) > 0,
                scaled == den * power2::pow2(at as nat),
        ;
        assert(rounded == half_even(num, scaled));
    }
    if step >= 2047 {
        assert(step * hidden >= 2047 * hidden) by (nonlinear_arith)
            requires
                step >= 2047,
                hidden >= 0,
        ;
        return infinity;
    }
    assert(step * hidden <= 2046 * hidden) by (nonlinear_arith)
        requires
            step <= 2046,
            hidden >= 0,
    ;
    let pattern: u64 = step * hidden + rounded;
    if pattern < infinity {
        pattern
    } else {
        infinity
    }
}

/// A power of two that fits.
pub fn power_of_two(exponent: u32) -> (power: u128)
    requires
        exponent <= 126,
    ensures
        power == power2::pow2(exponent as nat),
        exponent <= 64 ==> power <= 0x1_0000_0000_0000_0000,
        power <= 0x4000_0000_0000_0000_0000_0000_0000_0000,
{
    let mut power: u128 = 1;
    let mut left: u32 = exponent;
    proof {
        power2::lemma2_to64();
        power2::lemma2_to64_rest();
        power2::lemma_pow2_adds(64, 62);
    }
    while left > 0
        invariant
            left <= exponent <= 126,
            power == power2::pow2((exponent - left) as nat),
            power2::pow2(126) == 0x4000_0000_0000_0000_0000_0000_0000_0000,
        decreases left,
    {
        proof {
            power2::lemma_pow2_unfold((exponent - left + 1) as nat);
            power2::lemma_pow2_strictly_increases((exponent - left) as nat, 126);
        }
        power = 2 * power;
        left = left - 1;
    }
    proof {
        if exponent < 126 {
            power2::lemma_pow2_strictly_increases(exponent as nat, 126);
        }
        if exponent < 64 {
            power2::lemma_pow2_strictly_increases(exponent as nat, 64);
        }
    }
    power
}

/// Products with two powers of two in a row.
proof fn shifted(m: int, low: nat, extra: nat)
    ensures
        (m * power2::pow2(extra)) * power2::pow2(low) == m * power2::pow2(low + extra),
{
    power2::lemma_pow2_adds(low, extra);
    let x = power2::pow2(low) as int;
    let y = power2::pow2(extra) as int;
    assert((m * y) * x == m * (x * y)) by (nonlinear_arith);
}


// ---- arithmetic ----

/// A common factor cancels out of a quotient.
pub proof fn cancel(x: nat, y: nat, c: nat)
    requires
        y > 0,
        c > 0,
    ensures
        (x * c) / (y * c) == x / y,
        (x * c) % (y * c) == (x % y) * c,
        Rest::of((x * c) as int % (y * c) as int, (y * c) as int) == Rest::of(
            x as int % y as int,
            y as int,
        ),
        y * c > 0,
{
    let q = x as int / y as int;
    let r = x as int % y as int;
    div_mod::lemma_fundamental_div_mod(x as int, y as int);
    assert(x * c == q * (y * c) + r * c) by (nonlinear_arith)
        requires
            x == y * q + r,
    ;
    assert(0 <= r * c < y * c) by (nonlinear_arith)
        requires
            0 <= r < y,
            c > 0,
    ;
    div_mod::lemma_fundamental_div_mod_converse((x * c) as int, (y * c) as int, q, r * c);
    assert(r * c == 0 <==> r == 0) by (nonlinear_arith)
        requires
            c > 0,
    ;
    assert(2 * (r * c) < y * c <==> 2 * r < y) by (nonlinear_arith)
        requires
            c > 0,
    ;
    assert(2 * (r * c) == y * c <==> 2 * r == y) by (nonlinear_arith)
        requires
            c > 0,
    ;
}

/// Powers of two may be moved between the number, its divisor and the smallest step.
proof fn reframe(
    num: nat,
    den: nat,
    s: nat,
    k: nat,
    lowest: nat,
    format: Format,
    framed: nat,
    far_lowest: nat,
)
    requires
        den > 0,
        framed == num * power2::pow2(s),
        far_lowest == lowest + s + k,
        exists|unit: nat| is_unit(framed, den, far_lowest, format, unit),
    ensures
        nearest_from(framed, den, far_lowest, format) == nearest_from(
            num,
            den * power2::pow2(k),
            lowest,
            format,
        ),
{
    let c = power2::pow2(s);
    power2::lemma_pow2_pos(s);
    power2::lemma_pow2_pos(k);
    let far = choose|unit: nat| is_unit(framed, den, far_lowest, format, unit);
    let near = (far - s - k) as nat;
    let p = format.precision();
    let y = den * power2::pow2(k);
    moved(num, den, s, k, near + p);
    if near > lowest {
        moved(num, den, s, k, (near - 1 + p) as nat);
    }
    assert(is_unit(num, y, lowest, format, near));
    let unit = choose|unit: nat| is_unit(num, y, lowest, format, unit);
    one_unit(num, y, lowest, format, unit, near);
    moved(num, den, s, k, near);
    let z = y * power2::pow2(near);
    assert(z > 0) by (nonlinear_arith)
        requires
            z == y * power2::pow2(near),
            y == den * power2::pow2(k),
            den > 0,
            power2::pow2(k) > 0,
            power2::pow2(near) > 0,
    {
    }
    cancel(num, z, c);
}

proof fn moved(num: nat, den: nat, s: nat, k: nat, e: nat)
    ensures
        den * power2::pow2(e + s + k) == (den * power2::pow2(k)) * power2::pow2(e) * power2::pow2(s),
        num * power2::pow2(s) < den * power2::pow2(e + s + k) <==> num < (den * power2::pow2(k))
            * power2::pow2(e),
        power2::pow2(e) > 0,
{
    power2::lemma_pow2_pos(e);
    power2::lemma_pow2_pos(s);
    power2::lemma_pow2_adds(k, e);
    power2::lemma_pow2_adds(k + e, s);
    let c = power2::pow2(s) as int;
    let x = power2::pow2(k) as int;
    let y = power2::pow2(e) as int;
    assert(e + s + k == k + e + s);
    assert(den * (x * y * c) == (den * x) * y * c) by (nonlinear_arith);
    let z = (den * x) * y;
    assert(num * c < z * c <==> num < z) by (nonlinear_arith)
        requires
            c > 0,
    ;
}

/// The whole numbers are their own quotients.
proof fn whole_split(n: nat, low: nat)
    ensures
        splits(n * power2::pow2(low), 1, low, n, Rest::Nothing),
{
    power2::lemma_pow2_pos(low);
    cancel(n, 1, power2::pow2(low));
}

/// A distance, and its direction.
pub open spec fn distance(v: int) -> nat {
    if v < 0 {
        (-v) as nat
    } else {
        v as nat
    }
}

/// `a` minus `b`, rounded: the pattern without its sign.
fn subtract(a: Exact, b: Exact, format: Format) -> (pattern: u64)
    requires
        a.significand < 0x20_0000_0000_0000,
        b.significand < 0x20_0000_0000_0000,
        a.shift <= 2046,
        b.shift <= 2046,
        a.shift > b.shift + 64 ==> a.significand >= 0x10_0000_0000_0000,
        b.shift > a.shift + 64 ==> b.significand >= 0x10_0000_0000_0000,
    ensures
        pattern == nearest(distance(a.value() - b.value()), 1, format),
        pattern <= format.infinity(),
{
    if a.shift >= b.shift {
        subtract_from_coarser(a, b, format)
    } else {
        let pattern: u64 = subtract_from_coarser(b, a, format);
        assert(distance(a.value() - b.value()) == distance(b.value() - a.value()));
        pattern
    }
}

fn lowest_step(format: Format) -> (lowest: u32)
    ensures
        lowest == format.lowest(),
{
    match format {
        Format::Single => 925,
        Format::Double => 0,
    }
}

/// `subtract` where the exponent of `a` is not the smaller one.
fn subtract_from_coarser(a: Exact, b: Exact, format: Format) -> (pattern: u64)
    requires
        a.significand < 0x20_0000_0000_0000,
        b.significand < 0x20_0000_0000_0000,
        b.shift <= a.shift <= 2046,
        a.shift > b.shift + 64 ==> a.significand >= 0x10_0000_0000_0000,
    ensures
        pattern == nearest(distance(a.value() - b.value()), 1, format),
        pattern <= format.infinity(),
{
    let ghost num = distance(a.value() - b.value());
    if a.shift - b.shift <= 64 {
        let extra: u32 = a.shift - b.shift;
        let power: u128 = power_of_two(extra);
        let ghost x = power2::pow2(b.shift as nat) as int;
        proof {
            power2::lemma_pow2_pos(b.shift as nat);
            shifted(a.significand as int, b.shift as nat, extra as nat);
            assert(a.significand * power < 0x20_0000_0000_0000 * 0x1_0000_0000_0000_0000)
                by (nonlinear_arith)
                requires
                    a.significand < 0x20_0000_0000_0000,
                    power <= 0x1_0000_0000_0000_0000,
            ;
            assert(a.significand * power >= 0) by (nonlinear_arith);
        }
        let scaled: u128 = a.significand as u128 * power;
        let other: u128 = b.significand as u128;
        assert(scaled * x == a.magnitude());
        assert(other * x == b.magnitude());
        let n: u128 = if a.negative != b.negative {
            scaled + other
        } else if scaled >= other {
            scaled - other
        } else {
            other - scaled
        };
        proof {
            assert((scaled + other) * x == scaled * x + other * x) by (nonlinear_arith);
            assert((scaled - other) * x == scaled * x - other * x) by (nonlinear_arith);
            assert((other - scaled) * x == other * x - scaled * x) by (nonlinear_arith);
            assert(scaled >= other <==> scaled * x >= other * x) by (nonlinear_arith)
                requires
                    x > 0,
            ;
            assert(scaled * x >= 0) by (nonlinear_arith)
                requires
                    x > 0,
                    scaled >= 0,
            ;
            assert(other * x >= 0) by (nonlinear_arith)
                requires
                    x > 0,
                    other >= 0,
            ;
            assert(num == n * x);
            whole_split(n as nat, b.shift as nat);
        }
        return round(
            n,
            b.shift,
            Rest::Nothing,
            lowest_step(format),
            format,
            Ghost(num),
            Ghost(1),
        );
    }
    if b.significand == 0 {
        proof {
            assert(b.magnitude() == 0) by (nonlinear_arith)
                requires
                    b.magnitude() == 0 * power2::pow2(b.shift as nat),
            ;
            assert(a.magnitude() >= 0) by (nonlinear_arith)
                requires
                    a.magnitude() == a.significand * power2::pow2(a.shift as nat),
            ;
            whole_split(a.significand as nat, a.shift as nat);
        }
        return round(
            a.significand as u128,
            a.shift,
            Rest::Nothing,
            lowest_step(format),
            format,
            Ghost(num),
            Ghost(1),
        );
    }
    let ghost low = (a.shift - 11) as nat;
    let ghost u = power2::pow2(low) as int;
    proof {
        power2::lemma_pow2_pos(low);
        power2::lemma2_to64();
        shifted(a.significand as int, low, 11);
        far_below(a, b);
    }
    let scaled: u128 = a.significand as u128 * 2048;
    assert(scaled * u == a.magnitude());
    if a.negative == b.negative {
        proof {
            assert((scaled - 1) * u == scaled * u - u) by (nonlinear_arith);
            assert(num == (scaled - 1) * u + (u - b.magnitude()));
            div_mod::lemma_fundamental_div_mod_converse(
                num as int,
                u,
                scaled - 1,
                u - b.magnitude(),
            );
        }
        round(
            scaled - 1,
            a.shift - 11,
            Rest::AboveHalf,
            lowest_step(format),
            format,
            Ghost(num),
            Ghost(1),
        )
    } else {
        proof {
            assert(num == scaled * u + b.magnitude());
            div_mod::lemma_fundamental_div_mod_converse(
                num as int,
                u,
                scaled as int,
                b.magnitude(),
            );
        }
        round(
            scaled,
            a.shift - 11,
            Rest::BelowHalf,
            lowest_step(format),
            format,
            Ghost(num),
            Ghost(1),
        )
    }
}

/// The smaller of two numbers whose exponents are more than 64 apart is less than half of
/// 2^-11 of the larger one's unit.
proof fn far_below(a: Exact, b: Exact)
    requires
        0 < b.significand < 0x20_0000_0000_0000,
        b.shift + 64 < a.shift,
    ensures
        0 < b.magnitude(),
        2 * b.magnitude() < power2::pow2((a.shift - 11) as nat),
{
    power2::lemma_pow2_pos(b.shift as nat);
    let x = power2::pow2(b.shift as nat) as int;
    power2::lemma_pow2_adds(b.shift as nat, 54);
    assert(power2::pow2(54) == 0x40_0000_0000_0000) by {
        power2::lemma2_to64_rest();
    }
    assert(2 * (b.significand * x) < 0x40_0000_0000_0000 * x) by (nonlinear_arith)
        requires
            b.significand < 0x20_0000_0000_0000,
            x > 0,
    ;
    assert(b.significand * x > 0) by (nonlinear_arith)
        requires
            b.significand > 0,
            x > 0,
    ;
    if b.shift + 54 < a.shift - 11 {
        power2::lemma_pow2_strictly_increases((b.shift + 54) as nat, (a.shift - 11) as nat);
    }
    assert(x * 0x40_0000_0000_0000 == 0x40_0000_0000_0000 * x);
}

/// `a` divided by `b`, rounded: the pattern without its sign.
fn divide(a: Exact, b: Exact, format: Format) -> (pattern: u64)
    requires
        0 < a.significand < 0x20_0000_0000_0000,
        0 < b.significand < 0x20_0000_0000_0000,
        a.shift <= 2046,
        b.shift <= 2046,
    ensures
        pattern == nearest(
            (a.magnitude() * one()) as nat,
            b.magnitude() as nat,
            format,
        ),
        pattern <= format.infinity(),
{
    let mut m: u64 = a.significand;
    let mut s: u32 = 0;
    proof {
        power2::lemma2_to64();
        power2::lemma2_to64_rest();
    }
    while m < 0x10_0000_0000_0000
        invariant
            0 < m < 0x20_0000_0000_0000,
            m == a.significand * power2::pow2(s as nat),
            s <= 53,
            a.significand > 0,
            power2::pow2(53) == 0x20_0000_0000_0000,
        decreases 0x20_0000_0000_0000 - m,
    {
        proof {
            power2::lemma_pow2_unfold((s + 1) as nat);
            let x = power2::pow2(s as nat) as int;
            assert(a.significand * (2 * x) == 2 * (a.significand * x)) by (nonlinear_arith);
            if s == 53 {
                assert(a.significand * x >= x) by (nonlinear_arith)
                    requires
                        a.significand >= 1,
                        x >= 0,
                ;
            }
        }
        m = 2 * m;
        s = s + 1;
    }
    let divisor: u128 = b.significand as u128;
    let dividend: u128 = m as u128 * 0x1_0000_0000_0000_0000;
    let n: u128 = dividend / divisor;
    let r: u128 = dividend % divisor;
    let rest = if r == 0 {
        Rest::Nothing
    } else if 2 * r < divisor {
        Rest::BelowHalf
    } else if 2 * r == divisor {
        Rest::Half
    } else {
        Rest::AboveHalf
    };
    let low: u32 = a.shift + 1010;
    let ghost num = (a.magnitude() * one()) as nat;
    let ghost framed = num * power2::pow2(s as nat);
    proof {
        power2::lemma_pow2_pos(low as nat);
        power2::lemma_pow2_pos(1074);
        power2::lemma_pow2_pos(a.shift as nat);
        cancel(dividend as nat, divisor as nat, power2::pow2(low as nat));
        assert(framed == dividend * power2::pow2(low as nat)) by {
            power2::lemma_pow2_adds(a.shift as nat, 1010);
            power2::lemma_pow2_adds(1010, 64);
            assert(power2::pow2(64) == 0x1_0000_0000_0000_0000) by {
                power2::lemma2_to64_rest();
            }
            let sig = a.significand as int;
            let x = power2::pow2(a.shift as nat) as int;
            let y = power2::pow2(1010) as int;
            let w = power2::pow2(64) as int;
            let t = power2::pow2(s as nat) as int;
            assert(sig * x * (y * w) * t == ((sig * t) * w) * (x * y)) by (nonlinear_arith);
            assert(sig * x * (y * w) >= 0) by (nonlinear_arith)
                requires
                    sig >= 0,
                    x >= 0,
                    y >= 0,
                    w >= 0,
            ;
        }
        assert(n >= 0x10_0000_0000_0000) by {
            div_mod::lemma_fundamental_div_mod(dividend as int, divisor as int);
            assert(n >= 0x10_0000_0000_0000) by (nonlinear_arith)
                requires
                    dividend == divisor * n + r,
                    0 <= r < divisor,
                    divisor < 0x20_0000_0000_0000,
                    dividend >= 0x10_0000_0000_0000 * 0x1_0000_0000_0000_0000,
                    n >= 0,
            ;
        }
    }
    let pattern: u64 = round(
        n,
        low,
        rest,
        lowest_step(format) + s + b.shift,
        format,
        Ghost(framed),
        Ghost(divisor as nat),
    );
    proof {
        reframe(
            num,
            divisor as nat,
            s as nat,
            b.shift as nat,
            format.lowest(),
            format,
            framed,
            (format.lowest() + s + b.shift) as nat,
        );
    }
    pattern
}

/// The pattern that stands for no number, where an operation has none to give.
pub const NAN64: u64 = 0x7ff8_0000_0000_0000;

pub const NAN32: u32 = 0x7fc0_0000;

pub open spec fn is_nan64(bits: u64) -> bool {
    bits % 0x8000_0000_0000_0000 > 0x7ff0_0000_0000_0000
}

pub open spec fn is_nan32(bits: u32) -> bool {
    bits % 0x8000_0000 > 0x7f80_0000
}

/// The pattern with a sign.
pub open spec fn signed64(negative: bool, pattern: nat) -> u64 {
    if negative {
        (pattern + 0x8000_0000_0000_0000) as u64
    } else {
        pattern as u64
    }
}

pub open spec fn signed32(negative: bool, pattern: nat) -> u32 {
    if negative {
        (pattern + 0x8000_0000) as u32
    } else {
        pattern as u32
    }
}

pub open spec fn negative64(bits: u64) -> bool {
    bits >= 0x8000_0000_0000_0000
}

pub open spec fn negative32(bits: u32) -> bool {
    bits >= 0x8000_0000
}

/// `a - b` in binary64.
#[verifier::opaque]
pub open spec fn difference64(a: u64, b: u64) -> u64 {
    if is_nan64(a) || is_nan64(b) {
        NAN64
    } else if !is_finite64(a) {
        if a == b {
            NAN64
        } else {
            a
        }
    } else if !is_finite64(b) {
        signed64(!negative64(b), 0x7ff0_0000_0000_0000)
    } else {
        let v = value64(a) - value64(b);
        if v == 0 {
            signed64(negative64(a) && !negative64(b), 0)
        } else {
            signed64(v < 0, nearest(distance(v), 1, Format::Double))
        }
    }
}

/// `a - b` in binary32.
#[verifier::opaque]
pub open spec fn difference32(a: u32, b: u32) -> u32 {
    if is_nan32(a) || is_nan32(b) {
        NAN32
    } else if !is_finite32(a) {
        if a == b {
            NAN32
        } else {
            a
        }
    } else if !is_finite32(b) {
        signed32(!negative32(b), 0x7f80_0000)
    } else {
        let v = value32(a) - value32(b);
        if v == 0 {
            signed32(negative32(a) && !negative32(b), 0)
        } else {
            signed32(v < 0, nearest(distance(v), 1, Format::Single))
        }
    }
}

/// `-a` in binary32.
pub open spec fn opposite32(a: u32) -> u32 {
    signed32(!negative32(a), (a % 0x8000_0000) as nat)
}

/// `a + b` in binary32.
pub open spec fn sum32(a: u32, b: u32) -> u32 {
    difference32(a, opposite32(b))
}

/// The absolute value.
pub open spec fn absolute64(a: u64) -> u64 {
    a % 0x8000_0000_0000_0000
}

pub open spec fn absolute32(a: u32) -> u32 {
    a % 0x8000_0000
}

/// `a / b` in binary64.
#[verifier::opaque]
pub open spec fn quotient64(a: u64, b: u64) -> u64 {
    let negative = negative64(a) != negative64(b);
    if is_nan64(a) || is_nan64(b) || (!is_finite64(a) && !is_finite64(b)) || (absolute64(a) == 0
        && absolute64(b) == 0) {
        NAN64
    } else if !is_finite64(a) || absolute64(b) == 0 {
        signed64(negative, 0x7ff0_0000_0000_0000)
    } else if !is_finite64(b) || absolute64(a) == 0 {
        signed64(negative, 0)
    } else {
        signed64(
            negative,
            nearest(
                (exact64(a).magnitude() * one()) as nat,
                exact64(b).magnitude() as nat,
                Format::Double,
            ),
        )
    }
}

/// `a / b` in binary32.
#[verifier::opaque]
pub open spec fn quotient32(a: u32, b: u32) -> u32 {
    let negative = negative32(a) != negative32(b);
    if is_nan32(a) || is_nan32(b) || (!is_finite32(a) && !is_finite32(b)) || (absolute32(a) == 0
        && absolute32(b) == 0) {
        NAN32
    } else if !is_finite32(a) || absolute32(b) == 0 {
        signed32(negative, 0x7f80_0000)
    } else if !is_finite32(b) || absolute32(a) == 0 {
        signed32(negative, 0)
    } else {
        signed32(
            negative,
            nearest(
                (exact32(a).magnitude() * one()) as nat,
                exact32(b).magnitude() as nat,
                Format::Single,
            ),
        )
    }
}

/// A binary64 number as a binary32 one.
#[verifier::opaque]
pub open spec fn narrowed(a: u64) -> u32 {
    if is_nan64(a) {
        NAN32
    } else if !is_finite64(a) {
        signed32(negative64(a), 0x7f80_0000)
    } else {
        signed32(negative64(a), nearest(exact64(a).magnitude() as nat, 1, Format::Single))
    }
}

/// A binary32 number as a binary64 one.
#[verifier::opaque]
pub open spec fn widened(a: u32) -> u64 {
    if is_nan32(a) {
        NAN64
    } else if !is_finite32(a) {
        signed64(negative32(a), 0x7ff0_0000_0000_0000)
    } else {
        signed64(negative32(a), nearest(exact32(a).magnitude() as nat, 1, Format::Double))
    }
}

/// `a < b`: false where one of them is a NaN.
pub open spec fn below64(a: u64, b: u64) -> bool {
    !is_nan64(a) && !is_nan64(b) && order64(a) < order64(b)
}

pub open spec fn below32(a: u32, b: u32) -> bool {
    !is_nan32(a) && !is_nan32(b) && order32(a) < order32(b)
}

fn with_sign64(negative: bool, pattern: u64) -> (bits: u64)
    requires
        pattern < 0x8000_0000_0000_0000,
    ensures
        bits == signed64(negative, pattern as nat),
{
    if negative {
        pattern + 0x8000_0000_0000_0000
    } else {
        pattern
    }
}

fn with_sign32(negative: bool, pattern: u64) -> (bits: u32)
    requires
        pattern < 0x8000_0000,
    ensures
        bits == signed32(negative, pattern as nat),
{
    if negative {
        pattern as u32 + 0x8000_0000
    } else {
        pattern as u32
    }
}

fn no_number64(bits: u64) -> (nan: bool)
    ensures
        nan == is_nan64(bits),
{
    bits % 0x8000_0000_0000_0000 > 0x7ff0_0000_0000_0000
}

fn no_number32(bits: u32) -> (nan: bool)
    ensures
        nan == is_nan32(bits),
{
    bits % 0x8000_0000 > 0x7f80_0000
}

/// A number is zero where nothing but its sign is set.
proof fn zero_pattern64(bits: u64)
    requires
        is_finite64(bits),
    ensures
        exact64(bits).magnitude() >= 0,
        exact64(bits).magnitude() == 0 <==> absolute64(bits) == 0,
        exact64(bits).significand == 0 <==> absolute64(bits) == 0,
{
    let e = exact64(bits);
    power2::lemma_pow2_pos(e.shift as nat);
    let x = power2::pow2(e.shift as nat) as int;
    assert(e.significand * x >= 0 && (e.significand * x == 0 <==> e.significand == 0))
        by (nonlinear_arith)
        requires
            x > 0,
            e.significand >= 0,
    ;
}

proof fn zero_pattern32(bits: u32)
    requires
        is_finite32(bits),
    ensures
        exact32(bits).magnitude() >= 0,
        exact32(bits).magnitude() == 0 <==> absolute32(bits) == 0,
        exact32(bits).significand == 0 <==> absolute32(bits) == 0,
{
    let e = exact32(bits);
    power2::lemma_pow2_pos(e.shift as nat);
    let x = power2::pow2(e.shift as nat) as int;
    assert(e.significand * x >= 0 && (e.significand * x == 0 <==> e.significand == 0))
        by (nonlinear_arith)
        requires
            x > 0,
            e.significand >= 0,
    ;
}

pub fn sub64(a: u64, b: u64) -> (difference: u64)
    ensures
        difference == difference64(a, b),
{
    proof {
        reveal(difference64);
    }
    if no_number64(a) || no_number64(b) {
        return NAN64;
    }
    if !finite64(a) {
        return if a == b {
            NAN64
        } else {
            a
        };
    }
    let b_negative = b >= 0x8000_0000_0000_0000;
    if !finite64(b) {
        return with_sign64(!b_negative, 0x7ff0_0000_0000_0000);
    }
    proof {
        order_is_by_value64(a, b);
        order_is_by_value64(b, a);
    }
    if lt64(a, b) {
        with_sign64(true, subtract(decode64(a), decode64(b), Format::Double))
    } else if lt64(b, a) {
        with_sign64(false, subtract(decode64(a), decode64(b), Format::Double))
    } else {
        with_sign64(a >= 0x8000_0000_0000_0000 && !b_negative, 0)
    }
}

pub fn sub32(a: u32, b: u32) -> (difference: u32)
    ensures
        difference == difference32(a, b),
{
    proof {
        reveal(difference32);
    }
    if no_number32(a) || no_number32(b) {
        return NAN32;
    }
    if !finite32(a) {
        return if a == b {
            NAN32
        } else {
            a
        };
    }
    let b_negative = b >= 0x8000_0000;
    if !finite32(b) {
        return with_sign32(!b_negative, 0x7f80_0000);
    }
    proof {
        order_is_by_value32(a, b);
        order_is_by_value32(b, a);
    }
    if lt32(a, b) {
        with_sign32(true, subtract(decode32(a), decode32(b), Format::Single))
    } else if lt32(b, a) {
        with_sign32(false, subtract(decode32(a), decode32(b), Format::Single))
    } else {
        with_sign32(a >= 0x8000_0000 && !b_negative, 0)
    }
}

pub fn add32(a: u32, b: u32) -> (sum: u32)
    ensures
        sum == sum32(a, b),
{
    let opposite = with_sign32(b < 0x8000_0000, (b % 0x8000_0000) as u64);
    sub32(a, opposite)
}

pub fn abs64(a: u64) -> (absolute: u64)
    ensures
        absolute == absolute64(a),
{
    a % 0x8000_0000_0000_0000
}

pub fn abs32(a: u32) -> (absolute: u32)
    ensures
        absolute == absolute32(a),
{
    a % 0x8000_0000
}

pub fn div64(a: u64, b: u64) -> (quotient: u64)
    ensures
        quotient == quotient64(a, b),
{
    proof {
        reveal(quotient64);
    }
    let negative = (a >= 0x8000_0000_0000_0000) != (b >= 0x8000_0000_0000_0000);
    if no_number64(a) || no_number64(b) || (!finite64(a) && !finite64(b)) || (abs64(a) == 0
        && abs64(b) == 0) {
        return NAN64;
    }
    if !finite64(a) || abs64(b) == 0 {
        return with_sign64(negative, 0x7ff0_0000_0000_0000);
    }
    if !finite64(b) || abs64(a) == 0 {
        return with_sign64(negative, 0);
    }
    proof {
        zero_pattern64(a);
        zero_pattern64(b);
    }
    with_sign64(negative, divide(decode64(a), decode64(b), Format::Double))
}

pub fn div32(a: u32, b: u32) -> (quotient: u32)
    ensures
        quotient == quotient32(a, b),
{
    proof {
        reveal(quotient32);
    }
    let negative = (a >= 0x8000_0000) != (b >= 0x8000_0000);
    if no_number32(a) || no_number32(b) || (!finite32(a) && !finite32(b)) || (abs32(a) == 0
        && abs32(b) == 0) {
        return NAN32;
    }
    if !finite32(a) || abs32(b) == 0 {
        return with_sign32(negative, 0x7f80_0000);
    }
    if !finite32(b) || abs32(a) == 0 {
        return with_sign32(negative, 0);
    }
    proof {
        zero_pattern32(a);
        zero_pattern32(b);
    }
    with_sign32(negative, divide(decode32(a), decode32(b), Format::Single))
}

/// An integer as a binary32 number.
#[verifier::opaque]
pub open spec fn integer32(n: int) -> u32 {
    signed32(n < 0, nearest((distance(n) * power2::pow2(1074)) as nat, 1, Format::Single))
}

pub fn from_integer32(n: i64) -> (single: u32)
    ensures
        single == integer32(n as int),
{
    proof {
        reveal(integer32);
    }
    let size: u128 = if n < 0 {
        (-(n + 1)) as u128 + 1
    } else {
        n as u128
    };
    proof {
        whole_split(size as nat, 1074);
    }
    let pattern: u64 = round(
        size,
        1074,
        Rest::Nothing,
        925,
        Format::Single,
        Ghost(size as nat * power2::pow2(1074)),
        Ghost(1),
    );
    with_sign32(n < 0, pattern)
}

/// An integer as a binary64 number.
#[verifier::opaque]
pub open spec fn integer64(n: int) -> u64 {
    signed64(n < 0, nearest((distance(n) * power2::pow2(1074)) as nat, 1, Format::Double))
}

pub fn from_integer64(n: i128) -> (double: u64)
    ensures
        double == integer64(n as int),
{
    proof {
        reveal(integer64);
    }
    let size: u128 = if n < 0 {
        (-(n + 1)) as u128 + 1
    } else {
        n as u128
    };
    proof {
        whole_split(size as nat, 1074);
    }
    let pattern: u64 = round(
        size,
        1074,
        Rest::Nothing,
        0,
        Format::Double,
        Ghost(size as nat * power2::pow2(1074)),
        Ghost(1),
    );
    with_sign64(n < 0, pattern)
}

pub fn narrow(a: u64) -> (single: u32)
    ensures
        single == narrowed(a),
{
    proof {
        reveal(narrowed);
    }
    let negative = a >= 0x8000_0000_0000_0000;
    if no_number64(a) {
        return NAN32;
    }
    if !finite64(a) {
        return with_sign32(negative, 0x7f80_0000);
    }
    let exact = decode64(a);
    proof {
        zero_pattern64(a);
        whole_split(exact.significand as nat, exact.shift as nat);
    }
    let pattern: u64 = round(
        exact.significand as u128,
        exact.shift,
        Rest::Nothing,
        925,
        Format::Single,
        Ghost(exact.magnitude() as nat),
        Ghost(1),
    );
    with_sign32(negative, pattern)
}

pub fn widen(a: u32) -> (double: u64)
    ensures
        double == widened(a),
{
    proof {
        reveal(widened);
    }
    let negative = a >= 0x8000_0000;
    if no_number32(a) {
        return NAN64;
    }
    if !finite32(a) {
        return with_sign64(negative, 0x7ff0_0000_0000_0000);
    }
    let exact = decode32(a);
    proof {
        zero_pattern32(a);
        whole_split(exact.significand as nat, exact.shift as nat);
    }
    let pattern: u64 = round(
        exact.significand as u128,
        exact.shift,
        Rest::Nothing,
        0,
        Format::Double,
        Ghost(exact.magnitude() as nat),
        Ghost(1),
    );
    with_sign64(negative, pattern)
}

pub fn lt64(a: u64, b: u64) -> (below: bool)
    ensures
        below == below64(a, b),
{
    let top: u64 = 0x8000_0000_0000_0000;
    if no_number64(a) || no_number64(b) {
        false
    } else if a >= top {
        if b >= top {
            a > b
        } else {
            a > top || b > 0
        }
    } else {
        b < top && a < b
    }
}

/// `a == b`: false where one of them is a NaN, true for the two zeros.
pub open spec fn equal64(a: u64, b: u64) -> bool {
    !is_nan64(a) && !is_nan64(b) && order64(a) == order64(b)
}

pub fn eq64(a: u64, b: u64) -> (equal: bool)
    ensures
        equal == equal64(a, b),
{
    !no_number64(a) && !no_number64(b) && (a == b || (abs64(a) == 0 && abs64(b) == 0))
}

pub fn lt32(a: u32, b: u32) -> (below: bool)
    ensures
        below == below32(a, b),
{
    let top: u32 = 0x8000_0000;
    if no_number32(a) || no_number32(b) {
        false
    } else if a >= top {
        if b >= top {
            a > b
        } else {
            a > top || b > 0
        }
    } else {
        b < top && a < b
    }
}

// ---- laws ----

/// There is a step around every number.
proof fn unit_exists(num: nat, den: nat, lowest: nat, format: Format, top: nat) -> (unit: nat)
    requires
        top >= lowest,
        num < den * power2::pow2(top + format.precision()),
    ensures
        is_unit(num, den, lowest, format, unit),
        unit <= top,
    decreases top,
{
    if top == lowest || num >= den * power2::pow2((top - 1 + format.precision()) as nat) {
        top
    } else {
        unit_exists(num, den, lowest, format, (top - 1) as nat)
    }
}

/// A rounded quotient is off by half at most.
pub proof fn half_even_is_near(num: nat, den: nat)
    requires
        den > 0,
    ensures
        2 * (half_even(num, den) * den) <= 2 * num + den,
        2 * num <= 2 * (half_even(num, den) * den) + den,
{
    let q = num as int / den as int;
    let r = num as int % den as int;
    let d = den as int;
    div_mod::lemma_fundamental_div_mod(num as int, d);
    assert(d * q == q * d) by (nonlinear_arith);
    assert((q + 1) * d == q * d + d) by (nonlinear_arith);
}

/// The integer that a quotient is less than half away from is the one it is rounded to.
pub proof fn half_even_is_nearest(num: nat, den: nat, n: nat)
    requires
        den > 0,
        2 * num < 2 * (n * den) + den,
        2 * (n * den) < 2 * num + den,
    ensures
        half_even(num, den) == n,
{
    half_even_is_near(num, den);
    let h = half_even(num, den) as int;
    let d = den as int;
    let m = n as int;
    assert(h == m) by (nonlinear_arith)
        requires
            2 * (h * d) < 2 * (m * d) + 2 * d,
            2 * (m * d) < 2 * (h * d) + 2 * d,
            d > 0,
    ;
}

/// A quotient that is at most an integer is rounded to at most that integer.
pub proof fn half_even_keeps_bounds(num: nat, den: nat, bound: nat)
    requires
        den > 0,
        num <= bound * den,
    ensures
        half_even(num, den) <= bound,
{
    let q = num as int / den as int;
    let r = num as int % den as int;
    let d = den as int;
    let b = bound as int;
    div_mod::lemma_fundamental_div_mod(num as int, d);
    assert(q <= b) by (nonlinear_arith)
        requires
            d * q + r <= b * d,
            r >= 0,
            d > 0,
    ;
    assert(q == b ==> r == 0) by (nonlinear_arith)
        requires
            d * q + r <= b * d,
            r >= 0,
            d > 0,
    ;
}

/// The number of a binary32 pattern that is made of a step and of a count of such steps.
proof fn pattern_value32(unit: nat, count: nat)
    requires
        925 <= unit <= 1177,
        count <= 0x100_0000,
        unit > 925 ==> count >= 0x80_0000,
    ensures
        (unit - 925) * 0x80_0000 + count < 0x7f80_0000,
        exact32(((unit - 925) * 0x80_0000 + count) as u32).magnitude() == count * power2::pow2(
            unit,
        ),
{
    let bits = ((unit - 925) * 0x80_0000 + count) as u32;
    let x = exact32(bits);
    let c = count as int;
    assert(power2::pow2(29) == 0x2000_0000 && power2::pow2(28) == 0x1000_0000) by {
        power2::lemma2_to64();
    }
    if count == 0x100_0000 {
        assert(x.significand == 0x10_0000_0000_0000 && x.shift == unit - 28);
        power2::lemma_pow2_adds((unit - 28) as nat, 28);
        let y = power2::pow2((unit - 28) as nat) as int;
        assert(0x10_0000_0000_0000 * y == 0x100_0000 * (y * 0x1000_0000)) by (nonlinear_arith);
    } else {
        assert(x.significand == count * 0x2000_0000 && x.shift == unit - 29);
        power2::lemma_pow2_adds((unit - 29) as nat, 29);
        let y = power2::pow2((unit - 29) as nat) as int;
        assert((c * 0x2000_0000) * y == c * (y * 0x2000_0000)) by (nonlinear_arith);
    }
}

/// The binary32 number nearest to a fraction that is small enough: how far off it is at most,
/// and that it is not beyond a whole number that the fraction is not beyond.
pub proof fn nearest_is_near(n: nat, den: nat, bound: nat)
    requires
        0 < den <= 10_000,
        bound < 512,
        n <= bound * den,
    ensures
        nearest(n * power2::pow2(1074), den, Format::Single) < 0x7f80_0000,
        ({
            let pattern = nearest(n * power2::pow2(1074), den, Format::Single) as u32;
            let magnitude = exact32(pattern).magnitude();
            &&& 0 <= magnitude <= bound * power2::pow2(1074)
            &&& half_even(magnitude as nat * den, power2::pow2(1074)) == n
        }),
{
    let one = power2::pow2(1074);
    let num = n * one;
    let f = Format::Single;
    let o = one as int;
    let d = den as int;
    let k = n as int;
    let b = bound as int;
    power2::lemma_pow2_pos(1074);
    power2::lemma_pow2_adds(1074, 9);
    assert(power2::pow2(9) == 512 && power2::pow2(14) == 16384 && power2::pow2(23) == 0x80_0000
        && power2::pow2(24) == 0x100_0000) by {
        power2::lemma2_to64();
    }
    assert(k * o < d * (o * 512)) by (nonlinear_arith)
        requires
            k <= b * d,
            b < 512,
            d > 0,
            o > 0,
    ;
    let unit = unit_exists(num, den, 925, f, 1059);
    let chosen = choose|u: nat| is_unit(num, den, 925, f, u);
    one_unit(num, den, 925, f, chosen, unit);
    let z = power2::pow2(unit) as int;
    power2::lemma_pow2_pos(unit);
    assert(d * z > 0) by (nonlinear_arith)
        requires
            d > 0,
            z > 0,
    ;
    let step = den * power2::pow2(unit);
    let count = half_even(num, step);
    // The count is a significand.
    power2::lemma_pow2_adds(unit, 24);
    assert(d * (z * 0x100_0000) == 0x100_0000 * (d * z)) by (nonlinear_arith);
    half_even_keeps_bounds(num, step, 0x100_0000);
    half_even_is_near(num, step);
    if unit > 925 {
        power2::lemma_pow2_adds(unit, 23);
        assert(unit - 1 + f.precision() == unit + 23);
        assert(d * (z * 0x80_0000) == 0x80_0000 * (d * z)) by (nonlinear_arith);
        let c = count as int;
        let s = step as int;
        assert(c >= 0x80_0000) by (nonlinear_arith)
            requires
                2 * (0x80_0000 * s) <= 2 * (c * s) + s,
                s > 0,
        ;
    }
    pattern_value32(unit, count);
    let c = count as int;
    let magnitude = c * z;
    assert(magnitude >= 0) by (nonlinear_arith)
        requires
            magnitude == c * z,
            c >= 0,
            z > 0,
    ;
    // One is a multiple of the step.
    power2::lemma_pow2_adds(unit, (1074 - unit) as nat);
    let w = power2::pow2((1074 - unit) as nat) as int;
    power2::lemma_pow2_pos((1074 - unit) as nat);
    assert(o == z * w);
    assert(b * w >= 0) by (nonlinear_arith)
        requires
            b >= 0,
            w > 0,
    ;
    assert(k * o <= (b * w) * (d * z)) by (nonlinear_arith)
        requires
            k <= b * d,
            o == z * w,
            z > 0,
            w > 0,
    ;
    half_even_keeps_bounds(num, step, (b * w) as nat);
    assert(c * z <= b * o) by (nonlinear_arith)
        requires
            c <= b * w,
            o == z * w,
            z > 0,
    ;
    // The step is much smaller than what is written of a number.
    if unit < 1059 {
        power2::lemma_pow2_strictly_increases(unit, 1059);
    }
    power2::lemma_pow2_adds(1059, 14);
    power2::lemma_pow2_strictly_increases(1073, 1074);
    let y = power2::pow2(1059) as int;
    assert(d * z < o) by (nonlinear_arith)
        requires
            d <= 10_000,
            0 < z <= y,
            y * 16384 < o,
    ;
    assert(c * (d * z) == (c * z) * d) by (nonlinear_arith);
    half_even_is_nearest(magnitude as nat * den, one, n);
}

/// Every binary32 number is a binary64 number: nothing is lost when one is widened.
pub proof fn widening_keeps_the_value(a: u32)
    requires
        is_finite32(a),
    ensures
        is_finite64(widened(a)),
        value64(widened(a)) == value32(a),
{
    reveal(widened);
    let x = exact32(a);
    let m = x.significand as int;
    let k = x.shift as nat;
    let num = x.magnitude() as nat;
    let p = Format::Double.precision();
    zero_pattern32(a);
    power2::lemma_pow2_pos(k);
    assert(power2::pow2(53) == 0x20_0000_0000_0000 && power2::pow2(52) == 0x10_0000_0000_0000) by {
        power2::lemma2_to64_rest();
    }
    power2::lemma_pow2_adds(k, p);
    let y = power2::pow2(k) as int;
    assert(m * y < y * 0x20_0000_0000_0000) by (nonlinear_arith)
        requires
            m < 0x20_0000_0000_0000,
            y > 0,
    ;
    let unit = unit_exists(num, 1, 0, Format::Double, k);
    let chosen = choose|u: nat| is_unit(num, 1, 0, Format::Double, u);
    one_unit(num, 1, 0, Format::Double, chosen, unit);
    let z = power2::pow2(unit) as int;
    power2::lemma_pow2_pos(unit);
    power2::lemma_pow2_adds(unit, (k - unit) as nat);
    let w = power2::pow2((k - unit) as nat) as int;
    let q = m * w;
    assert(m * (z * w) == q * z) by (nonlinear_arith)
        requires
            q == m * w,
    ;
    assert(q >= 0) by (nonlinear_arith)
        requires
            q == m * w,
            m >= 0,
            w >= 0,
    ;
    div_mod::lemma_fundamental_div_mod_converse(num as int, z, q, 0);
    assert(half_even(num, 1 * power2::pow2(unit)) == q);
    power2::lemma_pow2_adds(unit, 53);
    assert(q < 0x20_0000_0000_0000) by (nonlinear_arith)
        requires
            q * z < z * 0x20_0000_0000_0000,
            z > 0,
    ;
    if unit > 0 {
        power2::lemma_pow2_adds(unit, 52);
        assert(unit - 1 + p == unit + 52);
        assert(q >= 0x10_0000_0000_0000) by (nonlinear_arith)
            requires
                q * z >= z * 0x10_0000_0000_0000,
                z > 0,
        ;
    }
    let pattern = unit * 0x10_0000_0000_0000 + q;
    assert(pattern < 0x7ff0_0000_0000_0000);
    let bits = widened(a);
    assert(bits % 0x8000_0000_0000_0000 == pattern);
    let e = exact64(bits);
    assert(e.significand == q && (e.shift == unit || q == 0));
    assert(q == 0 ==> q * z == 0) by (nonlinear_arith);
    assert(e.significand == 0 ==> e.magnitude() == 0) by (nonlinear_arith)
        requires
            e.magnitude() == e.significand * power2::pow2(e.shift as nat),
    ;
}

/// The number of a binary64 pattern that is made of a step and of a count of such steps.
proof fn pattern_value64(unit: nat, count: nat)
    requires
        unit <= 2044,
        count <= 0x20_0000_0000_0000,
        unit > 0 ==> count >= 0x10_0000_0000_0000,
    ensures
        unit * 0x10_0000_0000_0000 + count < 0x7ff0_0000_0000_0000,
        exact64((unit * 0x10_0000_0000_0000 + count) as u64).magnitude() == count * power2::pow2(
            unit,
        ),
{
    let bits = (unit * 0x10_0000_0000_0000 + count) as u64;
    let x = exact64(bits);
    let c = count as int;
    if count == 0x20_0000_0000_0000 {
        assert(x.significand == 0x10_0000_0000_0000 && x.shift == unit + 1);
        power2::lemma_pow2_unfold(unit + 1);
        let y = power2::pow2(unit) as int;
        assert(0x10_0000_0000_0000 * (2 * y) == 0x20_0000_0000_0000 * y) by (nonlinear_arith);
    } else {
        assert(x.significand == count && x.shift == unit);
    }
}

/// A quotient that is a whole count of steps, and no larger than a significand, is a number of
/// the format: nothing is lost when it is rounded.
proof fn whole_steps(num: nat, den: nat, m: nat, k: nat, format: Format) -> (unit: nat)
    requires
        den > 0,
        num == den * m,
        format.lowest() <= k,
        m % power2::pow2(k) == 0,
        m < power2::pow2(k + format.precision()),
    ensures
        format.lowest() <= unit <= k,
        ({
            let z = power2::pow2(unit);
            let count = m / z;
            &&& m == count * z
            &&& count < 2 * format.hidden()
            &&& unit > format.lowest() ==> count >= format.hidden()
            &&& nearest(num, den, format) == ({
                let pattern = (unit - format.lowest()) as nat * format.hidden() + count;
                if pattern < format.infinity() {
                    pattern
                } else {
                    format.infinity()
                }
            })
        }),
{
    let low = format.lowest();
    let p = format.precision();
    let d = den as int;
    let n = m as int;
    assert(power2::pow2(24) == 0x100_0000 && power2::pow2(23) == 0x80_0000 && power2::pow2(53)
        == 0x20_0000_0000_0000 && power2::pow2(52) == 0x10_0000_0000_0000) by {
        power2::lemma2_to64();
        power2::lemma2_to64_rest();
    }
    let unit = unit_exists(m, 1, low, format, k);
    let z = power2::pow2(unit) as int;
    power2::lemma_pow2_pos(unit);
    power2::lemma_pow2_pos(k);
    power2::lemma_pow2_adds(unit, (k - unit) as nat);
    let w = power2::pow2((k - unit) as nat) as int;
    let big = power2::pow2(k) as int;
    let q0 = n / big;
    div_mod::lemma_fundamental_div_mod(n, big);
    let count = q0 * w;
    assert(n == count * z) by (nonlinear_arith)
        requires
            n == big * q0,
            big == z * w,
            count == q0 * w,
    ;
    assert(count >= 0) by (nonlinear_arith)
        requires
            n == count * z,
            n >= 0,
            z > 0,
    ;
    div_mod::lemma_fundamental_div_mod_converse(n, z, count, 0);
    let top = power2::pow2(unit + p) as int;
    let half = power2::pow2((unit - 1 + p) as nat) as int;
    assert(d * n < d * top) by (nonlinear_arith)
        requires
            n < top,
            d > 0,
    ;
    if unit > low {
        assert(d * n >= d * half) by (nonlinear_arith)
            requires
                n >= half,
                d > 0,
        ;
    }
    assert(is_unit(num, den, low, format, unit));
    let chosen = choose|u: nat| is_unit(num, den, low, format, u);
    one_unit(num, den, low, format, chosen, unit);
    assert(d * z > 0) by (nonlinear_arith)
        requires
            d > 0,
            z > 0,
    ;
    assert(d * n == count * (d * z)) by (nonlinear_arith)
        requires
            n == count * z,
    ;
    div_mod::lemma_fundamental_div_mod_converse(num as int, d * z, count, 0);
    assert(half_even(num, den * power2::pow2(unit)) == count);
    power2::lemma_pow2_adds(unit, p);
    let h = format.hidden() as int;
    assert(power2::pow2(p) == 2 * h);
    assert(count < 2 * h) by (nonlinear_arith)
        requires
            count * z < z * (2 * h),
            z > 0,
    ;
    if unit > low {
        power2::lemma_pow2_adds(unit, (p - 1) as nat);
        assert(power2::pow2((p - 1) as nat) == h);
        assert(unit - 1 + p == unit + (p - 1) as nat);
        assert(count >= h) by (nonlinear_arith)
            requires
                count * z >= z * h,
                z > 0,
        ;
    }
    unit
}

/// A quotient that is a whole count of steps 2^`k` is its own binary32 number.
pub proof fn whole_steps_are_kept32(num: nat, den: nat, m: nat, k: nat)
    requires
        den > 0,
        num == den * m,
        925 <= k <= 1177,
        m % power2::pow2(k) == 0,
        m < power2::pow2(k + 24),
    ensures
        nearest(num, den, Format::Single) < 0x7f80_0000,
        exact32(nearest(num, den, Format::Single) as u32).magnitude() == m,
{
    let unit = whole_steps(num, den, m, k, Format::Single);
    let count = m / power2::pow2(unit);
    pattern_value32(unit, count);
    assert(Format::Single.lowest() == 925 && Format::Single.hidden() == 0x80_0000);
    let steps = (unit - Format::Single.lowest()) as nat;
    let hidden = Format::Single.hidden();
    let pattern = steps * hidden + count;
    assert(pattern == (unit - 925) * 0x80_0000 + count) by (nonlinear_arith)
        requires
            pattern == steps * hidden + count,
            steps == unit - 925,
            hidden == 0x80_0000,
    ;
    assert(pattern < Format::Single.infinity());
    assert(nearest(num, den, Format::Single) == pattern);
}

/// A quotient that is a whole count of steps 2^`k` is its own binary64 number.
pub proof fn whole_steps_are_kept64(num: nat, den: nat, m: nat, k: nat)
    requires
        den > 0,
        num == den * m,
        k <= 2044,
        m % power2::pow2(k) == 0,
        m < power2::pow2(k + 53),
    ensures
        nearest(num, den, Format::Double) < 0x7ff0_0000_0000_0000,
        exact64(nearest(num, den, Format::Double) as u64).magnitude() == m,
{
    let unit = whole_steps(num, den, m, k, Format::Double);
    pattern_value64(unit, m / power2::pow2(unit));
}

/// The sign of a pattern does not change its magnitude.
proof fn sign_is_apart32(negative: bool, pattern: nat)
    requires
        pattern < 0x7f80_0000,
    ensures
        is_finite32(signed32(negative, pattern)),
        exact32(signed32(negative, pattern)).magnitude() == exact32(pattern as u32).magnitude(),
        exact32(signed32(negative, pattern)).negative == negative,
{
}

proof fn sign_is_apart64(negative: bool, pattern: nat)
    requires
        pattern < 0x7ff0_0000_0000_0000,
    ensures
        is_finite64(signed64(negative, pattern)),
        exact64(signed64(negative, pattern)).magnitude() == exact64(pattern as u64).magnitude(),
        exact64(signed64(negative, pattern)).negative == negative,
{
}

proof fn zero_magnitude32()
    ensures
        exact32(0).magnitude() == 0,
        nearest(0, 1, Format::Single) == 0,
{
    let y = power2::pow2(exact32(0).shift as nat) as int;
    assert(0 * y == 0) by (nonlinear_arith);
    assert(1 * 0nat == 0);
    power2::lemma_pow2_pos(925);
    power2::lemma_pow2_pos(925 + 24);
    whole_steps_are_kept32(0, 1, 0, 925);
    let p = nearest(0, 1, Format::Single) as u32;
    zero_pattern32(p);
}

/// The difference of two binary32 numbers is exact where it is a whole count of steps 2^`k`.
pub proof fn differences_are_exact32(a: u32, b: u32, k: nat)
    requires
        is_finite32(a),
        is_finite32(b),
        925 <= k <= 1177,
        distance(value32(a) - value32(b)) % power2::pow2(k) == 0,
        distance(value32(a) - value32(b)) < power2::pow2(k + 24),
    ensures
        is_finite32(difference32(a, b)),
        value32(difference32(a, b)) == value32(a) - value32(b),
{
    reveal(difference32);
    let v = value32(a) - value32(b);
    if v == 0 {
        zero_magnitude32();
        sign_is_apart32(negative32(a) && !negative32(b), 0);
    } else {
        assert(1 * distance(v) == distance(v));
        whole_steps_are_kept32(distance(v), 1, distance(v), k);
        sign_is_apart32(v < 0, nearest(distance(v), 1, Format::Single));
    }
}

/// The opposite of a number has the opposite value.
proof fn opposite_value32(a: u32)
    requires
        is_finite32(a),
    ensures
        is_finite32(opposite32(a)),
        value32(opposite32(a)) == -value32(a),
{
    sign_is_apart32(!negative32(a), (a % 0x8000_0000) as nat);
    assert(exact32((a % 0x8000_0000) as u32).magnitude() == exact32(a).magnitude());
}

/// The sum of two binary32 numbers is exact where it is a whole count of steps 2^`k`.
pub proof fn sums_are_exact32(a: u32, b: u32, k: nat)
    requires
        is_finite32(a),
        is_finite32(b),
        925 <= k <= 1177,
        distance(value32(a) + value32(b)) % power2::pow2(k) == 0,
        distance(value32(a) + value32(b)) < power2::pow2(k + 24),
    ensures
        is_finite32(sum32(a, b)),
        value32(sum32(a, b)) == value32(a) + value32(b),
{
    opposite_value32(b);
    differences_are_exact32(a, opposite32(b), k);
}

/// A binary32 number of a whole count of steps 2^`k` is exactly divided by one that is a whole
/// number of ones, where the quotient is such a count.
pub proof fn quotients_are_exact32(a: u32, b: u32, m: nat, n: nat, k: nat)
    requires
        is_finite32(a),
        is_finite32(b),
        n > 0,
        exact32(b).magnitude() == n * one(),
        exact32(a).magnitude() == n * m,
        925 <= k <= 1177,
        m % power2::pow2(k) == 0,
        m < power2::pow2(k + 24),
    ensures
        is_finite32(quotient32(a, b)),
        exact32(quotient32(a, b)).magnitude() == m,
        exact32(quotient32(a, b)).negative == (negative32(a) != negative32(b)),
{
    reveal(quotient32);
    power2::lemma_pow2_pos(1074);
    zero_pattern32(a);
    zero_pattern32(b);
    let o = one();
    let negative = negative32(a) != negative32(b);
    assert(n * o > 0) by (nonlinear_arith)
        requires
            n > 0,
            o > 0,
    ;
    assert(is_finite32(a) && is_finite32(b) && !is_nan32(a) && !is_nan32(b));
    if absolute32(a) == 0 {
        assert(m == 0) by (nonlinear_arith)
            requires
                n * m == 0,
                n > 0,
                m >= 0,
        ;
        zero_magnitude32();
        sign_is_apart32(negative, 0);
    } else {
        let num = (exact32(a).magnitude() * o) as nat;
        let den = exact32(b).magnitude() as nat;
        assert((n * m) * o == (n * o) * m) by (nonlinear_arith);
        assert(num == den * m);
        whole_steps_are_kept32(num, den, m, k);
        sign_is_apart32(negative, nearest(num, den, Format::Single));
    }
}

/// A whole number of at most 24 binary digits is a binary32 number.
pub proof fn integers_are_exact32(n: int)
    requires
        -0x100_0000 < n < 0x100_0000,
    ensures
        is_finite32(integer32(n)),
        value32(integer32(n)) == n * one(),
{
    reveal(integer32);
    let o = power2::pow2(1074);
    let d = distance(n);
    power2::lemma_pow2_pos(1074);
    power2::lemma_pow2_adds(1074, 24);
    assert(power2::pow2(24) == 0x100_0000) by {
        power2::lemma2_to64();
    }
    let m = d * o;
    assert(m % o == 0) by {
        div_mod::lemma_fundamental_div_mod_converse(m as int, o as int, d as int, 0);
    }
    assert(m < o * 0x100_0000) by (nonlinear_arith)
        requires
            m == d * o,
            d < 0x100_0000,
            o > 0,
    ;
    assert(1 * m == m);
    whole_steps_are_kept32(m, 1, m, 1074);
    sign_is_apart32(n < 0, nearest(m, 1, Format::Single));
    let oo = one();
    assert(n < 0 ==> -(d * oo) == n * oo) by (nonlinear_arith)
        requires
            n < 0 ==> d == -n,
    ;
}

/// A whole number of at most 53 binary digits is a binary64 number.
pub proof fn integers_are_exact64(n: int)
    requires
        -0x20_0000_0000_0000 < n < 0x20_0000_0000_0000,
    ensures
        is_finite64(integer64(n)),
        value64(integer64(n)) == n * one(),
{
    reveal(integer64);
    let o = power2::pow2(1074);
    let d = distance(n);
    power2::lemma_pow2_pos(1074);
    power2::lemma_pow2_adds(1074, 53);
    assert(power2::pow2(53) == 0x20_0000_0000_0000) by {
        power2::lemma2_to64_rest();
    }
    let m = d * o;
    assert(m % o == 0) by {
        div_mod::lemma_fundamental_div_mod_converse(m as int, o as int, d as int, 0);
    }
    assert(m < o * 0x20_0000_0000_0000) by (nonlinear_arith)
        requires
            m == d * o,
            d < 0x20_0000_0000_0000,
            o > 0,
    ;
    assert(1 * m == m);
    whole_steps_are_kept64(m, 1, m, 1074);
    sign_is_apart64(n < 0, nearest(m, 1, Format::Double));
    let oo = one();
    assert(n < 0 ==> -(d * oo) == n * oo) by (nonlinear_arith)
        requires
            n < 0 ==> d == -n,
    ;
}

/// A binary64 number of a whole count of steps 2^`k` is its own binary32 number.
pub proof fn narrowing_is_exact(a: u64, k: nat)
    requires
        is_finite64(a),
        925 <= k <= 1177,
        distance(value64(a)) % power2::pow2(k) == 0,
        distance(value64(a)) < power2::pow2(k + 24),
    ensures
        is_finite32(narrowed(a)),
        value32(narrowed(a)) == value64(a),
{
    reveal(narrowed);
    zero_pattern64(a);
    let m = exact64(a).magnitude() as nat;
    assert(distance(value64(a)) == m);
    assert(1 * m == m);
    whole_steps_are_kept32(m, 1, m, k);
    sign_is_apart32(negative64(a), nearest(m, 1, Format::Single));
}

/// A number that is rounded to its own format stays what it is.
pub proof fn numbers_round_to_themselves64(a: u64)
    requires
        a < 0x7ff0_0000_0000_0000,
    ensures
        nearest(exact64(a).magnitude() as nat, 1, Format::Double) == a,
{
    let x = exact64(a);
    let z = power2::pow2(x.shift as nat);
    zero_pattern64(a);
    power2::lemma_pow2_pos(x.shift as nat);
    let m = x.magnitude() as nat;
    let sig = x.significand as nat;
    div_mod::lemma_fundamental_div_mod_converse(m as int, z as int, sig as int, 0);
    power2::lemma_pow2_adds(x.shift as nat, 53);
    assert(power2::pow2(53) == 0x20_0000_0000_0000) by {
        power2::lemma2_to64_rest();
    }
    assert(m < z * 0x20_0000_0000_0000) by (nonlinear_arith)
        requires
            m == sig * z,
            sig < 0x20_0000_0000_0000,
            z > 0,
    ;
    assert(1 * m == m);
    if x.shift <= 2044 {
        whole_steps_are_kept64(m, 1, m, x.shift as nat);
        let p = nearest(m, 1, Format::Double) as u64;
        order_is_by_value64(p, a);
    } else {
        let unit = whole_steps(m, 1, m, x.shift as nat, Format::Double);
        assert(is_unit(m, 1, 0, Format::Double, x.shift as nat)) by {
            power2::lemma_pow2_adds(x.shift as nat, 52);
            assert(power2::pow2(52) == 0x10_0000_0000_0000) by {
                power2::lemma2_to64_rest();
            }
            assert(x.shift - 1 + 53 == x.shift + 52);
            assert(m >= z * 0x10_0000_0000_0000) by (nonlinear_arith)
                requires
                    m == sig * z,
                    sig >= 0x10_0000_0000_0000,
                    z > 0,
            ;
        }
        is_unit_of_count(m, unit);
        one_unit(m, 1, 0, Format::Double, unit, x.shift as nat);
    }
}

/// Rounding keeps the order of quotients.
pub proof fn rounding_keeps_order(a: nat, b: nat, den: nat, top: nat, format: Format)
    requires
        a <= b,
        den > 0,
        format.lowest() <= top,
        b < den * power2::pow2(top + format.precision()),
    ensures
        nearest(a, den, format) <= nearest(b, den, format),
{
    let low = format.lowest();
    let p = format.precision();
    let h = format.hidden();
    let u = unit_exists(a, den, low, format, top);
    let v = unit_exists(b, den, low, format, top);
    let cu = choose|x: nat| is_unit(a, den, low, format, x);
    one_unit(a, den, low, format, cu, u);
    let cv = choose|x: nat| is_unit(b, den, low, format, x);
    one_unit(b, den, low, format, cv, v);
    assert(power2::pow2(24) == 0x100_0000 && power2::pow2(23) == 0x80_0000 && power2::pow2(53)
        == 0x20_0000_0000_0000 && power2::pow2(52) == 0x10_0000_0000_0000) by {
        power2::lemma2_to64();
        power2::lemma2_to64_rest();
    }
    power2::lemma_pow2_pos(u);
    power2::lemma_pow2_pos(v);
    let y = power2::pow2(u);
    let z = power2::pow2(v);
    let dy = den * y;
    let dz = den * z;
    assert(dy > 0 && dz > 0) by (nonlinear_arith)
        requires
            dy == den * y,
            dz == den * z,
            den > 0,
            y > 0,
            z > 0,
    ;
    let m = half_even(a, dy);
    let n = half_even(b, dz);
    if u > v {
        if v + p < u - 1 + p {
            power2::lemma_pow2_strictly_increases(v + p, (u - 1 + p) as nat);
        }
        let one = power2::pow2(v + p);
        let two = power2::pow2((u - 1 + p) as nat);
        assert(den * one <= den * two) by (nonlinear_arith)
            requires
                one <= two,
        ;
        assert(false);
    }
    if u == v {
        half_even_grows(a, b, dy);
    } else {
        power2::lemma_pow2_adds(u, p);
        assert(a <= (2 * h) * dy) by (nonlinear_arith)
            requires
                a < den * (y * (2 * h)),
                dy == den * y,
        ;
        half_even_keeps_bounds(a, dy, 2 * h);
        power2::lemma_pow2_adds(v, (p - 1) as nat);
        assert(v - 1 + p == v + (p - 1) as nat);
        half_even_is_near(b, dz);
        assert(b >= dz * h) by (nonlinear_arith)
            requires
                b >= den * (z * h),
                dz == den * z,
        ;
        assert(n >= h) by (nonlinear_arith)
            requires
                b >= dz * h,
                2 * b <= 2 * (n * dz) + dz,
                dz > 0,
        ;
        let i = (u - low) as int;
        let j = (v - low) as int;
        let g = h as int;
        assert(j * g >= i * g + g) by (nonlinear_arith)
            requires
                j >= i + 1,
                g > 0,
        ;
        assert(((u - low) as nat * h) as int == i * g);
        assert(((v - low) as nat * h) as int == j * g);
    }
}

/// A larger quotient is not rounded to a smaller integer.
proof fn half_even_grows(a: nat, b: nat, den: nat)
    requires
        a <= b,
        den > 0,
    ensures
        half_even(a, den) <= half_even(b, den),
{
    let d = den as int;
    let q = a as int / d;
    let r = a as int % d;
    let s = b as int / d;
    let t = b as int % d;
    div_mod::lemma_fundamental_div_mod(a as int, d);
    div_mod::lemma_fundamental_div_mod(b as int, d);
    assert(q <= s) by (nonlinear_arith)
        requires
            d * q + r <= d * s + t,
            0 <= r,
            t < d,
            d > 0,
    ;
    assert(q == s ==> r <= t) by (nonlinear_arith)
        requires
            d * q + r <= d * s + t,
    ;
}

/// A difference that is less than a limit is so exactly, and one that is well below it is.
pub proof fn differences_compare_exactly(a: u64, b: u64, limit: u64, inner: u64)
    requires
        is_finite64(b),
        0 < limit < 0x7ff0_0000_0000_0000,
        inner < limit,
    ensures
        below64(absolute64(difference64(a, b)), limit) ==> is_finite64(a) && distance(
            value64(a) - value64(b),
        ) < value64(limit),
        is_finite64(a) && distance(value64(a) - value64(b)) <= value64(inner) ==> below64(
            absolute64(difference64(a, b)),
            limit,
        ),
{
    zero_pattern64(limit);
    difference_pattern(a, b);
    if is_finite64(a) {
        let d = distance(value64(a) - value64(b));
        magnitude_bound(a);
        magnitude_bound(b);
        power2::lemma_pow2_unfold(2102);
        power2::lemma_pow2_strictly_increases(2102, 2153);
        assert(d < power2::pow2(2153));
        rounded_against(d, limit, inner);
        zero_pattern64(inner);
        below_is_by_pattern(absolute64(difference64(a, b)), limit);
    }
}

/// Positive patterns compare as they are.
proof fn below_is_by_pattern(a: u64, b: u64)
    requires
        a <= 0x7ff0_0000_0000_0000,
        b < 0x7ff0_0000_0000_0000,
    ensures
        below64(a, b) <==> a < b,
{
}

/// The pattern of a difference, without its sign.
proof fn difference_pattern(a: u64, b: u64)
    requires
        is_finite64(b),
    ensures
        is_finite64(a) ==> absolute64(difference64(a, b)) == if value64(a) == value64(b) {
            0
        } else {
            nearest(distance(value64(a) - value64(b)), 1, Format::Double)
        },
        is_finite64(a) ==> absolute64(difference64(a, b)) <= 0x7ff0_0000_0000_0000,
        !is_finite64(a) ==> is_nan64(absolute64(difference64(a, b))) || absolute64(
            difference64(a, b),
        ) == 0x7ff0_0000_0000_0000,
{
    reveal(difference64);
    let p = nearest(distance(value64(a) - value64(b)), 1, Format::Double);
    assert(p <= Format::Double.infinity());
}

/// A number that is rounded is below another one where it was, and where it was well below it.
proof fn rounded_against(d: nat, limit: u64, inner: u64)
    requires
        d < power2::pow2(2153),
        limit < 0x7ff0_0000_0000_0000,
        inner < limit,
    ensures
        nearest(d, 1, Format::Double) < limit ==> d < value64(limit),
        d <= value64(inner) ==> nearest(d, 1, Format::Double) < limit,
{
    numbers_round_to_themselves64(limit);
    numbers_round_to_themselves64(inner);
    zero_pattern64(limit);
    zero_pattern64(inner);
    let m = exact64(limit).magnitude() as nat;
    let n = exact64(inner).magnitude() as nat;
    magnitude_bound(inner);
    power2::lemma_pow2_strictly_increases(2101, 2153);
    if d >= m {
        assert(1 * power2::pow2(2153) == power2::pow2(2153));
        rounding_keeps_order(m, d, 1, 2100, Format::Double);
    }
    if d <= n {
        assert(1 * power2::pow2(2153) == power2::pow2(2153));
        rounding_keeps_order(d, n, 1, 2100, Format::Double);
    }
}

/// No number is beyond the largest one.
proof fn magnitude_bound(a: u64)
    requires
        is_finite64(a),
    ensures
        0 <= exact64(a).magnitude() < power2::pow2(2101),
{
    let x = exact64(a);
    zero_pattern64(a);
    power2::lemma_pow2_adds(x.shift as nat, 53);
    assert(power2::pow2(53) == 0x20_0000_0000_0000) by {
        power2::lemma2_to64_rest();
    }
    power2::lemma_pow2_strictly_increases((x.shift + 53) as nat, 2101);
    let z = power2::pow2(x.shift as nat);
    power2::lemma_pow2_pos(x.shift as nat);
    let sig = x.significand;
    assert(sig * z < z * 0x20_0000_0000_0000) by (nonlinear_arith)
        requires
            sig < 0x20_0000_0000_0000,
            z > 0,
    ;
}

/// A quotient of positive numbers is at most a number where it is so exactly, and at least one
/// where it is so exactly.
pub proof fn quotients_compare_exactly64(a: u64, b: u64, bound: u64)
    requires
        is_finite64(a),
        is_finite64(b),
        0 < bound < 0x7ff0_0000_0000_0000,
        value64(a) > 0,
        value64(b) > 0,
        value64(a) * one() < value64(b) * power2::pow2(2000),
    ensures
        quotient64(a, b) <= 0x7ff0_0000_0000_0000,
        value64(a) * one() <= value64(b) * value64(bound) ==> quotient64(a, b) <= bound,
        value64(a) * one() >= value64(b) * value64(bound) && value64(b) * value64(bound)
            < value64(b) * power2::pow2(2000) ==> quotient64(a, b) >= bound,
{
    reveal(quotient64);
    zero_pattern64(a);
    zero_pattern64(b);
    zero_pattern64(bound);
    power2::lemma_pow2_pos(1074);
    let o = one();
    let m = exact64(a).magnitude();
    let d = exact64(b).magnitude();
    let num = (m * o) as nat;
    let den = d as nat;
    let x = exact64(bound);
    let w = x.magnitude() as nat;
    assert(m == value64(a) && d == value64(b));
    assert(num == m * o) by (nonlinear_arith)
        requires
            m > 0,
            o > 0,
            num == (m * o) as nat,
    ;
    let k = x.shift as nat;
    let z = power2::pow2(k);
    power2::lemma_pow2_pos(k);
    div_mod::lemma_fundamental_div_mod_converse(w as int, z as int, x.significand as int, 0);
    power2::lemma_pow2_adds(k, 53);
    assert(power2::pow2(53) == 0x20_0000_0000_0000) by {
        power2::lemma2_to64_rest();
    }
    let sig = x.significand as nat;
    assert(w < z * 0x20_0000_0000_0000) by (nonlinear_arith)
        requires
            w == sig * z,
            sig < 0x20_0000_0000_0000,
            z > 0,
    ;
    numbers_round_to_themselves64(bound);
    let v = nearest(den * w, den, Format::Double);
    assert(v == nearest(w, 1, Format::Double)) by {
        let u1 = whole_steps(den * w, den, w, k, Format::Double);
        assert(1 * w == w);
        let u2 = whole_steps(w, 1, w, k, Format::Double);
        assert(u1 == u2) by {
            steps_fix_the_unit(w, k, u1, u2);
        }
    }
    let top = power2::pow2(2000);
    power2::lemma_pow2_strictly_increases(2000, 2153);
    assert(den * top < den * power2::pow2(2153)) by (nonlinear_arith)
        requires
            top < power2::pow2(2153),
            den > 0,
    ;
    assert((den * w) as int == d * w);
    if m * o <= d * w {
        magnitude_bound(bound);
        power2::lemma_pow2_strictly_increases(2101, 2153);
        assert(den * w < den * power2::pow2(2153)) by (nonlinear_arith)
            requires
                w < power2::pow2(2153),
                den > 0,
        ;
        rounding_keeps_order(num, den * w, den, 2100, Format::Double);
    }
    if m * o >= d * w {
        rounding_keeps_order(den * w, num, den, 2100, Format::Double);
    }
}

/// The step around a number depends on the number alone.
proof fn steps_fix_the_unit(m: nat, k: nat, u: nat, v: nat)
    requires
        u <= k,
        v <= k,
        m == (m / power2::pow2(u)) * power2::pow2(u),
        m == (m / power2::pow2(v)) * power2::pow2(v),
        m / power2::pow2(u) < 0x20_0000_0000_0000,
        m / power2::pow2(v) < 0x20_0000_0000_0000,
        u > 0 ==> m / power2::pow2(u) >= 0x10_0000_0000_0000,
        v > 0 ==> m / power2::pow2(v) >= 0x10_0000_0000_0000,
    ensures
        u == v,
{
    is_unit_of_count(m, u);
    is_unit_of_count(m, v);
    one_unit(m, 1, 0, Format::Double, u, v);
}

proof fn is_unit_of_count(m: nat, u: nat)
    requires
        m == (m / power2::pow2(u)) * power2::pow2(u),
        m / power2::pow2(u) < 0x20_0000_0000_0000,
        u > 0 ==> m / power2::pow2(u) >= 0x10_0000_0000_0000,
    ensures
        is_unit(m, 1, 0, Format::Double, u),
{
    let c = m / power2::pow2(u);
    let y = power2::pow2(u);
    power2::lemma_pow2_pos(u);
    power2::lemma_pow2_adds(u, 53);
    assert(power2::pow2(53) == 0x20_0000_0000_0000 && power2::pow2(52) == 0x10_0000_0000_0000) by {
        power2::lemma2_to64_rest();
    }
    assert(c * y < y * 0x20_0000_0000_0000) by (nonlinear_arith)
        requires
            c < 0x20_0000_0000_0000,
            y > 0,
    ;
    if u > 0 {
        power2::lemma_pow2_adds(u, 52);
        assert(u - 1 + 53 == u + 52);
        assert(c * y >= y * 0x10_0000_0000_0000) by (nonlinear_arith)
            requires
                c >= 0x10_0000_0000_0000,
                y > 0,
        ;
    }
}

/// The difference of two binary64 numbers is exact where it is a whole count of steps 2^`k`.
pub proof fn differences_are_exact64(a: u64, b: u64, k: nat)
    requires
        is_finite64(a),
        is_finite64(b),
        k <= 2044,
        distance(value64(a) - value64(b)) % power2::pow2(k) == 0,
        distance(value64(a) - value64(b)) < power2::pow2(k + 53),
    ensures
        is_finite64(difference64(a, b)),
        value64(difference64(a, b)) == value64(a) - value64(b),
{
    reveal(difference64);
    let v = value64(a) - value64(b);
    if v == 0 {
        zero_pattern64(0);
        sign_is_apart64(negative64(a) && !negative64(b), 0);
    } else {
        assert(1 * distance(v) == distance(v));
        whole_steps_are_kept64(distance(v), 1, distance(v), k);
        sign_is_apart64(v < 0, nearest(distance(v), 1, Format::Double));
    }
}

/// A binary64 number of a whole count of steps 2^`k` is exactly divided by one that is a whole
/// number of ones, where the quotient is such a count.
pub proof fn quotients_are_exact64(a: u64, b: u64, m: nat, n: nat, k: nat)
    requires
        is_finite64(a),
        is_finite64(b),
        n > 0,
        exact64(b).magnitude() == n * one(),
        exact64(a).magnitude() == n * m,
        k <= 2044,
        m % power2::pow2(k) == 0,
        m < power2::pow2(k + 53),
    ensures
        is_finite64(quotient64(a, b)),
        exact64(quotient64(a, b)).magnitude() == m,
        exact64(quotient64(a, b)).negative == (negative64(a) != negative64(b)),
{
    reveal(quotient64);
    power2::lemma_pow2_pos(1074);
    zero_pattern64(a);
    zero_pattern64(b);
    let o = one();
    let negative = negative64(a) != negative64(b);
    assert(n * o > 0) by (nonlinear_arith)
        requires
            n > 0,
            o > 0,
    ;
    assert(!is_nan64(a) && !is_nan64(b));
    if absolute64(a) == 0 {
        assert(m == 0) by (nonlinear_arith)
            requires
                n * m == 0,
                n > 0,
                m >= 0,
        ;
        zero_pattern64(0);
        sign_is_apart64(negative, 0);
    } else {
        let num = (exact64(a).magnitude() * o) as nat;
        let den = exact64(b).magnitude() as nat;
        assert((n * m) * o == (n * o) * m) by (nonlinear_arith);
        assert(num == den * m);
        whole_steps_are_kept64(num, den, m, k);
        sign_is_apart64(negative, nearest(num, den, Format::Double));
    }
}

/// A number is not negative where its sign is not set, and the other way round but for zero.
pub proof fn signs_are_values32(a: u32)
    requires
        is_finite32(a),
    ensures
        exact32(a).magnitude() >= 0,
        !negative32(a) ==> value32(a) == exact32(a).magnitude(),
        negative32(a) ==> value32(a) == -exact32(a).magnitude(),
{
    zero_pattern32(a);
}

pub proof fn signs_are_values64(a: u64)
    requires
        is_finite64(a),
    ensures
        exact64(a).magnitude() >= 0,
        !negative64(a) ==> value64(a) == exact64(a).magnitude(),
        negative64(a) ==> value64(a) == -exact64(a).magnitude(),
{
    zero_pattern64(a);
}

/// A whole count of ones is one of halves, and of every other fraction by a power of two.
pub proof fn ones_are_steps(v: int, k: nat)
    requires
        k <= 1074,
        v % one() == 0,
    ensures
        distance(v) % power2::pow2(k) == 0,
{
    power2::lemma_pow2_adds(k, (1074 - k) as nat);
    power2::lemma_pow2_pos(k);
    power2::lemma_pow2_pos(1074);
    let o = one();
    let z = power2::pow2(k) as int;
    let w = power2::pow2((1074 - k) as nat) as int;
    let q = v / o;
    div_mod::lemma_fundamental_div_mod(v, o);
    let r = if v < 0 {
        -q
    } else {
        q
    };
    assert(distance(v) == (r * w) * z) by (nonlinear_arith)
        requires
            v == o * q,
            o == z * w,
            distance(v) == if v < 0 {
                -v
            } else {
                v
            },
            r == if v < 0 {
                -q
            } else {
                q
            },
    ;
    div_mod::lemma_fundamental_div_mod_converse(distance(v) as int, z, r * w, 0);
}

/// Whole counts of a step add up to one.
pub proof fn steps_add_up(a: int, b: int, step: int)
    requires
        step > 0,
        a % step == 0,
        b % step == 0,
    ensures
        (a + b) % step == 0,
        (a - b) % step == 0,
        distance(a + b) as int % step == 0,
        distance(a - b) as int % step == 0,
{
    div_mod::lemma_fundamental_div_mod(a, step);
    div_mod::lemma_fundamental_div_mod(b, step);
    let p = a / step;
    let q = b / step;
    assert(a + b == (p + q) * step && a - b == (p - q) * step && -(a + b) == (-(p + q)) * step && -(
    a - b) == (-(p - q)) * step) by (nonlinear_arith)
        requires
            a == step * p,
            b == step * q,
    ;
    div_mod::lemma_fundamental_div_mod_converse(a + b, step, p + q, 0);
    div_mod::lemma_fundamental_div_mod_converse(a - b, step, p - q, 0);
    div_mod::lemma_fundamental_div_mod_converse(-(a + b), step, -(p + q), 0);
    div_mod::lemma_fundamental_div_mod_converse(-(a - b), step, -(p - q), 0);
}

/// A quotient midway between two integers is rounded to the even one of them, and any other to the
/// nearer one.
pub proof fn ties_go_to_the_even(q: nat, r: nat, den: nat)
    requires
        r < den,
    ensures
        2 * r < den ==> half_even(q * den + r, den) == q,
        2 * r > den ==> half_even(q * den + r, den) == q + 1,
        2 * r == den && q % 2 == 0 ==> half_even(q * den + r, den) == q,
        2 * r == den && q % 2 == 1 ==> half_even(q * den + r, den) == q + 1,
{
    let num = q * den + r;
    assert(num as int == q * den + r);
    div_mod::lemma_fundamental_div_mod_converse(num as int, den as int, q as int, r as int);
}

/// What lies midway between two numbers of a format that are one smallest step apart goes to the
/// one with the even count of steps.
pub proof fn halves_of_a_step_go_to_the_even(m: nat, format: Format)
    requires
        m < power2::pow2(format.precision()),
    ensures
        nearest((2 * m + 1) * power2::pow2(format.lowest()), 2, format) == if m % 2 == 0 {
            m
        } else {
            m + 1
        },
{
    let low = format.lowest();
    let z = power2::pow2(low);
    power2::lemma_pow2_pos(low);
    let num = ((2 * m + 1) * z) as nat;
    let den: nat = 2;
    power2::lemma_pow2_adds(low, format.precision());
    let p = power2::pow2(format.precision());
    assert(num < den * power2::pow2(low + format.precision())) by (nonlinear_arith)
        requires
            num == (2 * m + 1) * z,
            den == 2,
            power2::pow2(low + format.precision()) == z * p,
            m < p,
            z > 0,
    ;
    assert(is_unit(num, den, low, format, low));
    let unit = choose|unit: nat| is_unit(num, den, low, format, unit);
    one_unit(num, den, low, format, unit, low);
    assert(num == m * (den * z) + z) by (nonlinear_arith)
        requires
            num == (2 * m + 1) * z,
            den == 2,
    ;
    ties_go_to_the_even(m, z, (den * z) as nat);
    assert(power2::pow2(53) == 0x20_0000_0000_0000 && power2::pow2(24) == 0x100_0000) by {
        power2::lemma2_to64();
        power2::lemma2_to64_rest();
    }
    assert(p < format.infinity());
    assert((unit - low) as nat * format.hidden() == 0) by (nonlinear_arith)
        requires
            unit == low,
    ;
}

} // verus!
