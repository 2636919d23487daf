//! IEEE 754 binary64 values held as bit patterns, with the few operations that
//! ratios and probabilities need: conversion of counters, quotient, product with
//! one tenth, comparison and scaling to a 64-bit threshold.
//!
//! The value of a finite pattern is an integer multiple of 2^-1074, the smallest
//! positive binary64 value. All specifications speak of that integer, called the
//! number of *units*, so that no real arithmetic is needed to state them.

use vstd::arithmetic::power2::{lemma_pow2, lemma_pow2_adds, lemma_pow2_pos, pow2};
use vstd::prelude::*;

verus! {

/// A binary64 value, held as its bit pattern.
#[derive(Clone, Copy, Debug)]
pub struct Binary64 {
    pub bits: u64,
}

/// 2^52: the weight of the implicit leading bit of a normal mantissa.
pub const HIDDEN: u64 = 0x10_0000_0000_0000;

/// 2^53: the first mantissa that needs the next exponent.
pub const HIDDEN_TWICE: u64 = 0x20_0000_0000_0000;

/// 2^63: the sign bit.
pub const SIGN: u64 = 0x8000_0000_0000_0000;

/// The magnitude of infinity; everything above it is a NaN.
pub const INFINITY_MAG: u64 = 0x7ff0_0000_0000_0000;

/// The magnitude of one.
pub const ONE_MAG: u64 = 0x3ff0_0000_0000_0000;

/// The exponent field of a magnitude.
pub open spec fn exponent_of(mag: nat) -> nat {
    mag / (HIDDEN as nat)
}

/// The mantissa of a magnitude, with the implicit bit where there is one.
pub open spec fn mantissa_of(mag: nat) -> nat {
    if exponent_of(mag) == 0 {
        mag
    } else {
        HIDDEN as nat + mag % (HIDDEN as nat)
    }
}

/// The power of two that the mantissa counts, in units.
pub open spec fn scale_of(mag: nat) -> nat {
    if exponent_of(mag) == 0 {
        0
    } else {
        (exponent_of(mag) - 1) as nat
    }
}

/// The value of a magnitude, in multiples of 2^-1074. Infinity gets the value
/// that the next exponent would have, which is where rounding turns to it.
pub open spec fn units(mag: nat) -> nat {
    mantissa_of(mag) * pow2(scale_of(mag))
}

/// `mag` is the magnitude nearest to the fraction `n / d` (in units), and the even
/// one of the two where the fraction lies half way: the rounding of IEEE 754.
pub open spec fn is_nearest(mag: nat, n: nat, d: nat) -> bool {
    &&& mag <= INFINITY_MAG
    &&& mag > 0 ==> {
        let low = d * (units((mag - 1) as nat) + units(mag));
        2 * n > low || (2 * n == low && mag % 2 == 0)
    }
    &&& mag < INFINITY_MAG ==> {
        let high = d * (units(mag) + units(mag + 1));
        2 * n < high || (2 * n == high && mag % 2 == 0)
    }
}

/// The magnitude to which the fraction `n / d` (in units) rounds.
pub open spec fn rounded(n: nat, d: nat) -> nat {
    choose|mag: nat| is_nearest(mag, n, d)
}

impl Binary64 {
    /// The pattern without its sign.
    pub open spec fn mag(self) -> nat {
        self.bits as nat % (SIGN as nat)
    }

    pub open spec fn is_negative(self) -> bool {
        self.bits >= SIGN
    }

    pub open spec fn is_nan(self) -> bool {
        self.mag() > INFINITY_MAG
    }

    /// The signed value of a pattern that is not a NaN, in units.
    pub open spec fn value(self) -> int {
        if self.is_negative() {
            -(units(self.mag()) as int)
        } else {
            units(self.mag()) as int
        }
    }

    /// A number, and not above one.
    pub open spec fn at_most_one(self) -> bool {
        !self.is_nan() && self.value() <= units(ONE_MAG as nat)
    }

    /// A number, and not below one.
    pub open spec fn is_full(self) -> bool {
        !self.is_nan() && self.value() >= units(ONE_MAG as nat)
    }

    /// `self >= other`, which no NaN takes part in.
    pub open spec fn at_least(self, other: Binary64) -> bool {
        !self.is_nan() && !other.is_nan() && self.value() >= other.value()
    }

    /// `self < other`, which no NaN takes part in.
    pub open spec fn less_than(self, other: Binary64) -> bool {
        !self.is_nan() && !other.is_nan() && self.value() < other.value()
    }
}

/// With mantissas from 2^52 to 2^53 (or any up to 2^53 at the lowest scale) the
/// magnitude is the mantissa shifted by whole exponents, and the value is plain.
pub proof fn lemma_units_packed(scale: nat, mantissa: nat)
    requires
        mantissa <= HIDDEN_TWICE,
        mantissa >= HIDDEN || scale == 0,
    ensures
        units(scale * HIDDEN as nat + mantissa) == mantissa * pow2(scale),
{
    let mag = scale * HIDDEN as nat + mantissa;
    let h = HIDDEN as nat;
    if mantissa < h {
        assert(mag == mantissa);
        assert(mag / h == 0);
    } else if mantissa < 2 * h {
        assert(mag / h == scale + 1 && mag % h == mantissa - h) by (nonlinear_arith)
            requires
                mag == scale * h + mantissa,
                h <= mantissa < 2 * h,
                h > 0,
        ;
    } else {
        assert(mantissa == 2 * h);
        assert(mag / h == scale + 2 && mag % h == 0) by (nonlinear_arith)
            requires
                mag == scale * h + 2 * h,
                h > 0,
        ;
        assert(pow2(scale + 1) == 2 * pow2(scale)) by {
            lemma_pow2_adds(1, scale);
            lemma_pow2(1);
            assert(pow2(1) == 2) by {
                reveal_with_fuel(vstd::arithmetic::power::pow, 2);
            };
        };
        assert(h * (2 * pow2(scale)) == 2 * h * pow2(scale)) by (nonlinear_arith);
    }
}

/// Every magnitude splits into a scale and a mantissa in the range above.
pub proof fn lemma_split(mag: nat)
    ensures
        mag == scale_of(mag) * HIDDEN as nat + mantissa_of(mag),
        mantissa_of(mag) < HIDDEN_TWICE,
        mantissa_of(mag) >= HIDDEN || scale_of(mag) == 0,
{
    let h = HIDDEN as nat;
    assert(mag == (mag / h) * h + mag % h && mag % h < h) by (nonlinear_arith)
        requires
            h > 0,
    ;
    if mag / h > 0 {
        let e = mag / h;
        assert((e - 1) * h + h == e * h) by (nonlinear_arith);
    }
}

/// Neighbouring magnitudes differ by one unit of the lower one's scale.
pub proof fn lemma_units_step(mag: nat)
    ensures
        units(mag + 1) == units(mag) + pow2(scale_of(mag)),
        units(mag) < units(mag + 1),
{
    lemma_split(mag);
    lemma_units_packed(scale_of(mag), mantissa_of(mag) + 1);
    lemma_pow2_pos(scale_of(mag));
    let m = mantissa_of(mag);
    let p = pow2(scale_of(mag));
    assert((m + 1) * p == m * p + p) by (nonlinear_arith);
    assert(scale_of(mag) * HIDDEN as nat + (mantissa_of(mag) + 1) == mag + 1);
}

/// A larger magnitude is a larger value.
pub proof fn lemma_units_monotone(a: nat, b: nat)
    requires
        a < b,
    ensures
        units(a) < units(b),
    decreases b - a,
{
    lemma_units_step(a);
    if a + 1 < b {
        lemma_units_monotone(a + 1, b);
    }
}

/// A fraction rounds to one magnitude only.
pub proof fn lemma_rounded_unique(mag: nat, n: nat, d: nat)
    requires
        d > 0,
        is_nearest(mag, n, d),
    ensures
        rounded(n, d) == mag,
{
    let other = rounded(n, d);
    assert(is_nearest(other, n, d));
    if other < mag {
        lemma_not_both_nearest(other, mag, n, d);
    } else if mag < other {
        lemma_not_both_nearest(mag, other, n, d);
    }
}

proof fn lemma_not_both_nearest(a: nat, b: nat, n: nat, d: nat)
    requires
        d > 0,
        a < b,
    ensures
        !(is_nearest(a, n, d) && is_nearest(b, n, d)),
{
    let ua = units(a);
    let ua1 = units(a + 1);
    let ub = units(b);
    let ub1 = units((b - 1) as nat);
    if a + 1 < b {
        lemma_units_monotone(a, (b - 1) as nat);
        lemma_units_monotone(a + 1, b);
        assert(d * (ua + ua1) < d * (ub1 + ub)) by (nonlinear_arith)
            requires
                ua < ub1,
                ua1 < ub,
                d > 0,
        ;
    }
}

/// How `n / d` lies between half steps of the given scale: `halves` whole ones fit,
/// and `inexact` says whether something is left over.
pub open spec fn fits_halves(halves: nat, inexact: bool, scale: nat, n: nat, d: nat) -> bool {
    let step = d * pow2(scale);
    &&& halves * step <= 2 * n < (halves + 1) * step
    &&& inexact == (halves * step != 2 * n)
}

/// The mantissa to which `halves` half steps round, ties to even.
pub open spec fn round_halves(halves: nat, inexact: bool) -> nat {
    if halves % 2 == 1 && (inexact || (halves / 2) % 2 == 1) {
        halves / 2 + 1
    } else {
        halves / 2
    }
}

proof fn lemma_pack(halves: nat, inexact: bool, scale: nat, n: nat, d: nat)
    requires
        d > 0,
        halves < 2 * HIDDEN_TWICE,
        halves >= HIDDEN_TWICE || scale == 0,
        scale < 2046,
        fits_halves(halves, inexact, scale, n, d),
    ensures
        is_nearest(scale * HIDDEN as nat + round_halves(halves, inexact), n, d),
        rounded(n, d) == scale * HIDDEN as nat + round_halves(halves, inexact),
{
    let p = pow2(scale);
    let step = d * p;
    let m0 = halves / 2;
    let m = round_halves(halves, inexact);
    let mag = scale * HIDDEN as nat + m;
    lemma_pow2_pos(scale);
    assert(step > 0) by (nonlinear_arith)
        requires
            d > 0,
            p > 0,
            step == d * p,
    ;
    assert(mag <= INFINITY_MAG) by {
        assert(scale * HIDDEN as nat <= 2045 * HIDDEN as nat) by (nonlinear_arith)
            requires
                scale <= 2045,
        ;
    };
    assert(mag % 2 == m % 2) by {
        assert((scale * HIDDEN as nat) % 2 == 0) by (nonlinear_arith);
    };
    lemma_units_packed(scale, m);
    lemma_units_step(mag);
    let u = units(mag);
    assert(d * u == m * step) by (nonlinear_arith)
        requires
            u == m * p,
            step == d * p,
    ;
    if mag > 0 {
        lemma_units_step((mag - 1) as nat);
    }
    if m == m0 {
        lemma_units_packed(scale, m0 + 1);
        assert(scale * HIDDEN as nat + (m0 + 1) == mag + 1);
        let next = units(mag + 1);
        assert(d * (u + next) == (2 * m0 + 1) * step) by (nonlinear_arith)
            requires
                u == m0 * p,
                next == (m0 + 1) * p,
                step == d * p,
        ;
        if mag > 0 {
            let prev = units((mag - 1) as nat);
            assert(d * (prev + u) < 2 * (m0 * step)) by (nonlinear_arith)
                requires
                    prev < u,
                    d > 0,
                    d * u == m0 * step,
            ;
            assert(2 * (m0 * step) <= halves * step) by (nonlinear_arith)
                requires
                    2 * m0 <= halves,
                    step > 0,
            ;
        }
    } else {
        assert(m == m0 + 1 && halves == 2 * m0 + 1);
        lemma_units_packed(scale, m0);
        assert(scale * HIDDEN as nat + m0 == mag - 1);
        let prev = units((mag - 1) as nat);
        assert(d * (prev + u) == (2 * m0 + 1) * step) by (nonlinear_arith)
            requires
                prev == m0 * p,
                u == (m0 + 1) * p,
                step == d * p,
        ;
        let next = units(mag + 1);
        assert(d * (u + next) > 2 * ((m0 + 1) * step)) by (nonlinear_arith)
            requires
                next > u,
                d > 0,
                d * u == (m0 + 1) * step,
        ;
        assert(2 * ((m0 + 1) * step) == (halves + 1) * step) by (nonlinear_arith)
            requires
                halves == 2 * m0 + 1,
        ;
    }
    lemma_rounded_unique(mag, n, d);
}

/// Rounds `halves` half steps of a scale to a magnitude.
fn pack(halves: u64, inexact: bool, scale: u64) -> (mag: u64)
    requires
        halves < 2 * HIDDEN_TWICE,
        scale < 2046,
    ensures
        mag == scale * HIDDEN + round_halves(halves as nat, inexact),
        mag <= INFINITY_MAG,
{
    let half: u64 = halves / 2;
    let mantissa: u64 = if halves % 2 == 1 && (inexact || half % 2 == 1) {
        half + 1
    } else {
        half
    };
    assert(scale * HIDDEN <= 2045 * HIDDEN) by (nonlinear_arith)
        requires
            scale <= 2045,
    ;
    scale * HIDDEN + mantissa
}

/// The number of units in one.
pub const ONE_SCALE: u64 = 1074;

/// The magnitude to which a counter converts.
pub open spec fn counter_mag(n: u64) -> nat {
    rounded(n as nat * pow2(ONE_SCALE as nat), 1)
}

/// The magnitude of the quotient of two magnitudes.
pub open spec fn quotient_mag(a: nat, b: nat) -> nat {
    rounded(units(a) * pow2(ONE_SCALE as nat), units(b))
}

/// The magnitude of the product of two magnitudes.
pub open spec fn product_mag(a: nat, b: nat) -> nat {
    rounded(units(a) * units(b), pow2(ONE_SCALE as nat))
}

proof fn lemma_pow2_succ(e: nat)
    ensures
        pow2(e + 1) == 2 * pow2(e),
        pow2(e) > 0,
{
    lemma_pow2_adds(1, e);
    assert(pow2(1) == 2) by {
        lemma_pow2(1);
        reveal_with_fuel(vstd::arithmetic::power::pow, 2);
    };
    lemma_pow2_pos(e);
}

/// Zero rounds to zero, whatever it is divided by.
proof fn lemma_rounded_zero(d: nat)
    requires
        d > 0,
    ensures
        rounded(0, d) == 0,
{
    lemma_units_packed(0, 0);
    lemma_units_packed(0, 1);
    assert(pow2(0) == 1) by {
        lemma_pow2(0);
        reveal_with_fuel(vstd::arithmetic::power::pow, 1);
    };
    assert(units(0) == 0 && units(1) == 1);
    assert(is_nearest(0, 0, d)) by {
        assert(d * (units(0) + units(1)) == d);
    };
    lemma_rounded_unique(0, 0, d);
}

/// Halving the half steps and doubling the step keeps the account.
proof fn lemma_halve(halves: nat, inexact: bool, scale: nat, n: nat, d: nat)
    requires
        fits_halves(halves, inexact, scale, n, d),
        d > 0,
    ensures
        fits_halves(halves / 2, inexact || halves % 2 == 1, scale + 1, n, d),
{
    lemma_pow2_succ(scale);
    let p = pow2(scale);
    let step = d * p;
    let q = halves / 2;
    let r = halves % 2;
    assert(halves == 2 * q + r);
    assert(d * (2 * p) == 2 * step) by (nonlinear_arith)
        requires
            step == d * p,
    ;
    assert(step > 0) by (nonlinear_arith)
        requires
            d > 0,
            p > 0,
            step == d * p,
    ;
    assert(q * (2 * step) + r * step == halves * step) by (nonlinear_arith)
        requires
            halves == 2 * q + r,
    ;
    assert((q + 1) * (2 * step) == q * (2 * step) + 2 * step) by (nonlinear_arith);
    assert((halves + 1) * step == halves * step + step) by (nonlinear_arith);
    assert(r == 0 ==> r * step == 0);
    assert(r == 1 ==> r * step == step);
}

/// Doubling the half steps and halving the step keeps an exact account.
proof fn lemma_double(halves: nat, scale: nat, n: nat, d: nat)
    requires
        fits_halves(halves, false, scale, n, d),
        scale > 0,
        d > 0,
    ensures
        fits_halves(2 * halves, false, (scale - 1) as nat, n, d),
{
    lemma_pow2_succ((scale - 1) as nat);
    let p = pow2((scale - 1) as nat);
    let step = d * p;
    assert(d * (2 * p) == 2 * step) by (nonlinear_arith)
        requires
            step == d * p,
    ;
    assert(step > 0) by (nonlinear_arith)
        requires
            d > 0,
            p > 0,
            step == d * p,
    ;
    assert((2 * halves) * step == halves * (2 * step)) by (nonlinear_arith);
    assert((2 * halves + 1) * step == (2 * halves) * step + step) by (nonlinear_arith);
}

impl Binary64 {
    /// The binary64 value nearest to a counter, as the cast of an unsigned integer.
    pub fn from_u64(n: u64) -> (r: Binary64)
        ensures
            r.bits == counter_mag(n),
            n == 0 <==> r.bits == 0,
            n > 0 ==> 1022 <= scale_of(r.bits as nat) <= 1087,
            n > 0 ==> mantissa_of(r.bits as nat) >= HIDDEN,
    {
        let ghost total: nat = n as nat * pow2(1074);
        if n == 0 {
            proof {
                lemma_rounded_zero(1);
            }
            return Binary64 { bits: 0 };
        }
        let mut halves: u64 = n;
        let mut scale: u64 = 1075;
        let mut inexact: bool = false;
        proof {
            lemma_pow2_succ(1074);
            let p = pow2(1074);
            assert(n as nat * (2 * p) == 2 * (n as nat * p)) by (nonlinear_arith);
            assert((n as nat + 1) * (2 * p) == n as nat * (2 * p) + 2 * p) by (nonlinear_arith);
            assert(fits_halves(halves as nat, false, scale as nat, total, 1));
            assert(pow2(0) == 1) by {
                lemma_pow2(0);
                reveal_with_fuel(vstd::arithmetic::power::pow, 1);
            };
        }
        while halves < HIDDEN_TWICE
            invariant
                !inexact,
                scale <= 1075,
                1022 <= scale,
                halves >= pow2((1075 - scale) as nat),
                halves >= 2 * HIDDEN_TWICE ==> scale == 1075,
                fits_halves(halves as nat, false, scale as nat, total, 1),
            decreases 2 * HIDDEN_TWICE - halves,
        {
            proof {
                if scale == 1022 {
                    vstd::arithmetic::power2::lemma2_to64_rest();
                    assert(pow2(53) == HIDDEN_TWICE);
                }
                lemma_pow2_succ((1075 - scale) as nat);
                lemma_pow2_pos((1075 - scale) as nat);
                lemma_double(halves as nat, scale as nat, total, 1);
            }
            halves = halves * 2;
            scale = scale - 1;
        }
        let ghost start = halves;
        while halves >= 2 * HIDDEN_TWICE
            invariant
                halves >= HIDDEN_TWICE,
                1022 <= scale <= 1086,
                halves >= 2 * HIDDEN_TWICE ==> halves * pow2((scale - 1075) as nat) <= u64::MAX
                    && scale >= 1075,
                fits_halves(halves as nat, inexact, scale as nat, total, 1),
            decreases halves,
        {
            proof {
                lemma_halve(halves as nat, inexact, scale as nat, total, 1);
                let k = (scale - 1075) as nat;
                lemma_pow2_succ(k);
                let p = pow2(k);
                let h = halves as nat / 2;
                assert(h * (2 * p) <= halves as nat * p) by (nonlinear_arith)
                    requires
                        2 * h <= halves as nat,
                ;
                if scale == 1086 {
                    vstd::arithmetic::power2::lemma2_to64();
                    assert(pow2(11) == 2048);
                    assert(halves as nat * 2048 <= u64::MAX);
                }
            }
            inexact = inexact || halves % 2 == 1;
            halves = halves / 2;
            scale = scale + 1;
        }
        let bits = pack(halves, inexact, scale);
        proof {
            lemma_pack(halves as nat, inexact, scale as nat, total, 1);
            let m = round_halves(halves as nat, inexact);
            let h = HIDDEN as nat;
            lemma_split(bits as nat);
            let b = bits as nat;
            let sc = scale as nat;
            assert(b / h >= sc + 1 && b / h <= sc + 2) by (nonlinear_arith)
                requires
                    b == sc * h + m,
                    h <= m <= 2 * h,
                    h > 0,
            ;
        }
        Binary64 { bits }
    }
}

/// The mantissa and the scale of a magnitude.
fn decode(mag: u64) -> (r: (u64, u64))
    ensures
        r.0 == mantissa_of(mag as nat),
        r.1 == scale_of(mag as nat),
        r.0 < HIDDEN_TWICE,
        mag == r.1 * HIDDEN + r.0,
        units(mag as nat) == r.0 * pow2(r.1 as nat),
        r.0 >= HIDDEN || r.1 == 0,
{
    proof {
        lemma_split(mag as nat);
    }
    let exponent: u64 = mag / HIDDEN;
    if exponent == 0 {
        (mag, 0)
    } else {
        (HIDDEN + mag % HIDDEN, exponent - 1)
    }
}

/// A quotient of normal mantissas, as half steps of the scale it needs.
proof fn lemma_quotient_fits(ma: nat, sa: nat, mb: nat, sb: nat, shift: nat, scale: nat)
    requires
        mb > 0,
        sb + scale + shift == sa + 1075,
    ensures
        ({
            let t = ma * pow2(shift);
            fits_halves(
                t / mb,
                t % mb != 0,
                scale,
                (ma * pow2(sa)) * pow2(1074),
                mb * pow2(sb),
            )
        }),
{
    let t = ma * pow2(shift);
    let h = t / mb;
    let r = t % mb;
    let q = pow2(sb + scale);
    let n = (ma * pow2(sa)) * pow2(1074);
    lemma_pow2_adds(sb, scale);
    lemma_pow2_adds(sb + scale, shift);
    lemma_pow2_adds(sa, 1074);
    lemma_pow2_succ(sa + 1074);
    lemma_pow2_pos(sb + scale);
    let step = (mb * pow2(sb)) * pow2(scale);
    assert(step == mb * q) by (nonlinear_arith)
        requires
            q == pow2(sb) * pow2(scale),
            step == (mb * pow2(sb)) * pow2(scale),
    ;
    assert(2 * n == t * q) by {
        assert(n == ma * pow2(sa + 1074)) by (nonlinear_arith)
            requires
                n == (ma * pow2(sa)) * pow2(1074),
                pow2(sa + 1074) == pow2(sa) * pow2(1074),
        ;
        let w = pow2(sa + 1074);
        let s = pow2(shift);
        assert(q * s == 2 * w);
        assert(2 * (ma * w) == (ma * s) * q) by (nonlinear_arith)
            requires
                q * s == 2 * w,
        ;
    };
    assert(t == h * mb + r && r < mb) by (nonlinear_arith)
        requires
            mb > 0,
            h == t / mb,
            r == t % mb,
    ;
    assert(h * (mb * q) + r * q == t * q) by (nonlinear_arith)
        requires
            t == h * mb + r,
    ;
    assert((h + 1) * (mb * q) == h * (mb * q) + mb * q) by (nonlinear_arith);
    assert(r * q < mb * q) by (nonlinear_arith)
        requires
            r < mb,
            q > 0,
    ;
    assert(r > 0 ==> r * q > 0) by (nonlinear_arith)
        requires
            q > 0,
    ;
}

impl Binary64 {
    /// The quotient of two counters, each converted first: one rounding for either
    /// conversion and one for the division. Nothing over nothing is a NaN, and
    /// something over nothing is infinite.
    pub fn ratio(count: u64, total: u64) -> (r: Binary64)
        ensures
            total == 0 && count == 0 ==> r.is_nan(),
            total == 0 && count > 0 ==> r.bits == INFINITY_MAG,
            total > 0 ==> r.bits == quotient_mag(counter_mag(count), counter_mag(total)),
            total > 0 ==> r.bits < INFINITY_MAG,
    {
        if total == 0 {
            if count == 0 {
                return Binary64 { bits: 0x7ff8_0000_0000_0000 };
            }
            return Binary64 { bits: INFINITY_MAG };
        }
        let a = Binary64::from_u64(count);
        let b = Binary64::from_u64(total);
        let (mb, sb) = decode(b.bits);
        let ghost d: nat = mb as nat * pow2(sb as nat);
        assert(d > 0) by {
            lemma_pow2_pos(sb as nat);
            let p = pow2(sb as nat);
            assert(mb as nat * p > 0) by (nonlinear_arith)
                requires
                    mb > 0,
                    p > 0,
            ;
        }
        if count == 0 {
            proof {
                lemma_units_order(0, 0);
                lemma_rounded_zero(d);
                assert(units(0) * pow2(ONE_SCALE as nat) == 0) by (nonlinear_arith)
                    requires
                        units(0) == 0,
                ;
            }
            return Binary64 { bits: 0 };
        }
        let (ma, sa) = decode(a.bits);
        let (t, scale): (u128, u64) = if ma >= mb {
            (ma as u128 * 0x20_0000_0000_0000u128, (sa + 1022) - sb)
        } else {
            (ma as u128 * 0x40_0000_0000_0000u128, (sa + 1021) - sb)
        };
        let halves128: u128 = t / (mb as u128);
        let rest: u128 = t % (mb as u128);
        proof {
            vstd::arithmetic::power2::lemma2_to64_rest();
            let h = halves128 as nat;
            let m = mb as nat;
            assert(t as nat == h * m + rest as nat && (rest as nat) < m) by (nonlinear_arith)
                requires
                    h == t as nat / m,
                    rest as nat == t as nat % m,
                    m > 0,
            ;
            if ma >= mb {
                assert(h >= HIDDEN_TWICE) by (nonlinear_arith)
                    requires
                        t as nat == ma as nat * 0x20_0000_0000_0000,
                        ma as nat >= m,
                        t as nat == h * m + rest as nat,
                        (rest as nat) < m,
                        m > 0,
                ;
                assert(h < 2 * HIDDEN_TWICE) by (nonlinear_arith)
                    requires
                        t as nat == ma as nat * 0x20_0000_0000_0000,
                        (ma as nat) < 2 * m,
                        t as nat == h * m + rest as nat,
                        m > 0,
                ;
                lemma_quotient_fits(ma as nat, sa as nat, m, sb as nat, 53, scale as nat);
            } else {
                assert(h >= HIDDEN_TWICE) by (nonlinear_arith)
                    requires
                        t as nat == ma as nat * 0x40_0000_0000_0000,
                        2 * ma as nat >= m,
                        t as nat == h * m + rest as nat,
                        (rest as nat) < m,
                        m > 0,
                ;
                assert(h < 2 * HIDDEN_TWICE) by (nonlinear_arith)
                    requires
                        t as nat == ma as nat * 0x40_0000_0000_0000,
                        (ma as nat) < m,
                        t as nat == h * m + rest as nat,
                        m > 0,
                ;
                lemma_quotient_fits(ma as nat, sa as nat, m, sb as nat, 54, scale as nat);
            }
        }
        let halves: u64 = halves128 as u64;
        let bits = pack(halves, rest != 0, scale);
        proof {
            let n = units(a.bits as nat) * pow2(1074);
            lemma_pack(halves as nat, rest != 0, scale as nat, n, d);
            let sc = scale as nat;
            assert(sc * (HIDDEN as nat) <= 1500 * (HIDDEN as nat)) by (nonlinear_arith)
                requires
                    sc <= 1500,
            ;
        }
        Binary64 { bits }
    }
}

/// Whether the quotient of two counters, as it is rounded, reaches a threshold.
pub open spec fn ratio_reaches(count: u64, total: u64, threshold: Binary64) -> bool {
    if total == 0 {
        count > 0 && !threshold.is_nan()
    } else {
        !threshold.is_nan() && units(quotient_mag(counter_mag(count), counter_mag(total)))
            >= threshold.value()
    }
}

/// Comparing magnitudes compares values.
proof fn lemma_units_order(a: nat, b: nat)
    ensures
        a < b <==> units(a) < units(b),
        a == b <==> units(a) == units(b),
        units(0) == 0,
{
    lemma_units_packed(0, 0);
    if a < b {
        lemma_units_monotone(a, b);
    } else if b < a {
        lemma_units_monotone(b, a);
    }
}

impl Binary64 {
    fn magnitude(self) -> (m: u64)
        ensures
            m == self.mag(),
            m == 0 <==> units(self.mag()) == 0,
    {
        proof {
            lemma_units_order(self.mag(), 0);
        }
        self.bits % SIGN
    }

    /// `self < other`.
    pub fn lt(self, other: Binary64) -> (r: bool)
        ensures
            r == self.less_than(other),
    {
        let a = self.magnitude();
        let b = other.magnitude();
        proof {
            lemma_units_order(a as nat, b as nat);
        }
        if a > INFINITY_MAG || b > INFINITY_MAG {
            false
        } else if self.bits >= SIGN {
            if other.bits >= SIGN {
                a > b
            } else {
                a > 0 || b > 0
            }
        } else if other.bits >= SIGN {
            false
        } else {
            a < b
        }
    }

    /// `self >= other`.
    pub fn ge(self, other: Binary64) -> (r: bool)
        ensures
            r == self.at_least(other),
    {
        if self.magnitude() > INFINITY_MAG || other.magnitude() > INFINITY_MAG {
            false
        } else {
            !self.lt(other)
        }
    }
}

/// Whether the quotient of two counters reaches a threshold.
pub fn ratio_at_least(count: u64, total: u64, threshold: Binary64) -> (r: bool)
    ensures
        r == ratio_reaches(count, total, threshold),
{
    let ratio = Binary64::ratio(count, total);
    proof {
        if !threshold.is_nan() {
            lemma_units_order(INFINITY_MAG as nat, threshold.mag());
        }
    }
    ratio.ge(threshold)
}

/// The pattern of the binary64 value nearest to one tenth.
pub const TENTH: u64 = 0x3fb9_9999_9999_999a;

/// The mantissa of that value, which counts multiples of 2^-56.
const TENTH_MANTISSA: u64 = 0x19_9999_9999_999a;

/// A product of mantissas, as half steps of the scale it needs.
proof fn lemma_product_fits(p: nat, s: nat, shift: nat, scale: nat)
    requires
        scale + 55 == s + shift,
    ensures
        fits_halves(
            p / pow2(shift),
            p % pow2(shift) != 0,
            scale,
            p * pow2(s + 1018),
            pow2(1074),
        ),
{
    let b = pow2(shift);
    lemma_pow2_pos(shift);
    let h = p / b;
    let r = p % b;
    let n = p * pow2(s + 1018);
    let q = pow2(s + 1019);
    lemma_pow2_succ(s + 1018);
    lemma_pow2_adds(1074, scale);
    lemma_pow2_adds(s + 1019, shift);
    assert(pow2(1074) * pow2(scale) == q * b);
    let step = pow2(1074) * pow2(scale);
    assert(2 * n == p * q) by (nonlinear_arith)
        requires
            n == p * pow2(s + 1018),
            q == 2 * pow2(s + 1018),
    ;
    assert(p == h * b + r && r < b) by (nonlinear_arith)
        requires
            b > 0,
            h == p / b,
            r == p % b,
    ;
    assert(h * (q * b) + r * q == p * q) by (nonlinear_arith)
        requires
            p == h * b + r,
    ;
    assert((h + 1) * (q * b) == h * (q * b) + q * b) by (nonlinear_arith);
    assert(r * q < q * b) by (nonlinear_arith)
        requires
            r < b,
            q > 0,
    ;
    assert(r > 0 ==> r * q > 0) by (nonlinear_arith)
        requires
            q > 0,
    ;
}

impl Binary64 {
    /// The product with one tenth, for a value from zero to one.
    pub fn tenth(self) -> (r: Binary64)
        requires
            self.bits <= ONE_MAG,
        ensures
            r.bits == product_mag(self.mag(), TENTH as nat),
            r.bits <= INFINITY_MAG,
    {
        let (m, s) = decode(self.bits);
        let p: u128 = m as u128 * TENTH_MANTISSA as u128;
        assert(p as nat == m as nat * TENTH_MANTISSA as nat && p < 0x400_0000_0000_0000_0000_0000_0000u128)
            by (nonlinear_arith)
            requires
                p as nat == m as nat * TENTH_MANTISSA as nat,
                m < HIDDEN_TWICE,
        ;
        let (divisor, scale): (u128, u64) = if s >= 4 {
            if p >= 0x200_0000_0000_0000_0000_0000_0000u128 {
                (0x10_0000_0000_0000, s - 3)
            } else {
                (0x8_0000_0000_0000, s - 4)
            }
        } else if s == 3 {
            (0x10_0000_0000_0000, 0)
        } else if s == 2 {
            (0x20_0000_0000_0000, 0)
        } else if s == 1 {
            (0x40_0000_0000_0000, 0)
        } else {
            (0x80_0000_0000_0000, 0)
        };
        let halves128: u128 = p / divisor;
        let inexact = p % divisor != 0;
        proof {
            vstd::arithmetic::power2::lemma2_to64_rest();
            let sc = s as nat;
            assert(sc <= 1022) by (nonlinear_arith)
                requires
                    sc * (HIDDEN as nat) + m <= ONE_MAG as nat,
                    m >= HIDDEN || sc == 0,
            ;
            let shift = (scale + 55 - s) as nat;
            assert(divisor == pow2(shift));
            lemma_product_fits(p as nat, sc, shift, scale as nat);
        }
        let halves: u64 = halves128 as u64;
        let bits = pack(halves, inexact, scale);
        proof {
            let n = units(self.mag()) * units(TENTH as nat);
            assert(n == p as nat * pow2((s + 1018) as nat)) by {
                assert(units(TENTH as nat) == TENTH_MANTISSA as nat * pow2(1018)) by {
                    lemma_units_packed(1018, TENTH_MANTISSA as nat);
                    assert(1018 * (HIDDEN as nat) + TENTH_MANTISSA as nat == TENTH as nat);
                };
                lemma_pow2_adds(s as nat, 1018);
                let x = m as nat;
                let ps = pow2(s as nat);
                let pt = pow2(1018);
                let k = TENTH_MANTISSA as nat;
                assert((x * ps) * (k * pt) == (x * k) * (ps * pt)) by (nonlinear_arith);
            };
            lemma_pow2_pos(1074);
            lemma_pack(halves as nat, inexact, scale as nat, n, pow2(1074));
        }
        Binary64 { bits }
    }
}

/// Where a value from zero to one lies on the scale of 64-bit hashes: the whole part
/// of its product with 2^64, which is exact, held below 2^64.
pub open spec fn hash_threshold(p: Binary64) -> nat {
    let whole = units(p.mag()) * pow2(64) / pow2(ONE_SCALE as nat);
    if whole > u64::MAX {
        u64::MAX as nat
    } else {
        whole
    }
}

/// The value that the 53 high bits of a random word stand for: a multiple of 2^-53
/// from zero up to, but not including, one.
pub open spec fn unit_units(word: u64) -> nat {
    (word / 2048) as nat * pow2(1021)
}

impl Binary64 {
    /// The value brought into the range from zero to one; a NaN stays one.
    pub open spec fn unit_clamped(self) -> Binary64 {
        if self.is_nan() {
            self
        } else if self.value() < 0 {
            Binary64 { bits: 0 }
        } else if self.value() > units(ONE_MAG as nat) {
            Binary64 { bits: ONE_MAG }
        } else {
            self
        }
    }

    /// Brings a value into the range from zero to one; a NaN stays one.
    pub fn clamp_unit(self) -> (r: Binary64)
        ensures
            r == self.unit_clamped(),
    {
        let zero = Binary64 { bits: 0 };
        let one = Binary64 { bits: ONE_MAG };
        proof {
            lemma_units_order(0, 0);
        }
        if self.lt(zero) {
            zero
        } else if one.lt(self) {
            one
        } else {
            self
        }
    }

    /// `self > 0`.
    pub fn is_positive(self) -> (r: bool)
        ensures
            r == (!self.is_nan() && self.value() > 0),
    {
        let zero = Binary64 { bits: 0 };
        proof {
            lemma_units_order(0, 0);
        }
        zero.lt(self)
    }

    /// The threshold below which the given share of all 64-bit hashes lies.
    pub fn to_hash_threshold(self) -> (r: u64)
        requires
            self.bits <= ONE_MAG,
        ensures
            r == hash_threshold(self),
    {
        let (m, s) = decode(self.bits);
        proof {
            let sc = s as nat;
            assert(sc <= 1022) by (nonlinear_arith)
                requires
                    sc * (HIDDEN as nat) + m <= ONE_MAG as nat,
                    m >= HIDDEN || sc == 0,
            ;
            lemma_pow2_adds(sc, 64);
            lemma_pow2_adds(1010, 64);
            lemma_pow2_pos(64);
            lemma_pow2_pos(1010);
            let p = pow2(sc);
            let w = pow2(64);
            let b = pow2(1010);
            let x = m as nat;
            assert((x * p) * w / (b * w) == x * p / b) by {
                vstd::arithmetic::div_mod::lemma_div_multiples_vanish_quotient(
                    w as int,
                    (x * p) as int,
                    b as int,
                );
                assert(w * (x * p) == (x * p) * w) by (nonlinear_arith);
                assert(w * b == b * w) by (nonlinear_arith);
            };
        }
        if s >= 1010 {
            let mut whole: u128 = m as u128;
            let mut k: u64 = 1010;
            proof {
                assert(pow2(0) == 1) by {
                    lemma_pow2(0);
                    reveal_with_fuel(vstd::arithmetic::power::pow, 1);
                };
                assert((k - 1010) as nat == 0nat);
                assert(m as nat * pow2(0) == m) by (nonlinear_arith)
                    requires
                        pow2(0) == 1,
                ;
            }
            while k < s
                invariant
                    1010 <= k <= s <= 1022,
                    m < HIDDEN_TWICE,
                    whole == m * pow2((k - 1010) as nat),
                decreases s - k,
            {
                proof {
                    let j = (k - 1010) as nat;
                    lemma_pow2_succ(j);
                    vstd::arithmetic::power2::lemma2_to64();
                    assert(pow2(j) <= 2048) by {
                        if j < 11 {
                            vstd::arithmetic::power2::lemma_pow2_strictly_increases(j, 11);
                        }
                    };
                    let q = pow2(j);
                    let x = m as nat;
                    assert(x * q <= HIDDEN_TWICE * 2048) by (nonlinear_arith)
                        requires
                            x <= HIDDEN_TWICE,
                            q <= 2048,
                    ;
                    assert(2 * (x * q) == x * (2 * q)) by (nonlinear_arith);
                }
                whole = whole * 2;
                k = k + 1;
            }
            proof {
                let j = (s - 1010) as nat;
                lemma_pow2_adds(1010, j);
                lemma_pow2_pos(1010);
                let b = pow2(1010);
                let q = pow2(j);
                let x = m as nat;
                assert(x * (b * q) == (x * q) * b) by (nonlinear_arith);
                vstd::arithmetic::div_mod::lemma_div_by_multiple((x * q) as int, b as int);
            }
            if whole > 0xffff_ffff_ffff_ffff {
                0xffff_ffff_ffff_ffff
            } else {
                whole as u64
            }
        } else {
            let mut whole: u64 = m;
            let mut k: u64 = s;
            proof {
                lemma_pow2_pos(s as nat);
                let p = pow2(s as nat);
                let x = m as nat;
                vstd::arithmetic::div_mod::lemma_div_by_multiple(x as int, p as int);
            }
            while k < 1010
                invariant
                    s <= k <= 1010,
                    whole == m as nat * pow2(s as nat) / pow2(k as nat),
                decreases 1010 - k,
            {
                proof {
                    lemma_pow2_succ(k as nat);
                    vstd::arithmetic::div_mod::lemma_div_denominator(
                        (m as nat * pow2(s as nat)) as int,
                        pow2(k as nat) as int,
                        2,
                    );
                }
                whole = whole / 2;
                k = k + 1;
            }
            whole
        }
    }

    /// The number from zero up to one that a random word stands for.
    pub fn unit_interval(word: u64) -> (r: Binary64)
        ensures
            r.bits < ONE_MAG,
            units(r.mag()) == unit_units(word),
    {
        let count: u64 = word / 2048;
        if count == 0 {
            proof {
                lemma_units_order(0, 0);
            }
            return Binary64 { bits: 0 };
        }
        let mut m: u64 = count;
        let mut s: u64 = 1021;
        proof {
            assert(pow2(0) == 1) by {
                lemma_pow2(0);
                reveal_with_fuel(vstd::arithmetic::power::pow, 1);
            };
        }
        while m < HIDDEN
            invariant
                0 < m < HIDDEN_TWICE,
                969 <= s <= 1021,
                m >= pow2((1021 - s) as nat),
                m * pow2(s as nat) == count * pow2(1021),
            decreases HIDDEN_TWICE - m,
        {
            proof {
                if s == 969 {
                    vstd::arithmetic::power2::lemma2_to64_rest();
                    assert(pow2(52) == HIDDEN);
                }
                lemma_pow2_succ((s - 1) as nat);
                lemma_pow2_succ((1021 - s) as nat);
                let q = pow2((s - 1) as nat);
                let x = m as nat;
                assert(x * (2 * q) == (2 * x) * q) by (nonlinear_arith);
            }
            m = m * 2;
            s = s - 1;
        }
        proof {
            lemma_units_packed(s as nat, m as nat);
            let sc = s as nat;
            let h = HIDDEN as nat;
            assert(sc * h + m < ONE_MAG && sc * h <= 1021 * h) by (nonlinear_arith)
                requires
                    sc <= 1021,
                    m < 2 * h,
                    h == HIDDEN,
            ;
        }
        Binary64 { bits: s * HIDDEN + m }
    }
}

/// Every fraction rounds to some magnitude: the search goes up from one that is not
/// too high until one is not too low either.
proof fn lemma_nearest_exists(mag: nat, n: nat, d: nat)
    requires
        mag <= INFINITY_MAG,
        mag > 0 ==> {
            let low = d * (units((mag - 1) as nat) + units(mag));
            2 * n > low || (2 * n == low && mag % 2 == 0)
        },
    ensures
        exists|m: nat| is_nearest(m, n, d),
    decreases INFINITY_MAG - mag,
{
    if is_nearest(mag, n, d) {
    } else {
        lemma_nearest_exists(mag + 1, n, d);
    }
}

/// Rounding finds a nearest magnitude.
pub proof fn lemma_rounded_is_nearest(n: nat, d: nat)
    ensures
        is_nearest(rounded(n, d), n, d),
{
    lemma_nearest_exists(0, n, d);
}

/// Rounding keeps the order of fractions.
pub proof fn rounding_is_monotone(n1: nat, d1: nat, n2: nat, d2: nat)
    requires
        d1 > 0,
        d2 > 0,
        n1 * d2 <= n2 * d1,
    ensures
        rounded(n1, d1) <= rounded(n2, d2),
{
    let a = rounded(n1, d1);
    let b = rounded(n2, d2);
    lemma_rounded_is_nearest(n1, d1);
    lemma_rounded_is_nearest(n2, d2);
    if b < a {
        let low = units((a - 1) as nat) + units(a);
        let high = units(b) + units(b + 1);
        if b + 1 < a {
            lemma_units_monotone(b, (a - 1) as nat);
            lemma_units_monotone(b + 1, a);
        }
        assert(high <= low);
        assert(b + 1 < a ==> high < low);
        assert(2 * n1 >= d1 * low);
        assert(2 * n2 <= d2 * high);
        assert(d2 * (2 * n1) >= d2 * (d1 * low)) by (nonlinear_arith)
            requires
                2 * n1 >= d1 * low,
                d2 > 0,
        ;
        assert(d1 * (2 * n2) <= d1 * (d2 * high)) by (nonlinear_arith)
            requires
                2 * n2 <= d2 * high,
                d1 > 0,
        ;
        assert(d2 * (2 * n1) == 2 * (n1 * d2)) by (nonlinear_arith);
        assert(d1 * (2 * n2) == 2 * (n2 * d1)) by (nonlinear_arith);
        assert(d2 * (d1 * low) == (d1 * d2) * low) by (nonlinear_arith);
        assert(d1 * (d2 * high) == (d1 * d2) * high) by (nonlinear_arith);
        assert(d1 * d2 > 0) by (nonlinear_arith)
            requires
                d1 > 0,
                d2 > 0,
        ;
        if high < low {
            assert((d1 * d2) * high < (d1 * d2) * low) by (nonlinear_arith)
                requires
                    high < low,
                    d1 * d2 > 0,
            ;
        } else {
            // Both sit on the same half way point, which only the even one may take.
            assert(a == b + 1);
            assert(d2 * (2 * n1) == d2 * (d1 * low));
            assert(2 * n1 == d1 * low) by (nonlinear_arith)
                requires
                    d2 * (2 * n1) == d2 * (d1 * low),
                    d2 > 0,
            ;
            assert(2 * n2 == d2 * high) by (nonlinear_arith)
                requires
                    d1 * (2 * n2) == d1 * (d2 * high),
                    d1 > 0,
            ;
        }
    }
}

/// A value that needs no rounding stays as it is.
pub proof fn exact_values_are_kept(mag: nat, d: nat)
    requires
        d > 0,
        mag <= INFINITY_MAG,
    ensures
        rounded(units(mag) * d, d) == mag,
{
    let n = units(mag) * d;
    let u = units(mag);
    lemma_units_step(mag);
    let next = units(mag + 1);
    assert(2 * (u * d) < d * (u + next)) by (nonlinear_arith)
        requires
            u < next,
            d > 0,
    ;
    if mag > 0 {
        lemma_units_step((mag - 1) as nat);
        let prev = units((mag - 1) as nat);
        assert(2 * (u * d) > d * (prev + u)) by (nonlinear_arith)
            requires
                prev < u,
                d > 0,
        ;
    }
    assert(is_nearest(mag, n, d));
    lemma_rounded_unique(mag, n, d);
}

/// The value of one.
proof fn lemma_one()
    ensures
        units(ONE_MAG as nat) == pow2(1074),
{
    lemma_units_packed(1022, HIDDEN as nat);
    assert(1022 * (HIDDEN as nat) + HIDDEN as nat == ONE_MAG as nat);
    lemma_pow2_adds(52, 1022);
    vstd::arithmetic::power2::lemma2_to64_rest();
}

/// Some calls round to more than nothing.
proof fn lemma_counter_positive(n: u64)
    requires
        n > 0,
    ensures
        units(counter_mag(n)) >= pow2(1074),
        pow2(1074) > 0,
{
    lemma_pow2_pos(1074);
    lemma_one();
    let p = pow2(1074);
    exact_values_are_kept(ONE_MAG as nat, 1);
    assert(p * 1 <= (n as nat * p) * 1) by (nonlinear_arith)
        requires
            n >= 1,
    ;
    rounding_is_monotone(p, 1, n as nat * p, 1);
    assert(units(ONE_MAG as nat) * 1 == p);
    if (ONE_MAG as nat) < counter_mag(n) {
        lemma_units_monotone(ONE_MAG as nat, counter_mag(n));
    }
}

/// The ratio of a number of calls to itself is exactly one.
pub proof fn ratio_of_all_is_one(n: u64)
    requires
        n > 0,
    ensures
        quotient_mag(counter_mag(n), counter_mag(n)) == ONE_MAG,
{
    lemma_counter_positive(n);
    lemma_one();
    let u = units(counter_mag(n));
    exact_values_are_kept(ONE_MAG as nat, u);
    assert(pow2(1074) * u == u * pow2(1074)) by (nonlinear_arith);
}

/// A larger count of the same calls has no smaller ratio.
pub proof fn ratio_grows_with_count(a: u64, b: u64, total: u64, threshold: Binary64)
    requires
        a <= b,
        ratio_reaches(a, total, threshold),
    ensures
        ratio_reaches(b, total, threshold),
{
    if total > 0 {
        lemma_counter_positive(total);
        let p = pow2(1074);
        let d = units(counter_mag(total));
        assert((a as nat * p) * 1 <= (b as nat * p) * 1) by (nonlinear_arith)
            requires
                a <= b,
        ;
        rounding_is_monotone(a as nat * p, 1, b as nat * p, 1);
        let ua = units(counter_mag(a));
        let ub = units(counter_mag(b));
        if counter_mag(a) < counter_mag(b) {
            lemma_units_monotone(counter_mag(a), counter_mag(b));
        }
        assert((ua * p) * d <= (ub * p) * d) by (nonlinear_arith)
            requires
                ua <= ub,
        ;
        rounding_is_monotone(ua * p, d, ub * p, d);
        let qa = quotient_mag(counter_mag(a), counter_mag(total));
        let qb = quotient_mag(counter_mag(b), counter_mag(total));
        if qa < qb {
            lemma_units_monotone(qa, qb);
        }
    }
}

/// Counters below 2^53 convert without loss.
pub proof fn small_counters_are_exact(n: u64)
    requires
        n < HIDDEN_TWICE,
    ensures
        units(counter_mag(n)) == n * pow2(1074),
{
    lemma_counter_exact(n as nat, 1074);
}

/// A mantissa below 2^53, moved down until it fills 53 bits or the scale runs out, is
/// the mantissa of a magnitude.
proof fn lemma_counter_exact(m: nat, scale: nat)
    requires
        m < HIDDEN_TWICE,
        scale <= 1074,
    ensures
        units(rounded(m * pow2(scale), 1)) == m * pow2(scale),
    decreases scale,
{
    if m >= HIDDEN || scale == 0 {
        let mag = scale * HIDDEN as nat + m;
        assert(mag <= INFINITY_MAG) by {
            assert(scale * HIDDEN as nat <= 1074 * HIDDEN as nat) by (nonlinear_arith)
                requires
                    scale <= 1074,
            ;
        };
        lemma_units_packed(scale, m);
        exact_values_are_kept(mag, 1);
        assert(units(mag) * 1 == m * pow2(scale));
    } else {
        lemma_pow2_succ((scale - 1) as nat);
        let p = pow2((scale - 1) as nat);
        assert(m * (2 * p) == (2 * m) * p) by (nonlinear_arith);
        lemma_counter_exact(2 * m, (scale - 1) as nat);
    }
}

/// The pattern of one half.
pub const HALF_MAG: u64 = 0x3fe0_0000_0000_0000;

/// At a threshold of one half the rounded ratio decides as exact arithmetic does:
/// the threshold is reached when at least every second call counts.
pub proof fn half_is_exact(count: u64, total: u64)
    requires
        count <= total,
        0 < total < HIDDEN_TWICE,
    ensures
        ratio_reaches(count, total, Binary64 { bits: HALF_MAG }) <==> 2 * count >= total,
{
    let half = Binary64 { bits: HALF_MAG };
    let p = pow2(1074);
    small_counters_are_exact(count);
    small_counters_are_exact(total);
    lemma_pow2_pos(1074);
    let c = count as nat;
    let t = total as nat;
    let n = (c * p) * p;
    let d = t * p;
    let q = rounded(n, d);
    let h = HALF_MAG as nat;
    assert(d > 0) by (nonlinear_arith)
        requires
            t > 0,
            p > 0,
            d == t * p,
    ;
    // One half is 2^1073 units, and the value below it 2^1020 less.
    lemma_units_packed(1021, HIDDEN as nat);
    assert(1021 * (HIDDEN as nat) + HIDDEN as nat == h);
    lemma_pow2_adds(52, 1021);
    vstd::arithmetic::power2::lemma2_to64_rest();
    lemma_pow2_succ(1073);
    let uh = units(h);
    assert(2 * uh == p);
    lemma_units_step((h - 1) as nat);
    assert(scale_of((h - 1) as nat) == 1020);
    lemma_pow2_adds(54, 1020);
    let e = pow2(1020);
    lemma_pow2_pos(1020);
    let below = units((h - 1) as nat);
    assert(below + e == uh);
    assert(p == 0x40_0000_0000_0000 * e);
    assert(half.mag() == h);
    lemma_rounded_is_nearest(n, d);
    if 2 * c >= t {
        exact_values_are_kept(h, d);
        assert((uh * d) * d <= n * d) by {
            assert(2 * (uh * d) <= 2 * n) by (nonlinear_arith)
                requires
                    2 * uh == p,
                    d == t * p,
                    n == (c * p) * p,
                    2 * c >= t,
            ;
            assert((uh * d) * d <= n * d) by (nonlinear_arith)
                requires
                    uh * d <= n,
                    d > 0,
            ;
        };
        rounding_is_monotone(uh * d, d, n, d);
        if h < q {
            lemma_units_monotone(h, q);
        }
    } else {
        assert(2 * n < d * (below + uh)) by {
            let diff = (t - 2 * c) as nat;
            assert(t * e < diff * p) by (nonlinear_arith)
                requires
                    t < 0x20_0000_0000_0000,
                    diff >= 1,
                    p == 0x40_0000_0000_0000 * e,
                    e > 0,
            ;
            assert(2 * c * p + t * e < t * p) by (nonlinear_arith)
                requires
                    t * e < diff * p,
                    diff == t - 2 * c,
            ;
            assert(2 * n == (2 * c * p) * p) by (nonlinear_arith)
                requires
                    n == (c * p) * p,
            ;
            assert(d * (below + uh) == (t * p - t * e) * p) by (nonlinear_arith)
                requires
                    d == t * p,
                    below + uh == p - e,
            ;
            assert((2 * c * p) * p < (t * p - t * e) * p) by (nonlinear_arith)
                requires
                    2 * c * p < t * p - t * e,
                    p > 0,
            ;
        };
        if q >= h {
            let low = units((q - 1) as nat) + units(q);
            if q > h {
                lemma_units_monotone((h - 1) as nat, (q - 1) as nat);
                lemma_units_monotone(h, q);
            }
            assert(d * low >= d * (below + uh)) by (nonlinear_arith)
                requires
                    low >= below + uh,
                    d > 0,
            ;
        }
        assert(q < h);
        lemma_units_monotone(q, h);
    }
}

/// A positive value that is brought into the range from zero to one lies there.
pub proof fn lemma_clamped_is_unit(p: Binary64)
    requires
        !p.is_nan(),
        p.value() > 0,
    ensures
        0 < p.unit_clamped().bits <= ONE_MAG,
        p.unit_clamped().mag() == p.unit_clamped().bits,
        p.unit_clamped().value() > 0,
{
    lemma_units_order(p.mag(), ONE_MAG as nat);
    lemma_units_order(p.mag(), 0);
    lemma_units_order(ONE_MAG as nat, 0);
}

/// Both thresholds grow with the share that they stand for.
pub proof fn lemma_thresholds_grow(a: Binary64, b: Binary64)
    requires
        !a.is_nan(),
        !b.is_nan(),
        0 < a.value() <= b.value(),
    ensures
        hash_threshold(a.unit_clamped()) <= hash_threshold(b.unit_clamped()),
        units(product_mag(a.unit_clamped().mag(), TENTH as nat)) <= units(
            product_mag(b.unit_clamped().mag(), TENTH as nat),
        ),
{
    let x = a.unit_clamped();
    let y = b.unit_clamped();
    lemma_clamped_is_unit(a);
    lemma_clamped_is_unit(b);
    let ux = units(x.mag());
    let uy = units(y.mag());
    assert(ux <= uy);
    let w = pow2(64);
    let d = pow2(1074);
    lemma_pow2_pos(1074);
    assert(ux * w <= uy * w) by (nonlinear_arith)
        requires
            ux <= uy,
    ;
    vstd::arithmetic::div_mod::lemma_div_is_ordered((ux * w) as int, (uy * w) as int, d as int);
    let t = units(TENTH as nat);
    assert((ux * t) * d <= (uy * t) * d) by (nonlinear_arith)
        requires
            ux <= uy,
    ;
    rounding_is_monotone(ux * t, d, uy * t, d);
    let px = product_mag(x.mag(), TENTH as nat);
    let py = product_mag(y.mag(), TENTH as nat);
    if px < py {
        lemma_units_monotone(px, py);
    }
}

/// The threshold of a full share is the largest hash.
pub proof fn lemma_full_threshold(p: Binary64)
    requires
        p.is_full(),
    ensures
        p.value() > 0,
        hash_threshold(p.unit_clamped()) == u64::MAX,
{
    lemma_one();
    lemma_pow2_pos(1074);
    lemma_units_order(p.mag(), ONE_MAG as nat);
    let d = pow2(1074);
    let w = pow2(64);
    assert(units(p.unit_clamped().mag()) == d);
    assert(d * w / d == w) by {
        assert(d * w == w * d) by (nonlinear_arith);
        vstd::arithmetic::div_mod::lemma_div_by_multiple(w as int, d as int);
    };
    vstd::arithmetic::power2::lemma2_to64();
}

/// A random number from the interval lies below every full share, and below no share
/// that is zero or less.
pub proof fn lemma_unit_draw(word: u64, p: Binary64)
    ensures
        p.is_full() ==> unit_units(word) < p.unit_clamped().value(),
        !p.is_nan() && p.value() <= 0 ==> unit_units(word) >= p.unit_clamped().value(),
{
    lemma_one();
    lemma_pow2_adds(53, 1021);
    lemma_pow2_pos(1021);
    vstd::arithmetic::power2::lemma2_to64_rest();
    lemma_units_order(p.mag(), ONE_MAG as nat);
    lemma_units_order(ONE_MAG as nat, 0);
    let k = (word / 2048) as nat;
    let e = pow2(1021);
    assert(k < 0x20_0000_0000_0000);
    assert(k * e < 0x20_0000_0000_0000 * e) by (nonlinear_arith)
        requires
            k < 0x20_0000_0000_0000,
            e > 0,
    ;
}

/// A random number from the interval is at least zero and below one.
pub proof fn lemma_draw_is_below_one(word: u64)
    ensures
        0 <= unit_units(word) < units(ONE_MAG as nat),
{
    let one = Binary64 { bits: ONE_MAG };
    lemma_one();
    lemma_unit_draw(word, one);
}

/// Bringing values into the range from zero to one keeps their order.
pub proof fn clamping_is_monotone(a: Binary64, b: Binary64)
    requires
        !a.is_nan(),
        !b.is_nan(),
        a.value() <= b.value(),
    ensures
        a.unit_clamped().value() <= b.unit_clamped().value(),
{
    lemma_units_order(ONE_MAG as nat, 0);
}

/// A random number is the fraction that its word is of all words, cut off after 53 bits: it
/// is at most that fraction, and less than one step below it.
pub proof fn draw_is_the_fraction_of_its_word(word: u64)
    ensures
        unit_units(word) * pow2(64) <= word as nat * pow2(1074),
        (word as nat) * pow2(1074) < (unit_units(word) + pow2(1021)) * pow2(64),
{
    let k = (word / 2048) as nat;
    let w = word as nat;
    let e = pow2(1021);
    let one = pow2(64);
    let d = pow2(1074);
    lemma_pow2_pos(1021);
    lemma_pow2_adds(1021, 64);
    lemma_pow2_adds(11, 1074);
    vstd::arithmetic::power2::lemma2_to64();
    assert(pow2(11) == 2048);
    assert(e * one == 2048 * d);
    assert(k * 2048 <= w < (k + 1) * 2048);
    assert((k * e) * one == (k * 2048) * d) by (nonlinear_arith)
        requires
            e * one == 2048 * d,
    ;
    assert((k * e + e) * one == ((k + 1) * 2048) * d) by (nonlinear_arith)
        requires
            e * one == 2048 * d,
    ;
    lemma_pow2_pos(1074);
    assert((k * 2048) * d <= w * d) by (nonlinear_arith)
        requires
            k * 2048 <= w,
    ;
    assert(w * d < ((k + 1) * 2048) * d) by (nonlinear_arith)
        requires
            w < (k + 1) * 2048,
            d > 0,
    ;
}

/// Lowering a magnitude by whole exponents divides its value by as many twos.
proof fn lemma_lower_exponent(mag: nat, by: nat)
    requires
        mag >= (by + 1) * (HIDDEN as nat),
    ensures
        mag >= by * (HIDDEN as nat),
        units((mag - by * (HIDDEN as nat)) as nat) * pow2(by) == units(mag),
{
    let h = HIDDEN as nat;
    lemma_split(mag);
    let s = scale_of(mag);
    let m = mantissa_of(mag);
    assert(by * h + h == (by + 1) * h) by (nonlinear_arith);
    assert(s >= by) by (nonlinear_arith)
        requires
            mag == s * h + m,
            m < 2 * h,
            mag >= (by + 1) * h,
    ;
    assert(m >= h || by == 0);
    let low = (s - by) as nat;
    assert(low * h + m == mag - by * h) by (nonlinear_arith)
        requires
            mag == s * h + m,
            low == s - by,
    ;
    lemma_units_packed(low, m);
    lemma_units_packed(s, m);
    lemma_pow2_adds(low, by);
    let p = pow2(low);
    let q = pow2(by);
    assert((m * p) * q == m * (p * q)) by (nonlinear_arith);
}

/// A tenth of a value lies between a sixteenth and an eighth of it, for all values but the
/// very smallest.
pub proof fn tenth_lies_between_sixteenth_and_eighth(mag: nat)
    requires
        5 * (HIDDEN as nat) <= mag <= INFINITY_MAG,
    ensures
        8 * units(product_mag(mag, TENTH as nat)) <= units(mag),
        units(mag) <= 16 * units(product_mag(mag, TENTH as nat)),
{
    let h = HIDDEN as nat;
    let a = units(mag);
    let t = units(TENTH as nat);
    let d = pow2(1074);
    let eighth = (mag - 3 * h) as nat;
    let sixteenth = (mag - 4 * h) as nat;
    lemma_lower_exponent(mag, 3);
    lemma_lower_exponent(mag, 4);
    vstd::arithmetic::power2::lemma2_to64();
    vstd::arithmetic::power2::lemma2_to64_rest();
    lemma_pow2_pos(1018);
    lemma_pow2_pos(1074);
    lemma_pow2_adds(56, 1018);
    lemma_units_packed(1018, TENTH_MANTISSA as nat);
    assert(1018 * h + TENTH_MANTISSA as nat == TENTH as nat);
    let e = pow2(1018);
    let k = TENTH_MANTISSA as nat;
    assert(t == k * e && d == 0x100_0000_0000_0000 * e);
    assert(8 * t <= d <= 16 * t) by (nonlinear_arith)
        requires
            t == k * e,
            d == 0x100_0000_0000_0000 * e,
            k == 0x19_9999_9999_999a,
            e > 0,
    ;
    let u8th = units(eighth);
    let u16th = units(sixteenth);
    assert(u8th * 8 == a && u16th * 16 == a);
    assert((a * t) * d <= (u8th * d) * d) by (nonlinear_arith)
        requires
            u8th * 8 == a,
            8 * t <= d,
    ;
    assert((u16th * d) * d <= (a * t) * d) by (nonlinear_arith)
        requires
            u16th * 16 == a,
            d <= 16 * t,
    ;
    exact_values_are_kept(eighth, d);
    exact_values_are_kept(sixteenth, d);
    rounding_is_monotone(a * t, d, u8th * d, d);
    rounding_is_monotone(u16th * d, d, a * t, d);
    let p = product_mag(mag, TENTH as nat);
    if p < eighth {
        lemma_units_monotone(p, eighth);
    }
    if sixteenth < p {
        lemma_units_monotone(sixteenth, p);
    }
}

/// A hash lies below the threshold of a share exactly when the next hash is still at most
/// the share of all hashes.
pub proof fn hashes_below_threshold_are_the_share(p: Binary64, hash: u64)
    requires
        hash < u64::MAX,
    ensures
        hash < hash_threshold(p) <==> (hash + 1) as nat * pow2(1074) <= units(p.mag()) * pow2(64),
{
    let n = units(p.mag()) * pow2(64);
    let d = pow2(1074);
    lemma_pow2_pos(1074);
    let whole = n / d;
    assert(n == whole * d + n % d && n % d < d) by (nonlinear_arith)
        requires
            d > 0,
            whole == n / d,
    ;
    let h = (hash + 1) as nat;
    if h <= whole {
        assert(h * d <= whole * d) by (nonlinear_arith)
            requires
                h <= whole,
        ;
    } else {
        assert(h * d >= (whole + 1) * d) by (nonlinear_arith)
            requires
                h >= whole + 1,
        ;
        assert((whole + 1) * d == whole * d + d) by (nonlinear_arith);
    }
}

} // verus!
