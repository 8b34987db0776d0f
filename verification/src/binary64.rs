//! Measured real numbers, carried as IEEE 754 binary64 bit patterns.
//!
//! The library compares, selects and truncates such numbers exactly; it does
//! no rounding arithmetic on them.

use vstd::arithmetic::div_mod::{lemma_div_by_multiple, lemma_div_denominator};
use vstd::arithmetic::mul::{lemma_mul_inequality, lemma_mul_is_associative, lemma_mul_is_commutative};
use vstd::arithmetic::power2::{lemma2_to64, lemma2_to64_rest, lemma_pow2_adds, lemma_pow2_pos, lemma_pow2_strictly_increases, pow2};
use vstd::bits::lemma_u64_shr_is_div;
use vstd::prelude::*;

verus! {

/// A binary64 number, held by its bits.
#[derive(Clone, Copy, Debug, PartialEq, Eq, Structural)]
pub struct Real {
    pub bits: u64,
}

/// One half of the bit patterns: those with the sign bit clear.
pub const SIGN: u64 = 0x8000_0000_0000_0000;

/// The weight of the lowest exponent bit.
pub const ONE_EXPONENT: u64 = 0x10_0000_0000_0000;

/// The exponent field of infinities and NaNs.
pub const TOP_EXPONENT: u64 = 2047;

/// The largest byte count that is reported: 2^41.
pub const BYTES_CEILING: u64 = 0x200_0000_0000;

impl Real {
    /// Positive zero.
    pub open spec fn zero() -> Real {
        Real { bits: 0 }
    }

    /// Whether the sign bit is set.
    pub open spec fn negative(self) -> bool {
        self.bits >= SIGN
    }

    /// The exponent field.
    pub open spec fn exponent(self) -> nat {
        (self.bits % SIGN / ONE_EXPONENT) as nat
    }

    /// The fraction field.
    pub open spec fn fraction(self) -> nat {
        (self.bits % ONE_EXPONENT) as nat
    }

    /// Whether this is not a number.
    pub open spec fn nan(self) -> bool {
        self.exponent() == TOP_EXPONENT && self.fraction() != 0
    }

    /// Whether this is neither infinite nor NaN.
    pub open spec fn finite(self) -> bool {
        self.exponent() != TOP_EXPONENT
    }

    /// Whether this is zero, of either sign.
    pub open spec fn is_zero_value(self) -> bool {
        self.bits % SIGN == 0
    }

    /// The significand, with the hidden bit of normal numbers.
    pub open spec fn significand(self) -> nat {
        if self.exponent() == 0 {
            self.fraction()
        } else {
            self.fraction() + ONE_EXPONENT as nat
        }
    }

    /// The power of two that scales the significand, in units of 2^-1074.
    pub open spec fn scale(self) -> nat {
        if self.exponent() == 0 {
            0
        } else {
            (self.exponent() - 1) as nat
        }
    }

    /// The magnitude in units of 2^-1074. An infinity counts as larger than
    /// every finite number.
    pub open spec fn units(self) -> nat {
        self.significand() * pow2(self.scale())
    }

    /// The value in units of 2^-1074.
    pub open spec fn value(self) -> int {
        if self.negative() {
            -(self.units() as int)
        } else {
            self.units() as int
        }
    }

    /// The larger of `self` and `floor`, and `floor` if `self` is not a number.
    pub open spec fn raised(self, floor: Real) -> Real {
        if self.nan() || self.value() < floor.value() {
            floor
        } else {
            self
        }
    }

    /// The whole part of `self * 2^shift`, from 0 up to the byte ceiling; 0 if
    /// `self` is negative or not a number.
    pub open spec fn whole_scaled(self, shift: nat) -> nat {
        if self.nan() || self.negative() {
            0
        } else {
            let whole = self.units() * pow2(shift) / pow2(1074);
            if whole <= BYTES_CEILING {
                whole
            } else {
                BYTES_CEILING as nat
            }
        }
    }

    pub fn from_bits(bits: u64) -> (r: Real)
        ensures
            r.bits == bits,
    {
        Real { bits }
    }

    /// Whether this is neither infinite nor NaN.
    pub fn is_finite(&self) -> (r: bool)
        ensures
            r == self.finite(),
    {
        self.bits % SIGN / ONE_EXPONENT != TOP_EXPONENT
    }

    /// Whether this is zero, of either sign.
    pub fn is_zero(&self) -> (r: bool)
        ensures
            r == self.is_zero_value(),
    {
        self.bits % SIGN == 0
    }

    fn is_nan(&self) -> (r: bool)
        ensures
            r == self.nan(),
    {
        self.bits % SIGN / ONE_EXPONENT == TOP_EXPONENT && self.bits % ONE_EXPONENT != 0
    }

    /// The larger of `self` and a positive `floor`; `floor` if `self` is not a
    /// number.
    pub fn at_least(&self, floor: Real) -> (r: Real)
        requires
            !floor.nan(),
            0 < floor.bits < SIGN,
        ensures
            r == self.raised(floor),
    {
        if self.is_nan() {
            return floor;
        }
        proof {
            lemma_units_increase(Real::zero(), floor);
            if !self.negative() {
                lemma_order(floor, *self);
            }
        }
        if self.bits < SIGN && self.bits >= floor.bits {
            *self
        } else {
            floor
        }
    }

    /// The whole part of `self * 2^shift`, clamped to `0..=BYTES_CEILING`.
    pub fn scaled_whole(&self, shift: u64) -> (r: u64)
        requires
            shift <= 52,
        ensures
            r == self.whole_scaled(shift as nat),
    {
        if self.is_nan() || self.bits >= SIGN {
            return 0;
        }
        let exponent: u64 = self.bits % SIGN / ONE_EXPONENT;
        let fraction: u64 = self.bits % ONE_EXPONENT;
        let significand: u64 = if exponent == 0 {
            fraction
        } else {
            fraction + ONE_EXPONENT
        };
        let scale: u64 = if exponent == 0 {
            0
        } else {
            exponent - 1
        };
        proof {
            lemma_pow2_adds(scale as nat, shift as nat);
            lemma_mul_is_associative(
                significand as int,
                pow2(scale as nat) as int,
                pow2(shift as nat) as int,
            );
            lemma2_to64();
            lemma2_to64_rest();
        }
        let ghost p = pow2((scale + shift) as nat);
        assert(self.units() * pow2(shift as nat) == significand * p);
        if scale + shift >= 1074 {
            proof {
                lemma_pow2_pos(1074);
                let up = (scale + shift - 1074) as nat;
                lemma_pow2_adds(1074, up);
                lemma_pow2_pos(up);
                lemma_mul_is_commutative(pow2(1074) as int, pow2(up) as int);
                lemma_mul_is_associative(significand as int, pow2(up) as int, pow2(1074) as int);
                lemma_div_by_multiple(significand as int * pow2(up) as int, pow2(1074) as int);
                lemma_mul_inequality(1, pow2(up) as int, significand as int);
                lemma_mul_is_commutative(significand as int, pow2(up) as int);
            }
            return BYTES_CEILING;
        }
        let down: u64 = 1074 - scale - shift;
        proof {
            lemma_pow2_pos((scale + shift) as nat);
            lemma_pow2_pos(down as nat);
            lemma_pow2_adds((scale + shift) as nat, down as nat);
            lemma_div_denominator(significand as int * p as int, p as int, pow2(down as nat) as int);
            lemma_div_by_multiple(significand as int, p as int);
            assert(self.units() * pow2(shift as nat) / pow2(1074) == significand as nat / pow2(
                down as nat,
            ));
        }
        let whole: u64 = if down >= 64 {
            proof {
                lemma_pow2_strictly_increases(63, down as nat);
                assert(significand as nat / pow2(down as nat) == 0) by (nonlinear_arith)
                    requires
                        (significand as nat) < pow2(down as nat),
                ;
            }
            0
        } else {
            proof {
                lemma_u64_shr_is_div(significand, down);
            }
            significand >> down
        };
        if whole <= BYTES_CEILING {
            whole
        } else {
            BYTES_CEILING
        }
    }
}

/// A number raised to a floor is a number, and not below the floor; it differs
/// from the number only where that lies below the floor or is not a number.
pub proof fn law_raised(x: Real, floor: Real)
    requires
        !floor.nan(),
    ensures
        !x.raised(floor).nan(),
        x.raised(floor).value() >= floor.value(),
        !x.nan() && x.value() >= floor.value() ==> x.raised(floor) == x,
        x.nan() || x.value() < floor.value() ==> x.raised(floor) == floor,
{
}

/// Zero stays zero under any scale.
pub proof fn lemma_zero_whole(shift: nat)
    ensures
        Real::zero().whole_scaled(shift) == 0,
{
    let zero = Real::zero();
    assert(zero.units() == 0) by (nonlinear_arith)
        requires
            zero.significand() == 0,
            zero.units() == zero.significand() * pow2(zero.scale()),
    ;
    lemma_pow2_pos(1074);
    assert(zero.units() * pow2(shift) / pow2(1074) == 0) by (nonlinear_arith)
        requires
            zero.units() == 0,
            pow2(1074) > 0,
    ;
}

/// Numbers without the sign bit are ordered as their bit patterns are.
pub proof fn lemma_order(a: Real, b: Real)
    requires
        !a.negative(),
        !b.negative(),
    ensures
        a.units() <= b.units() <==> a.bits <= b.bits,
{
    if a.bits < b.bits {
        lemma_units_increase(a, b);
    } else if b.bits < a.bits {
        lemma_units_increase(b, a);
    }
}

proof fn lemma_units_increase(a: Real, b: Real)
    requires
        !b.negative(),
        a.bits < b.bits,
    ensures
        a.units() < b.units(),
{
    let pa = pow2(a.scale());
    let pb = pow2(b.scale());
    lemma_pow2_pos(a.scale());
    lemma_pow2_pos(b.scale());
    assert(a.bits == a.exponent() * ONE_EXPONENT + a.fraction());
    assert(b.bits == b.exponent() * ONE_EXPONENT + b.fraction());
    let sa = a.significand();
    let sb = b.significand();
    if a.exponent() == b.exponent() {
        assert(sa * pa < sb * pa) by (nonlinear_arith)
            requires
                sa < sb,
                pa > 0,
        ;
    } else {
        assert(a.exponent() < b.exponent());
        lemma2_to64();
        if a.exponent() == 0 {
            assert(pa == 1);
            assert(sa * pa < sb * pb) by (nonlinear_arith)
                requires
                    pa == 1,
                    pb >= 1,
                    sa < sb,
            ;
        } else {
            let gap = (b.scale() - a.scale() - 1) as nat;
            lemma_pow2_adds(a.scale(), 1);
            lemma_pow2_adds((a.scale() + 1) as nat, gap);
            lemma_pow2_pos(gap);
            let g = pow2(gap);
            assert(pb >= 2 * pa) by (nonlinear_arith)
                requires
                    pb == (pa * 2) * g,
                    g >= 1,
            ;
            assert(sa * pa < sb * pb) by (nonlinear_arith)
                requires
                    pb >= 2 * pa,
                    pa > 0,
                    sa < 2 * sb,
                    sb > 0,
            ;
        }
    }
}

/// What the bits of a number say: the sign, the exponent `e` and the fraction
/// `f`. Numbers with `e` from 1 on have a hidden bit and are scaled by powers of
/// two; the largest exponent is that of infinities and of what is not a number.
pub proof fn law_binary64(x: Real, minus: bool, e: nat, f: nat)
    requires
        e < 2048,
        f < 0x10_0000_0000_0000,
        x.bits == (if minus {
            0x8000_0000_0000_0000int
        } else {
            0
        }) + e * 0x10_0000_0000_0000 + f,
    ensures
        x.negative() <==> minus,
        x.finite() <==> e < 2047,
        x.nan() <==> e == 2047 && f > 0,
        x.is_zero_value() <==> e == 0 && f == 0,
        e == 0 ==> x.units() == f,
        e > 0 ==> x.units() == (0x10_0000_0000_0000 + f) * pow2((e - 1) as nat),
        minus ==> x.value() == -x.units(),
        !minus ==> x.value() == x.units(),
{
    lemma2_to64();
    assert(x.bits % SIGN == e * 0x10_0000_0000_0000 + f);
    assert(x.exponent() == e);
    assert(x.fraction() == f);
    if e == 0 {
        assert(pow2(0) == 1);
        assert(x.units() == f) by (nonlinear_arith)
            requires
                x.units() == f * pow2(0),
                pow2(0) == 1,
        ;
    }
}

/// The whole part of a number times a power of two: no more than that, and less
/// than one below it, from 0 up to 2^41, which the hub takes at most.
pub proof fn law_whole_part(x: Real, shift: nat)
    ensures
        x.nan() || x.negative() ==> x.whole_scaled(shift) == 0,
        !x.nan() && !x.negative() ==> {
            let w = x.whole_scaled(shift);
            &&& w <= 0x200_0000_0000
            &&& w * pow2(1074) <= x.units() * pow2(shift)
            &&& w < 0x200_0000_0000 ==> x.units() * pow2(shift) < (w + 1) * pow2(1074)
        },
{
    lemma_pow2_pos(1074);
    if !x.nan() && !x.negative() {
        let total = x.units() * pow2(shift);
        let one = pow2(1074);
        let q = total / one;
        let w = x.whole_scaled(shift);
        assert(q * one <= total < (q + 1) * one) by (nonlinear_arith)
            requires
                q == total / one,
                one > 0,
        ;
        assert(w * one <= q * one) by (nonlinear_arith)
            requires
                w <= q,
                one > 0,
        ;
    }
}

} // verus!
