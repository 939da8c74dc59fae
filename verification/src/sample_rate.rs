//! The sampling rate as an exact number.
//!
//! A rate is held in the IEEE 754 binary64 encoding in which configuration
//! and events carry it. Everything decided from it is decided in integers:
//! the magnitude of a finite rate is a whole number of units of 2⁻¹⁰⁷⁴, the
//! least positive binary64 number.

use vstd::prelude::*;

verus! {

/// The encoding of 1.
pub const ONE_BITS: u64 = 0x3ff0_0000_0000_0000;

/// The encoding of positive infinity.
pub const INFINITY_BITS: u64 = 0x7ff0_0000_0000_0000;

/// The encoding of negative zero; every larger one is negative or not a
/// number.
pub const SIGN_BIT: u64 = 0x8000_0000_0000_0000;

/// One more than the largest fraction field.
pub const FRACTION_RANGE: u64 = 0x10_0000_0000_0000;

/// A sampling rate in the IEEE 754 binary64 encoding.
#[derive(Debug, Clone, Copy, PartialEq, Eq, Structural)]
pub struct SampleRate {
    pub bits: u64,
}

impl SampleRate {
    /// The fraction field.
    pub open spec fn fraction(self) -> nat {
        (self.bits % FRACTION_RANGE) as nat
    }

    /// The exponent field.
    pub open spec fn exponent(self) -> nat {
        ((self.bits / FRACTION_RANGE) % 2048) as nat
    }

    /// The encoding stands for no number.
    pub open spec fn is_nan(self) -> bool {
        self.exponent() == 2047 && self.fraction() != 0
    }

    /// The sign is minus.
    pub open spec fn is_negative(self) -> bool {
        self.bits >= SIGN_BIT
    }

    /// The magnitude in units of 2⁻¹⁰⁷⁴. An infinite rate counts as the first
    /// magnitude beyond the finite ones.
    pub open spec fn units(self) -> nat {
        if self.exponent() == 0 {
            self.fraction()
        } else {
            (FRACTION_RANGE + self.fraction()) as nat * vstd::arithmetic::power2::pow2(
                (self.exponent() - 1) as nat,
            )
        }
    }

    /// The rate is 1 or more.
    pub open spec fn at_least_one(self) -> bool {
        !self.is_nan() && !self.is_negative() && self.units()
            >= vstd::arithmetic::power2::pow2(1074)
    }

    /// The rate is more than 0.
    pub open spec fn positive(self) -> bool {
        !self.is_nan() && !self.is_negative() && self.units() > 0
    }

    /// The rate is no more than `other`.
    pub open spec fn at_most(self, other: SampleRate) -> bool {
        &&& !self.is_nan() && !other.is_nan()
        &&& self.signed_units() <= other.signed_units()
    }

    /// The rate itself, in units of 2⁻¹⁰⁷⁴.
    pub open spec fn signed_units(self) -> int {
        if self.is_negative() {
            -self.units()
        } else {
            self.units() as int
        }
    }

    /// The whole part of the rate times 2⁶⁴, within the range of a `u64`.
    pub open spec fn threshold(self) -> nat {
        if self.is_nan() || self.is_negative() {
            0
        } else if self.units() / vstd::arithmetic::power2::pow2(1010) > u64::MAX {
            u64::MAX as nat
        } else {
            self.units() / vstd::arithmetic::power2::pow2(1010)
        }
    }

    /// `draw` times 2⁻⁵³ is less than the rate.
    pub open spec fn exceeds_draw(self, draw: nat) -> bool {
        draw * vstd::arithmetic::power2::pow2(1021) < self.signed_units()
    }

    /// The rate brought into the range from 0 to 1; what is no number counts as
    /// 1.
    pub open spec fn clamped_rate(self) -> SampleRate {
        if self.is_nan() {
            SampleRate { bits: ONE_BITS }
        } else if self.signed_units() < 0 {
            SampleRate { bits: 0 }
        } else if self.signed_units() > vstd::arithmetic::power2::pow2(1074) {
            SampleRate { bits: ONE_BITS }
        } else {
            self
        }
    }

    /// A non-negative rate reaches 1 exactly where its exponent field is that
    /// of 1 or larger.
    proof fn lemma_one(self)
        requires
            !self.is_negative(),
        ensures
            self.exponent() == self.bits / FRACTION_RANGE,
            self.units() >= vstd::arithmetic::power2::pow2(1074) <==> self.bits >= ONE_BITS,
            self.units() == vstd::arithmetic::power2::pow2(1074) <==> self.bits == ONE_BITS,
    {
        let e = self.exponent();
        let f = self.fraction();
        let m = (FRACTION_RANGE + f) as nat;
        vstd::arithmetic::power2::lemma2_to64_rest();
        vstd::arithmetic::power2::lemma_pow2_adds(52, 1022);
        vstd::arithmetic::power2::lemma_pow2_adds(53, 1021);
        if e >= 1023 {
            let p = vstd::arithmetic::power2::pow2((e - 1) as nat);
            let q = vstd::arithmetic::power2::pow2(1022);
            if e > 1023 {
                vstd::arithmetic::power2::lemma_pow2_strictly_increases(1022, (e - 1) as nat);
            }
            assert(m * p >= FRACTION_RANGE * q) by (nonlinear_arith)
                requires
                    m >= FRACTION_RANGE,
                    p >= q,
            ;
            if m * p == FRACTION_RANGE * q {
                vstd::arithmetic::power2::lemma_pow2_pos(1022);
                assert(m == FRACTION_RANGE && p == q) by (nonlinear_arith)
                    requires
                        m * p == FRACTION_RANGE * q,
                        m >= FRACTION_RANGE,
                        p >= q,
                        q > 0,
                        FRACTION_RANGE > 0,
                ;
            }
        } else if e >= 1 {
            let p = vstd::arithmetic::power2::pow2((e - 1) as nat);
            let q = vstd::arithmetic::power2::pow2(1021);
            if e < 1022 {
                vstd::arithmetic::power2::lemma_pow2_strictly_increases((e - 1) as nat, 1021);
            }
            vstd::arithmetic::power2::lemma_pow2_pos((e - 1) as nat);
            assert(m * p < 0x20_0000_0000_0000 * q) by (nonlinear_arith)
                requires
                    0 <= m < 0x20_0000_0000_0000,
                    0 < p <= q,
            ;
        } else {
            vstd::arithmetic::power2::lemma_pow2_strictly_increases(53, 1074);
        }
    }

    /// A rate has no magnitude exactly where it is one of the two zeros.
    proof fn lemma_zero(self)
        ensures
            self.units() == 0 <==> self.bits == 0 || self.bits == SIGN_BIT,
    {
        let e = self.exponent();
        if e > 0 {
            let m = (FRACTION_RANGE + self.fraction()) as nat;
            let p = vstd::arithmetic::power2::pow2((e - 1) as nat);
            vstd::arithmetic::power2::lemma_pow2_pos((e - 1) as nat);
            assert(m * p > 0) by (nonlinear_arith)
                requires
                    m > 0,
                    p > 0,
            ;
        }
    }

    /// Whether the rate is 1 or more.
    pub fn is_at_least_one(&self) -> (r: bool)
        ensures
            r == self.at_least_one(),
    {
        proof {
            if !self.is_negative() {
                self.lemma_one();
            }
        }
        ONE_BITS <= self.bits && self.bits <= INFINITY_BITS
    }

    /// Whether the rate is more than 0.
    pub fn is_positive(&self) -> (r: bool)
        ensures
            r == self.positive(),
    {
        proof {
            self.lemma_zero();
        }
        0 < self.bits && self.bits <= INFINITY_BITS
    }

    /// Brings the rate into the range from 0 to 1.
    pub fn clamped(&self) -> (r: SampleRate)
        ensures
            r == self.clamped_rate(),
    {
        proof {
            self.lemma_zero();
            if !self.is_negative() {
                self.lemma_one();
            }
            vstd::arithmetic::power2::lemma_pow2_pos(1074);
        }
        let magnitude: u64 = self.bits % SIGN_BIT;
        if magnitude > INFINITY_BITS {
            SampleRate { bits: ONE_BITS }
        } else if self.bits > SIGN_BIT {
            SampleRate { bits: 0 }
        } else if self.bits > ONE_BITS && self.bits < SIGN_BIT {
            SampleRate { bits: ONE_BITS }
        } else {
            *self
        }
    }
}

/// Two to the power `k`.
fn power_of_two(k: u64) -> (r: u64)
    requires
        k <= 63,
    ensures
        r == vstd::arithmetic::power2::pow2(k as nat),
{
    let mut r: u64 = 1;
    let mut i: u64 = 0;
    proof {
        vstd::arithmetic::power2::lemma2_to64();
    }
    while i < k
        invariant
            i <= k <= 63,
            r == vstd::arithmetic::power2::pow2(i as nat),
        decreases k - i,
    {
        proof {
            vstd::arithmetic::power2::lemma_pow2_unfold((i + 1) as nat);
            vstd::arithmetic::power2::lemma2_to64_rest();
            if i + 1 < 63 {
                vstd::arithmetic::power2::lemma_pow2_strictly_increases((i + 1) as nat, 63);
            }
        }
        r = r * 2;
        i += 1;
    }
    r
}

impl SampleRate {
    /// The whole part of the rate times 2⁶⁴, within the range of a `u64`.
    pub fn to_threshold(&self) -> (r: u64)
        ensures
            r == self.threshold(),
    {
        if self.bits > INFINITY_BITS {
            // Negative, or no number.
            return 0;
        }
        let e: u64 = self.bits / FRACTION_RANGE;
        let f: u64 = self.bits % FRACTION_RANGE;
        let ghost unit = vstd::arithmetic::power2::pow2(1010);
        proof {
            self.lemma_one();
            vstd::arithmetic::power2::lemma_pow2_pos(1010);
            vstd::arithmetic::power2::lemma2_to64();
            vstd::arithmetic::power2::lemma2_to64_rest();
        }
        if e >= 1023 {
            proof {
                vstd::arithmetic::power2::lemma_pow2_adds(64, 1010);
                vstd::arithmetic::div_mod::lemma_div_is_ordered(
                    vstd::arithmetic::power2::pow2(1074) as int,
                    self.units() as int,
                    unit as int,
                );
                vstd::arithmetic::div_mod::lemma_div_by_multiple(
                    vstd::arithmetic::power2::pow2(64) as int,
                    unit as int,
                );
            }
            return u64::MAX;
        }
        if e == 0 {
            proof {
                vstd::arithmetic::power2::lemma_pow2_strictly_increases(52, 1010);
                vstd::arithmetic::div_mod::lemma_basic_div(self.units() as int, unit as int);
            }
            return 0;
        }
        let m: u64 = FRACTION_RANGE + f;
        let ghost p = vstd::arithmetic::power2::pow2((e - 1) as nat);
        proof {
            vstd::arithmetic::power2::lemma_pow2_pos((e - 1) as nat);
        }
        if e >= 1011 {
            let k: u64 = e - 1011;
            let d = power_of_two(k);
            proof {
                vstd::arithmetic::power2::lemma_pow2_adds(k as nat, 1010);
                if k < 11 {
                    vstd::arithmetic::power2::lemma_pow2_strictly_increases(k as nat, 11);
                }
                assert(m * d < 0x1_0000_0000_0000_0000) by (nonlinear_arith)
                    requires
                        m < 0x20_0000_0000_0000,
                        d <= 0x800,
                ;
                assert(m * p == (m * d) * unit) by (nonlinear_arith)
                    requires
                        p == d * unit,
                ;
                vstd::arithmetic::div_mod::lemma_div_by_multiple(m * d, unit as int);
            }
            m * d
        } else {
            let k: u64 = 1011 - e;
            if k >= 53 {
                proof {
                    vstd::arithmetic::power2::lemma_pow2_adds(53, (e - 1) as nat);
                    assert(m * p < 0x20_0000_0000_0000 * p) by (nonlinear_arith)
                        requires
                            m < 0x20_0000_0000_0000,
                            p > 0,
                    ;
                    if 52 + e < 1010 {
                        vstd::arithmetic::power2::lemma_pow2_strictly_increases(
                            (52 + e) as nat,
                            1010,
                        );
                    }
                    vstd::arithmetic::div_mod::lemma_basic_div(self.units() as int, unit as int);
                }
                0
            } else {
                let d = power_of_two(k);
                proof {
                    vstd::arithmetic::power2::lemma_pow2_adds(k as nat, (e - 1) as nat);
                    vstd::arithmetic::power2::lemma_pow2_pos(k as nat);
                    assert(m * p == p * m) by (nonlinear_arith);
                    assert(unit == p * d) by (nonlinear_arith)
                        requires
                            unit == d * p,
                    ;
                    vstd::arithmetic::div_mod::lemma_div_multiples_vanish_quotient(
                        p as int,
                        m as int,
                        d as int,
                    );
                    vstd::arithmetic::div_mod::lemma_div_is_ordered_by_denominator(
                        m as int,
                        1,
                        d as int,
                    );
                }
                m / d
            }
        }
    }

    /// Whether `draw` times 2⁻⁵³ is less than the rate.
    pub fn is_above_draw(&self, draw: u64) -> (r: bool)
        requires
            self.positive(),
            !self.at_least_one(),
        ensures
            r == self.exceeds_draw(draw as nat),
    {
        let e: u64 = self.bits / FRACTION_RANGE;
        let f: u64 = self.bits % FRACTION_RANGE;
        let ghost q = vstd::arithmetic::power2::pow2(1021);
        proof {
            self.lemma_one();
            vstd::arithmetic::power2::lemma_pow2_pos(1021);
            vstd::arithmetic::power2::lemma2_to64();
            vstd::arithmetic::power2::lemma2_to64_rest();
        }
        if draw == 0 {
            assert(draw * q == 0) by (nonlinear_arith)
                requires
                    draw == 0,
            ;
            return true;
        }
        if e == 0 {
            proof {
                vstd::arithmetic::power2::lemma_pow2_strictly_increases(52, 1021);
                assert(draw * q >= q) by (nonlinear_arith)
                    requires
                        draw >= 1,
                        q > 0,
                ;
            }
            return false;
        }
        let m: u64 = FRACTION_RANGE + f;
        let k: u64 = 1022 - e;
        let ghost p = vstd::arithmetic::power2::pow2((e - 1) as nat);
        proof {
            vstd::arithmetic::power2::lemma_pow2_pos((e - 1) as nat);
            vstd::arithmetic::power2::lemma_pow2_adds(k as nat, (e - 1) as nat);
        }
        let ghost dk = vstd::arithmetic::power2::pow2(k as nat);
        proof {
            assert(draw * q == (draw * dk) * p) by (nonlinear_arith)
                requires
                    q == dk * p,
            ;
            assert((draw * dk) * p < m * p <==> draw * dk < m) by (nonlinear_arith)
                requires
                    p > 0,
            ;
        }
        if k >= 53 {
            proof {
                if k > 53 {
                    vstd::arithmetic::power2::lemma_pow2_strictly_increases(53, k as nat);
                }
                assert(draw * dk >= dk) by (nonlinear_arith)
                    requires
                        draw >= 1,
                        dk >= 0,
                ;
            }
            false
        } else {
            let d = power_of_two(k);
            proof {
                vstd::arithmetic::power2::lemma_pow2_pos(k as nat);
                let t = (m - 1) as int;
                let dd = d as int;
                vstd::arithmetic::div_mod::lemma_fundamental_div_mod(t, dd);
                vstd::arithmetic::div_mod::lemma_mod_pos_bound(t, dd);
                let quo = t / dd;
                let rem = t % dd;
                assert(draw * dd < m <==> draw <= quo) by (nonlinear_arith)
                    requires
                        dd > 0,
                        m == dd * quo + rem + 1,
                        0 <= rem < dd,
                ;
            }
            draw <= (m - 1) / d
        }
    }
}

/// A larger rate has no smaller threshold.
pub proof fn law_threshold_grows_with_rate(a: SampleRate, b: SampleRate)
    requires
        a.at_most(b),
    ensures
        a.threshold() <= b.threshold(),
{
    vstd::arithmetic::power2::lemma_pow2_pos(1010);
    if !a.is_negative() {
        if b.is_negative() {
            a.lemma_zero();
            b.lemma_zero();
            vstd::arithmetic::div_mod::lemma_basic_div(
                0,
                vstd::arithmetic::power2::pow2(1010) as int,
            );
        } else {
            vstd::arithmetic::div_mod::lemma_div_is_ordered(
                a.units() as int,
                b.units() as int,
                vstd::arithmetic::power2::pow2(1010) as int,
            );
        }
    }
}

/// The threshold of a rate from 0 up to 1 is exact to 2⁻⁶⁴: the rate lies
/// between the threshold and the next integer, both divided by 2⁶⁴.
pub proof fn law_threshold_is_exact(rate: SampleRate)
    requires
        !rate.is_nan(),
        !rate.is_negative(),
        !rate.at_least_one(),
    ensures
        rate.threshold() * vstd::arithmetic::power2::pow2(1010) <= rate.units(),
        rate.units() < (rate.threshold() + 1) * vstd::arithmetic::power2::pow2(1010),
{
    let unit = vstd::arithmetic::power2::pow2(1010) as int;
    let u = rate.units() as int;
    vstd::arithmetic::power2::lemma_pow2_pos(1010);
    vstd::arithmetic::power2::lemma_pow2_adds(64, 1010);
    vstd::arithmetic::power2::lemma2_to64();
    vstd::arithmetic::div_mod::lemma_fundamental_div_mod(u, unit);
    vstd::arithmetic::div_mod::lemma_mod_pos_bound(u, unit);
    vstd::arithmetic::div_mod::lemma_multiply_divide_lt(
        u,
        unit,
        vstd::arithmetic::power2::pow2(64) as int,
    );
    let quo = u / unit;
    let rem = u % unit;
    assert(quo * unit <= u && u < (quo + 1) * unit) by (nonlinear_arith)
        requires
            u == unit * quo + rem,
            0 <= rem < unit,
    ;
}

/// Clamping gives a rate from 0 to 1, and keeps a rate that is one.
pub proof fn law_clamp_gives_a_fraction(rate: SampleRate)
    ensures
        !rate.clamped_rate().is_nan(),
        0 <= rate.clamped_rate().signed_units() <= vstd::arithmetic::power2::pow2(1074),
        !rate.is_nan() && 0 <= rate.signed_units() <= vstd::arithmetic::power2::pow2(1074)
            ==> rate.clamped_rate() == rate,
{
    let one = SampleRate { bits: ONE_BITS };
    one.lemma_one();
    vstd::arithmetic::power2::lemma_pow2_pos(1074);
}

/// Clamping moves a rate to the nearer end of the range: what is negative to 0,
/// what is more than 1, or no number, to 1.
pub proof fn law_clamp_goes_to_the_nearer_end(rate: SampleRate)
    ensures
        rate.is_nan() ==> rate.clamped_rate().bits == 0x3ff0_0000_0000_0000,
        !rate.is_nan() && rate.signed_units() < 0 ==> rate.clamped_rate().bits == 0,
        !rate.is_nan() && rate.signed_units() > vstd::arithmetic::power2::pow2(1074)
            ==> rate.clamped_rate().bits == 0x3ff0_0000_0000_0000,
        (SampleRate { bits: 0 }).signed_units() == 0,
        (SampleRate { bits: 0x3ff0_0000_0000_0000 }).signed_units()
            == vstd::arithmetic::power2::pow2(1074),
{
    let one = SampleRate { bits: 0x3ff0_0000_0000_0000 };
    one.lemma_one();
}

} // verus!
