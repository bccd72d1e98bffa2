//! Fixed-point decimal numbers.
//!
//! Prices and amounts are fixed-point decimals with eight fractional digits,
//! stored as a signed count of `10^-8` units. The representable range leaves
//! ten integral digits, which is ample for any traded symbol and keeps every
//! difference of two in-range values inside `i64`.

use vstd::prelude::*;

verus! {

/// Number of fractional decimal digits carried by a `Num`.
pub const FRAC_DIGITS: u32 = 8;

/// Largest magnitude, in `10^-8` units, that a well-formed price or amount
/// may have (ten integral digits and eight fractional digits).
pub const UNITS_MAX: i64 = 1_000_000_000_000_000_000;

/// `10^k`.
pub open spec fn pow10(k: nat) -> int
    decreases k,
{
    if k == 0 {
        1
    } else {
        10 * pow10((k - 1) as nat)
    }
}

/// A fixed-point decimal: `units` counts `10^-8` units of the value.
#[derive(Clone, Copy, Debug, PartialEq, Eq, Structural)]
pub struct Num {
    pub units: i64,
}

impl View for Num {
    type V = int;

    open spec fn view(&self) -> int {
        self.units as int
    }
}

/// Whether a value, counted in `10^-8` units, is within the representable
/// range of a well-formed price or amount.
pub open spec fn in_range(v: int) -> bool {
    -(UNITS_MAX as int) <= v <= UNITS_MAX as int
}

/// A magnitude with a sign applied.
pub open spec fn signed(mag: int, negative: bool) -> int {
    if negative {
        -mag
    } else {
        mag
    }
}

/// `10^k` is positive.
pub proof fn lemma_pow10_pos(k: nat)
    ensures
        pow10(k) >= 1,
    decreases k,
{
    if k > 0 {
        lemma_pow10_pos((k - 1) as nat);
    }
}

/// `10^k` grows with `k`.
pub proof fn lemma_pow10_mono(a: nat, b: nat)
    requires
        a <= b,
    ensures
        pow10(a) <= pow10(b),
    decreases b,
{
    if a < b {
        lemma_pow10_mono(a, (b - 1) as nat);
        lemma_pow10_pos((b - 1) as nat);
    }
}

impl Num {
    /// The number zero.
    pub fn zero() -> (r: Num)
        ensures
            r@ == 0,
            in_range(r@),
    {
        Num { units: 0 }
    }

    /// Builds a `Num` from a unit count, rejecting out-of-range values.
    pub fn from_units(units: i64) -> (r: Option<Num>)
        ensures
            r is Some <==> in_range(units as int),
            r is Some ==> r->Some_0@ == units as int,
    {
        if -UNITS_MAX <= units && units <= UNITS_MAX {
            Some(Num { units })
        } else {
            None
        }
    }

    /// Difference of two in-range values; never overflows.
    pub fn sub(self, other: Num) -> (r: Num)
        requires
            in_range(self@),
            in_range(other@),
        ensures
            r@ == self@ - other@,
    {
        Num { units: self.units - other.units }
    }

    /// Builds a `Num` from a decimal given as an unsigned mantissa, a scale
    /// (the number of fractional digits the mantissa carries) and a sign, as
    /// decimal libraries expose them. The value is `±mantissa / 10^scale`.
    ///
    /// Returns the exact fixed-point representation, or `None` when the value
    /// does not fit the range or carries non-zero digits beyond the eighth
    /// fractional place.
    pub fn from_parts(mag: u128, scale: u32, negative: bool) -> (r: Option<Num>)
        ensures
            scale <= FRAC_DIGITS ==> {
                let u = mag as int * pow10((FRAC_DIGITS - scale) as nat);
                &&& (r is Some <==> u <= UNITS_MAX as int)
                &&& (r is Some ==> r->Some_0@ == signed(u, negative))
            },
            scale > FRAC_DIGITS ==> {
                let d = pow10((scale - FRAC_DIGITS) as nat);
                &&& (r is Some <==> mag as int % d == 0 && mag as int / d <= UNITS_MAX as int)
                &&& (r is Some ==> r->Some_0@ == signed(mag as int / d, negative))
            },
            r is Some ==> in_range(r->Some_0@),
    {
        if scale <= FRAC_DIGITS {
            let k: u32 = FRAC_DIGITS - scale;
            proof {
                lemma_pow10_pos(k as nat);
                if mag > UNITS_MAX as u128 {
                    vstd::arithmetic::mul::lemma_mul_inequality(1, pow10(k as nat), mag as int);
                    vstd::arithmetic::mul::lemma_mul_is_commutative(mag as int, pow10(k as nat));
                    vstd::arithmetic::mul::lemma_mul_basics(mag as int);
                    assert(mag as int * pow10(k as nat) >= mag as int);
                }
            }
            if mag > UNITS_MAX as u128 {
                return None;
            }
            let mut m: u128 = mag;
            let mut j: u32 = 0;
            while j < k
                invariant
                    j <= k,
                    k <= 8,
                    mag <= UNITS_MAX as u128,
                    m as int == mag as int * pow10(j as nat),
                decreases k - j,
            {
                proof {
                    lemma_pow10_pos(j as nat);
                    lemma_pow10_mono(j as nat, 7);
                    assert(pow10(0) == 1);
                    assert(pow10(1) == 10);
                    assert(pow10(2) == 100);
                    assert(pow10(3) == 1000);
                    assert(pow10(4) == 10000);
                    assert(pow10(5) == 100000);
                    assert(pow10(6) == 1000000);
                    assert(pow10(7) == 10000000);
                    vstd::arithmetic::mul::lemma_mul_upper_bound(
                        mag as int,
                        UNITS_MAX as int,
                        pow10(j as nat),
                        10000000,
                    );
                    assert(mag as int * pow10((j + 1) as nat) == (mag as int * pow10(j as nat))
                        * 10) by {
                        assert(pow10((j + 1) as nat) == 10 * pow10(j as nat));
                        vstd::arithmetic::mul::lemma_mul_is_associative(mag as int, 10, pow10(j as nat));
                        vstd::arithmetic::mul::lemma_mul_is_commutative(10, pow10(j as nat));
                        vstd::arithmetic::mul::lemma_mul_is_associative(mag as int, pow10(j as nat), 10);
                    }
                }
                m = m * 10;
                j = j + 1;
            }
            if m <= UNITS_MAX as u128 {
                Some(Num::of_magnitude(m, negative))
            } else {
                None
            }
        } else {
            let steps: u32 = scale - FRAC_DIGITS;
            let mut m: u128 = mag;
            let mut exact: bool = true;
            let mut j: u32 = 0;
            proof {
                assert(pow10(0) == 1);
            }
            while j < steps
                invariant
                    j <= steps,
                    m as int == mag as int / pow10(j as nat),
                    exact <==> mag as int % pow10(j as nat) == 0,
                decreases steps - j,
            {
                proof {
                    lemma_pow10_pos(j as nat);
                    assert(pow10((j + 1) as nat) == 10 * pow10(j as nat));
                    vstd::arithmetic::mul::lemma_mul_is_commutative(10, pow10(j as nat));
                    vstd::arithmetic::div_mod::lemma_breakdown(mag as int, pow10(j as nat), 10);
                    vstd::arithmetic::div_mod::lemma_div_denominator(
                        mag as int,
                        pow10(j as nat),
                        10,
                    );
                    vstd::arithmetic::mul::lemma_mul_nonnegative(
                        pow10(j as nat),
                        (mag as int / pow10(j as nat)) % 10,
                    );
                    if (mag as int / pow10(j as nat)) % 10 != 0 {
                        vstd::arithmetic::mul::lemma_mul_strictly_positive(
                            pow10(j as nat),
                            (mag as int / pow10(j as nat)) % 10,
                        );
                    }
                }
                if m % 10 != 0 {
                    exact = false;
                }
                m = m / 10;
                j = j + 1;
            }
            if exact && m <= UNITS_MAX as u128 {
                Some(Num::of_magnitude(m, negative))
            } else {
                None
            }
        }
    }

    /// A `Num` from an in-range magnitude and a sign.
    fn of_magnitude(mag: u128, negative: bool) -> (r: Num)
        requires
            mag <= UNITS_MAX as u128,
        ensures
            r@ == signed(mag as int, negative),
            in_range(r@),
    {
        let units: i64 = mag as i64;
        if negative {
            Num { units: -units }
        } else {
            Num { units }
        }
    }

    /// Strict order on the represented values.
    pub fn lt(self, other: Num) -> (r: bool)
        ensures
            r == (self@ < other@),
    {
        self.units < other.units
    }

    /// Non-strict order on the represented values.
    pub fn le(self, other: Num) -> (r: bool)
        ensures
            r == (self@ <= other@),
    {
        self.units <= other.units
    }
}

} // verus!
