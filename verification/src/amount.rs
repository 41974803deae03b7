use vstd::prelude::*;

verus! {

/// Number of fixed-point units in one whole currency unit: amounts carry
/// twelve fractional decimal digits.
pub const UNITS_PER_ONE: i128 = 1_000_000_000_000;

/// Number of fixed-point units in one ten-thousandth (the reporting
/// granularity of four decimal places).
pub const ROUND_QUANTUM: i128 = 100_000_000;

/// True when a mathematical value is representable as an `i128` unit count.
pub open spec fn fits_i128(v: int) -> bool {
    i128::MIN <= v && v <= i128::MAX
}

/// A signed fixed-point decimal amount of money, stored as a count of
/// `10^-12` currency units. Its view is that count as a mathematical integer.
#[derive(Clone, Copy, Debug, PartialEq, Eq, Structural)]
pub struct Amount {
    units: i128,
}

impl View for Amount {
    type V = int;

    closed spec fn view(&self) -> int {
        self.units as int
    }
}

/// Every amount's view is a representable unit count: amounts are stored as
/// `i128` unit counts.
pub broadcast proof fn lemma_amount_in_range(a: Amount)
    ensures
        fits_i128(#[trigger] a@),
{
}

/// Rounding of a nonnegative unit count to a multiple of the reporting
/// quantum, halves rounded up.
pub open spec fn round_mag_4dp(n: int) -> int
    recommends
        n >= 0,
{
    let q = n / (ROUND_QUANTUM as int);
    let r = n % (ROUND_QUANTUM as int);
    if 2 * r >= ROUND_QUANTUM as int {
        (q + 1) * (ROUND_QUANTUM as int)
    } else {
        q * (ROUND_QUANTUM as int)
    }
}

/// Rounding of a unit count to four decimal places, halves rounded away
/// from zero.
pub open spec fn round_4dp(v: int) -> int {
    if v >= 0 {
        round_mag_4dp(v)
    } else {
        -round_mag_4dp(-v)
    }
}

impl Amount {
    /// The zero amount.
    pub fn zero() -> (r: Amount)
        ensures
            r@ == 0,
    {
        Amount { units: 0 }
    }

    /// An amount given directly as a count of `10^-12` currency units.
    pub fn from_units(units: i128) -> (r: Amount)
        ensures
            r@ == units,
    {
        Amount { units }
    }

    /// An amount of `whole` currency units and no fractional part.
    pub fn from_whole(whole: i64) -> (r: Amount)
        ensures
            r@ == whole * UNITS_PER_ONE,
    {
        Amount { units: (whole as i128) * UNITS_PER_ONE }
    }

    /// The amount as a count of `10^-12` currency units.
    pub fn to_units(self) -> (r: i128)
        ensures
            r == self@,
    {
        self.units
    }

    /// The sum, or `None` when it does not fit the unit range.
    pub fn checked_add(self, other: Amount) -> (r: Option<Amount>)
        ensures
            match r {
                Some(v) => v@ == self@ + other@,
                None => !fits_i128(self@ + other@),
            },
    {
        match self.units.checked_add(other.units) {
            Some(u) => Some(Amount { units: u }),
            None => None,
        }
    }

    /// The difference, or `None` when it does not fit the unit range.
    pub fn checked_sub(self, other: Amount) -> (r: Option<Amount>)
        ensures
            match r {
                Some(v) => v@ == self@ - other@,
                None => !fits_i128(self@ - other@),
            },
    {
        match self.units.checked_sub(other.units) {
            Some(u) => Some(Amount { units: u }),
            None => None,
        }
    }

    /// The amount rounded to four decimal places, halves rounded away from
    /// zero, as used at the reporting boundary.
    pub fn rounded_4dp(self) -> (r: Amount)
        requires
            i128::MIN + ROUND_QUANTUM <= self@ <= i128::MAX - ROUND_QUANTUM,
        ensures
            r@ == round_4dp(self@),
    {
        if self.units >= 0 {
            Amount { units: Self::round_mag(self.units) }
        } else {
            Amount { units: -Self::round_mag(-self.units) }
        }
    }

    /// Rounding of a nonnegative unit count to a multiple of the reporting
    /// quantum, halves rounded up.
    fn round_mag(n: i128) -> (r: i128)
        requires
            0 <= n <= i128::MAX - ROUND_QUANTUM + 1,
        ensures
            r == round_mag_4dp(n as int),
            0 <= r <= n + ROUND_QUANTUM,
    {
        let q: i128 = n / ROUND_QUANTUM;
        let rem: i128 = n % ROUND_QUANTUM;
        proof {
            assert(q == n as int / (ROUND_QUANTUM as int));
            assert(rem == n as int % (ROUND_QUANTUM as int));
            assert(q * (ROUND_QUANTUM as int) + rem == n as int) by {
                vstd::arithmetic::div_mod::lemma_fundamental_div_mod(
                    n as int,
                    ROUND_QUANTUM as int,
                );
            }
            assert(0 <= rem < ROUND_QUANTUM as int);
            assert(0 <= q * (ROUND_QUANTUM as int)) by (nonlinear_arith)
                requires
                    q >= 0,
            ;
        }
        if 2 * rem >= ROUND_QUANTUM {
            (q + 1) * ROUND_QUANTUM
        } else {
            q * ROUND_QUANTUM
        }
    }

    /// Whether this amount is at least `other`.
    pub fn ge(self, other: Amount) -> (r: bool)
        ensures
            r == (self@ >= other@),
    {
        self.units >= other.units
    }
}

} // verus!
