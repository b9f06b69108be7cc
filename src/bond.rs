use vstd::prelude::*;
use crate::address::Address;

verus! {

/// Seconds in a day.
pub const SECONDS_PER_DAY: u64 = 86400;

/// Fixed-point scale of inflation-index values: `1_000_000` is a neutral index.
pub const INDEX_SCALE: i128 = 1_000_000;

/// Where a bond stands in its life.
#[derive(Clone, Copy, Debug, PartialEq, Eq, Structural)]
pub enum BondStatus {
    /// Terms are set and the bond is offered, not yet issued to an investor.
    Offered,
    /// Issued to an investor and paying on schedule.
    Issued,
    /// Past its maturity date.
    Matured,
    /// Paid off.
    Redeemed,
}

/// The economic terms of one bond.
///
/// An `issue_number` of zero marks the record that a registry hands back for
/// an unknown bond.
#[derive(Clone, Copy, Debug, PartialEq, Eq, Structural)]
pub struct Bond {
    pub issue_number: u64,
    /// Currency in which the bond pays.
    pub currency: Address,
    /// Face value, in minor units.
    pub denomination: i128,
    /// Interest rate per period, in whole percent.
    pub interest_rate: u32,
    /// Number of scheduled periods.
    pub frequency: u32,
    pub issue_date: u64,
    pub maturity_date: u64,
    pub bond_status: BondStatus,
}

impl Bond {
    /// Whether this is a real record, not the one handed back for an unknown bond.
    pub open spec fn is_registered(self) -> bool {
        self.issue_number != 0
    }

    /// Terms on which a payment schedule is defined: at least one period, and
    /// a term long enough that each period lasts at least one second.
    pub open spec fn well_formed(self) -> bool {
        &&& self.frequency > 0
        &&& self.issue_date + self.frequency <= self.maturity_date
    }

    /// Whether the terms define a payment schedule (see [`Self::well_formed`]).
    pub fn is_well_formed(&self) -> (r: bool)
        ensures
            r == self.well_formed(),
    {
        self.frequency > 0 && self.issue_date as u128 + self.frequency as u128 <= self.maturity_date as u128
    }

    /// Length of one period in seconds (remainder of the term dropped).
    pub open spec fn spec_period_duration(&self) -> int {
        (self.maturity_date - self.issue_date) / (self.frequency as int)
    }

    /// Principal repaid per period (remainder of the face value dropped).
    pub open spec fn spec_principal_per_period(&self) -> int {
        quot(self.denomination as int, self.frequency as int)
    }

    pub fn period_duration(&self) -> (r: u64)
        requires
            self.well_formed(),
        ensures
            r == self.spec_period_duration(),
            r >= 1,
    {
        let term: u64 = self.maturity_date - self.issue_date;
        let f: u64 = self.frequency as u64;
        proof {
            assert(term / f >= f / f) by (nonlinear_arith)
                requires term >= f, f > 0;
            vstd::arithmetic::div_mod::lemma_div_by_self(f as int);
        }
        term / f
    }

    pub fn principal_per_period(&self) -> (r: i128)
        requires
            self.frequency > 0,
        ensures
            r == self.spec_principal_per_period(),
    {
        let q = self.denomination.checked_div(self.frequency as i128);
        proof {
            lemma_quot_bounded(self.denomination as int, self.frequency as int);
        }
        q.unwrap()
    }
}

/// Division rounded toward zero, as integer division of machine integers
/// rounds, for a positive divisor.
pub open spec fn quot(x: int, d: int) -> int {
    if x >= 0 {
        x / d
    } else {
        -((-x) / d)
    }
}

/// Whether `x` fits in an `i128`.
pub open spec fn fits_i128(x: int) -> bool {
    i128::MIN <= x <= i128::MAX
}

pub proof fn lemma_quot_bounded(x: int, d: int)
    requires
        d > 0,
    ensures
        x >= 0 ==> 0 <= quot(x, d) <= x,
        x < 0 ==> x <= quot(x, d) <= 0,
{
    if x >= 0 {
        vstd::arithmetic::div_mod::lemma_div_pos_is_pos(x, d);
        vstd::arithmetic::div_mod::lemma_div_is_ordered_by_denominator(x, 1, d);
    } else {
        vstd::arithmetic::div_mod::lemma_div_pos_is_pos(-x, d);
        vstd::arithmetic::div_mod::lemma_div_is_ordered_by_denominator(-x, 1, d);
    }
}

/// Truncating division of an `i128` by a positive divisor.
pub fn div_toward_zero(x: i128, d: i128) -> (r: i128)
    requires
        d > 0,
    ensures
        r == quot(x as int, d as int),
{
    proof {
        lemma_quot_bounded(x as int, d as int);
    }
    x.checked_div(d).unwrap()
}

/// Share withheld as tax, in thousandths, for a payment made at `now` on a
/// bond issued at `issue_date`: the longer the bond has been held, the lower.
pub open spec fn withholding_permille(issue_date: u64, now: u64) -> int {
    if now < issue_date + 180 * SECONDS_PER_DAY {
        225
    } else if now <= issue_date + 360 * SECONDS_PER_DAY {
        200
    } else if now <= issue_date + 720 * SECONDS_PER_DAY {
        175
    } else {
        150
    }
}

/// What is left of `amount` once the withholding tax is taken out (the tax
/// rounded toward zero).
pub open spec fn after_tax(amount: int, issue_date: u64, now: u64) -> int {
    amount - quot(amount * withholding_permille(issue_date, now), 1000)
}

/// Whether computing [`after_tax`] stays within `i128`.
pub open spec fn after_tax_fits(amount: int, issue_date: u64, now: u64) -> bool {
    fits_i128(amount * withholding_permille(issue_date, now))
}

pub fn tax_permille(issue_date: u64, now: u64) -> (r: i128)
    ensures
        r == withholding_permille(issue_date, now),
{
    let t = now as u128;
    let i = issue_date as u128;
    let day = SECONDS_PER_DAY as u128;
    if t < i + 180 * day {
        225
    } else if t <= i + 360 * day {
        200
    } else if t <= i + 720 * day {
        175
    } else {
        150
    }
}

/// `amount` net of withholding tax, or `None` where the computation leaves `i128`.
pub fn net_of_tax(amount: i128, issue_date: u64, now: u64) -> (r: Option<i128>)
    ensures
        r == (if after_tax_fits(amount as int, issue_date, now) {
            Some(after_tax(amount as int, issue_date, now) as i128)
        } else {
            None
        }),
{
    let permille = tax_permille(issue_date, now);
    match amount.checked_mul(permille) {
        None => None,
        Some(scaled) => {
            let tax = div_toward_zero(scaled, 1000);
            proof {
                lemma_quot_bounded(scaled as int, 1000);
                if amount >= 0 {
                    assert(scaled >= 0) by (nonlinear_arith)
                        requires scaled == amount * permille, amount >= 0, permille > 0;
                    assert(scaled / 1000 <= amount) by (nonlinear_arith)
                        requires scaled == amount * permille, amount >= 0, permille <= 225;
                } else {
                    assert(scaled < 0) by (nonlinear_arith)
                        requires scaled == amount * permille, amount < 0, permille > 0;
                    assert((-scaled) / 1000 <= -amount) by (nonlinear_arith)
                        requires scaled == amount * permille, amount < 0, permille <= 225;
                }
            }
            Some(amount - tax)
        },
    }
}

/// The first tax tier ends exactly 180 days after issue: a payment at that
/// instant is taxed at 20%, one a second earlier at 22.5%.
pub proof fn lemma_tax_tier_boundary(issue_date: u64)
    requires
        issue_date + 180 * SECONDS_PER_DAY <= u64::MAX,
    ensures
        withholding_permille(issue_date, (issue_date + 180 * SECONDS_PER_DAY) as u64) == 200,
        withholding_permille(issue_date, (issue_date + 180 * SECONDS_PER_DAY - 1) as u64) == 225,
{
}

} // verus!
