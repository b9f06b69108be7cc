//! Scheduled settlement and early redemption of bonds, over a ledger of
//! payment progress per (investor, bond) and of payouts credited per investor.
//!
//! Everything the engine reads from elsewhere is handed to it as a value: the
//! issuing institution, the bond's terms and investor of record, the current
//! time and the inflation index. A call either applies all its writes or, when
//! it returns an error, none.

use vstd::prelude::*;
use crate::address::Address;
use crate::assoc::{
    keys_distinct, lemma_distinct_push, lemma_distinct_update, lemma_lookup_absent,
    lemma_lookup_at, lemma_lookup_push, lemma_lookup_remove, lemma_lookup_update, lookup,
};
use crate::bond::{
    after_tax, after_tax_fits, div_toward_zero, fits_i128, net_of_tax, quot,
    Bond, INDEX_SCALE,
};
use crate::error::Error;

verus! {

/// Identifies one ledger entry: a bond as held by one investor.
#[derive(Clone, Copy, Debug, PartialEq, Eq, Structural)]
pub struct LedgerKey {
    pub investor: Address,
    pub bond_id: u64,
}

/// Payment progress of one bond for one investor.
#[derive(Clone, Copy, Debug, PartialEq, Eq, Structural)]
pub struct LedgerEntry {
    /// Scheduled periods paid so far.
    pub payments_made: u32,
    /// Time up to which periods have been settled.
    pub last_settlement: u64,
}

/// The amortization engine and the ledger it owns.
pub struct BondAmortization {
    entries: Vec<(LedgerKey, LedgerEntry)>,
    balances: Vec<(Address, i128)>,
}

/// Number of periods a settlement at `now` pays: whole periods elapsed since
/// `anchor`, at most the periods still unpaid.
pub open spec fn periods_due(bond: Bond, paid: u32, anchor: u64, now: u64) -> int {
    let elapsed: int = if now >= anchor {
        now - anchor
    } else {
        0
    };
    let whole = elapsed / bond.spec_period_duration();
    let left = bond.frequency - paid;
    if whole > left {
        left
    } else {
        whole
    }
}

/// Principal of one period corrected by the inflation index.
pub open spec fn period_correction(bond: Bond, index: i128) -> int {
    quot(bond.spec_principal_per_period() * index, INDEX_SCALE as int)
}

/// Interest of one period on the corrected principal, before tax.
pub open spec fn period_gross_interest(bond: Bond, index: i128) -> int {
    quot(period_correction(bond, index) * bond.interest_rate, 100)
}

/// Payout of one scheduled period: corrected principal plus interest after tax.
/// It does not depend on which period it is, so every period settled in one
/// call pays the same.
pub open spec fn period_payout(bond: Bond, index: i128, now: u64) -> int {
    period_correction(bond, index) + after_tax(period_gross_interest(bond, index), bond.issue_date, now)
}

/// Whether computing [`period_payout`] stays within `i128`.
pub open spec fn period_payout_fits(bond: Bond, index: i128, now: u64) -> bool {
    &&& fits_i128(bond.spec_principal_per_period() * index)
    &&& fits_i128(period_correction(bond, index) * bond.interest_rate)
    &&& after_tax_fits(period_gross_interest(bond, index), bond.issue_date, now)
    &&& fits_i128(period_payout(bond, index, now))
}

/// Principal not yet repaid after `paid` periods.
pub open spec fn remaining_principal(bond: Bond, paid: u32) -> int {
    bond.denomination - paid * bond.spec_principal_per_period()
}

/// Inflation correction of one period's principal over the range the factor covers.
pub open spec fn redemption_correction(bond: Bond, factor: i128) -> int {
    quot(bond.spec_principal_per_period() * factor, INDEX_SCALE as int)
        - bond.spec_principal_per_period()
}

/// Share, in percent, of one period's interest rate earned over the time held
/// since `anchor`.
pub open spec fn proportional_percentage(bond: Bond, anchor: u64, now: u64) -> int {
    ((now - anchor) * bond.interest_rate) / bond.spec_period_duration()
}

/// Interest due at an early redemption, before tax.
pub open spec fn redemption_due(bond: Bond, paid: u32, anchor: u64, now: u64, factor: i128) -> int {
    quot(
        (remaining_principal(bond, paid) + redemption_correction(bond, factor))
            * proportional_percentage(bond, anchor, now),
        100,
    )
}

/// Payout of an early redemption: the remaining principal, its correction,
/// and the interest due after tax.
pub open spec fn redemption_payout(bond: Bond, paid: u32, anchor: u64, now: u64, factor: i128) -> int {
    remaining_principal(bond, paid) + redemption_correction(bond, factor) + after_tax(
        redemption_due(bond, paid, anchor, now, factor),
        bond.issue_date,
        now,
    )
}

/// Whether computing [`redemption_payout`] stays within `i128`.
pub open spec fn redemption_payout_fits(
    bond: Bond,
    paid: u32,
    anchor: u64,
    now: u64,
    factor: i128,
) -> bool {
    &&& fits_i128(paid * bond.spec_principal_per_period())
    &&& fits_i128(remaining_principal(bond, paid))
    &&& fits_i128(bond.spec_principal_per_period() * factor)
    &&& fits_i128(redemption_correction(bond, factor))
    &&& fits_i128(remaining_principal(bond, paid) + redemption_correction(bond, factor))
    &&& fits_i128(
        (remaining_principal(bond, paid) + redemption_correction(bond, factor))
            * proportional_percentage(bond, anchor, now),
    )
    &&& after_tax_fits(redemption_due(bond, paid, anchor, now, factor), bond.issue_date, now)
    &&& fits_i128(redemption_payout(bond, paid, anchor, now, factor))
}

/// The checks that settlement and redemption share: the caller is the
/// issuing institution, the bond is known, its investor is not null.
pub open spec fn access_error(
    caller: Address,
    institution: Address,
    bond: Bond,
    investor: Address,
) -> Option<Error> {
    if caller != institution {
        Some(Error::Unauthorized)
    } else if !bond.is_registered() {
        Some(Error::BondNotFound)
    } else if investor.spec_is_zero() {
        Some(Error::InvalidInvestor)
    } else {
        None
    }
}

impl BondAmortization {
    /// The ledger entry of `investor` for bond `bond_id`, if one was created.
    pub closed spec fn entry(self, investor: Address, bond_id: u64) -> Option<LedgerEntry> {
        lookup(self.entries@, LedgerKey { investor, bond_id })
    }

    /// Total payout credited to `investor`.
    pub closed spec fn credited(self, investor: Address) -> int {
        match lookup(self.balances@, investor) {
            Some(b) => b as int,
            None => 0,
        }
    }

    /// Each key is stored once.
    pub closed spec fn wf(self) -> bool {
        &&& keys_distinct(self.entries@)
        &&& keys_distinct(self.balances@)
    }

    /// Periods paid, zero where no entry exists.
    pub open spec fn payments_made(self, investor: Address, bond_id: u64) -> u32 {
        match self.entry(investor, bond_id) {
            Some(e) => e.payments_made,
            None => 0,
        }
    }

    /// Last settlement time, zero where no entry exists.
    pub open spec fn last_settlement(self, investor: Address, bond_id: u64) -> u64 {
        match self.entry(investor, bond_id) {
            Some(e) => e.last_settlement,
            None => 0,
        }
    }

    /// Whether no investor has been paid more than `frequency` periods of
    /// bond `bond_id`.
    pub open spec fn payments_within(self, bond_id: u64, frequency: u32) -> bool {
        forall|i: Address| #[trigger] self.payments_made(i, bond_id) <= frequency
    }

    /// Time from which the schedule counts: the last settlement, or the issue
    /// date for an entry not yet created.
    pub open spec fn spec_schedule_anchor(self, investor: Address, bond_id: u64, bond: Bond) -> u64 {
        match self.entry(investor, bond_id) {
            Some(e) => e.last_settlement,
            None => bond.issue_date,
        }
    }

    /// Whether `other` differs from `self` at most in the entry of `investor`
    /// for `bond_id` and in what `investor` has been credited.
    pub open spec fn same_elsewhere(self, other: Self, investor: Address, bond_id: u64) -> bool {
        &&& forall|i: Address, b: u64|
            !(i == investor && b == bond_id) ==> #[trigger] other.entry(i, b) == self.entry(i, b)
        &&& forall|i: Address| i != investor ==> #[trigger] other.credited(i) == self.credited(i)
    }

    /// Why a settlement with these inputs is rejected, if it is.
    pub open spec fn settlement_error(
        self,
        bond_id: u64,
        caller: Address,
        institution: Address,
        bond: Bond,
        investor: Address,
        now: u64,
        index: i128,
    ) -> Option<Error> {
        let paid = self.payments_made(investor, bond_id);
        let n = periods_due(bond, paid, self.spec_schedule_anchor(investor, bond_id, bond), now);
        if access_error(caller, institution, bond, investor) is Some {
            access_error(caller, institution, bond, investor)
        } else if paid >= bond.frequency {
            Some(Error::AlreadyFullyAmortized)
        } else if n == 0 {
            Some(Error::NoPeriodElapsed)
        } else if !(period_payout_fits(bond, index, now) && fits_i128(
            n * period_payout(bond, index, now),
        ) && fits_i128(self.credited(investor) + n * period_payout(bond, index, now))) {
            Some(Error::ArithmeticOverflow)
        } else {
            None
        }
    }

    /// Why an early redemption with these inputs is rejected, if it is.
    pub open spec fn redemption_error(
        self,
        bond_id: u64,
        caller: Address,
        institution: Address,
        bond: Bond,
        investor: Address,
        now: u64,
        factor: i128,
    ) -> Option<Error> {
        let paid = self.payments_made(investor, bond_id);
        let anchor = self.spec_schedule_anchor(investor, bond_id, bond);
        if access_error(caller, institution, bond, investor) is Some {
            access_error(caller, institution, bond, investor)
        } else if paid >= bond.frequency {
            Some(Error::AlreadyFullyAmortized)
        } else if now <= anchor {
            Some(Error::InvalidRedemptionTime)
        } else if !(redemption_payout_fits(bond, paid, anchor, now, factor) && fits_i128(
            self.credited(investor) + redemption_payout(bond, paid, anchor, now, factor),
        )) {
            Some(Error::ArithmeticOverflow)
        } else {
            None
        }
    }

    /// An empty ledger.
    pub fn new() -> (r: Self)
        ensures
            r.wf(),
            forall|i: Address, b: u64| #[trigger] r.entry(i, b) == None::<LedgerEntry>,
            forall|i: Address| #[trigger] r.credited(i) == 0,
            forall|b: u64, f: u32| #[trigger] r.payments_within(b, f),
    {
        let r = BondAmortization { entries: Vec::new(), balances: Vec::new() };
        assert forall|i: Address, b: u64| #[trigger] r.entry(i, b) == None::<LedgerEntry> by {
            lemma_lookup_absent(r.entries@, LedgerKey { investor: i, bond_id: b });
        }
        assert forall|i: Address| #[trigger] r.credited(i) == 0 by {
            lemma_lookup_absent(r.balances@, i);
        }
        r
    }

    fn find_entry(&self, key: &LedgerKey) -> (r: Option<usize>)
        requires
            self.wf(),
        ensures
            match r {
                Some(i) => i < self.entries@.len() && self.entries@[i as int].0 == *key
                    && lookup(self.entries@, *key) == Some(self.entries@[i as int].1),
                None => lookup(self.entries@, *key) == None::<LedgerEntry> && forall|j: int|
                    0 <= j < self.entries@.len() ==> self.entries@[j].0 != *key,
            },
    {
        let mut i: usize = 0;
        while i < self.entries.len()
            invariant
                self.wf(),
                i <= self.entries@.len(),
                forall|j: int| 0 <= j < i ==> self.entries@[j].0 != *key,
            decreases self.entries@.len() - i,
        {
            if self.entries[i].0 == *key {
                proof {
                    lemma_lookup_at(self.entries@, i as int);
                }
                return Some(i);
            }
            i = i + 1;
        }
        proof {
            lemma_lookup_absent(self.entries@, *key);
        }
        None
    }

    fn find_balance(&self, investor: &Address) -> (r: Option<usize>)
        requires
            self.wf(),
        ensures
            match r {
                Some(i) => i < self.balances@.len() && self.balances@[i as int].0 == *investor
                    && lookup(self.balances@, *investor) == Some(self.balances@[i as int].1),
                None => lookup(self.balances@, *investor) == None::<i128> && forall|j: int|
                    0 <= j < self.balances@.len() ==> self.balances@[j].0 != *investor,
            },
    {
        let mut i: usize = 0;
        while i < self.balances.len()
            invariant
                self.wf(),
                i <= self.balances@.len(),
                forall|j: int| 0 <= j < i ==> self.balances@[j].0 != *investor,
            decreases self.balances@.len() - i,
        {
            if self.balances[i].0 == *investor {
                proof {
                    lemma_lookup_at(self.balances@, i as int);
                }
                return Some(i);
            }
            i = i + 1;
        }
        proof {
            lemma_lookup_absent(self.balances@, *investor);
        }
        None
    }

    fn put_entry(&mut self, key: LedgerKey, e: LedgerEntry)
        requires
            old(self).wf(),
        ensures
            final(self).wf(),
            final(self).entry(key.investor, key.bond_id) == Some(e),
            forall|i: Address, b: u64|
                !(i == key.investor && b == key.bond_id) ==> #[trigger] final(self).entry(i, b)
                    == old(self).entry(i, b),
            final(self).balances == old(self).balances,
    {
        match self.find_entry(&key) {
            Some(i) => {
                proof {
                    lemma_lookup_update(self.entries@, i as int, e);
                    lemma_distinct_update(self.entries@, i as int, e);
                }
                self.entries.set(i, (key, e));
            },
            None => {
                proof {
                    lemma_lookup_push(self.entries@, key, e);
                    lemma_distinct_push(self.entries@, key, e);
                }
                self.entries.push((key, e));
            },
        }
    }

    fn drop_entry(&mut self, key: LedgerKey)
        requires
            old(self).wf(),
        ensures
            final(self).wf(),
            final(self).entry(key.investor, key.bond_id) == None::<LedgerEntry>,
            forall|i: Address, b: u64|
                !(i == key.investor && b == key.bond_id) ==> #[trigger] final(self).entry(i, b)
                    == old(self).entry(i, b),
            final(self).balances == old(self).balances,
    {
        match self.find_entry(&key) {
            Some(i) => {
                proof {
                    lemma_lookup_remove(self.entries@, i as int);
                }
                self.entries.remove(i);
            },
            None => {},
        }
    }

    fn put_balance(&mut self, investor: Address, amount: i128)
        requires
            old(self).wf(),
        ensures
            final(self).wf(),
            final(self).credited(investor) == amount,
            forall|i: Address| i != investor ==> #[trigger] final(self).credited(i) == old(
                self,
            ).credited(i),
            final(self).entries == old(self).entries,
    {
        match self.find_balance(&investor) {
            Some(i) => {
                proof {
                    lemma_lookup_update(self.balances@, i as int, amount);
                    lemma_distinct_update(self.balances@, i as int, amount);
                }
                self.balances.set(i, (investor, amount));
            },
            None => {
                proof {
                    lemma_lookup_push(self.balances@, investor, amount);
                    lemma_distinct_push(self.balances@, investor, amount);
                }
                self.balances.push((investor, amount));
            },
        }
    }

    /// Periods paid on bond `bond_id` for `investor`; zero where none.
    pub fn get_payments_made(&self, investor: Address, bond_id: u64) -> (r: u32)
        requires
            self.wf(),
        ensures
            r == self.payments_made(investor, bond_id),
    {
        match self.find_entry(&LedgerKey { investor, bond_id }) {
            Some(i) => self.entries[i].1.payments_made,
            None => 0,
        }
    }

    /// Time up to which bond `bond_id` of `investor` has been settled; zero
    /// where no entry exists.
    pub fn get_last_settlement(&self, investor: Address, bond_id: u64) -> (r: u64)
        requires
            self.wf(),
        ensures
            r == self.last_settlement(investor, bond_id),
    {
        match self.find_entry(&LedgerKey { investor, bond_id }) {
            Some(i) => self.entries[i].1.last_settlement,
            None => 0,
        }
    }

    /// Total payout credited to `investor`; zero where none.
    pub fn get_balance(&self, investor: Address) -> (r: i128)
        requires
            self.wf(),
        ensures
            r == self.credited(investor),
    {
        match self.find_balance(&investor) {
            Some(i) => self.balances[i].1,
            None => 0,
        }
    }

    /// Time from which the schedule of bond `bond_id` for `investor` counts:
    /// the start of the range an early redemption's inflation factor covers.
    pub fn schedule_anchor(&self, investor: Address, bond_id: u64, bond: &Bond) -> (r: u64)
        requires
            self.wf(),
        ensures
            r == self.spec_schedule_anchor(investor, bond_id, *bond),
    {
        self.schedule_position(&LedgerKey { investor, bond_id }, bond).1
    }

    /// Payments made and schedule anchor of an entry, with the defaults of an
    /// entry not yet created.
    fn schedule_position(&self, key: &LedgerKey, bond: &Bond) -> (r: (u32, u64))
        requires
            self.wf(),
        ensures
            r.0 == self.payments_made(key.investor, key.bond_id),
            r.1 == self.spec_schedule_anchor(key.investor, key.bond_id, *bond),
    {
        match self.find_entry(key) {
            Some(i) => (self.entries[i].1.payments_made, self.entries[i].1.last_settlement),
            None => (0, bond.issue_date),
        }
    }
}

/// Payout of one scheduled period, or `None` where it does not fit in `i128`.
pub fn calculate_remuneration(bond: &Bond, index: i128, now: u64) -> (r: Option<i128>)
    requires
        bond.frequency > 0,
    ensures
        r == (if period_payout_fits(*bond, index, now) {
            Some(period_payout(*bond, index, now) as i128)
        } else {
            None
        }),
{
    let principal = bond.principal_per_period();
    let scaled = match principal.checked_mul(index) {
        Some(v) => v,
        None => return None,
    };
    let correction = div_toward_zero(scaled, INDEX_SCALE);
    let rated = match correction.checked_mul(bond.interest_rate as i128) {
        Some(v) => v,
        None => return None,
    };
    let gross = div_toward_zero(rated, 100);
    let net = match net_of_tax(gross, bond.issue_date, now) {
        Some(v) => v,
        None => return None,
    };
    correction.checked_add(net)
}

/// Payout of an early redemption of a bond on which `paid` periods were paid
/// and settled up to `anchor`, or `None` where it does not fit in `i128`.
pub fn calculate_proportional_interest(
    bond: &Bond,
    paid: u32,
    anchor: u64,
    now: u64,
    factor: i128,
) -> (r: Option<i128>)
    requires
        bond.well_formed(),
        anchor <= now,
    ensures
        r == (if redemption_payout_fits(*bond, paid, anchor, now, factor) {
            Some(redemption_payout(*bond, paid, anchor, now, factor) as i128)
        } else {
            None
        }),
{
    let principal = bond.principal_per_period();
    let repaid = match (paid as i128).checked_mul(principal) {
        Some(v) => v,
        None => return None,
    };
    let remaining = match bond.denomination.checked_sub(repaid) {
        Some(v) => v,
        None => return None,
    };
    let scaled = match principal.checked_mul(factor) {
        Some(v) => v,
        None => return None,
    };
    let correction = match div_toward_zero(scaled, INDEX_SCALE).checked_sub(principal) {
        Some(v) => v,
        None => return None,
    };
    let duration = bond.period_duration();
    let elapsed: u64 = now - anchor;
    let rate: u32 = bond.interest_rate;
    proof {
        assert(0 <= elapsed * rate <= 0xffff_ffff_ffff_ffff_ffff_ffff) by (nonlinear_arith)
            requires
                elapsed <= 0xffff_ffff_ffff_ffff,
                rate <= 0xffff_ffff,
        ;
    }
    let held: i128 = (elapsed as i128) * (rate as i128);
    let percentage = div_toward_zero(held, duration as i128);
    let base = match remaining.checked_add(correction) {
        Some(v) => v,
        None => return None,
    };
    let accrued = match base.checked_mul(percentage) {
        Some(v) => v,
        None => return None,
    };
    let due = div_toward_zero(accrued, 100);
    let net = match net_of_tax(due, bond.issue_date, now) {
        Some(v) => v,
        None => return None,
    };
    base.checked_add(net)
}

impl BondAmortization {
    /// Settles every whole period elapsed since the last settlement of
    /// `bond_id` for its investor of record, as asked by `caller`.
    ///
    /// `institution` is the bond's issuing institution, `bond` its terms as the
    /// registry gives them, `investor` its investor of record, `now` the time
    /// of the call and `index` the accumulated inflation index, scaled by
    /// [`INDEX_SCALE`]. The schedule moves by whole periods, not to `now`, so
    /// a late call does not shift later due dates.
    pub fn transfer_amortization(
        &mut self,
        bond_id: u64,
        caller: Address,
        institution: Address,
        bond: Bond,
        investor: Address,
        now: u64,
        index: i128,
    ) -> (r: Result<(), Error>)
        requires
            old(self).wf(),
            bond.is_registered() ==> bond.well_formed(),
        ensures
            final(self).wf(),
            r == (match old(self).settlement_error(
                bond_id,
                caller,
                institution,
                bond,
                investor,
                now,
                index,
            ) {
                Some(e) => Err(e),
                None => Ok(()),
            }),
            r is Err ==> *final(self) == *old(self),
            r is Ok ==> ({
                let paid = old(self).payments_made(investor, bond_id);
                let anchor = old(self).spec_schedule_anchor(investor, bond_id, bond);
                let n = periods_due(bond, paid, anchor, now);
                &&& final(self).entry(investor, bond_id) == Some(
                    LedgerEntry {
                        payments_made: (paid + n) as u32,
                        last_settlement: (anchor + n * bond.spec_period_duration()) as u64,
                    },
                )
                &&& final(self).credited(investor) == old(self).credited(investor) + n
                    * period_payout(bond, index, now)
                &&& old(self).same_elsewhere(*final(self), investor, bond_id)
            }),
            forall|i: Address, b: u64|
                old(self).payments_made(i, b) <= #[trigger] final(self).payments_made(i, b),
            old(self).payments_made(investor, bond_id) <= bond.frequency
                ==> final(self).payments_made(investor, bond_id) <= bond.frequency,
            forall|b: u64, f: u32|
                old(self).payments_within(b, f) && (b == bond_id ==> bond.frequency <= f)
                    ==> #[trigger] final(self).payments_within(b, f),
    {
        if caller != institution {
            return Err(Error::Unauthorized);
        }
        if bond.issue_number == 0 {
            return Err(Error::BondNotFound);
        }
        if investor.is_zero() {
            return Err(Error::InvalidInvestor);
        }
        let key = LedgerKey { investor, bond_id };
        let (paid, anchor) = self.schedule_position(&key, &bond);
        if paid >= bond.frequency {
            return Err(Error::AlreadyFullyAmortized);
        }
        let duration = bond.period_duration();
        let elapsed: u64 = if now >= anchor {
            now - anchor
        } else {
            0
        };
        let left: u64 = (bond.frequency - paid) as u64;
        let mut periods: u64 = elapsed / duration;
        if periods > left {
            periods = left;
        }
        if periods == 0 {
            return Err(Error::NoPeriodElapsed);
        }
        let payout = match calculate_remuneration(&bond, index, now) {
            Some(p) => p,
            None => return Err(Error::ArithmeticOverflow),
        };
        assert(periods as int == periods_due(bond, paid, anchor, now));
        assert(payout * periods == periods * payout) by (nonlinear_arith);
        let total = match payout.checked_mul(periods as i128) {
            Some(t) => t,
            None => return Err(Error::ArithmeticOverflow),
        };
        let balance = match self.get_balance(investor).checked_add(total) {
            Some(b) => b,
            None => return Err(Error::ArithmeticOverflow),
        };
        proof {
            let q = elapsed / duration;
            assert(periods * duration <= q * duration) by (nonlinear_arith)
                requires
                    periods <= q,
                    duration > 0,
            ;
            vstd::arithmetic::div_mod::lemma_fundamental_div_mod(elapsed as int, duration as int);
            vstd::arithmetic::div_mod::lemma_mod_pos_bound(elapsed as int, duration as int);
            assert(q * duration == duration * q) by (nonlinear_arith);
        }
        let settled_to: u64 = anchor + periods * duration;
        let old_self = Ghost(*self);
        self.put_entry(key, LedgerEntry { payments_made: paid + periods as u32, last_settlement: settled_to });
        let mid = Ghost(*self);
        self.put_balance(investor, balance);
        proof {
            assert forall|i: Address, b: u64|
                !(i == investor && b == bond_id) implies #[trigger] self.entry(i, b)
                == old_self@.entry(i, b) by {
                assert(mid@.entry(i, b) == old_self@.entry(i, b));
            }
            assert(self.entry(investor, bond_id) == mid@.entry(investor, bond_id));
            assert forall|b: u64, f: u32|
                old_self@.payments_within(b, f) && (b == bond_id ==> bond.frequency <= f) implies
                #[trigger] self.payments_within(b, f) by {
                assert forall|i: Address| #[trigger] self.payments_made(i, b) <= f by {
                    assert(old_self@.payments_made(i, b) <= f);
                    if !(i == investor && b == bond_id) {
                        assert(self.entry(i, b) == old_self@.entry(i, b));
                    }
                }
            }
        }
        Ok(())
    }

    /// Pays off bond `bond_id` early for its investor of record, as asked by
    /// `caller`, and closes its schedule.
    ///
    /// The inputs are those of [`Self::transfer_amortization`], with `factor`
    /// the inflation factor from the last settlement to `now`, scaled by
    /// [`INDEX_SCALE`].
    pub fn early_redemption(
        &mut self,
        bond_id: u64,
        caller: Address,
        institution: Address,
        bond: Bond,
        investor: Address,
        now: u64,
        factor: i128,
    ) -> (r: Result<(), Error>)
        requires
            old(self).wf(),
            bond.is_registered() ==> bond.well_formed(),
        ensures
            final(self).wf(),
            r == (match old(self).redemption_error(
                bond_id,
                caller,
                institution,
                bond,
                investor,
                now,
                factor,
            ) {
                Some(e) => Err(e),
                None => Ok(()),
            }),
            r is Err ==> *final(self) == *old(self),
            r is Ok ==> ({
                let paid = old(self).payments_made(investor, bond_id);
                let anchor = old(self).spec_schedule_anchor(investor, bond_id, bond);
                &&& final(self).entry(investor, bond_id) == Some(
                    LedgerEntry { payments_made: bond.frequency, last_settlement: anchor },
                )
                &&& final(self).credited(investor) == old(self).credited(investor)
                    + redemption_payout(bond, paid, anchor, now, factor)
                &&& old(self).same_elsewhere(*final(self), investor, bond_id)
            }),
            forall|i: Address, b: u64|
                old(self).payments_made(i, b) <= #[trigger] final(self).payments_made(i, b),
            old(self).payments_made(investor, bond_id) <= bond.frequency
                ==> final(self).payments_made(investor, bond_id) <= bond.frequency,
            forall|b: u64, f: u32|
                old(self).payments_within(b, f) && (b == bond_id ==> bond.frequency <= f)
                    ==> #[trigger] final(self).payments_within(b, f),
    {
        if caller != institution {
            return Err(Error::Unauthorized);
        }
        if bond.issue_number == 0 {
            return Err(Error::BondNotFound);
        }
        if investor.is_zero() {
            return Err(Error::InvalidInvestor);
        }
        let key = LedgerKey { investor, bond_id };
        let (paid, anchor) = self.schedule_position(&key, &bond);
        if paid >= bond.frequency {
            return Err(Error::AlreadyFullyAmortized);
        }
        if now <= anchor {
            return Err(Error::InvalidRedemptionTime);
        }
        let payout = match calculate_proportional_interest(&bond, paid, anchor, now, factor) {
            Some(p) => p,
            None => return Err(Error::ArithmeticOverflow),
        };
        let balance = match self.get_balance(investor).checked_add(payout) {
            Some(b) => b,
            None => return Err(Error::ArithmeticOverflow),
        };
        let old_self = Ghost(*self);
        self.put_entry(key, LedgerEntry { payments_made: bond.frequency, last_settlement: anchor });
        let mid = Ghost(*self);
        self.put_balance(investor, balance);
        proof {
            assert forall|i: Address, b: u64|
                !(i == investor && b == bond_id) implies #[trigger] self.entry(i, b)
                == old_self@.entry(i, b) by {
                assert(mid@.entry(i, b) == old_self@.entry(i, b));
            }
            assert(self.entry(investor, bond_id) == mid@.entry(investor, bond_id));
            assert forall|b: u64, f: u32|
                old_self@.payments_within(b, f) && (b == bond_id ==> bond.frequency <= f) implies
                #[trigger] self.payments_within(b, f) by {
                assert forall|i: Address| #[trigger] self.payments_made(i, b) <= f by {
                    assert(old_self@.payments_made(i, b) <= f);
                    if !(i == investor && b == bond_id) {
                        assert(self.entry(i, b) == old_self@.entry(i, b));
                    }
                }
            }
        }
        Ok(())
    }

    /// Moves the payment progress of bond `bond_id` from `from` to `to` after
    /// a sale at time `now`: `to` takes over the periods paid and its schedule
    /// restarts at `now`; the entry of `from`, when `from` is not `to`, is
    /// deleted. Nothing is paid, and no count of periods paid goes down but
    /// that of the seller, whose entry is gone.
    pub fn transfer_amortization_state(&mut self, bond_id: u64, from: Address, to: Address, now: u64)
        requires
            old(self).wf(),
        ensures
            final(self).wf(),
            final(self).entry(to, bond_id) == Some(
                LedgerEntry {
                    payments_made: old(self).payments_made(from, bond_id),
                    last_settlement: now,
                },
            ),
            from != to ==> final(self).entry(from, bond_id) == None::<LedgerEntry>,
            forall|i: Address, b: u64|
                !((i == from || i == to) && b == bond_id) ==> #[trigger] final(self).entry(i, b)
                    == old(self).entry(i, b),
            forall|i: Address| #[trigger] final(self).credited(i) == old(self).credited(i),
            forall|b: u64, f: u32|
                old(self).payments_within(b, f) ==> #[trigger] final(self).payments_within(b, f),
    {
        let payments = self.get_payments_made(from, bond_id);
        let ghost start = *self;
        self.put_entry(
            LedgerKey { investor: to, bond_id },
            LedgerEntry { payments_made: payments, last_settlement: now },
        );
        let ghost mid = *self;
        if from != to {
            self.drop_entry(LedgerKey { investor: from, bond_id });
        }
        proof {
            assert forall|i: Address, b: u64|
                !((i == from || i == to) && b == bond_id) implies #[trigger] self.entry(i, b)
                == start.entry(i, b) by {
                assert(mid.entry(i, b) == start.entry(i, b));
            }
            assert forall|b: u64, f: u32| start.payments_within(b, f) implies #[trigger] self.payments_within(b, f) by {
                assert forall|i: Address| #[trigger] self.payments_made(i, b) <= f by {
                    assert(start.payments_made(i, b) <= f);
                    assert(start.payments_made(from, b) <= f);
                    assert(mid.entry(i, b) == start.entry(i, b) || (i == to && b == bond_id));
                }
            }
        }
    }
}

/// A settlement asked for before one whole period has passed since the
/// schedule's anchor is rejected with `NoPeriodElapsed`, once the caller, bond
/// and investor checks pass and periods remain unpaid. Like every rejected
/// call, it leaves the ledger as it was.
pub proof fn lemma_settlement_needs_whole_period(
    ledger: BondAmortization,
    bond_id: u64,
    caller: Address,
    institution: Address,
    bond: Bond,
    investor: Address,
    now: u64,
    index: i128,
)
    requires
        bond.well_formed(),
        access_error(caller, institution, bond, investor) is None,
        ledger.payments_made(investor, bond_id) < bond.frequency,
        now < ledger.spec_schedule_anchor(investor, bond_id, bond) + bond.spec_period_duration(),
    ensures
        ledger.settlement_error(bond_id, caller, institution, bond, investor, now, index) == Some(
            Error::NoPeriodElapsed,
        ),
{
    let anchor = ledger.spec_schedule_anchor(investor, bond_id, bond);
    let elapsed: int = if now >= anchor {
        now - anchor
    } else {
        0
    };
    assert(bond.spec_period_duration() >= 1) by (nonlinear_arith)
        requires
            bond.maturity_date - bond.issue_date >= bond.frequency,
            bond.frequency > 0,
            bond.spec_period_duration() == (bond.maturity_date - bond.issue_date) / (
            bond.frequency as int),
    {
        vstd::arithmetic::div_mod::lemma_div_is_ordered(
            bond.frequency as int,
            bond.maturity_date - bond.issue_date,
            bond.frequency as int,
        );
        vstd::arithmetic::div_mod::lemma_div_by_self(bond.frequency as int);
    }
    vstd::arithmetic::div_mod::lemma_basic_div(elapsed, bond.spec_period_duration());
}

/// Early redemption closes a schedule for good: once the payments made on a
/// key equal the bond's number of periods, as every successful early
/// redemption leaves them, each later settlement or redemption on that key
/// that passes the caller, bond and investor checks is rejected with
/// `AlreadyFullyAmortized`, whatever its time and index.
pub proof fn lemma_redemption_is_terminal(
    ledger: BondAmortization,
    bond_id: u64,
    caller: Address,
    institution: Address,
    bond: Bond,
    investor: Address,
    now: u64,
    index: i128,
    factor: i128,
)
    requires
        ledger.payments_made(investor, bond_id) == bond.frequency,
    ensures
        ledger.settlement_error(bond_id, caller, institution, bond, investor, now, index) == (
        if access_error(caller, institution, bond, investor) is Some {
            access_error(caller, institution, bond, investor)
        } else {
            Some(Error::AlreadyFullyAmortized)
        }),
        ledger.redemption_error(bond_id, caller, institution, bond, investor, now, factor) == (
        if access_error(caller, institution, bond, investor) is Some {
            access_error(caller, institution, bond, investor)
        } else {
            Some(Error::AlreadyFullyAmortized)
        }),
{
}

} // verus!
