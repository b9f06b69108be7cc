//! The bond registry: mints bonds from a template, records who holds each,
//! and moves a bond to a new holder after a sale.

use vstd::prelude::*;
use crate::address::Address;
use crate::assoc::{
    keys_distinct, lemma_distinct_push, lemma_lookup_absent, lemma_lookup_at, lemma_lookup_push,
    lemma_lookup_remove, lookup,
};
use crate::bond::{Bond, BondStatus};
use crate::custody::TokenCustody;
use crate::error::Error;

verus! {

/// How many bonds the issue holds in all.
pub const MAX_TOTAL_SUPPLY: u64 = 40000;

/// Term of a newly minted bond, in seconds (547 days).
pub const BOND_TERM: u64 = 47_260_800;

/// The bond minted with number `id` at time `now` from `template`.
pub open spec fn minted_bond(template: Bond, id: u64, now: u64) -> Bond {
    Bond {
        issue_number: id,
        currency: template.currency,
        denomination: template.denomination,
        interest_rate: template.interest_rate,
        frequency: template.frequency,
        issue_date: now,
        maturity_date: (now + BOND_TERM) as u64,
        bond_status: BondStatus::Issued,
    }
}

/// The `n` consecutive bond numbers starting at `first`.
pub open spec fn id_run(first: int, n: int) -> Seq<u64> {
    Seq::new(n as nat, |i: int| (first + i) as u64)
}

/// `s` with every occurrence of `id` taken out.
pub open spec fn without(s: Seq<u64>, id: u64) -> Seq<u64> {
    s.filter(|x: u64| x != id)
}

/// Bonds numbered from one upwards, each with its holder, and the list of
/// bonds each investor holds.
pub struct TokenMintingContract {
    remaining_supply: u64,
    bond_template: Option<Bond>,
    bonds: Vec<Bond>,
    owners: Vec<Address>,
    holdings: Vec<(Address, Vec<u64>)>,
}

impl TokenMintingContract {
    /// How many bonds have been minted.
    pub closed spec fn issued(self) -> nat {
        self.bonds@.len()
    }

    /// How many bonds may still be minted.
    pub closed spec fn supply_left(self) -> nat {
        self.remaining_supply as nat
    }

    /// Terms that newly minted bonds copy.
    pub closed spec fn template(self) -> Option<Bond> {
        self.bond_template
    }

    /// The bond numbered `id`, if minted.
    pub closed spec fn bond(self, id: u64) -> Option<Bond> {
        if 1 <= id <= self.bonds@.len() {
            Some(self.bonds@[id - 1])
        } else {
            None
        }
    }

    /// The holder of bond `id`, if minted.
    pub closed spec fn owner(self, id: u64) -> Option<Address> {
        if 1 <= id <= self.owners@.len() {
            Some(self.owners@[id - 1])
        } else {
            None
        }
    }

    /// The bonds `investor` holds, in the order received.
    pub closed spec fn holdings(self, investor: Address) -> Seq<u64> {
        match lookup(self.holdings@, investor) {
            Some(v) => v@,
            None => Seq::empty(),
        }
    }

    /// Every minted bond has a holder, minted bonds and supply left add up to
    /// the whole issue, and each investor is stored once.
    pub closed spec fn wf(self) -> bool {
        &&& self.bonds@.len() == self.owners@.len()
        &&& self.bonds@.len() + self.remaining_supply == MAX_TOTAL_SUPPLY
        &&& keys_distinct(self.holdings@)
    }

    /// Why minting `n` bonds for `payer`, as asked by `caller`, is rejected, if it is.
    pub open spec fn mint_error(
        self,
        custody: TokenCustody,
        caller: Address,
        payer: Address,
        n: u64,
        now: u64,
    ) -> Option<Error> {
        if caller != payer {
            Some(Error::Unauthorized)
        } else if n == 0 {
            Some(Error::InvalidQuantity)
        } else if n > self.supply_left() {
            Some(Error::SupplyExceeded)
        } else if self.template() is None {
            Some(Error::BondTemplateMissing)
        } else if now + BOND_TERM > u64::MAX || custody.position(payer).len() + n > u64::MAX {
            Some(Error::ArithmeticOverflow)
        } else {
            None
        }
    }

    /// A registry with nothing minted, the whole supply left and no template.
    pub fn initialize() -> (r: Self)
        ensures
            r.wf(),
            r.issued() == 0,
            r.supply_left() == MAX_TOTAL_SUPPLY,
            r.template() is None,
            forall|u: Address| #[trigger] r.holdings(u) == Seq::<u64>::empty(),
    {
        let r = TokenMintingContract {
            remaining_supply: MAX_TOTAL_SUPPLY,
            bond_template: None,
            bonds: Vec::new(),
            owners: Vec::new(),
            holdings: Vec::new(),
        };
        assert forall|u: Address| #[trigger] r.holdings(u) == Seq::<u64>::empty() by {
            lemma_lookup_absent(r.holdings@, u);
        }
        r
    }

    /// Sets the terms that newly minted bonds copy.
    pub fn set_bond_template(&mut self, bond_template: Bond)
        ensures
            final(self).template() == Some(bond_template),
            final(self).wf() == old(self).wf(),
            final(self).issued() == old(self).issued(),
            final(self).supply_left() == old(self).supply_left(),
            forall|id: u64| #[trigger] final(self).bond(id) == old(self).bond(id),
            forall|id: u64| #[trigger] final(self).owner(id) == old(self).owner(id),
            forall|u: Address| #[trigger] final(self).holdings(u) == old(self).holdings(u),
    {
        self.bond_template = Some(bond_template);
    }

    fn find(&self, investor: &Address) -> (r: Option<usize>)
        requires
            self.wf(),
        ensures
            match r {
                Some(i) => i < self.holdings@.len() && self.holdings@[i as int].0 == *investor
                    && lookup(self.holdings@, *investor) == Some(self.holdings@[i as int].1),
                None => lookup(self.holdings@, *investor) == None::<Vec<u64>> && forall|j: int|
                    0 <= j < self.holdings@.len() ==> self.holdings@[j].0 != *investor,
            },
    {
        let mut i: usize = 0;
        while i < self.holdings.len()
            invariant
                self.wf(),
                i <= self.holdings@.len(),
                forall|j: int| 0 <= j < i ==> self.holdings@[j].0 != *investor,
            decreases self.holdings@.len() - i,
        {
            if self.holdings[i].0 == *investor {
                proof {
                    lemma_lookup_at(self.holdings@, i as int);
                }
                return Some(i);
            }
            i = i + 1;
        }
        proof {
            lemma_lookup_absent(self.holdings@, *investor);
        }
        None
    }

    /// Takes the holdings list of `investor` out of the table.
    fn take_holdings(&mut self, investor: Address) -> (r: Vec<u64>)
        requires
            old(self).wf(),
        ensures
            final(self).wf(),
            r@ == old(self).holdings(investor),
            lookup(final(self).holdings@, investor) == None::<Vec<u64>>,
            forall|j: int|
                0 <= j < final(self).holdings@.len() ==> final(self).holdings@[j].0 != investor,
            forall|u: Address| u != investor ==> #[trigger] final(self).holdings(u) == old(self).holdings(u),
            final(self).bonds == old(self).bonds,
            final(self).owners == old(self).owners,
            final(self).remaining_supply == old(self).remaining_supply,
            final(self).bond_template == old(self).bond_template,
    {
        match self.find(&investor) {
            Some(i) => {
                let ghost s = self.holdings@;
                proof {
                    lemma_lookup_remove(s, i as int);
                }
                let (_, held) = self.holdings.remove(i);
                proof {
                    let t = s.remove(i as int);
                    assert forall|j: int| 0 <= j < t.len() implies t[j].0 != investor by {
                        let j2 = if j < i { j } else { j + 1 };
                        assert(t[j] == s[j2]);
                    }
                }
                held
            },
            None => Vec::new(),
        }
    }

    /// Puts a holdings list for `investor` back into the table.
    fn put_holdings(&mut self, investor: Address, held: Vec<u64>)
        requires
            old(self).wf(),
            forall|j: int|
                0 <= j < old(self).holdings@.len() ==> old(self).holdings@[j].0 != investor,
        ensures
            final(self).wf(),
            final(self).holdings(investor) == held@,
            forall|u: Address| u != investor ==> #[trigger] final(self).holdings(u) == old(self).holdings(u),
            final(self).bonds == old(self).bonds,
            final(self).owners == old(self).owners,
            final(self).remaining_supply == old(self).remaining_supply,
            final(self).bond_template == old(self).bond_template,
    {
        proof {
            lemma_distinct_push(self.holdings@, investor, held);
            lemma_lookup_push(self.holdings@, investor, held);
        }
        self.holdings.push((investor, held));
    }

    /// Mints `n` bonds for `payer` at time `now`, as asked by `caller`, who
    /// must be `payer`, and deposits each into `custody`.
    ///
    /// Each new bond copies the template's economic terms, takes the next
    /// number, is issued at `now` and matures [`BOND_TERM`] later.
    pub fn mint_tokens(
        &mut self,
        custody: &mut TokenCustody,
        caller: Address,
        payer: Address,
        n: u64,
        now: u64,
    ) -> (r: Result<(), Error>)
        requires
            old(self).wf(),
            old(custody).wf(),
        ensures
            final(self).wf(),
            final(custody).wf(),
            r == (match old(self).mint_error(*old(custody), caller, payer, n, now) {
                Some(e) => Err(e),
                None => Ok(()),
            }),
            r is Err ==> *final(self) == *old(self) && *final(custody) == *old(custody),
            r is Ok ==> ({
                let first: int = old(self).issued() as int + 1;
                let template = old(self).template()->0;
                &&& final(self).issued() == old(self).issued() + n
                &&& final(self).supply_left() == old(self).supply_left() - n
                &&& final(self).template() == old(self).template()
                &&& forall|id: u64|
                    1 <= id < first ==> #[trigger] final(self).bond(id) == old(self).bond(id)
                        && final(self).owner(id) == old(self).owner(id)
                &&& forall|id: u64|
                    first <= id < first + n ==> #[trigger] final(self).bond(id) == Some(
                        minted_bond(template, id, now),
                    ) && final(self).owner(id) == Some(payer)
                &&& final(self).holdings(payer) == old(self).holdings(payer) + id_run(first, n as int)
                &&& forall|u: Address|
                    u != payer ==> #[trigger] final(self).holdings(u) == old(self).holdings(u)
                &&& final(custody).position(payer) == old(custody).position(payer) + id_run(
                    first,
                    n as int,
                )
                &&& forall|u: Address|
                    u != payer ==> #[trigger] final(custody).position(u) == old(custody).position(u)
            }),
    {
        if caller != payer {
            return Err(Error::Unauthorized);
        }
        if n == 0 {
            return Err(Error::InvalidQuantity);
        }
        if n > self.remaining_supply {
            return Err(Error::SupplyExceeded);
        }
        let template = match self.bond_template {
            Some(t) => t,
            None => return Err(Error::BondTemplateMissing),
        };
        if now > u64::MAX - BOND_TERM {
            return Err(Error::ArithmeticOverflow);
        }
        if custody.get_total_bonds_deposited(payer) > u64::MAX - n {
            return Err(Error::ArithmeticOverflow);
        }
        let ghost old_self = *self;
        let ghost old_custody = *custody;
        let first: u64 = self.bonds.len() as u64 + 1;
        let maturity: u64 = now + BOND_TERM;
        let mut held = self.take_holdings(payer);
        let ghost taken = *self;
        let mut k: u64 = 0;
        while k < n
            invariant
                self.wf(),
                old_self.wf(),
                custody.wf(),
                k <= n,
                n <= old_self.supply_left(),
                first == old_self.issued() + 1,
                maturity == now + BOND_TERM,
                template == old_self.template()->0,
                self.bonds@.len() == old_self.issued() + k,
                self.remaining_supply == old_self.supply_left() - k,
                self.bond_template == old_self.bond_template,
                self.holdings == taken.holdings,
                forall|j: int|
                    0 <= j < self.holdings@.len() ==> self.holdings@[j].0 != payer,
                forall|j: int|
                    0 <= j < old_self.issued() ==> self.bonds@[j] == old_self.bonds@[j]
                        && self.owners@[j] == old_self.owners@[j],
                forall|j: int|
                    old_self.issued() <= j < old_self.issued() + k ==> self.bonds@[j]
                        == minted_bond(template, (j + 1) as u64, now) && self.owners@[j] == payer,
                held@ == old_self.holdings(payer) + id_run(first as int, k as int),
                custody.position(payer) == old_custody.position(payer) + id_run(
                    first as int,
                    k as int,
                ),
                old_custody.position(payer).len() + n <= u64::MAX,
                forall|u: Address|
                    u != payer ==> #[trigger] custody.position(u) == old_custody.position(u),
            decreases n - k,
        {
            let id: u64 = first + k;
            let bond = Bond {
                issue_number: id,
                currency: template.currency,
                denomination: template.denomination,
                interest_rate: template.interest_rate,
                frequency: template.frequency,
                issue_date: now,
                maturity_date: maturity,
                bond_status: BondStatus::Issued,
            };
            self.bonds.push(bond);
            self.owners.push(payer);
            held.push(id);
            self.remaining_supply = self.remaining_supply - 1;
            let deposited = custody.deposit_bond(payer, payer, id);
            assert(deposited is Ok);
            k = k + 1;
            assert(held@ =~= old_self.holdings(payer) + id_run(first as int, k as int));
            assert(custody.position(payer) =~= old_custody.position(payer) + id_run(
                first as int,
                k as int,
            ));
        }
        let ghost before_put = *self;
        self.put_holdings(payer, held);
        proof {
            assert forall|id: u64|
                1 <= id < first implies #[trigger] self.bond(id) == old_self.bond(id) && self.owner(
                id,
            ) == old_self.owner(id) by {
                assert(self.bonds@[id - 1] == old_self.bonds@[id - 1]);
            }
            assert forall|id: u64|
                first <= id < first + n implies #[trigger] self.bond(id) == Some(
                minted_bond(template, id, now),
            ) && self.owner(id) == Some(payer) by {
                assert(self.bonds@[id - 1] == minted_bond(template, id, now));
            }
            assert forall|u: Address| u != payer implies #[trigger] self.holdings(u)
                == old_self.holdings(u) by {
                assert(before_put.holdings(u) == taken.holdings(u));
            }
        }
        Ok(())
    }

    /// Number of bonds minted so far.
    pub fn issue_volume(&self) -> (r: u64)
        requires
            self.wf(),
        ensures
            r == self.issued(),
    {
        self.bonds.len() as u64
    }

    /// Terms of bond `bond_id`, if minted.
    pub fn get_bond_details(&self, bond_id: u64) -> (r: Option<Bond>)
        requires
            self.wf(),
        ensures
            r == self.bond(bond_id),
    {
        if 1 <= bond_id && bond_id <= self.bonds.len() as u64 {
            Some(self.bonds[(bond_id - 1) as usize])
        } else {
            None
        }
    }

    /// Holder of bond `bond_id`, if minted.
    pub fn get_investor_by_bond_id(&self, bond_id: u64) -> (r: Option<Address>)
        requires
            self.wf(),
        ensures
            r == self.owner(bond_id),
    {
        if 1 <= bond_id && bond_id <= self.owners.len() as u64 {
            Some(self.owners[(bond_id - 1) as usize])
        } else {
            None
        }
    }

    /// The bonds `investor` holds, in the order received.
    pub fn get_investor_bonds(&self, investor: Address) -> (r: Vec<u64>)
        requires
            self.wf(),
        ensures
            r@ == self.holdings(investor),
    {
        let mut out: Vec<u64> = Vec::new();
        match self.find(&investor) {
            Some(i) => {
                let held = &self.holdings[i].1;
                let mut j: usize = 0;
                while j < held.len()
                    invariant
                        j <= held@.len(),
                        out@ == held@.subrange(0, j as int),
                    decreases held@.len() - j,
                {
                    out.push(held[j]);
                    j = j + 1;
                    assert(out@ =~= held@.subrange(0, j as int));
                }
                assert(out@ =~= held@);
            },
            None => {},
        }
        out
    }

    /// Moves bond `bond_id` to `new_investor`: it leaves the holdings of its
    /// current holder and is added at the end of those of `new_investor`.
    pub fn transfer_bond_ownership(&mut self, bond_id: u64, new_investor: Address) -> (r: Result<
        (),
        Error,
    >)
        requires
            old(self).wf(),
        ensures
            final(self).wf(),
            r == (if new_investor.spec_is_zero() {
                Err(Error::InvalidInvestor)
            } else if old(self).owner(bond_id) is None {
                Err(Error::BondNotFound)
            } else {
                Ok(())
            }),
            r is Err ==> *final(self) == *old(self),
            r is Ok ==> ({
                let current = old(self).owner(bond_id)->0;
                let kept = without(old(self).holdings(current), bond_id);
                &&& final(self).owner(bond_id) == Some(new_investor)
                &&& forall|id: u64|
                    id != bond_id ==> #[trigger] final(self).owner(id) == old(self).owner(id)
                &&& forall|id: u64| #[trigger] final(self).bond(id) == old(self).bond(id)
                &&& final(self).holdings(new_investor) == (if new_investor == current {
                    kept
                } else {
                    old(self).holdings(new_investor)
                }).push(bond_id)
                &&& new_investor != current ==> final(self).holdings(current) == kept
                &&& forall|u: Address|
                    u != current && u != new_investor ==> #[trigger] final(self).holdings(u)
                        == old(self).holdings(u)
                &&& final(self).issued() == old(self).issued()
                &&& final(self).supply_left() == old(self).supply_left()
                &&& final(self).template() == old(self).template()
            }),
    {
        if new_investor.is_zero() {
            return Err(Error::InvalidInvestor);
        }
        if bond_id < 1 || bond_id > self.owners.len() as u64 {
            return Err(Error::BondNotFound);
        }
        let ghost old_self = *self;
        let idx = (bond_id - 1) as usize;
        let current = self.owners[idx];
        self.owners.set(idx, new_investor);
        let ghost after_set = *self;
        let held = self.take_holdings(current);
        let mut kept: Vec<u64> = Vec::new();
        let mut j: usize = 0;
        while j < held.len()
            invariant
                j <= held@.len(),
                kept@ == without(held@.subrange(0, j as int), bond_id),
            decreases held@.len() - j,
        {
            let x = held[j];
            if x != bond_id {
                kept.push(x);
            }
            proof {
                reveal(Seq::filter);
                assert(held@.subrange(0, j + 1).drop_last() =~= held@.subrange(0, j as int));
            }
            j = j + 1;
        }
        assert(held@.subrange(0, held@.len() as int) =~= held@);
        let ghost after_take = *self;
        self.put_holdings(current, kept);
        let ghost after_put = *self;
        let mut receiving = self.take_holdings(new_investor);
        receiving.push(bond_id);
        let ghost after_take2 = *self;
        self.put_holdings(new_investor, receiving);
        proof {
            assert(after_set.holdings(current) == old_self.holdings(current));
            assert forall|u: Address| u != current implies #[trigger] after_take.holdings(u)
                == old_self.holdings(u) by {
                assert(after_set.holdings(u) == old_self.holdings(u));
            }
            assert forall|u: Address|
                u != current && u != new_investor implies #[trigger] self.holdings(u)
                == old_self.holdings(u) by {
                assert(after_take2.holdings(u) == after_put.holdings(u));
                assert(after_put.holdings(u) == after_take.holdings(u));
            }
            if new_investor != current {
                assert(after_take2.holdings(current) == after_put.holdings(current));
                assert(after_put.holdings(new_investor) == after_take.holdings(new_investor));
            }
            assert forall|id: u64| id != bond_id implies #[trigger] self.owner(id) == old_self.owner(
                id,
            ) by {
                if 1 <= id <= self.owners@.len() {
                    assert(self.owners@[id - 1] == old_self.owners@[id - 1]);
                }
            }
            assert forall|id: u64| #[trigger] self.bond(id) == old_self.bond(id) by {}
        }
        Ok(())
    }
}

} // verus!
