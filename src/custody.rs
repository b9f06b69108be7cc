//! Custody positions: which bonds each investor has deposited.

use vstd::prelude::*;
use crate::address::Address;
use crate::assoc::{
    keys_distinct, lemma_distinct_push, lemma_lookup_absent, lemma_lookup_at, lemma_lookup_push,
    lemma_lookup_remove, lookup,
};
use crate::error::Error;

verus! {

/// Bonds deposited into custody, per investor, in order of deposit.
pub struct TokenCustody {
    positions: Vec<(Address, Vec<u64>)>,
}

impl TokenCustody {
    /// The bonds `user` has deposited, oldest first.
    pub closed spec fn position(self, user: Address) -> Seq<u64> {
        match lookup(self.positions@, user) {
            Some(v) => v@,
            None => Seq::empty(),
        }
    }

    /// Each user is stored once.
    pub closed spec fn wf(self) -> bool {
        keys_distinct(self.positions@)
    }

    /// Custody with nothing deposited.
    pub fn new() -> (r: Self)
        ensures
            r.wf(),
            forall|u: Address| #[trigger] r.position(u) == Seq::<u64>::empty(),
    {
        let r = TokenCustody { positions: Vec::new() };
        assert forall|u: Address| #[trigger] r.position(u) == Seq::<u64>::empty() by {
            lemma_lookup_absent(r.positions@, u);
        }
        r
    }

    fn find(&self, user: &Address) -> (r: Option<usize>)
        requires
            self.wf(),
        ensures
            match r {
                Some(i) => i < self.positions@.len() && self.positions@[i as int].0 == *user
                    && lookup(self.positions@, *user) == Some(self.positions@[i as int].1),
                None => lookup(self.positions@, *user) == None::<Vec<u64>> && forall|j: int|
                    0 <= j < self.positions@.len() ==> self.positions@[j].0 != *user,
            },
    {
        let mut i: usize = 0;
        while i < self.positions.len()
            invariant
                self.wf(),
                i <= self.positions@.len(),
                forall|j: int| 0 <= j < i ==> self.positions@[j].0 != *user,
            decreases self.positions@.len() - i,
        {
            if self.positions[i].0 == *user {
                proof {
                    lemma_lookup_at(self.positions@, i as int);
                }
                return Some(i);
            }
            i = i + 1;
        }
        proof {
            lemma_lookup_absent(self.positions@, *user);
        }
        None
    }

    /// Records that `user` deposited bond `bond_id`, as asked by `caller`, who
    /// must be `user`.
    pub fn deposit_bond(&mut self, caller: Address, user: Address, bond_id: u64) -> (r: Result<
        (),
        Error,
    >)
        requires
            old(self).wf(),
        ensures
            final(self).wf(),
            r == (if caller != user {
                Err(Error::Unauthorized)
            } else if old(self).position(user).len() >= u64::MAX {
                Err(Error::ArithmeticOverflow)
            } else {
                Ok(())
            }),
            r is Ok ==> final(self).position(user) == old(self).position(user).push(bond_id),
            r is Err ==> final(self).position(user) == old(self).position(user),
            forall|u: Address| u != user ==> #[trigger] final(self).position(u) == old(self).position(u),
    {
        if caller != user {
            return Err(Error::Unauthorized);
        }
        match self.find(&user) {
            Some(i) => {
                if self.positions[i].1.len() as u64 >= u64::MAX {
                    return Err(Error::ArithmeticOverflow);
                }
                let ghost s = self.positions@;
                proof {
                    lemma_lookup_remove(s, i as int);
                }
                let (key, mut bonds) = self.positions.remove(i);
                bonds.push(bond_id);
                proof {
                    let t = s.remove(i as int);
                    assert forall|j: int| 0 <= j < t.len() implies t[j].0 != key by {
                        let j2 = if j < i { j } else { j + 1 };
                        assert(t[j] == s[j2]);
                    }
                    lemma_distinct_push(t, key, bonds);
                    lemma_lookup_push(t, key, bonds);
                }
                self.positions.push((key, bonds));
            },
            None => {
                let mut bonds: Vec<u64> = Vec::new();
                bonds.push(bond_id);
                proof {
                    lemma_distinct_push(self.positions@, user, bonds);
                    lemma_lookup_push(self.positions@, user, bonds);
                    assert(bonds@ =~= Seq::<u64>::empty().push(bond_id));
                }
                self.positions.push((user, bonds));
            },
        }
        Ok(())
    }

    /// Number of bonds `user` has deposited.
    pub fn get_total_bonds_deposited(&self, user: Address) -> (r: u64)
        requires
            self.wf(),
        ensures
            r == self.position(user).len(),
    {
        match self.find(&user) {
            Some(i) => self.positions[i].1.len() as u64,
            None => 0,
        }
    }

    /// The bonds `user` has deposited, oldest first.
    pub fn get_bonds_position_custody(&self, user: Address) -> (r: Vec<u64>)
        requires
            self.wf(),
        ensures
            r@ == self.position(user),
    {
        let mut out: Vec<u64> = Vec::new();
        match self.find(&user) {
            Some(i) => {
                let held = &self.positions[i].1;
                let mut j: usize = 0;
                while j < held.len()
                    invariant
                        j <= held@.len(),
                        out@ == held@.subrange(0, j as int),
                    decreases held@.len() - j,
                {
                    out.push(held[j]);
                    j = j + 1;
                    assert(out@ =~= held@.subrange(0, j as int));
                }
                assert(out@ =~= held@);
            },
            None => {},
        }
        out
    }
}

} // verus!
