//! The registry of one bond issue: its terms and its issuer, set by a manager.

use vstd::prelude::*;
use crate::address::Address;
use crate::bond::Bond;
use crate::error::Error;

verus! {

/// The institution that issues a bond, with its registration numbers.
#[derive(Clone, Debug)]
pub struct Issuer {
    pub institution: Address,
    /// National company registration number.
    pub cnpj: String,
    /// Legal entity identifier.
    pub lei: String,
}

impl Issuer {
    fn duplicate(&self) -> (r: Issuer)
        ensures
            r == *self,
    {
        Issuer { institution: self.institution, cnpj: self.cnpj.clone(), lei: self.lei.clone() }
    }
}

/// Terms and issuer of a bond issue. Only the manager named at creation may
/// change them; each stays unset until the manager first sets it.
pub struct BondStorage {
    manager: Address,
    bond: Option<Bond>,
    issuer: Option<Issuer>,
}

impl BondStorage {
    /// The party allowed to set terms and issuer.
    pub closed spec fn manager(self) -> Address {
        self.manager
    }

    /// The bond's terms, once set.
    pub closed spec fn stored_bond(self) -> Option<Bond> {
        self.bond
    }

    /// The issuer, once set.
    pub closed spec fn stored_issuer(self) -> Option<Issuer> {
        self.issuer
    }

    /// A registry managed by `manager`, with no terms and no issuer yet.
    pub fn initialize(manager: Address) -> (r: BondStorage)
        ensures
            r.manager() == manager,
            r.stored_bond() is None,
            r.stored_issuer() is None,
    {
        BondStorage { manager, bond: None, issuer: None }
    }

    /// Sets the bond's terms, as asked by `caller`, who must be the manager.
    pub fn set_bond(&mut self, caller: Address, bond: Bond) -> (r: Result<(), Error>)
        ensures
            r == (if caller == old(self).manager() {
                Ok::<(), Error>(())
            } else {
                Err(Error::Unauthorized)
            }),
            r is Ok ==> final(self).stored_bond() == Some(bond),
            r is Err ==> final(self).stored_bond() == old(self).stored_bond(),
            final(self).stored_issuer() == old(self).stored_issuer(),
            final(self).manager() == old(self).manager(),
    {
        if caller != self.manager {
            return Err(Error::Unauthorized);
        }
        self.bond = Some(bond);
        Ok(())
    }

    /// Sets the issuer, as asked by `caller`, who must be the manager.
    pub fn set_issuer(&mut self, caller: Address, issuer: Issuer) -> (r: Result<(), Error>)
        ensures
            r == (if caller == old(self).manager() {
                Ok::<(), Error>(())
            } else {
                Err(Error::Unauthorized)
            }),
            r is Ok ==> final(self).stored_issuer() == Some(issuer),
            r is Err ==> final(self).stored_issuer() == old(self).stored_issuer(),
            final(self).stored_bond() == old(self).stored_bond(),
            final(self).manager() == old(self).manager(),
    {
        if caller != self.manager {
            return Err(Error::Unauthorized);
        }
        self.issuer = Some(issuer);
        Ok(())
    }

    /// The issuer, once set.
    pub fn issuer_info(&self) -> (r: Option<Issuer>)
        ensures
            r == self.stored_issuer(),
    {
        match &self.issuer {
            Some(i) => Some(i.duplicate()),
            None => None,
        }
    }

    /// The issuing institution, once the issuer is set.
    pub fn institution(&self) -> (r: Option<Address>)
        ensures
            r == (match self.stored_issuer() {
                Some(i) => Some(i.institution),
                None => None,
            }),
    {
        match &self.issuer {
            Some(i) => Some(i.institution),
            None => None,
        }
    }

    /// The issuer's company registration number, once the issuer is set.
    pub fn cnpj(&self) -> (r: Option<String>)
        ensures
            r == (match self.stored_issuer() {
                Some(i) => Some(i.cnpj),
                None => None,
            }),
    {
        match &self.issuer {
            Some(i) => Some(i.cnpj.clone()),
            None => None,
        }
    }

    /// The issuer's legal entity identifier, once the issuer is set.
    pub fn lei(&self) -> (r: Option<String>)
        ensures
            r == (match self.stored_issuer() {
                Some(i) => Some(i.lei),
                None => None,
            }),
    {
        match &self.issuer {
            Some(i) => Some(i.lei.clone()),
            None => None,
        }
    }

    /// The bond's terms, once set.
    pub fn bond_info(&self) -> (r: Option<Bond>)
        ensures
            r == self.stored_bond(),
    {
        self.bond
    }

    pub fn currency(&self) -> (r: Option<Address>)
        ensures
            r == (match self.stored_bond() {
                Some(b) => Some(b.currency),
                None => None,
            }),
    {
        match self.bond {
            Some(b) => Some(b.currency),
            None => None,
        }
    }

    pub fn denomination(&self) -> (r: Option<i128>)
        ensures
            r == (match self.stored_bond() {
                Some(b) => Some(b.denomination),
                None => None,
            }),
    {
        match self.bond {
            Some(b) => Some(b.denomination),
            None => None,
        }
    }

    pub fn frequency(&self) -> (r: Option<u32>)
        ensures
            r == (match self.stored_bond() {
                Some(b) => Some(b.frequency),
                None => None,
            }),
    {
        match self.bond {
            Some(b) => Some(b.frequency),
            None => None,
        }
    }

    pub fn interest_rate(&self) -> (r: Option<u32>)
        ensures
            r == (match self.stored_bond() {
                Some(b) => Some(b.interest_rate),
                None => None,
            }),
    {
        match self.bond {
            Some(b) => Some(b.interest_rate),
            None => None,
        }
    }

    pub fn issue_date(&self) -> (r: Option<u64>)
        ensures
            r == (match self.stored_bond() {
                Some(b) => Some(b.issue_date),
                None => None,
            }),
    {
        match self.bond {
            Some(b) => Some(b.issue_date),
            None => None,
        }
    }

    pub fn maturity_date(&self) -> (r: Option<u64>)
        ensures
            r == (match self.stored_bond() {
                Some(b) => Some(b.maturity_date),
                None => None,
            }),
    {
        match self.bond {
            Some(b) => Some(b.maturity_date),
            None => None,
        }
    }
}

} // verus!
