//! Turns a payment into newly minted bonds.

use vstd::prelude::*;
use crate::address::Address;
use crate::bond::{div_toward_zero, quot};
use crate::custody::TokenCustody;
use crate::error::Error;
use crate::minting::{id_run, TokenMintingContract};

verus! {

/// Entry point through which an investor buys newly issued bonds.
pub struct PaymentPoolContract {}

/// How many whole bonds of face value `denomination` a payment of `amount`
/// buys.
pub open spec fn bonds_bought(amount: i128, denomination: i128) -> int {
    quot(amount as int, denomination as int)
}

impl PaymentPoolContract {
    pub fn initialize() -> Self {
        PaymentPoolContract {}
    }

    /// Why a payment of `amount` by `payer` is rejected before minting, if
    /// it is: whole bonds must be bought, at most as many as a `u64` counts.
    pub open spec fn payment_error(caller: Address, payer: Address, amount: i128, denomination: i128) -> Option<Error> {
        if caller != payer {
            Some(Error::Unauthorized)
        } else if denomination <= 0 || amount < denomination {
            Some(Error::InvalidQuantity)
        } else if bonds_bought(amount, denomination) > u64::MAX {
            Some(Error::SupplyExceeded)
        } else {
            None
        }
    }

    /// Mints, for `payer`, as many bonds of face value `denomination` as
    /// `amount` pays for in whole, and deposits them into `custody`. The
    /// payment itself is settled elsewhere before this call.
    pub fn deposit_usdc(
        &self,
        minting: &mut TokenMintingContract,
        custody: &mut TokenCustody,
        caller: Address,
        payer: Address,
        amount: i128,
        denomination: i128,
        now: u64,
    ) -> (r: Result<(), Error>)
        requires
            old(minting).wf(),
            old(custody).wf(),
        ensures
            final(minting).wf(),
            final(custody).wf(),
            Self::payment_error(caller, payer, amount, denomination) is Some ==> r == Err::<(), Error>(
                Self::payment_error(caller, payer, amount, denomination)->0,
            ) && *final(minting) == *old(minting) && *final(custody) == *old(custody),
            Self::payment_error(caller, payer, amount, denomination) is None ==> ({
                let n = bonds_bought(amount, denomination) as u64;
                let first: int = old(minting).issued() as int + 1;
                &&& r == (match old(minting).mint_error(*old(custody), caller, payer, n, now) {
                    Some(e) => Err(e),
                    None => Ok(()),
                })
                &&& r is Err ==> *final(minting) == *old(minting) && *final(custody) == *old(custody)
                &&& r is Ok ==> final(minting).issued() == old(minting).issued() + n
                    && final(minting).holdings(payer) == old(minting).holdings(payer) + id_run(first, n as int)
                    && final(custody).position(payer) == old(custody).position(payer) + id_run(first, n as int)
            }),
    {
        if caller != payer {
            return Err(Error::Unauthorized);
        }
        if denomination <= 0 || amount < denomination {
            return Err(Error::InvalidQuantity);
        }
        let bonds = div_toward_zero(amount, denomination);
        if bonds as u128 > u64::MAX as u128 {
            return Err(Error::SupplyExceeded);
        }
        minting.mint_tokens(custody, caller, payer, bonds as u64, now)
    }
}

} // verus!
