use vstd::prelude::*;

verus! {

/// Why a call was rejected. A rejected call changes no state.
#[derive(Clone, Copy, Debug, PartialEq, Eq, Structural)]
pub enum Error {
    /// The caller is not the party allowed to make this call.
    Unauthorized,
    /// The bond registry holds no bond under the given id.
    BondNotFound,
    /// The bond's investor of record is the null address.
    InvalidInvestor,
    /// Every scheduled period of the bond has already been paid.
    AlreadyFullyAmortized,
    /// Not one full period has passed since the last settlement.
    NoPeriodElapsed,
    /// An early redemption at or before the last settlement time.
    InvalidRedemptionTime,
    /// An amount or a count does not fit in its integer type.
    ArithmeticOverflow,
    /// A request to mint no bonds.
    InvalidQuantity,
    /// A request to mint more bonds than the supply has left.
    SupplyExceeded,
    /// Minting before the terms of new bonds were set.
    BondTemplateMissing,
}

} // verus!
