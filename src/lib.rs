//! Scheduled amortization and early redemption of tokenized bonds, with the
//! registries around them.
//!
//! - [`amortization`]: the settlement and redemption engine and its ledger.
//! - [`bond`]: bond terms, period arithmetic and withholding-tax tiers.
//! - [`storage`]: terms and issuer of a bond issue.
//! - [`minting`]: minting of bonds and who holds each.
//! - [`custody`]: bonds deposited per investor.
//! - [`payment_pool`]: buying newly minted bonds.

mod address;
pub mod amortization;
pub mod assoc;
pub mod bond;
pub mod custody;
mod error;
pub mod minting;
pub mod payment_pool;
pub mod storage;

pub use address::Address;
pub use amortization::{BondAmortization, LedgerEntry, LedgerKey};
pub use bond::{Bond, BondStatus};
pub use custody::TokenCustody;
pub use error::Error;
pub use minting::TokenMintingContract;
pub use payment_pool::PaymentPoolContract;
pub use storage::{BondStorage, Issuer};
