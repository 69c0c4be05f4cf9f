//! Utilities for a ledger-style application: a fixed-point currency amount
//! (`Amount`) and a checksummed, base-58 encoded wallet address
//! (`WalletAddress`), together with a free-text postal address record and a
//! relationship classification.

use vstd::prelude::*;

pub mod amount;
pub mod decimal;
pub mod location;
pub mod relations;
pub mod text;
pub mod wallet_address;

pub use amount::Amount;
pub use location::Address;
pub use wallet_address::{WalletAddress, WALLET_ADDRESS_LEN};

verus! {

/// The symbol of the currency.
///
/// This symbol should be used whenever an amount of currency has to be
/// represented in user-facing output. It is a dotted lunate sigma.
pub const CURRENCY_SYMBOL: char = '\u{03FE}';

} // verus!
