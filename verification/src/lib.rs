//! A wagering escrow over derived accounts.
//!
//! Users deposit into custody slots whose addresses are derived from their
//! identities, a match locks entry fees from those slots into one shared
//! pool, and a settlement pays the pool out to the winners. No slot has a
//! private key: funds leave a slot only under a [`DerivedAuthority`], which
//! exists only as the result of reproducing the slot's derivation.
//!
//! [`Ledger`] holds the accounts. The operations are [`deposit`],
//! [`withdraw`], [`init_bank`], [`join_match`] and [`settle_match`]; each
//! either takes full effect or leaves the ledger as it was. What each does is
//! stated over [`state::State`], the ledger as a map from addresses to
//! accounts; [`laws`] and [`batch_laws`] hold what follows for all states.

pub mod authority;
pub mod batch_laws;
pub mod constants;
pub mod error;
pub mod instructions;
pub mod laws;
pub mod ledger;
pub mod pubkey;
pub mod state;

pub use authority::{AccountKind, DerivedAuthority};
pub use error::ErrorCode;
pub use instructions::{
    deposit, deposit_with, init_bank, init_bank_with, join_match, join_match_with, settle_match,
    settle_match_with, withdraw, withdraw_with, Deposit, InitBank, Joinmatch, SettleMatch,
    Withdraw,
};
pub use ledger::Ledger;
pub use pubkey::Pubkey;
pub use state::Signer;
