use vstd::prelude::*;

verus! {

/// Why an operation was refused. Every refusal leaves the ledger as it was.
#[derive(Clone, Copy, Debug, PartialEq, Eq, Structural)]
pub enum ErrorCode {
    /// A debit exceeds the balance it is taken from.
    InsufficientFunds,
    /// The pool address already holds an account.
    AlreadyInitialized,
    /// A supplied account is not the one that derivation yields, or the
    /// account at a derived address is not the slot that belongs there.
    DerivationMismatch,
    /// The request is not signed by the identity it acts for, or the
    /// derivation seeds could not be reproduced.
    AuthorizationFailure,
}

} // verus!
