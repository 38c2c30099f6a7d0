use vstd::prelude::*;
use crate::authority::{derives, AccountKind};
use crate::error::ErrorCode;
use crate::pubkey::Pubkey;

verus! {

/// What the ledger holds at one address.
pub struct AccountState {
    pub lamports: nat,
    pub kind: AccountKind,
}

/// The ledger as a map from the bytes of an address to the account there.
pub type State = Map<Seq<u8>, AccountState>;

/// The identity that a request names, and whether the request carries that
/// identity's signature.
#[derive(Clone, Copy, Debug)]
pub struct Signer {
    pub key: Pubkey,
    pub is_signer: bool,
}

/// The balance at `address`; an address without an account holds nothing.
pub open spec fn balance_of(s: State, address: Seq<u8>) -> nat {
    if s.contains_key(address) {
        s[address].lamports
    } else {
        0
    }
}

/// The kind of the account at `address`, if there is one.
pub open spec fn kind_of(s: State, address: Seq<u8>) -> Option<AccountKind> {
    if s.contains_key(address) {
        Some(s[address].kind)
    } else {
        None
    }
}

/// The account at `address` is absent or of kind `kind`.
pub open spec fn free_or(s: State, address: Seq<u8>, kind: AccountKind) -> bool {
    s.contains_key(address) ==> s[address].kind == kind
}

/// `s` with `amount` added at `address`. An address without an account
/// becomes a wallet.
pub open spec fn credited(s: State, address: Seq<u8>, amount: nat) -> State {
    if s.contains_key(address) {
        s.insert(
            address,
            AccountState { lamports: s[address].lamports + amount, kind: s[address].kind },
        )
    } else {
        s.insert(address, AccountState { lamports: amount, kind: AccountKind::Wallet })
    }
}

/// `s` with `amount` taken from the account at `address`.
pub open spec fn debited(s: State, address: Seq<u8>, amount: nat) -> State
    recommends
        s.contains_key(address),
        s[address].lamports >= amount,
{
    s.insert(
        address,
        AccountState { lamports: (s[address].lamports - amount) as nat, kind: s[address].kind },
    )
}

/// `s` after `amount` went from `from` to `to`. Moving nothing changes
/// nothing, and creates no account.
pub open spec fn moved(s: State, from: Seq<u8>, to: Seq<u8>, amount: nat) -> State
    recommends
        balance_of(s, from) >= amount,
{
    if amount == 0 {
        s
    } else {
        credited(debited(s, from, amount), to, amount)
    }
}

/// `s` with an empty slot of kind `kind` at `address`.
pub open spec fn opened(s: State, address: Seq<u8>, kind: AccountKind) -> State {
    s.insert(address, AccountState { lamports: 0, kind })
}

/// Every slot of `s` stands at the address that derivation under
/// `program_id` gives it.
pub open spec fn consistent(s: State, program_id: Pubkey) -> bool {
    forall|address: Seq<u8>| #[trigger]
        s.contains_key(address) ==> s[address].kind is Wallet || derives(
            program_id,
            s[address].kind,
            address,
        )
}

/// A transfer that the key holder of `from` signs. A derived slot has no
/// key holder, so no signature moves funds out of it.
pub open spec fn signed_transfer(s: State, from: Signer, to: Seq<u8>, lamports: u64) -> Result<
    State,
    ErrorCode,
> {
    if !from.is_signer {
        Err(ErrorCode::AuthorizationFailure)
    } else if !free_or(s, from.key@, AccountKind::Wallet) {
        Err(ErrorCode::AuthorizationFailure)
    } else if balance_of(s, from.key@) < lamports {
        Err(ErrorCode::InsufficientFunds)
    } else {
        Ok(moved(s, from.key@, to, lamports as nat))
    }
}

/// A transfer out of the slot of kind `kind` at the derived address
/// `address`. A slot that was never opened holds nothing.
pub open spec fn derived_transfer(
    s: State,
    address: Seq<u8>,
    kind: AccountKind,
    to: Seq<u8>,
    lamports: u64,
) -> Result<State, ErrorCode> {
    if !free_or(s, address, kind) {
        Err(ErrorCode::DerivationMismatch)
    } else if balance_of(s, address) < lamports {
        Err(ErrorCode::InsufficientFunds)
    } else {
        Ok(moved(s, address, to, lamports as nat))
    }
}

/// A call that started from `before` ended as `expected` prescribes: with
/// the prescribed state, or with the prescribed error and no change.
pub open spec fn applied(
    expected: Result<State, ErrorCode>,
    before: State,
    result: Result<(), ErrorCode>,
    after: State,
) -> bool {
    match expected {
        Ok(next) => result is Ok && after == next,
        Err(code) => result == Err::<(), ErrorCode>(code) && after == before,
    }
}

} // verus!
