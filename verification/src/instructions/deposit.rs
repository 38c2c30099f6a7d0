use vstd::prelude::*;
use crate::authority::{custody_address, AccountKind, DerivedAuthority};
use crate::error::ErrorCode;
use crate::ledger::Ledger;
use crate::pubkey::{lemma_view_injective, Pubkey};
use crate::state::{applied, balance_of, free_or, moved, opened, Signer, State};

verus! {

/// A request to credit the custody slot of `signer` from the signer's
/// wallet. `user_sub_account` is the slot that the request names.
#[derive(Clone, Copy, Debug)]
pub struct Deposit {
    pub signer: Signer,
    pub user_sub_account: Pubkey,
}

/// What a signed deposit of `lamports` does to `s`, where derivation gives
/// the signer the slot `slot` at `address`. The slot is opened on the first
/// deposit; an account of another kind at its address is never taken over.
pub open spec fn deposit_at(
    s: State,
    ctx: Deposit,
    address: Seq<u8>,
    slot: AccountKind,
    lamports: u64,
) -> Result<State, ErrorCode> {
    let owner = ctx.signer.key;
    if address != ctx.user_sub_account@ {
        Err(ErrorCode::DerivationMismatch)
    } else if !free_or(s, address, slot) {
        Err(ErrorCode::DerivationMismatch)
    } else if !free_or(s, owner@, AccountKind::Wallet) {
        Err(ErrorCode::AuthorizationFailure)
    } else if balance_of(s, owner@) < lamports {
        Err(ErrorCode::InsufficientFunds)
    } else if s.contains_key(address) {
        Ok(moved(s, owner@, address, lamports as nat))
    } else {
        Ok(moved(opened(s, address, slot), owner@, address, lamports as nat))
    }
}

/// What a deposit of `lamports` does to `s`.
pub open spec fn deposit_outcome(s: State, program_id: Pubkey, ctx: Deposit, lamports: u64) -> Result<
    State,
    ErrorCode,
> {
    let owner = ctx.signer.key;
    if !ctx.signer.is_signer {
        Err(ErrorCode::AuthorizationFailure)
    } else {
        match custody_address(program_id, owner) {
            None => Err(ErrorCode::AuthorizationFailure),
            Some((address, bump)) => deposit_at(
                s,
                ctx,
                address,
                AccountKind::Custody { owner, bump },
                lamports,
            ),
        }
    }
}

/// What a deposit of `lamports` under `authority` does to `s`. The
/// authority must be the one over the signer's own slot.
pub open spec fn deposit_with_outcome(
    s: State,
    program_id: Pubkey,
    ctx: Deposit,
    authority: DerivedAuthority,
    lamports: u64,
) -> Result<State, ErrorCode> {
    if !ctx.signer.is_signer {
        Err(ErrorCode::AuthorizationFailure)
    } else if !authority.is_custody_of(program_id, ctx.signer.key) {
        Err(ErrorCode::AuthorizationFailure)
    } else {
        deposit_at(s, ctx, authority.address()@, authority.kind(), lamports)
    }
}

/// Credits the custody slot of the signer with `lamports` from the signer's
/// wallet, opening the slot if this is the first deposit. The caller hands
/// in the authority over the slot.
pub fn deposit_with(
    ledger: &mut Ledger,
    ctx: &Deposit,
    authority: &DerivedAuthority,
    lamports: u64,
) -> (result: Result<(), ErrorCode>)
    requires
        lamports > 0,
    ensures
        applied(
            deposit_with_outcome(old(ledger)@, old(ledger).program(), *ctx, *authority, lamports),
            old(ledger)@,
            result,
            final(ledger)@,
        ),
        final(ledger).program() == old(ledger).program(),
        final(ledger).total() == old(ledger).total(),
{
    if !ctx.signer.is_signer {
        return Err(ErrorCode::AuthorizationFailure);
    }
    let program_id = ledger.program_id();
    if !authority.governs_custody_of(&program_id, &ctx.signer.key) {
        return Err(ErrorCode::AuthorizationFailure);
    }
    let address = authority.key();
    proof {
        lemma_view_injective(address, ctx.user_sub_account);
    }
    if address != ctx.user_sub_account {
        return Err(ErrorCode::DerivationMismatch);
    }
    let slot = ledger.account_kind(&address);
    match slot {
        Some(kind) => {
            if kind != authority.account_kind() {
                return Err(ErrorCode::DerivationMismatch);
            }
        },
        None => {},
    }
    match ledger.account_kind(&ctx.signer.key) {
        Some(kind) => {
            if kind != AccountKind::Wallet {
                return Err(ErrorCode::AuthorizationFailure);
            }
        },
        None => {},
    }
    if ledger.balance(&ctx.signer.key) < lamports {
        return Err(ErrorCode::InsufficientFunds);
    }
    if slot.is_none() {
        match ledger.create_account(authority) {
            Ok(()) => {},
            Err(code) => {
                return Err(code);
            },
        }
    }
    ledger.transfer(&ctx.signer, &address, lamports)
}

/// Credits the custody slot of the signer with `lamports` from the signer's
/// wallet, opening the slot if this is the first deposit.
pub fn deposit(ledger: &mut Ledger, ctx: &Deposit, lamports: u64) -> (result: Result<(), ErrorCode>)
    requires
        lamports > 0,
    ensures
        applied(
            deposit_outcome(old(ledger)@, old(ledger).program(), *ctx, lamports),
            old(ledger)@,
            result,
            final(ledger)@,
        ),
        final(ledger).program() == old(ledger).program(),
        final(ledger).total() == old(ledger).total(),
{
    let program_id = ledger.program_id();
    match DerivedAuthority::custody(&program_id, &ctx.signer.key) {
        Some(authority) => deposit_with(ledger, ctx, &authority, lamports),
        None => Err(ErrorCode::AuthorizationFailure),
    }
}

} // verus!
