use vstd::prelude::*;
use crate::authority::{pool_address, AccountKind, DerivedAuthority};
use crate::error::ErrorCode;
use crate::ledger::Ledger;
use crate::pubkey::{lemma_view_injective, Pubkey};
use crate::state::{applied, opened, Signer, State};

verus! {

/// A request to open the pool slot. `bank_account` is the slot that the
/// request names.
#[derive(Clone, Copy, Debug)]
pub struct InitBank {
    pub admin: Signer,
    pub bank_account: Pubkey,
}

/// What opening the pool does to `s`, where derivation puts the pool slot
/// `slot` at `address`. An account of any kind at that address ends every
/// attempt.
pub open spec fn init_bank_at(s: State, ctx: InitBank, address: Seq<u8>, slot: AccountKind) -> Result<
    State,
    ErrorCode,
> {
    if address != ctx.bank_account@ {
        Err(ErrorCode::DerivationMismatch)
    } else if s.contains_key(address) {
        Err(ErrorCode::AlreadyInitialized)
    } else {
        Ok(opened(s, address, slot))
    }
}

/// What opening the pool does to `s`. Whoever signs may open it, once.
pub open spec fn init_bank_outcome(s: State, program_id: Pubkey, ctx: InitBank) -> Result<
    State,
    ErrorCode,
> {
    if !ctx.admin.is_signer {
        Err(ErrorCode::AuthorizationFailure)
    } else {
        match pool_address(program_id) {
            None => Err(ErrorCode::AuthorizationFailure),
            Some((address, bump)) => init_bank_at(s, ctx, address, AccountKind::Pool { bump }),
        }
    }
}

/// What opening the pool under `authority` does to `s`. The authority must
/// be the one over the pool.
pub open spec fn init_bank_with_outcome(
    s: State,
    program_id: Pubkey,
    ctx: InitBank,
    authority: DerivedAuthority,
) -> Result<State, ErrorCode> {
    if !ctx.admin.is_signer {
        Err(ErrorCode::AuthorizationFailure)
    } else if !authority.is_pool_of(program_id) {
        Err(ErrorCode::AuthorizationFailure)
    } else {
        init_bank_at(s, ctx, authority.address()@, authority.kind())
    }
}

/// Opens the pool slot, empty. The caller hands in the authority over the
/// pool.
pub fn init_bank_with(ledger: &mut Ledger, ctx: &InitBank, authority: &DerivedAuthority) -> (result:
    Result<(), ErrorCode>)
    ensures
        applied(
            init_bank_with_outcome(old(ledger)@, old(ledger).program(), *ctx, *authority),
            old(ledger)@,
            result,
            final(ledger)@,
        ),
        final(ledger).program() == old(ledger).program(),
        final(ledger).total() == old(ledger).total(),
{
    if !ctx.admin.is_signer {
        return Err(ErrorCode::AuthorizationFailure);
    }
    let program_id = ledger.program_id();
    if !authority.governs_pool_of(&program_id) {
        return Err(ErrorCode::AuthorizationFailure);
    }
    proof {
        lemma_view_injective(authority.address(), ctx.bank_account);
    }
    if authority.key() != ctx.bank_account {
        return Err(ErrorCode::DerivationMismatch);
    }
    ledger.create_account(authority)
}

/// Opens the pool slot, empty.
pub fn init_bank(ledger: &mut Ledger, ctx: &InitBank) -> (result: Result<(), ErrorCode>)
    ensures
        applied(
            init_bank_outcome(old(ledger)@, old(ledger).program(), *ctx),
            old(ledger)@,
            result,
            final(ledger)@,
        ),
        final(ledger).program() == old(ledger).program(),
        final(ledger).total() == old(ledger).total(),
{
    let program_id = ledger.program_id();
    match DerivedAuthority::pool(&program_id) {
        Some(authority) => init_bank_with(ledger, ctx, &authority),
        None => Err(ErrorCode::AuthorizationFailure),
    }
}

} // verus!
