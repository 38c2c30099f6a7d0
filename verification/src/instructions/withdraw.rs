use vstd::prelude::*;
use crate::authority::{custody_address, AccountKind, DerivedAuthority};
use crate::error::ErrorCode;
use crate::ledger::Ledger;
use crate::pubkey::{lemma_view_injective, Pubkey};
use crate::state::{applied, derived_transfer, Signer, State};

verus! {

/// A request to pay out of the custody slot of `signer` to the signer's
/// wallet. `user_sub_account` is the slot that the request names; it is a
/// bare address and proves nothing.
#[derive(Clone, Copy, Debug)]
pub struct Withdraw {
    pub signer: Signer,
    pub user_sub_account: Pubkey,
}

/// The account at `address` is the custody slot of someone other than
/// `caller`.
pub open spec fn owned_by_other(s: State, address: Seq<u8>, caller: Pubkey) -> bool {
    &&& s.contains_key(address)
    &&& s[address].kind matches AccountKind::Custody { owner, .. }
    &&& owner != caller
}

/// What a withdrawal of `lamports` does to `s`, where derivation gives the
/// signer the slot `slot` at `address`: the named slot must be that one.
pub open spec fn withdraw_at(
    s: State,
    ctx: Withdraw,
    address: Seq<u8>,
    slot: AccountKind,
    lamports: u64,
) -> Result<State, ErrorCode> {
    if address != ctx.user_sub_account@ {
        Err(ErrorCode::DerivationMismatch)
    } else {
        derived_transfer(s, address, slot, ctx.signer.key@, lamports)
    }
}

/// What a withdrawal of `lamports` does to `s`. A caller who names another
/// owner's slot is turned away before any address is compared.
pub open spec fn withdraw_outcome(s: State, program_id: Pubkey, ctx: Withdraw, lamports: u64) -> Result<
    State,
    ErrorCode,
> {
    let owner = ctx.signer.key;
    if !ctx.signer.is_signer {
        Err(ErrorCode::AuthorizationFailure)
    } else if owned_by_other(s, ctx.user_sub_account@, owner) {
        Err(ErrorCode::AuthorizationFailure)
    } else {
        match custody_address(program_id, owner) {
            None => Err(ErrorCode::AuthorizationFailure),
            Some((address, bump)) => withdraw_at(
                s,
                ctx,
                address,
                AccountKind::Custody { owner, bump },
                lamports,
            ),
        }
    }
}

/// What a withdrawal of `lamports` under `authority` does to `s`. The
/// authority must be the one over the signer's own slot.
pub open spec fn withdraw_with_outcome(
    s: State,
    program_id: Pubkey,
    ctx: Withdraw,
    authority: DerivedAuthority,
    lamports: u64,
) -> Result<State, ErrorCode> {
    if !ctx.signer.is_signer {
        Err(ErrorCode::AuthorizationFailure)
    } else if owned_by_other(s, ctx.user_sub_account@, ctx.signer.key) {
        Err(ErrorCode::AuthorizationFailure)
    } else if !authority.is_custody_of(program_id, ctx.signer.key) {
        Err(ErrorCode::AuthorizationFailure)
    } else {
        withdraw_at(s, ctx, authority.address()@, authority.kind(), lamports)
    }
}

/// Pays `lamports` out of the custody slot of the signer to the signer's
/// wallet. The caller hands in the authority over the slot.
pub fn withdraw_with(
    ledger: &mut Ledger,
    ctx: &Withdraw,
    authority: &DerivedAuthority,
    lamports: u64,
) -> (result: Result<(), ErrorCode>)
    ensures
        applied(
            withdraw_with_outcome(old(ledger)@, old(ledger).program(), *ctx, *authority, lamports),
            old(ledger)@,
            result,
            final(ledger)@,
        ),
        final(ledger).program() == old(ledger).program(),
        final(ledger).total() == old(ledger).total(),
{
    if !ctx.signer.is_signer {
        return Err(ErrorCode::AuthorizationFailure);
    }
    match ledger.account_kind(&ctx.user_sub_account) {
        Some(AccountKind::Custody { owner, bump: _ }) => {
            if owner != ctx.signer.key {
                return Err(ErrorCode::AuthorizationFailure);
            }
        },
        _ => {},
    }
    let program_id = ledger.program_id();
    if !authority.governs_custody_of(&program_id, &ctx.signer.key) {
        return Err(ErrorCode::AuthorizationFailure);
    }
    proof {
        lemma_view_injective(authority.address(), ctx.user_sub_account);
    }
    if authority.key() != ctx.user_sub_account {
        return Err(ErrorCode::DerivationMismatch);
    }
    authority.sign_transfer(ledger, &ctx.signer.key, lamports)
}

/// Pays `lamports` out of the custody slot of the signer to the signer's
/// wallet, under the authority that derivation gives over the slot.
pub fn withdraw(ledger: &mut Ledger, ctx: &Withdraw, lamports: u64) -> (result: Result<
    (),
    ErrorCode,
>)
    ensures
        applied(
            withdraw_outcome(old(ledger)@, old(ledger).program(), *ctx, lamports),
            old(ledger)@,
            result,
            final(ledger)@,
        ),
        final(ledger).program() == old(ledger).program(),
        final(ledger).total() == old(ledger).total(),
{
    let program_id = ledger.program_id();
    match DerivedAuthority::custody(&program_id, &ctx.signer.key) {
        Some(authority) => withdraw_with(ledger, ctx, &authority, lamports),
        None => Err(ErrorCode::AuthorizationFailure),
    }
}

} // verus!
