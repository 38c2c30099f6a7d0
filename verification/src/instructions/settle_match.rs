use vstd::prelude::*;
use crate::authority::{bump_of, pool_address, AccountKind, DerivedAuthority};
use crate::error::ErrorCode;
use crate::ledger::Ledger;
use crate::pubkey::{lemma_view_injective, Pubkey};
use crate::state::{applied, derived_transfer, kind_of, Signer, State};

verus! {

/// A request to pay each winner a share out of the pool. `bank_account` is
/// the pool slot that the request names.
#[derive(Clone, Copy, Debug)]
pub struct SettleMatch {
    pub signer: Signer,
    pub bank_account: Pubkey,
}

/// The payments to all winners, in the order of the list, up to the first
/// that the pool cannot cover.
pub open spec fn settle_all(
    s: State,
    pool: Seq<u8>,
    bump: u8,
    per_winner_share: u64,
    winners: Seq<Pubkey>,
) -> Result<State, ErrorCode>
    decreases winners.len(),
{
    if winners.len() == 0 {
        Ok(s)
    } else {
        match derived_transfer(s, pool, AccountKind::Pool { bump }, winners[0]@, per_winner_share) {
            Ok(next) => settle_all(next, pool, bump, per_winner_share, winners.skip(1)),
            Err(code) => Err(code),
        }
    }
}

/// What settling a match does to `s`, where derivation puts the pool at
/// `pool` with the nonce `bump`. The named slot must be that one, and the
/// pool must have been opened.
pub open spec fn settle_at(
    s: State,
    ctx: SettleMatch,
    pool: Seq<u8>,
    bump: u8,
    per_winner_share: u64,
    winners: Seq<Pubkey>,
) -> Result<State, ErrorCode> {
    if pool != ctx.bank_account@ {
        Err(ErrorCode::DerivationMismatch)
    } else if kind_of(s, pool) != Some(AccountKind::Pool { bump }) {
        Err(ErrorCode::DerivationMismatch)
    } else {
        settle_all(s, pool, bump, per_winner_share, winners)
    }
}

/// What settling a match does to `s`.
pub open spec fn settle_match_outcome(
    s: State,
    program_id: Pubkey,
    ctx: SettleMatch,
    per_winner_share: u64,
    winners: Seq<Pubkey>,
) -> Result<State, ErrorCode> {
    if !ctx.signer.is_signer {
        Err(ErrorCode::AuthorizationFailure)
    } else {
        match pool_address(program_id) {
            None => Err(ErrorCode::AuthorizationFailure),
            Some((pool, bump)) => settle_at(s, ctx, pool, bump, per_winner_share, winners),
        }
    }
}

/// What settling a match under `authority` does to `s`. The authority must
/// be the one over the pool.
pub open spec fn settle_match_with_outcome(
    s: State,
    program_id: Pubkey,
    ctx: SettleMatch,
    authority: DerivedAuthority,
    per_winner_share: u64,
    winners: Seq<Pubkey>,
) -> Result<State, ErrorCode> {
    if !ctx.signer.is_signer {
        Err(ErrorCode::AuthorizationFailure)
    } else if !authority.is_pool_of(program_id) {
        Err(ErrorCode::AuthorizationFailure)
    } else {
        settle_at(
            s,
            ctx,
            authority.address()@,
            bump_of(authority.kind()),
            per_winner_share,
            winners,
        )
    }
}

/// Pays `per_winner_share` out of the pool to each winner: to all of them,
/// or on the first failure to none. The caller hands in the authority over
/// the pool.
pub fn settle_match_with(
    ledger: &mut Ledger,
    ctx: &SettleMatch,
    authority: &DerivedAuthority,
    per_winner_share: u64,
    winners: &Vec<Pubkey>,
) -> (result: Result<(), ErrorCode>)
    ensures
        applied(
            settle_match_with_outcome(
                old(ledger)@,
                old(ledger).program(),
                *ctx,
                *authority,
                per_winner_share,
                winners@,
            ),
            old(ledger)@,
            result,
            final(ledger)@,
        ),
        result is Err ==> final(ledger)@ == old(ledger)@,
        final(ledger).program() == old(ledger).program(),
        final(ledger).total() == old(ledger).total(),
{
    if !ctx.signer.is_signer {
        return Err(ErrorCode::AuthorizationFailure);
    }
    let program_id = ledger.program_id();
    if !authority.governs_pool_of(&program_id) {
        return Err(ErrorCode::AuthorizationFailure);
    }
    let pool = authority.key();
    proof {
        lemma_view_injective(pool, ctx.bank_account);
    }
    if pool != ctx.bank_account {
        return Err(ErrorCode::DerivationMismatch);
    }
    match ledger.account_kind(&pool) {
        Some(kind) => {
            if kind != authority.account_kind() {
                return Err(ErrorCode::DerivationMismatch);
            }
        },
        None => {
            return Err(ErrorCode::DerivationMismatch);
        },
    }
    let ghost bump = bump_of(authority.kind());
    let ghost expected = settle_all(ledger@, pool@, bump, per_winner_share, winners@);
    let mut staged = ledger.snapshot();
    proof {
        assert(winners@.skip(0) =~= winners@);
    }
    let mut i: usize = 0;
    while i < winners.len()
        invariant
            i <= winners@.len(),
            *ledger == *old(ledger),
            program_id == ledger.program(),
            staged.program() == program_id,
            staged.total() == ledger.total(),
            authority.program() == program_id,
            authority.address() == pool,
            authority.kind() == (AccountKind::Pool { bump }),
            expected == settle_match_with_outcome(
                ledger@,
                program_id,
                *ctx,
                *authority,
                per_winner_share,
                winners@,
            ),
            settle_all(staged@, pool@, bump, per_winner_share, winners@.skip(i as int))
                == expected,
        decreases winners@.len() - i,
    {
        let ghost rest = winners@.skip(i as int);
        proof {
            assert(rest[0] == winners@[i as int]);
            assert(rest.skip(1) =~= winners@.skip(i + 1));
        }
        match authority.sign_transfer(&mut staged, &winners[i], per_winner_share) {
            Ok(()) => {},
            Err(code) => {
                return Err(code);
            },
        }
        i += 1;
    }
    proof {
        assert(winners@.skip(i as int).len() == 0);
    }
    *ledger = staged;
    Ok(())
}

/// Pays `per_winner_share` out of the pool to each winner: to all of them,
/// or on the first failure to none.
pub fn settle_match(
    ledger: &mut Ledger,
    ctx: &SettleMatch,
    per_winner_share: u64,
    winners: &Vec<Pubkey>,
) -> (result: Result<(), ErrorCode>)
    ensures
        applied(
            settle_match_outcome(
                old(ledger)@,
                old(ledger).program(),
                *ctx,
                per_winner_share,
                winners@,
            ),
            old(ledger)@,
            result,
            final(ledger)@,
        ),
        result is Err ==> final(ledger)@ == old(ledger)@,
        final(ledger).program() == old(ledger).program(),
        final(ledger).total() == old(ledger).total(),
{
    let program_id = ledger.program_id();
    match DerivedAuthority::pool(&program_id) {
        Some(authority) => settle_match_with(ledger, ctx, &authority, per_winner_share, winners),
        None => Err(ErrorCode::AuthorizationFailure),
    }
}

} // verus!
