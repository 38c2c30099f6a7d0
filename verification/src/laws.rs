use vstd::prelude::*;
use crate::authority::{custody_address, is_derivation, AccountKind, DerivedAuthority};
use crate::error::ErrorCode;
use crate::instructions::{
    deposit_outcome, deposit_with_outcome, init_bank_outcome, init_bank_with_outcome, is_slot_of,
    join_match_outcome, join_match_with_outcome, lemma_join_with_slots, owned_by_other,
    settle_match_outcome, settle_match_with_outcome, withdraw_outcome, withdraw_with_outcome,
    Deposit, InitBank, Joinmatch, SettleMatch, Withdraw,
};
use crate::pubkey::{lemma_view_injective, Pubkey};
use crate::state::{balance_of, consistent, free_or, State};

verus! {

/// Derivation is a function of the seeds and the program: two outcomes for
/// the same inputs are the same outcome.
pub proof fn law_derivation_is_deterministic(
    seeds: Seq<Seq<u8>>,
    program_id: Pubkey,
    first: Option<(Pubkey, u8)>,
    second: Option<(Pubkey, u8)>,
)
    ensures
        is_derivation(seeds, program_id, first) && is_derivation(seeds, program_id, second)
            ==> first == second,
{
    if is_derivation(seeds, program_id, first) && is_derivation(seeds, program_id, second) {
        if let Some((a, _)) = first {
            if let Some((b, _)) = second {
                lemma_view_injective(a, b);
            }
        }
    }
}

/// On a ledger whose slots stand at their derived addresses, two custody
/// slots are at the same address exactly if they have the same owner: no
/// owner has two slots, and no slot has two owners.
pub proof fn law_one_slot_per_owner(
    s: State,
    program_id: Pubkey,
    first: Seq<u8>,
    second: Seq<u8>,
)
    ensures
        ({
            &&& consistent(s, program_id)
            &&& s.contains_key(first)
            &&& s.contains_key(second)
            &&& s[first].kind is Custody
            &&& s[second].kind is Custody
        }) ==> (first == second <==> s[first].kind->owner == s[second].kind->owner),
{
}

/// A deposit followed by a withdrawal of the same amount succeeds, and
/// leaves both the custody slot and the owner's wallet with what they held
/// before the deposit.
pub proof fn law_deposit_then_withdraw_restores(
    s: State,
    program_id: Pubkey,
    ctx: Deposit,
    lamports: u64,
)
    requires
        lamports > 0,
    ensures
        deposit_outcome(s, program_id, ctx, lamports) matches Ok(funded) ==> {
            let back = Withdraw { signer: ctx.signer, user_sub_account: ctx.user_sub_account };
            &&& withdraw_outcome(funded, program_id, back, lamports) matches Ok(restored)
            &&& balance_of(restored, ctx.user_sub_account@) == balance_of(
                s,
                ctx.user_sub_account@,
            )
            &&& balance_of(restored, ctx.signer.key@) == balance_of(s, ctx.signer.key@)
        },
{
}

/// Deposits add up: after two deposits of the same amount the custody slot
/// holds twice that amount more than before, and the wallet twice less.
pub proof fn law_deposit_is_additive(s: State, program_id: Pubkey, ctx: Deposit, lamports: u64)
    requires
        lamports > 0,
    ensures
        deposit_outcome(s, program_id, ctx, lamports) matches Ok(once) ==> {
            &&& balance_of(once, ctx.user_sub_account@) == balance_of(s, ctx.user_sub_account@)
                + lamports
            &&& deposit_outcome(once, program_id, ctx, lamports) matches Ok(twice) ==> {
                &&& balance_of(twice, ctx.user_sub_account@) == balance_of(
                    s,
                    ctx.user_sub_account@,
                ) + 2 * lamports
                &&& balance_of(twice, ctx.signer.key@) == balance_of(s, ctx.signer.key@) - 2
                    * lamports
            }
        },
{
}

/// No withdrawal takes more than the slot holds. Where the named slot holds
/// less than the amount, the withdrawal fails; where the owner signs for their
/// own slot at its derived address, it fails with `InsufficientFunds`.
pub proof fn law_withdraw_never_overdraws(
    s: State,
    program_id: Pubkey,
    ctx: Withdraw,
    lamports: u64,
)
    requires
        balance_of(s, ctx.user_sub_account@) < lamports,
    ensures
        withdraw_outcome(s, program_id, ctx, lamports) is Err,
        ({
            &&& ctx.signer.is_signer
            &&& custody_address(program_id, ctx.signer.key) matches Some((address, bump))
            &&& address == ctx.user_sub_account@
            &&& free_or(s, address, AccountKind::Custody { owner: ctx.signer.key, bump })
        }) ==> withdraw_outcome(s, program_id, ctx, lamports) == Err::<State, ErrorCode>(
            ErrorCode::InsufficientFunds,
        ),
{
}

/// A withdrawal leaves in the slot what it held less the amount, and never
/// touches the slot of anyone but the signer.
pub proof fn law_withdraw_debits_the_signer_only(
    s: State,
    program_id: Pubkey,
    ctx: Withdraw,
    lamports: u64,
    other: Seq<u8>,
)
    ensures
        withdraw_outcome(s, program_id, ctx, lamports) matches Ok(next) ==> {
            &&& balance_of(s, ctx.user_sub_account@) >= lamports
            &&& ctx.signer.key@ != ctx.user_sub_account@ ==> balance_of(
                next,
                ctx.user_sub_account@,
            ) == balance_of(s, ctx.user_sub_account@) - lamports
            &&& other != ctx.user_sub_account@ ==> balance_of(next, other) >= balance_of(
                s,
                other,
            )
        },
{
}

/// Whoever names the custody slot of another owner is refused with
/// `AuthorizationFailure`, whatever address derivation gives the caller.
pub proof fn law_withdraw_by_stranger_is_refused(
    s: State,
    program_id: Pubkey,
    ctx: Withdraw,
    lamports: u64,
)
    requires
        owned_by_other(s, ctx.user_sub_account@, ctx.signer.key),
    ensures
        withdraw_outcome(s, program_id, ctx, lamports) == Err::<State, ErrorCode>(
            ErrorCode::AuthorizationFailure,
        ),
{
}

/// An operation under the authority that derivation gives is the operation
/// that derives the authority itself: for a deposit, a withdrawal, the
/// opening of the pool and a settlement.
pub proof fn law_handing_in_the_authority_changes_nothing(
    s: State,
    program_id: Pubkey,
    slot: DerivedAuthority,
    pool: DerivedAuthority,
    into: Deposit,
    out: Withdraw,
    opening: InitBank,
    settle: SettleMatch,
    lamports: u64,
    winners: Seq<Pubkey>,
)
    ensures
        slot.derived() && slot.is_custody_of(program_id, into.signer.key) ==> deposit_with_outcome(
            s,
            program_id,
            into,
            slot,
            lamports,
        ) == deposit_outcome(s, program_id, into, lamports),
        slot.derived() && slot.is_custody_of(program_id, out.signer.key) ==> withdraw_with_outcome(
            s,
            program_id,
            out,
            slot,
            lamports,
        ) == withdraw_outcome(s, program_id, out, lamports),
        pool.derived() && pool.is_pool_of(program_id) ==> init_bank_with_outcome(
            s,
            program_id,
            opening,
            pool,
        ) == init_bank_outcome(s, program_id, opening),
        pool.derived() && pool.is_pool_of(program_id) ==> settle_match_with_outcome(
            s,
            program_id,
            settle,
            pool,
            lamports,
            winners,
        ) == settle_match_outcome(s, program_id, settle, lamports, winners),
{
}

/// Joining under the authorities that derivation gives over the pool and
/// over each participant's slot is joining with the list of participants.
pub proof fn law_joining_under_authorities_changes_nothing(
    s: State,
    program_id: Pubkey,
    ctx: Joinmatch,
    pool: DerivedAuthority,
    entry_fee: u64,
    participants: Seq<Pubkey>,
    slots: Seq<DerivedAuthority>,
)
    requires
        slots.len() == participants.len(),
    ensures
        pool.derived() && pool.is_pool_of(program_id) && (forall|i: int|
            0 <= i < slots.len() ==> is_slot_of(#[trigger] slots[i], program_id, participants[i]))
            ==> join_match_with_outcome(s, program_id, ctx, pool, entry_fee, slots)
            == join_match_outcome(s, program_id, ctx, entry_fee, participants),
{
    if pool.derived() && pool.is_pool_of(program_id) && (forall|i: int|
        0 <= i < slots.len() ==> is_slot_of(#[trigger] slots[i], program_id, participants[i])) {
        lemma_join_with_slots(s, program_id, pool.address()@, entry_fee, participants, slots);
        assert(participants.skip(slots.len() as int).len() == 0);
    }
}

} // verus!
