use vstd::prelude::*;
use crate::authority::{custody_address, pool_address, AccountKind, DerivedAuthority};
use crate::error::ErrorCode;
use crate::ledger::Ledger;
use crate::pubkey::{lemma_view_injective, Pubkey};
use crate::state::{applied, derived_transfer, kind_of, Signer, State};

verus! {

/// A request to lock the entry fee of each participant into the pool.
/// `bank_account` is the pool slot that the request names.
#[derive(Clone, Copy, Debug)]
pub struct Joinmatch {
    pub signer: Signer,
    pub bank_account: Pubkey,
}

/// One participant's entry: `entry_fee` goes from the participant's custody
/// slot to the pool.
pub open spec fn join_step(
    s: State,
    program_id: Pubkey,
    pool: Seq<u8>,
    entry_fee: u64,
    participant: Pubkey,
) -> Result<State, ErrorCode> {
    match custody_address(program_id, participant) {
        None => Err(ErrorCode::AuthorizationFailure),
        Some((address, bump)) => derived_transfer(
            s,
            address,
            AccountKind::Custody { owner: participant, bump },
            pool,
            entry_fee,
        ),
    }
}

/// The entries of all participants, in the order of the list, up to the
/// first that fails.
pub open spec fn join_all(
    s: State,
    program_id: Pubkey,
    pool: Seq<u8>,
    entry_fee: u64,
    participants: Seq<Pubkey>,
) -> Result<State, ErrorCode>
    decreases participants.len(),
{
    if participants.len() == 0 {
        Ok(s)
    } else {
        match join_step(s, program_id, pool, entry_fee, participants[0]) {
            Ok(next) => join_all(next, program_id, pool, entry_fee, participants.skip(1)),
            Err(code) => Err(code),
        }
    }
}

/// What joining a match does to `s`. The named slot must be the pool, and
/// the pool must have been opened.
pub open spec fn join_match_outcome(
    s: State,
    program_id: Pubkey,
    ctx: Joinmatch,
    entry_fee: u64,
    participants: Seq<Pubkey>,
) -> Result<State, ErrorCode> {
    if !ctx.signer.is_signer {
        Err(ErrorCode::AuthorizationFailure)
    } else {
        match pool_address(program_id) {
            None => Err(ErrorCode::AuthorizationFailure),
            Some((pool, bump)) => {
                if pool != ctx.bank_account@ {
                    Err(ErrorCode::DerivationMismatch)
                } else if kind_of(s, pool) != Some(AccountKind::Pool { bump }) {
                    Err(ErrorCode::DerivationMismatch)
                } else {
                    join_all(s, program_id, pool, entry_fee, participants)
                }
            },
        }
    }
}

/// One entry under the authority `slot`, which must be over a custody slot
/// of the ledger's program.
pub open spec fn join_with_step(
    s: State,
    program_id: Pubkey,
    pool: Seq<u8>,
    entry_fee: u64,
    slot: DerivedAuthority,
) -> Result<State, ErrorCode> {
    if slot.program() != program_id || !(slot.kind() is Custody) {
        Err(ErrorCode::AuthorizationFailure)
    } else {
        derived_transfer(s, slot.address()@, slot.kind(), pool, entry_fee)
    }
}

/// The entries under all of `slots`, in the order of the list, up to the
/// first that fails.
pub open spec fn join_with_all(
    s: State,
    program_id: Pubkey,
    pool: Seq<u8>,
    entry_fee: u64,
    slots: Seq<DerivedAuthority>,
) -> Result<State, ErrorCode>
    decreases slots.len(),
{
    if slots.len() == 0 {
        Ok(s)
    } else {
        match join_with_step(s, program_id, pool, entry_fee, slots[0]) {
            Ok(next) => join_with_all(next, program_id, pool, entry_fee, slots.skip(1)),
            Err(code) => Err(code),
        }
    }
}

/// What joining a match does to `s`, where `pool` is the authority over the
/// pool and `slots` are the authorities over the participants' slots.
pub open spec fn join_match_with_outcome(
    s: State,
    program_id: Pubkey,
    ctx: Joinmatch,
    pool: DerivedAuthority,
    entry_fee: u64,
    slots: Seq<DerivedAuthority>,
) -> Result<State, ErrorCode> {
    if !ctx.signer.is_signer {
        Err(ErrorCode::AuthorizationFailure)
    } else if !pool.is_pool_of(program_id) {
        Err(ErrorCode::AuthorizationFailure)
    } else if pool.address()@ != ctx.bank_account@ {
        Err(ErrorCode::DerivationMismatch)
    } else if kind_of(s, pool.address()@) != Some(pool.kind()) {
        Err(ErrorCode::DerivationMismatch)
    } else {
        join_with_all(s, program_id, pool.address()@, entry_fee, slots)
    }
}

/// `slot` is the authority that derivation under `program_id` gives over
/// the custody slot of `owner`.
pub open spec fn is_slot_of(slot: DerivedAuthority, program_id: Pubkey, owner: Pubkey) -> bool {
    slot.derived() && slot.is_custody_of(program_id, owner)
}

/// The entries of the participants whose slots are at hand are the entries
/// under those slots; the entries of the others follow.
pub(crate) proof fn lemma_join_with_slots(
    s: State,
    program_id: Pubkey,
    pool: Seq<u8>,
    entry_fee: u64,
    participants: Seq<Pubkey>,
    slots: Seq<DerivedAuthority>,
)
    requires
        slots.len() <= participants.len(),
        forall|i: int|
            0 <= i < slots.len() ==> is_slot_of(#[trigger] slots[i], program_id, participants[i]),
    ensures
        join_all(s, program_id, pool, entry_fee, participants) == (match join_with_all(
            s,
            program_id,
            pool,
            entry_fee,
            slots,
        ) {
            Ok(next) => join_all(
                next,
                program_id,
                pool,
                entry_fee,
                participants.skip(slots.len() as int),
            ),
            Err(code) => Err(code),
        }),
    decreases slots.len(),
{
    if slots.len() == 0 {
        assert(participants.skip(0) =~= participants);
    } else {
        assert(is_slot_of(slots[0], program_id, participants[0]));
        assert(join_with_step(s, program_id, pool, entry_fee, slots[0]) == join_step(
            s,
            program_id,
            pool,
            entry_fee,
            participants[0],
        ));
        if let Ok(next) = join_step(s, program_id, pool, entry_fee, participants[0]) {
            let rest = participants.skip(1);
            let others = slots.skip(1);
            assert forall|i: int| 0 <= i < others.len() implies is_slot_of(
                #[trigger] others[i],
                program_id,
                rest[i],
            ) by {
                assert(others[i] == slots[i + 1]);
                assert(rest[i] == participants[i + 1]);
            }
            lemma_join_with_slots(next, program_id, pool, entry_fee, rest, others);
            assert(rest.skip(others.len() as int) =~= participants.skip(slots.len() as int));
        }
    }
}

/// Locks `entry_fee` out of each of `slots` into the pool: out of all of
/// them, or on the first failure out of none. The caller hands in the
/// authorities over the pool and over the participants' slots.
pub fn join_match_with(
    ledger: &mut Ledger,
    ctx: &Joinmatch,
    pool: &DerivedAuthority,
    entry_fee: u64,
    slots: &Vec<DerivedAuthority>,
) -> (result: Result<(), ErrorCode>)
    ensures
        applied(
            join_match_with_outcome(
                old(ledger)@,
                old(ledger).program(),
                *ctx,
                *pool,
                entry_fee,
                slots@,
            ),
            old(ledger)@,
            result,
            final(ledger)@,
        ),
        result is Err ==> final(ledger)@ == old(ledger)@,
        final(ledger).program() == old(ledger).program(),
        final(ledger).total() == old(ledger).total(),
{
    if !ctx.signer.is_signer {
        return Err(ErrorCode::AuthorizationFailure);
    }
    let program_id = ledger.program_id();
    if !pool.governs_pool_of(&program_id) {
        return Err(ErrorCode::AuthorizationFailure);
    }
    let pool_key = pool.key();
    proof {
        lemma_view_injective(pool_key, ctx.bank_account);
    }
    if pool_key != ctx.bank_account {
        return Err(ErrorCode::DerivationMismatch);
    }
    match ledger.account_kind(&pool_key) {
        Some(kind) => {
            if kind != pool.account_kind() {
                return Err(ErrorCode::DerivationMismatch);
            }
        },
        None => {
            return Err(ErrorCode::DerivationMismatch);
        },
    }
    let ghost expected = join_with_all(ledger@, program_id, pool_key@, entry_fee, slots@);
    let mut staged = ledger.snapshot();
    proof {
        assert(slots@.skip(0) =~= slots@);
    }
    let mut i: usize = 0;
    while i < slots.len()
        invariant
            i <= slots@.len(),
            *ledger == *old(ledger),
            program_id == ledger.program(),
            staged.program() == program_id,
            staged.total() == ledger.total(),
            expected == join_match_with_outcome(
                ledger@,
                program_id,
                *ctx,
                *pool,
                entry_fee,
                slots@,
            ),
            join_with_all(staged@, program_id, pool_key@, entry_fee, slots@.skip(i as int))
                == expected,
        decreases slots@.len() - i,
    {
        let ghost rest = slots@.skip(i as int);
        proof {
            assert(rest[0] == slots@[i as int]);
            assert(rest.skip(1) =~= slots@.skip(i + 1));
        }
        let slot = &slots[i];
        let custody = match slot.account_kind() {
            AccountKind::Custody { owner: _, bump: _ } => true,
            _ => false,
        };
        if slot.program_id() != program_id || !custody {
            return Err(ErrorCode::AuthorizationFailure);
        }
        match slot.sign_transfer(&mut staged, &pool_key, entry_fee) {
            Ok(()) => {},
            Err(code) => {
                return Err(code);
            },
        }
        i += 1;
    }
    proof {
        assert(slots@.skip(i as int).len() == 0);
    }
    *ledger = staged;
    Ok(())
}

/// Locks `entry_fee` of each participant into the pool: all of them, or on
/// the first failure none.
pub fn join_match(
    ledger: &mut Ledger,
    ctx: &Joinmatch,
    entry_fee: u64,
    participants: &Vec<Pubkey>,
) -> (result: Result<(), ErrorCode>)
    ensures
        applied(
            join_match_outcome(old(ledger)@, old(ledger).program(), *ctx, entry_fee, participants@),
            old(ledger)@,
            result,
            final(ledger)@,
        ),
        result is Err ==> final(ledger)@ == old(ledger)@,
        final(ledger).program() == old(ledger).program(),
        final(ledger).total() == old(ledger).total(),
{
    let program_id = ledger.program_id();
    let pool = match DerivedAuthority::pool(&program_id) {
        Some(authority) => authority,
        None => {
            return Err(ErrorCode::AuthorizationFailure);
        },
    };
    let mut slots: Vec<DerivedAuthority> = Vec::new();
    let mut derived = true;
    while derived && slots.len() < participants.len()
        invariant
            slots@.len() <= participants@.len(),
            derived || custody_address(program_id, participants@[slots@.len() as int]) is None,
            !derived ==> slots@.len() < participants@.len(),
            forall|i: int|
                0 <= i < slots@.len() ==> is_slot_of(
                    #[trigger] slots@[i],
                    program_id,
                    participants@[i],
                ),
        decreases participants@.len() - slots@.len() + (if derived { 1nat } else { 0nat }),
    {
        match DerivedAuthority::custody(&program_id, &participants[slots.len()]) {
            Some(authority) => {
                slots.push(authority);
            },
            None => {
                derived = false;
            },
        }
    }
    proof {
        let pool_key = pool.address()@;
        lemma_join_with_slots(ledger@, program_id, pool_key, entry_fee, participants@, slots@);
        if derived {
            assert(participants@.skip(slots@.len() as int).len() == 0);
        }
    }
    if derived {
        join_match_with(ledger, ctx, &pool, entry_fee, &slots)
    } else {
        let mut trial = ledger.snapshot();
        match join_match_with(&mut trial, ctx, &pool, entry_fee, &slots) {
            Ok(()) => Err(ErrorCode::AuthorizationFailure),
            Err(code) => Err(code),
        }
    }
}

} // verus!
