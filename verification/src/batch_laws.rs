use vstd::prelude::*;
use vstd::seq_lib::{to_multiset_contains, to_multiset_insert, to_multiset_len};
use crate::authority::{custody_address, pool_address, AccountKind};
use crate::error::ErrorCode;
use crate::instructions::{
    deposit_outcome, init_bank_outcome, join_all, join_match_outcome, join_step, settle_all,
    settle_match_outcome, withdraw_outcome, Deposit, InitBank, Joinmatch, SettleMatch, Withdraw,
};
use crate::pubkey::{lemma_view_injective, Pubkey};
use crate::state::{balance_of, derived_transfer, free_or, kind_of, State};

verus! {

/// How often `key` stands in `list`.
pub open spec fn entries(list: Seq<Pubkey>, key: Pubkey) -> nat {
    list.to_multiset().count(key)
}

/// The request is signed and names the pool slot, which is open in `s`.
pub open spec fn pool_is_open(s: State, program_id: Pubkey, signer_signed: bool, named: Pubkey) -> bool {
    &&& signer_signed
    &&& pool_address(program_id) matches Some((pool, bump))
    &&& pool == named@
    &&& kind_of(s, pool) == Some(AccountKind::Pool { bump })
}

/// The slot that derivation gives `owner` can pay `lamports` in `s`: the
/// address is derived, no other account stands there, and the balance
/// suffices.
pub open spec fn can_pay(s: State, program_id: Pubkey, owner: Pubkey, lamports: int) -> bool {
    &&& custody_address(program_id, owner) matches Some((address, bump))
    &&& free_or(s, address, AccountKind::Custody { owner, bump })
    &&& lamports <= balance_of(s, address)
}

/// The custody slot of `owner` stands at `x`.
pub open spec fn slot_is_at(program_id: Pubkey, owner: Pubkey, x: Seq<u8>) -> bool {
    custody_address(program_id, owner) matches Some((address, _)) && address == x
}

proof fn lemma_entries_first(list: Seq<Pubkey>, key: Pubkey)
    requires
        list.len() > 0,
    ensures
        entries(list, key) == entries(list.skip(1), key) + (if list[0] == key {
            1nat
        } else {
            0nat
        }),
        entries(list, list[0]) >= 1,
{
    to_multiset_insert(list.skip(1), 0, list[0]);
    assert(list.skip(1).insert(0, list[0]) =~= list);
}

proof fn lemma_times_next(amount: nat, count: nat)
    ensures
        amount * (count + 1) == amount * count + amount,
        amount * count >= 0,
        count >= 1 ==> amount * count >= amount,
{
    assert(amount * (count + 1) == amount * count + amount) by (nonlinear_arith);
    assert(count >= 1 ==> amount * count >= amount) by (nonlinear_arith);
}

/// What one entry does, where the pool is open.
proof fn lemma_join_step(
    s: State,
    program_id: Pubkey,
    pool: Seq<u8>,
    entry_fee: u64,
    participant: Pubkey,
)
    requires
        s.contains_key(pool),
        s[pool].kind is Pool,
    ensures
        join_step(s, program_id, pool, entry_fee, participant) is Ok <==> can_pay(
            s,
            program_id,
            participant,
            entry_fee as int,
        ),
        join_step(s, program_id, pool, entry_fee, participant) matches Ok(next) ==> {
            &&& custody_address(program_id, participant) matches Some((address, bump))
            &&& next.dom() =~= s.dom()
            &&& forall|x: Seq<u8>| s.contains_key(x) ==> (#[trigger] next[x]).kind == s[x].kind
            &&& forall|x: Seq<u8>|
                x != pool && x != address ==> #[trigger] balance_of(next, x) == balance_of(s, x)
            &&& balance_of(next, pool) == balance_of(s, pool) + entry_fee
            &&& balance_of(next, address) == balance_of(s, address) - entry_fee
            &&& entry_fee > 0 ==> s.contains_key(address) && address != pool
        },
{
}

/// Joining opens and closes no account, and changes no kind.
proof fn lemma_join_keeps_accounts(
    s: State,
    program_id: Pubkey,
    pool: Seq<u8>,
    entry_fee: u64,
    participants: Seq<Pubkey>,
    x: Seq<u8>,
)
    requires
        s.contains_key(pool),
        s[pool].kind is Pool,
    ensures
        join_all(s, program_id, pool, entry_fee, participants) matches Ok(next) ==> kind_of(
            next,
            x,
        ) == kind_of(s, x),
    decreases participants.len(),
{
    if participants.len() > 0 {
        lemma_join_step(s, program_id, pool, entry_fee, participants[0]);
        if let Ok(between) = join_step(s, program_id, pool, entry_fee, participants[0]) {
            assert(between.contains_key(pool) && between[pool].kind == s[pool].kind);
            lemma_join_keeps_accounts(
                between,
                program_id,
                pool,
                entry_fee,
                participants.skip(1),
                x,
            );
            assert(between.contains_key(x) == s.contains_key(x));
            if s.contains_key(x) {
                assert(between[x].kind == s[x].kind);
            }
        }
    }
}

/// The pool gains the fee once for every entry.
proof fn lemma_join_fills_pool(
    s: State,
    program_id: Pubkey,
    pool: Seq<u8>,
    entry_fee: u64,
    participants: Seq<Pubkey>,
)
    requires
        s.contains_key(pool),
        s[pool].kind is Pool,
    ensures
        join_all(s, program_id, pool, entry_fee, participants) matches Ok(next) ==> balance_of(
            next,
            pool,
        ) == balance_of(s, pool) + entry_fee * participants.len(),
    decreases participants.len(),
{
    if participants.len() > 0 {
        lemma_join_step(s, program_id, pool, entry_fee, participants[0]);
        if let Ok(between) = join_step(s, program_id, pool, entry_fee, participants[0]) {
            assert(between.contains_key(pool) && between[pool].kind == s[pool].kind);
            lemma_join_fills_pool(between, program_id, pool, entry_fee, participants.skip(1));
            lemma_times_next(entry_fee as nat, participants.skip(1).len());
        }
    }
}

/// The slot of `owner` loses the fee once for every entry of `owner`.
proof fn lemma_join_debits_owner(
    s: State,
    program_id: Pubkey,
    pool: Seq<u8>,
    entry_fee: u64,
    participants: Seq<Pubkey>,
    owner: Pubkey,
)
    requires
        s.contains_key(pool),
        s[pool].kind is Pool,
        can_pay(s, program_id, owner, 0),
    ensures
        join_all(s, program_id, pool, entry_fee, participants) matches Ok(next) ==> {
            &&& custody_address(program_id, owner) matches Some((address, bump))
            &&& balance_of(next, address) + entry_fee * entries(participants, owner) == balance_of(
                s,
                address,
            )
        },
    decreases participants.len(),
{
    let address = custody_address(program_id, owner)->Some_0.0;
    if participants.len() > 0 {
        let first = participants[0];
        let rest = participants.skip(1);
        lemma_join_step(s, program_id, pool, entry_fee, first);
        if let Ok(between) = join_step(s, program_id, pool, entry_fee, first) {
            assert(between.contains_key(pool) && between[pool].kind == s[pool].kind);
            assert(can_pay(between, program_id, owner, 0)) by {
                if between.contains_key(address) {
                    assert(s.contains_key(address));
                    assert(between[address].kind == s[address].kind);
                }
            }
            lemma_join_debits_owner(between, program_id, pool, entry_fee, rest, owner);
            lemma_entries_first(participants, owner);
            lemma_times_next(entry_fee as nat, entries(rest, owner));
            if entry_fee > 0 {
                assert(address != pool);
                let paid = custody_address(program_id, first)->Some_0.0;
                if first == owner {
                    assert(paid == address);
                } else {
                    assert(paid != address);
                }
            }
        }
    } else {
        assert(entries(participants, owner) == 0) by {
            to_multiset_len(participants);
            to_multiset_contains(participants, owner);
        }
    }
}

/// An account that is neither the pool nor the slot of a participant keeps
/// its balance.
proof fn lemma_join_spares_others(
    s: State,
    program_id: Pubkey,
    pool: Seq<u8>,
    entry_fee: u64,
    participants: Seq<Pubkey>,
    x: Seq<u8>,
)
    requires
        s.contains_key(pool),
        s[pool].kind is Pool,
        x != pool,
        forall|i: int|
            0 <= i < participants.len() ==> !#[trigger] slot_is_at(program_id, participants[i], x),
    ensures
        join_all(s, program_id, pool, entry_fee, participants) matches Ok(next) ==> balance_of(
            next,
            x,
        ) == balance_of(s, x),
    decreases participants.len(),
{
    if participants.len() > 0 {
        let rest = participants.skip(1);
        lemma_join_step(s, program_id, pool, entry_fee, participants[0]);
        if let Ok(between) = join_step(s, program_id, pool, entry_fee, participants[0]) {
            assert(between.contains_key(pool) && between[pool].kind == s[pool].kind);
            assert forall|i: int| 0 <= i < rest.len() implies !#[trigger] slot_is_at(program_id, rest[i], x) by {
                assert(rest[i] == participants[i + 1]);
            }
            lemma_join_spares_others(between, program_id, pool, entry_fee, rest, x);
            assert(!slot_is_at(program_id, participants[0], x));
        }
    }
}

/// The entries succeed exactly if every participant's slot can pay the fee
/// as often as the participant is listed.
proof fn lemma_join_succeeds_iff(
    s: State,
    program_id: Pubkey,
    pool: Seq<u8>,
    entry_fee: u64,
    participants: Seq<Pubkey>,
)
    requires
        s.contains_key(pool),
        s[pool].kind is Pool,
    ensures
        join_all(s, program_id, pool, entry_fee, participants) is Ok <==> forall|i: int|
            0 <= i < participants.len() ==> #[trigger] can_pay(
                s,
                program_id,
                participants[i],
                entry_fee * entries(participants, participants[i]),
            ),
    decreases participants.len(),
{
    if participants.len() > 0 {
        let first = participants[0];
        let rest = participants.skip(1);
        lemma_join_step(s, program_id, pool, entry_fee, first);
        lemma_entries_first(participants, first);
        lemma_times_next(entry_fee as nat, entries(participants, first));
        if join_all(s, program_id, pool, entry_fee, participants) is Ok {
            assert forall|i: int| 0 <= i < participants.len() implies #[trigger] can_pay(
                s,
                program_id,
                participants[i],
                entry_fee * entries(participants, participants[i]),
            ) by {
                lemma_join_each_can_pay(s, program_id, pool, entry_fee, participants, i);
            }
        }
        if forall|i: int|
            0 <= i < participants.len() ==> #[trigger] can_pay(
                s,
                program_id,
                participants[i],
                entry_fee * entries(participants, participants[i]),
            ) {
            assert(can_pay(s, program_id, first, entry_fee * entries(participants, first)));
            assert(can_pay(s, program_id, first, entry_fee as int));
            let between = join_step(s, program_id, pool, entry_fee, first)->Ok_0;
            let paid = custody_address(program_id, first)->Some_0.0;
            assert(between.contains_key(pool) && between[pool].kind == s[pool].kind);
            assert forall|j: int| 0 <= j < rest.len() implies #[trigger] can_pay(
                between,
                program_id,
                rest[j],
                entry_fee * entries(rest, rest[j]),
            ) by {
                let who = rest[j];
                assert(who == participants[j + 1]);
                assert(can_pay(s, program_id, who, entry_fee * entries(participants, who)));
                let address = custody_address(program_id, who)->Some_0.0;
                lemma_entries_first(participants, who);
                lemma_times_next(entry_fee as nat, entries(rest, who));
                if between.contains_key(address) {
                    assert(s.contains_key(address));
                    assert(between[address].kind == s[address].kind);
                }
                if entry_fee > 0 {
                    assert(entries(participants, who) >= 1) by {
                        to_multiset_contains(participants, who);
                        assert(participants.contains(who));
                    }
                    lemma_times_next(entry_fee as nat, entries(participants, who));
                    assert(s.contains_key(address));
                    assert(address != pool);
                    if who == first {
                        assert(paid == address);
                    } else {
                        assert(paid != address);
                    }
                } else {
                    assert(entry_fee * entries(rest, who) == 0) by (nonlinear_arith)
                        requires
                            entry_fee == 0,
                    ;
                }
            }
            lemma_join_succeeds_iff(between, program_id, pool, entry_fee, rest);
        }
    }
}

/// Where the entries succeed, the slot of each participant could pay for
/// all of that participant's entries.
proof fn lemma_join_each_can_pay(
    s: State,
    program_id: Pubkey,
    pool: Seq<u8>,
    entry_fee: u64,
    participants: Seq<Pubkey>,
    i: int,
)
    requires
        s.contains_key(pool),
        s[pool].kind is Pool,
        0 <= i < participants.len(),
        join_all(s, program_id, pool, entry_fee, participants) is Ok,
    ensures
        can_pay(
            s,
            program_id,
            participants[i],
            entry_fee * entries(participants, participants[i]),
        ),
    decreases participants.len(),
{
    let first = participants[0];
    let rest = participants.skip(1);
    let who = participants[i];
    lemma_join_step(s, program_id, pool, entry_fee, first);
    let between = join_step(s, program_id, pool, entry_fee, first)->Ok_0;
    assert(between.contains_key(pool) && between[pool].kind == s[pool].kind);
    if i > 0 {
        assert(rest[i - 1] == who);
        lemma_join_each_can_pay(between, program_id, pool, entry_fee, rest, i - 1);
        let address = custody_address(program_id, who)->Some_0.0;
        if s.contains_key(address) {
            assert(between.contains_key(address));
            assert(between[address].kind == s[address].kind);
        } else {
            assert(!between.contains_key(address));
        }
    }
    assert(can_pay(s, program_id, who, 0));
    lemma_join_debits_owner(s, program_id, pool, entry_fee, participants, who);
}

/// Joining takes the fee out of an owner's slot once for each time the owner
/// is listed, and puts it into the pool once for every entry of the list.
/// It opens no account and changes no kind.
pub proof fn law_join_moves_the_fee_per_entry(
    s: State,
    program_id: Pubkey,
    ctx: Joinmatch,
    entry_fee: u64,
    participants: Seq<Pubkey>,
    owner: Pubkey,
    other: Seq<u8>,
)
    ensures
        join_match_outcome(s, program_id, ctx, entry_fee, participants) matches Ok(next) ==> {
            &&& balance_of(next, ctx.bank_account@) == balance_of(s, ctx.bank_account@)
                + entry_fee * participants.len()
            &&& custody_address(program_id, owner) matches Some((address, bump)) ==> (free_or(
                s,
                address,
                AccountKind::Custody { owner, bump },
            ) ==> balance_of(next, address) + entry_fee * entries(participants, owner)
                == balance_of(s, address))
            &&& kind_of(next, other) == kind_of(s, other)
        },
{
    if join_match_outcome(s, program_id, ctx, entry_fee, participants) is Ok {
        let pool = ctx.bank_account@;
        lemma_join_fills_pool(s, program_id, pool, entry_fee, participants);
        lemma_join_keeps_accounts(s, program_id, pool, entry_fee, participants, other);
        if can_pay(s, program_id, owner, 0) {
            lemma_join_debits_owner(s, program_id, pool, entry_fee, participants, owner);
        }
    }
}

/// With an open pool, joining succeeds exactly if the slot of every
/// participant holds the fee as often as the participant is listed. Where it
/// does not succeed, nothing is owed: the outcome is an error.
pub proof fn law_join_succeeds_iff_all_can_pay(
    s: State,
    program_id: Pubkey,
    ctx: Joinmatch,
    entry_fee: u64,
    participants: Seq<Pubkey>,
)
    ensures
        pool_is_open(s, program_id, ctx.signer.is_signer, ctx.bank_account) ==> (
        join_match_outcome(s, program_id, ctx, entry_fee, participants) is Ok <==> forall|i: int|
            0 <= i < participants.len() ==> #[trigger] can_pay(
                s,
                program_id,
                participants[i],
                entry_fee * entries(participants, participants[i]),
            )),
        !pool_is_open(s, program_id, ctx.signer.is_signer, ctx.bank_account)
            ==> join_match_outcome(s, program_id, ctx, entry_fee, participants) is Err,
{
    if pool_is_open(s, program_id, ctx.signer.is_signer, ctx.bank_account) {
        lemma_join_succeeds_iff(s, program_id, ctx.bank_account@, entry_fee, participants);
    }
}

/// The order of the participants does not matter to the final state: two
/// lists with the same participants, each as often as in the other, both
/// succeed or both fail, and where they succeed they end in the same state.
pub proof fn law_join_order_is_immaterial(
    s: State,
    program_id: Pubkey,
    ctx: Joinmatch,
    entry_fee: u64,
    first: Seq<Pubkey>,
    second: Seq<Pubkey>,
)
    requires
        first.to_multiset() == second.to_multiset(),
    ensures
        join_match_outcome(s, program_id, ctx, entry_fee, first) is Ok <==> join_match_outcome(
            s,
            program_id,
            ctx,
            entry_fee,
            second,
        ) is Ok,
        join_match_outcome(s, program_id, ctx, entry_fee, first) is Ok ==> join_match_outcome(
            s,
            program_id,
            ctx,
            entry_fee,
            first,
        ) == join_match_outcome(s, program_id, ctx, entry_fee, second),
{
    if pool_is_open(s, program_id, ctx.signer.is_signer, ctx.bank_account) {
        let pool = ctx.bank_account@;
        lemma_join_succeeds_iff(s, program_id, pool, entry_fee, first);
        lemma_join_succeeds_iff(s, program_id, pool, entry_fee, second);
        lemma_same_members(first, second);
        lemma_same_members(second, first);
        if join_all(s, program_id, pool, entry_fee, first) is Ok {
            assert forall|j: int| 0 <= j < second.len() implies #[trigger] can_pay(
                s,
                program_id,
                second[j],
                entry_fee * entries(second, second[j]),
            ) by {
                assert(first.contains(second[j]));
                let i = choose|i: int| 0 <= i < first.len() && first[i] == second[j];
                assert(can_pay(s, program_id, first[i], entry_fee * entries(first, first[i])));
            }
        }
        if join_all(s, program_id, pool, entry_fee, second) is Ok {
            assert forall|i: int| 0 <= i < first.len() implies #[trigger] can_pay(
                s,
                program_id,
                first[i],
                entry_fee * entries(first, first[i]),
            ) by {
                assert(second.contains(first[i]));
                let j = choose|j: int| 0 <= j < second.len() && second[j] == first[i];
                assert(can_pay(s, program_id, second[j], entry_fee * entries(second, second[j])));
            }
        }
        if join_all(s, program_id, pool, entry_fee, first) is Ok {
            let one = join_all(s, program_id, pool, entry_fee, first)->Ok_0;
            let two = join_all(s, program_id, pool, entry_fee, second)->Ok_0;
            to_multiset_len(first);
            to_multiset_len(second);
            lemma_join_fills_pool(s, program_id, pool, entry_fee, first);
            lemma_join_fills_pool(s, program_id, pool, entry_fee, second);
            assert forall|x: Seq<u8>|
                (#[trigger] one.contains_key(x)) == two.contains_key(x) && (one.contains_key(x)
                    ==> one[x] == two[x]) by {
                lemma_join_keeps_accounts(s, program_id, pool, entry_fee, first, x);
                lemma_join_keeps_accounts(s, program_id, pool, entry_fee, second, x);
                if x != pool {
                    if exists|i: int|
                        0 <= i < first.len() && #[trigger] slot_is_at(program_id, first[i], x) {
                        let i = choose|i: int|
                            0 <= i < first.len() && #[trigger] slot_is_at(program_id, first[i], x);
                        let who = first[i];
                        assert(can_pay(s, program_id, who, entry_fee * entries(first, who)));
                        lemma_join_debits_owner(s, program_id, pool, entry_fee, first, who);
                        lemma_join_debits_owner(s, program_id, pool, entry_fee, second, who);
                    } else {
                        assert forall|j: int| 0 <= j < second.len() implies !#[trigger] slot_is_at(program_id, second[j], x) by {
                            assert(first.contains(second[j]));
                let i = choose|i: int| 0 <= i < first.len() && first[i] == second[j];
                            assert(custody_address(program_id, first[i]) == custody_address(
                                program_id,
                                second[j],
                            ));
                        }
                        lemma_join_spares_others(s, program_id, pool, entry_fee, first, x);
                        lemma_join_spares_others(s, program_id, pool, entry_fee, second, x);
                    }
                }
            }
            assert(one =~= two);
        }
    }
}

/// Every member of `first` is a member of `second`.
proof fn lemma_same_members(first: Seq<Pubkey>, second: Seq<Pubkey>)
    requires
        first.to_multiset() == second.to_multiset(),
    ensures
        forall|i: int| 0 <= i < first.len() ==> second.contains(#[trigger] first[i]),
{
    assert forall|i: int| 0 <= i < first.len() implies second.contains(#[trigger] first[i]) by {
        to_multiset_contains(first, first[i]);
        to_multiset_contains(second, first[i]);
        assert(first.contains(first[i]));
    }
}

/// What the payments do to the pool and to one winner, where the pool is
/// open in `s`.
proof fn lemma_settle_all(
    s: State,
    pool: Pubkey,
    bump: u8,
    per_winner_share: u64,
    winners: Seq<Pubkey>,
    who: Pubkey,
)
    requires
        kind_of(s, pool@) == Some(AccountKind::Pool { bump }),
    ensures
        settle_all(s, pool@, bump, per_winner_share, winners) matches Ok(next) ==> {
            &&& kind_of(next, pool@) == kind_of(s, pool@)
            &&& balance_of(next, pool@) + per_winner_share * (winners.len() - entries(
                winners,
                pool,
            )) == balance_of(s, pool@)
            &&& who != pool ==> balance_of(next, who@) == balance_of(s, who@) + per_winner_share
                * entries(winners, who)
            &&& s.contains_key(who@) ==> kind_of(next, who@) == kind_of(s, who@)
        },
        settle_all(s, pool@, bump, per_winner_share, winners) matches Err(code) ==> code
            == ErrorCode::InsufficientFunds,
        entries(winners, pool) == 0 ==> (settle_all(s, pool@, bump, per_winner_share, winners) is Ok
            <==> per_winner_share * winners.len() <= balance_of(s, pool@)),
    decreases winners.len(),
{
    if winners.len() > 0 {
        let first = winners[0];
        let rest = winners.skip(1);
        lemma_view_injective(first, pool);
        lemma_view_injective(first, who);
        lemma_view_injective(who, pool);
        lemma_entries_first(winners, pool);
        lemma_entries_first(winners, who);
        lemma_times_next(per_winner_share as nat, entries(rest, who));
        lemma_times_next(per_winner_share as nat, rest.len());
        lemma_times_next(per_winner_share as nat, (rest.len() - entries(rest, pool)) as nat);
        assert(entries(rest, pool) <= rest.len()) by {
            lemma_entries_at_most_len(rest, pool);
        }
        let kind = AccountKind::Pool { bump };
        if let Ok(between) = derived_transfer(s, pool@, kind, first@, per_winner_share) {
            assert(kind_of(between, pool@) == kind_of(s, pool@));
            lemma_settle_all(between, pool, bump, per_winner_share, rest, who);
        }
    } else {
        assert(entries(winners, who) == 0 && entries(winners, pool) == 0) by {
            to_multiset_len(winners);
            to_multiset_contains(winners, who);
            to_multiset_contains(winners, pool);
        }
    }
}

proof fn lemma_entries_at_most_len(list: Seq<Pubkey>, key: Pubkey)
    ensures
        entries(list, key) <= list.len(),
    decreases list.len(),
{
    if list.len() > 0 {
        lemma_entries_first(list, key);
        lemma_entries_at_most_len(list.skip(1), key);
    } else {
        to_multiset_len(list);
        to_multiset_contains(list, key);
    }
}

/// Settling pays a winner the share once for each time the winner is listed
/// and takes it out of the pool as often; a share that goes to the pool
/// itself stays there. No account that existed changes its kind.
pub proof fn law_settle_pays_the_share_per_entry(
    s: State,
    program_id: Pubkey,
    ctx: SettleMatch,
    per_winner_share: u64,
    winners: Seq<Pubkey>,
    who: Pubkey,
)
    ensures
        settle_match_outcome(s, program_id, ctx, per_winner_share, winners) matches Ok(next) ==> {
            let pool = ctx.bank_account;
            &&& balance_of(next, pool@) + per_winner_share * (winners.len() - entries(
                winners,
                pool,
            )) == balance_of(s, pool@)
            &&& who != pool ==> balance_of(next, who@) == balance_of(s, who@) + per_winner_share
                * entries(winners, who)
            &&& s.contains_key(who@) ==> kind_of(next, who@) == kind_of(s, who@)
        },
{
    if settle_match_outcome(s, program_id, ctx, per_winner_share, winners) is Ok {
        let bump = pool_address(program_id)->Some_0.1;
        lemma_settle_all(s, ctx.bank_account, bump, per_winner_share, winners, who);
    }
}

/// With an open pool that is not itself among the winners, settling
/// succeeds exactly if the pool holds the share as often as there are
/// winners; where it holds less, the error is `InsufficientFunds`.
pub proof fn law_settle_succeeds_iff_pool_covers(
    s: State,
    program_id: Pubkey,
    ctx: SettleMatch,
    per_winner_share: u64,
    winners: Seq<Pubkey>,
)
    ensures
        pool_is_open(s, program_id, ctx.signer.is_signer, ctx.bank_account) && entries(
            winners,
            ctx.bank_account,
        ) == 0 ==> {
            let outcome = settle_match_outcome(s, program_id, ctx, per_winner_share, winners);
            &&& outcome is Ok <==> per_winner_share * winners.len() <= balance_of(
                s,
                ctx.bank_account@,
            )
            &&& outcome matches Err(code) ==> code == ErrorCode::InsufficientFunds
        },
        !pool_is_open(s, program_id, ctx.signer.is_signer, ctx.bank_account)
            ==> settle_match_outcome(s, program_id, ctx, per_winner_share, winners) is Err,
{
    if pool_is_open(s, program_id, ctx.signer.is_signer, ctx.bank_account) {
        let bump = pool_address(program_id)->Some_0.1;
        lemma_settle_all(s, ctx.bank_account, bump, per_winner_share, winners, ctx.bank_account);
    }
}

/// Settling closes no account and changes no kind.
proof fn lemma_settle_keeps_accounts(
    s: State,
    pool: Seq<u8>,
    bump: u8,
    per_winner_share: u64,
    winners: Seq<Pubkey>,
    x: Seq<u8>,
)
    requires
        s.contains_key(x),
    ensures
        settle_all(s, pool, bump, per_winner_share, winners) matches Ok(next) ==> kind_of(next, x)
            == kind_of(s, x),
    decreases winners.len(),
{
    if winners.len() > 0 {
        let kind = AccountKind::Pool { bump };
        if let Ok(between) = derived_transfer(s, pool, kind, winners[0]@, per_winner_share) {
            assert(kind_of(between, x) == kind_of(s, x));
            lemma_settle_keeps_accounts(
                between,
                pool,
                bump,
                per_winner_share,
                winners.skip(1),
                x,
            );
        }
    }
}

/// What was opened stays open, as what it was opened as: no operation
/// closes an account, and none changes the kind of an account.
pub proof fn law_accounts_persist(
    s: State,
    program_id: Pubkey,
    into: Deposit,
    out: Withdraw,
    opening: InitBank,
    join: Joinmatch,
    settle: SettleMatch,
    lamports: u64,
    list: Seq<Pubkey>,
    x: Seq<u8>,
)
    requires
        s.contains_key(x),
    ensures
        deposit_outcome(s, program_id, into, lamports) matches Ok(next) ==> kind_of(next, x)
            == kind_of(s, x),
        withdraw_outcome(s, program_id, out, lamports) matches Ok(next) ==> kind_of(next, x)
            == kind_of(s, x),
        init_bank_outcome(s, program_id, opening) matches Ok(next) ==> kind_of(next, x) == kind_of(
            s,
            x,
        ),
        join_match_outcome(s, program_id, join, lamports, list) matches Ok(next) ==> kind_of(
            next,
            x,
        ) == kind_of(s, x),
        settle_match_outcome(s, program_id, settle, lamports, list) matches Ok(next) ==> kind_of(
            next,
            x,
        ) == kind_of(s, x),
{
    if join_match_outcome(s, program_id, join, lamports, list) is Ok {
        lemma_join_keeps_accounts(s, program_id, join.bank_account@, lamports, list, x);
    }
    if settle_match_outcome(s, program_id, settle, lamports, list) is Ok {
        let bump = pool_address(program_id)->Some_0.1;
        lemma_settle_keeps_accounts(s, settle.bank_account@, bump, lamports, list, x);
    }
}

} // verus!
