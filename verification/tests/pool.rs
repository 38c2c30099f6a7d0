use solball::authority::AccountKind;
use solball::{
    deposit, init_bank, join_match, settle_match, withdraw, Deposit, DerivedAuthority, ErrorCode,
    InitBank, Joinmatch, Ledger, Pubkey, SettleMatch, Signer, Withdraw,
};

fn pool_key(tag: u8) -> Pubkey {
    let mut bytes = [0u8; 32];
    bytes[0] = tag;
    bytes[31] = 7;
    Pubkey::new_from_array(bytes)
}

fn pool_program() -> Pubkey {
    pool_key(200)
}

fn pool_signed(owner: Pubkey) -> Signer {
    Signer { key: owner, is_signer: true }
}

fn slot_of(owner: &Pubkey) -> Pubkey {
    DerivedAuthority::custody(&pool_program(), owner).expect("a slot").key()
}

fn bank() -> Pubkey {
    DerivedAuthority::pool(&pool_program()).expect("a pool address").key()
}

fn init_request() -> InitBank {
    InitBank { admin: pool_signed(pool_key(9)), bank_account: bank() }
}

fn join_request() -> Joinmatch {
    Joinmatch { signer: pool_signed(pool_key(9)), bank_account: bank() }
}

fn settle_request() -> SettleMatch {
    SettleMatch { signer: pool_signed(pool_key(9)), bank_account: bank() }
}

/// A ledger with an open pool, on which each owner has deposited the amount
/// beside it.
fn ledger_with(deposits: &[(Pubkey, u64)]) -> Ledger {
    let mut ledger = Ledger::new(pool_program());
    assert_eq!(init_bank(&mut ledger, &init_request()), Ok(()));
    for (owner, lamports) in deposits {
        assert!(ledger.airdrop(owner, *lamports));
        let request = Deposit { signer: pool_signed(*owner), user_sub_account: slot_of(owner) };
        assert_eq!(deposit(&mut ledger, &request, *lamports), Ok(()));
    }
    ledger
}

#[test]
fn the_pool_is_opened_once() {
    let mut ledger = Ledger::new(pool_program());
    assert_eq!(init_bank(&mut ledger, &init_request()), Ok(()));
    let bump = DerivedAuthority::pool(&pool_program()).expect("a pool address").bump();
    assert_eq!(ledger.account_kind(&bank()), Some(AccountKind::Pool { bump }));
    assert_eq!(ledger.balance(&bank()), 0);
    assert!(ledger.airdrop(&bank(), 77));
    assert_eq!(init_bank(&mut ledger, &init_request()), Err(ErrorCode::AlreadyInitialized));
    let other = InitBank { admin: pool_signed(pool_key(10)), bank_account: bank() };
    assert_eq!(init_bank(&mut ledger, &other), Err(ErrorCode::AlreadyInitialized));
    assert_eq!(ledger.balance(&bank()), 77);
    assert_eq!(ledger.account_kind(&bank()), Some(AccountKind::Pool { bump }));
}

#[test]
fn opening_the_pool_needs_a_signature_and_the_derived_address() {
    let mut ledger = Ledger::new(pool_program());
    let unsigned =
        InitBank { admin: Signer { key: pool_key(9), is_signer: false }, bank_account: bank() };
    assert_eq!(init_bank(&mut ledger, &unsigned), Err(ErrorCode::AuthorizationFailure));
    let elsewhere = InitBank { admin: pool_signed(pool_key(9)), bank_account: pool_key(3) };
    assert_eq!(init_bank(&mut ledger, &elsewhere), Err(ErrorCode::DerivationMismatch));
    assert_eq!(ledger.account_kind(&bank()), None);
    assert_eq!(ledger.account_kind(&pool_key(3)), None);
}

#[test]
fn a_funded_pool_address_counts_as_initialized() {
    let mut ledger = Ledger::new(pool_program());
    assert!(ledger.airdrop(&bank(), 1));
    assert_eq!(init_bank(&mut ledger, &init_request()), Err(ErrorCode::AlreadyInitialized));
    assert_eq!(ledger.account_kind(&bank()), Some(AccountKind::Wallet));
}

#[test]
fn joining_moves_the_fee_from_custody_to_the_pool() {
    let a = pool_key(1);
    let mut ledger = ledger_with(&[(a, 1000)]);
    assert_eq!(join_match(&mut ledger, &join_request(), 1000, &vec![a]), Ok(()));
    assert_eq!(ledger.balance(&slot_of(&a)), 0);
    assert_eq!(ledger.balance(&bank()), 1000);
    assert_eq!(ledger.balance(&a), 0);
    assert_eq!(ledger.supply(), 1000);
}

#[test]
fn settling_pays_the_winner_out_of_the_pool() {
    let a = pool_key(1);
    let mut ledger = ledger_with(&[(a, 1000)]);
    assert_eq!(join_match(&mut ledger, &join_request(), 1000, &vec![a]), Ok(()));
    assert!(ledger.airdrop(&a, 5));
    assert_eq!(settle_match(&mut ledger, &settle_request(), 1000, &vec![a]), Ok(()));
    assert_eq!(ledger.balance(&bank()), 0);
    assert_eq!(ledger.balance(&a), 1005);
    assert_eq!(ledger.balance(&slot_of(&a)), 0);
}

#[test]
fn a_batch_with_one_poor_participant_changes_nothing() {
    let a = pool_key(1);
    let b = pool_key(2);
    let c = pool_key(3);
    let mut ledger = ledger_with(&[(a, 500), (b, 500), (c, 499)]);
    assert_eq!(
        join_match(&mut ledger, &join_request(), 500, &vec![a, b, c]),
        Err(ErrorCode::InsufficientFunds)
    );
    assert_eq!(ledger.balance(&slot_of(&a)), 500);
    assert_eq!(ledger.balance(&slot_of(&b)), 500);
    assert_eq!(ledger.balance(&slot_of(&c)), 499);
    assert_eq!(ledger.balance(&bank()), 0);
    assert_eq!(join_match(&mut ledger, &join_request(), 499, &vec![a, b, c]), Ok(()));
    assert_eq!(ledger.balance(&slot_of(&a)), 1);
    assert_eq!(ledger.balance(&slot_of(&b)), 1);
    assert_eq!(ledger.balance(&slot_of(&c)), 0);
    assert_eq!(ledger.balance(&bank()), 1497);
}

#[test]
fn a_participant_without_a_slot_fails_the_batch() {
    let a = pool_key(1);
    let stranger = pool_key(4);
    let mut ledger = ledger_with(&[(a, 500)]);
    assert_eq!(
        join_match(&mut ledger, &join_request(), 100, &vec![a, stranger]),
        Err(ErrorCode::InsufficientFunds)
    );
    assert_eq!(ledger.balance(&slot_of(&a)), 500);
    assert_eq!(ledger.balance(&bank()), 0);
    assert_eq!(ledger.account_kind(&slot_of(&stranger)), None);
}

#[test]
fn a_participant_listed_twice_pays_twice() {
    let a = pool_key(1);
    let b = pool_key(2);
    let mut ledger = ledger_with(&[(a, 500), (b, 500)]);
    assert_eq!(join_match(&mut ledger, &join_request(), 200, &vec![a, b, a]), Ok(()));
    assert_eq!(ledger.balance(&slot_of(&a)), 100);
    assert_eq!(ledger.balance(&slot_of(&b)), 300);
    assert_eq!(ledger.balance(&bank()), 600);
    assert_eq!(
        join_match(&mut ledger, &join_request(), 60, &vec![a, b, a]),
        Err(ErrorCode::InsufficientFunds)
    );
    assert_eq!(ledger.balance(&slot_of(&a)), 100);
    assert_eq!(ledger.balance(&slot_of(&b)), 300);
    assert_eq!(ledger.balance(&bank()), 600);
}

#[test]
fn the_order_of_participants_does_not_change_the_outcome() {
    let a = pool_key(1);
    let b = pool_key(2);
    let c = pool_key(3);
    let mut first = ledger_with(&[(a, 500), (b, 400), (c, 300)]);
    let mut second = first.snapshot();
    assert_eq!(join_match(&mut first, &join_request(), 150, &vec![a, b, c, a]), Ok(()));
    assert_eq!(join_match(&mut second, &join_request(), 150, &vec![c, a, a, b]), Ok(()));
    for key in [a, b, c, slot_of(&a), slot_of(&b), slot_of(&c), bank()] {
        assert_eq!(first.balance(&key), second.balance(&key));
        assert_eq!(first.account_kind(&key), second.account_kind(&key));
    }
    assert_eq!(first.balance(&slot_of(&a)), 200);
    assert_eq!(first.balance(&bank()), 600);
}

#[test]
fn joining_needs_an_open_pool() {
    let a = pool_key(1);
    let mut ledger = Ledger::new(pool_program());
    assert!(ledger.airdrop(&a, 1000));
    let request = Deposit { signer: pool_signed(a), user_sub_account: slot_of(&a) };
    assert_eq!(deposit(&mut ledger, &request, 1000), Ok(()));
    assert_eq!(
        join_match(&mut ledger, &join_request(), 10, &vec![a]),
        Err(ErrorCode::DerivationMismatch)
    );
    assert_eq!(
        join_match(&mut ledger, &join_request(), 10, &vec![]),
        Err(ErrorCode::DerivationMismatch)
    );
    assert!(ledger.airdrop(&bank(), 1));
    assert_eq!(
        join_match(&mut ledger, &join_request(), 10, &vec![a]),
        Err(ErrorCode::DerivationMismatch)
    );
    assert_eq!(ledger.balance(&slot_of(&a)), 1000);
    assert_eq!(ledger.balance(&bank()), 1);
}

#[test]
fn joining_needs_a_signature_and_the_derived_pool() {
    let a = pool_key(1);
    let mut ledger = ledger_with(&[(a, 500)]);
    let unsigned =
        Joinmatch { signer: Signer { key: pool_key(9), is_signer: false }, bank_account: bank() };
    assert_eq!(
        join_match(&mut ledger, &unsigned, 10, &vec![a]),
        Err(ErrorCode::AuthorizationFailure)
    );
    let elsewhere = Joinmatch { signer: pool_signed(pool_key(9)), bank_account: slot_of(&a) };
    assert_eq!(
        join_match(&mut ledger, &elsewhere, 10, &vec![a]),
        Err(ErrorCode::DerivationMismatch)
    );
    assert_eq!(ledger.balance(&slot_of(&a)), 500);
}

#[test]
fn joining_refuses_a_custody_address_in_other_use() {
    let a = pool_key(1);
    let b = pool_key(2);
    let mut ledger = ledger_with(&[(a, 500)]);
    assert!(ledger.airdrop(&slot_of(&b), 500));
    assert_eq!(
        join_match(&mut ledger, &join_request(), 10, &vec![a, b]),
        Err(ErrorCode::DerivationMismatch)
    );
    assert_eq!(ledger.balance(&slot_of(&a)), 500);
    assert_eq!(ledger.balance(&slot_of(&b)), 500);
    assert_eq!(ledger.balance(&bank()), 0);
}

#[test]
fn joining_without_a_fee_or_without_participants_changes_nothing() {
    let a = pool_key(1);
    let mut ledger = ledger_with(&[(a, 500)]);
    assert_eq!(join_match(&mut ledger, &join_request(), 0, &vec![a, pool_key(5)]), Ok(()));
    assert_eq!(join_match(&mut ledger, &join_request(), 77, &vec![]), Ok(()));
    assert_eq!(ledger.balance(&slot_of(&a)), 500);
    assert_eq!(ledger.balance(&bank()), 0);
    assert_eq!(ledger.account_kind(&slot_of(&pool_key(5))), None);
}

#[test]
fn settling_pays_every_winner_in_turn() {
    let a = pool_key(1);
    let b = pool_key(2);
    let c = pool_key(3);
    let mut ledger = ledger_with(&[(a, 500), (b, 500), (c, 500)]);
    assert_eq!(join_match(&mut ledger, &join_request(), 500, &vec![a, b, c]), Ok(()));
    assert_eq!(settle_match(&mut ledger, &settle_request(), 700, &vec![b, pool_key(6)]), Ok(()));
    assert_eq!(ledger.balance(&bank()), 100);
    assert_eq!(ledger.balance(&b), 700);
    assert_eq!(ledger.balance(&pool_key(6)), 700);
    assert_eq!(ledger.account_kind(&pool_key(6)), Some(AccountKind::Wallet));
    assert_eq!(ledger.balance(&a), 0);
    assert_eq!(ledger.supply(), 1500);
}

#[test]
fn settling_beyond_the_pool_changes_nothing() {
    let a = pool_key(1);
    let b = pool_key(2);
    let mut ledger = ledger_with(&[(a, 500), (b, 500)]);
    assert_eq!(join_match(&mut ledger, &join_request(), 500, &vec![a, b]), Ok(()));
    assert_eq!(
        settle_match(&mut ledger, &settle_request(), 501, &vec![a, b]),
        Err(ErrorCode::InsufficientFunds)
    );
    assert_eq!(
        settle_match(&mut ledger, &settle_request(), 1001, &vec![a]),
        Err(ErrorCode::InsufficientFunds)
    );
    assert_eq!(ledger.balance(&bank()), 1000);
    assert_eq!(ledger.balance(&a), 0);
    assert_eq!(ledger.balance(&b), 0);
    assert_eq!(settle_match(&mut ledger, &settle_request(), 500, &vec![a, a]), Ok(()));
    assert_eq!(ledger.balance(&a), 1000);
    assert_eq!(ledger.balance(&bank()), 0);
}

#[test]
fn settling_needs_an_open_pool_a_signature_and_the_derived_pool() {
    let a = pool_key(1);
    let mut ledger = Ledger::new(pool_program());
    assert_eq!(
        settle_match(&mut ledger, &settle_request(), 1, &vec![a]),
        Err(ErrorCode::DerivationMismatch)
    );
    assert_eq!(init_bank(&mut ledger, &init_request()), Ok(()));
    assert!(ledger.airdrop(&bank(), 10));
    let unsigned =
        SettleMatch { signer: Signer { key: pool_key(9), is_signer: false }, bank_account: bank() };
    assert_eq!(
        settle_match(&mut ledger, &unsigned, 1, &vec![a]),
        Err(ErrorCode::AuthorizationFailure)
    );
    let elsewhere = SettleMatch { signer: pool_signed(pool_key(9)), bank_account: a };
    assert_eq!(
        settle_match(&mut ledger, &elsewhere, 1, &vec![a]),
        Err(ErrorCode::DerivationMismatch)
    );
    assert_eq!(ledger.balance(&bank()), 10);
    assert_eq!(settle_match(&mut ledger, &settle_request(), 10, &vec![a]), Ok(()));
    assert_eq!(ledger.balance(&a), 10);
}

#[test]
fn a_share_paid_to_the_pool_itself_stays_there() {
    let a = pool_key(1);
    let mut ledger = ledger_with(&[(a, 500)]);
    assert_eq!(join_match(&mut ledger, &join_request(), 500, &vec![a]), Ok(()));
    assert_eq!(settle_match(&mut ledger, &settle_request(), 500, &vec![bank(), a]), Ok(()));
    assert_eq!(ledger.balance(&bank()), 0);
    assert_eq!(ledger.balance(&a), 500);
}

#[test]
fn a_whole_match_from_deposit_to_withdrawal() {
    let a = pool_key(1);
    let b = pool_key(2);
    let mut ledger = ledger_with(&[(a, 800), (b, 800)]);
    assert_eq!(join_match(&mut ledger, &join_request(), 300, &vec![a, b]), Ok(()));
    assert_eq!(settle_match(&mut ledger, &settle_request(), 600, &vec![b]), Ok(()));
    let back = Withdraw { signer: pool_signed(b), user_sub_account: slot_of(&b) };
    assert_eq!(withdraw(&mut ledger, &back, 500), Ok(()));
    assert_eq!(ledger.balance(&b), 1100);
    assert_eq!(ledger.balance(&slot_of(&b)), 0);
    assert_eq!(ledger.balance(&slot_of(&a)), 500);
    assert_eq!(ledger.balance(&bank()), 0);
    assert_eq!(ledger.supply(), 1600);
}
