use solball::{
    deposit_with, init_bank_with, join_match_with, settle_match_with, withdraw_with, Deposit,
    DerivedAuthority, ErrorCode, InitBank, Joinmatch, Ledger, Pubkey, SettleMatch, Signer,
    Withdraw,
};

fn held_key(tag: u8) -> Pubkey {
    let mut bytes = [0u8; 32];
    bytes[0] = tag;
    bytes[31] = 7;
    Pubkey::new_from_array(bytes)
}

fn held_program() -> Pubkey {
    held_key(200)
}

fn held_signed(owner: Pubkey) -> Signer {
    Signer { key: owner, is_signer: true }
}

fn slot_authority(owner: &Pubkey) -> DerivedAuthority {
    DerivedAuthority::custody(&held_program(), owner).expect("a slot")
}

fn pool_authority() -> DerivedAuthority {
    DerivedAuthority::pool(&held_program()).expect("a pool address")
}

/// A ledger with an open pool and 1000 in the wallet of each owner.
fn open_ledger(owners: &[Pubkey]) -> Ledger {
    let mut ledger = Ledger::new(held_program());
    let pool = pool_authority();
    let request = InitBank { admin: held_signed(held_key(9)), bank_account: pool.key() };
    assert_eq!(init_bank_with(&mut ledger, &request, &pool), Ok(()));
    for owner in owners {
        assert!(ledger.airdrop(owner, 1000));
    }
    ledger
}

#[test]
fn a_match_under_authorities_at_hand() {
    let a = held_key(1);
    let b = held_key(2);
    let mut ledger = open_ledger(&[a, b]);
    let pool = pool_authority();
    for owner in [a, b] {
        let slot = slot_authority(&owner);
        let request = Deposit { signer: held_signed(owner), user_sub_account: slot.key() };
        assert_eq!(deposit_with(&mut ledger, &request, &slot, 600), Ok(()));
    }
    let join = Joinmatch { signer: held_signed(held_key(9)), bank_account: pool.key() };
    let slots = vec![slot_authority(&a), slot_authority(&b), slot_authority(&a)];
    assert_eq!(join_match_with(&mut ledger, &join, &pool, 250, &slots), Ok(()));
    assert_eq!(ledger.balance(&slot_authority(&a).key()), 100);
    assert_eq!(ledger.balance(&slot_authority(&b).key()), 350);
    assert_eq!(ledger.balance(&pool.key()), 750);
    let settle = SettleMatch { signer: held_signed(held_key(9)), bank_account: pool.key() };
    assert_eq!(settle_match_with(&mut ledger, &settle, &pool, 375, &vec![b, b]), Ok(()));
    assert_eq!(ledger.balance(&b), 1150);
    assert_eq!(ledger.balance(&pool.key()), 0);
    let slot = slot_authority(&b);
    let back = Withdraw { signer: held_signed(b), user_sub_account: slot.key() };
    assert_eq!(withdraw_with(&mut ledger, &back, &slot, 351), Err(ErrorCode::InsufficientFunds));
    assert_eq!(withdraw_with(&mut ledger, &back, &slot, 350), Ok(()));
    assert_eq!(ledger.balance(&b), 1500);
    assert_eq!(ledger.supply(), 2000);
}

#[test]
fn the_authority_of_another_owner_is_turned_away() {
    let a = held_key(1);
    let b = held_key(2);
    let mut ledger = open_ledger(&[a, b]);
    let mine = slot_authority(&a);
    let theirs = slot_authority(&b);
    let request = Deposit { signer: held_signed(a), user_sub_account: mine.key() };
    assert_eq!(
        deposit_with(&mut ledger, &request, &theirs, 10),
        Err(ErrorCode::AuthorizationFailure)
    );
    assert_eq!(
        deposit_with(&mut ledger, &request, &pool_authority(), 10),
        Err(ErrorCode::AuthorizationFailure)
    );
    assert_eq!(deposit_with(&mut ledger, &request, &mine, 10), Ok(()));
    let back = Withdraw { signer: held_signed(a), user_sub_account: mine.key() };
    assert_eq!(
        withdraw_with(&mut ledger, &back, &theirs, 10),
        Err(ErrorCode::AuthorizationFailure)
    );
    let theft = Withdraw { signer: held_signed(b), user_sub_account: mine.key() };
    assert_eq!(
        withdraw_with(&mut ledger, &theft, &theirs, 10),
        Err(ErrorCode::AuthorizationFailure)
    );
    assert_eq!(
        withdraw_with(&mut ledger, &theft, &mine, 10),
        Err(ErrorCode::AuthorizationFailure)
    );
    assert_eq!(ledger.balance(&mine.key()), 10);
    assert_eq!(ledger.balance(&a), 990);
}

#[test]
fn the_authority_of_another_program_is_turned_away() {
    let a = held_key(1);
    let mut ledger = open_ledger(&[a]);
    let foreign_pool = DerivedAuthority::pool(&held_key(201)).expect("a pool address");
    let foreign_slot = DerivedAuthority::custody(&held_key(201), &a).expect("a slot");
    let request = Deposit { signer: held_signed(a), user_sub_account: foreign_slot.key() };
    assert_eq!(
        deposit_with(&mut ledger, &request, &foreign_slot, 10),
        Err(ErrorCode::AuthorizationFailure)
    );
    let open = InitBank { admin: held_signed(a), bank_account: foreign_pool.key() };
    assert_eq!(
        init_bank_with(&mut ledger, &open, &foreign_pool),
        Err(ErrorCode::AuthorizationFailure)
    );
    let join = Joinmatch { signer: held_signed(a), bank_account: foreign_pool.key() };
    assert_eq!(
        join_match_with(&mut ledger, &join, &foreign_pool, 0, &vec![]),
        Err(ErrorCode::AuthorizationFailure)
    );
    let settle = SettleMatch { signer: held_signed(a), bank_account: foreign_pool.key() };
    assert_eq!(
        settle_match_with(&mut ledger, &settle, &foreign_pool, 0, &vec![]),
        Err(ErrorCode::AuthorizationFailure)
    );
    assert_eq!(ledger.account_kind(&foreign_pool.key()), None);
    assert_eq!(ledger.account_kind(&foreign_slot.key()), None);
}

#[test]
fn a_slot_authority_does_not_stand_in_for_the_pool() {
    let a = held_key(1);
    let mut ledger = open_ledger(&[a]);
    let slot = slot_authority(&a);
    let pool = pool_authority();
    let open = InitBank { admin: held_signed(a), bank_account: slot.key() };
    assert_eq!(init_bank_with(&mut ledger, &open, &slot), Err(ErrorCode::AuthorizationFailure));
    let settle = SettleMatch { signer: held_signed(a), bank_account: slot.key() };
    assert_eq!(
        settle_match_with(&mut ledger, &settle, &slot, 1, &vec![a]),
        Err(ErrorCode::AuthorizationFailure)
    );
    assert!(ledger.airdrop(&pool.key(), 100));
    let join = Joinmatch { signer: held_signed(a), bank_account: pool.key() };
    assert_eq!(
        join_match_with(&mut ledger, &join, &pool, 10, &vec![pool_authority()]),
        Err(ErrorCode::AuthorizationFailure)
    );
    assert_eq!(ledger.balance(&pool.key()), 100);
}

#[test]
fn requests_under_an_authority_still_need_the_signature_and_the_named_slot() {
    let a = held_key(1);
    let mut ledger = open_ledger(&[a]);
    let slot = slot_authority(&a);
    let pool = pool_authority();
    let unsigned =
        Deposit { signer: Signer { key: a, is_signer: false }, user_sub_account: slot.key() };
    assert_eq!(
        deposit_with(&mut ledger, &unsigned, &slot, 10),
        Err(ErrorCode::AuthorizationFailure)
    );
    let elsewhere = Deposit { signer: held_signed(a), user_sub_account: pool.key() };
    assert_eq!(
        deposit_with(&mut ledger, &elsewhere, &slot, 10),
        Err(ErrorCode::DerivationMismatch)
    );
    let again = InitBank { admin: held_signed(a), bank_account: pool.key() };
    assert_eq!(init_bank_with(&mut ledger, &again, &pool), Err(ErrorCode::AlreadyInitialized));
    let misnamed = Joinmatch { signer: held_signed(a), bank_account: slot.key() };
    assert_eq!(
        join_match_with(&mut ledger, &misnamed, &pool, 10, &vec![]),
        Err(ErrorCode::DerivationMismatch)
    );
    let join = Joinmatch { signer: held_signed(a), bank_account: pool.key() };
    assert_eq!(
        join_match_with(&mut ledger, &join, &pool, 10, &vec![slot_authority(&a)]),
        Err(ErrorCode::InsufficientFunds)
    );
    assert_eq!(ledger.balance(&a), 1000);
    assert_eq!(ledger.balance(&pool.key()), 0);
}
