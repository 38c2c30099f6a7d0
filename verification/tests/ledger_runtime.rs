use solball::authority::AccountKind;
use solball::{DerivedAuthority, ErrorCode, Ledger, Pubkey, Signer};

fn runtime_key(tag: u8) -> Pubkey {
    let mut bytes = [0u8; 32];
    bytes[0] = tag;
    bytes[31] = 7;
    Pubkey::new_from_array(bytes)
}

fn runtime_program() -> Pubkey {
    runtime_key(200)
}

fn runtime_signed(owner: Pubkey) -> Signer {
    Signer { key: owner, is_signer: true }
}

#[test]
fn a_new_ledger_is_empty() {
    let ledger = Ledger::new(runtime_program());
    assert_eq!(ledger.program_id(), runtime_program());
    assert_eq!(ledger.supply(), 0);
    assert_eq!(ledger.balance(&runtime_key(1)), 0);
    assert_eq!(ledger.account_kind(&runtime_key(1)), None);
}

#[test]
fn airdrop_opens_and_credits_a_wallet() {
    let mut ledger = Ledger::new(runtime_program());
    assert!(ledger.airdrop(&runtime_key(1), 40));
    assert!(ledger.airdrop(&runtime_key(1), 2));
    assert!(ledger.airdrop(&runtime_key(2), 0));
    assert_eq!(ledger.balance(&runtime_key(1)), 42);
    assert_eq!(ledger.balance(&runtime_key(2)), 0);
    assert_eq!(ledger.account_kind(&runtime_key(1)), Some(AccountKind::Wallet));
    assert_eq!(ledger.account_kind(&runtime_key(2)), Some(AccountKind::Wallet));
    assert_eq!(ledger.account_kind(&runtime_key(3)), None);
    assert_eq!(ledger.supply(), 42);
}

#[test]
fn airdrop_is_refused_where_the_supply_would_overflow() {
    let mut ledger = Ledger::new(runtime_program());
    assert!(ledger.airdrop(&runtime_key(1), u64::MAX - 5));
    assert!(!ledger.airdrop(&runtime_key(2), 6));
    assert!(!ledger.airdrop(&runtime_key(1), u64::MAX));
    assert_eq!(ledger.balance(&runtime_key(2)), 0);
    assert_eq!(ledger.account_kind(&runtime_key(2)), None);
    assert_eq!(ledger.supply(), u64::MAX - 5);
    assert!(ledger.airdrop(&runtime_key(2), 5));
    assert_eq!(ledger.supply(), u64::MAX);
    assert_eq!(
        ledger.transfer(&runtime_signed(runtime_key(1)), &runtime_key(2), u64::MAX - 5),
        Ok(())
    );
    assert_eq!(ledger.balance(&runtime_key(2)), u64::MAX);
    assert_eq!(ledger.balance(&runtime_key(1)), 0);
}

#[test]
fn signed_transfer_moves_funds_between_wallets() {
    let mut ledger = Ledger::new(runtime_program());
    assert!(ledger.airdrop(&runtime_key(1), 100));
    assert_eq!(ledger.transfer(&runtime_signed(runtime_key(1)), &runtime_key(2), 30), Ok(()));
    assert_eq!(ledger.balance(&runtime_key(1)), 70);
    assert_eq!(ledger.balance(&runtime_key(2)), 30);
    assert_eq!(ledger.account_kind(&runtime_key(2)), Some(AccountKind::Wallet));
    assert_eq!(ledger.supply(), 100);
    assert_eq!(ledger.transfer(&runtime_signed(runtime_key(1)), &runtime_key(1), 70), Ok(()));
    assert_eq!(ledger.balance(&runtime_key(1)), 70);
}

#[test]
fn signed_transfer_needs_the_signature_and_the_funds() {
    let mut ledger = Ledger::new(runtime_program());
    assert!(ledger.airdrop(&runtime_key(1), 100));
    let unsigned = Signer { key: runtime_key(1), is_signer: false };
    assert_eq!(
        ledger.transfer(&unsigned, &runtime_key(2), 30),
        Err(ErrorCode::AuthorizationFailure)
    );
    assert_eq!(
        ledger.transfer(&runtime_signed(runtime_key(1)), &runtime_key(2), 101),
        Err(ErrorCode::InsufficientFunds)
    );
    assert_eq!(
        ledger.transfer(&runtime_signed(runtime_key(3)), &runtime_key(2), 1),
        Err(ErrorCode::InsufficientFunds)
    );
    assert_eq!(ledger.balance(&runtime_key(1)), 100);
    assert_eq!(ledger.account_kind(&runtime_key(2)), None);
}

#[test]
fn moving_nothing_creates_no_account() {
    let mut ledger = Ledger::new(runtime_program());
    assert_eq!(ledger.transfer(&runtime_signed(runtime_key(3)), &runtime_key(2), 0), Ok(()));
    assert_eq!(ledger.account_kind(&runtime_key(2)), None);
    assert_eq!(ledger.account_kind(&runtime_key(3)), None);
    assert!(ledger.airdrop(&runtime_key(3), 5));
    assert_eq!(ledger.transfer(&runtime_signed(runtime_key(3)), &runtime_key(2), 0), Ok(()));
    assert_eq!(ledger.account_kind(&runtime_key(2)), None);
}

#[test]
fn a_slot_is_created_once_and_empty() {
    let mut ledger = Ledger::new(runtime_program());
    let owner = runtime_key(1);
    let slot = DerivedAuthority::custody(&runtime_program(), &owner).expect("a slot");
    assert_eq!(ledger.create_account(&slot), Ok(()));
    assert_eq!(ledger.account_kind(&slot.key()), Some(slot.account_kind()));
    assert_eq!(ledger.balance(&slot.key()), 0);
    assert!(ledger.airdrop(&slot.key(), 9));
    assert_eq!(ledger.create_account(&slot), Err(ErrorCode::AlreadyInitialized));
    assert_eq!(ledger.balance(&slot.key()), 9);
    assert_eq!(ledger.account_kind(&slot.key()), Some(slot.account_kind()));
}

#[test]
fn a_funded_address_cannot_become_a_slot() {
    let mut ledger = Ledger::new(runtime_program());
    let pool = DerivedAuthority::pool(&runtime_program()).expect("a pool address");
    assert!(ledger.airdrop(&pool.key(), 1));
    assert_eq!(ledger.create_account(&pool), Err(ErrorCode::AlreadyInitialized));
    assert_eq!(ledger.account_kind(&pool.key()), Some(AccountKind::Wallet));
}

#[test]
fn an_authority_of_another_program_is_turned_away() {
    let mut ledger = Ledger::new(runtime_program());
    let foreign = DerivedAuthority::pool(&runtime_key(201)).expect("a pool address");
    assert_eq!(ledger.create_account(&foreign), Err(ErrorCode::AuthorizationFailure));
    assert_eq!(
        foreign.sign_transfer(&mut ledger, &runtime_key(1), 0),
        Err(ErrorCode::AuthorizationFailure)
    );
    assert_eq!(ledger.account_kind(&foreign.key()), None);
}

#[test]
fn no_signature_moves_funds_out_of_a_slot() {
    let mut ledger = Ledger::new(runtime_program());
    let slot = DerivedAuthority::custody(&runtime_program(), &runtime_key(1)).expect("a slot");
    assert_eq!(ledger.create_account(&slot), Ok(()));
    assert!(ledger.airdrop(&slot.key(), 50));
    assert_eq!(
        ledger.transfer(&runtime_signed(slot.key()), &runtime_key(2), 10),
        Err(ErrorCode::AuthorizationFailure)
    );
    assert_eq!(ledger.balance(&slot.key()), 50);
}

#[test]
fn the_authority_moves_funds_out_of_its_slot() {
    let mut ledger = Ledger::new(runtime_program());
    let slot = DerivedAuthority::custody(&runtime_program(), &runtime_key(1)).expect("a slot");
    assert_eq!(
        slot.sign_transfer(&mut ledger, &runtime_key(2), 1),
        Err(ErrorCode::InsufficientFunds)
    );
    assert_eq!(slot.sign_transfer(&mut ledger, &runtime_key(2), 0), Ok(()));
    assert_eq!(ledger.create_account(&slot), Ok(()));
    assert!(ledger.airdrop(&slot.key(), 50));
    assert_eq!(slot.sign_transfer(&mut ledger, &runtime_key(2), 20), Ok(()));
    assert_eq!(ledger.balance(&slot.key()), 30);
    assert_eq!(ledger.balance(&runtime_key(2)), 20);
    assert_eq!(
        slot.sign_transfer(&mut ledger, &runtime_key(2), 31),
        Err(ErrorCode::InsufficientFunds)
    );
    assert_eq!(slot.sign_transfer(&mut ledger, &slot.key(), 30), Ok(()));
    assert_eq!(ledger.balance(&slot.key()), 30);
    assert_eq!(ledger.supply(), 50);
}

#[test]
fn the_authority_refuses_an_account_of_another_kind() {
    let mut ledger = Ledger::new(runtime_program());
    let slot = DerivedAuthority::custody(&runtime_program(), &runtime_key(1)).expect("a slot");
    assert!(ledger.airdrop(&slot.key(), 50));
    assert_eq!(
        slot.sign_transfer(&mut ledger, &runtime_key(2), 20),
        Err(ErrorCode::DerivationMismatch)
    );
    assert_eq!(ledger.balance(&slot.key()), 50);
}

#[test]
fn a_snapshot_is_a_separate_ledger() {
    let mut ledger = Ledger::new(runtime_program());
    assert!(ledger.airdrop(&runtime_key(1), 100));
    let mut staged = ledger.snapshot();
    assert_eq!(staged.transfer(&runtime_signed(runtime_key(1)), &runtime_key(2), 30), Ok(()));
    assert_eq!(staged.balance(&runtime_key(1)), 70);
    assert_eq!(ledger.balance(&runtime_key(1)), 100);
    assert_eq!(ledger.account_kind(&runtime_key(2)), None);
    assert_eq!(staged.program_id(), ledger.program_id());
    assert_eq!(staged.supply(), ledger.supply());
}
