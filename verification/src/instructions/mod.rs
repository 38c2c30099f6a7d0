pub mod deposit;
pub mod init_bank;
pub mod join_match;
pub mod settle_match;
pub mod withdraw;

pub use deposit::{deposit, deposit_at, deposit_outcome, deposit_with, deposit_with_outcome, Deposit};
pub use init_bank::{
    init_bank, init_bank_at, init_bank_outcome, init_bank_with, init_bank_with_outcome, InitBank,
};
pub(crate) use join_match::lemma_join_with_slots;
pub use join_match::{
    is_slot_of, join_all, join_match, join_match_outcome, join_match_with,
    join_match_with_outcome, join_step, join_with_all, join_with_step,
    Joinmatch,
};
pub use settle_match::{
    settle_all, settle_at, settle_match, settle_match_outcome, settle_match_with,
    settle_match_with_outcome, SettleMatch,
};
pub use withdraw::{
    owned_by_other, withdraw, withdraw_at, withdraw_outcome, withdraw_with,
    withdraw_with_outcome, Withdraw,
};
