use vstd::prelude::*;

verus! {

/// Seed string kept for clients that derive auxiliary addresses.
pub const SEED: &'static str = "anchor";

/// Namespace tag of the per-user custody slots: the ASCII bytes of
/// `user_sub_account`.
pub const USER_SUB_ACCOUNT: [u8; 16] = [
    117, 115, 101, 114, 95, 115, 117, 98, 95, 97, 99, 99, 111, 117, 110, 116,
];

/// Namespace tag of the shared pool slot: the ASCII bytes of `bank_account`.
pub const BANK_ACCOUNT: [u8; 12] = [98, 97, 110, 107, 95, 97, 99, 99, 111, 117, 110, 116];

proof fn check_tags()
{
    assert(USER_SUB_ACCOUNT@.len() == 16);
    assert(USER_SUB_ACCOUNT@[0] == 117u8);
    assert(BANK_ACCOUNT@[11] == 116u8);
}

} // verus!
