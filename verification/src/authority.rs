use vstd::prelude::*;
use vstd::slice::slice_to_vec;
use vstd::std_specs::cmp::PartialEqSpecImpl;
use crate::constants::{BANK_ACCOUNT, USER_SUB_ACCOUNT};
use crate::pubkey::Pubkey;

verus! {

/// What stands at an address of the ledger.
#[derive(Clone, Copy, Debug)]
pub enum AccountKind {
    /// An externally-ownable account, moved by its key holder's signature.
    Wallet,
    /// The custody slot of `owner`, found with the nonce `bump`.
    Custody { owner: Pubkey, bump: u8 },
    /// The shared pool slot, found with the nonce `bump`.
    Pool { bump: u8 },
}

impl PartialEq for AccountKind {
    /// Whether two kinds are the same, owner and nonce included.
    fn eq(&self, other: &AccountKind) -> (same: bool) {
        match (self, other) {
            (AccountKind::Wallet, AccountKind::Wallet) => true,
            (
                AccountKind::Custody { owner: a, bump: x },
                AccountKind::Custody { owner: b, bump: y },
            ) => *a == *b && *x == *y,
            (AccountKind::Pool { bump: x }, AccountKind::Pool { bump: y }) => *x == *y,
            _ => false,
        }
    }
}

impl PartialEqSpecImpl for AccountKind {
    open spec fn obeys_eq_spec() -> bool {
        true
    }

    open spec fn eq_spec(&self, other: &AccountKind) -> bool {
        *self == *other
    }
}

/// The address and nonce that the runtime's derivation search yields for
/// `seeds` under `program_id`. `None` where no nonce gives an address outside
/// the space of externally-ownable addresses, or where the runtime does not
/// accept the seeds.
pub uninterp spec fn program_address(seeds: Seq<Seq<u8>>, program_id: Seq<u8>) -> Option<(Seq<u8>, u8)>;

/// The seeds as sequences of bytes.
pub open spec fn seeds_view(seeds: &Vec<Vec<u8>>) -> Seq<Seq<u8>> {
    Seq::new(seeds@.len(), |i: int| seeds@[i]@)
}

/// Calls `Pubkey::try_find_program_address` of `anchor_lang`. The search is
/// a function of the seeds and the program identifier alone; the contract
/// gives its outcome the name `program_address` and claims nothing else.
#[verifier::external_body]
fn try_find_program_address(seeds: &Vec<Vec<u8>>, program_id: &Pubkey) -> (found: Option<(Pubkey, u8)>)
    ensures
        match found {
            Some((address, bump)) => program_address(seeds_view(seeds), program_id@) == Some(
                (address@, bump),
            ),
            None => program_address(seeds_view(seeds), program_id@) is None,
        },
{
    let parts: Vec<&[u8]> = seeds.iter().map(|seed| seed.as_slice()).collect();
    let id = anchor_lang::prelude::Pubkey::new_from_array(program_id.bytes);
    anchor_lang::prelude::Pubkey::try_find_program_address(&parts, &id).map(
        |(address, bump)| (Pubkey { bytes: address.to_bytes() }, bump),
    )
}

/// The seeds of a derivation: the namespace tag, then the owner where the
/// slot has one.
pub open spec fn derivation_seeds(namespace_tag: Seq<u8>, owner: Option<Pubkey>) -> Seq<Seq<u8>> {
    match owner {
        Some(identity) => seq![namespace_tag, identity@],
        None => seq![namespace_tag],
    }
}

/// What derivation yields for the custody slot of `owner`.
pub open spec fn custody_address(program_id: Pubkey, owner: Pubkey) -> Option<(Seq<u8>, u8)> {
    program_address(derivation_seeds(USER_SUB_ACCOUNT@, Some(owner)), program_id@)
}

/// What derivation yields for the pool slot.
pub open spec fn pool_address(program_id: Pubkey) -> Option<(Seq<u8>, u8)> {
    program_address(derivation_seeds(BANK_ACCOUNT@, None), program_id@)
}

/// `found` is what derivation yields for `seeds` under `program_id`.
pub open spec fn is_derivation(
    seeds: Seq<Seq<u8>>,
    program_id: Pubkey,
    found: Option<(Pubkey, u8)>,
) -> bool {
    match found {
        Some((address, bump)) => program_address(seeds, program_id@) == Some((address@, bump)),
        None => program_address(seeds, program_id@) is None,
    }
}

/// Derives the address and nonce of the slot that `namespace_tag` and
/// `owner` name under `program_id`. `None` where no nonce gives an address
/// outside the space of externally-ownable addresses, or where the runtime
/// does not accept the tag as a seed.
pub fn derive(program_id: &Pubkey, namespace_tag: &[u8], owner: Option<Pubkey>) -> (found: Option<
    (Pubkey, u8),
>)
    ensures
        is_derivation(derivation_seeds(namespace_tag@, owner), *program_id, found),
{
    let mut seeds: Vec<Vec<u8>> = Vec::new();
    seeds.push(slice_to_vec(namespace_tag));
    match owner {
        Some(identity) => {
            let bytes = identity.to_bytes();
            seeds.push(slice_to_vec(&bytes));
        },
        None => {},
    }
    proof {
        assert(seeds_view(&seeds) =~= derivation_seeds(namespace_tag@, owner));
    }
    try_find_program_address(&seeds, program_id)
}

/// `address` is where derivation puts a slot of kind `kind`. No derivation
/// yields a wallet.
pub open spec fn derives(program_id: Pubkey, kind: AccountKind, address: Seq<u8>) -> bool {
    match kind {
        AccountKind::Wallet => false,
        AccountKind::Custody { owner, bump } => custody_address(program_id, owner) == Some(
            (address, bump),
        ),
        AccountKind::Pool { bump } => pool_address(program_id) == Some((address, bump)),
    }
}

/// The nonce of a slot; a wallet has none.
pub open spec fn bump_of(kind: AccountKind) -> u8 {
    match kind {
        AccountKind::Wallet => 0,
        AccountKind::Custody { bump, .. } => bump,
        AccountKind::Pool { bump } => bump,
    }
}

/// The seeds of a slot's derivation, then its nonce as a seed of one byte.
pub open spec fn signer_seeds_of(kind: AccountKind) -> Seq<Seq<u8>> {
    match kind {
        AccountKind::Wallet => Seq::empty(),
        AccountKind::Custody { owner, bump } => derivation_seeds(
            USER_SUB_ACCOUNT@,
            Some(owner),
        ).push(seq![bump]),
        AccountKind::Pool { bump } => derivation_seeds(BANK_ACCOUNT@, None).push(seq![bump]),
    }
}

/// The right to move funds out of one derived slot. A value of this type
/// exists only as the result of a derivation, so holding one shows that its
/// holder reproduced the seeds of the slot's address.
pub struct DerivedAuthority {
    program_id: Pubkey,
    address: Pubkey,
    kind: AccountKind,
}

impl DerivedAuthority {
    /// The program under which the slot was derived.
    pub closed spec fn program(&self) -> Pubkey {
        self.program_id
    }

    /// The derived address.
    pub closed spec fn address(&self) -> Pubkey {
        self.address
    }

    /// The slot that belongs at the address.
    pub closed spec fn kind(&self) -> AccountKind {
        self.kind
    }

    #[verifier::type_invariant]
    pub open spec fn derived(self) -> bool {
        derives(self.program(), self.kind(), self.address()@)
    }

    /// This is the authority over the custody slot of `owner` under
    /// `program_id`.
    pub open spec fn is_custody_of(&self, program_id: Pubkey, owner: Pubkey) -> bool {
        &&& self.program() == program_id
        &&& self.kind() matches AccountKind::Custody { owner: identity, .. }
        &&& identity == owner
    }

    /// This is the authority over the pool slot under `program_id`.
    pub open spec fn is_pool_of(&self, program_id: Pubkey) -> bool {
        self.program() == program_id && self.kind() is Pool
    }

    /// The authority over the custody slot of `owner`.
    pub fn custody(program_id: &Pubkey, owner: &Pubkey) -> (authority: Option<DerivedAuthority>)
        ensures
            match authority {
                Some(a) => {
                    &&& a.program() == *program_id
                    &&& a.kind() matches AccountKind::Custody { owner: identity, bump }
                    &&& identity == *owner
                    &&& custody_address(*program_id, *owner) == Some((a.address()@, bump))
                },
                None => custody_address(*program_id, *owner) is None,
            },
    {
        match derive(program_id, &USER_SUB_ACCOUNT, Some(*owner)) {
            Some((address, bump)) => Some(
                DerivedAuthority {
                    program_id: *program_id,
                    address,
                    kind: AccountKind::Custody { owner: *owner, bump },
                },
            ),
            None => None,
        }
    }

    /// The authority over the pool slot.
    pub fn pool(program_id: &Pubkey) -> (authority: Option<DerivedAuthority>)
        ensures
            match authority {
                Some(a) => {
                    &&& a.program() == *program_id
                    &&& a.kind() matches AccountKind::Pool { bump }
                    &&& pool_address(*program_id) == Some((a.address()@, bump))
                },
                None => pool_address(*program_id) is None,
            },
    {
        match derive(program_id, &BANK_ACCOUNT, None) {
            Some((address, bump)) => Some(
                DerivedAuthority {
                    program_id: *program_id,
                    address,
                    kind: AccountKind::Pool { bump },
                },
            ),
            None => None,
        }
    }

    /// The derived address.
    pub fn key(&self) -> (address: Pubkey)
        ensures
            address == self.address(),
    {
        self.address
    }

    /// The slot that belongs at the address.
    pub fn account_kind(&self) -> (kind: AccountKind)
        ensures
            kind == self.kind(),
    {
        self.kind
    }

    /// The program under which the slot was derived.
    pub fn program_id(&self) -> (program_id: Pubkey)
        ensures
            program_id == self.program(),
    {
        self.program_id
    }

    /// Whether this is the authority over the custody slot of `owner` under
    /// `program_id`.
    pub fn governs_custody_of(&self, program_id: &Pubkey, owner: &Pubkey) -> (governs: bool)
        ensures
            governs == self.is_custody_of(*program_id, *owner),
    {
        match self.kind {
            AccountKind::Custody { owner: identity, bump: _ } => self.program_id == *program_id
                && identity == *owner,
            _ => false,
        }
    }

    /// Whether this is the authority over the pool slot under `program_id`.
    pub fn governs_pool_of(&self, program_id: &Pubkey) -> (governs: bool)
        ensures
            governs == self.is_pool_of(*program_id),
    {
        match self.kind {
            AccountKind::Pool { bump: _ } => self.program_id == *program_id,
            _ => false,
        }
    }

    /// The nonce that derivation found for the address.
    pub fn bump(&self) -> (bump: u8)
        ensures
            bump == bump_of(self.kind()),
    {
        match self.kind {
            AccountKind::Custody { owner: _, bump } => bump,
            AccountKind::Pool { bump } => bump,
            AccountKind::Wallet => 0,
        }
    }

    /// The seeds with which the runtime is asked to move funds out of the
    /// slot: those of the derivation, then the nonce.
    pub fn signer_seeds(&self) -> (seeds: Vec<Vec<u8>>)
        ensures
            seeds_view(&seeds) == signer_seeds_of(self.kind()),
    {
        let mut seeds: Vec<Vec<u8>> = Vec::new();
        match self.kind {
            AccountKind::Custody { owner, bump } => {
                let bytes = owner.to_bytes();
                let mut nonce: Vec<u8> = Vec::new();
                nonce.push(bump);
                seeds.push(slice_to_vec(&USER_SUB_ACCOUNT));
                seeds.push(slice_to_vec(&bytes));
                seeds.push(nonce);
            },
            AccountKind::Pool { bump } => {
                let mut nonce: Vec<u8> = Vec::new();
                nonce.push(bump);
                seeds.push(slice_to_vec(&BANK_ACCOUNT));
                seeds.push(nonce);
            },
            AccountKind::Wallet => {},
        }
        proof {
            assert(seeds_view(&seeds) =~= signer_seeds_of(self.kind()));
        }
        seeds
    }
}

} // verus!
