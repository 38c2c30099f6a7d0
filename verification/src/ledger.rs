use vstd::prelude::*;
use crate::authority::{derives, AccountKind, DerivedAuthority};
use crate::error::ErrorCode;
use crate::pubkey::{lemma_view_injective, Pubkey};
use crate::state::{
    applied, balance_of, consistent, credited, debited, derived_transfer, kind_of, moved, opened,
    signed_transfer, AccountState, Signer, State,
};

verus! {

/// One account of the ledger.
#[derive(Clone, Copy, Debug)]
struct Account {
    address: Pubkey,
    lamports: u64,
    kind: AccountKind,
}

/// The accounts that one program keeps custody of, with the wallets that
/// fund them. No two accounts share an address, all balances together fit
/// in a `u64`, and every slot stands at its derived address.
pub struct Ledger {
    program_id: Pubkey,
    accounts: Vec<Account>,
}

spec fn state_of(account: Account) -> AccountState {
    AccountState { lamports: account.lamports as nat, kind: account.kind }
}

spec fn sits(accounts: Seq<Account>, i: int, address: Seq<u8>) -> bool {
    0 <= i < accounts.len() && accounts[i].address@ == address
}

spec fn as_map(accounts: Seq<Account>) -> State {
    Map::new(
        |address: Seq<u8>| exists|i: int| sits(accounts, i, address),
        |address: Seq<u8>| state_of(accounts[choose|i: int| sits(accounts, i, address)]),
    )
}

spec fn distinct(accounts: Seq<Account>) -> bool {
    forall|i: int, j: int|
        0 <= i < j < accounts.len() ==> accounts[i].address@ != accounts[j].address@
}

spec fn sum(accounts: Seq<Account>) -> nat
    decreases accounts.len(),
{
    if accounts.len() == 0 {
        0
    } else {
        sum(accounts.drop_last()) + accounts.last().lamports as nat
    }
}

spec fn placed(accounts: Seq<Account>, program_id: Pubkey) -> bool {
    forall|i: int|
        0 <= i < accounts.len() ==> accounts[i].kind is Wallet || derives(
            program_id,
            #[trigger] accounts[i].kind,
            accounts[i].address@,
        )
}

/// Every account of `after` is a wallet or an account of `before` that
/// kept its address and kind.
spec fn kinds_kept(before: Seq<Account>, after: Seq<Account>) -> bool {
    forall|i: int|
        0 <= i < after.len() ==> (#[trigger] after[i].kind) is Wallet || (i < before.len()
            && after[i].kind == before[i].kind && after[i].address == before[i].address)
}

proof fn lemma_as_map_at(accounts: Seq<Account>, i: int)
    requires
        distinct(accounts),
        0 <= i < accounts.len(),
    ensures
        as_map(accounts).contains_key(accounts[i].address@),
        as_map(accounts)[accounts[i].address@] == state_of(accounts[i]),
{
    let address = accounts[i].address@;
    assert(sits(accounts, i, address));
    let k = choose|k: int| sits(accounts, k, address);
    assert(k == i) by {
        if k < i {
            assert(accounts[k].address@ != accounts[i].address@);
        } else if i < k {
            assert(accounts[i].address@ != accounts[k].address@);
        }
    }
}

proof fn lemma_as_map_absent(accounts: Seq<Account>, address: Seq<u8>)
    requires
        forall|i: int| 0 <= i < accounts.len() ==> accounts[i].address@ != address,
    ensures
        !as_map(accounts).contains_key(address),
{
    assert forall|i: int| !sits(accounts, i, address) by {}
}

proof fn lemma_as_map_update(accounts: Seq<Account>, i: int, next: Account)
    requires
        distinct(accounts),
        0 <= i < accounts.len(),
        next.address == accounts[i].address,
    ensures
        distinct(accounts.update(i, next)),
        as_map(accounts.update(i, next)) == as_map(accounts).insert(
            next.address@,
            state_of(next),
        ),
{
    let after = accounts.update(i, next);
    assert(distinct(after)) by {
        assert forall|a: int, b: int| 0 <= a < b < after.len() implies after[a].address@
            != after[b].address@ by {
            assert(accounts[a].address@ != accounts[b].address@);
        }
    }
    let expected = as_map(accounts).insert(next.address@, state_of(next));
    assert forall|address: Seq<u8>| as_map(after).contains_key(address) implies #[trigger]
        expected.contains_key(address) && as_map(after)[address] == expected[address] by {
        let k = choose|k: int| sits(after, k, address);
        assert(sits(after, k, address));
        assert(sits(accounts, k, address));
        lemma_as_map_at(accounts, k);
        lemma_as_map_at(after, k);
    }
    assert forall|address: Seq<u8>| expected.contains_key(address) implies #[trigger] as_map(
        after,
    ).contains_key(address) by {
        if address == next.address@ {
            assert(sits(after, i, address));
        } else {
            let k = choose|k: int| sits(accounts, k, address);
            assert(sits(accounts, k, address));
            assert(sits(after, k, address));
        }
    }
    assert(as_map(after) =~= expected);
}

proof fn lemma_as_map_push(accounts: Seq<Account>, next: Account)
    requires
        distinct(accounts),
        forall|i: int| 0 <= i < accounts.len() ==> accounts[i].address@ != next.address@,
    ensures
        distinct(accounts.push(next)),
        as_map(accounts.push(next)) == as_map(accounts).insert(next.address@, state_of(next)),
{
    let after = accounts.push(next);
    assert(distinct(after)) by {
        assert forall|a: int, b: int| 0 <= a < b < after.len() implies after[a].address@
            != after[b].address@ by {
            if b < accounts.len() {
                assert(accounts[a].address@ != accounts[b].address@);
            }
        }
    }
    let expected = as_map(accounts).insert(next.address@, state_of(next));
    assert forall|address: Seq<u8>| as_map(after).contains_key(address) implies #[trigger]
        expected.contains_key(address) && as_map(after)[address] == expected[address] by {
        let k = choose|k: int| sits(after, k, address);
        assert(sits(after, k, address));
        lemma_as_map_at(after, k);
        if k < accounts.len() {
            assert(sits(accounts, k, address));
            lemma_as_map_at(accounts, k);
        }
    }
    assert forall|address: Seq<u8>| expected.contains_key(address) implies #[trigger] as_map(
        after,
    ).contains_key(address) by {
        if address == next.address@ {
            assert(sits(after, accounts.len() as int, address));
        } else {
            let k = choose|k: int| sits(accounts, k, address);
            assert(sits(accounts, k, address));
            assert(sits(after, k, address));
        }
    }
    assert(as_map(after) =~= expected);
}

proof fn lemma_sum_push(accounts: Seq<Account>, next: Account)
    ensures
        sum(accounts.push(next)) == sum(accounts) + next.lamports,
{
    assert(accounts.push(next).drop_last() =~= accounts);
}

proof fn lemma_sum_update(accounts: Seq<Account>, i: int, next: Account)
    requires
        0 <= i < accounts.len(),
    ensures
        sum(accounts.update(i, next)) == sum(accounts) - accounts[i].lamports + next.lamports,
    decreases accounts.len(),
{
    if i == accounts.len() - 1 {
        assert(accounts.update(i, next).drop_last() =~= accounts.drop_last());
    } else {
        lemma_sum_update(accounts.drop_last(), i, next);
        assert(accounts.update(i, next).drop_last() =~= accounts.drop_last().update(i, next));
    }
}

proof fn lemma_sum_at(accounts: Seq<Account>, i: int)
    requires
        0 <= i < accounts.len(),
    ensures
        accounts[i].lamports <= sum(accounts),
    decreases accounts.len(),
{
    if i < accounts.len() - 1 {
        lemma_sum_at(accounts.drop_last(), i);
    }
}

proof fn lemma_sum_take(accounts: Seq<Account>, n: int)
    requires
        0 <= n <= accounts.len(),
    ensures
        sum(accounts.take(n)) <= sum(accounts),
    decreases accounts.len(),
{
    if n == accounts.len() {
        assert(accounts.take(n) =~= accounts);
    } else {
        lemma_sum_take(accounts.drop_last(), n);
        assert(accounts.drop_last().take(n) =~= accounts.take(n));
    }
}

fn position(accounts: &Vec<Account>, address: &Pubkey) -> (found: Option<usize>)
    ensures
        match found {
            Some(i) => i < accounts@.len() && accounts@[i as int].address == *address,
            None => forall|i: int| 0 <= i < accounts@.len() ==> accounts@[i].address@ != address@,
        },
{
    let mut i: usize = 0;
    while i < accounts.len()
        invariant
            i <= accounts@.len(),
            forall|j: int| 0 <= j < i ==> accounts@[j].address@ != address@,
        decreases accounts@.len() - i,
    {
        proof {
            lemma_view_injective(accounts@[i as int].address, *address);
        }
        if accounts[i].address == *address {
            return Some(i);
        }
        i += 1;
    }
    None
}

/// Adds `lamports` at `to`, which becomes a wallet if no account is there.
fn credit(accounts: &mut Vec<Account>, to: &Pubkey, lamports: u64)
    requires
        distinct(old(accounts)@),
        sum(old(accounts)@) + lamports <= u64::MAX,
    ensures
        distinct(final(accounts)@),
        sum(final(accounts)@) == sum(old(accounts)@) + lamports,
        as_map(final(accounts)@) == credited(as_map(old(accounts)@), to@, lamports as nat),
        kinds_kept(old(accounts)@, final(accounts)@),
{
    match position(accounts, to) {
        Some(j) => {
            let account = accounts[j];
            proof {
                lemma_sum_at(accounts@, j as int);
                lemma_as_map_at(accounts@, j as int);
            }
            let next = Account {
                address: account.address,
                lamports: account.lamports + lamports,
                kind: account.kind,
            };
            proof {
                lemma_sum_update(accounts@, j as int, next);
                lemma_as_map_update(accounts@, j as int, next);
            }
            accounts.set(j, next);
        },
        None => {
            let next = Account { address: *to, lamports, kind: AccountKind::Wallet };
            proof {
                lemma_as_map_absent(accounts@, to@);
                lemma_sum_push(accounts@, next);
                lemma_as_map_push(accounts@, next);
            }
            accounts.push(next);
        },
    }
}

/// Takes `lamports` from the account at index `from`.
fn debit(accounts: &mut Vec<Account>, from: usize, lamports: u64)
    requires
        distinct(old(accounts)@),
        from < old(accounts)@.len(),
        old(accounts)@[from as int].lamports >= lamports,
    ensures
        distinct(final(accounts)@),
        sum(final(accounts)@) == sum(old(accounts)@) - lamports,
        as_map(final(accounts)@) == debited(
            as_map(old(accounts)@),
            old(accounts)@[from as int].address@,
            lamports as nat,
        ),
        kinds_kept(old(accounts)@, final(accounts)@),
{
    let account = accounts[from];
    let next = Account {
        address: account.address,
        lamports: account.lamports - lamports,
        kind: account.kind,
    };
    proof {
        lemma_sum_at(accounts@, from as int);
        lemma_as_map_at(accounts@, from as int);
        lemma_sum_update(accounts@, from as int, next);
        lemma_as_map_update(accounts@, from as int, next);
    }
    accounts.set(from, next);
}

/// Moves `lamports` from the account at index `from` to the address `to`.
fn relocate(accounts: &mut Vec<Account>, from: usize, to: &Pubkey, lamports: u64)
    requires
        distinct(old(accounts)@),
        sum(old(accounts)@) <= u64::MAX,
        from < old(accounts)@.len(),
        old(accounts)@[from as int].lamports >= lamports,
    ensures
        distinct(final(accounts)@),
        sum(final(accounts)@) == sum(old(accounts)@),
        as_map(final(accounts)@) == moved(
            as_map(old(accounts)@),
            old(accounts)@[from as int].address@,
            to@,
            lamports as nat,
        ),
        kinds_kept(old(accounts)@, final(accounts)@),
{
    if lamports > 0 {
        let ghost before = accounts@;
        debit(accounts, from, lamports);
        let ghost between = accounts@;
        credit(accounts, to, lamports);
        proof {
            assert forall|i: int| 0 <= i < accounts@.len() implies (#[trigger] accounts@[i].kind)
                is Wallet || (i < before.len() && accounts@[i].kind == before[i].kind
                && accounts@[i].address == before[i].address) by {
                if !(accounts@[i].kind is Wallet) {
                    assert(!(between[i].kind is Wallet));
                }
            }
        }
    }
}

/// What `create_account` does to `s`: it opens the slot of `authority`, on
/// the ledger of the authority's program and where the address is free.
pub open spec fn created(s: State, program_id: Pubkey, authority: DerivedAuthority) -> Result<
    State,
    ErrorCode,
> {
    if authority.program() != program_id {
        Err(ErrorCode::AuthorizationFailure)
    } else if s.contains_key(authority.address()@) {
        Err(ErrorCode::AlreadyInitialized)
    } else {
        Ok(opened(s, authority.address()@, authority.kind()))
    }
}

/// What `sign_transfer` does to `s`: a transfer out of the slot of
/// `authority`, on the ledger of the authority's program.
pub open spec fn authorized_transfer(
    s: State,
    program_id: Pubkey,
    authority: DerivedAuthority,
    to: Seq<u8>,
    lamports: u64,
) -> Result<State, ErrorCode> {
    if authority.program() != program_id {
        Err(ErrorCode::AuthorizationFailure)
    } else {
        derived_transfer(s, authority.address()@, authority.kind(), to, lamports)
    }
}

impl Ledger {
    #[verifier::type_invariant]
    pub closed spec fn well_formed(self) -> bool {
        &&& distinct(self.accounts@)
        &&& sum(self.accounts@) <= u64::MAX
        &&& placed(self.accounts@, self.program_id)
    }

    /// The accounts by address.
    pub closed spec fn view(&self) -> State {
        as_map(self.accounts@)
    }

    /// The program that keeps custody of the slots.
    pub closed spec fn program(&self) -> Pubkey {
        self.program_id
    }

    /// All balances together.
    pub closed spec fn total(&self) -> nat {
        sum(self.accounts@)
    }

    /// A ledger without accounts for the slots of `program_id`.
    pub fn new(program_id: Pubkey) -> (ledger: Ledger)
        ensures
            ledger@ == Map::<Seq<u8>, AccountState>::empty(),
            ledger.program() == program_id,
            ledger.total() == 0,
    {
        let accounts: Vec<Account> = Vec::new();
        proof {
            assert(as_map(accounts@) =~= Map::<Seq<u8>, AccountState>::empty()) by {
                assert forall|address: Seq<u8>| !as_map(accounts@).contains_key(address) by {
                    lemma_as_map_absent(accounts@, address);
                }
            }
        }
        Ledger { program_id, accounts }
    }

    /// The program that keeps custody of the slots.
    pub fn program_id(&self) -> (program_id: Pubkey)
        ensures
            program_id == self.program(),
    {
        self.program_id
    }

    /// The balance at `address`; an address without an account holds nothing.
    /// No balance exceeds all balances together.
    pub fn balance(&self, address: &Pubkey) -> (lamports: u64)
        ensures
            lamports == balance_of(self@, address@),
            lamports <= self.total(),
    {
        proof {
            use_type_invariant(self);
        }
        match position(&self.accounts, address) {
            Some(i) => {
                proof {
                    lemma_as_map_at(self.accounts@, i as int);
                    lemma_sum_at(self.accounts@, i as int);
                }
                self.accounts[i].lamports
            },
            None => {
                proof {
                    lemma_as_map_absent(self.accounts@, address@);
                }
                0
            },
        }
    }

    /// The kind of the account at `address`, if there is one. Every slot of
    /// the ledger stands at its derived address.
    pub fn account_kind(&self, address: &Pubkey) -> (kind: Option<AccountKind>)
        ensures
            kind == kind_of(self@, address@),
            consistent(self@, self.program()),
    {
        proof {
            use_type_invariant(self);
            self.lemma_consistent();
        }
        match position(&self.accounts, address) {
            Some(i) => {
                proof {
                    lemma_as_map_at(self.accounts@, i as int);
                }
                Some(self.accounts[i].kind)
            },
            None => {
                proof {
                    lemma_as_map_absent(self.accounts@, address@);
                }
                None
            },
        }
    }

    proof fn lemma_consistent(&self)
        requires
            distinct(self.accounts@),
            placed(self.accounts@, self.program_id),
        ensures
            consistent(self@, self.program()),
    {
        assert forall|address: Seq<u8>| #[trigger] self@.contains_key(address) implies self@[address].kind
            is Wallet || derives(self.program(), self@[address].kind, address) by {
            let k = choose|k: int| sits(self.accounts@, k, address);
            assert(sits(self.accounts@, k, address));
            lemma_as_map_at(self.accounts@, k);
            assert(self.accounts@[k].kind is Wallet || derives(
                self.program_id,
                self.accounts@[k].kind,
                self.accounts@[k].address@,
            ));
        }
    }

    /// All balances together.
    pub fn supply(&self) -> (lamports: u64)
        ensures
            lamports == self.total(),
    {
        proof {
            use_type_invariant(self);
        }
        let mut lamports: u64 = 0;
        let mut i: usize = 0;
        while i < self.accounts.len()
            invariant
                i <= self.accounts@.len(),
                lamports == sum(self.accounts@.take(i as int)),
                sum(self.accounts@) <= u64::MAX,
            decreases self.accounts@.len() - i,
        {
            proof {
                lemma_sum_take(self.accounts@, i + 1);
                lemma_sum_push(self.accounts@.take(i as int), self.accounts@[i as int]);
                assert(self.accounts@.take(i + 1) =~= self.accounts@.take(i as int).push(
                    self.accounts@[i as int],
                ));
            }
            lamports = lamports + self.accounts[i].lamports;
            i += 1;
        }
        proof {
            assert(self.accounts@.take(i as int) =~= self.accounts@);
        }
        lamports
    }

    /// A copy on which a batch can be staged; the ledger itself stays as it is.
    pub fn snapshot(&self) -> (copy: Ledger)
        ensures
            copy@ == self@,
            copy.program() == self.program(),
            copy.total() == self.total(),
    {
        proof {
            use_type_invariant(self);
        }
        let mut accounts: Vec<Account> = Vec::new();
        let mut i: usize = 0;
        while i < self.accounts.len()
            invariant
                i <= self.accounts@.len(),
                accounts@ == self.accounts@.take(i as int),
            decreases self.accounts@.len() - i,
        {
            accounts.push(self.accounts[i]);
            proof {
                assert(self.accounts@.take(i + 1) =~= self.accounts@.take(i as int).push(
                    self.accounts@[i as int],
                ));
            }
            i += 1;
        }
        proof {
            assert(self.accounts@.take(i as int) =~= self.accounts@);
        }
        Ledger { program_id: self.program_id, accounts }
    }

    /// Mints `lamports` to `to`. Refused where all balances together would
    /// no longer fit in a `u64`.
    pub fn airdrop(&mut self, to: &Pubkey, lamports: u64) -> (funded: bool)
        ensures
            funded == (old(self).total() + lamports <= u64::MAX),
            funded ==> final(self)@ == credited(old(self)@, to@, lamports as nat),
            funded ==> final(self).total() == old(self).total() + lamports,
            !funded ==> final(self)@ == old(self)@,
            !funded ==> final(self).total() == old(self).total(),
            final(self).program() == old(self).program(),
    {
        proof {
            use_type_invariant(&*self);
        }
        let supply = self.supply();
        if lamports > u64::MAX - supply {
            return false;
        }
        let mut accounts: Vec<Account> = Vec::new();
        core::mem::swap(&mut self.accounts, &mut accounts);
        credit(&mut accounts, to, lamports);
        self.accounts = accounts;
        true
    }

    /// Opens the slot of `authority`, empty. This is the only way in which
    /// an account that is not a wallet comes to be.
    pub fn create_account(&mut self, authority: &DerivedAuthority) -> (result: Result<
        (),
        ErrorCode,
    >)
        ensures
            applied(
                created(old(self)@, old(self).program(), *authority),
                old(self)@,
                result,
                final(self)@,
            ),
            final(self).program() == old(self).program(),
            final(self).total() == old(self).total(),
    {
        proof {
            use_type_invariant(&*self);
            use_type_invariant(authority);
        }
        if authority.program_id() != self.program_id {
            return Err(ErrorCode::AuthorizationFailure);
        }
        let address = authority.key();
        match position(&self.accounts, &address) {
            Some(i) => {
                proof {
                    lemma_as_map_at(self.accounts@, i as int);
                }
                Err(ErrorCode::AlreadyInitialized)
            },
            None => {
                let next = Account { address, lamports: 0, kind: authority.account_kind() };
                proof {
                    lemma_as_map_absent(self.accounts@, address@);
                    lemma_sum_push(self.accounts@, next);
                    lemma_as_map_push(self.accounts@, next);
                }
                let mut accounts: Vec<Account> = Vec::new();
                core::mem::swap(&mut self.accounts, &mut accounts);
                accounts.push(next);
                self.accounts = accounts;
                Ok(())
            },
        }
    }

    /// Moves `lamports` from the wallet of `from` to `to`, on the signature
    /// of `from`.
    pub fn transfer(&mut self, from: &Signer, to: &Pubkey, lamports: u64) -> (result: Result<
        (),
        ErrorCode,
    >)
        ensures
            applied(
                signed_transfer(old(self)@, *from, to@, lamports),
                old(self)@,
                result,
                final(self)@,
            ),
            final(self).program() == old(self).program(),
            final(self).total() == old(self).total(),
    {
        proof {
            use_type_invariant(&*self);
        }
        if !from.is_signer {
            return Err(ErrorCode::AuthorizationFailure);
        }
        match position(&self.accounts, &from.key) {
            Some(i) => {
                proof {
                    lemma_as_map_at(self.accounts@, i as int);
                }
                let account = self.accounts[i];
                if account.kind != AccountKind::Wallet {
                    return Err(ErrorCode::AuthorizationFailure);
                }
                if account.lamports < lamports {
                    return Err(ErrorCode::InsufficientFunds);
                }
                self.relocate_from(i, to, lamports);
                Ok(())
            },
            None => {
                proof {
                    lemma_as_map_absent(self.accounts@, from.key@);
                }
                if lamports > 0 {
                    Err(ErrorCode::InsufficientFunds)
                } else {
                    Ok(())
                }
            },
        }
    }

    fn relocate_from(&mut self, from: usize, to: &Pubkey, lamports: u64)
        requires
            from < old(self).accounts@.len(),
            old(self).accounts@[from as int].lamports >= lamports,
        ensures
            final(self)@ == moved(
                old(self)@,
                old(self).accounts@[from as int].address@,
                to@,
                lamports as nat,
            ),
            final(self).program() == old(self).program(),
            final(self).total() == old(self).total(),
    {
        proof {
            use_type_invariant(&*self);
        }
        let ghost before = self.accounts@;
        let mut accounts: Vec<Account> = Vec::new();
        core::mem::swap(&mut self.accounts, &mut accounts);
        relocate(&mut accounts, from, to, lamports);
        proof {
            assert(placed(accounts@, self.program_id)) by {
                assert forall|i: int| 0 <= i < accounts@.len() implies accounts@[i].kind is Wallet
                    || derives(
                    self.program_id,
                    #[trigger] accounts@[i].kind,
                    accounts@[i].address@,
                ) by {
                    if !(accounts@[i].kind is Wallet) {
                        assert(accounts@[i].kind == before[i].kind);
                    }
                }
            }
        }
        self.accounts = accounts;
    }
}

impl DerivedAuthority {
    /// Moves `lamports` out of the slot of this authority to `to`.
    pub fn sign_transfer(&self, ledger: &mut Ledger, to: &Pubkey, lamports: u64) -> (result: Result<
        (),
        ErrorCode,
    >)
        ensures
            applied(
                authorized_transfer(old(ledger)@, old(ledger).program(), *self, to@, lamports),
                old(ledger)@,
                result,
                final(ledger)@,
            ),
            final(ledger).program() == old(ledger).program(),
            final(ledger).total() == old(ledger).total(),
    {
        proof {
            use_type_invariant(&*ledger);
        }
        if self.program_id() != ledger.program_id {
            return Err(ErrorCode::AuthorizationFailure);
        }
        let address = self.key();
        match position(&ledger.accounts, &address) {
            Some(i) => {
                proof {
                    lemma_as_map_at(ledger.accounts@, i as int);
                }
                let account = ledger.accounts[i];
                if account.kind != self.account_kind() {
                    return Err(ErrorCode::DerivationMismatch);
                }
                if account.lamports < lamports {
                    return Err(ErrorCode::InsufficientFunds);
                }
                ledger.relocate_from(i, to, lamports);
                Ok(())
            },
            None => {
                proof {
                    lemma_as_map_absent(ledger.accounts@, address@);
                }
                if lamports > 0 {
                    Err(ErrorCode::InsufficientFunds)
                } else {
                    Ok(())
                }
            },
        }
    }
}

} // verus!
