//! The personal-vault pattern: an owner-keyed state record paired with a
//! derived holding account, supporting deposit, withdraw and close.
//!
//! It reuses the escrow's derivation mechanism single-sided: the state
//! record's address comes from the owner's identity, and the holding
//! account's address comes from the state record's address. Only the
//! recorded owner moves funds; the holding account's authority is its own
//! derived address, never a private key.

use vstd::prelude::*;
use crate::accounts::AccountV;
use crate::accounts::Accounts;
use crate::accounts::acct_of;
use crate::accounts::balance_of;
use crate::accounts::has_acct;
use crate::accounts::lemma_sp_open;
use crate::accounts::lemma_sp_set_amount;
use crate::accounts::lemma_sp_transfer;
use crate::accounts::sp_open;
use crate::accounts::sp_set_amount;
use crate::accounts::sp_transfer;
use crate::accounts::unique_addrs;
use crate::derive::derive_personal_vault;
use crate::derive::derive_vault_state;
use crate::derive::personal_vault_derivation;
use crate::derive::vault_state_derivation;
use crate::errors::EscrowError;
use crate::ident::Ident;
use crate::ident::ident_eq;

verus! {

/// The mathematical state of one personal-vault record.
#[verifier::ext_equal]
pub struct VaultRecordV {
    pub owner: Seq<u8>,
    pub state_bump: u8,
    pub vault_bump: u8,
}

/// One personal-vault state record: its owner and the two authority-proof
/// bytes, one for the record's own address and one for the paired holding
/// account.
#[derive(Clone, Copy)]
pub struct VaultState {
    pub owner: Ident,
    pub state_bump: u8,
    pub vault_bump: u8,
}

impl View for VaultState {
    type V = VaultRecordV;

    open spec fn view(&self) -> VaultRecordV {
        VaultRecordV { owner: self.owner@, state_bump: self.state_bump, vault_bump: self.vault_bump }
    }
}

/// Whether an active record for `owner` exists.
pub open spec fn has_vault_state(vs: Seq<VaultRecordV>, owner: Seq<u8>) -> bool {
    exists|i: int| 0 <= i < vs.len() && (#[trigger] vs[i]).owner == owner
}

/// The index of `owner`'s record.
pub open spec fn vault_state_idx(vs: Seq<VaultRecordV>, owner: Seq<u8>) -> int {
    choose|i: int| 0 <= i < vs.len() && (#[trigger] vs[i]).owner == owner
}

/// `owner`'s record (meaningful when it exists).
pub open spec fn vault_state_of(vs: Seq<VaultRecordV>, owner: Seq<u8>) -> VaultRecordV {
    vs[vault_state_idx(vs, owner)]
}

/// Owners are pairwise distinct.
pub open spec fn unique_owners(vs: Seq<VaultRecordV>) -> bool {
    forall|i: int, j: int|
        0 <= i < j < vs.len() ==> (#[trigger] vs[i]).owner != (#[trigger] vs[j]).owner
}

/// The derived address of `owner`'s state record.
pub open spec fn state_pda(program_id: Seq<u8>, owner: Seq<u8>) -> Seq<u8> {
    match vault_state_derivation(program_id, owner) {
        Some(d) => d.0,
        None => Seq::empty(),
    }
}

/// The derived address of `owner`'s holding account.
pub open spec fn holding_pda(program_id: Seq<u8>, owner: Seq<u8>) -> Seq<u8> {
    match personal_vault_derivation(program_id, state_pda(program_id, owner)) {
        Some(d) => d.0,
        None => Seq::empty(),
    }
}

/// The mathematical state of the whole vault ledger.
#[verifier::ext_equal]
pub struct VaultLedgerV {
    pub program_id: Seq<u8>,
    pub native_mint: Seq<u8>,
    pub accounts: Seq<AccountV>,
    pub states: Seq<VaultRecordV>,
}

/// A record is backed: both derivations succeed, the stored proof bytes are
/// the derived ones, and a holding account of the native asset exists at
/// the derived address under that address's own authority.
pub open spec fn state_backed(
    program_id: Seq<u8>,
    native_mint: Seq<u8>,
    accounts: Seq<AccountV>,
    st: VaultRecordV,
) -> bool {
    match vault_state_derivation(program_id, st.owner) {
        Some(d) => {
            &&& d.1 == st.state_bump
            &&& match personal_vault_derivation(program_id, d.0) {
                Some(d2) => {
                    &&& d2.1 == st.vault_bump
                    &&& has_acct(accounts, d2.0)
                    &&& acct_of(accounts, d2.0).mint == native_mint
                    &&& acct_of(accounts, d2.0).authority == d2.0
                },
                None => false,
            }
        },
        None => false,
    }
}

/// Well-formedness of the vault ledger.
pub open spec fn vault_wf(v: VaultLedgerV) -> bool {
    &&& unique_addrs(v.accounts)
    &&& unique_owners(v.states)
    &&& forall|i: int|
        0 <= i < v.states.len() ==> state_backed(
            v.program_id,
            v.native_mint,
            v.accounts,
            #[trigger] v.states[i],
        )
}

/// With unique owners, a record seen at index `i` is the record the lookup
/// functions speak of.
pub proof fn lemma_vault_state_at(vs: Seq<VaultRecordV>, owner: Seq<u8>, i: int)
    requires
        unique_owners(vs),
        0 <= i < vs.len(),
        vs[i].owner == owner,
    ensures
        has_vault_state(vs, owner),
        vault_state_idx(vs, owner) == i,
        vault_state_of(vs, owner) == vs[i],
{
    assert(has_vault_state(vs, owner));
    let j = vault_state_idx(vs, owner);
    assert(0 <= j < vs.len() && vs[j].owner == owner);
    if i < j {
        assert(vs[i].owner != vs[j].owner);
        assert(false);
    } else if j < i {
        assert(vs[j].owner != vs[i].owner);
        assert(false);
    }
}

/// Why an initialize attempt is rejected, or `None` when it must succeed.
pub open spec fn initialize_check(v: VaultLedgerV, owner: Seq<u8>) -> Option<EscrowError> {
    if has_vault_state(v.states, owner) {
        Some(EscrowError::AlreadyExistsError)
    } else if vault_state_derivation(v.program_id, owner) is None {
        Some(EscrowError::DerivationError)
    } else if personal_vault_derivation(v.program_id, state_pda(v.program_id, owner)) is None {
        Some(EscrowError::DerivationError)
    } else if has_acct(v.accounts, holding_pda(v.program_id, owner)) && (acct_of(
        v.accounts,
        holding_pda(v.program_id, owner),
    ).authority != holding_pda(v.program_id, owner) || acct_of(
        v.accounts,
        holding_pda(v.program_id, owner),
    ).mint != v.native_mint) {
        Some(EscrowError::AssetMismatchError)
    } else {
        None
    }
}

/// The ledger after a successful initialize: the record exists with both
/// derived proof bytes, and the holding account exists (created empty if it
/// did not yet).
pub open spec fn initialize_post(v: VaultLedgerV, owner: Seq<u8>) -> VaultLedgerV {
    let hp = holding_pda(v.program_id, owner);
    VaultLedgerV {
        program_id: v.program_id,
        native_mint: v.native_mint,
        accounts: if has_acct(v.accounts, hp) {
            v.accounts
        } else {
            sp_open(v.accounts, hp, hp, v.native_mint)
        },
        states: v.states.push(
            VaultRecordV {
                owner: owner,
                state_bump: match vault_state_derivation(v.program_id, owner) {
                    Some(d) => d.1,
                    None => 0,
                },
                vault_bump: match personal_vault_derivation(
                    v.program_id,
                    state_pda(v.program_id, owner),
                ) {
                    Some(d) => d.1,
                    None => 0,
                },
            },
        ),
    }
}

/// Why a deposit attempt is rejected, or `None` when it must succeed. The
/// owner's funds sit in the account addressed by the owner's own identity.
pub open spec fn deposit_check(v: VaultLedgerV, owner: Seq<u8>, amount: u64) -> Option<
    EscrowError,
> {
    if !has_vault_state(v.states, owner) {
        Some(EscrowError::NotFoundError)
    } else if vault_state_derivation(v.program_id, owner) is None {
        Some(EscrowError::DerivationError)
    } else if personal_vault_derivation(v.program_id, state_pda(v.program_id, owner)) is None {
        Some(EscrowError::DerivationError)
    } else {
        let hp = holding_pda(v.program_id, owner);
        if !has_acct(v.accounts, hp) {
            Some(EscrowError::NotFoundError)
        } else if !has_acct(v.accounts, owner) {
            Some(EscrowError::NotFoundError)
        } else if acct_of(v.accounts, owner).authority != owner || acct_of(v.accounts, owner).mint
            != v.native_mint {
            Some(EscrowError::AssetMismatchError)
        } else if balance_of(v.accounts, owner) < amount {
            Some(EscrowError::InsufficientFundsError)
        } else if owner != hp && balance_of(v.accounts, hp) + amount > u64::MAX {
            Some(EscrowError::OverflowError)
        } else {
            None
        }
    }
}

/// The ledger after a successful deposit.
pub open spec fn deposit_post(v: VaultLedgerV, owner: Seq<u8>, amount: u64) -> VaultLedgerV {
    VaultLedgerV {
        program_id: v.program_id,
        native_mint: v.native_mint,
        accounts: sp_transfer(v.accounts, owner, holding_pda(v.program_id, owner), amount),
        states: v.states,
    }
}

/// Why a withdraw attempt is rejected, or `None` when it must succeed.
pub open spec fn withdraw_check(v: VaultLedgerV, owner: Seq<u8>, amount: u64) -> Option<
    EscrowError,
> {
    if !has_vault_state(v.states, owner) {
        Some(EscrowError::NotFoundError)
    } else if vault_state_derivation(v.program_id, owner) is None {
        Some(EscrowError::DerivationError)
    } else if personal_vault_derivation(v.program_id, state_pda(v.program_id, owner)) is None {
        Some(EscrowError::DerivationError)
    } else {
        let hp = holding_pda(v.program_id, owner);
        if !has_acct(v.accounts, hp) {
            Some(EscrowError::NotFoundError)
        } else if !has_acct(v.accounts, owner) {
            Some(EscrowError::NotFoundError)
        } else if acct_of(v.accounts, owner).authority != owner || acct_of(v.accounts, owner).mint
            != v.native_mint {
            Some(EscrowError::AssetMismatchError)
        } else if balance_of(v.accounts, hp) < amount {
            Some(EscrowError::InsufficientFundsError)
        } else if owner != hp && balance_of(v.accounts, owner) + amount > u64::MAX {
            Some(EscrowError::OverflowError)
        } else {
            None
        }
    }
}

/// The ledger after a successful withdraw.
pub open spec fn withdraw_post(v: VaultLedgerV, owner: Seq<u8>, amount: u64) -> VaultLedgerV {
    VaultLedgerV {
        program_id: v.program_id,
        native_mint: v.native_mint,
        accounts: sp_transfer(v.accounts, holding_pda(v.program_id, owner), owner, amount),
        states: v.states,
    }
}

/// Why a close attempt is rejected, or `None` when it must succeed.
pub open spec fn close_check(v: VaultLedgerV, owner: Seq<u8>) -> Option<EscrowError> {
    if !has_vault_state(v.states, owner) {
        Some(EscrowError::NotFoundError)
    } else if vault_state_derivation(v.program_id, owner) is None {
        Some(EscrowError::DerivationError)
    } else if personal_vault_derivation(v.program_id, state_pda(v.program_id, owner)) is None {
        Some(EscrowError::DerivationError)
    } else {
        let hp = holding_pda(v.program_id, owner);
        if !has_acct(v.accounts, hp) {
            Some(EscrowError::NotFoundError)
        } else if !has_acct(v.accounts, owner) {
            Some(EscrowError::NotFoundError)
        } else if acct_of(v.accounts, owner).authority != owner || acct_of(v.accounts, owner).mint
            != v.native_mint {
            Some(EscrowError::AssetMismatchError)
        } else if owner != hp && balance_of(v.accounts, owner) + balance_of(v.accounts, hp)
            > u64::MAX {
            Some(EscrowError::OverflowError)
        } else {
            None
        }
    }
}

/// The ledger after a successful close: the holding account's whole balance
/// is back with the owner, the record is destroyed, and the (now empty)
/// holding account remains, so the lifecycle is over.
pub open spec fn close_post(v: VaultLedgerV, owner: Seq<u8>) -> VaultLedgerV {
    let hp = holding_pda(v.program_id, owner);
    VaultLedgerV {
        program_id: v.program_id,
        native_mint: v.native_mint,
        accounts: sp_transfer(v.accounts, hp, owner, balance_of(v.accounts, hp)),
        states: v.states.remove(vault_state_idx(v.states, owner)),
    }
}

/// The vault ledger: the program identity that scopes every derivation, the
/// native asset type, the account table, and the active records.
pub struct VaultLedger {
    program_id: Ident,
    native_mint: Ident,
    accounts: Accounts,
    states: Vec<VaultState>,
}

impl View for VaultLedger {
    type V = VaultLedgerV;

    closed spec fn view(&self) -> VaultLedgerV {
        VaultLedgerV {
            program_id: self.program_id@,
            native_mint: self.native_mint@,
            accounts: self.accounts@,
            states: self.states@.map_values(|s: VaultState| s@),
        }
    }
}

impl VaultLedger {
    /// An empty vault ledger under `program_id`, holding the asset type
    /// `native_mint`.
    pub fn new(program_id: Ident, native_mint: Ident) -> (r: VaultLedger)
        ensures
            r@.program_id == program_id@,
            r@.native_mint == native_mint@,
            r@.accounts == Seq::<AccountV>::empty(),
            r@.states == Seq::<VaultRecordV>::empty(),
            vault_wf(r@),
    {
        let r = VaultLedger {
            program_id,
            native_mint,
            accounts: Accounts::new(),
            states: Vec::new(),
        };
        proof {
            assert(r@.states =~= Seq::<VaultRecordV>::empty());
        }
        r
    }

    /// The program identity of this ledger.
    pub fn program_id(&self) -> (r: Ident)
        ensures
            r@ == self@.program_id,
    {
        self.program_id
    }

    /// The balance held at `addr`; an absent account holds nothing.
    pub fn balance(&self, addr: &Ident) -> (r: u64)
        requires
            vault_wf(self@),
        ensures
            r == balance_of(self@.accounts, addr@),
    {
        self.accounts.balance(addr)
    }

    /// Whether an account exists at `addr`.
    pub fn has_account(&self, addr: &Ident) -> (r: bool)
        ensures
            r == has_acct(self@.accounts, addr@),
    {
        self.accounts.has_account(addr)
    }

    /// A helper for re-establishing well-formedness after a step that left
    /// every account's address, authority and asset type in place and every
    /// record untouched.
    proof fn lemma_wf_amounts_only(&self, v: VaultLedgerV, touched: Seq<u8>)
        requires
            vault_wf(v),
            self@.program_id == v.program_id,
            self@.native_mint == v.native_mint,
            self@.states == v.states,
            unique_addrs(self@.accounts),
            forall|a: Seq<u8>| #[trigger] has_acct(self@.accounts, a) == (a == touched || has_acct(v.accounts, a)),
            forall|a: Seq<u8>|
                a != touched && has_acct(v.accounts, a) ==> (#[trigger] acct_of(
                    self@.accounts,
                    a,
                )).authority == acct_of(v.accounts, a).authority && acct_of(self@.accounts, a).mint
                    == acct_of(v.accounts, a).mint,
            has_acct(v.accounts, touched) ==> (acct_of(self@.accounts, touched).authority
                == acct_of(v.accounts, touched).authority && acct_of(self@.accounts, touched).mint
                == acct_of(v.accounts, touched).mint),
        ensures
            vault_wf(self@),
    {
        assert forall|i: int|
            0 <= i < self@.states.len() implies state_backed(
            self@.program_id,
            self@.native_mint,
            self@.accounts,
            #[trigger] self@.states[i],
        ) by {
            let st = v.states[i];
            assert(state_backed(v.program_id, v.native_mint, v.accounts, st));
            let d = vault_state_derivation(v.program_id, st.owner)->Some_0;
            let hp = personal_vault_derivation(v.program_id, d.0)->Some_0.0;
            assert(has_acct(v.accounts, hp));
            assert(has_acct(self@.accounts, hp));
        }
    }

    /// Opens an empty account, the setup step a party performs before
    /// funding it.
    pub fn open_account(&mut self, address: Ident, authority: Ident, mint: Ident) -> (r: Result<
        (),
        EscrowError,
    >)
        requires
            vault_wf(old(self)@),
        ensures
            vault_wf(final(self)@),
            final(self)@.program_id == old(self)@.program_id,
            final(self)@.native_mint == old(self)@.native_mint,
            final(self)@.states == old(self)@.states,
            if has_acct(old(self)@.accounts, address@) {
                r == Err::<(), EscrowError>(EscrowError::AlreadyExistsError) && final(self)@
                    == old(self)@
            } else {
                r == Ok::<(), EscrowError>(()) && final(self)@.accounts == sp_open(
                    old(self)@.accounts,
                    address@,
                    authority@,
                    mint@,
                )
            },
    {
        if self.accounts.has_account(&address) {
            return Err(EscrowError::AlreadyExistsError);
        }
        let ghost v = self@;
        self.accounts.open_unchecked(address, authority, mint);
        proof {
            lemma_sp_open(v.accounts, address@, authority@, mint@);
            self.lemma_wf_amounts_only(v, address@);
        }
        Ok(())
    }

    /// Mints `amount` of the account's own asset into `addr`, the funding
    /// step of scenario setup.
    pub fn credit(&mut self, addr: &Ident, amount: u64) -> (r: Result<(), EscrowError>)
        requires
            vault_wf(old(self)@),
        ensures
            vault_wf(final(self)@),
            final(self)@.program_id == old(self)@.program_id,
            final(self)@.native_mint == old(self)@.native_mint,
            final(self)@.states == old(self)@.states,
            if !has_acct(old(self)@.accounts, addr@) {
                r == Err::<(), EscrowError>(EscrowError::NotFoundError) && final(self)@ == old(
                    self,
                )@
            } else if balance_of(old(self)@.accounts, addr@) + amount > u64::MAX {
                r == Err::<(), EscrowError>(EscrowError::OverflowError) && final(self)@ == old(
                    self,
                )@
            } else {
                r == Ok::<(), EscrowError>(()) && final(self)@.accounts == sp_set_amount(
                    old(self)@.accounts,
                    addr@,
                    (balance_of(old(self)@.accounts, addr@) + amount) as u64,
                )
            },
    {
        let ghost v = self@;
        if !self.accounts.has_account(addr) {
            return Err(EscrowError::NotFoundError);
        }
        let b = self.accounts.balance(addr);
        if amount > u64::MAX - b {
            return Err(EscrowError::OverflowError);
        }
        self.accounts.set_balance_unchecked(addr, b + amount);
        proof {
            lemma_sp_set_amount(v.accounts, addr@, (b + amount) as u64);
            self.lemma_wf_amounts_only(v, addr@);
        }
        Ok(())
    }

    /// Looks up the record of `owner`.
    fn find_state(&self, owner: &Ident) -> (r: Option<usize>)
        ensures
            match r {
                Some(i) => i < self@.states.len() && self@.states[i as int].owner == owner@,
                None => !has_vault_state(self@.states, owner@),
            },
    {
        let mut i: usize = 0;
        while i < self.states.len()
            invariant
                i <= self.states.len(),
                self@.states.len() == self.states@.len(),
                forall|j: int| 0 <= j < i ==> (#[trigger] self@.states[j]).owner != owner@,
            decreases self.states.len() - i,
        {
            if ident_eq(&self.states[i].owner, owner) {
                return Some(i);
            }
            i += 1;
        }
        None
    }

    /// A copy of `owner`'s record, if any.
    pub fn get_state(&self, owner: &Ident) -> (r: Option<VaultState>)
        requires
            vault_wf(self@),
        ensures
            match r {
                Some(s) => has_vault_state(self@.states, owner@) && s@ == vault_state_of(
                    self@.states,
                    owner@,
                ),
                None => !has_vault_state(self@.states, owner@),
            },
    {
        match self.find_state(owner) {
            Some(i) => {
                proof {
                    lemma_vault_state_at(self@.states, owner@, i as int);
                }
                Some(self.states[i])
            },
            None => None,
        }
    }

    /// Re-derives the two addresses of `owner`'s pair, or fails with the
    /// error the operations would report.
    fn derive_pair(&self, owner: &Ident) -> (r: Result<(Ident, u8, Ident, u8), EscrowError>)
        ensures
            match r {
                Ok(p) => vault_state_derivation(self@.program_id, owner@) == Some((p.0@, p.1))
                    && personal_vault_derivation(self@.program_id, p.0@) == Some((p.2@, p.3)),
                Err(e) => e == EscrowError::DerivationError && (vault_state_derivation(
                    self@.program_id,
                    owner@,
                ) is None || personal_vault_derivation(
                    self@.program_id,
                    state_pda(self@.program_id, owner@),
                ) is None),
            },
    {
        let (sa, sb) = match derive_vault_state(&self.program_id, owner) {
            Some(p) => p,
            None => {
                return Err(EscrowError::DerivationError);
            },
        };
        let (va, vb) = match derive_personal_vault(&self.program_id, &sa) {
            Some(p) => p,
            None => {
                return Err(EscrowError::DerivationError);
            },
        };
        Ok((sa, sb, va, vb))
    }

    /// Begins the lifecycle for `owner`: derives the state record and its
    /// paired holding account, stores both proof bytes, and creates the
    /// holding account empty if it does not exist yet.
    pub fn initialize(&mut self, owner: &Ident) -> (r: Result<(), EscrowError>)
        requires
            vault_wf(old(self)@),
        ensures
            vault_wf(final(self)@),
            match initialize_check(old(self)@, owner@) {
                Some(e) => r == Err::<(), EscrowError>(e) && final(self)@ == old(self)@,
                None => r == Ok::<(), EscrowError>(()) && final(self)@ == initialize_post(
                    old(self)@,
                    owner@,
                ),
            },
    {
        let ghost v = self@;
        if self.find_state(owner).is_some() {
            return Err(EscrowError::AlreadyExistsError);
        }
        let (_sa, sb, va, vb) = match self.derive_pair(owner) {
            Ok(p) => p,
            Err(e) => {
                return Err(e);
            },
        };
        let created: bool;
        match self.accounts.get(&va) {
            Some(t) => {
                if !(ident_eq(&t.authority, &va) && ident_eq(&t.mint, &self.native_mint)) {
                    return Err(EscrowError::AssetMismatchError);
                }
                created = false;
            },
            None => {
                created = true;
            },
        }
        proof {
            assert(initialize_check(v, owner@) is None);
        }
        if created {
            self.accounts.open_unchecked(va, va, self.native_mint);
            proof {
                lemma_sp_open(v.accounts, va@, va@, v.native_mint);
            }
        }
        self.states.push(VaultState { owner: *owner, state_bump: sb, vault_bump: vb });
        proof {
            let p = initialize_post(v, owner@);
            assert(self@.states =~= p.states);
            assert(self@ =~= p);
            let n = v.states.len() as int;
            assert forall|i: int, j: int| 0 <= i < j < p.states.len() implies (
            #[trigger] p.states[i]).owner != (#[trigger] p.states[j]).owner by {
                if j < n {
                    assert(v.states[i].owner != v.states[j].owner);
                } else {
                    assert(p.states[j].owner == owner@);
                    if v.states[i].owner == owner@ {
                        assert(has_vault_state(v.states, owner@));
                        assert(false);
                    }
                }
            }
            assert forall|i: int|
                0 <= i < p.states.len() implies state_backed(
                p.program_id,
                p.native_mint,
                p.accounts,
                #[trigger] p.states[i],
            ) by {
                if i < n {
                    let st = v.states[i];
                    assert(state_backed(v.program_id, v.native_mint, v.accounts, st));
                    let d = vault_state_derivation(v.program_id, st.owner)->Some_0;
                    let hp = personal_vault_derivation(v.program_id, d.0)->Some_0.0;
                    assert(has_acct(v.accounts, hp));
                    if created {
                        assert(has_acct(p.accounts, hp));
                        assert(acct_of(p.accounts, hp) == acct_of(v.accounts, hp));
                    }
                } else {
                    assert(p.states[i].owner == owner@);
                    if created {
                        assert(acct_of(p.accounts, va@).mint == v.native_mint);
                        assert(acct_of(p.accounts, va@).authority == va@);
                    }
                }
            }
        }
        Ok(())
    }

    /// Moves `amount` from the owner's account into the holding account.
    /// Only the recorded owner's own funds can be deposited.
    pub fn deposit(&mut self, owner: &Ident, amount: u64) -> (r: Result<(), EscrowError>)
        requires
            vault_wf(old(self)@),
        ensures
            vault_wf(final(self)@),
            match deposit_check(old(self)@, owner@, amount) {
                Some(e) => r == Err::<(), EscrowError>(e) && final(self)@ == old(self)@,
                None => r == Ok::<(), EscrowError>(()) && final(self)@ == deposit_post(
                    old(self)@,
                    owner@,
                    amount,
                ),
            },
    {
        let ghost v = self@;
        if self.find_state(owner).is_none() {
            return Err(EscrowError::NotFoundError);
        }
        let (_sa, _sb, va, _vb) = match self.derive_pair(owner) {
            Ok(p) => p,
            Err(e) => {
                return Err(e);
            },
        };
        if !self.accounts.has_account(&va) {
            return Err(EscrowError::NotFoundError);
        }
        let own = match self.accounts.get(owner) {
            Some(t) => t,
            None => {
                return Err(EscrowError::NotFoundError);
            },
        };
        if !(ident_eq(&own.authority, owner) && ident_eq(&own.mint, &self.native_mint)) {
            return Err(EscrowError::AssetMismatchError);
        }
        if own.amount < amount {
            return Err(EscrowError::InsufficientFundsError);
        }
        let hb = self.accounts.balance(&va);
        if !ident_eq(owner, &va) && amount > u64::MAX - hb {
            return Err(EscrowError::OverflowError);
        }
        proof {
            assert(deposit_check(v, owner@, amount) is None);
            lemma_sp_transfer(v.accounts, owner@, va@, amount);
        }
        self.accounts.transfer_unchecked(owner, &va, amount);
        proof {
            assert(self@ =~= deposit_post(v, owner@, amount));
            self.lemma_wf_balances_kept(v);
        }
        Ok(())
    }

    /// A helper for re-establishing well-formedness after a transfer, which
    /// moves balances but keeps every account and record in place.
    proof fn lemma_wf_balances_kept(&self, v: VaultLedgerV)
        requires
            vault_wf(v),
            self@.program_id == v.program_id,
            self@.native_mint == v.native_mint,
            self@.states == v.states,
            unique_addrs(self@.accounts),
            forall|a: Seq<u8>| #[trigger] has_acct(self@.accounts, a) == has_acct(v.accounts, a),
            forall|a: Seq<u8>|
                has_acct(v.accounts, a) ==> (#[trigger] acct_of(self@.accounts, a)).authority
                    == acct_of(v.accounts, a).authority && acct_of(self@.accounts, a).mint
                    == acct_of(v.accounts, a).mint,
        ensures
            vault_wf(self@),
    {
        assert forall|i: int|
            0 <= i < self@.states.len() implies state_backed(
            self@.program_id,
            self@.native_mint,
            self@.accounts,
            #[trigger] self@.states[i],
        ) by {
            let st = v.states[i];
            assert(state_backed(v.program_id, v.native_mint, v.accounts, st));
            let d = vault_state_derivation(v.program_id, st.owner)->Some_0;
            let hp = personal_vault_derivation(v.program_id, d.0)->Some_0.0;
            assert(has_acct(v.accounts, hp));
            assert(has_acct(self@.accounts, hp));
        }
    }

    /// Moves `amount` from the holding account back to the owner, authorized
    /// by the re-derived authority proof; fails when the holding balance is
    /// short.
    pub fn withdraw(&mut self, owner: &Ident, amount: u64) -> (r: Result<(), EscrowError>)
        requires
            vault_wf(old(self)@),
        ensures
            vault_wf(final(self)@),
            match withdraw_check(old(self)@, owner@, amount) {
                Some(e) => r == Err::<(), EscrowError>(e) && final(self)@ == old(self)@,
                None => r == Ok::<(), EscrowError>(()) && final(self)@ == withdraw_post(
                    old(self)@,
                    owner@,
                    amount,
                ),
            },
    {
        let ghost v = self@;
        if self.find_state(owner).is_none() {
            return Err(EscrowError::NotFoundError);
        }
        let (_sa, _sb, va, _vb) = match self.derive_pair(owner) {
            Ok(p) => p,
            Err(e) => {
                return Err(e);
            },
        };
        if !self.accounts.has_account(&va) {
            return Err(EscrowError::NotFoundError);
        }
        let own = match self.accounts.get(owner) {
            Some(t) => t,
            None => {
                return Err(EscrowError::NotFoundError);
            },
        };
        if !(ident_eq(&own.authority, owner) && ident_eq(&own.mint, &self.native_mint)) {
            return Err(EscrowError::AssetMismatchError);
        }
        let hb = self.accounts.balance(&va);
        if hb < amount {
            return Err(EscrowError::InsufficientFundsError);
        }
        if !ident_eq(owner, &va) && amount > u64::MAX - own.amount {
            return Err(EscrowError::OverflowError);
        }
        proof {
            assert(withdraw_check(v, owner@, amount) is None);
            lemma_sp_transfer(v.accounts, va@, owner@, amount);
        }
        self.accounts.transfer_unchecked(&va, owner, amount);
        proof {
            assert(self@ =~= withdraw_post(v, owner@, amount));
            self.lemma_wf_balances_kept(v);
        }
        Ok(())
    }

    /// Ends the lifecycle for `owner`: the holding account's whole balance
    /// goes back to the owner in the same step that destroys the record.
    pub fn close(&mut self, owner: &Ident) -> (r: Result<(), EscrowError>)
        requires
            vault_wf(old(self)@),
        ensures
            vault_wf(final(self)@),
            match close_check(old(self)@, owner@) {
                Some(e) => r == Err::<(), EscrowError>(e) && final(self)@ == old(self)@,
                None => r == Ok::<(), EscrowError>(()) && final(self)@ == close_post(
                    old(self)@,
                    owner@,
                ),
            },
    {
        let ghost v = self@;
        let i = match self.find_state(owner) {
            Some(i) => i,
            None => {
                return Err(EscrowError::NotFoundError);
            },
        };
        proof {
            lemma_vault_state_at(v.states, owner@, i as int);
        }
        let (_sa, _sb, va, _vb) = match self.derive_pair(owner) {
            Ok(p) => p,
            Err(e) => {
                return Err(e);
            },
        };
        if !self.accounts.has_account(&va) {
            return Err(EscrowError::NotFoundError);
        }
        let own = match self.accounts.get(owner) {
            Some(t) => t,
            None => {
                return Err(EscrowError::NotFoundError);
            },
        };
        if !(ident_eq(&own.authority, owner) && ident_eq(&own.mint, &self.native_mint)) {
            return Err(EscrowError::AssetMismatchError);
        }
        let hb = self.accounts.balance(&va);
        if !ident_eq(owner, &va) && hb > u64::MAX - own.amount {
            return Err(EscrowError::OverflowError);
        }
        proof {
            assert(close_check(v, owner@) is None);
            lemma_sp_transfer(v.accounts, va@, owner@, hb);
        }
        self.accounts.transfer_unchecked(&va, owner, hb);
        let ghost mid = self@;
        self.states.remove(i);
        proof {
            assert(self@.states =~= v.states.remove(i as int));
            assert(self@ =~= close_post(v, owner@));
            let p = self@;
            assert(forall|m: int|
                0 <= m < p.states.len() ==> (#[trigger] p.states[m]) == (if m < i {
                    v.states[m]
                } else {
                    v.states[m + 1]
                }));
            assert forall|m: int, n: int| 0 <= m < n < p.states.len() implies (
            #[trigger] p.states[m]).owner != (#[trigger] p.states[n]).owner by {
                let sm = if m < i { m } else { m + 1 };
                let sn = if n < i { n } else { n + 1 };
                assert(v.states[sm].owner != v.states[sn].owner);
            }
            assert forall|m: int|
                0 <= m < p.states.len() implies state_backed(
                p.program_id,
                p.native_mint,
                p.accounts,
                #[trigger] p.states[m],
            ) by {
                let sm = if m < i { m } else { m + 1 };
                let st = v.states[sm];
                assert(state_backed(v.program_id, v.native_mint, v.accounts, st));
                let d = vault_state_derivation(v.program_id, st.owner)->Some_0;
                let hp = personal_vault_derivation(v.program_id, d.0)->Some_0.0;
                assert(has_acct(v.accounts, hp));
                assert(has_acct(p.accounts, hp));
                assert(acct_of(p.accounts, hp).authority == acct_of(v.accounts, hp).authority
                    && acct_of(p.accounts, hp).mint == acct_of(v.accounts, hp).mint);
            }
        }
        Ok(())
    }
}

} // verus!
