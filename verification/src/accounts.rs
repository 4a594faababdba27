//! The ledger's account table: named asset-custody accounts with an owner
//! authority, an asset type and a balance.
//!
//! Every escrow and vault operation reads and mutates accounts only through
//! this module. The table is modelled as a sequence of account views with
//! pairwise-distinct addresses; `sp_open`, `sp_set_amount`, `sp_transfer`
//! and `sp_close` are the mathematical transitions, and each executable
//! mutator is proved to realise exactly one of them.

use vstd::prelude::*;
use crate::ident::Ident;
use crate::ident::ident_eq;

verus! {

/// The mathematical state of one account.
#[verifier::ext_equal]
pub struct AccountV {
    pub address: Seq<u8>,
    pub authority: Seq<u8>,
    pub mint: Seq<u8>,
    pub amount: u64,
}

/// One asset-custody account: the asset it holds, the identity allowed to
/// spend from it, and its balance.
#[derive(Clone, Copy)]
pub struct TokenAccount {
    pub address: Ident,
    pub authority: Ident,
    pub mint: Ident,
    pub amount: u64,
}

impl View for TokenAccount {
    type V = AccountV;

    open spec fn view(&self) -> AccountV {
        AccountV {
            address: self.address@,
            authority: self.authority@,
            mint: self.mint@,
            amount: self.amount,
        }
    }
}

/// Whether some account in `s` has address `addr`.
pub open spec fn has_acct(s: Seq<AccountV>, addr: Seq<u8>) -> bool {
    exists|i: int| 0 <= i < s.len() && (#[trigger] s[i]).address == addr
}

/// The index of the account with address `addr` (meaningful when
/// `has_acct(s, addr)` and addresses are unique).
pub open spec fn acct_idx(s: Seq<AccountV>, addr: Seq<u8>) -> int {
    choose|i: int| 0 <= i < s.len() && (#[trigger] s[i]).address == addr
}

/// The account with address `addr` (meaningful when it exists).
pub open spec fn acct_of(s: Seq<AccountV>, addr: Seq<u8>) -> AccountV {
    s[acct_idx(s, addr)]
}

/// The balance held at `addr`: an absent account holds nothing.
pub open spec fn balance_of(s: Seq<AccountV>, addr: Seq<u8>) -> u64 {
    if has_acct(s, addr) {
        acct_of(s, addr).amount
    } else {
        0
    }
}

/// Addresses are pairwise distinct.
pub open spec fn unique_addrs(s: Seq<AccountV>) -> bool {
    forall|i: int, j: int| 0 <= i < j < s.len() ==> (#[trigger] s[i]).address != (#[trigger] s[j]).address
}

/// `a` with its balance replaced by `amt`.
pub open spec fn with_amount(a: AccountV, amt: u64) -> AccountV {
    AccountV { address: a.address, authority: a.authority, mint: a.mint, amount: amt }
}

/// Transition: the account at `addr` now holds `amt`.
pub open spec fn sp_set_amount(s: Seq<AccountV>, addr: Seq<u8>, amt: u64) -> Seq<AccountV> {
    s.update(acct_idx(s, addr), with_amount(acct_of(s, addr), amt))
}

/// Transition: `amount` moves from `from` to `to`; moving within one
/// account changes nothing.
pub open spec fn sp_transfer(s: Seq<AccountV>, from: Seq<u8>, to: Seq<u8>, amount: u64) -> Seq<
    AccountV,
> {
    if from == to {
        s
    } else {
        let s1 = sp_set_amount(s, from, (balance_of(s, from) - amount) as u64);
        sp_set_amount(s1, to, (balance_of(s1, to) + amount) as u64)
    }
}

/// Transition: a fresh empty account of asset `mint` under `authority`
/// appears at `addr`.
pub open spec fn sp_open(s: Seq<AccountV>, addr: Seq<u8>, authority: Seq<u8>, mint: Seq<u8>) -> Seq<
    AccountV,
> {
    s.push(AccountV { address: addr, authority: authority, mint: mint, amount: 0 })
}

/// Transition: the account at `addr` ceases to exist.
pub open spec fn sp_close(s: Seq<AccountV>, addr: Seq<u8>) -> Seq<AccountV> {
    s.remove(acct_idx(s, addr))
}

/// With unique addresses, an account seen at index `i` is the account the
/// lookup functions speak of.
pub proof fn lemma_acct_at(s: Seq<AccountV>, addr: Seq<u8>, i: int)
    requires
        unique_addrs(s),
        0 <= i < s.len(),
        s[i].address == addr,
    ensures
        has_acct(s, addr),
        acct_idx(s, addr) == i,
        acct_of(s, addr) == s[i],
{
    assert(has_acct(s, addr));
    let j = acct_idx(s, addr);
    assert(0 <= j < s.len() && s[j].address == addr);
    if i < j {
        assert(s[i].address != s[j].address);
        assert(false);
    } else if j < i {
        assert(s[j].address != s[i].address);
        assert(false);
    }
}

/// What `sp_set_amount` does to every lookup: only the balance at `addr`
/// changes.
pub proof fn lemma_sp_set_amount(s: Seq<AccountV>, addr: Seq<u8>, amt: u64)
    requires
        unique_addrs(s),
        has_acct(s, addr),
    ensures
        ({
            let p = sp_set_amount(s, addr, amt);
            &&& p.len() == s.len()
            &&& unique_addrs(p)
            &&& forall|a: Seq<u8>| #[trigger] has_acct(p, a) == has_acct(s, a)
            &&& forall|a: Seq<u8>|
                a != addr && has_acct(s, a) ==> #[trigger] acct_of(p, a) == acct_of(s, a)
            &&& acct_of(p, addr) == with_amount(acct_of(s, addr), amt)
            &&& balance_of(p, addr) == amt
            &&& forall|a: Seq<u8>| a != addr ==> #[trigger] balance_of(p, a) == balance_of(s, a)
        }),
{
    let k = acct_idx(s, addr);
    assert(0 <= k < s.len() && s[k].address == addr);
    let p = sp_set_amount(s, addr, amt);
    assert(forall|m: int| 0 <= m < s.len() ==> (#[trigger] p[m]).address == s[m].address);
    assert(unique_addrs(p));
    assert forall|a: Seq<u8>| #[trigger] has_acct(p, a) == has_acct(s, a) by {
        if has_acct(s, a) {
            let i = acct_idx(s, a);
            assert(0 <= i < s.len() && s[i].address == a);
            assert(p[i].address == a);
            assert(has_acct(p, a));
        }
        if has_acct(p, a) {
            let i = choose|i: int| 0 <= i < p.len() && (#[trigger] p[i]).address == a;
            assert(s[i].address == a);
            assert(has_acct(s, a));
        }
    }
    assert forall|a: Seq<u8>| a != addr && has_acct(s, a) implies #[trigger] acct_of(p, a)
        == acct_of(s, a) by {
        let i = acct_idx(s, a);
        assert(0 <= i < s.len() && s[i].address == a);
        assert(i != k);
        assert(p[i] == s[i]);
        lemma_acct_at(p, a, i);
        lemma_acct_at(s, a, i);
    }
    lemma_acct_at(p, addr, k);
    lemma_acct_at(s, addr, k);
    assert(acct_of(p, addr) == with_amount(acct_of(s, addr), amt));
    assert forall|a: Seq<u8>| a != addr implies #[trigger] balance_of(p, a) == balance_of(s, a) by {
        if has_acct(s, a) {
            assert(acct_of(p, a) == acct_of(s, a));
        }
    }
}

/// What `sp_open` does to every lookup: a fresh empty account appears at
/// `addr` and nothing else changes.
pub proof fn lemma_sp_open(s: Seq<AccountV>, addr: Seq<u8>, authority: Seq<u8>, mint: Seq<u8>)
    requires
        unique_addrs(s),
        !has_acct(s, addr),
    ensures
        ({
            let p = sp_open(s, addr, authority, mint);
            &&& p.len() == s.len() + 1
            &&& unique_addrs(p)
            &&& forall|a: Seq<u8>| #[trigger] has_acct(p, a) == (a == addr || has_acct(s, a))
            &&& acct_of(p, addr) == (AccountV {
                address: addr,
                authority: authority,
                mint: mint,
                amount: 0,
            })
            &&& balance_of(p, addr) == 0
            &&& forall|a: Seq<u8>|
                a != addr && has_acct(s, a) ==> #[trigger] acct_of(p, a) == acct_of(s, a)
            &&& forall|a: Seq<u8>| a != addr ==> #[trigger] balance_of(p, a) == balance_of(s, a)
        }),
{
    let p = sp_open(s, addr, authority, mint);
    let n = s.len() as int;
    assert(p[n].address == addr);
    assert forall|i: int, j: int| 0 <= i < j < p.len() implies (#[trigger] p[i]).address != (
    #[trigger] p[j]).address by {
        if j < n {
            assert(s[i].address != s[j].address);
        } else {
            assert(p[j].address == addr);
            assert(p[i] == s[i]);
            assert(has_acct(s, s[i].address));
        }
    }
    assert forall|a: Seq<u8>| #[trigger] has_acct(p, a) == (a == addr || has_acct(s, a)) by {
        if a == addr {
            assert(p[n].address == a);
            assert(has_acct(p, a));
        }
        if has_acct(s, a) {
            let i = acct_idx(s, a);
            assert(p[i].address == a);
            assert(has_acct(p, a));
        }
        if has_acct(p, a) && a != addr {
            let i = choose|i: int| 0 <= i < p.len() && (#[trigger] p[i]).address == a;
            assert(i != n);
            assert(s[i].address == a);
            assert(has_acct(s, a));
        }
    }
    lemma_acct_at(p, addr, n);
    assert forall|a: Seq<u8>| a != addr && has_acct(s, a) implies #[trigger] acct_of(p, a)
        == acct_of(s, a) by {
        let i = acct_idx(s, a);
        assert(0 <= i < s.len() && s[i].address == a);
        assert(p[i] == s[i]);
        lemma_acct_at(p, a, i);
        lemma_acct_at(s, a, i);
    }
    assert forall|a: Seq<u8>| a != addr implies #[trigger] balance_of(p, a) == balance_of(s, a) by {
        if has_acct(s, a) {
            assert(acct_of(p, a) == acct_of(s, a));
        }
    }
}

/// What `sp_close` does to every lookup: the account at `addr` is gone and
/// nothing else changes.
pub proof fn lemma_sp_close(s: Seq<AccountV>, addr: Seq<u8>)
    requires
        unique_addrs(s),
        has_acct(s, addr),
    ensures
        ({
            let p = sp_close(s, addr);
            &&& p.len() == s.len() - 1
            &&& unique_addrs(p)
            &&& forall|a: Seq<u8>| #[trigger] has_acct(p, a) == (has_acct(s, a) && a != addr)
            &&& balance_of(p, addr) == 0
            &&& forall|a: Seq<u8>|
                a != addr && has_acct(s, a) ==> #[trigger] acct_of(p, a) == acct_of(s, a)
            &&& forall|a: Seq<u8>| a != addr ==> #[trigger] balance_of(p, a) == balance_of(s, a)
        }),
{
    let k = acct_idx(s, addr);
    assert(0 <= k < s.len() && s[k].address == addr);
    let p = sp_close(s, addr);
    assert(forall|m: int|
        0 <= m < p.len() ==> (#[trigger] p[m]) == (if m < k {
            s[m]
        } else {
            s[m + 1]
        }));
    assert forall|i: int, j: int| 0 <= i < j < p.len() implies (#[trigger] p[i]).address != (
    #[trigger] p[j]).address by {
        let si = if i < k { i } else { i + 1 };
        let sj = if j < k { j } else { j + 1 };
        assert(s[si].address != s[sj].address);
    }
    assert forall|a: Seq<u8>| #[trigger] has_acct(p, a) == (has_acct(s, a) && a != addr) by {
        if has_acct(p, a) {
            let i = choose|i: int| 0 <= i < p.len() && (#[trigger] p[i]).address == a;
            let si = if i < k { i } else { i + 1 };
            assert(s[si].address == a);
            assert(has_acct(s, a));
            if a == addr {
                lemma_acct_at(s, addr, si);
                assert(false);
            }
        }
        if has_acct(s, a) && a != addr {
            let i = acct_idx(s, a);
            assert(0 <= i < s.len() && s[i].address == a);
            assert(i != k);
            if i < k {
                assert(p[i].address == a);
            } else {
                assert(p[i - 1].address == a);
            }
            assert(has_acct(p, a));
        }
    }
    assert forall|a: Seq<u8>| a != addr && has_acct(s, a) implies #[trigger] acct_of(p, a)
        == acct_of(s, a) by {
        let i = acct_idx(s, a);
        assert(0 <= i < s.len() && s[i].address == a);
        assert(i != k);
        let pi = if i < k { i } else { i - 1 };
        assert(p[pi] == s[i]);
        lemma_acct_at(p, a, pi);
        lemma_acct_at(s, a, i);
    }
    assert forall|a: Seq<u8>| a != addr implies #[trigger] balance_of(p, a) == balance_of(s, a) by {
        if has_acct(s, a) {
            assert(acct_of(p, a) == acct_of(s, a));
        }
    }
}

/// What `sp_transfer` does to every lookup: the moved amount leaves `from`
/// and reaches `to`; no account appears, disappears, or changes its
/// authority or asset type.
pub proof fn lemma_sp_transfer(s: Seq<AccountV>, from: Seq<u8>, to: Seq<u8>, amount: u64)
    requires
        unique_addrs(s),
        has_acct(s, from),
        has_acct(s, to),
        balance_of(s, from) >= amount,
        from != to ==> balance_of(s, to) + amount <= u64::MAX,
    ensures
        ({
            let p = sp_transfer(s, from, to, amount);
            &&& p.len() == s.len()
            &&& unique_addrs(p)
            &&& forall|a: Seq<u8>| #[trigger] has_acct(p, a) == has_acct(s, a)
            &&& forall|a: Seq<u8>|
                has_acct(s, a) ==> (#[trigger] acct_of(p, a)).address == acct_of(s, a).address
                    && acct_of(p, a).authority == acct_of(s, a).authority && acct_of(p, a).mint
                    == acct_of(s, a).mint
            &&& balance_of(p, from) == if from == to {
                balance_of(s, from)
            } else {
                (balance_of(s, from) - amount) as u64
            }
            &&& balance_of(p, to) == if from == to {
                balance_of(s, to)
            } else {
                (balance_of(s, to) + amount) as u64
            }
            &&& forall|a: Seq<u8>|
                a != from && a != to ==> #[trigger] balance_of(p, a) == balance_of(s, a)
        }),
{
    if from == to {
        assert(sp_transfer(s, from, to, amount) == s);
    } else {
        let s1 = sp_set_amount(s, from, (balance_of(s, from) - amount) as u64);
        lemma_sp_set_amount(s, from, (balance_of(s, from) - amount) as u64);
        assert(balance_of(s1, to) == balance_of(s, to));
        lemma_sp_set_amount(s1, to, (balance_of(s1, to) + amount) as u64);
        let p = sp_transfer(s, from, to, amount);
        assert(p == sp_set_amount(s1, to, (balance_of(s1, to) + amount) as u64));
        assert(balance_of(p, from) == (balance_of(s, from) - amount) as u64);
        assert forall|a: Seq<u8>|
            has_acct(s, a) implies (#[trigger] acct_of(p, a)).address == acct_of(s, a).address
            && acct_of(p, a).authority == acct_of(s, a).authority && acct_of(p, a).mint == acct_of(
            s,
            a,
        ).mint by {
            if a != from && a != to {
                assert(acct_of(s1, a) == acct_of(s, a));
                assert(acct_of(p, a) == acct_of(s1, a));
            } else if a == from {
                assert(acct_of(s1, a) == with_amount(acct_of(s, a), (balance_of(s, from)
                    - amount) as u64));
                assert(acct_of(p, a) == acct_of(s1, a));
            } else {
                assert(acct_of(s1, a) == acct_of(s, a));
                assert(acct_of(p, a) == with_amount(acct_of(s1, a), (balance_of(s1, to)
                    + amount) as u64));
            }
        }
    }
}

/// The account table of the ledger.
pub struct Accounts {
    list: Vec<TokenAccount>,
}

impl View for Accounts {
    type V = Seq<AccountV>;

    closed spec fn view(&self) -> Seq<AccountV> {
        self.list@.map_values(|t: TokenAccount| t@)
    }
}

impl Accounts {
    /// An empty account table.
    pub fn new() -> (r: Accounts)
        ensures
            r@ == Seq::<AccountV>::empty(),
            unique_addrs(r@),
    {
        let r = Accounts { list: Vec::new() };
        proof {
            assert(r@ =~= Seq::<AccountV>::empty());
        }
        r
    }

    /// Looks up the index of the account at `addr`, if any.
    fn find(&self, addr: &Ident) -> (r: Option<usize>)
        ensures
            match r {
                Some(i) => i < self@.len() && self@[i as int].address == addr@,
                None => !has_acct(self@, addr@),
            },
    {
        let mut i: usize = 0;
        while i < self.list.len()
            invariant
                i <= self.list.len(),
                self@.len() == self.list@.len(),
                forall|j: int| 0 <= j < i ==> (#[trigger] self@[j]).address != addr@,
            decreases self.list.len() - i,
        {
            if ident_eq(&self.list[i].address, addr) {
                return Some(i);
            }
            i += 1;
        }
        None
    }

    /// The index of an account known to exist.
    fn find_existing(&self, addr: &Ident) -> (r: usize)
        requires
            unique_addrs(self@),
            has_acct(self@, addr@),
        ensures
            r < self@.len(),
            self@[r as int].address == addr@,
            acct_idx(self@, addr@) == r,
            acct_of(self@, addr@) == self@[r as int],
    {
        match self.find(addr) {
            Some(i) => {
                proof {
                    lemma_acct_at(self@, addr@, i as int);
                }
                i
            },
            None => {
                proof {
                    assert(false);
                }
                0
            },
        }
    }

    /// Whether an account exists at `addr`.
    pub fn has_account(&self, addr: &Ident) -> (r: bool)
        ensures
            r == has_acct(self@, addr@),
    {
        match self.find(addr) {
            Some(i) => {
                proof {
                    assert(self@[i as int].address == addr@);
                }
                true
            },
            None => false,
        }
    }

    /// The balance held at `addr`; an absent account holds nothing.
    pub fn balance(&self, addr: &Ident) -> (r: u64)
        requires
            unique_addrs(self@),
        ensures
            r == balance_of(self@, addr@),
    {
        match self.find(addr) {
            Some(i) => {
                proof {
                    lemma_acct_at(self@, addr@, i as int);
                }
                self.list[i].amount
            },
            None => 0,
        }
    }

    /// A copy of the account at `addr`, if any.
    pub fn get(&self, addr: &Ident) -> (r: Option<TokenAccount>)
        requires
            unique_addrs(self@),
        ensures
            match r {
                Some(t) => has_acct(self@, addr@) && t@ == acct_of(self@, addr@),
                None => !has_acct(self@, addr@),
            },
    {
        match self.find(addr) {
            Some(i) => {
                proof {
                    lemma_acct_at(self@, addr@, i as int);
                }
                Some(self.list[i])
            },
            None => None,
        }
    }

    /// Overwrites the balance of an existing account.
    pub(crate) fn set_balance_unchecked(&mut self, addr: &Ident, amt: u64)
        requires
            unique_addrs(old(self)@),
            has_acct(old(self)@, addr@),
        ensures
            final(self)@ == sp_set_amount(old(self)@, addr@, amt),
    {
        let i = self.find_existing(addr);
        self.set_amount(i, amt);
    }

    /// Overwrites the balance of the account at index `i`.
    fn set_amount(&mut self, i: usize, amt: u64)
        requires
            i < old(self)@.len(),
        ensures
            final(self)@ == old(self)@.update(i as int, with_amount(old(self)@[i as int], amt)),
    {
        let mut t = self.list.remove(i);
        t.amount = amt;
        self.list.insert(i, t);
        proof {
            assert(final(self)@ =~= old(self)@.update(
                i as int,
                with_amount(old(self)@[i as int], amt),
            ));
        }
    }

    /// Appends a fresh empty account.
    fn push_account(&mut self, address: Ident, authority: Ident, mint: Ident)
        ensures
            final(self)@ == sp_open(old(self)@, address@, authority@, mint@),
    {
        self.list.push(TokenAccount { address, authority, mint, amount: 0 });
        proof {
            assert(final(self)@ =~= sp_open(old(self)@, address@, authority@, mint@));
        }
    }

    /// Removes the account at index `i`.
    fn remove_at(&mut self, i: usize)
        requires
            i < old(self)@.len(),
        ensures
            final(self)@ == old(self)@.remove(i as int),
    {
        self.list.remove(i);
        proof {
            assert(final(self)@ =~= old(self)@.remove(i as int));
        }
    }

    /// Moves `amount` between two existing, sufficiently funded accounts.
    pub(crate) fn transfer_unchecked(&mut self, from: &Ident, to: &Ident, amount: u64)
        requires
            unique_addrs(old(self)@),
            has_acct(old(self)@, from@),
            has_acct(old(self)@, to@),
            balance_of(old(self)@, from@) >= amount,
            from@ != to@ ==> balance_of(old(self)@, to@) + amount <= u64::MAX,
        ensures
            final(self)@ == sp_transfer(old(self)@, from@, to@, amount),
    {
        if ident_eq(from, to) {
            return ;
        }
        let ghost s = self@;
        let i = self.find_existing(from);
        let j = self.find_existing(to);
        proof {
            assert(i != j);
        }
        let bi = self.list[i].amount;
        proof {
            assert(bi == balance_of(s, from@));
        }
        self.set_amount(i, bi - amount);
        let ghost s1 = self@;
        proof {
            assert(s1 == sp_set_amount(s, from@, (balance_of(s, from@) - amount) as u64));
            lemma_sp_set_amount(s, from@, (balance_of(s, from@) - amount) as u64);
            assert(s1[j as int] == s[j as int]);
            lemma_acct_at(s1, to@, j as int);
        }
        let bj = self.list[j].amount;
        proof {
            assert(bj == balance_of(s1, to@));
            assert(balance_of(s1, to@) == balance_of(s, to@));
        }
        self.set_amount(j, bj + amount);
        proof {
            assert(self@ == sp_set_amount(s1, to@, (balance_of(s1, to@) + amount) as u64));
        }
    }

    /// Opens a fresh empty account at an address known to be unused.
    pub(crate) fn open_unchecked(&mut self, address: Ident, authority: Ident, mint: Ident)
        requires
            unique_addrs(old(self)@),
            !has_acct(old(self)@, address@),
        ensures
            final(self)@ == sp_open(old(self)@, address@, authority@, mint@),
    {
        self.push_account(address, authority, mint);
    }

    /// Closes an existing, emptied account.
    pub(crate) fn close_unchecked(&mut self, addr: &Ident)
        requires
            unique_addrs(old(self)@),
            has_acct(old(self)@, addr@),
        ensures
            final(self)@ == sp_close(old(self)@, addr@),
    {
        let i = self.find_existing(addr);
        self.remove_at(i);
    }
}

} // verus!
