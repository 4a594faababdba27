//! The escrow protocol: Make locks an offered asset in a holding vault,
//! then exactly one of Take or Refund settles the offer and destroys both
//! the record and the vault.
//!
//! The record's existence is the settlement signal: while it exists the
//! offer is pending and the deposit sits in the vault; once Take or Refund
//! succeeds the record is gone and any later settlement attempt fails with
//! `NotFoundError`. Every operation checks all of its preconditions before
//! mutating anything, so a failed operation leaves the ledger exactly as it
//! was.

use vstd::prelude::*;
use crate::accounts::AccountV;
use crate::accounts::Accounts;
use crate::accounts::acct_of;
use crate::accounts::balance_of;
use crate::accounts::has_acct;
use crate::accounts::lemma_sp_close;
use crate::accounts::lemma_sp_open;
use crate::accounts::sp_close;
use crate::accounts::lemma_sp_set_amount;
use crate::accounts::lemma_sp_transfer;
use crate::accounts::sp_open;
use crate::accounts::sp_set_amount;
use crate::accounts::sp_transfer;
use crate::accounts::unique_addrs;
use crate::derive::vault_derivation;
use crate::derive::derive_escrow_vault;
use crate::errors::EscrowError;
use crate::ident::Ident;
use crate::ident::ident_eq;

verus! {

/// The mathematical state of one pending offer.
#[verifier::ext_equal]
pub struct EscrowV {
    pub seed: u8,
    pub maker: Seq<u8>,
    pub mint_a: Seq<u8>,
    pub mint_b: Seq<u8>,
    pub receive_amount: u64,
    pub bump: u8,
}

/// One pending offer: who made it, which asset is locked (`mint_a`), which
/// asset and amount the maker demands (`mint_b`, `receive_amount`), and the
/// proof byte of the vault's derived authority.
#[derive(Clone, Copy)]
pub struct EscrowState {
    pub seed: u8,
    pub maker: Ident,
    pub mint_a: Ident,
    pub mint_b: Ident,
    pub receive_amount: u64,
    pub bump: u8,
}

impl View for EscrowState {
    type V = EscrowV;

    open spec fn view(&self) -> EscrowV {
        EscrowV {
            seed: self.seed,
            maker: self.maker@,
            mint_a: self.mint_a@,
            mint_b: self.mint_b@,
            receive_amount: self.receive_amount,
            bump: self.bump,
        }
    }
}

/// Whether a pending offer keyed by `(maker, offer_id)` exists.
pub open spec fn has_escrow(es: Seq<EscrowV>, maker: Seq<u8>, offer_id: u8) -> bool {
    exists|i: int|
        0 <= i < es.len() && (#[trigger] es[i]).maker == maker && es[i].seed == offer_id
}

/// The index of the offer keyed by `(maker, offer_id)`.
pub open spec fn escrow_idx(es: Seq<EscrowV>, maker: Seq<u8>, offer_id: u8) -> int {
    choose|i: int|
        0 <= i < es.len() && (#[trigger] es[i]).maker == maker && es[i].seed == offer_id
}

/// The offer keyed by `(maker, offer_id)` (meaningful when it exists).
pub open spec fn escrow_of(es: Seq<EscrowV>, maker: Seq<u8>, offer_id: u8) -> EscrowV {
    es[escrow_idx(es, maker, offer_id)]
}

/// Offer keys are pairwise distinct.
pub open spec fn unique_escrows(es: Seq<EscrowV>) -> bool {
    forall|i: int, j: int|
        0 <= i < j < es.len() ==> !((#[trigger] es[i]).maker == (#[trigger] es[j]).maker
            && es[i].seed == es[j].seed)
}

/// The derived vault address of offer `(maker, offer_id)`; meaningful only
/// when the derivation succeeds.
pub open spec fn vault_addr(program_id: Seq<u8>, maker: Seq<u8>, offer_id: u8) -> Seq<u8> {
    match vault_derivation(program_id, maker, offer_id) {
        Some(d) => d.0,
        None => Seq::empty(),
    }
}

/// The proof byte of the derived vault address of offer `(maker, offer_id)`.
pub open spec fn vault_bump(program_id: Seq<u8>, maker: Seq<u8>, offer_id: u8) -> u8 {
    match vault_derivation(program_id, maker, offer_id) {
        Some(d) => d.1,
        None => 0,
    }
}

/// The mathematical state of the whole escrow ledger.
#[verifier::ext_equal]
pub struct EscrowLedgerV {
    pub program_id: Seq<u8>,
    pub strict: bool,
    pub accounts: Seq<AccountV>,
    pub escrows: Seq<EscrowV>,
}

/// A pending offer is backed: its vault derivation succeeds, the stored
/// proof byte is the derived one, and a vault account of the offered asset
/// exists at the derived address under the derived address's own authority.
pub open spec fn escrow_backed(program_id: Seq<u8>, accounts: Seq<AccountV>, e: EscrowV) -> bool {
    match vault_derivation(program_id, e.maker, e.seed) {
        Some(d) => {
            &&& d.1 == e.bump
            &&& has_acct(accounts, d.0)
            &&& acct_of(accounts, d.0).mint == e.mint_a
            &&& acct_of(accounts, d.0).authority == d.0
        },
        None => false,
    }
}

/// Well-formedness of the escrow ledger: account addresses and offer keys
/// are unique, every pending offer is backed by its vault, and distinct
/// offers have distinct vault addresses.
pub open spec fn wf(l: EscrowLedgerV) -> bool {
    &&& unique_addrs(l.accounts)
    &&& unique_escrows(l.escrows)
    &&& forall|i: int|
        0 <= i < l.escrows.len() ==> escrow_backed(l.program_id, l.accounts, #[trigger] l.escrows[i])
    &&& forall|i: int, j: int|
        0 <= i < j < l.escrows.len() ==> vault_addr(
            l.program_id,
            (#[trigger] l.escrows[i]).maker,
            l.escrows[i].seed,
        ) != vault_addr(l.program_id, (#[trigger] l.escrows[j]).maker, l.escrows[j].seed)
}

/// With unique offer keys, an offer seen at index `i` is the offer the
/// lookup functions speak of.
pub proof fn lemma_escrow_at(es: Seq<EscrowV>, maker: Seq<u8>, offer_id: u8, i: int)
    requires
        unique_escrows(es),
        0 <= i < es.len(),
        es[i].maker == maker,
        es[i].seed == offer_id,
    ensures
        has_escrow(es, maker, offer_id),
        escrow_idx(es, maker, offer_id) == i,
        escrow_of(es, maker, offer_id) == es[i],
{
    assert(has_escrow(es, maker, offer_id));
    let j = escrow_idx(es, maker, offer_id);
    assert(0 <= j < es.len() && es[j].maker == maker && es[j].seed == offer_id);
    if i < j {
        assert(!(es[i].maker == es[j].maker && es[i].seed == es[j].seed));
        assert(false);
    } else if j < i {
        assert(!(es[j].maker == es[i].maker && es[j].seed == es[i].seed));
        assert(false);
    }
}

/// Why a Make attempt is rejected, or `None` when it must succeed. The
/// checks are ordered; the first failing one names the error.
pub open spec fn make_check(
    l: EscrowLedgerV,
    maker: Seq<u8>,
    offer_id: u8,
    mint_a: Seq<u8>,
    mint_b: Seq<u8>,
    receive_amount: u64,
    deposit_amount: u64,
    maker_src: Seq<u8>,
) -> Option<EscrowError> {
    if l.strict && (receive_amount == 0 || deposit_amount == 0 || mint_a == mint_b) {
        Some(EscrowError::InvalidOfferError)
    } else if has_escrow(l.escrows, maker, offer_id) {
        Some(EscrowError::AlreadyExistsError)
    } else if vault_derivation(l.program_id, maker, offer_id) is None {
        Some(EscrowError::DerivationError)
    } else if has_acct(l.accounts, vault_addr(l.program_id, maker, offer_id)) {
        Some(EscrowError::AlreadyExistsError)
    } else if !has_acct(l.accounts, maker_src) {
        Some(EscrowError::NotFoundError)
    } else if acct_of(l.accounts, maker_src).authority != maker || acct_of(
        l.accounts,
        maker_src,
    ).mint != mint_a {
        Some(EscrowError::AssetMismatchError)
    } else if balance_of(l.accounts, maker_src) < deposit_amount {
        Some(EscrowError::InsufficientFundsError)
    } else {
        None
    }
}

/// The ledger after a successful Make: the record exists, the vault exists
/// under the derived authority, and the deposit has moved from the maker's
/// source account into the vault.
pub open spec fn make_post(
    l: EscrowLedgerV,
    maker: Seq<u8>,
    offer_id: u8,
    mint_a: Seq<u8>,
    mint_b: Seq<u8>,
    receive_amount: u64,
    deposit_amount: u64,
    maker_src: Seq<u8>,
) -> EscrowLedgerV {
    let va = vault_addr(l.program_id, maker, offer_id);
    EscrowLedgerV {
        program_id: l.program_id,
        strict: l.strict,
        accounts: sp_transfer(sp_open(l.accounts, va, va, mint_a), maker_src, va, deposit_amount),
        escrows: l.escrows.push(
            EscrowV {
                seed: offer_id,
                maker: maker,
                mint_a: mint_a,
                mint_b: mint_b,
                receive_amount: receive_amount,
                bump: vault_bump(l.program_id, maker, offer_id),
            },
        ),
    }
}

/// Law (atomicity of Make): when no check fails, the post-ledger shows all
/// three effects together — the record is registered, the vault exists under
/// the derived authority holding exactly the deposit, and the deposit has
/// left the maker's source account — and the ledger is still well-formed.
pub proof fn lemma_make_effects(
    l: EscrowLedgerV,
    maker: Seq<u8>,
    offer_id: u8,
    mint_a: Seq<u8>,
    mint_b: Seq<u8>,
    receive_amount: u64,
    deposit_amount: u64,
    maker_src: Seq<u8>,
)
    requires
        wf(l),
        make_check(l, maker, offer_id, mint_a, mint_b, receive_amount, deposit_amount, maker_src)
            is None,
    ensures
        ({
            let p = make_post(
                l,
                maker,
                offer_id,
                mint_a,
                mint_b,
                receive_amount,
                deposit_amount,
                maker_src,
            );
            let va = vault_addr(l.program_id, maker, offer_id);
            &&& wf(p)
            &&& has_escrow(p.escrows, maker, offer_id)
            &&& escrow_of(p.escrows, maker, offer_id) == (EscrowV {
                seed: offer_id,
                maker: maker,
                mint_a: mint_a,
                mint_b: mint_b,
                receive_amount: receive_amount,
                bump: vault_bump(l.program_id, maker, offer_id),
            })
            &&& has_acct(p.accounts, va)
            &&& balance_of(p.accounts, va) == deposit_amount
            &&& balance_of(p.accounts, maker_src) == (balance_of(l.accounts, maker_src)
                - deposit_amount) as u64
            &&& forall|a: Seq<u8>|
                a != va && a != maker_src ==> #[trigger] balance_of(p.accounts, a) == balance_of(
                    l.accounts,
                    a,
                )
        }),
{
    let va = vault_addr(l.program_id, maker, offer_id);
    let p = make_post(l, maker, offer_id, mint_a, mint_b, receive_amount, deposit_amount, maker_src);
    let s1 = sp_open(l.accounts, va, va, mint_a);
    lemma_sp_open(l.accounts, va, va, mint_a);
    assert(maker_src != va);
    assert(balance_of(s1, maker_src) == balance_of(l.accounts, maker_src));
    lemma_sp_transfer(s1, maker_src, va, deposit_amount);
    let n = l.escrows.len() as int;
    assert(p.escrows[n].maker == maker && p.escrows[n].seed == offer_id);
    assert forall|i: int, j: int| 0 <= i < j < p.escrows.len() implies !((#[trigger] p.escrows[i]).maker
        == (#[trigger] p.escrows[j]).maker && p.escrows[i].seed == p.escrows[j].seed) by {
        if j < n {
            assert(!(l.escrows[i].maker == l.escrows[j].maker && l.escrows[i].seed
                == l.escrows[j].seed));
        } else {
            assert(p.escrows[j] == p.escrows[n]);
            if l.escrows[i].maker == maker && l.escrows[i].seed == offer_id {
                assert(has_escrow(l.escrows, maker, offer_id));
                assert(false);
            }
        }
    }
    lemma_escrow_at(p.escrows, maker, offer_id, n);
    assert forall|i: int|
        0 <= i < p.escrows.len() implies escrow_backed(
        p.program_id,
        p.accounts,
        #[trigger] p.escrows[i],
    ) by {
        if i < n {
            let e = l.escrows[i];
            assert(escrow_backed(l.program_id, l.accounts, e));
            let d = vault_derivation(l.program_id, e.maker, e.seed);
            let da = d->Some_0.0;
            assert(has_acct(l.accounts, da));
            assert(da != va);
            assert(acct_of(s1, da) == acct_of(l.accounts, da));
            assert(has_acct(s1, da));
            assert(acct_of(p.accounts, da).mint == acct_of(s1, da).mint);
            assert(acct_of(p.accounts, da).authority == acct_of(s1, da).authority);
        } else {
            assert(p.escrows[i] == p.escrows[n]);
            assert(acct_of(s1, va).mint == mint_a && acct_of(s1, va).authority == va);
            assert(acct_of(p.accounts, va).mint == acct_of(s1, va).mint);
            assert(acct_of(p.accounts, va).authority == acct_of(s1, va).authority);
        }
    }
    assert forall|i: int, j: int| 0 <= i < j < p.escrows.len() implies vault_addr(
        p.program_id,
        (#[trigger] p.escrows[i]).maker,
        p.escrows[i].seed,
    ) != vault_addr(p.program_id, (#[trigger] p.escrows[j]).maker, p.escrows[j].seed) by {
        if j < n {
            assert(vault_addr(l.program_id, l.escrows[i].maker, l.escrows[i].seed) != vault_addr(
                l.program_id,
                l.escrows[j].maker,
                l.escrows[j].seed,
            ));
        } else {
            assert(p.escrows[j] == p.escrows[n]);
            let e = l.escrows[i];
            assert(escrow_backed(l.program_id, l.accounts, e));
            let da = vault_addr(l.program_id, e.maker, e.seed);
            assert(has_acct(l.accounts, da));
            if da == va {
                assert(has_acct(l.accounts, va));
                assert(false);
            }
        }
    }
    assert(balance_of(p.accounts, va) == (balance_of(s1, va) + deposit_amount) as u64);
}

/// What removing the offer keyed by `(maker, offer_id)` does to every
/// lookup: that offer is gone and every other offer is untouched.
pub proof fn lemma_escrow_remove(es: Seq<EscrowV>, maker: Seq<u8>, offer_id: u8)
    requires
        unique_escrows(es),
        has_escrow(es, maker, offer_id),
    ensures
        ({
            let p = es.remove(escrow_idx(es, maker, offer_id));
            &&& p.len() == es.len() - 1
            &&& unique_escrows(p)
            &&& forall|m: Seq<u8>, s: u8|
                #[trigger] has_escrow(p, m, s) == (has_escrow(es, m, s) && !(m == maker && s
                    == offer_id))
            &&& forall|m: Seq<u8>, s: u8|
                has_escrow(es, m, s) && !(m == maker && s == offer_id) ==> #[trigger] escrow_of(
                    p,
                    m,
                    s,
                ) == escrow_of(es, m, s)
            &&& forall|n: int|
                0 <= n < p.len() ==> exists|o: int| 0 <= o < es.len() && #[trigger] p[n] == es[o]
        }),
{
    let k = escrow_idx(es, maker, offer_id);
    assert(0 <= k < es.len() && es[k].maker == maker && es[k].seed == offer_id);
    let p = es.remove(k);
    assert(forall|m: int|
        0 <= m < p.len() ==> (#[trigger] p[m]) == (if m < k {
            es[m]
        } else {
            es[m + 1]
        }));
    assert forall|i: int, j: int| 0 <= i < j < p.len() implies !((#[trigger] p[i]).maker == (
    #[trigger] p[j]).maker && p[i].seed == p[j].seed) by {
        let si = if i < k { i } else { i + 1 };
        let sj = if j < k { j } else { j + 1 };
        assert(!(es[si].maker == es[sj].maker && es[si].seed == es[sj].seed));
    }
    assert forall|m: Seq<u8>, s: u8| #[trigger] has_escrow(p, m, s) == (has_escrow(es, m, s) && !(m
        == maker && s == offer_id)) by {
        if has_escrow(p, m, s) {
            let i = choose|i: int|
                0 <= i < p.len() && (#[trigger] p[i]).maker == m && p[i].seed == s;
            let si = if i < k { i } else { i + 1 };
            assert(es[si].maker == m && es[si].seed == s);
            assert(has_escrow(es, m, s));
            if m == maker && s == offer_id {
                lemma_escrow_at(es, maker, offer_id, si);
                assert(false);
            }
        }
        if has_escrow(es, m, s) && !(m == maker && s == offer_id) {
            let i = escrow_idx(es, m, s);
            assert(0 <= i < es.len() && es[i].maker == m && es[i].seed == s);
            assert(i != k);
            if i < k {
                assert(p[i].maker == m && p[i].seed == s);
            } else {
                assert(p[i - 1].maker == m && p[i - 1].seed == s);
            }
            assert(has_escrow(p, m, s));
        }
    }
    assert forall|m: Seq<u8>, s: u8|
        has_escrow(es, m, s) && !(m == maker && s == offer_id) implies #[trigger] escrow_of(p, m, s)
        == escrow_of(es, m, s) by {
        let i = escrow_idx(es, m, s);
        assert(0 <= i < es.len() && es[i].maker == m && es[i].seed == s);
        assert(i != k);
        let pi = if i < k { i } else { i - 1 };
        assert(p[pi] == es[i]);
        lemma_escrow_at(p, m, s, pi);
        lemma_escrow_at(es, m, s, i);
    }
    assert forall|n: int| 0 <= n < p.len() implies exists|o: int|
        0 <= o < es.len() && #[trigger] p[n] == es[o] by {
        let o = if n < k { n } else { n + 1 };
        assert(p[n] == es[o]);
    }
}

/// Why a Refund attempt is rejected, or `None` when it must succeed. The
/// checks are ordered; the first failing one names the error. Only the
/// recorded maker may refund.
pub open spec fn refund_check(
    l: EscrowLedgerV,
    caller: Seq<u8>,
    maker: Seq<u8>,
    offer_id: u8,
    maker_dst: Seq<u8>,
) -> Option<EscrowError> {
    if !has_escrow(l.escrows, maker, offer_id) {
        Some(EscrowError::NotFoundError)
    } else {
        let e = escrow_of(l.escrows, maker, offer_id);
        if caller != e.maker {
            Some(EscrowError::AuthorizationError)
        } else if vault_derivation(l.program_id, maker, offer_id) is None {
            Some(EscrowError::DerivationError)
        } else {
            let va = vault_addr(l.program_id, maker, offer_id);
            if !has_acct(l.accounts, va) {
                Some(EscrowError::NotFoundError)
            } else if !has_acct(l.accounts, maker_dst) {
                Some(EscrowError::NotFoundError)
            } else if acct_of(l.accounts, maker_dst).authority != caller || acct_of(
                l.accounts,
                maker_dst,
            ).mint != e.mint_a {
                Some(EscrowError::AssetMismatchError)
            } else if maker_dst == va {
                Some(EscrowError::AssetMismatchError)
            } else if balance_of(l.accounts, maker_dst) + balance_of(l.accounts, va) > u64::MAX {
                Some(EscrowError::OverflowError)
            } else {
                None
            }
        }
    }
}

/// The ledger after a successful Refund: the vault's whole balance is back
/// with the maker, the vault is closed, and the record is destroyed.
pub open spec fn refund_post(
    l: EscrowLedgerV,
    caller: Seq<u8>,
    maker: Seq<u8>,
    offer_id: u8,
    maker_dst: Seq<u8>,
) -> EscrowLedgerV {
    let va = vault_addr(l.program_id, maker, offer_id);
    let vb = balance_of(l.accounts, va);
    EscrowLedgerV {
        program_id: l.program_id,
        strict: l.strict,
        accounts: sp_close(sp_transfer(l.accounts, va, maker_dst, vb), va),
        escrows: l.escrows.remove(escrow_idx(l.escrows, maker, offer_id)),
    }
}

/// Law (atomic teardown of Refund): when no check fails, the post-ledger
/// shows the full deposit back in the maker's account, the vault and the
/// record destroyed, every other offer and account untouched — and is still
/// well-formed.
pub proof fn lemma_refund_effects(
    l: EscrowLedgerV,
    caller: Seq<u8>,
    maker: Seq<u8>,
    offer_id: u8,
    maker_dst: Seq<u8>,
)
    requires
        wf(l),
        refund_check(l, caller, maker, offer_id, maker_dst) is None,
    ensures
        ({
            let p = refund_post(l, caller, maker, offer_id, maker_dst);
            let va = vault_addr(l.program_id, maker, offer_id);
            &&& wf(p)
            &&& !has_escrow(p.escrows, maker, offer_id)
            &&& forall|m: Seq<u8>, s: u8|
                #[trigger] has_escrow(p.escrows, m, s) == (has_escrow(l.escrows, m, s) && !(m
                    == maker && s == offer_id))
            &&& !has_acct(p.accounts, va)
            &&& balance_of(p.accounts, va) == 0
            &&& balance_of(p.accounts, maker_dst) == (balance_of(l.accounts, maker_dst)
                + balance_of(l.accounts, va)) as u64
            &&& forall|a: Seq<u8>|
                a != va && a != maker_dst ==> #[trigger] balance_of(p.accounts, a) == balance_of(
                    l.accounts,
                    a,
                )
        }),
{
    let p = refund_post(l, caller, maker, offer_id, maker_dst);
    let va = vault_addr(l.program_id, maker, offer_id);
    let vb = balance_of(l.accounts, va);
    let k = escrow_idx(l.escrows, maker, offer_id);
    assert(0 <= k < l.escrows.len() && l.escrows[k].maker == maker && l.escrows[k].seed
        == offer_id);
    let s1 = sp_transfer(l.accounts, va, maker_dst, vb);
    lemma_sp_transfer(l.accounts, va, maker_dst, vb);
    lemma_sp_close(s1, va);
    lemma_escrow_remove(l.escrows, maker, offer_id);
    assert forall|i: int|
        0 <= i < p.escrows.len() implies escrow_backed(
        p.program_id,
        p.accounts,
        #[trigger] p.escrows[i],
    ) by {
        let si = if i < k { i } else { i + 1 };
        assert(p.escrows[i] == l.escrows[si]);
        let e = l.escrows[si];
        assert(escrow_backed(l.program_id, l.accounts, e));
        let da = vault_derivation(l.program_id, e.maker, e.seed)->Some_0.0;
        assert(da == vault_addr(l.program_id, e.maker, e.seed));
        assert(si != k);
        if si < k {
            assert(vault_addr(l.program_id, e.maker, e.seed) != vault_addr(
                l.program_id,
                l.escrows[k].maker,
                l.escrows[k].seed,
            ));
        } else {
            assert(vault_addr(l.program_id, l.escrows[k].maker, l.escrows[k].seed) != vault_addr(
                l.program_id,
                e.maker,
                e.seed,
            ));
        }
        assert(da != va);
        assert(has_acct(l.accounts, da));
        assert(acct_of(s1, da).mint == acct_of(l.accounts, da).mint);
        assert(acct_of(s1, da).authority == acct_of(l.accounts, da).authority);
        assert(has_acct(p.accounts, da));
        assert(acct_of(p.accounts, da) == acct_of(s1, da));
    }
    assert forall|i: int, j: int| 0 <= i < j < p.escrows.len() implies vault_addr(
        p.program_id,
        (#[trigger] p.escrows[i]).maker,
        p.escrows[i].seed,
    ) != vault_addr(p.program_id, (#[trigger] p.escrows[j]).maker, p.escrows[j].seed) by {
        let si = if i < k { i } else { i + 1 };
        let sj = if j < k { j } else { j + 1 };
        assert(p.escrows[i] == l.escrows[si] && p.escrows[j] == l.escrows[sj]);
        assert(vault_addr(l.program_id, l.escrows[si].maker, l.escrows[si].seed) != vault_addr(
            l.program_id,
            l.escrows[sj].maker,
            l.escrows[sj].seed,
        ));
    }
}

/// Law (conservation under Refund): the total of the offered asset held by
/// the maker's account, the vault, and any third account is the same before
/// and after a successful Refund — nothing is created or destroyed, only
/// moved.
pub proof fn lemma_refund_conserves(
    l: EscrowLedgerV,
    caller: Seq<u8>,
    maker: Seq<u8>,
    offer_id: u8,
    maker_dst: Seq<u8>,
    other: Seq<u8>,
)
    requires
        wf(l),
        refund_check(l, caller, maker, offer_id, maker_dst) is None,
        other != maker_dst,
        other != vault_addr(l.program_id, maker, offer_id),
    ensures
        ({
            let p = refund_post(l, caller, maker, offer_id, maker_dst);
            let va = vault_addr(l.program_id, maker, offer_id);
            balance_of(p.accounts, maker_dst) + balance_of(p.accounts, va) + balance_of(
                p.accounts,
                other,
            ) == balance_of(l.accounts, maker_dst) + balance_of(l.accounts, va) + balance_of(
                l.accounts,
                other,
            )
        }),
{
    lemma_refund_effects(l, caller, maker, offer_id, maker_dst);
}

/// The account table part-way through a Take: after the lazy creation of
/// the two destination accounts and the counter-asset leg (taker pays the
/// maker), before the vault is emptied.
pub open spec fn take_mid_accounts(
    l: EscrowLedgerV,
    taker: Seq<u8>,
    maker: Seq<u8>,
    offer_id: u8,
    taker_src_b: Seq<u8>,
    taker_dst_a: Seq<u8>,
    maker_dst_b: Seq<u8>,
) -> Seq<AccountV> {
    let e = escrow_of(l.escrows, maker, offer_id);
    let s1 = if has_acct(l.accounts, taker_dst_a) {
        l.accounts
    } else {
        sp_open(l.accounts, taker_dst_a, taker, e.mint_a)
    };
    let s2 = if has_acct(s1, maker_dst_b) {
        s1
    } else {
        sp_open(s1, maker_dst_b, e.maker, e.mint_b)
    };
    sp_transfer(s2, taker_src_b, maker_dst_b, e.receive_amount)
}

/// Why a Take attempt is rejected, or `None` when it must succeed. The
/// checks are ordered; the first failing one names the error. Anyone may
/// take a pending offer; the vault itself may not stand in for any party's
/// account.
pub open spec fn take_check(
    l: EscrowLedgerV,
    taker: Seq<u8>,
    maker: Seq<u8>,
    offer_id: u8,
    taker_src_b: Seq<u8>,
    taker_dst_a: Seq<u8>,
    maker_dst_b: Seq<u8>,
) -> Option<EscrowError> {
    if !has_escrow(l.escrows, maker, offer_id) {
        Some(EscrowError::NotFoundError)
    } else {
        let e = escrow_of(l.escrows, maker, offer_id);
        if vault_derivation(l.program_id, maker, offer_id) is None {
            Some(EscrowError::DerivationError)
        } else {
            let va = vault_addr(l.program_id, maker, offer_id);
            if !has_acct(l.accounts, va) {
                Some(EscrowError::NotFoundError)
            } else if taker_dst_a == va {
                Some(EscrowError::AssetMismatchError)
            } else if has_acct(l.accounts, taker_dst_a) && (acct_of(
                l.accounts,
                taker_dst_a,
            ).authority != taker || acct_of(l.accounts, taker_dst_a).mint != e.mint_a) {
                Some(EscrowError::AssetMismatchError)
            } else {
                let s1 = if has_acct(l.accounts, taker_dst_a) {
                    l.accounts
                } else {
                    sp_open(l.accounts, taker_dst_a, taker, e.mint_a)
                };
                if taker_src_b == va {
                    Some(EscrowError::AssetMismatchError)
                } else if !has_acct(s1, taker_src_b) {
                    Some(EscrowError::NotFoundError)
                } else if acct_of(s1, taker_src_b).authority != taker || acct_of(
                    s1,
                    taker_src_b,
                ).mint != e.mint_b {
                    Some(EscrowError::AssetMismatchError)
                } else if maker_dst_b == va {
                    Some(EscrowError::AssetMismatchError)
                } else if has_acct(s1, maker_dst_b) && (acct_of(s1, maker_dst_b).authority
                    != e.maker || acct_of(s1, maker_dst_b).mint != e.mint_b) {
                    Some(EscrowError::AssetMismatchError)
                } else {
                    let s2 = if has_acct(s1, maker_dst_b) {
                        s1
                    } else {
                        sp_open(s1, maker_dst_b, e.maker, e.mint_b)
                    };
                    if balance_of(s2, taker_src_b) < e.receive_amount {
                        Some(EscrowError::InsufficientFundsError)
                    } else if taker_src_b != maker_dst_b && balance_of(s2, maker_dst_b)
                        + e.receive_amount > u64::MAX {
                        Some(EscrowError::OverflowError)
                    } else {
                        let s3 = sp_transfer(s2, taker_src_b, maker_dst_b, e.receive_amount);
                        if balance_of(s3, taker_dst_a) + balance_of(s3, va) > u64::MAX {
                            Some(EscrowError::OverflowError)
                        } else {
                            None
                        }
                    }
                }
            }
        }
    }
}

/// The ledger after a successful Take: the counter-asset has gone from the
/// taker to the maker, the vault's whole balance has gone to the taker, the
/// vault is closed, and the record is destroyed.
pub open spec fn take_post(
    l: EscrowLedgerV,
    taker: Seq<u8>,
    maker: Seq<u8>,
    offer_id: u8,
    taker_src_b: Seq<u8>,
    taker_dst_a: Seq<u8>,
    maker_dst_b: Seq<u8>,
) -> EscrowLedgerV {
    let va = vault_addr(l.program_id, maker, offer_id);
    let s3 = take_mid_accounts(l, taker, maker, offer_id, taker_src_b, taker_dst_a, maker_dst_b);
    let s4 = sp_transfer(s3, va, taker_dst_a, balance_of(s3, va));
    EscrowLedgerV {
        program_id: l.program_id,
        strict: l.strict,
        accounts: sp_close(s4, va),
        escrows: l.escrows.remove(escrow_idx(l.escrows, maker, offer_id)),
    }
}

/// Law (atomic settlement of Take): when no check fails, the post-ledger
/// shows the whole swap at once — the counter-asset with the maker, the
/// whole deposit with the taker, vault and record destroyed, every other
/// offer and account untouched — and is still well-formed.
pub proof fn lemma_take_effects(
    l: EscrowLedgerV,
    taker: Seq<u8>,
    maker: Seq<u8>,
    offer_id: u8,
    taker_src_b: Seq<u8>,
    taker_dst_a: Seq<u8>,
    maker_dst_b: Seq<u8>,
)
    requires
        wf(l),
        take_check(l, taker, maker, offer_id, taker_src_b, taker_dst_a, maker_dst_b) is None,
    ensures
        ({
            let p = take_post(l, taker, maker, offer_id, taker_src_b, taker_dst_a, maker_dst_b);
            let e = escrow_of(l.escrows, maker, offer_id);
            let va = vault_addr(l.program_id, maker, offer_id);
            let s3 = take_mid_accounts(
                l,
                taker,
                maker,
                offer_id,
                taker_src_b,
                taker_dst_a,
                maker_dst_b,
            );
            &&& wf(p)
            &&& !has_escrow(p.escrows, maker, offer_id)
            &&& forall|m: Seq<u8>, s: u8|
                #[trigger] has_escrow(p.escrows, m, s) == (has_escrow(l.escrows, m, s) && !(m
                    == maker && s == offer_id))
            &&& !has_acct(p.accounts, va)
            &&& balance_of(p.accounts, va) == 0
            &&& balance_of(s3, va) == balance_of(l.accounts, va)
            &&& balance_of(p.accounts, taker_dst_a) == (balance_of(s3, taker_dst_a) + balance_of(
                l.accounts,
                va,
            )) as u64
            &&& (taker_dst_a != taker_src_b && taker_dst_a != maker_dst_b) ==> balance_of(
                s3,
                taker_dst_a,
            ) == (if has_acct(l.accounts, taker_dst_a) {
                balance_of(l.accounts, taker_dst_a)
            } else {
                0
            })
            &&& (maker_dst_b != taker_src_b && maker_dst_b != taker_dst_a) ==> balance_of(
                p.accounts,
                maker_dst_b,
            ) == ((if has_acct(l.accounts, maker_dst_b) {
                balance_of(l.accounts, maker_dst_b)
            } else {
                0
            }) + e.receive_amount) as u64
            &&& (taker_src_b != maker_dst_b && taker_src_b != taker_dst_a) ==> balance_of(
                p.accounts,
                taker_src_b,
            ) == (balance_of(l.accounts, taker_src_b) - e.receive_amount) as u64
            &&& forall|a: Seq<u8>|
                a != va && a != taker_src_b && a != taker_dst_a && a != maker_dst_b
                    ==> #[trigger] balance_of(p.accounts, a) == balance_of(l.accounts, a)
        }),
{
    let p = take_post(l, taker, maker, offer_id, taker_src_b, taker_dst_a, maker_dst_b);
    let e = escrow_of(l.escrows, maker, offer_id);
    let va = vault_addr(l.program_id, maker, offer_id);
    let k = escrow_idx(l.escrows, maker, offer_id);
    assert(0 <= k < l.escrows.len() && l.escrows[k].maker == maker && l.escrows[k].seed
        == offer_id);
    let created_a = !has_acct(l.accounts, taker_dst_a);
    let s1 = if has_acct(l.accounts, taker_dst_a) {
        l.accounts
    } else {
        sp_open(l.accounts, taker_dst_a, taker, e.mint_a)
    };
    if created_a {
        lemma_sp_open(l.accounts, taker_dst_a, taker, e.mint_a);
    }
    let created_b = !has_acct(s1, maker_dst_b);
    let s2 = if has_acct(s1, maker_dst_b) {
        s1
    } else {
        sp_open(s1, maker_dst_b, e.maker, e.mint_b)
    };
    if created_b {
        lemma_sp_open(s1, maker_dst_b, e.maker, e.mint_b);
    }
    assert(unique_addrs(s2));
    assert(has_acct(s2, taker_src_b));
    assert(has_acct(s2, maker_dst_b));
    let s3 = sp_transfer(s2, taker_src_b, maker_dst_b, e.receive_amount);
    lemma_sp_transfer(s2, taker_src_b, maker_dst_b, e.receive_amount);
    assert(s3 == take_mid_accounts(l, taker, maker, offer_id, taker_src_b, taker_dst_a, maker_dst_b));
    assert(balance_of(s3, va) == balance_of(l.accounts, va));
    assert(has_acct(s3, va));
    assert(has_acct(s3, taker_dst_a));
    let vb = balance_of(s3, va);
    let s4 = sp_transfer(s3, va, taker_dst_a, vb);
    lemma_sp_transfer(s3, va, taker_dst_a, vb);
    lemma_sp_close(s4, va);
    lemma_escrow_remove(l.escrows, maker, offer_id);
    assert(balance_of(p.accounts, taker_dst_a) == balance_of(s4, taker_dst_a));
    assert forall|a: Seq<u8>|
        a != va && a != taker_src_b && a != taker_dst_a && a != maker_dst_b implies #[trigger] balance_of(
        p.accounts,
        a,
    ) == balance_of(l.accounts, a) by {
        assert(balance_of(s1, a) == balance_of(l.accounts, a));
        assert(balance_of(s2, a) == balance_of(s1, a));
        assert(balance_of(s3, a) == balance_of(s2, a));
        assert(balance_of(s4, a) == balance_of(s3, a));
    }
    if maker_dst_b != taker_src_b && maker_dst_b != taker_dst_a {
        assert(balance_of(s2, maker_dst_b) == (if has_acct(l.accounts, maker_dst_b) {
            balance_of(l.accounts, maker_dst_b)
        } else {
            0
        }));
        assert(balance_of(p.accounts, maker_dst_b) == balance_of(s3, maker_dst_b));
    }
    if taker_src_b != maker_dst_b && taker_src_b != taker_dst_a {
        assert(balance_of(s2, taker_src_b) == balance_of(l.accounts, taker_src_b));
        assert(balance_of(p.accounts, taker_src_b) == balance_of(s3, taker_src_b));
    }
    if taker_dst_a != taker_src_b && taker_dst_a != maker_dst_b {
        assert(balance_of(s2, taker_dst_a) == (if has_acct(l.accounts, taker_dst_a) {
            balance_of(l.accounts, taker_dst_a)
        } else {
            0
        }));
        assert(balance_of(s3, taker_dst_a) == balance_of(s2, taker_dst_a));
    }
    assert forall|i: int|
        0 <= i < p.escrows.len() implies escrow_backed(
        p.program_id,
        p.accounts,
        #[trigger] p.escrows[i],
    ) by {
        let si = if i < k { i } else { i + 1 };
        assert(p.escrows[i] == l.escrows[si]);
        let e2 = l.escrows[si];
        assert(escrow_backed(l.program_id, l.accounts, e2));
        let da = vault_derivation(l.program_id, e2.maker, e2.seed)->Some_0.0;
        assert(da == vault_addr(l.program_id, e2.maker, e2.seed));
        assert(si != k);
        if si < k {
            assert(vault_addr(l.program_id, e2.maker, e2.seed) != vault_addr(
                l.program_id,
                l.escrows[k].maker,
                l.escrows[k].seed,
            ));
        } else {
            assert(vault_addr(l.program_id, l.escrows[k].maker, l.escrows[k].seed) != vault_addr(
                l.program_id,
                e2.maker,
                e2.seed,
            ));
        }
        assert(da != va);
        assert(has_acct(l.accounts, da));
        assert(da != taker_dst_a || !created_a);
        assert(has_acct(s1, da) && acct_of(s1, da) == acct_of(l.accounts, da));
        assert(da != maker_dst_b || !created_b);
        assert(has_acct(s2, da) && acct_of(s2, da) == acct_of(s1, da));
        assert(has_acct(s3, da));
        assert(acct_of(s3, da).mint == acct_of(s2, da).mint && acct_of(s3, da).authority == acct_of(
            s2,
            da,
        ).authority);
        assert(has_acct(s4, da));
        assert(acct_of(s4, da).mint == acct_of(s3, da).mint && acct_of(s4, da).authority == acct_of(
            s3,
            da,
        ).authority);
        assert(has_acct(p.accounts, da));
        assert(acct_of(p.accounts, da) == acct_of(s4, da));
    }
    assert forall|i: int, j: int| 0 <= i < j < p.escrows.len() implies vault_addr(
        p.program_id,
        (#[trigger] p.escrows[i]).maker,
        p.escrows[i].seed,
    ) != vault_addr(p.program_id, (#[trigger] p.escrows[j]).maker, p.escrows[j].seed) by {
        let si = if i < k { i } else { i + 1 };
        let sj = if j < k { j } else { j + 1 };
        assert(p.escrows[i] == l.escrows[si] && p.escrows[j] == l.escrows[sj]);
        assert(vault_addr(l.program_id, l.escrows[si].maker, l.escrows[si].seed) != vault_addr(
            l.program_id,
            l.escrows[sj].maker,
            l.escrows[sj].seed,
        ));
    }
}

/// Law (exactly-once settlement): once the record of offer
/// `(maker, offer_id)` does not exist — in particular after the one Take or
/// Refund that destroyed it — every further Take or Refund of that offer
/// fails with `NotFoundError`, whatever accounts are supplied.
pub proof fn lemma_settled_offer_not_found(
    l: EscrowLedgerV,
    taker: Seq<u8>,
    caller: Seq<u8>,
    maker: Seq<u8>,
    offer_id: u8,
    taker_src_b: Seq<u8>,
    taker_dst_a: Seq<u8>,
    maker_dst_b: Seq<u8>,
    maker_dst: Seq<u8>,
)
    requires
        !has_escrow(l.escrows, maker, offer_id),
    ensures
        take_check(l, taker, maker, offer_id, taker_src_b, taker_dst_a, maker_dst_b) == Some(
            EscrowError::NotFoundError,
        ),
        refund_check(l, caller, maker, offer_id, maker_dst) == Some(EscrowError::NotFoundError),
{
}

/// Law (authorization of Refund): while the record exists, a Refund whose
/// caller is not the recorded maker fails with `AuthorizationError`,
/// whatever destination account is supplied — and, by the Refund contract,
/// leaves every balance unchanged.
pub proof fn lemma_refund_requires_maker(
    l: EscrowLedgerV,
    caller: Seq<u8>,
    maker: Seq<u8>,
    offer_id: u8,
    maker_dst: Seq<u8>,
)
    requires
        has_escrow(l.escrows, maker, offer_id),
        caller != escrow_of(l.escrows, maker, offer_id).maker,
    ensures
        refund_check(l, caller, maker, offer_id, maker_dst) == Some(
            EscrowError::AuthorizationError,
        ),
{
}

/// Law (derivation determinism): while the record of offer
/// `(maker, offer_id)` exists in a well-formed ledger, re-deriving the
/// vault address from the same seeds succeeds, yields the proof byte stored
/// at creation, and names an account that exists and answers to the derived
/// address alone.
pub proof fn lemma_vault_rederivation(l: EscrowLedgerV, maker: Seq<u8>, offer_id: u8)
    requires
        wf(l),
        has_escrow(l.escrows, maker, offer_id),
    ensures
        vault_derivation(l.program_id, maker, offer_id) is Some,
        vault_bump(l.program_id, maker, offer_id) == escrow_of(l.escrows, maker, offer_id).bump,
        has_acct(l.accounts, vault_addr(l.program_id, maker, offer_id)),
        acct_of(l.accounts, vault_addr(l.program_id, maker, offer_id)).authority == vault_addr(
            l.program_id,
            maker,
            offer_id,
        ),
        acct_of(l.accounts, vault_addr(l.program_id, maker, offer_id)).mint == escrow_of(
            l.escrows,
            maker,
            offer_id,
        ).mint_a,
{
    let i = escrow_idx(l.escrows, maker, offer_id);
    assert(0 <= i < l.escrows.len() && l.escrows[i].maker == maker && l.escrows[i].seed
        == offer_id);
    assert(escrow_backed(l.program_id, l.accounts, l.escrows[i]));
}

/// Law (conservation under Take): when the offered and requested asset
/// types differ, the total of the offered asset held by the maker's source
/// account, the vault, and the taker's destination account is the same
/// before and after a successful Take — nothing is created or destroyed,
/// only moved.
pub proof fn lemma_take_conserves(
    l: EscrowLedgerV,
    taker: Seq<u8>,
    maker: Seq<u8>,
    offer_id: u8,
    taker_src_b: Seq<u8>,
    taker_dst_a: Seq<u8>,
    maker_dst_b: Seq<u8>,
    maker_src: Seq<u8>,
)
    requires
        wf(l),
        take_check(l, taker, maker, offer_id, taker_src_b, taker_dst_a, maker_dst_b) is None,
        escrow_of(l.escrows, maker, offer_id).mint_a != escrow_of(
            l.escrows,
            maker,
            offer_id,
        ).mint_b,
        maker_src != vault_addr(l.program_id, maker, offer_id),
        maker_src != taker_dst_a,
        maker_src != taker_src_b,
        maker_src != maker_dst_b,
    ensures
        ({
            let p = take_post(l, taker, maker, offer_id, taker_src_b, taker_dst_a, maker_dst_b);
            let va = vault_addr(l.program_id, maker, offer_id);
            balance_of(p.accounts, maker_src) + balance_of(p.accounts, va) + balance_of(
                p.accounts,
                taker_dst_a,
            ) == balance_of(l.accounts, maker_src) + balance_of(l.accounts, va) + balance_of(
                l.accounts,
                taker_dst_a,
            )
        }),
{
    let e = escrow_of(l.escrows, maker, offer_id);
    let va = vault_addr(l.program_id, maker, offer_id);
    lemma_take_effects(l, taker, maker, offer_id, taker_src_b, taker_dst_a, maker_dst_b);
    let created_a = !has_acct(l.accounts, taker_dst_a);
    let s1 = if has_acct(l.accounts, taker_dst_a) {
        l.accounts
    } else {
        sp_open(l.accounts, taker_dst_a, taker, e.mint_a)
    };
    if created_a {
        lemma_sp_open(l.accounts, taker_dst_a, taker, e.mint_a);
    }
    if taker_dst_a == taker_src_b {
        assert(has_acct(s1, taker_src_b));
        assert(acct_of(s1, taker_src_b).mint == e.mint_b);
        assert(acct_of(s1, taker_dst_a).mint == e.mint_a);
        assert(false);
    }
    if taker_dst_a == maker_dst_b {
        if has_acct(s1, maker_dst_b) {
            assert(acct_of(s1, maker_dst_b).mint == e.mint_b);
            assert(acct_of(s1, taker_dst_a).mint == e.mint_a);
            assert(false);
        } else {
            assert(has_acct(s1, taker_dst_a));
            assert(false);
        }
    }
}

/// The escrow ledger: the program identity that scopes every derivation,
/// the account table, and the pending offers.
pub struct EscrowLedger {
    program_id: Ident,
    strict: bool,
    accounts: Accounts,
    escrows: Vec<EscrowState>,
}

impl View for EscrowLedger {
    type V = EscrowLedgerV;

    closed spec fn view(&self) -> EscrowLedgerV {
        EscrowLedgerV {
            program_id: self.program_id@,
            strict: self.strict,
            accounts: self.accounts@,
            escrows: self.escrows@.map_values(|e: EscrowState| e@),
        }
    }
}

impl EscrowLedger {
    /// An empty ledger under `program_id` that permits degenerate offers
    /// (zero amounts, identical asset types), leaving their rejection to the
    /// strict policy of `new_strict`.
    pub fn new(program_id: Ident) -> (r: EscrowLedger)
        ensures
            r@.program_id == program_id@,
            !r@.strict,
            r@.accounts == Seq::<AccountV>::empty(),
            r@.escrows == Seq::<EscrowV>::empty(),
            wf(r@),
    {
        let r = EscrowLedger {
            program_id,
            strict: false,
            accounts: Accounts::new(),
            escrows: Vec::new(),
        };
        proof {
            assert(r@.escrows =~= Seq::<EscrowV>::empty());
        }
        r
    }

    /// An empty ledger under `program_id` that rejects degenerate offers
    /// (zero amounts or identical asset types) at Make.
    pub fn new_strict(program_id: Ident) -> (r: EscrowLedger)
        ensures
            r@.program_id == program_id@,
            r@.strict,
            r@.accounts == Seq::<AccountV>::empty(),
            r@.escrows == Seq::<EscrowV>::empty(),
            wf(r@),
    {
        let r = EscrowLedger {
            program_id,
            strict: true,
            accounts: Accounts::new(),
            escrows: Vec::new(),
        };
        proof {
            assert(r@.escrows =~= Seq::<EscrowV>::empty());
        }
        r
    }

    /// The program identity of this ledger.
    pub fn program_id(&self) -> (r: Ident)
        ensures
            r@ == self@.program_id,
    {
        self.program_id
    }

    /// The balance held at `addr`; an absent account holds nothing.
    pub fn balance(&self, addr: &Ident) -> (r: u64)
        requires
            wf(self@),
        ensures
            r == balance_of(self@.accounts, addr@),
    {
        self.accounts.balance(addr)
    }

    /// Whether an account exists at `addr`.
    pub fn has_account(&self, addr: &Ident) -> (r: bool)
        ensures
            r == has_acct(self@.accounts, addr@),
    {
        self.accounts.has_account(addr)
    }

    /// Opens an empty account, the setup step a party performs before
    /// funding it.
    pub fn open_account(&mut self, address: Ident, authority: Ident, mint: Ident) -> (r: Result<
        (),
        EscrowError,
    >)
        requires
            wf(old(self)@),
        ensures
            wf(final(self)@),
            final(self)@.program_id == old(self)@.program_id,
            final(self)@.strict == old(self)@.strict,
            final(self)@.escrows == old(self)@.escrows,
            if has_acct(old(self)@.accounts, address@) {
                r == Err::<(), EscrowError>(EscrowError::AlreadyExistsError) && final(self)@
                    == old(self)@
            } else {
                r == Ok::<(), EscrowError>(()) && final(self)@.accounts == sp_open(
                    old(self)@.accounts,
                    address@,
                    authority@,
                    mint@,
                )
            },
    {
        if self.accounts.has_account(&address) {
            return Err(EscrowError::AlreadyExistsError);
        }
        let ghost l = self@;
        self.accounts.open_unchecked(address, authority, mint);
        proof {
            lemma_sp_open(l.accounts, address@, authority@, mint@);
            self.lemma_wf_amounts_only(l, address@);
        }
        Ok(())
    }

    /// Mints `amount` of the account's own asset into `addr`, the funding
    /// step of scenario setup.
    pub fn credit(&mut self, addr: &Ident, amount: u64) -> (r: Result<(), EscrowError>)
        requires
            wf(old(self)@),
        ensures
            wf(final(self)@),
            final(self)@.program_id == old(self)@.program_id,
            final(self)@.strict == old(self)@.strict,
            final(self)@.escrows == old(self)@.escrows,
            if !has_acct(old(self)@.accounts, addr@) {
                r == Err::<(), EscrowError>(EscrowError::NotFoundError) && final(self)@ == old(
                    self,
                )@
            } else if balance_of(old(self)@.accounts, addr@) + amount > u64::MAX {
                r == Err::<(), EscrowError>(EscrowError::OverflowError) && final(self)@ == old(
                    self,
                )@
            } else {
                r == Ok::<(), EscrowError>(()) && final(self)@.accounts == sp_set_amount(
                    old(self)@.accounts,
                    addr@,
                    (balance_of(old(self)@.accounts, addr@) + amount) as u64,
                )
            },
    {
        let ghost l = self@;
        if !self.accounts.has_account(addr) {
            return Err(EscrowError::NotFoundError);
        }
        let b = self.accounts.balance(addr);
        if amount > u64::MAX - b {
            return Err(EscrowError::OverflowError);
        }
        self.accounts.set_balance_unchecked(addr, b + amount);
        proof {
            lemma_sp_set_amount(l.accounts, addr@, (b + amount) as u64);
            self.lemma_wf_amounts_only(l, addr@);
        }
        Ok(())
    }

    /// A helper for re-establishing well-formedness after a step that left
    /// every account's address, authority and asset type in place and every
    /// offer untouched.
    proof fn lemma_wf_amounts_only(&self, l: EscrowLedgerV, touched: Seq<u8>)
        requires
            wf(l),
            self@.program_id == l.program_id,
            self@.escrows == l.escrows,
            unique_addrs(self@.accounts),
            forall|a: Seq<u8>| #[trigger] has_acct(self@.accounts, a) == (a == touched || has_acct(l.accounts, a)),
            forall|a: Seq<u8>|
                a != touched && has_acct(l.accounts, a) ==> (#[trigger] acct_of(
                    self@.accounts,
                    a,
                )).authority == acct_of(l.accounts, a).authority && acct_of(
                    self@.accounts,
                    a,
                ).mint == acct_of(l.accounts, a).mint,
            has_acct(l.accounts, touched) ==> (acct_of(self@.accounts, touched).authority
                == acct_of(l.accounts, touched).authority && acct_of(self@.accounts, touched).mint
                == acct_of(l.accounts, touched).mint),
        ensures
            wf(self@),
    {
        assert forall|i: int|
            0 <= i < self@.escrows.len() implies escrow_backed(
            self@.program_id,
            self@.accounts,
            #[trigger] self@.escrows[i],
        ) by {
            let e = l.escrows[i];
            assert(escrow_backed(l.program_id, l.accounts, e));
            let da = vault_derivation(l.program_id, e.maker, e.seed)->Some_0.0;
            assert(has_acct(l.accounts, da));
            assert(has_acct(self@.accounts, da));
        }
    }

    /// Looks up the pending offer keyed by `(maker, offer_id)`.
    fn find_escrow(&self, maker: &Ident, offer_id: u8) -> (r: Option<usize>)
        ensures
            match r {
                Some(i) => i < self@.escrows.len() && self@.escrows[i as int].maker == maker@
                    && self@.escrows[i as int].seed == offer_id,
                None => !has_escrow(self@.escrows, maker@, offer_id),
            },
    {
        let mut i: usize = 0;
        while i < self.escrows.len()
            invariant
                i <= self.escrows.len(),
                self@.escrows.len() == self.escrows@.len(),
                forall|j: int|
                    0 <= j < i ==> !((#[trigger] self@.escrows[j]).maker == maker@
                        && self@.escrows[j].seed == offer_id),
            decreases self.escrows.len() - i,
        {
            if ident_eq(&self.escrows[i].maker, maker) && self.escrows[i].seed == offer_id {
                return Some(i);
            }
            i += 1;
        }
        None
    }

    /// Whether the offer keyed by `(maker, offer_id)` is still pending.
    pub fn offer_pending(&self, maker: &Ident, offer_id: u8) -> (r: bool)
        ensures
            r == has_escrow(self@.escrows, maker@, offer_id),
    {
        match self.find_escrow(maker, offer_id) {
            Some(i) => {
                proof {
                    assert(has_escrow(self@.escrows, maker@, offer_id));
                }
                true
            },
            None => false,
        }
    }

    /// A copy of the pending offer keyed by `(maker, offer_id)`, if any.
    pub fn get_offer(&self, maker: &Ident, offer_id: u8) -> (r: Option<EscrowState>)
        requires
            wf(self@),
        ensures
            match r {
                Some(e) => has_escrow(self@.escrows, maker@, offer_id) && e@ == escrow_of(
                    self@.escrows,
                    maker@,
                    offer_id,
                ),
                None => !has_escrow(self@.escrows, maker@, offer_id),
            },
    {
        match self.find_escrow(maker, offer_id) {
            Some(i) => {
                proof {
                    lemma_escrow_at(self@.escrows, maker@, offer_id, i as int);
                }
                Some(self.escrows[i])
            },
            None => None,
        }
    }

    /// Creates an offer: registers the record, opens the holding vault at
    /// the derived address under the derived authority, and locks
    /// `deposit_amount` of `mint_a` from the maker's source account — all
    /// together, or not at all.
    pub fn make(
        &mut self,
        maker: &Ident,
        offer_id: u8,
        mint_a: &Ident,
        mint_b: &Ident,
        receive_amount: u64,
        deposit_amount: u64,
        maker_src: &Ident,
    ) -> (r: Result<(), EscrowError>)
        requires
            wf(old(self)@),
        ensures
            wf(final(self)@),
            match make_check(
                old(self)@,
                maker@,
                offer_id,
                mint_a@,
                mint_b@,
                receive_amount,
                deposit_amount,
                maker_src@,
            ) {
                Some(e) => r == Err::<(), EscrowError>(e) && final(self)@ == old(self)@,
                None => r == Ok::<(), EscrowError>(()) && final(self)@ == make_post(
                    old(self)@,
                    maker@,
                    offer_id,
                    mint_a@,
                    mint_b@,
                    receive_amount,
                    deposit_amount,
                    maker_src@,
                ),
            },
    {
        let ghost l = self@;
        if self.strict && (receive_amount == 0 || deposit_amount == 0 || ident_eq(mint_a, mint_b)) {
            return Err(EscrowError::InvalidOfferError);
        }
        if self.find_escrow(maker, offer_id).is_some() {
            return Err(EscrowError::AlreadyExistsError);
        }
        let derived = derive_escrow_vault(&self.program_id, maker, offer_id);
        let (va, bump) = match derived {
            Some(p) => p,
            None => {
                return Err(EscrowError::DerivationError);
            },
        };
        if self.accounts.has_account(&va) {
            return Err(EscrowError::AlreadyExistsError);
        }
        let src = match self.accounts.get(maker_src) {
            Some(t) => t,
            None => {
                return Err(EscrowError::NotFoundError);
            },
        };
        if !(ident_eq(&src.authority, maker) && ident_eq(&src.mint, mint_a)) {
            return Err(EscrowError::AssetMismatchError);
        }
        if src.amount < deposit_amount {
            return Err(EscrowError::InsufficientFundsError);
        }
        proof {
            assert(make_check(
                l,
                maker@,
                offer_id,
                mint_a@,
                mint_b@,
                receive_amount,
                deposit_amount,
                maker_src@,
            ) is None);
            lemma_make_effects(
                l,
                maker@,
                offer_id,
                mint_a@,
                mint_b@,
                receive_amount,
                deposit_amount,
                maker_src@,
            );
            lemma_sp_open(l.accounts, va@, va@, mint_a@);
        }
        self.accounts.open_unchecked(va, va, *mint_a);
        self.accounts.transfer_unchecked(maker_src, &va, deposit_amount);
        self.escrows.push(
            EscrowState {
                seed: offer_id,
                maker: *maker,
                mint_a: *mint_a,
                mint_b: *mint_b,
                receive_amount,
                bump,
            },
        );
        proof {
            assert(self@.escrows =~= make_post(
                l,
                maker@,
                offer_id,
                mint_a@,
                mint_b@,
                receive_amount,
                deposit_amount,
                maker_src@,
            ).escrows);
            assert(self@ =~= make_post(
                l,
                maker@,
                offer_id,
                mint_a@,
                mint_b@,
                receive_amount,
                deposit_amount,
                maker_src@,
            ));
        }
        Ok(())
    }

    /// Removes the offer record at index `i`.
    fn remove_escrow(&mut self, i: usize)
        requires
            i < old(self)@.escrows.len(),
        ensures
            final(self)@.program_id == old(self)@.program_id,
            final(self)@.strict == old(self)@.strict,
            final(self)@.accounts == old(self)@.accounts,
            final(self)@.escrows == old(self)@.escrows.remove(i as int),
    {
        self.escrows.remove(i);
        proof {
            assert(final(self)@.escrows =~= old(self)@.escrows.remove(i as int));
        }
    }

    /// Cancels an offer: returns the vault's whole balance to the maker's
    /// account, closes the vault, and destroys the record — all together, or
    /// not at all. Only the recorded maker may do this.
    pub fn refund(
        &mut self,
        caller: &Ident,
        maker: &Ident,
        offer_id: u8,
        maker_dst: &Ident,
    ) -> (r: Result<(), EscrowError>)
        requires
            wf(old(self)@),
        ensures
            wf(final(self)@),
            match refund_check(old(self)@, caller@, maker@, offer_id, maker_dst@) {
                Some(e) => r == Err::<(), EscrowError>(e) && final(self)@ == old(self)@,
                None => r == Ok::<(), EscrowError>(()) && final(self)@ == refund_post(
                    old(self)@,
                    caller@,
                    maker@,
                    offer_id,
                    maker_dst@,
                ),
            },
    {
        let ghost l = self@;
        let i = match self.find_escrow(maker, offer_id) {
            Some(i) => i,
            None => {
                return Err(EscrowError::NotFoundError);
            },
        };
        proof {
            lemma_escrow_at(l.escrows, maker@, offer_id, i as int);
        }
        let e = self.escrows[i];
        if !ident_eq(caller, &e.maker) {
            return Err(EscrowError::AuthorizationError);
        }
        let derived = derive_escrow_vault(&self.program_id, maker, offer_id);
        let (va, _bump) = match derived {
            Some(p) => p,
            None => {
                return Err(EscrowError::DerivationError);
            },
        };
        if !self.accounts.has_account(&va) {
            return Err(EscrowError::NotFoundError);
        }
        let dst = match self.accounts.get(maker_dst) {
            Some(t) => t,
            None => {
                return Err(EscrowError::NotFoundError);
            },
        };
        if !(ident_eq(&dst.authority, caller) && ident_eq(&dst.mint, &e.mint_a)) {
            return Err(EscrowError::AssetMismatchError);
        }
        if ident_eq(maker_dst, &va) {
            return Err(EscrowError::AssetMismatchError);
        }
        let vb = self.accounts.balance(&va);
        if vb > u64::MAX - dst.amount {
            return Err(EscrowError::OverflowError);
        }
        proof {
            assert(refund_check(l, caller@, maker@, offer_id, maker_dst@) is None);
            lemma_refund_effects(l, caller@, maker@, offer_id, maker_dst@);
            lemma_sp_transfer(l.accounts, va@, maker_dst@, vb);
        }
        self.accounts.transfer_unchecked(&va, maker_dst, vb);
        self.accounts.close_unchecked(&va);
        self.remove_escrow(i);
        proof {
            assert(self@ =~= refund_post(l, caller@, maker@, offer_id, maker_dst@));
        }
        Ok(())
    }

    /// Settles an offer: the taker pays `receive_amount` of the requested
    /// asset straight to the maker's account, receives the vault's whole
    /// balance of the offered asset, and both the vault and the record are
    /// destroyed — all together, or not at all. Destination accounts that do
    /// not exist yet are created on the way.
    pub fn take(
        &mut self,
        taker: &Ident,
        maker: &Ident,
        offer_id: u8,
        taker_src_b: &Ident,
        taker_dst_a: &Ident,
        maker_dst_b: &Ident,
    ) -> (r: Result<(), EscrowError>)
        requires
            wf(old(self)@),
        ensures
            wf(final(self)@),
            match take_check(
                old(self)@,
                taker@,
                maker@,
                offer_id,
                taker_src_b@,
                taker_dst_a@,
                maker_dst_b@,
            ) {
                Some(e) => r == Err::<(), EscrowError>(e) && final(self)@ == old(self)@,
                None => r == Ok::<(), EscrowError>(()) && final(self)@ == take_post(
                    old(self)@,
                    taker@,
                    maker@,
                    offer_id,
                    taker_src_b@,
                    taker_dst_a@,
                    maker_dst_b@,
                ),
            },
    {
        let ghost l = self@;
        let i = match self.find_escrow(maker, offer_id) {
            Some(i) => i,
            None => {
                return Err(EscrowError::NotFoundError);
            },
        };
        proof {
            lemma_escrow_at(l.escrows, maker@, offer_id, i as int);
        }
        let e = self.escrows[i];
        let derived = derive_escrow_vault(&self.program_id, maker, offer_id);
        let (va, _bump) = match derived {
            Some(p) => p,
            None => {
                return Err(EscrowError::DerivationError);
            },
        };
        let vault = match self.accounts.get(&va) {
            Some(t) => t,
            None => {
                return Err(EscrowError::NotFoundError);
            },
        };
        if ident_eq(taker_dst_a, &va) {
            return Err(EscrowError::AssetMismatchError);
        }
        let dst_a_opt = self.accounts.get(taker_dst_a);
        let created_a: bool;
        let dst_a_base: u64;
        match dst_a_opt {
            Some(t) => {
                if !(ident_eq(&t.authority, taker) && ident_eq(&t.mint, &e.mint_a)) {
                    return Err(EscrowError::AssetMismatchError);
                }
                created_a = false;
                dst_a_base = t.amount;
            },
            None => {
                created_a = true;
                dst_a_base = 0;
            },
        }
        let ghost s1 = if has_acct(l.accounts, taker_dst_a@) {
            l.accounts
        } else {
            sp_open(l.accounts, taker_dst_a@, taker@, e@.mint_a)
        };
        proof {
            if created_a {
                lemma_sp_open(l.accounts, taker_dst_a@, taker@, e@.mint_a);
            }
        }
        if ident_eq(taker_src_b, &va) {
            return Err(EscrowError::AssetMismatchError);
        }
        let src_b_bal: u64;
        if created_a && ident_eq(taker_src_b, taker_dst_a) {
            if !ident_eq(&e.mint_a, &e.mint_b) {
                return Err(EscrowError::AssetMismatchError);
            }
            src_b_bal = 0;
        } else {
            match self.accounts.get(taker_src_b) {
                Some(t) => {
                    if !(ident_eq(&t.authority, taker) && ident_eq(&t.mint, &e.mint_b)) {
                        return Err(EscrowError::AssetMismatchError);
                    }
                    src_b_bal = t.amount;
                },
                None => {
                    return Err(EscrowError::NotFoundError);
                },
            }
        }
        proof {
            assert(has_acct(s1, taker_src_b@));
            assert(acct_of(s1, taker_src_b@).authority == taker@);
            assert(acct_of(s1, taker_src_b@).mint == e@.mint_b);
            assert(balance_of(s1, taker_src_b@) == src_b_bal);
        }
        if ident_eq(maker_dst_b, &va) {
            return Err(EscrowError::AssetMismatchError);
        }
        let created_b: bool;
        let dst_b_bal: u64;
        if created_a && ident_eq(maker_dst_b, taker_dst_a) {
            if !(ident_eq(taker, &e.maker) && ident_eq(&e.mint_a, &e.mint_b)) {
                return Err(EscrowError::AssetMismatchError);
            }
            created_b = false;
            dst_b_bal = 0;
        } else {
            match self.accounts.get(maker_dst_b) {
                Some(t) => {
                    if !(ident_eq(&t.authority, &e.maker) && ident_eq(&t.mint, &e.mint_b)) {
                        return Err(EscrowError::AssetMismatchError);
                    }
                    created_b = false;
                    dst_b_bal = t.amount;
                },
                None => {
                    created_b = true;
                    dst_b_bal = 0;
                },
            }
        }
        let ghost s2 = if has_acct(s1, maker_dst_b@) {
            s1
        } else {
            sp_open(s1, maker_dst_b@, e@.maker, e@.mint_b)
        };
        proof {
            if created_b {
                lemma_sp_open(s1, maker_dst_b@, e@.maker, e@.mint_b);
            }
            assert(balance_of(s2, taker_src_b@) == src_b_bal);
            assert(balance_of(s2, maker_dst_b@) == dst_b_bal);
        }
        if src_b_bal < e.receive_amount {
            return Err(EscrowError::InsufficientFundsError);
        }
        if !ident_eq(taker_src_b, maker_dst_b) && e.receive_amount > u64::MAX - dst_b_bal {
            return Err(EscrowError::OverflowError);
        }
        let ghost s3 = sp_transfer(s2, taker_src_b@, maker_dst_b@, e@.receive_amount);
        proof {
            lemma_sp_transfer(s2, taker_src_b@, maker_dst_b@, e@.receive_amount);
        }
        let dst_a_bal3: u64;
        if ident_eq(taker_dst_a, taker_src_b) && !ident_eq(taker_dst_a, maker_dst_b) {
            dst_a_bal3 = src_b_bal - e.receive_amount;
        } else if !ident_eq(taker_dst_a, taker_src_b) && ident_eq(taker_dst_a, maker_dst_b) {
            dst_a_bal3 = dst_b_bal + e.receive_amount;
        } else {
            dst_a_bal3 = dst_a_base;
        }
        proof {
            if taker_dst_a@ == taker_src_b@ && taker_dst_a@ == maker_dst_b@ {
                assert(balance_of(s3, taker_dst_a@) == balance_of(s2, taker_dst_a@));
                assert(balance_of(s2, taker_dst_a@) == src_b_bal);
                assert(dst_a_base == src_b_bal);
            } else if taker_dst_a@ != taker_src_b@ && taker_dst_a@ != maker_dst_b@ {
                assert(balance_of(s3, taker_dst_a@) == balance_of(s2, taker_dst_a@));
                assert(balance_of(s2, taker_dst_a@) == dst_a_base);
            }
            assert(balance_of(s3, taker_dst_a@) == dst_a_bal3);
            assert(balance_of(s3, va@) == vault.amount);
        }
        if vault.amount > u64::MAX - dst_a_bal3 {
            return Err(EscrowError::OverflowError);
        }
        proof {
            assert(take_check(
                l,
                taker@,
                maker@,
                offer_id,
                taker_src_b@,
                taker_dst_a@,
                maker_dst_b@,
            ) is None);
            lemma_take_effects(
                l,
                taker@,
                maker@,
                offer_id,
                taker_src_b@,
                taker_dst_a@,
                maker_dst_b@,
            );
        }
        if created_a {
            self.accounts.open_unchecked(*taker_dst_a, *taker, e.mint_a);
        }
        if created_b {
            self.accounts.open_unchecked(*maker_dst_b, e.maker, e.mint_b);
        }
        proof {
            assert(self@.accounts == s2);
        }
        self.accounts.transfer_unchecked(taker_src_b, maker_dst_b, e.receive_amount);
        proof {
            assert(self@.accounts == s3);
        }
        let vb = self.accounts.balance(&va);
        proof {
            assert(vb == vault.amount);
            lemma_sp_transfer(s3, va@, taker_dst_a@, vb);
        }
        self.accounts.transfer_unchecked(&va, taker_dst_a, vb);
        self.accounts.close_unchecked(&va);
        self.remove_escrow(i);
        proof {
            assert(self@ =~= take_post(
                l,
                taker@,
                maker@,
                offer_id,
                taker_src_b@,
                taker_dst_a@,
                maker_dst_b@,
            ));
        }
        Ok(())
    }
}

} // verus!
