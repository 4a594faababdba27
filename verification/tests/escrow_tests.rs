use escrow_ledger::derive::derive_escrow_vault;
use escrow_ledger::errors::EscrowError;
use escrow_ledger::escrow::EscrowLedger;
use escrow_ledger::ident::Ident;

fn id(n: u8) -> Ident {
    Ident::new([n; 32])
}

/// A ledger with a funded maker (100 of asset A) and a funded taker
/// (50 of asset B), before any offer exists.
fn setup() -> (EscrowLedger, Ident, Ident, Ident, Ident, Ident, Ident, Ident, Ident) {
    let pid = id(9);
    let maker = id(1);
    let taker = id(2);
    let mint_a = id(3);
    let mint_b = id(4);
    let maker_src = id(10);
    let taker_src_b = id(11);
    let taker_dst_a = id(12);
    let maker_dst_b = id(13);
    let mut l = EscrowLedger::new(pid);
    l.open_account(maker_src, maker, mint_a).unwrap();
    l.credit(&maker_src, 100).unwrap();
    l.open_account(taker_src_b, taker, mint_b).unwrap();
    l.credit(&taker_src_b, 50).unwrap();
    (l, maker, taker, mint_a, mint_b, maker_src, taker_src_b, taker_dst_a, maker_dst_b)
}

#[test]
fn make_locks_deposit_in_derived_vault() {
    let (mut l, maker, _taker, mint_a, mint_b, maker_src, _tsb, _tda, _mdb) = setup();
    assert_eq!(l.make(&maker, 1, &mint_a, &mint_b, 50, 100, &maker_src), Ok(()));
    let (va, _bump) = derive_escrow_vault(&l.program_id(), &maker, 1).unwrap();
    assert_eq!(l.balance(&va), 100);
    assert_eq!(l.balance(&maker_src), 0);
    assert!(l.offer_pending(&maker, 1));
    let offer = l.get_offer(&maker, 1).unwrap();
    assert_eq!(offer.receive_amount, 50);
    assert_eq!(offer.seed, 1);
}

#[test]
fn take_swaps_and_destroys_offer() {
    let (mut l, maker, taker, mint_a, mint_b, maker_src, tsb, tda, mdb) = setup();
    l.make(&maker, 1, &mint_a, &mint_b, 50, 100, &maker_src).unwrap();
    assert_eq!(l.take(&taker, &maker, 1, &tsb, &tda, &mdb), Ok(()));
    // Maker ends with +50 B, taker ends with +100 A.
    assert_eq!(l.balance(&mdb), 50);
    assert_eq!(l.balance(&tda), 100);
    assert_eq!(l.balance(&tsb), 0);
    // Vault and record no longer exist.
    let (va, _bump) = derive_escrow_vault(&l.program_id(), &maker, 1).unwrap();
    assert!(!l.has_account(&va));
    assert!(!l.offer_pending(&maker, 1));
    // A second settlement attempt fails with NotFoundError.
    assert_eq!(
        l.take(&taker, &maker, 1, &tsb, &tda, &mdb),
        Err(EscrowError::NotFoundError)
    );
    assert_eq!(
        l.refund(&maker, &maker, 1, &maker_src),
        Err(EscrowError::NotFoundError)
    );
}

#[test]
fn take_conserves_offered_asset() {
    let (mut l, maker, taker, mint_a, mint_b, maker_src, tsb, tda, mdb) = setup();
    l.make(&maker, 1, &mint_a, &mint_b, 50, 100, &maker_src).unwrap();
    let (va, _bump) = derive_escrow_vault(&l.program_id(), &maker, 1).unwrap();
    let before = l.balance(&maker_src) + l.balance(&va) + l.balance(&tda);
    l.take(&taker, &maker, 1, &tsb, &tda, &mdb).unwrap();
    let after = l.balance(&maker_src) + l.balance(&va) + l.balance(&tda);
    assert_eq!(before, after);
    assert_eq!(after, 100);
}

#[test]
fn refund_restores_maker_balance_exactly() {
    let (mut l, maker, _taker, mint_a, mint_b, maker_src, tsb, _tda, mdb) = setup();
    l.make(&maker, 2, &mint_a, &mint_b, 50, 100, &maker_src).unwrap();
    assert_eq!(l.balance(&maker_src), 0);
    assert_eq!(l.refund(&maker, &maker, 2, &maker_src), Ok(()));
    // Original balance restored exactly; vault and record destroyed.
    assert_eq!(l.balance(&maker_src), 100);
    let (va, _bump) = derive_escrow_vault(&l.program_id(), &maker, 2).unwrap();
    assert!(!l.has_account(&va));
    assert!(!l.offer_pending(&maker, 2));
    // No B ever moved.
    assert_eq!(l.balance(&tsb), 50);
    assert_eq!(l.balance(&mdb), 0);
}

#[test]
fn refund_by_non_maker_is_unauthorized() {
    let (mut l, maker, taker, mint_a, mint_b, maker_src, tsb, _tda, _mdb) = setup();
    l.make(&maker, 1, &mint_a, &mint_b, 50, 100, &maker_src).unwrap();
    let mallory = id(66);
    assert_eq!(
        l.refund(&mallory, &maker, 1, &maker_src),
        Err(EscrowError::AuthorizationError)
    );
    // All balances unchanged and the offer still pending.
    let (va, _bump) = derive_escrow_vault(&l.program_id(), &maker, 1).unwrap();
    assert_eq!(l.balance(&va), 100);
    assert_eq!(l.balance(&maker_src), 0);
    assert_eq!(l.balance(&tsb), 50);
    assert!(l.offer_pending(&maker, 1));
}

#[test]
fn make_with_used_offer_id_already_exists() {
    let (mut l, maker, _taker, mint_a, mint_b, maker_src, _tsb, _tda, _mdb) = setup();
    l.make(&maker, 1, &mint_a, &mint_b, 50, 60, &maker_src).unwrap();
    let before = l.balance(&maker_src);
    assert_eq!(
        l.make(&maker, 1, &mint_a, &mint_b, 10, 20, &maker_src),
        Err(EscrowError::AlreadyExistsError)
    );
    assert_eq!(l.balance(&maker_src), before);
}

#[test]
fn make_with_insufficient_funds_fails_without_effect() {
    let (mut l, maker, _taker, mint_a, mint_b, maker_src, _tsb, _tda, _mdb) = setup();
    assert_eq!(
        l.make(&maker, 1, &mint_a, &mint_b, 50, 101, &maker_src),
        Err(EscrowError::InsufficientFundsError)
    );
    assert_eq!(l.balance(&maker_src), 100);
    assert!(!l.offer_pending(&maker, 1));
}

#[test]
fn make_from_foreign_account_is_mismatch() {
    let (mut l, maker, taker, mint_a, mint_b, _maker_src, tsb, _tda, _mdb) = setup();
    // The taker's B account is neither owned by the maker nor of asset A.
    assert_eq!(
        l.make(&maker, 1, &mint_a, &mint_b, 50, 10, &tsb),
        Err(EscrowError::AssetMismatchError)
    );
    // An account that exists but holds the wrong asset also mismatches.
    let wrong = id(20);
    l.open_account(wrong, maker, mint_b).unwrap();
    assert_eq!(
        l.make(&maker, 1, &mint_a, &mint_b, 50, 0, &wrong),
        Err(EscrowError::AssetMismatchError)
    );
    let _ = taker;
}

#[test]
fn make_from_missing_account_not_found() {
    let (mut l, maker, _taker, mint_a, mint_b, _maker_src, _tsb, _tda, _mdb) = setup();
    let ghost_acct = id(77);
    assert_eq!(
        l.make(&maker, 1, &mint_a, &mint_b, 50, 10, &ghost_acct),
        Err(EscrowError::NotFoundError)
    );
}

#[test]
fn take_with_insufficient_counter_asset_fails() {
    let (mut l, maker, taker, mint_a, mint_b, maker_src, tsb, tda, mdb) = setup();
    l.make(&maker, 1, &mint_a, &mint_b, 51, 100, &maker_src).unwrap();
    assert_eq!(
        l.take(&taker, &maker, 1, &tsb, &tda, &mdb),
        Err(EscrowError::InsufficientFundsError)
    );
    // Offer still pending, nothing moved.
    assert!(l.offer_pending(&maker, 1));
    assert_eq!(l.balance(&tsb), 50);
}

#[test]
fn take_with_wrong_source_asset_is_mismatch() {
    let (mut l, maker, taker, mint_a, mint_b, maker_src, _tsb, tda, mdb) = setup();
    l.make(&maker, 1, &mint_a, &mint_b, 50, 100, &maker_src).unwrap();
    // An account of asset A cannot pay the requested asset B.
    let wrong_src = id(21);
    l.open_account(wrong_src, taker, mint_a).unwrap();
    l.credit(&wrong_src, 50).unwrap();
    assert_eq!(
        l.take(&taker, &maker, 1, &wrong_src, &tda, &mdb),
        Err(EscrowError::AssetMismatchError)
    );
}

#[test]
fn credit_past_maximum_overflows() {
    let (mut l, _maker, _taker, _mint_a, _mint_b, maker_src, _tsb, _tda, _mdb) = setup();
    l.credit(&maker_src, u64::MAX - 100).unwrap();
    assert_eq!(l.credit(&maker_src, 1), Err(EscrowError::OverflowError));
    assert_eq!(l.balance(&maker_src), u64::MAX);
}

#[test]
fn strict_ledger_rejects_degenerate_offers() {
    let pid = id(9);
    let maker = id(1);
    let mint_a = id(3);
    let mint_b = id(4);
    let maker_src = id(10);
    let mut l = EscrowLedger::new_strict(pid);
    l.open_account(maker_src, maker, mint_a).unwrap();
    l.credit(&maker_src, 100).unwrap();
    assert_eq!(
        l.make(&maker, 1, &mint_a, &mint_b, 0, 100, &maker_src),
        Err(EscrowError::InvalidOfferError)
    );
    assert_eq!(
        l.make(&maker, 1, &mint_a, &mint_a, 50, 100, &maker_src),
        Err(EscrowError::InvalidOfferError)
    );
    assert_eq!(l.make(&maker, 1, &mint_a, &mint_b, 50, 100, &maker_src), Ok(()));
}

#[test]
fn maker_may_take_their_own_offer() {
    let pid = id(9);
    let maker = id(1);
    let mint_a = id(3);
    let mint_b = id(4);
    let maker_src = id(10);
    let maker_src_b = id(14);
    let maker_dst_a = id(15);
    let maker_dst_b = id(13);
    let mut l = EscrowLedger::new(pid);
    l.open_account(maker_src, maker, mint_a).unwrap();
    l.credit(&maker_src, 100).unwrap();
    l.open_account(maker_src_b, maker, mint_b).unwrap();
    l.credit(&maker_src_b, 50).unwrap();
    l.make(&maker, 1, &mint_a, &mint_b, 50, 100, &maker_src).unwrap();
    // The maker settles their own offer: they pay themselves the counter
    // asset and recover their deposit.
    assert_eq!(
        l.take(&maker, &maker, 1, &maker_src_b, &maker_dst_a, &maker_dst_b),
        Ok(())
    );
    assert_eq!(l.balance(&maker_dst_a), 100);
    assert_eq!(l.balance(&maker_dst_b), 50);
    assert_eq!(l.balance(&maker_src_b), 0);
    assert!(!l.offer_pending(&maker, 1));
}

#[test]
fn distinct_offer_ids_run_concurrently() {
    let (mut l, maker, taker, mint_a, mint_b, maker_src, tsb, tda, mdb) = setup();
    l.make(&maker, 1, &mint_a, &mint_b, 20, 40, &maker_src).unwrap();
    l.make(&maker, 2, &mint_a, &mint_b, 30, 60, &maker_src).unwrap();
    assert!(l.offer_pending(&maker, 1));
    assert!(l.offer_pending(&maker, 2));
    l.take(&taker, &maker, 1, &tsb, &tda, &mdb).unwrap();
    assert!(!l.offer_pending(&maker, 1));
    assert!(l.offer_pending(&maker, 2));
    l.refund(&maker, &maker, 2, &maker_src).unwrap();
    assert_eq!(l.balance(&maker_src), 60);
    assert_eq!(l.balance(&tda), 40);
    assert_eq!(l.balance(&mdb), 20);
}
