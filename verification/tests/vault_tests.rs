use escrow_ledger::derive::derive_personal_vault;
use escrow_ledger::derive::derive_vault_state;
use escrow_ledger::errors::EscrowError;
use escrow_ledger::ident::Ident;
use escrow_ledger::vault::VaultLedger;

fn id(n: u8) -> Ident {
    Ident::new([n; 32])
}

/// A vault ledger with a funded owner account (1000 of the native asset).
fn setup() -> (VaultLedger, Ident, Ident) {
    let pid = id(9);
    let native = id(7);
    let owner = id(1);
    let mut v = VaultLedger::new(pid, native);
    v.open_account(owner, owner, native).unwrap();
    v.credit(&owner, 1000).unwrap();
    (v, owner, native)
}

#[test]
fn initialize_stores_both_proof_bytes() {
    let (mut v, owner, _native) = setup();
    assert_eq!(v.initialize(&owner), Ok(()));
    let st = v.get_state(&owner).unwrap();
    let pid = v.program_id();
    let (sa, sb) = derive_vault_state(&pid, &owner).unwrap();
    let (ha, hb) = derive_personal_vault(&pid, &sa).unwrap();
    assert_eq!(st.state_bump, sb);
    assert_eq!(st.vault_bump, hb);
    // The holding account exists, empty, awaiting deposits.
    assert!(v.has_account(&ha));
    assert_eq!(v.balance(&ha), 0);
    // Initializing twice fails.
    assert_eq!(v.initialize(&owner), Err(EscrowError::AlreadyExistsError));
}

#[test]
fn deposit_and_withdraw_move_only_the_holding_balance() {
    let (mut v, owner, _native) = setup();
    v.initialize(&owner).unwrap();
    let pid = v.program_id();
    let (sa, _sb) = derive_vault_state(&pid, &owner).unwrap();
    let (ha, _hb) = derive_personal_vault(&pid, &sa).unwrap();
    assert_eq!(v.deposit(&owner, 400), Ok(()));
    assert_eq!(v.balance(&ha), 400);
    assert_eq!(v.balance(&owner), 600);
    assert_eq!(v.withdraw(&owner, 150), Ok(()));
    assert_eq!(v.balance(&ha), 250);
    assert_eq!(v.balance(&owner), 750);
}

#[test]
fn withdraw_more_than_held_is_insufficient() {
    let (mut v, owner, _native) = setup();
    v.initialize(&owner).unwrap();
    v.deposit(&owner, 100).unwrap();
    assert_eq!(
        v.withdraw(&owner, 101),
        Err(EscrowError::InsufficientFundsError)
    );
    assert_eq!(v.balance(&owner), 900);
}

#[test]
fn deposit_more_than_owned_is_insufficient() {
    let (mut v, owner, _native) = setup();
    v.initialize(&owner).unwrap();
    assert_eq!(
        v.deposit(&owner, 1001),
        Err(EscrowError::InsufficientFundsError)
    );
    assert_eq!(v.balance(&owner), 1000);
}

#[test]
fn close_returns_everything_and_destroys_the_record() {
    let (mut v, owner, _native) = setup();
    v.initialize(&owner).unwrap();
    v.deposit(&owner, 700).unwrap();
    assert_eq!(v.close(&owner), Ok(()));
    let pid = v.program_id();
    let (sa, _sb) = derive_vault_state(&pid, &owner).unwrap();
    let (ha, _hb) = derive_personal_vault(&pid, &sa).unwrap();
    assert_eq!(v.balance(&owner), 1000);
    assert_eq!(v.balance(&ha), 0);
    assert!(v.get_state(&owner).is_none());
    // The lifecycle is over: further owner operations find no record.
    assert_eq!(v.deposit(&owner, 1), Err(EscrowError::NotFoundError));
    assert_eq!(v.withdraw(&owner, 1), Err(EscrowError::NotFoundError));
    assert_eq!(v.close(&owner), Err(EscrowError::NotFoundError));
    // A fresh lifecycle may begin again.
    assert_eq!(v.initialize(&owner), Ok(()));
}

#[test]
fn operations_before_initialize_find_no_record() {
    let (mut v, owner, _native) = setup();
    assert_eq!(v.deposit(&owner, 1), Err(EscrowError::NotFoundError));
    assert_eq!(v.withdraw(&owner, 1), Err(EscrowError::NotFoundError));
    assert_eq!(v.close(&owner), Err(EscrowError::NotFoundError));
}
