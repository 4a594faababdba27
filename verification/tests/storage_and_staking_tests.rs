use anchor_lang::prelude::Pubkey;
use escrow_ledger::derive::derive_user_account;
use escrow_ledger::errors::EscrowError;
use escrow_ledger::errors::StakeProgramError;
use escrow_ledger::ident::Ident;
use escrow_ledger::staking::StakeRegistry;
use escrow_ledger::storage::MyStorage;

fn id(n: u8) -> Ident {
    Ident::new([n; 32])
}

#[test]
fn storage_starts_zeroed_and_set_overwrites_all_slots() {
    let mut s = MyStorage::initialize();
    assert_eq!(s.print_x(), 0);
    s.set(170, 2, 3);
    assert_eq!(s.print_x(), 170);
    s.set(7, 8, 9);
    assert_eq!(s.print_x(), 7);
}

#[test]
fn initialize_user_creates_a_zeroed_record_with_derived_bump() {
    let pid = id(9);
    let user = id(5);
    let mut reg = StakeRegistry::new(pid);
    assert!(reg.get_user(&user).is_none());
    assert_eq!(reg.initialize_user(&user), Ok(()));
    let acct = reg.get_user(&user).unwrap();
    assert_eq!(acct.points, 0);
    assert_eq!(acct.amount_staked, 0);
    let (_ua, bump) = derive_user_account(&pid, &user).unwrap();
    assert_eq!(acct.bump, bump);
    let pid_pk = Pubkey::new_from_array([9u8; 32]);
    let (_pk, direct_bump) = Pubkey::find_program_address(&[b"user", &[5u8; 32]], &pid_pk);
    assert_eq!(acct.bump, direct_bump);
}

#[test]
fn initialize_user_twice_already_exists() {
    let pid = id(9);
    let user = id(5);
    let mut reg = StakeRegistry::new(pid);
    reg.initialize_user(&user).unwrap();
    assert_eq!(
        reg.initialize_user(&user),
        Err(EscrowError::AlreadyExistsError)
    );
    // A different user is unaffected.
    assert_eq!(reg.initialize_user(&id(6)), Ok(()));
}

#[test]
fn stake_error_kinds_are_distinct() {
    assert_ne!(
        StakeProgramError::FreezePeriodNotPassed,
        StakeProgramError::MaxStakeReached
    );
}
