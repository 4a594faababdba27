use anchor_lang::prelude::Pubkey;
use escrow_ledger::derive::derive_escrow_vault;
use escrow_ledger::derive::derive_personal_vault;
use escrow_ledger::derive::derive_user_account;
use escrow_ledger::derive::derive_vault_state;
use escrow_ledger::ident::Ident;

fn id(n: u8) -> Ident {
    Ident::new([n; 32])
}

#[test]
fn escrow_vault_derivation_is_deterministic() {
    let pid = id(9);
    let maker = id(1);
    let first = derive_escrow_vault(&pid, &maker, 1).unwrap();
    let second = derive_escrow_vault(&pid, &maker, 1).unwrap();
    assert_eq!(first.0.to_vec(), second.0.to_vec());
    assert_eq!(first.1, second.1);
    // A different offer id of the same maker derives a different address.
    let other = derive_escrow_vault(&pid, &maker, 2).unwrap();
    assert_ne!(first.0.to_vec(), other.0.to_vec());
}

#[test]
fn escrow_vault_derivation_matches_ledger_scheme() {
    let pid = id(9);
    let maker = id(1);
    let (va, bump) = derive_escrow_vault(&pid, &maker, 1).unwrap();
    let pid_pk = Pubkey::new_from_array([9u8; 32]);
    let maker_bytes = [1u8; 32];
    let seed_bytes = [1u8];
    let (pk, direct_bump) =
        Pubkey::find_program_address(&[b"escrow", &maker_bytes, &seed_bytes], &pid_pk);
    assert_eq!(va.to_vec(), pk.to_bytes().to_vec());
    assert_eq!(bump, direct_bump);
    // The derived address is a genuine derivation, not the maker echoed back.
    assert_ne!(va.to_vec(), maker.to_vec());
}

#[test]
fn personal_vault_derivation_matches_ledger_scheme() {
    let pid = id(9);
    let owner = id(5);
    let (sa, sb) = derive_vault_state(&pid, &owner).unwrap();
    let (ha, hb) = derive_personal_vault(&pid, &sa).unwrap();
    let pid_pk = Pubkey::new_from_array([9u8; 32]);
    let owner_bytes = [5u8; 32];
    let (state_pk, state_bump) =
        Pubkey::find_program_address(&[b"vault_state", &owner_bytes], &pid_pk);
    assert_eq!(sa.to_vec(), state_pk.to_bytes().to_vec());
    assert_eq!(sb, state_bump);
    let (hold_pk, hold_bump) =
        Pubkey::find_program_address(&[b"vault", state_pk.as_ref()], &pid_pk);
    assert_eq!(ha.to_vec(), hold_pk.to_bytes().to_vec());
    assert_eq!(hb, hold_bump);
}

#[test]
fn user_account_derivation_matches_ledger_scheme() {
    let pid = id(9);
    let user = id(6);
    let (ua, ub) = derive_user_account(&pid, &user).unwrap();
    let pid_pk = Pubkey::new_from_array([9u8; 32]);
    let user_bytes = [6u8; 32];
    let (pk, bump) = Pubkey::find_program_address(&[b"user", &user_bytes], &pid_pk);
    assert_eq!(ua.to_vec(), pk.to_bytes().to_vec());
    assert_eq!(ub, bump);
}
