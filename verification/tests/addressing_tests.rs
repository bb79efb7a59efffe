use anchor_lang::solana_program::pubkey::Pubkey;
use mizumi_program::addressing::{swap_address, user_address, vault_address};
use mizumi_program::admin::{admin_key_string, is_admin, require_admin};
use mizumi_program::types::{LedgerError, MizumiStable};

fn program_id() -> Vec<u8> {
    vec![7u8; 32]
}

#[test]
fn user_address_matches_the_chain_derivation() {
    let pid = program_id();
    let (addr, bump) = user_address("user-one", &pid).unwrap();

    let expect = Pubkey::derive_program_address(
        &[b"user-account", b"user-one"],
        &Pubkey::new_from_array([7u8; 32]),
    )
    .unwrap();
    assert_eq!(addr, expect.0.to_bytes().to_vec());
    assert_eq!(bump, expect.1);
    assert_eq!(addr.len(), 32);
}

#[test]
fn swap_address_matches_the_chain_derivation() {
    let pid = program_id();
    let (addr, bump) = swap_address("user-one", "s1", &pid).unwrap();

    let expect = Pubkey::derive_program_address(
        &[b"swap-account", b"user-one", b"s1"],
        &Pubkey::new_from_array([7u8; 32]),
    )
    .unwrap();
    assert_eq!(addr, expect.0.to_bytes().to_vec());
    assert_eq!(bump, expect.1);
}

#[test]
fn vault_addresses_are_per_asset() {
    let pid = program_id();
    let a = vault_address(MizumiStable::USDC, "mint-a", &pid).unwrap();
    let b = vault_address(MizumiStable::USDT, "mint-a", &pid).unwrap();
    assert_ne!(a.0, b.0);
    assert_eq!(a.0.len(), 32);
    assert_eq!(b.0.len(), 32);

    let expect = Pubkey::derive_program_address(
        &[b"usdc-vault", b"mint-a"],
        &Pubkey::new_from_array([7u8; 32]),
    )
    .unwrap();
    assert_eq!(a.0, expect.0.to_bytes().to_vec());
}

#[test]
fn addresses_are_deterministic_and_key_sensitive() {
    let pid = program_id();
    let first = user_address("user-one", &pid).unwrap();
    let again = user_address("user-one", &pid).unwrap();
    assert_eq!(first, again);

    let other = user_address("user-two", &pid).unwrap();
    assert_ne!(first.0, other.0);

    let other_swap = swap_address("user-one", "s2", &pid).unwrap();
    assert_ne!(first.0, other_swap.0);
}

#[test]
fn overlong_seed_yields_no_address() {
    let pid = program_id();
    let long_id = "s".repeat(33);
    assert!(swap_address("user-one", &long_id, &pid).is_none());
}

#[test]
fn admin_gate_accepts_only_the_fixed_authority() {
    let a = admin_key_string();
    assert!(is_admin(&a));
    assert!(require_admin(&a).is_ok());

    let stranger = String::from("someone-else");
    assert!(!is_admin(&stranger));
    assert_eq!(require_admin(&stranger), Err(LedgerError::Unauthorized));
}
