use mizumi_program::types::{MizumiStable, TransactionKind};
use mizumi_program::vault::{move_funds, TransferParty};

#[test]
fn onramp_usdc_releases_from_vault_a_under_vault_authority() {
    let p = move_funds(MizumiStable::USDC, TransactionKind::Onramp, 250);
    assert_eq!(p.from, TransferParty::Vault(MizumiStable::USDC));
    assert_eq!(p.to, TransferParty::UserHolder(MizumiStable::USDC));
    assert_eq!(p.authorizer, TransferParty::Vault(MizumiStable::USDC));
    assert_eq!(p.amount, 250);
}

#[test]
fn offramp_usdc_deposits_into_vault_a_under_user_authority() {
    let p = move_funds(MizumiStable::USDC, TransactionKind::Offramp, 250);
    assert_eq!(p.from, TransferParty::UserHolder(MizumiStable::USDC));
    assert_eq!(p.to, TransferParty::Vault(MizumiStable::USDC));
    assert_eq!(p.authorizer, TransferParty::UserAuthority);
    assert_eq!(p.amount, 250);
}

#[test]
fn onramp_usdt_releases_from_vault_b_under_vault_authority() {
    let p = move_funds(MizumiStable::USDT, TransactionKind::Onramp, 1);
    assert_eq!(p.from, TransferParty::Vault(MizumiStable::USDT));
    assert_eq!(p.to, TransferParty::UserHolder(MizumiStable::USDT));
    assert_eq!(p.authorizer, TransferParty::Vault(MizumiStable::USDT));
    assert_eq!(p.amount, 1);
}

#[test]
fn offramp_usdt_deposits_into_vault_b_under_user_authority() {
    let p = move_funds(MizumiStable::USDT, TransactionKind::Offramp, u64::MAX);
    assert_eq!(p.from, TransferParty::UserHolder(MizumiStable::USDT));
    assert_eq!(p.to, TransferParty::Vault(MizumiStable::USDT));
    assert_eq!(p.authorizer, TransferParty::UserAuthority);
    assert_eq!(p.amount, u64::MAX);
}
