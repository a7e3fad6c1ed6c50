use vault_escrow::addr::{derive_escrow_addr, derive_vault_addr};
use vault_escrow::ledger::Holder;
use vault_escrow::state::EscrowError;
use vault_escrow::world::World;

const MINT: u64 = 7;
const AUTHORITY: u64 = 11;
const BUYER: u64 = 100;
const SELLER: u64 = 200;
const OUTSIDER: u64 = 300;
const DEADLINE: i64 = 1_000;

/// Vault for (MINT, AUTHORITY), buyer funded with 100 and locked in, escrow
/// over 100 with the given deadline.
fn standard_setup() -> World {
    let mut w = World::new();
    w.init_vault(MINT, AUTHORITY).unwrap();
    w.fund_wallet(BUYER, MINT, 100);
    let va = derive_vault_addr(MINT, AUTHORITY);
    w.init_escrow(va, BUYER, SELLER, 100, DEADLINE).unwrap();
    w.lock_tokens(MINT, AUTHORITY, BUYER, 100).unwrap();
    w
}

#[test]
fn release_before_deadline_pays_seller() {
    let mut w = standard_setup();
    let va = derive_vault_addr(MINT, AUTHORITY);
    let ek = derive_escrow_addr(va, BUYER, SELLER);
    let r = w.release_to_seller(ek, va, BUYER, SELLER, MINT, DEADLINE - 1);
    assert_eq!(r, Ok(()));
    assert_eq!(w.balance_of(Holder::Wallet(SELLER), MINT), 100);
    assert_eq!(w.balance_of(Holder::Vault(va), MINT), 0);
    assert!(w.get_escrow(ek).unwrap().completed);
}

#[test]
fn refund_after_deadline_repays_buyer() {
    let mut w = standard_setup();
    let va = derive_vault_addr(MINT, AUTHORITY);
    let ek = derive_escrow_addr(va, BUYER, SELLER);
    assert_eq!(w.balance_of(Holder::Wallet(BUYER), MINT), 0);
    let r = w.refund_buyer(ek, va, BUYER, MINT, DEADLINE + 1);
    assert_eq!(r, Ok(()));
    assert_eq!(w.balance_of(Holder::Wallet(BUYER), MINT), 100);
    assert_eq!(w.balance_of(Holder::Vault(va), MINT), 0);
    assert!(w.get_escrow(ek).unwrap().completed);
}

#[test]
fn refund_after_release_fails_terminally() {
    let mut w = standard_setup();
    let va = derive_vault_addr(MINT, AUTHORITY);
    let ek = derive_escrow_addr(va, BUYER, SELLER);
    w.release_to_seller(ek, va, BUYER, SELLER, MINT, DEADLINE - 1).unwrap();
    let r = w.refund_buyer(ek, va, BUYER, MINT, DEADLINE + 1);
    assert_eq!(r, Err(EscrowError::AlreadyReleased));
    assert_eq!(w.balance_of(Holder::Wallet(SELLER), MINT), 100);
    assert_eq!(w.balance_of(Holder::Wallet(BUYER), MINT), 0);
    assert_eq!(w.balance_of(Holder::Vault(va), MINT), 0);
}

#[test]
fn second_release_fails_terminally() {
    let mut w = standard_setup();
    let va = derive_vault_addr(MINT, AUTHORITY);
    let ek = derive_escrow_addr(va, BUYER, SELLER);
    w.release_to_seller(ek, va, BUYER, SELLER, MINT, DEADLINE - 1).unwrap();
    let r = w.release_to_seller(ek, va, BUYER, SELLER, MINT, DEADLINE - 1);
    assert_eq!(r, Err(EscrowError::AlreadyReleased));
    assert_eq!(w.balance_of(Holder::Wallet(SELLER), MINT), 100);
}

#[test]
fn refund_before_deadline_is_too_early() {
    let mut w = standard_setup();
    let va = derive_vault_addr(MINT, AUTHORITY);
    let ek = derive_escrow_addr(va, BUYER, SELLER);
    let r = w.refund_buyer(ek, va, BUYER, MINT, DEADLINE - 1);
    assert_eq!(r, Err(EscrowError::TooEarly));
    assert_eq!(w.balance_of(Holder::Vault(va), MINT), 100);
    assert!(!w.get_escrow(ek).unwrap().completed);
}

#[test]
fn release_by_outsider_fails_not_buyer() {
    let mut w = standard_setup();
    let va = derive_vault_addr(MINT, AUTHORITY);
    let ek = derive_escrow_addr(va, BUYER, SELLER);
    let r = w.release_to_seller(ek, va, OUTSIDER, SELLER, MINT, DEADLINE - 1);
    assert_eq!(r, Err(EscrowError::NotBuyer));
    assert_eq!(w.balance_of(Holder::Vault(va), MINT), 100);
    assert!(!w.get_escrow(ek).unwrap().completed);
}

#[test]
fn refund_by_outsider_fails_not_buyer() {
    let mut w = standard_setup();
    let va = derive_vault_addr(MINT, AUTHORITY);
    let ek = derive_escrow_addr(va, BUYER, SELLER);
    let r = w.refund_buyer(ek, va, OUTSIDER, MINT, DEADLINE + 1);
    assert_eq!(r, Err(EscrowError::NotBuyer));
    assert_eq!(w.balance_of(Holder::Vault(va), MINT), 100);
}

#[test]
fn release_after_deadline_fails_deadline_passed() {
    let mut w = standard_setup();
    let va = derive_vault_addr(MINT, AUTHORITY);
    let ek = derive_escrow_addr(va, BUYER, SELLER);
    let r = w.release_to_seller(ek, va, BUYER, SELLER, MINT, DEADLINE + 1);
    assert_eq!(r, Err(EscrowError::DeadlinePassed));
    assert_eq!(w.balance_of(Holder::Vault(va), MINT), 100);
}

#[test]
fn release_at_deadline_still_succeeds() {
    let mut w = standard_setup();
    let va = derive_vault_addr(MINT, AUTHORITY);
    let ek = derive_escrow_addr(va, BUYER, SELLER);
    let r = w.release_to_seller(ek, va, BUYER, SELLER, MINT, DEADLINE);
    assert_eq!(r, Ok(()));
    assert_eq!(w.balance_of(Holder::Wallet(SELLER), MINT), 100);
}

#[test]
fn refund_at_deadline_is_too_early() {
    let mut w = standard_setup();
    let va = derive_vault_addr(MINT, AUTHORITY);
    let ek = derive_escrow_addr(va, BUYER, SELLER);
    let r = w.refund_buyer(ek, va, BUYER, MINT, DEADLINE);
    assert_eq!(r, Err(EscrowError::TooEarly));
}

#[test]
fn release_with_wrong_seller_fails_binding_mismatch() {
    let mut w = standard_setup();
    let va = derive_vault_addr(MINT, AUTHORITY);
    let ek = derive_escrow_addr(va, BUYER, SELLER);
    let r = w.release_to_seller(ek, va, BUYER, OUTSIDER, MINT, DEADLINE - 1);
    assert_eq!(r, Err(EscrowError::BindingMismatch));
    assert_eq!(w.balance_of(Holder::Vault(va), MINT), 100);
}

#[test]
fn refund_with_wrong_mint_fails_binding_mismatch() {
    let mut w = standard_setup();
    let va = derive_vault_addr(MINT, AUTHORITY);
    let ek = derive_escrow_addr(va, BUYER, SELLER);
    let r = w.refund_buyer(ek, va, BUYER, MINT + 1, DEADLINE + 1);
    assert_eq!(r, Err(EscrowError::BindingMismatch));
}

#[test]
fn release_with_underfunded_vault_fails_transfer() {
    let mut w = World::new();
    w.init_vault(MINT, AUTHORITY).unwrap();
    w.fund_wallet(BUYER, MINT, 30);
    let va = derive_vault_addr(MINT, AUTHORITY);
    w.init_escrow(va, BUYER, SELLER, 100, DEADLINE).unwrap();
    w.lock_tokens(MINT, AUTHORITY, BUYER, 30).unwrap();
    let ek = derive_escrow_addr(va, BUYER, SELLER);
    let r = w.release_to_seller(ek, va, BUYER, SELLER, MINT, DEADLINE - 1);
    assert_eq!(r, Err(EscrowError::TransferFailed));
    assert_eq!(w.balance_of(Holder::Vault(va), MINT), 30);
    assert!(!w.get_escrow(ek).unwrap().completed);
}

#[test]
fn expired_escrow_is_refund_only_from_the_start() {
    let mut w = standard_setup();
    let va = derive_vault_addr(MINT, AUTHORITY);
    let past: i64 = -5;
    w.init_escrow(va, BUYER, OUTSIDER, 100, past).unwrap();
    let ek = derive_escrow_addr(va, BUYER, OUTSIDER);
    let r = w.release_to_seller(ek, va, BUYER, OUTSIDER, MINT, 0);
    assert_eq!(r, Err(EscrowError::DeadlinePassed));
    let r = w.refund_buyer(ek, va, BUYER, MINT, 0);
    assert_eq!(r, Ok(()));
    assert_eq!(w.balance_of(Holder::Wallet(BUYER), MINT), 100);
}
