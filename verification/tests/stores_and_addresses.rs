use vault_escrow::addr::{EscrowAddr, VaultAddr, derive_escrow_addr, derive_vault_addr};
use vault_escrow::ledger::Holder;
use vault_escrow::state::EscrowError;
use vault_escrow::world::World;

#[test]
fn vault_address_is_deterministic_and_distinct() {
    let a1 = derive_vault_addr(7, 11);
    let a2 = derive_vault_addr(7, 11);
    assert_eq!(a1, a2);
    assert_ne!(derive_vault_addr(7, 11), derive_vault_addr(7, 12));
    assert_ne!(derive_vault_addr(7, 11), derive_vault_addr(8, 11));
    assert_eq!(a1, VaultAddr { asset_kind: 7, authority: 11 });
}

#[test]
fn escrow_address_is_deterministic_and_distinct() {
    let va = derive_vault_addr(7, 11);
    let k1 = derive_escrow_addr(va, 100, 200);
    assert_eq!(k1, derive_escrow_addr(va, 100, 200));
    assert_ne!(k1, derive_escrow_addr(va, 100, 201));
    assert_ne!(k1, derive_escrow_addr(va, 101, 200));
    assert_ne!(k1, derive_escrow_addr(derive_vault_addr(8, 11), 100, 200));
    assert_eq!(k1, EscrowAddr { vault: va, buyer: 100, seller: 200 });
}

#[test]
fn duplicate_vault_fails_already_exists() {
    let mut w = World::new();
    assert_eq!(w.init_vault(7, 11), Ok(()));
    assert_eq!(w.init_vault(7, 11), Err(EscrowError::AlreadyExists));
    assert_eq!(w.init_vault(7, 12), Ok(()));
    assert_eq!(w.init_vault(8, 11), Ok(()));
}

#[test]
fn duplicate_escrow_fails_already_exists() {
    let mut w = World::new();
    w.init_vault(7, 11).unwrap();
    let va = derive_vault_addr(7, 11);
    assert_eq!(w.init_escrow(va, 100, 200, 50, 1_000), Ok(()));
    assert_eq!(w.init_escrow(va, 100, 200, 60, 2_000), Err(EscrowError::AlreadyExists));
    assert_eq!(w.init_escrow(va, 100, 201, 50, 1_000), Ok(()));
}

#[test]
fn lock_without_funds_fails_transfer() {
    let mut w = World::new();
    w.init_vault(7, 11).unwrap();
    let va = derive_vault_addr(7, 11);
    assert_eq!(w.lock_tokens(7, 11, 100, 1), Err(EscrowError::TransferFailed));
    assert_eq!(w.balance_of(Holder::Vault(va), 7), 0);
}

#[test]
fn lock_more_than_owned_fails_transfer() {
    let mut w = World::new();
    w.init_vault(7, 11).unwrap();
    w.fund_wallet(100, 7, 40);
    let va = derive_vault_addr(7, 11);
    assert_eq!(w.lock_tokens(7, 11, 100, 41), Err(EscrowError::TransferFailed));
    assert_eq!(w.balance_of(Holder::Wallet(100), 7), 40);
    assert_eq!(w.balance_of(Holder::Vault(va), 7), 0);
}

#[test]
fn lock_moves_exactly_the_amount() {
    let mut w = World::new();
    w.init_vault(7, 11).unwrap();
    w.fund_wallet(100, 7, 40);
    let va = derive_vault_addr(7, 11);
    assert_eq!(w.lock_tokens(7, 11, 100, 15), Ok(()));
    assert_eq!(w.balance_of(Holder::Wallet(100), 7), 25);
    assert_eq!(w.balance_of(Holder::Vault(va), 7), 15);
    assert_eq!(w.lock_tokens(7, 11, 100, 25), Ok(()));
    assert_eq!(w.balance_of(Holder::Wallet(100), 7), 0);
    assert_eq!(w.balance_of(Holder::Vault(va), 7), 40);
}

#[test]
fn locking_is_independent_of_escrows() {
    let mut w = World::new();
    w.init_vault(7, 11).unwrap();
    w.fund_wallet(100, 7, 10);
    let va = derive_vault_addr(7, 11);
    assert_eq!(w.lock_tokens(7, 11, 100, 10), Ok(()));
    assert!(w.get_escrow(derive_escrow_addr(va, 100, 200)).is_none());
}

#[test]
fn escrow_record_holds_the_declared_terms() {
    let mut w = World::new();
    w.init_vault(7, 11).unwrap();
    let va = derive_vault_addr(7, 11);
    w.init_escrow(va, 100, 200, 55, 123).unwrap();
    let e = w.get_escrow(derive_escrow_addr(va, 100, 200)).unwrap();
    assert_eq!(e.vault, va);
    assert_eq!(e.buyer, 100);
    assert_eq!(e.seller, 200);
    assert_eq!(e.asset_kind, 7);
    assert_eq!(e.amount_locked, 55);
    assert_eq!(e.deadline, 123);
    assert!(!e.completed);
}

#[test]
fn balances_of_other_parties_are_untouched() {
    let mut w = World::new();
    w.init_vault(7, 11).unwrap();
    w.fund_wallet(100, 7, 100);
    w.fund_wallet(300, 7, 77);
    let va = derive_vault_addr(7, 11);
    w.init_escrow(va, 100, 200, 100, 1_000).unwrap();
    w.lock_tokens(7, 11, 100, 100).unwrap();
    let ek = derive_escrow_addr(va, 100, 200);
    w.release_to_seller(ek, va, 100, 200, 7, 999).unwrap();
    assert_eq!(w.balance_of(Holder::Wallet(300), 7), 77);
}
