//! Deterministic addressing for vaults and escrows.
//!
//! Records live in a content-addressed store: the address of a record is a
//! pure function of the semantic seed components that identify it, so any
//! party can independently re-derive where state lives. A vault's address is
//! derived from the asset kind it custodies and the authority that created
//! it; an escrow's address is derived from the owning vault's address and the
//! two counterparties.

use vstd::prelude::*;

verus! {

/// An identity (a participant's key), reduced to a plain number.
pub type PartyId = u64;

/// An identifier of a fungible asset kind (a mint), reduced to a plain number.
pub type AssetKind = u64;

/// The deterministic address of a vault, derived from the pair
/// (asset kind, creating authority).
#[derive(Clone, Copy, PartialEq, Eq, Structural, Debug)]
pub struct VaultAddr {
    pub asset_kind: AssetKind,
    pub authority: PartyId,
}

/// The deterministic address of an escrow, derived from the triple
/// (owning vault, buyer, seller).
#[derive(Clone, Copy, PartialEq, Eq, Structural, Debug)]
pub struct EscrowAddr {
    pub vault: VaultAddr,
    pub buyer: PartyId,
    pub seller: PartyId,
}

/// The address a vault derivation yields for a given seed pair.
pub open spec fn vault_addr_of(asset_kind: AssetKind, authority: PartyId) -> VaultAddr {
    VaultAddr { asset_kind, authority }
}

/// The address an escrow derivation yields for a given seed triple.
pub open spec fn escrow_addr_of(vault: VaultAddr, buyer: PartyId, seller: PartyId) -> EscrowAddr {
    EscrowAddr { vault, buyer, seller }
}

/// Derives the vault address for (asset kind, authority). Deterministic: the
/// result is a pure function of the two seeds, so repeated derivations agree.
pub fn derive_vault_addr(asset_kind: AssetKind, authority: PartyId) -> (a: VaultAddr)
    ensures
        a == vault_addr_of(asset_kind, authority),
{
    VaultAddr { asset_kind, authority }
}

/// Derives the escrow address for (vault, buyer, seller). Deterministic: the
/// result is a pure function of the three seeds, so repeated derivations agree.
pub fn derive_escrow_addr(vault: VaultAddr, buyer: PartyId, seller: PartyId) -> (a: EscrowAddr)
    ensures
        a == escrow_addr_of(vault, buyer, seller),
{
    EscrowAddr { vault, buyer, seller }
}

/// Vault addresses are injective in their seeds: two derivations yield the
/// same address exactly when they were made from the same
/// (asset kind, authority) pair. Together with determinism of
/// [`derive_vault_addr`] this says a vault address is identical across
/// repeated derivations and distinct for any other seed pair.
pub proof fn lemma_vault_addr_injective(k1: AssetKind, x1: PartyId, k2: AssetKind, x2: PartyId)
    ensures
        vault_addr_of(k1, x1) == vault_addr_of(k2, x2) <==> (k1 == k2 && x1 == x2),
{
}

/// Escrow addresses are injective in their seeds: two derivations yield the
/// same address exactly when they were made from the same
/// (vault, buyer, seller) triple.
pub proof fn lemma_escrow_addr_injective(
    v1: VaultAddr,
    b1: PartyId,
    s1: PartyId,
    v2: VaultAddr,
    b2: PartyId,
    s2: PartyId,
)
    ensures
        escrow_addr_of(v1, b1, s1) == escrow_addr_of(v2, b2, s2) <==> (v1 == v2 && b1 == b2
            && s1 == s2),
{
}

} // verus!
