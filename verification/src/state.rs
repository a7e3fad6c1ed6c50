//! The two record kinds of the escrow system, its error taxonomy, and the
//! timing windows that govern the terminal transitions.

use vstd::prelude::*;
use crate::addr::{AssetKind, EscrowAddr, PartyId, VaultAddr, escrow_addr_of, vault_addr_of};

verus! {

/// A custodial vault, scoped to one asset kind and one creating authority.
/// Immutable after creation; its address is re-derived from its two fields,
/// which also serve as its derivation proof.
#[derive(Clone, Copy, PartialEq, Eq, Structural, Debug)]
pub struct Vault {
    /// The identity that created the vault.
    pub authority: PartyId,
    /// The fungible asset this vault custodies.
    pub asset_kind: AssetKind,
}

impl Vault {
    /// The deterministic address this vault occupies.
    pub open spec fn addr(self) -> VaultAddr {
        vault_addr_of(self.asset_kind, self.authority)
    }
}

/// One buyer/seller agreement referencing a vault. All fields but `completed`
/// are immutable after creation; `completed` starts false and flips to true
/// exactly once, when either the release or the refund transition runs.
#[derive(Clone, Copy, PartialEq, Eq, Structural, Debug)]
pub struct Escrow {
    /// Address of the vault that holds the locked funds.
    pub vault: VaultAddr,
    /// The party funding the escrow; the only party that may complete it.
    pub buyer: PartyId,
    /// The party that receives the funds on release.
    pub seller: PartyId,
    /// The asset kind of the locked funds; matches the vault's.
    pub asset_kind: AssetKind,
    /// The quantity reserved for this agreement; always positive.
    pub amount_locked: u64,
    /// Release is allowed up to this timestamp, refund only after it.
    pub deadline: i64,
    /// Whether a terminal transition has already moved the funds.
    pub completed: bool,
}

impl Escrow {
    /// The deterministic address this escrow occupies.
    pub open spec fn addr(self) -> EscrowAddr {
        escrow_addr_of(self.vault, self.buyer, self.seller)
    }

    /// The same agreement with its completion flag raised: the one mutation
    /// an escrow ever undergoes.
    pub open spec fn as_completed(self) -> Escrow {
        Escrow {
            vault: self.vault,
            buyer: self.buyer,
            seller: self.seller,
            asset_kind: self.asset_kind,
            amount_locked: self.amount_locked,
            deadline: self.deadline,
            completed: true,
        }
    }
}

/// Everything that can go wrong in the five operations.
#[derive(Clone, Copy, PartialEq, Eq, Structural, Debug)]
pub enum EscrowError {
    /// A record already occupies the derived address (first create wins).
    AlreadyExists,
    /// The escrow has already completed; terminal, nothing more may happen.
    AlreadyReleased,
    /// Release was attempted after the deadline.
    DeadlinePassed,
    /// Refund was attempted at or before the deadline.
    TooEarly,
    /// The caller is not the escrow's buyer.
    NotBuyer,
    /// A supplied reference does not match the escrow's stored fields.
    BindingMismatch,
    /// The asset-transfer collaborator failed; no funds moved.
    TransferFailed,
}

/// The window in which release is allowed: at or before the deadline.
pub open spec fn release_window(now: i64, deadline: i64) -> bool {
    now <= deadline
}

/// The window in which refund is allowed: strictly after the deadline.
pub open spec fn refund_window(now: i64, deadline: i64) -> bool {
    now > deadline
}

/// The two acceptance windows are disjoint and together cover all time: at
/// any instant exactly one of release and refund is timely.
pub proof fn lemma_windows_complementary(now: i64, deadline: i64)
    ensures
        refund_window(now, deadline) <==> !release_window(now, deadline),
{
}

/// Record `i` of the vault store occupies address `a`.
pub open spec fn vault_key_at(s: Seq<Vault>, a: VaultAddr, i: int) -> bool {
    0 <= i < s.len() && s[i].addr() == a
}

/// Some vault record occupies address `a`.
pub open spec fn has_vault_in(s: Seq<Vault>, a: VaultAddr) -> bool {
    exists|i: int| vault_key_at(s, a, i)
}

/// No two vault records share an address (first create wins).
pub open spec fn vaults_unique(s: Seq<Vault>) -> bool {
    forall|i: int, j: int|
        #![trigger s[i], s[j]]
        0 <= i < j < s.len() ==> s[i].addr() != s[j].addr()
}

/// Record `i` of the escrow store occupies address `k`.
pub open spec fn escrow_key_at(s: Seq<Escrow>, k: EscrowAddr, i: int) -> bool {
    0 <= i < s.len() && s[i].addr() == k
}

/// Some escrow record occupies address `k`.
pub open spec fn has_escrow_in(s: Seq<Escrow>, k: EscrowAddr) -> bool {
    exists|i: int| escrow_key_at(s, k, i)
}

/// The escrow record at address `k`; meaningful only when one exists.
pub open spec fn escrow_rec_in(s: Seq<Escrow>, k: EscrowAddr) -> Escrow {
    s[choose|i: int| escrow_key_at(s, k, i)]
}

/// No two escrow records share an address (first create wins).
pub open spec fn escrows_unique(s: Seq<Escrow>) -> bool {
    forall|i: int, j: int|
        #![trigger s[i], s[j]]
        0 <= i < j < s.len() ==> s[i].addr() != s[j].addr()
}

/// In a duplicate-free store, any record found at address `k` is the record
/// the address determines.
pub proof fn lemma_escrow_rec_at(s: Seq<Escrow>, k: EscrowAddr, i: int)
    requires
        escrows_unique(s),
        escrow_key_at(s, k, i),
    ensures
        has_escrow_in(s, k),
        escrow_rec_in(s, k) == s[i],
{
    assert(has_escrow_in(s, k));
    let w = choose|n: int| escrow_key_at(s, k, n);
    if w != i {
        assert(s[w].addr() == k && s[i].addr() == k);
        assert(false);
    }
}

/// Overwriting record `i` with a record of the same address touches exactly
/// that address: every other address keeps its record and its presence.
pub proof fn lemma_escrow_update(pre: Seq<Escrow>, post: Seq<Escrow>, i: int, e2: Escrow)
    requires
        escrows_unique(pre),
        0 <= i < pre.len(),
        e2.addr() == pre[i].addr(),
        post == pre.update(i, e2),
    ensures
        escrows_unique(post),
        has_escrow_in(post, e2.addr()),
        escrow_rec_in(post, e2.addr()) == e2,
        forall|k: EscrowAddr|
            #![trigger has_escrow_in(pre, k)]
            #![trigger has_escrow_in(post, k)]
            has_escrow_in(post, k) == has_escrow_in(pre, k),
        forall|k: EscrowAddr|
            #![trigger escrow_rec_in(pre, k)]
            #![trigger escrow_rec_in(post, k)]
            k != e2.addr() && has_escrow_in(pre, k) ==> escrow_rec_in(post, k) == escrow_rec_in(
                pre,
                k,
            ),
{
    assert forall|n: int| 0 <= n < post.len() implies (#[trigger] post[n]).addr()
        == pre[n].addr() by {}
    assert forall|k: EscrowAddr| has_escrow_in(post, k) == has_escrow_in(pre, k) by {
        if has_escrow_in(pre, k) {
            let w = choose|n: int| escrow_key_at(pre, k, n);
            assert(escrow_key_at(post, k, w));
        }
        if has_escrow_in(post, k) {
            let w = choose|n: int| escrow_key_at(post, k, n);
            assert(escrow_key_at(pre, k, w));
        }
    }
    assert(escrow_key_at(post, e2.addr(), i));
    lemma_escrow_rec_at(post, e2.addr(), i);
    assert forall|k: EscrowAddr|
        k != e2.addr() && has_escrow_in(pre, k) implies escrow_rec_in(post, k) == escrow_rec_in(
        pre,
        k,
    ) by {
        let w = choose|n: int| escrow_key_at(pre, k, n);
        assert(w != i);
        assert(escrow_key_at(post, k, w));
        lemma_escrow_rec_at(pre, k, w);
        lemma_escrow_rec_at(post, k, w);
    }
}

/// Appending a record whose address is vacant touches exactly that address:
/// it is now occupied by the new record, and every other address keeps its
/// record and its presence.
pub proof fn lemma_escrow_push(pre: Seq<Escrow>, post: Seq<Escrow>, e: Escrow)
    requires
        escrows_unique(pre),
        !has_escrow_in(pre, e.addr()),
        post == pre.push(e),
    ensures
        escrows_unique(post),
        has_escrow_in(post, e.addr()),
        escrow_rec_in(post, e.addr()) == e,
        forall|k: EscrowAddr|
            #![trigger has_escrow_in(pre, k)]
            #![trigger has_escrow_in(post, k)]
            k != e.addr() ==> has_escrow_in(post, k) == has_escrow_in(pre, k),
        forall|k: EscrowAddr|
            #![trigger escrow_rec_in(pre, k)]
            #![trigger escrow_rec_in(post, k)]
            k != e.addr() && has_escrow_in(pre, k) ==> escrow_rec_in(post, k) == escrow_rec_in(
                pre,
                k,
            ),
{
    let n = pre.len() as int;
    assert forall|i: int, j: int|
        0 <= i < j < post.len() implies (#[trigger] post[i]).addr() != (
    #[trigger] post[j]).addr() by {
        if j < n {
            assert(post[i] == pre[i] && post[j] == pre[j]);
        } else {
            assert(post[j] == e);
            if post[i].addr() == e.addr() {
                assert(escrow_key_at(pre, e.addr(), i));
            }
        }
    }
    assert(escrow_key_at(post, e.addr(), n));
    lemma_escrow_rec_at(post, e.addr(), n);
    assert forall|k: EscrowAddr|
        k != e.addr() implies has_escrow_in(post, k) == has_escrow_in(pre, k) by {
        if has_escrow_in(pre, k) {
            let w = choose|m: int| escrow_key_at(pre, k, m);
            assert(escrow_key_at(post, k, w));
        }
        if has_escrow_in(post, k) {
            let w = choose|m: int| escrow_key_at(post, k, m);
            assert(w != n);
            assert(escrow_key_at(pre, k, w));
        }
    }
    assert forall|k: EscrowAddr|
        k != e.addr() && has_escrow_in(pre, k) implies escrow_rec_in(post, k) == escrow_rec_in(
        pre,
        k,
    ) by {
        let w = choose|m: int| escrow_key_at(pre, k, m);
        assert(escrow_key_at(post, k, w));
        lemma_escrow_rec_at(pre, k, w);
        lemma_escrow_rec_at(post, k, w);
    }
}

/// Appending a vault record whose address is vacant adds exactly that
/// address to the set of occupied vault addresses.
pub proof fn lemma_vault_push(pre: Seq<Vault>, post: Seq<Vault>, v: Vault)
    requires
        vaults_unique(pre),
        !has_vault_in(pre, v.addr()),
        post == pre.push(v),
    ensures
        vaults_unique(post),
        forall|a: VaultAddr|
            #![trigger has_vault_in(pre, a)]
            #![trigger has_vault_in(post, a)]
            has_vault_in(post, a) == (has_vault_in(pre, a) || a == v.addr()),
{
    let n = pre.len() as int;
    assert forall|i: int, j: int|
        0 <= i < j < post.len() implies (#[trigger] post[i]).addr() != (
    #[trigger] post[j]).addr() by {
        if j < n {
            assert(post[i] == pre[i] && post[j] == pre[j]);
        } else {
            assert(post[j] == v);
            if post[i].addr() == v.addr() {
                assert(vault_key_at(pre, v.addr(), i));
            }
        }
    }
    assert forall|a: VaultAddr| has_vault_in(post, a) == (has_vault_in(pre, a) || a
        == v.addr()) by {
        if has_vault_in(pre, a) {
            let w = choose|m: int| vault_key_at(pre, a, m);
            assert(vault_key_at(post, a, w));
        }
        if a == v.addr() {
            assert(vault_key_at(post, a, n));
        }
        if has_vault_in(post, a) {
            let w = choose|m: int| vault_key_at(post, a, m);
            if w < n {
                assert(vault_key_at(pre, a, w));
            } else {
                assert(post[w] == v);
            }
        }
    }
}

} // verus!
