//! The escrow system as a whole: the vault store, the escrow store and the
//! asset ledger, with the five operations that act on them.
//!
//! Every operation is a bounded, synchronous sequence of reads, at most one
//! conditional fund transfer, and at most one write, executed all-or-nothing:
//! on any error the state is exactly what it was. Deadlines are enforced
//! purely by comparing the externally supplied current time at call time;
//! nothing ever completes an escrow on its own.

use vstd::prelude::*;
use vstd::pervasive::VecAdditionalExecFns;
use crate::addr::{
    AssetKind, EscrowAddr, PartyId, VaultAddr, derive_escrow_addr, derive_vault_addr,
    escrow_addr_of, vault_addr_of,
};
use crate::ledger::{Holder, Ledger};
use crate::state::{
    Escrow, EscrowError, Vault, escrow_key_at, escrow_rec_in, escrows_unique, has_escrow_in,
    has_vault_in, lemma_escrow_push, lemma_escrow_rec_at, lemma_escrow_update, lemma_vault_push,
    refund_window, release_window, vault_key_at, vaults_unique,
};

verus! {

/// The shared persistent state: every vault, every escrow, every balance.
pub struct World {
    vaults: Vec<Vault>,
    escrows: Vec<Escrow>,
    ledger: Ledger,
}

impl World {
    /// The vault records, in creation order.
    pub closed spec fn vault_seq(self) -> Seq<Vault> {
        self.vaults@
    }

    /// The escrow records, in creation order.
    pub closed spec fn escrow_seq(self) -> Seq<Escrow> {
        self.escrows@
    }

    /// The asset ledger.
    pub closed spec fn funds(self) -> Ledger {
        self.ledger
    }

    /// A vault occupies address `a`.
    pub open spec fn has_vault(self, a: VaultAddr) -> bool {
        has_vault_in(self.vault_seq(), a)
    }

    /// An escrow occupies address `k`.
    pub open spec fn has_escrow(self, k: EscrowAddr) -> bool {
        has_escrow_in(self.escrow_seq(), k)
    }

    /// The escrow record at address `k`; meaningful only when one exists.
    pub open spec fn escrow_rec(self, k: EscrowAddr) -> Escrow {
        escrow_rec_in(self.escrow_seq(), k)
    }

    /// How much of asset kind `k` holder `o` owns; zero if no record exists.
    pub open spec fn balance(self, o: Holder, k: AssetKind) -> u64 {
        self.funds().balance(o, k)
    }

    /// A balance record exists for (`o`, `k`).
    pub open spec fn has_account(self, o: Holder, k: AssetKind) -> bool {
        self.funds().has_account(o, k)
    }

    /// The escrow at address `k` exists and has completed.
    pub open spec fn completed_of(self, k: EscrowAddr) -> bool {
        self.has_escrow(k) && self.escrow_rec(k).completed
    }

    /// The standing invariant of the whole system:
    /// - each store is duplicate-free (a deterministic address maps to at
    ///   most one record);
    /// - every escrow locks a positive amount, is denominated in its vault's
    ///   asset kind, and references a vault that exists;
    /// - a vault-owned balance record exists only for a vault that exists,
    ///   and every vault owns its balance record.
    pub open spec fn wf(self) -> bool {
        &&& self.funds().wf()
        &&& vaults_unique(self.vault_seq())
        &&& escrows_unique(self.escrow_seq())
        &&& forall|k: EscrowAddr| #[trigger]
            self.has_escrow(k) ==> self.escrow_rec(k).amount_locked > 0 && self.escrow_rec(
                k,
            ).asset_kind == k.vault.asset_kind && self.has_vault(k.vault)
        &&& forall|v: VaultAddr, k: AssetKind| #[trigger]
            self.has_account(Holder::Vault(v), k) ==> self.has_vault(v)
        &&& forall|a: VaultAddr| #[trigger]
            self.has_vault(a) ==> self.has_account(Holder::Vault(a), a.asset_kind)
    }

    /// Starts with no vaults, no escrows and no balances.
    pub fn new() -> (w: World)
        ensures
            w.wf(),
            w.vault_seq().len() == 0,
            w.escrow_seq().len() == 0,
            forall|a: VaultAddr| !w.has_vault(a),
            forall|k: EscrowAddr| !w.has_escrow(k),
            forall|o: Holder, k: AssetKind| !w.has_account(o, k),
            forall|o: Holder, k: AssetKind| w.balance(o, k) == 0,
    {
        World { vaults: Vec::new(), escrows: Vec::new(), ledger: Ledger::new() }
    }

    /// Whether a vault occupies address `a`.
    pub fn vault_exists(&self, a: VaultAddr) -> (r: bool)
        ensures
            r == self.has_vault(a),
    {
        let mut n: usize = 0;
        while n < self.vaults.len()
            invariant
                n <= self.vaults.len(),
                forall|j: int| 0 <= j < n ==> !vault_key_at(self.vault_seq(), a, j),
            decreases self.vaults.len() - n,
        {
            if self.vaults[n].asset_kind == a.asset_kind && self.vaults[n].authority
                == a.authority {
                assert(vault_key_at(self.vault_seq(), a, n as int));
                return true;
            }
            n += 1;
        }
        false
    }

    /// The index of the escrow at address `k`, which must exist.
    fn escrow_index(&self, k: EscrowAddr) -> (i: usize)
        requires
            self.has_escrow(k),
        ensures
            escrow_key_at(self.escrow_seq(), k, i as int),
    {
        let mut n: usize = 0;
        while n < self.escrows.len()
            invariant
                self.has_escrow(k),
                n <= self.escrows.len(),
                forall|j: int| 0 <= j < n ==> !escrow_key_at(self.escrow_seq(), k, j),
            decreases self.escrows.len() - n,
        {
            let e = &self.escrows[n];
            if e.vault == k.vault && e.buyer == k.buyer && e.seller == k.seller {
                assert(escrow_key_at(self.escrow_seq(), k, n as int));
                return n;
            }
            n += 1;
        }
        proof {
            let w = choose|j: int| escrow_key_at(self.escrow_seq(), k, j);
            assert(escrow_key_at(self.escrow_seq(), k, w));
            assert(false);
        }
        vstd::pervasive::unreached()
    }

    /// Whether an escrow occupies address `k`.
    fn escrow_exists(&self, k: EscrowAddr) -> (r: bool)
        ensures
            r == self.has_escrow(k),
    {
        let mut n: usize = 0;
        while n < self.escrows.len()
            invariant
                n <= self.escrows.len(),
                forall|j: int| 0 <= j < n ==> !escrow_key_at(self.escrow_seq(), k, j),
            decreases self.escrows.len() - n,
        {
            let e = &self.escrows[n];
            if e.vault == k.vault && e.buyer == k.buyer && e.seller == k.seller {
                assert(escrow_key_at(self.escrow_seq(), k, n as int));
                return true;
            }
            n += 1;
        }
        false
    }

    /// Creates the vault for (`asset_kind`, `authority`) at its deterministic
    /// address and allocates its empty balance record. Fails with
    /// `AlreadyExists`, and changes nothing, exactly when a vault already
    /// occupies that address. No funds move.
    pub fn init_vault(&mut self, asset_kind: AssetKind, authority: PartyId) -> (r: Result<
        (),
        EscrowError,
    >)
        requires
            old(self).wf(),
        ensures
            final(self).wf(),
            final(self).escrow_seq() == old(self).escrow_seq(),
            match r {
                Ok(()) => ({
                    let va = vault_addr_of(asset_kind, authority);
                    &&& !old(self).has_vault(va)
                    &&& final(self).has_vault(va)
                    &&& forall|a2: VaultAddr|
                        #![trigger final(self).has_vault(a2)]
                        final(self).has_vault(a2) == (old(self).has_vault(a2) || a2 == va)
                    &&& final(self).has_account(Holder::Vault(va), asset_kind)
                    &&& final(self).balance(Holder::Vault(va), asset_kind) == 0
                    &&& forall|o2: Holder, k2: AssetKind|
                        #![trigger final(self).balance(o2, k2)]
                        !(o2 == Holder::Vault(va) && k2 == asset_kind) ==> final(self).balance(
                            o2,
                            k2,
                        ) == old(self).balance(o2, k2)
                    &&& forall|o2: Holder, k2: AssetKind|
                        #![trigger final(self).has_account(o2, k2)]
                        !(o2 == Holder::Vault(va) && k2 == asset_kind) ==> final(self).has_account(
                            o2,
                            k2,
                        ) == old(self).has_account(o2, k2)
                }),
                Err(e) => e == EscrowError::AlreadyExists && old(self).has_vault(
                    vault_addr_of(asset_kind, authority),
                ) && unchanged(*old(self), *final(self)),
            },
    {
        let va = derive_vault_addr(asset_kind, authority);
        if self.vault_exists(va) {
            return Err(EscrowError::AlreadyExists);
        }
        let v = Vault { authority, asset_kind };
        self.vaults.push(v);
        let ghost mid = *self;
        proof {
            lemma_vault_push(old(self).vault_seq(), self.vault_seq(), v);
        }
        self.ledger.credit(Holder::Vault(va), asset_kind, 0);
        proof {
            assert(!old(self).has_account(Holder::Vault(va), asset_kind));
            lemma_wf_after_init_vault(*old(self), mid, *self, va);
        }
        Ok(())
    }
}

impl World {
    /// Adds `amount` of `asset_kind` to `owner`'s own balance, creating the
    /// record if none exists. This is the outer glue's way of funding a
    /// wallet; it is independent of every vault and escrow.
    pub fn fund_wallet(&mut self, owner: PartyId, asset_kind: AssetKind, amount: u64)
        requires
            old(self).wf(),
            old(self).balance(Holder::Wallet(owner), asset_kind) + amount <= u64::MAX,
        ensures
            final(self).wf(),
            final(self).vault_seq() == old(self).vault_seq(),
            final(self).escrow_seq() == old(self).escrow_seq(),
            final(self).has_account(Holder::Wallet(owner), asset_kind),
            final(self).balance(Holder::Wallet(owner), asset_kind) == old(self).balance(
                Holder::Wallet(owner),
                asset_kind,
            ) + amount,
            forall|o2: Holder, k2: AssetKind|
                #![trigger final(self).balance(o2, k2)]
                !(o2 == Holder::Wallet(owner) && k2 == asset_kind) ==> final(self).balance(o2, k2)
                    == old(self).balance(o2, k2),
            forall|o2: Holder, k2: AssetKind|
                #![trigger final(self).has_account(o2, k2)]
                !(o2 == Holder::Wallet(owner) && k2 == asset_kind) ==> final(self).has_account(
                    o2,
                    k2,
                ) == old(self).has_account(o2, k2),
    {
        self.ledger.credit(Holder::Wallet(owner), asset_kind, amount);
        proof {
            lemma_wf_funds_change(*old(self), *self);
        }
    }

    /// Deposits `amount` of the vault's asset kind from `depositor`'s own
    /// balance into the custody of the vault derived from
    /// (`asset_kind`, `authority`), authorized by the depositor's own key.
    /// Fails with `TransferFailed`, and changes nothing, exactly when the
    /// depositor's balance record is missing or holds too little, or the
    /// vault's balance would overflow. Touches no vault or escrow record; how
    /// much of the vault's balance an agreement reserves is recorded solely
    /// in the escrow record's locked amount.
    pub fn lock_tokens(
        &mut self,
        asset_kind: AssetKind,
        authority: PartyId,
        depositor: PartyId,
        amount: u64,
    ) -> (r: Result<(), EscrowError>)
        requires
            old(self).wf(),
            old(self).has_vault(vault_addr_of(asset_kind, authority)),
        ensures
            final(self).wf(),
            final(self).vault_seq() == old(self).vault_seq(),
            final(self).escrow_seq() == old(self).escrow_seq(),
            match r {
                Ok(()) => ({
                    let va = vault_addr_of(asset_kind, authority);
                    let dep = Holder::Wallet(depositor);
                    let cust = Holder::Vault(va);
                    &&& old(self).has_account(dep, asset_kind)
                    &&& amount <= old(self).balance(dep, asset_kind)
                    &&& old(self).balance(cust, asset_kind) + amount <= u64::MAX
                    &&& final(self).balance(dep, asset_kind) == old(self).balance(dep, asset_kind)
                        - amount
                    &&& final(self).balance(cust, asset_kind) == old(self).balance(
                        cust,
                        asset_kind,
                    ) + amount
                    &&& forall|o2: Holder, k2: AssetKind|
                        #![trigger final(self).balance(o2, k2)]
                        !(o2 == dep && k2 == asset_kind) && !(o2 == cust && k2 == asset_kind)
                            ==> final(self).balance(o2, k2) == old(self).balance(o2, k2)
                }),
                Err(e) => ({
                    let va = vault_addr_of(asset_kind, authority);
                    &&& e == EscrowError::TransferFailed
                    &&& unchanged(*old(self), *final(self))
                    &&& (!old(self).has_account(Holder::Wallet(depositor), asset_kind) || old(
                        self,
                    ).balance(Holder::Wallet(depositor), asset_kind) < amount || old(self).balance(
                        Holder::Vault(va),
                        asset_kind,
                    ) + amount > u64::MAX)
                }),
            },
    {
        let va = derive_vault_addr(asset_kind, authority);
        let r = self.ledger.transfer(
            Holder::Wallet(depositor),
            Holder::Vault(va),
            asset_kind,
            amount,
            Holder::Wallet(depositor),
        );
        proof {
            lemma_wf_funds_change(*old(self), *self);
        }
        match r {
            Ok(()) => Ok(()),
            Err(_) => Err(EscrowError::TransferFailed),
        }
    }

    /// Records the terms of one agreement: the buyer's declaration that
    /// `amount` of the vault's asset kind is reserved for `seller` until
    /// `deadline`. The record lands at the address derived from
    /// (`vault`, `buyer`, `seller`) with its completion flag down; no funds
    /// move and no funds are checked. The deadline is deliberately not
    /// validated against the current time, so an already-expired,
    /// refund-only agreement can be created. The caller is the buyer: the
    /// creating transaction carries the buyer's authorization. Fails with
    /// `AlreadyExists`, and changes nothing, exactly when an escrow already
    /// occupies that address.
    pub fn init_escrow(
        &mut self,
        vault: VaultAddr,
        buyer: PartyId,
        seller: PartyId,
        amount: u64,
        deadline: i64,
    ) -> (r: Result<(), EscrowError>)
        requires
            old(self).wf(),
            old(self).has_vault(vault),
            amount > 0,
        ensures
            final(self).wf(),
            final(self).vault_seq() == old(self).vault_seq(),
            final(self).funds() == old(self).funds(),
            match r {
                Ok(()) => ({
                    let ek = escrow_addr_of(vault, buyer, seller);
                    &&& !old(self).has_escrow(ek)
                    &&& final(self).has_escrow(ek)
                    &&& final(self).escrow_rec(ek) == (Escrow {
                        vault,
                        buyer,
                        seller,
                        asset_kind: vault.asset_kind,
                        amount_locked: amount,
                        deadline,
                        completed: false,
                    })
                    &&& !final(self).completed_of(ek)
                    &&& forall|k2: EscrowAddr|
                        #![trigger final(self).has_escrow(k2)]
                        k2 != ek ==> final(self).has_escrow(k2) == old(self).has_escrow(k2)
                    &&& forall|k2: EscrowAddr|
                        #![trigger final(self).escrow_rec(k2)]
                        k2 != ek && old(self).has_escrow(k2) ==> final(self).escrow_rec(k2) == old(
                            self,
                        ).escrow_rec(k2)
                }),
                Err(e) => e == EscrowError::AlreadyExists && old(self).has_escrow(
                    escrow_addr_of(vault, buyer, seller),
                ) && unchanged(*old(self), *final(self)),
            },
    {
        let ek = derive_escrow_addr(vault, buyer, seller);
        if self.escrow_exists(ek) {
            return Err(EscrowError::AlreadyExists);
        }
        let e = Escrow {
            vault,
            buyer,
            seller,
            asset_kind: vault.asset_kind,
            amount_locked: amount,
            deadline,
            completed: false,
        };
        assert(e.addr() == ek);
        self.escrows.push(e);
        proof {
            lemma_escrow_push(old(self).escrow_seq(), self.escrow_seq(), e);
            assert forall|k: EscrowAddr| #[trigger]
                self.has_escrow(k) implies self.escrow_rec(k).amount_locked > 0
                && self.escrow_rec(k).asset_kind == k.vault.asset_kind && self.has_vault(
                k.vault,
            ) by {
                if k != ek {
                    assert(old(self).has_escrow(k));
                    assert(old(self).escrow_rec(k) == self.escrow_rec(k));
                }
            }
            assert forall|v: VaultAddr, k2: AssetKind| #[trigger]
                self.has_account(Holder::Vault(v), k2) implies self.has_vault(v) by {
                assert(old(self).has_account(Holder::Vault(v), k2));
            }
            assert forall|a: VaultAddr| #[trigger]
                self.has_vault(a) implies self.has_account(Holder::Vault(a), a.asset_kind) by {
                assert(old(self).has_vault(a));
            }
        }
        Ok(())
    }
}

/// Re-establishes the invariant when only the ledger changed, balances were
/// never removed, and any newly present vault-owned record belongs to a
/// vault that already existed.
proof fn lemma_wf_funds_change(pre: World, post: World)
    requires
        pre.wf(),
        post.vault_seq() == pre.vault_seq(),
        post.escrow_seq() == pre.escrow_seq(),
        post.funds().wf(),
        forall|o2: Holder, k2: AssetKind|
            #![trigger pre.has_account(o2, k2)]
            pre.has_account(o2, k2) ==> post.has_account(o2, k2),
        forall|v: VaultAddr, k2: AssetKind|
            #![trigger post.has_account(Holder::Vault(v), k2)]
            post.has_account(Holder::Vault(v), k2) ==> pre.has_account(Holder::Vault(v), k2)
                || pre.has_vault(v),
    ensures
        post.wf(),
{
    assert forall|k: EscrowAddr| #[trigger]
        post.has_escrow(k) implies post.escrow_rec(k).amount_locked > 0 && post.escrow_rec(
        k,
    ).asset_kind == k.vault.asset_kind && post.has_vault(k.vault) by {
        assert(pre.has_escrow(k));
        assert(pre.escrow_rec(k) == post.escrow_rec(k));
    }
    assert forall|v: VaultAddr, k: AssetKind| #[trigger]
        post.has_account(Holder::Vault(v), k) implies post.has_vault(v) by {
        assert(pre.has_account(Holder::Vault(v), k) || pre.has_vault(v));
        if pre.has_account(Holder::Vault(v), k) {
            assert(pre.has_vault(v));
        }
    }
    assert forall|a: VaultAddr| #[trigger]
        post.has_vault(a) implies post.has_account(Holder::Vault(a), a.asset_kind) by {
        assert(pre.has_vault(a));
        assert(pre.has_account(Holder::Vault(a), a.asset_kind));
    }
}

/// The observable state is exactly what it was: same vaults, same escrows,
/// same balances.
pub open spec fn unchanged(pre: World, post: World) -> bool {
    &&& post.vault_seq() == pre.vault_seq()
    &&& post.escrow_seq() == pre.escrow_seq()
    &&& post.funds() == pre.funds()
}

/// Completion only ever moves forward: every escrow completed in `pre` is
/// still completed in `post`. Every operation of the system ensures this, so
/// along any sequence of operations an escrow's flag goes from false to true
/// at most once and never back.
pub open spec fn completion_monotone(pre: World, post: World) -> bool {
    forall|k: EscrowAddr| #[trigger] pre.completed_of(k) ==> post.completed_of(k)
}

/// Re-establishes the invariant after one escrow record is overwritten in
/// place by its completed version.
proof fn lemma_wf_escrow_flip(pre: World, post: World, i: int, e2: Escrow)
    requires
        pre.wf(),
        post.vault_seq() == pre.vault_seq(),
        post.funds() == pre.funds(),
        0 <= i < pre.escrow_seq().len(),
        e2 == pre.escrow_seq()[i].as_completed(),
        post.escrow_seq() == pre.escrow_seq().update(i, e2),
    ensures
        post.wf(),
        completion_monotone(pre, post),
        post.has_escrow(e2.addr()),
        post.escrow_rec(e2.addr()) == e2,
        forall|k: EscrowAddr|
            #![trigger post.has_escrow(k)]
            post.has_escrow(k) == pre.has_escrow(k),
        forall|k: EscrowAddr|
            #![trigger post.escrow_rec(k)]
            k != e2.addr() && pre.has_escrow(k) ==> post.escrow_rec(k) == pre.escrow_rec(k),
{
    lemma_escrow_update(pre.escrow_seq(), post.escrow_seq(), i, e2);
    lemma_escrow_rec_at(pre.escrow_seq(), e2.addr(), i);
    assert forall|k: EscrowAddr| #[trigger]
        post.has_escrow(k) implies post.escrow_rec(k).amount_locked > 0 && post.escrow_rec(
        k,
    ).asset_kind == k.vault.asset_kind && post.has_vault(k.vault) by {
        assert(pre.has_escrow(k));
        if k != e2.addr() {
            assert(post.escrow_rec(k) == pre.escrow_rec(k));
        }
    }
    assert forall|v: VaultAddr, k2: AssetKind| #[trigger]
        post.has_account(Holder::Vault(v), k2) implies post.has_vault(v) by {
        assert(pre.has_account(Holder::Vault(v), k2));
    }
    assert forall|a: VaultAddr| #[trigger]
        post.has_vault(a) implies post.has_account(Holder::Vault(a), a.asset_kind) by {
        assert(pre.has_vault(a));
    }
    assert forall|k: EscrowAddr| #[trigger]
        pre.completed_of(k) implies post.completed_of(k) by {
        if k != e2.addr() {
            assert(post.escrow_rec(k) == pre.escrow_rec(k));
        }
    }
}

impl World {
    /// Buyer-authorized transfer of the locked funds from the vault to the
    /// seller, allowed only up to the deadline. The preconditions are checked
    /// in order — timing, authorization, one-shot flag, structural bindings —
    /// and each error names exactly the first one that failed, with nothing
    /// changed. On success exactly the locked amount moves from the vault's
    /// balance to the seller's, authorized by the vault's own derivation
    /// proof, and the escrow completes, terminally. The fund movement is the
    /// last fallible step: the flag is raised only once it has succeeded.
    pub fn release_to_seller(
        &mut self,
        escrow: EscrowAddr,
        vault: VaultAddr,
        caller: PartyId,
        seller: PartyId,
        asset_kind: AssetKind,
        now: i64,
    ) -> (r: Result<(), EscrowError>)
        requires
            old(self).wf(),
            old(self).has_escrow(escrow),
        ensures
            final(self).wf(),
            final(self).vault_seq() == old(self).vault_seq(),
            completion_monotone(*old(self), *final(self)),
            forall|k2: EscrowAddr|
                #![trigger final(self).has_escrow(k2)]
                final(self).has_escrow(k2) == old(self).has_escrow(k2),
            !release_window(now, old(self).escrow_rec(escrow).deadline) ==> r == Err::<
                (),
                EscrowError,
            >(EscrowError::DeadlinePassed),
            release_window(now, old(self).escrow_rec(escrow).deadline) && caller != old(
                self,
            ).escrow_rec(escrow).buyer ==> r == Err::<(), EscrowError>(EscrowError::NotBuyer),
            release_window(now, old(self).escrow_rec(escrow).deadline) && caller == old(
                self,
            ).escrow_rec(escrow).buyer && old(self).completed_of(escrow) ==> r == Err::<
                (),
                EscrowError,
            >(EscrowError::AlreadyReleased),
            match r {
                Ok(()) => ({
                    let e = old(self).escrow_rec(escrow);
                    let cust = Holder::Vault(e.vault);
                    let dest = Holder::Wallet(seller);
                    &&& release_window(now, e.deadline)
                    &&& caller == e.buyer
                    &&& !e.completed
                    &&& vault == e.vault && seller == e.seller && asset_kind == e.asset_kind
                    &&& old(self).balance(cust, e.asset_kind) >= e.amount_locked
                    &&& old(self).balance(dest, e.asset_kind) + e.amount_locked <= u64::MAX
                    &&& final(self).has_escrow(escrow)
                    &&& final(self).escrow_rec(escrow) == e.as_completed()
                    &&& final(self).completed_of(escrow)
                    &&& final(self).balance(cust, e.asset_kind) == old(self).balance(
                        cust,
                        e.asset_kind,
                    ) - e.amount_locked
                    &&& final(self).balance(dest, e.asset_kind) == old(self).balance(
                        dest,
                        e.asset_kind,
                    ) + e.amount_locked
                    &&& forall|o2: Holder, k2: AssetKind|
                        #![trigger final(self).balance(o2, k2)]
                        !(o2 == cust && k2 == e.asset_kind) && !(o2 == dest && k2 == e.asset_kind)
                            ==> final(self).balance(o2, k2) == old(self).balance(o2, k2)
                    &&& forall|k2: EscrowAddr|
                        #![trigger final(self).escrow_rec(k2)]
                        k2 != escrow && old(self).has_escrow(k2) ==> final(self).escrow_rec(k2)
                            == old(self).escrow_rec(k2)
                }),
                Err(e_) => unchanged(*old(self), *final(self)) && ({
                    let e = old(self).escrow_rec(escrow);
                    match e_ {
                        EscrowError::DeadlinePassed => !release_window(now, e.deadline),
                        EscrowError::NotBuyer => release_window(now, e.deadline) && caller
                            != e.buyer,
                        EscrowError::AlreadyReleased => release_window(now, e.deadline) && caller
                            == e.buyer && e.completed,
                        EscrowError::BindingMismatch => release_window(now, e.deadline) && caller
                            == e.buyer && !e.completed && (vault != e.vault || seller != e.seller
                            || asset_kind != e.asset_kind),
                        EscrowError::TransferFailed => release_window(now, e.deadline) && caller
                            == e.buyer && !e.completed && vault == e.vault && seller == e.seller
                            && asset_kind == e.asset_kind && (old(self).balance(
                            Holder::Vault(e.vault),
                            e.asset_kind,
                        ) < e.amount_locked || old(self).balance(
                            Holder::Wallet(seller),
                            e.asset_kind,
                        ) + e.amount_locked > u64::MAX),
                        _ => false,
                    }
                }),
            },
    {
        let i = self.escrow_index(escrow);
        let e = self.escrows[i];
        proof {
            lemma_escrow_rec_at(self.escrow_seq(), escrow, i as int);
        }
        if now > e.deadline {
            return Err(EscrowError::DeadlinePassed);
        }
        if caller != e.buyer {
            return Err(EscrowError::NotBuyer);
        }
        if e.completed {
            return Err(EscrowError::AlreadyReleased);
        }
        if !(vault == e.vault && seller == e.seller && asset_kind == e.asset_kind) {
            return Err(EscrowError::BindingMismatch);
        }
        proof {
            assert(self.has_escrow(escrow));
            assert(e.vault == escrow.vault);
            assert(self.has_vault(escrow.vault));
            assert(self.has_account(Holder::Vault(e.vault), e.asset_kind));
        }
        let tr = self.ledger.transfer(
            Holder::Vault(e.vault),
            Holder::Wallet(seller),
            e.asset_kind,
            e.amount_locked,
            Holder::Vault(e.vault),
        );
        match tr {
            Err(_) => {
                proof {
                    lemma_wf_funds_change(*old(self), *self);
                }
                return Err(EscrowError::TransferFailed);
            },
            Ok(()) => {},
        }
        let ghost mid = *self;
        let e2 = Escrow {
            vault: e.vault,
            buyer: e.buyer,
            seller: e.seller,
            asset_kind: e.asset_kind,
            amount_locked: e.amount_locked,
            deadline: e.deadline,
            completed: true,
        };
        self.escrows.set(i, e2);
        proof {
            lemma_wf_funds_change(*old(self), mid);
            assert(e2 == e.as_completed());
            lemma_wf_escrow_flip(mid, *self, i as int, e2);
        }
        Ok(())
    }

    /// Buyer-authorized return of the locked funds from the vault to the
    /// buyer, allowed only strictly after the deadline: the mirror of
    /// release, with the time condition inverted and the buyer as the
    /// destination. Deadline expiry never moves funds by itself — the buyer
    /// must call this. The same check order, atomicity and terminal
    /// completion apply as for release.
    pub fn refund_buyer(
        &mut self,
        escrow: EscrowAddr,
        vault: VaultAddr,
        caller: PartyId,
        asset_kind: AssetKind,
        now: i64,
    ) -> (r: Result<(), EscrowError>)
        requires
            old(self).wf(),
            old(self).has_escrow(escrow),
        ensures
            final(self).wf(),
            final(self).vault_seq() == old(self).vault_seq(),
            completion_monotone(*old(self), *final(self)),
            forall|k2: EscrowAddr|
                #![trigger final(self).has_escrow(k2)]
                final(self).has_escrow(k2) == old(self).has_escrow(k2),
            !refund_window(now, old(self).escrow_rec(escrow).deadline) ==> r == Err::<
                (),
                EscrowError,
            >(EscrowError::TooEarly),
            refund_window(now, old(self).escrow_rec(escrow).deadline) && caller != old(
                self,
            ).escrow_rec(escrow).buyer ==> r == Err::<(), EscrowError>(EscrowError::NotBuyer),
            refund_window(now, old(self).escrow_rec(escrow).deadline) && caller == old(
                self,
            ).escrow_rec(escrow).buyer && old(self).completed_of(escrow) ==> r == Err::<
                (),
                EscrowError,
            >(EscrowError::AlreadyReleased),
            match r {
                Ok(()) => ({
                    let e = old(self).escrow_rec(escrow);
                    let cust = Holder::Vault(e.vault);
                    let dest = Holder::Wallet(e.buyer);
                    &&& refund_window(now, e.deadline)
                    &&& caller == e.buyer
                    &&& !e.completed
                    &&& vault == e.vault && asset_kind == e.asset_kind
                    &&& old(self).balance(cust, e.asset_kind) >= e.amount_locked
                    &&& old(self).balance(dest, e.asset_kind) + e.amount_locked <= u64::MAX
                    &&& final(self).has_escrow(escrow)
                    &&& final(self).escrow_rec(escrow) == e.as_completed()
                    &&& final(self).completed_of(escrow)
                    &&& final(self).balance(cust, e.asset_kind) == old(self).balance(
                        cust,
                        e.asset_kind,
                    ) - e.amount_locked
                    &&& final(self).balance(dest, e.asset_kind) == old(self).balance(
                        dest,
                        e.asset_kind,
                    ) + e.amount_locked
                    &&& forall|o2: Holder, k2: AssetKind|
                        #![trigger final(self).balance(o2, k2)]
                        !(o2 == cust && k2 == e.asset_kind) && !(o2 == dest && k2 == e.asset_kind)
                            ==> final(self).balance(o2, k2) == old(self).balance(o2, k2)
                    &&& forall|k2: EscrowAddr|
                        #![trigger final(self).escrow_rec(k2)]
                        k2 != escrow && old(self).has_escrow(k2) ==> final(self).escrow_rec(k2)
                            == old(self).escrow_rec(k2)
                }),
                Err(e_) => unchanged(*old(self), *final(self)) && ({
                    let e = old(self).escrow_rec(escrow);
                    match e_ {
                        EscrowError::TooEarly => !refund_window(now, e.deadline),
                        EscrowError::NotBuyer => refund_window(now, e.deadline) && caller
                            != e.buyer,
                        EscrowError::AlreadyReleased => refund_window(now, e.deadline) && caller
                            == e.buyer && e.completed,
                        EscrowError::BindingMismatch => refund_window(now, e.deadline) && caller
                            == e.buyer && !e.completed && (vault != e.vault || asset_kind
                            != e.asset_kind),
                        EscrowError::TransferFailed => refund_window(now, e.deadline) && caller
                            == e.buyer && !e.completed && vault == e.vault && asset_kind
                            == e.asset_kind && (old(self).balance(
                            Holder::Vault(e.vault),
                            e.asset_kind,
                        ) < e.amount_locked || old(self).balance(
                            Holder::Wallet(e.buyer),
                            e.asset_kind,
                        ) + e.amount_locked > u64::MAX),
                        _ => false,
                    }
                }),
            },
    {
        let i = self.escrow_index(escrow);
        let e = self.escrows[i];
        proof {
            lemma_escrow_rec_at(self.escrow_seq(), escrow, i as int);
        }
        if now <= e.deadline {
            return Err(EscrowError::TooEarly);
        }
        if caller != e.buyer {
            return Err(EscrowError::NotBuyer);
        }
        if e.completed {
            return Err(EscrowError::AlreadyReleased);
        }
        if !(vault == e.vault && asset_kind == e.asset_kind) {
            return Err(EscrowError::BindingMismatch);
        }
        proof {
            assert(self.has_escrow(escrow));
            assert(e.vault == escrow.vault);
            assert(self.has_vault(escrow.vault));
            assert(self.has_account(Holder::Vault(e.vault), e.asset_kind));
        }
        let tr = self.ledger.transfer(
            Holder::Vault(e.vault),
            Holder::Wallet(e.buyer),
            e.asset_kind,
            e.amount_locked,
            Holder::Vault(e.vault),
        );
        match tr {
            Err(_) => {
                proof {
                    lemma_wf_funds_change(*old(self), *self);
                }
                return Err(EscrowError::TransferFailed);
            },
            Ok(()) => {},
        }
        let ghost mid = *self;
        let e2 = Escrow {
            vault: e.vault,
            buyer: e.buyer,
            seller: e.seller,
            asset_kind: e.asset_kind,
            amount_locked: e.amount_locked,
            deadline: e.deadline,
            completed: true,
        };
        self.escrows.set(i, e2);
        proof {
            lemma_wf_funds_change(*old(self), mid);
            assert(e2 == e.as_completed());
            lemma_wf_escrow_flip(mid, *self, i as int, e2);
        }
        Ok(())
    }

    /// Reads a balance; zero if no record exists.
    pub fn balance_of(&self, o: Holder, k: AssetKind) -> (r: u64)
        requires
            self.wf(),
        ensures
            r == self.balance(o, k),
    {
        self.ledger.balance_of(o, k)
    }

    /// Reads the escrow record at address `k`, if one exists.
    pub fn get_escrow(&self, k: EscrowAddr) -> (r: Option<Escrow>)
        requires
            self.wf(),
        ensures
            match r {
                Some(e) => self.has_escrow(k) && e == self.escrow_rec(k),
                None => !self.has_escrow(k),
            },
    {
        if self.escrow_exists(k) {
            let i = self.escrow_index(k);
            proof {
                lemma_escrow_rec_at(self.escrow_seq(), k, i as int);
            }
            Some(self.escrows[i])
        } else {
            None
        }
    }
}

/// Re-establishes the invariant after a vault creation: `mid` is `pre` with
/// the new vault record appended, `post` is `mid` with the vault's empty
/// balance record added.
proof fn lemma_wf_after_init_vault(pre: World, mid: World, post: World, va: VaultAddr)
    requires
        pre.wf(),
        !pre.has_vault(va),
        mid.escrow_seq() == pre.escrow_seq(),
        mid.funds() == pre.funds(),
        vaults_unique(mid.vault_seq()),
        forall|a2: VaultAddr|
            #![trigger has_vault_in(mid.vault_seq(), a2)]
            has_vault_in(mid.vault_seq(), a2) == (pre.has_vault(a2) || a2 == va),
        post.vault_seq() == mid.vault_seq(),
        post.escrow_seq() == mid.escrow_seq(),
        post.funds().wf(),
        post.has_account(Holder::Vault(va), va.asset_kind),
        forall|o2: Holder, k2: AssetKind|
            #![trigger post.has_account(o2, k2)]
            !(o2 == Holder::Vault(va) && k2 == va.asset_kind) ==> post.has_account(o2, k2)
                == pre.has_account(o2, k2),
    ensures
        post.wf(),
{
    assert forall|k: EscrowAddr| #[trigger]
        post.has_escrow(k) implies post.escrow_rec(k).amount_locked > 0 && post.escrow_rec(
        k,
    ).asset_kind == k.vault.asset_kind && post.has_vault(k.vault) by {
        assert(pre.has_escrow(k));
        assert(pre.escrow_rec(k) == post.escrow_rec(k));
        assert(pre.has_vault(k.vault));
    }
    assert forall|v: VaultAddr, k: AssetKind| #[trigger]
        post.has_account(Holder::Vault(v), k) implies post.has_vault(v) by {
        if !(v == va && k == va.asset_kind) {
            assert(pre.has_account(Holder::Vault(v), k));
            assert(pre.has_vault(v));
        }
    }
    assert forall|a: VaultAddr| #[trigger]
        post.has_vault(a) implies post.has_account(Holder::Vault(a), a.asset_kind) by {
        if a != va {
            assert(pre.has_vault(a));
            assert(pre.has_account(Holder::Vault(a), a.asset_kind));
        }
    }
}

} // verus!
