//! The fungible-asset ledger: a table of balances, keyed by holder and asset
//! kind, with an atomic transfer that either debits the source and credits
//! the destination or fails with no effect.

use vstd::prelude::*;
use vstd::pervasive::VecAdditionalExecFns;
use crate::addr::{AssetKind, PartyId, VaultAddr};
use crate::state::EscrowError;

verus! {

/// The spending authority over a balance: either a human-keyed wallet or a
/// vault, which signs with its own derivation proof instead of a human key.
#[derive(Clone, Copy, PartialEq, Eq, Structural, Debug)]
pub enum Holder {
    /// A participant's own balance, moved only with that participant's key.
    Wallet(PartyId),
    /// A vault's custodial balance, moved only by the vault itself.
    Vault(VaultAddr),
}

/// One balance record: how much of one asset kind one holder owns.
#[derive(Clone, Copy, PartialEq, Eq, Structural, Debug)]
pub struct TokenAccount {
    pub owner: Holder,
    pub asset_kind: AssetKind,
    pub amount: u64,
}

/// The ledger itself: at most one record per (holder, asset kind) pair.
pub struct Ledger {
    accounts: Vec<TokenAccount>,
}

impl Ledger {
    /// The records, in creation order.
    pub closed spec fn accts(self) -> Seq<TokenAccount> {
        self.accounts@
    }

    /// Record `i` exists and is the (`o`, `k`) balance.
    pub open spec fn acct_at(self, o: Holder, k: AssetKind, i: int) -> bool {
        0 <= i < self.accts().len() && self.accts()[i].owner == o && self.accts()[i].asset_kind
            == k
    }

    /// Some record is the (`o`, `k`) balance.
    pub open spec fn has_account(self, o: Holder, k: AssetKind) -> bool {
        exists|i: int| self.acct_at(o, k, i)
    }

    /// How much of asset kind `k` holder `o` owns; zero if no record exists.
    pub open spec fn balance(self, o: Holder, k: AssetKind) -> u64 {
        if self.has_account(o, k) {
            self.accts()[choose|i: int| self.acct_at(o, k, i)].amount
        } else {
            0
        }
    }

    /// No two records share a (holder, asset kind) key.
    pub open spec fn wf(self) -> bool {
        forall|i: int, j: int|
            #![trigger self.accts()[i], self.accts()[j]]
            0 <= i < j < self.accts().len() ==> !(self.accts()[i].owner == self.accts()[j].owner
                && self.accts()[i].asset_kind == self.accts()[j].asset_kind)
    }

    /// Starts empty: no holder owns anything.
    pub fn new() -> (l: Ledger)
        ensures
            l.wf(),
            forall|o: Holder, k: AssetKind| !l.has_account(o, k),
            forall|o: Holder, k: AssetKind| l.balance(o, k) == 0,
            l.accts().len() == 0,
    {
        Ledger { accounts: Vec::new() }
    }

    /// Reads the (`o`, `k`) balance; zero if no record exists.
    pub fn balance_of(&self, o: Holder, k: AssetKind) -> (r: u64)
        requires
            self.wf(),
        ensures
            r == self.balance(o, k),
    {
        match self.find(o, k) {
            Some(i) => {
                proof {
                    lemma_balance_at(*self, o, k, i as int);
                }
                self.accounts[i].amount
            },
            None => 0,
        }
    }

    /// The index of the (`o`, `k`) record, if one exists.
    fn find(&self, o: Holder, k: AssetKind) -> (r: Option<usize>)
        ensures
            match r {
                Some(i) => self.acct_at(o, k, i as int),
                None => !self.has_account(o, k),
            },
    {
        let mut n: usize = 0;
        while n < self.accounts.len()
            invariant
                n <= self.accounts.len(),
                forall|j: int| 0 <= j < n ==> !self.acct_at(o, k, j),
            decreases self.accounts.len() - n,
        {
            if self.accounts[n].owner == o && self.accounts[n].asset_kind == k {
                return Some(n);
            }
            n += 1;
        }
        None
    }
}

/// In a well-formed ledger any record with the (`o`, `k`) key carries the
/// (`o`, `k`) balance: the key determines the record.
pub proof fn lemma_balance_at(l: Ledger, o: Holder, k: AssetKind, i: int)
    requires
        l.wf(),
        l.acct_at(o, k, i),
    ensures
        l.has_account(o, k),
        l.balance(o, k) == l.accts()[i].amount,
{
    assert(l.has_account(o, k));
    let w = choose|n: int| l.acct_at(o, k, n);
    if w != i {
        assert(l.accts()[w].owner == o && l.accts()[i].owner == o);
        assert(false);
    }
}

/// Overwriting record `i` with a record of the same key touches exactly that
/// key's balance: every other (holder, asset kind) pair keeps its balance and
/// its presence, and no key appears or disappears.
pub proof fn lemma_set_amount(pre: Ledger, post: Ledger, i: int, a2: TokenAccount)
    requires
        pre.wf(),
        0 <= i < pre.accts().len(),
        a2.owner == pre.accts()[i].owner,
        a2.asset_kind == pre.accts()[i].asset_kind,
        post.accts() == pre.accts().update(i, a2),
    ensures
        post.wf(),
        post.has_account(a2.owner, a2.asset_kind),
        post.balance(a2.owner, a2.asset_kind) == a2.amount,
        forall|o: Holder, k: AssetKind|
            #![trigger pre.has_account(o, k)]
            #![trigger post.has_account(o, k)]
            pre.has_account(o, k) == post.has_account(o, k),
        forall|o: Holder, k: AssetKind|
            #![trigger pre.balance(o, k)]
            #![trigger post.balance(o, k)]
            !(o == a2.owner && k == a2.asset_kind) ==> post.balance(o, k) == pre.balance(o, k),
{
    assert forall|n: int| 0 <= n < post.accts().len() implies (#[trigger] post.accts()[n]).owner
        == pre.accts()[n].owner && post.accts()[n].asset_kind == pre.accts()[n].asset_kind by {}
    assert forall|o: Holder, k: AssetKind|
        pre.has_account(o, k) == post.has_account(o, k) by {
        if pre.has_account(o, k) {
            let w = choose|n: int| pre.acct_at(o, k, n);
            assert(post.acct_at(o, k, w));
        }
        if post.has_account(o, k) {
            let w = choose|n: int| post.acct_at(o, k, n);
            assert(pre.acct_at(o, k, w));
        }
    }
    assert(post.acct_at(a2.owner, a2.asset_kind, i));
    lemma_balance_at(post, a2.owner, a2.asset_kind, i);
    assert forall|o: Holder, k: AssetKind|
        !(o == a2.owner && k == a2.asset_kind) implies post.balance(o, k) == pre.balance(o, k) by {
        if pre.has_account(o, k) {
            let w = choose|n: int| pre.acct_at(o, k, n);
            assert(w != i);
            assert(post.acct_at(o, k, w));
            lemma_balance_at(pre, o, k, w);
            lemma_balance_at(post, o, k, w);
        }
    }
}

/// Appending a record whose key is absent touches exactly that key: it now
/// exists with the record's amount, and every other pair keeps its balance
/// and its presence.
pub proof fn lemma_push_account(pre: Ledger, post: Ledger, a: TokenAccount)
    requires
        pre.wf(),
        !pre.has_account(a.owner, a.asset_kind),
        post.accts() == pre.accts().push(a),
    ensures
        post.wf(),
        post.has_account(a.owner, a.asset_kind),
        post.balance(a.owner, a.asset_kind) == a.amount,
        forall|o: Holder, k: AssetKind|
            #![trigger pre.has_account(o, k)]
            #![trigger post.has_account(o, k)]
            !(o == a.owner && k == a.asset_kind) ==> pre.has_account(o, k) == post.has_account(
                o,
                k,
            ),
        forall|o: Holder, k: AssetKind|
            #![trigger pre.balance(o, k)]
            #![trigger post.balance(o, k)]
            !(o == a.owner && k == a.asset_kind) ==> post.balance(o, k) == pre.balance(o, k),
        forall|o: Holder, k: AssetKind|
            #![trigger pre.has_account(o, k)]
            #![trigger post.has_account(o, k)]
            pre.has_account(o, k) ==> post.has_account(o, k),
{
    let n = pre.accts().len() as int;
    assert forall|i: int, j: int|
        0 <= i < j < post.accts().len() implies !((#[trigger] post.accts()[i]).owner == (
    #[trigger] post.accts()[j]).owner && post.accts()[i].asset_kind
        == post.accts()[j].asset_kind) by {
        if j < n {
            assert(post.accts()[i] == pre.accts()[i] && post.accts()[j] == pre.accts()[j]);
        } else {
            assert(post.accts()[j] == a);
            if post.accts()[i].owner == a.owner && post.accts()[i].asset_kind == a.asset_kind {
                assert(pre.acct_at(a.owner, a.asset_kind, i));
            }
        }
    }
    assert(post.acct_at(a.owner, a.asset_kind, n));
    lemma_balance_at(post, a.owner, a.asset_kind, n);
    assert forall|o: Holder, k: AssetKind|
        !(o == a.owner && k == a.asset_kind) implies pre.has_account(o, k) == post.has_account(
        o,
        k,
    ) by {
        if pre.has_account(o, k) {
            let w = choose|m: int| pre.acct_at(o, k, m);
            assert(post.acct_at(o, k, w));
        }
        if post.has_account(o, k) {
            let w = choose|m: int| post.acct_at(o, k, m);
            assert(w != n);
            assert(pre.acct_at(o, k, w));
        }
    }
    assert forall|o: Holder, k: AssetKind|
        !(o == a.owner && k == a.asset_kind) implies post.balance(o, k) == pre.balance(o, k) by {
        if pre.has_account(o, k) {
            let w = choose|m: int| pre.acct_at(o, k, m);
            assert(post.acct_at(o, k, w));
            lemma_balance_at(pre, o, k, w);
            lemma_balance_at(post, o, k, w);
        }
    }
    assert forall|o: Holder, k: AssetKind|
        pre.has_account(o, k) implies post.has_account(o, k) by {
        if pre.has_account(o, k) {
            let w = choose|m: int| pre.acct_at(o, k, m);
            assert(post.acct_at(o, k, w));
        }
    }
}

impl Ledger {
    /// Adds `amount` to the (`o`, `k`) balance, creating the record if none
    /// exists. Used to allocate a vault's empty balance record and to fund a
    /// wallet; never fails because the caller rules out overflow.
    pub fn credit(&mut self, o: Holder, k: AssetKind, amount: u64)
        requires
            old(self).wf(),
            old(self).balance(o, k) + amount <= u64::MAX,
        ensures
            final(self).wf(),
            final(self).has_account(o, k),
            final(self).balance(o, k) == old(self).balance(o, k) + amount,
            forall|o2: Holder, k2: AssetKind|
                #![trigger final(self).balance(o2, k2)]
                !(o2 == o && k2 == k) ==> final(self).balance(o2, k2) == old(self).balance(o2, k2),
            forall|o2: Holder, k2: AssetKind|
                #![trigger final(self).has_account(o2, k2)]
                !(o2 == o && k2 == k) ==> final(self).has_account(o2, k2) == old(self).has_account(
                    o2,
                    k2,
                ),
            forall|o2: Holder, k2: AssetKind|
                #![trigger final(self).has_account(o2, k2)]
                final(self).has_account(o2, k2) ==> old(self).has_account(o2, k2) || (o2 == o && k2
                    == k),
            forall|o2: Holder, k2: AssetKind|
                #![trigger old(self).has_account(o2, k2)]
                old(self).has_account(o2, k2) ==> final(self).has_account(o2, k2),
    {
        match self.find(o, k) {
            Some(i) => {
                let b = self.accounts[i].amount;
                proof {
                    lemma_balance_at(*self, o, k, i as int);
                }
                self.accounts.set(i, TokenAccount { owner: o, asset_kind: k, amount: b + amount });
                proof {
                    lemma_set_amount(
                        *old(self),
                        *self,
                        i as int,
                        TokenAccount { owner: o, asset_kind: k, amount: (b + amount) as u64 },
                    );
                }
            },
            None => {
                self.accounts.push(TokenAccount { owner: o, asset_kind: k, amount });
                proof {
                    lemma_push_account(
                        *old(self),
                        *self,
                        TokenAccount { owner: o, asset_kind: k, amount },
                    );
                }
            },
        }
    }

    /// Moves `amount` of asset kind `k` from `from` to `to`, creating the
    /// destination record if none exists. The move must carry the
    /// authorization of the source's own holder — a wallet signs with its
    /// key, a vault with its derivation proof; no other token moves a
    /// balance. Fails with no effect when the source record is missing,
    /// holds too little, or the destination would overflow; otherwise the
    /// debit and the credit happen together.
    pub fn transfer(
        &mut self,
        from: Holder,
        to: Holder,
        k: AssetKind,
        amount: u64,
        signer: Holder,
    ) -> (r: Result<(), EscrowError>)
        requires
            old(self).wf(),
            signer == from,
            from != to,
        ensures
            final(self).wf(),
            forall|o2: Holder, k2: AssetKind|
                #![trigger old(self).has_account(o2, k2)]
                old(self).has_account(o2, k2) ==> final(self).has_account(o2, k2),
            match r {
                Ok(()) => old(self).has_account(from, k)
                    && amount <= old(self).balance(from, k)
                    && old(self).balance(to, k) + amount <= u64::MAX
                    && final(self).has_account(to, k)
                    && final(self).balance(from, k) == old(self).balance(from, k) - amount
                    && final(self).balance(to, k) == old(self).balance(to, k) + amount
                    && (forall|o2: Holder, k2: AssetKind|
                        #![trigger final(self).balance(o2, k2)]
                        !(o2 == from && k2 == k) && !(o2 == to && k2 == k)
                            ==> final(self).balance(o2, k2) == old(self).balance(o2, k2))
                    && (forall|o2: Holder, k2: AssetKind|
                        #![trigger final(self).has_account(o2, k2)]
                        final(self).has_account(o2, k2) ==> old(self).has_account(o2, k2)
                            || (o2 == to && k2 == k)),
                Err(e) => e == EscrowError::TransferFailed && *final(self) == *old(self)
                    && (!old(self).has_account(from, k)
                        || old(self).balance(from, k) < amount
                        || old(self).balance(to, k) + amount > u64::MAX),
            },
    {
        let i = match self.find(from, k) {
            Some(i) => i,
            None => {
                return Err(EscrowError::TransferFailed);
            },
        };
        let bf = self.accounts[i].amount;
        proof {
            lemma_balance_at(*self, from, k, i as int);
        }
        if bf < amount {
            return Err(EscrowError::TransferFailed);
        }
        match self.find(to, k) {
            Some(j) => {
                let bt = self.accounts[j].amount;
                proof {
                    lemma_balance_at(*self, to, k, j as int);
                }
                if bt > u64::MAX - amount {
                    return Err(EscrowError::TransferFailed);
                }
                assert(i != j);
                self.accounts.set(
                    i,
                    TokenAccount { owner: from, asset_kind: k, amount: bf - amount },
                );
                let ghost mid = *self;
                self.accounts.set(
                    j,
                    TokenAccount { owner: to, asset_kind: k, amount: bt + amount },
                );
                proof {
                    lemma_set_amount(
                        *old(self),
                        mid,
                        i as int,
                        TokenAccount { owner: from, asset_kind: k, amount: (bf - amount) as u64 },
                    );
                    lemma_set_amount(
                        mid,
                        *self,
                        j as int,
                        TokenAccount { owner: to, asset_kind: k, amount: (bt + amount) as u64 },
                    );
                    assert(mid.acct_at(to, k, j as int));
                    lemma_balance_at(mid, to, k, j as int);
                }
            },
            None => {
                self.accounts.set(
                    i,
                    TokenAccount { owner: from, asset_kind: k, amount: bf - amount },
                );
                let ghost mid = *self;
                self.accounts.push(TokenAccount { owner: to, asset_kind: k, amount });
                proof {
                    lemma_set_amount(
                        *old(self),
                        mid,
                        i as int,
                        TokenAccount { owner: from, asset_kind: k, amount: (bf - amount) as u64 },
                    );
                    lemma_push_account(
                        mid,
                        *self,
                        TokenAccount { owner: to, asset_kind: k, amount },
                    );
                }
            },
        }
        Ok(())
    }
}

} // verus!
