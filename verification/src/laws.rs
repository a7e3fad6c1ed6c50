//! System-wide laws: properties that hold across whole sequences of
//! operations, proved from the operations' contracts.

use vstd::prelude::*;
use crate::addr::EscrowAddr;
use crate::world::{World, completion_monotone};

verus! {

/// Completion monotonicity composes: if completion only moved forward from
/// `a` to `b` and from `b` to `c`, it only moved forward from `a` to `c`.
/// Since every operation of the system ensures `completion_monotone`, any
/// finite chain of operations preserves it.
pub proof fn lemma_completion_monotone_trans(a: World, b: World, c: World)
    requires
        completion_monotone(a, b),
        completion_monotone(b, c),
    ensures
        completion_monotone(a, c),
{
    assert forall|k: EscrowAddr| #[trigger] a.completed_of(k) implies c.completed_of(k) by {
        assert(b.completed_of(k));
    }
}

/// Along any chain of states in which each step keeps completion monotone —
/// as every operation of the system does — an escrow that is completed at
/// some point stays completed at every later point. Its flag therefore
/// flips from false to true at most once over the whole chain, no matter how
/// release and refund attempts are interleaved.
pub proof fn lemma_completion_one_shot(chain: Seq<World>, k: EscrowAddr, i: int, j: int)
    requires
        forall|n: int|
            0 <= n < chain.len() - 1 ==> #[trigger] completion_monotone(chain[n], chain[n + 1]),
        0 <= i <= j < chain.len(),
        chain[i].completed_of(k),
    ensures
        chain[j].completed_of(k),
    decreases j - i,
{
    if i < j {
        assert(completion_monotone(chain[i], chain[i + 1]));
        assert(chain[i + 1].completed_of(k));
        lemma_completion_one_shot(chain, k, i + 1, j);
    }
}

} // verus!
