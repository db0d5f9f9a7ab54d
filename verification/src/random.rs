use rand::seq::SliceRandom;
use vstd::prelude::*;

use crate::peer::Peer;

verus! {

#[verifier::external_type_specification]
#[verifier::external_body]
pub struct ExThreadRng(rand::rngs::ThreadRng);

/// `p` reorders `n` positions: each of `0..n` appears in it exactly once.
pub open spec fn is_permutation(p: Seq<int>, n: nat) -> bool {
    &&& p.len() == n
    &&& forall|i: int| 0 <= i < n ==> 0 <= #[trigger] p[i] < n
    &&& forall|i: int, j: int| 0 <= i < n && 0 <= j < n && i != j ==> p[i] != p[j]
}

/// Calls `rand::thread_rng`, the random number generator of this thread.
/// Nothing is stated of the generator: what it yields depends on chance.
#[verifier::external_body]
pub(crate) fn thread_rng() -> rand::rngs::ThreadRng {
    rand::thread_rng()
}

/// Calls `SliceRandom::shuffle` of `rand` on the peers. The source shows a
/// Fisher-Yates shuffle made of swaps, so the result is a permutation of the
/// input; which permutation depends on chance and is left unstated.
#[verifier::external_body]
pub(crate) fn shuffle_peers(peers: &mut Vec<Peer>, rng: &mut rand::rngs::ThreadRng)
    ensures
        final(peers)@.len() == old(peers)@.len(),
        exists|p: Seq<int>|
            #[trigger] is_permutation(p, old(peers)@.len()) && forall|i: int|
                0 <= i < old(peers)@.len() ==> #[trigger] final(peers)@[i] == old(peers)@[p[i]],
{
    peers.shuffle(rng);
}

} // verus!
