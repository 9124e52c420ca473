//! The obstacle queue as a sequence, oldest obstacle first: how it drifts,
//! and how its expired front is swept away.

use vstd::prelude::*;
use crate::entity::Entity;

verus! {

/// The obstacles of `queue`, each one unit further left.
pub open spec fn drifted(queue: Seq<Entity>) -> Seq<Entity> {
    Seq::new(queue.len(), |i: int| queue[i].drifted())
}

/// How many obstacles at the front of `queue` have expired, up to the first
/// one that has not.
pub open spec fn expired_prefix(queue: Seq<Entity>) -> nat
    decreases queue.len(),
{
    if queue.len() > 0 && queue[0].expired() {
        1 + expired_prefix(queue.skip(1))
    } else {
        0
    }
}

/// `queue` without its expired front.
pub open spec fn swept(queue: Seq<Entity>) -> Seq<Entity> {
    queue.skip(expired_prefix(queue) as int)
}

/// Obstacles further back in `queue` are no further left.
pub open spec fn ordered(queue: Seq<Entity>) -> bool {
    forall|i: int, j: int| 0 <= i <= j < queue.len() ==> queue[i].position.x <= queue[j].position.x
}

/// Every obstacle of `queue` is one as the simulation makes them.
pub open spec fn all_obstacles(queue: Seq<Entity>) -> bool {
    forall|i: int| 0 <= i < queue.len() ==> (#[trigger] queue[i]).is_obstacle()
}

/// The expired front is a part of the queue.
pub proof fn lemma_expired_prefix_bound(queue: Seq<Entity>)
    ensures
        expired_prefix(queue) <= queue.len(),
    decreases queue.len(),
{
    if queue.len() > 0 && queue[0].expired() {
        lemma_expired_prefix_bound(queue.skip(1));
    }
}

/// Sweeping removes exactly the longest run of expired obstacles at the
/// front of the queue: every obstacle before the cut has expired, the one at
/// the cut, if there is one, has not, and what follows the cut stays, each
/// obstacle in its place behind the others.
pub proof fn lemma_sweep_cuts_longest_expired_front(queue: Seq<Entity>)
    ensures
        expired_prefix(queue) <= queue.len(),
        forall|i: int| 0 <= i < expired_prefix(queue) ==> (#[trigger] queue[i]).expired(),
        expired_prefix(queue) < queue.len() ==> !queue[expired_prefix(queue) as int].expired(),
        swept(queue).len() == queue.len() - expired_prefix(queue),
        forall|i: int|
            0 <= i < swept(queue).len() ==> #[trigger] swept(queue)[i] == queue[expired_prefix(queue) + i],
    decreases queue.len(),
{
    if queue.len() > 0 && queue[0].expired() {
        let rest = queue.skip(1);
        lemma_sweep_cuts_longest_expired_front(rest);
        assert forall|i: int| 0 <= i < expired_prefix(queue) implies (#[trigger] queue[i]).expired() by {
            if i > 0 {
                assert(queue[i] == rest[i - 1]);
            }
        }
    }
}

/// A queue that is empty or whose first obstacle has not expired is swept
/// already; so sweeping twice is sweeping once.
pub proof fn lemma_sweep_is_idempotent(queue: Seq<Entity>)
    ensures
        queue.len() == 0 || !queue[0].expired() ==> swept(queue) == queue,
        swept(swept(queue)) == swept(queue),
{
    lemma_sweep_cuts_longest_expired_front(queue);
}

/// Sweeping a queue whose first obstacle has expired is sweeping the rest.
pub proof fn lemma_sweep_past_expired(queue: Seq<Entity>)
    requires
        queue.len() > 0,
        queue[0].expired(),
    ensures
        swept(queue) == swept(queue.skip(1)),
{
    lemma_expired_prefix_bound(queue.skip(1));
}

/// Sweeping keeps a queue of obstacles ordered from left to right what it
/// was.
pub proof fn lemma_sweep_keeps_order(queue: Seq<Entity>)
    requires
        all_obstacles(queue),
        ordered(queue),
    ensures
        all_obstacles(swept(queue)),
        ordered(swept(queue)),
{
    lemma_sweep_cuts_longest_expired_front(queue);
}

/// After a drift and a sweep a queue of obstacles ordered from left to
/// right is one again: the drift may take obstacles one unit too far left,
/// but only such as have expired, and those at the front.
pub proof fn lemma_drift_and_sweep_keep_order(queue: Seq<Entity>)
    requires
        all_obstacles(queue),
        ordered(queue),
    ensures
        all_obstacles(swept(drifted(queue))),
        ordered(swept(drifted(queue))),
{
    lemma_sweep_cuts_longest_expired_front(drifted(queue));
}

} // verus!
