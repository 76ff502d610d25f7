//! Laws about single polls and single scheduling decisions.

use crate::chain::{Chain, ChainView};
use crate::executor::{lemma_drop_first, lemma_push_contains, lemma_push_fresh, ExecutorView, Slot};
use crate::join::{lemma_step_passes, passes, JoinAll};
use crate::leaf::Leaf;
use crate::context::Interest;
use crate::poll::{Fault, Outcome, Poll, TaskError};
use crate::unit::{may_resolve, TaskUnit};
use vstd::prelude::*;

verus! {

/// Merging requests is associative, and the empty request changes nothing.
pub proof fn lemma_merge_is_associative(a: Interest, b: Interest, c: Interest)
    ensures
        a.merge(b).merge(c) == a.merge(b.merge(c)),
        a.merge(Interest::nothing()) == a,
        Interest::nothing().merge(a) == a,
{
}

/// A finished leaf answers a poll with the double-poll error and with
/// nothing else, at whatever time it is polled.
pub proof fn lemma_finished_leaf_reports_double_poll<T>(leaf: Leaf<T>, now: u64, out: Outcome<T>)
    requires
        leaf.finished(),
        may_resolve(&leaf, now, out),
    ensures
        out == Err::<T, TaskError>(TaskError::DoublePollAfterReady),
        forall|post: Leaf<T>| !leaf.suspends(now, &post),
{
}

/// A join without children, polled for the first time, resolves: it cannot
/// suspend, it cannot fail, and the only value it yields is the empty
/// sequence.
pub proof fn lemma_empty_join_resolves_at_once<K: TaskUnit>(
    join: JoinAll<K>,
    now: u64,
    out: Outcome<Vec<K::Output>>,
)
    requires
        join@.children.len() == 0,
        join@.slots.len() == 0,
        !join@.resolved,
    ensures
        forall|post: JoinAll<K>| !join.suspends(now, &post),
        join.resolves(now, out) ==> (out matches Ok(vs) && vs@.len() == 0),
        forall|vs: Vec<K::Output>| vs@.len() == 0 ==> join.resolves(now, Ok(vs)),
{
}

/// The values a join resolves to stand in the order of the children: each
/// is the value its child had handed out before, or hands out at this poll.
pub proof fn lemma_join_keeps_order<K: TaskUnit>(
    join: JoinAll<K>,
    now: u64,
    vs: Vec<K::Output>,
    i: int,
)
    requires
        join.resolves(now, Ok(vs)),
        0 <= i < join@.children.len(),
    ensures
        vs@.len() == join@.children.len(),
        join@.slots[i] is Some ==> vs@[i] == join@.slots[i]->0,
        join@.slots[i] is None ==> may_resolve(&join@.children[i], now, Ok(vs@[i])),
{
    assert(join@.yields(now, vs@));
    let _ = vs@[i];
}

/// A join of leaves resolves to values no earlier than the latest deadline
/// among the leaves that are still incomplete, and each of those leaves
/// contributes the value it was made with.
pub proof fn lemma_join_of_leaves_waits_for_the_last<T>(
    join: JoinAll<Leaf<T>>,
    now: u64,
    vs: Vec<T>,
    i: int,
)
    requires
        join.resolves(now, Ok(vs)),
        0 <= i < join@.children.len(),
        join@.slots[i] is None,
    ensures
        now >= join@.children[i]@.due(now),
        join@.children[i]@.payload == Some(Ok::<T, Fault>(vs@[i])),
{
    lemma_join_keeps_order(join, now, vs, i);
}

/// A join fails fast: when an incomplete child can do nothing but fail at a
/// poll, the join neither suspends to wait for its other children nor
/// yields values.
pub proof fn lemma_join_fails_fast<K: TaskUnit>(join: JoinAll<K>, now: u64, k: int)
    requires
        !join@.resolved,
        0 <= k < join@.children.len(),
        join@.slots[k] is None,
        !passes(&join@.children[k], now),
    ensures
        forall|post: JoinAll<K>| !join.suspends(now, &post),
        forall|vs: Vec<K::Output>| !join.resolves(now, Ok(vs)),
{
    assert forall|post: JoinAll<K>| !join.suspends(now, &post) by {
        if join.suspends(now, &post) {
            assert(join@.child_step(post@, k, now));
            lemma_step_passes(join@, post@, k, now);
        }
    }
    assert forall|vs: Vec<K::Output>| !join.resolves(now, Ok(vs)) by {
        if join.resolves(now, Ok(vs)) {
            assert(join@.yields(now, vs@));
            let _ = vs@[k];
            assert(may_resolve(&join@.children[k], now, Ok::<K::Output, TaskError>(vs@[k])));
        }
    }
}

/// A join of leaves in which an incomplete leaf is due with a fault resolves
/// to a failure at that poll.
pub proof fn lemma_join_of_leaves_fails_with_the_due_fault<T>(
    join: JoinAll<Leaf<T>>,
    now: u64,
    k: int,
    out: Outcome<Vec<T>>,
)
    requires
        !join@.resolved,
        0 <= k < join@.children.len(),
        join@.slots[k] is None,
        join@.children[k]@.payload matches Some(Err(_)),
        now >= join@.children[k]@.due(now),
        join.resolves(now, out),
    ensures
        out is Err,
        forall|post: JoinAll<Leaf<T>>| !join.suspends(now, &post),
{
    let child = join@.children[k];
    assert(!passes(&child, now)) by {
        assert forall|v: T| !may_resolve(&child, now, Ok::<T, TaskError>(v)) by {}
        assert forall|post: Leaf<T>| !child.suspends(now, &post) by {}
    }
    lemma_join_fails_fast(join, now, k);
    if out is Ok {
        assert(join.resolves(now, Ok(out->Ok_0)));
    }
}

/// Invoking a waker twice before the next poll is the same as invoking it
/// once, and either way the queue names the task at most once.
pub proof fn lemma_wake_is_idempotent<K: TaskUnit>(s: ExecutorView<K>, id: usize)
    requires
        s.wf(),
    ensures
        s.wake(id).wake(id) == s.wake(id),
        s.wake(id).wf(),
        s.wake(id).queue.no_duplicates(),
        !s.is_live(id as int) ==> s.wake(id) == s,
{
    if s.is_live(id as int) && !s.queue.contains(id) {
        lemma_push_fresh(s.queue, id);
        lemma_push_contains(s.queue, id, id);
        assert forall|j: int| 0 <= j < s.wake(id).queue.len() implies s.wake(id).is_live(
            #[trigger] s.wake(id).queue[j] as int,
        ) by {
            if j < s.queue.len() {
                assert(s.is_live(s.queue[j] as int));
            }
        }
    }
}

/// A poll keeps the order of the queue: the tasks that waited behind the
/// polled one come first, in the order in which they waited, and the polled
/// task comes after them if it asked to be woken during its poll, and is not
/// in the queue if it did not.
pub proof fn lemma_poll_keeps_the_order_of_the_queue<K: TaskUnit>(
    s: ExecutorView<K>,
    post: ExecutorView<K>,
)
    requires
        s.wf(),
        s.polled_front(post),
    ensures
        post.queue == s.queue.drop_first() || post.queue == s.queue.drop_first().push(s.queue[0]),
        post.clock == s.clock,
        post.budget == s.budget - 1,
        forall|i: int| 0 <= i < s.slots.len() && i != s.queue[0] ==> post.slots[i] == s.slots[i],
{
    let id = s.queue[0];
    lemma_drop_first(s.queue);
    match post.slots[id as int] {
        Slot::Live(after) => {
            let polled = s.pop().with_task(id, after);
            assert(polled.is_live(id as int));
            assert(post == polled.settle(id, Poll::Pending, after.interest()));
        },
        Slot::Finished(r) => {
            assert(post == s.pop().settle(id, Poll::Ready(r), Interest::nothing()));
        },
        Slot::Vacant => {},
    }
}

/// The waker of a cancelled task does nothing, and neither does the waker
/// of a task whose result has been handed out.
pub proof fn lemma_waker_of_a_dropped_task_does_nothing<K: TaskUnit>(s: ExecutorView<K>, id: usize)
    ensures
        s.cancel(id).wake(id) == s.cancel(id),
        s.take(id).0.wake(id) == s.take(id).0 || s.take(id).0 == s,
{
}

/// A chain is lazy. While its first unit has not handed out a value, the
/// continuation is still there, not invoked: a poll that leaves the chain in
/// its first phase leaves the very same continuation in it. And when a poll
/// takes the chain out of its first phase without ending it, the first unit
/// has handed out a value at that poll, and the continuation has built the
/// second unit from that value.
pub proof fn lemma_chain_is_lazy<A: TaskUnit, B: TaskUnit, F: FnOnce(A::Output) -> B>(
    chain: Chain<A, F, B>,
    now: u64,
    post: Chain<A, F, B>,
)
    requires
        chain@ is First,
        chain.suspends(now, &post),
    ensures
        post@ is First ==> post@->First_1 == chain@->First_1 && chain@->First_0.suspends(
            now,
            &post@->First_0,
        ),
        post@ is Second ==> exists|v: A::Output, b: B|
            may_resolve(&chain@->First_0, now, Ok::<A::Output, TaskError>(v)) && #[trigger] call_ensures(
                chain@->First_1,
                (v,),
                b,
            ),
        !(post@ is Done),
{
    match post@ {
        ChainView::Second(b2) => {
            let (v, b) = choose|v: A::Output, b: B|
                {
                    &&& may_resolve(&chain@->First_0, now, Ok::<A::Output, TaskError>(v))
                    &&& #[trigger] call_ensures(chain@->First_1, (v,), b)
                    &&& !b.finished()
                    &&& b.suspends(now, &b2)
                };
            assert(call_ensures(chain@->First_1, (v,), b));
        },
        _ => {},
    }
}

/// A chain whose first unit fails resolves to that failure, and a chain in
/// its first phase yields a value only if its first unit has handed one out at
/// that poll.
pub proof fn lemma_chain_needs_the_first_value<A: TaskUnit, B: TaskUnit, F: FnOnce(A::Output) -> B>(
    chain: Chain<A, F, B>,
    now: u64,
    out: Outcome<B::Output>,
)
    requires
        chain@ is First,
        chain.resolves(now, out),
    ensures
        out is Ok ==> exists|v: A::Output, b: B|
            may_resolve(&chain@->First_0, now, Ok::<A::Output, TaskError>(v)) && #[trigger] call_ensures(
                chain@->First_1,
                (v,),
                b,
            ) && may_resolve(&b, now, out),
{
}

} // verus!
