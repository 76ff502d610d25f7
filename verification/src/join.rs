//! Joint waiting: one task unit that drives a fixed sequence of child units
//! and resolves to their results in the order of the children.

use crate::context::{Context, Interest};
use crate::poll::{Outcome, Poll, TaskError};
use crate::unit::{may_resolve, TaskUnit};
use vstd::prelude::*;

verus! {

/// A join as a mathematical value.
pub ghost struct JoinView<K: TaskUnit> {
    /// The child units, in the order in which they were given.
    pub children: Seq<K>,
    /// For each child, its result once it has completed.
    pub slots: Seq<Option<K::Output>>,
    /// The join has produced its own result.
    pub resolved: bool,
}

/// How many of the slots are filled.
pub open spec fn filled<T>(slots: Seq<Option<T>>) -> nat
    decreases slots.len(),
{
    if slots.len() == 0 {
        0
    } else {
        filled(slots.drop_last()) + if slots.last() is Some {
            1nat
        } else {
            0nat
        }
    }
}

/// A poll of `child` at time `now` may do something other than fail: hand
/// out a value, or suspend.
pub open spec fn passes<K: TaskUnit>(child: &K, now: u64) -> bool {
    ||| exists|v: K::Output| #[trigger] may_resolve(child, now, Ok::<K::Output, TaskError>(v))
    ||| !child.finished() && exists|post: K| #[trigger] child.suspends(now, &post)
}

impl<K: TaskUnit> JoinView<K> {
    /// There is a slot for each child, every child is well formed, and a
    /// child whose slot is filled is finished.
    pub open spec fn wf(self) -> bool {
        !self.resolved ==> {
            &&& self.slots.len() == self.children.len()
            &&& forall|i: int| 0 <= i < self.children.len() ==> (#[trigger] self.children[i]).inv()
            &&& forall|i: int|
                0 <= i < self.children.len() && (#[trigger] self.slots[i]) is Some
                    ==> self.children[i].finished()
        }
    }

    /// What the first `n` children that are still incomplete have asked of
    /// the scheduler, taken together.
    pub open spec fn joint_interest(self, n: nat) -> Interest
        decreases n,
    {
        if n == 0 {
            Interest::nothing()
        } else {
            self.joint_interest((n - 1) as nat).merge(
                if self.slots[n - 1] is None {
                    self.children[n - 1].interest()
                } else {
                    Interest::nothing()
                },
            )
        }
    }

    /// What one poll of the join at time `now` may have done with child `i`
    /// on the way to `post`: a child that was complete is left alone; one
    /// that was not has been polled once, and has either handed out the
    /// value now in its slot, or suspended.
    pub open spec fn child_step(self, post: Self, i: int, now: u64) -> bool {
        match self.slots[i] {
            Some(v) => post.slots[i] == Some(v) && post.children[i] == self.children[i],
            None => match post.slots[i] {
                Some(v) => may_resolve(&self.children[i], now, Ok(v)),
                None => !self.children[i].finished() && self.children[i].suspends(
                    now,
                    &post.children[i],
                ),
            },
        }
    }

    /// A poll of the join at time `now` may fail with `e` at child `k`: that
    /// child was incomplete and its poll may fail with `e`, and every
    /// incomplete child before it may do something other than fail.
    pub open spec fn fails_at(self, k: int, now: u64, e: TaskError) -> bool {
        &&& 0 <= k < self.children.len()
        &&& self.slots[k] is None
        &&& may_resolve(&self.children[k], now, Err(e))
        &&& forall|i: int|
            0 <= i < k && self.slots[i] is None ==> passes(&#[trigger] self.children[i], now)
    }

    /// A poll of the join at time `now` may yield the values `vs`: one for
    /// each child, in the order of the children, each the value in the
    /// child's slot or the value that the child's poll may hand out.
    pub open spec fn yields(self, now: u64, vs: Seq<K::Output>) -> bool {
        &&& vs.len() == self.children.len()
        &&& forall|i: int|
            0 <= i < self.children.len() ==> match self.slots[i] {
                Some(v) => #[trigger] vs[i] == v,
                None => may_resolve(&self.children[i], now, Ok(vs[i])),
            }
    }
}

/// A task unit that waits for all of its children.
pub struct JoinAll<K: TaskUnit> {
    children: Vec<K>,
    slots: Vec<Option<K::Output>>,
    done: usize,
    resolved: bool,
}

impl<K: TaskUnit> View for JoinAll<K> {
    type V = JoinView<K>;

    closed spec fn view(&self) -> JoinView<K> {
        JoinView { children: self.children@, slots: self.slots@, resolved: self.resolved }
    }
}

/// Composes `tasks` into one unit that resolves, once all of them have
/// completed, to their results in the order of `tasks`.
pub fn join_all<K: TaskUnit>(tasks: Vec<K>) -> (join: JoinAll<K>)
    requires
        forall|i: int| 0 <= i < tasks@.len() ==> (#[trigger] tasks@[i]).inv(),
    ensures
        join.inv(),
        join@.children == tasks@,
        join@.slots == Seq::new(tasks@.len(), |i: int| None::<K::Output>),
        !join@.resolved,
{
    let n = tasks.len();
    let mut slots: Vec<Option<K::Output>> = Vec::new();
    let mut i: usize = 0;
    while i < n
        invariant
            i <= n,
            slots@.len() == i,
            forall|j: int| 0 <= j < i ==> (#[trigger] slots@[j]) is None,
            filled(slots@) == 0,
        decreases n - i,
    {
        proof {
            assert(slots@.push(None).drop_last() =~= slots@);
        }
        slots.push(None);
        i += 1;
    }
    proof {
        assert(slots@ =~= Seq::new(tasks@.len(), |i: int| None::<K::Output>));
    }
    JoinAll { children: tasks, slots, done: 0, resolved: false }
}

impl<K: TaskUnit> JoinAll<K> {
    /// The completion counter agrees with the slots.
    pub closed spec fn counted(&self) -> bool {
        !self.resolved ==> self.done == filled(self.slots@)
    }

    /// How many children the join waits for.
    pub fn len(&self) -> (n: usize)
        ensures
            n == self@.children.len(),
    {
        self.children.len()
    }

    /// The completion counter: while the join is unresolved, how many of its
    /// children have completed.
    pub fn completed(&self) -> (n: usize)
        requires
            self.inv(),
        ensures
            !self@.resolved ==> n == filled(self@.slots),
    {
        self.done
    }

    /// Whether the join has produced its own result.
    pub fn is_finished(&self) -> (b: bool)
        ensures
            b == self.finished(),
    {
        self.resolved
    }
}

impl<K: TaskUnit> TaskUnit for JoinAll<K> {
    type Output = Vec<K::Output>;

    open spec fn inv(&self) -> bool {
        self@.wf() && self.counted()
    }

    open spec fn finished(&self) -> bool {
        self@.resolved
    }

    open spec fn interest(&self) -> Interest {
        self@.joint_interest(self@.children.len())
    }

    open spec fn resolves(&self, now: u64, out: Outcome<Vec<K::Output>>) -> bool {
        !self@.resolved && match out {
            Ok(vs) => self@.yields(now, vs@),
            Err(e) => exists|k: int| #[trigger] self@.fails_at(k, now, e),
        }
    }

    open spec fn suspends(&self, now: u64, post: &Self) -> bool {
        &&& !self@.resolved
        &&& !post@.resolved
        &&& post@.children.len() == self@.children.len()
        &&& post@.slots.len() == self@.slots.len()
        &&& forall|i: int|
            0 <= i < self@.children.len() ==> #[trigger] self@.child_step(post@, i, now)
        &&& exists|i: int| 0 <= i < post@.slots.len() && (#[trigger] post@.slots[i]) is None
    }

    /// Polls every child that has not completed, once and in the order of
    /// the children, and keeps each value handed out in the child's slot.
    /// The first failure ends the poll at once: the join resolves to it, the
    /// values are dropped, and the children after the failed one are not
    /// polled. When every child has completed, the join resolves to the
    /// values in the order of the children; without children that is at the
    /// first poll. A resolved join reports the double poll. Only a join that
    /// suspends asks anything of the scheduler: what its suspended children
    /// have asked.
    fn poll(&mut self, cx: &mut Context) -> (out: Poll<Outcome<Vec<K::Output>>>)
        ensures
            old(self)@.resolved ==> final(self)@ == old(self)@,
            !old(self)@.resolved && old(self)@.children.len() == 0 ==> (out matches Poll::Ready(
                Ok(vs),
            ) && vs@.len() == 0),
            !old(self)@.resolved ==> final(self)@.children.len() == old(self)@.children.len(),
            !old(self)@.resolved ==> (out matches Poll::Ready(Err(e)) ==> exists|k: int|
                {
                    &&& #[trigger] old(self)@.fails_at(k, old(cx).now(), e)
                    &&& forall|i: int|
                        k < i < old(self)@.children.len() ==> (#[trigger] final(self)@.children[i])
                            == old(self)@.children[i]
                }),
            out is Pending ==> filled(final(self)@.slots) >= filled(old(self)@.slots),
            out is Ready ==> final(cx).interest() == old(cx).interest(),
    {
        if self.resolved {
            return Poll::Ready(Err(TaskError::DoublePollAfterReady));
        }
        let n = self.children.len();
        let now = cx.now();
        let ghost pre = self@;
        let mut asked = Interest::none();
        let mut i: usize = 0;
        while i < n
            invariant
                i <= n,
                pre == old(self)@,
                cx.interest() == old(cx).interest(),
                now == old(cx).now(),
                old(self).inv(),
                !pre.resolved,
                n == pre.children.len(),
                self@.children.len() == n,
                self@.slots.len() == n,
                !self@.resolved,
                self.inv(),
                cx.now() == old(cx).now(),
                cx.waker() == old(cx).waker(),
                asked == self@.joint_interest(i as nat),
                filled(self@.slots) >= filled(pre.slots),
                forall|j: int|
                    i <= j < n ==> (#[trigger] self@.children[j]) == pre.children[j]
                        && self@.slots[j] == pre.slots[j],
                forall|j: int| 0 <= j < i ==> #[trigger] pre.child_step(self@, j, now),
            decreases n - i,
        {
            let ghost before = self@;
            if self.slots[i].is_none() {
                let mut child_cx = cx.child();
                let polled = self.children[i].poll(&mut child_cx);
                proof {
                    assert(self@.slots == before.slots);
                    assert forall|j: int| 0 <= j < n && j != i implies self@.children[j]
                        == before.children[j] by {}
                }
                match polled {
                    Poll::Pending => {
                        asked = asked.merged(child_cx.interest());
                        proof {
                            lemma_joint_prefix(before, self@, i as nat);
                            assert forall|j: int| 0 <= j < i implies #[trigger] pre.child_step(
                                self@,
                                j,
                                now,
                            ) by {
                                assert(pre.child_step(before, j, now));
                            }
                        }
                    },
                    Poll::Ready(Ok(v)) => {
                        self.slots.set(i, Some(v));
                        proof {
                            lemma_fill(before.slots, i as int, v);
                            lemma_filled_bound(self@.slots);
                        }
                        self.done = self.done + 1;
                        proof {
                            lemma_joint_prefix(before, self@, i as nat);
                            assert forall|j: int| 0 <= j < i implies #[trigger] pre.child_step(
                                self@,
                                j,
                                now,
                            ) by {
                                assert(pre.child_step(before, j, now));
                            }
                        }
                    },
                    Poll::Ready(Err(e)) => {
                        self.resolved = true;
                        self.slots.clear();
                        proof {
                            assert forall|j: int| 0 <= j < i && pre.slots[j] is None implies passes(
                                &#[trigger] pre.children[j],
                                now,
                            ) by {
                                lemma_step_passes(pre, before, j, now);
                            }
                            assert(pre.fails_at(i as int, now, e));
                        }
                        return Poll::Ready(Err(e));
                    },
                }
            } else {
                proof {
                    lemma_joint_prefix(before, self@, i as nat);
                }
            }
            i += 1;
        }
        if self.done < n {
            proof {
                lemma_unfilled(self@.slots);
            }
            cx.absorb(asked);
            return Poll::Pending;
        }
        proof {
            lemma_filled_bound(self@.slots);
            lemma_all_filled(self@.slots);
        }
        let ghost full = self@;
        self.resolved = true;
        let mut outs: Vec<K::Output> = Vec::new();
        let mut j: usize = 0;
        while j < n
            invariant
                j <= n,
                n == full.slots.len(),
                self.slots@.len() == n,
                self.children@ == full.children,
                self.resolved,
                outs@.len() == j,
                forall|m: int| 0 <= m < n ==> (#[trigger] full.slots[m]) is Some,
                forall|m: int| j <= m < n ==> (#[trigger] self.slots@[m]) == full.slots[m],
                forall|m: int| 0 <= m < j ==> (#[trigger] outs@[m]) == full.slots[m]->0,
            decreases n - j,
        {
            proof {
                assert(full.slots[j as int] is Some);
            }
            match self.slots[j].take() {
                Some(v) => {
                    outs.push(v);
                },
                None => {},
            }
            j += 1;
        }
        proof {
            assert forall|m: int| 0 <= m < n implies match pre.slots[m] {
                Some(v) => #[trigger] outs@[m] == v,
                None => may_resolve(&pre.children[m], now, Ok(outs@[m])),
            } by {
                assert(pre.child_step(full, m, now));
                assert(full.slots[m] is Some);
            }
            assert(pre.yields(now, outs@));
        }
        Poll::Ready(Ok(outs))
    }
}

/// The requests of the first `n` children depend on those children and
/// their slots alone.
pub proof fn lemma_joint_prefix<K: TaskUnit>(a: JoinView<K>, b: JoinView<K>, n: nat)
    requires
        forall|j: int| 0 <= j < n ==> (#[trigger] a.children[j]) == b.children[j],
        forall|j: int| 0 <= j < n ==> (#[trigger] a.slots[j]) == b.slots[j],
    ensures
        a.joint_interest(n) == b.joint_interest(n),
    decreases n,
{
    if n > 0 {
        lemma_joint_prefix(a, b, (n - 1) as nat);
        assert(a.children[n - 1] == b.children[n - 1]);
        assert(a.slots[n - 1] == b.slots[n - 1]);
    }
}

/// A child that was polled on the way to `post` without failing the join
/// may do something other than fail.
pub proof fn lemma_step_passes<K: TaskUnit>(pre: JoinView<K>, post: JoinView<K>, j: int, now: u64)
    requires
        pre.slots[j] is None,
        pre.child_step(post, j, now),
    ensures
        passes(&pre.children[j], now),
{
    match post.slots[j] {
        Some(v) => {
            assert(may_resolve(&pre.children[j], now, Ok::<K::Output, TaskError>(v)));
        },
        None => {
            assert(pre.children[j].suspends(now, &post.children[j]));
        },
    }
}

/// No more slots are filled than there are.
pub proof fn lemma_filled_bound<T>(slots: Seq<Option<T>>)
    ensures
        filled(slots) <= slots.len(),
    decreases slots.len(),
{
    if slots.len() > 0 {
        lemma_filled_bound(slots.drop_last());
    }
}

/// Filling an empty slot raises the number of filled slots by one.
pub proof fn lemma_fill<T>(slots: Seq<Option<T>>, i: int, v: T)
    requires
        0 <= i < slots.len(),
        slots[i] is None,
    ensures
        filled(slots.update(i, Some(v))) == filled(slots) + 1,
    decreases slots.len(),
{
    let after = slots.update(i, Some(v));
    if i == slots.len() - 1 {
        assert(after.drop_last() =~= slots.drop_last());
    } else {
        lemma_fill(slots.drop_last(), i, v);
        assert(after.drop_last() =~= slots.drop_last().update(i, Some(v)));
    }
}

/// Filling slots, and emptying none, does not lower the number of filled
/// slots, and raises it if the slot at `k` was empty and is not any more.
pub proof fn lemma_filled_grows<T>(a: Seq<Option<T>>, b: Seq<Option<T>>, k: int)
    requires
        a.len() == b.len(),
        forall|i: int| 0 <= i < a.len() && (#[trigger] a[i]) is Some ==> b[i] is Some,
    ensures
        filled(a) <= filled(b),
        0 <= k < a.len() && a[k] is None && b[k] is Some ==> filled(a) < filled(b),
    decreases a.len(),
{
    if a.len() > 0 {
        let a0 = a.drop_last();
        let b0 = b.drop_last();
        assert forall|i: int| 0 <= i < a0.len() && (#[trigger] a0[i]) is Some implies b0[i]
            is Some by {
            assert(a0[i] == a[i] && b0[i] == b[i]);
        }
        lemma_filled_grows(a0, b0, k);
        assert(a.last() is Some ==> b.last() is Some) by {
            assert(a[a.len() - 1] == a.last());
        }
        if 0 <= k < a0.len() {
            assert(a0[k] == a[k] && b0[k] == b[k]);
        }
    }
}

/// When fewer slots are filled than there are, one of them is empty.
pub proof fn lemma_unfilled<T>(slots: Seq<Option<T>>)
    requires
        filled(slots) < slots.len(),
    ensures
        exists|i: int| 0 <= i < slots.len() && (#[trigger] slots[i]) is None,
    decreases slots.len(),
{
    if slots.last() is Some {
        lemma_unfilled(slots.drop_last());
        let i = choose|i: int|
            0 <= i < slots.drop_last().len() && (#[trigger] slots.drop_last()[i]) is None;
        assert(slots[i] is None);
    } else {
        assert(slots[slots.len() - 1] is None);
    }
}

/// When as many slots are filled as there are, none of them is empty.
pub proof fn lemma_all_filled<T>(slots: Seq<Option<T>>)
    requires
        filled(slots) >= slots.len(),
    ensures
        forall|i: int| 0 <= i < slots.len() ==> (#[trigger] slots[i]) is Some,
    decreases slots.len(),
{
    if slots.len() > 0 {
        lemma_filled_bound(slots.drop_last());
        lemma_all_filled(slots.drop_last());
        assert forall|i: int| 0 <= i < slots.len() implies (#[trigger] slots[i]) is Some by {
            if i < slots.len() - 1 {
                assert(slots.drop_last()[i] is Some);
            }
        }
    }
}

} // verus!
