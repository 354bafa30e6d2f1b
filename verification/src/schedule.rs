//! Why the planner is right: what it keeps true while it places systems, and
//! why a planner that can place no more has either placed all or met a cycle.

use vstd::prelude::*;
use crate::model::ExecutorView;

verus! {

impl<S> ExecutorView<S> {
    /// Every system that the system in slot `x` depends on is placed.
    pub open spec fn ready(self, x: int, placed: Seq<bool>) -> bool {
        forall|y: int| #[trigger] self.depends_on(x, y) ==> 0 <= y < placed.len() && placed[y]
    }

    /// `order` is the beginning of a valid order: it holds the placed slots,
    /// each once and each after the systems it depends on.
    pub open spec fn partial_order(self, order: Seq<usize>, placed: Seq<bool>) -> bool {
        &&& placed.len() == self.slots.len()
        &&& order.no_duplicates()
        &&& forall|p: int|
            0 <= p < order.len() ==> self.occupied(#[trigger] order[p] as int)
                && placed[order[p] as int]
        &&& forall|i: int|
            0 <= i < placed.len() && #[trigger] placed[i] ==> order.contains(i as usize)
        &&& forall|p: int, y: int|
            0 <= p < order.len() && #[trigger] self.depends_on(order[p] as int, y) ==> exists|
                q: int,
            |
                0 <= q < p && #[trigger] order[q] == y
    }

    /// `order` holds the placed slots, each once.
    pub open spec fn listing(self, order: Seq<usize>, placed: Seq<bool>) -> bool {
        &&& placed.len() == self.slots.len()
        &&& order.no_duplicates()
        &&& forall|p: int|
            0 <= p < order.len() ==> self.occupied(#[trigger] order[p] as int)
                && placed[order[p] as int]
        &&& forall|i: int|
            0 <= i < placed.len() && #[trigger] placed[i] ==> order.contains(i as usize)
    }

    /// No system that is left can be placed: each waits for another that is
    /// left.
    pub open spec fn stuck(self, placed: Seq<bool>) -> bool {
        forall|i: int| #[trigger] self.occupied(i) && !placed[i] ==> !self.ready(i, placed)
    }
}

/// Placing a ready system extends the beginning of a valid order.
pub proof fn lemma_place<S>(
    view: ExecutorView<S>,
    order: Seq<usize>,
    placed: Seq<bool>,
    x: usize,
)
    requires
        view.partial_order(order, placed),
        view.occupied(x as int),
        !placed[x as int],
        view.ready(x as int, placed),
    ensures
        view.partial_order(order.push(x), placed.update(x as int, true)),
{
    let order2 = order.push(x);
    let placed2 = placed.update(x as int, true);
    assert(order2.no_duplicates()) by {
        assert forall|p: int| 0 <= p < order.len() implies order[p] != x by {
            assert(placed[order[p] as int]);
        }
    }
    assert forall|i: int| 0 <= i < placed2.len() && #[trigger] placed2[i] implies order2.contains(
        i as usize,
    ) by {
        if i == x {
            assert(order2[order.len() as int] == x);
        } else {
            assert(placed[i]);
            assert(order.contains(i as usize));
            let p = choose|p: int| 0 <= p < order.len() && order[p] == i as usize;
            assert(order2[p] == i as usize);
        }
    }
    assert forall|p: int, y: int|
        0 <= p < order2.len() && #[trigger] view.depends_on(order2[p] as int, y) implies exists|
        q: int,
    |
        0 <= q < p && #[trigger] order2[q] == y by {
        if p < order.len() {
            assert(view.depends_on(order[p] as int, y));
            let q = choose|q: int| 0 <= q < p && #[trigger] order[q] == y;
            assert(order2[q] == y);
        } else {
            assert(placed[y]);
            assert(order.contains(y as usize));
            let q = choose|q: int| 0 <= q < order.len() && order[q] == y as usize;
            assert(order2[q] == y);
        }
    }
}

/// Once every system is placed, the order is valid.
pub proof fn lemma_complete<S>(view: ExecutorView<S>, order: Seq<usize>, placed: Seq<bool>)
    requires
        view.slots.len() <= usize::MAX,
        view.partial_order(order, placed),
        forall|i: int| #[trigger] view.occupied(i) ==> placed[i],
    ensures
        view.valid_order(order),
{
    assert forall|i: usize| #[trigger] order.contains(i) <==> view.occupied(i as int) by {
        if order.contains(i) {
            let p = choose|p: int| 0 <= p < order.len() && order[p] == i;
            assert(view.occupied(order[p] as int));
        }
        if view.occupied(i as int) {
            assert(placed[i as int]);
        }
    }
    assert forall|p: int, q: int|
        0 <= p < order.len() && 0 <= q < order.len() && #[trigger] view.depends_on(
            order[p] as int,
            order[q] as int,
        ) implies q < p by {
        let y = order[q] as int;
        let q2 = choose|q2: int| 0 <= q2 < p && #[trigger] order[q2] == y;
        assert(q2 == q);
    }
}

/// Where the planner is stuck, it has placed the system at every position of
/// any valid order. Were the one at position `p` not placed, it would wait for
/// one that is not placed either; that one stands earlier in the valid order,
/// where all are placed.
pub proof fn lemma_stuck_has_placed<S>(
    view: ExecutorView<S>,
    placed: Seq<bool>,
    valid: Seq<usize>,
    p: int,
)
    requires
        view.wf(),
        placed.len() == view.slots.len(),
        view.stuck(placed),
        view.valid_order(valid),
        0 <= p < valid.len(),
    ensures
        placed[valid[p] as int],
    decreases p,
{
    let x = valid[p] as int;
    assert(valid.contains(valid[p]));
    assert(view.occupied(x));
    if !placed[x] {
        assert(!view.ready(x, placed));
        let y = choose|y: int| #[trigger]
            view.depends_on(x, y) && !(0 <= y < placed.len() && placed[y]);
        lemma_edge_ends_are_occupied(view, x, y);
        assert(valid.contains(y as usize));
        let q = choose|q: int| 0 <= q < valid.len() && valid[q] == y as usize;
        assert(view.depends_on(valid[p] as int, valid[q] as int));
        lemma_stuck_has_placed(view, placed, valid, q);
    }
}

/// Where some order is valid, a stuck planner has placed every system.
pub proof fn lemma_stuck_places_all<S>(view: ExecutorView<S>, order: Seq<usize>, placed: Seq<bool>)
    requires
        view.wf(),
        view.partial_order(order, placed),
        view.stuck(placed),
    ensures
        view.orderable() ==> forall|i: int| #[trigger] view.occupied(i) ==> placed[i],
{
    if view.orderable() {
        let valid = choose|valid: Seq<usize>| view.valid_order(valid);
        assert forall|i: int| #[trigger] view.occupied(i) implies placed[i] by {
            assert(valid.contains(i as usize));
            let p = choose|p: int| 0 <= p < valid.len() && valid[p] == i as usize;
            lemma_stuck_has_placed(view, placed, valid, p);
        }
    }
}

/// What the planner has placed when it is stuck is settled, with nothing
/// after the orderly part yet.
pub proof fn lemma_settled_start<S>(view: ExecutorView<S>, order: Seq<usize>, placed: Seq<bool>)
    requires
        view.partial_order(order, placed),
    ensures
        view.listing(order, placed),
        view.settled_at(order, order.len() as int),
{
}

/// Appending a system that is left, in the order of the slots, keeps the
/// order settled.
pub proof fn lemma_append<S>(
    view: ExecutorView<S>,
    order: Seq<usize>,
    placed: Seq<bool>,
    orderly: Seq<usize>,
    orderly_placed: Seq<bool>,
    x: usize,
)
    requires
        view.wf(),
        view.partial_order(orderly, orderly_placed),
        view.stuck(orderly_placed),
        view.orderable() ==> forall|i: int| #[trigger] view.occupied(i) ==> orderly_placed[i],
        view.listing(order, placed),
        view.settled_at(order, orderly.len() as int),
        order.take(orderly.len() as int) == orderly,
        forall|p: int| orderly.len() <= p < order.len() ==> (#[trigger] order[p]) < x,
        view.occupied(x as int),
        !placed[x as int],
        placed[x as int] == orderly_placed[x as int],
    ensures
        !view.orderable(),
        view.listing(order.push(x), placed.update(x as int, true)),
        view.settled_at(order.push(x), orderly.len() as int),
        order.push(x).take(orderly.len() as int) == orderly,
{
    let longer = order.push(x);
    let marked = placed.update(x as int, true);
    let start = orderly.len() as int;
    assert(longer.take(start) =~= order.take(start));
    assert(longer.no_duplicates()) by {
        assert forall|p: int| 0 <= p < order.len() implies order[p] != x by {
            assert(placed[order[p] as int]);
        }
    }
    assert forall|i: int| 0 <= i < marked.len() && #[trigger] marked[i] implies longer.contains(
        i as usize,
    ) by {
        if i == x {
            assert(longer[order.len() as int] == x);
        } else {
            assert(placed[i]);
            assert(order.contains(i as usize));
            let p = choose|p: int| 0 <= p < order.len() && order[p] == i as usize;
            assert(longer[p] == i as usize);
        }
    }
    assert forall|p: int, y: int|
        0 <= p < start && #[trigger] view.depends_on(longer[p] as int, y) implies exists|q: int|
        0 <= q < p && #[trigger] longer[q] == y by {
        assert(view.depends_on(order[p] as int, y));
        let q = choose|q: int| 0 <= q < p && #[trigger] order[q] == y;
        assert(longer[q] == y);
    }
    assert(view.waits(longer, start, x as int)) by {
        assert(!view.ready(x as int, orderly_placed));
        let y = choose|y: int| #[trigger]
            view.depends_on(x as int, y) && !(0 <= y < orderly_placed.len() && orderly_placed[y]);
        lemma_edge_ends_are_occupied(view, x as int, y);
        assert(!orderly_placed[y]);
        assert forall|q: int| 0 <= q < start implies #[trigger] longer[q] != y by {
            assert(longer[q] == orderly[q]);
            assert(orderly_placed[orderly[q] as int]);
        }
    }
    assert forall|p: int| start <= p < longer.len() implies #[trigger] view.waits(
        longer,
        start,
        longer[p] as int,
    ) by {
        if p < order.len() {
            assert(view.waits(order, start, order[p] as int));
            let y = choose|y: int| #[trigger]
                view.depends_on(order[p] as int, y) && !(exists|q: int|
                    0 <= q < start && #[trigger] order[q] == y);
            assert forall|q: int| 0 <= q < start implies #[trigger] longer[q] != y by {
                assert(longer[q] == order[q]);
            }
        }
    }
}

/// When every system stands in the order, the plan is done.
pub proof fn lemma_plan_done<S>(
    view: ExecutorView<S>,
    order: Seq<usize>,
    placed: Seq<bool>,
    orderly: Seq<usize>,
    orderly_placed: Seq<bool>,
)
    requires
        view.slots.len() <= usize::MAX,
        view.listing(order, placed),
        forall|i: int| #[trigger] view.occupied(i) ==> placed[i],
        view.settled_at(order, orderly.len() as int),
        view.partial_order(orderly, orderly_placed),
        view.orderable() ==> order == orderly,
        view.orderable() ==> forall|i: int| #[trigger] view.occupied(i) ==> orderly_placed[i],
    ensures
        view.planned_order(order),
{
    assert forall|i: usize| #[trigger] order.contains(i) <==> view.occupied(i as int) by {
        if order.contains(i) {
            let p = choose|p: int| 0 <= p < order.len() && order[p] == i;
            assert(view.occupied(order[p] as int));
        }
        if view.occupied(i as int) {
            assert(placed[i as int]);
        }
    }
    if view.orderable() {
        lemma_complete(view, orderly, orderly_placed);
    }
}

/// Both ends of a dependency edge are occupied slots.
pub proof fn lemma_edge_ends_are_occupied<S>(view: ExecutorView<S>, x: int, y: int)
    requires
        view.wf(),
        view.depends_on(x, y),
    ensures
        view.occupied(x),
        view.occupied(y),
{
    let j = choose|j: int|
        0 <= j < view.slot(x).dependencies.len() && view.handles.contains_key(
            #[trigger] view.slot(x).dependencies[j],
        ) && view.handles[view.slot(x).dependencies[j]] == y;
    assert(view.handles.contains_key(view.slot(x).dependencies[j]));
}

} // verus!
