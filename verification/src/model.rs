//! The executor as mathematical values: what its slots hold, how its
//! operations change them, and what makes an execution order valid.

use vstd::prelude::*;
use crate::borrows::BorrowsView;
use crate::system::SlotView;

verus! {

/// The state of an executor.
///
/// `slots` is the arena, `handles` finds the slot of a handle, `free` is the
/// stack of vacant slots (the last one is reused first), and `schedule` is the
/// cached order, which counts only while `dirty` is false.
pub struct ExecutorView<S> {
    pub slots: Seq<Option<SlotView<S>>>,
    pub handles: Map<u64, usize>,
    pub free: Seq<usize>,
    pub schedule: Seq<usize>,
    pub dirty: bool,
}

impl<S> ExecutorView<S> {
    /// A new executor: nothing registered, no order cached.
    pub open spec fn empty() -> ExecutorView<S> {
        ExecutorView {
            slots: Seq::empty(),
            handles: Map::empty(),
            free: Seq::empty(),
            schedule: Seq::empty(),
            dirty: true,
        }
    }

    /// Slot `i` exists and holds a system.
    pub open spec fn occupied(self, i: int) -> bool {
        0 <= i < self.slots.len() && self.slots[i] is Some
    }

    /// A system is registered under `handle`.
    pub open spec fn contains(self, handle: u64) -> bool {
        self.handles.contains_key(handle)
    }

    /// What slot `i` holds. Meaningful where the slot is occupied.
    pub open spec fn slot(self, i: int) -> SlotView<S> {
        self.slots[i].unwrap()
    }

    /// What is registered under `handle`. Meaningful where the handle is known.
    pub open spec fn system_of(self, handle: u64) -> SlotView<S> {
        self.slot(self.handles[handle] as int)
    }

    /// The system in slot `x` names, among its dependencies, the handle under
    /// which the system in slot `y` is registered. A dependency on a handle
    /// that nothing is registered under gives no edge.
    pub open spec fn depends_on(self, x: int, y: int) -> bool {
        &&& self.occupied(x)
        &&& exists|j: int|
            0 <= j < self.slot(x).dependencies.len() && self.handles.contains_key(
                #[trigger] self.slot(x).dependencies[j],
            ) && self.handles[self.slot(x).dependencies[j]] == y
    }

    /// `order` lists every occupied slot once, and nothing else.
    pub open spec fn complete_order(self, order: Seq<usize>) -> bool {
        &&& order.no_duplicates()
        &&& forall|i: usize| #[trigger] order.contains(i) <==> self.occupied(i as int)
    }

    /// `order` lists every occupied slot once, and each system after all the
    /// systems it depends on.
    pub open spec fn valid_order(self, order: Seq<usize>) -> bool {
        &&& order.no_duplicates()
        &&& forall|i: usize| #[trigger] order.contains(i) <==> self.occupied(i as int)
        &&& forall|p: int, q: int|
            0 <= p < order.len() && 0 <= q < order.len() && #[trigger] self.depends_on(
                order[p] as int,
                order[q] as int,
            ) ==> q < p
    }

    /// Some order is valid: the dependencies hold no cycle.
    pub open spec fn orderable(self) -> bool {
        exists|order: Seq<usize>| self.valid_order(order)
    }

    /// The system in slot `x` waits for a system that is not among the first
    /// `orderly` of `order`.
    pub open spec fn waits(self, order: Seq<usize>, orderly: int, x: int) -> bool {
        exists|y: int| #[trigger]
            self.depends_on(x, y) && !(exists|q: int|
                0 <= q < orderly && #[trigger] order[q] == y)
    }

    /// The first `orderly` systems of `order` stand each after all the systems
    /// it depends on. Each of the others waits for a system that is not among
    /// those, and they stand in the order of their slots.
    pub open spec fn settled_at(self, order: Seq<usize>, orderly: int) -> bool {
        &&& 0 <= orderly <= order.len()
        &&& forall|p: int, y: int|
            0 <= p < orderly && #[trigger] self.depends_on(order[p] as int, y) ==> exists|q: int|
                0 <= q < p && #[trigger] order[q] == y
        &&& forall|p: int|
            orderly <= p < order.len() ==> #[trigger] self.waits(order, orderly, order[p] as int)
        &&& forall|p: int, q: int|
            orderly <= p < q < order.len() ==> #[trigger] order[p] < #[trigger] order[q]
    }

    /// `order` begins with systems that stand each after all it depends on,
    /// and goes on, in the order of their slots, with systems that cannot
    /// stand so: those on a cycle of dependencies, and those that wait for
    /// them.
    pub open spec fn settled_order(self, order: Seq<usize>) -> bool {
        exists|orderly: int| self.settled_at(order, orderly)
    }

    /// What a plan owes: `order` lists every occupied slot once; where the
    /// dependencies hold no cycle it lists each system after all the systems
    /// it depends on; and where they hold one, the systems that cannot be
    /// ordered come last, in the order of their slots.
    pub open spec fn planned_order(self, order: Seq<usize>) -> bool {
        &&& self.complete_order(order)
        &&& self.orderable() ==> self.valid_order(order)
        &&& self.settled_order(order)
    }

    /// The arena fits the machine, the handle index and the slots agree, the
    /// free stack lists exactly the vacant slots, and a clean executor holds
    /// the order that a plan owes.
    pub open spec fn wf(self) -> bool {
        &&& self.slots.len() <= usize::MAX
        &&& forall|h: u64| #[trigger]
            self.handles.contains_key(h) ==> self.occupied(self.handles[h] as int)
                && self.system_of(h).handle == Some(h)
        &&& forall|i: int| #[trigger]
            self.occupied(i) && self.slot(i).handle is Some ==> self.handles.contains_key(
                self.slot(i).handle.unwrap(),
            ) && self.handles[self.slot(i).handle.unwrap()] == i
        &&& self.free.no_duplicates()
        &&& forall|j: int|
            0 <= j < self.free.len() ==> (#[trigger] self.free[j]) < self.slots.len()
                && self.slots[self.free[j] as int] is None
        &&& forall|i: usize|
            i < self.slots.len() && self.slots[i as int] is None ==> #[trigger] self.free.contains(
                i,
            )
        &&& !self.dirty ==> self.planned_order(self.schedule)
    }

    /// The slot that a registration under `handle` goes to: the slot of the
    /// handle where it is known, else the vacant slot freed last, else a new
    /// slot at the end.
    pub open spec fn target(self, handle: Option<u64>) -> usize {
        if handle is Some && self.contains(handle.unwrap()) {
            self.handles[handle.unwrap()]
        } else if self.free.len() > 0 {
            self.free.last()
        } else {
            self.slots.len() as usize
        }
    }

    /// The system that a registration under `handle` displaces, if any.
    pub open spec fn displaced(self, handle: Option<u64>) -> Option<S> {
        if handle is Some && self.contains(handle.unwrap()) {
            Some(self.system_of(handle.unwrap()).system)
        } else {
            None
        }
    }

    /// The state after a registration. The new system is active. The cached
    /// order goes stale.
    pub open spec fn add(
        self,
        handle: Option<u64>,
        dependencies: Seq<u64>,
        system: S,
        borrows: BorrowsView,
    ) -> ExecutorView<S> {
        let slot = Some(SlotView { system, handle, active: true, dependencies, borrows });
        let target = self.target(handle);
        if handle is Some && self.contains(handle.unwrap()) {
            ExecutorView { slots: self.slots.update(target as int, slot), dirty: true, ..self }
        } else {
            let handles = if handle is Some {
                self.handles.insert(handle.unwrap(), target)
            } else {
                self.handles
            };
            if self.free.len() > 0 {
                ExecutorView {
                    slots: self.slots.update(target as int, slot),
                    handles,
                    free: self.free.drop_last(),
                    dirty: true,
                    ..self
                }
            } else {
                ExecutorView { slots: self.slots.push(slot), handles, dirty: true, ..self }
            }
        }
    }

    /// The state after the system under `handle` is removed. Its slot becomes
    /// the next one to be reused. The cached order goes stale either way.
    pub open spec fn remove(self, handle: u64) -> ExecutorView<S> {
        if self.contains(handle) {
            ExecutorView {
                slots: self.slots.update(self.handles[handle] as int, None),
                handles: self.handles.remove(handle),
                free: self.free.push(self.handles[handle]),
                dirty: true,
                ..self
            }
        } else {
            ExecutorView { dirty: true, ..self }
        }
    }

    /// The state after the system under `handle` is switched on or off.
    pub open spec fn set_active(self, handle: u64, active: bool) -> ExecutorView<S> {
        ExecutorView {
            slots: self.slots.update(
                self.handles[handle] as int,
                Some(SlotView { active, ..self.system_of(handle) }),
            ),
            ..self
        }
    }

    /// The state after the body under `handle` is replaced by `system`.
    pub open spec fn with_system(self, handle: u64, system: S) -> ExecutorView<S> {
        ExecutorView {
            slots: self.slots.update(
                self.handles[handle] as int,
                Some(SlotView { system, ..self.system_of(handle) }),
            ),
            ..self
        }
    }

    /// `after` is `self` in every slot but the one of `handle`, where the body
    /// is `system`.
    pub open spec fn is_with_system(self, after: ExecutorView<S>, handle: u64, system: S) -> bool {
        &&& after.handles == self.handles
        &&& after.free == self.free
        &&& after.schedule == self.schedule
        &&& after.dirty == self.dirty
        &&& after.slots.len() == self.slots.len()
        &&& forall|i: int|
            0 <= i < self.slots.len() ==> #[trigger] after.slots[i] == (if i
                == self.handles[handle] {
                Some(SlotView { system, ..self.system_of(handle) })
            } else {
                self.slots[i]
            })
    }

    /// The system in slot `i` takes part in a tick.
    pub open spec fn runs(self, i: usize) -> bool {
        self.occupied(i as int) && self.slot(i as int).active
    }

    /// The slots whose bodies a tick invokes, in the order of invocation: the
    /// cached order without the inactive systems.
    pub open spec fn dispatch_order(self) -> Seq<usize> {
        self.schedule.filter(|i: usize| self.runs(i))
    }

    /// The systems in slots `x` and `y` are different systems, neither depends
    /// on the other, and their footprints do not conflict: they may run at the
    /// same time.
    pub open spec fn independent(self, x: int, y: int) -> bool {
        &&& self.occupied(x)
        &&& self.occupied(y)
        &&& x != y
        &&& !self.depends_on(x, y)
        &&& !self.depends_on(y, x)
        &&& !self.slot(x).borrows.conflicts(self.slot(y).borrows)
    }

    /// `self` is what a tick may leave of `before`: the same registrations in
    /// the same slots, and the bodies of inactive systems untouched.
    pub open spec fn after_tick_of(self, before: ExecutorView<S>) -> bool {
        &&& self.slots.len() == before.slots.len()
        &&& self.handles == before.handles
        &&& self.free == before.free
        &&& forall|i: int|
            0 <= i < self.slots.len() ==> (#[trigger] self.slots[i] is Some)
                == (before.slots[i] is Some)
        &&& forall|i: int| #[trigger]
            self.occupied(i) ==> self.slot(i).same_registration(before.slot(i)) && (
            !before.slot(i).active ==> self.slot(i).system == before.slot(i).system)
    }
}

/// Two filters that agree on every element of a sequence keep the same
/// elements of it.
pub proof fn lemma_filter_agrees<A>(s: Seq<A>, p: spec_fn(A) -> bool, q: spec_fn(A) -> bool)
    requires
        forall|i: int| 0 <= i < s.len() ==> p(#[trigger] s[i]) == q(s[i]),
    ensures
        s.filter(p) == s.filter(q),
    decreases s.len(),
{
    reveal(Seq::filter);
    if s.len() > 0 {
        lemma_filter_agrees(s.drop_last(), p, q);
        assert(p(s[s.len() - 1]) == q(s[s.len() - 1]));
    }
}

/// A tick does not change which systems the next tick invokes, nor their
/// order.
pub proof fn lemma_dispatch_order_by_registrations<S>(
    before: ExecutorView<S>,
    after: ExecutorView<S>,
)
    requires
        after.after_tick_of(before),
        after.schedule == before.schedule,
    ensures
        after.dispatch_order() == before.dispatch_order(),
{
    assert forall|i: usize| before.runs(i) == after.runs(i) by {
        if 0 <= i < after.slots.len() {
            assert((after.slots[i as int] is Some) == (before.slots[i as int] is Some));
            if after.occupied(i as int) {
                assert(after.slot(i as int).same_registration(before.slot(i as int)));
            }
        }
    }
    lemma_filter_agrees(before.schedule, |i: usize| before.runs(i), |i: usize| after.runs(i));
}

/// A registration keeps the state well formed.
pub proof fn lemma_add_keeps_wf<S>(
    before: ExecutorView<S>,
    handle: Option<u64>,
    dependencies: Seq<u64>,
    system: S,
    borrows: BorrowsView,
)
    requires
        before.wf(),
        before.add(handle, dependencies, system, borrows).slots.len() <= usize::MAX,
    ensures
        before.add(handle, dependencies, system, borrows).wf(),
        before.add(handle, dependencies, system, borrows).occupied(before.target(handle) as int),
        before.add(handle, dependencies, system, borrows).slot(before.target(handle) as int) == (
        SlotView { system, handle, active: true, dependencies, borrows }),
{
    let after = before.add(handle, dependencies, system, borrows);
    let target = before.target(handle);
    let replaces = handle is Some && before.contains(handle.unwrap());
    let reuses = !replaces && before.free.len() > 0;
    if replaces {
        assert(before.occupied(target as int));
    }
    if reuses {
        assert(before.free[before.free.len() - 1] == target);
        assert(before.slots[target as int] is None);
    }
    assert(after.occupied(target as int));
    assert forall|i: int| i != target && before.occupied(i) implies after.occupied(i)
        && after.slot(i) == before.slot(i) by {}
    assert forall|i: int| i != target && after.occupied(i) implies before.occupied(i)
        && after.slot(i) == before.slot(i) by {}
    assert forall|h: u64| #[trigger] after.handles.contains_key(h) implies after.occupied(
        after.handles[h] as int,
    ) && after.system_of(h).handle == Some(h) by {
        if handle != Some(h) {
            assert(before.handles.contains_key(h));
            let i = before.handles[h];
            assert(before.occupied(i as int));
            assert(before.system_of(h).handle == Some(h));
            if replaces {
                assert(before.system_of(handle.unwrap()).handle == handle);
            }
            assert(i != target);
            assert(after.handles[h] == i);
        }
    }
    assert forall|i: int| #[trigger]
        after.occupied(i) && after.slot(i).handle is Some implies after.handles.contains_key(
        after.slot(i).handle.unwrap(),
    ) && after.handles[after.slot(i).handle.unwrap()] == i by {
        if i != target {
            assert(before.occupied(i));
            let h = before.slot(i).handle.unwrap();
            assert(before.handles.contains_key(h));
            if handle == Some(h) {
                assert(replaces);
            }
        }
    }
    assert(after.free.no_duplicates());
    assert forall|j: int| 0 <= j < after.free.len() implies (#[trigger] after.free[j])
        < after.slots.len() && after.slots[after.free[j] as int] is None by {
        assert(before.free[j] == after.free[j]);
        assert(before.slots[before.free[j] as int] is None);
    }
    assert forall|i: usize|
        i < after.slots.len() && after.slots[i as int] is None implies #[trigger]
        after.free.contains(i) by {
        assert(i != target);
        assert(before.slots[i as int] is None);
        assert(before.free.contains(i));
        let j = choose|j: int| 0 <= j < before.free.len() && before.free[j] == i;
        if reuses {
            assert(j != before.free.len() - 1);
        }
        assert(after.free[j] == i);
    }
}

/// A removal keeps the state well formed, and leaves nothing under the handle.
pub proof fn lemma_remove_keeps_wf<S>(before: ExecutorView<S>, handle: u64)
    requires
        before.wf(),
    ensures
        before.remove(handle).wf(),
        !before.remove(handle).contains(handle),
{
    let after = before.remove(handle);
    if before.contains(handle) {
        let target = before.handles[handle];
        assert(before.occupied(target as int));
        assert(before.system_of(handle).handle == Some(handle));
        assert forall|i: int| after.occupied(i) implies i != target && before.occupied(i)
            && after.slot(i) == before.slot(i) by {}
        assert forall|h: u64| #[trigger] after.handles.contains_key(h) implies after.occupied(
            after.handles[h] as int,
        ) && after.system_of(h).handle == Some(h) by {
            assert(before.handles.contains_key(h));
            assert(before.occupied(before.handles[h] as int));
            assert(before.system_of(h).handle == Some(h));
            assert(before.handles[h] != target);
        }
        assert forall|i: int| #[trigger]
            after.occupied(i) && after.slot(i).handle is Some implies after.handles.contains_key(
            after.slot(i).handle.unwrap(),
        ) && after.handles[after.slot(i).handle.unwrap()] == i by {
            assert(before.occupied(i));
        }
        assert forall|j: int| 0 <= j < before.free.len() implies before.free[j] != target by {
            assert(before.slots[before.free[j] as int] is None);
        }
        assert(after.free.no_duplicates());
        assert forall|i: usize|
            i < after.slots.len() && after.slots[i as int] is None implies #[trigger]
            after.free.contains(i) by {
            if i == target {
                assert(after.free[after.free.len() - 1] == i);
            } else {
                assert(before.free.contains(i));
                let j = choose|j: int| 0 <= j < before.free.len() && before.free[j] == i;
                assert(after.free[j] == i);
            }
        }
    } else {
        assert forall|i: int| after.occupied(i) == before.occupied(i) by {}
        assert forall|i: int| #[trigger]
            after.occupied(i) && after.slot(i).handle is Some implies after.handles.contains_key(
            after.slot(i).handle.unwrap(),
        ) && after.handles[after.slot(i).handle.unwrap()] == i by {
            assert(before.occupied(i));
        }
        assert forall|h: u64| #[trigger] after.handles.contains_key(h) implies after.occupied(
            after.handles[h] as int,
        ) && after.system_of(h).handle == Some(h) by {
            assert(before.occupied(before.handles[h] as int));
        }
    }
}

/// A state that agrees with `before` slot by slot, but for the body under
/// `handle`, is `before` with that body replaced, and is well formed.
pub proof fn lemma_with_system<S>(
    before: ExecutorView<S>,
    after: ExecutorView<S>,
    handle: u64,
    system: S,
)
    requires
        before.wf(),
        before.contains(handle),
        before.is_with_system(after, handle, system),
    ensures
        after == before.with_system(handle, system),
        after.wf(),
{
    assert(before.occupied(before.handles[handle] as int));
    assert(after.slots =~= before.with_system(handle, system).slots);
    lemma_same_registrations_keep_wf(before, after);
}

/// The order that a plan owes makes a well-formed state clean.
pub proof fn lemma_new_order_keeps_wf<S>(before: ExecutorView<S>, order: Seq<usize>)
    requires
        before.wf(),
        before.planned_order(order),
    ensures
        (ExecutorView { schedule: order, dirty: false, ..before }).wf(),
        (ExecutorView { schedule: order, dirty: false, ..before }).orderable()
            == before.orderable(),
{
    let after = ExecutorView { schedule: order, dirty: false, ..before };
    assert forall|x: int, y: int| before.depends_on(x, y) == after.depends_on(x, y) by {}
    assert forall|i: int| before.occupied(i) == after.occupied(i) by {}
    lemma_planned_order_by_edges(before, after, order);
    assert forall|i: int| #[trigger]
        after.occupied(i) && after.slot(i).handle is Some implies after.handles.contains_key(
        after.slot(i).handle.unwrap(),
    ) && after.handles[after.slot(i).handle.unwrap()] == i by {
        assert(before.occupied(i));
    }
    assert forall|h: u64| #[trigger] after.handles.contains_key(h) implies after.occupied(
        after.handles[h] as int,
    ) && after.system_of(h).handle == Some(h) by {
        assert(before.occupied(before.handles[h] as int));
    }
}

/// A state that differs from a well-formed one only in the bodies and the
/// activity of its systems is well formed too.
pub proof fn lemma_same_registrations_keep_wf<S>(before: ExecutorView<S>, after: ExecutorView<S>)
    requires
        before.wf(),
        after.handles == before.handles,
        after.free == before.free,
        after.schedule == before.schedule,
        after.dirty == before.dirty,
        after.slots.len() == before.slots.len(),
        forall|i: int|
            0 <= i < after.slots.len() ==> (#[trigger] after.slots[i] is Some) == (
            before.slots[i] is Some),
        forall|i: int| #[trigger]
            after.occupied(i) ==> after.slot(i).handle == before.slot(i).handle && after.slot(
                i,
            ).dependencies == before.slot(i).dependencies,
    ensures
        after.wf(),
        forall|order: Seq<usize>| before.valid_order(order) == after.valid_order(order),
        forall|order: Seq<usize>| before.planned_order(order) == after.planned_order(order),
        before.orderable() == after.orderable(),
{
    assert forall|x: int, y: int| before.depends_on(x, y) == after.depends_on(x, y) by {
        if before.occupied(x) {
            assert(after.occupied(x));
            assert(after.slots[x] is Some);
        }
    }
    assert forall|i: int| before.occupied(i) == after.occupied(i) by {
        if 0 <= i < after.slots.len() {
            assert((after.slots[i] is Some) == (before.slots[i] is Some));
        }
    }
    assert forall|order: Seq<usize>| before.valid_order(order) == after.valid_order(order) by {
        lemma_valid_order_by_edges(before, after, order);
    }
    assert forall|order: Seq<usize>| before.planned_order(order) == after.planned_order(order) by {
        lemma_planned_order_by_edges(before, after, order);
    }
    lemma_planned_order_by_edges(before, after, before.schedule);
    assert forall|h: u64| #[trigger] after.handles.contains_key(h) implies after.occupied(
        after.handles[h] as int,
    ) && after.system_of(h).handle == Some(h) by {
        assert(before.occupied(before.handles[h] as int));
    }
    assert forall|i: int| #[trigger]
        after.occupied(i) && after.slot(i).handle is Some implies after.handles.contains_key(
        after.slot(i).handle.unwrap(),
    ) && after.handles[after.slot(i).handle.unwrap()] == i by {
        assert(before.occupied(i));
    }
    assert forall|j: int| 0 <= j < after.free.len() implies (#[trigger] after.free[j])
        < after.slots.len() && after.slots[after.free[j] as int] is None by {
        assert(before.free[j] < before.slots.len());
        assert((after.slots[after.free[j] as int] is Some) == (before.slots[before.free[j] as int]
            is Some));
    }
    assert forall|i: usize|
        i < after.slots.len() && after.slots[i as int] is None implies #[trigger]
        after.free.contains(i) by {
        assert((after.slots[i as int] is Some) == (before.slots[i as int] is Some));
        assert(before.free.contains(i));
    }
}

/// Two states with the same occupied slots and the same edges accept the same
/// orders.
proof fn lemma_valid_order_by_edges<S>(
    a: ExecutorView<S>,
    b: ExecutorView<S>,
    order: Seq<usize>,
)
    requires
        forall|i: int| a.occupied(i) == b.occupied(i),
        forall|x: int, y: int| a.depends_on(x, y) == b.depends_on(x, y),
    ensures
        a.valid_order(order) == b.valid_order(order),
{
    if a.valid_order(order) {
        assert forall|i: usize| #[trigger] order.contains(i) <==> b.occupied(i as int) by {
            assert(a.occupied(i as int) == b.occupied(i as int));
        }
        assert forall|p: int, q: int|
            0 <= p < order.len() && 0 <= q < order.len() && #[trigger] b.depends_on(
                order[p] as int,
                order[q] as int,
            ) implies q < p by {
            assert(a.depends_on(order[p] as int, order[q] as int));
        }
    }
    if b.valid_order(order) {
        assert forall|i: usize| #[trigger] order.contains(i) <==> a.occupied(i as int) by {
            assert(a.occupied(i as int) == b.occupied(i as int));
        }
        assert forall|p: int, q: int|
            0 <= p < order.len() && 0 <= q < order.len() && #[trigger] a.depends_on(
                order[p] as int,
                order[q] as int,
            ) implies q < p by {
            assert(b.depends_on(order[p] as int, order[q] as int));
        }
    }
}

/// Two states with the same occupied slots and the same edges ask the same of
/// a plan, and can be ordered or not alike.
proof fn lemma_planned_order_by_edges<S>(
    a: ExecutorView<S>,
    b: ExecutorView<S>,
    order: Seq<usize>,
)
    requires
        forall|i: int| a.occupied(i) == b.occupied(i),
        forall|x: int, y: int| a.depends_on(x, y) == b.depends_on(x, y),
    ensures
        a.planned_order(order) == b.planned_order(order),
        a.orderable() == b.orderable(),
{
    lemma_valid_order_by_edges(a, b, order);
    if a.orderable() {
        let valid = choose|valid: Seq<usize>| a.valid_order(valid);
        lemma_valid_order_by_edges(a, b, valid);
    }
    if b.orderable() {
        let valid = choose|valid: Seq<usize>| b.valid_order(valid);
        lemma_valid_order_by_edges(a, b, valid);
    }
    assert forall|i: usize| a.occupied(i as int) == b.occupied(i as int) by {}
    if a.settled_order(order) {
        let orderly = choose|orderly: int| a.settled_at(order, orderly);
        lemma_settled_by_edges(a, b, order, orderly);
    }
    if b.settled_order(order) {
        let orderly = choose|orderly: int| b.settled_at(order, orderly);
        lemma_settled_by_edges(b, a, order, orderly);
    }
}

/// Two states with the same edges settle the same orders at the same place.
proof fn lemma_settled_by_edges<S>(
    a: ExecutorView<S>,
    b: ExecutorView<S>,
    order: Seq<usize>,
    orderly: int,
)
    requires
        forall|x: int, y: int| a.depends_on(x, y) == b.depends_on(x, y),
        a.settled_at(order, orderly),
    ensures
        b.settled_at(order, orderly),
{
    assert forall|p: int, y: int|
        0 <= p < orderly && #[trigger] b.depends_on(order[p] as int, y) implies exists|q: int|
        0 <= q < p && #[trigger] order[q] == y by {
        assert(a.depends_on(order[p] as int, y));
    }
    assert forall|p: int| orderly <= p < order.len() implies #[trigger] b.waits(
        order,
        orderly,
        order[p] as int,
    ) by {
        assert(a.waits(order, orderly, order[p] as int));
        let y = choose|y: int| #[trigger]
            a.depends_on(order[p] as int, y) && !(exists|q: int|
                0 <= q < orderly && #[trigger] order[q] == y);
        assert(b.depends_on(order[p] as int, y));
    }
}

} // verus!
