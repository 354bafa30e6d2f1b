//! What holds of the library as a whole, stated over the mathematical values
//! that the contracts of its functions speak of.

use vstd::prelude::*;
use crate::borrows::{kind_conflicts, kind_touched, BorrowsView, TypeKey};
use crate::model::{lemma_add_keeps_wf, lemma_remove_keeps_wf, ExecutorView};
use crate::schedule::lemma_edge_ends_are_occupied;
use crate::system::SlotView;

verus! {

/// The conflict rule does not depend on the order of its arguments.
pub proof fn lemma_conflicts_is_symmetric(a: BorrowsView, b: BorrowsView)
    ensures
        a.conflicts(b) == b.conflicts(a),
{
}

/// A system that declares nothing conflicts with no system.
pub proof fn lemma_empty_conflicts_with_nothing(a: BorrowsView, b: BorrowsView)
    requires
        a.is_empty(),
    ensures
        !a.conflicts(b),
{
}

/// A writer of a resource conflicts with every system that reads or writes
/// that resource, and a writer of a component with every system that reads or
/// writes that component.
pub proof fn lemma_writer_conflicts_with_every_access(a: BorrowsView, b: BorrowsView, key: TypeKey)
    ensures
        a.resources_mutable.contains(key) && b.accesses_resource(key) ==> a.conflicts(b),
        a.components_mutable.contains(key) && b.accesses_component(key) ==> a.conflicts(b),
{
}

/// Two footprints that only read, and reach nothing dynamically, never
/// conflict.
pub proof fn lemma_readers_do_not_conflict(a: BorrowsView, b: BorrowsView)
    requires
        a.resources_mutable == Set::<TypeKey>::empty(),
        a.components_mutable == Set::<TypeKey>::empty(),
        b.resources_mutable == Set::<TypeKey>::empty(),
        b.components_mutable == Set::<TypeKey>::empty(),
        !a.touches_all_resources,
        !a.touches_all_components,
        !b.touches_all_resources,
        !b.touches_all_components,
    ensures
        !a.conflicts(b),
{
}

/// Footprints that do not conflict share no written type: whatever one of them
/// may write, the other neither reads nor writes. Systems with such footprints
/// cannot race on a resource or a component, however their bodies interleave.
pub proof fn lemma_no_conflict_means_no_shared_write(a: BorrowsView, b: BorrowsView)
    requires
        !a.conflicts(b),
    ensures
        forall|key: TypeKey|
            !(#[trigger] a.writes_resource(key) && b.accesses_resource(key)),
        forall|key: TypeKey|
            !(#[trigger] b.writes_resource(key) && a.accesses_resource(key)),
        forall|key: TypeKey|
            !(#[trigger] a.writes_component(key) && b.accesses_component(key)),
        forall|key: TypeKey|
            !(#[trigger] b.writes_component(key) && a.accesses_component(key)),
{
}

/// One of the two footprints may write the type `key`, as a resource or as a
/// component, and the other may read or write it.
pub open spec fn shares_a_write(a: BorrowsView, b: BorrowsView, key: TypeKey) -> bool {
    ||| a.writes_resource(key) && b.accesses_resource(key)
    ||| b.writes_resource(key) && a.accesses_resource(key)
    ||| a.writes_component(key) && b.accesses_component(key)
    ||| b.writes_component(key) && a.accesses_component(key)
}

/// Two footprints conflict exactly when there is a type that one of them may
/// write and the other may read or write.
pub proof fn lemma_conflict_is_a_shared_write(a: BorrowsView, b: BorrowsView)
    ensures
        a.conflicts(b) <==> exists|key: TypeKey| shares_a_write(a, b, key),
{
    if a.conflicts(b) {
        let any = TypeKey(0);
        if a.touches_all_resources && b.touches_all_resources {
            assert(shares_a_write(a, b, any));
        } else if a.touches_all_components && b.touches_all_components {
            assert(shares_a_write(a, b, any));
        } else if a.touches_all_resources && kind_touched(
            b.touches_all_resources,
            b.resources_immutable,
            b.resources_mutable,
        ) {
            let key = choose|key: TypeKey|
                b.resources_immutable.contains(key) || b.resources_mutable.contains(key);
            assert(shares_a_write(a, b, key));
        } else if b.touches_all_resources && kind_touched(
            a.touches_all_resources,
            a.resources_immutable,
            a.resources_mutable,
        ) {
            let key = choose|key: TypeKey|
                a.resources_immutable.contains(key) || a.resources_mutable.contains(key);
            assert(shares_a_write(a, b, key));
        } else if a.touches_all_components && kind_touched(
            b.touches_all_components,
            b.components_immutable,
            b.components_mutable,
        ) {
            let key = choose|key: TypeKey|
                b.components_immutable.contains(key) || b.components_mutable.contains(key);
            assert(shares_a_write(a, b, key));
        } else if b.touches_all_components && kind_touched(
            a.touches_all_components,
            a.components_immutable,
            a.components_mutable,
        ) {
            let key = choose|key: TypeKey|
                a.components_immutable.contains(key) || a.components_mutable.contains(key);
            assert(shares_a_write(a, b, key));
        } else if kind_conflicts(
            a.touches_all_resources,
            a.resources_immutable,
            a.resources_mutable,
            b.touches_all_resources,
            b.resources_immutable,
            b.resources_mutable,
        ) {
            let key = choose|key: TypeKey|
                a.resources_mutable.contains(key) && (b.resources_mutable.contains(key)
                    || b.resources_immutable.contains(key)) || b.resources_mutable.contains(key)
                    && a.resources_immutable.contains(key);
            assert(shares_a_write(a, b, key));
        } else {
            let key = choose|key: TypeKey|
                a.components_mutable.contains(key) && (b.components_mutable.contains(key)
                    || b.components_immutable.contains(key)) || b.components_mutable.contains(
                    key,
                ) && a.components_immutable.contains(key);
            assert(shares_a_write(a, b, key));
        }
    }
    if exists|key: TypeKey| shares_a_write(a, b, key) {
        let key = choose|key: TypeKey| shares_a_write(a, b, key);
        assert(a.conflicts(b));
    }
}

/// Independent systems share no written type.
pub proof fn lemma_independent_systems_cannot_race<S>(view: ExecutorView<S>, x: int, y: int)
    requires
        view.independent(x, y),
    ensures
        forall|key: TypeKey|
            !(#[trigger] view.slot(x).borrows.writes_resource(key) && view.slot(
                y,
            ).borrows.accesses_resource(key)),
        forall|key: TypeKey|
            !(#[trigger] view.slot(y).borrows.writes_resource(key) && view.slot(
                x,
            ).borrows.accesses_resource(key)),
        forall|key: TypeKey|
            !(#[trigger] view.slot(x).borrows.writes_component(key) && view.slot(
                y,
            ).borrows.accesses_component(key)),
        forall|key: TypeKey|
            !(#[trigger] view.slot(y).borrows.writes_component(key) && view.slot(
                x,
            ).borrows.accesses_component(key)),
{
    lemma_no_conflict_means_no_shared_write(view.slot(x).borrows, view.slot(y).borrows);
}

/// `x` stands in `s` at a place before one where `y` stands.
pub open spec fn stands_before<A>(s: Seq<A>, x: A, y: A) -> bool {
    exists|i: int, j: int| 0 <= i < j < s.len() && #[trigger] s[i] == x && #[trigger] s[j] == y
}

/// What a filter keeps, it keeps in the order in which it found it.
pub proof fn lemma_filter_keeps_order<A>(s: Seq<A>, keep: spec_fn(A) -> bool)
    ensures
        forall|a: int|
            0 <= a < s.filter(keep).len() ==> s.contains(#[trigger] s.filter(keep)[a]) && keep(
                s.filter(keep)[a],
            ),
        forall|a: int, b: int|
            0 <= a < b < s.filter(keep).len() ==> #[trigger] stands_before(
                s,
                s.filter(keep)[a],
                s.filter(keep)[b],
            ),
        forall|i: int| 0 <= i < s.len() && keep(s[i]) ==> s.filter(keep).contains(#[trigger] s[i]),
    decreases s.len(),
{
    reveal(Seq::filter);
    let kept = s.filter(keep);
    if s.len() > 0 {
        let front = s.drop_last();
        let kept_front = front.filter(keep);
        let last = s.len() - 1;
        lemma_filter_keeps_order(front, keep);
        assert forall|a: int| 0 <= a < kept.len() implies s.contains(#[trigger] kept[a]) && keep(
            kept[a],
        ) by {
            if a < kept_front.len() {
                assert(front.contains(kept_front[a]));
                let i = choose|i: int| 0 <= i < front.len() && front[i] == kept_front[a];
                assert(s[i] == kept[a]);
            } else {
                assert(s[last] == kept[a]);
            }
        }
        assert forall|a: int, b: int| 0 <= a < b < kept.len() implies #[trigger] stands_before(
            s,
            kept[a],
            kept[b],
        ) by {
            if b < kept_front.len() {
                assert(stands_before(front, kept_front[a], kept_front[b]));
                let (i, j) = choose|i: int, j: int|
                    0 <= i < j < front.len() && #[trigger] front[i] == kept_front[a]
                        && #[trigger] front[j] == kept_front[b];
                assert(s[i] == kept[a] && s[j] == kept[b]);
            } else {
                assert(front.contains(kept_front[a]));
                let i = choose|i: int| 0 <= i < front.len() && front[i] == kept_front[a];
                assert(s[i] == kept[a] && s[last] == kept[b]);
            }
        }
        assert forall|i: int| 0 <= i < s.len() && keep(s[i]) implies kept.contains(
            #[trigger] s[i],
        ) by {
            if i < last {
                assert(front[i] == s[i]);
                assert(kept_front.contains(front[i]));
                let a = choose|a: int| 0 <= a < kept_front.len() && kept_front[a] == front[i];
                assert(kept[a] == s[i]);
            } else {
                assert(kept[kept.len() - 1] == s[i]);
            }
        }
    }
}

/// In a tick of a clean executor every active system is invoked once, whatever
/// the dependencies are, a cycle among them included.
pub proof fn lemma_every_active_system_runs_once<S>(view: ExecutorView<S>, i: usize)
    requires
        view.wf(),
        !view.dirty,
        view.runs(i),
    ensures
        view.dispatch_order().no_duplicates(),
        view.dispatch_order().contains(i),
{
    let order = view.schedule;
    let keep = |k: usize| view.runs(k);
    let invoked = view.dispatch_order();
    lemma_filter_keeps_order(order, keep);
    assert(order.contains(i));
    let at = choose|at: int| 0 <= at < order.len() && order[at] == i;
    assert(keep(order[at]));
    assert forall|a: int, b: int| 0 <= a < b < invoked.len() implies invoked[a] != invoked[b] by {
        assert(stands_before(order, invoked[a], invoked[b]));
    }
}

/// Where the dependencies hold no cycle, a tick of a clean executor invokes
/// every active system after every active system that it depends on.
pub proof fn lemma_dependencies_run_first<S>(view: ExecutorView<S>, x: int, y: int)
    requires
        view.wf(),
        !view.dirty,
        view.orderable(),
        view.depends_on(x, y),
        view.runs(x as usize),
        view.runs(y as usize),
    ensures
        view.dispatch_order().no_duplicates(),
        view.dispatch_order().contains(x as usize),
        view.dispatch_order().contains(y as usize),
        forall|px: int, py: int|
            0 <= px < view.dispatch_order().len() && 0 <= py < view.dispatch_order().len()
                && view.dispatch_order()[px] == x && view.dispatch_order()[py] == y ==> py < px,
{
    let order = view.schedule;
    let keep = |i: usize| view.runs(i);
    let invoked = view.dispatch_order();
    lemma_filter_keeps_order(order, keep);
    lemma_edge_ends_are_occupied(view, x, y);
    assert(order.contains(x as usize));
    assert(order.contains(y as usize));
    let ix = choose|i: int| 0 <= i < order.len() && order[i] == x as usize;
    let iy = choose|i: int| 0 <= i < order.len() && order[i] == y as usize;
    assert(keep(order[ix]) && keep(order[iy]));
    assert(invoked.contains(order[ix]));
    assert(invoked.contains(order[iy]));
    assert forall|a: int, b: int| 0 <= a < b < invoked.len() implies invoked[a] != invoked[b] by {
        assert(stands_before(order, invoked[a], invoked[b]));
    }
    assert forall|px: int, py: int|
        0 <= px < invoked.len() && 0 <= py < invoked.len() && invoked[px] == x && invoked[py]
            == y implies py < px by {
        if px < py {
            assert(stands_before(order, invoked[px], invoked[py]));
            let (i, j) = choose|i: int, j: int|
                0 <= i < j < order.len() && #[trigger] order[i] == invoked[px]
                    && #[trigger] order[j] == invoked[py];
            assert(view.depends_on(order[i] as int, order[j] as int));
        } else if px == py {
            assert(view.depends_on(order[ix] as int, order[ix] as int));
        }
    }
}

/// Even where a cycle stands among the dependencies, a system that stands in
/// the orderly part of the order is invoked after every active system that it
/// depends on.
pub proof fn lemma_orderly_systems_run_after_their_dependencies<S>(
    view: ExecutorView<S>,
    orderly: int,
    place: int,
    y: int,
)
    requires
        view.wf(),
        !view.dirty,
        view.settled_at(view.schedule, orderly),
        0 <= place < orderly,
        view.depends_on(view.schedule[place] as int, y),
        view.runs(view.schedule[place]),
        view.runs(y as usize),
    ensures
        view.dispatch_order().contains(view.schedule[place]),
        view.dispatch_order().contains(y as usize),
        forall|px: int, py: int|
            0 <= px < view.dispatch_order().len() && 0 <= py < view.dispatch_order().len()
                && view.dispatch_order()[px] == view.schedule[place] && view.dispatch_order()[py]
                == y ==> py < px,
{
    let order = view.schedule;
    let x = order[place];
    let keep = |i: usize| view.runs(i);
    let invoked = view.dispatch_order();
    lemma_filter_keeps_order(order, keep);
    let before = choose|q: int| 0 <= q < place && #[trigger] order[q] == y;
    assert(keep(order[place]) && keep(order[before]));
    assert forall|px: int, py: int|
        0 <= px < invoked.len() && 0 <= py < invoked.len() && invoked[px] == x && invoked[py]
            == y implies py < px by {
        if px < py {
            assert(stands_before(order, invoked[px], invoked[py]));
            let (i, j) = choose|i: int, j: int|
                0 <= i < j < order.len() && #[trigger] order[i] == invoked[px]
                    && #[trigger] order[j] == invoked[py];
            assert(i == place && j == before);
        } else if px == py {
            assert(order[before] == order[place]);
        }
    }
}

/// Two systems that depend on each other cannot be ordered, nor can a system
/// that depends on itself. A tick runs them all the same: see
/// `lemma_every_active_system_runs_once`.
pub proof fn lemma_mutual_dependency_is_a_cycle<S>(view: ExecutorView<S>, a: int, b: int)
    requires
        view.wf(),
        view.depends_on(a, b),
        view.depends_on(b, a),
    ensures
        !view.orderable(),
{
    if view.orderable() {
        let valid = choose|valid: Seq<usize>| view.valid_order(valid);
        lemma_edge_ends_are_occupied(view, a, b);
        assert(valid.contains(a as usize));
        assert(valid.contains(b as usize));
        let p = choose|p: int| 0 <= p < valid.len() && valid[p] == a as usize;
        let q = choose|q: int| 0 <= q < valid.len() && valid[q] == b as usize;
        assert(view.depends_on(valid[p] as int, valid[q] as int));
        assert(view.depends_on(valid[q] as int, valid[p] as int));
    }
}

/// A tick invokes no system that is switched off, and none that is not
/// registered.
pub proof fn lemma_only_active_systems_run<S>(view: ExecutorView<S>, i: usize)
    requires
        view.dispatch_order().contains(i),
    ensures
        view.runs(i),
{
    let keep = |k: usize| view.runs(k);
    lemma_filter_keeps_order(view.schedule, keep);
    let a = choose|a: int| 0 <= a < view.dispatch_order().len() && view.dispatch_order()[a] == i;
    assert(keep(view.schedule.filter(keep)[a]));
}

/// Switching a system off or on changes neither what is registered nor the
/// cached order, and the system answers with its new state.
pub proof fn lemma_switch_keeps_registration<S>(view: ExecutorView<S>, handle: u64, active: bool)
    requires
        view.wf(),
        view.contains(handle),
    ensures
        view.set_active(handle, active).contains(handle),
        view.set_active(handle, active).system_of(handle).active == active,
        view.set_active(handle, active).schedule == view.schedule,
        view.set_active(handle, active).dirty == view.dirty,
        !active ==> !view.set_active(handle, active).runs(view.handles[handle]),
{
    assert(view.occupied(view.handles[handle] as int));
}

/// Registering under a handle that is in use keeps the handle in its slot, so
/// that a system which depends on the handle depends on the new system as it
/// did on the old one.
pub proof fn lemma_replacement_keeps_edges<S>(
    view: ExecutorView<S>,
    handle: u64,
    dependencies: Seq<u64>,
    system: S,
    borrows: BorrowsView,
    dependent: int,
)
    requires
        view.wf(),
        view.contains(handle),
        dependent != view.handles[handle],
        view.depends_on(dependent, view.handles[handle] as int),
    ensures
        view.add(Some(handle), dependencies, system, borrows).wf(),
        view.add(Some(handle), dependencies, system, borrows).contains(handle),
        view.add(Some(handle), dependencies, system, borrows).handles[handle]
            == view.handles[handle],
        view.add(Some(handle), dependencies, system, borrows).system_of(handle) == (SlotView {
            system,
            handle: Some(handle),
            active: true,
            dependencies,
            borrows,
        }),
        view.add(Some(handle), dependencies, system, borrows).depends_on(
            dependent,
            view.handles[handle] as int,
        ),
{
    let after = view.add(Some(handle), dependencies, system, borrows);
    assert(view.occupied(view.handles[handle] as int));
    lemma_add_keeps_wf(view, Some(handle), dependencies, system, borrows);
    assert(after.slot(dependent) == view.slot(dependent));
    let j = choose|j: int|
        0 <= j < view.slot(dependent).dependencies.len() && view.handles.contains_key(
            #[trigger] view.slot(dependent).dependencies[j],
        ) && view.handles[view.slot(dependent).dependencies[j]] == view.handles[handle];
    assert(after.handles.contains_key(after.slot(dependent).dependencies[j]));
}

/// After a removal nothing is registered under the handle, and the slot it
/// held is the one that the next new registration takes.
pub proof fn lemma_removed_handle_is_unknown<S>(view: ExecutorView<S>, handle: u64)
    requires
        view.wf(),
    ensures
        view.remove(handle).wf(),
        !view.remove(handle).contains(handle),
        view.contains(handle) ==> view.remove(handle).target(None) == view.handles[handle],
        view.contains(handle) ==> !view.remove(handle).occupied(view.handles[handle] as int),
{
    lemma_remove_keeps_wf(view, handle);
}

/// A registration adds a slot only where no slot is vacant.
pub proof fn lemma_vacant_slots_are_reused<S>(
    view: ExecutorView<S>,
    handle: Option<u64>,
    dependencies: Seq<u64>,
    system: S,
    borrows: BorrowsView,
)
    requires
        view.wf(),
    ensures
        view.free.len() > 0 ==> view.add(handle, dependencies, system, borrows).slots.len()
            == view.slots.len(),
        view.add(handle, dependencies, system, borrows).slots.len() <= view.slots.len() + 1,
{
    if handle is Some && view.contains(handle.unwrap()) {
        assert(view.occupied(view.handles[handle.unwrap()] as int));
    }
}

/// A dependency on a handle that nothing is registered under blocks nothing:
/// it gives no edge.
pub proof fn lemma_dangling_dependency_gives_no_edge<S>(view: ExecutorView<S>, x: int, y: int)
    requires
        view.occupied(x),
        forall|j: int|
            0 <= j < view.slot(x).dependencies.len() ==> !view.handles.contains_key(
                #[trigger] view.slot(x).dependencies[j],
            ),
    ensures
        !view.depends_on(x, y),
{
}

} // verus!
