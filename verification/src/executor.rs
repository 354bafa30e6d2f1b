//! The registry of systems and the tick that runs them.

use vstd::prelude::*;
use std::collections::HashMap;
use vstd::set_lib::{lemma_int_range, set_int_range};
use crate::error::NoSuchSystem;
use crate::schedule::{
    lemma_append,
    lemma_place,
    lemma_plan_done,
    lemma_settled_start,
    lemma_stuck_places_all,
};
use hecs::World;
use resources::Resources;
use vstd::std_specs::convert::FromSpecImpl;
use crate::model::{
    lemma_add_keeps_wf,
    lemma_dispatch_order_by_registrations,
    lemma_new_order_keeps_wf,
    lemma_remove_keeps_wf,
    lemma_same_registrations_keep_wf,
    lemma_with_system,
    ExecutorView,
};
use crate::system::{System, SystemContainer};

verus! {

/// Holds the registered systems in an arena of slots and runs them once per
/// tick, each after the systems it depends on.
pub struct Executor<S: System> {
    systems: Vec<Option<SystemContainer<S>>>,
    system_handles: HashMap<u64, usize>,
    free_indices: Vec<usize>,
    systems_sorted: Vec<usize>,
    dirty: bool,
}

impl<S: System> View for Executor<S> {
    type V = ExecutorView<S>;

    closed spec fn view(&self) -> ExecutorView<S> {
        ExecutorView {
            slots: self.systems@.map_values(
                |slot: Option<SystemContainer<S>>|
                    match slot {
                        Some(container) => Some(container@),
                        None => None,
                    },
            ),
            handles: self.system_handles@,
            free: self.free_indices@,
            schedule: self.systems_sorted@,
            dirty: self.dirty,
        }
    }
}

impl<S: System> Executor<S> {
    /// The invariant of the executor: that of its state.
    pub open spec fn wf(&self) -> bool {
        self@.wf()
    }

    /// An executor with nothing registered. It starts dirty.
    pub fn new() -> (executor: Self)
        ensures
            executor.wf(),
            executor@ == ExecutorView::<S>::empty(),
    {
        let executor = Executor {
            systems: Vec::new(),
            system_handles: HashMap::new(),
            free_indices: Vec::new(),
            systems_sorted: Vec::new(),
            dirty: true,
        };
        assert(executor@.slots =~= Seq::empty());
        assert(executor@.handles =~= Map::empty());
        executor
    }

    /// The slot for a new registration: the vacant slot freed last, or a new
    /// slot at the end where none is vacant.
    fn new_system_index(&mut self) -> (index: usize)
        requires
            old(self).wf(),
        ensures
            index == old(self)@.target(None),
            final(self)@ == (ExecutorView {
                free: if old(self)@.free.len() > 0 {
                    old(self)@.free.drop_last()
                } else {
                    old(self)@.free
                },
                ..old(self)@
            }),
    {
        match self.free_indices.pop() {
            Some(index) => index,
            None => self.systems.len(),
        }
    }

    /// Registers `system`, under `handle` if one is given.
    ///
    /// Under a handle that is in use the new system takes the place of the old
    /// one, in the same slot, and the old one is returned. Otherwise the system
    /// goes to a vacant slot, or to a new one where none is vacant. The new
    /// registration is active, its footprint is the one that the system
    /// declares, and the cached order goes stale.
    pub fn add_inner(
        &mut self,
        handle: Option<u64>,
        dependencies: Vec<u64>,
        system: S,
    ) -> (previous: Option<S>)
        requires
            old(self).wf(),
        ensures
            final(self).wf(),
            previous == old(self)@.displaced(handle),
            final(self)@ == old(self)@.add(handle, dependencies@, system, system.declared()),
    {
        let ghost before = self@;
        let container = SystemContainer::new(system, handle, dependencies);
        let ghost borrows = system.declared();
        let known = match handle {
            Some(h) => match self.system_handles.get(&h) {
                Some(index) => Some(*index),
                None => None,
            },
            None => None,
        };
        let index = match known {
            Some(index) => index,
            None => {
                let index = self.new_system_index();
                match handle {
                    Some(h) => {
                        self.system_handles.insert(h, index);
                    },
                    None => {},
                }
                index
            },
        };
        self.dirty = true;
        let previous = if index < self.systems.len() {
            let old_slot = self.systems[index].take();
            self.systems[index] = Some(container);
            match old_slot {
                Some(old_container) => Some(old_container.unwrap()),
                None => None,
            }
        } else {
            self.systems.push(Some(container));
            None
        };
        let slots = self.systems.len();
        proof {
            let after = before.add(handle, dependencies@, system, borrows);
            assert(self@.slots =~= after.slots);
            assert(self@.handles =~= after.handles);
            assert(self@.free =~= after.free);
            assert(self@ == after);
            assert(after.slots.len() == slots);
            lemma_add_keeps_wf(before, handle, dependencies@, system, borrows);
        }
        previous
    }

    /// Removes the system registered under `handle` and returns it. Under an
    /// unknown handle nothing is removed. The cached order goes stale either way.
    pub fn remove(&mut self, handle: u64) -> (removed: Option<S>)
        requires
            old(self).wf(),
        ensures
            final(self).wf(),
            final(self)@ == old(self)@.remove(handle),
            removed == old(self)@.displaced(Some(handle)),
    {
        let ghost before = self@;
        self.dirty = true;
        let removed = match self.system_handles.remove(&handle) {
            Some(index) => {
                let slot = self.systems[index].take();
                self.free_indices.push(index);
                match slot {
                    Some(container) => Some(container.unwrap()),
                    None => None,
                }
            },
            None => None,
        };
        proof {
            let after = before.remove(handle);
            assert(self@.slots =~= after.slots);
            assert(self@.handles =~= after.handles);
            assert(self@.free =~= after.free);
            assert(self@ == after);
            lemma_remove_keeps_wf(before, handle);
        }
        removed
    }

    /// Tells whether the cached order is stale: something was registered or
    /// removed since the order was last brought up to date.
    pub fn is_dirty(&self) -> (dirty: bool)
        ensures
            dirty == self@.dirty,
    {
        self.dirty
    }

    /// Tells whether a system is registered under `handle`.
    pub fn contains(&self, handle: u64) -> (known: bool)
        ensures
            known == self@.contains(handle),
    {
        self.system_handles.contains_key(&handle)
    }

    /// The slot of the system registered under `handle`.
    pub fn slot_of(&self, handle: u64) -> (slot: Result<usize, NoSuchSystem>)
        ensures
            slot == (if self@.contains(handle) {
                Ok(self@.handles[handle])
            } else {
                Err(NoSuchSystem)
            }),
    {
        match self.system_handles.get(&handle) {
            Some(index) => Ok(*index),
            None => Err(NoSuchSystem),
        }
    }

    /// The container of the system registered under `handle`.
    fn get_container(&self, handle: u64) -> (container: Result<&SystemContainer<S>, NoSuchSystem>)
        requires
            self.wf(),
        ensures
            (container is Ok) == self@.contains(handle),
            container is Ok ==> container.unwrap()@ == self@.system_of(handle),
    {
        let index = match self.system_handles.get(&handle) {
            Some(index) => *index,
            None => {
                return Err(NoSuchSystem);
            },
        };
        assert(self@.occupied(index as int));
        match &self.systems[index] {
            Some(container) => Ok(container),
            None => Err(NoSuchSystem),
        }
    }

    /// Tells whether the system registered under `handle` takes part in ticks.
    pub fn is_active(&self, handle: u64) -> (active: Result<bool, NoSuchSystem>)
        requires
            self.wf(),
        ensures
            active == (if self@.contains(handle) {
                Ok(self@.system_of(handle).active)
            } else {
                Err(NoSuchSystem)
            }),
    {
        match self.get_container(handle) {
            Ok(container) => Ok(container.active),
            Err(error) => Err(error),
        }
    }

    /// Switches the system registered under `handle` on or off. The cached
    /// order stays as it is: the switch changes who takes part, not the order.
    pub fn set_active(&mut self, handle: u64, active: bool) -> (done: Result<(), NoSuchSystem>)
        requires
            old(self).wf(),
        ensures
            final(self).wf(),
            done == (if old(self)@.contains(handle) {
                Ok::<(), NoSuchSystem>(())
            } else {
                Err(NoSuchSystem)
            }),
            final(self)@ == (if old(self)@.contains(handle) {
                old(self)@.set_active(handle, active)
            } else {
                old(self)@
            }),
    {
        let ghost before = self@;
        let index = match self.system_handles.get(&handle) {
            Some(index) => *index,
            None => {
                return Err(NoSuchSystem);
            },
        };
        assert(before.occupied(index as int));
        match self.systems[index].as_mut() {
            Some(container) => {
                container.active = active;
            },
            None => {},
        }
        proof {
            let after = before.set_active(handle, active);
            assert(self@.slots =~= after.slots);
            assert(self@ == after);
            lemma_same_registrations_keep_wf(before, after);
        }
        Ok(())
    }

    /// Tells whether the system in slot `x` names, among its dependencies, the
    /// handle of the system in slot `y`.
    fn depends(&self, x: usize, y: usize) -> (named: bool)
        requires
            self.wf(),
            self@.occupied(x as int),
        ensures
            named == self@.depends_on(x as int, y as int),
    {
        match &self.systems[x] {
            Some(container) => {
                let ghost dependencies = self@.slot(x as int).dependencies;
                let mut j: usize = 0;
                while j < container.dependencies.len()
                    invariant
                        self@.occupied(x as int),
                        dependencies == self@.slot(x as int).dependencies,
                        dependencies == container.dependencies@,
                        j <= dependencies.len(),
                        forall|k: int|
                            0 <= k < j && self@.handles.contains_key(#[trigger] dependencies[k])
                                ==> self@.handles[dependencies[k]] != y,
                    decreases dependencies.len() - j,
                {
                    match self.system_handles.get(&container.dependencies[j]) {
                        Some(target) => {
                            if *target == y {
                                assert(self@.handles.contains_key(dependencies[j as int]));
                                return true;
                            }
                        },
                        None => {},
                    }
                    j += 1;
                }
                false
            },
            None => false,
        }
    }

    /// Tells whether the systems registered under the two handles may run at
    /// the same time: they are two systems, neither names the other among its
    /// dependencies, and their footprints do not conflict.
    pub fn independent(&self, first: u64, second: u64) -> (free: Result<bool, NoSuchSystem>)
        requires
            self.wf(),
        ensures
            free == (if self@.contains(first) && self@.contains(second) {
                Ok(
                    self@.independent(
                        self@.handles[first] as int,
                        self@.handles[second] as int,
                    ),
                )
            } else {
                Err(NoSuchSystem)
            }),
    {
        let x = match self.system_handles.get(&first) {
            Some(index) => *index,
            None => {
                return Err(NoSuchSystem);
            },
        };
        let y = match self.system_handles.get(&second) {
            Some(index) => *index,
            None => {
                return Err(NoSuchSystem);
            },
        };
        assert(self@.occupied(x as int) && self@.occupied(y as int));
        if x == y || self.depends(x, y) || self.depends(y, x) {
            return Ok(false);
        }
        match (&self.systems[x], &self.systems[y]) {
            (Some(one), Some(other)) => Ok(!one.borrows.conflicts(&other.borrows)),
            _ => Ok(false),
        }
    }

    /// Tells whether every system that the one in slot `index` depends on is
    /// placed.
    fn is_ready(&self, index: usize, placed: &Vec<bool>) -> (ready: bool)
        requires
            self.wf(),
            self@.occupied(index as int),
            placed@.len() == self@.slots.len(),
        ensures
            ready == self@.ready(index as int, placed@),
    {
        match &self.systems[index] {
            Some(container) => {
                let ghost dependencies = self@.slot(index as int).dependencies;
                let mut j: usize = 0;
                while j < container.dependencies.len()
                    invariant
                        self.wf(),
                        self@.occupied(index as int),
                        placed@.len() == self@.slots.len(),
                        dependencies == self@.slot(index as int).dependencies,
                        dependencies == container.dependencies@,
                        j <= dependencies.len(),
                        forall|k: int|
                            0 <= k < j && self@.handles.contains_key(#[trigger] dependencies[k])
                                ==> placed@[self@.handles[dependencies[k]] as int],
                    decreases dependencies.len() - j,
                {
                    match self.system_handles.get(&container.dependencies[j]) {
                        Some(target) => {
                            assert(self@.handles.contains_key(dependencies[j as int]));
                            assert(self@.occupied(*target as int));
                            if !placed[*target] {
                                assert(self@.depends_on(index as int, *target as int));
                                return false;
                            }
                        },
                        None => {},
                    }
                    j += 1;
                }
                true
            },
            None => true,
        }
    }

    /// Makes the order of a tick.
    ///
    /// The search goes over the slots again and again and places each system
    /// whose dependencies are all placed, until a round places nothing. What
    /// is left then lies on a cycle of dependencies, or waits for a system that
    /// does: those systems follow in the order of their slots.
    fn plan(&self) -> (order: Vec<usize>)
        requires
            self.wf(),
        ensures
            self@.planned_order(order@),
    {
        let slots = self.systems.len();
        let mut placed: Vec<bool> = Vec::new();
        while placed.len() < slots
            invariant
                placed@.len() <= slots,
                forall|i: int| 0 <= i < placed@.len() ==> !placed@[i],
            decreases slots - placed.len(),
        {
            placed.push(false);
        }
        let mut order: Vec<usize> = Vec::new();
        let ghost mut left: Set<int> = set_int_range(0, slots as int);
        proof {
            lemma_int_range(0, slots as int);
        }
        let mut progress = true;
        while progress
            invariant
                self.wf(),
                slots == self@.slots.len(),
                self@.partial_order(order@, placed@),
                left.finite(),
                forall|i: int| 0 <= i < slots && !placed@[i] ==> left.contains(i),
                !progress ==> self@.stuck(placed@),
            decreases left.len() + (if progress { 1nat } else { 0nat }),
        {
            let ghost at_start = left.len();
            progress = false;
            let mut i: usize = 0;
            while i < slots
                invariant
                    self.wf(),
                    slots == self@.slots.len(),
                    i <= slots,
                    self@.partial_order(order@, placed@),
                    left.finite(),
                    forall|k: int| 0 <= k < slots && !placed@[k] ==> left.contains(k),
                    left.len() <= at_start,
                    progress ==> left.len() < at_start,
                    !progress ==> forall|k: int| #[trigger]
                        self@.occupied(k) && k < i && !placed@[k] ==> !self@.ready(k, placed@),
                decreases slots - i,
            {
                if !placed[i] && self.systems[i].is_some() {
                    assert(self@.occupied(i as int));
                    if self.is_ready(i, &placed) {
                        proof {
                            lemma_place(self@, order@, placed@, i);
                            left = left.remove(i as int);
                        }
                        placed.set(i, true);
                        order.push(i);
                        progress = true;
                    }
                }
                i += 1;
            }
        }
        let ghost orderly = order@;
        let ghost orderly_placed = placed@;
        proof {
            lemma_stuck_places_all(self@, orderly, orderly_placed);
            lemma_settled_start(self@, orderly, orderly_placed);
            assert(orderly.take(orderly.len() as int) =~= orderly);
        }
        let mut i: usize = 0;
        while i < slots
            invariant
                self.wf(),
                slots == self@.slots.len(),
                i <= slots,
                self@.partial_order(orderly, orderly_placed),
                self@.stuck(orderly_placed),
                self@.orderable() ==> forall|k: int| #[trigger]
                    self@.occupied(k) ==> orderly_placed[k],
                self@.orderable() ==> order@ == orderly,
                self@.listing(order@, placed@),
                self@.settled_at(order@, orderly.len() as int),
                order@.take(orderly.len() as int) == orderly,
                forall|p: int| orderly.len() <= p < order@.len() ==> (#[trigger] order@[p]) < i,
                forall|k: int| i <= k < slots ==> placed@[k] == orderly_placed[k],
                forall|k: int| #[trigger] self@.occupied(k) && k < i ==> placed@[k],
            decreases slots - i,
        {
            if !placed[i] && self.systems[i].is_some() {
                proof {
                    lemma_append(self@, order@, placed@, orderly, orderly_placed, i);
                }
                placed.set(i, true);
                order.push(i);
            }
            i += 1;
        }
        proof {
            lemma_plan_done(self@, order@, placed@, orderly, orderly_placed);
        }
        order
    }

    /// Brings the cached order up to date and leaves the executor clean.
    ///
    /// The new order lists every registered system once, whether or not it is
    /// active. Where the dependencies hold no cycle, each system stands after
    /// all the systems that it depends on. Where they hold one, the systems
    /// that can be ordered come first, each after all it depends on, and the
    /// systems on a cycle, with those that wait for them, follow in the order
    /// of their slots: a cycle is tolerated, never reported. An edge counts
    /// whether or not its ends are active, so that switching a system on or off
    /// never calls for a new plan.
    pub fn maintain(&mut self)
        requires
            old(self).wf(),
        ensures
            final(self).wf(),
            final(self)@ == (ExecutorView {
                schedule: final(self)@.schedule,
                dirty: false,
                ..old(self)@
            }),
            final(self)@.planned_order(final(self)@.schedule),
            final(self)@.orderable() == old(self)@.orderable(),
    {
        let ghost before = self@;
        let order = self.plan();
        self.systems_sorted = order;
        self.dirty = false;
        proof {
            let after = ExecutorView { schedule: self@.schedule, dirty: false, ..before };
            assert(self@.slots =~= after.slots);
            assert(self@ == after);
            lemma_new_order_keeps_wf(before, self@.schedule);
        }
    }

    /// Registers what `args` describes: a system alone, or with a handle, with
    /// dependencies, or with both. See `add_inner`.
    pub fn add<A>(&mut self, args: A) -> (previous: Option<S>) where
        A: Into<SystemInsertionArguments<S>>,

        requires
            old(self).wf(),
        ensures
            final(self).wf(),
            exists|given: SystemInsertionArguments<S>|
                call_ensures(A::into, (args,), given) && #[trigger] old(self)@.registers(
                    given,
                    previous,
                    final(self)@,
                ),
    {
        let given: SystemInsertionArguments<S> = args.into();
        let ghost before = self@;
        let ghost witness = given;
        let SystemInsertionArguments { handle, dependencies, system } = given;
        let previous = self.add_inner(handle, dependencies, system);
        assert(before.registers(witness, previous, self@));
        previous
    }

    /// The executor with what `args` describes registered in it. A system
    /// that the registration displaces is dropped.
    pub fn with<A>(self, args: A) -> (executor: Self) where
        A: Into<SystemInsertionArguments<S>>,

        requires
            self.wf(),
        ensures
            executor.wf(),
            exists|given: SystemInsertionArguments<S>|
                call_ensures(A::into, (args,), given) && #[trigger] self@.registers(
                    given,
                    self@.displaced(given.handle),
                    executor@,
                ),
    {
        let mut executor = self;
        let _ = executor.add(args);
        executor
    }

    /// The system registered under `handle`, to work on in place.
    pub fn get_mut(&mut self, handle: u64) -> (system: Result<&mut S, NoSuchSystem>)
        requires
            old(self).wf(),
        ensures
            match system {
                Ok(body) => {
                    &&& old(self)@.contains(handle)
                    &&& *body == old(self)@.system_of(handle).system
                    &&& old(self)@.is_with_system(final(self)@, handle, *final(body))
                    &&& final(self)@ == old(self)@.with_system(handle, *final(body))
                    &&& final(self).wf()
                },
                Err(_) => !old(self)@.contains(handle) && final(self)@ == old(self)@,
            },
    {
        let ghost before = self@;
        let index = match self.system_handles.get(&handle) {
            Some(index) => *index,
            None => {
                return Err(NoSuchSystem);
            },
        };
        assert(before.occupied(index as int));
        match self.systems[index].as_mut() {
            Some(container) => {
                let body = &mut container.system;
                proof {
                    assert forall|after: ExecutorView<S>, system: S| #[trigger]
                        before.is_with_system(after, handle, system) implies after
                        == before.with_system(handle, system) && after.wf() by {
                        lemma_with_system(before, after, handle, system);
                    }
                }
                Ok(body)
            },
            None => Err(NoSuchSystem),
        }
    }

    /// Runs one tick.
    ///
    /// A dirty executor first brings its order up to date. Then the body of
    /// every active system is invoked once, one after the other in the cached
    /// order, each with the two stores and the queue that were given. Where
    /// the dependencies hold no cycle, each body starts after every active
    /// system it depends on has returned. The result lists the slots whose
    /// bodies were invoked, in that order.
    ///
    /// The tick itself reports no failure. A body that cannot have a resource
    /// learns so from its accessor and decides for itself. A body that panics
    /// ends the tick: the panic goes on to the caller and the systems after it
    /// are not invoked.
    pub fn run(
        &mut self,
        world: &World,
        resources: &Resources,
        mod_queues: &S::ModQueues,
    ) -> (invoked: Vec<usize>)
        requires
            old(self).wf(),
        ensures
            final(self).wf(),
            !final(self)@.dirty,
            !old(self)@.dirty ==> final(self)@.schedule == old(self)@.schedule,
            final(self)@.planned_order(final(self)@.schedule),
            final(self)@.orderable() == old(self)@.orderable(),
            final(self)@.after_tick_of(old(self)@),
            final(self)@.invoked_of(old(self)@, world, resources, mod_queues),
            invoked@ == final(self)@.dispatch_order(),
    {
        let ghost before = self@;
        if self.dirty {
            self.maintain();
        }
        let ghost planned = self@;
        let ghost takes_part = |i: usize| planned.runs(i);
        let mut invoked: Vec<usize> = Vec::new();
        let mut position: usize = 0;
        let count = self.systems_sorted.len();
        assert(planned.schedule.take(0).filter(takes_part) =~= Seq::<usize>::empty()) by {
            reveal(Seq::filter);
        }
        while position < count
            invariant
                planned.wf(),
                !planned.dirty,
                self@.after_tick_of(planned),
                self@.schedule == planned.schedule,
                self@.dirty == planned.dirty,
                count == planned.schedule.len(),
                position <= count,
                takes_part == (|i: usize| planned.runs(i)),
                invoked@ == planned.schedule.take(position as int).filter(takes_part),
                self@.invoked_upto(planned, position as int, world, resources, mod_queues),
            decreases count - position,
        {
            let ghost current = self@;
            let index = self.systems_sorted[position];
            assert(planned.schedule.contains(planned.schedule[position as int]));
            assert(planned.occupied(index as int));
            assert(current.occupied(index as int));
            assert(!planned.schedule.take(position as int).contains(index));
            let mut ran = false;
            match self.systems[index].as_mut() {
                Some(container) => {
                    if container.active {
                        container.system.run(world, resources, mod_queues);
                        ran = true;
                    }
                },
                None => {},
            }
            if ran {
                invoked.push(index);
            }
            proof {
                assert(ran == planned.runs(index));
                let upto = planned.schedule.take(position as int + 1);
                assert(upto.drop_last() =~= planned.schedule.take(position as int));
                assert(upto.last() == index);
                assert(invoked@ == upto.filter(takes_part)) by {
                    reveal(Seq::filter);
                }
                assert forall|i: int|
                    0 <= i < self@.slots.len() implies (#[trigger] self@.slots[i] is Some) == (
                planned.slots[i] is Some) by {
                    assert((current.slots[i] is Some) == (planned.slots[i] is Some));
                }
                assert forall|i: int| #[trigger] self@.occupied(i) implies self@.slot(
                    i,
                ).same_registration(planned.slot(i)) && (!planned.slot(i).active ==> self@.slot(
                    i,
                ).system == planned.slot(i).system) by {
                    assert(current.occupied(i));
                }
                assert forall|i: int| #[trigger] planned.occupied(i) implies (if planned.slot(
                    i,
                ).active && upto.contains(i as usize) {
                    planned.slot(i).system.ran(world, resources, mod_queues, &self@.slot(i).system)
                } else {
                    self@.slot(i).system == planned.slot(i).system
                }) by {
                    assert(current.occupied(i));
                    if i == index {
                        assert(upto[position as int] == index);
                    } else {
                        if upto.contains(i as usize) {
                            let p = choose|p: int| 0 <= p < upto.len() && upto[p] == i as usize;
                            assert(planned.schedule.take(position as int)[p] == i as usize);
                        }
                        if planned.schedule.take(position as int).contains(i as usize) {
                            let p = choose|p: int|
                                0 <= p < position && planned.schedule.take(position as int)[p]
                                    == i as usize;
                            assert(upto[p] == i as usize);
                        }
                    }
                }
            }
            position += 1;
        }
        proof {
            assert(planned.schedule.take(count as int) =~= planned.schedule);
            lemma_same_registrations_keep_wf(planned, self@);
            lemma_dispatch_order_by_registrations(planned, self@);
            assert forall|i: int| #[trigger] self@.occupied(i) implies self@.slot(
                i,
            ).same_registration(before.slot(i)) && (!before.slot(i).active ==> self@.slot(
                i,
            ).system == before.slot(i).system) by {
                assert(planned.occupied(i));
            }
            assert forall|i: int|
                0 <= i < self@.slots.len() implies (#[trigger] self@.slots[i] is Some) == (
            before.slots[i] is Some) by {
                assert((planned.slots[i] is Some) == (before.slots[i] is Some));
            }
            assert forall|i: int| #[trigger]
                before.occupied(i) && before.slot(i).active implies before.slot(i).system.ran(
                world,
                resources,
                mod_queues,
                &self@.slot(i).system,
            ) by {
                assert(planned.occupied(i));
                assert(planned.schedule.contains(i as usize));
            }
        }
        invoked
    }
}

impl<S: System> ExecutorView<S> {
    /// `self` is `before` after the bodies at the first `upto` places of the
    /// order have had their turn: of those, each active one has been invoked
    /// once, and every other body is as it was.
    pub open spec fn invoked_upto(
        self,
        before: ExecutorView<S>,
        upto: int,
        world: &World,
        resources: &Resources,
        mod_queues: &S::ModQueues,
    ) -> bool {
        forall|i: int| #[trigger]
            before.occupied(i) ==> (if before.slot(i).active && before.schedule.take(
                upto,
            ).contains(i as usize) {
                before.slot(i).system.ran(world, resources, mod_queues, &self.slot(i).system)
            } else {
                self.slot(i).system == before.slot(i).system
            })
    }

    /// `self` is `before` after a tick: the body of every active system has
    /// been invoked once, with the two stores and the queue.
    pub open spec fn invoked_of(
        self,
        before: ExecutorView<S>,
        world: &World,
        resources: &Resources,
        mod_queues: &S::ModQueues,
    ) -> bool {
        forall|i: int| #[trigger]
            before.occupied(i) && before.slot(i).active ==> before.slot(i).system.ran(
                world,
                resources,
                mod_queues,
                &self.slot(i).system,
            )
    }
}

impl<S: System> Default for Executor<S> {
    /// An executor with nothing registered.
    fn default() -> (executor: Self)
        ensures
            executor.wf(),
            executor@ == ExecutorView::<S>::empty(),
    {
        Executor::new()
    }
}

/// What a registration consists of: the system, the handle to register it
/// under, if any, and the handles of the systems it is to run after.
pub struct SystemInsertionArguments<S> {
    pub handle: Option<u64>,
    pub dependencies: Vec<u64>,
    pub system: S,
}

impl<S: System> ExecutorView<S> {
    /// `after` and `previous` are what registering `given` in `self` leaves and
    /// returns.
    pub open spec fn registers(
        self,
        given: SystemInsertionArguments<S>,
        previous: Option<S>,
        after: ExecutorView<S>,
    ) -> bool {
        &&& previous == self.displaced(given.handle)
        &&& after == self.add(
            given.handle,
            given.dependencies@,
            given.system,
            given.system.declared(),
        )
    }
}

impl<S> From<S> for SystemInsertionArguments<S> {
    /// A system without a handle and without dependencies.
    fn from(args: S) -> (given: Self)
        ensures
            given.handle is None,
            given.dependencies@ == Seq::<u64>::empty(),
            given.system == args,
    {
        SystemInsertionArguments { handle: None, dependencies: Vec::new(), system: args }
    }
}

/// The result holds a vector of its own, which is stated by its content: see
/// the clauses of `from`.
impl<S> FromSpecImpl<S> for SystemInsertionArguments<S> {
    open spec fn obeys_from_spec() -> bool {
        false
    }

    open spec fn from_spec(v: S) -> Self {
        arbitrary()
    }
}

impl<S> From<(u64, S)> for SystemInsertionArguments<S> {
    /// A system under a handle, without dependencies.
    fn from(args: (u64, S)) -> (given: Self)
        ensures
            given.handle == Some(args.0),
            given.dependencies@ == Seq::<u64>::empty(),
            given.system == args.1,
    {
        SystemInsertionArguments { handle: Some(args.0), dependencies: Vec::new(), system: args.1 }
    }
}

/// The result holds a vector of its own, which is stated by its content: see
/// the clauses of `from`.
impl<S> FromSpecImpl<(u64, S)> for SystemInsertionArguments<S> {
    open spec fn obeys_from_spec() -> bool {
        false
    }

    open spec fn from_spec(v: (u64, S)) -> Self {
        arbitrary()
    }
}

impl<S> From<(Vec<u64>, S)> for SystemInsertionArguments<S> {
    /// A system with dependencies, without a handle.
    fn from(args: (Vec<u64>, S)) -> (given: Self)
        ensures
            given.handle is None,
            given.dependencies == args.0,
            given.system == args.1,
    {
        SystemInsertionArguments { handle: None, dependencies: args.0, system: args.1 }
    }
}

impl<S> FromSpecImpl<(Vec<u64>, S)> for SystemInsertionArguments<S> {
    open spec fn obeys_from_spec() -> bool {
        true
    }

    open spec fn from_spec(v: (Vec<u64>, S)) -> Self {
        SystemInsertionArguments { handle: None, dependencies: v.0, system: v.1 }
    }
}

impl<S> From<(u64, Vec<u64>, S)> for SystemInsertionArguments<S> {
    /// A system under a handle, with dependencies.
    fn from(args: (u64, Vec<u64>, S)) -> (given: Self)
        ensures
            given.handle == Some(args.0),
            given.dependencies == args.1,
            given.system == args.2,
    {
        SystemInsertionArguments { handle: Some(args.0), dependencies: args.1, system: args.2 }
    }
}

impl<S> FromSpecImpl<(u64, Vec<u64>, S)> for SystemInsertionArguments<S> {
    open spec fn obeys_from_spec() -> bool {
        true
    }

    open spec fn from_spec(v: (u64, Vec<u64>, S)) -> Self {
        SystemInsertionArguments { handle: Some(v.0), dependencies: v.1, system: v.2 }
    }
}

} // verus!
