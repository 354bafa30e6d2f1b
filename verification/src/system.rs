//! What the executor asks of a unit of work, and what it keeps about one.

use vstd::prelude::*;
use hecs::World;
use resources::Resources;
use crate::borrows::{BorrowsView, SystemBorrows};
use crate::query_bundle::QueryBundle;
use crate::resource_bundle::ResourceBundle;

verus! {

/// A unit of work that the executor runs once per tick.
///
/// The two spec functions say what the library may take for granted of an
/// implementation: which footprint it declares, and what one invocation of its
/// body does to it. An implementation that states neither promises nothing
/// beyond a well-formed footprint.
pub trait System: Sized {
    /// The queue in which a body leaves the changes that have to wait until
    /// the tick is over. The executor hands it to every body and never looks
    /// at it.
    type ModQueues;

    /// The footprint that this system declares.
    open spec fn declared(&self) -> BorrowsView {
        arbitrary()
    }

    /// `after` is this system once its body has been invoked with the two
    /// stores and the queue.
    open spec fn ran(
        &self,
        world: &World,
        resources: &Resources,
        mod_queues: &Self::ModQueues,
        after: &Self,
    ) -> bool {
        true
    }

    /// The footprint of the body. The executor asks for it once, when the
    /// system is registered.
    fn borrows(&self) -> (borrows: SystemBorrows)
        ensures
            borrows.wf(),
            borrows@ == self.declared(),
    ;

    /// The body. It works on the two stores within the footprint it declared.
    /// A body that cannot have what it needs, for want of a resource, say,
    /// decides for itself whether to skip its work or to abort.
    fn run(&mut self, world: &World, resources: &Resources, mod_queues: &Self::ModQueues)
        ensures
            old(self).ran(world, resources, mod_queues, final(self)),
    ;
}

/// The footprint of a system that works on the resources `R` and on the
/// components `Q`: what `R` declares, and then what `Q` declares, on a
/// footprint that was empty.
pub fn declared_footprint<R: ResourceBundle, Q: QueryBundle>() -> (borrows: SystemBorrows)
    ensures
        borrows.wf(),
        exists|resources: BorrowsView|
            #[trigger] R::declares(BorrowsView::empty(), resources) && Q::declares(
                resources,
                borrows@,
            ),
{
    let mut borrows = SystemBorrows::new();
    R::write_borrows(&mut borrows);
    let ghost resources = borrows@;
    Q::write_borrows(&mut borrows);
    assert(R::declares(BorrowsView::empty(), resources) && Q::declares(resources, borrows@));
    borrows
}

/// What one occupied slot holds, as mathematical values.
pub struct SlotView<S> {
    pub system: S,
    pub handle: Option<u64>,
    pub active: bool,
    pub dependencies: Seq<u64>,
    pub borrows: BorrowsView,
}

impl<S> SlotView<S> {
    /// Two slots that agree on everything but the state of the body.
    pub open spec fn same_registration(self, other: SlotView<S>) -> bool {
        &&& self.handle == other.handle
        &&& self.active == other.active
        &&& self.dependencies == other.dependencies
        &&& self.borrows == other.borrows
    }
}

/// One registered system with what the executor knows about it.
pub struct SystemContainer<S> {
    pub system: S,
    pub handle: Option<u64>,
    pub active: bool,
    pub dependencies: Vec<u64>,
    pub borrows: SystemBorrows,
}

impl<S> View for SystemContainer<S> {
    type V = SlotView<S>;

    open spec fn view(&self) -> SlotView<S> {
        SlotView {
            system: self.system,
            handle: self.handle,
            active: self.active,
            dependencies: self.dependencies@,
            borrows: self.borrows@,
        }
    }
}

impl<S: System> SystemContainer<S> {
    /// A container for a newly registered system: active, with the footprint
    /// that the system declares.
    pub fn new(system: S, handle: Option<u64>, dependencies: Vec<u64>) -> (container: Self)
        ensures
            container@ == (SlotView {
                system,
                handle,
                active: true,
                dependencies: dependencies@,
                borrows: system.declared(),
            }),
            container.dependencies == dependencies,
            container.borrows.wf(),
    {
        let borrows = system.borrows();
        SystemContainer { system, handle, active: true, dependencies, borrows }
    }

    /// Gives the system back and drops the rest.
    pub fn unwrap(self) -> (system: S)
        ensures
            system == self.system,
    {
        self.system
    }
}

} // verus!
