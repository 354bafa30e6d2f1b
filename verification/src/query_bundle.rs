//! How a system declares the components it works on, and how its body queries
//! them.
//!
//! An access is written as a type: `&C` reads the components of type `C`,
//! `&mut C` writes them, `Option` around either asks for them where they are
//! present, and a tuple declares each of its parts in turn.

use vstd::prelude::*;
use core::marker::PhantomData;
use hecs::World;
use crate::borrows::{BorrowsView, SystemBorrows, TypeKey};
use crate::stores::{
    world_query_mut,
    world_query_optional_mut,
    world_query_optional_ref,
    world_query_ref,
    ComponentsMut,
    ComponentsRef,
    OptionalComponentsMut,
    OptionalComponentsRef,
};

verus! {

/// The accessor for the components that the access `Q` names. It holds nothing
/// and costs nothing to make.
pub struct QueryEffector<Q> where Q: Send + Sync {
    phantom_data: PhantomData<Q>,
}

impl<Q> QueryEffector<Q> where Q: Send + Sync {
    /// The one value of this type.
    pub closed spec fn spec_new() -> Self {
        QueryEffector { phantom_data: PhantomData }
    }

    /// The accessor.
    pub fn new() -> (effector: Self)
        ensures
            effector == Self::spec_new(),
    {
        Self { phantom_data: PhantomData }
    }
}

impl<'q, C> QueryEffector<&'q C> where C: Send + Sync + 'static {
    /// A query over the entities of `world` that have a component of type `C`,
    /// for reading.
    pub fn query<'a>(&self, world: &'a World) -> ComponentsRef<'a, C> {
        world_query_ref::<C>(world)
    }
}

impl<'q, C> QueryEffector<&'q mut C> where C: Send + Sync + 'static {
    /// A query over the entities of `world` that have a component of type `C`,
    /// for writing.
    pub fn query<'a>(&self, world: &'a World) -> ComponentsMut<'a, C> {
        world_query_mut::<C>(world)
    }
}

impl<'q, C> QueryEffector<Option<&'q C>> where C: Send + Sync + 'static {
    /// A query over all entities of `world`, for reading the component of type
    /// `C` of those that have one.
    pub fn query<'a>(&self, world: &'a World) -> OptionalComponentsRef<'a, C> {
        world_query_optional_ref::<C>(world)
    }
}

impl<'q, C> QueryEffector<Option<&'q mut C>> where C: Send + Sync + 'static {
    /// A query over all entities of `world`, for writing the component of type
    /// `C` of those that have one.
    pub fn query<'a>(&self, world: &'a World) -> OptionalComponentsMut<'a, C> {
        world_query_optional_mut::<C>(world)
    }
}

/// One declared access to a component.
pub trait QuerySingle: Send + Sync + Sized {
    /// The accessor that the body gets.
    type Effector;

    /// What declaring this access does to a footprint.
    spec fn declares(before: BorrowsView, after: BorrowsView) -> bool;

    /// The accessor that this access gives.
    spec fn accessor() -> Self::Effector;

    /// The accessor.
    fn effector() -> (effector: Self::Effector)
        ensures
            effector == Self::accessor(),
    ;

    /// Adds this access to `borrows`.
    fn write_borrows(borrows: &mut SystemBorrows)
        requires
            old(borrows).wf(),
        ensures
            final(borrows).wf(),
            Self::declares(old(borrows)@, final(borrows)@),
    ;
}

impl<C> QuerySingle for &'_ C where C: Send + Sync + 'static {
    type Effector = QueryEffector<Self>;

    /// A shared access to the components of type `C`, under the key of `C`.
    open spec fn declares(before: BorrowsView, after: BorrowsView) -> bool {
        exists|key: TypeKey| after == #[trigger] before.read_component(key)
    }

    /// The accessor for queries of this form.
    open spec fn accessor() -> Self::Effector {
        QueryEffector::<Self>::spec_new()
    }

    fn effector() -> Self::Effector {
        QueryEffector::new()
    }

    fn write_borrows(borrows: &mut SystemBorrows) {
        borrows.read_component(TypeKey::of::<C>());
    }
}

impl<C> QuerySingle for &'_ mut C where C: Send + Sync + 'static {
    type Effector = QueryEffector<Self>;

    /// An exclusive access to the components of type `C`, under the key of `C`.
    open spec fn declares(before: BorrowsView, after: BorrowsView) -> bool {
        exists|key: TypeKey| after == #[trigger] before.write_component(key)
    }

    /// The accessor for queries of this form.
    open spec fn accessor() -> Self::Effector {
        QueryEffector::<Self>::spec_new()
    }

    fn effector() -> Self::Effector {
        QueryEffector::new()
    }

    fn write_borrows(borrows: &mut SystemBorrows) {
        borrows.write_component(TypeKey::of::<C>());
    }
}

impl<Q> QuerySingle for Option<Q> where Q: QuerySingle {
    type Effector = QueryEffector<Self>;

    /// An optional access declares what the access inside it declares.
    open spec fn declares(before: BorrowsView, after: BorrowsView) -> bool {
        Q::declares(before, after)
    }

    /// The accessor for queries of this form.
    open spec fn accessor() -> Self::Effector {
        QueryEffector::<Self>::spec_new()
    }

    fn effector() -> Self::Effector {
        QueryEffector::new()
    }

    fn write_borrows(borrows: &mut SystemBorrows) {
        Q::write_borrows(borrows);
    }
}

/// All the components that a system declares.
pub trait QueryBundle: Send + Sync {
    /// The accessors that the body gets, one for each access.
    type Effectors;

    /// What declaring these accesses does to a footprint.
    spec fn declares(before: BorrowsView, after: BorrowsView) -> bool;

    /// The accessors that these accesses give, in their order.
    spec fn accessors() -> Self::Effectors;

    /// The accessors.
    fn effectors() -> (effectors: Self::Effectors)
        ensures
            effectors == Self::accessors(),
    ;

    /// Adds these accesses to `borrows`.
    fn write_borrows(borrows: &mut SystemBorrows)
        requires
            old(borrows).wf(),
        ensures
            final(borrows).wf(),
            Self::declares(old(borrows)@, final(borrows)@),
    ;
}

impl<C> QueryBundle for &'_ C where C: Send + Sync + 'static {
    type Effectors = <Self as QuerySingle>::Effector;

    open spec fn declares(before: BorrowsView, after: BorrowsView) -> bool {
        <Self as QuerySingle>::declares(before, after)
    }

    /// A single access gives its one accessor.
    open spec fn accessors() -> Self::Effectors {
        <Self as QuerySingle>::accessor()
    }

    fn effectors() -> Self::Effectors {
        <Self as QuerySingle>::effector()
    }

    fn write_borrows(borrows: &mut SystemBorrows) {
        <Self as QuerySingle>::write_borrows(borrows);
    }
}

impl<C> QueryBundle for &'_ mut C where C: Send + Sync + 'static {
    type Effectors = <Self as QuerySingle>::Effector;

    open spec fn declares(before: BorrowsView, after: BorrowsView) -> bool {
        <Self as QuerySingle>::declares(before, after)
    }

    /// A single access gives its one accessor.
    open spec fn accessors() -> Self::Effectors {
        <Self as QuerySingle>::accessor()
    }

    fn effectors() -> Self::Effectors {
        <Self as QuerySingle>::effector()
    }

    fn write_borrows(borrows: &mut SystemBorrows) {
        <Self as QuerySingle>::write_borrows(borrows);
    }
}

impl<Q> QueryBundle for Option<Q> where Q: QuerySingle {
    type Effectors = <Self as QuerySingle>::Effector;

    open spec fn declares(before: BorrowsView, after: BorrowsView) -> bool {
        <Self as QuerySingle>::declares(before, after)
    }

    /// A single access gives its one accessor.
    open spec fn accessors() -> Self::Effectors {
        <Self as QuerySingle>::accessor()
    }

    fn effectors() -> Self::Effectors {
        <Self as QuerySingle>::effector()
    }

    fn write_borrows(borrows: &mut SystemBorrows) {
        <Self as QuerySingle>::write_borrows(borrows);
    }
}

impl QueryBundle for () {
    type Effectors = ();

    /// A system that declares no component leaves the footprint as it is.
    open spec fn declares(before: BorrowsView, after: BorrowsView) -> bool {
        after == before
    }

    /// No access, no accessor.
    open spec fn accessors() -> Self::Effectors {
        ()
    }

    fn effectors() -> Self::Effectors {
        ()
    }

    fn write_borrows(borrows: &mut SystemBorrows) {
    }
}

} // verus!
