//! How a system declares the resources it works on, and how its body gets them.
//!
//! An access is written as a type: `&R` reads the resource of type `R`, `&mut R`
//! writes it, and a tuple declares each of its parts in turn. From the type the
//! library derives the footprint, once, and the accessors that the body fetches
//! the resources with.

use vstd::prelude::*;
use core::marker::PhantomData;
use resources::{CantGetResource, InvalidBorrow, Resources};
use crate::borrows::{BorrowsView, SystemBorrows, TypeKey};
use crate::error::ResourceError;
use crate::stores::{resources_get, resources_get_mut, ResourceRef, ResourceRefMut};

verus! {

/// Marks an accessor that reads.
pub struct Immutable;

/// Marks an accessor that writes.
pub struct Mutable;

/// The two ways to access a resource.
pub trait Mutability: Send + Sync {

}

impl Mutability for Immutable {

}

impl Mutability for Mutable {

}

/// The accessor for the resource of type `R`, reading or writing as `M` says.
/// It holds nothing and costs nothing to make.
pub struct ResourceEffector<M, R> where M: Mutability, R: Send + Sync + 'static {
    phantom_data: PhantomData<(M, R)>,
}

impl<M, R> ResourceEffector<M, R> where M: Mutability, R: Send + Sync + 'static {
    /// The one value of this type.
    pub closed spec fn spec_new() -> Self {
        ResourceEffector { phantom_data: PhantomData }
    }

    /// The accessor.
    pub fn new() -> (effector: Self)
        ensures
            effector == Self::spec_new(),
    {
        Self { phantom_data: PhantomData }
    }
}

/// One declared access to a resource.
pub trait ResourceSingle: Send + Sync {
    /// The accessor that the body gets.
    type Effector;

    /// What declaring this access does to a footprint.
    spec fn declares(before: BorrowsView, after: BorrowsView) -> bool;

    /// The accessor that this access gives.
    spec fn accessor() -> Self::Effector;

    /// The accessor.
    fn effector() -> (effector: Self::Effector)
        ensures
            effector == Self::accessor(),
    ;

    /// Adds this access to `borrows`.
    fn write_borrows(borrows: &mut SystemBorrows)
        requires
            old(borrows).wf(),
        ensures
            final(borrows).wf(),
            Self::declares(old(borrows)@, final(borrows)@),
    ;
}

impl<R> ResourceSingle for &'_ R where R: Send + Sync + 'static {
    type Effector = ResourceEffector<Immutable, R>;

    /// A shared access to the resource of type `R`, under the key of `R`.
    open spec fn declares(before: BorrowsView, after: BorrowsView) -> bool {
        exists|key: TypeKey| after == #[trigger] before.read_resource(key)
    }

    /// The accessor that reads `R`.
    open spec fn accessor() -> Self::Effector {
        ResourceEffector::<Immutable, R>::spec_new()
    }

    fn effector() -> Self::Effector {
        ResourceEffector::new()
    }

    fn write_borrows(borrows: &mut SystemBorrows) {
        borrows.read_resource(TypeKey::of::<R>());
    }
}

impl<R> ResourceSingle for &'_ mut R where R: Send + Sync + 'static {
    type Effector = ResourceEffector<Mutable, R>;

    /// An exclusive access to the resource of type `R`, under the key of `R`.
    open spec fn declares(before: BorrowsView, after: BorrowsView) -> bool {
        exists|key: TypeKey| after == #[trigger] before.write_resource(key)
    }

    /// The accessor that writes `R`.
    open spec fn accessor() -> Self::Effector {
        ResourceEffector::<Mutable, R>::spec_new()
    }

    fn effector() -> Self::Effector {
        ResourceEffector::new()
    }

    fn write_borrows(borrows: &mut SystemBorrows) {
        borrows.write_resource(TypeKey::of::<R>());
    }
}

/// All the resources that a system declares.
pub trait ResourceBundle: Send + Sync {
    /// The accessors that the body gets, one for each access.
    type Effectors;

    /// What declaring these accesses does to a footprint.
    spec fn declares(before: BorrowsView, after: BorrowsView) -> bool;

    /// The accessors that these accesses give, in their order.
    spec fn accessors() -> Self::Effectors;

    /// The accessors.
    fn effectors() -> (effectors: Self::Effectors)
        ensures
            effectors == Self::accessors(),
    ;

    /// Adds these accesses to `borrows`.
    fn write_borrows(borrows: &mut SystemBorrows)
        requires
            old(borrows).wf(),
        ensures
            final(borrows).wf(),
            Self::declares(old(borrows)@, final(borrows)@),
    ;
}

impl ResourceBundle for () {
    type Effectors = ();

    /// A system that declares no resource leaves the footprint as it is.
    open spec fn declares(before: BorrowsView, after: BorrowsView) -> bool {
        after == before
    }

    /// No access, no accessor.
    open spec fn accessors() -> Self::Effectors {
        ()
    }

    fn effectors() -> Self::Effectors {
        ()
    }

    fn write_borrows(borrows: &mut SystemBorrows) {
    }
}

impl<R> ResourceBundle for R where R: ResourceSingle {
    type Effectors = R::Effector;

    open spec fn declares(before: BorrowsView, after: BorrowsView) -> bool {
        <R as ResourceSingle>::declares(before, after)
    }

    /// A single access gives its one accessor.
    open spec fn accessors() -> Self::Effectors {
        <R as ResourceSingle>::accessor()
    }

    fn effectors() -> Self::Effectors {
        R::effector()
    }

    fn write_borrows(borrows: &mut SystemBorrows) {
        <R as ResourceSingle>::write_borrows(borrows)
    }
}

/// Why a resource could not be had, in the library's own terms: the failure
/// that stands for each failure of the store.
pub open spec fn spec_resource_error(error: CantGetResource) -> ResourceError {
    match error {
        CantGetResource::NoSuchResource(_) => ResourceError::NoSuchResource,
        CantGetResource::InvalidBorrow(rule) => match rule {
            InvalidBorrow::Mutable => ResourceError::CannotBorrowMutably,
            InvalidBorrow::Immutable => ResourceError::CannotBorrowImmutably,
        },
    }
}

/// Turns what the store answered into what a fetch returns: a borrow is handed
/// on as it is, and a failure of the store becomes the failure that stands for
/// it.
pub fn resource_outcome<G>(outcome: Result<G, CantGetResource>) -> (fetched: Result<
    G,
    ResourceError,
>)
    ensures
        fetched == match outcome {
            Ok(guard) => Ok::<G, ResourceError>(guard),
            Err(error) => Err::<G, ResourceError>(spec_resource_error(error)),
        },
{
    match outcome {
        Ok(guard) => Ok(guard),
        Err(error) => Err(
            match error {
                CantGetResource::NoSuchResource(_) => ResourceError::NoSuchResource,
                CantGetResource::InvalidBorrow(rule) => match rule {
                    InvalidBorrow::Mutable => ResourceError::CannotBorrowMutably,
                    InvalidBorrow::Immutable => ResourceError::CannotBorrowImmutably,
                },
            },
        ),
    }
}

/// Gets from the store what an accessor stands for.
pub trait Fetch<'a> {
    /// What the body receives.
    type Refs;

    /// `fetched` is something that a fetch from `resources` may return.
    spec fn may_fetch(
        &self,
        resources: &'a Resources,
        fetched: Result<Self::Refs, ResourceError>,
    ) -> bool;

    /// Borrows from `resources`. Where a resource is missing, or borrowed in
    /// a way that rules this borrow out, the failure is returned and nothing
    /// stays borrowed.
    ///
    /// A fetch never aborts and never makes up a value. The failure goes to
    /// the body that asked, which may skip its work or abort; the tick does
    /// not hand it on to its caller.
    fn fetch(&self, resources: &'a Resources) -> (fetched: Result<Self::Refs, ResourceError>)
        ensures
            self.may_fetch(resources, fetched),
    ;
}

impl<'a> Fetch<'a> for () {
    type Refs = ();

    /// Where there is nothing to fetch, the fetch succeeds.
    open spec fn may_fetch(
        &self,
        resources: &'a Resources,
        fetched: Result<Self::Refs, ResourceError>,
    ) -> bool {
        fetched == Ok::<(), ResourceError>(())
    }

    fn fetch(&self, resources: &'a Resources) -> (fetched: Result<Self::Refs, ResourceError>) {
        Ok(())
    }
}

impl<'a, R> Fetch<'a> for ResourceEffector<Immutable, R> where R: Send + Sync + 'static {
    type Refs = ResourceRef<'a, R>;

    /// Whether the store lends the resource depends on what it holds and on
    /// who borrows from it at the time: any outcome is possible.
    open spec fn may_fetch(
        &self,
        resources: &'a Resources,
        fetched: Result<Self::Refs, ResourceError>,
    ) -> bool {
        true
    }

    fn fetch(&self, resources: &'a Resources) -> (fetched: Result<Self::Refs, ResourceError>) {
        resource_outcome(resources_get::<R>(resources))
    }
}

impl<'a, R> Fetch<'a> for ResourceEffector<Mutable, R> where R: Send + Sync + 'static {
    type Refs = ResourceRefMut<'a, R>;

    /// Whether the store lends the resource depends on what it holds and on
    /// who borrows from it at the time: any outcome is possible.
    open spec fn may_fetch(
        &self,
        resources: &'a Resources,
        fetched: Result<Self::Refs, ResourceError>,
    ) -> bool {
        true
    }

    fn fetch(&self, resources: &'a Resources) -> (fetched: Result<Self::Refs, ResourceError>) {
        resource_outcome(resources_get_mut::<R>(resources))
    }
}

} // verus!
