//! The two shared stores that system bodies work on, and every call that the
//! library makes into code it does not verify. Nothing here is proved: each
//! item says what it takes on trust.

use vstd::prelude::*;
use core::any::TypeId;
use hecs::World;
use resources::{CantGetResource, InvalidBorrow, NoSuchResource, Resources};

verus! {

/// The entity and component store of the `hecs` crate, as a value that is
/// carried and never inspected.
#[verifier::external_type_specification]
#[verifier::external_body]
pub struct ExWorld(World);

/// The resource store of the `resources` crate, as a value that is carried and
/// never inspected.
#[verifier::external_type_specification]
#[verifier::external_body]
pub struct ExResources(Resources);

/// The error of `Resources::get` and `Resources::get_mut`, declared with the
/// two variants that the `resources` crate gives it.
#[verifier::external_type_specification]
pub struct ExCantGetResource(CantGetResource);

/// The part of that error which says that no resource of the type is stored:
/// a struct without fields.
#[verifier::external_type_specification]
pub struct ExNoSuchResource(NoSuchResource);

/// The part of that error which says that the borrow rules stand in the way,
/// declared with the two variants that the `resources` crate gives it.
#[verifier::external_type_specification]
pub struct ExInvalidBorrow(InvalidBorrow);

/// The identifier that the standard library gives to a type, as a value that
/// is carried and never inspected.
#[verifier::external_type_specification]
#[verifier::external_body]
pub struct ExTypeId(TypeId);

/// Calls `TypeId::of`. Nothing is claimed of the identifier that comes back.
#[verifier::external_body]
pub(crate) fn type_id_of<T: 'static>() -> TypeId {
    TypeId::of::<T>()
}

/// Calls `fxhash::hash64` on a type identifier. Nothing is claimed of the
/// number that comes back.
#[verifier::external_body]
pub(crate) fn type_id_hash(id: &TypeId) -> u64 {
    fxhash::hash64(id)
}

/// A shared borrow of the resource of type `R`, as the `resources` crate hands
/// it out. The guard is in the public field; the library never looks at it.
///
/// The guard's own type is bounded by a trait of that crate, which this
/// library cannot name, so the guard is held here.
#[verifier::external_body]
#[verifier::reject_recursive_types(R)]
pub struct ResourceRef<'a, R: Send + Sync + 'static> {
    pub guard: resources::Ref<'a, R>,
}

/// An exclusive borrow of the resource of type `R`, as the `resources` crate
/// hands it out. The guard is in the public field; the library never looks at
/// it.
#[verifier::external_body]
#[verifier::reject_recursive_types(R)]
pub struct ResourceRefMut<'a, R: Send + Sync + 'static> {
    pub guard: resources::RefMut<'a, R>,
}

/// Calls `Resources::get` and boxes the guard. Whether the call succeeds
/// depends on what the store holds and on who borrows from it: nothing is
/// claimed.
#[verifier::external_body]
pub(crate) fn resources_get<'a, R: Send + Sync + 'static>(resources: &'a Resources) -> Result<
    ResourceRef<'a, R>,
    CantGetResource,
> {
    match resources.get::<R>() {
        Ok(guard) => Ok(ResourceRef { guard }),
        Err(error) => Err(error),
    }
}

/// Calls `Resources::get_mut` and boxes the guard. Whether the call succeeds
/// depends on what the store holds and on who borrows from it: nothing is
/// claimed.
#[verifier::external_body]
pub(crate) fn resources_get_mut<'a, R: Send + Sync + 'static>(resources: &'a Resources) -> Result<
    ResourceRefMut<'a, R>,
    CantGetResource,
> {
    match resources.get_mut::<R>() {
        Ok(guard) => Ok(ResourceRefMut { guard }),
        Err(error) => Err(error),
    }
}

/// A query for shared access to the components of type `C`, as the `hecs`
/// crate hands it out. The query is in the public field; the library never
/// looks at it.
#[verifier::external_body]
#[verifier::reject_recursive_types(C)]
pub struct ComponentsRef<'a, C: Send + Sync + 'static> {
    pub borrow: hecs::QueryBorrow<'a, &'a C>,
}

/// A query for exclusive access to the components of type `C`, as the `hecs`
/// crate hands it out. The query is in the public field; the library never
/// looks at it.
#[verifier::external_body]
#[verifier::reject_recursive_types(C)]
pub struct ComponentsMut<'a, C: Send + Sync + 'static> {
    pub borrow: hecs::QueryBorrow<'a, &'a mut C>,
}

/// A query for shared access to the components of type `C` of every entity,
/// absent where an entity has none.
#[verifier::external_body]
#[verifier::reject_recursive_types(C)]
pub struct OptionalComponentsRef<'a, C: Send + Sync + 'static> {
    pub borrow: hecs::QueryBorrow<'a, Option<&'a C>>,
}

/// A query for exclusive access to the components of type `C` of every
/// entity, absent where an entity has none.
#[verifier::external_body]
#[verifier::reject_recursive_types(C)]
pub struct OptionalComponentsMut<'a, C: Send + Sync + 'static> {
    pub borrow: hecs::QueryBorrow<'a, Option<&'a mut C>>,
}

/// Calls `World::query` for `&C` and boxes the query.
#[verifier::external_body]
pub(crate) fn world_query_ref<'a, C: Send + Sync + 'static>(world: &'a World) -> ComponentsRef<
    'a,
    C,
> {
    ComponentsRef { borrow: world.query::<&C>() }
}

/// Calls `World::query` for `&mut C` and boxes the query.
#[verifier::external_body]
pub(crate) fn world_query_mut<'a, C: Send + Sync + 'static>(world: &'a World) -> ComponentsMut<
    'a,
    C,
> {
    ComponentsMut { borrow: world.query::<&mut C>() }
}

/// Calls `World::query` for `Option<&C>` and boxes the query.
#[verifier::external_body]
pub(crate) fn world_query_optional_ref<'a, C: Send + Sync + 'static>(
    world: &'a World,
) -> OptionalComponentsRef<'a, C> {
    OptionalComponentsRef { borrow: world.query::<Option<&C>>() }
}

/// Calls `World::query` for `Option<&mut C>` and boxes the query.
#[verifier::external_body]
pub(crate) fn world_query_optional_mut<'a, C: Send + Sync + 'static>(
    world: &'a World,
) -> OptionalComponentsMut<'a, C> {
    OptionalComponentsMut { borrow: world.query::<Option<&mut C>>() }
}

} // verus!
