//! A scheduler for systems that share resources and components.
//!
//! A system is a unit of work with a declared footprint: the resource and
//! component types it reads, and those it writes. The executor keeps systems
//! in an arena of slots, under handles where they have one, together with the
//! handles of the systems each is to run after. Once per tick it runs every
//! active system once, each after the systems it depends on. A cycle among the
//! dependencies is tolerated: the systems on it run too, in the order of their
//! slots, after those that can be ordered.
//!
//! - `borrows`: the footprint and the rule that tells when two footprints must
//!   not run at the same time.
//! - `resource_bundle`, `query_bundle`, `impls_for_tuple`: accesses written as
//!   types, the footprint they declare and the accessors they give.
//! - `system`: what the executor asks of a system.
//! - `executor`: the registry and the tick.
//! - `model`, `schedule`: the executor as mathematical values, and why the
//!   planner is right.
//! - `laws`: what holds of the library as a whole.
//! - `stores`: the stores of the `hecs` and `resources` crates, and every call
//!   into a crate that is not verified here.
//! - `error`: the failures.

pub mod borrows;
pub mod error;
pub mod executor;
pub mod impls_for_tuple;
pub mod laws;
pub mod model;
pub mod query_bundle;
pub mod resource_bundle;
pub mod schedule;
pub mod stores;
pub mod system;

pub use borrows::{BorrowsView, SystemBorrows, TypeKey};
pub use error::{NoSuchSystem, ResourceError};
pub use executor::{Executor, SystemInsertionArguments};
pub use model::ExecutorView;
pub use query_bundle::{QueryBundle, QueryEffector, QuerySingle};
pub use resource_bundle::{
    resource_outcome, Fetch, Immutable, Mutability, Mutable, ResourceBundle, ResourceEffector,
    ResourceSingle,
};
pub use stores::{
    ComponentsMut, ComponentsRef, OptionalComponentsMut, OptionalComponentsRef, ResourceRef,
    ResourceRefMut,
};
pub use system::{declared_footprint, SlotView, System, SystemContainer};
