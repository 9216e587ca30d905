//! An in-memory entity/component store.
//!
//! A [`Universe`] hands out entity identifiers and keeps, for every component
//! type that has been used, one bucket of optional values indexed by slot. All
//! buckets always have one entry per slot; a slot freed by a removed entity is
//! handed to the next entity that is created. A [`ResourceManager`] keeps at
//! most one value per type, with no entity attached. An [`Application`] bundles
//! both with lifecycle tasks and a runner.

pub mod application;
pub mod component_bucket;
pub mod erased;
pub mod resources;
pub mod type_key;
pub mod universe;

pub use application::{Application, ApplicationRunner, RunOnceRunner};
pub use component_bucket::{present_of, ComponentBucket};
pub use erased::KeyedValue;
pub use resources::{Resource, ResourceCreationError, ResourceManager};
pub use type_key::TypeKey;
pub use universe::{EntityRecord, Universe, UniverseView};

use vstd::prelude::*;

verus! {

/// Identifies an entity of a [`Universe`]; never handed out twice by one universe.
pub type EntityId = usize;

/// A slot: a position shared by every component bucket of a [`Universe`].
pub type Index = usize;

} // verus!
