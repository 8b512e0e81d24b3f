//! Library behind a sealed-draft card-game simulator.
//!
//! Two cores: a user's owned-card collection, kept as a multiset with a
//! reversible journal of changes, and a local mirror of third-party
//! card / set / ban-list reference data, rebuilt wholesale on each
//! synchronization and persisted in fixed-width binary slots.

pub mod banlists;
pub mod cardinfo;
pub mod cardsets;
pub mod codec;
pub mod collection;
pub mod draft;
pub mod paths;
pub mod store;
pub mod sync;
