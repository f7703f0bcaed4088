//! Cache-aware material resolution for glTF-authored scenes.
//!
//! Entities authored in a scene file carry an ordered list of material
//! references (file path + material name).  A process-wide cache maps
//! fully-qualified keys (`path#name`) to resolved material resources.
//! The resolution driver runs in two phases per scheduling tick: a
//! dispatch phase that consults the cache and requests asset loads for
//! the misses, and a reconcile phase that folds polled asset results
//! into the cache and, once an entity's whole reference set is
//! resolved, injects the materials into the entity's children by
//! positional index.

pub mod components;
pub mod keystore;
pub mod materials;
