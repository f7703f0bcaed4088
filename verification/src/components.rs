//! Marker types and scheduling labels for the component-injection step.

use vstd::prelude::*;

verus! {

/// Tag attached to an entity whose glTF extras have been turned into
/// components, so the injector never processes it twice.
#[derive(Debug, Default, Clone, Copy, PartialEq, Eq, Structural)]
pub struct GltfProcessed;

/// Ordering label for the component-injection step; downstream
/// systems schedule themselves relative to this label to observe
/// processed entities.
#[derive(Debug, Hash, PartialEq, Eq, Clone)]
pub enum GltfComponentsSet {
    Injection,
}

/// The registration shim: its only job is to hand the injection step
/// to the host scheduler under the [`GltfComponentsSet::Injection`]
/// label.  The wiring into a concrete host lives with the host
/// adapter; the plugin itself carries no state.
#[derive(Debug, Default, Clone, Copy)]
pub struct ComponentsFromGltfPlugin;

} // verus!
