//! Core data structures of a native UI framework: layout geometry, the
//! persistent per-view storage with its garbage collector, the resource
//! stack handed down while rendering, and the queue that schedules view
//! rerenders after a binding changes.
use vstd::prelude::*;

pub mod icon;
pub mod layout;
pub mod modifiers;
pub mod view;

verus! {

/// A view whose fields can be filled in one by one before it is built.
pub trait PartialInitialisable {
    /// The partially filled form of the view.
    type PartialInit;
}

} // verus!
