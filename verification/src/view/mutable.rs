//! Views that can rerender.
use vstd::prelude::*;

verus! {

/// Implemented by the platform backend for every view that can be
/// rerendered.
pub trait MutableViewRerender {
    /// Rerender the mutable view attached to this.
    fn rerender(&self);
}

} // verus!
