//! Text and image embeddable icons, and bindings to the native icon set.
use vstd::prelude::*;

verus! {

/// Icon resources can be embedded in text or used as standalone images.
#[derive(Clone)]
pub enum Icon {
    /// An icon of the system icon set, by name (SF Symbols on iOS and
    /// macOS). Only a few names work on every platform.
    System(&'static str),
}

} // verus!
