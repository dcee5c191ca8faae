//! Views: their persistent storage, resources and state.
pub mod mutable;
pub mod persistent_storage;
pub mod resources;
pub mod shared;
pub mod state;
