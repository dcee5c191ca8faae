//! Modifiers wrap a view; the decisions they take while rendering live here.
pub mod sheet;
