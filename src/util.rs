//! Helpers shared by the property modules.
pub mod utf8;
