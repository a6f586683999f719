//! Typed request/reply handling over a display-protocol connection, and the
//! NUL-delimited string-list codec that many properties are carried in.
pub mod cookie;
pub mod util;
