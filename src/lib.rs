//! Staged discovery of open, unauthenticated key/value servers and export of
//! their string values: the decisions of every stage, verified.

pub mod text;
pub mod targets;
pub mod endpoint;
pub mod probe;
pub mod info;
pub mod extract;
