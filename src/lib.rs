//! A publish/subscribe chat relay: a line-delimited JSON wire codec, a
//! registry of named broadcast groups, and the per-connection request
//! handler that ties them together.

pub mod codec;
pub mod connection;
pub mod group;
pub mod group_table;
pub mod json;
pub mod laws;
pub mod text;
