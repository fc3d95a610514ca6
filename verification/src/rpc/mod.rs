//! Assembling the candidate endpoints of a network.

pub mod select_base_rpc_set;

pub use select_base_rpc_set::{select_base_rpc_set, should_include};
