//! Addresses and the upstream target.

pub mod parse;
pub mod upstream_target;
