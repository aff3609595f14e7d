//! An HA tracking proxy that drops requests from every ordinal of a replica group
//! but the active one.

pub mod cluster_laws;
pub mod cluster_state;
pub mod http;
pub mod metrics;
pub mod profiles;
pub mod proxy;
pub mod ranking;
pub mod replica_selector;
pub mod selector_laws;
pub mod text;
pub mod time;
pub mod util;

pub use replica_selector::{Replica, ReplicaSelector};
