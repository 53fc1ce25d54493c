//! Rules and data model for activating, deactivating and reconciling
//! time-bound privileged role assignments.

pub mod activate;
pub mod backend;
pub mod children;
pub mod client;
pub mod directory;
pub mod dominance;
pub mod duration;
pub mod expiring;
pub mod graph;
pub mod groups;
pub mod ident;
pub mod interactive;
pub mod json;
pub mod keyval;
pub mod latest;
pub mod logging;
pub mod models;
pub mod order;
pub mod ordset;
pub mod orphans;
pub mod retry;
pub mod schedule;
pub mod text;
pub mod token;
pub mod wait;

pub use crate::duration::format_duration;

pub use crate::activate::{ActivationResult, ListFilter};
pub use crate::expiring::ExpiringMap;
pub use crate::keyval::parse_key_val;
