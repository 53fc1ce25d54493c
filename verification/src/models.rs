//! The data that the service and the program exchange.

pub mod assignments;
pub mod definitions;
pub mod resources;
pub mod roles;
pub mod scope;
