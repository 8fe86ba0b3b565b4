//! Resource bookkeeping and deadlock detection.

pub mod claims;
pub mod controller_laws;
pub mod deadlock_controller;
pub mod resource_laws;
pub mod resource_manager;
pub mod resource_model;
pub mod resource_tracker;
pub mod tracker_laws;
pub mod turns;
