//! The remux streaming pipeline: shared types and session state.
pub mod types;
pub mod strategy;
pub mod state;
pub mod sessions;
pub mod remuxer;
pub mod session_manager;
