//! The explorer contract: an admin-governed registry of contract metadata
//! with ABI version history, and a bounded ring buffer of decoded events.

pub mod types;
pub mod state;
pub mod contract;
pub mod snapshot;
pub mod laws;



