//! The SD/MMC host.
pub mod block;
pub mod clock;
pub mod error;
pub mod laws;
pub mod probe;
pub mod queue;
