//! The PCIe host.
pub mod bring_up;
pub mod clock;
pub mod effects;
pub mod error;
pub mod gpio;
pub mod host;
pub mod laws;
pub mod phy;
pub mod power;
pub mod probe;
pub mod ranges;
pub mod reset;
pub mod start;
pub mod tables;
