//! Drivers for the PCIe host and the SD/MMC host of the Rockchip RK3588.
//!
//! The drivers decide what the hardware has to do; a caller does it. What they
//! decide is handed out as plain values: a [`script`] of register accesses,
//! clock calls and delays for the PCIe host ([`pcie`]), and the actions of two
//! state machines for the SD/MMC host ([`mmc`]).
pub mod fdt;
pub mod guard;
pub mod hiword;
pub mod mmc;
pub mod model;
pub mod pcie;
pub mod script;
pub mod text;
