//! Why a probe of the PCIe host ends early.
use vstd::prelude::*;

verus! {

/// Why a node of the device tree does not become a PCIe host.
#[derive(Clone, Copy, Debug, PartialEq, Eq)]
pub enum ProbeError {
    /// The node is no PCI bridge.
    NotMatch,
    /// The node has no first register range.
    NoApbRegister,
    /// The node has no second register range.
    NoDbiRegister,
    /// The node has no configuration window.
    NoConfigWindow,
    /// There is no GPIO bank of that number.
    InvalidGpioBank(u8),
}

} // verus!
