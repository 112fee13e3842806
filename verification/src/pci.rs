//! PCI bus/device/function paths.

use vstd::prelude::*;

verus! {

/// The number of the last addressable device on a PCI bus.
pub const MAX_PCI_DEVICE: u8 = 31;

/// The number of the last function of a PCI device.
pub const MAX_PCI_FUNCTION: u8 = 7;

/// A PCI bus/device/function path, used to say where on the PCI topology a
/// device component should be attached.
#[derive(Clone, Copy, Debug, PartialEq, Eq, PartialOrd, Ord, Hash, Structural)]
pub struct PciPath {
    pub bus: u8,
    pub device: u8,
    pub function: u8,
}

impl PciPath {
    /// True when the device and function numbers are small enough to be
    /// addressable on a PCI bus.
    pub open spec fn valid(self) -> bool {
        self.device <= MAX_PCI_DEVICE && self.function <= MAX_PCI_FUNCTION
    }

    /// Builds a path, rejecting device and function numbers that no PCI bus
    /// can address.
    pub fn new(bus: u8, device: u8, function: u8) -> (r: Option<PciPath>)
        ensures
            r is Some <==> (device <= MAX_PCI_DEVICE && function <= MAX_PCI_FUNCTION),
            r matches Some(p) ==> p == (PciPath { bus, device, function }) && p.valid(),
    {
        if device <= MAX_PCI_DEVICE && function <= MAX_PCI_FUNCTION {
            Some(PciPath { bus, device, function })
        } else {
            None
        }
    }
}

} // verus!
