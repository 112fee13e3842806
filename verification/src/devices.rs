//! Device components: descriptions of the virtual hardware attached to a
//! board. Devices that move guest data (disks, NICs) name the backend
//! component that supplies that data; the name is a soft reference resolved
//! when a wire-form spec is turned into its grouped form.

use vstd::prelude::*;

use crate::pci::PciPath;

verus! {

/// A disk that presents a virtio-block interface to the guest.
#[derive(Clone, Debug, PartialEq, Eq)]
pub struct VirtioDisk {
    /// The name of the disk's backend component.
    pub backend_name: String,
    /// The PCI path at which to attach this disk.
    pub pci_path: PciPath,
}

/// A disk that presents an NVMe interface to the guest.
#[derive(Clone, Debug, PartialEq, Eq)]
pub struct NvmeDisk {
    /// The name of the disk's backend component.
    pub backend_name: String,
    /// The PCI path at which to attach this disk.
    pub pci_path: PciPath,
}

/// A network card that presents a virtio-net interface to the guest.
#[derive(Clone, Debug, PartialEq, Eq)]
pub struct VirtioNic {
    /// The name of the device's backend component.
    pub backend_name: String,
    /// The PCI path at which to attach this device.
    pub pci_path: PciPath,
}

impl VirtioDisk {
    /// Returns a component equal to this one.
    pub fn duplicate(&self) -> (r: Self)
        ensures
            r == *self,
    {
        VirtioDisk { backend_name: self.backend_name.clone(), pci_path: self.pci_path }
    }
}

impl NvmeDisk {
    /// Returns a component equal to this one.
    pub fn duplicate(&self) -> (r: Self)
        ensures
            r == *self,
    {
        NvmeDisk { backend_name: self.backend_name.clone(), pci_path: self.pci_path }
    }
}

impl VirtioNic {
    /// Returns a component equal to this one.
    pub fn duplicate(&self) -> (r: Self)
        ensures
            r == *self,
    {
        VirtioNic { backend_name: self.backend_name.clone(), pci_path: self.pci_path }
    }
}

/// A serial port identifier, by guest-visible COM port.
#[derive(Clone, Copy, Debug, PartialEq, Eq, PartialOrd, Ord, Structural)]
pub enum SerialPortNumber {
    Com1,
    Com2,
    Com3,
    Com4,
}

/// A serial port device.
#[derive(Clone, Copy, Debug, PartialEq, Eq, Structural)]
pub struct SerialPort {
    /// The serial port number for this port.
    pub num: SerialPortNumber,
}

/// A PCI-PCI bridge, providing an extra downstream PCI bus.
#[derive(Clone, Copy, Debug, PartialEq, Eq, Structural)]
pub struct PciPciBridge {
    /// The logical bus number of this bridge's downstream bus. Devices may
    /// be attached to this bus by using it as the bus number in their PCI
    /// paths.
    pub downstream_bus: u8,
    /// The PCI path at which to attach this bridge.
    pub pci_path: PciPath,
}

/// A paravirtual panic-reporting device.
#[derive(Clone, Copy, Debug, PartialEq, Eq, Structural)]
pub struct QemuPvpanic {
    /// Enable the ISA bus interface of the device.
    pub enable_isa: bool,
}

/// The PCI port of a virtual packet-processing platform extension.
#[derive(Clone, Copy, Debug, PartialEq, Eq, Structural)]
pub struct SoftNpuPciPort {
    /// The PCI path at which to attach the port.
    pub pci_path: PciPath,
}

/// A data-link port of the packet-processing platform extension.
#[derive(Clone, Debug, PartialEq, Eq)]
pub struct SoftNpuPort {
    /// The name of the port.
    pub name: String,
    /// The name of the port's data-link backend.
    pub backend_name: String,
}

/// The filesystem-passthrough port of the packet-processing platform
/// extension, used to install its management program.
#[derive(Clone, Copy, Debug, PartialEq, Eq, Structural)]
pub struct SoftNpuP9 {
    /// The PCI path at which to attach the port.
    pub pci_path: PciPath,
}

/// A filesystem-passthrough device exposing a host directory to the guest.
#[derive(Clone, Debug, PartialEq, Eq)]
pub struct P9fs {
    /// The host source path to pass through.
    pub source: String,
    /// The 9P target filesystem tag.
    pub target: String,
    /// The chunk size to use in the 9P protocol.
    pub chunk_size: u32,
    /// The PCI path at which to attach the device.
    pub pci_path: PciPath,
}

impl SoftNpuPort {
    /// Returns a component equal to this one.
    pub fn duplicate(&self) -> (r: Self)
        ensures
            r == *self,
    {
        SoftNpuPort { name: self.name.clone(), backend_name: self.backend_name.clone() }
    }
}

impl P9fs {
    /// Returns a component equal to this one.
    pub fn duplicate(&self) -> (r: Self)
        ensures
            r == *self,
    {
        P9fs {
            source: self.source.clone(),
            target: self.target.clone(),
            chunk_size: self.chunk_size,
            pci_path: self.pci_path,
        }
    }
}

/// A disk device of either supported interface, paired with its location.
/// Grouped specs use this to hold "some disk" without caring which guest
/// interface it presents.
#[derive(Clone, Debug, PartialEq, Eq)]
pub enum StorageDevice {
    Virtio(VirtioDisk),
    Nvme(NvmeDisk),
}

impl StorageDevice {
    /// The name of the backend this disk reads and writes through.
    pub open spec fn spec_backend_name(self) -> Seq<char> {
        match self {
            StorageDevice::Virtio(d) => d.backend_name@,
            StorageDevice::Nvme(d) => d.backend_name@,
        }
    }

    /// The PCI path at which this disk is attached.
    pub open spec fn spec_pci_path(self) -> PciPath {
        match self {
            StorageDevice::Virtio(d) => d.pci_path,
            StorageDevice::Nvme(d) => d.pci_path,
        }
    }

    /// Returns the name of the backend this disk is bound to.
    pub fn backend_name(&self) -> (r: &String)
        ensures
            r@ == self.spec_backend_name(),
    {
        match self {
            StorageDevice::Virtio(d) => &d.backend_name,
            StorageDevice::Nvme(d) => &d.backend_name,
        }
    }

    /// Returns the PCI path at which this disk is attached.
    pub fn pci_path(&self) -> (r: PciPath)
        ensures
            r == self.spec_pci_path(),
    {
        match self {
            StorageDevice::Virtio(d) => d.pci_path,
            StorageDevice::Nvme(d) => d.pci_path,
        }
    }

    /// Returns a device description equal to this one.
    pub fn duplicate(&self) -> (r: Self)
        ensures
            r == *self,
    {
        match self {
            StorageDevice::Virtio(d) => StorageDevice::Virtio(d.duplicate()),
            StorageDevice::Nvme(d) => StorageDevice::Nvme(d.duplicate()),
        }
    }
}

/// A network device attachable to a board. There is currently a single
/// guest-facing network interface kind.
#[derive(Clone, Debug, PartialEq, Eq)]
pub enum NetworkDevice {
    VirtioNic(VirtioNic),
}

impl NetworkDevice {
    /// Returns a device description equal to this one.
    pub fn duplicate(&self) -> (r: Self)
        ensures
            r == *self,
    {
        match self {
            NetworkDevice::VirtioNic(n) => NetworkDevice::VirtioNic(n.duplicate()),
        }
    }
}

} // verus!
