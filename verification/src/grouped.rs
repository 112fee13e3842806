//! The grouped, backend-linked form of an instance spec.
//!
//! A running instance wants to iterate "all disks" or "all NICs" directly,
//! with each device's backend already resolved, rather than re-scanning a
//! flat component union. This module defines that form and the lossless,
//! order-independent conversion to and from the wire form: grouping resolves
//! every device's backend name and rejects dangling or orphaned backends;
//! flattening splits every group entry back into its named wire components.

use vstd::prelude::*;

use crate::backends::{
    BlobStorageBackend, CrucibleStorageBackend, DlpiNetworkBackend, FileStorageBackend,
    StorageBackend, VirtioNetworkBackend,
};
use crate::board::Board;
use crate::devices::{
    NvmeDisk, P9fs, PciPciBridge, SerialPortNumber, SoftNpuP9, SoftNpuPciPort, StorageDevice,
    VirtioDisk, VirtioNic,
};
use crate::devices::QemuPvpanic as QemuPvpanicDesc;
use crate::devices::SerialPort as SerialPortDesc;
use crate::devices::SoftNpuPort as SoftNpuPortDesc;
use crate::pci::PciPath;
use crate::v0::{ComponentMap, ComponentV0, InstanceSpecV0};

verus! {

/// A disk: a guest-facing device and the backend that supplies its data,
/// resolved and inlined.
#[derive(Clone, Debug)]
pub struct Disk {
    pub device_spec: StorageDevice,
    pub backend_spec: StorageBackend,
}

/// A network card: a guest-facing virtio device and the backend that
/// carries its traffic.
#[derive(Clone, Debug)]
pub struct Nic {
    pub device_spec: VirtioNic,
    pub backend_spec: VirtioNetworkBackend,
}

/// The consumer of a serial port.
#[derive(Clone, Copy, Debug, PartialEq, Eq, Structural)]
pub enum SerialPortUser {
    /// The port is exposed to the guest as an ordinary COM port and appears
    /// in the wire form of the spec.
    Standard,
    /// The port is reserved by the host for a debug console and is not part
    /// of the wire form.
    DebugConsole,
}

/// A serial port and its user.
#[derive(Clone, Copy, Debug, PartialEq, Eq, Structural)]
pub struct SerialPort {
    pub num: SerialPortNumber,
    pub user: SerialPortUser,
}

/// The paravirtual panic device and the name it was attached under.
#[derive(Clone, Debug)]
pub struct QemuPvpanic {
    pub name: String,
    pub spec: QemuPvpanicDesc,
}

/// A port of the packet-processing platform extension: the port's wire
/// description and its resolved data-link backend.
#[derive(Clone, Debug)]
pub struct SoftNpuPort {
    pub port_spec: SoftNpuPortDesc,
    pub backend_spec: DlpiNetworkBackend,
}

/// The components of the packet-processing platform extension, each kept
/// with the name it was attached under.
#[derive(Clone, Debug)]
pub struct SoftNpu {
    pub pci_port: Option<(String, SoftNpuPciPort)>,
    pub ports: Vec<(String, SoftNpuPort)>,
    pub p9_device: Option<(String, SoftNpuP9)>,
    pub p9fs: Option<(String, P9fs)>,
}

/// A kind-grouped instance spec: the board plus each device paired with its
/// resolved backend, partitioned by device kind.
#[derive(Clone, Debug)]
pub struct Spec {
    pub board: Board,
    pub disks: Vec<(String, Disk)>,
    pub nics: Vec<(String, Nic)>,
    pub serial: Vec<(String, SerialPort)>,
    pub pci_pci_bridges: Vec<(String, PciPciBridge)>,
    pub pvpanic: Option<QemuPvpanic>,
    pub softnpu: SoftNpu,
}

/// A failure to turn a wire-form spec into its grouped form.
#[derive(Clone, Debug)]
pub enum ApiSpecParseError {
    /// A disk names a storage backend that is absent or already claimed by
    /// another disk. Carries the backend name, then the device name.
    StorageBackendNotFound(String, String),
    /// A NIC or extension port names a network backend that is absent or
    /// already claimed. Carries the backend name, then the device name.
    NetworkBackendNotFound(String, String),
    /// The named component needs the packet-processing platform extension,
    /// which this host does not provide.
    SoftNpuCompiledOut(String),
    /// The named backend is referenced by no device.
    BackendNotUsed(String),
    /// Two devices claim the same PCI path.
    PciPathInUse(PciPath),
    /// Two serial ports claim the same port number.
    SerialPortInUse(SerialPortNumber),
    /// A second panic device was found under the given name.
    PvpanicInUse(String),
    /// A second extension PCI port was found under the given name.
    SoftNpuPciPortInUse(String),
    /// A second extension filesystem port was found under the given name.
    SoftNpuP9InUse(String),
    /// A second filesystem-passthrough device was found under the given
    /// name.
    P9fsInUse(String),
}

/// The wire component a grouped storage device flattens back into.
pub open spec fn storage_device_component(d: StorageDevice) -> ComponentV0 {
    match d {
        StorageDevice::Virtio(x) => ComponentV0::VirtioDisk(x),
        StorageDevice::Nvme(x) => ComponentV0::NvmeDisk(x),
    }
}

/// The wire component a grouped storage backend flattens back into.
pub open spec fn storage_backend_component(b: StorageBackend) -> ComponentV0 {
    match b {
        StorageBackend::Crucible(x) => ComponentV0::CrucibleBackend(x),
        StorageBackend::File(x) => ComponentV0::FileStorageBackend(x),
        StorageBackend::Blob(x) => ComponentV0::BlobStorageBackend(x),
    }
}

/// The named wire components a single grouped entry flattens into: one pair
/// for the device and, for backed devices, one for its backend.
pub open spec fn disk_pair(p: (String, Disk)) -> Seq<(Seq<char>, ComponentV0)> {
    seq![
        (p.0@, storage_device_component(p.1.device_spec)),
        (p.1.device_spec.spec_backend_name(), storage_backend_component(p.1.backend_spec)),
    ]
}

/// The named wire components a grouped NIC flattens into.
pub open spec fn nic_pair(p: (String, Nic)) -> Seq<(Seq<char>, ComponentV0)> {
    seq![
        (p.0@, ComponentV0::VirtioNic(p.1.device_spec)),
        (p.1.device_spec.backend_name@, ComponentV0::VionaBackend(p.1.backend_spec)),
    ]
}

/// The named wire components a grouped serial port flattens into. Ports
/// reserved by the host are not part of the wire form.
pub open spec fn serial_pair(p: (String, SerialPort)) -> Seq<(Seq<char>, ComponentV0)> {
    if p.1.user is Standard {
        seq![(p.0@, ComponentV0::SerialPort(SerialPortDesc { num: p.1.num }))]
    } else {
        Seq::empty()
    }
}

/// The named wire component a grouped PCI bridge flattens into.
pub open spec fn bridge_pair(p: (String, PciPciBridge)) -> Seq<(Seq<char>, ComponentV0)> {
    seq![(p.0@, ComponentV0::PciPciBridge(p.1))]
}

/// The named wire components a grouped extension port flattens into.
pub open spec fn softnpu_port_pair(p: (String, SoftNpuPort)) -> Seq<(Seq<char>, ComponentV0)> {
    seq![
        (p.0@, ComponentV0::SoftNpuPort(p.1.port_spec)),
        (p.1.port_spec.backend_name@, ComponentV0::DlpiBackend(p.1.backend_spec)),
    ]
}

/// The wire entries of a whole group, in order: each grouped entry's pairs,
/// concatenated.
pub open spec fn entries_of<T>(
    s: Seq<(String, T)>,
    f: spec_fn((String, T)) -> Seq<(Seq<char>, ComponentV0)>,
) -> Seq<(Seq<char>, ComponentV0)>
    decreases s.len(),
{
    if s.len() == 0 {
        Seq::empty()
    } else {
        f(s.first()) + entries_of(s.drop_first(), f)
    }
}

/// Extending the processed prefix of a group by one entry appends exactly
/// that entry's wire pairs.
pub proof fn lemma_entries_of_take_step<T>(
    s: Seq<(String, T)>,
    f: spec_fn((String, T)) -> Seq<(Seq<char>, ComponentV0)>,
    i: int,
)
    requires
        0 <= i < s.len(),
    ensures
        entries_of(s.take(i + 1), f) == entries_of(s.take(i), f) + f(s[i]),
    decreases i,
{
    if i == 0 {
        assert(s.take(1).first() == s[0]);
        assert(s.take(1).drop_first() =~= Seq::<(String, T)>::empty());
        assert(s.take(0) =~= Seq::<(String, T)>::empty());
        assert(entries_of(s.take(1), f) =~= entries_of(s.take(0), f) + f(s[0]));
    } else {
        let t = s.drop_first();
        lemma_entries_of_take_step(t, f, i - 1);
        assert(s.take(i + 1).first() == s.first());
        assert(s.take(i + 1).drop_first() =~= t.take(i));
        assert(s.take(i).first() == s.first());
        assert(s.take(i).drop_first() =~= t.take(i - 1));
        assert(t[i - 1] == s[i]);
        assert(entries_of(s.take(i + 1), f) == f(s.first()) + entries_of(t.take(i), f));
        assert(entries_of(s.take(i), f) == f(s.first()) + entries_of(t.take(i - 1), f));
        assert(f(s.first()) + (entries_of(t.take(i - 1), f) + f(t[i - 1])) =~= (f(s.first())
            + entries_of(t.take(i - 1), f)) + f(t[i - 1]));
    }
}

/// A group's wire entries are those of any processed prefix followed by
/// those of the rest.
pub proof fn lemma_entries_of_split<T>(
    s: Seq<(String, T)>,
    f: spec_fn((String, T)) -> Seq<(Seq<char>, ComponentV0)>,
    i: int,
)
    requires
        0 <= i <= s.len(),
    ensures
        entries_of(s, f) == entries_of(s.take(i), f) + entries_of(s.skip(i), f),
    decreases i,
{
    if i == 0 {
        assert(s.take(0) =~= Seq::<(String, T)>::empty());
        assert(s.skip(0) =~= s);
        assert(entries_of(s, f) =~= entries_of(s.take(0), f) + entries_of(s.skip(0), f));
    } else {
        lemma_entries_of_split(s, f, i - 1);
        lemma_entries_of_take_step(s, f, i - 1);
        assert(s.skip(i - 1).first() == s[i - 1]);
        assert(s.skip(i - 1).drop_first() =~= s.skip(i));
        assert(entries_of(s.skip(i - 1), f) == f(s[i - 1]) + entries_of(s.skip(i), f));
        assert((entries_of(s.take(i - 1), f) + f(s[i - 1])) + entries_of(s.skip(i), f) =~= entries_of(
            s.take(i - 1),
            f,
        ) + (f(s[i - 1]) + entries_of(s.skip(i), f)));
    }
}

/// The wire entries of the optional singleton devices.
pub open spec fn pvpanic_entries(o: Option<QemuPvpanic>) -> Seq<(Seq<char>, ComponentV0)> {
    match o {
        None => Seq::empty(),
        Some(pv) => seq![(pv.name@, ComponentV0::QemuPvpanic(pv.spec))],
    }
}

/// The wire entries of an optional extension PCI port.
pub open spec fn softnpu_pci_entries(o: Option<(String, SoftNpuPciPort)>) -> Seq<
    (Seq<char>, ComponentV0),
> {
    match o {
        None => Seq::empty(),
        Some(p) => seq![(p.0@, ComponentV0::SoftNpuPciPort(p.1))],
    }
}

/// The wire entries of an optional extension filesystem port.
pub open spec fn softnpu_p9_entries(o: Option<(String, SoftNpuP9)>) -> Seq<
    (Seq<char>, ComponentV0),
> {
    match o {
        None => Seq::empty(),
        Some(p) => seq![(p.0@, ComponentV0::SoftNpuP9(p.1))],
    }
}

/// The wire entries of an optional filesystem-passthrough device.
pub open spec fn p9fs_entries(o: Option<(String, P9fs)>) -> Seq<(Seq<char>, ComponentV0)> {
    match o {
        None => Seq::empty(),
        Some(p) => seq![(p.0@, ComponentV0::P9fs(p.1))],
    }
}

/// `disk_pair` as a first-class function, for use with `entries_of`.
pub open spec fn disk_pair_fn() -> spec_fn((String, Disk)) -> Seq<(Seq<char>, ComponentV0)> {
    |p: (String, Disk)| disk_pair(p)
}

/// `nic_pair` as a first-class function.
pub open spec fn nic_pair_fn() -> spec_fn((String, Nic)) -> Seq<(Seq<char>, ComponentV0)> {
    |p: (String, Nic)| nic_pair(p)
}

/// `serial_pair` as a first-class function.
pub open spec fn serial_pair_fn() -> spec_fn((String, SerialPort)) -> Seq<
    (Seq<char>, ComponentV0),
> {
    |p: (String, SerialPort)| serial_pair(p)
}

/// `bridge_pair` as a first-class function.
pub open spec fn bridge_pair_fn() -> spec_fn((String, PciPciBridge)) -> Seq<
    (Seq<char>, ComponentV0),
> {
    |p: (String, PciPciBridge)| bridge_pair(p)
}

/// `softnpu_port_pair` as a first-class function.
pub open spec fn softnpu_port_pair_fn() -> spec_fn((String, SoftNpuPort)) -> Seq<
    (Seq<char>, ComponentV0),
> {
    |p: (String, SoftNpuPort)| softnpu_port_pair(p)
}

/// No two entries of `s` share a name.
pub open spec fn distinct_names<T>(s: Seq<(Seq<char>, T)>) -> bool {
    forall|i: int, j: int| 0 <= i < j < s.len() ==> s[i].0 != s[j].0
}

/// In a sequence with distinct names split as `pre + rest`, the names of
/// the first two `rest` entries are fresh: unlike every name in `pre`, and
/// unlike each other.
pub proof fn lemma_prefix_fresh(
    full: Seq<(Seq<char>, ComponentV0)>,
    pre: Seq<(Seq<char>, ComponentV0)>,
    rest: Seq<(Seq<char>, ComponentV0)>,
)
    requires
        distinct_names(full),
        full == pre + rest,
    ensures
        rest.len() > 0 ==> forall|k: int| 0 <= k < pre.len() ==> (#[trigger] pre[k].0) != rest[0].0,
        rest.len() > 1 ==> (forall|k: int|
            0 <= k < pre.len() ==> (#[trigger] pre[k].0) != rest[1].0) && rest[0].0 != rest[1].0,
{
    if rest.len() > 0 {
        assert forall|k: int| 0 <= k < pre.len() implies (#[trigger] pre[k].0) != rest[0].0 by {
            assert(full[k] == pre[k]);
            assert(full[pre.len() as int] == rest[0]);
        }
    }
    if rest.len() > 1 {
        assert forall|k: int| 0 <= k < pre.len() implies (#[trigger] pre[k].0) != rest[1].0 by {
            assert(full[k] == pre[k]);
            assert(full[pre.len() as int + 1] == rest[1]);
        }
        assert(full[pre.len() as int] == rest[0]);
        assert(full[pre.len() as int + 1] == rest[1]);
    }
}

impl SoftNpu {
    /// The wire entries of the extension components, in flattening order.
    pub open spec fn wire_entries(self) -> Seq<(Seq<char>, ComponentV0)> {
        softnpu_pci_entries(self.pci_port) + softnpu_p9_entries(self.p9_device) + p9fs_entries(
            self.p9fs,
        ) + entries_of(self.ports@, softnpu_port_pair_fn())
    }

    /// An extension group with no components.
    pub fn none() -> (r: Self)
        ensures
            r.pci_port is None,
            r.p9_device is None,
            r.p9fs is None,
            r.ports@ =~= Seq::<(String, SoftNpuPort)>::empty(),
            r.wire_entries() =~= Seq::<(Seq<char>, ComponentV0)>::empty(),
    {
        let r = SoftNpu { pci_port: None, ports: Vec::new(), p9_device: None, p9fs: None };
        proof {
            assert(r.wire_entries() =~= Seq::<(Seq<char>, ComponentV0)>::empty());
        }
        r
    }
}

impl Spec {
    /// The named wire components this grouped spec flattens into, in
    /// flattening order: disks, NICs, serial ports, bridges, the panic
    /// device, then the platform-extension components.
    pub open spec fn wire_entries(self) -> Seq<(Seq<char>, ComponentV0)> {
        entries_of(self.disks@, disk_pair_fn()) + entries_of(self.nics@, nic_pair_fn())
            + entries_of(self.serial@, serial_pair_fn()) + entries_of(
            self.pci_pci_bridges@,
            bridge_pair_fn(),
        ) + pvpanic_entries(self.pvpanic) + self.softnpu.wire_entries()
    }

    /// Well-formed: no two of the wire components this spec flattens into
    /// share a name. Every spec grouped from a well-formed wire spec has
    /// this property, and it is what guarantees that flattening can never
    /// collide.
    pub open spec fn wf(self) -> bool {
        distinct_names(self.wire_entries())
    }
}

/// Builds the wire component for a grouped storage device.
fn storage_device_to_component(d: &StorageDevice) -> (r: ComponentV0)
    ensures
        r == storage_device_component(*d),
{
    match d {
        StorageDevice::Virtio(x) => ComponentV0::VirtioDisk(x.duplicate()),
        StorageDevice::Nvme(x) => ComponentV0::NvmeDisk(x.duplicate()),
    }
}

/// Builds the wire component for a grouped storage backend.
fn storage_backend_to_component(b: &StorageBackend) -> (r: ComponentV0)
    ensures
        r == storage_backend_component(*b),
{
    match b {
        StorageBackend::Crucible(x) => ComponentV0::CrucibleBackend(x.duplicate()),
        StorageBackend::File(x) => ComponentV0::FileStorageBackend(x.duplicate()),
        StorageBackend::Blob(x) => ComponentV0::BlobStorageBackend(x.duplicate()),
    }
}

impl Spec {
    /// Flattens this grouped spec into its wire form. Each group entry is
    /// split back into its named components: the device under its own name
    /// and, for backed devices, its backend under the backend's name. The
    /// grouped form's well-formedness guarantees that no two components
    /// collide on a name.
    #[verifier::rlimit(100)]
    #[verifier::spinoff_prover]
    pub fn to_wire(self) -> (r: InstanceSpecV0)
        requires
            self.wf(),
        ensures
            r.board == self.board,
            r.components.entries_view() == self.wire_entries(),
            r.wf(),
    {
        let ghost full = self.wire_entries();
        let mut components = ComponentMap::new();

        let mut i: usize = 0;
        while i < self.disks.len()
            invariant
                full == self.wire_entries(),
                distinct_names(full),
                i <= self.disks@.len(),
                components.entries_view() == entries_of(self.disks@.take(i as int), disk_pair_fn()),
            decreases self.disks@.len() - i,
        {
            let ghost pre = components.entries_view();
            let ghost dp = disk_pair(self.disks@[i as int]);
            let ghost rest = dp + (entries_of(self.disks@.skip(i as int + 1), disk_pair_fn())
                + (entries_of(self.nics@, nic_pair_fn()) + (entries_of(
                self.serial@,
                serial_pair_fn(),
            ) + (entries_of(self.pci_pci_bridges@, bridge_pair_fn()) + (pvpanic_entries(
                self.pvpanic,
            ) + self.softnpu.wire_entries())))));
            proof {
                lemma_entries_of_split(self.disks@, disk_pair_fn(), i as int);
                assert(self.disks@.skip(i as int).first() == self.disks@[i as int]);
                assert(self.disks@.skip(i as int).drop_first() =~= self.disks@.skip(i as int + 1));
                assert(entries_of(self.disks@.skip(i as int), disk_pair_fn()) == dp + entries_of(
                    self.disks@.skip(i as int + 1),
                    disk_pair_fn(),
                ));
                assert(full =~= pre + rest);
                lemma_prefix_fresh(full, pre, rest);
                assert(rest[0] == dp[0]);
                assert(rest[1] == dp[1]);
            }
            let name = self.disks[i].0.clone();
            let dev_c = storage_device_to_component(&self.disks[i].1.device_spec);
            let backend_name = self.disks[i].1.device_spec.backend_name().clone();
            let back_c = storage_backend_to_component(&self.disks[i].1.backend_spec);
            components.insert(name, dev_c);
            components.insert(backend_name, back_c);
            proof {
                lemma_entries_of_take_step(self.disks@, disk_pair_fn(), i as int);
                assert(components.entries_view() =~= entries_of(
                    self.disks@.take(i as int + 1),
                    disk_pair_fn(),
                ));
            }
            i += 1;
        }
        let ghost pre_nics = components.entries_view();
        proof {
            assert(self.disks@.take(self.disks@.len() as int) =~= self.disks@);
        }

        let mut i: usize = 0;
        while i < self.nics.len()
            invariant
                full == self.wire_entries(),
                distinct_names(full),
                i <= self.nics@.len(),
                pre_nics == entries_of(self.disks@, disk_pair_fn()),
                components.entries_view() == pre_nics + entries_of(
                    self.nics@.take(i as int),
                    nic_pair_fn(),
                ),
            decreases self.nics@.len() - i,
        {
            let ghost pre = components.entries_view();
            let ghost np = nic_pair(self.nics@[i as int]);
            let ghost rest = np + (entries_of(self.nics@.skip(i as int + 1), nic_pair_fn())
                + (entries_of(self.serial@, serial_pair_fn()) + (entries_of(
                self.pci_pci_bridges@,
                bridge_pair_fn(),
            ) + (pvpanic_entries(self.pvpanic) + self.softnpu.wire_entries()))));
            proof {
                lemma_entries_of_split(self.nics@, nic_pair_fn(), i as int);
                assert(self.nics@.skip(i as int).first() == self.nics@[i as int]);
                assert(self.nics@.skip(i as int).drop_first() =~= self.nics@.skip(i as int + 1));
                assert(entries_of(self.nics@.skip(i as int), nic_pair_fn()) == np + entries_of(
                    self.nics@.skip(i as int + 1),
                    nic_pair_fn(),
                ));
                assert(full =~= pre + rest);
                lemma_prefix_fresh(full, pre, rest);
                assert(rest[0] == np[0]);
                assert(rest[1] == np[1]);
            }
            let name = self.nics[i].0.clone();
            let dev_c = ComponentV0::VirtioNic(self.nics[i].1.device_spec.duplicate());
            let backend_name = self.nics[i].1.device_spec.backend_name.clone();
            let back_c = ComponentV0::VionaBackend(self.nics[i].1.backend_spec.duplicate());
            components.insert(name, dev_c);
            components.insert(backend_name, back_c);
            proof {
                lemma_entries_of_take_step(self.nics@, nic_pair_fn(), i as int);
                assert(components.entries_view() =~= pre_nics + entries_of(
                    self.nics@.take(i as int + 1),
                    nic_pair_fn(),
                ));
            }
            i += 1;
        }
        let ghost pre_serial = components.entries_view();
        proof {
            assert(self.nics@.take(self.nics@.len() as int) =~= self.nics@);
        }

        let mut i: usize = 0;
        while i < self.serial.len()
            invariant
                full == self.wire_entries(),
                distinct_names(full),
                i <= self.serial@.len(),
                pre_serial == entries_of(self.disks@, disk_pair_fn()) + entries_of(
                    self.nics@,
                    nic_pair_fn(),
                ),
                components.entries_view() == pre_serial + entries_of(
                    self.serial@.take(i as int),
                    serial_pair_fn(),
                ),
            decreases self.serial@.len() - i,
        {
            let ghost pre = components.entries_view();
            let ghost sp = serial_pair(self.serial@[i as int]);
            let ghost rest = sp + (entries_of(self.serial@.skip(i as int + 1), serial_pair_fn())
                + (entries_of(self.pci_pci_bridges@, bridge_pair_fn()) + (pvpanic_entries(
                self.pvpanic,
            ) + self.softnpu.wire_entries())));
            proof {
                lemma_entries_of_split(self.serial@, serial_pair_fn(), i as int);
                assert(self.serial@.skip(i as int).first() == self.serial@[i as int]);
                assert(self.serial@.skip(i as int).drop_first() =~= self.serial@.skip(
                    i as int + 1,
                ));
                assert(entries_of(self.serial@.skip(i as int), serial_pair_fn()) == sp
                    + entries_of(self.serial@.skip(i as int + 1), serial_pair_fn()));
                assert(full =~= pre + rest);
                lemma_prefix_fresh(full, pre, rest);
            }
            if self.serial[i].1.user == SerialPortUser::Standard {
                proof {
                    assert(rest[0] == sp[0]);
                }
                let name = self.serial[i].0.clone();
                let desc = ComponentV0::SerialPort(SerialPortDesc { num: self.serial[i].1.num });
                components.insert(name, desc);
            }
            proof {
                lemma_entries_of_take_step(self.serial@, serial_pair_fn(), i as int);
                assert(components.entries_view() =~= pre_serial + entries_of(
                    self.serial@.take(i as int + 1),
                    serial_pair_fn(),
                ));
            }
            i += 1;
        }
        let ghost pre_bridges = components.entries_view();
        proof {
            assert(self.serial@.take(self.serial@.len() as int) =~= self.serial@);
        }

        let mut i: usize = 0;
        while i < self.pci_pci_bridges.len()
            invariant
                full == self.wire_entries(),
                distinct_names(full),
                i <= self.pci_pci_bridges@.len(),
                pre_bridges == entries_of(self.disks@, disk_pair_fn()) + entries_of(
                    self.nics@,
                    nic_pair_fn(),
                ) + entries_of(self.serial@, serial_pair_fn()),
                components.entries_view() == pre_bridges + entries_of(
                    self.pci_pci_bridges@.take(i as int),
                    bridge_pair_fn(),
                ),
            decreases self.pci_pci_bridges@.len() - i,
        {
            let ghost pre = components.entries_view();
            let ghost bp = bridge_pair(self.pci_pci_bridges@[i as int]);
            let ghost rest = bp + (entries_of(
                self.pci_pci_bridges@.skip(i as int + 1),
                bridge_pair_fn(),
            ) + (pvpanic_entries(self.pvpanic) + self.softnpu.wire_entries()));
            proof {
                lemma_entries_of_split(self.pci_pci_bridges@, bridge_pair_fn(), i as int);
                assert(self.pci_pci_bridges@.skip(i as int).first() == self.pci_pci_bridges@[
                    i as int
                ]);
                assert(self.pci_pci_bridges@.skip(i as int).drop_first()
                    =~= self.pci_pci_bridges@.skip(i as int + 1));
                assert(entries_of(self.pci_pci_bridges@.skip(i as int), bridge_pair_fn()) == bp
                    + entries_of(self.pci_pci_bridges@.skip(i as int + 1), bridge_pair_fn()));
                assert(full =~= pre + rest);
                lemma_prefix_fresh(full, pre, rest);
                assert(rest[0] == bp[0]);
            }
            let name = self.pci_pci_bridges[i].0.clone();
            let desc = ComponentV0::PciPciBridge(self.pci_pci_bridges[i].1);
            components.insert(name, desc);
            proof {
                lemma_entries_of_take_step(self.pci_pci_bridges@, bridge_pair_fn(), i as int);
                assert(components.entries_view() =~= pre_bridges + entries_of(
                    self.pci_pci_bridges@.take(i as int + 1),
                    bridge_pair_fn(),
                ));
            }
            i += 1;
        }
        proof {
            assert(self.pci_pci_bridges@.take(self.pci_pci_bridges@.len() as int)
                =~= self.pci_pci_bridges@);
        }

        if let Some(pv) = &self.pvpanic {
            let ghost pre = components.entries_view();
            let ghost rest = pvpanic_entries(self.pvpanic) + self.softnpu.wire_entries();
            proof {
                assert(full =~= pre + rest);
                lemma_prefix_fresh(full, pre, rest);
                assert(rest[0] == (pv.name@, ComponentV0::QemuPvpanic(pv.spec)));
            }
            components.insert(pv.name.clone(), ComponentV0::QemuPvpanic(pv.spec));
        }
        let ghost pre_softnpu = components.entries_view();

        if let Some((name, port)) = &self.softnpu.pci_port {
            let ghost pre = components.entries_view();
            let ghost rest = self.softnpu.wire_entries();
            proof {
                assert(full =~= pre + rest);
                lemma_prefix_fresh(full, pre, rest);
                assert(rest[0] == (name@, ComponentV0::SoftNpuPciPort(*port)));
            }
            components.insert(name.clone(), ComponentV0::SoftNpuPciPort(*port));
        }

        if let Some((name, p9)) = &self.softnpu.p9_device {
            let ghost pre = components.entries_view();
            let ghost rest = softnpu_p9_entries(self.softnpu.p9_device) + (p9fs_entries(
                self.softnpu.p9fs,
            ) + entries_of(self.softnpu.ports@, softnpu_port_pair_fn()));
            proof {
                assert(full =~= pre + rest);
                lemma_prefix_fresh(full, pre, rest);
                assert(rest[0] == (name@, ComponentV0::SoftNpuP9(*p9)));
            }
            components.insert(name.clone(), ComponentV0::SoftNpuP9(*p9));
        }

        if let Some((name, p9fs)) = &self.softnpu.p9fs {
            let ghost pre = components.entries_view();
            let ghost rest = p9fs_entries(self.softnpu.p9fs) + entries_of(
                self.softnpu.ports@,
                softnpu_port_pair_fn(),
            );
            proof {
                assert(full =~= pre + rest);
                lemma_prefix_fresh(full, pre, rest);
                assert(rest[0] == (name@, ComponentV0::P9fs(*p9fs)));
            }
            components.insert(name.clone(), ComponentV0::P9fs(p9fs.duplicate()));
        }
        let ghost pre_ports = components.entries_view();

        let mut i: usize = 0;
        while i < self.softnpu.ports.len()
            invariant
                full == self.wire_entries(),
                distinct_names(full),
                i <= self.softnpu.ports@.len(),
                full == pre_ports + entries_of(self.softnpu.ports@, softnpu_port_pair_fn()),
                components.entries_view() == pre_ports + entries_of(
                    self.softnpu.ports@.take(i as int),
                    softnpu_port_pair_fn(),
                ),
            decreases self.softnpu.ports@.len() - i,
        {
            let ghost pre = components.entries_view();
            let ghost pp = softnpu_port_pair(self.softnpu.ports@[i as int]);
            let ghost rest = pp + entries_of(
                self.softnpu.ports@.skip(i as int + 1),
                softnpu_port_pair_fn(),
            );
            proof {
                lemma_entries_of_split(self.softnpu.ports@, softnpu_port_pair_fn(), i as int);
                assert(self.softnpu.ports@.skip(i as int).first() == self.softnpu.ports@[i as int]);
                assert(self.softnpu.ports@.skip(i as int).drop_first() =~= self.softnpu.ports@.skip(
                    i as int + 1,
                ));
                assert(entries_of(self.softnpu.ports@.skip(i as int), softnpu_port_pair_fn()) == pp
                    + entries_of(self.softnpu.ports@.skip(i as int + 1), softnpu_port_pair_fn()));
                assert(full =~= pre + rest);
                lemma_prefix_fresh(full, pre, rest);
                assert(rest[0] == pp[0]);
                assert(rest[1] == pp[1]);
            }
            let name = self.softnpu.ports[i].0.clone();
            let dev_c = ComponentV0::SoftNpuPort(self.softnpu.ports[i].1.port_spec.duplicate());
            let backend_name = self.softnpu.ports[i].1.port_spec.backend_name.clone();
            let back_c = ComponentV0::DlpiBackend(self.softnpu.ports[i].1.backend_spec.duplicate());
            components.insert(name, dev_c);
            components.insert(backend_name, back_c);
            proof {
                lemma_entries_of_take_step(self.softnpu.ports@, softnpu_port_pair_fn(), i as int);
                assert(components.entries_view() =~= pre_ports + entries_of(
                    self.softnpu.ports@.take(i as int + 1),
                    softnpu_port_pair_fn(),
                ));
            }
            i += 1;
        }
        proof {
            assert(self.softnpu.ports@.take(self.softnpu.ports@.len() as int)
                =~= self.softnpu.ports@);
            assert(components.entries_view() == full);
        }

        InstanceSpecV0 { board: self.board, components }
    }
}

/// True when `c` is a storage backend of any kind.
pub open spec fn is_storage_backend_c(c: ComponentV0) -> bool {
    ||| c is CrucibleBackend
    ||| c is FileStorageBackend
    ||| c is BlobStorageBackend
}

/// True when `c` is a backend of any kind.
pub open spec fn is_backend_c(c: ComponentV0) -> bool {
    is_storage_backend_c(c) || c is VionaBackend || c is DlpiBackend
}

/// True when `c` is a disk device.
pub open spec fn is_disk_c(c: ComponentV0) -> bool {
    c is VirtioDisk || c is NvmeDisk
}

/// The backend name a disk device references.
pub open spec fn disk_backend_name(c: ComponentV0) -> Seq<char> {
    match c {
        ComponentV0::VirtioDisk(d) => d.backend_name@,
        ComponentV0::NvmeDisk(d) => d.backend_name@,
        _ => Seq::empty(),
    }
}

/// The backend name a NIC references.
pub open spec fn nic_backend_name(c: ComponentV0) -> Seq<char> {
    match c {
        ComponentV0::VirtioNic(n) => n.backend_name@,
        _ => Seq::empty(),
    }
}

/// The backend name an extension port references.
pub open spec fn port_backend_name(c: ComponentV0) -> Seq<char> {
    match c {
        ComponentV0::SoftNpuPort(p) => p.backend_name@,
        _ => Seq::empty(),
    }
}

/// True when `c` belongs to the packet-processing platform extension.
pub open spec fn is_softnpu_c(c: ComponentV0) -> bool {
    ||| c is SoftNpuPciPort
    ||| c is SoftNpuPort
    ||| c is SoftNpuP9
    ||| c is P9fs
}

/// True when `c` is a serial port claiming port number `s`.
pub open spec fn is_serial_c(c: ComponentV0, s: SerialPortNumber) -> bool {
    c matches ComponentV0::SerialPort(sp) && sp.num == s
}

/// The defect a `StorageBackendNotFound(b, d)` error reports: `d` names a
/// disk device whose backend name is `b`, and `b` names no storage backend,
/// or another disk also claims it.
pub open spec fn dangling_disk_backend(w: InstanceSpecV0, b: Seq<char>, d: Seq<char>) -> bool {
    &&& w.components.contains_name(d)
    &&& is_disk_c(w.components.value_of(d))
    &&& disk_backend_name(w.components.value_of(d)) == b
    &&& (!(w.components.contains_name(b) && is_storage_backend_c(w.components.value_of(b))) || (
    exists|n2: Seq<char>|
        n2 != d && #[trigger] w.components.contains_name(n2) && is_disk_c(
            w.components.value_of(n2),
        ) && disk_backend_name(w.components.value_of(n2)) == b))
}

/// The defect a `NetworkBackendNotFound(b, d)` error reports: `d` names a
/// NIC or extension port whose backend name is `b`, and `b` names no
/// backend of the matching kind, or another device of the same kind also
/// claims it.
pub open spec fn dangling_network_backend(w: InstanceSpecV0, b: Seq<char>, d: Seq<char>) -> bool {
    &&& w.components.contains_name(d)
    &&& ({
        ||| {
            &&& w.components.value_of(d) is VirtioNic
            &&& nic_backend_name(w.components.value_of(d)) == b
            &&& (!(w.components.contains_name(b) && w.components.value_of(b) is VionaBackend) || (
            exists|n2: Seq<char>|
                n2 != d && #[trigger] w.components.contains_name(n2) && w.components.value_of(
                    n2,
                ) is VirtioNic && nic_backend_name(w.components.value_of(n2)) == b))
        }
        ||| {
            &&& w.components.value_of(d) is SoftNpuPort
            &&& port_backend_name(w.components.value_of(d)) == b
            &&& (!(w.components.contains_name(b) && w.components.value_of(b) is DlpiBackend) || (
            exists|n2: Seq<char>|
                n2 != d && #[trigger] w.components.contains_name(n2) && w.components.value_of(
                    n2,
                ) is SoftNpuPort && port_backend_name(w.components.value_of(n2)) == b))
        }
    })
}

/// The defect a `BackendNotUsed(b)` error reports: `b` names a backend that
/// no device of the matching kind references.
pub open spec fn orphan_backend(w: InstanceSpecV0, b: Seq<char>) -> bool {
    &&& w.components.contains_name(b)
    &&& is_backend_c(w.components.value_of(b))
    &&& (is_storage_backend_c(w.components.value_of(b)) ==> !(exists|n2: Seq<char>| #[trigger]
    w.components.contains_name(n2) && is_disk_c(w.components.value_of(n2)) && disk_backend_name(
        w.components.value_of(n2),
    ) == b))
    &&& (w.components.value_of(b) is VionaBackend ==> !(exists|n2: Seq<char>| #[trigger]
    w.components.contains_name(n2) && w.components.value_of(n2) is VirtioNic && nic_backend_name(
        w.components.value_of(n2),
    ) == b))
    &&& (w.components.value_of(b) is DlpiBackend ==> !(exists|n2: Seq<char>| #[trigger]
    w.components.contains_name(n2) && w.components.value_of(n2) is SoftNpuPort
        && port_backend_name(w.components.value_of(n2)) == b))
}

/// The defect a `SoftNpuCompiledOut(n)` error reports: `n` names a
/// component of the packet-processing platform extension.
pub open spec fn unsupported_extension_component(w: InstanceSpecV0, n: Seq<char>) -> bool {
    w.components.contains_name(n) && is_softnpu_c(w.components.value_of(n))
}

/// The defect a `PciPathInUse(p)` error reports: two distinct components of
/// the spec claim the PCI path `p`.
pub open spec fn pci_conflict(w: InstanceSpecV0, p: PciPath) -> bool {
    exists|n1: Seq<char>, n2: Seq<char>|
        n1 != n2 && #[trigger] w.components.contains_name(n1) && #[trigger]
        w.components.contains_name(n2) && w.components.value_of(n1).spec_pci_path() == Some(p)
            && w.components.value_of(n2).spec_pci_path() == Some(p)
}

/// The defect a `SerialPortInUse(s)` error reports: two distinct serial
/// ports of the spec claim the port number `s`.
pub open spec fn serial_conflict(w: InstanceSpecV0, s: SerialPortNumber) -> bool {
    exists|n1: Seq<char>, n2: Seq<char>|
        n1 != n2 && #[trigger] w.components.contains_name(n1) && #[trigger]
        w.components.contains_name(n2) && is_serial_c(w.components.value_of(n1), s) && is_serial_c(
            w.components.value_of(n2),
            s,
        )
}

/// The defect a `PvpanicInUse(n)` error reports: `n` names a panic device
/// and the spec holds a second one.
pub open spec fn duplicate_pvpanic(w: InstanceSpecV0, n: Seq<char>) -> bool {
    &&& w.components.contains_name(n)
    &&& w.components.value_of(n) is QemuPvpanic
    &&& exists|n2: Seq<char>|
        n2 != n && #[trigger] w.components.contains_name(n2) && w.components.value_of(n2) is
            QemuPvpanic
}

/// The defect a `SoftNpuPciPortInUse(n)` error reports: `n` names an
/// extension PCI port and the spec holds a second one.
pub open spec fn duplicate_softnpu_pci(w: InstanceSpecV0, n: Seq<char>) -> bool {
    &&& w.components.contains_name(n)
    &&& w.components.value_of(n) is SoftNpuPciPort
    &&& exists|n2: Seq<char>|
        n2 != n && #[trigger] w.components.contains_name(n2) && w.components.value_of(n2) is
            SoftNpuPciPort
}

/// The defect a `SoftNpuP9InUse(n)` error reports: `n` names an extension
/// filesystem port and the spec holds a second one.
pub open spec fn duplicate_softnpu_p9(w: InstanceSpecV0, n: Seq<char>) -> bool {
    &&& w.components.contains_name(n)
    &&& w.components.value_of(n) is SoftNpuP9
    &&& exists|n2: Seq<char>|
        n2 != n && #[trigger] w.components.contains_name(n2) && w.components.value_of(n2) is
            SoftNpuP9
}

/// The defect a `P9fsInUse(n)` error reports: `n` names a
/// filesystem-passthrough device and the spec holds a second one.
pub open spec fn duplicate_p9fs(w: InstanceSpecV0, n: Seq<char>) -> bool {
    &&& w.components.contains_name(n)
    &&& w.components.value_of(n) is P9fs
    &&& exists|n2: Seq<char>|
        n2 != n && #[trigger] w.components.contains_name(n2) && w.components.value_of(n2) is P9fs
}

/// True when the wire spec `w` can be grouped, given whether this host
/// provides the packet-processing platform extension. Every backed device's
/// backend name must denote a backend of the matching kind, no two backed
/// devices may share a backend, every backend must be referenced, no two
/// devices may share a PCI path or a serial port number, each singleton
/// device kind may appear at most once, and extension components require
/// the extension.
pub open spec fn wire_convertible(w: InstanceSpecV0, softnpu_enabled: bool) -> bool {
    let ev = w.components.entries_view();
    &&& forall|i: int|
        0 <= i < ev.len() && is_disk_c(#[trigger] ev[i].1) ==> w.components.contains_name(
            disk_backend_name(ev[i].1),
        ) && is_storage_backend_c(w.components.value_of(disk_backend_name(ev[i].1)))
    &&& forall|i: int, j: int|
        0 <= i < ev.len() && 0 <= j < ev.len() && i != j && is_disk_c(#[trigger] ev[i].1)
            && is_disk_c(#[trigger] ev[j].1) ==> disk_backend_name(ev[i].1) != disk_backend_name(
            ev[j].1,
        )
    &&& forall|i: int|
        0 <= i < ev.len() && is_storage_backend_c(#[trigger] ev[i].1) ==> exists|t: int|
            0 <= t < ev.len() && is_disk_c(#[trigger] ev[t].1) && disk_backend_name(ev[t].1)
                == ev[i].0
    &&& forall|i: int|
        0 <= i < ev.len() && (#[trigger] ev[i].1) is VirtioNic ==> w.components.contains_name(
            nic_backend_name(ev[i].1),
        ) && w.components.value_of(nic_backend_name(ev[i].1)) is VionaBackend
    &&& forall|i: int, j: int|
        0 <= i < ev.len() && 0 <= j < ev.len() && i != j && (#[trigger] ev[i].1) is VirtioNic && (
        #[trigger] ev[j].1) is VirtioNic ==> nic_backend_name(ev[i].1) != nic_backend_name(
            ev[j].1,
        )
    &&& forall|i: int|
        0 <= i < ev.len() && (#[trigger] ev[i].1) is VionaBackend ==> exists|t: int|
            0 <= t < ev.len() && (#[trigger] ev[t].1) is VirtioNic && nic_backend_name(ev[t].1)
                == ev[i].0
    &&& forall|i: int|
        0 <= i < ev.len() && (#[trigger] ev[i].1) is SoftNpuPort ==> w.components.contains_name(
            port_backend_name(ev[i].1),
        ) && w.components.value_of(port_backend_name(ev[i].1)) is DlpiBackend
    &&& forall|i: int, j: int|
        0 <= i < ev.len() && 0 <= j < ev.len() && i != j && (#[trigger] ev[i].1) is SoftNpuPort && (
        #[trigger] ev[j].1) is SoftNpuPort ==> port_backend_name(ev[i].1) != port_backend_name(
            ev[j].1,
        )
    &&& forall|i: int|
        0 <= i < ev.len() && (#[trigger] ev[i].1) is DlpiBackend ==> exists|t: int|
            0 <= t < ev.len() && (#[trigger] ev[t].1) is SoftNpuPort && port_backend_name(ev[t].1)
                == ev[i].0
    &&& forall|i: int, j: int|
        0 <= i < ev.len() && 0 <= j < ev.len() && i != j && (#[trigger] ev[i].1).spec_pci_path() is
            Some ==> ev[i].1.spec_pci_path() != (#[trigger] ev[j].1).spec_pci_path()
    &&& forall|i: int, j: int|
        0 <= i < ev.len() && 0 <= j < ev.len() && i != j && ((#[trigger] ev[i].1) matches
        ComponentV0::SerialPort(a) && ((#[trigger] ev[j].1) matches ComponentV0::SerialPort(b)
            && a.num == b.num)) ==> false
    &&& forall|i: int, j: int|
        0 <= i < ev.len() && 0 <= j < ev.len() && i != j ==> !((#[trigger] ev[i].1) is QemuPvpanic
            && (#[trigger] ev[j].1) is QemuPvpanic)
    &&& forall|i: int, j: int|
        0 <= i < ev.len() && 0 <= j < ev.len() && i != j ==> !((#[trigger] ev[i].1) is
        SoftNpuPciPort && (#[trigger] ev[j].1) is SoftNpuPciPort)
    &&& forall|i: int, j: int|
        0 <= i < ev.len() && 0 <= j < ev.len() && i != j ==> !((#[trigger] ev[i].1) is SoftNpuP9
            && (#[trigger] ev[j].1) is SoftNpuP9)
    &&& forall|i: int, j: int|
        0 <= i < ev.len() && 0 <= j < ev.len() && i != j ==> !((#[trigger] ev[i].1) is P9fs && (
        #[trigger] ev[j].1) is P9fs)
    &&& !softnpu_enabled ==> forall|i: int|
        0 <= i < ev.len() ==> !is_softnpu_c(#[trigger] ev[i].1)
}

/// True when the grouped spec `g` is a grouping of the wire spec `w`: the
/// boards agree, `g` is well-formed, every wire component `g` flattens into
/// is a component of `w` under the same name, and `g` accounts for every
/// component of `w`.
pub open spec fn groups_wire(w: InstanceSpecV0, g: Spec) -> bool {
    &&& g.board == w.board
    &&& g.wf()
    &&& forall|k: int|
        0 <= k < g.wire_entries().len() ==> w.components.contains_name(
            (#[trigger] g.wire_entries()[k]).0,
        ) && w.components.value_of(g.wire_entries()[k].0) == g.wire_entries()[k].1
    &&& g.wire_entries().len() == w.components.entries_view().len()
}

/// The name/value pairs of a group, with names abstracted to character
/// sequences.
pub open spec fn pairs_view<T>(s: Seq<(String, T)>) -> Seq<(Seq<char>, T)> {
    s.map_values(|p: (String, T)| (p.0@, p.1))
}

/// True when some entry of `s` carries the name `n`.
pub open spec fn has_name<T>(s: Seq<(Seq<char>, T)>, n: Seq<char>) -> bool {
    exists|k: int| 0 <= k < s.len() && (#[trigger] s[k]).0 == n
}

/// Facts about a name-preserving partial projection of a sequence of named
/// entries: each projected entry comes from a source entry, distinct source
/// names give distinct projected names, and every projectable source entry
/// is projected.
pub proof fn lemma_bucket_facts<T>(
    s: Seq<(Seq<char>, ComponentV0)>,
    f: spec_fn((Seq<char>, ComponentV0)) -> Option<(Seq<char>, T)>,
)
    requires
        forall|p: (Seq<char>, ComponentV0)| (#[trigger] f(p)) matches Some(q) ==> q.0 == p.0,
        distinct_names(s),
    ensures
        forall|k: int|
            0 <= k < s.filter_map(f).len() ==> exists|i: int|
                0 <= i < s.len() && f(#[trigger] s[i]) == Some(#[trigger] s.filter_map(f)[k]),
        distinct_names(s.filter_map(f)),
        forall|i: int|
            0 <= i < s.len() && f(#[trigger] s[i]) is Some ==> exists|k: int|
                0 <= k < s.filter_map(f).len() && Some(#[trigger] s.filter_map(f)[k]) == f(s[i]),
    decreases s.len(),
{
    reveal_with_fuel(Seq::filter_map, 2);
    if s.len() == 0 {
    } else {
        let pre = s.drop_last();
        assert(distinct_names(pre));
        lemma_bucket_facts(pre, f);
        let r = s.filter_map(f);
        let rp = pre.filter_map(f);
        match f(s.last()) {
            Some(q) => {
                assert(r == rp + seq![q]);
                assert forall|k: int| 0 <= k < r.len() implies exists|i: int|
                    0 <= i < s.len() && f(#[trigger] s[i]) == Some(#[trigger] r[k]) by {
                    if k < rp.len() {
                        let i = choose|i: int|
                            0 <= i < pre.len() && f(#[trigger] pre[i]) == Some(rp[k]);
                        assert(f(s[i]) == Some(r[k]));
                    } else {
                        assert(f(s[s.len() - 1]) == Some(r[k]));
                    }
                }
                assert forall|k1: int, k2: int| 0 <= k1 < k2 < r.len() implies r[k1].0
                    != r[k2].0 by {
                    if k2 < rp.len() {
                        assert(rp[k1].0 != rp[k2].0);
                    } else {
                        let i = choose|i: int|
                            0 <= i < pre.len() && f(#[trigger] pre[i]) == Some(rp[k1]);
                        assert(r[k1].0 == pre[i].0);
                        assert(r[k2].0 == s.last().0);
                        assert(s[i].0 != s[s.len() - 1].0);
                    }
                }
                assert forall|i: int| 0 <= i < s.len() && f(#[trigger] s[i]) is Some implies exists|
                    k: int,
                |
                    0 <= k < r.len() && Some(#[trigger] r[k]) == f(s[i]) by {
                    if i < s.len() - 1 {
                        let k = choose|k: int| 0 <= k < rp.len() && Some(#[trigger] rp[k]) == f(
                            pre[i],
                        );
                        assert(Some(r[k]) == f(s[i]));
                    } else {
                        assert(Some(r[r.len() - 1]) == f(s[i]));
                    }
                }
            },
            None => {
                assert(r == rp);
                assert forall|i: int| 0 <= i < s.len() && f(#[trigger] s[i]) is Some implies exists|
                    k: int,
                |
                    0 <= k < r.len() && Some(#[trigger] r[k]) == f(s[i]) by {
                    if i < s.len() - 1 {
                        let k = choose|k: int| 0 <= k < rp.len() && Some(#[trigger] rp[k]) == f(
                            pre[i],
                        );
                        assert(Some(r[k]) == f(s[i]));
                    }
                }
            },
        }
    }
}

/// The projection that selects storage backends.
pub open spec fn storage_bucket_fn() -> spec_fn((Seq<char>, ComponentV0)) -> Option<
    (Seq<char>, StorageBackend),
> {
    |p: (Seq<char>, ComponentV0)|
        match p.1 {
            ComponentV0::CrucibleBackend(b) => Some((p.0, StorageBackend::Crucible(b))),
            ComponentV0::FileStorageBackend(b) => Some((p.0, StorageBackend::File(b))),
            ComponentV0::BlobStorageBackend(b) => Some((p.0, StorageBackend::Blob(b))),
            _ => None,
        }
}

/// The projection that selects kernel-bypass network backends.
pub open spec fn viona_bucket_fn() -> spec_fn((Seq<char>, ComponentV0)) -> Option<
    (Seq<char>, VirtioNetworkBackend),
> {
    |p: (Seq<char>, ComponentV0)|
        match p.1 {
            ComponentV0::VionaBackend(b) => Some((p.0, b)),
            _ => None,
        }
}

/// The projection that selects raw-link network backends.
pub open spec fn dlpi_bucket_fn() -> spec_fn((Seq<char>, ComponentV0)) -> Option<
    (Seq<char>, DlpiNetworkBackend),
> {
    |p: (Seq<char>, ComponentV0)|
        match p.1 {
            ComponentV0::DlpiBackend(b) => Some((p.0, b)),
            _ => None,
        }
}

/// The projection that selects devices (everything that is not a backend).
pub open spec fn device_bucket_fn() -> spec_fn((Seq<char>, ComponentV0)) -> Option<
    (Seq<char>, ComponentV0),
> {
    |p: (Seq<char>, ComponentV0)|
        if is_backend_c(p.1) {
            None
        } else {
            Some(p)
        }
}


/// Round trip: grouping a wire-form spec and flattening the grouped form
/// again yields a spec with the same board whose components are drawn,
/// name and value alike, from the original spec, one for one.
pub proof fn lemma_wire_round_trip(w: InstanceSpecV0, g: Spec, w2: InstanceSpecV0)
    requires
        w.wf(),
        groups_wire(w, g),
        w2.board == g.board,
        w2.components.entries_view() == g.wire_entries(),
    ensures
        w2.board == w.board,
        w2.components.entries_view().len() == w.components.entries_view().len(),
        w2.components.wf(),
        forall|n: Seq<char>| #[trigger]
            w2.components.contains_name(n) ==> w.components.contains_name(n)
                && w2.components.value_of(n) == w.components.value_of(n),
{
    assert forall|n: Seq<char>| #[trigger] w2.components.contains_name(n) implies
        w.components.contains_name(n) && w2.components.value_of(n) == w.components.value_of(
        n,
    ) by {
        let k = choose|k: int|
            0 <= k < w2.components.entries_view().len() && w2.components.entries_view()[k].0 == n;
        w2.components.lemma_entry_is_value(k);
        assert(g.wire_entries()[k].0 == n);
    }
}

} // verus!
