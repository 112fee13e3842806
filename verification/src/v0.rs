//! Version 0 of a fully-composed instance specification: a board plus an
//! arbitrary set of components, each under a unique name.
//!
//! This is the wire form of a spec: the shape in which specs are persisted,
//! carried in API requests, and sent ahead of a live migration. Changes to
//! the types in this module must stay backward compatible; breaking changes
//! require a new spec version.

use vstd::prelude::*;
use vstd::string::StringExecFns;

use crate::backends::{
    BlobStorageBackend, CrucibleStorageBackend, DlpiNetworkBackend, FileStorageBackend,
    StorageBackend, VirtioNetworkBackend,
};
use crate::board::{Board, Chipset, Cpuid, I440Fx};
use crate::devices::{
    NetworkDevice, NvmeDisk, P9fs, PciPciBridge, QemuPvpanic, SerialPort, SoftNpuP9,
    SoftNpuPciPort, SoftNpuPort, StorageDevice, VirtioDisk, VirtioNic,
};
use crate::migration::{
    CollectionCompatibilityError, ElementCompatibilityError, MigrationCompatibilityError,
};
use crate::grouped::pairs_view;
use crate::pci::PciPath;

verus! {

/// The types of components that can be attached to a VM.
#[derive(Clone, Debug, PartialEq, Eq)]
pub enum ComponentV0 {
    VirtioDisk(VirtioDisk),
    NvmeDisk(NvmeDisk),
    VirtioNic(VirtioNic),
    SerialPort(SerialPort),
    PciPciBridge(PciPciBridge),
    QemuPvpanic(QemuPvpanic),
    /// Only usable on hosts built with the packet-processing platform
    /// extension.
    SoftNpuPciPort(SoftNpuPciPort),
    /// Only usable on hosts built with the packet-processing platform
    /// extension.
    SoftNpuPort(SoftNpuPort),
    /// Only usable on hosts built with the packet-processing platform
    /// extension.
    SoftNpuP9(SoftNpuP9),
    /// Only usable on hosts built with the packet-processing platform
    /// extension.
    P9fs(P9fs),
    CrucibleBackend(CrucibleStorageBackend),
    FileStorageBackend(FileStorageBackend),
    BlobStorageBackend(BlobStorageBackend),
    VionaBackend(VirtioNetworkBackend),
    DlpiBackend(DlpiNetworkBackend),
}

impl ComponentV0 {
    /// The name of this component's kind, as reported in errors.
    pub open spec fn kind_name(self) -> Seq<char> {
        match self {
            ComponentV0::VirtioDisk(_) => "VirtioDisk"@,
            ComponentV0::NvmeDisk(_) => "NvmeDisk"@,
            ComponentV0::VirtioNic(_) => "VirtioNic"@,
            ComponentV0::SerialPort(_) => "SerialPort"@,
            ComponentV0::PciPciBridge(_) => "PciPciBridge"@,
            ComponentV0::QemuPvpanic(_) => "QemuPvpanic"@,
            ComponentV0::SoftNpuPciPort(_) => "SoftNpuPciPort"@,
            ComponentV0::SoftNpuPort(_) => "SoftNpuPort"@,
            ComponentV0::SoftNpuP9(_) => "SoftNpuP9"@,
            ComponentV0::P9fs(_) => "P9fs"@,
            ComponentV0::CrucibleBackend(_) => "CrucibleBackend"@,
            ComponentV0::FileStorageBackend(_) => "FileStorageBackend"@,
            ComponentV0::BlobStorageBackend(_) => "BlobStorageBackend"@,
            ComponentV0::VionaBackend(_) => "VionaBackend"@,
            ComponentV0::DlpiBackend(_) => "DlpiBackend"@,
        }
    }

    /// Returns the name of this component's kind.
    pub fn kind(&self) -> (r: &'static str)
        ensures
            r@ == self.kind_name(),
    {
        match self {
            ComponentV0::VirtioDisk(_) => "VirtioDisk",
            ComponentV0::NvmeDisk(_) => "NvmeDisk",
            ComponentV0::VirtioNic(_) => "VirtioNic",
            ComponentV0::SerialPort(_) => "SerialPort",
            ComponentV0::PciPciBridge(_) => "PciPciBridge",
            ComponentV0::QemuPvpanic(_) => "QemuPvpanic",
            ComponentV0::SoftNpuPciPort(_) => "SoftNpuPciPort",
            ComponentV0::SoftNpuPort(_) => "SoftNpuPort",
            ComponentV0::SoftNpuP9(_) => "SoftNpuP9",
            ComponentV0::P9fs(_) => "P9fs",
            ComponentV0::CrucibleBackend(_) => "CrucibleBackend",
            ComponentV0::FileStorageBackend(_) => "FileStorageBackend",
            ComponentV0::BlobStorageBackend(_) => "BlobStorageBackend",
            ComponentV0::VionaBackend(_) => "VionaBackend",
            ComponentV0::DlpiBackend(_) => "DlpiBackend",
        }
    }

    /// The PCI path this component occupies, if it is a PCI device. Backends
    /// and the ISA-only devices occupy no PCI slot.
    pub open spec fn spec_pci_path(self) -> Option<PciPath> {
        match self {
            ComponentV0::VirtioDisk(d) => Some(d.pci_path),
            ComponentV0::NvmeDisk(d) => Some(d.pci_path),
            ComponentV0::VirtioNic(n) => Some(n.pci_path),
            ComponentV0::PciPciBridge(b) => Some(b.pci_path),
            ComponentV0::SoftNpuPciPort(p) => Some(p.pci_path),
            ComponentV0::SoftNpuP9(p) => Some(p.pci_path),
            ComponentV0::P9fs(p) => Some(p.pci_path),
            _ => None,
        }
    }

    /// Returns the PCI path where this component should be attached, or
    /// `None` if the component is not a PCI device.
    pub fn pci_path(&self) -> (r: Option<PciPath>)
        ensures
            r == self.spec_pci_path(),
    {
        match self {
            ComponentV0::VirtioDisk(disk) => Some(disk.pci_path),
            ComponentV0::NvmeDisk(disk) => Some(disk.pci_path),
            ComponentV0::VirtioNic(nic) => Some(nic.pci_path),
            ComponentV0::PciPciBridge(bridge) => Some(bridge.pci_path),
            ComponentV0::SoftNpuPciPort(port) => Some(port.pci_path),
            ComponentV0::SoftNpuP9(p9) => Some(p9.pci_path),
            ComponentV0::P9fs(p9fs) => Some(p9fs.pci_path),
            _ => None,
        }
    }

    /// Returns a component equal to this one.
    pub fn duplicate(&self) -> (r: Self)
        ensures
            r == *self,
    {
        match self {
            ComponentV0::VirtioDisk(d) => ComponentV0::VirtioDisk(d.duplicate()),
            ComponentV0::NvmeDisk(d) => ComponentV0::NvmeDisk(d.duplicate()),
            ComponentV0::VirtioNic(n) => ComponentV0::VirtioNic(n.duplicate()),
            ComponentV0::SerialPort(p) => ComponentV0::SerialPort(*p),
            ComponentV0::PciPciBridge(b) => ComponentV0::PciPciBridge(*b),
            ComponentV0::QemuPvpanic(p) => ComponentV0::QemuPvpanic(*p),
            ComponentV0::SoftNpuPciPort(p) => ComponentV0::SoftNpuPciPort(*p),
            ComponentV0::SoftNpuPort(p) => ComponentV0::SoftNpuPort(p.duplicate()),
            ComponentV0::SoftNpuP9(p) => ComponentV0::SoftNpuP9(*p),
            ComponentV0::P9fs(p) => ComponentV0::P9fs(p.duplicate()),
            ComponentV0::CrucibleBackend(b) => ComponentV0::CrucibleBackend(b.duplicate()),
            ComponentV0::FileStorageBackend(b) => ComponentV0::FileStorageBackend(b.duplicate()),
            ComponentV0::BlobStorageBackend(b) => ComponentV0::BlobStorageBackend(b.duplicate()),
            ComponentV0::VionaBackend(b) => ComponentV0::VionaBackend(b.duplicate()),
            ComponentV0::DlpiBackend(b) => ComponentV0::DlpiBackend(b.duplicate()),
        }
    }

    /// True when the two components are of the same kind.
    pub open spec fn same_kind(self, other: Self) -> bool {
        match (self, other) {
            (ComponentV0::VirtioDisk(_), ComponentV0::VirtioDisk(_)) => true,
            (ComponentV0::NvmeDisk(_), ComponentV0::NvmeDisk(_)) => true,
            (ComponentV0::VirtioNic(_), ComponentV0::VirtioNic(_)) => true,
            (ComponentV0::SerialPort(_), ComponentV0::SerialPort(_)) => true,
            (ComponentV0::PciPciBridge(_), ComponentV0::PciPciBridge(_)) => true,
            (ComponentV0::QemuPvpanic(_), ComponentV0::QemuPvpanic(_)) => true,
            (ComponentV0::SoftNpuPciPort(_), ComponentV0::SoftNpuPciPort(_)) => true,
            (ComponentV0::SoftNpuPort(_), ComponentV0::SoftNpuPort(_)) => true,
            (ComponentV0::SoftNpuP9(_), ComponentV0::SoftNpuP9(_)) => true,
            (ComponentV0::P9fs(_), ComponentV0::P9fs(_)) => true,
            (ComponentV0::CrucibleBackend(_), ComponentV0::CrucibleBackend(_)) => true,
            (ComponentV0::FileStorageBackend(_), ComponentV0::FileStorageBackend(_)) => true,
            (ComponentV0::BlobStorageBackend(_), ComponentV0::BlobStorageBackend(_)) => true,
            (ComponentV0::VionaBackend(_), ComponentV0::VionaBackend(_)) => true,
            (ComponentV0::DlpiBackend(_), ComponentV0::DlpiBackend(_)) => true,
            _ => false,
        }
    }

    /// Component compatibility. Components of different kinds are never
    /// compatible. For kinds whose configuration is guest-visible, both
    /// sides' configurations must agree; the platform-extension kinds are an
    /// explicitly reviewed list for which the kind alone decides.
    pub open spec fn compatible_with(self, other: Self) -> bool {
        match (self, other) {
            (ComponentV0::VirtioDisk(a), ComponentV0::VirtioDisk(b)) => a.backend_name@
                == b.backend_name@ && a.pci_path == b.pci_path,
            (ComponentV0::NvmeDisk(a), ComponentV0::NvmeDisk(b)) => a.backend_name@
                == b.backend_name@ && a.pci_path == b.pci_path,
            (ComponentV0::VirtioNic(a), ComponentV0::VirtioNic(b)) => a.backend_name@
                == b.backend_name@ && a.pci_path == b.pci_path,
            (ComponentV0::SerialPort(a), ComponentV0::SerialPort(b)) => a.num == b.num,
            (ComponentV0::PciPciBridge(a), ComponentV0::PciPciBridge(b)) => a.downstream_bus
                == b.downstream_bus && a.pci_path == b.pci_path,
            (ComponentV0::QemuPvpanic(a), ComponentV0::QemuPvpanic(b)) => a.enable_isa
                == b.enable_isa,
            (ComponentV0::SoftNpuPciPort(_), ComponentV0::SoftNpuPciPort(_)) => true,
            (ComponentV0::SoftNpuPort(_), ComponentV0::SoftNpuPort(_)) => true,
            (ComponentV0::SoftNpuP9(_), ComponentV0::SoftNpuP9(_)) => true,
            (ComponentV0::P9fs(_), ComponentV0::P9fs(_)) => true,
            (ComponentV0::CrucibleBackend(a), ComponentV0::CrucibleBackend(b)) => a.request_json@
                == b.request_json@ && a.readonly == b.readonly,
            (ComponentV0::FileStorageBackend(a), ComponentV0::FileStorageBackend(b)) => a.path@
                == b.path@ && a.readonly == b.readonly,
            (ComponentV0::BlobStorageBackend(a), ComponentV0::BlobStorageBackend(b)) => a.base64@
                == b.base64@ && a.readonly == b.readonly,
            (ComponentV0::VionaBackend(a), ComponentV0::VionaBackend(b)) => a.vnic_name@
                == b.vnic_name@,
            (ComponentV0::DlpiBackend(a), ComponentV0::DlpiBackend(b)) => a.vnic_name@
                == b.vnic_name@,
            _ => false,
        }
    }

    /// True when `e` is the error this pair of components reports when they
    /// are incompatible: the two compared components themselves when they
    /// share a kind, or both kind names when they do not.
    pub open spec fn error_describes(self, other: Self, e: ElementCompatibilityError) -> bool {
        if self.same_kind(other) {
            e == ElementCompatibilityError::ComponentMismatch(self, other)
        } else {
            e matches ElementCompatibilityError::ComponentsIncomparable(k1, k2) && k1@
                == self.kind_name() && k2@ == other.kind_name()
        }
    }

    /// Decides whether a component of a running VM may be continued by
    /// `other` on the target. Components of the same kind compare their
    /// guest-visible configuration; components of different kinds are
    /// incomparable.
    pub fn can_migrate_from_element(&self, other: &Self) -> (r: Result<
        (),
        ElementCompatibilityError,
    >)
        ensures
            r is Ok <==> self.compatible_with(*other),
            r matches Err(e) ==> self.error_describes(*other, e),
    {
        let compatible: bool = match (self, other) {
            (ComponentV0::VirtioDisk(a), ComponentV0::VirtioDisk(b)) => a.backend_name
                == b.backend_name && a.pci_path == b.pci_path,
            (ComponentV0::NvmeDisk(a), ComponentV0::NvmeDisk(b)) => a.backend_name
                == b.backend_name && a.pci_path == b.pci_path,
            (ComponentV0::VirtioNic(a), ComponentV0::VirtioNic(b)) => a.backend_name
                == b.backend_name && a.pci_path == b.pci_path,
            (ComponentV0::SerialPort(a), ComponentV0::SerialPort(b)) => a.num == b.num,
            (ComponentV0::PciPciBridge(a), ComponentV0::PciPciBridge(b)) => a.downstream_bus
                == b.downstream_bus && a.pci_path == b.pci_path,
            (ComponentV0::QemuPvpanic(a), ComponentV0::QemuPvpanic(b)) => a.enable_isa
                == b.enable_isa,
            (ComponentV0::SoftNpuPciPort(_), ComponentV0::SoftNpuPciPort(_)) => true,
            (ComponentV0::SoftNpuPort(_), ComponentV0::SoftNpuPort(_)) => true,
            (ComponentV0::SoftNpuP9(_), ComponentV0::SoftNpuP9(_)) => true,
            (ComponentV0::P9fs(_), ComponentV0::P9fs(_)) => true,
            (ComponentV0::CrucibleBackend(a), ComponentV0::CrucibleBackend(b)) => a.request_json
                == b.request_json && a.readonly == b.readonly,
            (ComponentV0::FileStorageBackend(a), ComponentV0::FileStorageBackend(b)) => a.path
                == b.path && a.readonly == b.readonly,
            (ComponentV0::BlobStorageBackend(a), ComponentV0::BlobStorageBackend(b)) => a.base64
                == b.base64 && a.readonly == b.readonly,
            (ComponentV0::VionaBackend(a), ComponentV0::VionaBackend(b)) => a.vnic_name
                == b.vnic_name,
            (ComponentV0::DlpiBackend(a), ComponentV0::DlpiBackend(b)) => a.vnic_name
                == b.vnic_name,
            _ => false,
        };
        if compatible {
            Ok(())
        } else {
            let same = self.same_kind_exec(other);
            if same {
                Err(ElementCompatibilityError::ComponentMismatch(self.duplicate(), other.duplicate()))
            } else {
                Err(ElementCompatibilityError::ComponentsIncomparable(self.kind(), other.kind()))
            }
        }
    }

    /// Tests whether the two components are of the same kind.
    fn same_kind_exec(&self, other: &Self) -> (r: bool)
        ensures
            r == self.same_kind(*other),
    {
        match (self, other) {
            (ComponentV0::VirtioDisk(_), ComponentV0::VirtioDisk(_)) => true,
            (ComponentV0::NvmeDisk(_), ComponentV0::NvmeDisk(_)) => true,
            (ComponentV0::VirtioNic(_), ComponentV0::VirtioNic(_)) => true,
            (ComponentV0::SerialPort(_), ComponentV0::SerialPort(_)) => true,
            (ComponentV0::PciPciBridge(_), ComponentV0::PciPciBridge(_)) => true,
            (ComponentV0::QemuPvpanic(_), ComponentV0::QemuPvpanic(_)) => true,
            (ComponentV0::SoftNpuPciPort(_), ComponentV0::SoftNpuPciPort(_)) => true,
            (ComponentV0::SoftNpuPort(_), ComponentV0::SoftNpuPort(_)) => true,
            (ComponentV0::SoftNpuP9(_), ComponentV0::SoftNpuP9(_)) => true,
            (ComponentV0::P9fs(_), ComponentV0::P9fs(_)) => true,
            (ComponentV0::CrucibleBackend(_), ComponentV0::CrucibleBackend(_)) => true,
            (ComponentV0::FileStorageBackend(_), ComponentV0::FileStorageBackend(_)) => true,
            (ComponentV0::BlobStorageBackend(_), ComponentV0::BlobStorageBackend(_)) => true,
            (ComponentV0::VionaBackend(_), ComponentV0::VionaBackend(_)) => true,
            (ComponentV0::DlpiBackend(_), ComponentV0::DlpiBackend(_)) => true,
            _ => false,
        }
    }
}

/// A name-keyed collection of components. Names are unique by construction:
/// a given name denotes exactly one component for the collection's lifetime.
#[derive(Clone, Debug)]
pub struct ComponentMap {
    pub(crate) entries: Vec<(String, ComponentV0)>,
}

impl ComponentMap {
    /// The contents, as a sequence of name/component pairs in insertion
    /// order, with names abstracted to character sequences.
    pub closed spec fn entries_view(self) -> Seq<(Seq<char>, ComponentV0)> {
        self.entries@.map_values(|p: (String, ComponentV0)| (p.0@, p.1))
    }

    /// Well-formed: no two entries share a name.
    pub open spec fn wf(self) -> bool {
        forall|i: int, j: int|
            0 <= i < j < self.entries_view().len() ==> self.entries_view()[i].0
                != self.entries_view()[j].0
    }

    /// The number of components held.
    pub open spec fn spec_len(self) -> nat {
        self.entries_view().len()
    }

    /// True when some component is held under `name`.
    pub open spec fn contains_name(self, name: Seq<char>) -> bool {
        exists|i: int|
            0 <= i < self.entries_view().len() && self.entries_view()[i].0 == name
    }

    /// The component held under `name`.
    pub open spec fn value_of(self, name: Seq<char>) -> ComponentV0 {
        let i = choose|i: int|
            0 <= i < self.entries_view().len() && self.entries_view()[i].0 == name;
        self.entries_view()[i].1
    }

    /// The contents view indexes the underlying entries pointwise.
    pub(crate) proof fn lemma_entries_view_index(self, i: int)
        requires
            0 <= i < self.entries@.len(),
        ensures
            self.entries_view().len() == self.entries@.len(),
            self.entries_view()[i] == (self.entries@[i].0@, self.entries@[i].1),
    {
    }

    /// The contents view has one element per underlying entry.
    pub(crate) proof fn lemma_entries_view_len(self)
        ensures
            self.entries_view().len() == self.entries@.len(),
    {
    }

    /// With unique names, the entry at any index is the entry its name
    /// denotes.
    pub proof fn lemma_entry_is_value(self, i: int)
        requires
            self.wf(),
            0 <= i < self.entries_view().len(),
        ensures
            self.contains_name(self.entries_view()[i].0),
            self.value_of(self.entries_view()[i].0) == self.entries_view()[i].1,
    {
        let name = self.entries_view()[i].0;
        assert(self.contains_name(name));
        let j = choose|j: int|
            0 <= j < self.entries_view().len() && self.entries_view()[j].0 == name;
        assert(i == j);
    }

    /// Creates an empty collection.
    pub fn new() -> (r: Self)
        ensures
            r.entries_view() == Seq::<(Seq<char>, ComponentV0)>::empty(),
            r.wf(),
    {
        let r = ComponentMap { entries: Vec::new() };
        proof {
            assert(r.entries_view() =~= Seq::<(Seq<char>, ComponentV0)>::empty());
        }
        r
    }

    /// Finds the index of the entry named `name`, if any.
    fn find(&self, name: &String) -> (r: Option<usize>)
        ensures
            r is Some <==> self.contains_name(name@),
            r matches Some(i) ==> 0 <= i < self.entries_view().len() && self.entries_view()[
                i as int
            ].0 == name@,
    {
        let mut i: usize = 0;
        while i < self.entries.len()
            invariant
                i <= self.entries@.len(),
                self.entries_view().len() == self.entries@.len(),
                forall|t: int| 0 <= t < i ==> self.entries_view()[t].0 != name@,
            decreases self.entries@.len() - i,
        {
            if self.entries[i].0 == *name {
                proof {
                    assert(self.entries_view()[i as int].0 == name@);
                    assert(self.contains_name(name@));
                }
                return Some(i);
            }
            i += 1;
        }
        None
    }

    /// Returns the number of components held.
    pub fn len(&self) -> (r: usize)
        ensures
            r == self.spec_len(),
    {
        self.entries.len()
    }

    /// Tests whether some component is held under `name`.
    pub fn contains_key(&self, name: &String) -> (r: bool)
        ensures
            r == self.contains_name(name@),
    {
        self.find(name).is_some()
    }

    /// Looks up the component held under `name`.
    pub fn get(&self, name: &String) -> (r: Option<&ComponentV0>)
        requires
            self.wf(),
        ensures
            r is Some <==> self.contains_name(name@),
            r matches Some(c) ==> *c == self.value_of(name@),
    {
        match self.find(name) {
            Some(i) => {
                proof {
                    self.lemma_entry_is_value(i as int);
                }
                Some(&self.entries[i].1)
            },
            None => None,
        }
    }

    /// Adds a component under a name not yet in use.
    pub fn insert(&mut self, name: String, component: ComponentV0)
        requires
            !old(self).contains_name(name@),
        ensures
            final(self).entries_view() == old(self).entries_view().push((name@, component)),
            old(self).wf() ==> final(self).wf(),
    {
        let ghost prior = self.entries_view();
        self.entries.push((name, component));
        proof {
            assert(self.entries_view() =~= prior.push((name@, component)));
            if old(self).wf() {
                assert forall|i: int, j: int|
                    0 <= i < j < self.entries_view().len() implies self.entries_view()[i].0
                    != self.entries_view()[j].0 by {
                    if j < prior.len() {
                        assert(prior[i].0 != prior[j].0);
                    } else {
                        assert(self.entries_view()[j].0 == name@);
                        assert(self.entries_view()[i].0 == prior[i].0);
                        if prior[i].0 == name@ {
                            assert(old(self).contains_name(name@));
                        }
                    }
                }
            }
        }
    }

    /// True when the two collections hold the same names and every pair of
    /// same-named components is compatible.
    pub open spec fn compatible_collections(self, other: Self) -> bool {
        &&& forall|n: Seq<char>| #[trigger] self.contains_name(n) ==> other.contains_name(n)
        &&& forall|n: Seq<char>| #[trigger] other.contains_name(n) ==> self.contains_name(n)
        &&& forall|n: Seq<char>| #[trigger]
            self.contains_name(n) ==> self.value_of(n).compatible_with(other.value_of(n))
    }

    /// True when `e` is an error this pair of collections may report: a name
    /// one side lacks, or a pair of same-named components that are
    /// incompatible.
    pub open spec fn error_describes(self, other: Self, e: CollectionCompatibilityError) -> bool {
        match e {
            CollectionCompatibilityError::SelfMissingElement(n) => other.contains_name(n@)
                && !self.contains_name(n@),
            CollectionCompatibilityError::OtherMissingElement(n) => self.contains_name(n@)
                && !other.contains_name(n@),
            CollectionCompatibilityError::ElementMismatch(n, inner) => {
                &&& self.contains_name(n@)
                &&& other.contains_name(n@)
                &&& !self.value_of(n@).compatible_with(other.value_of(n@))
                &&& self.value_of(n@).error_describes(other.value_of(n@), inner)
            },
        }
    }

    /// Compares two component collections for migration compatibility: the
    /// name sets must agree, and each pair of same-named components must be
    /// compatible. The first mismatch found is reported with the name of the
    /// offending component.
    pub fn can_migrate_from_collection(&self, other: &Self) -> (r: Result<
        (),
        CollectionCompatibilityError,
    >)
        requires
            self.wf(),
            other.wf(),
        ensures
            r is Ok <==> self.compatible_collections(*other),
            r matches Err(e) ==> self.error_describes(*other, e),
    {
        let mut i: usize = 0;
        while i < self.entries.len()
            invariant
                self.wf(),
                other.wf(),
                i <= self.entries@.len(),
                self.entries_view().len() == self.entries@.len(),
                forall|t: int|
                    0 <= t < i ==> other.contains_name(#[trigger] self.entries_view()[t].0),
                forall|t: int|
                    0 <= t < i ==> (#[trigger] self.entries_view()[t].1).compatible_with(
                        other.value_of(self.entries_view()[t].0),
                    ),
            decreases self.entries@.len() - i,
        {
            let name = &self.entries[i].0;
            match other.get(name) {
                None => {
                    proof {
                        assert(self.entries_view()[i as int].0 == name@);
                        assert(self.contains_name(name@));
                    }
                    return Err(CollectionCompatibilityError::OtherMissingElement(name.clone()));
                },
                Some(other_component) => {
                    match (&self.entries[i].1).can_migrate_from_element(other_component) {
                        Err(e) => {
                            proof {
                                self.lemma_entry_is_value(i as int);
                            }
                            return Err(
                                CollectionCompatibilityError::ElementMismatch(name.clone(), e),
                            );
                        },
                        Ok(_) => {},
                    }
                },
            }
            i += 1;
        }
        proof {
            assert forall|n: Seq<char>| #[trigger] self.contains_name(n) implies other.contains_name(
                n,
            ) && self.value_of(n).compatible_with(other.value_of(n)) by {
                let t = choose|t: int|
                    0 <= t < self.entries_view().len() && self.entries_view()[t].0 == n;
                self.lemma_entry_is_value(t);
            }
        }
        let mut j: usize = 0;
        while j < other.entries.len()
            invariant
                self.wf(),
                other.wf(),
                j <= other.entries@.len(),
                other.entries_view().len() == other.entries@.len(),
                forall|n: Seq<char>| #[trigger]
                    self.contains_name(n) ==> other.contains_name(n) && self.value_of(
                        n,
                    ).compatible_with(other.value_of(n)),
                forall|t: int|
                    0 <= t < j ==> self.contains_name(#[trigger] other.entries_view()[t].0),
            decreases other.entries@.len() - j,
        {
            let name = &other.entries[j].0;
            if !self.contains_key(name) {
                proof {
                    assert(other.entries_view()[j as int].0 == name@);
                    assert(other.contains_name(name@));
                }
                return Err(CollectionCompatibilityError::SelfMissingElement(name.clone()));
            }
            j += 1;
        }
        proof {
            assert forall|n: Seq<char>| #[trigger] other.contains_name(n) implies self
                .contains_name(n) by {
                let t = choose|t: int|
                    0 <= t < other.entries_view().len() && other.entries_view()[t].0 == n;
                assert(self.contains_name(other.entries_view()[t].0));
            }
        }
        Ok(())
    }
}

/// A versioned instance specification: a board and a set of named components
/// to attach to the VM.
#[derive(Clone, Debug)]
pub struct InstanceSpecV0 {
    pub board: Board,
    pub components: ComponentMap,
}

impl Default for InstanceSpecV0 {
    /// An empty spec: a default board and no components.
    fn default() -> (r: Self)
        ensures
            r.board == (Board {
                cpus: 0,
                memory_mb: 0,
                chipset: Chipset::I440Fx(I440Fx { enable_pcie: false }),
                cpuid: Cpuid::BhyveDefault,
            }),
            r.components.entries_view() == Seq::<(Seq<char>, ComponentV0)>::empty(),
            r.wf(),
    {
        InstanceSpecV0 { board: Board::default(), components: ComponentMap::new() }
    }
}

impl InstanceSpecV0 {
    /// Well-formed: component names are unique.
    pub open spec fn wf(self) -> bool {
        self.components.wf()
    }

    /// Spec-to-spec migration compatibility: the boards must be compatible
    /// and the component collections must be compatible.
    pub open spec fn compatible_with(self, other: Self) -> bool {
        &&& self.board.compatible_with(other.board)
        &&& self.components.compatible_collections(other.components)
    }

    /// Decides whether the VM described by this spec may be continued by a
    /// VM configured from `other`. The board is compared first, then the
    /// component collections; the first mismatch is reported, tagged with
    /// the element or collection it was found in.
    pub fn can_migrate_from(&self, other: &Self) -> (r: Result<
        (),
        MigrationCompatibilityError,
    >)
        requires
            self.wf(),
            other.wf(),
        ensures
            r is Ok <==> self.compatible_with(*other),
            r matches Err(MigrationCompatibilityError::ElementMismatch(tag, e)) ==> tag@
                == "board"@ && self.board.error_describes(other.board, e),
            r matches Err(MigrationCompatibilityError::CollectionMismatch(tag, e)) ==> tag@
                == "components"@ && self.board.compatible_with(other.board)
                && self.components.error_describes(other.components, e),
    {
        match self.board.can_migrate_from_element(&other.board) {
            Err(e) => {
                return Err(
                    MigrationCompatibilityError::ElementMismatch(String::from_str("board"), e),
                );
            },
            Ok(_) => {},
        }
        match self.components.can_migrate_from_collection(&other.components) {
            Err(e) => {
                return Err(
                    MigrationCompatibilityError::CollectionMismatch(
                        String::from_str("components"),
                        e,
                    ),
                );
            },
            Ok(_) => {},
        }
        Ok(())
    }

    /// Returns the disk devices of this spec, each under its name.
    pub fn storage_devices(&self) -> (r: Vec<(String, StorageDevice)>)
        ensures
            pairs_view(r@) == self.components.entries_view().filter_map(storage_device_entry_fn()),
    {
        let mut r: Vec<(String, StorageDevice)> = Vec::new();
        let mut i: usize = 0;
        proof {
            assert(self.components.entries_view().take(0).filter_map(storage_device_entry_fn()) =~= pairs_view(r@));
        }
        while i < self.components.entries.len()
            invariant
                i <= self.components.entries@.len(),
                pairs_view(r@) == self.components.entries_view().take(i as int).filter_map(
                    storage_device_entry_fn(),
                ),
            decreases self.components.entries@.len() - i,
        {
            proof {
                assert(self.components.entries_view().take(i as int + 1).drop_last()
                    =~= self.components.entries_view().take(i as int));
                assert(self.components.entries_view().take(i as int + 1).last()
                    == self.components.entries_view()[i as int]);
            }
            match &self.components.entries[i].1 {
                ComponentV0::VirtioDisk(d) => {
                    r.push(
                        (
                            self.components.entries[i].0.clone(),
                            StorageDevice::Virtio(d.duplicate()),
                        ),
                    );
                },
                ComponentV0::NvmeDisk(d) => {
                    r.push(
                        (self.components.entries[i].0.clone(), StorageDevice::Nvme(d.duplicate())),
                    );
                },
                _ => {},
            }
            proof {
                assert(pairs_view(r@) =~= self.components.entries_view().take(i as int + 1).filter_map(
                    storage_device_entry_fn(),
                ));
            }
            i += 1;
        }
        proof {
            assert(self.components.entries_view().take(self.components.entries_view().len() as int)
                =~= self.components.entries_view());
        }
        r
    }


    /// Returns the storage backends of this spec, each under its name.
    pub fn storage_backends(&self) -> (r: Vec<(String, StorageBackend)>)
        ensures
            pairs_view(r@) == self.components.entries_view().filter_map(storage_backend_entry_fn()),
    {
        let mut r: Vec<(String, StorageBackend)> = Vec::new();
        let mut i: usize = 0;
        proof {
            assert(self.components.entries_view().take(0).filter_map(storage_backend_entry_fn()) =~= pairs_view(r@));
        }
        while i < self.components.entries.len()
            invariant
                i <= self.components.entries@.len(),
                pairs_view(r@) == self.components.entries_view().take(i as int).filter_map(
                    storage_backend_entry_fn(),
                ),
            decreases self.components.entries@.len() - i,
        {
            proof {
                assert(self.components.entries_view().take(i as int + 1).drop_last()
                    =~= self.components.entries_view().take(i as int));
                assert(self.components.entries_view().take(i as int + 1).last()
                    == self.components.entries_view()[i as int]);
            }
            match &self.components.entries[i].1 {
                ComponentV0::CrucibleBackend(b) => {
                    r.push(
                        (
                            self.components.entries[i].0.clone(),
                            StorageBackend::Crucible(b.duplicate()),
                        ),
                    );
                },
                ComponentV0::FileStorageBackend(b) => {
                    r.push(
                        (
                            self.components.entries[i].0.clone(),
                            StorageBackend::File(b.duplicate()),
                        ),
                    );
                },
                ComponentV0::BlobStorageBackend(b) => {
                    r.push(
                        (
                            self.components.entries[i].0.clone(),
                            StorageBackend::Blob(b.duplicate()),
                        ),
                    );
                },
                _ => {},
            }
            proof {
                assert(pairs_view(r@) =~= self.components.entries_view().take(i as int + 1).filter_map(
                    storage_backend_entry_fn(),
                ));
            }
            i += 1;
        }
        proof {
            assert(self.components.entries_view().take(self.components.entries_view().len() as int)
                =~= self.components.entries_view());
        }
        r
    }


    /// Returns the network devices of this spec, each under its name.
    pub fn network_devices(&self) -> (r: Vec<(String, NetworkDevice)>)
        ensures
            pairs_view(r@) == self.components.entries_view().filter_map(network_device_entry_fn()),
    {
        let mut r: Vec<(String, NetworkDevice)> = Vec::new();
        let mut i: usize = 0;
        proof {
            assert(self.components.entries_view().take(0).filter_map(network_device_entry_fn()) =~= pairs_view(r@));
        }
        while i < self.components.entries.len()
            invariant
                i <= self.components.entries@.len(),
                pairs_view(r@) == self.components.entries_view().take(i as int).filter_map(
                    network_device_entry_fn(),
                ),
            decreases self.components.entries@.len() - i,
        {
            proof {
                assert(self.components.entries_view().take(i as int + 1).drop_last()
                    =~= self.components.entries_view().take(i as int));
                assert(self.components.entries_view().take(i as int + 1).last()
                    == self.components.entries_view()[i as int]);
            }
            match &self.components.entries[i].1 {
                ComponentV0::VirtioNic(n) => {
                    r.push(
                        (
                            self.components.entries[i].0.clone(),
                            NetworkDevice::VirtioNic(n.duplicate()),
                        ),
                    );
                },
                _ => {},
            }
            proof {
                assert(pairs_view(r@) =~= self.components.entries_view().take(i as int + 1).filter_map(
                    network_device_entry_fn(),
                ));
            }
            i += 1;
        }
        proof {
            assert(self.components.entries_view().take(self.components.entries_view().len() as int)
                =~= self.components.entries_view());
        }
        r
    }


    /// Returns the PCI-PCI bridges of this spec, each under its name.
    pub fn pci_pci_bridges(&self) -> (r: Vec<(String, PciPciBridge)>)
        ensures
            pairs_view(r@) == self.components.entries_view().filter_map(bridge_entry_fn()),
    {
        let mut r: Vec<(String, PciPciBridge)> = Vec::new();
        let mut i: usize = 0;
        proof {
            assert(self.components.entries_view().take(0).filter_map(bridge_entry_fn()) =~= pairs_view(r@));
        }
        while i < self.components.entries.len()
            invariant
                i <= self.components.entries@.len(),
                pairs_view(r@) == self.components.entries_view().take(i as int).filter_map(
                    bridge_entry_fn(),
                ),
            decreases self.components.entries@.len() - i,
        {
            proof {
                assert(self.components.entries_view().take(i as int + 1).drop_last()
                    =~= self.components.entries_view().take(i as int));
                assert(self.components.entries_view().take(i as int + 1).last()
                    == self.components.entries_view()[i as int]);
            }
            match &self.components.entries[i].1 {
                ComponentV0::PciPciBridge(b) => {
                    r.push((self.components.entries[i].0.clone(), *b));
                },
                _ => {},
            }
            proof {
                assert(pairs_view(r@) =~= self.components.entries_view().take(i as int + 1).filter_map(
                    bridge_entry_fn(),
                ));
            }
            i += 1;
        }
        proof {
            assert(self.components.entries_view().take(self.components.entries_view().len() as int)
                =~= self.components.entries_view());
        }
        r
    }


    /// Returns the extension PCI ports of this spec, each under its name.
    pub fn softnpu_pci_ports(&self) -> (r: Vec<(String, SoftNpuPciPort)>)
        ensures
            pairs_view(r@) == self.components.entries_view().filter_map(softnpu_pci_entry_fn()),
    {
        let mut r: Vec<(String, SoftNpuPciPort)> = Vec::new();
        let mut i: usize = 0;
        proof {
            assert(self.components.entries_view().take(0).filter_map(softnpu_pci_entry_fn()) =~= pairs_view(r@));
        }
        while i < self.components.entries.len()
            invariant
                i <= self.components.entries@.len(),
                pairs_view(r@) == self.components.entries_view().take(i as int).filter_map(
                    softnpu_pci_entry_fn(),
                ),
            decreases self.components.entries@.len() - i,
        {
            proof {
                assert(self.components.entries_view().take(i as int + 1).drop_last()
                    =~= self.components.entries_view().take(i as int));
                assert(self.components.entries_view().take(i as int + 1).last()
                    == self.components.entries_view()[i as int]);
            }
            match &self.components.entries[i].1 {
                ComponentV0::SoftNpuPciPort(b) => {
                    r.push((self.components.entries[i].0.clone(), *b));
                },
                _ => {},
            }
            proof {
                assert(pairs_view(r@) =~= self.components.entries_view().take(i as int + 1).filter_map(
                    softnpu_pci_entry_fn(),
                ));
            }
            i += 1;
        }
        proof {
            assert(self.components.entries_view().take(self.components.entries_view().len() as int)
                =~= self.components.entries_view());
        }
        r
    }


    /// Returns the extension ports of this spec, each under its name.
    pub fn softnpu_ports(&self) -> (r: Vec<(String, SoftNpuPort)>)
        ensures
            pairs_view(r@) == self.components.entries_view().filter_map(softnpu_port_entry_fn()),
    {
        let mut r: Vec<(String, SoftNpuPort)> = Vec::new();
        let mut i: usize = 0;
        proof {
            assert(self.components.entries_view().take(0).filter_map(softnpu_port_entry_fn()) =~= pairs_view(r@));
        }
        while i < self.components.entries.len()
            invariant
                i <= self.components.entries@.len(),
                pairs_view(r@) == self.components.entries_view().take(i as int).filter_map(
                    softnpu_port_entry_fn(),
                ),
            decreases self.components.entries@.len() - i,
        {
            proof {
                assert(self.components.entries_view().take(i as int + 1).drop_last()
                    =~= self.components.entries_view().take(i as int));
                assert(self.components.entries_view().take(i as int + 1).last()
                    == self.components.entries_view()[i as int]);
            }
            match &self.components.entries[i].1 {
                ComponentV0::SoftNpuPort(b) => {
                    r.push((self.components.entries[i].0.clone(), b.duplicate()));
                },
                _ => {},
            }
            proof {
                assert(pairs_view(r@) =~= self.components.entries_view().take(i as int + 1).filter_map(
                    softnpu_port_entry_fn(),
                ));
            }
            i += 1;
        }
        proof {
            assert(self.components.entries_view().take(self.components.entries_view().len() as int)
                =~= self.components.entries_view());
        }
        r
    }


    /// Returns the extension filesystem ports of this spec, each under its name.
    pub fn softnpu_p9(&self) -> (r: Vec<(String, SoftNpuP9)>)
        ensures
            pairs_view(r@) == self.components.entries_view().filter_map(softnpu_p9_entry_fn()),
    {
        let mut r: Vec<(String, SoftNpuP9)> = Vec::new();
        let mut i: usize = 0;
        proof {
            assert(self.components.entries_view().take(0).filter_map(softnpu_p9_entry_fn()) =~= pairs_view(r@));
        }
        while i < self.components.entries.len()
            invariant
                i <= self.components.entries@.len(),
                pairs_view(r@) == self.components.entries_view().take(i as int).filter_map(
                    softnpu_p9_entry_fn(),
                ),
            decreases self.components.entries@.len() - i,
        {
            proof {
                assert(self.components.entries_view().take(i as int + 1).drop_last()
                    =~= self.components.entries_view().take(i as int));
                assert(self.components.entries_view().take(i as int + 1).last()
                    == self.components.entries_view()[i as int]);
            }
            match &self.components.entries[i].1 {
                ComponentV0::SoftNpuP9(b) => {
                    r.push((self.components.entries[i].0.clone(), *b));
                },
                _ => {},
            }
            proof {
                assert(pairs_view(r@) =~= self.components.entries_view().take(i as int + 1).filter_map(
                    softnpu_p9_entry_fn(),
                ));
            }
            i += 1;
        }
        proof {
            assert(self.components.entries_view().take(self.components.entries_view().len() as int)
                =~= self.components.entries_view());
        }
        r
    }


    /// Returns the filesystem-passthrough devices of this spec, each under its name.
    pub fn p9fs(&self) -> (r: Vec<(String, P9fs)>)
        ensures
            pairs_view(r@) == self.components.entries_view().filter_map(p9fs_entry_fn()),
    {
        let mut r: Vec<(String, P9fs)> = Vec::new();
        let mut i: usize = 0;
        proof {
            assert(self.components.entries_view().take(0).filter_map(p9fs_entry_fn()) =~= pairs_view(r@));
        }
        while i < self.components.entries.len()
            invariant
                i <= self.components.entries@.len(),
                pairs_view(r@) == self.components.entries_view().take(i as int).filter_map(
                    p9fs_entry_fn(),
                ),
            decreases self.components.entries@.len() - i,
        {
            proof {
                assert(self.components.entries_view().take(i as int + 1).drop_last()
                    =~= self.components.entries_view().take(i as int));
                assert(self.components.entries_view().take(i as int + 1).last()
                    == self.components.entries_view()[i as int]);
            }
            match &self.components.entries[i].1 {
                ComponentV0::P9fs(b) => {
                    r.push((self.components.entries[i].0.clone(), b.duplicate()));
                },
                _ => {},
            }
            proof {
                assert(pairs_view(r@) =~= self.components.entries_view().take(i as int + 1).filter_map(
                    p9fs_entry_fn(),
                ));
            }
            i += 1;
        }
        proof {
            assert(self.components.entries_view().take(self.components.entries_view().len() as int)
                =~= self.components.entries_view());
        }
        r
    }

}


/// Reflexivity: every well-formed spec is migration-compatible with an
/// identical copy of itself.
pub proof fn lemma_can_migrate_reflexive(s: InstanceSpecV0)
    requires
        s.wf(),
    ensures
        s.compatible_with(s),
{
    assert(s.board.compatible_with(s.board)) by {
        match (s.board.chipset, s.board.chipset) {
            (Chipset::I440Fx(a), Chipset::I440Fx(b)) => {},
        }
        match s.board.cpuid {
            Cpuid::BhyveDefault => {},
            Cpuid::Entries(e) => {},
        }
    }
    assert forall|n: Seq<char>| #[trigger] s.components.contains_name(n) implies
        s.components.value_of(n).compatible_with(s.components.value_of(n)) by {
        let c = s.components.value_of(n);
        match c {
            ComponentV0::VirtioDisk(_) => {},
            _ => {},
        }
    }
}


/// Projects a component entry to a storage-device entry, if it is one.
pub open spec fn storage_device_entry(p: (Seq<char>, ComponentV0)) -> Option<(Seq<char>, StorageDevice)> {
    match p.1 {
        ComponentV0::VirtioDisk(d) => Some((p.0, StorageDevice::Virtio(d))),
        ComponentV0::NvmeDisk(d) => Some((p.0, StorageDevice::Nvme(d))),
        _ => None,
    }
}

/// `storage_device_entry` as a first-class function.
pub open spec fn storage_device_entry_fn() -> spec_fn((Seq<char>, ComponentV0)) -> Option<
    (Seq<char>, StorageDevice),
> {
    |p: (Seq<char>, ComponentV0)| storage_device_entry(p)
}

/// Projects a component entry to a storage-backend entry, if it is one.
pub open spec fn storage_backend_entry(p: (Seq<char>, ComponentV0)) -> Option<
    (Seq<char>, StorageBackend),
> {
    match p.1 {
        ComponentV0::CrucibleBackend(b) => Some((p.0, StorageBackend::Crucible(b))),
        ComponentV0::FileStorageBackend(b) => Some((p.0, StorageBackend::File(b))),
        ComponentV0::BlobStorageBackend(b) => Some((p.0, StorageBackend::Blob(b))),
        _ => None,
    }
}

/// `storage_backend_entry` as a first-class function.
pub open spec fn storage_backend_entry_fn() -> spec_fn((Seq<char>, ComponentV0)) -> Option<
    (Seq<char>, StorageBackend),
> {
    |p: (Seq<char>, ComponentV0)| storage_backend_entry(p)
}

/// Projects a component entry to a network-device entry, if it is one.
pub open spec fn network_device_entry(p: (Seq<char>, ComponentV0)) -> Option<
    (Seq<char>, NetworkDevice),
> {
    match p.1 {
        ComponentV0::VirtioNic(n) => Some((p.0, NetworkDevice::VirtioNic(n))),
        _ => None,
    }
}

/// `network_device_entry` as a first-class function.
pub open spec fn network_device_entry_fn() -> spec_fn((Seq<char>, ComponentV0)) -> Option<
    (Seq<char>, NetworkDevice),
> {
    |p: (Seq<char>, ComponentV0)| network_device_entry(p)
}

/// Projects a component entry to a bridge entry, if it is one.
pub open spec fn bridge_entry(p: (Seq<char>, ComponentV0)) -> Option<(Seq<char>, PciPciBridge)> {
    match p.1 {
        ComponentV0::PciPciBridge(b) => Some((p.0, b)),
        _ => None,
    }
}

/// `bridge_entry` as a first-class function.
pub open spec fn bridge_entry_fn() -> spec_fn((Seq<char>, ComponentV0)) -> Option<
    (Seq<char>, PciPciBridge),
> {
    |p: (Seq<char>, ComponentV0)| bridge_entry(p)
}

/// Projects a component entry to an extension PCI-port entry, if it is one.
pub open spec fn softnpu_pci_entry(p: (Seq<char>, ComponentV0)) -> Option<(Seq<char>, SoftNpuPciPort)> {
    match p.1 {
        ComponentV0::SoftNpuPciPort(b) => Some((p.0, b)),
        _ => None,
    }
}

/// `softnpu_pci_entry` as a first-class function.
pub open spec fn softnpu_pci_entry_fn() -> spec_fn((Seq<char>, ComponentV0)) -> Option<
    (Seq<char>, SoftNpuPciPort),
> {
    |p: (Seq<char>, ComponentV0)| softnpu_pci_entry(p)
}

/// Projects a component entry to an extension port entry, if it is one.
pub open spec fn softnpu_port_entry(p: (Seq<char>, ComponentV0)) -> Option<(Seq<char>, SoftNpuPort)> {
    match p.1 {
        ComponentV0::SoftNpuPort(b) => Some((p.0, b)),
        _ => None,
    }
}

/// `softnpu_port_entry` as a first-class function.
pub open spec fn softnpu_port_entry_fn() -> spec_fn((Seq<char>, ComponentV0)) -> Option<
    (Seq<char>, SoftNpuPort),
> {
    |p: (Seq<char>, ComponentV0)| softnpu_port_entry(p)
}

/// Projects a component entry to an extension filesystem-port entry, if it
/// is one.
pub open spec fn softnpu_p9_entry(p: (Seq<char>, ComponentV0)) -> Option<(Seq<char>, SoftNpuP9)> {
    match p.1 {
        ComponentV0::SoftNpuP9(b) => Some((p.0, b)),
        _ => None,
    }
}

/// `softnpu_p9_entry` as a first-class function.
pub open spec fn softnpu_p9_entry_fn() -> spec_fn((Seq<char>, ComponentV0)) -> Option<
    (Seq<char>, SoftNpuP9),
> {
    |p: (Seq<char>, ComponentV0)| softnpu_p9_entry(p)
}

/// Projects a component entry to a filesystem-passthrough entry, if it is
/// one.
pub open spec fn p9fs_entry(p: (Seq<char>, ComponentV0)) -> Option<(Seq<char>, P9fs)> {
    match p.1 {
        ComponentV0::P9fs(b) => Some((p.0, b)),
        _ => None,
    }
}

/// `p9fs_entry` as a first-class function.
pub open spec fn p9fs_entry_fn() -> spec_fn((Seq<char>, ComponentV0)) -> Option<(Seq<char>, P9fs)> {
    |p: (Seq<char>, ComponentV0)| p9fs_entry(p)
}

} // verus!
