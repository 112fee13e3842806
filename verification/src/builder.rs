//! An incremental, validating builder for V0 instance specs.
//!
//! The builder catches structural conflicts — duplicate component names,
//! two devices at one PCI path, two serial ports with one port number — as
//! components are added, so that an invalid configuration never reaches a
//! running instance. Backend linkage is deliberately not checked here: a
//! device may be added before its backend, so dangling or orphaned backend
//! names are only detected when the finished spec is grouped.

use vstd::prelude::*;

use crate::board::{Board, Chipset, Cpuid, CpuidEntry, I440Fx};
use crate::devices::SerialPortNumber;
use crate::pci::PciPath;
use crate::v0::{ComponentMap, ComponentV0, InstanceSpecV0};

verus! {

/// True when `c` is a serial port claiming port number `s`.
pub open spec fn is_serial_with(c: ComponentV0, s: SerialPortNumber) -> bool {
    c matches ComponentV0::SerialPort(sp) && sp.num == s
}

/// The PCI-path record holds exactly the paths of the components held.
spec fn pci_tracking_ok(components: ComponentMap, pci: Seq<PciPath>) -> bool {
    forall|p: PciPath|
        pci.contains(p) <==> (exists|i: int|
            0 <= i < components.entries_view().len()
                && (#[trigger] components.entries_view()[i].1).spec_pci_path() == Some(p))
}

/// The serial-port record holds exactly the port numbers of the serial-port
/// components held.
spec fn serial_tracking_ok(components: ComponentMap, serial: Seq<SerialPortNumber>) -> bool {
    forall|s: SerialPortNumber|
        serial.contains(s) <==> (exists|i: int|
            0 <= i < components.entries_view().len() && is_serial_with(
                #[trigger] components.entries_view()[i].1,
                s,
            ))
}

/// A sequence extended by one element holds exactly the old elements and
/// the new one.
pub(crate) proof fn lemma_push_contains<A>(s: Seq<A>, v: A, x: A)
    ensures
        s.push(v).contains(x) <==> (s.contains(x) || x == v),
{
    if s.contains(x) {
        let j = choose|j: int| 0 <= j < s.len() && s[j] == x;
        assert(s.push(v)[j] == x);
    }
    if x == v {
        assert(s.push(v)[s.len() as int] == x);
    }
    if s.push(v).contains(x) {
        let j = choose|j: int| 0 <= j < s.push(v).len() && s.push(v)[j] == x;
        if j < s.len() {
            assert(s[j] == x);
        }
    }
}

/// A conflict detected while building a spec.
#[derive(Clone, Debug)]
pub enum SpecBuilderError {
    /// A component with this name already exists.
    NameInUse(String),
    /// A serial port with this port number is already specified.
    SerialPortInUse(SerialPortNumber),
    /// A PCI device is already attached at this path.
    PciPathInUse(PciPath),
}

/// A builder that constructs instance specs incrementally and catches basic
/// errors, such as duplicate component names or multiple devices with the
/// same PCI path.
pub struct SpecBuilder {
    spec: InstanceSpecV0,
    serial_ports: Vec<SerialPortNumber>,
    pci_paths: Vec<PciPath>,
}

impl SpecBuilder {
    /// The spec as built so far.
    pub closed spec fn spec_view(self) -> InstanceSpecV0 {
        self.spec
    }

    /// True when some already-added component occupies `path`.
    pub closed spec fn has_pci_path(self, path: PciPath) -> bool {
        self.pci_paths@.contains(path)
    }

    /// True when some already-added component claims serial port `num`.
    pub closed spec fn has_serial_port(self, num: SerialPortNumber) -> bool {
        self.serial_ports@.contains(num)
    }

    /// Well-formed: component names are unique, and the PCI-path and
    /// serial-port records hold exactly the paths and ports of the
    /// components added so far.
    pub closed spec fn wf(self) -> bool {
        &&& self.spec.wf()
        &&& pci_tracking_ok(self.spec.components, self.pci_paths@)
        &&& serial_tracking_ok(self.spec.components, self.serial_ports@)
    }

    /// True when `component` may be added under `name`: the name is new,
    /// its PCI path (if it has one) is unoccupied, and its serial port
    /// number (if it is a serial port) is unclaimed.
    pub open spec fn may_add(self, name: Seq<char>, component: ComponentV0) -> bool {
        &&& !self.spec_view().components.contains_name(name)
        &&& match component.spec_pci_path() {
            Some(p) => !self.has_pci_path(p),
            None => true,
        }
        &&& match component {
            ComponentV0::SerialPort(sp) => !self.has_serial_port(sp.num),
            _ => true,
        }
    }

    /// Starts a spec for a board with the given CPU count and memory size,
    /// the default chipset (PCIe disabled), the default CPUID policy, and
    /// no components.
    pub fn new(cpus: u8, memory_mb: u64) -> (r: Self)
        ensures
            r.wf(),
            r.spec_view().board == (Board {
                cpus,
                memory_mb,
                chipset: Chipset::I440Fx(I440Fx { enable_pcie: false }),
                cpuid: Cpuid::BhyveDefault,
            }),
            r.spec_view().components.entries_view() == Seq::<(Seq<char>, ComponentV0)>::empty(),
            forall|p: PciPath| !r.has_pci_path(p),
            forall|s: SerialPortNumber| !r.has_serial_port(s),
    {
        let board = Board {
            cpus,
            memory_mb,
            chipset: Chipset::I440Fx(I440Fx { enable_pcie: false }),
            cpuid: Cpuid::BhyveDefault,
        };
        let r = SpecBuilder {
            spec: InstanceSpecV0 { board, components: ComponentMap::new() },
            serial_ports: Vec::new(),
            pci_paths: Vec::new(),
        };
        r
    }

    /// Consumes the builder and yields the completed spec. No further
    /// validation happens here; backend linkage is checked when the spec is
    /// grouped.
    pub fn finish(self) -> (r: InstanceSpecV0)
        requires
            self.wf(),
        ensures
            r == self.spec_view(),
            r.wf(),
    {
        self.spec
    }

    /// Replaces the in-progress board's CPUID policy with an explicit entry
    /// list.
    pub fn set_cpuid(&mut self, entries: Vec<CpuidEntry>) -> (r: &Self)
        requires
            old(self).wf(),
        ensures
            final(self).wf(),
            final(self).spec_view().board == (Board {
                cpuid: Cpuid::Entries(entries),
                ..old(self).spec_view().board
            }),
            final(self).spec_view().components == old(self).spec_view().components,
            forall|p: PciPath| final(self).has_pci_path(p) == old(self).has_pci_path(p),
            forall|s: SerialPortNumber|
                final(self).has_serial_port(s) == old(self).has_serial_port(s),
    {
        self.spec.board.cpuid = Cpuid::Entries(entries);
        self
    }

    /// Switches the in-progress board's chipset to enable PCIe.
    pub fn enable_pcie(&mut self) -> (r: &Self)
        requires
            old(self).wf(),
        ensures
            final(self).wf(),
            final(self).spec_view().board == (Board {
                chipset: Chipset::I440Fx(I440Fx { enable_pcie: true }),
                ..old(self).spec_view().board
            }),
            final(self).spec_view().components == old(self).spec_view().components,
            forall|p: PciPath| final(self).has_pci_path(p) == old(self).has_pci_path(p),
            forall|s: SerialPortNumber|
                final(self).has_serial_port(s) == old(self).has_serial_port(s),
    {
        self.spec.board.chipset = Chipset::I440Fx(I440Fx { enable_pcie: true });
        self
    }

    /// Records that a device occupies `pci_path`, failing if the path is
    /// already in use.
    fn register_pci_device(&mut self, pci_path: PciPath) -> (r: Result<(), SpecBuilderError>)
        ensures
            r is Ok <==> !old(self).has_pci_path(pci_path),
            r is Ok ==> final(self).pci_paths@ == old(self).pci_paths@.push(pci_path) && final(self).serial_ports == old(self).serial_ports && final(self).spec == old(self).spec,
            r is Err ==> *final(self) == *old(self) && r == Err::<(), SpecBuilderError>(
                SpecBuilderError::PciPathInUse(pci_path),
            ),
    {
        if contains_path(&self.pci_paths, pci_path) {
            Err(SpecBuilderError::PciPathInUse(pci_path))
        } else {
            self.pci_paths.push(pci_path);
            Ok(())
        }
    }

    /// Records that a serial port claims `port`, failing if the port number
    /// is already claimed.
    fn register_serial_port(&mut self, port: SerialPortNumber) -> (r: Result<
        (),
        SpecBuilderError,
    >)
        ensures
            r is Ok <==> !old(self).has_serial_port(port),
            r is Ok ==> final(self).serial_ports@ == old(self).serial_ports@.push(port) && final(self).pci_paths == old(self).pci_paths && final(self).spec == old(self).spec,
            r is Err ==> *final(self) == *old(self) && r == Err::<(), SpecBuilderError>(
                SpecBuilderError::SerialPortInUse(port),
            ),
    {
        if contains_port(&self.serial_ports, port) {
            Err(SpecBuilderError::SerialPortInUse(port))
        } else {
            self.serial_ports.push(port);
            Ok(())
        }
    }

    /// Adds `component` to the spec under `name`. Fails, leaving the
    /// builder unchanged, if the name is already in use, if the component
    /// occupies an already-occupied PCI path, or if it claims an
    /// already-claimed serial port; the checks happen in that order and the
    /// first conflict is reported.
    pub fn add_component(&mut self, name: String, component: ComponentV0) -> (r: Result<
        &Self,
        SpecBuilderError,
    >)
        requires
            old(self).wf(),
        ensures
            final(self).wf(),
            r is Ok <==> old(self).may_add(name@, component),
            r is Ok ==> final(self).spec_view().components.entries_view() == old(self).spec_view().components.entries_view().push((name@, component)) && final(self).spec_view().board == old(self).spec_view().board,
            r is Ok ==> forall|q: PciPath|
                final(self).has_pci_path(q) <==> (old(self).has_pci_path(q)
                    || component.spec_pci_path() == Some(q)),
            r is Ok ==> forall|s: SerialPortNumber|
                final(self).has_serial_port(s) <==> (old(self).has_serial_port(s)
                    || is_serial_with(component, s)),
            r is Err ==> *final(self) == *old(self),
            r matches Err(SpecBuilderError::NameInUse(n)) ==> n@ == name@ && old(self).spec_view().components.contains_name(name@),
            r matches Err(SpecBuilderError::PciPathInUse(p)) ==> !old(self).spec_view().components.contains_name(name@) && component.spec_pci_path() == Some(p)
                && old(self).has_pci_path(p),
            r matches Err(SpecBuilderError::SerialPortInUse(s)) ==> !old(self).spec_view().components.contains_name(name@) && (match component.spec_pci_path() {
                Some(p) => !old(self).has_pci_path(p),
                None => true,
            }) && is_serial_with(component, s) && old(self).has_serial_port(s),
    {
        if self.spec.components.contains_key(&name) {
            return Err(SpecBuilderError::NameInUse(name));
        }
        if let Some(pci_path) = component.pci_path() {
            if let Err(e) = self.register_pci_device(pci_path) {
                return Err(e);
            }
        }
        if let ComponentV0::SerialPort(port) = &component {
            if let Err(e) = self.register_serial_port(port.num) {
                return Err(e);
            }
        }
        let ghost prior = *self;
        self.spec.components.insert(name, component);
        proof {
            let ev = self.spec.components.entries_view();
            let old_ev = old(self).spec.components.entries_view();
            assert(prior.spec == old(self).spec);
            assert(ev == old_ev.push((name@, component)));
            assert forall|p: PciPath| self.pci_paths@.contains(p) implies (exists|i: int|
                0 <= i < ev.len() && (#[trigger] ev[i].1).spec_pci_path() == Some(p)) by {
                match component.spec_pci_path() {
                    Some(p0) => {
                        lemma_push_contains(old(self).pci_paths@, p0, p);
                        if old(self).pci_paths@.contains(p) {
                            let i = choose|i: int|
                                0 <= i < old_ev.len() && (#[trigger] old_ev[i].1).spec_pci_path()
                                    == Some(p);
                            assert(ev[i].1.spec_pci_path() == Some(p));
                        } else {
                            assert(p == p0);
                            assert(ev[ev.len() - 1].1.spec_pci_path() == Some(p));
                        }
                    },
                    None => {
                        assert(old(self).has_pci_path(p));
                        let i = choose|i: int|
                            0 <= i < old_ev.len() && (#[trigger] old_ev[i].1).spec_pci_path()
                                == Some(p);
                        assert(ev[i].1.spec_pci_path() == Some(p));
                    },
                }
            }
            assert forall|p: PciPath|
                (exists|i: int|
                    0 <= i < ev.len() && (#[trigger] ev[i].1).spec_pci_path() == Some(
                        p,
                    )) implies self.pci_paths@.contains(p) by {
                let i = choose|i: int|
                    0 <= i < ev.len() && (#[trigger] ev[i].1).spec_pci_path() == Some(p);
                if i < ev.len() - 1 {
                    assert(old_ev[i].1.spec_pci_path() == Some(p));
                    assert(old(self).has_pci_path(p));
                } else {
                    assert(component.spec_pci_path() == Some(p));
                }
                match component.spec_pci_path() {
                    Some(p0) => {
                        lemma_push_contains(old(self).pci_paths@, p0, p);
                    },
                    None => {},
                }
            }
            assert forall|s: SerialPortNumber| self.serial_ports@.contains(s) implies (exists|
                i: int,
            |
                0 <= i < ev.len() && is_serial_with(#[trigger] ev[i].1, s)) by {
                match component {
                    ComponentV0::SerialPort(sp) => {
                        lemma_push_contains(old(self).serial_ports@, sp.num, s);
                        if old(self).serial_ports@.contains(s) {
                            let i = choose|i: int|
                                0 <= i < old_ev.len() && is_serial_with(
                                    #[trigger] old_ev[i].1,
                                    s,
                                );
                            assert(is_serial_with(ev[i].1, s));
                        } else {
                            assert(s == sp.num);
                            assert(is_serial_with(ev[ev.len() - 1].1, s));
                        }
                    },
                    _ => {
                        assert(old(self).has_serial_port(s));
                        let i = choose|i: int|
                            0 <= i < old_ev.len() && is_serial_with(#[trigger] old_ev[i].1, s);
                        assert(is_serial_with(ev[i].1, s));
                    },
                }
            }
            assert forall|s: SerialPortNumber|
                (exists|i: int|
                    0 <= i < ev.len() && is_serial_with(
                        #[trigger] ev[i].1,
                        s,
                    )) implies self.serial_ports@.contains(s) by {
                let i = choose|i: int| 0 <= i < ev.len() && is_serial_with(#[trigger] ev[i].1, s);
                if i < ev.len() - 1 {
                    assert(is_serial_with(old_ev[i].1, s));
                    assert(old(self).has_serial_port(s));
                } else {
                    assert(is_serial_with(component, s));
                }
                match component {
                    ComponentV0::SerialPort(sp) => {
                        lemma_push_contains(old(self).serial_ports@, sp.num, s);
                    },
                    _ => {},
                }
            }
            assert forall|q: PciPath| self.has_pci_path(q) <==> (old(self).has_pci_path(q)
                || component.spec_pci_path() == Some(q)) by {
                match component.spec_pci_path() {
                    Some(p0) => {
                        lemma_push_contains(old(self).pci_paths@, p0, q);
                    },
                    None => {},
                }
            }
            assert forall|s: SerialPortNumber| self.has_serial_port(s) <==> (old(
                self,
            ).has_serial_port(s) || is_serial_with(component, s)) by {
                match component {
                    ComponentV0::SerialPort(sp) => {
                        lemma_push_contains(old(self).serial_ports@, sp.num, s);
                    },
                    _ => {},
                }
            }
        }
        Ok(self)
    }
}

/// Tests whether `paths` holds `path`.
pub(crate) fn contains_path(paths: &Vec<PciPath>, path: PciPath) -> (r: bool)
    ensures
        r == paths@.contains(path),
{
    let mut i: usize = 0;
    while i < paths.len()
        invariant
            i <= paths@.len(),
            forall|t: int| 0 <= t < i ==> paths@[t] != path,
        decreases paths@.len() - i,
    {
        if paths[i] == path {
            return true;
        }
        i += 1;
    }
    false
}

/// Tests whether `ports` holds `port`.
pub(crate) fn contains_port(ports: &Vec<SerialPortNumber>, port: SerialPortNumber) -> (r: bool)
    ensures
        r == ports@.contains(port),
{
    let mut i: usize = 0;
    while i < ports.len()
        invariant
            i <= ports@.len(),
            forall|t: int| 0 <= t < i ==> ports@[t] != port,
        decreases ports@.len() - i,
    {
        if ports[i] == port {
            return true;
        }
        i += 1;
    }
    false
}

} // verus!
