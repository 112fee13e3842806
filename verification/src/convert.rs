//! Turning a wire-form spec into its grouped form: a partition pass that
//! sorts components into device and backend buckets, then a resolution pass
//! that folds one device at a time into the grouped spec, consuming each
//! referenced backend and applying the builder's uniqueness rules.

use vstd::prelude::*;

use crate::backends::{DlpiNetworkBackend, StorageBackend, VirtioNetworkBackend};
use crate::devices::SerialPortNumber;
use crate::grouped::{
    dangling_disk_backend, dangling_network_backend, duplicate_p9fs, duplicate_pvpanic,
    duplicate_softnpu_p9, duplicate_softnpu_pci, is_serial_c, orphan_backend, pci_conflict,
    serial_conflict, unsupported_extension_component, device_bucket_fn, disk_backend_name, disk_pair_fn, dlpi_bucket_fn, entries_of, groups_wire,
    has_name, is_backend_c, is_disk_c, is_storage_backend_c, nic_pair_fn, pairs_view,
    pvpanic_entries, bridge_pair_fn, p9fs_entries, serial_pair, serial_pair_fn,
    softnpu_p9_entries, softnpu_pci_entries, storage_bucket_fn, viona_bucket_fn,
    wire_convertible, ApiSpecParseError, Disk, Nic, QemuPvpanic, SerialPort, SerialPortUser,
    SoftNpu, SoftNpuPort, Spec,
};
use crate::grouped::lemma_entries_of_take_step;
use crate::grouped::{nic_backend_name, port_backend_name};
use crate::pci::PciPath;
use crate::resolve::{
    as_storage_device, find_pair, lemma_disk_arm, lemma_end_ok, lemma_err_dlpi,
    lemma_err_disabled, lemma_err_pci, lemma_err_serial, lemma_err_singleton, lemma_err_storage,
    lemma_err_unused, lemma_err_viona, lemma_initial_inv, lemma_nic_arm, lemma_port_arm,
    lemma_simple_arm, resolve_inv,
};
use crate::v0::{ComponentMap, ComponentV0, InstanceSpecV0};

verus! {

/// The mutable state of the resolution pass: the grouped spec being built,
/// the unconsumed backend buckets, and the PCI-path and serial-port
/// conflict records.
pub(crate) struct ResolveState {
    pub(crate) g: Spec,
    pub(crate) storage_backends: Vec<(String, StorageBackend)>,
    pub(crate) viona_backends: Vec<(String, VirtioNetworkBackend)>,
    pub(crate) dlpi_backends: Vec<(String, DlpiNetworkBackend)>,
    pub(crate) pci_paths: Vec<PciPath>,
    pub(crate) serial_nums: Vec<SerialPortNumber>,
}

/// The resolution-pass invariant over the bundled state.
pub(crate) open spec fn st_inv(
    w0: InstanceSpecV0,
    en: bool,
    dv: Seq<(Seq<char>, ComponentV0)>,
    j: int,
    st: ResolveState,
    b0: int,
) -> bool {
    resolve_inv(
        w0,
        en,
        dv,
        j,
        pairs_view(st.storage_backends@),
        pairs_view(st.viona_backends@),
        pairs_view(st.dlpi_backends@),
        st.g,
        st.pci_paths@,
        st.serial_nums@,
        b0,
    )
}

/// Folds the disk device at `j` into the grouped state: resolves and
/// consumes its storage backend, claims its PCI path, and appends the disk.
#[verifier::rlimit(100)]
#[verifier::spinoff_prover]
pub(crate) fn resolve_disk(
    st: &mut ResolveState,
    devices: &Vec<(String, ComponentV0)>,
    j: usize,
    en: bool,
    Ghost(w0): Ghost<InstanceSpecV0>,
    Ghost(dv): Ghost<Seq<(Seq<char>, ComponentV0)>>,
    Ghost(b0): Ghost<int>,
) -> (r: Result<(), ApiSpecParseError>)
    requires
        w0.wf(),
        dv == pairs_view(devices@),
        0 <= j < devices@.len(),
        is_disk_c(devices@[j as int].1),
        st_inv(w0, en, dv, j as int, *old(st), b0),
    ensures
        r is Ok ==> st_inv(w0, en, dv, j as int + 1, *final(st), b0),
        r is Err ==> !wire_convertible(w0, en),
        r matches Err(ApiSpecParseError::StorageBackendNotFound(b, d)) ==> dangling_disk_backend(
            w0,
            b@,
            d@,
        ),
        r matches Err(ApiSpecParseError::NetworkBackendNotFound(b, d)) ==> dangling_network_backend(
            w0,
            b@,
            d@,
        ),
        r matches Err(ApiSpecParseError::SoftNpuCompiledOut(n)) ==> !en
            && unsupported_extension_component(w0, n@),
        r matches Err(ApiSpecParseError::BackendNotUsed(b)) ==> orphan_backend(w0, b@),
        r matches Err(ApiSpecParseError::PciPathInUse(p)) ==> pci_conflict(w0, p),
        r matches Err(ApiSpecParseError::SerialPortInUse(s)) ==> serial_conflict(w0, s),
        r matches Err(ApiSpecParseError::PvpanicInUse(n)) ==> duplicate_pvpanic(w0, n@),
        r matches Err(ApiSpecParseError::SoftNpuPciPortInUse(n)) ==> duplicate_softnpu_pci(
            w0,
            n@,
        ),
        r matches Err(ApiSpecParseError::SoftNpuP9InUse(n)) ==> duplicate_softnpu_p9(w0, n@),
        r matches Err(ApiSpecParseError::P9fsInUse(n)) ==> duplicate_p9fs(w0, n@),
{
    proof {
        assert(dv[j as int] == (devices@[j as int].0@, devices@[j as int].1));
    }
    let ghost stpre = *st;
    let sd = as_storage_device(&devices[j].1).unwrap();
    match find_pair(&st.storage_backends, sd.backend_name()) {
        None => {
            proof {
                assert(sd.spec_backend_name() == disk_backend_name(dv[j as int].1));
                lemma_err_storage(
                    w0,
                    en,
                    dv,
                    j as int,
                    pairs_view(st.storage_backends@),
                    pairs_view(st.viona_backends@),
                    pairs_view(st.dlpi_backends@),
                    st.g,
                    st.pci_paths@,
                    st.serial_nums@,
                    b0,
                );
            }
            Err(
                ApiSpecParseError::StorageBackendNotFound(
                    sd.backend_name().clone(),
                    devices[j].0.clone(),
                ),
            )
        },
        Some(k) => {
            proof {
                assert(pairs_view(st.storage_backends@)[k as int].0 == disk_backend_name(
                    dv[j as int].1,
                ));
            }
            let (bn, bs) = st.storage_backends.remove(k);
            let path = sd.pci_path();
            if crate::builder::contains_path(&st.pci_paths, path) {
                proof {
                    lemma_err_pci(
                        w0,
                        en,
                        dv,
                        j as int,
                        pairs_view(stpre.storage_backends@),
                        pairs_view(stpre.viona_backends@),
                        pairs_view(stpre.dlpi_backends@),
                        stpre.g,
                        stpre.pci_paths@,
                        stpre.serial_nums@,
                        b0,
                        path,
                    );
                }
                return Err(ApiSpecParseError::PciPathInUse(path));
            }
            st.pci_paths.push(path);
            let nm = devices[j].0.clone();
            let disk = Disk { device_spec: sd, backend_spec: bs };
            let ghost nd = (nm, disk);
            st.g.disks.push((nm, disk));
            proof {
                assert(pairs_view(st.storage_backends@) =~= pairs_view(
                    stpre.storage_backends@,
                ).remove(k as int));
                lemma_disk_arm(
                    w0,
                    en,
                    dv,
                    j as int,
                    pairs_view(stpre.storage_backends@),
                    pairs_view(st.storage_backends@),
                    k as int,
                    pairs_view(st.viona_backends@),
                    pairs_view(st.dlpi_backends@),
                    stpre.g,
                    st.g,
                    path,
                    stpre.pci_paths@,
                    st.pci_paths@,
                    st.serial_nums@,
                    b0,
                    nd,
                );
            }
            Ok(())
        },
    }
}

/// Folds the NIC at `j` into the grouped state: resolves and consumes its
/// network backend, claims its PCI path, and appends the NIC.
#[verifier::rlimit(100)]
#[verifier::spinoff_prover]
pub(crate) fn resolve_nic(
    st: &mut ResolveState,
    devices: &Vec<(String, ComponentV0)>,
    j: usize,
    en: bool,
    Ghost(w0): Ghost<InstanceSpecV0>,
    Ghost(dv): Ghost<Seq<(Seq<char>, ComponentV0)>>,
    Ghost(b0): Ghost<int>,
) -> (r: Result<(), ApiSpecParseError>)
    requires
        w0.wf(),
        dv == pairs_view(devices@),
        0 <= j < devices@.len(),
        devices@[j as int].1 is VirtioNic,
        st_inv(w0, en, dv, j as int, *old(st), b0),
    ensures
        r is Ok ==> st_inv(w0, en, dv, j as int + 1, *final(st), b0),
        r is Err ==> !wire_convertible(w0, en),
        r matches Err(ApiSpecParseError::StorageBackendNotFound(b, d)) ==> dangling_disk_backend(
            w0,
            b@,
            d@,
        ),
        r matches Err(ApiSpecParseError::NetworkBackendNotFound(b, d)) ==> dangling_network_backend(
            w0,
            b@,
            d@,
        ),
        r matches Err(ApiSpecParseError::SoftNpuCompiledOut(n)) ==> !en
            && unsupported_extension_component(w0, n@),
        r matches Err(ApiSpecParseError::BackendNotUsed(b)) ==> orphan_backend(w0, b@),
        r matches Err(ApiSpecParseError::PciPathInUse(p)) ==> pci_conflict(w0, p),
        r matches Err(ApiSpecParseError::SerialPortInUse(s)) ==> serial_conflict(w0, s),
        r matches Err(ApiSpecParseError::PvpanicInUse(n)) ==> duplicate_pvpanic(w0, n@),
        r matches Err(ApiSpecParseError::SoftNpuPciPortInUse(n)) ==> duplicate_softnpu_pci(
            w0,
            n@,
        ),
        r matches Err(ApiSpecParseError::SoftNpuP9InUse(n)) ==> duplicate_softnpu_p9(w0, n@),
        r matches Err(ApiSpecParseError::P9fsInUse(n)) ==> duplicate_p9fs(w0, n@),
{
    proof {
        assert(dv[j as int] == (devices@[j as int].0@, devices@[j as int].1));
    }
    let ghost stpre = *st;
    let nic = match &devices[j].1 {
        ComponentV0::VirtioNic(n) => n.duplicate(),
        _ => {
            proof {
                assert(false);
            }
            return Err(ApiSpecParseError::NetworkBackendNotFound(String::new(), String::new()));
        },
    };
    match find_pair(&st.viona_backends, &nic.backend_name) {
        None => {
            proof {
                assert(nic.backend_name@ == nic_backend_name(dv[j as int].1));
                lemma_err_viona(
                    w0,
                    en,
                    dv,
                    j as int,
                    pairs_view(st.storage_backends@),
                    pairs_view(st.viona_backends@),
                    pairs_view(st.dlpi_backends@),
                    st.g,
                    st.pci_paths@,
                    st.serial_nums@,
                    b0,
                );
            }
            Err(
                ApiSpecParseError::NetworkBackendNotFound(
                    nic.backend_name.clone(),
                    devices[j].0.clone(),
                ),
            )
        },
        Some(k) => {
            proof {
                assert(pairs_view(st.viona_backends@)[k as int].0 == nic.backend_name@);
            }
            let (bn, bs) = st.viona_backends.remove(k);
            let path = nic.pci_path;
            if crate::builder::contains_path(&st.pci_paths, path) {
                proof {
                    lemma_err_pci(
                        w0,
                        en,
                        dv,
                        j as int,
                        pairs_view(stpre.storage_backends@),
                        pairs_view(stpre.viona_backends@),
                        pairs_view(stpre.dlpi_backends@),
                        stpre.g,
                        stpre.pci_paths@,
                        stpre.serial_nums@,
                        b0,
                        path,
                    );
                }
                return Err(ApiSpecParseError::PciPathInUse(path));
            }
            st.pci_paths.push(path);
            let nm = devices[j].0.clone();
            let entry = Nic { device_spec: nic, backend_spec: bs };
            let ghost nd = (nm, entry);
            st.g.nics.push((nm, entry));
            proof {
                assert(pairs_view(st.viona_backends@) =~= pairs_view(
                    stpre.viona_backends@,
                ).remove(k as int));
                lemma_nic_arm(
                    w0,
                    en,
                    dv,
                    j as int,
                    pairs_view(st.storage_backends@),
                    pairs_view(stpre.viona_backends@),
                    pairs_view(st.viona_backends@),
                    k as int,
                    pairs_view(st.dlpi_backends@),
                    stpre.g,
                    st.g,
                    path,
                    stpre.pci_paths@,
                    st.pci_paths@,
                    st.serial_nums@,
                    b0,
                    nd,
                );
            }
            Ok(())
        },
    }
}

/// Folds the extension port at `j` into the grouped state: resolves and
/// consumes its data-link backend and appends the port.
#[verifier::rlimit(100)]
#[verifier::spinoff_prover]
pub(crate) fn resolve_port(
    st: &mut ResolveState,
    devices: &Vec<(String, ComponentV0)>,
    j: usize,
    en: bool,
    Ghost(w0): Ghost<InstanceSpecV0>,
    Ghost(dv): Ghost<Seq<(Seq<char>, ComponentV0)>>,
    Ghost(b0): Ghost<int>,
) -> (r: Result<(), ApiSpecParseError>)
    requires
        w0.wf(),
        dv == pairs_view(devices@),
        0 <= j < devices@.len(),
        devices@[j as int].1 is SoftNpuPort,
        st_inv(w0, en, dv, j as int, *old(st), b0),
    ensures
        r is Ok ==> st_inv(w0, en, dv, j as int + 1, *final(st), b0),
        r is Err ==> !wire_convertible(w0, en),
        r matches Err(ApiSpecParseError::StorageBackendNotFound(b, d)) ==> dangling_disk_backend(
            w0,
            b@,
            d@,
        ),
        r matches Err(ApiSpecParseError::NetworkBackendNotFound(b, d)) ==> dangling_network_backend(
            w0,
            b@,
            d@,
        ),
        r matches Err(ApiSpecParseError::SoftNpuCompiledOut(n)) ==> !en
            && unsupported_extension_component(w0, n@),
        r matches Err(ApiSpecParseError::BackendNotUsed(b)) ==> orphan_backend(w0, b@),
        r matches Err(ApiSpecParseError::PciPathInUse(p)) ==> pci_conflict(w0, p),
        r matches Err(ApiSpecParseError::SerialPortInUse(s)) ==> serial_conflict(w0, s),
        r matches Err(ApiSpecParseError::PvpanicInUse(n)) ==> duplicate_pvpanic(w0, n@),
        r matches Err(ApiSpecParseError::SoftNpuPciPortInUse(n)) ==> duplicate_softnpu_pci(
            w0,
            n@,
        ),
        r matches Err(ApiSpecParseError::SoftNpuP9InUse(n)) ==> duplicate_softnpu_p9(w0, n@),
        r matches Err(ApiSpecParseError::P9fsInUse(n)) ==> duplicate_p9fs(w0, n@),
{
    proof {
        assert(dv[j as int] == (devices@[j as int].0@, devices@[j as int].1));
    }
    let ghost stpre = *st;
    if !en {
        proof {
            lemma_err_disabled(
                w0,
                en,
                dv,
                j as int,
                pairs_view(st.storage_backends@),
                pairs_view(st.viona_backends@),
                pairs_view(st.dlpi_backends@),
                st.g,
                st.pci_paths@,
                st.serial_nums@,
                b0,
            );
        }
        return Err(ApiSpecParseError::SoftNpuCompiledOut(devices[j].0.clone()));
    }
    let port = match &devices[j].1 {
        ComponentV0::SoftNpuPort(p) => p.duplicate(),
        _ => {
            proof {
                assert(false);
            }
            return Err(ApiSpecParseError::NetworkBackendNotFound(String::new(), String::new()));
        },
    };
    match find_pair(&st.dlpi_backends, &port.backend_name) {
        None => {
            proof {
                assert(port.backend_name@ == port_backend_name(dv[j as int].1));
                lemma_err_dlpi(
                    w0,
                    en,
                    dv,
                    j as int,
                    pairs_view(st.storage_backends@),
                    pairs_view(st.viona_backends@),
                    pairs_view(st.dlpi_backends@),
                    st.g,
                    st.pci_paths@,
                    st.serial_nums@,
                    b0,
                );
            }
            Err(
                ApiSpecParseError::NetworkBackendNotFound(
                    port.backend_name.clone(),
                    devices[j].0.clone(),
                ),
            )
        },
        Some(k) => {
            proof {
                assert(pairs_view(st.dlpi_backends@)[k as int].0 == port.backend_name@);
            }
            let (bn, bs) = st.dlpi_backends.remove(k);
            let nm = devices[j].0.clone();
            let entry = SoftNpuPort { port_spec: port, backend_spec: bs };
            let ghost nd = (nm, entry);
            st.g.softnpu.ports.push((nm, entry));
            proof {
                assert(pairs_view(st.dlpi_backends@) =~= pairs_view(stpre.dlpi_backends@).remove(
                    k as int,
                ));
                lemma_port_arm(
                    w0,
                    en,
                    dv,
                    j as int,
                    pairs_view(st.storage_backends@),
                    pairs_view(st.viona_backends@),
                    pairs_view(stpre.dlpi_backends@),
                    pairs_view(st.dlpi_backends@),
                    k as int,
                    stpre.g,
                    st.g,
                    st.pci_paths@,
                    st.serial_nums@,
                    b0,
                    nd,
                );
            }
            Ok(())
        },
    }
}

/// Folds the serial port at `j` into the grouped state, claiming its port
/// number.
#[verifier::rlimit(100)]
#[verifier::spinoff_prover]
pub(crate) fn resolve_serial(
    st: &mut ResolveState,
    devices: &Vec<(String, ComponentV0)>,
    j: usize,
    en: bool,
    Ghost(w0): Ghost<InstanceSpecV0>,
    Ghost(dv): Ghost<Seq<(Seq<char>, ComponentV0)>>,
    Ghost(b0): Ghost<int>,
) -> (r: Result<(), ApiSpecParseError>)
    requires
        w0.wf(),
        dv == pairs_view(devices@),
        0 <= j < devices@.len(),
        devices@[j as int].1 is SerialPort,
        st_inv(w0, en, dv, j as int, *old(st), b0),
    ensures
        r is Ok ==> st_inv(w0, en, dv, j as int + 1, *final(st), b0),
        r is Err ==> !wire_convertible(w0, en),
        r matches Err(ApiSpecParseError::StorageBackendNotFound(b, d)) ==> dangling_disk_backend(
            w0,
            b@,
            d@,
        ),
        r matches Err(ApiSpecParseError::NetworkBackendNotFound(b, d)) ==> dangling_network_backend(
            w0,
            b@,
            d@,
        ),
        r matches Err(ApiSpecParseError::SoftNpuCompiledOut(n)) ==> !en
            && unsupported_extension_component(w0, n@),
        r matches Err(ApiSpecParseError::BackendNotUsed(b)) ==> orphan_backend(w0, b@),
        r matches Err(ApiSpecParseError::PciPathInUse(p)) ==> pci_conflict(w0, p),
        r matches Err(ApiSpecParseError::SerialPortInUse(s)) ==> serial_conflict(w0, s),
        r matches Err(ApiSpecParseError::PvpanicInUse(n)) ==> duplicate_pvpanic(w0, n@),
        r matches Err(ApiSpecParseError::SoftNpuPciPortInUse(n)) ==> duplicate_softnpu_pci(
            w0,
            n@,
        ),
        r matches Err(ApiSpecParseError::SoftNpuP9InUse(n)) ==> duplicate_softnpu_p9(w0, n@),
        r matches Err(ApiSpecParseError::P9fsInUse(n)) ==> duplicate_p9fs(w0, n@),
{
    proof {
        assert(dv[j as int] == (devices@[j as int].0@, devices@[j as int].1));
    }
    let ghost stpre = *st;
    let num = match &devices[j].1 {
        ComponentV0::SerialPort(sp) => sp.num,
        _ => {
            proof {
                assert(false);
            }
            SerialPortNumber::Com1
        },
    };
    if crate::builder::contains_port(&st.serial_nums, num) {
        proof {
            lemma_err_serial(
                w0,
                en,
                dv,
                j as int,
                pairs_view(st.storage_backends@),
                pairs_view(st.viona_backends@),
                pairs_view(st.dlpi_backends@),
                st.g,
                st.pci_paths@,
                st.serial_nums@,
                b0,
                num,
            );
        }
        return Err(ApiSpecParseError::SerialPortInUse(num));
    }
    st.serial_nums.push(num);
    let nm = devices[j].0.clone();
    let entry = SerialPort { num, user: SerialPortUser::Standard };
    st.g.serial.push((nm, entry));
    proof {
        reveal(resolve_inv);
        let gpre = stpre.g;
        let a = entries_of(gpre.disks@, disk_pair_fn()) + entries_of(gpre.nics@, nic_pair_fn())
            + entries_of(gpre.serial@, serial_pair_fn());
        let tail = entries_of(gpre.pci_pci_bridges@, bridge_pair_fn()) + pvpanic_entries(
            gpre.pvpanic,
        ) + gpre.softnpu.wire_entries();
        lemma_entries_of_take_step(st.g.serial@, serial_pair_fn(), st.g.serial@.len() as int - 1);
        assert(st.g.serial@.take(st.g.serial@.len() as int - 1) =~= gpre.serial@);
        assert(st.g.serial@.take(st.g.serial@.len() as int) =~= st.g.serial@);
        assert(serial_pair(st.g.serial@.last()) =~= seq![(dv[j as int].0, dv[j as int].1)]);
        assert(gpre.wire_entries() =~= a + tail);
        assert(st.g.wire_entries() =~= a + seq![(dv[j as int].0, dv[j as int].1)] + tail);
        lemma_simple_arm(
            w0,
            en,
            dv,
            j as int,
            pairs_view(st.storage_backends@),
            pairs_view(st.viona_backends@),
            pairs_view(st.dlpi_backends@),
            gpre,
            st.g,
            a,
            tail,
            None,
            stpre.pci_paths@,
            st.pci_paths@,
            Some(num),
            stpre.serial_nums@,
            st.serial_nums@,
            b0,
        );
    }
    Ok(())
}

/// Folds the PCI-PCI bridge at `j` into the grouped state, claiming its
/// PCI path.
#[verifier::rlimit(100)]
#[verifier::spinoff_prover]
pub(crate) fn resolve_bridge(
    st: &mut ResolveState,
    devices: &Vec<(String, ComponentV0)>,
    j: usize,
    en: bool,
    Ghost(w0): Ghost<InstanceSpecV0>,
    Ghost(dv): Ghost<Seq<(Seq<char>, ComponentV0)>>,
    Ghost(b0): Ghost<int>,
) -> (r: Result<(), ApiSpecParseError>)
    requires
        w0.wf(),
        dv == pairs_view(devices@),
        0 <= j < devices@.len(),
        devices@[j as int].1 is PciPciBridge,
        st_inv(w0, en, dv, j as int, *old(st), b0),
    ensures
        r is Ok ==> st_inv(w0, en, dv, j as int + 1, *final(st), b0),
        r is Err ==> !wire_convertible(w0, en),
        r matches Err(ApiSpecParseError::StorageBackendNotFound(b, d)) ==> dangling_disk_backend(
            w0,
            b@,
            d@,
        ),
        r matches Err(ApiSpecParseError::NetworkBackendNotFound(b, d)) ==> dangling_network_backend(
            w0,
            b@,
            d@,
        ),
        r matches Err(ApiSpecParseError::SoftNpuCompiledOut(n)) ==> !en
            && unsupported_extension_component(w0, n@),
        r matches Err(ApiSpecParseError::BackendNotUsed(b)) ==> orphan_backend(w0, b@),
        r matches Err(ApiSpecParseError::PciPathInUse(p)) ==> pci_conflict(w0, p),
        r matches Err(ApiSpecParseError::SerialPortInUse(s)) ==> serial_conflict(w0, s),
        r matches Err(ApiSpecParseError::PvpanicInUse(n)) ==> duplicate_pvpanic(w0, n@),
        r matches Err(ApiSpecParseError::SoftNpuPciPortInUse(n)) ==> duplicate_softnpu_pci(
            w0,
            n@,
        ),
        r matches Err(ApiSpecParseError::SoftNpuP9InUse(n)) ==> duplicate_softnpu_p9(w0, n@),
        r matches Err(ApiSpecParseError::P9fsInUse(n)) ==> duplicate_p9fs(w0, n@),
{
    proof {
        assert(dv[j as int] == (devices@[j as int].0@, devices@[j as int].1));
    }
    let ghost stpre = *st;
    let bridge = match &devices[j].1 {
        ComponentV0::PciPciBridge(b) => *b,
        _ => {
            proof {
                assert(false);
            }
            return Err(ApiSpecParseError::PciPathInUse(PciPath { bus: 0, device: 0, function: 0 }));
        },
    };
    let path = bridge.pci_path;
    if crate::builder::contains_path(&st.pci_paths, path) {
        proof {
            lemma_err_pci(
                w0,
                en,
                dv,
                j as int,
                pairs_view(st.storage_backends@),
                pairs_view(st.viona_backends@),
                pairs_view(st.dlpi_backends@),
                st.g,
                st.pci_paths@,
                st.serial_nums@,
                b0,
                path,
            );
        }
        return Err(ApiSpecParseError::PciPathInUse(path));
    }
    st.pci_paths.push(path);
    let nm = devices[j].0.clone();
    st.g.pci_pci_bridges.push((nm, bridge));
    proof {
        reveal(resolve_inv);
        let gpre = stpre.g;
        let a = entries_of(gpre.disks@, disk_pair_fn()) + entries_of(gpre.nics@, nic_pair_fn())
            + entries_of(gpre.serial@, serial_pair_fn()) + entries_of(
            gpre.pci_pci_bridges@,
            bridge_pair_fn(),
        );
        let tail = pvpanic_entries(gpre.pvpanic) + gpre.softnpu.wire_entries();
        lemma_entries_of_take_step(
            st.g.pci_pci_bridges@,
            bridge_pair_fn(),
            st.g.pci_pci_bridges@.len() as int - 1,
        );
        assert(st.g.pci_pci_bridges@.take(st.g.pci_pci_bridges@.len() as int - 1)
            =~= gpre.pci_pci_bridges@);
        assert(st.g.pci_pci_bridges@.take(st.g.pci_pci_bridges@.len() as int)
            =~= st.g.pci_pci_bridges@);
        assert(gpre.wire_entries() =~= a + tail);
        assert(st.g.wire_entries() =~= a + seq![(dv[j as int].0, dv[j as int].1)] + tail);
        lemma_simple_arm(
            w0,
            en,
            dv,
            j as int,
            pairs_view(st.storage_backends@),
            pairs_view(st.viona_backends@),
            pairs_view(st.dlpi_backends@),
            gpre,
            st.g,
            a,
            tail,
            Some(path),
            stpre.pci_paths@,
            st.pci_paths@,
            None,
            stpre.serial_nums@,
            st.serial_nums@,
            b0,
        );
    }
    Ok(())
}

/// Folds the panic device at `j` into the grouped state. At most one may
/// exist.
#[verifier::rlimit(100)]
#[verifier::spinoff_prover]
pub(crate) fn resolve_pvpanic(
    st: &mut ResolveState,
    devices: &Vec<(String, ComponentV0)>,
    j: usize,
    en: bool,
    Ghost(w0): Ghost<InstanceSpecV0>,
    Ghost(dv): Ghost<Seq<(Seq<char>, ComponentV0)>>,
    Ghost(b0): Ghost<int>,
) -> (r: Result<(), ApiSpecParseError>)
    requires
        w0.wf(),
        dv == pairs_view(devices@),
        0 <= j < devices@.len(),
        devices@[j as int].1 is QemuPvpanic,
        st_inv(w0, en, dv, j as int, *old(st), b0),
    ensures
        r is Ok ==> st_inv(w0, en, dv, j as int + 1, *final(st), b0),
        r is Err ==> !wire_convertible(w0, en),
        r matches Err(ApiSpecParseError::StorageBackendNotFound(b, d)) ==> dangling_disk_backend(
            w0,
            b@,
            d@,
        ),
        r matches Err(ApiSpecParseError::NetworkBackendNotFound(b, d)) ==> dangling_network_backend(
            w0,
            b@,
            d@,
        ),
        r matches Err(ApiSpecParseError::SoftNpuCompiledOut(n)) ==> !en
            && unsupported_extension_component(w0, n@),
        r matches Err(ApiSpecParseError::BackendNotUsed(b)) ==> orphan_backend(w0, b@),
        r matches Err(ApiSpecParseError::PciPathInUse(p)) ==> pci_conflict(w0, p),
        r matches Err(ApiSpecParseError::SerialPortInUse(s)) ==> serial_conflict(w0, s),
        r matches Err(ApiSpecParseError::PvpanicInUse(n)) ==> duplicate_pvpanic(w0, n@),
        r matches Err(ApiSpecParseError::SoftNpuPciPortInUse(n)) ==> duplicate_softnpu_pci(
            w0,
            n@,
        ),
        r matches Err(ApiSpecParseError::SoftNpuP9InUse(n)) ==> duplicate_softnpu_p9(w0, n@),
        r matches Err(ApiSpecParseError::P9fsInUse(n)) ==> duplicate_p9fs(w0, n@),
{
    proof {
        assert(dv[j as int] == (devices@[j as int].0@, devices@[j as int].1));
    }
    let ghost stpre = *st;
    let desc = match &devices[j].1 {
        ComponentV0::QemuPvpanic(d) => *d,
        _ => {
            proof {
                assert(false);
            }
            return Err(ApiSpecParseError::PvpanicInUse(String::new()));
        },
    };
    if st.g.pvpanic.is_some() {
        proof {
            reveal(resolve_inv);
            let prior = choose|t: int| 0 <= t < j && (#[trigger] dv[t]).1 is QemuPvpanic;
            lemma_err_singleton(
                w0,
                en,
                dv,
                j as int,
                pairs_view(st.storage_backends@),
                pairs_view(st.viona_backends@),
                pairs_view(st.dlpi_backends@),
                st.g,
                st.pci_paths@,
                st.serial_nums@,
                b0,
                prior,
            );
        }
        return Err(ApiSpecParseError::PvpanicInUse(devices[j].0.clone()));
    }
    let nm = devices[j].0.clone();
    st.g.pvpanic = Some(QemuPvpanic { name: nm, spec: desc });
    proof {
        reveal(resolve_inv);
        let gpre = stpre.g;
        let a = entries_of(gpre.disks@, disk_pair_fn()) + entries_of(gpre.nics@, nic_pair_fn())
            + entries_of(gpre.serial@, serial_pair_fn()) + entries_of(
            gpre.pci_pci_bridges@,
            bridge_pair_fn(),
        );
        let tail = gpre.softnpu.wire_entries();
        assert(pvpanic_entries(st.g.pvpanic) =~= seq![(dv[j as int].0, dv[j as int].1)]);
        assert(gpre.wire_entries() =~= a + tail);
        assert(st.g.wire_entries() =~= a + seq![(dv[j as int].0, dv[j as int].1)] + tail);
        lemma_simple_arm(
            w0,
            en,
            dv,
            j as int,
            pairs_view(st.storage_backends@),
            pairs_view(st.viona_backends@),
            pairs_view(st.dlpi_backends@),
            gpre,
            st.g,
            a,
            tail,
            None,
            stpre.pci_paths@,
            st.pci_paths@,
            None,
            stpre.serial_nums@,
            st.serial_nums@,
            b0,
        );
    }
    Ok(())
}

/// Folds the extension PCI port at `j` into the grouped state. At most one
/// may exist, and only on hosts with the extension.
#[verifier::rlimit(100)]
#[verifier::spinoff_prover]
pub(crate) fn resolve_snpci(
    st: &mut ResolveState,
    devices: &Vec<(String, ComponentV0)>,
    j: usize,
    en: bool,
    Ghost(w0): Ghost<InstanceSpecV0>,
    Ghost(dv): Ghost<Seq<(Seq<char>, ComponentV0)>>,
    Ghost(b0): Ghost<int>,
) -> (r: Result<(), ApiSpecParseError>)
    requires
        w0.wf(),
        dv == pairs_view(devices@),
        0 <= j < devices@.len(),
        devices@[j as int].1 is SoftNpuPciPort,
        st_inv(w0, en, dv, j as int, *old(st), b0),
    ensures
        r is Ok ==> st_inv(w0, en, dv, j as int + 1, *final(st), b0),
        r is Err ==> !wire_convertible(w0, en),
        r matches Err(ApiSpecParseError::StorageBackendNotFound(b, d)) ==> dangling_disk_backend(
            w0,
            b@,
            d@,
        ),
        r matches Err(ApiSpecParseError::NetworkBackendNotFound(b, d)) ==> dangling_network_backend(
            w0,
            b@,
            d@,
        ),
        r matches Err(ApiSpecParseError::SoftNpuCompiledOut(n)) ==> !en
            && unsupported_extension_component(w0, n@),
        r matches Err(ApiSpecParseError::BackendNotUsed(b)) ==> orphan_backend(w0, b@),
        r matches Err(ApiSpecParseError::PciPathInUse(p)) ==> pci_conflict(w0, p),
        r matches Err(ApiSpecParseError::SerialPortInUse(s)) ==> serial_conflict(w0, s),
        r matches Err(ApiSpecParseError::PvpanicInUse(n)) ==> duplicate_pvpanic(w0, n@),
        r matches Err(ApiSpecParseError::SoftNpuPciPortInUse(n)) ==> duplicate_softnpu_pci(
            w0,
            n@,
        ),
        r matches Err(ApiSpecParseError::SoftNpuP9InUse(n)) ==> duplicate_softnpu_p9(w0, n@),
        r matches Err(ApiSpecParseError::P9fsInUse(n)) ==> duplicate_p9fs(w0, n@),
{
    proof {
        assert(dv[j as int] == (devices@[j as int].0@, devices@[j as int].1));
    }
    let ghost stpre = *st;
    let port = match &devices[j].1 {
        ComponentV0::SoftNpuPciPort(p) => *p,
        _ => {
            proof {
                assert(false);
            }
            return Err(ApiSpecParseError::SoftNpuPciPortInUse(String::new()));
        },
    };
    if !en {
        proof {
            lemma_err_disabled(
                w0,
                en,
                dv,
                j as int,
                pairs_view(st.storage_backends@),
                pairs_view(st.viona_backends@),
                pairs_view(st.dlpi_backends@),
                st.g,
                st.pci_paths@,
                st.serial_nums@,
                b0,
            );
        }
        return Err(ApiSpecParseError::SoftNpuCompiledOut(devices[j].0.clone()));
    }
    if st.g.softnpu.pci_port.is_some() {
        proof {
            reveal(resolve_inv);
            let prior = choose|t: int| 0 <= t < j && (#[trigger] dv[t]).1 is SoftNpuPciPort;
            lemma_err_singleton(
                w0,
                en,
                dv,
                j as int,
                pairs_view(st.storage_backends@),
                pairs_view(st.viona_backends@),
                pairs_view(st.dlpi_backends@),
                st.g,
                st.pci_paths@,
                st.serial_nums@,
                b0,
                prior,
            );
        }
        return Err(ApiSpecParseError::SoftNpuPciPortInUse(devices[j].0.clone()));
    }
    let path = port.pci_path;
    if crate::builder::contains_path(&st.pci_paths, path) {
        proof {
            lemma_err_pci(
                w0,
                en,
                dv,
                j as int,
                pairs_view(st.storage_backends@),
                pairs_view(st.viona_backends@),
                pairs_view(st.dlpi_backends@),
                st.g,
                st.pci_paths@,
                st.serial_nums@,
                b0,
                path,
            );
        }
        return Err(ApiSpecParseError::PciPathInUse(path));
    }
    st.pci_paths.push(path);
    let nm = devices[j].0.clone();
    st.g.softnpu.pci_port = Some((nm, port));
    proof {
        reveal(resolve_inv);
        let gpre = stpre.g;
        let a = entries_of(gpre.disks@, disk_pair_fn()) + entries_of(gpre.nics@, nic_pair_fn())
            + entries_of(gpre.serial@, serial_pair_fn()) + entries_of(
            gpre.pci_pci_bridges@,
            bridge_pair_fn(),
        ) + pvpanic_entries(gpre.pvpanic);
        let tail = softnpu_p9_entries(gpre.softnpu.p9_device) + p9fs_entries(gpre.softnpu.p9fs)
            + entries_of(gpre.softnpu.ports@, crate::grouped::softnpu_port_pair_fn());
        assert(softnpu_pci_entries(st.g.softnpu.pci_port) =~= seq![
            (dv[j as int].0, dv[j as int].1),
        ]);
        assert(gpre.wire_entries() =~= a + tail);
        assert(st.g.wire_entries() =~= a + seq![(dv[j as int].0, dv[j as int].1)] + tail);
        lemma_simple_arm(
            w0,
            en,
            dv,
            j as int,
            pairs_view(st.storage_backends@),
            pairs_view(st.viona_backends@),
            pairs_view(st.dlpi_backends@),
            gpre,
            st.g,
            a,
            tail,
            Some(path),
            stpre.pci_paths@,
            st.pci_paths@,
            None,
            stpre.serial_nums@,
            st.serial_nums@,
            b0,
        );
    }
    Ok(())
}

/// Folds the extension filesystem port at `j` into the grouped state. At
/// most one may exist, and only on hosts with the extension.
#[verifier::rlimit(100)]
#[verifier::spinoff_prover]
pub(crate) fn resolve_snp9(
    st: &mut ResolveState,
    devices: &Vec<(String, ComponentV0)>,
    j: usize,
    en: bool,
    Ghost(w0): Ghost<InstanceSpecV0>,
    Ghost(dv): Ghost<Seq<(Seq<char>, ComponentV0)>>,
    Ghost(b0): Ghost<int>,
) -> (r: Result<(), ApiSpecParseError>)
    requires
        w0.wf(),
        dv == pairs_view(devices@),
        0 <= j < devices@.len(),
        devices@[j as int].1 is SoftNpuP9,
        st_inv(w0, en, dv, j as int, *old(st), b0),
    ensures
        r is Ok ==> st_inv(w0, en, dv, j as int + 1, *final(st), b0),
        r is Err ==> !wire_convertible(w0, en),
        r matches Err(ApiSpecParseError::StorageBackendNotFound(b, d)) ==> dangling_disk_backend(
            w0,
            b@,
            d@,
        ),
        r matches Err(ApiSpecParseError::NetworkBackendNotFound(b, d)) ==> dangling_network_backend(
            w0,
            b@,
            d@,
        ),
        r matches Err(ApiSpecParseError::SoftNpuCompiledOut(n)) ==> !en
            && unsupported_extension_component(w0, n@),
        r matches Err(ApiSpecParseError::BackendNotUsed(b)) ==> orphan_backend(w0, b@),
        r matches Err(ApiSpecParseError::PciPathInUse(p)) ==> pci_conflict(w0, p),
        r matches Err(ApiSpecParseError::SerialPortInUse(s)) ==> serial_conflict(w0, s),
        r matches Err(ApiSpecParseError::PvpanicInUse(n)) ==> duplicate_pvpanic(w0, n@),
        r matches Err(ApiSpecParseError::SoftNpuPciPortInUse(n)) ==> duplicate_softnpu_pci(
            w0,
            n@,
        ),
        r matches Err(ApiSpecParseError::SoftNpuP9InUse(n)) ==> duplicate_softnpu_p9(w0, n@),
        r matches Err(ApiSpecParseError::P9fsInUse(n)) ==> duplicate_p9fs(w0, n@),
{
    proof {
        assert(dv[j as int] == (devices@[j as int].0@, devices@[j as int].1));
    }
    let ghost stpre = *st;
    let p9 = match &devices[j].1 {
        ComponentV0::SoftNpuP9(p) => *p,
        _ => {
            proof {
                assert(false);
            }
            return Err(ApiSpecParseError::SoftNpuP9InUse(String::new()));
        },
    };
    if !en {
        proof {
            lemma_err_disabled(
                w0,
                en,
                dv,
                j as int,
                pairs_view(st.storage_backends@),
                pairs_view(st.viona_backends@),
                pairs_view(st.dlpi_backends@),
                st.g,
                st.pci_paths@,
                st.serial_nums@,
                b0,
            );
        }
        return Err(ApiSpecParseError::SoftNpuCompiledOut(devices[j].0.clone()));
    }
    if st.g.softnpu.p9_device.is_some() {
        proof {
            reveal(resolve_inv);
            let prior = choose|t: int| 0 <= t < j && (#[trigger] dv[t]).1 is SoftNpuP9;
            lemma_err_singleton(
                w0,
                en,
                dv,
                j as int,
                pairs_view(st.storage_backends@),
                pairs_view(st.viona_backends@),
                pairs_view(st.dlpi_backends@),
                st.g,
                st.pci_paths@,
                st.serial_nums@,
                b0,
                prior,
            );
        }
        return Err(ApiSpecParseError::SoftNpuP9InUse(devices[j].0.clone()));
    }
    let path = p9.pci_path;
    if crate::builder::contains_path(&st.pci_paths, path) {
        proof {
            lemma_err_pci(
                w0,
                en,
                dv,
                j as int,
                pairs_view(st.storage_backends@),
                pairs_view(st.viona_backends@),
                pairs_view(st.dlpi_backends@),
                st.g,
                st.pci_paths@,
                st.serial_nums@,
                b0,
                path,
            );
        }
        return Err(ApiSpecParseError::PciPathInUse(path));
    }
    st.pci_paths.push(path);
    let nm = devices[j].0.clone();
    st.g.softnpu.p9_device = Some((nm, p9));
    proof {
        reveal(resolve_inv);
        let gpre = stpre.g;
        let a = entries_of(gpre.disks@, disk_pair_fn()) + entries_of(gpre.nics@, nic_pair_fn())
            + entries_of(gpre.serial@, serial_pair_fn()) + entries_of(
            gpre.pci_pci_bridges@,
            bridge_pair_fn(),
        ) + pvpanic_entries(gpre.pvpanic) + softnpu_pci_entries(gpre.softnpu.pci_port);
        let tail = p9fs_entries(gpre.softnpu.p9fs) + entries_of(
            gpre.softnpu.ports@,
            crate::grouped::softnpu_port_pair_fn(),
        );
        assert(softnpu_p9_entries(st.g.softnpu.p9_device) =~= seq![
            (dv[j as int].0, dv[j as int].1),
        ]);
        assert(gpre.wire_entries() =~= a + tail);
        assert(st.g.wire_entries() =~= a + seq![(dv[j as int].0, dv[j as int].1)] + tail);
        lemma_simple_arm(
            w0,
            en,
            dv,
            j as int,
            pairs_view(st.storage_backends@),
            pairs_view(st.viona_backends@),
            pairs_view(st.dlpi_backends@),
            gpre,
            st.g,
            a,
            tail,
            Some(path),
            stpre.pci_paths@,
            st.pci_paths@,
            None,
            stpre.serial_nums@,
            st.serial_nums@,
            b0,
        );
    }
    Ok(())
}

/// Folds the filesystem-passthrough device at `j` into the grouped state.
/// At most one may exist, and only on hosts with the extension.
#[verifier::rlimit(100)]
#[verifier::spinoff_prover]
pub(crate) fn resolve_p9fs(
    st: &mut ResolveState,
    devices: &Vec<(String, ComponentV0)>,
    j: usize,
    en: bool,
    Ghost(w0): Ghost<InstanceSpecV0>,
    Ghost(dv): Ghost<Seq<(Seq<char>, ComponentV0)>>,
    Ghost(b0): Ghost<int>,
) -> (r: Result<(), ApiSpecParseError>)
    requires
        w0.wf(),
        dv == pairs_view(devices@),
        0 <= j < devices@.len(),
        devices@[j as int].1 is P9fs,
        st_inv(w0, en, dv, j as int, *old(st), b0),
    ensures
        r is Ok ==> st_inv(w0, en, dv, j as int + 1, *final(st), b0),
        r is Err ==> !wire_convertible(w0, en),
        r matches Err(ApiSpecParseError::StorageBackendNotFound(b, d)) ==> dangling_disk_backend(
            w0,
            b@,
            d@,
        ),
        r matches Err(ApiSpecParseError::NetworkBackendNotFound(b, d)) ==> dangling_network_backend(
            w0,
            b@,
            d@,
        ),
        r matches Err(ApiSpecParseError::SoftNpuCompiledOut(n)) ==> !en
            && unsupported_extension_component(w0, n@),
        r matches Err(ApiSpecParseError::BackendNotUsed(b)) ==> orphan_backend(w0, b@),
        r matches Err(ApiSpecParseError::PciPathInUse(p)) ==> pci_conflict(w0, p),
        r matches Err(ApiSpecParseError::SerialPortInUse(s)) ==> serial_conflict(w0, s),
        r matches Err(ApiSpecParseError::PvpanicInUse(n)) ==> duplicate_pvpanic(w0, n@),
        r matches Err(ApiSpecParseError::SoftNpuPciPortInUse(n)) ==> duplicate_softnpu_pci(
            w0,
            n@,
        ),
        r matches Err(ApiSpecParseError::SoftNpuP9InUse(n)) ==> duplicate_softnpu_p9(w0, n@),
        r matches Err(ApiSpecParseError::P9fsInUse(n)) ==> duplicate_p9fs(w0, n@),
{
    proof {
        assert(dv[j as int] == (devices@[j as int].0@, devices@[j as int].1));
    }
    let ghost stpre = *st;
    let p9fs = match &devices[j].1 {
        ComponentV0::P9fs(p) => p.duplicate(),
        _ => {
            proof {
                assert(false);
            }
            return Err(ApiSpecParseError::P9fsInUse(String::new()));
        },
    };
    if !en {
        proof {
            lemma_err_disabled(
                w0,
                en,
                dv,
                j as int,
                pairs_view(st.storage_backends@),
                pairs_view(st.viona_backends@),
                pairs_view(st.dlpi_backends@),
                st.g,
                st.pci_paths@,
                st.serial_nums@,
                b0,
            );
        }
        return Err(ApiSpecParseError::SoftNpuCompiledOut(devices[j].0.clone()));
    }
    if st.g.softnpu.p9fs.is_some() {
        proof {
            reveal(resolve_inv);
            let prior = choose|t: int| 0 <= t < j && (#[trigger] dv[t]).1 is P9fs;
            lemma_err_singleton(
                w0,
                en,
                dv,
                j as int,
                pairs_view(st.storage_backends@),
                pairs_view(st.viona_backends@),
                pairs_view(st.dlpi_backends@),
                st.g,
                st.pci_paths@,
                st.serial_nums@,
                b0,
                prior,
            );
        }
        return Err(ApiSpecParseError::P9fsInUse(devices[j].0.clone()));
    }
    let path = p9fs.pci_path;
    if crate::builder::contains_path(&st.pci_paths, path) {
        proof {
            lemma_err_pci(
                w0,
                en,
                dv,
                j as int,
                pairs_view(st.storage_backends@),
                pairs_view(st.viona_backends@),
                pairs_view(st.dlpi_backends@),
                st.g,
                st.pci_paths@,
                st.serial_nums@,
                b0,
                path,
            );
        }
        return Err(ApiSpecParseError::PciPathInUse(path));
    }
    st.pci_paths.push(path);
    let nm = devices[j].0.clone();
    st.g.softnpu.p9fs = Some((nm, p9fs));
    proof {
        reveal(resolve_inv);
        let gpre = stpre.g;
        let a = entries_of(gpre.disks@, disk_pair_fn()) + entries_of(gpre.nics@, nic_pair_fn())
            + entries_of(gpre.serial@, serial_pair_fn()) + entries_of(
            gpre.pci_pci_bridges@,
            bridge_pair_fn(),
        ) + pvpanic_entries(gpre.pvpanic) + softnpu_pci_entries(gpre.softnpu.pci_port)
            + softnpu_p9_entries(gpre.softnpu.p9_device);
        let tail = entries_of(gpre.softnpu.ports@, crate::grouped::softnpu_port_pair_fn());
        assert(p9fs_entries(st.g.softnpu.p9fs) =~= seq![(dv[j as int].0, dv[j as int].1)]);
        assert(gpre.wire_entries() =~= a + tail);
        assert(st.g.wire_entries() =~= a + seq![(dv[j as int].0, dv[j as int].1)] + tail);
        lemma_simple_arm(
            w0,
            en,
            dv,
            j as int,
            pairs_view(st.storage_backends@),
            pairs_view(st.viona_backends@),
            pairs_view(st.dlpi_backends@),
            gpre,
            st.g,
            a,
            tail,
            Some(path),
            stpre.pci_paths@,
            st.pci_paths@,
            None,
            stpre.serial_nums@,
            st.serial_nums@,
            b0,
        );
    }
    Ok(())
}


/// Partitions a wire spec's components into the device list and the three
/// backend buckets, preserving order within each.
#[verifier::rlimit(100)]
#[verifier::spinoff_prover]
pub(crate) fn partition(components: &ComponentMap) -> (r: (
    Vec<(String, ComponentV0)>,
    Vec<(String, StorageBackend)>,
    Vec<(String, VirtioNetworkBackend)>,
    Vec<(String, DlpiNetworkBackend)>,
))
    ensures
        pairs_view(r.0@) == components.entries_view().filter_map(device_bucket_fn()),
        pairs_view(r.1@) == components.entries_view().filter_map(storage_bucket_fn()),
        pairs_view(r.2@) == components.entries_view().filter_map(viona_bucket_fn()),
        pairs_view(r.3@) == components.entries_view().filter_map(dlpi_bucket_fn()),
        r.0@.len() + r.1@.len() + r.2@.len() + r.3@.len() == components.entries_view().len(),
{
    let ghost wev = components.entries_view();
    let mut devices: Vec<(String, ComponentV0)> = Vec::new();
    let mut storage_backends: Vec<(String, StorageBackend)> = Vec::new();
    let mut viona_backends: Vec<(String, VirtioNetworkBackend)> = Vec::new();
    let mut dlpi_backends: Vec<(String, DlpiNetworkBackend)> = Vec::new();

    proof {
        components.lemma_entries_view_len();
        assert(wev.take(0) =~= Seq::<(Seq<char>, ComponentV0)>::empty());
        assert(pairs_view(devices@) =~= wev.take(0).filter_map(device_bucket_fn()));
        assert(pairs_view(storage_backends@) =~= wev.take(0).filter_map(storage_bucket_fn()));
        assert(pairs_view(viona_backends@) =~= wev.take(0).filter_map(viona_bucket_fn()));
        assert(pairs_view(dlpi_backends@) =~= wev.take(0).filter_map(dlpi_bucket_fn()));
    }
    let mut i: usize = 0;
    while i < components.entries.len()
        invariant
            i <= components.entries@.len(),
            wev == components.entries_view(),
            wev.len() == components.entries@.len(),
            pairs_view(devices@) == wev.take(i as int).filter_map(device_bucket_fn()),
            pairs_view(storage_backends@) == wev.take(i as int).filter_map(storage_bucket_fn()),
            pairs_view(viona_backends@) == wev.take(i as int).filter_map(viona_bucket_fn()),
            pairs_view(dlpi_backends@) == wev.take(i as int).filter_map(dlpi_bucket_fn()),
            devices@.len() + storage_backends@.len() + viona_backends@.len()
                + dlpi_backends@.len() == i,
        decreases components.entries@.len() - i,
    {
        let name = components.entries[i].0.clone();
        let comp = components.entries[i].1.duplicate();
        proof {
            components.lemma_entries_view_index(i as int);
            assert(wev[i as int] == (name@, comp));
            assert(wev.take(i as int + 1).drop_last() =~= wev.take(i as int));
            assert(wev.take(i as int + 1).last() == wev[i as int]);
        }
        match comp {
            ComponentV0::CrucibleBackend(b) => {
                storage_backends.push((name, StorageBackend::Crucible(b)));
            },
            ComponentV0::FileStorageBackend(b) => {
                storage_backends.push((name, StorageBackend::File(b)));
            },
            ComponentV0::BlobStorageBackend(b) => {
                storage_backends.push((name, StorageBackend::Blob(b)));
            },
            ComponentV0::VionaBackend(b) => {
                viona_backends.push((name, b));
            },
            ComponentV0::DlpiBackend(b) => {
                dlpi_backends.push((name, b));
            },
            other => {
                devices.push((name, other));
            },
        }
        proof {
            assert(pairs_view(devices@) =~= wev.take(i as int + 1).filter_map(
                device_bucket_fn(),
            ));
            assert(pairs_view(storage_backends@) =~= wev.take(i as int + 1).filter_map(
                storage_bucket_fn(),
            ));
            assert(pairs_view(viona_backends@) =~= wev.take(i as int + 1).filter_map(
                viona_bucket_fn(),
            ));
            assert(pairs_view(dlpi_backends@) =~= wev.take(i as int + 1).filter_map(
                dlpi_bucket_fn(),
            ));
        }
        i += 1;
    }
    proof {
        assert(wev.take(wev.len() as int) =~= wev);
    }
    (devices, storage_backends, viona_backends, dlpi_backends)
}

/// Folds every device into the grouped state in order, stopping at the
/// first conflict.
#[verifier::rlimit(100)]
#[verifier::spinoff_prover]
pub(crate) fn resolve_all(
    st: &mut ResolveState,
    devices: &Vec<(String, ComponentV0)>,
    en: bool,
    Ghost(w0): Ghost<InstanceSpecV0>,
    Ghost(dv): Ghost<Seq<(Seq<char>, ComponentV0)>>,
    Ghost(b0): Ghost<int>,
) -> (r: Result<(), ApiSpecParseError>)
    requires
        w0.wf(),
        dv == pairs_view(devices@),
        st_inv(w0, en, dv, 0, *old(st), b0),
    ensures
        r is Ok ==> st_inv(w0, en, dv, devices@.len() as int, *final(st), b0),
        r is Err ==> !wire_convertible(w0, en),
        r matches Err(ApiSpecParseError::StorageBackendNotFound(b, d)) ==> dangling_disk_backend(
            w0,
            b@,
            d@,
        ),
        r matches Err(ApiSpecParseError::NetworkBackendNotFound(b, d)) ==> dangling_network_backend(
            w0,
            b@,
            d@,
        ),
        r matches Err(ApiSpecParseError::SoftNpuCompiledOut(n)) ==> !en
            && unsupported_extension_component(w0, n@),
        r matches Err(ApiSpecParseError::BackendNotUsed(b)) ==> orphan_backend(w0, b@),
        r matches Err(ApiSpecParseError::PciPathInUse(p)) ==> pci_conflict(w0, p),
        r matches Err(ApiSpecParseError::SerialPortInUse(s)) ==> serial_conflict(w0, s),
        r matches Err(ApiSpecParseError::PvpanicInUse(n)) ==> duplicate_pvpanic(w0, n@),
        r matches Err(ApiSpecParseError::SoftNpuPciPortInUse(n)) ==> duplicate_softnpu_pci(
            w0,
            n@,
        ),
        r matches Err(ApiSpecParseError::SoftNpuP9InUse(n)) ==> duplicate_softnpu_p9(w0, n@),
        r matches Err(ApiSpecParseError::P9fsInUse(n)) ==> duplicate_p9fs(w0, n@),
{
    let mut j: usize = 0;
    while j < devices.len()
        invariant
            j <= devices@.len(),
            dv == pairs_view(devices@),
            dv.len() == devices@.len(),
            w0.wf(),
            st_inv(w0, en, dv, j as int, *st, b0),
        decreases devices@.len() - j,
    {
        let r = match &devices[j].1 {
            ComponentV0::VirtioDisk(_) | ComponentV0::NvmeDisk(_) => {
                resolve_disk(st, devices, j, en, Ghost(w0), Ghost(dv), Ghost(b0))
            },
            ComponentV0::VirtioNic(_) => {
                resolve_nic(st, devices, j, en, Ghost(w0), Ghost(dv), Ghost(b0))
            },
            ComponentV0::SerialPort(_) => {
                resolve_serial(st, devices, j, en, Ghost(w0), Ghost(dv), Ghost(b0))
            },
            ComponentV0::PciPciBridge(_) => {
                resolve_bridge(st, devices, j, en, Ghost(w0), Ghost(dv), Ghost(b0))
            },
            ComponentV0::QemuPvpanic(_) => {
                resolve_pvpanic(st, devices, j, en, Ghost(w0), Ghost(dv), Ghost(b0))
            },
            ComponentV0::SoftNpuPciPort(_) => {
                resolve_snpci(st, devices, j, en, Ghost(w0), Ghost(dv), Ghost(b0))
            },
            ComponentV0::SoftNpuP9(_) => {
                resolve_snp9(st, devices, j, en, Ghost(w0), Ghost(dv), Ghost(b0))
            },
            ComponentV0::P9fs(_) => {
                resolve_p9fs(st, devices, j, en, Ghost(w0), Ghost(dv), Ghost(b0))
            },
            ComponentV0::SoftNpuPort(_) => {
                resolve_port(st, devices, j, en, Ghost(w0), Ghost(dv), Ghost(b0))
            },
            ComponentV0::CrucibleBackend(_) | ComponentV0::FileStorageBackend(_)
            | ComponentV0::BlobStorageBackend(_) | ComponentV0::VionaBackend(_)
            | ComponentV0::DlpiBackend(_) => {
                proof {
                    reveal(resolve_inv);
                    assert(dv[j as int] == (devices@[j as int].0@, devices@[j as int].1));
                    assert(!is_backend_c(dv[j as int].1));
                    assert(false);
                }
                Ok(())
            },
        };
        if let Err(e) = r {
            return Err(e);
        }
        j += 1;
    }
    Ok(())
}

} // verus!
