//! Grouping a wire-form spec: the top-level conversion entry point,
//! composed from the partition pass and the per-device resolution pass.

use vstd::prelude::*;

use crate::convert::{partition, resolve_all, st_inv, ResolveState};
use crate::devices::SerialPortNumber;
use crate::grouped::{
    dangling_disk_backend, dangling_network_backend, duplicate_p9fs, duplicate_pvpanic,
    duplicate_softnpu_p9, duplicate_softnpu_pci, groups_wire, has_name, orphan_backend,
    pci_conflict, serial_conflict, unsupported_extension_component, wire_convertible,
    ApiSpecParseError, SoftNpu, Spec,
};
use crate::grouped::pairs_view;
use crate::pci::PciPath;
use crate::resolve::{lemma_end_ok, lemma_err_unused, lemma_initial_inv};
use crate::v0::{ComponentV0, InstanceSpecV0};

verus! {

impl Spec {
    /// Groups a wire-form spec: partitions its components into backends and
    /// devices, resolves every backed device's backend by name (consuming
    /// it), and applies the same uniqueness rules the builder enforces.
    /// `softnpu_enabled` says whether this host provides the
    /// packet-processing platform extension. Succeeds exactly on
    /// convertible specs; fails fast with a structured error naming the
    /// offending component.
    #[verifier::rlimit(100)]
    #[verifier::spinoff_prover]
    pub fn from_wire(wire: InstanceSpecV0, softnpu_enabled: bool) -> (r: Result<
        Spec,
        ApiSpecParseError,
    >)
        requires
            wire.wf(),
        ensures
            r matches Ok(g) ==> groups_wire(wire, g),
            r is Ok <==> wire_convertible(wire, softnpu_enabled),
            r matches Err(ApiSpecParseError::StorageBackendNotFound(b, d))
                ==> dangling_disk_backend(wire, b@, d@),
            r matches Err(ApiSpecParseError::NetworkBackendNotFound(b, d))
                ==> dangling_network_backend(wire, b@, d@),
            r matches Err(ApiSpecParseError::SoftNpuCompiledOut(n)) ==> !softnpu_enabled
                && unsupported_extension_component(wire, n@),
            r matches Err(ApiSpecParseError::BackendNotUsed(b)) ==> orphan_backend(wire, b@),
            r matches Err(ApiSpecParseError::PciPathInUse(p)) ==> pci_conflict(wire, p),
            r matches Err(ApiSpecParseError::SerialPortInUse(s)) ==> serial_conflict(wire, s),
            r matches Err(ApiSpecParseError::PvpanicInUse(n)) ==> duplicate_pvpanic(wire, n@),
            r matches Err(ApiSpecParseError::SoftNpuPciPortInUse(n)) ==> duplicate_softnpu_pci(
                wire,
                n@,
            ),
            r matches Err(ApiSpecParseError::SoftNpuP9InUse(n)) ==> duplicate_softnpu_p9(
                wire,
                n@,
            ),
            r matches Err(ApiSpecParseError::P9fsInUse(n)) ==> duplicate_p9fs(wire, n@),
    {
        let ghost w0 = wire;
        let InstanceSpecV0 { board, components } = wire;
        let (devices, storage_backends, viona_backends, dlpi_backends) = partition(&components);
        let ghost dv = pairs_view(devices@);
        let ghost b0 = storage_backends@.len() + viona_backends@.len() + dlpi_backends@.len();
        let mut st = ResolveState {
            g: Spec {
                board,
                disks: Vec::new(),
                nics: Vec::new(),
                serial: Vec::new(),
                pci_pci_bridges: Vec::new(),
                pvpanic: None,
                softnpu: SoftNpu {
                    pci_port: None,
                    ports: Vec::new(),
                    p9_device: None,
                    p9fs: None,
                },
            },
            storage_backends,
            viona_backends,
            dlpi_backends,
            pci_paths: Vec::new(),
            serial_nums: Vec::new(),
        };
        proof {
            assert(st.g.wire_entries() =~= Seq::<(Seq<char>, ComponentV0)>::empty());
            lemma_initial_inv(
                w0,
                softnpu_enabled,
                dv,
                pairs_view(st.storage_backends@),
                pairs_view(st.viona_backends@),
                pairs_view(st.dlpi_backends@),
                st.g,
                b0 as int,
            );
            assert(st.pci_paths@ =~= Seq::<PciPath>::empty());
            assert(st.serial_nums@ =~= Seq::<SerialPortNumber>::empty());
        }
        match resolve_all(
            &mut st,
            &devices,
            softnpu_enabled,
            Ghost(w0),
            Ghost(dv),
            Ghost(b0 as int),
        ) {
            Err(e) => {
                return Err(e);
            },
            Ok(_) => {},
        }
        if st.storage_backends.len() > 0 {
            proof {
                assert(pairs_view(st.storage_backends@)[0].0 == st.storage_backends@[0].0@);
                assert(has_name(pairs_view(st.storage_backends@), st.storage_backends@[0].0@));
                lemma_err_unused(
                    w0,
                    softnpu_enabled,
                    dv,
                    pairs_view(st.storage_backends@),
                    pairs_view(st.viona_backends@),
                    pairs_view(st.dlpi_backends@),
                    st.g,
                    st.pci_paths@,
                    st.serial_nums@,
                    b0 as int,
                    st.storage_backends@[0].0@,
                );
            }
            return Err(ApiSpecParseError::BackendNotUsed(st.storage_backends[0].0.clone()));
        }
        if st.viona_backends.len() > 0 {
            proof {
                assert(pairs_view(st.viona_backends@)[0].0 == st.viona_backends@[0].0@);
                assert(has_name(pairs_view(st.viona_backends@), st.viona_backends@[0].0@));
                lemma_err_unused(
                    w0,
                    softnpu_enabled,
                    dv,
                    pairs_view(st.storage_backends@),
                    pairs_view(st.viona_backends@),
                    pairs_view(st.dlpi_backends@),
                    st.g,
                    st.pci_paths@,
                    st.serial_nums@,
                    b0 as int,
                    st.viona_backends@[0].0@,
                );
            }
            return Err(ApiSpecParseError::BackendNotUsed(st.viona_backends[0].0.clone()));
        }
        if st.dlpi_backends.len() > 0 {
            proof {
                assert(pairs_view(st.dlpi_backends@)[0].0 == st.dlpi_backends@[0].0@);
                assert(has_name(pairs_view(st.dlpi_backends@), st.dlpi_backends@[0].0@));
                lemma_err_unused(
                    w0,
                    softnpu_enabled,
                    dv,
                    pairs_view(st.storage_backends@),
                    pairs_view(st.viona_backends@),
                    pairs_view(st.dlpi_backends@),
                    st.g,
                    st.pci_paths@,
                    st.serial_nums@,
                    b0 as int,
                    st.dlpi_backends@[0].0@,
                );
            }
            return Err(ApiSpecParseError::BackendNotUsed(st.dlpi_backends[0].0.clone()));
        }
        proof {
            lemma_end_ok(
                w0,
                softnpu_enabled,
                dv,
                pairs_view(st.storage_backends@),
                pairs_view(st.viona_backends@),
                pairs_view(st.dlpi_backends@),
                st.g,
                st.pci_paths@,
                st.serial_nums@,
                b0 as int,
            );
        }
        Ok(st.g)
    }
}

} // verus!
