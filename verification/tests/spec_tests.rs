use propolis_spec::backends::CrucibleStorageBackend;
use propolis_spec::builder::{SpecBuilder, SpecBuilderError};
use propolis_spec::backends::VirtioNetworkBackend;
use propolis_spec::devices::{QemuPvpanic, SerialPort, SerialPortNumber, VirtioDisk, VirtioNic};
use propolis_spec::devices::SoftNpuPciPort;
use propolis_spec::grouped::{ApiSpecParseError, Spec};
use propolis_spec::migration::{CollectionCompatibilityError, MigrationCompatibilityError};
use propolis_spec::pci::PciPath;
use propolis_spec::v0::ComponentV0;

fn disk(bus: u8, device: u8, backend: &str) -> ComponentV0 {
    ComponentV0::VirtioDisk(VirtioDisk {
        backend_name: backend.to_string(),
        pci_path: PciPath { bus, device, function: 0 },
    })
}

fn crucible() -> ComponentV0 {
    ComponentV0::CrucibleBackend(CrucibleStorageBackend {
        request_json: "{}".to_string(),
        readonly: false,
    })
}

#[test]
fn builder_rejects_duplicate_names() {
    let mut b = SpecBuilder::new(2, 1024);
    b.add_component("disk0".to_string(), disk(0, 4, "be0")).unwrap();
    match b.add_component("disk0".to_string(), disk(0, 5, "be1")) {
        Err(SpecBuilderError::NameInUse(n)) => assert_eq!(n, "disk0"),
        other => panic!("unexpected result: {:?}", other.map(|_| ())),
    }
}

#[test]
fn builder_rejects_duplicate_pci_paths() {
    let mut b = SpecBuilder::new(2, 1024);
    b.add_component("disk0".to_string(), disk(0, 4, "be0")).unwrap();
    match b.add_component("disk1".to_string(), disk(0, 4, "be1")) {
        Err(SpecBuilderError::PciPathInUse(p)) => {
            assert_eq!(p, PciPath { bus: 0, device: 4, function: 0 });
        }
        other => panic!("unexpected result: {:?}", other.map(|_| ())),
    }
}

#[test]
fn builder_rejects_duplicate_serial_ports() {
    let mut b = SpecBuilder::new(2, 1024);
    b.add_component(
        "com1".to_string(),
        ComponentV0::SerialPort(SerialPort { num: SerialPortNumber::Com1 }),
    )
    .unwrap();
    match b.add_component(
        "again".to_string(),
        ComponentV0::SerialPort(SerialPort { num: SerialPortNumber::Com1 }),
    ) {
        Err(SpecBuilderError::SerialPortInUse(n)) => assert_eq!(n, SerialPortNumber::Com1),
        other => panic!("unexpected result: {:?}", other.map(|_| ())),
    }
}

#[test]
fn spec_is_compatible_with_itself() {
    let mut b = SpecBuilder::new(4, 4096);
    b.enable_pcie();
    b.add_component("disk0".to_string(), disk(0, 4, "be0")).unwrap();
    b.add_component("be0".to_string(), crucible()).unwrap();
    let spec = b.finish();
    assert!(spec.can_migrate_from(&spec).is_ok());
}

#[test]
fn missing_component_is_reported_by_name() {
    let mut b1 = SpecBuilder::new(4, 4096);
    b1.add_component("disk0".to_string(), disk(0, 4, "be0")).unwrap();
    let s1 = b1.finish();
    let s2 = SpecBuilder::new(4, 4096).finish();
    match s1.can_migrate_from(&s2) {
        Err(MigrationCompatibilityError::CollectionMismatch(tag, e)) => {
            assert_eq!(tag, "components");
            match e {
                CollectionCompatibilityError::OtherMissingElement(n) => assert_eq!(n, "disk0"),
                other => panic!("unexpected error: {:?}", other),
            }
        }
        other => panic!("unexpected result: {:?}", other),
    }
    match s2.can_migrate_from(&s1) {
        Err(MigrationCompatibilityError::CollectionMismatch(_, e)) => match e {
            CollectionCompatibilityError::SelfMissingElement(n) => assert_eq!(n, "disk0"),
            other => panic!("unexpected error: {:?}", other),
        },
        other => panic!("unexpected result: {:?}", other),
    }
}

#[test]
fn wire_round_trips_through_grouped_form() {
    let mut b = SpecBuilder::new(4, 4096);
    b.add_component("disk0".to_string(), disk(0, 4, "be0")).unwrap();
    b.add_component("be0".to_string(), crucible()).unwrap();
    b.add_component(
        "com1".to_string(),
        ComponentV0::SerialPort(SerialPort { num: SerialPortNumber::Com1 }),
    )
    .unwrap();
    let wire = b.finish();
    let reference = wire.clone();
    let grouped = Spec::from_wire(wire, false).unwrap();
    assert_eq!(grouped.disks.len(), 1);
    assert_eq!(grouped.serial.len(), 1);
    let wire2 = grouped.to_wire();
    assert!(wire2.can_migrate_from(&reference).is_ok());
    assert!(reference.can_migrate_from(&wire2).is_ok());
}

#[test]
fn dangling_storage_backend_is_reported() {
    let mut b = SpecBuilder::new(4, 4096);
    b.add_component("disk0".to_string(), disk(0, 4, "nosuch")).unwrap();
    let wire = b.finish();
    match Spec::from_wire(wire, false) {
        Err(ApiSpecParseError::StorageBackendNotFound(be, dev)) => {
            assert_eq!(be, "nosuch");
            assert_eq!(dev, "disk0");
        }
        other => panic!("unexpected result: {:?}", other.map(|_| ())),
    }
}

#[test]
fn orphan_backend_is_reported() {
    let mut b = SpecBuilder::new(4, 4096);
    b.add_component("be0".to_string(), crucible()).unwrap();
    let wire = b.finish();
    match Spec::from_wire(wire, false) {
        Err(ApiSpecParseError::BackendNotUsed(be)) => assert_eq!(be, "be0"),
        other => panic!("unexpected result: {:?}", other.map(|_| ())),
    }
}

#[test]
fn extension_component_needs_the_extension() {
    let mut b = SpecBuilder::new(4, 4096);
    b.add_component(
        "npu".to_string(),
        ComponentV0::SoftNpuPciPort(SoftNpuPciPort {
            pci_path: PciPath { bus: 0, device: 9, function: 0 },
        }),
    )
    .unwrap();
    let wire = b.finish();
    let reference = wire.clone();
    match Spec::from_wire(wire, false) {
        Err(ApiSpecParseError::SoftNpuCompiledOut(n)) => assert_eq!(n, "npu"),
        other => panic!("unexpected result: {:?}", other.map(|_| ())),
    }
    let grouped = Spec::from_wire(reference, true).unwrap();
    assert!(grouped.softnpu.pci_port.is_some());
}

#[test]
fn dangling_network_backend_is_reported() {
    let mut b = SpecBuilder::new(4, 4096);
    b.add_component(
        "nic0".to_string(),
        ComponentV0::VirtioNic(VirtioNic {
            backend_name: "novnic".to_string(),
            pci_path: PciPath { bus: 0, device: 6, function: 0 },
        }),
    )
    .unwrap();
    let wire = b.finish();
    match Spec::from_wire(wire, false) {
        Err(ApiSpecParseError::NetworkBackendNotFound(be, dev)) => {
            assert_eq!(be, "novnic");
            assert_eq!(dev, "nic0");
        }
        other => panic!("unexpected result: {:?}", other.map(|_| ())),
    }
}

#[test]
fn shared_disk_backend_is_reported_for_the_second_disk() {
    let mut b = SpecBuilder::new(4, 4096);
    b.add_component("disk0".to_string(), disk(0, 4, "be0")).unwrap();
    b.add_component("disk1".to_string(), disk(0, 5, "be0")).unwrap();
    b.add_component("be0".to_string(), crucible()).unwrap();
    let wire = b.finish();
    match Spec::from_wire(wire, false) {
        Err(ApiSpecParseError::StorageBackendNotFound(be, _dev)) => {
            assert_eq!(be, "be0");
        }
        other => panic!("unexpected result: {:?}", other.map(|_| ())),
    }
}

#[test]
fn duplicate_pvpanic_is_reported() {
    let mut b = SpecBuilder::new(4, 4096);
    b.add_component(
        "panic0".to_string(),
        ComponentV0::QemuPvpanic(QemuPvpanic { enable_isa: true }),
    )
    .unwrap();
    b.add_component(
        "panic1".to_string(),
        ComponentV0::QemuPvpanic(QemuPvpanic { enable_isa: false }),
    )
    .unwrap();
    let wire = b.finish();
    match Spec::from_wire(wire, false) {
        Err(ApiSpecParseError::PvpanicInUse(n)) => assert_eq!(n, "panic1"),
        other => panic!("unexpected result: {:?}", other.map(|_| ())),
    }
}

#[test]
fn nic_with_backend_round_trips() {
    let mut b = SpecBuilder::new(4, 4096);
    b.add_component(
        "nic0".to_string(),
        ComponentV0::VirtioNic(VirtioNic {
            backend_name: "vnic0".to_string(),
            pci_path: PciPath { bus: 0, device: 6, function: 0 },
        }),
    )
    .unwrap();
    b.add_component(
        "vnic0".to_string(),
        ComponentV0::VionaBackend(VirtioNetworkBackend { vnic_name: "net0".to_string() }),
    )
    .unwrap();
    let wire = b.finish();
    let reference = wire.clone();
    let grouped = Spec::from_wire(wire, false).unwrap();
    assert_eq!(grouped.nics.len(), 1);
    let wire2 = grouped.to_wire();
    assert!(wire2.can_migrate_from(&reference).is_ok());
}
