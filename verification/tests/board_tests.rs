use propolis_spec::board::{Board, Chipset, Cpuid, CpuidEntry, I440Fx, MigrationCompatibilityError};
use propolis_spec::migration::ElementCompatibilityError;

#[test]
fn compatible_boards() {
    let b1 = Board {
        cpus: 8,
        memory_mb: 8192,
        chipset: Chipset::I440Fx(I440Fx { enable_pcie: false }),
        cpuid: Cpuid::BhyveDefault,
    };

    assert!(b1.can_migrate_from_element(&b1).is_ok());
}

#[test]
fn incompatible_boards() {
    let b1 = Board {
        cpus: 4,
        memory_mb: 4096,
        chipset: Chipset::I440Fx(I440Fx { enable_pcie: true }),
        cpuid: Cpuid::BhyveDefault,
    };

    let mut b2 = b1.clone();
    b2.cpus = 8;
    assert!(b1.can_migrate_from_element(&b2).is_err());

    b2 = b1.clone();
    b2.memory_mb *= 2;
    assert!(b1.can_migrate_from_element(&b2).is_err());

    b2 = b1.clone();
    b2.chipset = Chipset::I440Fx(I440Fx { enable_pcie: false });
    assert!(b1.can_migrate_from_element(&b2).is_err());

    b2 = b1.clone();
    b2.cpuid = Cpuid::Entries(vec![]);
    assert!(b1.can_migrate_from_element(&b2).is_err());
}

#[test]
fn cpuid_both_bhyve() {
    let c1 = Cpuid::BhyveDefault;
    let c2 = Cpuid::BhyveDefault;
    assert!(c1.can_migrate_from_element(&c2).is_ok());
}

#[test]
fn cpuid_matching_entries() {
    let entries = vec![
        CpuidEntry { leaf: 0, subleaf: None, eax: 0, ebx: 0, ecx: 0, edx: 0 },
        CpuidEntry { leaf: 1, subleaf: None, eax: 1, ebx: 2, ecx: 3, edx: 4 },
        CpuidEntry {
            leaf: 2,
            subleaf: Some(0),
            eax: 0xAAAAAAAA,
            ebx: 0xBBBBBBBB,
            ecx: 0xCCCCCCCC,
            edx: 0xDDDDDDDD,
        },
        CpuidEntry { leaf: 3, subleaf: Some(1), eax: 7, ebx: 49, ecx: 343, edx: 2401 },
    ];

    let c1 = Cpuid::Entries(entries.clone());
    let c2 = c1.clone();
    c1.can_migrate_from_element(&c2).unwrap();

    let mut swizzled = entries.clone();
    swizzled.swap(0, 2);
    swizzled.swap(1, 3);
    let c2 = Cpuid::Entries(swizzled);
    c1.can_migrate_from_element(&c2).unwrap();
}

#[test]
fn cpu_count_mismatch_names_both_counts() {
    let a = Board {
        cpus: 4,
        memory_mb: 4096,
        chipset: Chipset::I440Fx(I440Fx { enable_pcie: true }),
        cpuid: Cpuid::BhyveDefault,
    };
    let mut b = a.clone();
    b.cpus = 8;
    match a.can_migrate_from_element(&b) {
        Err(ElementCompatibilityError::BoardsIncompatible(
            MigrationCompatibilityError::CpuCount(x, y),
        )) => {
            assert_eq!(x, 4);
            assert_eq!(y, 8);
        }
        other => panic!("unexpected result: {:?}", other),
    }
}

#[test]
fn cpuid_single_field_change_is_reported() {
    let entries = vec![
        CpuidEntry { leaf: 0, subleaf: None, eax: 0, ebx: 0, ecx: 0, edx: 0 },
        CpuidEntry { leaf: 1, subleaf: None, eax: 1, ebx: 2, ecx: 3, edx: 4 },
    ];
    let mut changed = entries.clone();
    changed[1].edx = 5;
    let c1 = Cpuid::Entries(entries);
    let c2 = Cpuid::Entries(changed);
    assert!(c1.can_migrate_from_element(&c2).is_err());
}

#[test]
fn cpuid_length_mismatch_is_reported() {
    let c1 = Cpuid::Entries(vec![CpuidEntry {
        leaf: 0,
        subleaf: None,
        eax: 0,
        ebx: 0,
        ecx: 0,
        edx: 0,
    }]);
    let c2 = Cpuid::Entries(vec![]);
    assert!(c1.can_migrate_from_element(&c2).is_err());
    assert!(c1.can_migrate_from_element(&Cpuid::BhyveDefault).is_err());
    assert_eq!(c1.mode(), "explicit");
    assert_eq!(Cpuid::BhyveDefault.mode(), "bhyve");
}
