//! The resolution pass of wire-to-grouped conversion: its loop invariant
//! and the lemmas that carry it through each device kind and each failure
//! exit.

use vstd::prelude::*;

use crate::backends::{DlpiNetworkBackend, StorageBackend, VirtioNetworkBackend};
use crate::devices::{SerialPortNumber, StorageDevice};
use crate::grouped::{
    dangling_disk_backend, dangling_network_backend, duplicate_p9fs, duplicate_pvpanic,
    duplicate_softnpu_p9, duplicate_softnpu_pci, is_serial_c, orphan_backend, pci_conflict,
    serial_conflict, unsupported_extension_component, device_bucket_fn, disk_backend_name, disk_pair, disk_pair_fn, distinct_names,
    dlpi_bucket_fn, entries_of, groups_wire, has_name, is_backend_c, is_disk_c, is_softnpu_c,
    is_storage_backend_c, lemma_bucket_facts, lemma_entries_of_take_step, nic_backend_name,
    nic_pair, nic_pair_fn, pairs_view, port_backend_name, pvpanic_entries, serial_pair_fn,
    softnpu_p9_entries, softnpu_pci_entries, softnpu_port_pair, softnpu_port_pair_fn,
    bridge_pair_fn, p9fs_entries, storage_backend_component, storage_bucket_fn,
    storage_device_component, viona_bucket_fn, wire_convertible, Disk, Nic, SoftNpuPort, Spec,
};
use crate::pci::PciPath;
use crate::v0::{ComponentMap, ComponentV0, InstanceSpecV0};

verus! {

/// Extracts the grouped storage-device description of a disk component.
pub(crate) fn as_storage_device(c: &ComponentV0) -> (r: Option<StorageDevice>)
    ensures
        r is Some <==> is_disk_c(*c),
        r matches Some(d) ==> storage_device_component(d) == *c,
{
    match c {
        ComponentV0::VirtioDisk(d) => Some(StorageDevice::Virtio(d.duplicate())),
        ComponentV0::NvmeDisk(d) => Some(StorageDevice::Nvme(d.duplicate())),
        _ => None,
    }
}

/// The state of the resolution pass after the first `j` devices have been
/// folded into the grouped spec `g`: the remaining buckets hold exactly the
/// backends no handled device has claimed, everything `g` flattens into is
/// a distinct-named wire component, and the conflict records mirror the
/// handled prefix.
#[verifier::opaque]
pub(crate) open spec fn resolve_inv(
    w0: InstanceSpecV0,
    en: bool,
    dv: Seq<(Seq<char>, ComponentV0)>,
    j: int,
    sb: Seq<(Seq<char>, StorageBackend)>,
    vb: Seq<(Seq<char>, VirtioNetworkBackend)>,
    db: Seq<(Seq<char>, DlpiNetworkBackend)>,
    g: Spec,
    pci: Seq<PciPath>,
    ser: Seq<SerialPortNumber>,
    b0: int,
) -> bool {
    let ge = g.wire_entries();
    let w = w0.components;
    &&& 0 <= j <= dv.len()
    &&& distinct_names(dv)
    &&& forall|t: int|
        0 <= t < dv.len() ==> w.contains_name((#[trigger] dv[t]).0) && w.value_of(dv[t].0)
            == dv[t].1 && !is_backend_c(dv[t].1)
    &&& forall|i: int|
        0 <= i < w.entries_view().len() && !is_backend_c((#[trigger] w.entries_view()[i]).1)
            ==> exists|t: int| 0 <= t < dv.len() && (#[trigger] dv[t]) == w.entries_view()[i]
    &&& distinct_names(sb)
    &&& distinct_names(vb)
    &&& distinct_names(db)
    &&& forall|k: int|
        0 <= k < sb.len() ==> w.contains_name((#[trigger] sb[k]).0) && w.value_of(sb[k].0)
            == storage_backend_component(sb[k].1)
    &&& forall|k: int|
        0 <= k < vb.len() ==> w.contains_name((#[trigger] vb[k]).0) && w.value_of(vb[k].0)
            == ComponentV0::VionaBackend(vb[k].1)
    &&& forall|k: int|
        0 <= k < db.len() ==> w.contains_name((#[trigger] db[k]).0) && w.value_of(db[k].0)
            == ComponentV0::DlpiBackend(db[k].1)
    &&& forall|n: Seq<char>|
        #[trigger] has_name(sb, n) <==> (w.contains_name(n) && is_storage_backend_c(w.value_of(n))
            && !(exists|t: int|
            0 <= t < j && is_disk_c((#[trigger] dv[t]).1) && disk_backend_name(dv[t].1) == n))
    &&& forall|n: Seq<char>|
        #[trigger] has_name(vb, n) <==> (w.contains_name(n) && w.value_of(n) is VionaBackend && !(
        exists|t: int|
            0 <= t < j && (#[trigger] dv[t]).1 is VirtioNic && nic_backend_name(dv[t].1) == n))
    &&& forall|n: Seq<char>|
        #[trigger] has_name(db, n) <==> (w.contains_name(n) && w.value_of(n) is DlpiBackend && !(
        exists|t: int|
            0 <= t < j && (#[trigger] dv[t]).1 is SoftNpuPort && port_backend_name(dv[t].1) == n))
    &&& forall|k: int|
        0 <= k < ge.len() ==> w.contains_name((#[trigger] ge[k]).0) && w.value_of(ge[k].0)
            == ge[k].1
    &&& distinct_names(ge)
    &&& forall|k: int|
        0 <= k < ge.len() ==> ((exists|t: int| 0 <= t < j && (#[trigger] ge[k]).0 == dv[t].0)
            || is_backend_c(w.value_of(ge[k].0)))
    &&& forall|k: int|
        0 <= k < ge.len() ==> !has_name(sb, (#[trigger] ge[k]).0) && !has_name(vb, ge[k].0)
            && !has_name(db, ge[k].0)
    &&& ge.len() + sb.len() + vb.len() + db.len() == j + b0
    &&& forall|p: PciPath|
        pci.contains(p) <==> (exists|t: int|
            0 <= t < j && (#[trigger] dv[t]).1.spec_pci_path() == Some(p))
    &&& forall|s: SerialPortNumber|
        ser.contains(s) <==> (exists|t: int| 0 <= t < j && is_serial_c((#[trigger] dv[t]).1, s))
    &&& (g.pvpanic is Some <==> exists|t: int| 0 <= t < j && (#[trigger] dv[t]).1 is QemuPvpanic)
    &&& (g.softnpu.pci_port is Some <==> exists|t: int|
        0 <= t < j && (#[trigger] dv[t]).1 is SoftNpuPciPort)
    &&& (g.softnpu.p9_device is Some <==> exists|t: int|
        0 <= t < j && (#[trigger] dv[t]).1 is SoftNpuP9)
    &&& (g.softnpu.p9fs is Some <==> exists|t: int| 0 <= t < j && (#[trigger] dv[t]).1 is P9fs)
    &&& !en ==> forall|t: int| 0 <= t < j ==> !is_softnpu_c((#[trigger] dv[t]).1)
    &&& forall|t1: int, t2: int|
        0 <= t1 < t2 < j && is_disk_c((#[trigger] dv[t1]).1) && is_disk_c((#[trigger] dv[t2]).1)
            ==> disk_backend_name(dv[t1].1) != disk_backend_name(dv[t2].1)
    &&& forall|t1: int, t2: int|
        0 <= t1 < t2 < j && (#[trigger] dv[t1]).1 is VirtioNic && (#[trigger] dv[t2]).1 is
            VirtioNic ==> nic_backend_name(dv[t1].1) != nic_backend_name(dv[t2].1)
    &&& forall|t1: int, t2: int|
        0 <= t1 < t2 < j && (#[trigger] dv[t1]).1 is SoftNpuPort && (#[trigger] dv[t2]).1 is
            SoftNpuPort ==> port_backend_name(dv[t1].1) != port_backend_name(dv[t2].1)
    &&& forall|t1: int, t2: int|
        0 <= t1 < t2 < j && (#[trigger] dv[t1]).1.spec_pci_path() is Some ==> dv[t1].1.spec_pci_path()
            != (#[trigger] dv[t2]).1.spec_pci_path()
    &&& forall|t1: int, t2: int, s: SerialPortNumber|
        0 <= t1 < t2 < j && #[trigger] is_serial_c(dv[t1].1, s) && #[trigger] is_serial_c(
            dv[t2].1,
            s,
        ) ==> false
    &&& forall|t1: int, t2: int|
        0 <= t1 < t2 < j ==> !((#[trigger] dv[t1]).1 is QemuPvpanic && (#[trigger] dv[t2]).1 is
        QemuPvpanic)
    &&& forall|t1: int, t2: int|
        0 <= t1 < t2 < j ==> !((#[trigger] dv[t1]).1 is SoftNpuPciPort && (#[trigger] dv[t2]).1 is
        SoftNpuPciPort)
    &&& forall|t1: int, t2: int|
        0 <= t1 < t2 < j ==> !((#[trigger] dv[t1]).1 is SoftNpuP9 && (#[trigger] dv[t2]).1 is
        SoftNpuP9)
    &&& forall|t1: int, t2: int|
        0 <= t1 < t2 < j ==> !((#[trigger] dv[t1]).1 is P9fs && (#[trigger] dv[t2]).1 is P9fs)
    &&& forall|t: int|
        0 <= t < j && is_disk_c((#[trigger] dv[t]).1) ==> w.contains_name(
            disk_backend_name(dv[t].1),
        ) && is_storage_backend_c(w.value_of(disk_backend_name(dv[t].1)))
    &&& forall|t: int|
        0 <= t < j && (#[trigger] dv[t]).1 is VirtioNic ==> w.contains_name(
            nic_backend_name(dv[t].1),
        ) && w.value_of(nic_backend_name(dv[t].1)) is VionaBackend
    &&& forall|t: int|
        0 <= t < j && (#[trigger] dv[t]).1 is SoftNpuPort ==> w.contains_name(
            port_backend_name(dv[t].1),
        ) && w.value_of(port_backend_name(dv[t].1)) is DlpiBackend
    &&& g.board == w0.board
    &&& forall|k: int| 0 <= k < g.serial@.len() ==> (#[trigger] g.serial@[k]).1.user is Standard
}

/// Finds the index of the entry named `name` in a group, if any.
pub(crate) fn find_pair<T>(v: &Vec<(String, T)>, name: &String) -> (r: Option<usize>)
    ensures
        r matches Some(k) ==> 0 <= k < v@.len() && v@[k as int].0@ == name@,
        r is None ==> !has_name(pairs_view(v@), name@),
{
    let mut i: usize = 0;
    while i < v.len()
        invariant
            i <= v@.len(),
            forall|t: int| 0 <= t < i ==> (#[trigger] v@[t]).0@ != name@,
        decreases v@.len() - i,
    {
        if v[i].0 == *name {
            return Some(i);
        }
        i += 1;
    }
    proof {
        assert forall|k: int| 0 <= k < pairs_view(v@).len() implies (#[trigger] pairs_view(v@)[k]).0
            != name@ by {
            assert(pairs_view(v@)[k].0 == v@[k].0@);
        }
    }
    None
}

/// A name held by a shortened bucket was held by the original bucket.
pub(crate) proof fn lemma_remove_has_name<T>(s: Seq<(Seq<char>, T)>, k: int)
    requires
        0 <= k < s.len(),
        distinct_names(s),
    ensures
        forall|n: Seq<char>| #[trigger]
            has_name(s.remove(k), n) <==> (has_name(s, n) && n != s[k].0),
        distinct_names(s.remove(k)),
{
    let r = s.remove(k);
    assert forall|n: Seq<char>| #[trigger] has_name(r, n) implies (has_name(s, n) && n
        != s[k].0) by {
        let x = choose|x: int| 0 <= x < r.len() && (#[trigger] r[x]).0 == n;
        if x < k {
            assert(s[x].0 == n);
        } else {
            assert(s[x + 1].0 == n);
        }
    }
    assert forall|n: Seq<char>| has_name(s, n) && n != s[k].0 implies #[trigger] has_name(
        r,
        n,
    ) by {
        let x = choose|x: int| 0 <= x < s.len() && (#[trigger] s[x]).0 == n;
        if x < k {
            assert(r[x].0 == n);
        } else {
            assert(x > k);
            assert(r[x - 1].0 == n);
        }
    }
    assert forall|x: int, y: int| 0 <= x < y < r.len() implies r[x].0 != r[y].0 by {
        let x2: int = if x < k {
            x
        } else {
            x + 1
        };
        let y2: int = if y < k {
            y
        } else {
            y + 1
        };
        assert(r[x] == s[x2] && r[y] == s[y2]);
    }
}

/// Folding one disk into the grouped spec preserves the resolution-pass
/// invariant.
#[verifier::rlimit(100)]
#[verifier::spinoff_prover]
pub(crate) proof fn lemma_disk_arm(
    w0: InstanceSpecV0,
    en: bool,
    dv: Seq<(Seq<char>, ComponentV0)>,
    j: int,
    sbpre: Seq<(Seq<char>, StorageBackend)>,
    sbnew: Seq<(Seq<char>, StorageBackend)>,
    k: int,
    vb: Seq<(Seq<char>, VirtioNetworkBackend)>,
    db: Seq<(Seq<char>, DlpiNetworkBackend)>,
    gpre: Spec,
    gnew: Spec,
    path: PciPath,
    pcipre: Seq<PciPath>,
    pcinew: Seq<PciPath>,
    ser: Seq<SerialPortNumber>,
    b0: int,
    nd: (String, Disk),
)
    requires
        resolve_inv(w0, en, dv, j, sbpre, vb, db, gpre, pcipre, ser, b0),
        0 <= j < dv.len(),
        is_disk_c(dv[j].1),
        0 <= k < sbpre.len(),
        sbpre[k].0 == disk_backend_name(dv[j].1),
        sbnew == sbpre.remove(k),
        dv[j].1.spec_pci_path() == Some(path),
        !pcipre.contains(path),
        pcinew == pcipre.push(path),
        nd.0@ == dv[j].0,
        storage_device_component(nd.1.device_spec) == dv[j].1,
        nd.1.backend_spec == sbpre[k].1,
        nd.1.device_spec.spec_backend_name() == disk_backend_name(dv[j].1),
        gnew.disks@ == gpre.disks@.push(nd),
        gnew.nics == gpre.nics,
        gnew.serial == gpre.serial,
        gnew.pci_pci_bridges == gpre.pci_pci_bridges,
        gnew.pvpanic == gpre.pvpanic,
        gnew.softnpu == gpre.softnpu,
        gnew.board == gpre.board,
    ensures
        resolve_inv(w0, en, dv, j + 1, sbnew, vb, db, gnew, pcinew, ser, b0),
{
    reveal(resolve_inv);
    let w = w0.components;
    let gepre = gpre.wire_entries();
    let genew = gnew.wire_entries();
    let a = entries_of(gpre.disks@, disk_pair_fn());
    let dl = a.len() as int;
    let dp = disk_pair(nd);
    let bn = sbpre[k].0;

    lemma_entries_of_take_step(gnew.disks@, disk_pair_fn(), gnew.disks@.len() as int - 1);
    assert(gnew.disks@.take(gnew.disks@.len() as int - 1) =~= gpre.disks@);
    assert(gnew.disks@.take(gnew.disks@.len() as int) =~= gnew.disks@);
    assert(entries_of(gnew.disks@, disk_pair_fn()) == a + dp);
    let tail = entries_of(gpre.nics@, nic_pair_fn()) + entries_of(gpre.serial@, serial_pair_fn())
        + entries_of(gpre.pci_pci_bridges@, bridge_pair_fn()) + pvpanic_entries(gpre.pvpanic)
        + gpre.softnpu.wire_entries();
    assert(gepre =~= a + tail);
    assert(genew =~= (a + dp) + tail);
    assert(forall|x: int| 0 <= x < dl ==> genew[x] == gepre[x]);
    assert(genew[dl] == dp[0]);
    assert(genew[dl + 1] == dp[1]);
    assert(forall|x: int| dl <= x < gepre.len() ==> genew[x + 2] == gepre[x]);
    assert(genew.len() == gepre.len() + 2);
    assert(dp[0] == (dv[j].0, dv[j].1));
    assert(dp[1] == (bn, storage_backend_component(sbpre[k].1)));

    lemma_remove_has_name(sbpre, k);
    crate::builder::lemma_push_contains(pcipre, path, path);

    // The two new names are fresh with respect to the grouped entries.
    assert(has_name(sbpre, bn)) by {
        assert(sbpre[k].0 == bn);
    }
    assert forall|y: int| 0 <= y < gepre.len() implies (#[trigger] gepre[y]).0 != dv[j].0
        && gepre[y].0 != bn by {
        if gepre[y].0 == dv[j].0 {
            assert(w.value_of(gepre[y].0) == gepre[y].1);
            if exists|t: int| 0 <= t < j && (#[trigger] gepre[y]).0 == dv[t].0 {
                let t = choose|t: int| 0 <= t < j && (#[trigger] gepre[y]).0 == dv[t].0;
                assert(dv[t].0 != dv[j].0);
            } else {
                assert(is_backend_c(w.value_of(gepre[y].0)));
                assert(w.value_of(dv[j].0) == dv[j].1);
            }
        }
        if gepre[y].0 == bn {
            assert(!has_name(sbpre, gepre[y].0));
        }
    }
    assert(dv[j].0 != bn) by {
        assert(w.value_of(bn) == storage_backend_component(sbpre[k].1));
        assert(w.value_of(dv[j].0) == dv[j].1);
    }

    // Distinctness of the extended grouped entries.
    assert forall|x: int, y: int| 0 <= x < y < genew.len() implies genew[x].0 != genew[y].0 by {
        if y < dl {
        } else if x < dl && y == dl {
            assert(genew[x] == gepre[x]);
        } else if x < dl && y == dl + 1 {
            assert(genew[x] == gepre[x]);
        } else if x < dl && y > dl + 1 {
            assert(genew[x] == gepre[x] && genew[y] == gepre[y - 2]);
        } else if x == dl && y == dl + 1 {
        } else if x == dl || x == dl + 1 {
            assert(genew[y] == gepre[y - 2]);
        } else {
            assert(genew[x] == gepre[x - 2] && genew[y] == gepre[y - 2]);
        }
    }

    // Bucket book-keeping: the storage bucket shrinks by exactly the
    // consumed backend, and the consumed-by prefix grows by this disk.
    assert forall|n: Seq<char>| #[trigger] has_name(sbnew, n) implies (w.contains_name(n)
        && is_storage_backend_c(w.value_of(n)) && !(exists|t: int|
        0 <= t < j + 1 && is_disk_c((#[trigger] dv[t]).1) && disk_backend_name(dv[t].1)
            == n)) by {
        assert(has_name(sbpre, n) && n != bn);
        if exists|t: int|
            0 <= t < j + 1 && is_disk_c((#[trigger] dv[t]).1) && disk_backend_name(dv[t].1) == n {
            let t = choose|t: int|
                0 <= t < j + 1 && is_disk_c((#[trigger] dv[t]).1) && disk_backend_name(dv[t].1)
                    == n;
            assert(t < j || t == j);
        }
    }
    assert forall|n: Seq<char>|
        (w.contains_name(n) && is_storage_backend_c(w.value_of(n)) && !(exists|t: int|
            0 <= t < j + 1 && is_disk_c((#[trigger] dv[t]).1) && disk_backend_name(dv[t].1)
                == n)) implies #[trigger] has_name(sbnew, n) by {
        assert(!(is_disk_c(dv[j].1) && disk_backend_name(dv[j].1) == n) ==> n != bn);
        assert(has_name(sbpre, n));
    }
    assert forall|n: Seq<char>| #[trigger] has_name(vb, n) implies (w.contains_name(n)
        && w.value_of(n) is VionaBackend && !(exists|t: int|
        0 <= t < j + 1 && (#[trigger] dv[t]).1 is VirtioNic && nic_backend_name(dv[t].1)
            == n)) by {
        if exists|t: int|
            0 <= t < j + 1 && (#[trigger] dv[t]).1 is VirtioNic && nic_backend_name(dv[t].1)
                == n {
            let t = choose|t: int|
                0 <= t < j + 1 && (#[trigger] dv[t]).1 is VirtioNic && nic_backend_name(dv[t].1)
                    == n;
            assert(t < j);
        }
    }
    assert forall|n: Seq<char>| #[trigger] has_name(db, n) implies (w.contains_name(n)
        && w.value_of(n) is DlpiBackend && !(exists|t: int|
        0 <= t < j + 1 && (#[trigger] dv[t]).1 is SoftNpuPort && port_backend_name(dv[t].1)
            == n)) by {
        if exists|t: int|
            0 <= t < j + 1 && (#[trigger] dv[t]).1 is SoftNpuPort && port_backend_name(dv[t].1)
                == n {
            let t = choose|t: int|
                0 <= t < j + 1 && (#[trigger] dv[t]).1 is SoftNpuPort && port_backend_name(
                    dv[t].1,
                ) == n;
            assert(t < j);
        }
    }

    // Cumulative distinctness of consumed disk backends.
    assert forall|t1: int, t2: int|
        0 <= t1 < t2 < j + 1 && is_disk_c((#[trigger] dv[t1]).1) && is_disk_c(
            (#[trigger] dv[t2]).1,
        ) implies disk_backend_name(dv[t1].1) != disk_backend_name(dv[t2].1) by {
        if t2 == j {
            assert(has_name(sbpre, bn));
        }
    }

    // Cumulative PCI distinctness.
    assert forall|t1: int, t2: int|
        0 <= t1 < t2 < j + 1 && (#[trigger] dv[t1]).1.spec_pci_path() is Some implies dv[t1].1.spec_pci_path()
            != (#[trigger] dv[t2]).1.spec_pci_path() by {
        if t2 == j {
            if dv[t1].1.spec_pci_path() == Some(path) {
                assert(pcipre.contains(path));
            }
        }
    }

    assert forall|k2: int| 0 <= k2 < genew.len() implies w.contains_name(
        (#[trigger] genew[k2]).0,
    ) && w.value_of(genew[k2].0) == genew[k2].1 by {
        if k2 < dl {
            assert(genew[k2] == gepre[k2]);
        } else if k2 == dl {
            assert(genew[k2] == dp[0]);
        } else if k2 == dl + 1 {
            assert(genew[k2] == dp[1]);
        } else {
            assert(genew[k2] == gepre[k2 - 2]);
        }
    }
    assert forall|k2: int| 0 <= k2 < genew.len() implies ((exists|t: int|
        0 <= t < j + 1 && (#[trigger] genew[k2]).0 == dv[t].0) || is_backend_c(
        w.value_of(genew[k2].0),
    )) by {
        if k2 < dl || k2 >= dl + 2 {
            let x: int = if k2 < dl {
                k2
            } else {
                k2 - 2
            };
            assert(genew[k2] == gepre[x]);
            if exists|t: int| 0 <= t < j && (#[trigger] gepre[x]).0 == dv[t].0 {
                let t = choose|t: int| 0 <= t < j && (#[trigger] gepre[x]).0 == dv[t].0;
                assert(0 <= t < j + 1 && genew[k2].0 == dv[t].0);
            }
        } else if k2 == dl {
            assert(genew[k2].0 == dv[j].0);
        } else {
            assert(genew[k2] == dp[1]);
            assert(is_backend_c(w.value_of(bn)));
        }
    }
    assert forall|k2: int| 0 <= k2 < genew.len() implies !has_name(
        sbnew,
        (#[trigger] genew[k2]).0,
    ) && !has_name(vb, genew[k2].0) && !has_name(db, genew[k2].0) by {
        if k2 < dl || k2 >= dl + 2 {
            let x: int = if k2 < dl {
                k2
            } else {
                k2 - 2
            };
            assert(genew[k2] == gepre[x]);
            assert(!has_name(sbpre, gepre[x].0));
        } else if k2 == dl {
            assert(genew[k2].0 == dv[j].0);
            if has_name(sbnew, dv[j].0) {
                assert(is_storage_backend_c(w.value_of(dv[j].0)));
                assert(w.value_of(dv[j].0) == dv[j].1);
            }
            if has_name(vb, dv[j].0) {
                assert(w.value_of(dv[j].0) is VionaBackend);
            }
            if has_name(db, dv[j].0) {
                assert(w.value_of(dv[j].0) is DlpiBackend);
            }
        } else {
            assert(genew[k2].0 == bn);
            assert(!has_name(sbnew, bn));
            if has_name(vb, bn) {
                assert(w.value_of(bn) is VionaBackend);
                assert(w.value_of(bn) == storage_backend_component(sbpre[k].1));
            }
            if has_name(db, bn) {
                assert(w.value_of(bn) is DlpiBackend);
                assert(w.value_of(bn) == storage_backend_component(sbpre[k].1));
            }
        }
    }
    assert forall|p: PciPath| pcinew.contains(p) implies (exists|t: int|
        0 <= t < j + 1 && (#[trigger] dv[t]).1.spec_pci_path() == Some(p)) by {
        crate::builder::lemma_push_contains(pcipre, path, p);
        if pcipre.contains(p) {
            let t = choose|t: int| 0 <= t < j && (#[trigger] dv[t]).1.spec_pci_path() == Some(p);
            assert(0 <= t < j + 1 && dv[t].1.spec_pci_path() == Some(p));
        } else {
            assert(p == path);
            assert(dv[j].1.spec_pci_path() == Some(p));
        }
    }
    assert forall|p: PciPath|
        (exists|t: int|
            0 <= t < j + 1 && (#[trigger] dv[t]).1.spec_pci_path() == Some(
                p,
            )) implies pcinew.contains(p) by {
        crate::builder::lemma_push_contains(pcipre, path, p);
        let t = choose|t: int| 0 <= t < j + 1 && (#[trigger] dv[t]).1.spec_pci_path() == Some(p);
        if t < j {
            assert(pcipre.contains(p));
        } else {
            assert(p == path);
        }
    }
    assert forall|s: SerialPortNumber| ser.contains(s) implies (exists|t: int|
        0 <= t < j + 1 && is_serial_c((#[trigger] dv[t]).1, s)) by {
        let t = choose|t: int| 0 <= t < j && is_serial_c((#[trigger] dv[t]).1, s);
        assert(0 <= t < j + 1 && is_serial_c(dv[t].1, s));
    }
    assert forall|s: SerialPortNumber|
        (exists|t: int|
            0 <= t < j + 1 && is_serial_c((#[trigger] dv[t]).1, s)) implies ser.contains(s) by {
        let t = choose|t: int| 0 <= t < j + 1 && is_serial_c((#[trigger] dv[t]).1, s);
        assert(t < j);
    }
    assert(gnew.pvpanic is Some <==> exists|t: int|
        0 <= t < j + 1 && (#[trigger] dv[t]).1 is QemuPvpanic) by {
        if gnew.pvpanic is Some {
            let t = choose|t: int| 0 <= t < j && (#[trigger] dv[t]).1 is QemuPvpanic;
            assert(0 <= t < j + 1 && dv[t].1 is QemuPvpanic);
        }
        if exists|t: int| 0 <= t < j + 1 && (#[trigger] dv[t]).1 is QemuPvpanic {
            let t = choose|t: int| 0 <= t < j + 1 && (#[trigger] dv[t]).1 is QemuPvpanic;
            assert(t < j);
        }
    }
    assert(gnew.softnpu.pci_port is Some <==> exists|t: int|
        0 <= t < j + 1 && (#[trigger] dv[t]).1 is SoftNpuPciPort) by {
        if gnew.softnpu.pci_port is Some {
            let t = choose|t: int| 0 <= t < j && (#[trigger] dv[t]).1 is SoftNpuPciPort;
            assert(0 <= t < j + 1 && dv[t].1 is SoftNpuPciPort);
        }
        if exists|t: int| 0 <= t < j + 1 && (#[trigger] dv[t]).1 is SoftNpuPciPort {
            let t = choose|t: int| 0 <= t < j + 1 && (#[trigger] dv[t]).1 is SoftNpuPciPort;
            assert(t < j);
        }
    }
    assert(gnew.softnpu.p9_device is Some <==> exists|t: int|
        0 <= t < j + 1 && (#[trigger] dv[t]).1 is SoftNpuP9) by {
        if gnew.softnpu.p9_device is Some {
            let t = choose|t: int| 0 <= t < j && (#[trigger] dv[t]).1 is SoftNpuP9;
            assert(0 <= t < j + 1 && dv[t].1 is SoftNpuP9);
        }
        if exists|t: int| 0 <= t < j + 1 && (#[trigger] dv[t]).1 is SoftNpuP9 {
            let t = choose|t: int| 0 <= t < j + 1 && (#[trigger] dv[t]).1 is SoftNpuP9;
            assert(t < j);
        }
    }
    assert(gnew.softnpu.p9fs is Some <==> exists|t: int|
        0 <= t < j + 1 && (#[trigger] dv[t]).1 is P9fs) by {
        if gnew.softnpu.p9fs is Some {
            let t = choose|t: int| 0 <= t < j && (#[trigger] dv[t]).1 is P9fs;
            assert(0 <= t < j + 1 && dv[t].1 is P9fs);
        }
        if exists|t: int| 0 <= t < j + 1 && (#[trigger] dv[t]).1 is P9fs {
            let t = choose|t: int| 0 <= t < j + 1 && (#[trigger] dv[t]).1 is P9fs;
            assert(t < j);
        }
    }
}

/// Folding one NIC into the grouped spec preserves the resolution-pass
/// invariant.
#[verifier::rlimit(100)]
#[verifier::spinoff_prover]
pub(crate) proof fn lemma_nic_arm(
    w0: InstanceSpecV0,
    en: bool,
    dv: Seq<(Seq<char>, ComponentV0)>,
    j: int,
    sb: Seq<(Seq<char>, StorageBackend)>,
    vbpre: Seq<(Seq<char>, VirtioNetworkBackend)>,
    vbnew: Seq<(Seq<char>, VirtioNetworkBackend)>,
    k: int,
    db: Seq<(Seq<char>, DlpiNetworkBackend)>,
    gpre: Spec,
    gnew: Spec,
    path: PciPath,
    pcipre: Seq<PciPath>,
    pcinew: Seq<PciPath>,
    ser: Seq<SerialPortNumber>,
    b0: int,
    nd: (String, Nic),
)
    requires
        resolve_inv(w0, en, dv, j, sb, vbpre, db, gpre, pcipre, ser, b0),
        0 <= j < dv.len(),
        dv[j].1 is VirtioNic,
        0 <= k < vbpre.len(),
        vbpre[k].0 == nic_backend_name(dv[j].1),
        vbnew == vbpre.remove(k),
        dv[j].1.spec_pci_path() == Some(path),
        !pcipre.contains(path),
        pcinew == pcipre.push(path),
        nd.0@ == dv[j].0,
        ComponentV0::VirtioNic(nd.1.device_spec) == dv[j].1,
        nd.1.backend_spec == vbpre[k].1,
        nd.1.device_spec.backend_name@ == nic_backend_name(dv[j].1),
        gnew.nics@ == gpre.nics@.push(nd),
        gnew.disks == gpre.disks,
        gnew.serial == gpre.serial,
        gnew.pci_pci_bridges == gpre.pci_pci_bridges,
        gnew.pvpanic == gpre.pvpanic,
        gnew.softnpu == gpre.softnpu,
        gnew.board == gpre.board,
    ensures
        resolve_inv(w0, en, dv, j + 1, sb, vbnew, db, gnew, pcinew, ser, b0),
{
    reveal(resolve_inv);
    let w = w0.components;
    let gepre = gpre.wire_entries();
    let genew = gnew.wire_entries();
    let a = entries_of(gpre.disks@, disk_pair_fn()) + entries_of(gpre.nics@, nic_pair_fn());
    let dl = a.len() as int;
    let dp = nic_pair(nd);
    let bn = vbpre[k].0;

    lemma_entries_of_take_step(gnew.nics@, nic_pair_fn(), gnew.nics@.len() as int - 1);
    assert(gnew.nics@.take(gnew.nics@.len() as int - 1) =~= gpre.nics@);
    assert(gnew.nics@.take(gnew.nics@.len() as int) =~= gnew.nics@);
    assert(entries_of(gnew.nics@, nic_pair_fn()) == entries_of(gpre.nics@, nic_pair_fn()) + dp);
    let tail = entries_of(gpre.serial@, serial_pair_fn()) + entries_of(
        gpre.pci_pci_bridges@,
        bridge_pair_fn(),
    ) + pvpanic_entries(gpre.pvpanic) + gpre.softnpu.wire_entries();
    assert(gepre =~= a + tail);
    assert(genew =~= (a + dp) + tail);
    assert(forall|x: int| 0 <= x < dl ==> genew[x] == gepre[x]);
    assert(genew[dl] == dp[0]);
    assert(genew[dl + 1] == dp[1]);
    assert(forall|x: int| dl <= x < gepre.len() ==> genew[x + 2] == gepre[x]);
    assert(genew.len() == gepre.len() + 2);
    assert(dp[0] == (dv[j].0, dv[j].1));
    assert(dp[1] == (bn, ComponentV0::VionaBackend(vbpre[k].1)));

    lemma_remove_has_name(vbpre, k);
    crate::builder::lemma_push_contains(pcipre, path, path);

    assert(has_name(vbpre, bn)) by {
        assert(vbpre[k].0 == bn);
    }
    assert forall|y: int| 0 <= y < gepre.len() implies (#[trigger] gepre[y]).0 != dv[j].0
        && gepre[y].0 != bn by {
        if gepre[y].0 == dv[j].0 {
            assert(w.value_of(gepre[y].0) == gepre[y].1);
            if exists|t: int| 0 <= t < j && (#[trigger] gepre[y]).0 == dv[t].0 {
                let t = choose|t: int| 0 <= t < j && (#[trigger] gepre[y]).0 == dv[t].0;
                assert(dv[t].0 != dv[j].0);
            } else {
                assert(is_backend_c(w.value_of(gepre[y].0)));
                assert(w.value_of(dv[j].0) == dv[j].1);
            }
        }
        if gepre[y].0 == bn {
            assert(!has_name(vbpre, gepre[y].0));
        }
    }
    assert(dv[j].0 != bn) by {
        assert(w.value_of(bn) == ComponentV0::VionaBackend(vbpre[k].1));
        assert(w.value_of(dv[j].0) == dv[j].1);
    }

    assert forall|x: int, y: int| 0 <= x < y < genew.len() implies genew[x].0 != genew[y].0 by {
        if y < dl {
        } else if x < dl && y == dl {
            assert(genew[x] == gepre[x]);
        } else if x < dl && y == dl + 1 {
            assert(genew[x] == gepre[x]);
        } else if x < dl && y > dl + 1 {
            assert(genew[x] == gepre[x] && genew[y] == gepre[y - 2]);
        } else if x == dl && y == dl + 1 {
        } else if x == dl || x == dl + 1 {
            assert(genew[y] == gepre[y - 2]);
        } else {
            assert(genew[x] == gepre[x - 2] && genew[y] == gepre[y - 2]);
        }
    }

    assert forall|n: Seq<char>| #[trigger] has_name(vbnew, n) implies (w.contains_name(n)
        && w.value_of(n) is VionaBackend && !(exists|t: int|
        0 <= t < j + 1 && (#[trigger] dv[t]).1 is VirtioNic && nic_backend_name(dv[t].1)
            == n)) by {
        assert(has_name(vbpre, n) && n != bn);
        if exists|t: int|
            0 <= t < j + 1 && (#[trigger] dv[t]).1 is VirtioNic && nic_backend_name(dv[t].1)
                == n {
            let t = choose|t: int|
                0 <= t < j + 1 && (#[trigger] dv[t]).1 is VirtioNic && nic_backend_name(dv[t].1)
                    == n;
            assert(t < j || t == j);
        }
    }
    assert forall|n: Seq<char>|
        (w.contains_name(n) && w.value_of(n) is VionaBackend && !(exists|t: int|
            0 <= t < j + 1 && (#[trigger] dv[t]).1 is VirtioNic && nic_backend_name(dv[t].1)
                == n)) implies #[trigger] has_name(vbnew, n) by {
        assert(!(dv[j].1 is VirtioNic && nic_backend_name(dv[j].1) == n) ==> n != bn);
        assert(has_name(vbpre, n));
    }
    assert forall|n: Seq<char>| #[trigger] has_name(sb, n) implies (w.contains_name(n)
        && is_storage_backend_c(w.value_of(n)) && !(exists|t: int|
        0 <= t < j + 1 && is_disk_c((#[trigger] dv[t]).1) && disk_backend_name(dv[t].1)
            == n)) by {
        if exists|t: int|
            0 <= t < j + 1 && is_disk_c((#[trigger] dv[t]).1) && disk_backend_name(dv[t].1) == n {
            let t = choose|t: int|
                0 <= t < j + 1 && is_disk_c((#[trigger] dv[t]).1) && disk_backend_name(dv[t].1)
                    == n;
            assert(t < j);
        }
    }
    assert forall|n: Seq<char>| #[trigger] has_name(db, n) implies (w.contains_name(n)
        && w.value_of(n) is DlpiBackend && !(exists|t: int|
        0 <= t < j + 1 && (#[trigger] dv[t]).1 is SoftNpuPort && port_backend_name(dv[t].1)
            == n)) by {
        if exists|t: int|
            0 <= t < j + 1 && (#[trigger] dv[t]).1 is SoftNpuPort && port_backend_name(dv[t].1)
                == n {
            let t = choose|t: int|
                0 <= t < j + 1 && (#[trigger] dv[t]).1 is SoftNpuPort && port_backend_name(
                    dv[t].1,
                ) == n;
            assert(t < j);
        }
    }

    assert forall|t1: int, t2: int|
        0 <= t1 < t2 < j + 1 && (#[trigger] dv[t1]).1 is VirtioNic && (#[trigger] dv[t2]).1 is
            VirtioNic implies nic_backend_name(dv[t1].1) != nic_backend_name(dv[t2].1) by {
        if t2 == j {
            assert(has_name(vbpre, bn));
        }
    }

    assert forall|t1: int, t2: int|
        0 <= t1 < t2 < j + 1 && (#[trigger] dv[t1]).1.spec_pci_path() is Some implies dv[t1].1.spec_pci_path()
            != (#[trigger] dv[t2]).1.spec_pci_path() by {
        if t2 == j {
            if dv[t1].1.spec_pci_path() == Some(path) {
                assert(pcipre.contains(path));
            }
        }
    }

    assert forall|k2: int| 0 <= k2 < genew.len() implies w.contains_name(
        (#[trigger] genew[k2]).0,
    ) && w.value_of(genew[k2].0) == genew[k2].1 by {
        if k2 < dl {
            assert(genew[k2] == gepre[k2]);
        } else if k2 == dl {
            assert(genew[k2] == dp[0]);
        } else if k2 == dl + 1 {
            assert(genew[k2] == dp[1]);
        } else {
            assert(genew[k2] == gepre[k2 - 2]);
        }
    }
    assert forall|k2: int| 0 <= k2 < genew.len() implies ((exists|t: int|
        0 <= t < j + 1 && (#[trigger] genew[k2]).0 == dv[t].0) || is_backend_c(
        w.value_of(genew[k2].0),
    )) by {
        if k2 < dl || k2 >= dl + 2 {
            let x: int = if k2 < dl {
                k2
            } else {
                k2 - 2
            };
            assert(genew[k2] == gepre[x]);
            if exists|t: int| 0 <= t < j && (#[trigger] gepre[x]).0 == dv[t].0 {
                let t = choose|t: int| 0 <= t < j && (#[trigger] gepre[x]).0 == dv[t].0;
                assert(0 <= t < j + 1 && genew[k2].0 == dv[t].0);
            }
        } else if k2 == dl {
            assert(genew[k2].0 == dv[j].0);
        } else {
            assert(genew[k2] == dp[1]);
            assert(is_backend_c(w.value_of(bn)));
        }
    }
    assert forall|k2: int| 0 <= k2 < genew.len() implies !has_name(
        sb,
        (#[trigger] genew[k2]).0,
    ) && !has_name(vbnew, genew[k2].0) && !has_name(db, genew[k2].0) by {
        if k2 < dl || k2 >= dl + 2 {
            let x: int = if k2 < dl {
                k2
            } else {
                k2 - 2
            };
            assert(genew[k2] == gepre[x]);
            assert(!has_name(vbpre, gepre[x].0));
        } else if k2 == dl {
            assert(genew[k2].0 == dv[j].0);
            if has_name(sb, dv[j].0) {
                assert(is_storage_backend_c(w.value_of(dv[j].0)));
                assert(w.value_of(dv[j].0) == dv[j].1);
            }
            if has_name(vbnew, dv[j].0) {
                assert(w.value_of(dv[j].0) is VionaBackend);
            }
            if has_name(db, dv[j].0) {
                assert(w.value_of(dv[j].0) is DlpiBackend);
            }
        } else {
            assert(genew[k2].0 == bn);
            assert(!has_name(vbnew, bn));
            if has_name(sb, bn) {
                assert(is_storage_backend_c(w.value_of(bn)));
                assert(w.value_of(bn) == ComponentV0::VionaBackend(vbpre[k].1));
            }
            if has_name(db, bn) {
                assert(w.value_of(bn) is DlpiBackend);
                assert(w.value_of(bn) == ComponentV0::VionaBackend(vbpre[k].1));
            }
        }
    }
    assert forall|p: PciPath| pcinew.contains(p) implies (exists|t: int|
        0 <= t < j + 1 && (#[trigger] dv[t]).1.spec_pci_path() == Some(p)) by {
        crate::builder::lemma_push_contains(pcipre, path, p);
        if pcipre.contains(p) {
            let t = choose|t: int| 0 <= t < j && (#[trigger] dv[t]).1.spec_pci_path() == Some(p);
            assert(0 <= t < j + 1 && dv[t].1.spec_pci_path() == Some(p));
        } else {
            assert(p == path);
            assert(dv[j].1.spec_pci_path() == Some(p));
        }
    }
    assert forall|p: PciPath|
        (exists|t: int|
            0 <= t < j + 1 && (#[trigger] dv[t]).1.spec_pci_path() == Some(
                p,
            )) implies pcinew.contains(p) by {
        crate::builder::lemma_push_contains(pcipre, path, p);
        let t = choose|t: int| 0 <= t < j + 1 && (#[trigger] dv[t]).1.spec_pci_path() == Some(p);
        if t < j {
            assert(pcipre.contains(p));
        } else {
            assert(p == path);
        }
    }
    assert forall|s: SerialPortNumber| ser.contains(s) implies (exists|t: int|
        0 <= t < j + 1 && is_serial_c((#[trigger] dv[t]).1, s)) by {
        let t = choose|t: int| 0 <= t < j && is_serial_c((#[trigger] dv[t]).1, s);
        assert(0 <= t < j + 1 && is_serial_c(dv[t].1, s));
    }
    assert forall|s: SerialPortNumber|
        (exists|t: int|
            0 <= t < j + 1 && is_serial_c((#[trigger] dv[t]).1, s)) implies ser.contains(s) by {
        let t = choose|t: int| 0 <= t < j + 1 && is_serial_c((#[trigger] dv[t]).1, s);
        assert(t < j);
    }
    assert(gnew.pvpanic is Some <==> exists|t: int|
        0 <= t < j + 1 && (#[trigger] dv[t]).1 is QemuPvpanic) by {
        if gnew.pvpanic is Some {
            let t = choose|t: int| 0 <= t < j && (#[trigger] dv[t]).1 is QemuPvpanic;
            assert(0 <= t < j + 1 && dv[t].1 is QemuPvpanic);
        }
        if exists|t: int| 0 <= t < j + 1 && (#[trigger] dv[t]).1 is QemuPvpanic {
            let t = choose|t: int| 0 <= t < j + 1 && (#[trigger] dv[t]).1 is QemuPvpanic;
            assert(t < j);
        }
    }
    assert(gnew.softnpu.pci_port is Some <==> exists|t: int|
        0 <= t < j + 1 && (#[trigger] dv[t]).1 is SoftNpuPciPort) by {
        if gnew.softnpu.pci_port is Some {
            let t = choose|t: int| 0 <= t < j && (#[trigger] dv[t]).1 is SoftNpuPciPort;
            assert(0 <= t < j + 1 && dv[t].1 is SoftNpuPciPort);
        }
        if exists|t: int| 0 <= t < j + 1 && (#[trigger] dv[t]).1 is SoftNpuPciPort {
            let t = choose|t: int| 0 <= t < j + 1 && (#[trigger] dv[t]).1 is SoftNpuPciPort;
            assert(t < j);
        }
    }
    assert(gnew.softnpu.p9_device is Some <==> exists|t: int|
        0 <= t < j + 1 && (#[trigger] dv[t]).1 is SoftNpuP9) by {
        if gnew.softnpu.p9_device is Some {
            let t = choose|t: int| 0 <= t < j && (#[trigger] dv[t]).1 is SoftNpuP9;
            assert(0 <= t < j + 1 && dv[t].1 is SoftNpuP9);
        }
        if exists|t: int| 0 <= t < j + 1 && (#[trigger] dv[t]).1 is SoftNpuP9 {
            let t = choose|t: int| 0 <= t < j + 1 && (#[trigger] dv[t]).1 is SoftNpuP9;
            assert(t < j);
        }
    }
    assert(gnew.softnpu.p9fs is Some <==> exists|t: int|
        0 <= t < j + 1 && (#[trigger] dv[t]).1 is P9fs) by {
        if gnew.softnpu.p9fs is Some {
            let t = choose|t: int| 0 <= t < j && (#[trigger] dv[t]).1 is P9fs;
            assert(0 <= t < j + 1 && dv[t].1 is P9fs);
        }
        if exists|t: int| 0 <= t < j + 1 && (#[trigger] dv[t]).1 is P9fs {
            let t = choose|t: int| 0 <= t < j + 1 && (#[trigger] dv[t]).1 is P9fs;
            assert(t < j);
        }
    }
}

/// Folding one extension port into the grouped spec preserves the
/// resolution-pass invariant. Port entries flatten at the very end of the
/// wire entries, so this extension is a plain append.
#[verifier::rlimit(100)]
#[verifier::spinoff_prover]
pub(crate) proof fn lemma_port_arm(
    w0: InstanceSpecV0,
    en: bool,
    dv: Seq<(Seq<char>, ComponentV0)>,
    j: int,
    sb: Seq<(Seq<char>, StorageBackend)>,
    vb: Seq<(Seq<char>, VirtioNetworkBackend)>,
    dbpre: Seq<(Seq<char>, DlpiNetworkBackend)>,
    dbnew: Seq<(Seq<char>, DlpiNetworkBackend)>,
    k: int,
    gpre: Spec,
    gnew: Spec,
    pcipre: Seq<PciPath>,
    ser: Seq<SerialPortNumber>,
    b0: int,
    nd: (String, SoftNpuPort),
)
    requires
        resolve_inv(w0, en, dv, j, sb, vb, dbpre, gpre, pcipre, ser, b0),
        0 <= j < dv.len(),
        en,
        dv[j].1 is SoftNpuPort,
        dv[j].1.spec_pci_path() is None,
        0 <= k < dbpre.len(),
        dbpre[k].0 == port_backend_name(dv[j].1),
        dbnew == dbpre.remove(k),
        nd.0@ == dv[j].0,
        ComponentV0::SoftNpuPort(nd.1.port_spec) == dv[j].1,
        nd.1.backend_spec == dbpre[k].1,
        nd.1.port_spec.backend_name@ == port_backend_name(dv[j].1),
        gnew.softnpu.ports@ == gpre.softnpu.ports@.push(nd),
        gnew.softnpu.pci_port == gpre.softnpu.pci_port,
        gnew.softnpu.p9_device == gpre.softnpu.p9_device,
        gnew.softnpu.p9fs == gpre.softnpu.p9fs,
        gnew.disks == gpre.disks,
        gnew.nics == gpre.nics,
        gnew.serial == gpre.serial,
        gnew.pci_pci_bridges == gpre.pci_pci_bridges,
        gnew.pvpanic == gpre.pvpanic,
        gnew.board == gpre.board,
    ensures
        resolve_inv(w0, en, dv, j + 1, sb, vb, dbnew, gnew, pcipre, ser, b0),
{
    reveal(resolve_inv);
    let w = w0.components;
    let gepre = gpre.wire_entries();
    let genew = gnew.wire_entries();
    let dl = gepre.len() as int;
    let dp = softnpu_port_pair(nd);
    let bn = dbpre[k].0;

    lemma_entries_of_take_step(
        gnew.softnpu.ports@,
        softnpu_port_pair_fn(),
        gnew.softnpu.ports@.len() as int - 1,
    );
    assert(gnew.softnpu.ports@.take(gnew.softnpu.ports@.len() as int - 1) =~= gpre.softnpu.ports@);
    assert(gnew.softnpu.ports@.take(gnew.softnpu.ports@.len() as int) =~= gnew.softnpu.ports@);
    assert(entries_of(gnew.softnpu.ports@, softnpu_port_pair_fn()) == entries_of(
        gpre.softnpu.ports@,
        softnpu_port_pair_fn(),
    ) + dp);
    assert(genew =~= gepre + dp);
    assert(forall|x: int| 0 <= x < dl ==> genew[x] == gepre[x]);
    assert(genew[dl] == dp[0]);
    assert(genew[dl + 1] == dp[1]);
    assert(genew.len() == gepre.len() + 2);
    assert(dp[0] == (dv[j].0, dv[j].1));
    assert(dp[1] == (bn, ComponentV0::DlpiBackend(dbpre[k].1)));

    lemma_remove_has_name(dbpre, k);

    assert(has_name(dbpre, bn)) by {
        assert(dbpre[k].0 == bn);
    }
    assert forall|y: int| 0 <= y < gepre.len() implies (#[trigger] gepre[y]).0 != dv[j].0
        && gepre[y].0 != bn by {
        if gepre[y].0 == dv[j].0 {
            assert(w.value_of(gepre[y].0) == gepre[y].1);
            if exists|t: int| 0 <= t < j && (#[trigger] gepre[y]).0 == dv[t].0 {
                let t = choose|t: int| 0 <= t < j && (#[trigger] gepre[y]).0 == dv[t].0;
                assert(dv[t].0 != dv[j].0);
            } else {
                assert(is_backend_c(w.value_of(gepre[y].0)));
                assert(w.value_of(dv[j].0) == dv[j].1);
            }
        }
        if gepre[y].0 == bn {
            assert(!has_name(dbpre, gepre[y].0));
        }
    }
    assert(dv[j].0 != bn) by {
        assert(w.value_of(bn) == ComponentV0::DlpiBackend(dbpre[k].1));
        assert(w.value_of(dv[j].0) == dv[j].1);
    }

    assert forall|x: int, y: int| 0 <= x < y < genew.len() implies genew[x].0 != genew[y].0 by {
        if y < dl {
        } else if x < dl {
            assert(genew[x] == gepre[x]);
        } else {
        }
    }

    assert forall|n: Seq<char>| #[trigger] has_name(dbnew, n) implies (w.contains_name(n)
        && w.value_of(n) is DlpiBackend && !(exists|t: int|
        0 <= t < j + 1 && (#[trigger] dv[t]).1 is SoftNpuPort && port_backend_name(dv[t].1)
            == n)) by {
        assert(has_name(dbpre, n) && n != bn);
        if exists|t: int|
            0 <= t < j + 1 && (#[trigger] dv[t]).1 is SoftNpuPort && port_backend_name(dv[t].1)
                == n {
            let t = choose|t: int|
                0 <= t < j + 1 && (#[trigger] dv[t]).1 is SoftNpuPort && port_backend_name(
                    dv[t].1,
                ) == n;
            assert(t < j || t == j);
        }
    }
    assert forall|n: Seq<char>|
        (w.contains_name(n) && w.value_of(n) is DlpiBackend && !(exists|t: int|
            0 <= t < j + 1 && (#[trigger] dv[t]).1 is SoftNpuPort && port_backend_name(dv[t].1)
                == n)) implies #[trigger] has_name(dbnew, n) by {
        assert(!(dv[j].1 is SoftNpuPort && port_backend_name(dv[j].1) == n) ==> n != bn);
        assert(has_name(dbpre, n));
    }
    assert forall|n: Seq<char>| #[trigger] has_name(sb, n) implies (w.contains_name(n)
        && is_storage_backend_c(w.value_of(n)) && !(exists|t: int|
        0 <= t < j + 1 && is_disk_c((#[trigger] dv[t]).1) && disk_backend_name(dv[t].1)
            == n)) by {
        if exists|t: int|
            0 <= t < j + 1 && is_disk_c((#[trigger] dv[t]).1) && disk_backend_name(dv[t].1) == n {
            let t = choose|t: int|
                0 <= t < j + 1 && is_disk_c((#[trigger] dv[t]).1) && disk_backend_name(dv[t].1)
                    == n;
            assert(t < j);
        }
    }
    assert forall|n: Seq<char>| #[trigger] has_name(vb, n) implies (w.contains_name(n)
        && w.value_of(n) is VionaBackend && !(exists|t: int|
        0 <= t < j + 1 && (#[trigger] dv[t]).1 is VirtioNic && nic_backend_name(dv[t].1)
            == n)) by {
        if exists|t: int|
            0 <= t < j + 1 && (#[trigger] dv[t]).1 is VirtioNic && nic_backend_name(dv[t].1)
                == n {
            let t = choose|t: int|
                0 <= t < j + 1 && (#[trigger] dv[t]).1 is VirtioNic && nic_backend_name(dv[t].1)
                    == n;
            assert(t < j);
        }
    }

    assert forall|t1: int, t2: int|
        0 <= t1 < t2 < j + 1 && (#[trigger] dv[t1]).1 is SoftNpuPort && (#[trigger] dv[t2]).1 is
            SoftNpuPort implies port_backend_name(dv[t1].1) != port_backend_name(dv[t2].1) by {
        if t2 == j {
            assert(has_name(dbpre, bn));
        }
    }

    assert forall|k2: int| 0 <= k2 < genew.len() implies w.contains_name(
        (#[trigger] genew[k2]).0,
    ) && w.value_of(genew[k2].0) == genew[k2].1 by {
        if k2 < dl {
            assert(genew[k2] == gepre[k2]);
        } else if k2 == dl {
            assert(genew[k2] == dp[0]);
        } else {
            assert(genew[k2] == dp[1]);
        }
    }
    assert forall|k2: int| 0 <= k2 < genew.len() implies ((exists|t: int|
        0 <= t < j + 1 && (#[trigger] genew[k2]).0 == dv[t].0) || is_backend_c(
        w.value_of(genew[k2].0),
    )) by {
        if k2 < dl {
            assert(genew[k2] == gepre[k2]);
            if exists|t: int| 0 <= t < j && (#[trigger] gepre[k2]).0 == dv[t].0 {
                let t = choose|t: int| 0 <= t < j && (#[trigger] gepre[k2]).0 == dv[t].0;
                assert(0 <= t < j + 1 && genew[k2].0 == dv[t].0);
            }
        } else if k2 == dl {
            assert(genew[k2].0 == dv[j].0);
        } else {
            assert(is_backend_c(w.value_of(bn)));
        }
    }
    assert forall|k2: int| 0 <= k2 < genew.len() implies !has_name(
        sb,
        (#[trigger] genew[k2]).0,
    ) && !has_name(vb, genew[k2].0) && !has_name(dbnew, genew[k2].0) by {
        if k2 < dl {
            assert(genew[k2] == gepre[k2]);
            assert(!has_name(dbpre, gepre[k2].0));
        } else if k2 == dl {
            assert(genew[k2].0 == dv[j].0);
            if has_name(sb, dv[j].0) {
                assert(is_storage_backend_c(w.value_of(dv[j].0)));
                assert(w.value_of(dv[j].0) == dv[j].1);
            }
            if has_name(vb, dv[j].0) {
                assert(w.value_of(dv[j].0) is VionaBackend);
            }
            if has_name(dbnew, dv[j].0) {
                assert(w.value_of(dv[j].0) is DlpiBackend);
            }
        } else {
            assert(genew[k2].0 == bn);
            assert(!has_name(dbnew, bn));
            if has_name(sb, bn) {
                assert(is_storage_backend_c(w.value_of(bn)));
                assert(w.value_of(bn) == ComponentV0::DlpiBackend(dbpre[k].1));
            }
            if has_name(vb, bn) {
                assert(w.value_of(bn) is VionaBackend);
                assert(w.value_of(bn) == ComponentV0::DlpiBackend(dbpre[k].1));
            }
        }
    }
    assert forall|s: SerialPortNumber|
        (exists|t: int|
            0 <= t < j + 1 && is_serial_c((#[trigger] dv[t]).1, s)) implies ser.contains(s) by {
        let t = choose|t: int| 0 <= t < j + 1 && is_serial_c((#[trigger] dv[t]).1, s);
        assert(t < j);
    }
    assert forall|s: SerialPortNumber| ser.contains(s) implies (exists|t: int|
        0 <= t < j + 1 && is_serial_c((#[trigger] dv[t]).1, s)) by {
        let t = choose|t: int| 0 <= t < j && is_serial_c((#[trigger] dv[t]).1, s);
        assert(0 <= t < j + 1 && is_serial_c(dv[t].1, s));
    }
    assert forall|p: PciPath| pcipre.contains(p) implies (exists|t: int|
        0 <= t < j + 1 && (#[trigger] dv[t]).1.spec_pci_path() == Some(p)) by {
        let t = choose|t: int| 0 <= t < j && (#[trigger] dv[t]).1.spec_pci_path() == Some(p);
        assert(0 <= t < j + 1 && dv[t].1.spec_pci_path() == Some(p));
    }
    assert forall|p: PciPath|
        (exists|t: int|
            0 <= t < j + 1 && (#[trigger] dv[t]).1.spec_pci_path() == Some(
                p,
            )) implies pcipre.contains(p) by {
        let t = choose|t: int| 0 <= t < j + 1 && (#[trigger] dv[t]).1.spec_pci_path() == Some(p);
        assert(t < j);
    }
    assert forall|t1: int, t2: int|
        0 <= t1 < t2 < j + 1 && (#[trigger] dv[t1]).1.spec_pci_path() is Some implies dv[t1].1.spec_pci_path()
            != (#[trigger] dv[t2]).1.spec_pci_path() by {
        if t2 == j {
            assert(dv[j].1.spec_pci_path() is None);
        }
    }
    assert(gnew.pvpanic is Some <==> exists|t: int|
        0 <= t < j + 1 && (#[trigger] dv[t]).1 is QemuPvpanic) by {
        if gnew.pvpanic is Some {
            let t = choose|t: int| 0 <= t < j && (#[trigger] dv[t]).1 is QemuPvpanic;
            assert(0 <= t < j + 1 && dv[t].1 is QemuPvpanic);
        }
        if exists|t: int| 0 <= t < j + 1 && (#[trigger] dv[t]).1 is QemuPvpanic {
            let t = choose|t: int| 0 <= t < j + 1 && (#[trigger] dv[t]).1 is QemuPvpanic;
            assert(t < j);
        }
    }
    assert(gnew.softnpu.pci_port is Some <==> exists|t: int|
        0 <= t < j + 1 && (#[trigger] dv[t]).1 is SoftNpuPciPort) by {
        if gnew.softnpu.pci_port is Some {
            let t = choose|t: int| 0 <= t < j && (#[trigger] dv[t]).1 is SoftNpuPciPort;
            assert(0 <= t < j + 1 && dv[t].1 is SoftNpuPciPort);
        }
        if exists|t: int| 0 <= t < j + 1 && (#[trigger] dv[t]).1 is SoftNpuPciPort {
            let t = choose|t: int| 0 <= t < j + 1 && (#[trigger] dv[t]).1 is SoftNpuPciPort;
            assert(t < j);
        }
    }
    assert(gnew.softnpu.p9_device is Some <==> exists|t: int|
        0 <= t < j + 1 && (#[trigger] dv[t]).1 is SoftNpuP9) by {
        if gnew.softnpu.p9_device is Some {
            let t = choose|t: int| 0 <= t < j && (#[trigger] dv[t]).1 is SoftNpuP9;
            assert(0 <= t < j + 1 && dv[t].1 is SoftNpuP9);
        }
        if exists|t: int| 0 <= t < j + 1 && (#[trigger] dv[t]).1 is SoftNpuP9 {
            let t = choose|t: int| 0 <= t < j + 1 && (#[trigger] dv[t]).1 is SoftNpuP9;
            assert(t < j);
        }
    }
    assert(gnew.softnpu.p9fs is Some <==> exists|t: int|
        0 <= t < j + 1 && (#[trigger] dv[t]).1 is P9fs) by {
        if gnew.softnpu.p9fs is Some {
            let t = choose|t: int| 0 <= t < j && (#[trigger] dv[t]).1 is P9fs;
            assert(0 <= t < j + 1 && dv[t].1 is P9fs);
        }
        if exists|t: int| 0 <= t < j + 1 && (#[trigger] dv[t]).1 is P9fs {
            let t = choose|t: int| 0 <= t < j + 1 && (#[trigger] dv[t]).1 is P9fs;
            assert(t < j);
        }
    }
}

/// Folding one unbacked device — a serial port, bridge, panic device, or
/// platform-extension singleton — into the grouped spec preserves the
/// resolution-pass invariant. The buckets do not change; the device
/// contributes the single wire entry `(dv[j].0, dv[j].1)`, spliced between
/// `a` and `tail`.
#[verifier::rlimit(100)]
#[verifier::spinoff_prover]
pub(crate) proof fn lemma_simple_arm(
    w0: InstanceSpecV0,
    en: bool,
    dv: Seq<(Seq<char>, ComponentV0)>,
    j: int,
    sb: Seq<(Seq<char>, StorageBackend)>,
    vb: Seq<(Seq<char>, VirtioNetworkBackend)>,
    db: Seq<(Seq<char>, DlpiNetworkBackend)>,
    gpre: Spec,
    gnew: Spec,
    a: Seq<(Seq<char>, ComponentV0)>,
    tail: Seq<(Seq<char>, ComponentV0)>,
    pch: Option<PciPath>,
    pcipre: Seq<PciPath>,
    pcinew: Seq<PciPath>,
    snum: Option<SerialPortNumber>,
    serpre: Seq<SerialPortNumber>,
    sernew: Seq<SerialPortNumber>,
    b0: int,
)
    requires
        resolve_inv(w0, en, dv, j, sb, vb, db, gpre, pcipre, serpre, b0),
        0 <= j < dv.len(),
        !is_disk_c(dv[j].1),
        !(dv[j].1 is VirtioNic),
        !(dv[j].1 is SoftNpuPort),
        gpre.wire_entries() == a + tail,
        gnew.wire_entries() == a + seq![(dv[j].0, dv[j].1)] + tail,
        match pch {
            Some(p) => dv[j].1.spec_pci_path() == Some(p) && !pcipre.contains(p) && pcinew
                == pcipre.push(p),
            None => dv[j].1.spec_pci_path() is None && pcinew == pcipre,
        },
        match snum {
            Some(s) => is_serial_c(dv[j].1, s) && !serpre.contains(s) && sernew == serpre.push(s),
            None => !(dv[j].1 is SerialPort) && sernew == serpre,
        },
        gnew.pvpanic is Some <==> (gpre.pvpanic is Some || dv[j].1 is QemuPvpanic),
        dv[j].1 is QemuPvpanic ==> gpre.pvpanic is None,
        gnew.softnpu.pci_port is Some <==> (gpre.softnpu.pci_port is Some || dv[j].1 is
        SoftNpuPciPort),
        dv[j].1 is SoftNpuPciPort ==> gpre.softnpu.pci_port is None,
        gnew.softnpu.p9_device is Some <==> (gpre.softnpu.p9_device is Some || dv[j].1 is
        SoftNpuP9),
        dv[j].1 is SoftNpuP9 ==> gpre.softnpu.p9_device is None,
        gnew.softnpu.p9fs is Some <==> (gpre.softnpu.p9fs is Some || dv[j].1 is P9fs),
        dv[j].1 is P9fs ==> gpre.softnpu.p9fs is None,
        !en ==> !is_softnpu_c(dv[j].1),
        forall|k2: int|
            0 <= k2 < gnew.serial@.len() ==> (#[trigger] gnew.serial@[k2]).1.user is Standard,
        gnew.board == gpre.board,
    ensures
        resolve_inv(w0, en, dv, j + 1, sb, vb, db, gnew, pcinew, sernew, b0),
{
    reveal(resolve_inv);
    let w = w0.components;
    let gepre = gpre.wire_entries();
    let genew = gnew.wire_entries();
    let dl = a.len() as int;
    let np = (dv[j].0, dv[j].1);

    assert(forall|x: int| 0 <= x < dl ==> genew[x] == gepre[x]);
    assert(genew[dl] == np);
    assert(forall|x: int| dl <= x < gepre.len() ==> genew[x + 1] == gepre[x]);
    assert(genew.len() == gepre.len() + 1);

    assert forall|y: int| 0 <= y < gepre.len() implies (#[trigger] gepre[y]).0 != dv[j].0 by {
        if gepre[y].0 == dv[j].0 {
            assert(w.value_of(gepre[y].0) == gepre[y].1);
            if exists|t: int| 0 <= t < j && (#[trigger] gepre[y]).0 == dv[t].0 {
                let t = choose|t: int| 0 <= t < j && (#[trigger] gepre[y]).0 == dv[t].0;
                assert(dv[t].0 != dv[j].0);
            } else {
                assert(is_backend_c(w.value_of(gepre[y].0)));
                assert(w.value_of(dv[j].0) == dv[j].1);
            }
        }
    }

    assert forall|x: int, y: int| 0 <= x < y < genew.len() implies genew[x].0 != genew[y].0 by {
        if y < dl {
        } else if x < dl && y == dl {
            assert(genew[x] == gepre[x]);
        } else if x < dl && y > dl {
            assert(genew[x] == gepre[x] && genew[y] == gepre[y - 1]);
        } else if x == dl {
            assert(genew[y] == gepre[y - 1]);
        } else {
            assert(genew[x] == gepre[x - 1] && genew[y] == gepre[y - 1]);
        }
    }

    assert forall|n: Seq<char>| #[trigger] has_name(sb, n) implies (w.contains_name(n)
        && is_storage_backend_c(w.value_of(n)) && !(exists|t: int|
        0 <= t < j + 1 && is_disk_c((#[trigger] dv[t]).1) && disk_backend_name(dv[t].1)
            == n)) by {
        if exists|t: int|
            0 <= t < j + 1 && is_disk_c((#[trigger] dv[t]).1) && disk_backend_name(dv[t].1) == n {
            let t = choose|t: int|
                0 <= t < j + 1 && is_disk_c((#[trigger] dv[t]).1) && disk_backend_name(dv[t].1)
                    == n;
            assert(t < j);
        }
    }
    assert forall|n: Seq<char>| #[trigger] has_name(vb, n) implies (w.contains_name(n)
        && w.value_of(n) is VionaBackend && !(exists|t: int|
        0 <= t < j + 1 && (#[trigger] dv[t]).1 is VirtioNic && nic_backend_name(dv[t].1)
            == n)) by {
        if exists|t: int|
            0 <= t < j + 1 && (#[trigger] dv[t]).1 is VirtioNic && nic_backend_name(dv[t].1)
                == n {
            let t = choose|t: int|
                0 <= t < j + 1 && (#[trigger] dv[t]).1 is VirtioNic && nic_backend_name(dv[t].1)
                    == n;
            assert(t < j);
        }
    }
    assert forall|n: Seq<char>| #[trigger] has_name(db, n) implies (w.contains_name(n)
        && w.value_of(n) is DlpiBackend && !(exists|t: int|
        0 <= t < j + 1 && (#[trigger] dv[t]).1 is SoftNpuPort && port_backend_name(dv[t].1)
            == n)) by {
        if exists|t: int|
            0 <= t < j + 1 && (#[trigger] dv[t]).1 is SoftNpuPort && port_backend_name(dv[t].1)
                == n {
            let t = choose|t: int|
                0 <= t < j + 1 && (#[trigger] dv[t]).1 is SoftNpuPort && port_backend_name(
                    dv[t].1,
                ) == n;
            assert(t < j);
        }
    }

    assert forall|k2: int| 0 <= k2 < genew.len() implies w.contains_name(
        (#[trigger] genew[k2]).0,
    ) && w.value_of(genew[k2].0) == genew[k2].1 by {
        if k2 < dl {
            assert(genew[k2] == gepre[k2]);
        } else if k2 == dl {
            assert(genew[k2] == np);
        } else {
            assert(genew[k2] == gepre[k2 - 1]);
        }
    }
    assert forall|k2: int| 0 <= k2 < genew.len() implies ((exists|t: int|
        0 <= t < j + 1 && (#[trigger] genew[k2]).0 == dv[t].0) || is_backend_c(
        w.value_of(genew[k2].0),
    )) by {
        if k2 < dl || k2 > dl {
            let x: int = if k2 < dl {
                k2
            } else {
                k2 - 1
            };
            assert(genew[k2] == gepre[x]);
            if exists|t: int| 0 <= t < j && (#[trigger] gepre[x]).0 == dv[t].0 {
                let t = choose|t: int| 0 <= t < j && (#[trigger] gepre[x]).0 == dv[t].0;
                assert(0 <= t < j + 1 && genew[k2].0 == dv[t].0);
            }
        } else {
            assert(genew[k2].0 == dv[j].0);
        }
    }
    assert forall|k2: int| 0 <= k2 < genew.len() implies !has_name(
        sb,
        (#[trigger] genew[k2]).0,
    ) && !has_name(vb, genew[k2].0) && !has_name(db, genew[k2].0) by {
        if k2 < dl || k2 > dl {
            let x: int = if k2 < dl {
                k2
            } else {
                k2 - 1
            };
            assert(genew[k2] == gepre[x]);
        } else {
            assert(genew[k2].0 == dv[j].0);
            if has_name(sb, dv[j].0) {
                assert(is_storage_backend_c(w.value_of(dv[j].0)));
                assert(w.value_of(dv[j].0) == dv[j].1);
            }
            if has_name(vb, dv[j].0) {
                assert(w.value_of(dv[j].0) is VionaBackend);
            }
            if has_name(db, dv[j].0) {
                assert(w.value_of(dv[j].0) is DlpiBackend);
            }
        }
    }
    assert forall|p: PciPath| pcinew.contains(p) implies (exists|t: int|
        0 <= t < j + 1 && (#[trigger] dv[t]).1.spec_pci_path() == Some(p)) by {
        match pch {
            Some(p0) => {
                crate::builder::lemma_push_contains(pcipre, p0, p);
                if pcipre.contains(p) {
                    let t = choose|t: int|
                        0 <= t < j && (#[trigger] dv[t]).1.spec_pci_path() == Some(p);
                    assert(0 <= t < j + 1 && dv[t].1.spec_pci_path() == Some(p));
                } else {
                    assert(p == p0);
                    assert(dv[j].1.spec_pci_path() == Some(p));
                }
            },
            None => {
                let t = choose|t: int| 0 <= t < j && (#[trigger] dv[t]).1.spec_pci_path() == Some(
                    p,
                );
                assert(0 <= t < j + 1 && dv[t].1.spec_pci_path() == Some(p));
            },
        }
    }
    assert forall|p: PciPath|
        (exists|t: int|
            0 <= t < j + 1 && (#[trigger] dv[t]).1.spec_pci_path() == Some(
                p,
            )) implies pcinew.contains(p) by {
        let t = choose|t: int| 0 <= t < j + 1 && (#[trigger] dv[t]).1.spec_pci_path() == Some(p);
        match pch {
            Some(p0) => {
                crate::builder::lemma_push_contains(pcipre, p0, p);
                if t < j {
                    assert(pcipre.contains(p));
                } else {
                    assert(p == p0);
                }
            },
            None => {
                assert(t < j);
            },
        }
    }
    assert forall|s: SerialPortNumber| sernew.contains(s) implies (exists|t: int|
        0 <= t < j + 1 && is_serial_c((#[trigger] dv[t]).1, s)) by {
        match snum {
            Some(s0) => {
                crate::builder::lemma_push_contains(serpre, s0, s);
                if serpre.contains(s) {
                    let t = choose|t: int| 0 <= t < j && is_serial_c((#[trigger] dv[t]).1, s);
                    assert(0 <= t < j + 1 && is_serial_c(dv[t].1, s));
                } else {
                    assert(s == s0);
                    assert(is_serial_c(dv[j].1, s));
                }
            },
            None => {
                let t = choose|t: int| 0 <= t < j && is_serial_c((#[trigger] dv[t]).1, s);
                assert(0 <= t < j + 1 && is_serial_c(dv[t].1, s));
            },
        }
    }
    assert forall|s: SerialPortNumber|
        (exists|t: int|
            0 <= t < j + 1 && is_serial_c((#[trigger] dv[t]).1, s)) implies sernew.contains(s) by {
        let t = choose|t: int| 0 <= t < j + 1 && is_serial_c((#[trigger] dv[t]).1, s);
        match snum {
            Some(s0) => {
                crate::builder::lemma_push_contains(serpre, s0, s);
                if t < j {
                    assert(serpre.contains(s));
                } else {
                    assert(s == s0);
                }
            },
            None => {
                assert(t < j);
            },
        }
    }
    assert forall|t1: int, t2: int|
        0 <= t1 < t2 < j + 1 && (#[trigger] dv[t1]).1.spec_pci_path() is Some implies dv[t1].1.spec_pci_path()
            != (#[trigger] dv[t2]).1.spec_pci_path() by {
        if t2 == j {
            match pch {
                Some(p0) => {
                    if dv[t1].1.spec_pci_path() == Some(p0) {
                        assert(pcipre.contains(p0));
                    }
                },
                None => {},
            }
        }
    }
    assert forall|t1: int, t2: int, s: SerialPortNumber|
        0 <= t1 < t2 < j + 1 && #[trigger] is_serial_c(dv[t1].1, s) && #[trigger] is_serial_c(
            dv[t2].1,
            s,
        ) implies false by {
        if t2 == j {
            match snum {
                Some(s0) => {
                    assert(s == s0);
                    assert(serpre.contains(s));
                },
                None => {},
            }
        }
    }
    assert(gnew.pvpanic is Some <==> exists|t: int|
        0 <= t < j + 1 && (#[trigger] dv[t]).1 is QemuPvpanic) by {
        if gnew.pvpanic is Some {
            if gpre.pvpanic is Some {
                let t = choose|t: int| 0 <= t < j && (#[trigger] dv[t]).1 is QemuPvpanic;
                assert(0 <= t < j + 1 && dv[t].1 is QemuPvpanic);
            } else {
                assert(dv[j].1 is QemuPvpanic);
            }
        }
        if exists|t: int| 0 <= t < j + 1 && (#[trigger] dv[t]).1 is QemuPvpanic {
            let t = choose|t: int| 0 <= t < j + 1 && (#[trigger] dv[t]).1 is QemuPvpanic;
            assert(t < j || t == j);
        }
    }
    assert(gnew.softnpu.pci_port is Some <==> exists|t: int|
        0 <= t < j + 1 && (#[trigger] dv[t]).1 is SoftNpuPciPort) by {
        if gnew.softnpu.pci_port is Some {
            if gpre.softnpu.pci_port is Some {
                let t = choose|t: int| 0 <= t < j && (#[trigger] dv[t]).1 is SoftNpuPciPort;
                assert(0 <= t < j + 1 && dv[t].1 is SoftNpuPciPort);
            } else {
                assert(dv[j].1 is SoftNpuPciPort);
            }
        }
        if exists|t: int| 0 <= t < j + 1 && (#[trigger] dv[t]).1 is SoftNpuPciPort {
            let t = choose|t: int| 0 <= t < j + 1 && (#[trigger] dv[t]).1 is SoftNpuPciPort;
            assert(t < j || t == j);
        }
    }
    assert(gnew.softnpu.p9_device is Some <==> exists|t: int|
        0 <= t < j + 1 && (#[trigger] dv[t]).1 is SoftNpuP9) by {
        if gnew.softnpu.p9_device is Some {
            if gpre.softnpu.p9_device is Some {
                let t = choose|t: int| 0 <= t < j && (#[trigger] dv[t]).1 is SoftNpuP9;
                assert(0 <= t < j + 1 && dv[t].1 is SoftNpuP9);
            } else {
                assert(dv[j].1 is SoftNpuP9);
            }
        }
        if exists|t: int| 0 <= t < j + 1 && (#[trigger] dv[t]).1 is SoftNpuP9 {
            let t = choose|t: int| 0 <= t < j + 1 && (#[trigger] dv[t]).1 is SoftNpuP9;
            assert(t < j || t == j);
        }
    }
    assert(gnew.softnpu.p9fs is Some <==> exists|t: int|
        0 <= t < j + 1 && (#[trigger] dv[t]).1 is P9fs) by {
        if gnew.softnpu.p9fs is Some {
            if gpre.softnpu.p9fs is Some {
                let t = choose|t: int| 0 <= t < j && (#[trigger] dv[t]).1 is P9fs;
                assert(0 <= t < j + 1 && dv[t].1 is P9fs);
            } else {
                assert(dv[j].1 is P9fs);
            }
        }
        if exists|t: int| 0 <= t < j + 1 && (#[trigger] dv[t]).1 is P9fs {
            let t = choose|t: int| 0 <= t < j + 1 && (#[trigger] dv[t]).1 is P9fs;
            assert(t < j || t == j);
        }
    }
    assert forall|t1: int, t2: int| 0 <= t1 < t2 < j + 1 implies !((#[trigger] dv[t1]).1 is
    QemuPvpanic && (#[trigger] dv[t2]).1 is QemuPvpanic) by {
        if t2 == j && dv[t1].1 is QemuPvpanic && dv[j].1 is QemuPvpanic {
            assert(gpre.pvpanic is Some);
        }
    }
    assert forall|t1: int, t2: int| 0 <= t1 < t2 < j + 1 implies !((#[trigger] dv[t1]).1 is
    SoftNpuPciPort && (#[trigger] dv[t2]).1 is SoftNpuPciPort) by {
        if t2 == j && dv[t1].1 is SoftNpuPciPort && dv[j].1 is SoftNpuPciPort {
            assert(gpre.softnpu.pci_port is Some);
        }
    }
    assert forall|t1: int, t2: int| 0 <= t1 < t2 < j + 1 implies !((#[trigger] dv[t1]).1 is
    SoftNpuP9 && (#[trigger] dv[t2]).1 is SoftNpuP9) by {
        if t2 == j && dv[t1].1 is SoftNpuP9 && dv[j].1 is SoftNpuP9 {
            assert(gpre.softnpu.p9_device is Some);
        }
    }
    assert forall|t1: int, t2: int| 0 <= t1 < t2 < j + 1 implies !((#[trigger] dv[t1]).1 is P9fs
        && (#[trigger] dv[t2]).1 is P9fs) by {
        if t2 == j && dv[t1].1 is P9fs && dv[j].1 is P9fs {
            assert(gpre.softnpu.p9fs is Some);
        }
    }
}

/// Picks out the index of the wire entry named `n`.
pub(crate) proof fn lemma_wire_index_of(w: ComponentMap, n: Seq<char>) -> (i: int)
    requires
        w.wf(),
        w.contains_name(n),
    ensures
        0 <= i < w.entries_view().len(),
        w.entries_view()[i].0 == n,
        w.entries_view()[i].1 == w.value_of(n),
{
    let i = choose|i: int| 0 <= i < w.entries_view().len() && w.entries_view()[i].0 == n;
    w.lemma_entry_is_value(i);
    i
}

/// A disk whose backend name is absent from the remaining storage bucket
/// shows the wire spec is not convertible: the backend either never existed
/// with the right kind or was already claimed by another disk.
pub(crate) proof fn lemma_err_storage(
    w0: InstanceSpecV0,
    en: bool,
    dv: Seq<(Seq<char>, ComponentV0)>,
    j: int,
    sb: Seq<(Seq<char>, StorageBackend)>,
    vb: Seq<(Seq<char>, VirtioNetworkBackend)>,
    db: Seq<(Seq<char>, DlpiNetworkBackend)>,
    g: Spec,
    pci: Seq<PciPath>,
    ser: Seq<SerialPortNumber>,
    b0: int,
)
    requires
        w0.wf(),
        resolve_inv(w0, en, dv, j, sb, vb, db, g, pci, ser, b0),
        0 <= j < dv.len(),
        is_disk_c(dv[j].1),
        !has_name(sb, disk_backend_name(dv[j].1)),
    ensures
        !wire_convertible(w0, en),
        dangling_disk_backend(w0, disk_backend_name(dv[j].1), dv[j].0),
{
    reveal(resolve_inv);
    let w = w0.components;
    let bn = disk_backend_name(dv[j].1);
    if w.contains_name(bn) && is_storage_backend_c(w.value_of(bn)) {
        let t = choose|t: int|
            0 <= t < j && is_disk_c((#[trigger] dv[t]).1) && disk_backend_name(dv[t].1) == bn;
        assert(dv[t].0 != dv[j].0);
        assert(w.contains_name(dv[t].0) && is_disk_c(w.value_of(dv[t].0)) && disk_backend_name(
            w.value_of(dv[t].0),
        ) == bn);
        assert(dangling_disk_backend(w0, bn, dv[j].0));
        if wire_convertible(w0, en) {
            let i1 = lemma_wire_index_of(w, dv[j].0);
            let i2 = lemma_wire_index_of(w, dv[t].0);
            assert(w.entries_view()[i1].1 == dv[j].1);
            assert(w.entries_view()[i2].1 == dv[t].1);
            assert(i1 != i2);
            assert(false);
        }
    } else {
        assert(dangling_disk_backend(w0, bn, dv[j].0));
        if wire_convertible(w0, en) {
            let i1 = lemma_wire_index_of(w, dv[j].0);
            assert(is_disk_c(w.entries_view()[i1].1));
            assert(false);
        }
    }
}

/// A NIC whose backend name is absent from the remaining bucket shows the
/// wire spec is not convertible.
pub(crate) proof fn lemma_err_viona(
    w0: InstanceSpecV0,
    en: bool,
    dv: Seq<(Seq<char>, ComponentV0)>,
    j: int,
    sb: Seq<(Seq<char>, StorageBackend)>,
    vb: Seq<(Seq<char>, VirtioNetworkBackend)>,
    db: Seq<(Seq<char>, DlpiNetworkBackend)>,
    g: Spec,
    pci: Seq<PciPath>,
    ser: Seq<SerialPortNumber>,
    b0: int,
)
    requires
        w0.wf(),
        resolve_inv(w0, en, dv, j, sb, vb, db, g, pci, ser, b0),
        0 <= j < dv.len(),
        dv[j].1 is VirtioNic,
        !has_name(vb, nic_backend_name(dv[j].1)),
    ensures
        !wire_convertible(w0, en),
        dangling_network_backend(w0, nic_backend_name(dv[j].1), dv[j].0),
{
    reveal(resolve_inv);
    let w = w0.components;
    let bn = nic_backend_name(dv[j].1);
    if w.contains_name(bn) && w.value_of(bn) is VionaBackend {
        let t = choose|t: int|
            0 <= t < j && (#[trigger] dv[t]).1 is VirtioNic && nic_backend_name(dv[t].1) == bn;
        assert(dv[t].0 != dv[j].0);
        assert(w.contains_name(dv[t].0) && w.value_of(dv[t].0) is VirtioNic && nic_backend_name(
            w.value_of(dv[t].0),
        ) == bn);
        assert(dangling_network_backend(w0, bn, dv[j].0));
        if wire_convertible(w0, en) {
            let i1 = lemma_wire_index_of(w, dv[j].0);
            let i2 = lemma_wire_index_of(w, dv[t].0);
            assert(w.entries_view()[i1].1 == dv[j].1);
            assert(w.entries_view()[i2].1 == dv[t].1);
            assert(i1 != i2);
            assert(false);
        }
    } else {
        assert(dangling_network_backend(w0, bn, dv[j].0));
        if wire_convertible(w0, en) {
            let i1 = lemma_wire_index_of(w, dv[j].0);
            assert(w.entries_view()[i1].1 == dv[j].1);
            assert(false);
        }
    }
}

/// An extension port whose backend name is absent from the remaining bucket
/// shows the wire spec is not convertible.
pub(crate) proof fn lemma_err_dlpi(
    w0: InstanceSpecV0,
    en: bool,
    dv: Seq<(Seq<char>, ComponentV0)>,
    j: int,
    sb: Seq<(Seq<char>, StorageBackend)>,
    vb: Seq<(Seq<char>, VirtioNetworkBackend)>,
    db: Seq<(Seq<char>, DlpiNetworkBackend)>,
    g: Spec,
    pci: Seq<PciPath>,
    ser: Seq<SerialPortNumber>,
    b0: int,
)
    requires
        w0.wf(),
        resolve_inv(w0, en, dv, j, sb, vb, db, g, pci, ser, b0),
        0 <= j < dv.len(),
        dv[j].1 is SoftNpuPort,
        !has_name(db, port_backend_name(dv[j].1)),
    ensures
        !wire_convertible(w0, en),
        dangling_network_backend(w0, port_backend_name(dv[j].1), dv[j].0),
{
    reveal(resolve_inv);
    let w = w0.components;
    let bn = port_backend_name(dv[j].1);
    if w.contains_name(bn) && w.value_of(bn) is DlpiBackend {
        let t = choose|t: int|
            0 <= t < j && (#[trigger] dv[t]).1 is SoftNpuPort && port_backend_name(dv[t].1) == bn;
        assert(dv[t].0 != dv[j].0);
        assert(w.contains_name(dv[t].0) && w.value_of(dv[t].0) is SoftNpuPort
            && port_backend_name(w.value_of(dv[t].0)) == bn);
        assert(dangling_network_backend(w0, bn, dv[j].0));
        if wire_convertible(w0, en) {
            let i1 = lemma_wire_index_of(w, dv[j].0);
            let i2 = lemma_wire_index_of(w, dv[t].0);
            assert(w.entries_view()[i1].1 == dv[j].1);
            assert(w.entries_view()[i2].1 == dv[t].1);
            assert(i1 != i2);
            assert(false);
        }
    } else {
        assert(dangling_network_backend(w0, bn, dv[j].0));
        if wire_convertible(w0, en) {
            let i1 = lemma_wire_index_of(w, dv[j].0);
            assert(w.entries_view()[i1].1 == dv[j].1);
            assert(false);
        }
    }
}

/// A device whose PCI path is already recorded shows the wire spec is not
/// convertible.
pub(crate) proof fn lemma_err_pci(
    w0: InstanceSpecV0,
    en: bool,
    dv: Seq<(Seq<char>, ComponentV0)>,
    j: int,
    sb: Seq<(Seq<char>, StorageBackend)>,
    vb: Seq<(Seq<char>, VirtioNetworkBackend)>,
    db: Seq<(Seq<char>, DlpiNetworkBackend)>,
    g: Spec,
    pci: Seq<PciPath>,
    ser: Seq<SerialPortNumber>,
    b0: int,
    p: PciPath,
)
    requires
        w0.wf(),
        resolve_inv(w0, en, dv, j, sb, vb, db, g, pci, ser, b0),
        0 <= j < dv.len(),
        dv[j].1.spec_pci_path() == Some(p),
        pci.contains(p),
    ensures
        !wire_convertible(w0, en),
        pci_conflict(w0, p),
{
    reveal(resolve_inv);
    let w = w0.components;
    let t = choose|t: int| 0 <= t < j && (#[trigger] dv[t]).1.spec_pci_path() == Some(p);
    assert(pci_conflict(w0, p)) by {
        assert(dv[t].0 != dv[j].0);
        assert(w.contains_name(dv[t].0) && w.contains_name(dv[j].0));
        assert(w.value_of(dv[t].0).spec_pci_path() == Some(p));
        assert(w.value_of(dv[j].0).spec_pci_path() == Some(p));
    }
    if wire_convertible(w0, en) {
        let i1 = lemma_wire_index_of(w, dv[j].0);
        let i2 = lemma_wire_index_of(w, dv[t].0);
        assert(w.entries_view()[i1].1 == dv[j].1);
        assert(w.entries_view()[i2].1 == dv[t].1);
        assert(i1 != i2);
        assert(false);
    }
}

/// A serial port whose port number is already recorded shows the wire spec
/// is not convertible.
pub(crate) proof fn lemma_err_serial(
    w0: InstanceSpecV0,
    en: bool,
    dv: Seq<(Seq<char>, ComponentV0)>,
    j: int,
    sb: Seq<(Seq<char>, StorageBackend)>,
    vb: Seq<(Seq<char>, VirtioNetworkBackend)>,
    db: Seq<(Seq<char>, DlpiNetworkBackend)>,
    g: Spec,
    pci: Seq<PciPath>,
    ser: Seq<SerialPortNumber>,
    b0: int,
    s: SerialPortNumber,
)
    requires
        w0.wf(),
        resolve_inv(w0, en, dv, j, sb, vb, db, g, pci, ser, b0),
        0 <= j < dv.len(),
        is_serial_c(dv[j].1, s),
        ser.contains(s),
    ensures
        !wire_convertible(w0, en),
        serial_conflict(w0, s),
{
    reveal(resolve_inv);
    let w = w0.components;
    let t = choose|t: int| 0 <= t < j && is_serial_c((#[trigger] dv[t]).1, s);
    assert(serial_conflict(w0, s)) by {
        assert(dv[t].0 != dv[j].0);
        assert(w.contains_name(dv[t].0) && w.contains_name(dv[j].0));
        assert(is_serial_c(w.value_of(dv[t].0), s));
        assert(is_serial_c(w.value_of(dv[j].0), s));
    }
    if wire_convertible(w0, en) {
        let i1 = lemma_wire_index_of(w, dv[j].0);
        let i2 = lemma_wire_index_of(w, dv[t].0);
        assert(w.entries_view()[i1].1 == dv[j].1);
        assert(w.entries_view()[i2].1 == dv[t].1);
        assert(i1 != i2);
        assert(false);
    }
}

/// A second device of a singleton kind shows the wire spec is not
/// convertible. `prior` witnesses an already-handled device of the same
/// kind.
pub(crate) proof fn lemma_err_singleton(
    w0: InstanceSpecV0,
    en: bool,
    dv: Seq<(Seq<char>, ComponentV0)>,
    j: int,
    sb: Seq<(Seq<char>, StorageBackend)>,
    vb: Seq<(Seq<char>, VirtioNetworkBackend)>,
    db: Seq<(Seq<char>, DlpiNetworkBackend)>,
    g: Spec,
    pci: Seq<PciPath>,
    ser: Seq<SerialPortNumber>,
    b0: int,
    prior: int,
)
    requires
        w0.wf(),
        resolve_inv(w0, en, dv, j, sb, vb, db, g, pci, ser, b0),
        0 <= j < dv.len(),
        0 <= prior < j,
        (dv[prior].1 is QemuPvpanic && dv[j].1 is QemuPvpanic) || (dv[prior].1 is SoftNpuPciPort
            && dv[j].1 is SoftNpuPciPort) || (dv[prior].1 is SoftNpuP9 && dv[j].1 is SoftNpuP9) || (
        dv[prior].1 is P9fs && dv[j].1 is P9fs),
    ensures
        !wire_convertible(w0, en),
        dv[j].1 is QemuPvpanic ==> duplicate_pvpanic(w0, dv[j].0),
        dv[j].1 is SoftNpuPciPort ==> duplicate_softnpu_pci(w0, dv[j].0),
        dv[j].1 is SoftNpuP9 ==> duplicate_softnpu_p9(w0, dv[j].0),
        dv[j].1 is P9fs ==> duplicate_p9fs(w0, dv[j].0),
{
    reveal(resolve_inv);
    let w = w0.components;
    assert(w.contains_name(dv[j].0) && w.value_of(dv[j].0) == dv[j].1);
    assert(w.contains_name(dv[prior].0) && w.value_of(dv[prior].0) == dv[prior].1);
    assert(dv[prior].0 != dv[j].0);
    if wire_convertible(w0, en) {
        let i1 = lemma_wire_index_of(w, dv[j].0);
        let i2 = lemma_wire_index_of(w, dv[prior].0);
        assert(w.entries_view()[i1].1 == dv[j].1);
        assert(w.entries_view()[i2].1 == dv[prior].1);
        assert(i1 != i2);
        assert(false);
    }
}

/// An extension component on a host without the extension shows the wire
/// spec is not convertible there.
pub(crate) proof fn lemma_err_disabled(
    w0: InstanceSpecV0,
    en: bool,
    dv: Seq<(Seq<char>, ComponentV0)>,
    j: int,
    sb: Seq<(Seq<char>, StorageBackend)>,
    vb: Seq<(Seq<char>, VirtioNetworkBackend)>,
    db: Seq<(Seq<char>, DlpiNetworkBackend)>,
    g: Spec,
    pci: Seq<PciPath>,
    ser: Seq<SerialPortNumber>,
    b0: int,
)
    requires
        w0.wf(),
        resolve_inv(w0, en, dv, j, sb, vb, db, g, pci, ser, b0),
        0 <= j < dv.len(),
        !en,
        is_softnpu_c(dv[j].1),
    ensures
        !wire_convertible(w0, en),
        unsupported_extension_component(w0, dv[j].0),
{
    reveal(resolve_inv);
    let w = w0.components;
    assert(w.contains_name(dv[j].0) && w.value_of(dv[j].0) == dv[j].1);
    if wire_convertible(w0, en) {
        let i1 = lemma_wire_index_of(w, dv[j].0);
        assert(w.entries_view()[i1].1 == dv[j].1);
        assert(false);
    }
}

/// A backend left in a bucket after every device has been handled is an
/// orphan: the wire spec is not convertible, and the backend is a wire
/// component of backend kind that no device references.
pub(crate) proof fn lemma_err_unused(
    w0: InstanceSpecV0,
    en: bool,
    dv: Seq<(Seq<char>, ComponentV0)>,
    sb: Seq<(Seq<char>, StorageBackend)>,
    vb: Seq<(Seq<char>, VirtioNetworkBackend)>,
    db: Seq<(Seq<char>, DlpiNetworkBackend)>,
    g: Spec,
    pci: Seq<PciPath>,
    ser: Seq<SerialPortNumber>,
    b0: int,
    n: Seq<char>,
)
    requires
        w0.wf(),
        resolve_inv(w0, en, dv, dv.len() as int, sb, vb, db, g, pci, ser, b0),
        has_name(sb, n) || has_name(vb, n) || has_name(db, n),
    ensures
        !wire_convertible(w0, en),
        orphan_backend(w0, n),
{
    reveal(resolve_inv);
    let w = w0.components;
    let j = dv.len() as int;
    if has_name(sb, n) {
        assert(w.contains_name(n) && is_storage_backend_c(w.value_of(n)));
        assert forall|n2: Seq<char>|
            #[trigger] w.contains_name(n2) && is_disk_c(w.value_of(n2)) implies disk_backend_name(
            w.value_of(n2),
        ) != n by {
            if disk_backend_name(w.value_of(n2)) == n {
                let i2 = lemma_wire_index_of(w, n2);
                let t2 = choose|t2: int|
                    0 <= t2 < dv.len() && (#[trigger] dv[t2]) == w.entries_view()[i2];
                assert(is_disk_c(dv[t2].1) && disk_backend_name(dv[t2].1) == n);
                assert(false);
            }
        }
        assert(orphan_backend(w0, n));
        if wire_convertible(w0, en) {
            let i1 = lemma_wire_index_of(w, n);
            assert(is_storage_backend_c(w.entries_view()[i1].1));
            let t = choose|t: int|
                0 <= t < w.entries_view().len() && is_disk_c((#[trigger] w.entries_view()[t]).1)
                    && disk_backend_name(w.entries_view()[t].1) == n;
            w.lemma_entry_is_value(t);
            assert(w.contains_name(w.entries_view()[t].0));
            assert(false);
        }
    } else if has_name(vb, n) {
        assert(w.contains_name(n) && w.value_of(n) is VionaBackend);
        assert forall|n2: Seq<char>|
            #[trigger] w.contains_name(n2) && w.value_of(n2) is VirtioNic implies nic_backend_name(
            w.value_of(n2),
        ) != n by {
            if nic_backend_name(w.value_of(n2)) == n {
                let i2 = lemma_wire_index_of(w, n2);
                let t2 = choose|t2: int|
                    0 <= t2 < dv.len() && (#[trigger] dv[t2]) == w.entries_view()[i2];
                assert(dv[t2].1 is VirtioNic && nic_backend_name(dv[t2].1) == n);
                assert(false);
            }
        }
        assert(orphan_backend(w0, n));
        if wire_convertible(w0, en) {
            let i1 = lemma_wire_index_of(w, n);
            assert(w.entries_view()[i1].1 is VionaBackend);
            let t = choose|t: int|
                0 <= t < w.entries_view().len() && (#[trigger] w.entries_view()[t]).1 is VirtioNic
                    && nic_backend_name(w.entries_view()[t].1) == n;
            w.lemma_entry_is_value(t);
            assert(w.contains_name(w.entries_view()[t].0));
            assert(false);
        }
    } else {
        assert(w.contains_name(n) && w.value_of(n) is DlpiBackend);
        assert forall|n2: Seq<char>|
            #[trigger] w.contains_name(n2) && w.value_of(n2) is SoftNpuPort implies
            port_backend_name(w.value_of(n2)) != n by {
            if port_backend_name(w.value_of(n2)) == n {
                let i2 = lemma_wire_index_of(w, n2);
                let t2 = choose|t2: int|
                    0 <= t2 < dv.len() && (#[trigger] dv[t2]) == w.entries_view()[i2];
                assert(dv[t2].1 is SoftNpuPort && port_backend_name(dv[t2].1) == n);
                assert(false);
            }
        }
        assert(orphan_backend(w0, n));
        if wire_convertible(w0, en) {
            let i1 = lemma_wire_index_of(w, n);
            assert(w.entries_view()[i1].1 is DlpiBackend);
            let t = choose|t: int|
                0 <= t < w.entries_view().len() && (#[trigger] w.entries_view()[t]).1 is
                    SoftNpuPort && port_backend_name(w.entries_view()[t].1) == n;
            w.lemma_entry_is_value(t);
            assert(w.contains_name(w.entries_view()[t].0));
            assert(false);
        }
    }
}

/// When every device has been handled and every bucket is empty, the
/// grouped spec accounts exactly for the wire spec and the wire spec is
/// convertible.
#[verifier::rlimit(100)]
#[verifier::spinoff_prover]
pub(crate) proof fn lemma_end_ok(
    w0: InstanceSpecV0,
    en: bool,
    dv: Seq<(Seq<char>, ComponentV0)>,
    sb: Seq<(Seq<char>, StorageBackend)>,
    vb: Seq<(Seq<char>, VirtioNetworkBackend)>,
    db: Seq<(Seq<char>, DlpiNetworkBackend)>,
    g: Spec,
    pci: Seq<PciPath>,
    ser: Seq<SerialPortNumber>,
    b0: int,
)
    requires
        w0.wf(),
        resolve_inv(w0, en, dv, dv.len() as int, sb, vb, db, g, pci, ser, b0),
        sb.len() == 0,
        vb.len() == 0,
        db.len() == 0,
        dv.len() + b0 == w0.components.entries_view().len(),
    ensures
        groups_wire(w0, g),
        wire_convertible(w0, en),
{
    reveal(resolve_inv);
    let w = w0.components;
    let ev = w.entries_view();
    let j = dv.len() as int;

    assert(g.wire_entries().len() == ev.len());

    // Every wire entry of device kind corresponds to a handled device, and
    // the relevant records carry over to the wire indices.
    assert forall|i: int|
        0 <= i < ev.len() && is_disk_c(#[trigger] ev[i].1) implies w.contains_name(
        disk_backend_name(ev[i].1),
    ) && is_storage_backend_c(w.value_of(disk_backend_name(ev[i].1))) by {
        let t = choose|t: int| 0 <= t < dv.len() && (#[trigger] dv[t]) == ev[i];
    }
    assert forall|i: int, i2: int|
        0 <= i < ev.len() && 0 <= i2 < ev.len() && i != i2 && is_disk_c(#[trigger] ev[i].1)
            && is_disk_c(#[trigger] ev[i2].1) implies disk_backend_name(ev[i].1)
        != disk_backend_name(ev[i2].1) by {
        let t = choose|t: int| 0 <= t < dv.len() && (#[trigger] dv[t]) == ev[i];
        let t2 = choose|t2: int| 0 <= t2 < dv.len() && (#[trigger] dv[t2]) == ev[i2];
        assert(w.wf());
        assert(ev[i].0 != ev[i2].0);
        assert(t != t2);
    }
    assert forall|i: int|
        0 <= i < ev.len() && is_storage_backend_c(#[trigger] ev[i].1) implies exists|t: int|
        0 <= t < ev.len() && is_disk_c(#[trigger] ev[t].1) && disk_backend_name(ev[t].1)
            == ev[i].0 by {
        w.lemma_entry_is_value(i);
        assert(!has_name(sb, ev[i].0));
        let t = choose|t: int|
            0 <= t < j && is_disk_c((#[trigger] dv[t]).1) && disk_backend_name(dv[t].1) == ev[i].0;
        let i2 = lemma_wire_index_of(w, dv[t].0);
        assert(ev[i2].1 == dv[t].1);
        assert(0 <= i2 < ev.len() && is_disk_c(ev[i2].1) && disk_backend_name(ev[i2].1)
            == ev[i].0);
    }
    assert forall|i: int|
        0 <= i < ev.len() && (#[trigger] ev[i].1) is VirtioNic implies w.contains_name(
        nic_backend_name(ev[i].1),
    ) && w.value_of(nic_backend_name(ev[i].1)) is VionaBackend by {
        let t = choose|t: int| 0 <= t < dv.len() && (#[trigger] dv[t]) == ev[i];
    }
    assert forall|i: int, i2: int|
        0 <= i < ev.len() && 0 <= i2 < ev.len() && i != i2 && (#[trigger] ev[i].1) is VirtioNic
            && (#[trigger] ev[i2].1) is VirtioNic implies nic_backend_name(ev[i].1)
        != nic_backend_name(ev[i2].1) by {
        let t = choose|t: int| 0 <= t < dv.len() && (#[trigger] dv[t]) == ev[i];
        let t2 = choose|t2: int| 0 <= t2 < dv.len() && (#[trigger] dv[t2]) == ev[i2];
        assert(ev[i].0 != ev[i2].0);
        assert(t != t2);
    }
    assert forall|i: int|
        0 <= i < ev.len() && (#[trigger] ev[i].1) is VionaBackend implies exists|t: int|
        0 <= t < ev.len() && (#[trigger] ev[t].1) is VirtioNic && nic_backend_name(ev[t].1)
            == ev[i].0 by {
        w.lemma_entry_is_value(i);
        assert(!has_name(vb, ev[i].0));
        let t = choose|t: int|
            0 <= t < j && (#[trigger] dv[t]).1 is VirtioNic && nic_backend_name(dv[t].1)
                == ev[i].0;
        let i2 = lemma_wire_index_of(w, dv[t].0);
        assert(ev[i2].1 == dv[t].1);
        assert(0 <= i2 < ev.len() && ev[i2].1 is VirtioNic && nic_backend_name(ev[i2].1)
            == ev[i].0);
    }
    assert forall|i: int|
        0 <= i < ev.len() && (#[trigger] ev[i].1) is SoftNpuPort implies w.contains_name(
        port_backend_name(ev[i].1),
    ) && w.value_of(port_backend_name(ev[i].1)) is DlpiBackend by {
        let t = choose|t: int| 0 <= t < dv.len() && (#[trigger] dv[t]) == ev[i];
    }
    assert forall|i: int, i2: int|
        0 <= i < ev.len() && 0 <= i2 < ev.len() && i != i2 && (#[trigger] ev[i].1) is SoftNpuPort
            && (#[trigger] ev[i2].1) is SoftNpuPort implies port_backend_name(ev[i].1)
        != port_backend_name(ev[i2].1) by {
        let t = choose|t: int| 0 <= t < dv.len() && (#[trigger] dv[t]) == ev[i];
        let t2 = choose|t2: int| 0 <= t2 < dv.len() && (#[trigger] dv[t2]) == ev[i2];
        assert(ev[i].0 != ev[i2].0);
        assert(t != t2);
    }
    assert forall|i: int|
        0 <= i < ev.len() && (#[trigger] ev[i].1) is DlpiBackend implies exists|t: int|
        0 <= t < ev.len() && (#[trigger] ev[t].1) is SoftNpuPort && port_backend_name(ev[t].1)
            == ev[i].0 by {
        w.lemma_entry_is_value(i);
        assert(!has_name(db, ev[i].0));
        let t = choose|t: int|
            0 <= t < j && (#[trigger] dv[t]).1 is SoftNpuPort && port_backend_name(dv[t].1)
                == ev[i].0;
        let i2 = lemma_wire_index_of(w, dv[t].0);
        assert(ev[i2].1 == dv[t].1);
        assert(0 <= i2 < ev.len() && ev[i2].1 is SoftNpuPort && port_backend_name(ev[i2].1)
            == ev[i].0);
    }
    assert forall|i: int, i2: int|
        0 <= i < ev.len() && 0 <= i2 < ev.len() && i != i2 && (#[trigger] ev[i].1).spec_pci_path() is
            Some implies ev[i].1.spec_pci_path() != (#[trigger] ev[i2].1).spec_pci_path() by {
        if ev[i2].1.spec_pci_path() is Some && ev[i].1.spec_pci_path() == ev[i2].1.spec_pci_path() {
            assert(!is_backend_c(ev[i].1));
            assert(!is_backend_c(ev[i2].1));
            let t = choose|t: int| 0 <= t < dv.len() && (#[trigger] dv[t]) == ev[i];
            let t2 = choose|t2: int| 0 <= t2 < dv.len() && (#[trigger] dv[t2]) == ev[i2];
            assert(ev[i].0 != ev[i2].0);
            assert(t != t2);
            assert(false);
        }
    }
    assert forall|i: int, i2: int|
        0 <= i < ev.len() && 0 <= i2 < ev.len() && i != i2 && ((#[trigger] ev[i].1) matches
        ComponentV0::SerialPort(a) && ((#[trigger] ev[i2].1) matches ComponentV0::SerialPort(b)
            && a.num == b.num)) implies false by {
        assert(!is_backend_c(ev[i].1));
        assert(!is_backend_c(ev[i2].1));
        let t = choose|t: int| 0 <= t < dv.len() && (#[trigger] dv[t]) == ev[i];
        let t2 = choose|t2: int| 0 <= t2 < dv.len() && (#[trigger] dv[t2]) == ev[i2];
        assert(ev[i].0 != ev[i2].0);
        assert(t != t2);
        match ev[i].1 {
            ComponentV0::SerialPort(a2) => {
                assert(is_serial_c(dv[t].1, a2.num));
                assert(is_serial_c(dv[t2].1, a2.num));
            },
            _ => {},
        }
    }
    assert forall|i: int, i2: int|
        0 <= i < ev.len() && 0 <= i2 < ev.len() && i != i2 implies !((#[trigger] ev[i].1) is
    QemuPvpanic && (#[trigger] ev[i2].1) is QemuPvpanic) by {
        if ev[i].1 is QemuPvpanic && ev[i2].1 is QemuPvpanic {
            let t = choose|t: int| 0 <= t < dv.len() && (#[trigger] dv[t]) == ev[i];
            let t2 = choose|t2: int| 0 <= t2 < dv.len() && (#[trigger] dv[t2]) == ev[i2];
            assert(ev[i].0 != ev[i2].0);
            assert(t != t2);
        }
    }
    assert forall|i: int, i2: int|
        0 <= i < ev.len() && 0 <= i2 < ev.len() && i != i2 implies !((#[trigger] ev[i].1) is
    SoftNpuPciPort && (#[trigger] ev[i2].1) is SoftNpuPciPort) by {
        if ev[i].1 is SoftNpuPciPort && ev[i2].1 is SoftNpuPciPort {
            let t = choose|t: int| 0 <= t < dv.len() && (#[trigger] dv[t]) == ev[i];
            let t2 = choose|t2: int| 0 <= t2 < dv.len() && (#[trigger] dv[t2]) == ev[i2];
            assert(ev[i].0 != ev[i2].0);
            assert(t != t2);
        }
    }
    assert forall|i: int, i2: int|
        0 <= i < ev.len() && 0 <= i2 < ev.len() && i != i2 implies !((#[trigger] ev[i].1) is
    SoftNpuP9 && (#[trigger] ev[i2].1) is SoftNpuP9) by {
        if ev[i].1 is SoftNpuP9 && ev[i2].1 is SoftNpuP9 {
            let t = choose|t: int| 0 <= t < dv.len() && (#[trigger] dv[t]) == ev[i];
            let t2 = choose|t2: int| 0 <= t2 < dv.len() && (#[trigger] dv[t2]) == ev[i2];
            assert(ev[i].0 != ev[i2].0);
            assert(t != t2);
        }
    }
    assert forall|i: int, i2: int|
        0 <= i < ev.len() && 0 <= i2 < ev.len() && i != i2 implies !((#[trigger] ev[i].1) is P9fs
            && (#[trigger] ev[i2].1) is P9fs) by {
        if ev[i].1 is P9fs && ev[i2].1 is P9fs {
            let t = choose|t: int| 0 <= t < dv.len() && (#[trigger] dv[t]) == ev[i];
            let t2 = choose|t2: int| 0 <= t2 < dv.len() && (#[trigger] dv[t2]) == ev[i2];
            assert(ev[i].0 != ev[i2].0);
            assert(t != t2);
        }
    }
    if !en {
        assert forall|i: int| 0 <= i < ev.len() implies !is_softnpu_c(#[trigger] ev[i].1) by {
            if is_softnpu_c(ev[i].1) {
                let t = choose|t: int| 0 <= t < dv.len() && (#[trigger] dv[t]) == ev[i];
            }
        }
    }
}

/// Once a wire spec is partitioned into its device and backend buckets, the
/// resolution-pass invariant holds of the empty grouped spec.
#[verifier::rlimit(100)]
#[verifier::spinoff_prover]
pub(crate) proof fn lemma_initial_inv(
    w0: InstanceSpecV0,
    en: bool,
    dv: Seq<(Seq<char>, ComponentV0)>,
    sb: Seq<(Seq<char>, StorageBackend)>,
    vb: Seq<(Seq<char>, VirtioNetworkBackend)>,
    db: Seq<(Seq<char>, DlpiNetworkBackend)>,
    g: Spec,
    b0: int,
)
    requires
        w0.wf(),
        dv == w0.components.entries_view().filter_map(device_bucket_fn()),
        sb == w0.components.entries_view().filter_map(storage_bucket_fn()),
        vb == w0.components.entries_view().filter_map(viona_bucket_fn()),
        db == w0.components.entries_view().filter_map(dlpi_bucket_fn()),
        g.wire_entries() == Seq::<(Seq<char>, ComponentV0)>::empty(),
        g.board == w0.board,
        g.serial@.len() == 0,
        g.pvpanic is None,
        g.softnpu.pci_port is None,
        g.softnpu.p9_device is None,
        g.softnpu.p9fs is None,
        b0 == sb.len() + vb.len() + db.len(),
    ensures
        resolve_inv(
            w0,
            en,
            dv,
            0,
            sb,
            vb,
            db,
            g,
            Seq::<PciPath>::empty(),
            Seq::<SerialPortNumber>::empty(),
            b0,
        ),
{
    reveal(resolve_inv);
    let w = w0.components;
    let wev = w.entries_view();
    lemma_bucket_facts(wev, device_bucket_fn());
    lemma_bucket_facts(wev, storage_bucket_fn());
    lemma_bucket_facts(wev, viona_bucket_fn());
    lemma_bucket_facts(wev, dlpi_bucket_fn());
    assert forall|t: int| 0 <= t < dv.len() implies w.contains_name((#[trigger] dv[t]).0)
        && w.value_of(dv[t].0) == dv[t].1 && !is_backend_c(dv[t].1) by {
        let i2 = choose|i2: int|
            0 <= i2 < wev.len() && device_bucket_fn()(#[trigger] wev[i2]) == Some(dv[t]);
        w.lemma_entry_is_value(i2);
    }
    assert forall|k: int| 0 <= k < sb.len() implies w.contains_name((#[trigger] sb[k]).0)
        && w.value_of(sb[k].0) == storage_backend_component(sb[k].1) by {
        let i2 = choose|i2: int|
            0 <= i2 < wev.len() && storage_bucket_fn()(#[trigger] wev[i2]) == Some(sb[k]);
        w.lemma_entry_is_value(i2);
    }
    assert forall|k: int| 0 <= k < vb.len() implies w.contains_name((#[trigger] vb[k]).0)
        && w.value_of(vb[k].0) == ComponentV0::VionaBackend(vb[k].1) by {
        let i2 = choose|i2: int|
            0 <= i2 < wev.len() && viona_bucket_fn()(#[trigger] wev[i2]) == Some(vb[k]);
        w.lemma_entry_is_value(i2);
    }
    assert forall|k: int| 0 <= k < db.len() implies w.contains_name((#[trigger] db[k]).0)
        && w.value_of(db[k].0) == ComponentV0::DlpiBackend(db[k].1) by {
        let i2 = choose|i2: int|
            0 <= i2 < wev.len() && dlpi_bucket_fn()(#[trigger] wev[i2]) == Some(db[k]);
        w.lemma_entry_is_value(i2);
    }
    assert forall|n: Seq<char>| #[trigger] has_name(sb, n) <==> (w.contains_name(n)
        && is_storage_backend_c(w.value_of(n))) by {
        if has_name(sb, n) {
            let k = choose|k: int| 0 <= k < sb.len() && (#[trigger] sb[k]).0 == n;
        }
        if w.contains_name(n) && is_storage_backend_c(w.value_of(n)) {
            let i2 = choose|i2: int| 0 <= i2 < wev.len() && (#[trigger] wev[i2]).0 == n;
            w.lemma_entry_is_value(i2);
            assert(storage_bucket_fn()(wev[i2]) is Some);
            let k = choose|k: int|
                0 <= k < sb.len() && Some(#[trigger] sb[k]) == storage_bucket_fn()(wev[i2]);
            assert(sb[k].0 == n);
        }
    }
    assert forall|n: Seq<char>| #[trigger] has_name(vb, n) <==> (w.contains_name(n) && w.value_of(
        n,
    ) is VionaBackend) by {
        if has_name(vb, n) {
            let k = choose|k: int| 0 <= k < vb.len() && (#[trigger] vb[k]).0 == n;
        }
        if w.contains_name(n) && w.value_of(n) is VionaBackend {
            let i2 = choose|i2: int| 0 <= i2 < wev.len() && (#[trigger] wev[i2]).0 == n;
            w.lemma_entry_is_value(i2);
            assert(viona_bucket_fn()(wev[i2]) is Some);
            let k = choose|k: int|
                0 <= k < vb.len() && Some(#[trigger] vb[k]) == viona_bucket_fn()(wev[i2]);
            assert(vb[k].0 == n);
        }
    }
    assert forall|n: Seq<char>| #[trigger] has_name(db, n) <==> (w.contains_name(n) && w.value_of(
        n,
    ) is DlpiBackend) by {
        if has_name(db, n) {
            let k = choose|k: int| 0 <= k < db.len() && (#[trigger] db[k]).0 == n;
        }
        if w.contains_name(n) && w.value_of(n) is DlpiBackend {
            let i2 = choose|i2: int| 0 <= i2 < wev.len() && (#[trigger] wev[i2]).0 == n;
            w.lemma_entry_is_value(i2);
            assert(dlpi_bucket_fn()(wev[i2]) is Some);
            let k = choose|k: int|
                0 <= k < db.len() && Some(#[trigger] db[k]) == dlpi_bucket_fn()(wev[i2]);
            assert(db[k].0 == n);
        }
    }
}

} // verus!
