//! VM mainboard components. Every VM has a board, even if it has no other
//! peripherals.

use vstd::prelude::*;
use vstd::multiset::Multiset;
use vstd::relations::{sorted_by, total_ordering};

use crate::migration::ElementCompatibilityError;

verus! {

/// An Intel 440FX-compatible chipset.
#[derive(Clone, Copy, Debug, PartialEq, Eq, Structural)]
pub struct I440Fx {
    /// Specifies whether the chipset should allow PCI configuration space
    /// to be accessed through the PCIe extended configuration mechanism.
    pub enable_pcie: bool,
}

impl I440Fx {
    /// Two 440FX chipsets allow migration between them exactly when their
    /// PCIe settings agree.
    pub open spec fn compatible_with(self, other: Self) -> bool {
        self.enable_pcie == other.enable_pcie
    }

    /// Decides whether a VM with this chipset can continue on a host whose
    /// chipset is described by `other`.
    pub fn can_migrate_from_element(&self, other: &Self) -> (r: Result<
        (),
        ElementCompatibilityError,
    >)
        ensures
            r is Ok <==> self.compatible_with(*other),
            r matches Err(e) ==> e == ElementCompatibilityError::BoardsIncompatible(
                MigrationCompatibilityError::PcieMismatch(self.enable_pcie, other.enable_pcie),
            ),
    {
        if self.enable_pcie != other.enable_pcie {
            Err(
                ElementCompatibilityError::BoardsIncompatible(
                    MigrationCompatibilityError::PcieMismatch(
                        self.enable_pcie,
                        other.enable_pcie,
                    ),
                ),
            )
        } else {
            Ok(())
        }
    }
}

/// A kind of virtual chipset.
#[derive(Clone, Copy, Debug, PartialEq, Eq, Structural)]
pub enum Chipset {
    /// An Intel 440FX-compatible chipset.
    I440Fx(I440Fx),
}

impl Chipset {
    /// Chipset compatibility: the variants must match and the variant's own
    /// rule must hold. With a single variant this reduces to the 440FX rule.
    pub open spec fn compatible_with(self, other: Self) -> bool {
        match (self, other) {
            (Chipset::I440Fx(a), Chipset::I440Fx(b)) => a.compatible_with(b),
        }
    }

    /// Decides whether a VM with this chipset kind can continue on a host
    /// whose chipset kind is described by `other`.
    pub fn can_migrate_from_element(&self, other: &Self) -> (r: Result<
        (),
        ElementCompatibilityError,
    >)
        ensures
            r is Ok <==> self.compatible_with(*other),
            r matches Err(e) ==> (match (*self, *other) {
                (Chipset::I440Fx(a), Chipset::I440Fx(b)) => e
                    == ElementCompatibilityError::BoardsIncompatible(
                    MigrationCompatibilityError::PcieMismatch(a.enable_pcie, b.enable_pcie),
                ),
            }),
    {
        let (Chipset::I440Fx(this), Chipset::I440Fx(other)) = (self, other);
        this.can_migrate_from_element(other)
    }
}

/// A single CPUID entry: the leaf (and optional subleaf) being described and
/// the register values the guest should see for it.
#[derive(Clone, Copy, Debug, PartialEq, Eq, PartialOrd, Ord)]
pub struct CpuidEntry {
    /// The leaf/function ID (passed in eax).
    pub leaf: u32,
    /// An optional subleaf/index ID (passed in ecx).
    pub subleaf: Option<u32>,
    /// The value to return in eax.
    pub eax: u32,
    /// The value to return in ebx.
    pub ebx: u32,
    /// The value to return in ecx.
    pub ecx: u32,
    /// The value to return in edx.
    pub edx: u32,
}

/// Orders optional subleaves: an absent subleaf sorts before any present one,
/// and present subleaves sort by value.
pub open spec fn subleaf_le(a: Option<u32>, b: Option<u32>) -> bool {
    match (a, b) {
        (Option::None, _) => true,
        (Option::Some(_), Option::None) => false,
        (Option::Some(x), Option::Some(y)) => x <= y,
    }
}

/// The total order on CPUID entries: lexicographic over
/// `(leaf, subleaf, eax, ebx, ecx, edx)`. It is used only to canonicalize the
/// order in which two entry lists are compared, and carries no semantics.
pub open spec fn entry_le(a: CpuidEntry, b: CpuidEntry) -> bool {
    if a.leaf != b.leaf {
        a.leaf < b.leaf
    } else if a.subleaf != b.subleaf {
        subleaf_le(a.subleaf, b.subleaf)
    } else if a.eax != b.eax {
        a.eax < b.eax
    } else if a.ebx != b.ebx {
        a.ebx < b.ebx
    } else if a.ecx != b.ecx {
        a.ecx < b.ecx
    } else {
        a.edx <= b.edx
    }
}

/// `entry_le` as a first-class relation, for use with `sorted_by`.
pub open spec fn entry_order() -> spec_fn(CpuidEntry, CpuidEntry) -> bool {
    |a: CpuidEntry, b: CpuidEntry| entry_le(a, b)
}

/// The canonical form of an explicit CPUID entry list: its entries arranged
/// in the canonical total order.
pub open spec fn canonical_entries(s: Seq<CpuidEntry>) -> Seq<CpuidEntry> {
    s.sort_by(entry_order())
}

/// The entry order is a total order: reflexive, transitive, antisymmetric
/// and strongly connected.
pub proof fn lemma_entry_order_total()
    ensures
        total_ordering(entry_order()),
{
    let leq = entry_order();
    assert forall|a: CpuidEntry, b: CpuidEntry| #[trigger] leq(a, b) && leq(b, a) implies a
        == b by {
        assert(subleaf_le(a.subleaf, b.subleaf) && subleaf_le(b.subleaf, a.subleaf) ==> a.subleaf
            == b.subleaf);
    }
    assert forall|a: CpuidEntry, b: CpuidEntry, c: CpuidEntry|
        #[trigger] leq(a, b) && #[trigger] leq(b, c) implies leq(a, c) by {
        assert(subleaf_le(a.subleaf, b.subleaf) && subleaf_le(b.subleaf, c.subleaf)
            ==> subleaf_le(a.subleaf, c.subleaf));
    }
    assert forall|a: CpuidEntry, b: CpuidEntry| !(#[trigger] leq(a, b)) implies leq(b, a) by {
        assert(!subleaf_le(a.subleaf, b.subleaf) ==> subleaf_le(b.subleaf, a.subleaf));
    }
}

impl CpuidEntry {
    /// Compares two entries in the canonical entry order.
    pub fn le(&self, other: &Self) -> (r: bool)
        ensures
            r == entry_le(*self, *other),
    {
        if self.leaf != other.leaf {
            self.leaf < other.leaf
        } else if self.subleaf != other.subleaf {
            match (self.subleaf, other.subleaf) {
                (None, _) => true,
                (Some(_), None) => false,
                (Some(x), Some(y)) => x <= y,
            }
        } else if self.eax != other.eax {
            self.eax < other.eax
        } else if self.ebx != other.ebx {
            self.ebx < other.ebx
        } else if self.ecx != other.ecx {
            self.ecx < other.ecx
        } else {
            self.edx <= other.edx
        }
    }

    /// Compares two entries bit for bit.
    pub fn same_entry(&self, other: &Self) -> (r: bool)
        ensures
            r == (*self == *other),
    {
        self.leaf == other.leaf && self.subleaf == other.subleaf && self.eax == other.eax
            && self.ebx == other.ebx && self.ecx == other.ecx && self.edx == other.edx
    }

    /// Entry compatibility is bit-for-bit equality: CPUID values are part of
    /// the guest-visible machine and may not change across a migration.
    pub open spec fn compatible_with(self, other: Self) -> bool {
        self == other
    }

    /// Decides whether a CPUID entry of a running VM may be continued by
    /// `other` on the target.
    pub fn can_migrate_from_element(&self, other: &Self) -> (r: Result<
        (),
        ElementCompatibilityError,
    >)
        ensures
            r is Ok <==> self.compatible_with(*other),
            r matches Err(e) ==> e == ElementCompatibilityError::BoardsIncompatible(
                MigrationCompatibilityError::CpuidEntryMismatch(*self, *other),
            ),
    {
        if !self.same_entry(other) {
            Err(
                ElementCompatibilityError::BoardsIncompatible(
                    MigrationCompatibilityError::CpuidEntryMismatch(*self, *other),
                ),
            )
        } else {
            Ok(())
        }
    }
}

/// Sorts CPUID entries into the canonical order by insertion sort. The
/// result holds exactly the entries of the input, in order.
fn sort_entries(v: &Vec<CpuidEntry>) -> (r: Vec<CpuidEntry>)
    ensures
        r@.to_multiset() == v@.to_multiset(),
        sorted_by(r@, entry_order()),
        r@.len() == v@.len(),
{
    proof {
        lemma_entry_order_total();
        broadcast use vstd::seq_lib::group_to_multiset_ensures;

        assert(v@.subrange(0, 0) =~= Seq::<CpuidEntry>::empty());
        assert(Seq::<CpuidEntry>::empty().to_multiset() =~= Multiset::<CpuidEntry>::empty());
    }
    let mut out: Vec<CpuidEntry> = Vec::new();
    let mut i: usize = 0;
    while i < v.len()
        invariant
            i <= v.len(),
            sorted_by(out@, entry_order()),
            out@.to_multiset() == v@.subrange(0, i as int).to_multiset(),
            out@.len() == i,
        decreases v.len() - i,
    {
        let x = v[i];
        let mut j: usize = 0;
        while j < out.len() && out[j].le(&x)
            invariant
                j <= out.len(),
                forall|k: int| 0 <= k < j ==> entry_le(out@[k], x),
            decreases out.len() - j,
        {
            j += 1;
        }
        let ghost prev = out@;
        out.insert(j, x);
        proof {
            lemma_entry_order_total();
            broadcast use vstd::seq_lib::group_to_multiset_ensures;

            let leq = entry_order();
            assert(out@ =~= prev.subrange(0, j as int).push(x) + prev.subrange(
                j as int,
                prev.len() as int,
            ));
            assert(forall|k: int| 0 <= k < j ==> out@[k] == prev[k]);
            assert(out@[j as int] == x);
            assert(forall|k: int| j < k < out@.len() ==> out@[k] == prev[k - 1]);
            assert forall|p: int, q: int| 0 <= p < q < out@.len() implies leq(
                out@[p],
                out@[q],
            ) by {
                if q < j {
                    assert(leq(prev[p], prev[q]));
                } else if q == j {
                    assert(leq(prev[p], x));
                } else if p == j {
                    // The scan stopped at j, so x precedes the old entry at j.
                    assert(!leq(prev[j as int], x));
                    assert(leq(x, prev[j as int]));
                    if q - 1 > j {
                        assert(leq(prev[j as int], prev[q - 1]));
                    }
                } else if p < j {
                    assert(leq(prev[p], prev[q - 1]));
                } else {
                    assert(leq(prev[p - 1], prev[q - 1]));
                }
            }
            assert(out@.to_multiset() =~= prev.to_multiset().insert(x));
            assert(v@.subrange(0, i + 1) =~= v@.subrange(0, i as int).push(x));
            assert(v@.subrange(0, i + 1).to_multiset() =~= v@.subrange(
                0,
                i as int,
            ).to_multiset().insert(x));
        }
        i += 1;
    }
    proof {
        assert(v@.subrange(0, v@.len() as int) =~= v@);
    }
    out
}

/// Two sequences sorted in the canonical entry order that hold the same
/// entries (as a multiset) are identical. This is what lets an order-blind
/// comparison of CPUID lists be decided by sorting and comparing pointwise.
pub proof fn lemma_sorted_multiset_unique(a: Seq<CpuidEntry>, b: Seq<CpuidEntry>)
    requires
        sorted_by(a, entry_order()),
        sorted_by(b, entry_order()),
        a.to_multiset() == b.to_multiset(),
    ensures
        a == b,
    decreases a.len(),
{
    lemma_entry_order_total();
    broadcast use vstd::seq_lib::group_to_multiset_ensures;

    let leq = entry_order();
    vstd::seq_lib::to_multiset_len(a);
    vstd::seq_lib::to_multiset_len(b);
    assert(a.len() == b.len());
    if a.len() == 0 {
        assert(a =~= b);
    } else {
        assert(a.contains(a[0])) by {
            assert(a[0] == a[0]);
        }
        assert(b.contains(b[0])) by {
            assert(b[0] == b[0]);
        }
        assert(a.to_multiset().count(a[0]) > 0);
        assert(b.to_multiset().count(b[0]) > 0);
        assert(b.to_multiset().count(a[0]) > 0);
        assert(a.to_multiset().count(b[0]) > 0);
        assert(b.contains(a[0]));
        assert(a.contains(b[0]));
        let bi = choose|bi: int| 0 <= bi < b.len() && b[bi] == a[0];
        let ai = choose|ai: int| 0 <= ai < a.len() && a[ai] == b[0];
        assert(leq(b[0], a[0]));
        assert(leq(a[0], b[0]));
        assert(a[0] == b[0]);
        let at = a.remove(0);
        let bt = b.remove(0);
        assert(at.to_multiset() == bt.to_multiset()) by {
            assert(at.to_multiset() =~= a.to_multiset().remove(a[0]));
            assert(bt.to_multiset() =~= b.to_multiset().remove(b[0]));
        }
        assert(sorted_by(at, leq)) by {
            assert(forall|k: int| 0 <= k < at.len() ==> at[k] == a[k + 1]);
        }
        assert(sorted_by(bt, leq)) by {
            assert(forall|k: int| 0 <= k < bt.len() ==> bt[k] == b[k + 1]);
        }
        lemma_sorted_multiset_unique(at, bt);
        assert(a =~= b) by {
            assert(forall|k: int| 0 < k < a.len() ==> a[k] == at[k - 1] && b[k] == bt[k - 1]);
        }
    }
}

/// The CPUID values to expose to the guest.
#[derive(Clone, Debug, PartialEq, Eq)]
pub enum Cpuid {
    /// Use the host hypervisor's default CPUID values.
    BhyveDefault,
    /// Use an explicit set of CPUID values. The order of the entries carries
    /// no meaning; only the set of entries does.
    Entries(Vec<CpuidEntry>),
}

impl Default for Cpuid {
    /// The default policy exposes the hypervisor's own CPUID values.
    fn default() -> (r: Self)
        ensures
            r == Cpuid::BhyveDefault,
    {
        Cpuid::BhyveDefault
    }
}

impl Cpuid {
    /// The name of this CPUID policy, as reported in mode-mismatch errors.
    pub open spec fn mode_name(self) -> Seq<char> {
        if self is BhyveDefault {
            "bhyve"@
        } else {
            "explicit"@
        }
    }

    /// Returns the name of this CPUID policy.
    pub fn mode(&self) -> (r: &'static str)
        ensures
            r@ == self.mode_name(),
    {
        match self {
            Cpuid::BhyveDefault => "bhyve",
            Cpuid::Entries(_) => "explicit",
        }
    }

    /// CPUID compatibility: both sides must use the same policy, and when
    /// both carry explicit entries the two lists must hold exactly the same
    /// entries, in any order.
    pub open spec fn compatible_with(self, other: Self) -> bool {
        match (self, other) {
            (Cpuid::BhyveDefault, Cpuid::BhyveDefault) => true,
            (Cpuid::Entries(a), Cpuid::Entries(b)) => a@.to_multiset() == b@.to_multiset(),
            _ => false,
        }
    }

    /// True when `e` is the error this pair of CPUID policies reports when
    /// they are incompatible. The three cases are exclusive: a mode
    /// mismatch when the policies differ in kind, a length mismatch (with
    /// both lengths) when both lists are explicit but unequally long, and
    /// otherwise the first differing pair of the two canonically ordered
    /// lists.
    pub open spec fn error_describes(self, other: Self, e: MigrationCompatibilityError) -> bool {
        match e {
            MigrationCompatibilityError::CpuidModeMismatch(m1, m2) => {
                &&& self is BhyveDefault <==> !(other is BhyveDefault)
                &&& m1@ == self.mode_name()
                &&& m2@ == other.mode_name()
            },
            MigrationCompatibilityError::CpuidEntryLengthMismatch(l1, l2) => {
                &&& self matches Cpuid::Entries(a) && a@.len() == l1
                &&& other matches Cpuid::Entries(b) && b@.len() == l2
                &&& l1 != l2
            },
            MigrationCompatibilityError::CpuidEntryMismatch(x, y) => {
                &&& self matches Cpuid::Entries(a) && (other matches Cpuid::Entries(b) && {
                    let sa = canonical_entries(a@);
                    let sb = canonical_entries(b@);
                    &&& a@.len() == b@.len()
                    &&& a@.to_multiset() != b@.to_multiset()
                    &&& x != y
                    &&& exists|i: int|
                        0 <= i < sa.len() && #[trigger] sa[i] == x && sb[i] == y && (forall|t: int|
                            0 <= t < i ==> sa[t] == sb[t])
                })
            },
            _ => false,
        }
    }

    /// Decides whether the CPUID policy of a running VM may be continued by
    /// `other` on the target, insensitive to entry order.
    pub fn can_migrate_from_element(&self, other: &Self) -> (r: Result<
        (),
        ElementCompatibilityError,
    >)
        ensures
            r is Ok <==> self.compatible_with(*other),
            r matches Err(e) ==> e matches ElementCompatibilityError::BoardsIncompatible(be)
                && self.error_describes(*other, be),
    {
        match self {
            Cpuid::BhyveDefault => match other {
                Cpuid::BhyveDefault => Ok(()),
                Cpuid::Entries(_) => Err(
                    ElementCompatibilityError::BoardsIncompatible(
                        MigrationCompatibilityError::CpuidModeMismatch(self.mode(), other.mode()),
                    ),
                ),
            },
            Cpuid::Entries(entries) => match other {
                Cpuid::BhyveDefault => Err(
                    ElementCompatibilityError::BoardsIncompatible(
                        MigrationCompatibilityError::CpuidModeMismatch(self.mode(), other.mode()),
                    ),
                ),
                Cpuid::Entries(other_entries) => {
                if entries.len() != other_entries.len() {
                    proof {
                        broadcast use vstd::seq_lib::group_to_multiset_ensures;

                        assert(entries@.to_multiset().len() == entries@.len());
                        assert(other_entries@.to_multiset().len() == other_entries@.len());
                    }
                    return Err(
                        ElementCompatibilityError::BoardsIncompatible(
                            MigrationCompatibilityError::CpuidEntryLengthMismatch(
                                entries.len(),
                                other_entries.len(),
                            ),
                        ),
                    );
                }
                let sorted_self = sort_entries(entries);
                let sorted_other = sort_entries(other_entries);
                let mut k: usize = 0;
                while k < sorted_self.len()
                    invariant
                        k <= sorted_self.len(),
                        sorted_self@.len() == sorted_other@.len(),
                        sorted_self@.to_multiset() == entries@.to_multiset(),
                        sorted_other@.to_multiset() == other_entries@.to_multiset(),
                        sorted_by(sorted_self@, entry_order()),
                        sorted_by(sorted_other@, entry_order()),
                        forall|t: int| 0 <= t < k ==> sorted_self@[t] == sorted_other@[t],
                        self matches Cpuid::Entries(sv) && sv@ == entries@,
                        other matches Cpuid::Entries(ov) && ov@ == other_entries@,
                    decreases sorted_self@.len() - k,
                {
                    if !sorted_self[k].same_entry(&sorted_other[k]) {
                        proof {
                            broadcast use vstd::seq_lib::group_to_multiset_ensures;

                            lemma_entry_order_total();
                            if entries@.to_multiset() == other_entries@.to_multiset() {
                                lemma_sorted_multiset_unique(sorted_self@, sorted_other@);
                                assert(sorted_self@[k as int] == sorted_other@[k as int]);
                                assert(false);
                            }
                            assert(entries@.to_multiset() != other_entries@.to_multiset());
                            entries@.lemma_sort_by_ensures(entry_order());
                            other_entries@.lemma_sort_by_ensures(entry_order());
                            assert(sorted_self@.to_multiset() == canonical_entries(
                                entries@,
                            ).to_multiset());
                            assert(sorted_other@.to_multiset() == canonical_entries(
                                other_entries@,
                            ).to_multiset());
                            lemma_sorted_multiset_unique(
                                sorted_self@,
                                canonical_entries(entries@),
                            );
                            lemma_sorted_multiset_unique(
                                sorted_other@,
                                canonical_entries(other_entries@),
                            );
                            let e = MigrationCompatibilityError::CpuidEntryMismatch(
                                sorted_self@[k as int],
                                sorted_other@[k as int],
                            );
                            assert(self.error_describes(*other, e)) by {
                                match *self {
                                    Cpuid::Entries(av) => {
                                        match *other {
                                            Cpuid::Entries(bv) => {
                                                let sa = canonical_entries(av@);
                                                let sb = canonical_entries(bv@);
                                                assert(av@ == entries@ && bv@ == other_entries@);
                                                assert(sa == sorted_self@ && sb == sorted_other@);
                                                assert(entries@.to_multiset().len()
                                                    == entries@.len());
                                                assert(other_entries@.to_multiset().len()
                                                    == other_entries@.len());
                                                assert(sorted_self@.to_multiset().len()
                                                    == sorted_self@.len());
                                                assert(sorted_other@.to_multiset().len()
                                                    == sorted_other@.len());
                                                assert(av@.len() == bv@.len());
                                                assert(exists|i: int|
                                                    0 <= i < sa.len() && #[trigger] sa[i]
                                                        == sorted_self@[k as int] && sb[i]
                                                        == sorted_other@[k as int] && (
                                                    forall|t: int|
                                                        0 <= t < i ==> sa[t] == sb[t])) by {
                                                    assert(sa[k as int] == sorted_self@[
                                                        k as int
                                                    ]);
                                                    assert(sb[k as int] == sorted_other@[
                                                        k as int
                                                    ]);
                                                    assert(forall|t: int|
                                                        0 <= t < k ==> sa[t] == sb[t]);
                                                }
                                            },
                                            _ => {},
                                        }
                                    },
                                    _ => {},
                                }
                            }
                        }
                        return Err(
                            ElementCompatibilityError::BoardsIncompatible(
                                MigrationCompatibilityError::CpuidEntryMismatch(
                                    sorted_self[k],
                                    sorted_other[k],
                                ),
                            ),
                        );
                    }
                    k += 1;
                }
                proof {
                    assert(sorted_self@ =~= sorted_other@);
                }
                Ok(())
                },
            },
        }
    }
}

/// A VM's mainboard.
#[derive(Clone, Debug, PartialEq, Eq)]
pub struct Board {
    /// The number of virtual logical processors attached to this VM.
    pub cpus: u8,
    /// The amount of guest RAM attached to this VM, in mebibytes.
    pub memory_mb: u64,
    /// The chipset to expose to guest software.
    pub chipset: Chipset,
    /// The VM's CPUID policy.
    pub cpuid: Cpuid,
}

impl Default for Board {
    /// An empty board: no CPUs, no memory, a 440FX chipset with PCIe
    /// disabled, and default CPUID values.
    fn default() -> (r: Self)
        ensures
            r.cpus == 0,
            r.memory_mb == 0,
            r.chipset == Chipset::I440Fx(I440Fx { enable_pcie: false }),
            r.cpuid == Cpuid::BhyveDefault,
    {
        Board {
            cpus: 0,
            memory_mb: 0,
            chipset: Chipset::I440Fx(I440Fx { enable_pcie: false }),
            cpuid: Cpuid::BhyveDefault,
        }
    }
}

impl Board {
    /// Board compatibility: CPU count, memory size, chipset and CPUID policy
    /// must all be compatible.
    pub open spec fn compatible_with(self, other: Self) -> bool {
        &&& self.cpus == other.cpus
        &&& self.memory_mb == other.memory_mb
        &&& self.chipset.compatible_with(other.chipset)
        &&& self.cpuid.compatible_with(other.cpuid)
    }

    /// True when `e` is the error this pair of boards reports: the first
    /// mismatch in the fixed comparison order CPU count, memory size,
    /// chipset, CPUID.
    pub open spec fn error_describes(self, other: Self, e: ElementCompatibilityError) -> bool {
        e matches ElementCompatibilityError::BoardsIncompatible(be) && (if self.cpus != other.cpus {
            be == MigrationCompatibilityError::CpuCount(self.cpus, other.cpus)
        } else if self.memory_mb != other.memory_mb {
            be == MigrationCompatibilityError::MemorySize(self.memory_mb, other.memory_mb)
        } else if !self.chipset.compatible_with(other.chipset) {
            match (self.chipset, other.chipset) {
                (Chipset::I440Fx(a), Chipset::I440Fx(b)) => be
                    == MigrationCompatibilityError::PcieMismatch(a.enable_pcie, b.enable_pcie),
            }
        } else {
            self.cpuid.error_describes(other.cpuid, be)
        })
    }

    /// Decides whether a VM running on this board can continue on a host
    /// whose board is described by `other`. Sub-elements are compared in a
    /// fixed order — CPU count, memory size, chipset, CPUID — and the first
    /// mismatch is reported.
    pub fn can_migrate_from_element(&self, other: &Self) -> (r: Result<
        (),
        ElementCompatibilityError,
    >)
        ensures
            r is Ok <==> self.compatible_with(*other),
            r matches Err(e) ==> self.error_describes(*other, e),
    {
        if self.cpus != other.cpus {
            Err(
                ElementCompatibilityError::BoardsIncompatible(
                    MigrationCompatibilityError::CpuCount(self.cpus, other.cpus),
                ),
            )
        } else if self.memory_mb != other.memory_mb {
            Err(
                ElementCompatibilityError::BoardsIncompatible(
                    MigrationCompatibilityError::MemorySize(self.memory_mb, other.memory_mb),
                ),
            )
        } else if let Err(e) = self.chipset.can_migrate_from_element(&other.chipset) {
            Err(e)
        } else if let Err(e) = self.cpuid.can_migrate_from_element(&other.cpuid) {
            Err(e)
        } else {
            Ok(())
        }
    }
}

/// A structured description of why two boards cannot be migrated between.
/// Each variant carries the two compared values, self side first.
#[derive(Clone, Copy, Debug)]
pub enum MigrationCompatibilityError {
    /// The boards have different CPU counts.
    CpuCount(u8, u8),
    /// The boards have different amounts of guest RAM.
    MemorySize(u64, u64),
    /// The chipsets have different PCIe settings.
    PcieMismatch(bool, bool),
    /// One board uses default CPUID values and the other an explicit list.
    /// Carries the two mode names.
    CpuidModeMismatch(&'static str, &'static str),
    /// Both boards carry explicit CPUID entry lists, of different lengths.
    CpuidEntryLengthMismatch(usize, usize),
    /// The canonically-ordered CPUID entry lists differ; carries the first
    /// differing pair.
    CpuidEntryMismatch(CpuidEntry, CpuidEntry),
}


/// Order-insensitivity of explicit CPUID lists: any two lists holding the
/// same entries, in any order, are migration-compatible.
pub proof fn lemma_cpuid_order_insensitive(a: Vec<CpuidEntry>, b: Vec<CpuidEntry>)
    requires
        a@.to_multiset() == b@.to_multiset(),
    ensures
        Cpuid::Entries(a).compatible_with(Cpuid::Entries(b)),
{
}

} // verus!
