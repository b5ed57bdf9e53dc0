use vstd::prelude::*;

verus! {

/// What the firmware reports a physical memory region to be used for.
#[derive(Clone, Copy, Debug, PartialEq, Eq, Structural)]
pub enum MemoryKind {
    Usable,
    Reserved,
    AcpiReclaimable,
    AcpiNvs,
    BadMemory,
    BootloaderReclaimable,
    KernelAndModules,
    Framebuffer,
}

/// One entry of the boot memory map: `len` bytes starting at physical `base`.
#[derive(Clone, Copy, Debug, PartialEq, Eq, Structural)]
pub struct MemoryRegion {
    pub base: u64,
    pub len: u64,
    pub kind: MemoryKind,
}

/// Total length of the usable entries.
pub open spec fn usable_total(regions: Seq<MemoryRegion>) -> nat
    decreases regions.len(),
{
    if regions.len() == 0 {
        0
    } else {
        usable_total(regions.drop_last()) + if regions.last().kind == MemoryKind::Usable {
            regions.last().len as nat
        } else {
            0nat
        }
    }
}

/// Number of usable entries.
pub open spec fn usable_count(regions: Seq<MemoryRegion>) -> nat
    decreases regions.len(),
{
    if regions.len() == 0 {
        0
    } else {
        usable_count(regions.drop_last()) + if regions.last().kind == MemoryKind::Usable {
            1nat
        } else {
            0nat
        }
    }
}

proof fn lemma_usable_bounds(regions: Seq<MemoryRegion>)
    ensures
        usable_count(regions) <= regions.len(),
        usable_total(regions) <= regions.len() * 0xFFFF_FFFF_FFFF_FFFFnat,
    decreases regions.len(),
{
    if regions.len() > 0 {
        lemma_usable_bounds(regions.drop_last());
        assert(regions.drop_last().len() * 0xFFFF_FFFF_FFFF_FFFFnat + 0xFFFF_FFFF_FFFF_FFFFnat
            == regions.len() * 0xFFFF_FFFF_FFFF_FFFFnat) by (nonlinear_arith)
            requires
                regions.drop_last().len() + 1 == regions.len(),
        ;
    }
}

/// The free memory the map reports: the total length of the usable entries and
/// how many there are.
pub fn get_free_mem_size(regions: &[MemoryRegion]) -> (r: (u128, u64))
    ensures
        r.0 == usable_total(regions@),
        r.1 == usable_count(regions@),
{
    let mut total_sections: u64 = 0;
    let mut total: u128 = 0;
    let mut i: usize = 0;
    while i < regions.len()
        invariant
            0 <= i <= regions.len(),
            total == usable_total(regions@.take(i as int)),
            total_sections == usable_count(regions@.take(i as int)),
        decreases regions.len() - i,
    {
        let entry = regions[i];
        proof {
            assert(regions@.take(i + 1).drop_last() =~= regions@.take(i as int));
            lemma_usable_bounds(regions@.take(i as int));
            assert(i * 0xFFFF_FFFF_FFFF_FFFFnat <= 0xFFFF_FFFF_FFFF_FFFFnat * 0xFFFF_FFFF_FFFF_FFFFnat)
                by (nonlinear_arith)
                requires
                    i <= 0xFFFF_FFFF_FFFF_FFFFnat,
            ;
        }
        match entry.kind {
            MemoryKind::Usable => {
                total = total + entry.len as u128;
                total_sections = total_sections + 1;
            },
            _ => (),
        }
        i = i + 1;
    }
    assert(regions@.take(regions.len() as int) =~= regions@);
    (total, total_sections)
}

/// One past the highest address an entry reaches; 0 for an empty map.
pub open spec fn region_end_max(regions: Seq<MemoryRegion>) -> int
    decreases regions.len(),
{
    if regions.len() == 0 {
        0
    } else {
        let rest = region_end_max(regions.drop_last());
        let end = regions.last().base + regions.last().len;
        if end > rest {
            end
        } else {
            rest
        }
    }
}

/// The size of memory the map spans: one past the highest address an entry
/// reaches. No entry may reach past the `u64` range.
pub fn memory_end(regions: &[MemoryRegion]) -> (size: u64)
    requires
        forall|i: int| 0 <= i < regions@.len() ==> (#[trigger] regions@[i]).base + regions@[i].len
            <= u64::MAX,
    ensures
        size == region_end_max(regions@),
{
    let mut size: u64 = 0;
    let mut i: usize = 0;
    while i < regions.len()
        invariant
            0 <= i <= regions.len(),
            forall|j: int| 0 <= j < regions@.len() ==> (#[trigger] regions@[j]).base
                + regions@[j].len <= u64::MAX,
            size == region_end_max(regions@.take(i as int)),
        decreases regions.len() - i,
    {
        let entry = regions[i];
        proof {
            assert(regions@.take(i + 1).drop_last() =~= regions@.take(i as int));
            assert(regions@[i as int] == entry);
        }
        if (entry.base + entry.len) > size {
            size = entry.base + entry.len;
        }
        i = i + 1;
    }
    assert(regions@.take(regions.len() as int) =~= regions@);
    size
}

/// `k` is the first entry of the given kind.
pub open spec fn is_first_of_kind(regions: Seq<MemoryRegion>, kind: MemoryKind, k: int) -> bool {
    &&& 0 <= k < regions.len()
    &&& regions[k].kind == kind
    &&& forall|j: int| 0 <= j < k ==> (#[trigger] regions[j]).kind != kind
}

/// `k` is the last entry of the given kind.
pub open spec fn is_last_of_kind(regions: Seq<MemoryRegion>, kind: MemoryKind, k: int) -> bool {
    &&& 0 <= k < regions.len()
    &&& regions[k].kind == kind
    &&& forall|j: int| k < j < regions.len() ==> (#[trigger] regions[j]).kind != kind
}

/// The first entry of the given kind, if there is one.
pub fn find_first(regions: &[MemoryRegion], kind: MemoryKind) -> (r: Option<MemoryRegion>)
    ensures
        match r {
            Some(e) => exists|k: int| is_first_of_kind(regions@, kind, k) && regions@[k] == e,
            None => forall|j: int| 0 <= j < regions@.len() ==> (#[trigger] regions@[j]).kind != kind,
        },
{
    let mut i: usize = 0;
    while i < regions.len()
        invariant
            0 <= i <= regions.len(),
            forall|j: int| 0 <= j < i ==> (#[trigger] regions@[j]).kind != kind,
        decreases regions.len() - i,
    {
        if regions[i].kind == kind {
            assert(is_first_of_kind(regions@, kind, i as int));
            return Some(regions[i]);
        }
        i = i + 1;
    }
    None
}

/// The last entry of the given kind, if there is one.
pub fn find_last(regions: &[MemoryRegion], kind: MemoryKind) -> (r: Option<MemoryRegion>)
    ensures
        match r {
            Some(e) => exists|k: int| is_last_of_kind(regions@, kind, k) && regions@[k] == e,
            None => forall|j: int| 0 <= j < regions@.len() ==> (#[trigger] regions@[j]).kind != kind,
        },
{
    let mut found: Option<MemoryRegion> = None;
    let ghost mut at: int = -1;
    let mut i: usize = 0;
    while i < regions.len()
        invariant
            0 <= i <= regions.len(),
            match found {
                Some(e) => 0 <= at < i && regions@[at] == e && regions@[at].kind == kind
                    && forall|j: int| at < j < i ==> (#[trigger] regions@[j]).kind != kind,
                None => forall|j: int| 0 <= j < i ==> (#[trigger] regions@[j]).kind != kind,
            },
        decreases regions.len() - i,
    {
        if regions[i].kind == kind {
            found = Some(regions[i]);
            proof {
                at = i as int;
            }
        }
        i = i + 1;
    }
    if found.is_some() {
        assert(is_last_of_kind(regions@, kind, at));
    }
    found
}

/// The first entry of the given kind, if any (what `find_first` returns).
pub open spec fn find_first_spec(regions: Seq<MemoryRegion>, kind: MemoryKind) -> Option<MemoryRegion> {
    if exists|k: int| is_first_of_kind(regions, kind, k) {
        Some(regions[choose|k: int| is_first_of_kind(regions, kind, k)])
    } else {
        None
    }
}

/// The last entry of the given kind, if any (what `find_last` returns).
pub open spec fn find_last_spec(regions: Seq<MemoryRegion>, kind: MemoryKind) -> Option<MemoryRegion> {
    if exists|k: int| is_last_of_kind(regions, kind, k) {
        Some(regions[choose|k: int| is_last_of_kind(regions, kind, k)])
    } else {
        None
    }
}

/// Free memory counts the usable entries only: an empty map has none; an
/// appended usable entry adds its length and one entry; an appended entry of
/// any other kind changes neither the total nor the count.
pub proof fn law_free_memory_is_usable_only(regions: Seq<MemoryRegion>, e: MemoryRegion)
    ensures
        usable_total(Seq::<MemoryRegion>::empty()) == 0,
        usable_count(Seq::<MemoryRegion>::empty()) == 0,
        e.kind == MemoryKind::Usable ==> usable_total(regions.push(e)) == usable_total(regions)
            + e.len && usable_count(regions.push(e)) == usable_count(regions) + 1,
        e.kind != MemoryKind::Usable ==> usable_total(regions.push(e)) == usable_total(regions)
            && usable_count(regions.push(e)) == usable_count(regions),
{
    assert(regions.push(e).drop_last() =~= regions);
}

/// Free memory is the total length of the usable entries in any order of
/// concatenation: the map's two halves add up.
pub proof fn law_free_memory_adds_up(a: Seq<MemoryRegion>, b: Seq<MemoryRegion>)
    ensures
        usable_total(a + b) == usable_total(a) + usable_total(b),
        usable_count(a + b) == usable_count(a) + usable_count(b),
    decreases b.len(),
{
    if b.len() == 0 {
        assert(a + b =~= a);
    } else {
        law_free_memory_adds_up(a, b.drop_last());
        assert((a + b).drop_last() =~= a + b.drop_last());
    }
}

/// The memory size the map spans reaches at least one past the end of every
/// entry, whatever its kind, and is exactly the end of one of them when the
/// map is not empty (0 when it is).
pub proof fn law_memory_end_is_highest_end(regions: Seq<MemoryRegion>)
    ensures
        forall|i: int|
            0 <= i < regions.len() ==> (#[trigger] regions[i]).base + regions[i].len
                <= region_end_max(regions),
        regions.len() == 0 ==> region_end_max(regions) == 0,
        regions.len() > 0 ==> exists|i: int|
            0 <= i < regions.len() && (#[trigger] regions[i]).base + regions[i].len
                == region_end_max(regions),
    decreases regions.len(),
{
    if regions.len() > 0 {
        let rest = regions.drop_last();
        law_memory_end_is_highest_end(rest);
        assert forall|i: int| 0 <= i < regions.len() implies (#[trigger] regions[i]).base
            + regions[i].len <= region_end_max(regions) by {
            if i < regions.len() - 1 {
                assert(regions[i] == rest[i]);
            }
        }
        let last = regions.len() - 1;
        if regions[last].base + regions[last].len >= region_end_max(rest) {
            assert(regions[last].base + regions[last].len == region_end_max(regions));
        } else {
            let j = choose|j: int|
                0 <= j < rest.len() && (#[trigger] rest[j]).base + rest[j].len == region_end_max(
                    rest,
                );
            assert(regions[j] == rest[j]);
        }
    }
}

} // verus!
