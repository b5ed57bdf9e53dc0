use vstd::prelude::*;
use x86_64::{PhysAddr, VirtAddr};
use crate::memory::memmap::{
    find_first, find_first_spec, find_last, find_last_spec, MemoryKind, MemoryRegion,
};

pub use crate::memory::memmap::get_free_mem_size;

verus! {

/// One past the largest physical address x86_64 accepts (bits 52..64 clear).
pub const PHYS_LIMIT: u64 = 0x10_0000_0000_0000;

/// Size of a page and of a page table.
pub const PAGE_SIZE: u64 = 4096;

/// Virtual address at which the framebuffer is mapped.
pub const FRAMEBUFFER_VIRT: u64 = 0xffff_ffff_8000_0000;

/// Number of framebuffer pages the kernel maps.
pub const FRAMEBUFFER_PAGES: u64 = 4;

/// `addr` is accepted by `VirtAddr::new`: bits 47..64 are all clear, all set,
/// or only bit 47 is set (which then gets sign-extended).
pub open spec fn valid_virt(addr: u64) -> bool {
    let high = addr >> 47u64;
    high == 0 || high == 1 || high == 0x1ffffu64
}

/// `addr` with bit 47 copied into bits 48..64.
pub open spec fn canonical(addr: u64) -> u64 {
    if (addr >> 47u64) & 1u64 == 1u64 {
        addr | 0xffff_8000_0000_0000u64
    } else {
        addr & 0x0000_7fff_ffff_ffffu64
    }
}

/// `x86_64::PhysAddr::new`: the address unchanged; it panics when a bit in
/// 52..64 is set, which `requires` rules out.
#[verifier::external_body]
fn phys_addr(addr: u64) -> (r: u64)
    requires
        addr < PHYS_LIMIT,
    ensures
        r == addr,
{
    PhysAddr::new(addr).as_u64()
}

/// `x86_64::PhysAddr::new_truncate`: `addr % (1 << 52)`.
#[verifier::external_body]
fn phys_addr_truncate(addr: u64) -> (r: u64)
    ensures
        r == addr % PHYS_LIMIT,
{
    PhysAddr::new_truncate(addr).as_u64()
}

/// `x86_64::VirtAddr::new`: the canonical form of the address; it panics
/// unless bits 47..64 are all clear, all set or only bit 47 set, which
/// `requires` rules out.
#[verifier::external_body]
fn virt_addr(addr: u64) -> (r: u64)
    requires
        valid_virt(addr),
    ensures
        r == canonical(addr),
{
    VirtAddr::new(addr).as_u64()
}

/// `x86_64::VirtAddr::new_truncate`: bits 48..64 replaced by copies of bit 47.
#[verifier::external_body]
fn virt_addr_truncate(addr: u64) -> (r: u64)
    ensures
        r == canonical(addr),
{
    VirtAddr::new_truncate(addr).as_u64()
}

/// The 9-bit indices into the PML4, PDP, PD and PT that a virtual address selects.
pub fn entry_indices(virt: u64) -> (r: (u64, u64, u64, u64))
    ensures
        r.0 == (virt / 0x80_0000_0000) % 512,
        r.1 == (virt / 0x4000_0000) % 512,
        r.2 == (virt / 0x20_0000) % 512,
        r.3 == (virt / 0x1000) % 512,
{
    let pml4_entry_bits = (virt >> 39) & 0b111111111;
    let pdp_entry_bits = (virt >> 30) & 0b111111111;
    let pd_entry_bits = (virt >> 21) & 0b111111111;
    let pt_entry_bits = (virt >> 12) & 0b111111111;
    assert((virt >> 39u64) & 511u64 == (virt / 0x80_0000_0000u64) % 512u64) by (bit_vector);
    assert((virt >> 30u64) & 511u64 == (virt / 0x4000_0000u64) % 512u64) by (bit_vector);
    assert((virt >> 21u64) & 511u64 == (virt / 0x20_0000u64) % 512u64) by (bit_vector);
    assert((virt >> 12u64) & 511u64 == (virt / 0x1000u64) % 512u64) by (bit_vector);
    (pml4_entry_bits, pdp_entry_bits, pd_entry_bits, pt_entry_bits)
}

/// A level of the four-level page-table walk.
#[derive(Clone, Copy, Debug, PartialEq, Eq, Structural)]
pub enum WalkLevel {
    Pml4,
    Pdp,
    Pd,
    Pt,
}

/// What the walk does after reading the entry of one level.
#[derive(Clone, Copy, Debug, PartialEq, Eq, Structural)]
pub enum WalkStep {
    /// Read the entry of the given level in the table at the given address.
    Descend(WalkLevel, u64),
    /// The address does not translate.
    Fault,
    /// The address translates to the frame at the given physical address.
    Found(u64),
}

/// The walk's rule for one entry: a present PML4, PDP or PT entry leads on
/// (the PT entry to its frame), an absent one ends the walk; at the PD level
/// it is the other way round, a present entry ends the walk and an absent one
/// leads on to the PT at its address.
pub open spec fn walk_rule(level: WalkLevel, present: bool, addr: u64) -> WalkStep {
    match level {
        WalkLevel::Pml4 => if present { WalkStep::Descend(WalkLevel::Pdp, addr) } else { WalkStep::Fault },
        WalkLevel::Pdp => if present { WalkStep::Descend(WalkLevel::Pd, addr) } else { WalkStep::Fault },
        WalkLevel::Pd => if present { WalkStep::Fault } else { WalkStep::Descend(WalkLevel::Pt, addr) },
        WalkLevel::Pt => if present { WalkStep::Found(addr) } else { WalkStep::Fault },
    }
}

/// One step of translating a virtual address: given the level and the
/// presence bit and address of the entry read there, what to do next.
pub fn translate_step(level: WalkLevel, present: bool, addr: u64) -> (r: WalkStep)
    ensures
        r == walk_rule(level, present, addr),
{
    match level {
        WalkLevel::Pml4 => {
            if !present {
                return WalkStep::Fault;
            }
            WalkStep::Descend(WalkLevel::Pdp, addr)
        },
        WalkLevel::Pdp => {
            if !present {
                return WalkStep::Fault;
            }
            WalkStep::Descend(WalkLevel::Pd, addr)
        },
        WalkLevel::Pd => {
            if present {
                return WalkStep::Fault;
            }
            WalkStep::Descend(WalkLevel::Pt, addr)
        },
        WalkLevel::Pt => {
            if !present {
                return WalkStep::Fault;
            }
            WalkStep::Found(addr)
        },
    }
}

/// What mapping a page does after reading the entry of one level.
#[derive(Clone, Copy, Debug, PartialEq, Eq, Structural)]
pub enum MapStep {
    /// Read the entry of the given level in the table at the given address.
    Descend(WalkLevel, u64),
    /// The entry at the given level is not present: the mapping fails.
    NotPresent(WalkLevel),
    /// The entry at the given level points at address 0: the mapping fails.
    NullTable(WalkLevel),
    /// Write the page's entry into this level's table.
    Write,
}

/// The mapping rule for one entry: above the PT level a present entry with a
/// non-zero address leads on to the next level's table at that address, an
/// absent entry or a zero address ends the mapping (presence is tested
/// first); at the PT level the page's entry is written.
pub open spec fn map_rule(level: WalkLevel, present: bool, addr: u64) -> MapStep {
    match level {
        WalkLevel::Pt => MapStep::Write,
        _ => if !present {
            MapStep::NotPresent(level)
        } else if addr == 0 {
            MapStep::NullTable(level)
        } else {
            MapStep::Descend(
                match level {
                    WalkLevel::Pml4 => WalkLevel::Pdp,
                    WalkLevel::Pdp => WalkLevel::Pd,
                    _ => WalkLevel::Pt,
                },
                addr,
            )
        },
    }
}

/// One step of mapping a page: given the level and the presence bit and
/// address of the entry read there, what to do next.
pub fn map_step(level: WalkLevel, present: bool, addr: u64) -> (r: MapStep)
    ensures
        r == map_rule(level, present, addr),
{
    let next = match level {
        WalkLevel::Pml4 => WalkLevel::Pdp,
        WalkLevel::Pdp => WalkLevel::Pd,
        WalkLevel::Pd => WalkLevel::Pt,
        WalkLevel::Pt => return MapStep::Write,
    };
    if !present {
        return MapStep::NotPresent(level);
    }
    if addr == 0 {
        return MapStep::NullTable(level);
    }
    MapStep::Descend(next, addr)
}

/// The level below `level` in the walk (the PT level has none and stays).
pub open spec fn level_below(level: WalkLevel) -> WalkLevel {
    match level {
        WalkLevel::Pml4 => WalkLevel::Pdp,
        WalkLevel::Pdp => WalkLevel::Pd,
        _ => WalkLevel::Pt,
    }
}

/// A walk ends without a frame at a PML4, PDP or PT entry that is not present
/// and at a PD entry that is present, whatever the address; it yields a frame
/// only at a present PT entry, that entry's address; every other step goes one
/// level down to the table at the entry's address.
pub proof fn law_walk_steps(level: WalkLevel, present: bool, addr: u64)
    ensures
        (level != WalkLevel::Pd && !present) || (level == WalkLevel::Pd && present) ==> walk_rule(
            level,
            present,
            addr,
        ) == WalkStep::Fault,
        walk_rule(level, present, addr) is Found ==> level == WalkLevel::Pt && present
            && walk_rule(level, present, addr) == WalkStep::Found(addr),
        level != WalkLevel::Pt && walk_rule(level, present, addr) != WalkStep::Fault
            ==> walk_rule(level, present, addr) == WalkStep::Descend(level_below(level), addr),
        level == WalkLevel::Pt && present ==> walk_rule(level, present, addr) == WalkStep::Found(
            addr,
        ),
{
}

/// Mapping a page stops at every level above the PT whose entry is not
/// present, whatever its address; it stops at a present entry with address 0;
/// only a present entry with a non-zero address leads on, to the table at that
/// address one level down; at the PT level the page's entry is written.
pub proof fn law_map_stops_at_missing_entries(level: WalkLevel, present: bool, addr: u64)
    ensures
        level != WalkLevel::Pt && !present ==> map_rule(level, present, addr) == MapStep::NotPresent(
            level,
        ),
        level != WalkLevel::Pt && present && addr == 0 ==> map_rule(level, present, addr)
            == MapStep::NullTable(level),
        map_rule(level, present, addr) is Descend ==> level != WalkLevel::Pt && present && addr
            != 0 && map_rule(level, present, addr) == MapStep::Descend(level_below(level), addr),
        level != WalkLevel::Pt && present && addr != 0 ==> map_rule(level, present, addr)
            == MapStep::Descend(level_below(level), addr),
        level == WalkLevel::Pt <==> map_rule(level, present, addr) == MapStep::Write,
{
}

/// Whether the walk takes the next table's address at `level` from the
/// kernel's own PML4 rather than from the table it walks: it does so at the
/// PML4 level, where only the presence bit comes from the given table.
pub fn reads_kernel_pml4(level: WalkLevel) -> (r: bool)
    ensures
        r == (level == WalkLevel::Pml4),
{
    match level {
        WalkLevel::Pml4 => true,
        _ => false,
    }
}

/// The index the walk uses at `level` for virtual address `virt`.
pub fn level_index(level: WalkLevel, virt: u64) -> (r: u64)
    ensures
        r < 512,
        level == WalkLevel::Pml4 ==> r == (virt / 0x80_0000_0000) % 512,
        level == WalkLevel::Pdp ==> r == (virt / 0x4000_0000) % 512,
        level == WalkLevel::Pd ==> r == (virt / 0x20_0000) % 512,
        level == WalkLevel::Pt ==> r == (virt / 0x1000) % 512,
{
    let (a, b, c, d) = entry_indices(virt);
    match level {
        WalkLevel::Pml4 => a,
        WalkLevel::Pdp => b,
        WalkLevel::Pd => c,
        WalkLevel::Pt => d,
    }
}

/// The result of a whole walk whose four entries have the given presence bits
/// and addresses: the PT entry's frame exactly when the PML4, PDP and PT
/// entries are present and the PD entry is not.
pub open spec fn translation(p4: bool, p3: bool, p2: bool, p1: bool, frame: u64) -> Option<u64> {
    if p4 && p3 && !p2 && p1 {
        Some(frame)
    } else {
        None
    }
}

/// Following `walk_rule` level by level from the PML4 yields `translation`,
/// and each descent reads the table at the address of the entry before it.
pub proof fn law_walk_translates(
    p4: bool,
    a4: u64,
    p3: bool,
    a3: u64,
    p2: bool,
    a2: u64,
    p1: bool,
    a1: u64,
)
    ensures
        ({
            let s4 = walk_rule(WalkLevel::Pml4, p4, a4);
            let s3 = walk_rule(WalkLevel::Pdp, p3, a3);
            let s2 = walk_rule(WalkLevel::Pd, p2, a2);
            let s1 = walk_rule(WalkLevel::Pt, p1, a1);
            let result = match s4 {
                WalkStep::Descend(_, _) => match s3 {
                    WalkStep::Descend(_, _) => match s2 {
                        WalkStep::Descend(_, _) => match s1 {
                            WalkStep::Found(f) => Some(f),
                            _ => None,
                        },
                        _ => None,
                    },
                    _ => None,
                },
                _ => None,
            };
            &&& result == translation(p4, p3, p2, p1, a1)
            &&& (s4 is Descend ==> s4 == WalkStep::Descend(WalkLevel::Pdp, a4))
            &&& (s3 is Descend ==> s3 == WalkStep::Descend(WalkLevel::Pd, a3))
            &&& (s2 is Descend ==> s2 == WalkStep::Descend(WalkLevel::Pt, a2))
        }),
{
}

/// Number of PDP tables the kernel sets up.
pub const PDP_TABLES: u64 = 2;

/// Number of PD tables the kernel sets up.
pub const PD_TABLES: u64 = 512;

/// Bytes the kernel's paging structures span from their base: 2 PDP tables,
/// 512 PD tables and 512 * 512 PT tables.
pub const PAGING_SPAN: u64 = (2 + 512 + 512 * 512) * 4096;

/// Address of PDP table `i` of the paging structures at `base`; the PDP
/// tables come first.
pub fn pdp_table_addr(base: u64, i: u64) -> (r: u64)
    requires
        i < PDP_TABLES,
        base + PAGING_SPAN <= u64::MAX,
    ensures
        r == base + i * 4096,
{
    base + i * PAGE_SIZE
}

/// Address of PD table `y` of the paging structures at `base`; the PD tables
/// follow the two PDP tables.
pub fn pd_table_addr(base: u64, y: u64) -> (r: u64)
    requires
        y < PD_TABLES,
        base + PAGING_SPAN <= u64::MAX,
    ensures
        r == base + (PDP_TABLES + y) * 4096,
{
    base + (PDP_TABLES + y) * PAGE_SIZE
}

/// Address of the PT table that entry `y` of PD table `x` points to; the PT
/// tables follow the PD tables, 512 per PD table.
pub fn pt_table_addr(base: u64, x: u64, y: u64) -> (r: u64)
    requires
        x < PD_TABLES,
        y < 512,
        base + PAGING_SPAN <= u64::MAX,
    ensures
        r == base + (PDP_TABLES + PD_TABLES + x * 512 + y) * 4096,
{
    proof {
        assert(x * 512 + y < 512 * 512) by (nonlinear_arith)
            requires
                x < 512,
                y < 512,
        ;
    }
    base + (PDP_TABLES + PD_TABLES + x * 512 + y) * PAGE_SIZE
}

/// Page `i` of an image at `phys` and `virt` has addresses that
/// `PhysAddr::new` and `VirtAddr::new` accept.
pub open spec fn page_addrs_valid(phys: u64, virt: u64, i: int) -> bool {
    &&& phys + i * 4096 < PHYS_LIMIT
    &&& virt + i * 4096 <= u64::MAX
    &&& valid_virt((virt + i * 4096) as u64)
}

/// Mapping a page goes down PML4, PDP and PD to the PT when each of those
/// entries is present with a non-zero address, and then writes the page's
/// entry; a walk over the same present entries ends at the PD level, since the
/// walk treats a present PD entry as the end, so a page mapped this way does
/// not translate.
pub proof fn law_mapped_page_walk(a4: u64, a3: u64, a2: u64, p1: bool, frame: u64)
    requires
        a4 != 0,
        a3 != 0,
        a2 != 0,
    ensures
        map_rule(WalkLevel::Pml4, true, a4) == MapStep::Descend(WalkLevel::Pdp, a4),
        map_rule(WalkLevel::Pdp, true, a3) == MapStep::Descend(WalkLevel::Pd, a3),
        map_rule(WalkLevel::Pd, true, a2) == MapStep::Descend(WalkLevel::Pt, a2),
        map_rule(WalkLevel::Pt, p1, frame) == MapStep::Write,
        translation(true, true, true, p1, frame) is None,
{
}

/// The physical and virtual address and length of the loaded kernel image.
pub struct Kernel {
    phys: u64,
    virt: u64,
    len: usize,
}

impl Kernel {
    /// Physical load address.
    pub closed spec fn phys_base(&self) -> u64 {
        self.phys
    }

    /// Virtual load address.
    pub closed spec fn virt_base(&self) -> u64 {
        self.virt
    }

    /// Length in bytes.
    pub closed spec fn length(&self) -> usize {
        self.len
    }

    /// Physical load address, virtual load address and length.
    pub fn bounds(&self) -> (r: (u64, u64, usize))
        ensures
            r == (self.phys_base(), self.virt_base(), self.length()),
    {
        (self.phys, self.virt, self.len)
    }

    /// The kernel at address zero with length zero.
    pub fn new() -> (k: Kernel)
        ensures
            k.phys_base() == 0,
            k.virt_base() == 0,
            k.length() == 0,
    {
        assert(canonical(0u64) == 0u64) by (bit_vector);
        assert(valid_virt(0u64)) by (bit_vector);
        Kernel { phys: phys_addr(0), virt: virt_addr(0), len: 0 }
    }

    /// Takes the length from the last kernel-and-modules entry of the memory
    /// map (keeping the old length when there is none) and the addresses from
    /// the bootloader's kernel-address response, which `PhysAddr::new` and
    /// `VirtAddr::new` must accept.
    pub fn get(&mut self, regions: &[MemoryRegion], physical_base: u64, virtual_base: u64)
        requires
            physical_base < PHYS_LIMIT,
            valid_virt(virtual_base),
        ensures
            final(self).phys_base() == physical_base,
            final(self).virt_base() == canonical(virtual_base),
            match find_last_spec(regions@, MemoryKind::KernelAndModules) {
                Some(e) => final(self).length() == e.len as usize,
                None => final(self).length() == old(self).length(),
            },
    {
        match find_last(regions, MemoryKind::KernelAndModules) {
            Some(entry) => self.len = entry.len as usize,
            None => (),
        }
        self.phys = phys_addr(physical_base);
        self.virt = virt_addr(virtual_base);
    }

    /// The (physical, virtual) page pairs that map the kernel image: one per
    /// whole page of its length, each `PAGE_SIZE` after the one before. Every
    /// address must be one that `PhysAddr + usize` and `VirtAddr + usize` accept.
    pub fn page_mappings(&self) -> (r: Vec<(u64, u64)>)
        requires
            forall|i: int|
                0 <= i < self.length() / 4096 ==> #[trigger] page_addrs_valid(
                    self.phys_base(),
                    self.virt_base(),
                    i,
                ),
        ensures
            r@.len() == self.length() / 4096,
            forall|i: int|
                0 <= i < r@.len() ==> (#[trigger] r@[i]).0 == self.phys_base() + i * 4096 && r@[i].1
                    == canonical((self.virt_base() + i * 4096) as u64),
    {
        let n = self.len / 0x1000;
        let mut out: Vec<(u64, u64)> = Vec::new();
        let mut i: usize = 0;
        while i < n
            invariant
                n == self.len / 4096,
                0 <= i <= n,
                out@.len() == i,
                forall|j: int| 0 <= j < n ==> #[trigger] page_addrs_valid(self.phys_base(), self.virt_base(), j),
                forall|j: int|
                    0 <= j < i ==> (#[trigger] out@[j]).0 == self.phys + j * 4096 && out@[j].1
                        == canonical((self.virt + j * 4096) as u64),
            decreases n - i,
        {
            proof {
                assert(page_addrs_valid(self.phys_base(), self.virt_base(), i as int));
                assert(i * 4096 <= n * 4096) by (nonlinear_arith)
                    requires
                        i <= n,
                ;
            }
            let offset = (i as u64) * 0x1000;
            let phys = phys_addr(self.phys + offset);
            let virt = virt_addr(self.virt + offset);
            out.push((phys, virt));
            i = i + 1;
        }
        out
    }
}

/// Where the framebuffer lies: the base of the first framebuffer entry of the
/// memory map, through `PhysAddr::new_truncate`; with no such entry, `fallback`
/// through `PhysAddr::new`, which must accept it.
pub fn framebuffer_address(regions: &[MemoryRegion], fallback: u64) -> (r: u64)
    requires
        find_first_spec(regions@, MemoryKind::Framebuffer) is None ==> fallback < PHYS_LIMIT,
    ensures
        match find_first_spec(regions@, MemoryKind::Framebuffer) {
            Some(e) => r == e.base % PHYS_LIMIT,
            None => r == fallback,
        },
{
    match find_first(regions, MemoryKind::Framebuffer) {
        Some(entry) => phys_addr_truncate(entry.base),
        None => phys_addr(fallback),
    }
}

/// The (physical, virtual) page pairs that map the framebuffer at `fb`: its
/// first [`FRAMEBUFFER_PAGES`] pages at [`FRAMEBUFFER_VIRT`] onwards. The pages
/// must lie below [`PHYS_LIMIT`].
pub fn framebuffer_page_mappings(fb: u64) -> (r: Vec<(u64, u64)>)
    requires
        fb + 0x3000 < PHYS_LIMIT,
    ensures
        r@.len() == FRAMEBUFFER_PAGES,
        forall|k: int|
            0 <= k < FRAMEBUFFER_PAGES ==> (#[trigger] r@[k]).0 == fb + k * 4096 && r@[k].1
                == FRAMEBUFFER_VIRT + k * 4096,
{
    let mut out: Vec<(u64, u64)> = Vec::new();
    let virt0 = virt_addr_truncate(0xffffffff80000000);
    let virt1 = virt_addr_truncate(0xffffffff80001000);
    let virt2 = virt_addr_truncate(0xffffffff80002000);
    let virt3 = virt_addr_truncate(0xffffffff80003000);
    assert(canonical(0xffffffff80000000u64) == 0xffffffff80000000u64) by (bit_vector);
    assert(canonical(0xffffffff80001000u64) == 0xffffffff80001000u64) by (bit_vector);
    assert(canonical(0xffffffff80002000u64) == 0xffffffff80002000u64) by (bit_vector);
    assert(canonical(0xffffffff80003000u64) == 0xffffffff80003000u64) by (bit_vector);
    out.push((fb, virt0));
    out.push((phys_addr(fb + 0x1000), virt1));
    out.push((phys_addr(fb + 0x2000), virt2));
    out.push((phys_addr(fb + 0x3000), virt3));
    out
}

} // verus!
