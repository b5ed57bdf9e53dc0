use viperstem::memory::memmap::{MemoryKind, MemoryRegion};
use viperstem::paging::{
    entry_indices, framebuffer_address, framebuffer_page_mappings, get_free_mem_size, level_index,
    map_step, pd_table_addr, pdp_table_addr, pt_table_addr, reads_kernel_pml4, translate_step,
    Kernel, MapStep, WalkLevel, WalkStep, FRAMEBUFFER_VIRT, PAGING_SPAN,
};

fn map() -> Vec<MemoryRegion> {
    vec![
        MemoryRegion { base: 0x1000, len: 0x9000, kind: MemoryKind::Usable },
        MemoryRegion { base: 0x10_0000, len: 0x4000, kind: MemoryKind::KernelAndModules },
        MemoryRegion { base: 0x20_0000, len: 0x10_0000, kind: MemoryKind::Usable },
        MemoryRegion { base: 0xfd00_0000, len: 0x30_0000, kind: MemoryKind::Framebuffer },
        MemoryRegion { base: 0x40_0000, len: 0x3000, kind: MemoryKind::KernelAndModules },
        MemoryRegion { base: 0xfe00_0000, len: 0x1000, kind: MemoryKind::Framebuffer },
    ]
}

#[test]
fn indices_of_the_kernel_half() {
    assert_eq!(entry_indices(0xffff_ffff_8000_0000), (511, 510, 0, 0));
    assert_eq!(entry_indices(0xffff_ffff_8000_3000), (511, 510, 0, 3));
    assert_eq!(entry_indices(0x0000_0080_4020_1000), (1, 1, 1, 1));
    assert_eq!(level_index(WalkLevel::Pt, 0x5000), 5);
    assert_eq!(level_index(WalkLevel::Pml4, 0xffff_ffff_8000_0000), 511);
}

#[test]
fn walk_steps() {
    assert_eq!(translate_step(WalkLevel::Pml4, true, 0x1000), WalkStep::Descend(WalkLevel::Pdp, 0x1000));
    assert_eq!(translate_step(WalkLevel::Pml4, false, 0x1000), WalkStep::Fault);
    assert_eq!(translate_step(WalkLevel::Pdp, true, 0x2000), WalkStep::Descend(WalkLevel::Pd, 0x2000));
    assert_eq!(translate_step(WalkLevel::Pd, true, 0x3000), WalkStep::Fault);
    assert_eq!(translate_step(WalkLevel::Pd, false, 0x3000), WalkStep::Descend(WalkLevel::Pt, 0x3000));
    assert_eq!(translate_step(WalkLevel::Pt, true, 0x4000), WalkStep::Found(0x4000));
    assert_eq!(translate_step(WalkLevel::Pt, false, 0x4000), WalkStep::Fault);
}

#[test]
fn free_memory_counts_usable_entries() {
    assert_eq!(get_free_mem_size(&map()), (0x9000 + 0x10_0000, 2));
    assert_eq!(get_free_mem_size(&[]), (0, 0));
}

#[test]
fn kernel_takes_last_kernel_entry_and_addresses() {
    let mut k = Kernel::new();
    assert!(k.page_mappings().is_empty());
    k.get(&map(), 0x40_0000, 0xffff_ffff_8010_0000);
    let pages = k.page_mappings();
    assert_eq!(pages.len(), 3);
    assert_eq!(pages[0], (0x40_0000, 0xffff_ffff_8010_0000));
    assert_eq!(pages[2], (0x40_2000, 0xffff_ffff_8010_2000));
}

#[test]
fn kernel_virtual_address_is_made_canonical() {
    let mut k = Kernel::new();
    k.get(&map(), 0x1000, 0x0000_8000_0000_0000);
    assert_eq!(k.page_mappings()[0], (0x1000, 0xffff_8000_0000_0000));
}

#[test]
fn framebuffer_address_takes_first_entry_or_fallback() {
    assert_eq!(framebuffer_address(&map(), 0x1234), 0xfd00_0000);
    assert_eq!(framebuffer_address(&map()[..3], 0x8000_0000), 0x8000_0000);
    let high = [MemoryRegion { base: 0xfff0_0000_fd00_0000, len: 1, kind: MemoryKind::Framebuffer }];
    assert_eq!(framebuffer_address(&high, 0), 0x0000_0000_fd00_0000);
}

#[test]
fn framebuffer_pages_are_consecutive() {
    let m = framebuffer_page_mappings(0xfd00_0000);
    assert_eq!(m.len(), 4);
    for (k, (p, v)) in m.iter().enumerate() {
        assert_eq!(*p, 0xfd00_0000 + 0x1000 * k as u64);
        assert_eq!(*v, FRAMEBUFFER_VIRT + 0x1000 * k as u64);
    }
}

#[test]
fn kernel_bounds() {
    let mut k = Kernel::new();
    assert_eq!(k.bounds(), (0, 0, 0));
    k.get(&map(), 0x40_0000, 0xffff_ffff_8010_0000);
    assert_eq!(k.bounds(), (0x40_0000, 0xffff_ffff_8010_0000, 0x3000));
}

#[test]
fn paging_structure_layout() {
    let base = 0x10_0000;
    assert_eq!(pdp_table_addr(base, 0), base);
    assert_eq!(pdp_table_addr(base, 1), base + 0x1000);
    assert_eq!(pd_table_addr(base, 0), base + 0x2000);
    assert_eq!(pd_table_addr(base, 511), base + (2 + 511) * 0x1000);
    assert_eq!(pt_table_addr(base, 0, 0), base + (2 + 512) * 0x1000);
    assert_eq!(pt_table_addr(base, 1, 2), base + (2 + 512 + 512 + 2) * 0x1000);
    assert_eq!(PAGING_SPAN, (2 + 512 + 512 * 512) * 0x1000);
}

#[test]
fn only_the_pml4_step_reads_the_kernel_table() {
    assert!(reads_kernel_pml4(WalkLevel::Pml4));
    assert!(!reads_kernel_pml4(WalkLevel::Pdp));
    assert!(!reads_kernel_pml4(WalkLevel::Pd));
    assert!(!reads_kernel_pml4(WalkLevel::Pt));
}

#[test]
fn map_steps() {
    assert_eq!(map_step(WalkLevel::Pml4, true, 0x1000), MapStep::Descend(WalkLevel::Pdp, 0x1000));
    assert_eq!(map_step(WalkLevel::Pdp, true, 0x2000), MapStep::Descend(WalkLevel::Pd, 0x2000));
    assert_eq!(map_step(WalkLevel::Pd, true, 0x3000), MapStep::Descend(WalkLevel::Pt, 0x3000));
    assert_eq!(map_step(WalkLevel::Pt, false, 0), MapStep::Write);
    assert_eq!(map_step(WalkLevel::Pdp, false, 0x2000), MapStep::NotPresent(WalkLevel::Pdp));
    assert_eq!(map_step(WalkLevel::Pd, false, 0), MapStep::NotPresent(WalkLevel::Pd));
    assert_eq!(map_step(WalkLevel::Pml4, true, 0), MapStep::NullTable(WalkLevel::Pml4));
}

#[test]
fn a_present_pd_entry_maps_but_does_not_translate() {
    assert_eq!(map_step(WalkLevel::Pd, true, 0x3000), MapStep::Descend(WalkLevel::Pt, 0x3000));
    assert_eq!(translate_step(WalkLevel::Pd, true, 0x3000), WalkStep::Fault);
}
