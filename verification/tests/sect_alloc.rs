use viperstem::memory::memmap::{MemoryKind, MemoryRegion};
use viperstem::memory::sect_alloc::{Sect, SectManager};

fn manager(sizes: &[usize]) -> SectManager {
    let mut m = SectManager::null();
    for (i, size) in sizes.iter().enumerate() {
        m.add_sect(Sect::new(*size, 0x1000 * (i + 1)));
    }
    m
}

#[test]
fn null_manager_is_empty() {
    let mut m = SectManager::null();
    assert_eq!(m.sect_count(), 0);
    assert_eq!(m.space(), 0);
    assert_eq!({ let c = m.sect_count(); m.unused_sect(c) }, 0);
    for i in 0..16 {
        assert!(!m.is_used(i));
        assert_eq!(m.section(i), None);
    }
}

#[test]
fn sect_null_and_new() {
    assert_eq!(Sect::null(), Sect { base: 0, size: 0 });
    assert_eq!(Sect::new(10, 0x2000), Sect { base: 0x2000, size: 10 });
}

#[test]
fn add_sect_fills_slots_in_order() {
    let mut m = manager(&[100, 200, 300]);
    assert_eq!(m.sect_count(), 3);
    assert_eq!(m.space(), 600);
    assert_eq!({ let c = m.sect_count(); m.unused_sect(c) }, 3);
    assert_eq!(m.sect_size(0), 100);
    assert_eq!(m.sect_size(2), 300);
    assert_eq!(m.section(1), Some(Sect { base: 0x2000, size: 200 }));
    assert_eq!(m.section(3), None);
}

#[test]
fn req_sect_hands_out_first_free_section() {
    let mut m = manager(&[100, 200]);
    assert_eq!(m.req_sect(), (Sect::new(100, 0x1000), 0));
    assert!(m.is_used(0));
    assert_eq!({ let c = m.sect_count(); m.unused_sect(c) }, 1);
    assert_eq!(m.req_sect(), (Sect::new(200, 0x2000), 1));
    assert_eq!({ let c = m.sect_count(); m.unused_sect(c) }, 0);
}

#[test]
fn ret_sect_makes_a_section_available_again() {
    let mut m = manager(&[100, 200]);
    let (_, i) = m.req_sect();
    m.ret_sect(i);
    assert!(!m.is_used(i));
    assert_eq!({ let c = m.sect_count(); m.unused_sect(c) }, 2);
    assert_eq!(m.req_sect(), (Sect::new(100, 0x1000), 0));
}

#[test]
fn req_large_sect_takes_the_first_largest() {
    let mut m = manager(&[100, 300, 200, 300]);
    assert_eq!(m.req_large_sect(), (Sect::new(300, 0x2000), 1));
    assert_eq!(m.req_large_sect(), (Sect::new(300, 0x4000), 3));
    assert_eq!(m.req_large_sect(), (Sect::new(200, 0x3000), 2));
}

#[test]
fn req_large_sect_without_candidates_marks_slot_zero() {
    let mut m = manager(&[0, 0]);
    assert_eq!(m.req_large_sect(), (Sect::null(), 0));
    assert!(m.is_used(0));
    assert!(!m.is_used(1));
}

#[test]
fn req_sect_size_prefers_exact_fit() {
    let mut m = manager(&[4096, 8192, 1024, 8192]);
    assert_eq!(m.req_sect_size(8192), (Sect::new(8192, 0x2000), 1));
    assert_eq!(m.req_sect_size(8192), (Sect::new(8192, 0x4000), 3));
}

#[test]
fn req_sect_size_takes_smallest_larger_section() {
    let mut m = manager(&[10_000, 5_000, 6_000, 5_000]);
    assert_eq!(m.req_sect_size(4096), (Sect::new(5_000, 0x2000), 1));
    assert_eq!(m.req_sect_size(4096), (Sect::new(5_000, 0x4000), 3));
    assert_eq!(m.req_sect_size(4096), (Sect::new(6_000, 0x3000), 2));
}

#[test]
fn req_sect_size_without_fit_returns_null() {
    let mut m = manager(&[100, 200]);
    assert_eq!(m.req_sect_size(4096), (Sect::null(), 0));
    assert!(m.is_used(0));
    assert_eq!(m.req_sect_size(4096), (Sect::null(), 0));
}

#[test]
fn add_usable_regions_takes_only_usable_entries() {
    let regions = [
        MemoryRegion { base: 0x1000, len: 0x9000, kind: MemoryKind::Usable },
        MemoryRegion { base: 0xa000, len: 0x1000, kind: MemoryKind::Reserved },
        MemoryRegion { base: 0x10_0000, len: 0x20_0000, kind: MemoryKind::Usable },
        MemoryRegion { base: 0xfd00_0000, len: 0x30_0000, kind: MemoryKind::Framebuffer },
    ];
    let mut m = SectManager::null();
    m.add_usable_regions(&regions);
    assert_eq!(m.sect_count(), 2);
    assert_eq!(m.section(0), Some(Sect::new(0x9000, 0x1000)));
    assert_eq!(m.section(1), Some(Sect::new(0x20_0000, 0x10_0000)));
    assert_eq!(m.space(), 0x9000 + 0x20_0000);
}


#[test]
fn unused_sect_counts_below_the_given_count() {
    let mut m = manager(&[100, 200, 300]);
    m.req_sect();
    assert_eq!(m.unused_sect(3), 2);
    assert_eq!(m.unused_sect(1), 0);
    assert_eq!(m.unused_sect(5), 4);
    assert_eq!(m.unused_sect(0), 0);
}
