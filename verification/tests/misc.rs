use viperstem::cpu::{acpi_version, AcpiVersion};
use viperstem::interrupts::{cleared_mask, mask_port, set_mask_value, PIC1_DATA, PIC2_DATA};
use viperstem::memory::memmap::{find_first, find_last, memory_end, MemoryKind, MemoryRegion};

#[test]
fn mask_port_selects_the_pic() {
    assert_eq!(mask_port(1), PIC1_DATA);
    assert_eq!(mask_port(7), 0x21);
    assert_eq!(mask_port(8), PIC2_DATA);
    assert_eq!(mask_port(15), 0xA1);
}

#[test]
fn clearing_and_setting_mask_bits() {
    assert_eq!(cleared_mask(0xFF, 1), 0xFD);
    assert_eq!(cleared_mask(0xFF, 0), 0xFE);
    assert_eq!(set_mask_value(0x00, 7), 0x80);
    assert_eq!(set_mask_value(0x01, 3), 0x09);
    // Lines from 8 on shift the bit out of the byte: nothing changes.
    assert_eq!(cleared_mask(0xFF, 9), 0xFF);
    assert_eq!(set_mask_value(0x00, 12), 0x00);
}

#[test]
fn acpi_revisions() {
    assert_eq!(acpi_version(0), Some(AcpiVersion::V1));
    assert_eq!(acpi_version(2), Some(AcpiVersion::V2OrLater));
    assert_eq!(acpi_version(1), None);
    assert_eq!(acpi_version(3), None);
}

#[test]
fn find_first_and_last_entry_of_a_kind() {
    let m = [
        MemoryRegion { base: 1, len: 1, kind: MemoryKind::Reserved },
        MemoryRegion { base: 2, len: 2, kind: MemoryKind::Usable },
        MemoryRegion { base: 3, len: 3, kind: MemoryKind::Reserved },
    ];
    assert_eq!(find_first(&m, MemoryKind::Reserved).map(|e| e.base), Some(1));
    assert_eq!(find_last(&m, MemoryKind::Reserved).map(|e| e.base), Some(3));
    assert_eq!(find_first(&m, MemoryKind::BadMemory), None);
    assert_eq!(find_last(&m, MemoryKind::AcpiNvs), None);
}

#[test]
fn memory_end_is_the_highest_reach() {
    let m = [
        MemoryRegion { base: 0x1000, len: 0x1000, kind: MemoryKind::Usable },
        MemoryRegion { base: 0x10_0000, len: 0x10, kind: MemoryKind::Reserved },
        MemoryRegion { base: 0x8000, len: 0x8000, kind: MemoryKind::Usable },
    ];
    assert_eq!(memory_end(&m), 0x10_0010);
    assert_eq!(memory_end(&[]), 0);
}
