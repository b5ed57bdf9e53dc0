use viperstem::descriptors::gdt::{GDTEntry, GDT};
use viperstem::descriptors::{default_gdt, gdt_register, GDT_SIZE};

#[test]
fn null_entry_is_all_zero() {
    assert_eq!(GDTEntry::null().bytes(), [0u8; 8]);
    let g = GDT::null();
    for e in [&g.null, &g.kernel_code, &g.kernel_data, &g.user_code, &g.user_data] {
        assert_eq!(e.bytes(), [0u8; 8]);
    }
}

#[test]
fn new_entry_places_access_and_flags() {
    assert_eq!(GDTEntry::new(0x9A, 0xA).bytes(), [0, 0, 0, 0, 0, 0x9A, 0xA0, 0]);
    // Only the low nibble of the flags survives the shift.
    assert_eq!(GDTEntry::new(0x92, 0xFA).bytes(), [0, 0, 0, 0, 0, 0x92, 0xA0, 0]);
}

#[test]
fn default_table_holds_kernel_and_user_segments() {
    let g = default_gdt();
    assert_eq!(g.null.bytes(), [0u8; 8]);
    assert_eq!(g.kernel_code.bytes(), [0, 0, 0, 0, 0, 0x9A, 0xA0, 0]);
    assert_eq!(g.kernel_data.bytes(), [0, 0, 0, 0, 0, 0x92, 0xA0, 0]);
    assert_eq!(g.user_code.bytes(), [0, 0, 0, 0, 0, 0xFA, 0xA0, 0]);
    assert_eq!(g.user_data.bytes(), [0, 0, 0, 0, 0, 0xF2, 0xA0, 0]);
}

#[test]
fn register_points_at_the_table() {
    let r = gdt_register(0xdead_b000);
    assert_eq!(r.limit, GDT_SIZE);
    assert_eq!(r.limit, 40);
    assert_eq!(r.offset, 0xdead_b000);
}

#[test]
fn table_bytes_are_the_entries_in_order() {
    let g = default_gdt();
    let b = g.bytes();
    assert_eq!(&b[0..8], &[0u8; 8]);
    assert_eq!(&b[8..16], &[0, 0, 0, 0, 0, 0x9A, 0xA0, 0]);
    assert_eq!(&b[16..24], &[0, 0, 0, 0, 0, 0x92, 0xA0, 0]);
    assert_eq!(&b[24..32], &[0, 0, 0, 0, 0, 0xFA, 0xA0, 0]);
    assert_eq!(&b[32..40], &[0, 0, 0, 0, 0, 0xF2, 0xA0, 0]);
    assert_eq!(GDT::null().bytes(), [0u8; 40]);
}
