pub mod gdt;

use vstd::prelude::*;
use crate::descriptors::gdt::{DescriptorTableRegister, GDT, GDTEntry};

verus! {

/// Size in bytes of a [`GDT`] as the processor reads it: five 8-byte descriptors.
pub const GDT_SIZE: u16 = 40;

/// Access byte of the kernel code segment: present, ring 0, code, readable.
pub const KERNEL_CODE_ACCESS: u8 = 0b1_00_1_1_0_1_0;
/// Access byte of the kernel data segment: present, ring 0, data, writable.
pub const KERNEL_DATA_ACCESS: u8 = 0b1_00_1_0_0_1_0;
/// Access byte of the user code segment: present, ring 3, code, readable.
pub const USER_CODE_ACCESS: u8 = 0b1_11_1_1_0_1_0;
/// Access byte of the user data segment: present, ring 3, data, writable.
pub const USER_DATA_ACCESS: u8 = 0b1_11_1_0_0_1_0;
/// Flags of every non-null segment: 4 KiB granularity, long mode.
pub const SEGMENT_FLAGS: u8 = 0b1_0_1_0;

/// The table the kernel loads at start-up: the null descriptor and the four
/// kernel and user segments, each with base and limit zero.
pub fn default_gdt() -> (g: GDT)
    ensures
        g.null.is_null(),
        g.kernel_code.access() == KERNEL_CODE_ACCESS,
        g.kernel_data.access() == KERNEL_DATA_ACCESS,
        g.user_code.access() == USER_CODE_ACCESS,
        g.user_data.access() == USER_DATA_ACCESS,
        g.kernel_code.flags() == SEGMENT_FLAGS,
        g.kernel_data.flags() == SEGMENT_FLAGS,
        g.user_code.flags() == SEGMENT_FLAGS,
        g.user_data.flags() == SEGMENT_FLAGS,
        g.kernel_code.limit() == 0 && g.kernel_code.base() == 0,
        g.kernel_data.limit() == 0 && g.kernel_data.base() == 0,
        g.user_code.limit() == 0 && g.user_code.base() == 0,
        g.user_data.limit() == 0 && g.user_data.base() == 0,
{
    let g = GDT {
        null: GDTEntry::null(),
        kernel_code: GDTEntry::new(KERNEL_CODE_ACCESS, SEGMENT_FLAGS),
        kernel_data: GDTEntry::new(KERNEL_DATA_ACCESS, SEGMENT_FLAGS),
        user_code: GDTEntry::new(USER_CODE_ACCESS, SEGMENT_FLAGS),
        user_data: GDTEntry::new(USER_DATA_ACCESS, SEGMENT_FLAGS),
    };
    assert(((SEGMENT_FLAGS << 4u8) & 0xFu8) == 0u8 && (SEGMENT_FLAGS << 4u8) >> 4u8 == SEGMENT_FLAGS)
        by (bit_vector);
    assert(crate::descriptors::gdt::limit_of(0u16, SEGMENT_FLAGS << 4u8) == 0u32) by (bit_vector);
    assert(crate::descriptors::gdt::base_of(0u16, 0u8, 0u8) == 0u32) by (bit_vector);
    g
}

/// The register value that points the processor at a [`GDT`] stored at `offset`.
pub fn gdt_register(offset: u64) -> (r: DescriptorTableRegister)
    ensures
        r.limit == GDT_SIZE,
        r.offset == offset,
{
    DescriptorTableRegister { limit: GDT_SIZE, offset }
}

} // verus!
