use vstd::prelude::*;

verus! {

/// The ACPI 1.0 root system description pointer.
#[derive(Copy, Clone, Debug)]
pub struct RSDPDescriptor {
    signature: [char; 8],
    checksum: u8,
    oemid: [char; 6],
    pub revision: u8,
    rsdt_address: u32,
}

/// The ACPI 2.0 root system description pointer: the 1.0 part and the
/// extended fields.
#[derive(Copy, Clone, Debug)]
pub struct RSDPDescriptor2 {
    first: RSDPDescriptor,
    length: u32,
    xsdt_address: u64,
    extended_checksum: u8,
    reserved: [u8; 3],
}

} // verus!
