use vstd::prelude::*;

verus! {

/// The operand of `lgdt`: a size in bytes and the table's address.
pub struct DescriptorTableRegister {
    pub limit: u16,
    pub offset: u64,
}

/// The kernel's global descriptor table: the null descriptor, then code and
/// data segments for the kernel and for user mode.
pub struct GDT {
    pub null: GDTEntry,
    pub kernel_code: GDTEntry,
    pub kernel_data: GDTEntry,
    pub user_code: GDTEntry,
    pub user_data: GDTEntry,
}

impl GDT {
    /// The table's bytes as the processor reads them: the five descriptors in
    /// order, eight bytes each.
    pub open spec fn table_bytes(&self) -> Seq<u8> {
        self.null.entry_bytes() + self.kernel_code.entry_bytes() + self.kernel_data.entry_bytes()
            + self.user_code.entry_bytes() + self.user_data.entry_bytes()
    }

    /// The 40 bytes of the table as they lie in memory.
    pub fn bytes(&self) -> (r: [u8; 40])
        ensures
            r@ == self.table_bytes(),
    {
        let mut out = [0u8; 40];
        let e0 = self.null.bytes();
        let e1 = self.kernel_code.bytes();
        let e2 = self.kernel_data.bytes();
        let e3 = self.user_code.bytes();
        let e4 = self.user_data.bytes();
        let mut k: usize = 0;
        while k < 8
            invariant
                0 <= k <= 8,
                forall|j: int| 0 <= j < k ==> out@[j] == e0@[j] && out@[8 + j] == e1@[j] && out@[16 + j] == e2@[j]
                    && out@[24 + j] == e3@[j] && out@[32 + j] == e4@[j],
            decreases 8 - k,
        {
            out[k] = e0[k];
            out[8 + k] = e1[k];
            out[16 + k] = e2[k];
            out[24 + k] = e3[k];
            out[32 + k] = e4[k];
            k = k + 1;
        }
        assert(out@ =~= self.table_bytes());
        out
    }

    /// A table of null descriptors.
    pub fn null() -> (g: GDT)
        ensures
            g.null.is_null(),
            g.kernel_code.is_null(),
            g.kernel_data.is_null(),
            g.user_code.is_null(),
            g.user_data.is_null(),
    {
        GDT {
            null: GDTEntry::null(),
            kernel_code: GDTEntry::null(),
            kernel_data: GDTEntry::null(),
            user_code: GDTEntry::null(),
            user_data: GDTEntry::null(),
        }
    }
}

/// One 8-byte segment descriptor, field by field as the processor lays it out:
/// limit bits 0..16, base bits 0..24, the access byte, limit bits 16..20 in the
/// low nibble with the flags in the high nibble, base bits 24..32.
pub struct GDTEntry {
    limit0: u16,
    base0: u16,
    base1: u8,
    access_byte: u8,
    limit1_and_flags: u8,
    base2: u8,
}

/// The 20-bit segment limit a descriptor with these fields encodes.
pub open spec fn limit_of(limit0: u16, limit1_and_flags: u8) -> u32 {
    (limit0 as u32) | (((limit1_and_flags & 0xFu8) as u32) << 16u32)
}

/// The 32-bit segment base a descriptor with these fields encodes.
pub open spec fn base_of(base0: u16, base1: u8, base2: u8) -> u32 {
    (base0 as u32) | ((base1 as u32) << 16u32) | ((base2 as u32) << 24u32)
}

impl GDTEntry {
    /// Limit bits 0..16.
    pub closed spec fn limit_low(&self) -> u16 {
        self.limit0
    }

    /// Base bits 0..16.
    pub closed spec fn base_low(&self) -> u16 {
        self.base0
    }

    /// Base bits 16..24.
    pub closed spec fn base_mid(&self) -> u8 {
        self.base1
    }

    /// The access byte.
    pub closed spec fn access(&self) -> u8 {
        self.access_byte
    }

    /// Limit bits 16..20 (low nibble) and the flags (high nibble).
    pub closed spec fn limit_high_flags(&self) -> u8 {
        self.limit1_and_flags
    }

    /// Base bits 24..32.
    pub closed spec fn base_high(&self) -> u8 {
        self.base2
    }

    /// Every field is zero.
    pub open spec fn is_null(&self) -> bool {
        &&& self.limit_low() == 0
        &&& self.base_low() == 0
        &&& self.base_mid() == 0
        &&& self.access() == 0
        &&& self.limit_high_flags() == 0
        &&& self.base_high() == 0
    }

    /// The segment limit the descriptor encodes.
    pub open spec fn limit(&self) -> u32 {
        limit_of(self.limit_low(), self.limit_high_flags())
    }

    /// The segment base the descriptor encodes.
    pub open spec fn base(&self) -> u32 {
        base_of(self.base_low(), self.base_mid(), self.base_high())
    }

    /// The flags nibble the descriptor encodes.
    pub open spec fn flags(&self) -> u8 {
        self.limit_high_flags() >> 4u8
    }

    /// The null descriptor.
    pub fn null() -> (e: GDTEntry)
        ensures
            e.is_null(),
    {
        GDTEntry { limit0: 0, base0: 0, base1: 0, access_byte: 0, limit1_and_flags: 0, base2: 0 }
    }

    /// A descriptor with base and limit zero, the given access byte, and the low
    /// nibble of `flags` as its flags (`flags << 4` keeps only that nibble).
    pub fn new(access_byte: u8, flags: u8) -> (e: GDTEntry)
        ensures
            e.limit_low() == 0,
            e.base_low() == 0,
            e.base_mid() == 0,
            e.access() == access_byte,
            e.limit_high_flags() == flags << 4u8,
            e.base_high() == 0,
    {
        GDTEntry {
            limit0: 0,
            base0: 0,
            base1: 0,
            access_byte: access_byte,
            limit1_and_flags: flags << 4,
            base2: 0,
        }
    }

    fn _base_new(access_byte: u8, flags: u8, limit: u32, base: u32) -> (e: GDTEntry)
        ensures
            e.access() == access_byte,
            e.limit_low() == (limit & 0xFFFFu32) as u16,
            e.limit_high_flags() == (flags << 4u8) | (((limit >> 16u32) as u8) & 0xFu8),
            e.base_low() == (base & 0xFFFFu32) as u16,
            e.base_mid() == ((base >> 16u32) & 0xFFu32) as u8,
            e.base_high() == ((base >> 24u32) & 0xFFu32) as u8,
    {
        let mut new = GDTEntry {
            limit0: 0,
            base0: 0,
            base1: 0,
            access_byte: access_byte,
            limit1_and_flags: flags << 4,
            base2: 0,
        };
        new.set_limit(limit);
        new.set_base(base);
        return new;
    }

    #[allow(dead_code)]
    fn limit_new(access_byte: u8, flags: u8, limit: u32) -> (e: GDTEntry)
        ensures
            e.access() == access_byte,
            e.limit_low() == (limit & 0xFFFFu32) as u16,
            e.limit_high_flags() == (flags << 4u8) | (((limit >> 16u32) as u8) & 0xFu8),
            e.base_low() == 0,
            e.base_mid() == 0,
            e.base_high() == 0,
    {
        let mut new = GDTEntry {
            limit0: 0,
            base0: 0,
            base1: 0,
            access_byte: access_byte,
            limit1_and_flags: flags << 4,
            base2: 0,
        };
        new.set_limit(limit);
        return new;
    }

    #[allow(dead_code)]
    fn set_limit(&mut self, limit: u32)
        ensures
            final(self).limit0 == (limit & 0xFFFFu32) as u16,
            final(self).limit1_and_flags == old(self).limit1_and_flags | (((limit >> 16u32) as u8)
                & 0xFu8),
            final(self).base0 == old(self).base0,
            final(self).base1 == old(self).base1,
            final(self).base2 == old(self).base2,
            final(self).access_byte == old(self).access_byte,
    {
        self.limit0 = (limit & 0xFFFF) as u16;
        self.limit1_and_flags = self.limit1_and_flags | ((limit >> 16) as u8 & 0xF);
    }

    #[allow(dead_code)]
    fn set_base(&mut self, base: u32)
        ensures
            final(self).base0 == (base & 0xFFFFu32) as u16,
            final(self).base1 == ((base >> 16u32) & 0xFFu32) as u8,
            final(self).base2 == ((base >> 24u32) & 0xFFu32) as u8,
            final(self).limit0 == old(self).limit0,
            final(self).limit1_and_flags == old(self).limit1_and_flags,
            final(self).access_byte == old(self).access_byte,
    {
        self.base0 = (base & 0xFFFF) as u16;
        self.base1 = ((base >> 16) & 0xFF) as u8;
        self.base2 = ((base >> 24) & 0xFF) as u8;
    }

    /// The eight bytes of the descriptor as they lie in memory: little-endian
    /// fields in declaration order.
    pub open spec fn entry_bytes(&self) -> Seq<u8> {
        seq![
            (self.limit_low() & 0xFFu16) as u8,
            (self.limit_low() >> 8u16) as u8,
            (self.base_low() & 0xFFu16) as u8,
            (self.base_low() >> 8u16) as u8,
            self.base_mid(),
            self.access(),
            self.limit_high_flags(),
            self.base_high(),
        ]
    }

    /// The eight bytes of the descriptor as they lie in memory.
    pub fn bytes(&self) -> (r: [u8; 8])
        ensures
            r@ == self.entry_bytes(),
    {
        let r = [
            (self.limit0 & 0xFF) as u8,
            (self.limit0 >> 8) as u8,
            (self.base0 & 0xFF) as u8,
            (self.base0 >> 8) as u8,
            self.base1,
            self.access_byte,
            self.limit1_and_flags,
            self.base2,
        ];
        assert(r@ =~= seq![
            (self.limit_low() & 0xFFu16) as u8,
            (self.limit_low() >> 8u16) as u8,
            (self.base_low() & 0xFFu16) as u8,
            (self.base_low() >> 8u16) as u8,
            self.base_mid(),
            self.access(),
            self.limit_high_flags(),
            self.base_high(),
        ]);
        r
    }
}

/// A descriptor built from an access byte, flags, a limit and a base encodes
/// exactly the low 20 bits of the limit, the whole base, the access byte and
/// the low nibble of the flags.
pub proof fn law_descriptor_round_trip(access_byte: u8, flags: u8, limit: u32, base: u32)
    ensures
        limit_of((limit & 0xFFFFu32) as u16, (flags << 4u8) | (((limit >> 16u32) as u8) & 0xFu8))
            == limit & 0xF_FFFFu32,
        base_of(
            (base & 0xFFFFu32) as u16,
            ((base >> 16u32) & 0xFFu32) as u8,
            ((base >> 24u32) & 0xFFu32) as u8,
        ) == base,
        ((flags << 4u8) | (((limit >> 16u32) as u8) & 0xFu8)) >> 4u8 == flags & 0xFu8,
{
    assert(((limit & 0xFFFFu32) as u16 as u32) | ((((flags << 4u8) | (((limit >> 16u32) as u8)
        & 0xFu8)) & 0xFu8) as u32) << 16u32 == limit & 0xF_FFFFu32) by (bit_vector);
    assert(((base & 0xFFFFu32) as u16 as u32) | ((((base >> 16u32) & 0xFFu32) as u8 as u32)
        << 16u32) | ((((base >> 24u32) & 0xFFu32) as u8 as u32) << 24u32) == base) by (bit_vector);
    assert(((flags << 4u8) | (((limit >> 16u32) as u8) & 0xFu8)) >> 4u8 == flags & 0xFu8)
        by (bit_vector);
}

} // verus!
