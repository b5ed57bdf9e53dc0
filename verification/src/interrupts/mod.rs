use vstd::prelude::*;

verus! {

/// Data port of the primary PIC (IRQ lines 0..8).
pub const PIC1_DATA: u16 = 0x21;
/// Data port of the secondary PIC.
pub const PIC2_DATA: u16 = 0xA1;

/// `u8::checked_shl`: `x << rhs`, or `None` when `rhs` is at least 8, the
/// number of bits of a `u8`.
#[verifier::external_body]
fn u8_checked_shl(x: u8, rhs: u32) -> (r: Option<u8>)
    ensures
        rhs < 8 ==> r == Some(x << (rhs as u8)),
        rhs >= 8 ==> r is None,
{
    x.checked_shl(rhs)
}

/// The mask bit that stands for `irqline` in the mask register: `1 << irqline`,
/// or no bit at all when the line number is 8 or more.
pub open spec fn irq_bit(irqline: u8) -> u8 {
    if irqline < 8 {
        1u8 << irqline
    } else {
        0
    }
}

/// The data port whose interrupt mask holds `irqline`: the secondary PIC's for
/// lines from 8 on, the primary's below.
pub fn mask_port(irqline: u8) -> (port: u16)
    ensures
        port == if irqline >= 8 { PIC2_DATA } else { PIC1_DATA },
{
    match irqline >= 8 {
        true => PIC2_DATA,
        false => PIC1_DATA,
    }
}

fn mask_bit(irqline: u8) -> (b: u8)
    ensures
        b == irq_bit(irqline),
{
    match u8_checked_shl(1, irqline as u32) {
        Some(v) => v,
        None => 0,
    }
}

/// The mask register value after unmasking `irqline` in `current`.
pub fn cleared_mask(current: u8, irqline: u8) -> (value: u8)
    ensures
        value == current & !irq_bit(irqline),
{
    current & !mask_bit(irqline)
}

/// The mask register value after masking `irqline` in `current`.
pub fn set_mask_value(current: u8, irqline: u8) -> (value: u8)
    ensures
        value == current | irq_bit(irqline),
{
    current | mask_bit(irqline)
}

/// Unmasking a line below 8 clears exactly its bit, masking sets exactly its
/// bit; a line from 8 on leaves the value unchanged either way.
pub proof fn law_mask_bits(current: u8, irqline: u8, other: u8)
    requires
        other < 8,
    ensures
        irqline < 8 ==> ((current & !irq_bit(irqline)) >> other) & 1 == if other == irqline {
            0u8
        } else {
            (current >> other) & 1
        },
        irqline < 8 ==> ((current | irq_bit(irqline)) >> other) & 1 == if other == irqline {
            1u8
        } else {
            (current >> other) & 1
        },
        irqline >= 8 ==> current & !irq_bit(irqline) == current,
        irqline >= 8 ==> current | irq_bit(irqline) == current,
{
    if irqline < 8 {
        assert(((current & !(1u8 << irqline)) >> other) & 1 == if other == irqline {
            0u8
        } else {
            (current >> other) & 1
        }) by (bit_vector)
            requires
                irqline < 8,
                other < 8,
        ;
        assert(((current | (1u8 << irqline)) >> other) & 1 == if other == irqline {
            1u8
        } else {
            (current >> other) & 1
        }) by (bit_vector)
            requires
                irqline < 8,
                other < 8,
        ;
    } else {
        assert(current & !0u8 == current && current | 0u8 == current) by (bit_vector);
    }
}

} // verus!
