//! Packed 24-bit RGB colors.
//!
//! A color is three channel bytes packed into one 32-bit word as `0xRRGGBB`;
//! exactly the low 24 bits carry data when the color is built from channels.

use vstd::prelude::*;

verus! {

/// The packed word that three channel bytes form: red in bits 16..24, green
/// in bits 8..16, blue in bits 0..8.
pub open spec fn pack_rgb(red: u8, green: u8, blue: u8) -> int {
    (red as int) * 0x10000 + (green as int) * 0x100 + (blue as int)
}

/// A 3-channel RGB color held as one packed 32-bit word.
#[derive(Clone, Copy, Debug, PartialEq, Eq, Structural)]
pub struct Color {
    value: u32,
}

impl Color {
    /// The packed word this color holds.
    pub closed spec fn packed(self) -> u32 {
        self.value
    }

    /// Packs three channel bytes into a color.
    pub fn new(red: u8, green: u8, blue: u8) -> (c: Color)
        ensures
            c.packed() == pack_rgb(red, green, blue),
    {
        Color { value: (red as u32) * 0x10000 + (green as u32) * 0x100 + (blue as u32) }
    }

    /// Wraps an already-packed word as a color.
    pub fn new_from_hex(value: u32) -> (c: Color)
        ensures
            c.packed() == value,
    {
        Color { value }
    }

    /// The three channel bytes of the packed word, in (red, green, blue) order.
    pub fn as_tuple(&self) -> (t: (u8, u8, u8))
        ensures
            t.0 == (self.packed() / 0x10000) % 0x100,
            t.1 == (self.packed() / 0x100) % 0x100,
            t.2 == self.packed() % 0x100,
    {
        (
            ((self.value / 0x10000) % 0x100) as u8,
            ((self.value / 0x100) % 0x100) as u8,
            (self.value % 0x100) as u8,
        )
    }

    /// The packed word, for writing into a pixel buffer cell.
    pub fn as_hex(&self) -> (value: u32)
        ensures
            value == self.packed(),
    {
        self.value
    }
}

/// Packing three channel bytes and unpacking them again returns the same
/// three bytes: `as_tuple` inverts `new`.
pub proof fn lemma_color_round_trip(red: u8, green: u8, blue: u8)
    ensures
        (pack_rgb(red, green, blue) / 0x10000) % 0x100 == red,
        (pack_rgb(red, green, blue) / 0x100) % 0x100 == green,
        pack_rgb(red, green, blue) % 0x100 == blue,
{
    let packed = pack_rgb(red, green, blue);
    assert((packed / 0x10000) % 0x100 == red && (packed / 0x100) % 0x100 == green && packed
        % 0x100 == blue) by (nonlinear_arith)
        requires
            packed == (red as int) * 0x10000 + (green as int) * 0x100 + (blue as int),
    ;
}

} // verus!
