//! 15-bit colours as the DS stores them: five bits each of red, green and blue, and a top
//! bit that some formats use as an alpha flag.
use crate::gfx::rgba::Rgba;
use vstd::prelude::*;

verus! {

/// A colour in the DS's little-endian 5-5-5 layout: red in bits 0-4, green in bits 5-9,
/// blue in bits 10-14.
#[derive(Debug, Default, Copy, Clone, PartialEq, Eq, Structural, Hash, PartialOrd, Ord)]
pub struct Rgb555(u16);

impl View for Rgb555 {
    type V = u16;

    closed spec fn view(&self) -> u16 {
        self.0
    }
}

/// The red channel (0..=31) of the raw value `v`.
pub open spec fn spec_r5(v: u16) -> u8 {
    (v % 32) as u8
}

/// The green channel (0..=31) of the raw value `v`.
pub open spec fn spec_g5(v: u16) -> u8 {
    ((v / 32) % 32) as u8
}

/// The blue channel (0..=31) of the raw value `v`.
pub open spec fn spec_b5(v: u16) -> u8 {
    ((v / 1024) % 32) as u8
}

/// A 5-bit channel value widened to 8 bits: shifted up by three, with its top three bits
/// repeated below so that 0 maps to 0 and 31 to 255.
pub open spec fn spec_extend5(x: u8) -> u8 {
    (((x % 32) * 8) + (x % 32) / 4) as u8
}

/// Widens a 5-bit channel value to 8 bits.
fn extend_5bit_to_8bit(x: u8) -> (r: u8)
    requires
        x < 32,
    ensures
        r == spec_extend5(x),
{
    assert(((x << 3u8) | (x >> 2u8)) == ((x % 32) * 8 + (x % 32) / 4) as u8) by (bit_vector)
        requires x < 32;
    (x << 3) | (x >> 2)
}

impl Rgb555 {
    /// The colour stored as the 16-bit value `rgb555`.
    pub fn from_le(rgb555: u16) -> (c: Self)
        ensures
            c@ == rgb555,
    {
        Self(rgb555)
    }

    /// The red channel, 0..=31.
    pub fn r(&self) -> (v: u8)
        ensures
            v == spec_r5(self@),
            v < 32,
    {
        let raw = self.0;
        assert((raw & 0x1F) == raw % 32) by (bit_vector);
        (raw & 0x1F) as u8
    }

    /// The green channel, 0..=31.
    pub fn g(&self) -> (v: u8)
        ensures
            v == spec_g5(self@),
            v < 32,
    {
        let raw = self.0;
        assert(((raw >> 5u16) & 0x1F) == (raw / 32) % 32) by (bit_vector);
        ((raw >> 5) & 0x1F) as u8
    }

    /// The blue channel, 0..=31.
    pub fn b(&self) -> (v: u8)
        ensures
            v == spec_b5(self@),
            v < 32,
    {
        let raw = self.0;
        assert(((raw >> 10u16) & 0x1F) == (raw / 1024) % 32) by (bit_vector);
        ((raw >> 10) & 0x1F) as u8
    }

    /// The colour, fully transparent.
    pub fn to_rgba_transparent(self) -> (c: Rgba)
        ensures
            c@ == (spec_extend5(spec_r5(self@)), spec_extend5(spec_g5(self@)), spec_extend5(spec_b5(self@)), 0u8),
    {
        Rgba::new(extend_5bit_to_8bit(self.r()), extend_5bit_to_8bit(self.g()), extend_5bit_to_8bit(self.b()), 0)
    }

    /// The colour, fully opaque.
    pub fn to_rgba_opaque(self) -> (c: Rgba)
        ensures
            c@ == (spec_extend5(spec_r5(self@)), spec_extend5(spec_g5(self@)), spec_extend5(spec_b5(self@)), 255u8),
    {
        Rgba::new(extend_5bit_to_8bit(self.r()), extend_5bit_to_8bit(self.g()), extend_5bit_to_8bit(self.b()), 255)
    }

    /// The colour with a 5-bit alpha value, widened like the channels.
    pub fn to_rgba_with_a5(self, a5: u8) -> (c: Rgba)
        requires
            a5 < 32,
        ensures
            c@ == (spec_extend5(spec_r5(self@)), spec_extend5(spec_g5(self@)), spec_extend5(spec_b5(self@)), spec_extend5(a5)),
    {
        Rgba::new(extend_5bit_to_8bit(self.r()), extend_5bit_to_8bit(self.g()), extend_5bit_to_8bit(self.b()), extend_5bit_to_8bit(a5))
    }

    /// The colour, opaque when its top bit is set and transparent otherwise.
    pub fn to_rgba_with_alpha_bit(self) -> (c: Rgba)
        ensures
            c@ == (spec_extend5(spec_r5(self@)), spec_extend5(spec_g5(self@)), spec_extend5(spec_b5(self@)),
                if self@ >= 0x8000 { 255u8 } else { 0u8 }),
    {
        let raw = self.0;
        assert(((raw & 0x8000) != 0) == (raw >= 0x8000)) by (bit_vector);
        if raw & 0x8000 != 0 {
            self.to_rgba_opaque()
        } else {
            self.to_rgba_transparent()
        }
    }
}

/// Widening maps the darkest 5-bit value to 0, the brightest to 255, and keeps the order of
/// values.
pub proof fn lemma_extend5_range(x: u8, y: u8)
    requires
        x < 32,
        y < 32,
    ensures
        spec_extend5(0) == 0,
        spec_extend5(31) == 255,
        x <= y ==> spec_extend5(x) <= spec_extend5(y),
        x < y ==> spec_extend5(x) < spec_extend5(y),
{
}

/// The three channels of any raw value are 5-bit values, and together with the top bit they
/// give the raw value back.
pub proof fn lemma_channels_recompose(v: u16)
    ensures
        spec_r5(v) < 32,
        spec_g5(v) < 32,
        spec_b5(v) < 32,
        v == spec_r5(v) + 32 * spec_g5(v) + 1024 * spec_b5(v) + (if v >= 0x8000 { 0x8000int } else { 0int }),
{
}

} // verus!
