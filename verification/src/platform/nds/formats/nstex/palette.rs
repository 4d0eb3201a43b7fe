//! Palettes of a TEX0 block: where each starts in the shared palette data, and its colours.
use crate::gfx::rgb555::Rgb555;
use crate::rw::bytes::{read_u16_le, spec_u16_le, ParseError};
use std::sync::Arc;
use vstd::prelude::*;

verus! {

/// A palette: its name, where its colours start, and the palette data of the whole block.
pub struct NsPalette {
    pub name: String,
    pub offset: usize,
    pub palette_data: Arc<Vec<u8>>,
}

/// The 15-bit colours stored little-endian in `data` from `offset` on.
pub open spec fn palette_colors(data: Seq<u8>, offset: int) -> Seq<u16> {
    Seq::new(((data.len() - offset) / 2) as nat, |j: int| spec_u16_le(data, offset + 2 * j))
}

impl NsPalette {
    /// The palette bytes the colours are read from.
    pub open spec fn data(&self) -> Seq<u8> {
        (*self.palette_data)@
    }

    /// The colours from the palette's offset to the end of the palette data.
    pub fn colors(&self) -> (r: NsPaletteColors)
        requires
            self.offset <= self.data().len(),
            (self.data().len() - self.offset) % 2 == 0,
        ensures
            r@ == palette_colors(self.data(), self.offset as int),
    {
        let data: &Vec<u8> = &*self.palette_data;
        let n = data.len();
        let count = (n - self.offset) / 2;
        let mut colors: Vec<Rgb555> = Vec::with_capacity(count);
        let mut j: usize = 0;
        while j < count
            invariant
                j <= count,
                n == data@.len(),
                data@ == self.data(),
                count == (n - self.offset) / 2,
                self.offset + 2 * count <= n,
                colors@.len() == j,
                forall|i: int| 0 <= i < j ==> #[trigger] colors@[i]@ == spec_u16_le(data@, self.offset + 2 * i),
            decreases count - j,
        {
            let v = match read_u16_le(data.as_slice(), self.offset + 2 * j) { Some(v) => v, None => 0 };
            colors.push(Rgb555::from_le(v));
            j = j + 1;
        }
        let r = NsPaletteColors { colors };
        assert(r@ =~= palette_colors(self.data(), self.offset as int));
        r
    }
}

/// A palette's entry in the dictionary.
#[derive(Debug, Copy, Clone, PartialEq, Eq, Structural)]
pub struct PaletteParams {
    pub pltt_base: u16,
    pub unknown: u16,
}

impl PaletteParams {
    /// Whether the parameters are the ones stored at `s[pos..pos + 4]`.
    pub open spec fn parsed_at(&self, s: Seq<u8>, pos: int) -> bool {
        &&& self.pltt_base == spec_u16_le(s, pos)
        &&& self.unknown == spec_u16_le(s, pos + 2)
    }

    /// Reads the parameters stored at `data[pos..pos + 4]`.
    pub fn read(data: &[u8], pos: usize) -> (r: Result<PaletteParams, ParseError>)
        ensures
            r is Ok <==> pos + 4 <= data@.len(),
            r matches Ok(p) ==> p.parsed_at(data@, pos as int),
            r matches Err(e) ==> e == ParseError::UnexpectedEof,
    {
        if pos > data.len() || data.len() - pos < 4 {
            return Err(ParseError::UnexpectedEof);
        }
        let pltt_base = match read_u16_le(data, pos) { Some(v) => v, None => { return Err(ParseError::UnexpectedEof); } };
        let unknown = match read_u16_le(data, pos + 2) { Some(v) => v, None => { return Err(ParseError::UnexpectedEof); } };
        Ok(PaletteParams { pltt_base, unknown })
    }

    /// Where the palette's colours start in the palette data: bits 0-12 of the base, in
    /// 8-byte units.
    pub fn data_offset(&self) -> (r: usize)
        ensures
            r == (self.pltt_base % 0x2000) * 8,
    {
        let b = self.pltt_base;
        assert((b & 0x1FFF) == b % 0x2000) by (bit_vector);
        ((b & 0x1FFF) as usize) * 8
    }
}

/// A palette's colours.
pub struct NsPaletteColors {
    colors: Vec<Rgb555>,
}

impl View for NsPaletteColors {
    type V = Seq<u16>;

    closed spec fn view(&self) -> Seq<u16> {
        self.colors@.map_values(|c: Rgb555| c@)
    }
}

impl NsPaletteColors {
    /// A palette without colours.
    pub(crate) fn empty() -> (r: NsPaletteColors)
        ensures
            r@ == Seq::<u16>::empty(),
    {
        let r = NsPaletteColors { colors: Vec::new() };
        assert(r@ =~= Seq::<u16>::empty());
        r
    }

    /// Colour `index`, if the palette has that many.
    pub fn get(&self, index: usize) -> (r: Option<Rgb555>)
        ensures
            r is Some <==> index < self@.len(),
            r matches Some(c) ==> c@ == self@[index as int],
    {
        if index < self.colors.len() {
            Some(self.colors[index])
        } else {
            None
        }
    }
}

} // verus!
