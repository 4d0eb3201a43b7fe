//! Textures of a TEX0 block: their parameters, formats and texel bytes.
use crate::gfx::rgba::RgbaBuffer;
use crate::platform::nds::formats::nstex::decode::{decode_texture, decoded_pixels, spec_decode_error, NstexDecodeError};
use crate::platform::nds::formats::nstex::palette::NsPalette;
use crate::rw::bytes::{read_u32_le, spec_u32_le, ParseError};
use vstd::prelude::*;

verus! {

/// A texture: its name, its parameters, and its texel bytes (a second block of bytes holds
/// the per-block attributes of compressed textures).
pub struct NsTexture {
    pub name: String,
    pub params: TextureParams,
    pub data1: Vec<u8>,
    pub data2: Vec<u8>,
}

/// How a texture's texels are stored (the hardware's formats 1 to 7).
#[derive(Debug, Copy, Clone, PartialEq, Eq, Structural)]
pub enum TextureFormat {
    /// A3I5 Translucent Texture
    A3I5,
    /// 4-Color Palette Texture
    Palette4,
    /// 16-Color Palette Texture
    Palette16,
    /// 256-Color Palette Texture
    Palette256,
    /// Block-Compressed Texture
    Compressed,
    /// A5I3 Translucent Texture
    A5I3,
    /// Direct RGBA Texture
    Direct,
}

/// The format with the hardware number `val`, if any.
pub open spec fn spec_format_from_raw(val: u8) -> Option<TextureFormat> {
    if val == 1 {
        Some(TextureFormat::A3I5)
    } else if val == 2 {
        Some(TextureFormat::Palette4)
    } else if val == 3 {
        Some(TextureFormat::Palette16)
    } else if val == 4 {
        Some(TextureFormat::Palette256)
    } else if val == 5 {
        Some(TextureFormat::Compressed)
    } else if val == 6 {
        Some(TextureFormat::A5I3)
    } else if val == 7 {
        Some(TextureFormat::Direct)
    } else {
        None
    }
}

/// Bits per texel.
pub open spec fn spec_bpp(f: TextureFormat) -> u32 {
    match f {
        TextureFormat::A3I5 | TextureFormat::Palette256 | TextureFormat::A5I3 => 8,
        TextureFormat::Palette4 | TextureFormat::Compressed => 2,
        TextureFormat::Palette16 => 4,
        TextureFormat::Direct => 16,
    }
}

/// The bytes `w` by `h` texels take.
pub open spec fn spec_byte_len(f: TextureFormat, w: u32, h: u32) -> int {
    (w * h * spec_bpp(f)) / 8
}

impl TextureFormat {
    /// The format with the hardware number `val`, if any.
    pub fn from_raw(val: u8) -> (r: Option<Self>)
        ensures
            r == spec_format_from_raw(val),
    {
        if val == 1 {
            Some(TextureFormat::A3I5)
        } else if val == 2 {
            Some(TextureFormat::Palette4)
        } else if val == 3 {
            Some(TextureFormat::Palette16)
        } else if val == 4 {
            Some(TextureFormat::Palette256)
        } else if val == 5 {
            Some(TextureFormat::Compressed)
        } else if val == 6 {
            Some(TextureFormat::A5I3)
        } else if val == 7 {
            Some(TextureFormat::Direct)
        } else {
            None
        }
    }

    /// The format's hardware number (1 to 7), which `from_raw` turns back into it.
    pub fn raw(self) -> (r: u8)
        ensures
            1 <= r <= 7,
            spec_format_from_raw(r) == Some(self),
    {
        match self {
            TextureFormat::A3I5 => 1,
            TextureFormat::Palette4 => 2,
            TextureFormat::Palette16 => 3,
            TextureFormat::Palette256 => 4,
            TextureFormat::Compressed => 5,
            TextureFormat::A5I3 => 6,
            TextureFormat::Direct => 7,
        }
    }

    /// Bits per texel.
    pub fn bpp(self) -> (r: u32)
        ensures
            r == spec_bpp(self),
    {
        match self {
            TextureFormat::A3I5 | TextureFormat::Palette256 | TextureFormat::A5I3 => 8,
            TextureFormat::Palette4 | TextureFormat::Compressed => 2,
            TextureFormat::Palette16 => 4,
            TextureFormat::Direct => 16,
        }
    }

    /// The bytes `w` by `h` texels take.
    pub fn byte_len(self, w: u32, h: u32) -> (r: usize)
        requires
            w * h * 16 <= usize::MAX,
        ensures
            r == spec_byte_len(self, w, h),
    {
        let bpp = self.bpp();
        assert(w * h * bpp <= w * h * 16) by (nonlinear_arith)
            requires bpp <= 16;
        assert((w as usize) * (h as usize) <= usize::MAX) by (nonlinear_arith)
            requires w * h * 16 <= usize::MAX;
        ((w as usize) * (h as usize) * (bpp as usize)) / 8
    }

    /// Whether texels index a palette (all formats but direct colour).
    pub fn requires_palette(self) -> (r: bool)
        ensures
            r == (self != TextureFormat::Direct),
    {
        match self {
            TextureFormat::Direct => false,
            _ => true,
        }
    }

    /// Whether the format is the block-compressed one.
    pub fn is_compressed(self) -> (r: bool)
        ensures
            r == (self == TextureFormat::Compressed),
    {
        match self {
            TextureFormat::Compressed => true,
            _ => false,
        }
    }
}

/// A texture's parameters as stored in the dictionary: the image word and the size word.
#[derive(Debug, Copy, Clone, PartialEq, Eq, Structural)]
pub struct TextureParams {
    pub image_params: u32,
    pub width_height: u32,
}

/// The texel data offset (bits 0-15 of the image word, in 8-byte units) in bytes.
pub open spec fn spec_texture_data_offset(p: TextureParams) -> int {
    (p.image_params % 0x10000) * 8
}

/// The texture's format number (bits 26-28 of the image word).
pub open spec fn spec_format_raw(p: TextureParams) -> u8 {
    ((p.image_params / 0x4000000) % 8) as u8
}

/// Whether palette colour 0 is transparent (bit 29 of the image word).
pub open spec fn spec_color0_transparent(p: TextureParams) -> bool {
    (p.image_params / 0x20000000) % 2 == 1
}

/// The width (bits 0-10 of the size word).
pub open spec fn spec_width(p: TextureParams) -> u32 {
    (p.width_height % 0x800) as u32
}

/// The height (bits 11-21 of the size word).
pub open spec fn spec_height(p: TextureParams) -> u32 {
    ((p.width_height / 0x800) % 0x800) as u32
}

impl TextureParams {
    /// Whether the parameters are the ones stored at `s[pos..pos + 8]`.
    pub open spec fn parsed_at(&self, s: Seq<u8>, pos: int) -> bool {
        &&& self.image_params == spec_u32_le(s, pos)
        &&& self.width_height == spec_u32_le(s, pos + 4)
    }

    /// Reads the parameters stored at `data[pos..pos + 8]`.
    pub fn read(data: &[u8], pos: usize) -> (r: Result<TextureParams, ParseError>)
        ensures
            r is Ok <==> pos + 8 <= data@.len(),
            r matches Ok(p) ==> p.parsed_at(data@, pos as int),
            r matches Err(e) ==> e == ParseError::UnexpectedEof,
    {
        if pos > data.len() || data.len() - pos < 8 {
            return Err(ParseError::UnexpectedEof);
        }
        let image_params = match read_u32_le(data, pos) { Some(v) => v, None => { return Err(ParseError::UnexpectedEof); } };
        let width_height = match read_u32_le(data, pos + 4) { Some(v) => v, None => { return Err(ParseError::UnexpectedEof); } };
        Ok(TextureParams { image_params, width_height })
    }

    /// Where the texels start in the texture data, in bytes.
    pub fn texture_data_offset(&self) -> (r: usize)
        ensures
            r == spec_texture_data_offset(*self),
    {
        let p = self.image_params;
        assert((p & 0xFFFF) == p % 0x10000) by (bit_vector);
        (((p & 0x0000FFFF) as u16) as usize) * 8
    }

    /// Bits 20-22 of the image word: the width as a power of two (8 << s).
    pub fn s_size(&self) -> (r: u8)
        ensures
            r == (self.image_params / 0x100000) % 8,
    {
        let p = self.image_params;
        assert(((p >> 20u32) & 0x7) == (p / 0x100000) % 8) by (bit_vector);
        ((p >> 20) & 0x7) as u8
    }

    /// Bits 23-25 of the image word: the height as a power of two (8 << t).
    pub fn t_size(&self) -> (r: u8)
        ensures
            r == (self.image_params / 0x800000) % 8,
    {
        let p = self.image_params;
        assert(((p >> 23u32) & 0x7) == (p / 0x800000) % 8) by (bit_vector);
        ((p >> 23) & 0x7) as u8
    }

    /// The format number.
    pub fn format(&self) -> (r: u8)
        ensures
            r == spec_format_raw(*self),
    {
        let p = self.image_params;
        assert(((p >> 26u32) & 0x7) == (p / 0x4000000) % 8) by (bit_vector);
        ((p >> 26) & 0x7) as u8
    }

    /// Whether palette colour 0 stands for transparency.
    pub fn is_color_0_transparent(&self) -> (r: bool)
        ensures
            r == spec_color0_transparent(*self),
    {
        let p = self.image_params;
        assert((((p >> 29u32) & 0x1) != 0) == ((p / 0x20000000) % 2 == 1)) by (bit_vector);
        ((p >> 29) & 0x1) != 0
    }

    /// The width in texels.
    pub fn width(&self) -> (r: u32)
        ensures
            r == spec_width(*self),
    {
        let v = self.width_height;
        assert((v & 0x7FF) == v % 0x800) by (bit_vector);
        v & 0x7FF
    }

    /// The height in texels.
    pub fn height(&self) -> (r: u32)
        ensures
            r == spec_height(*self),
    {
        let v = self.width_height;
        assert(((v >> 11u32) & 0x7FF) == (v / 0x800) % 0x800) by (bit_vector);
        (v >> 11) & 0x7FF
    }

    /// Width and height.
    pub fn dimensions(&self) -> (r: (u32, u32))
        ensures
            r == (spec_width(*self), spec_height(*self)),
    {
        (self.width(), self.height())
    }
}

impl NsTexture {
    /// The texture's format, or the error naming its unknown format number.
    pub fn format(&self) -> (r: Result<TextureFormat, NstexDecodeError>)
        ensures
            r == (match spec_format_from_raw(spec_format_raw(self.params)) {
                Some(f) => Ok::<TextureFormat, NstexDecodeError>(f),
                None => Err(NstexDecodeError::InvalidTextureFormat(spec_format_raw(self.params))),
            }),
    {
        match TextureFormat::from_raw(self.params.format()) {
            Some(f) => Ok(f),
            None => Err(NstexDecodeError::InvalidTextureFormat(self.params.format())),
        }
    }

    /// Width and height in texels.
    pub fn dimensions(&self) -> (r: (u32, u32))
        ensures
            r == (spec_width(self.params), spec_height(self.params)),
    {
        self.params.dimensions()
    }

    /// Decodes the texture to RGBA, with `palette` for the formats that need one.
    pub fn decode(&self, palette: Option<&NsPalette>) -> (r: Result<RgbaBuffer, NstexDecodeError>)
        requires
            crate::platform::nds::formats::nstex::decode::decode_requires(self, palette),
        ensures
            r is Err <==> spec_decode_error(self, palette) is Some,
            r matches Err(e) ==> spec_decode_error(self, palette) == Some(e),
            r matches Ok(b) ==> b.spec_width() == spec_width(self.params) && b.spec_height() == spec_height(self.params)
                && b.pixels().len() == spec_width(self.params) * spec_height(self.params)
                && forall|k: int| 0 <= k < b.pixels().len() ==> #[trigger] b.pixels()[k]@ == decoded_pixels(self, palette)[k],
    {
        decode_texture(self, palette)
    }
}

/// The fields of a texture's parameters are bit fields: the data offset is bits 0-15 of the
/// image word shifted up by three, the format bits 26-28, colour 0 transparent bit 29, the
/// width bits 0-10 of the size word and the height bits 11-21.
pub proof fn lemma_texture_param_bits(p: TextureParams)
    ensures
        spec_texture_data_offset(p) == ((p.image_params & 0xFFFF) << 3u32) as int,
        spec_format_raw(p) as u32 == (p.image_params >> 26u32) & 7,
        spec_color0_transparent(p) == ((p.image_params >> 29u32) & 1 != 0),
        spec_width(p) == p.width_height & 0x7FF,
        spec_height(p) == (p.width_height >> 11u32) & 0x7FF,
{
    let ip = p.image_params;
    let wh = p.width_height;
    assert(((ip & 0xFFFF) << 3u32) == (ip % 0x10000) * 8) by (bit_vector);
    assert((ip >> 26u32) & 7 == (ip / 0x4000000) % 8) by (bit_vector);
    assert(((ip >> 29u32) & 1 != 0) == ((ip / 0x20000000) % 2 == 1)) by (bit_vector);
    assert(wh & 0x7FF == wh % 0x800) by (bit_vector);
    assert((wh >> 11u32) & 0x7FF == (wh / 0x800) % 0x800) by (bit_vector);
}

/// The bytes `w` by `h` texels take, format by format: a quarter byte per texel for 4-colour
/// and block-compressed textures, half a byte for 16-colour ones, a byte for 256-colour,
/// A3I5 and A5I3 ones, and two bytes for direct colour (rounded down).
pub proof fn lemma_byte_len_formats(w: u32, h: u32)
    ensures
        spec_byte_len(TextureFormat::Palette4, w, h) == (w * h) / 4,
        spec_byte_len(TextureFormat::Compressed, w, h) == (w * h) / 4,
        spec_byte_len(TextureFormat::Palette16, w, h) == (w * h) / 2,
        spec_byte_len(TextureFormat::Palette256, w, h) == w * h,
        spec_byte_len(TextureFormat::A3I5, w, h) == w * h,
        spec_byte_len(TextureFormat::A5I3, w, h) == w * h,
        spec_byte_len(TextureFormat::Direct, w, h) == 2 * w * h,
{
    let n = w * h;
    assert((n * 2) / 8 == n / 4 && (n * 4) / 8 == n / 2 && (n * 8) / 8 == n && (n * 16) / 8 == 2 * n) by (nonlinear_arith)
        requires n >= 0;
    assert(w * h * 2 == n * 2 && w * h * 4 == n * 4 && w * h * 8 == n * 8 && w * h * 16 == n * 16 && 2 * w * h == 2 * n) by (nonlinear_arith)
        requires n == w * h;
}

} // verus!
