//! Decoding textures to RGBA, format by format.
use crate::gfx::rgb555::{spec_b5, spec_extend5, spec_g5, spec_r5, Rgb555};
use crate::gfx::rgba::{Rgba, RgbaBuffer};
use crate::platform::nds::formats::nstex::palette::{palette_colors, NsPalette, NsPaletteColors};
use crate::platform::nds::formats::nstex::texture::{
    spec_byte_len, spec_color0_transparent, spec_format_from_raw, spec_format_raw, spec_height, spec_width, NsTexture,
    TextureFormat,
};
use crate::rw::bytes::{read_u16_le, read_u32_le, spec_u16_le, spec_u32_le};
use crate::text::{decimal, usize_to_decimal};
use vstd::prelude::*;

verus! {

/// Why a texture could not be decoded.
#[derive(Debug, Clone, Copy, PartialEq, Eq, Structural)]
pub enum NstexDecodeError {
    MissingPalette,
    InvalidTextureFormat(u8),
    InvalidPaletteIndex,
    InvalidTextureIndex,
}

/// The description of a decoding error.
pub open spec fn spec_decode_message(e: NstexDecodeError) -> Seq<char> {
    match e {
        NstexDecodeError::MissingPalette => "Missing palette"@,
        NstexDecodeError::InvalidTextureFormat(f) => "Invalid texture format: "@ + decimal(f as nat),
        NstexDecodeError::InvalidPaletteIndex => "Invalid palette index"@,
        NstexDecodeError::InvalidTextureIndex => "Invalid texture index"@,
    }
}

impl NstexDecodeError {
    /// The human-readable description of the error.
    pub fn message(&self) -> (r: String)
        ensures
            r@ == spec_decode_message(*self),
    {
        match self {
            NstexDecodeError::MissingPalette => String::from_str("Missing palette"),
            NstexDecodeError::InvalidTextureFormat(f) => {
                let mut r = String::from_str("Invalid texture format: ");
                r.append(usize_to_decimal(*f as usize).as_str());
                r
            },
            NstexDecodeError::InvalidPaletteIndex => String::from_str("Invalid palette index"),
            NstexDecodeError::InvalidTextureIndex => String::from_str("Invalid texture index"),
        }
    }
}

/// A pixel as its four channels.
pub type Px = (u8, u8, u8, u8);

/// Colour `c` made opaque.
pub open spec fn px_opaque(c: u16) -> Px {
    (spec_extend5(spec_r5(c)), spec_extend5(spec_g5(c)), spec_extend5(spec_b5(c)), 255u8)
}

/// Colour `c` made fully transparent.
pub open spec fn px_transparent(c: u16) -> Px {
    (spec_extend5(spec_r5(c)), spec_extend5(spec_g5(c)), spec_extend5(spec_b5(c)), 0u8)
}

/// Colour `c` with the 5-bit alpha `a`.
pub open spec fn px_with_a5(c: u16, a: u8) -> Px {
    (spec_extend5(spec_r5(c)), spec_extend5(spec_g5(c)), spec_extend5(spec_b5(c)), spec_extend5(a))
}

/// Colour `c`, opaque when its top bit is set.
pub open spec fn px_alpha_bit(c: u16) -> Px {
    if c >= 0x8000 { px_opaque(c) } else { px_transparent(c) }
}

/// Palette colour `i`, or colour 0 (black) past the end of the palette.
pub open spec fn color_at(cs: Seq<u16>, i: int) -> u16 {
    if 0 <= i < cs.len() { cs[i] } else { 0 }
}

/// The channel-wise mean of two pixels, rounded down.
pub open spec fn px_avg(a: Px, b: Px) -> Px {
    (((a.0 + b.0) / 2) as u8, ((a.1 + b.1) / 2) as u8, ((a.2 + b.2) / 2) as u8, ((a.3 + b.3) / 2) as u8)
}

/// Three eighths of `a` plus five eighths of `b`, channel-wise, rounded down.
pub open spec fn px_avg358(a: Px, b: Px) -> Px {
    (((3 * a.0 + 5 * b.0) / 8) as u8, ((3 * a.1 + 5 * b.1) / 8) as u8, ((3 * a.2 + 5 * b.2) / 8) as u8, ((3 * a.3 + 5 * b.3) / 8) as u8)
}

/// The colours of the palette handed to the decoder (none when there is none).
pub open spec fn pal_colors(pal: Option<&NsPalette>) -> Seq<u16> {
    match pal {
        Some(p) => palette_colors(p.data(), p.offset as int),
        None => Seq::empty(),
    }
}

/// A palette index with the colour-0-is-transparent rule applied.
pub open spec fn px_indexed(cs: Seq<u16>, idx: int, c0t: bool) -> Px {
    if idx == 0 && c0t { px_transparent(color_at(cs, 0)) } else { px_opaque(color_at(cs, idx)) }
}

/// Pixel `k` (of `w` per row) of a block-compressed texture: each 4x4 block has a 32-bit
/// word of 2-bit texels in `d1` and a 16-bit word in `d2` giving a mode and a palette base.
pub open spec fn px_compressed(d1: Seq<u8>, d2: Seq<u8>, cs: Seq<u16>, w: int, k: int) -> Px {
    let x = k % w;
    let y = k / w;
    let block_idx = (y / 4) * (w / 4) + x / 4;
    let block = spec_u32_le(d1, 4 * block_idx);
    let extra = spec_u16_le(d2, 2 * block_idx);
    let shift = 2 * (4 * (y % 4) + (x % 4));
    let texel = (block >> (shift as u32)) & 3u32;
    let mode = (extra >> 14u16) & 3u16;
    let pal_addr = ((extra & 0x3FFFu16) as int) * 2;
    let c0 = px_opaque(color_at(cs, pal_addr));
    let c1 = px_opaque(color_at(cs, pal_addr + 1));
    if texel == 0 {
        c0
    } else if texel == 1 {
        c1
    } else if texel == 2 {
        if mode == 0 || mode == 2 {
            px_opaque(color_at(cs, pal_addr + 2))
        } else if mode == 1 {
            px_avg(c0, c1)
        } else {
            px_avg358(c1, c0)
        }
    } else {
        if mode == 0 || mode == 1 {
            px_transparent(color_at(cs, 0))
        } else if mode == 2 {
            px_opaque(color_at(cs, pal_addr + 3))
        } else {
            px_avg358(c0, c1)
        }
    }
}

/// Pixel `k` of texture `t` in format `f` with palette colours `cs`, or `None` when the
/// decoder writes no pixel there.
pub open spec fn texel_px(f: TextureFormat, t: NsTexture, cs: Seq<u16>, k: int) -> Option<Px> {
    let w = spec_width(t.params);
    let h = spec_height(t.params);
    let d1 = t.data1@;
    let c0t = spec_color0_transparent(t.params);
    match f {
        TextureFormat::A3I5 => {
            let tx = d1[k];
            let a = (tx / 32) % 8;
            Some(px_with_a5(color_at(cs, (tx % 32) as int), (a * 4 + a / 2) as u8))
        },
        TextureFormat::Palette4 => if k / 4 < spec_byte_len(TextureFormat::Palette4, w, h) {
            let byte = d1[k / 4];
            let idx = (byte >> ((2 * (k % 4)) as u8)) & 3u8;
            Some(px_indexed(cs, idx as int, c0t))
        } else {
            None
        },
        TextureFormat::Palette16 => if k / 2 < spec_byte_len(TextureFormat::Palette16, w, h) {
            let byte = d1[k / 2];
            let idx = if k % 2 == 0 { byte % 16 } else { byte / 16 };
            Some(px_indexed(cs, idx as int, c0t))
        } else {
            None
        },
        TextureFormat::Palette256 => Some(px_indexed(cs, d1[k] as int, c0t)),
        TextureFormat::Compressed => Some(px_compressed(d1, t.data2@, cs, w as int, k)),
        TextureFormat::A5I3 => {
            let tx = d1[k];
            Some(px_with_a5(color_at(cs, (tx % 8) as int), ((tx / 8) % 32) as u8))
        },
        TextureFormat::Direct => Some(px_alpha_bit(spec_u16_le(d1, 2 * k))),
    }
}

/// The pixels a successful decode gives: row by row, the decoded texels, transparent black
/// where nothing was written.
pub open spec fn decoded_pixels(t: &NsTexture, pal: Option<&NsPalette>) -> Seq<Px> {
    let n = spec_width(t.params) * spec_height(t.params);
    Seq::new(n as nat, |k: int| match spec_format_from_raw(spec_format_raw(t.params)) {
        Some(f) => match texel_px(f, *t, pal_colors(pal), k) {
            Some(p) => p,
            None => (0u8, 0u8, 0u8, 0u8),
        },
        None => (0u8, 0u8, 0u8, 0u8),
    })
}

/// How decoding fails, if it does: an unknown format, or a missing palette for a format that
/// needs one.
pub open spec fn spec_decode_error(t: &NsTexture, pal: Option<&NsPalette>) -> Option<NstexDecodeError> {
    match spec_format_from_raw(spec_format_raw(t.params)) {
        None => Some(NstexDecodeError::InvalidTextureFormat(spec_format_raw(t.params))),
        Some(f) => if f != TextureFormat::Direct && pal is None { Some(NstexDecodeError::MissingPalette) } else { None },
    }
}

/// The inputs on which decoding runs to the end: the palette's colours can be taken, and the
/// texel bytes hold what the format reads for the texture's size.
pub open spec fn decode_requires(t: &NsTexture, pal: Option<&NsPalette>) -> bool {
    let w = spec_width(t.params);
    let h = spec_height(t.params);
    let n = w * h;
    let d1 = t.data1@.len();
    let d2 = t.data2@.len();
    match spec_format_from_raw(spec_format_raw(t.params)) {
        None => true,
        Some(f) => (f != TextureFormat::Direct && pal is None) || {
            &&& (f != TextureFormat::Direct ==> pal->Some_0.offset <= pal->Some_0.data().len()
                && (pal->Some_0.data().len() - pal->Some_0.offset) % 2 == 0)
            &&& match f {
                TextureFormat::A3I5 | TextureFormat::Palette256 | TextureFormat::A5I3 => n <= d1,
                TextureFormat::Palette4 | TextureFormat::Palette16 => spec_byte_len(f, w, h) <= d1,
                TextureFormat::Direct => 2 * n <= d1,
                TextureFormat::Compressed => d1 % 4 == 0 && d2 % 2 == 0 && (n == 0 || {
                    let last = ((h - 1) / 4) * (w / 4) + (w - 1) / 4;
                    &&& last < d1 / 4
                    &&& last < d2 / 2
                }),
            }
        },
    }
}

/// Palette colour `i`, or black past the end.
fn get_color(colors: &NsPaletteColors, i: usize) -> (r: Rgb555)
    ensures
        r@ == color_at(colors@, i as int),
{
    match colors.get(i) {
        Some(c) => c,
        None => Rgb555::from_le(0),
    }
}

fn indexed(colors: &NsPaletteColors, idx: usize, c0t: bool) -> (r: Rgba)
    ensures
        r@ == px_indexed(colors@, idx as int, c0t),
{
    if idx == 0 && c0t {
        get_color(colors, 0).to_rgba_transparent()
    } else {
        get_color(colors, idx).to_rgba_opaque()
    }
}

/// The channel-wise mean of two pixels.
fn avg(a: Rgba, b: Rgba) -> (r: Rgba)
    ensures
        r@ == px_avg(a@, b@),
{
    Rgba::new(
        ((a.r() as u16 + b.r() as u16) / 2) as u8,
        ((a.g() as u16 + b.g() as u16) / 2) as u8,
        ((a.b() as u16 + b.b() as u16) / 2) as u8,
        ((a.a() as u16 + b.a() as u16) / 2) as u8,
    )
}

/// Three eighths of `a` plus five eighths of `b`, channel-wise.
fn avg358(a: Rgba, b: Rgba) -> (r: Rgba)
    ensures
        r@ == px_avg358(a@, b@),
{
    Rgba::new(
        ((3 * a.r() as u16 + 5 * b.r() as u16) / 8) as u8,
        ((3 * a.g() as u16 + 5 * b.g() as u16) / 8) as u8,
        ((3 * a.b() as u16 + 5 * b.b() as u16) / 8) as u8,
        ((3 * a.a() as u16 + 5 * b.a() as u16) / 8) as u8,
    )
}

/// Pixel `k` of a block-compressed texture of width `w`.
fn compressed_px(d1: &Vec<u8>, d2: &Vec<u8>, colors: &NsPaletteColors, w: u32, h: u32, k: usize) -> (r: Rgba)
    requires
        w > 0,
        k < w * h,
        d1@.len() % 4 == 0,
        d2@.len() % 2 == 0,
        ((h - 1) / 4) * (w / 4) + (w - 1) / 4 < d1@.len() / 4,
        ((h - 1) / 4) * (w / 4) + (w - 1) / 4 < d2@.len() / 2,
    ensures
        r@ == px_compressed(d1@, d2@, colors@, w as int, k as int),
{
    let wu = w as usize;
    let x = k % wu;
    let y = k / wu;
    let n1 = d1.len();
    let n2 = d2.len();
    proof {
        let hh = h as int;
        let ww = w as int;
        let kk = k as int;
        let yy = y as int;
        let xx = x as int;
        assert(yy == kk / ww && xx == kk % ww);
        assert(yy < hh) by (nonlinear_arith)
            requires kk < ww * hh, yy == kk / ww, ww > 0, kk >= 0;
        assert((yy / 4) * (ww / 4) + xx / 4 <= ((hh - 1) / 4) * (ww / 4) + (ww - 1) / 4) by (nonlinear_arith)
            requires 0 <= yy < hh, 0 <= xx < ww, ww > 0;
        assert((yy / 4) * (ww / 4) >= 0) by (nonlinear_arith)
            requires yy >= 0, ww >= 0;
    }
    let block_idx = (y / 4) * (wu / 4) + x / 4;
    let block = match read_u32_le(d1.as_slice(), 4 * block_idx) { Some(v) => v, None => 0 };
    let extra = match read_u16_le(d2.as_slice(), 2 * block_idx) { Some(v) => v, None => 0 };
    let shift = 2 * (4 * (y % 4) + (x % 4));
    let texel = (block >> (shift as u32)) & 3;
    let mode = (extra >> 14) & 3;
    let pal_addr = ((extra & 0x3FFF) as usize) * 2;
    let c0 = get_color(colors, pal_addr).to_rgba_opaque();
    let c1 = get_color(colors, pal_addr + 1).to_rgba_opaque();
    if texel == 0 {
        c0
    } else if texel == 1 {
        c1
    } else if texel == 2 {
        if mode == 0 || mode == 2 {
            get_color(colors, pal_addr + 2).to_rgba_opaque()
        } else if mode == 1 {
            avg(c0, c1)
        } else {
            avg358(c1, c0)
        }
    } else {
        if mode == 0 || mode == 1 {
            get_color(colors, 0).to_rgba_transparent()
        } else if mode == 2 {
            get_color(colors, pal_addr + 3).to_rgba_opaque()
        } else {
            avg358(c0, c1)
        }
    }
}

/// Pixel `k` of `tex` in format `f`, or `None` where the format writes none.
fn texel_value(f: TextureFormat, tex: &NsTexture, colors: &NsPaletteColors, k: usize) -> (r: Option<Rgba>)
    requires
        k < spec_width(tex.params) * spec_height(tex.params),
        match f {
            TextureFormat::A3I5 | TextureFormat::Palette256 | TextureFormat::A5I3 => spec_width(tex.params) * spec_height(tex.params) <= tex.data1@.len(),
            TextureFormat::Palette4 | TextureFormat::Palette16 => spec_byte_len(f, spec_width(tex.params), spec_height(tex.params)) <= tex.data1@.len(),
            TextureFormat::Direct => 2 * (spec_width(tex.params) * spec_height(tex.params)) <= tex.data1@.len(),
            TextureFormat::Compressed => tex.data1@.len() % 4 == 0 && tex.data2@.len() % 2 == 0 && ({
                let w = spec_width(tex.params);
                let h = spec_height(tex.params);
                &&& ((h - 1) / 4) * (w / 4) + (w - 1) / 4 < tex.data1@.len() / 4
                &&& ((h - 1) / 4) * (w / 4) + (w - 1) / 4 < tex.data2@.len() / 2
            }),
        },
    ensures
        r is Some <==> texel_px(f, *tex, colors@, k as int) is Some,
        r matches Some(p) ==> texel_px(f, *tex, colors@, k as int) == Some(p@),
{
    let (w, h) = tex.dimensions();
    let c0t = tex.params.is_color_0_transparent();
    let d1 = &tex.data1;
    assert(w * h < 0x400000) by (nonlinear_arith)
        requires w < 0x800, h < 0x800;
    match f {
        TextureFormat::A3I5 => {
            let tx = d1[k];
            assert((tx & 0x1F) == tx % 32 && ((tx >> 5u8) & 0x7) == (tx / 32) % 8) by (bit_vector);
            let a = (tx >> 5) & 0x7;
            assert(((a << 2u8) | (a >> 1u8)) == a * 4 + a / 2) by (bit_vector)
                requires a < 8;
            let alpha = (a << 2) | (a >> 1);
            Some(get_color(colors, (tx & 0x1F) as usize).to_rgba_with_a5(alpha))
        },
        TextureFormat::Palette4 => {
            let nb = TextureFormat::Palette4.byte_len(w, h);
            if k / 4 < nb {
                let byte = d1[k / 4];
                let idx = (byte >> ((2 * (k % 4)) as u8)) & 3;
                Some(indexed(colors, idx as usize, c0t))
            } else {
                None
            }
        },
        TextureFormat::Palette16 => {
            let nb = TextureFormat::Palette16.byte_len(w, h);
            if k / 2 < nb {
                let byte = d1[k / 2];
                assert((byte & 0x0F) == byte % 16 && (byte >> 4u8) == byte / 16) by (bit_vector);
                let idx = if k % 2 == 0 { byte & 0x0F } else { byte >> 4 };
                Some(indexed(colors, idx as usize, c0t))
            } else {
                None
            }
        },
        TextureFormat::Palette256 => Some(indexed(colors, d1[k] as usize, c0t)),
        TextureFormat::Compressed => Some(compressed_px(&tex.data1, &tex.data2, colors, w, h, k)),
        TextureFormat::A5I3 => {
            let tx = d1[k];
            assert((tx & 0x7) == tx % 8 && ((tx >> 3u8) & 0x1F) == (tx / 8) % 32) by (bit_vector);
            Some(get_color(colors, (tx & 0x7) as usize).to_rgba_with_a5((tx >> 3) & 0x1F))
        },
        TextureFormat::Direct => {
            let v = match read_u16_le(d1.as_slice(), 2 * k) { Some(v) => v, None => 0 };
            Some(Rgb555::from_le(v).to_rgba_with_alpha_bit())
        },
    }
}

/// Decodes a texture to RGBA, with `pal` for the formats that need one.
pub fn decode_texture(tex: &NsTexture, pal: Option<&NsPalette>) -> (r: Result<RgbaBuffer, NstexDecodeError>)
    requires
        decode_requires(tex, pal),
    ensures
        r is Err <==> spec_decode_error(tex, pal) is Some,
        r matches Err(e) ==> spec_decode_error(tex, pal) == Some(e),
        r matches Ok(b) ==> b.spec_width() == spec_width(tex.params) && b.spec_height() == spec_height(tex.params)
            && b.pixels().len() == spec_width(tex.params) * spec_height(tex.params)
            && forall|k: int| 0 <= k < b.pixels().len() ==> #[trigger] b.pixels()[k]@ == decoded_pixels(tex, pal)[k],
{
    let format = match tex.format() {
        Ok(f) => f,
        Err(e) => { return Err(e); }
    };
    if format.requires_palette() && pal.is_none() {
        return Err(NstexDecodeError::MissingPalette);
    }
    let (width, height) = tex.dimensions();
    assert(width * height < 0x400000) by (nonlinear_arith)
        requires width < 0x800, height < 0x800;
    let mut buf = RgbaBuffer::new(width, height);
    let colors = match pal {
        Some(p) => if format.requires_palette() { p.colors() } else { NsPaletteColors::empty() },
        None => NsPaletteColors::empty(),
    };
    let ghost cs = pal_colors(pal);
    let n = (width as usize) * (height as usize);
    let mut k: usize = 0;
    while k < n
        invariant
            k <= n,
            n == spec_width(tex.params) * spec_height(tex.params),
            spec_format_from_raw(spec_format_raw(tex.params)) == Some(format),
            decode_requires(tex, pal),
            format != TextureFormat::Direct ==> colors@ == cs,
            cs == pal_colors(pal),
            format != TextureFormat::Direct ==> pal is Some,
            buf.spec_width() == width,
            buf.spec_height() == height,
            width == spec_width(tex.params),
            height == spec_height(tex.params),
            buf.pixels().len() == n,
            forall|j: int| 0 <= j < k ==> #[trigger] buf.pixels()[j]@ == decoded_pixels(tex, pal)[j],
            forall|j: int| k <= j < n ==> #[trigger] buf.pixels()[j]@ == (0u8, 0u8, 0u8, 0u8),
        decreases n - k,
    {
        let ghost before = buf.pixels();
        let v = texel_value(format, tex, &colors, k);
        proof {
            assert(texel_px(format, *tex, colors@, k as int) == texel_px(format, *tex, cs, k as int));
        }
        match v {
            Some(p) => buf.set_pixel_pos(k, p),
            None => {},
        }
        proof {
            assert forall|j: int| 0 <= j < k + 1 implies #[trigger] buf.pixels()[j]@ == decoded_pixels(tex, pal)[j] by {
                if j < k {
                    assert(buf.pixels()[j] == before[j]);
                }
            }
            assert forall|j: int| k + 1 <= j < n implies #[trigger] buf.pixels()[j]@ == (0u8, 0u8, 0u8, 0u8) by {
                assert(buf.pixels()[j] == before[j]);
            }
        }
        k = k + 1;
    }
    Ok(buf)
}

/// The RGBA pixel of the 15-bit colour `c` (red in the low five bits, then green, then blue)
/// with alpha `a`: each 5-bit channel `x` widened to `x * 8 + x / 4`.
pub open spec fn rgba_of_555(c: int, a: int) -> Px {
    let r = c % 32;
    let g = (c / 32) % 32;
    let b = (c / 1024) % 32;
    ((r * 8 + r / 4) as u8, (g * 8 + g / 4) as u8, (b * 8 + b / 4) as u8, a as u8)
}

/// Colour `i` of the palette: the little-endian 16-bit word `i` counted from the palette's
/// offset in its data, black past the end or without a palette.
pub open spec fn palette_word(pal: Option<&NsPalette>, i: int) -> int {
    match pal {
        Some(p) => if 0 <= i && p.offset + 2 * i + 2 <= p.data().len() {
            p.data()[p.offset + 2 * i] + 256 * p.data()[p.offset + 2 * i + 1]
        } else {
            0
        },
        None => 0,
    }
}

/// The pixel of palette index `idx`: opaque, but transparent for index 0 when colour 0 is
/// transparent.
pub open spec fn palette_pixel(pal: Option<&NsPalette>, idx: int, c0t: bool) -> Px {
    rgba_of_555(palette_word(pal, idx), if idx == 0 && c0t { 0 } else { 255 })
}

/// Pixel `k` (row by row) of a decoded texture, format by format: a 2-bit palette index per
/// pixel (four to a byte, from the low bits up), a 4-bit one (two to a byte, low nibble
/// first) or an 8-bit one; a 5-bit index with a 3-bit alpha (A3I5) or a 3-bit index with a
/// 5-bit alpha (A5I3) in one byte; or a little-endian 15-bit colour whose top bit makes it
/// opaque (direct colour).
pub proof fn lemma_decoded_texel(t: &NsTexture, pal: Option<&NsPalette>, k: int)
    requires
        decode_requires(t, pal),
        spec_decode_error(t, pal) is None,
        0 <= k < spec_width(t.params) * spec_height(t.params),
    ensures
        ({
            let d1 = t.data1@;
            let c0t = spec_color0_transparent(t.params);
            let n = spec_width(t.params) * spec_height(t.params);
            let px = decoded_pixels(t, pal)[k];
            match spec_format_from_raw(spec_format_raw(t.params)) {
                Some(TextureFormat::Palette4) => px == if k / 4 < n / 4 {
                    palette_pixel(pal, ((d1[k / 4] >> ((2 * (k % 4)) as u8)) & 3u8) as int, c0t)
                } else {
                    (0u8, 0u8, 0u8, 0u8)
                },
                Some(TextureFormat::Palette16) => px == if k / 2 < n / 2 {
                    palette_pixel(pal, if k % 2 == 0 { d1[k / 2] % 16 } else { d1[k / 2] / 16 } as int, c0t)
                } else {
                    (0u8, 0u8, 0u8, 0u8)
                },
                Some(TextureFormat::Palette256) => px == palette_pixel(pal, d1[k] as int, c0t),
                Some(TextureFormat::A3I5) => ({
                    let a5 = (d1[k] / 32) * 4 + (d1[k] / 32) / 2;
                    px == rgba_of_555(palette_word(pal, (d1[k] % 32) as int), a5 * 8 + a5 / 4)
                }),
                Some(TextureFormat::A5I3) => ({
                    let a5 = d1[k] / 8;
                    px == rgba_of_555(palette_word(pal, (d1[k] % 8) as int), a5 * 8 + a5 / 4)
                }),
                Some(TextureFormat::Direct) => ({
                    let c = d1[2 * k] + 256 * d1[2 * k + 1];
                    px == rgba_of_555(c, if c >= 0x8000 { 255 } else { 0 })
                }),
                _ => true,
            }
        }),
{
    let f = spec_format_from_raw(spec_format_raw(t.params))->Some_0;
    assert(f != TextureFormat::Direct ==> (pal matches Some(p) ==> p.offset <= p.data().len() && (p.data().len() - p.offset) % 2 == 0));
    if f == TextureFormat::Palette4 || f == TextureFormat::Palette16 || f == TextureFormat::Palette256 {
        lemma_texel_indexed(f, *t, pal, k);
    } else if f == TextureFormat::A3I5 || f == TextureFormat::A5I3 || f == TextureFormat::Direct {
        lemma_texel_alpha(f, *t, pal, k);
    }
}

/// Pixel `k` of texture `t` read in a palette-indexed format `f` (two, four or eight bits
/// per pixel).
proof fn lemma_texel_indexed(f: TextureFormat, t: NsTexture, pal: Option<&NsPalette>, k: int)
    requires
        f == TextureFormat::Palette4 || f == TextureFormat::Palette16 || f == TextureFormat::Palette256,
        pal matches Some(p) ==> p.offset <= p.data().len() && (p.data().len() - p.offset) % 2 == 0,
    ensures
        ({
            let d1 = t.data1@;
            let c0t = spec_color0_transparent(t.params);
            let n = spec_width(t.params) * spec_height(t.params);
            let px = texel_px(f, t, pal_colors(pal), k);
            &&& f == TextureFormat::Palette4 ==> px == if k / 4 < n / 4 {
                Some(palette_pixel(pal, ((d1[k / 4] >> ((2 * (k % 4)) as u8)) & 3u8) as int, c0t))
            } else {
                None
            }
            &&& f == TextureFormat::Palette16 ==> px == if k / 2 < n / 2 {
                Some(palette_pixel(pal, if k % 2 == 0 { d1[k / 2] % 16 } else { d1[k / 2] / 16 } as int, c0t))
            } else {
                None
            }
            &&& f == TextureFormat::Palette256 ==> px == Some(palette_pixel(pal, d1[k] as int, c0t))
        }),
{
    let w = spec_width(t.params);
    let h = spec_height(t.params);
    let n = w * h;
    let d1 = t.data1@;
    let c0t = spec_color0_transparent(t.params);
    assert((w * h * 2) / 8 == n / 4 && (w * h * 4) / 8 == n / 2) by (nonlinear_arith)
        requires n == w * h;
    if f == TextureFormat::Palette4 {
        if k / 4 < n / 4 {
            lemma_indexed_pixel(pal, ((d1[k / 4] >> ((2 * (k % 4)) as u8)) & 3u8) as int, c0t);
        }
    } else if f == TextureFormat::Palette16 {
        if k / 2 < n / 2 {
            lemma_indexed_pixel(pal, if k % 2 == 0 { d1[k / 2] % 16 } else { d1[k / 2] / 16 } as int, c0t);
        }
    } else {
        lemma_indexed_pixel(pal, d1[k] as int, c0t);
    }
}

/// Pixel `k` of texture `t` read in a format with alpha (A3I5, A5I3) or in direct colour.
proof fn lemma_texel_alpha(f: TextureFormat, t: NsTexture, pal: Option<&NsPalette>, k: int)
    requires
        f == TextureFormat::A3I5 || f == TextureFormat::A5I3 || f == TextureFormat::Direct,
        f != TextureFormat::Direct ==> (pal matches Some(p) ==> p.offset <= p.data().len() && (p.data().len() - p.offset) % 2 == 0),
    ensures
        ({
            let d1 = t.data1@;
            let px = texel_px(f, t, pal_colors(pal), k);
            &&& f == TextureFormat::A3I5 ==> ({
                let a5 = (d1[k] / 32) * 4 + (d1[k] / 32) / 2;
                px == Some(rgba_of_555(palette_word(pal, (d1[k] % 32) as int), a5 * 8 + a5 / 4))
            })
            &&& f == TextureFormat::A5I3 ==> ({
                let a5 = d1[k] / 8;
                px == Some(rgba_of_555(palette_word(pal, (d1[k] % 8) as int), a5 * 8 + a5 / 4))
            })
            &&& f == TextureFormat::Direct ==> ({
                let c = d1[2 * k] + 256 * d1[2 * k + 1];
                px == Some(rgba_of_555(c, if c >= 0x8000 { 255 } else { 0 }))
            })
        }),
{
    let d1 = t.data1@;
    let cs = pal_colors(pal);
    if f == TextureFormat::A3I5 {
        let tx = d1[k];
        let a = (tx / 32) % 8;
        lemma_palette_word(pal, (tx % 32) as int);
        lemma_rgba_of_555(color_at(cs, (tx % 32) as int), (a * 4 + a / 2) as u8);
    } else if f == TextureFormat::A5I3 {
        let tx = d1[k];
        lemma_palette_word(pal, (tx % 8) as int);
        lemma_rgba_of_555(color_at(cs, (tx % 8) as int), ((tx / 8) % 32) as u8);
    } else {
        lemma_rgba_of_555(spec_u16_le(d1, 2 * k), 0);
    }
}

/// Pixel `k` of a decoded block-compressed texture of width `w`: it lies in 4x4 block
/// `(y / 4) * (w / 4) + x / 4`, whose little-endian 32-bit word in the texel data holds a
/// 2-bit texel per pixel (from the low bits up, row by row inside the block) and whose
/// little-endian 16-bit word in the attribute data holds a palette base (low 14 bits, in
/// pairs of colours) and a mode (top 2 bits). Texels 0 and 1 are the base's first two
/// colours; texel 2 is the third in modes 0 and 2; texel 3 is transparent in modes 0 and 1
/// and the fourth colour in mode 2.
pub proof fn lemma_decoded_compressed_texel(t: &NsTexture, pal: Option<&NsPalette>, k: int)
    requires
        decode_requires(t, pal),
        spec_decode_error(t, pal) is None,
        spec_format_from_raw(spec_format_raw(t.params)) == Some(TextureFormat::Compressed),
        0 <= k < spec_width(t.params) * spec_height(t.params),
    ensures
        ({
            let w = spec_width(t.params) as int;
            let d1 = t.data1@;
            let d2 = t.data2@;
            let x = k % w;
            let y = k / w;
            let b = (y / 4) * (w / 4) + x / 4;
            let word = (d1[4 * b] + d1[4 * b + 1] * 256 + d1[4 * b + 2] * 65536 + d1[4 * b + 3] * 16777216) as u32;
            let texel = (word >> ((2 * (4 * (y % 4) + x % 4)) as u32)) & 3u32;
            let attr = d2[2 * b] + d2[2 * b + 1] * 256;
            let mode = attr / 16384;
            let base = (attr % 16384) * 2;
            let px = decoded_pixels(t, pal)[k];
            &&& texel == 0 ==> px == rgba_of_555(palette_word(pal, base), 255)
            &&& texel == 1 ==> px == rgba_of_555(palette_word(pal, base + 1), 255)
            &&& (texel == 2 && (mode == 0 || mode == 2)) ==> px == rgba_of_555(palette_word(pal, base + 2), 255)
            &&& (texel == 3 && (mode == 0 || mode == 1)) ==> px == rgba_of_555(palette_word(pal, 0), 0)
            &&& (texel == 3 && mode == 2) ==> px == rgba_of_555(palette_word(pal, base + 3), 255)
        }),
{
    let w = spec_width(t.params) as int;
    let d2 = t.data2@;
    let x = k % w;
    let y = k / w;
    let b = (y / 4) * (w / 4) + x / 4;
    let cs = pal_colors(pal);
    let extra = spec_u16_le(d2, 2 * b);
    assert(decoded_pixels(t, pal)[k] == px_compressed(t.data1@, d2, cs, w, k));
    assert((extra >> 14u16) & 3u16 == extra / 16384) by (bit_vector);
    assert(extra & 0x3FFFu16 == extra % 16384) by (bit_vector);
    let base = ((extra & 0x3FFFu16) as int) * 2;
    lemma_palette_word(pal, base);
    lemma_palette_word(pal, base + 1);
    lemma_palette_word(pal, base + 2);
    lemma_palette_word(pal, base + 3);
    lemma_palette_word(pal, 0);
    lemma_rgba_of_555(color_at(cs, base), 0);
    lemma_rgba_of_555(color_at(cs, base + 1), 0);
    lemma_rgba_of_555(color_at(cs, base + 2), 0);
    lemma_rgba_of_555(color_at(cs, base + 3), 0);
    lemma_rgba_of_555(color_at(cs, 0), 0);
}

/// The decoder's pictures of a colour are its channels widened, with the alpha asked for.
proof fn lemma_rgba_of_555(c: u16, a: u8)
    requires
        a < 32,
    ensures
        px_opaque(c) == rgba_of_555(c as int, 255),
        px_transparent(c) == rgba_of_555(c as int, 0),
        px_with_a5(c, a) == rgba_of_555(c as int, a * 8 + a / 4),
{
}

/// The palette's colour `i` is its 16-bit word `i`.
proof fn lemma_palette_word(pal: Option<&NsPalette>, i: int)
    requires
        pal matches Some(p) ==> p.offset <= p.data().len() && (p.data().len() - p.offset) % 2 == 0,
    ensures
        color_at(pal_colors(pal), i) as int == palette_word(pal, i),
{
}

/// A palette-indexed pixel is the palette's colour at that index, transparent for index 0
/// when colour 0 is transparent.
proof fn lemma_indexed_pixel(pal: Option<&NsPalette>, idx: int, c0t: bool)
    requires
        pal matches Some(p) ==> p.offset <= p.data().len() && (p.data().len() - p.offset) % 2 == 0,
    ensures
        px_indexed(pal_colors(pal), idx, c0t) == palette_pixel(pal, idx, c0t),
{
    lemma_palette_word(pal, idx);
    lemma_palette_word(pal, 0);
    lemma_rgba_of_555(color_at(pal_colors(pal), idx), 0);
    lemma_rgba_of_555(color_at(pal_colors(pal), 0), 0);
}

} // verus!
