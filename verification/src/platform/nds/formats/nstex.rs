//! TEX0 blocks: textures and palettes of DS 3D models.
use crate::codec::common::rom::{IoError, RomReadError};
use crate::codec::nds::formats::narc::{check_magic, spec_magic_struct_error};
use crate::nds::rom::NdsRomReadError;
use crate::platform::nds::formats::nstex::palette::{NsPalette, PaletteParams};
use crate::platform::nds::formats::nstex::texture::{
    spec_bpp, spec_byte_len, spec_format_from_raw, spec_format_raw, spec_height, spec_texture_data_offset, spec_width, NsTexture,
    TextureFormat, TextureParams,
};
use crate::rw::blob::read_blob;
use crate::rw::bytes::{bytes_at, copy_range, spec_u16_le, spec_u32_le, u16_at, u32_at, ParseError};
use crate::rw::nds_dict::{dict_count, dict_entries_start, dict_error, dict_fold, dict_names, dict_requires, read_nds_dict, DictEntry};
use std::sync::Arc;
use vstd::prelude::*;

pub mod decode;
pub mod palette;
pub mod texture;

verus! {

impl DictEntry for TextureParams {
    open spec fn entry_size() -> nat {
        8
    }

    open spec fn parsed_at(&self, s: Seq<u8>, pos: int) -> bool {
        self.image_params == spec_u32_le(s, pos) && self.width_height == spec_u32_le(s, pos + 4)
    }

    fn size() -> (r: usize) {
        8
    }

    fn read_entry(data: &[u8], pos: usize) -> (r: Result<Self, ParseError>) {
        TextureParams::read(data, pos)
    }
}

impl DictEntry for PaletteParams {
    open spec fn entry_size() -> nat {
        4
    }

    open spec fn parsed_at(&self, s: Seq<u8>, pos: int) -> bool {
        self.pltt_base == spec_u16_le(s, pos) && self.unknown == spec_u16_le(s, pos + 2)
    }

    fn size() -> (r: usize) {
        4
    }

    fn read_entry(data: &[u8], pos: usize) -> (r: Result<Self, ParseError>) {
        PaletteParams::read(data, pos)
    }
}

/// A parsed TEX0 block.
pub struct Nstex {
    pub header: NstexHeader,
    pub textures: Vec<NsTexture>,
    pub palettes: Vec<NsPalette>,
}

/// The 60-byte header of a TEX0 block, starting with the magic `TEX0`.
pub struct NstexHeader {
    pub magic: [u8; 4],
    pub chunk_size: u32,
    pub _padding_1: [u8; 4],
    /// Texture data size / 8
    pub texture_data_size: u16,
    pub texture_dict_offset: u16,
    pub _padding_2: [u8; 4],
    pub texture_data_offset: u32,
    pub _padding_3: [u8; 4],
    /// Compressed texture data size / 12
    pub compressed_texture_data_size: u16,
    pub compressed_texture_dict_offset: u16,
    pub _padding_4: [u8; 4],
    pub compressed_texture_offset_texel_data: u32,
    pub compressed_texture_offset_texel_attr: u32,
    pub _padding_5: [u8; 4],
    /// Palette data size / 8
    pub palette_data_size: u32,
    pub palette_dict_offset: u32,
    pub palette_data_offset: u32,
}

/// The magic of a TEX0 block.
pub open spec fn tex0_magic() -> Seq<u8> {
    seq![0x54u8, 0x45, 0x58, 0x30]
}

impl NstexHeader {
    /// Whether the header is the one stored at `s[pos..pos + 60]`.
    pub open spec fn parsed_at(&self, s: Seq<u8>, pos: int) -> bool {
        &&& self.magic@ == tex0_magic()
        &&& self.chunk_size == spec_u32_le(s, pos + 4)
        &&& self._padding_1@ == s.subrange(pos + 8, pos + 12)
        &&& self.texture_data_size == spec_u16_le(s, pos + 12)
        &&& self.texture_dict_offset == spec_u16_le(s, pos + 14)
        &&& self._padding_2@ == s.subrange(pos + 16, pos + 20)
        &&& self.texture_data_offset == spec_u32_le(s, pos + 20)
        &&& self._padding_3@ == s.subrange(pos + 24, pos + 28)
        &&& self.compressed_texture_data_size == spec_u16_le(s, pos + 28)
        &&& self.compressed_texture_dict_offset == spec_u16_le(s, pos + 30)
        &&& self._padding_4@ == s.subrange(pos + 32, pos + 36)
        &&& self.compressed_texture_offset_texel_data == spec_u32_le(s, pos + 36)
        &&& self.compressed_texture_offset_texel_attr == spec_u32_le(s, pos + 40)
        &&& self._padding_5@ == s.subrange(pos + 44, pos + 48)
        &&& self.palette_data_size == spec_u32_le(s, pos + 48)
        &&& self.palette_dict_offset == spec_u32_le(s, pos + 52)
        &&& self.palette_data_offset == spec_u32_le(s, pos + 56)
    }

    /// Reads the header stored at `data[pos..pos + 60]`.
    pub fn read(data: &[u8], pos: usize) -> (r: Result<NstexHeader, ParseError>)
        ensures
            r is Ok <==> spec_magic_struct_error(data@, pos as int, tex0_magic(), 60) is None,
            r matches Ok(h) ==> h.parsed_at(data@, pos as int),
            r matches Err(e) ==> spec_magic_struct_error(data@, pos as int, tex0_magic(), 60) == Some(e),
    {
        let magic = check_magic(data, pos, 0x54, 0x45, 0x58, 0x30, 60)?;
        let n = data.len();
        assert(pos + 60 <= n);
        Ok(NstexHeader {
            magic,
            chunk_size: u32_at(data, pos + 4),
            _padding_1: crate::rw::bytes::read_array::<4>(data, pos + 8),
            texture_data_size: u16_at(data, pos + 12),
            texture_dict_offset: u16_at(data, pos + 14),
            _padding_2: crate::rw::bytes::read_array::<4>(data, pos + 16),
            texture_data_offset: u32_at(data, pos + 20),
            _padding_3: crate::rw::bytes::read_array::<4>(data, pos + 24),
            compressed_texture_data_size: u16_at(data, pos + 28),
            compressed_texture_dict_offset: u16_at(data, pos + 30),
            _padding_4: crate::rw::bytes::read_array::<4>(data, pos + 32),
            compressed_texture_offset_texel_data: u32_at(data, pos + 36),
            compressed_texture_offset_texel_attr: u32_at(data, pos + 40),
            _padding_5: crate::rw::bytes::read_array::<4>(data, pos + 44),
            palette_data_size: u32_at(data, pos + 48),
            palette_dict_offset: u32_at(data, pos + 52),
            palette_data_offset: u32_at(data, pos + 56),
        })
    }

    /// The size of the texture data in bytes.
    pub fn texture_data_size(&self) -> (r: usize)
        ensures
            r == self.texture_data_size * 8,
    {
        (self.texture_data_size as usize) * 8
    }

    /// The size of the compressed texel data in bytes.
    pub fn compressed_texture_data_size(&self) -> (r: usize)
        ensures
            r == self.compressed_texture_data_size * 12,
    {
        (self.compressed_texture_data_size as usize) * 12
    }

    /// The size of the palette data in bytes.
    pub fn palette_data_size(&self) -> (r: usize)
        requires
            self.palette_data_size * 8 <= usize::MAX,
        ensures
            r == self.palette_data_size * 8,
    {
        (self.palette_data_size as usize) * 8
    }
}

/// Where the texture dictionary of the block at `base` lies.
pub open spec fn tex_dict_pos(s: Seq<u8>, base: int) -> int {
    base + spec_u16_le(s, base + 14)
}

/// Where the palette dictionary of the block at `base` lies.
pub open spec fn pal_dict_pos(s: Seq<u8>, base: int) -> int {
    base + spec_u32_le(s, base + 52)
}

/// The texture data of the block at `base`, when it can be read.
pub open spec fn tex_blob(s: Seq<u8>, base: int) -> Option<Seq<u8>> {
    bytes_at(s, base + spec_u32_le(s, base + 20), spec_u16_le(s, base + 12) * 8)
}

/// The compressed texel data of the block at `base`, when it can be read.
pub open spec fn ctex_blob(s: Seq<u8>, base: int) -> Option<Seq<u8>> {
    bytes_at(s, base + spec_u32_le(s, base + 36), spec_u16_le(s, base + 28) * 12)
}

/// The compressed texel attributes of the block at `base`, when they can be read.
pub open spec fn cattr_blob(s: Seq<u8>, base: int) -> Option<Seq<u8>> {
    bytes_at(s, base + spec_u32_le(s, base + 40), spec_u16_le(s, base + 28) * 4)
}

/// The palette data of the block at `base`, when it can be read.
pub open spec fn pal_blob(s: Seq<u8>, base: int) -> Option<Seq<u8>> {
    bytes_at(s, base + spec_u32_le(s, base + 56), spec_u32_le(s, base + 48) * 8)
}

/// The textures' names and parameters, in dictionary order.
pub open spec fn tex_entries(s: Seq<u8>, base: int) -> Seq<(Seq<char>, TextureParams)> {
    let p = tex_dict_pos(s, base);
    let es = dict_entries_start(s, p);
    dict_fold(dict_names(s, p), dict_count(s, p)).map_values(|e: (Seq<char>, int)|
        (e.0, TextureParams { image_params: spec_u32_le(s, es + 8 * e.1), width_height: spec_u32_le(s, es + 8 * e.1 + 4) }))
}

/// The palettes' names and parameters, in dictionary order.
pub open spec fn pal_entries(s: Seq<u8>, base: int) -> Seq<(Seq<char>, PaletteParams)> {
    let p = pal_dict_pos(s, base);
    let es = dict_entries_start(s, p);
    dict_fold(dict_names(s, p), dict_count(s, p)).map_values(|e: (Seq<char>, int)|
        (e.0, PaletteParams { pltt_base: spec_u16_le(s, es + 4 * e.1), unknown: spec_u16_le(s, es + 4 * e.1 + 2) }))
}

/// The format number of the first texture from `j` on whose format is unknown.
pub open spec fn first_bad_format(t: Seq<(Seq<char>, TextureParams)>, j: int) -> Option<u8>
    decreases t.len() - j,
{
    if j < 0 || j >= t.len() {
        None
    } else if spec_format_from_raw(spec_format_raw(t[j].1)) is None {
        Some(spec_format_raw(t[j].1))
    } else {
        first_bad_format(t, j + 1)
    }
}

/// Why reading the block at `base` fails, if it does.
pub open spec fn nstex_error(s: Seq<u8>, base: int) -> Option<RomReadError> {
    if spec_magic_struct_error(s, base, tex0_magic(), 60) is Some {
        Some(RomReadError::Parse(spec_magic_struct_error(s, base, tex0_magic(), 60)->Some_0))
    } else if dict_error::<TextureParams>(s, tex_dict_pos(s, base)) is Some {
        Some(RomReadError::Parse(dict_error::<TextureParams>(s, tex_dict_pos(s, base))->Some_0))
    } else if dict_error::<PaletteParams>(s, pal_dict_pos(s, base)) is Some {
        Some(RomReadError::Parse(dict_error::<PaletteParams>(s, pal_dict_pos(s, base))->Some_0))
    } else if tex_blob(s, base) is None || ctex_blob(s, base) is None || cattr_blob(s, base) is None || pal_blob(s, base) is None {
        Some(RomReadError::Io(IoError::UnexpectedEof))
    } else if first_bad_format(tex_entries(s, base), 0) is Some {
        Some(RomReadError::Nds(NdsRomReadError::InvalidTextureFormat(first_bad_format(tex_entries(s, base), 0)->Some_0)))
    } else {
        None
    }
}

/// Where a texture's bytes lie: `(start, length)` in the texel data it is cut from.
pub open spec fn texture_span(p: TextureParams) -> (int, int) {
    let f = spec_format_from_raw(spec_format_raw(p))->Some_0;
    (spec_texture_data_offset(p), spec_byte_len(f, spec_width(p), spec_height(p)))
}

/// The two byte blocks of a texture with parameters `p` in the block at `base`.
pub open spec fn texture_bytes(s: Seq<u8>, base: int, p: TextureParams) -> (Seq<u8>, Seq<u8>) {
    let (off, len) = texture_span(p);
    if spec_format_from_raw(spec_format_raw(p)) == Some(TextureFormat::Compressed) {
        (ctex_blob(s, base)->Some_0.subrange(off, off + len), cattr_blob(s, base)->Some_0.subrange(off / 2, off / 2 + len / 2))
    } else {
        (tex_blob(s, base)->Some_0.subrange(off, off + len), Seq::empty())
    }
}

/// Whether the bytes of a texture with parameters `p` lie inside the data they are cut from.
pub open spec fn texture_in_range(s: Seq<u8>, base: int, p: TextureParams) -> bool {
    let (off, len) = texture_span(p);
    if spec_format_from_raw(spec_format_raw(p)) == Some(TextureFormat::Compressed) {
        off + len <= ctex_blob(s, base)->Some_0.len() && off / 2 + len / 2 <= cattr_blob(s, base)->Some_0.len()
    } else {
        off + len <= tex_blob(s, base)->Some_0.len()
    }
}

/// Whether, once the header, both dictionaries and the texture blocks of the block at
/// `base` have been read, the palette data's size in bytes fits in `usize`.
#[verifier::opaque]
pub open spec fn palette_size_fits(s: Seq<u8>, base: int) -> bool {
    (spec_magic_struct_error(s, base, tex0_magic(), 60) is None && dict_error::<TextureParams>(s, tex_dict_pos(s, base)) is None
        && dict_error::<PaletteParams>(s, pal_dict_pos(s, base)) is None && tex_blob(s, base) is Some && ctex_blob(s, base) is Some
        && cattr_blob(s, base) is Some) ==> spec_u32_le(s, base + 48) * 8 <= usize::MAX
}

/// The inputs on which reading the block at `base` runs to the end: the dictionaries' names
/// do not start before the data, and every texture of a known format lies inside its data.
pub open spec fn nstex_requires(s: Seq<u8>, base: int) -> bool {
    &&& palette_size_fits(s, base)
    &&& spec_magic_struct_error(s, base, tex0_magic(), 60) is None ==> dict_requires::<TextureParams>(s, tex_dict_pos(s, base))
    &&& (spec_magic_struct_error(s, base, tex0_magic(), 60) is None && dict_error::<TextureParams>(s, tex_dict_pos(s, base)) is None)
        ==> dict_requires::<PaletteParams>(s, pal_dict_pos(s, base))
    &&& (spec_magic_struct_error(s, base, tex0_magic(), 60) is None && dict_error::<TextureParams>(s, tex_dict_pos(s, base)) is None
        && dict_error::<PaletteParams>(s, pal_dict_pos(s, base)) is None && tex_blob(s, base) is Some && ctex_blob(s, base) is Some
        && cattr_blob(s, base) is Some && pal_blob(s, base) is Some) ==> forall|j: int| 0 <= j < tex_entries(s, base).len()
            && #[trigger] spec_format_from_raw(spec_format_raw(tex_entries(s, base)[j].1)) is Some
            ==> texture_in_range(s, base, tex_entries(s, base)[j].1)
}

/// Whether `data` starts with the magic `TEX0`.
pub open spec fn spec_nstex_probe(s: Seq<u8>) -> bool {
    4 <= s.len() && s.subrange(0, 4) == tex0_magic()
}

impl Nstex {
    /// Whether the block holds what `s` stores at `base`.
    pub open spec fn parsed_from(&self, s: Seq<u8>, base: int) -> bool {
        let t = tex_entries(s, base);
        let p = pal_entries(s, base);
        &&& self.header.parsed_at(s, base)
        &&& self.textures@.len() == t.len()
        &&& forall|j: int| 0 <= j < t.len() ==> {
            &&& #[trigger] self.textures@[j].name@ == t[j].0
            &&& self.textures@[j].params == t[j].1
            &&& (self.textures@[j].data1@, self.textures@[j].data2@) == texture_bytes(s, base, t[j].1)
        }
        &&& self.palettes@.len() == p.len()
        &&& forall|j: int| 0 <= j < p.len() ==> {
            &&& #[trigger] self.palettes@[j].name@ == p[j].0
            &&& self.palettes@[j].offset == (p[j].1.pltt_base % 0x2000) * 8
            &&& self.palettes@[j].data() == pal_blob(s, base)->Some_0
        }
    }

    /// Whether `data` starts with the magic `TEX0`; too short data does not.
    pub fn probe(data: &[u8]) -> (r: bool)
        ensures
            r == spec_nstex_probe(data@),
    {
        if data.len() < 4 {
            return false;
        }
        let r = data[0] == 0x54 && data[1] == 0x45 && data[2] == 0x58 && data[3] == 0x30;
        proof {
            if r {
                assert(data@.subrange(0, 4) =~= tex0_magic());
            } else if data@.subrange(0, 4) == tex0_magic() {
                assert(data@.subrange(0, 4)[0] == data@[0]);
                assert(data@.subrange(0, 4)[1] == data@[1]);
                assert(data@.subrange(0, 4)[2] == data@[2]);
                assert(data@.subrange(0, 4)[3] == data@[3]);
            }
        }
        r
    }

    /// Reads the TEX0 block at `base`: its header, both dictionaries, its data blocks, and
    /// from them each texture's bytes and each palette.
    #[verifier::rlimit(100)]
    pub fn read(data: &[u8], base: usize) -> (r: Result<Nstex, RomReadError>)
        requires
            nstex_requires(data@, base as int),
        ensures
            r is Ok <==> nstex_error(data@, base as int) is None,
            r matches Err(e) ==> nstex_error(data@, base as int) == Some(e),
            r matches Ok(t) ==> t.parsed_from(data@, base as int),
    {
        let header = match NstexHeader::read(data, base) {
            Ok(h) => h,
            Err(e) => { return Err(RomReadError::Parse(e)); }
        };
        let n = data.len();
        let tex_pos = (base as u128) + (header.texture_dict_offset as u128);
        if tex_pos > n as u128 {
            return Err(RomReadError::Parse(ParseError::UnexpectedEof));
        }
        assert(tex_pos as usize == tex_dict_pos(data@, base as int));
        let tex_dict = read_nds_dict::<TextureParams>(data, tex_pos as usize)?;
        let pal_pos = (base as u128) + (header.palette_dict_offset as u128);
        if pal_pos > n as u128 {
            return Err(RomReadError::Parse(ParseError::UnexpectedEof));
        }
        assert(pal_pos as usize == pal_dict_pos(data@, base as int));
        let pal_dict = read_nds_dict::<PaletteParams>(data, pal_pos as usize)?;
        let texture_data = blob_at(data, base, header.texture_data_offset, header.texture_data_size())?;
        let compressed_texel_data = blob_at(data, base, header.compressed_texture_offset_texel_data, header.compressed_texture_data_size())?;
        let compressed_texel_attr = blob_at(data, base, header.compressed_texture_offset_texel_attr, (header.compressed_texture_data_size as usize) * 4)?;
        assert(header.palette_data_size * 8 <= usize::MAX) by {
            lemma_palette_size_fits(data@, base as int, header.palette_data_size);
        }
        let palette_data = palette_blob(data, base, &header)?;
        let ghost t = tex_entries(data@, base as int);
        let ghost p = pal_entries(data@, base as int);
        proof {
            let tp = tex_dict_pos(data@, base as int);
            let d = dict_fold(dict_names(data@, tp), dict_count(data@, tp));
            assert(tex_dict@.len() == t.len());
            assert forall|i: int| 0 <= i < t.len() implies (#[trigger] tex_dict@[i]).0@ == t[i].0 && tex_dict@[i].1 == t[i].1 by {
                assert(tex_dict@[i].0@ == d[i].0);
                assert(tex_dict@[i].1.parsed_at(data@, dict_entries_start(data@, tp) + TextureParams::entry_size() * d[i].1));
            }
            let pp = pal_dict_pos(data@, base as int);
            let dp = dict_fold(dict_names(data@, pp), dict_count(data@, pp));
            assert forall|i: int| 0 <= i < p.len() implies (#[trigger] pal_dict@[i]).0@ == p[i].0 && pal_dict@[i].1 == p[i].1 by {
                assert(pal_dict@[i].0@ == dp[i].0);
                assert(pal_dict@[i].1.parsed_at(data@, dict_entries_start(data@, pp) + PaletteParams::entry_size() * dp[i].1));
            }
        }
        assemble(header, tex_dict, pal_dict, texture_data, compressed_texel_data, compressed_texel_attr, palette_data,
            Ghost(data@), Ghost(base as int))
    }
}

/// The block from its read parts: each texture cut from the data blocks, each palette
/// sharing the palette data; fails on the first texture of an unknown format.
#[verifier::rlimit(50)]
fn assemble(header: NstexHeader, tex_dict: Vec<(String, TextureParams)>, pal_dict: Vec<(String, PaletteParams)>,
    texture_data: Vec<u8>, compressed_texel_data: Vec<u8>, compressed_texel_attr: Vec<u8>, palette_data: Vec<u8>,
    Ghost(s): Ghost<Seq<u8>>, Ghost(base): Ghost<int>) -> (r: Result<Nstex, RomReadError>)
    requires
        header.parsed_at(s, base),
        nstex_requires(s, base),
        spec_magic_struct_error(s, base, tex0_magic(), 60) is None,
        dict_error::<TextureParams>(s, tex_dict_pos(s, base)) is None,
        dict_error::<PaletteParams>(s, pal_dict_pos(s, base)) is None,
        tex_blob(s, base) == Some(texture_data@),
        ctex_blob(s, base) == Some(compressed_texel_data@),
        cattr_blob(s, base) == Some(compressed_texel_attr@),
        pal_blob(s, base) == Some(palette_data@),
        tex_dict@.len() == tex_entries(s, base).len(),
        forall|i: int| 0 <= i < tex_entries(s, base).len()
            ==> (#[trigger] tex_dict@[i]).0@ == tex_entries(s, base)[i].0 && tex_dict@[i].1 == tex_entries(s, base)[i].1,
        pal_dict@.len() == pal_entries(s, base).len(),
        forall|i: int| 0 <= i < pal_entries(s, base).len()
            ==> (#[trigger] pal_dict@[i]).0@ == pal_entries(s, base)[i].0 && pal_dict@[i].1 == pal_entries(s, base)[i].1,
    ensures
        r is Ok <==> first_bad_format(tex_entries(s, base), 0) is None,
        r matches Err(e) ==> e == RomReadError::Nds(NdsRomReadError::InvalidTextureFormat(first_bad_format(tex_entries(s, base), 0)->Some_0)),
        r matches Ok(n) ==> n.parsed_from(s, base),
{
    let ghost t = tex_entries(s, base);
    let ghost p = pal_entries(s, base);
    match find_bad_format(&tex_dict, Ghost(t)) {
        Some(raw) => { return Err(RomReadError::Nds(NdsRomReadError::InvalidTextureFormat(raw))); },
        None => {},
    }
    proof {
        assert forall|i: int| 0 <= i < t.len() && #[trigger] spec_format_from_raw(spec_format_raw(t[i].1)) is Some
            implies texture_in_range(s, base, t[i].1) by {
        }
    }
    let textures = build_textures(&tex_dict, &texture_data, &compressed_texel_data, &compressed_texel_attr, Ghost(s), Ghost(base), Ghost(t));
    let shared = Arc::new(palette_data);
    let palettes = build_palettes(&pal_dict, &shared, Ghost(p));
    Ok(Nstex { header, textures, palettes })
}

/// The palette data of the block at `base`, whose header is `header`.
fn palette_blob(data: &[u8], base: usize, header: &NstexHeader) -> (r: Result<Vec<u8>, RomReadError>)
    requires
        header.parsed_at(data@, base as int),
        header.palette_data_size * 8 <= usize::MAX,
    ensures
        r is Ok <==> pal_blob(data@, base as int) is Some,
        r matches Ok(v) ==> pal_blob(data@, base as int) == Some(v@),
        r matches Err(e) ==> e == RomReadError::Io(IoError::UnexpectedEof),
{
    blob_at(data, base, header.palette_data_offset, header.palette_data_size())
}

/// Once the header, both dictionaries and the texture blocks have been read, the palette
/// data's size in bytes fits in `usize`.
proof fn lemma_palette_size_fits(s: Seq<u8>, base: int, size: u32)
    requires
        nstex_requires(s, base),
        spec_magic_struct_error(s, base, tex0_magic(), 60) is None,
        dict_error::<TextureParams>(s, tex_dict_pos(s, base)) is None,
        dict_error::<PaletteParams>(s, pal_dict_pos(s, base)) is None,
        tex_blob(s, base) is Some,
        ctex_blob(s, base) is Some,
        cattr_blob(s, base) is Some,
        size == spec_u32_le(s, base + 48),
    ensures
        size * 8 <= usize::MAX,
{
    reveal(palette_size_fits);
}

/// The textures of a block, cut from its data blocks in dictionary order.
fn build_textures(tex_dict: &Vec<(String, TextureParams)>, texture_data: &Vec<u8>, compressed_texel_data: &Vec<u8>,
    compressed_texel_attr: &Vec<u8>, Ghost(s): Ghost<Seq<u8>>, Ghost(base): Ghost<int>, Ghost(t): Ghost<Seq<(Seq<char>, TextureParams)>>)
    -> (textures: Vec<NsTexture>)
    requires
        tex_dict@.len() == t.len(),
        forall|i: int| 0 <= i < t.len() ==> (#[trigger] tex_dict@[i]).0@ == t[i].0 && tex_dict@[i].1 == t[i].1,
        forall|i: int| 0 <= i < t.len() && #[trigger] spec_format_from_raw(spec_format_raw(t[i].1)) is Some
            ==> texture_in_range(s, base, t[i].1),
        tex_blob(s, base) == Some(texture_data@),
        ctex_blob(s, base) == Some(compressed_texel_data@),
        cattr_blob(s, base) == Some(compressed_texel_attr@),
        first_bad_format(t, 0) is None,
    ensures
        textures@.len() == t.len(),
        forall|i: int| 0 <= i < t.len() ==> {
            &&& #[trigger] textures@[i].name@ == t[i].0
            &&& textures@[i].params == t[i].1
            &&& (textures@[i].data1@, textures@[i].data2@) == texture_bytes(s, base, t[i].1)
        },
{
    let mut textures: Vec<NsTexture> = Vec::new();
    let mut j: usize = 0;
    while j < tex_dict.len()
        invariant
            j <= tex_dict@.len(),
            tex_dict@.len() == t.len(),
                forall|i: int| 0 <= i < t.len() ==> (#[trigger] tex_dict@[i]).0@ == t[i].0 && tex_dict@[i].1 == t[i].1,
            forall|i: int| 0 <= i < t.len() && #[trigger] spec_format_from_raw(spec_format_raw(t[i].1)) is Some
                ==> texture_in_range(s, base, t[i].1),
            tex_blob(s, base) == Some(texture_data@),
            ctex_blob(s, base) == Some(compressed_texel_data@),
            cattr_blob(s, base) == Some(compressed_texel_attr@),
            first_bad_format(t, j as int) is None,
            textures@.len() == j,
            forall|i: int| 0 <= i < j ==> {
                &&& #[trigger] textures@[i].name@ == t[i].0
                &&& textures@[i].params == t[i].1
                &&& (textures@[i].data1@, textures@[i].data2@) == texture_bytes(s, base, t[i].1)
            },
        decreases tex_dict@.len() - j,
    {
        let params = tex_dict[j].1;
        let raw = params.format();
        let format = match TextureFormat::from_raw(raw) {
            Some(f) => f,
            None => { proof { assert(false); } TextureFormat::Direct },
        };
        assert(spec_format_from_raw(spec_format_raw(t[j as int].1)) is Some);
        let (data1, data2) = cut_texture(params, format, texture_data, compressed_texel_data, compressed_texel_attr,
            Ghost(s), Ghost(base));
        textures.push(NsTexture { name: tex_dict[j].0.clone(), params, data1, data2 });
        j = j + 1;
    }
    textures
}

/// The palettes of a block, all sharing its palette data, in dictionary order.
fn build_palettes(pal_dict: &Vec<(String, PaletteParams)>, shared: &Arc<Vec<u8>>, Ghost(p): Ghost<Seq<(Seq<char>, PaletteParams)>>)
    -> (palettes: Vec<NsPalette>)
    requires
        pal_dict@.len() == p.len(),
        forall|i: int| 0 <= i < p.len() ==> (#[trigger] pal_dict@[i]).0@ == p[i].0 && pal_dict@[i].1 == p[i].1,
    ensures
        palettes@.len() == p.len(),
        forall|i: int| 0 <= i < p.len() ==> {
            &&& #[trigger] palettes@[i].name@ == p[i].0
            &&& palettes@[i].offset == (p[i].1.pltt_base % 0x2000) * 8
            &&& palettes@[i].data() == (**shared)@
        },
{
    let mut palettes: Vec<NsPalette> = Vec::new();
    let mut k: usize = 0;
    while k < pal_dict.len()
        invariant
            k <= pal_dict@.len(),
            pal_dict@.len() == p.len(),
            forall|i: int| 0 <= i < p.len() ==> (#[trigger] pal_dict@[i]).0@ == p[i].0 && pal_dict@[i].1 == p[i].1,
            palettes@.len() == k,
            forall|i: int| 0 <= i < k ==> {
                &&& #[trigger] palettes@[i].name@ == p[i].0
                &&& palettes@[i].offset == (p[i].1.pltt_base % 0x2000) * 8
                &&& palettes@[i].data() == (**shared)@
            },
        decreases pal_dict@.len() - k,
    {
        let params = pal_dict[k].1;
        palettes.push(NsPalette { name: pal_dict[k].0.clone(), offset: params.data_offset(), palette_data: arc_clone(shared) });
        k = k + 1;
    }
    palettes
}

/// The format number of the first entry whose format is unknown.
fn find_bad_format(dict: &Vec<(String, TextureParams)>, Ghost(t): Ghost<Seq<(Seq<char>, TextureParams)>>) -> (r: Option<u8>)
    requires
        dict@.len() == t.len(),
        forall|i: int| 0 <= i < t.len() ==> (#[trigger] dict@[i]).1 == t[i].1,
    ensures
        r == first_bad_format(t, 0),
{
    let mut j: usize = 0;
    while j < dict.len()
        invariant
            j <= dict@.len(),
            dict@.len() == t.len(),
            forall|i: int| 0 <= i < t.len() ==> (#[trigger] dict@[i]).1 == t[i].1,
            first_bad_format(t, 0) == first_bad_format(t, j as int),
        decreases dict@.len() - j,
    {
        let raw = dict[j].1.format();
        if TextureFormat::from_raw(raw).is_none() {
            return Some(raw);
        }
        j = j + 1;
    }
    None
}

/// Reads `len` bytes at `base + off`.
fn blob_at(data: &[u8], base: usize, off: u32, len: usize) -> (r: Result<Vec<u8>, RomReadError>)
    ensures
        r is Ok <==> bytes_at(data@, base + off, len as int) is Some,
        r matches Ok(v) ==> bytes_at(data@, base + off, len as int) == Some(v@),
        r matches Err(e) ==> e == RomReadError::Io(IoError::UnexpectedEof),
{
    if len == 0 {
        return Ok(Vec::new());
    }
    let start = (base as u128) + (off as u128);
    if start > data.len() as u128 {
        return Err(RomReadError::Io(IoError::UnexpectedEof));
    }
    read_blob(data, start as u64, len)
}

/// Cuts a texture's bytes from the data blocks of its block.
fn cut_texture(params: TextureParams, format: TextureFormat, tex: &Vec<u8>, ctex: &Vec<u8>, cattr: &Vec<u8>,
    Ghost(s): Ghost<Seq<u8>>, Ghost(base): Ghost<int>) -> (r: (Vec<u8>, Vec<u8>))
    requires
        spec_format_from_raw(spec_format_raw(params)) == Some(format),
        tex_blob(s, base) == Some(tex@),
        ctex_blob(s, base) == Some(ctex@),
        cattr_blob(s, base) == Some(cattr@),
        texture_in_range(s, base, params),
    ensures
        (r.0@, r.1@) == texture_bytes(s, base, params),
{
    let (w, h) = params.dimensions();
    assert(w * h * 16 <= 0xFFFF_FFFF) by (nonlinear_arith)
        requires w < 0x800, h < 0x800;
    let len = format.byte_len(w, h);
    let off = params.texture_data_offset();
    if format.is_compressed() {
        (copy_range(ctex.as_slice(), off, len), copy_range(cattr.as_slice(), off / 2, len / 2))
    } else {
        (copy_range(tex.as_slice(), off, len), Vec::new())
    }
}

/// Another handle on the same shared bytes (std's `Arc::clone`).
#[verifier::external_body]
fn arc_clone(a: &Arc<Vec<u8>>) -> (r: Arc<Vec<u8>>)
    ensures
        *r == **a,
{
    Arc::clone(a)
}

/// Each texture of a block read from `s` at `base` holds the bytes at its own offset: for
/// a texture whose image word is `w`, `(w & 0xFFFF) * 8` bytes into the texture data (for
/// a compressed one, into the compressed texel data, with its attributes at half that
/// offset), as many bytes as its format takes for its size.
#[verifier::rlimit(100)]
pub proof fn lemma_texture_bytes_at_offset(t: Nstex, s: Seq<u8>, base: int, j: int)
    requires
        nstex_requires(s, base),
        nstex_error(s, base) is None,
        t.parsed_from(s, base),
        0 <= j < t.textures@.len(),
    ensures
        ({
            let p = t.textures@[j].params;
            let f = spec_format_from_raw(spec_format_raw(p))->Some_0;
            let len = spec_byte_len(f, spec_width(p), spec_height(p));
            let off = (p.image_params % 0x10000) * 8;
            &&& spec_format_from_raw(spec_format_raw(p)) is Some
            &&& t.textures@[j].data1@.len() == len
            &&& f != TextureFormat::Compressed ==> {
                &&& t.textures@[j].data2@.len() == 0
                &&& forall|i: int| 0 <= i < len
                    ==> #[trigger] t.textures@[j].data1@[i] == s[base + spec_u32_le(s, base + 20) + off + i]
            }
            &&& f == TextureFormat::Compressed ==> {
                &&& t.textures@[j].data2@.len() == len / 2
                &&& forall|i: int| 0 <= i < len
                    ==> #[trigger] t.textures@[j].data1@[i] == s[base + spec_u32_le(s, base + 36) + off + i]
                &&& forall|i: int| 0 <= i < len / 2
                    ==> #[trigger] t.textures@[j].data2@[i] == s[base + spec_u32_le(s, base + 40) + off / 2 + i]
            }
        }),
{
    let te = tex_entries(s, base);
    let p = t.textures@[j].params;
    assert(t.textures@[j].name@ == te[j].0);
    assert(p == te[j].1);
    lemma_first_bad_format_none(te, 0, j);
    assert(tex_blob(s, base) is Some && ctex_blob(s, base) is Some && cattr_blob(s, base) is Some);
    assert(texture_in_range(s, base, p));
    lemma_cut_at_offset(s, base, p, t.textures@[j].data1@, t.textures@[j].data2@);
}

/// The bytes of one texture of a known format that lies inside its data, at its offset.
proof fn lemma_cut_at_offset(s: Seq<u8>, base: int, p: TextureParams, d1: Seq<u8>, d2: Seq<u8>)
    requires
        spec_format_from_raw(spec_format_raw(p)) is Some,
        tex_blob(s, base) is Some,
        ctex_blob(s, base) is Some,
        cattr_blob(s, base) is Some,
        texture_in_range(s, base, p),
        (d1, d2) == texture_bytes(s, base, p),
    ensures
        ({
            let f = spec_format_from_raw(spec_format_raw(p))->Some_0;
            let len = spec_byte_len(f, spec_width(p), spec_height(p));
            let off = (p.image_params % 0x10000) * 8;
            &&& d1.len() == len
            &&& f != TextureFormat::Compressed ==> {
                &&& d2.len() == 0
                &&& forall|i: int| 0 <= i < len ==> #[trigger] d1[i] == s[base + spec_u32_le(s, base + 20) + off + i]
            }
            &&& f == TextureFormat::Compressed ==> {
                &&& d2.len() == len / 2
                &&& forall|i: int| 0 <= i < len ==> #[trigger] d1[i] == s[base + spec_u32_le(s, base + 36) + off + i]
                &&& forall|i: int| 0 <= i < len / 2 ==> #[trigger] d2[i] == s[base + spec_u32_le(s, base + 40) + off / 2 + i]
            }
        }),
{
    let f = spec_format_from_raw(spec_format_raw(p))->Some_0;
    let len = spec_byte_len(f, spec_width(p), spec_height(p));
    assert(len >= 0) by (nonlinear_arith)
        requires len == (spec_width(p) * spec_height(p) * spec_bpp(f)) / 8;
}

/// No texture from `j` on has an unknown format when none from `start` on has.
proof fn lemma_first_bad_format_none(t: Seq<(Seq<char>, TextureParams)>, start: int, j: int)
    requires
        0 <= start <= j < t.len(),
        first_bad_format(t, start) is None,
    ensures
        spec_format_from_raw(spec_format_raw(t[j].1)) is Some,
    decreases j - start,
{
    if start < j {
        lemma_first_bad_format_none(t, start + 1, j);
    }
}

/// Every palette of a block read from `s` at `base` holds the whole palette data: the
/// `8 * size` bytes at `base + offset`, where the header stores `size` at 48 and `offset` at
/// 56; its colours start `(b & 0x1FFF) * 8` bytes in, for the base word `b` of its
/// dictionary entry.
pub proof fn lemma_palette_bytes(t: Nstex, s: Seq<u8>, base: int, j: int)
    requires
        nstex_error(s, base) is None,
        t.parsed_from(s, base),
        0 <= j < t.palettes@.len(),
    ensures
        t.palettes@[j].data().len() == spec_u32_le(s, base + 48) * 8,
        forall|i: int| 0 <= i < t.palettes@[j].data().len()
            ==> #[trigger] t.palettes@[j].data()[i] == s[base + spec_u32_le(s, base + 56) + i],
        t.palettes@[j].offset == (pal_entries(s, base)[j].1.pltt_base & 0x1FFF) * 8,
{
    let pe = pal_entries(s, base);
    assert(t.palettes@[j].name@ == pe[j].0);
    let b = pe[j].1.pltt_base;
    assert(b & 0x1FFF == b % 0x2000) by (bit_vector);
}

/// Only data that passes the probe can be read as a TEX0 block at its start.
pub proof fn lemma_nstex_read_needs_probe(s: Seq<u8>)
    ensures
        nstex_error(s, 0) is None ==> spec_nstex_probe(s),
{
}

} // verus!
