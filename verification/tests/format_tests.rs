use ndscore::codec::nds::formats::narc::Narc;
use ndscore::nds::fs::file::NdsFileData;
use ndscore::platform::nds::formats::hgss_map_header::HGSSMapHeader;
use ndscore::platform::nds::formats::nstex::decode::{decode_texture, NstexDecodeError};
use ndscore::platform::nds::formats::nstex::palette::{NsPalette, PaletteParams};
use ndscore::platform::nds::formats::nstex::texture::{NsTexture, TextureFormat, TextureParams};
use ndscore::platform::nds::formats::nsbtx::Nsbtx;
use ndscore::platform::nds::formats::nstex::Nstex;
use ndscore::platform::nds::formats::{NdsFileFormat, ParsedNdsFile};
use std::sync::Arc;

fn tex(format: u32, w: u32, h: u32, extra_bits: u32, data1: Vec<u8>, data2: Vec<u8>) -> NsTexture {
    NsTexture {
        name: "t".to_string(),
        params: TextureParams { image_params: (format << 26) | extra_bits, width_height: w | (h << 11) },
        data1,
        data2,
    }
}

fn palette(colors: &[u16]) -> NsPalette {
    let mut bytes = Vec::new();
    for c in colors {
        bytes.extend_from_slice(&c.to_le_bytes());
    }
    NsPalette { name: "p".to_string(), offset: 0, palette_data: Arc::new(bytes) }
}

fn pixels(b: &ndscore::gfx::rgba::RgbaBuffer) -> Vec<(u8, u8, u8, u8)> {
    (0..b.len()).map(|i| b.get_pixel_pos(i).map(|c| (c.r(), c.g(), c.b(), c.a())).unwrap()).collect()
}

#[test]
fn texture_formats_and_params() {
    assert_eq!(TextureFormat::from_raw(3), Some(TextureFormat::Palette16));
    assert_eq!(TextureFormat::from_raw(0), None);
    assert_eq!(TextureFormat::from_raw(8), None);
    assert_eq!(TextureFormat::Direct.bpp(), 16);
    assert_eq!(TextureFormat::Palette4.byte_len(8, 8), 16);
    assert!(!TextureFormat::Direct.requires_palette());
    assert!(TextureFormat::Compressed.is_compressed());
    let p = TextureParams { image_params: 0x2D_5A_00_03 | (1 << 29), width_height: 64 | (32 << 11) };
    assert_eq!(p.texture_data_offset(), 0x0003 * 8);
    assert_eq!(p.format(), 3);
    assert!(p.is_color_0_transparent());
    assert_eq!(p.s_size(), (0x2D5A0003u32 >> 20 & 7) as u8);
    assert_eq!(p.t_size(), (0x2D5A0003u32 >> 23 & 7) as u8);
    assert_eq!(p.dimensions(), (64, 32));
    assert_eq!(PaletteParams { pltt_base: 0xE003, unknown: 0 }.data_offset(), 0x0003 * 8);
}

#[test]
fn decode_palette16() {
    let t = tex(3, 2, 2, 0, vec![0x10, 0x32], vec![]);
    let pal = palette(&[0x001F, 0x03E0, 0x7C00, 0x7FFF]);
    let b = decode_texture(&t, Some(&pal)).unwrap();
    assert_eq!(pixels(&b), vec![(255, 0, 0, 255), (0, 255, 0, 255), (0, 0, 255, 255), (255, 255, 255, 255)]);
    let t0 = tex(3, 2, 2, 1 << 29, vec![0x10, 0x32], vec![]);
    let b0 = t0.decode(Some(&pal)).unwrap();
    assert_eq!(pixels(&b0)[0], (255, 0, 0, 0));
}

#[test]
fn decode_direct_gives_one_colour_per_texel() {
    // Two texels: 0x801F (red, alpha bit set) and 0x03E0 (green, alpha bit clear).
    let t = tex(7, 2, 1, 0, vec![0x1F, 0x80, 0xE0, 0x03], vec![]);
    let b = decode_texture(&t, None).unwrap();
    assert_eq!(pixels(&b), vec![(255, 0, 0, 255), (0, 255, 0, 0)]);
}

#[test]
fn decode_palette4_takes_two_bits_per_texel() {
    // A 4x1 texture is one byte: indices 0, 1, 2, 3 from the low bits up.
    let pal = palette(&[0x001F, 0x03E0, 0x7C00, 0x7FFF]);
    let t = tex(2, 4, 1, 0, vec![0b11_10_01_00], vec![]);
    let b = decode_texture(&t, Some(&pal)).unwrap();
    assert_eq!(pixels(&b), vec![(255, 0, 0, 255), (0, 255, 0, 255), (0, 0, 255, 255), (255, 255, 255, 255)]);
    assert_eq!(TextureFormat::Palette4.byte_len(4, 1), 1);
}

#[test]
fn texture_format_numbers_round_trip() {
    for raw in 1..=7u8 {
        let f = TextureFormat::from_raw(raw).unwrap();
        assert_eq!(f.raw(), raw);
    }
    assert_eq!(TextureFormat::Direct.raw(), 7);
}

#[test]
fn decode_a3i5_and_a5i3_alpha() {
    let pal = palette(&[0x0000, 0x03E0]);
    let t = tex(1, 1, 1, 0, vec![0x01 | (7 << 5)], vec![]);
    assert_eq!(pixels(&decode_texture(&t, Some(&pal)).unwrap()), vec![(0, 255, 0, 255)]);
    let t = tex(6, 1, 1, 0, vec![0x01 | (16 << 3)], vec![]);
    assert_eq!(pixels(&decode_texture(&t, Some(&pal)).unwrap()), vec![(0, 255, 0, 132)]);
}

#[test]
fn decode_compressed_block() {
    let pal = palette(&[0x001F, 0x03E0, 0x7C00, 0x7FFF]);
    // All texels 0 in mode 2: every pixel is palette colour 0.
    let t = tex(5, 4, 4, 0, vec![0, 0, 0, 0], vec![0x00, 0x80]);
    let b = decode_texture(&t, Some(&pal)).unwrap();
    assert_eq!(pixels(&b), vec![(255, 0, 0, 255); 16]);
    // Texel 2 in mode 1 is the mean of colours 0 and 1.
    let t = tex(5, 4, 4, 0, vec![2, 0, 0, 0], vec![0x00, 0x40]);
    let b = decode_texture(&t, Some(&pal)).unwrap();
    assert_eq!(pixels(&b)[0], (127, 127, 0, 255));
}

#[test]
fn decode_errors() {
    let t = tex(3, 2, 2, 0, vec![0, 0], vec![]);
    assert_eq!(decode_texture(&t, None).err(), Some(NstexDecodeError::MissingPalette));
    let t = tex(0, 2, 2, 0, vec![0, 0], vec![]);
    assert_eq!(t.format().err(), Some(NstexDecodeError::InvalidTextureFormat(0)));
    assert_eq!(NstexDecodeError::InvalidTextureFormat(9).message(), "Invalid texture format: 9");
}

#[test]
fn palette_colors_read_little_endian() {
    let pal = palette(&[0x1234, 0x7FFF]);
    let colors = pal.colors();
    assert_eq!(colors.get(0).map(|c| c.r()), Some(0x14));
    assert_eq!(colors.get(1).map(|c| c.b()), Some(31));
    assert!(colors.get(2).is_none());
}

#[test]
fn hgss_map_header_bit_fields() {
    let mut bytes = vec![0u8; 24];
    bytes[0] = 12;
    bytes[1] = 3;
    let coords: u16 = 0x0F | (12 << 4) | (33 << 10);
    bytes[2..4].copy_from_slice(&coords.to_le_bytes());
    bytes[19] = 0xA7;
    let flags: u32 = 1 | (5 << 1) | (3 << 8) | (10 << 12) | (2 << 18) | (7 << 20) | (0x55 << 25);
    bytes[20..24].copy_from_slice(&flags.to_le_bytes());
    let h = HGSSMapHeader::read(&bytes, 0).unwrap();
    assert_eq!(h.wild_pokemon_file_number, 12);
    assert!(h.kanto_flag());
    assert_eq!(h.weather_id(), 5);
    assert_eq!(h.location_type(), 3);
    assert_eq!(h.camera_angle_id(), 10);
    assert_eq!(h.follow_mode(), 2);
    assert_eq!(h.battle_background(), 7);
    assert_eq!(h.flags(), 0x55);
    assert_eq!(h.world_map_x(), 12);
    assert_eq!(h.world_map_y(), 33);
    assert_eq!(h.area_icon(), 7);
    assert!(HGSSMapHeader::read(&bytes, 1).is_err());
}

/// An archive holding one file `xyz` with the bytes `abc`.
fn sample_narc() -> Vec<u8> {
    let mut v = vec![0u8; 72];
    v[0..4].copy_from_slice(b"NARC");
    v[4..6].copy_from_slice(&0xFFFEu16.to_le_bytes());
    v[6..8].copy_from_slice(&0x0100u16.to_le_bytes());
    v[8..12].copy_from_slice(&72u32.to_le_bytes());
    v[12..14].copy_from_slice(&16u16.to_le_bytes());
    v[14..16].copy_from_slice(&3u16.to_le_bytes());
    v[16..20].copy_from_slice(b"BTAF");
    v[20..24].copy_from_slice(&20u32.to_le_bytes());
    v[24..26].copy_from_slice(&1u16.to_le_bytes());
    v[28..32].copy_from_slice(&0u32.to_le_bytes());
    v[32..36].copy_from_slice(&3u32.to_le_bytes());
    v[36..40].copy_from_slice(b"BTNF");
    v[40..44].copy_from_slice(&24u32.to_le_bytes());
    v[44..48].copy_from_slice(&8u32.to_le_bytes());
    v[48..50].copy_from_slice(&0u16.to_le_bytes());
    v[50..52].copy_from_slice(&1u16.to_le_bytes());
    v[52] = 3;
    v[53..56].copy_from_slice(b"xyz");
    v[56] = 0;
    v[60..64].copy_from_slice(b"GMIF");
    v[64..68].copy_from_slice(&12u32.to_le_bytes());
    v[68..71].copy_from_slice(b"abc");
    v
}

#[test]
fn narc_is_read_with_its_file_system() {
    let data = sample_narc();
    assert!(Narc::probe(&data));
    let narc = Narc::read(&data).expect("valid archive");
    assert_eq!(narc.btaf.num_files, 1);
    assert_eq!(narc.fs.files.len(), 1);
    assert_eq!(narc.fs.files[0].name, "xyz");
    assert_eq!(narc.fs.files[0].data.raw().unwrap(), b"abc".to_vec());
    let parsed = ParsedNdsFile::read(&data).unwrap();
    assert_eq!(parsed.format(), NdsFileFormat::Narc);
    let file = NdsFileData::new(data).unwrap();
    assert_eq!(file.format(), Some(NdsFileFormat::Narc));
    assert!(file.nested_fs().is_some());
    assert!(file.narc().is_some());
    assert!(file.gen4map().is_none());
}

#[test]
fn narc_bad_magic_is_an_assertion_error() {
    let mut data = sample_narc();
    data[16] = b'X';
    assert!(Narc::read(&data).is_err());
    assert!(!Narc::probe(b"NAR"));
}

#[test]
fn nds_file_format_names() {
    assert_eq!(NdsFileFormat::Narc.extension(), "narc");
    assert_eq!(NdsFileFormat::Gen4MapData.short_name(), "G4MAPDAT");
    assert_eq!(NdsFileFormat::Gen4MapMatrix.full_name(), "Pokémon Generation 4 Map Matrix");
    assert_eq!(NdsFileFormat::Narc.to_display_string(), "NARC");
    assert!(NdsFileFormat::Narc.explanation().starts_with("A Nitro Archive"));
}

#[test]
fn nstex_probe_checks_the_magic() {
    assert!(Nstex::probe(b"TEX0rest"));
    assert!(!Nstex::probe(b"TEX"));
    assert!(!Nstex::probe(b"BTX0"));
}

fn put16(v: &mut [u8], pos: usize, x: u16) {
    v[pos..pos + 2].copy_from_slice(&x.to_le_bytes());
}

fn put32(v: &mut [u8], pos: usize, x: u32) {
    v[pos..pos + 4].copy_from_slice(&x.to_le_bytes());
}

/// A TEX0 block: one 4x4 16-colour texture `tex` and one palette `pal` of four colours.
fn sample_tex0() -> Vec<u8> {
    let mut v = vec![0u8; 144];
    v[0..4].copy_from_slice(b"TEX0");
    put32(&mut v, 4, 144);
    put16(&mut v, 12, 1); // texture data: 8 bytes
    put16(&mut v, 14, 60); // texture dictionary
    put32(&mut v, 20, 128); // texture data
    put32(&mut v, 36, 136);
    put32(&mut v, 40, 136);
    put32(&mut v, 48, 1); // palette data: 8 bytes
    put32(&mut v, 52, 96); // palette dictionary
    put32(&mut v, 56, 136); // palette data
    // Texture dictionary at 60: one entry, no trie, parameters at 72, names at 80.
    v[61] = 1;
    put16(&mut v, 62, 36);
    put16(&mut v, 64, 8);
    put16(&mut v, 66, 8);
    put32(&mut v, 72, 3 << 26);
    put32(&mut v, 76, 4 | (4 << 11));
    v[80..83].copy_from_slice(b"tex");
    // Palette dictionary at 96: one entry, parameters at 108, names at 112.
    v[97] = 1;
    put16(&mut v, 98, 32);
    put16(&mut v, 100, 4);
    put16(&mut v, 102, 8);
    put16(&mut v, 108, 0);
    v[112..115].copy_from_slice(b"pal");
    // Texels: indices 0,1,2,3 repeating; palette: red, green, blue, white.
    for k in 0..8 {
        v[128 + k] = if k % 2 == 0 { 0x10 } else { 0x32 };
    }
    for (k, c) in [0x001Fu16, 0x03E0, 0x7C00, 0x7FFF].iter().enumerate() {
        put16(&mut v, 136 + 2 * k, *c);
    }
    v
}

#[test]
fn nstex_reads_textures_and_palettes() {
    let data = sample_tex0();
    assert!(Nstex::probe(&data));
    let tex0 = Nstex::read(&data, 0).expect("valid block");
    assert_eq!(tex0.header.chunk_size, 144);
    assert_eq!(tex0.header.texture_data_size(), 8);
    assert_eq!(tex0.header.palette_data_size(), 8);
    assert_eq!(tex0.textures.len(), 1);
    assert_eq!(tex0.textures[0].name, "tex");
    assert_eq!(tex0.textures[0].format(), Ok(TextureFormat::Palette16));
    assert_eq!(tex0.textures[0].dimensions(), (4, 4));
    assert_eq!(tex0.textures[0].data1, data[128..136].to_vec());
    assert!(tex0.textures[0].data2.is_empty());
    assert_eq!(tex0.palettes.len(), 1);
    assert_eq!(tex0.palettes[0].name, "pal");
    assert_eq!(tex0.palettes[0].offset, 0);
    assert_eq!(*tex0.palettes[0].palette_data, data[136..144].to_vec());
    let img = tex0.textures[0].decode(Some(&tex0.palettes[0])).unwrap();
    assert_eq!(pixels(&img)[0], (255, 0, 0, 255));
    assert_eq!(pixels(&img)[1], (0, 255, 0, 255));
    // The block can sit anywhere in a larger buffer.
    let mut shifted = vec![0xAAu8; 5];
    shifted.extend_from_slice(&data);
    assert_eq!(Nstex::read(&shifted, 5).unwrap().textures[0].name, "tex");
}

#[test]
fn nstex_rejects_a_bad_format_and_a_bad_magic() {
    let mut data = sample_tex0();
    put32(&mut data, 72, 0);
    assert!(matches!(
        Nstex::read(&data, 0),
        Err(ndscore::codec::common::rom::RomReadError::Nds(ndscore::nds::rom::NdsRomReadError::InvalidTextureFormat(0)))
    ));
    let mut bad = sample_tex0();
    bad[0] = b'X';
    assert!(matches!(Nstex::read(&bad, 0), Err(ndscore::codec::common::rom::RomReadError::Parse(_))));
}

#[test]
fn nsbtx_wraps_one_tex0_block() {
    let mut v = vec![0u8; 20];
    v[0..4].copy_from_slice(b"BTX0");
    put16(&mut v, 4, 0xFEFF);
    put16(&mut v, 6, 1);
    put32(&mut v, 8, 164);
    put16(&mut v, 12, 0x10);
    put16(&mut v, 14, 1);
    put32(&mut v, 16, 20);
    v.extend_from_slice(&sample_tex0());
    assert!(Nsbtx::probe(&v));
    let btx = Nsbtx::read(&v, 0).expect("valid file");
    assert_eq!(btx.header.offset, 20);
    assert_eq!(btx.texture.textures[0].name, "tex");
    let mut two = v.clone();
    put16(&mut two, 14, 2);
    assert!(!Nsbtx::probe(&two));
}
