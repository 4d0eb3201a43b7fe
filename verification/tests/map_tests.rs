use ndscore::codec::nds::formats::gen4_map_matrix::Gen4MapMatrix as CodecMatrix;
use ndscore::codec::nds::formats::hgss_map::{HgSsMap, HgSsMapSpecialPermission, HgSsTilePermission};
use ndscore::platform::nds::formats::gen4_map_matrix::{Gen4MapMatrix, Gen4MapMatrixHeader};
use ndscore::rw::bytes::ParseError;

/// A 2×1 matrix named "AB" with header ids and altitudes.
fn sample_matrix() -> Vec<u8> {
    let mut v = vec![2u8, 1, 1, 1, 2, b'A', b'B'];
    v.extend_from_slice(&[0x10, 0x00, 0x20, 0x00]); // header ids 16, 32
    v.extend_from_slice(&[3, 4]); // altitudes
    v.extend_from_slice(&[7, 0, 123, 0]); // map files 7, 123
    v
}

#[test]
fn gen4_matrix_probe_wants_the_exact_size() {
    let v = sample_matrix();
    assert!(Gen4MapMatrix::probe(&v));
    assert!(!Gen4MapMatrix::probe(&v[..v.len() - 1]));
    let mut zero = v.clone();
    zero[0] = 0;
    assert!(!Gen4MapMatrix::probe(&zero));
    let mut unprintable = v.clone();
    unprintable[5] = 0x07;
    assert!(!Gen4MapMatrix::probe(&unprintable));
}

#[test]
fn gen4_matrix_reads_its_sections() {
    let m = Gen4MapMatrix::read(&sample_matrix()).unwrap();
    assert_eq!(m.header.global_map_width, 2);
    assert_eq!(m.header.prefix_name, "AB");
    assert_eq!(m.headers, Some(vec![16, 32]));
    assert_eq!(m.altitudes, Some(vec![3, 4]));
    assert_eq!(m.files, vec![7, 123]);
    assert_eq!(m.format_file_ids(), "    0   1\n0   7 123");
    assert_eq!(m.format_header_ids(), Some("   0  1\n0 16 32".to_string()));
    assert!(matches!(Gen4MapMatrix::read(&sample_matrix()[..10]), Err(ParseError::UnexpectedEof)));
}

#[test]
fn gen4_matrix_header_writes_and_reads_back() {
    let h = Gen4MapMatrixHeader {
        global_map_width: 2,
        global_map_height: 1,
        headers_section_present: 1,
        altitudes_section_present: 1,
        prefix_name_length: 0,
        prefix_name: "AB".to_string(),
    };
    let mut out = Vec::new();
    h.write(&mut out);
    assert_eq!(out, vec![2, 1, 1, 1, 2, b'A', b'B']);
    out.extend_from_slice(&sample_matrix()[7..]);
    assert_eq!(out, sample_matrix());
    let m = Gen4MapMatrix::read(&out).unwrap();
    assert_eq!(m.header.prefix_name_length, 2);
    assert_eq!(m.header.prefix_name, "AB");
}

#[test]
fn codec_matrix_reads_layers_in_order() {
    // 2×1, no u16 layer, a u8 layer, no name.
    let v = vec![2u8, 1, 0, 1, 0, 5, 0, 10, 0, 9, 8];
    assert!(CodecMatrix::probe(&v));
    assert!(!CodecMatrix::probe(&v[..10]));
    let m = CodecMatrix::read(&v).unwrap();
    assert_eq!(m.map_indices, vec![5, 10]);
    assert!(m.extra_u16_layer.is_none());
    assert_eq!(m.extra_u8_layer, Some(vec![9, 8]));
    assert_eq!(m.format_grid(), " 5 10");
    let mut out = Vec::new();
    m.header.write(&mut out);
    assert_eq!(out, vec![2, 1, 0, 1, 0]);
}

/// A map file: header, optional unknown section, permissions, one object, model, terrain.
fn sample_map(with_unknown: bool) -> Vec<u8> {
    let mut v = Vec::new();
    for x in [0x800u32, 48, 3, 2] {
        v.extend_from_slice(&x.to_le_bytes());
    }
    if with_unknown {
        v.extend_from_slice(&0x1234u16.to_le_bytes());
        v.extend_from_slice(&2u16.to_le_bytes());
        v.extend_from_slice(&[0xAA, 0xBB]);
    }
    let mut perms = vec![0u8; 2048];
    perms[2 * 992 + 1] = 0x08; // top-left tile: wall
    perms[2 * 1] = 0x02; // bottom row, second tile: grass
    v.extend_from_slice(&perms);
    let mut obj = vec![0u8; 48];
    obj[0..4].copy_from_slice(&77u32.to_le_bytes());
    obj[6..8].copy_from_slice(&5u16.to_le_bytes());
    obj[0x1D..0x21].copy_from_slice(&9u32.to_le_bytes());
    v.extend_from_slice(&obj);
    v.extend_from_slice(&[1, 2, 3]);
    v.extend_from_slice(&[4, 5]);
    v
}

#[test]
fn hgss_map_reads_every_section() {
    for with_unknown in [false, true] {
        let data = sample_map(with_unknown);
        assert!(HgSsMap::probe(&data));
        let m = HgSsMap::read(&data).unwrap();
        assert_eq!(m.header.permission_size, 0x800);
        assert_eq!(m.unknown_data, if with_unknown { Some(vec![0xAA, 0xBB]) } else { None });
        assert_eq!(m.permissions.tiles.len(), 1024);
        assert_eq!(m.permissions.tiles[1], HgSsTilePermission { special: 2, movement: 0 });
        assert_eq!(m.objects.len(), 1);
        assert_eq!(m.objects[0].object_id, 77);
        assert_eq!(m.objects[0].y_coord, 5);
        assert_eq!(m.objects[0].width, 9);
        assert_eq!(m.nsbmd, vec![1, 2, 3]);
        assert_eq!(m.bdhc, vec![4, 5]);
        assert!(matches!(HgSsMap::read(&data[..data.len() - 1]), Err(ParseError::UnexpectedEof)));
    }
    assert!(!HgSsMap::probe(&[0u8; 8]));
    assert!(!HgSsMap::probe(&[0u8; 4]));
}

#[test]
fn hgss_map_grid_draws_top_row_first() {
    let m = HgSsMap::read(&sample_map(false)).unwrap();
    let grid = m.permissions.to_grid_string();
    let lines: Vec<&str> = grid.split('\n').collect();
    assert_eq!(lines.len(), 33);
    assert_eq!(lines[32], "");
    assert_eq!(lines[0], format!("██{}", "  ".repeat(31)));
    assert_eq!(lines[31], format!("  ,,{}", "  ".repeat(30)));
}

#[test]
fn hgss_special_permissions_and_icons() {
    assert_eq!(HgSsMapSpecialPermission::from(0x00), HgSsMapSpecialPermission::FreePassage);
    assert_eq!(HgSsMapSpecialPermission::from(0x02), HgSsMapSpecialPermission::Grass);
    assert_eq!(HgSsMapSpecialPermission::from(0x13), HgSsMapSpecialPermission::Waterfall);
    assert_eq!(HgSsMapSpecialPermission::from(0x52), HgSsMapSpecialPermission::Surfing);
    assert_eq!(HgSsMapSpecialPermission::from(0xD5), HgSsMapSpecialPermission::RideJumpLeft);
    assert_eq!(HgSsMapSpecialPermission::from(0xE3), HgSsMapSpecialPermission::FreePassage);
    assert_eq!(HgSsMapSpecialPermission::from(0xA2), HgSsMapSpecialPermission::Unknown(0xA2));
    assert_eq!(HgSsMapSpecialPermission::from(0xA8), HgSsMapSpecialPermission::Unknown(0xA8));
    assert_eq!(HgSsMapSpecialPermission::Grass.icon(), ",,");
    assert_eq!(HgSsMapSpecialPermission::Waterfall.icon(), "~v");
    assert_eq!(HgSsMapSpecialPermission::FootOnSand.icon(), "°°");
    assert_eq!(HgSsMapSpecialPermission::Unknown(0xA2).icon(), "??");
    assert_eq!(HgSsTilePermission { special: 0x02, movement: 0x04 }.special(), HgSsMapSpecialPermission::FreePassage);
    assert_eq!(HgSsTilePermission { special: 0x02, movement: 0x00 }.special(), HgSsMapSpecialPermission::Grass);
}

/// The byte table of special permissions, written as range patterns.
fn expected_special(val: u8) -> HgSsMapSpecialPermission {
    match val {
        0x00
        | 0x04..=0x09
        | 0x0C..=0x0F
        | 0x18
        | 0x1A..=0x1B
        | 0x1D..=0x20
        | 0x23..=0x29
        | 0x2B..=0x32
        | 0x34..=0x35
        | 0x38..=0x39
        | 0x3C..=0x3F
        | 0x44..=0x48
        | 0x4A
        | 0x4C..=0x4F
        | 0x54..=0x5D
        | 0x60..=0x63
        | 0x66
        | 0x68
        | 0x6A..=0x6D
        | 0x6F..=0x70
        | 0x72
        | 0x74..=0x77
        | 0x79..=0x7B
        | 0x7D..=0x82
        | 0x84
        | 0x87..=0xA0
        | 0xAA..=0xD2
        | 0xDC..=0xDF
        | 0xED..=0xFF => HgSsMapSpecialPermission::FreePassage,
        0x02 => HgSsMapSpecialPermission::Grass,
        0x03 => HgSsMapSpecialPermission::HighGrass,
        0x0A => HgSsMapSpecialPermission::CaveEncounter,
        0x0B => HgSsMapSpecialPermission::PlainsEncounter,
        0x10..=0x12 | 0x14..=0x15 | 0x19 | 0x22 | 0x2A | 0x50..=0x53 | 0x73 | 0x78 | 0x7C => {
            HgSsMapSpecialPermission::Surfing
        }
        0x13 => HgSsMapSpecialPermission::Waterfall,
        0x16 | 0x1C => HgSsMapSpecialPermission::GoDown,
        0x17 => HgSsMapSpecialPermission::WaterSplash,
        0x21 => HgSsMapSpecialPermission::FootOnSand,
        0x33 | 0x36..=0x37 | 0x49 => HgSsMapSpecialPermission::Blocked,
        0x3A => HgSsMapSpecialPermission::JumpUp,
        0x3B => HgSsMapSpecialPermission::JumpDown,
        0x40 => HgSsMapSpecialPermission::RotateRight,
        0x41 => HgSsMapSpecialPermission::RotateLeft,
        0x42 => HgSsMapSpecialPermission::RotateUp,
        0x43 => HgSsMapSpecialPermission::RotateDown,
        0x4B => HgSsMapSpecialPermission::RockClimb,
        0x5E => HgSsMapSpecialPermission::StairsDown,
        0x5F => HgSsMapSpecialPermission::StairsUp,
        0x64 | 0x6E => HgSsMapSpecialPermission::DoorNoAnim,
        0x65 => HgSsMapSpecialPermission::ExitBuilding,
        0x67 => HgSsMapSpecialPermission::DoorJumpWarp,
        0x69 => HgSsMapSpecialPermission::DoorOpening,
        0x71 | 0xDB => HgSsMapSpecialPermission::ForceBike,
        0x83 => HgSsMapSpecialPermission::OpenPc,
        0x85 => HgSsMapSpecialPermission::OpenMapSinnoh,
        0x86 => HgSsMapSpecialPermission::BattleWatch,
        0xA1 => HgSsMapSpecialPermission::SnowWaist,
        0xA3 => HgSsMapSpecialPermission::SnowHead,
        0xA4 => HgSsMapSpecialPermission::MudWaist,
        0xA5 => HgSsMapSpecialPermission::MudHead,
        0xA6 => HgSsMapSpecialPermission::GrassMud,
        0xA7 => HgSsMapSpecialPermission::UnderGrassMud,
        0xA9 => HgSsMapSpecialPermission::SnowLow,
        0xD3..=0xD9 => HgSsMapSpecialPermission::RideJumpLeft,
        0xDA => HgSsMapSpecialPermission::RideBike,
        0xE0..=0xE2 | 0xEB..=0xEC => HgSsMapSpecialPermission::SignBookshelf,
        0xE4 => HgSsMapSpecialPermission::SignTrashCan,
        0xE5 => HgSsMapSpecialPermission::SignShelf,
        0xE6..=0xEA => HgSsMapSpecialPermission::SignNothing,
        0xE3 => HgSsMapSpecialPermission::FreePassage,
        other => HgSsMapSpecialPermission::Unknown(other),
    }
}

#[test]
fn hgss_special_permission_table_matches_every_byte() {
    for b in 0..=255u8 {
        assert_eq!(HgSsMapSpecialPermission::from(b), expected_special(b), "byte {:#04x}", b);
    }
}

/// The icon table, as a plain match.
fn expected_icon(p: HgSsMapSpecialPermission) -> &'static str {
    match p {
        HgSsMapSpecialPermission::FreePassage => "  ",
        HgSsMapSpecialPermission::Grass | HgSsMapSpecialPermission::HighGrass => ",,",
        HgSsMapSpecialPermission::GrassMud | HgSsMapSpecialPermission::UnderGrassMud => ",~",
        HgSsMapSpecialPermission::CaveEncounter => "..",
        HgSsMapSpecialPermission::PlainsEncounter => ". ",
        HgSsMapSpecialPermission::Surfing => "~~",
        HgSsMapSpecialPermission::Waterfall => "~v",
        HgSsMapSpecialPermission::WaterSplash => "~*",
        HgSsMapSpecialPermission::GoDown => "vv",
        HgSsMapSpecialPermission::Blocked => "XX",
        HgSsMapSpecialPermission::StairsUp => "/^",
        HgSsMapSpecialPermission::StairsDown => "/v",
        HgSsMapSpecialPermission::JumpUp => "^^",
        HgSsMapSpecialPermission::JumpDown => "vv",
        HgSsMapSpecialPermission::RotateRight => " >",
        HgSsMapSpecialPermission::RotateLeft => "< ",
        HgSsMapSpecialPermission::RotateUp => " ^",
        HgSsMapSpecialPermission::RotateDown => " v",
        HgSsMapSpecialPermission::RockClimb => "RC",
        HgSsMapSpecialPermission::DoorNoAnim | HgSsMapSpecialPermission::DoorOpening => "[]",
        HgSsMapSpecialPermission::DoorJumpWarp => "[!",
        HgSsMapSpecialPermission::ExitBuilding => "][",
        HgSsMapSpecialPermission::ForceBike | HgSsMapSpecialPermission::RideBike => "BB",
        HgSsMapSpecialPermission::OpenPc => "PC",
        HgSsMapSpecialPermission::OpenMapSinnoh => "MP",
        HgSsMapSpecialPermission::BattleWatch => "BW",
        HgSsMapSpecialPermission::SnowWaist => "::",
        HgSsMapSpecialPermission::SnowHead => ":^",
        HgSsMapSpecialPermission::SnowLow => ":.",
        HgSsMapSpecialPermission::MudWaist => "%%",
        HgSsMapSpecialPermission::MudHead => "%^",
        HgSsMapSpecialPermission::FootOnSand => "°°",
        HgSsMapSpecialPermission::RideJumpLeft => "<^",
        HgSsMapSpecialPermission::SignBookshelf => "SB",
        HgSsMapSpecialPermission::SignTrashCan => "ST",
        HgSsMapSpecialPermission::SignShelf => "SS",
        HgSsMapSpecialPermission::SignNothing => "S?",
        HgSsMapSpecialPermission::Unknown(_) => "??",
    }
}

#[test]
fn hgss_special_permission_icons_match_the_table() {
    for b in 0..=255u8 {
        let p = HgSsMapSpecialPermission::from(b);
        assert_eq!(p.icon(), expected_icon(p), "byte {:#04x}", b);
    }
}
