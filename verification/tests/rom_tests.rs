use ndscore::codec::common::platform::Platform;
use ndscore::codec::common::rom::{Rom, RomReadError};
use ndscore::codec::nds::fs::path::NdsPath;
use ndscore::codec::nds::fs::{NdsFileSystem, NdsFileSystemEntry, ROOT_DIR_ID};
use ndscore::codec::nds::rom::fat::{read_fat_entries, FatEntry};
use ndscore::codec::nds::rom::fnt::{read_fnt_main_entries, FntSubEntry};
use ndscore::codec::nds::rom::header::{NdsMakerCode, NdsUnitCode};
use ndscore::nds::games::dpp::DppFile;
use ndscore::nds::games::hgss::HgSsKnownFile;
use ndscore::platform::nds::formats::NdsFileFormat;
use ndscore::platform::nds::games::hgss::HgSsFile;
use ndscore::nds::rom::{NdsRom, NdsRomReadError};
use ndscore::platform::nds::fs::tree::{NdsFileTree, NdsFileTreeEntry, NdsFileTreeFilter};
use ndscore::platform::nds::games::hgss::HgSsRom;
use ndscore::platform::nds::games::{CommonFile, NdsGame, NdsGameRom};

fn put_u32(v: &mut [u8], pos: usize, x: u32) {
    v[pos..pos + 4].copy_from_slice(&x.to_le_bytes());
}

fn put_u16(v: &mut [u8], pos: usize, x: u16) {
    v[pos..pos + 2].copy_from_slice(&x.to_le_bytes());
}

/// A small ROM: one directory `maps` holding `a.bin` ("hello"), and `top.txt` ("hi") at the
/// root; the ARM9 binary holds the start of a HeartGold map header table.
fn sample_rom(game_code: &[u8; 4]) -> Vec<u8> {
    let mut v = vec![0u8; 0x1500];
    v[0..8].copy_from_slice(b"TESTGAME");
    v[12..16].copy_from_slice(game_code);
    // ARM9 at 0x1000 (60 bytes), ARM7 at 0x1100 (4 bytes).
    put_u32(&mut v, 0x20, 0x1000);
    put_u32(&mut v, 0x2C, 60);
    put_u32(&mut v, 0x30, 0x1100);
    put_u32(&mut v, 0x3C, 4);
    // FNT at 0x1200, FAT at 0x1300 (two entries).
    put_u32(&mut v, 0x40, 0x1200);
    put_u32(&mut v, 0x44, 0x40);
    put_u32(&mut v, 0x48, 0x1300);
    put_u32(&mut v, 0x4C, 16);
    put_u32(&mut v, 0x84, 0x4000);
    let sig = [0xFF, 0x00, 0x0F, 0x00, 0x00, 0x00, 0x8B, 0x00, 0x8F, 0x01];
    v[0x1000..0x100A].copy_from_slice(&sig);
    v[0x1000 + 24] = 0xFF;
    v[0x1000 + 25] = 0x00;
    v[0x1100..0x1104].copy_from_slice(b"ARM7");
    // Main table: root (sub-table at +16, first file 0, 2 directories), then `maps`.
    put_u32(&mut v, 0x1200, 16);
    put_u16(&mut v, 0x1204, 0);
    put_u16(&mut v, 0x1206, 2);
    put_u32(&mut v, 0x1208, 32);
    put_u16(&mut v, 0x120C, 1);
    put_u16(&mut v, 0x120E, 0xF000);
    // Root sub-table: file `top.txt` (id 0), directory `maps` (id 0xF001), end.
    let mut pos = 0x1210;
    v[pos] = 7;
    v[pos + 1..pos + 8].copy_from_slice(b"top.txt");
    pos += 8;
    v[pos] = 0x80 | 4;
    v[pos + 1..pos + 5].copy_from_slice(b"maps");
    put_u16(&mut v, pos + 5, 0xF001);
    pos += 7;
    v[pos] = 0;
    // `maps` sub-table: file `a.bin` (id 1), end.
    let mut pos = 0x1220;
    v[pos] = 5;
    v[pos + 1..pos + 6].copy_from_slice(b"a.bin");
    pos += 6;
    v[pos] = 0;
    // FAT: file 0 at 0x1400 ("hi"), file 1 at 0x1410 ("hello").
    put_u32(&mut v, 0x1300, 0x1400);
    put_u32(&mut v, 0x1304, 0x1402);
    put_u32(&mut v, 0x1308, 0x1410);
    put_u32(&mut v, 0x130C, 0x1415);
    v[0x1400..0x1402].copy_from_slice(b"hi");
    v[0x1410..0x1415].copy_from_slice(b"hello");
    v
}

#[test]
fn nds_rom_probe_looks_at_the_header_size_field() {
    assert!(NdsRom::probe(&sample_rom(b"IPKE")));
    assert!(!NdsRom::probe(&[0u8; 0x80]));
    assert!(!NdsRom::probe(&[0u8; 0x200]));
}

#[test]
fn nds_rom_reads_header_binaries_and_files() {
    let data = sample_rom(b"IPKE");
    let rom = NdsRom::read(&data).expect("valid ROM");
    assert_eq!(rom.name(), "TESTGAME");
    assert_eq!(rom.arm7_binary, b"ARM7".to_vec());
    assert_eq!(rom.arm9_binary.len(), 60);
    assert_eq!(rom.compressed_arm9_size, None);
    let fs = &rom.fs;
    assert_eq!(fs.directories.len(), 2);
    assert_eq!(fs.directories[0].id, ROOT_DIR_ID);
    assert_eq!(fs.directories[1].name, "maps");
    assert_eq!(fs.directories[1].id, 0xF001);
    assert_eq!(fs.files.len(), 2);
    assert_eq!(fs.files[0].name, "top.txt");
    assert_eq!(fs.files[1].name, "a.bin");
    assert_eq!(fs.files[1].parent_dir_id, 0xF001);
    assert_eq!(fs.files[1].size, 5);
    // The contents come back as stored.
    assert_eq!(fs.files[0].data.raw().unwrap(), b"hi".to_vec());
    assert_eq!(fs.files[1].data.raw().unwrap(), b"hello".to_vec());
    assert!(fs.files[1].data.format().is_none());
    assert_eq!(fs.files[1].name_with_ext_fallback(), "a.bin");
}

#[test]
fn fs_lookup_by_path() {
    let data = sample_rom(b"IPKE");
    let rom = NdsRom::read(&data).unwrap();
    let fs = &rom.fs;
    assert_eq!(fs.get_file(NdsPath::from("maps/a.bin")).map(|f| f.size), Some(5));
    assert_eq!(fs.get_file(NdsPath::from("/top.txt")).map(|f| f.id), Some(0));
    assert_eq!(fs.get_dir(NdsPath::from("maps")).map(|d| d.id), Some(0xF001));
    assert!(fs.get_file(NdsPath::from("maps")).is_none());
    assert!(fs.get_file(NdsPath::from("missing")).is_none());
    assert!(matches!(fs.get_entry(NdsPath::new()), Some(NdsFileSystemEntry::Directory(d)) if d.id == ROOT_DIR_ID));
    assert_eq!(fs.child_dirs(ROOT_DIR_ID).len(), 1);
    assert_eq!(fs.child_files(ROOT_DIR_ID).len(), 1);
    assert_eq!(fs.child_files(0xF001).len(), 1);
}

#[test]
fn fs_unnamed_fat_entries_become_root_files() {
    let mut data = sample_rom(b"IPKE");
    // A third FAT entry that no name refers to.
    data.extend_from_slice(&[0u8; 0x20]);
    let mut v = data;
    put_u32(&mut v, 0x4C, 24);
    put_u32(&mut v, 0x1310, 0x1402);
    put_u32(&mut v, 0x1314, 0x1404);
    let rom = NdsRom::read(&v).unwrap();
    assert_eq!(rom.fs.files.len(), 3);
    assert_eq!(rom.fs.files[2].name, "0002");
    assert_eq!(rom.fs.files[2].parent_dir_id, ROOT_DIR_ID);
}

#[test]
fn fs_bad_fat_reference_is_an_fnt_error() {
    let mut v = sample_rom(b"IPKE");
    put_u32(&mut v, 0x4C, 8);
    assert!(matches!(NdsRom::read(&v), Err(RomReadError::Nds(NdsRomReadError::FNTRead))));
}

#[test]
fn rom_binary_out_of_range_errors() {
    let mut v = sample_rom(b"IPKE");
    put_u32(&mut v, 0x2C, 0x10000);
    assert!(matches!(NdsRom::read(&v), Err(RomReadError::Nds(NdsRomReadError::Arm9BinaryLocation))));
    let mut v = sample_rom(b"IPKE");
    put_u32(&mut v, 0x3C, 0x10000);
    assert!(matches!(NdsRom::read(&v), Err(RomReadError::Nds(NdsRomReadError::Arm7BinaryLocation))));
    assert!(matches!(NdsRom::read(&[0u8; 16]), Err(RomReadError::Parse(_))));
}

#[test]
fn rom_dispatches_on_the_probe() {
    let data = sample_rom(b"ADAE");
    let rom = Rom::read(&data).unwrap();
    assert!(rom.is_nds());
    assert_eq!(rom.name(), "TESTGAME");
    assert_eq!(rom.platform(), Platform::Nds);
    assert_eq!(rom.platform().to_display_string(), "Nintendo DS");
    assert!(rom.nds().is_some());
    assert!(matches!(Rom::read(&[0u8; 64]), Err(RomReadError::UnknownFormat)));
}

#[test]
fn games_are_detected_by_code() {
    let hg = NdsRom::read(&sample_rom(b"IPKE")).unwrap();
    assert_eq!(NdsGame::detect(&hg), NdsGame::HeartGold);
    assert!(NdsGame::detect(&hg).is_hgss());
    let pt = NdsRom::read(&sample_rom(b"CPUE")).unwrap();
    assert_eq!(NdsGame::detect(&pt), NdsGame::Platinum);
    assert!(NdsGame::detect(&pt).is_dpp());
    let other = NdsRom::read(&sample_rom(b"ZZZZ")).unwrap();
    assert_eq!(NdsGame::detect(&other), NdsGame::Unknown);
    assert!(NdsGameRom::try_from(&other).is_none());
    let g = NdsGameRom::try_from(&pt).unwrap();
    assert_eq!(g.resolve(CommonFile::LandData).unwrap().to_display_string(), "/fielddata/land_data/land_data.narc");
    let g = NdsGameRom::try_from(&hg).unwrap();
    assert_eq!(g.resolve(CommonFile::MapMatrix).unwrap().to_display_string(), "/a/0/4/1");
    assert_eq!(g.rom().name(), "TESTGAME");
}

#[test]
fn hgss_map_header_table_is_found_in_arm9() {
    let rom = NdsRom::read(&sample_rom(b"IPGE")).unwrap();
    assert_eq!(rom.find_hgss_map_header_table_offset(), Some(0));
    let hg = HgSsRom::try_from(&rom).unwrap();
    assert_eq!(hg.find_map_header_table_offset(), Some(0));
    let headers = hg.read_map_headers();
    assert_eq!(headers.len(), 2);
    assert_eq!(headers[0].wild_pokemon_file_number, 0xFF);
    assert_eq!(headers[0].script_file_number, 139);
    assert_eq!(headers[0].level_script_file, 399);
    assert_eq!(headers[0].coords, 0x000F);
    assert_eq!(headers[0].world_map_x(), 0);
}

#[test]
fn file_tree_lists_and_filters() {
    let rom = NdsRom::read(&sample_rom(b"IPKE")).unwrap();
    let all = NdsFileTree::build(&rom.fs, &NdsFileTreeFilter::default());
    assert_eq!(all.root.children.len(), 2);
    match &all.root.children[0] {
        NdsFileTreeEntry::Dir(d) => {
            assert_eq!(d.name, "maps");
            assert_eq!(d.path, "maps");
            match &d.children[0] {
                NdsFileTreeEntry::File(f) => {
                    assert_eq!(f.path, "maps/a.bin");
                    assert_eq!(f.size, 5);
                },
                _ => panic!("expected a file"),
            }
        },
        _ => panic!("expected a directory"),
    }
    let mut filter = NdsFileTreeFilter::default();
    filter.search = "A.B".to_string();
    filter.include_empty_dirs = false;
    let some = NdsFileTree::build(&rom.fs, &filter);
    assert_eq!(some.root.children.len(), 1);
}

#[test]
fn fs_packs_into_a_zip() {
    let rom = NdsRom::read(&sample_rom(b"IPKE")).unwrap();
    let zip = rom.fs.to_zip(false).expect("zip");
    assert_eq!(&zip[..2], b"PK");
    let part = rom.fs.zip_dir_by_path(NdsPath::from("maps"), true).expect("zip of a directory");
    assert_eq!(&part[..2], b"PK");
    let missing = rom.fs.zip_dir_by_path(NdsPath::from("nope"), true);
    assert!(matches!(missing, Err(e) if e.message() == "Directory not found: nope"));
}

#[test]
fn rom_error_messages() {
    assert_eq!(RomReadError::UnknownFormat.message(), "Unknown ROM format");
    assert_eq!(RomReadError::Nds(NdsRomReadError::FNTRead).message(), "Failed to read the FNT");
}

#[test]
fn fs_tree_lines_draw_sorted_branches() {
    let rom = NdsRom::read(&sample_rom(b"IPKE")).unwrap();
    let lines: Vec<(String, String, Option<usize>)> =
        rom.fs.tree_lines().into_iter().map(|l| (l.prefix, l.name, l.size)).collect();
    assert_eq!(
        lines,
        vec![
            ("├── ".to_string(), "maps".to_string(), None),
            ("│   └── ".to_string(), "a.bin".to_string(), Some(5)),
            ("└── ".to_string(), "top.txt".to_string(), Some(2)),
        ]
    );
    // Files are listed by name: an unnamed entry "0002" comes before "top.txt".
    let mut v = sample_rom(b"IPKE");
    v.extend_from_slice(&[0u8; 0x20]);
    put_u32(&mut v, 0x4C, 24);
    put_u32(&mut v, 0x1310, 0x1402);
    put_u32(&mut v, 0x1314, 0x1404);
    let rom = NdsRom::read(&v).unwrap();
    let names: Vec<String> = rom.fs.tree_lines().into_iter().map(|l| l.name).collect();
    assert_eq!(names, vec!["maps", "a.bin", "0002", "top.txt"]);
}

#[test]
fn fs_walk_depth_is_checked() {
    let rom = NdsRom::read(&sample_rom(b"IPKE")).unwrap();
    // The root and `maps` below it: two levels.
    assert!(!rom.fs.walk_ends_within(0));
    assert!(!rom.fs.walk_ends_within(1));
    assert!(rom.fs.walk_ends_within(2));
    assert!(rom.fs.walk_ends_within(100));
}

#[test]
fn fs_skips_unused_fat_entries_and_saturates_sizes() {
    let mut v = sample_rom(b"IPKE");
    v.extend_from_slice(&[0u8; 0x20]);
    // Entries 2 (unused: both addresses zero) and 3 (end before start: empty).
    put_u32(&mut v, 0x4C, 32);
    put_u32(&mut v, 0x1310, 0);
    put_u32(&mut v, 0x1314, 0);
    put_u32(&mut v, 0x1318, 0x1410);
    put_u32(&mut v, 0x131C, 0x1400);
    let rom = NdsRom::read(&v).unwrap();
    assert_eq!(rom.fs.files.len(), 3);
    assert_eq!(rom.fs.files[2].name, "0003");
    assert_eq!(rom.fs.files[2].id, 3);
    assert_eq!(rom.fs.files[2].size, 0);
}

#[test]
fn header_codes_and_derived_values() {
    let mut v = sample_rom(b"IPKE");
    v[16] = b'0';
    v[17] = b'1';
    v[18] = 2;
    v[20] = 7;
    v[31] = 0x04;
    let rom = NdsRom::read(&v).unwrap();
    assert_eq!(rom.header.maker_code, NdsMakerCode::Nintendo);
    assert_eq!(rom.header.unit_code, NdsUnitCode::NdsDsi);
    assert_eq!(rom.header.chip_size(), 16 * 1024 * 1024);
    assert!(rom.header.is_skip_press_button());
    assert_eq!(NdsMakerCode::from_bytes(b'0', b'0'), NdsMakerCode::Homebrew);
    assert_eq!(NdsMakerCode::from_bytes(b'8', b'P'), NdsMakerCode::Unknown([b'8', b'P']));
    assert_eq!(NdsUnitCode::from_byte(0), NdsUnitCode::Nds);
    assert_eq!(NdsUnitCode::from_byte(3), NdsUnitCode::Dsi);
    assert_eq!(NdsUnitCode::from_byte(9), NdsUnitCode::Unknown(9));
}

#[test]
fn fat_and_fnt_entries() {
    let v = sample_rom(b"IPKE");
    let fat = read_fat_entries(&v, 0x1300, 2).unwrap();
    assert_eq!((fat[1].start_address, fat[1].end_address), (0x1410, 0x1415));
    assert_eq!(fat[1].size(), 5);
    assert!(!fat[1].is_unused());
    assert!(FatEntry { start_address: 0, end_address: 0 }.is_unused());
    assert_eq!(FatEntry { start_address: 9, end_address: 4 }.size(), 0);
    assert!(read_fat_entries(&v, v.len() - 4, 1).is_err());
    assert!(read_fat_entries(&v, v.len() + 4, 0).unwrap().is_empty());
    let main = read_fnt_main_entries(&v, 0x1200, 2).unwrap();
    assert_eq!(main[0].parent_id_or_count, 2);
    assert_eq!(main[1].sub_table_offset, 32);
    assert_eq!(main[1].parent_id_or_count, 0xF000);
    let file = FntSubEntry::read(&v, 0x1210).unwrap();
    assert!(!file.is_dir() && !file.is_end());
    assert_eq!(file.name(), "top.txt");
    let dir = FntSubEntry::read(&v, 0x1218).unwrap();
    assert!(dir.is_dir());
    assert_eq!(dir.sub_dir_id, Some(0xF001));
    assert!(FntSubEntry::read(&v, 0x121F).unwrap().is_end());
}

#[test]
fn fs_tables_read_relative_to_an_image_base() {
    let v = sample_rom(b"IPKE");
    // The same tables, with file addresses taken from 0x10 further on.
    let fat = vec![
        FatEntry { start_address: 0x1400 - 0x10, end_address: 0x1402 - 0x10 },
        FatEntry { start_address: 0x1410 - 0x10, end_address: 0x1415 - 0x10 },
    ];
    let fs = NdsFileSystem::read_tables(&v, &fat, 0x1200, 0x10).unwrap();
    assert_eq!(fs.files.len(), 2);
    assert_eq!(fs.files[1].data.raw().unwrap(), b"hello".to_vec());
    let past = vec![FatEntry { start_address: v.len() as u32, end_address: v.len() as u32 + 4 }];
    assert!(NdsFileSystem::read_tables(&v, &past, 0x1200, 0).is_err());
    let zip = fs.zip_dir_by_id(0xF001, false).unwrap();
    assert_eq!(&zip[..2], b"PK");
}

#[test]
fn known_game_files_resolve_to_paths() {
    assert_eq!(HgSsKnownFile::LandData.rom_path().to_display_string(), "/a/0/6/5");
    assert_eq!(HgSsKnownFile::MapNames.rom_path().components().last().unwrap(), "mapname.bin");
    assert_eq!(DppFile::from_common(CommonFile::MapMatrix), Some(DppFile::MapMatrix));
    assert_eq!(HgSsFile::from_common(CommonFile::LandData), Some(HgSsFile::LandData));
    assert_eq!(DppFile::MapMatrix.path().to_display_string(), "/fielddata/mapmatrix/map_matrix.narc");
}

#[test]
fn tree_filter_matching_rules() {
    let rom = NdsRom::read(&sample_rom(b"IPKE")).unwrap();
    let tree = NdsFileTree::build(&rom.fs, &NdsFileTreeFilter::default());
    let (dir, file) = match (&tree.root.children[0], &tree.root.children[1]) {
        (NdsFileTreeEntry::Dir(d), NdsFileTreeEntry::File(f)) => (d, f),
        _ => panic!("expected a directory, then a file"),
    };
    let mut f = NdsFileTreeFilter::default();
    assert!(f.matches_dir(dir));
    assert!(f.matches_file(file));
    f.search = "TOP".to_string();
    assert!(f.matches_file(file));
    f.search = "zzz".to_string();
    assert!(!f.matches_file(file));
    assert!(f.matches_dir(dir)); // it still has children
    f.search = String::new();
    f.formats = vec![NdsFileFormat::Narc];
    assert!(!f.matches_file(file)); // a plain file has no format
}

#[allow(dead_code)]
fn unused(_: &NdsFileSystem) {}
