use ndscore::compression::blz::blz_fits;
use ndscore::nds::rom::NdsRom;
use ndscore::codec::common::rom::{IoError, RomReadError};
use ndscore::platform::nds::formats::nstex::palette::PaletteParams;
use ndscore::rw::blob::read_blob;
use ndscore::rw::bytes::{copy_range, read_array, read_bytes, read_u16_le, read_u16_vec, read_u32_le, read_u8, ParseError};
use ndscore::rw::nds_dict::read_nds_dict;
use ndscore::text::usize_to_decimal;

#[test]
fn byte_readers_are_little_endian_and_bounded() {
    let s = [0x01u8, 0x02, 0x03, 0x04, 0x05];
    assert_eq!(read_u8(&s, 4), Some(5));
    assert_eq!(read_u8(&s, 5), None);
    assert_eq!(read_u16_le(&s, 0), Some(0x0201));
    assert_eq!(read_u16_le(&s, 4), None);
    assert_eq!(read_u32_le(&s, 1), Some(0x05040302));
    assert_eq!(read_u32_le(&s, 2), None);
    assert_eq!(read_bytes(&s, 1, 3), Some(vec![2, 3, 4]));
    assert_eq!(read_bytes(&s, 3, 3), None);
    assert_eq!(read_bytes(&s, 9, 0), Some(vec![]));
    assert_eq!(copy_range(&s, 2, 2), vec![3, 4]);
    assert_eq!(read_array::<3>(&s, 2), [3, 4, 5]);
    assert_eq!(read_u16_vec(&s, 1, 2), Some(vec![0x0302, 0x0504]));
    assert_eq!(read_u16_vec(&s, 2, 2), None);
}

#[test]
fn blobs_are_cut_from_the_data() {
    let s = [9u8, 8, 7, 6];
    assert_eq!(read_blob(&s, 1, 2), Ok(vec![8, 7]));
    assert_eq!(read_blob(&s, 3, 2), Err(RomReadError::Io(IoError::UnexpectedEof)));
    assert_eq!(read_blob(&s, 1 << 40, 0), Ok(vec![]));
}

/// A dictionary of palette records: `names` with one record each (`pltt_base` = index).
fn dict(names: &[&str]) -> Vec<u8> {
    let n = names.len();
    let size = 12 + 4 * n + 16 * n;
    let mut v = vec![0u8; size];
    v[1] = n as u8;
    v[2..4].copy_from_slice(&(size as u16).to_le_bytes());
    v[6..8].copy_from_slice(&8u16.to_le_bytes());
    for (i, name) in names.iter().enumerate() {
        v[12 + 4 * i..14 + 4 * i].copy_from_slice(&(i as u16).to_le_bytes());
        let at = 12 + 4 * n + 16 * i;
        v[at..at + name.len()].copy_from_slice(name.as_bytes());
    }
    v
}

#[test]
fn dictionaries_pair_names_with_records() {
    let d = dict(&["a", "b", "a"]);
    let entries = read_nds_dict::<PaletteParams>(&d, 0).unwrap();
    let got: Vec<(String, u16)> = entries.into_iter().map(|(n, p)| (n, p.pltt_base)).collect();
    // "a" keeps its first place and takes its last record.
    assert_eq!(got, vec![("a".to_string(), 2), ("b".to_string(), 1)]);
    assert!(matches!(read_nds_dict::<PaletteParams>(&d[..8], 0), Err(RomReadError::Parse(ParseError::UnexpectedEof))));
    assert!(read_nds_dict::<PaletteParams>(&dict(&[]), 0).unwrap().is_empty());
}

#[test]
fn decimal_rendering() {
    assert_eq!(usize_to_decimal(0), "0");
    assert_eq!(usize_to_decimal(9), "9");
    assert_eq!(usize_to_decimal(1234567), "1234567");
}

#[test]
fn blz_and_arm9_length_checks() {
    // Not compressed: nothing to fit.
    assert!(blz_fits(&[0u8; 4]));
    assert!(blz_fits(&[0u8; 16]));
    // A compressed footer with a small extra size fits.
    let mut v = vec![0u8; 16];
    v[8..12].copy_from_slice(&(16u32 | (8u32 << 24)).to_le_bytes());
    v[12..16].copy_from_slice(&4u32.to_le_bytes());
    assert!(blz_fits(&v));
    assert!(NdsRom::arm9_fits(&[0u8; 0x20]));
    assert!(NdsRom::arm9_fits(&[0u8; 0x200]));
}
