use ndscore::codec::common::fmt::format_grid;
use ndscore::codec::nds::fs::path::NdsPath;
use ndscore::compression::blz::blz_decompress;
use ndscore::compression::CompressionError;
use ndscore::rw::bytes::ParseError;
use ndscore::rw::zero_padded_string::ZeroPaddedString;

#[test]
fn nds_path_push_inserts_one_slash() {
    let mut p = NdsPath::new();
    assert!(p.is_empty());
    p.push("a");
    p.push("b.narc");
    assert_eq!(p.to_display_string(), "a/b.narc");
    assert_eq!(p.components(), vec!["a".to_string(), "b.narc".to_string()]);
    let mut q = NdsPath::from("x/");
    q.push("y");
    assert_eq!(q.to_display_string(), "x/y");
}

#[test]
fn nds_path_components_skip_empty_parts() {
    let p = NdsPath::from("/fielddata//land_data/land_data.narc/");
    assert_eq!(p.components(), vec!["fielddata".to_string(), "land_data".to_string(), "land_data.narc".to_string()]);
    assert!(NdsPath::from("///").is_empty());
    assert!(NdsPath::default().is_empty());
    assert!(!NdsPath::from(String::from("a")).is_empty());
}

#[test]
fn format_grid_aligns_columns() {
    assert_eq!(format_grid(&[1, 22, 3, 4], 2), "   0  1\n0  1 22\n1  3  4");
}

#[test]
fn blz_short_or_unflagged_data_is_not_compressed() {
    assert_eq!(blz_decompress(&[1, 2, 3]), Err(CompressionError::NotCompressed));
    assert_eq!(blz_decompress(&[0; 16]), Err(CompressionError::NotCompressed));
}

#[test]
fn blz_decompresses_literals_and_a_copy() {
    // Flag byte 0x10: three literals, then a back-reference of 3 bytes at distance 3.
    let mut data = vec![0x00, 0x00, b'A', b'B', b'C', 0x10];
    let packed: u32 = 14 | (8 << 24);
    data.extend_from_slice(&packed.to_le_bytes());
    data.extend_from_slice(&1u32.to_le_bytes());
    let out = blz_decompress(&data).expect("valid block");
    assert_eq!(out.len(), data.len() + 1);
    let mut expected = vec![0u8; 9];
    expected.extend_from_slice(b"ABCABC");
    assert_eq!(out, expected);
}

#[test]
fn blz_reference_past_the_output_is_out_of_bounds() {
    // A back-reference first: it would copy from beyond the end of the output.
    let mut data = vec![0x00, 0x00, 0x80];
    let packed: u32 = 11 | (8 << 24);
    data.extend_from_slice(&packed.to_le_bytes());
    data.extend_from_slice(&1u32.to_le_bytes());
    assert!(matches!(blz_decompress(&data), Err(CompressionError::BlzOutOfBounds { .. })));
}

#[test]
fn error_messages() {
    assert_eq!(CompressionError::NotCompressed.message(), "The data was not compressed");
    assert_eq!(
        CompressionError::BlzOutOfBounds { src: 3, dst: 12 }.message(),
        "BLZ decompression out of bounds: src=3, dst=12"
    );
}

#[test]
fn zero_padded_string_reads_up_to_the_first_nul() {
    let data = b"xxHGSS\0\0junk";
    let z = ZeroPaddedString::<8>::read(data, 2).unwrap();
    assert_eq!(z.as_str(), "HGSS");
    assert!(z.eq_str("HGSS"));
    assert!(matches!(ZeroPaddedString::<8>::read(data, 6), Err(ParseError::UnexpectedEof)));
    assert!(matches!(ZeroPaddedString::<2>::read(&[0xFF, 0x00], 0), Err(ParseError::InvalidUtf8)));
}

#[test]
fn zero_padded_string_writes_padded_and_cut() {
    let mut out = vec![7u8];
    ZeroPaddedString::<6>("AB".to_string()).write(&mut out);
    assert_eq!(out, vec![7, b'A', b'B', 0, 0, 0, 0]);
    let mut cut = Vec::new();
    ZeroPaddedString::<3>("ABCDE".to_string()).write(&mut cut);
    assert_eq!(cut, b"ABC".to_vec());
    // What is written reads back.
    let mut buf = Vec::new();
    ZeroPaddedString::<12>("Pokémon".to_string()).write(&mut buf);
    assert_eq!(buf.len(), 12);
    assert_eq!(ZeroPaddedString::<12>::read(&buf, 0).unwrap().as_str(), "Pokémon");
}
