use ndscore::gfx::rgb555::Rgb555;
use ndscore::gfx::rgba::{Rgba, RgbaBuffer, RgbaBufferWriter};

fn channels(c: Rgba) -> (u8, u8, u8, u8) {
    (c.r(), c.g(), c.b(), c.a())
}

#[test]
fn rgb555_channels_split_the_word() {
    let c = Rgb555::from_le(0b0_10101_00011_11111);
    assert_eq!(c.r(), 31);
    assert_eq!(c.g(), 3);
    assert_eq!(c.b(), 21);
}

#[test]
fn rgb555_extends_five_bits_to_eight() {
    assert_eq!(channels(Rgb555::from_le(0x7FFF).to_rgba_opaque()), (255, 255, 255, 255));
    assert_eq!(channels(Rgb555::from_le(0).to_rgba_opaque()), (0, 0, 0, 255));
    assert_eq!(channels(Rgb555::from_le(0x7FFF).to_rgba_transparent()), (255, 255, 255, 0));
    // 16 widens to (16 << 3) | (16 >> 2) = 132.
    assert_eq!(channels(Rgb555::from_le(16).to_rgba_opaque()), (132, 0, 0, 255));
    assert_eq!(channels(Rgb555::from_le(1).to_rgba_with_a5(31)), (8, 0, 0, 255));
    assert_eq!(channels(Rgb555::from_le(1).to_rgba_with_a5(16)), (8, 0, 0, 132));
}

#[test]
fn rgb555_alpha_bit_decides_opacity() {
    assert_eq!(channels(Rgb555::from_le(0x801F).to_rgba_with_alpha_bit()), (255, 0, 0, 255));
    assert_eq!(channels(Rgb555::from_le(0x001F).to_rgba_with_alpha_bit()), (255, 0, 0, 0));
}

#[test]
fn rgba_constructors_and_conversions() {
    assert_eq!(channels(Rgba::new(1, 2, 3, 4)), (1, 2, 3, 4));
    assert_eq!(channels(Rgba::from_rgb(1, 2, 3)), (1, 2, 3, 255));
    assert_eq!(channels(Rgba::from([9, 8, 7, 6])), (9, 8, 7, 6));
    assert_eq!(channels(Rgba::from([9, 8, 7])), (9, 8, 7, 255));
    let arr: [u8; 4] = Rgba::new(5, 6, 7, 8).into();
    assert_eq!(arr, [5, 6, 7, 8]);
    assert_eq!(channels(Rgba::default()), (0, 0, 0, 0));
}

#[test]
fn rgba_buffer_starts_transparent_and_sets_pixels() {
    let mut b = RgbaBuffer::new(3, 2);
    assert_eq!(b.width(), 3);
    assert_eq!(b.height(), 2);
    assert_eq!(b.len(), 6);
    assert!(!b.is_empty());
    assert_eq!(b.get_pixel(2, 1).map(channels), Some((0, 0, 0, 0)));
    b.set_pixel(2, 1, Rgba::new(1, 2, 3, 4));
    assert_eq!(b.get_pixel(2, 1).map(channels), Some((1, 2, 3, 4)));
    assert_eq!(b.get_pixel_pos(5).map(channels), Some((1, 2, 3, 4)));
    // Out of range: nothing is read and nothing is written.
    assert!(b.get_pixel(0, 2).is_none());
    b.set_pixel_pos(6, Rgba::new(9, 9, 9, 9));
    assert_eq!(b.len(), 6);
    if let Some(p) = b.get_pixel_mut(0, 0) {
        *p = Rgba::new(7, 7, 7, 7);
    }
    assert_eq!(b.get_pixel(0, 0).map(channels), Some((7, 7, 7, 7)));
    assert!(b.get_pixel_pos_mut(6).is_none());
    assert!(RgbaBuffer::new(0, 5).is_empty());
}

#[test]
fn rgba_buffer_raw_round_trip() {
    let bytes = vec![1, 2, 3, 4, 5, 6, 7, 8];
    let b = RgbaBuffer::from_raw(2, 1, bytes.clone()).expect("two pixels");
    assert_eq!(b.get_pixel(1, 0).map(channels), Some((5, 6, 7, 8)));
    assert_eq!(b.as_bytes(), bytes);
    assert_eq!(b.into_raw(), bytes);
    assert!(RgbaBuffer::from_raw(2, 1, vec![1, 2, 3]).is_none());
}

#[test]
fn rgba_buffer_rows() {
    let mut b = RgbaBuffer::from_raw(2, 2, (0u8..16).collect()).unwrap();
    let row = b.row(1);
    assert_eq!(row.len(), 2);
    assert_eq!(channels(row[0]), (8, 9, 10, 11));
    b.row_mut(0)[1] = Rgba::new(0, 0, 0, 1);
    assert_eq!(b.get_pixel(1, 0).map(channels), Some((0, 0, 0, 1)));
}

#[test]
fn rgba_buffer_writer_fills_in_order() {
    let mut b = RgbaBuffer::new(2, 2);
    {
        let mut w = RgbaBufferWriter::new(&mut b);
        assert_eq!(w.width(), 2);
        assert_eq!(w.height(), 2);
        assert_eq!(w.remaining(), 4);
        assert!(w.write(Rgba::new(1, 1, 1, 1)));
        w.write_row(&[Rgba::new(2, 2, 2, 2), Rgba::new(3, 3, 3, 3), Rgba::new(4, 4, 4, 4), Rgba::new(5, 5, 5, 5)]);
        assert!(w.is_done());
        assert_eq!(w.remaining(), 0);
        assert!(!w.write(Rgba::new(6, 6, 6, 6)));
    }
    assert_eq!(b.get_pixel_pos(0).map(channels), Some((1, 1, 1, 1)));
    assert_eq!(b.get_pixel_pos(3).map(channels), Some((4, 4, 4, 4)));
}

#[test]
fn rgba_buffer_renders_png() {
    let b = RgbaBuffer::from_raw(1, 1, vec![255, 0, 0, 255]).unwrap();
    let png = b.render_png().expect("a 1x1 image encodes");
    assert_eq!(&png[..8], &[0x89, b'P', b'N', b'G', 0x0D, 0x0A, 0x1A, 0x0A]);
}
