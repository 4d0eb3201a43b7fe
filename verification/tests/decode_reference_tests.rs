use ndscore::gfx::rgba::RgbaBuffer;
use ndscore::platform::nds::formats::nstex::decode::decode_texture;
use ndscore::platform::nds::formats::nstex::palette::NsPalette;
use ndscore::platform::nds::formats::nstex::texture::{NsTexture, TextureParams};
use std::sync::Arc;

type Px = (u8, u8, u8, u8);

/// A small deterministic byte generator.
struct Lcg(u64);

impl Lcg {
    fn byte(&mut self) -> u8 {
        self.0 = self.0.wrapping_mul(6364136223846793005).wrapping_add(1442695040888963407);
        (self.0 >> 33) as u8
    }
    fn bytes(&mut self, n: usize) -> Vec<u8> {
        (0..n).map(|_| self.byte()).collect()
    }
}

fn ext5(x: u8) -> u8 {
    (x << 3) | (x >> 2)
}

fn rgb(c: u16, a: u8) -> Px {
    (ext5((c & 0x1F) as u8), ext5(((c >> 5) & 0x1F) as u8), ext5(((c >> 10) & 0x1F) as u8), a)
}

fn avg(a: Px, b: Px) -> Px {
    let f = |x: u8, y: u8| ((x as u16 + y as u16) / 2) as u8;
    (f(a.0, b.0), f(a.1, b.1), f(a.2, b.2), f(a.3, b.3))
}

fn avg358(a: Px, b: Px) -> Px {
    let f = |x: u8, y: u8| ((3 * x as u16 + 5 * y as u16) / 8) as u8;
    (f(a.0, b.0), f(a.1, b.1), f(a.2, b.2), f(a.3, b.3))
}

/// Pixels written in order into a `n`-pixel image; writes past the end are dropped.
struct Sink {
    px: Vec<Px>,
    pos: usize,
}

impl Sink {
    fn write(&mut self, p: Px) {
        if self.pos < self.px.len() {
            self.px[self.pos] = p;
            self.pos += 1;
        }
    }
}

/// A direct rendering of each texture format, following the hardware description.
fn reference(t: &NsTexture, colors: &[u16]) -> Vec<Px> {
    let w = (t.params.width_height & 0x7FF) as usize;
    let h = ((t.params.width_height >> 11) & 0x7FF) as usize;
    let format = (t.params.image_params >> 26) & 7;
    let c0t = (t.params.image_params >> 29) & 1 != 0;
    let n = w * h;
    let mut s = Sink { px: vec![(0, 0, 0, 0); n], pos: 0 };
    let col = |i: usize| colors.get(i).copied().unwrap_or(0);
    let indexed = |i: usize| if i == 0 && c0t { rgb(col(i), 0) } else { rgb(col(i), 255) };
    match format {
        1 => {
            for &b in &t.data1[..n] {
                let a = (b >> 5) & 7;
                s.write(rgb(col((b & 0x1F) as usize), ext5((a << 2) | (a >> 1))));
            }
        }
        2 => {
            for &b in &t.data1[..n / 4] {
                for k in 0..4 {
                    s.write(indexed(((b >> (2 * k)) & 3) as usize));
                }
            }
        }
        3 => {
            for &b in &t.data1[..n / 2] {
                s.write(indexed((b & 0xF) as usize));
                s.write(indexed((b >> 4) as usize));
            }
        }
        4 => {
            for &b in &t.data1[..n] {
                s.write(indexed(b as usize));
            }
        }
        5 => {
            for y in 0..h {
                for x in 0..w {
                    let bi = (y / 4) * (w / 4) + x / 4;
                    let block = u32::from_le_bytes(t.data1[4 * bi..4 * bi + 4].try_into().unwrap());
                    let extra = u16::from_le_bytes(t.data2[2 * bi..2 * bi + 2].try_into().unwrap());
                    let texel = (block >> (2 * (4 * (y % 4) + (x % 4)))) & 3;
                    let mode = (extra >> 14) & 3;
                    let base = ((extra & 0x3FFF) as usize) << 1;
                    let c = |k: usize| rgb(col(base + k), 255);
                    let clear = rgb(col(0), 0);
                    let p = match (mode, texel) {
                        (0, 3) | (1, 3) => clear,
                        (1, 2) => avg(c(0), c(1)),
                        (3, 2) => avg358(c(1), c(0)),
                        (3, 3) => avg358(c(0), c(1)),
                        (_, k) => c(k as usize),
                    };
                    s.write(p);
                }
            }
        }
        6 => {
            for &b in &t.data1[..n] {
                s.write(rgb(col((b & 7) as usize), ext5((b >> 3) & 0x1F)));
            }
        }
        7 => {
            for k in 0..n {
                let c = u16::from_le_bytes([t.data1[2 * k], t.data1[2 * k + 1]]);
                s.write(rgb(c, if c & 0x8000 != 0 { 255 } else { 0 }));
            }
        }
        _ => unreachable!(),
    }
    s.px
}

fn pixels(b: &RgbaBuffer) -> Vec<Px> {
    (0..b.len()).map(|i| b.get_pixel_pos(i).map(|c| (c.r(), c.g(), c.b(), c.a())).unwrap()).collect()
}

#[test]
fn decoding_matches_a_direct_rendering_of_every_format() {
    let mut rng = Lcg(7);
    let sizes = [(1u32, 1u32), (2, 2), (4, 4), (8, 4), (5, 3), (6, 8), (12, 9)];
    for format in 1..=7u32 {
        for &(w, h) in &sizes {
            for c0t in [false, true] {
                let n = (w * h) as usize;
                let colors: Vec<u16> = (0..300).map(|_| u16::from_le_bytes([rng.byte(), rng.byte()])).collect();
                let mut pal_bytes = vec![0xEEu8, 0xEE];
                for c in &colors {
                    pal_bytes.extend_from_slice(&c.to_le_bytes());
                }
                let pal = NsPalette { name: "p".to_string(), offset: 2, palette_data: Arc::new(pal_bytes) };
                let (data1, data2) = if format == 5 {
                    let blocks = ((h as usize + 3) / 4) * ((w as usize / 4).max(1)) + 1;
                    let mut extras = rng.bytes(2 * blocks);
                    for k in 0..blocks {
                        extras[2 * k] &= 0x3F;
                        extras[2 * k + 1] &= 0xC0;
                    }
                    (rng.bytes(4 * blocks), extras)
                } else if format == 7 {
                    (rng.bytes(2 * n + 1), Vec::new())
                } else {
                    (rng.bytes(n + 1), Vec::new())
                };
                let image_params = (format << 26) | if c0t { 1 << 29 } else { 0 };
                let t = NsTexture {
                    name: "t".to_string(),
                    params: TextureParams { image_params, width_height: w | (h << 11) },
                    data1,
                    data2,
                };
                let got = decode_texture(&t, Some(&pal)).expect("decodes");
                assert_eq!(got.width(), w);
                assert_eq!(got.height(), h);
                assert_eq!(pixels(&got), reference(&t, &colors), "format {format}, {w}x{h}, c0t {c0t}");
            }
        }
    }
}
