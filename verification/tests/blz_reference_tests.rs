use ndscore::compression::blz::blz_decompress;
use ndscore::compression::CompressionError;

/// The backwards-LZ scheme spelled out directly over the buffers.
fn reference(data: &[u8]) -> Result<Vec<u8>, CompressionError> {
    let len = data.len();
    if len < 8 {
        return Err(CompressionError::NotCompressed);
    }
    let packed = u32::from_le_bytes(data[len - 8..len - 4].try_into().unwrap());
    let extra_size = u32::from_le_bytes(data[len - 4..].try_into().unwrap()) as usize;
    let total_size = (packed & 0x00FF_FFFF) as usize;
    let hdr_size = (packed >> 24) as usize;
    if extra_size == 0 || hdr_size < 8 || total_size > len || hdr_size > total_size {
        return Err(CompressionError::NotCompressed);
    }
    let out_len = len + extra_size;
    let start = len - total_size;
    let mut out = vec![0u8; out_len];
    out[..start].copy_from_slice(&data[..start]);
    let mut src = len - hdr_size;
    let mut dst = out_len;
    while src > start && dst > start {
        src -= 1;
        let flags = data[src];
        for bit in 0..8u8 {
            if src <= start || dst <= start {
                break;
            }
            if flags & (0x80 >> bit) != 0 {
                if src < start + 2 {
                    return Err(CompressionError::BlzOutOfBounds { src, dst });
                }
                src -= 2;
                let op = (data[src + 1] as usize) << 8 | data[src] as usize;
                let run = (op >> 12) + 3;
                let ofs = (op & 0xFFF) + 3;
                for _ in 0..run {
                    if dst == 0 || dst + ofs > out_len {
                        return Err(CompressionError::BlzOutOfBounds { src, dst });
                    }
                    dst -= 1;
                    out[dst] = out[dst + ofs];
                }
            } else {
                src -= 1;
                dst -= 1;
                out[dst] = data[src];
            }
        }
    }
    Ok(out)
}

struct Lcg(u64);

impl Lcg {
    fn next(&mut self) -> u32 {
        self.0 = self.0.wrapping_mul(6364136223846793005).wrapping_add(1442695040888963407);
        (self.0 >> 33) as u32
    }
}

#[test]
fn blz_matches_the_scheme_on_many_inputs() {
    let mut rng = Lcg(42);
    let mut ok = 0;
    for _ in 0..3000 {
        let len = 8 + (rng.next() % 80) as usize;
        let mut data: Vec<u8> = (0..len).map(|_| rng.next() as u8).collect();
        // Mostly sensible footers, sometimes arbitrary ones.
        if rng.next() % 8 != 0 {
            let total = 8 + (rng.next() as usize) % (len - 7);
            let hdr = 8 + (rng.next() as usize) % (total - 7);
            let extra = 1 + rng.next() % 60;
            let packed = (total as u32) | ((hdr as u32) << 24);
            data[len - 8..len - 4].copy_from_slice(&packed.to_le_bytes());
            data[len - 4..].copy_from_slice(&extra.to_le_bytes());
        }
        let expected = reference(&data);
        if expected.is_ok() {
            ok += 1;
        }
        assert_eq!(blz_decompress(&data), expected, "input {:?}", data);
    }
    assert!(ok > 100);
}
