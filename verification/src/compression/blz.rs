//! Backwards-LZ ("BLZ") decompression, as used for the ARM9 binary of DS ROMs.
use crate::compression::CompressionError;
use crate::rw::bytes::{read_u32_le, spec_u32_le};
use vstd::prelude::*;

verus! {

/// The eight-byte footer that ends a BLZ-compressed block.
#[derive(Debug, Clone, Copy, PartialEq, Eq, Structural)]
pub struct BlzFooter {
    /// Packed: low 24 bits = total compressed size, high 8 bits = header size.
    pub packed_sizes: u32,
    /// How many extra bytes the decompressed output has over the input.
    pub extra_size: u32,
}

impl BlzFooter {
    pub fn total_size(&self) -> (r: usize)
        ensures
            r == self.packed_sizes % 0x0100_0000,
    {
        let p = self.packed_sizes;
        let v: u32 = p & 0x00FF_FFFF;
        assert(p & 0x00FF_FFFF == p % 0x0100_0000) by (bit_vector);
        v as usize
    }

    pub fn hdr_size(&self) -> (r: usize)
        ensures
            r == self.packed_sizes / 0x0100_0000,
    {
        let p = self.packed_sizes;
        let v: u32 = p >> 24;
        assert(p >> 24 == p / 0x0100_0000) by (bit_vector);
        v as usize
    }
}

/// Whether bit `bit` (counted from the most significant end) of a flag byte is set.
pub open spec fn flag_set(flags: u8, bit: int) -> bool {
    flags & (0x80u8 >> (bit as u8)) != 0u8
}

/// Copies `n` bytes backwards inside `out`, each one from `ofs` bytes further on,
/// starting at `dst`; returns the buffer and the new `dst`.
pub open spec fn blz_copy(out: Seq<u8>, dst: int, ofs: int, n: nat, dlen: int, src: int) -> Result<(Seq<u8>, int), CompressionError>
    decreases n,
{
    if n == 0 {
        Ok((out, dst))
    } else if dst <= 0 || dst + ofs > dlen {
        Err(CompressionError::BlzOutOfBounds { src: src as usize, dst: dst as usize })
    } else {
        blz_copy(out.update(dst - 1, out[dst - 1 + ofs]), dst - 1, ofs, (n - 1) as nat, dlen, src)
    }
}

/// The back-reference token stored little-endian at `data[src..src + 2]`.
pub open spec fn blz_token(data: Seq<u8>, src: int) -> int {
    data[src + 1] * 256 + data[src]
}

/// Decoding of the remaining bits `bit..8` of the flag byte `flags`, then of the rest.
pub open spec fn blz_bits(data: Seq<u8>, cs: nat, dlen: int, out: Seq<u8>, src: nat, dst: int, flags: u8, bit: nat) -> Result<Seq<u8>, CompressionError>
    decreases src, 1nat, 8 - bit,
{
    if bit >= 8 || src <= cs || dst <= cs {
        blz_blocks(data, cs, dlen, out, src, dst)
    } else if flag_set(flags, bit as int) {
        if src < cs + 2 {
            Err(CompressionError::BlzOutOfBounds { src: src as usize, dst: dst as usize })
        } else {
            let s2 = (src - 2) as nat;
            let op = blz_token(data, s2 as int);
            match blz_copy(out, dst, op % 4096 + 3, (op / 4096 + 3) as nat, dlen, s2 as int) {
                Ok((o, d)) => blz_bits(data, cs, dlen, o, s2, d, flags, bit + 1),
                Err(e) => Err(e),
            }
        }
    } else {
        blz_bits(data, cs, dlen, out.update(dst - 1, data[src - 1]), (src - 1) as nat, dst - 1, flags, bit + 1)
    }
}

/// Decoding from the flag byte just below `src` onwards.
pub open spec fn blz_blocks(data: Seq<u8>, cs: nat, dlen: int, out: Seq<u8>, src: nat, dst: int) -> Result<Seq<u8>, CompressionError>
    decreases src, 0nat, 0nat,
{
    if src > cs && dst > cs {
        blz_bits(data, cs, dlen, out, (src - 1) as nat, dst, data[src - 1], 0)
    } else {
        Ok(out)
    }
}

/// The footer fields of a block of at least eight bytes.
pub open spec fn footer_of(data: Seq<u8>) -> BlzFooter {
    BlzFooter {
        packed_sizes: spec_u32_le(data, data.len() - 8),
        extra_size: spec_u32_le(data, data.len() - 4),
    }
}

/// Whether the footer of `data` announces a compressed block.
pub open spec fn is_blz_compressed(data: Seq<u8>) -> bool {
    let f = footer_of(data);
    let total = f.packed_sizes % 0x0100_0000;
    let hdr = f.packed_sizes / 0x0100_0000;
    &&& data.len() >= 8
    &&& f.extra_size != 0
    &&& hdr >= 8
    &&& total <= data.len()
    &&& hdr <= total
}

/// What decompressing `data` gives.
pub open spec fn spec_blz_decompress(data: Seq<u8>) -> Result<Seq<u8>, CompressionError> {
    if !is_blz_compressed(data) {
        Err(CompressionError::NotCompressed)
    } else {
        let f = footer_of(data);
        let total = f.packed_sizes % 0x0100_0000;
        let hdr = f.packed_sizes / 0x0100_0000;
        let dlen = data.len() + f.extra_size;
        let cs = (data.len() - total) as nat;
        let out0 = data.subrange(0, cs as int) + Seq::new((dlen - cs) as nat, |i: int| 0u8);
        blz_blocks(data, cs, dlen, out0, (data.len() - hdr) as nat, dlen)
    }
}

/// Whether decompressing `data` needs no more room than an address can hold: the
/// decompressed length of a compressed block fits in `usize`.
pub fn blz_fits(data: &[u8]) -> (r: bool)
    ensures
        r == (is_blz_compressed(data@) ==> data@.len() + footer_of(data@).extra_size <= usize::MAX),
{
    let len = data.len();
    if len < 8 {
        return true;
    }
    let packed_sizes = match read_u32_le(data, len - 8) { Some(v) => v, None => { return true; } };
    let extra = match read_u32_le(data, len - 4) { Some(v) => v, None => { return true; } };
    let footer = BlzFooter { packed_sizes, extra_size: extra };
    assert(footer == footer_of(data@));
    let total_size = footer.total_size();
    let hdr_size = footer.hdr_size();
    if extra == 0 || hdr_size < 8 || total_size > len || hdr_size > total_size {
        return true;
    }
    (extra as usize) <= usize::MAX - len
}

/// Decompress a BLZ (Backwards LZ) compressed NDS ARM binary.
///
/// Returns `Err(NotCompressed)` if the footer indicates no compression.
pub fn blz_decompress(data: &[u8]) -> (r: Result<Vec<u8>, CompressionError>)
    requires
        is_blz_compressed(data@) ==> data@.len() + footer_of(data@).extra_size <= usize::MAX,
    ensures
        r matches Ok(v) ==> spec_blz_decompress(data@) == Ok::<Seq<u8>, CompressionError>(v@),
        r matches Err(e) ==> spec_blz_decompress(data@) == Err::<Seq<u8>, CompressionError>(e),
        r matches Ok(v) ==> v@.len() == data@.len() + footer_of(data@).extra_size,
        !is_blz_compressed(data@) <==> r == Err::<Vec<u8>, CompressionError>(CompressionError::NotCompressed),
{
    let len = data.len();
    if len < 8 {
        return Err(CompressionError::NotCompressed);
    }
    let packed_sizes = match read_u32_le(data, len - 8) { Some(v) => v, None => { return Err(CompressionError::NotCompressed); } };
    let extra = match read_u32_le(data, len - 4) { Some(v) => v, None => { return Err(CompressionError::NotCompressed); } };
    let footer = BlzFooter { packed_sizes, extra_size: extra };
    assert(footer == footer_of(data@));

    let total_size = footer.total_size();
    let hdr_size = footer.hdr_size();
    let extra_size = footer.extra_size as usize;

    if extra_size == 0 || hdr_size < 8 || total_size > len || hdr_size > total_size {
        return Err(CompressionError::NotCompressed);
    }

    let decompressed_len = len + extra_size;
    let comp_start = len - total_size;

    let mut out: Vec<u8> = Vec::with_capacity(decompressed_len);
    let mut k: usize = 0;
    while k < decompressed_len
        invariant
            k <= decompressed_len,
            comp_start <= len,
            len == data@.len(),
            decompressed_len == len + extra_size,
            out@.len() == k,
            forall|i: int| 0 <= i < k ==> out@[i] == (if i < comp_start { data@[i] } else { 0u8 }),
        decreases decompressed_len - k,
    {
        if k < comp_start {
            out.push(data[k]);
        } else {
            out.push(0u8);
        }
        k = k + 1;
    }
    let ghost dlen = decompressed_len as int;
    let ghost cs = comp_start as nat;
    let ghost out0 = data@.subrange(0, cs as int) + Seq::new((dlen - cs) as nat, |i: int| 0u8);
    assert(out@ =~= out0);
    let ghost result = spec_blz_decompress(data@);
    assert(result == blz_blocks(data@, cs, dlen, out@, (len - hdr_size) as nat, dlen));

    let mut src: usize = len - hdr_size;
    let mut dst: usize = decompressed_len;

    while src > comp_start && dst > comp_start
        invariant
            len == data@.len(),
            comp_start <= src <= len,
            dst <= decompressed_len,
            out@.len() == decompressed_len,
            decompressed_len == dlen,
            comp_start == cs,
            blz_blocks(data@, cs, dlen, out@, src as nat, dst as int) == result,
            result == spec_blz_decompress(data@),
            is_blz_compressed(data@),
        decreases src,
    {
        src = src - 1;
        let flags = data[src];
        let ghost src0 = src;
        let mut bit: u8 = 0;
        while bit < 8
            invariant
                src <= src0,
                len == data@.len(),
                comp_start <= src < len,
                dst <= decompressed_len,
                out@.len() == decompressed_len,
                decompressed_len == dlen,
                comp_start == cs,
                bit <= 8,
                blz_bits(data@, cs, dlen, out@, src as nat, dst as int, flags, bit as nat) == result,
                result == spec_blz_decompress(data@),
                is_blz_compressed(data@),
            ensures
                src <= src0,
                comp_start <= src <= len,
                dst <= decompressed_len,
                out@.len() == decompressed_len,
                blz_blocks(data@, cs, dlen, out@, src as nat, dst as int) == result,
            decreases 8 - bit,
        {
            if src <= comp_start || dst <= comp_start {
                break;
            }
            let is_ref = flags & (0x80u8 >> bit) != 0;
            assert(is_ref == flag_set(flags, bit as nat as int));
            if is_ref {
                if src - comp_start < 2 {
                    return Err(CompressionError::BlzOutOfBounds { src, dst });
                }
                src = src - 2;
                let op: usize = (data[src + 1] as usize) * 256 + data[src] as usize;
                let run: usize = op / 4096 + 3;
                let ofs: usize = op % 4096 + 3;
                assert(op == blz_token(data@, src as int));
                let ghost after = |o: Seq<u8>, d: int| blz_bits(data@, cs, dlen, o, src as nat, d, flags, (bit + 1) as nat);
                let mut j: usize = 0;
                while j < run
                    invariant
                        j <= run,
                        dst <= decompressed_len,
                        out@.len() == decompressed_len,
                        decompressed_len == dlen,
                        ofs <= 4098,
                        (match blz_copy(out@, dst as int, ofs as int, (run - j) as nat, dlen, src as int) {
                            Ok((o, d)) => after(o, d),
                            Err(e) => Err(e),
                        }) == result,
                        result == spec_blz_decompress(data@),
                        is_blz_compressed(data@),
                    decreases run - j,
                {
                    if dst == 0 || ofs > decompressed_len - dst {
                        return Err(CompressionError::BlzOutOfBounds { src, dst });
                    }
                    dst = dst - 1;
                    let v = out[dst + ofs];
                    out.set(dst, v);
                    j = j + 1;
                }
                assert(blz_copy(out@, dst as int, ofs as int, 0, dlen, src as int) == Ok::<(Seq<u8>, int), CompressionError>((out@, dst as int)));
            } else {
                src = src - 1;
                dst = dst - 1;
                out.set(dst, data[src]);
            }
            bit = bit + 1;
        }
    }
    Ok(out)
}

/// The flag bits of a block are read from the most significant down: bit `bit` of the
/// reading order is bit `7 - bit` of the flag byte.
pub proof fn lemma_flag_bit_order(flags: u8, bit: u8)
    requires
        bit < 8,
    ensures
        flag_set(flags, bit as int) == ((flags >> ((7 - bit) as u8)) & 1 == 1),
{
    let sh: u8 = (7 - bit) as u8;
    assert(bit < 8 && sh == 7 - bit ==> ((flags & (0x80u8 >> bit) != 0u8) == ((flags >> sh) & 1 == 1))) by (bit_vector);
}

/// One step of decoding, seen from the bytes: with its flag bit clear, the byte just below
/// `src` is copied to just below `dst`; with it set, the little-endian token `t` in the two
/// bytes below `src` copies `(t >> 12) + 3` bytes, each from `(t & 0xFFF) + 3` bytes further
/// on, going down from `dst`.
pub proof fn lemma_blz_step(data: Seq<u8>, cs: nat, dlen: int, out: Seq<u8>, src: nat, dst: int, flags: u8, bit: nat)
    requires
        bit < 8,
        src > cs,
        dst > cs,
        src <= data.len(),
    ensures
        !flag_set(flags, bit as int) ==> blz_bits(data, cs, dlen, out, src, dst, flags, bit)
            == blz_bits(data, cs, dlen, out.update(dst - 1, data[src - 1]), (src - 1) as nat, dst - 1, flags, bit + 1),
        (flag_set(flags, bit as int) && src >= cs + 2) ==> ({
            let t = (data[src - 2] as u16) | ((data[src - 1] as u16) << 8u16);
            blz_bits(data, cs, dlen, out, src, dst, flags, bit) == match blz_copy(out, dst, ((t & 0xFFF) + 3) as int,
                ((t >> 12u16) + 3) as nat, dlen, src - 2) {
                Ok((o, d)) => blz_bits(data, cs, dlen, o, (src - 2) as nat, d, flags, bit + 1),
                Err(e) => Err(e),
            }
        }),
{
    if flag_set(flags, bit as int) && src >= cs + 2 {
        let lo = data[src - 2];
        let hi = data[src - 1];
        let t = (lo as u16) | ((hi as u16) << 8u16);
        assert(((lo as u16) | ((hi as u16) << 8u16)) == (hi as u16) * 256 + (lo as u16)) by (bit_vector);
        assert(t & 0xFFF == t % 4096 && t >> 12u16 == t / 4096) by (bit_vector);
        assert(blz_token(data, src - 2) == t);
    }
}

} // verus!
