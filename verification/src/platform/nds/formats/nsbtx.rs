//! BTX0 files: a small header in front of one TEX0 block.
use crate::codec::common::rom::RomReadError;
use crate::codec::nds::formats::narc::{check_magic, spec_magic_struct_error};
use crate::platform::nds::formats::nstex::{nstex_error, nstex_requires, Nstex};
use crate::rw::bytes::{read_u16_le, spec_u16_le, spec_u32_le, u16_at, u32_at, ParseError};
use vstd::prelude::*;

verus! {

/// A BTX0 file.
pub struct Nsbtx {
    pub header: NsbtxHeader,
    pub texture: Nstex,
}

/// The 20-byte header of a BTX0 file, starting with the magic `BTX0`.
pub struct NsbtxHeader {
    pub magic: [u8; 4],
    pub byte_order: u16,
    pub version: u16,
    pub file_size: u32,
    /// Always 0x10
    pub header_size: u16,
    /// Always 1 TEX0 chunk
    pub num_chunks: u16,
    /// Offset from BTX0 to TEX0 Chunk
    pub offset: u32,
}

/// The magic of a BTX0 file.
pub open spec fn btx0_magic() -> Seq<u8> {
    seq![0x42u8, 0x54, 0x58, 0x30]
}

/// Whether `s` starts like a BTX0 file: the magic, a header size of 0x10 and one chunk.
pub open spec fn spec_nsbtx_probe(s: Seq<u8>) -> bool {
    &&& 16 <= s.len()
    &&& s.subrange(0, 4) == btx0_magic()
    &&& spec_u16_le(s, 12) == 0x10
    &&& spec_u16_le(s, 14) == 1
}

/// Why reading the file at `base` fails, if it does.
pub open spec fn nsbtx_error(s: Seq<u8>, base: int) -> Option<RomReadError> {
    if spec_magic_struct_error(s, base, btx0_magic(), 20) is Some {
        Some(RomReadError::Parse(spec_magic_struct_error(s, base, btx0_magic(), 20)->Some_0))
    } else {
        nstex_error(s, base + spec_u32_le(s, base + 16))
    }
}

impl NsbtxHeader {
    /// Whether the header is the one stored at `s[pos..pos + 20]`.
    pub open spec fn parsed_at(&self, s: Seq<u8>, pos: int) -> bool {
        &&& self.magic@ == btx0_magic()
        &&& self.byte_order == spec_u16_le(s, pos + 4)
        &&& self.version == spec_u16_le(s, pos + 6)
        &&& self.file_size == spec_u32_le(s, pos + 8)
        &&& self.header_size == spec_u16_le(s, pos + 12)
        &&& self.num_chunks == spec_u16_le(s, pos + 14)
        &&& self.offset == spec_u32_le(s, pos + 16)
    }
}

impl Nsbtx {
    /// Whether `data` starts like a BTX0 file; too short data does not.
    pub fn probe(data: &[u8]) -> (r: bool)
        ensures
            r == spec_nsbtx_probe(data@),
    {
        if data.len() < 16 {
            return false;
        }
        let magic_ok = data[0] == 0x42 && data[1] == 0x54 && data[2] == 0x58 && data[3] == 0x30;
        proof {
            if magic_ok {
                assert(data@.subrange(0, 4) =~= btx0_magic());
            } else if data@.subrange(0, 4) == btx0_magic() {
                assert(data@.subrange(0, 4)[0] == data@[0]);
                assert(data@.subrange(0, 4)[1] == data@[1]);
                assert(data@.subrange(0, 4)[2] == data@[2]);
                assert(data@.subrange(0, 4)[3] == data@[3]);
            }
        }
        let hs = match read_u16_le(data, 12) { Some(v) => v, None => 0 };
        let nc = match read_u16_le(data, 14) { Some(v) => v, None => 0 };
        magic_ok && hs == 0x10 && nc == 1
    }

    /// Reads the file at `base`: its header, then the TEX0 block the header points at.
    pub fn read(data: &[u8], base: usize) -> (r: Result<Nsbtx, RomReadError>)
        requires
            spec_magic_struct_error(data@, base as int, btx0_magic(), 20) is None
                ==> nstex_requires(data@, base + spec_u32_le(data@, base + 16)),
        ensures
            r is Ok <==> nsbtx_error(data@, base as int) is None,
            r matches Err(e) ==> nsbtx_error(data@, base as int) == Some(e),
            r matches Ok(b) ==> b.header.parsed_at(data@, base as int)
                && b.texture.parsed_from(data@, base + spec_u32_le(data@, base + 16)),
    {
        let magic = match check_magic(data, base, 0x42, 0x54, 0x58, 0x30, 20) {
            Ok(m) => m,
            Err(e) => { return Err(RomReadError::Parse(e)); }
        };
        let n = data.len();
        assert(base + 20 <= n);
        let header = NsbtxHeader {
            magic,
            byte_order: u16_at(data, base + 4),
            version: u16_at(data, base + 6),
            file_size: u32_at(data, base + 8),
            header_size: u16_at(data, base + 12),
            num_chunks: u16_at(data, base + 14),
            offset: u32_at(data, base + 16),
        };
        let start = (base as u128) + (header.offset as u128);
        if start > n as u128 {
            proof {
                assert(nstex_error(data@, base + spec_u32_le(data@, base + 16)) is Some);
            }
            return Err(RomReadError::Parse(ParseError::UnexpectedEof));
        }
        let texture = Nstex::read(data, start as usize)?;
        Ok(Nsbtx { header, texture })
    }
}

} // verus!
