//! DS ROM images whose ARM9 binary may be BLZ-compressed.
use crate::codec::common::rom::RomReadError;
use crate::codec::nds::fs::{fat_table, spec_fs_result, NdsFileSystem};
use crate::codec::nds::rom::fat::FatEntry;
use crate::codec::nds::rom::header::{spec_header_error, NdsHeader};
use crate::compression::blz::{blz_decompress, blz_fits, footer_of, is_blz_compressed, spec_blz_decompress};
use crate::compression::{spec_compression_message, CompressionError};
use crate::text::{decimal, usize_to_decimal};
use crate::rw::bytes::{bytes_at, read_bytes, read_u32_le, spec_u32_le, ParseError};
use vstd::prelude::*;

verus! {

/// Why a DS ROM could not be read.
#[derive(Debug, Clone, Copy, PartialEq, Eq, Structural)]
pub enum NdsRomReadError {
    Arm7BinaryLocation,
    Arm9BinaryLocation,
    Arm9Decompression(CompressionError),
    FNTRead,
    UnknownFileFormat,
    InvalidTextureFormat(u8),
}

/// The description of a DS ROM error.
pub open spec fn spec_nds_message(e: NdsRomReadError) -> Seq<char> {
    match e {
        NdsRomReadError::Arm7BinaryLocation => "Invalid arm7 binary location"@,
        NdsRomReadError::Arm9BinaryLocation => "Invalid arm9 binary location"@,
        NdsRomReadError::Arm9Decompression(c) => "Failed to decompress arm9 binary: "@ + spec_compression_message(c),
        NdsRomReadError::FNTRead => "Failed to read the FNT"@,
        NdsRomReadError::UnknownFileFormat => "Unknown file format"@,
        NdsRomReadError::InvalidTextureFormat(f) => "Invalid texture format: "@ + decimal(f as nat),
    }
}

impl NdsRomReadError {
    /// The human-readable description of the error.
    pub fn message(&self) -> (r: String)
        ensures
            r@ == spec_nds_message(*self),
    {
        match self {
            NdsRomReadError::Arm7BinaryLocation => String::from_str("Invalid arm7 binary location"),
            NdsRomReadError::Arm9BinaryLocation => String::from_str("Invalid arm9 binary location"),
            NdsRomReadError::Arm9Decompression(c) => {
                let mut r = String::from_str("Failed to decompress arm9 binary: ");
                r.append(c.message().as_str());
                r
            },
            NdsRomReadError::FNTRead => String::from_str("Failed to read the FNT"),
            NdsRomReadError::UnknownFileFormat => String::from_str("Unknown file format"),
            NdsRomReadError::InvalidTextureFormat(f) => {
                let mut r = String::from_str("Invalid texture format: ");
                r.append(usize_to_decimal(*f as usize).as_str());
                r
            },
        }
    }
}

} // verus!

verus! {

/// The ARM9 binary's bytes as stored in the ROM `s`, when they can be read.
pub open spec fn stored_arm9(s: Seq<u8>) -> Option<Seq<u8>> {
    bytes_at(s, spec_u32_le(s, 0x20) as int, spec_u32_le(s, 0x2C) as int)
}

/// Whether the ARM9 binary of the ROM `s`, when it is BLZ-compressed, has a decompressed
/// length that an address can hold.
pub open spec fn arm9_fits(s: Seq<u8>) -> bool {
    s.len() >= 0x30 ==> match stored_arm9(s) {
        Some(a) => is_blz_compressed(a) ==> a.len() + footer_of(a).extra_size <= usize::MAX,
        None => true,
    }
}

/// The ARM7 binary's bytes as stored in the ROM `s`, when they can be read.
pub open spec fn stored_arm7(s: Seq<u8>) -> Option<Seq<u8>> {
    bytes_at(s, spec_u32_le(s, 0x30) as int, spec_u32_le(s, 0x3C) as int)
}

/// The FAT that the header of the ROM `s` points at, when it can be read.
pub open spec fn rom_fat(s: Seq<u8>) -> Option<Seq<FatEntry>> {
    fat_table(s, spec_u32_le(s, 0x48) as int, spec_u32_le(s, 0x4C))
}

/// The offset of the FNT that the header of the ROM `s` points at.
pub open spec fn rom_fnt_offset(s: Seq<u8>) -> int {
    spec_u32_le(s, 0x40) as int
}

/// Whether `s` looks like a DS ROM: the header-size field at 0x84 holds 0x4000.
pub open spec fn spec_nds_probe(s: Seq<u8>) -> bool {
    0x88 <= s.len() && spec_u32_le(s, 0x84) == 0x4000
}

/// The ARM9 binary as kept after reading: decompressed when it is BLZ-compressed.
pub open spec fn arm9_expanded(raw: Seq<u8>) -> Seq<u8> {
    match spec_blz_decompress(raw) {
        Ok(d) => d,
        Err(_) => raw,
    }
}

/// Why reading the ROM `s` fails, if it does; `blz` says whether the ARM9 binary is
/// expanded (then a decompression failure other than "not compressed" is an error).
pub open spec fn spec_rom_error(s: Seq<u8>, blz: bool) -> Option<RomReadError> {
    if spec_header_error(s, 0) is Some {
        Some(RomReadError::Parse(spec_header_error(s, 0)->Some_0))
    } else if stored_arm9(s) is None {
        Some(RomReadError::Nds(NdsRomReadError::Arm9BinaryLocation))
    } else if blz && spec_blz_decompress(stored_arm9(s)->Some_0) is Err && spec_blz_decompress(stored_arm9(s)->Some_0)->Err_0 != CompressionError::NotCompressed {
        Some(RomReadError::Nds(NdsRomReadError::Arm9Decompression(spec_blz_decompress(stored_arm9(s)->Some_0)->Err_0)))
    } else if stored_arm7(s) is None {
        Some(RomReadError::Nds(NdsRomReadError::Arm7BinaryLocation))
    } else if rom_fat(s) is None {
        Some(RomReadError::Parse(ParseError::UnexpectedEof))
    } else if spec_fs_result(s, rom_fat(s)->Some_0, rom_fnt_offset(s), 0) is Err {
        Some(spec_fs_result(s, rom_fat(s)->Some_0, rom_fnt_offset(s), 0)->Err_0)
    } else {
        None
    }
}

/// Reads the bytes of an ARM binary, or fails with `err`.
fn read_arm(data: &[u8], offset: u32, size: u32, err: NdsRomReadError) -> (r: Result<Vec<u8>, RomReadError>)
    ensures
        r is Ok <==> bytes_at(data@, offset as int, size as int) is Some,
        r matches Ok(v) ==> bytes_at(data@, offset as int, size as int) == Some(v@),
        r matches Err(e) ==> e == RomReadError::Nds(err),
{
    match read_bytes(data, offset as usize, size as usize) {
        Some(v) => Ok(v),
        None => Err(RomReadError::Nds(err)),
    }
}

/// The header-size test shared by both kinds of ROM.
pub(crate) fn probe_nds(data: &[u8]) -> (r: bool)
    ensures
        r == spec_nds_probe(data@),
{
    match read_u32_le(data, 0x84) {
        Some(v) => v == 0x4000,
        None => false,
    }
}

/// A DS ROM, with its ARM9 binary decompressed when it was BLZ-compressed.
pub struct NdsRom {
    pub header: NdsHeader,
    /// The stored size of the ARM9 binary, when decompression changed it.
    pub compressed_arm9_size: Option<usize>,
    pub arm9_binary: Vec<u8>,
    pub arm7_binary: Vec<u8>,
    pub fs: NdsFileSystem,
}

impl NdsRom {
    /// Whether the ROM holds what `s` stores.
    pub open spec fn parsed_from(&self, s: Seq<u8>) -> bool {
        let raw9 = stored_arm9(s)->Some_0;
        &&& self.header.parsed_at(s, 0)
        &&& self.arm9_binary@ == arm9_expanded(raw9)
        &&& self.compressed_arm9_size == (if arm9_expanded(raw9).len() != raw9.len() { Some(raw9.len() as usize) } else { None::<usize> })
        &&& stored_arm7(s) == Some(self.arm7_binary@)
        &&& self.fs.read_from(s, rom_fat(s)->Some_0, rom_fnt_offset(s), 0)
    }

    /// Whether `data` looks like a DS ROM (the header-size field holds 0x4000); too short
    /// data does not.
    pub fn probe(data: &[u8]) -> (r: bool)
        ensures
            r == spec_nds_probe(data@),
    {
        probe_nds(data)
    }

    /// Reads a ROM: the header, both ARM binaries (expanding a compressed ARM9 binary), and
    /// the file system.
    pub fn read(data: &[u8]) -> (r: Result<NdsRom, RomReadError>)
        requires
            spec_header_error(data@, 0) is None ==> arm9_fits(data@),
        ensures
            r is Ok <==> spec_rom_error(data@, true) is None,
            r matches Ok(rom) ==> rom.parsed_from(data@),
            r matches Err(e) ==> spec_rom_error(data@, true) == Some(e),
    {
        let header = match NdsHeader::read(data, 0) {
            Ok(h) => h,
            Err(e) => { return Err(RomReadError::Parse(e)); }
        };
        let raw9 = read_arm(data, header.arm9_offset, header.arm9_size, NdsRomReadError::Arm9BinaryLocation)?;
        let compressed_arm9_size = raw9.len();
        let arm9_binary = match blz_decompress(raw9.as_slice()) {
            Ok(d) => d,
            Err(CompressionError::NotCompressed) => raw9,
            Err(e) => { return Err(RomReadError::Nds(NdsRomReadError::Arm9Decompression(e))); }
        };
        let decompressed_arm9_size = arm9_binary.len();
        let arm7_binary = read_arm(data, header.arm7_offset, header.arm7_size, NdsRomReadError::Arm7BinaryLocation)?;
        let fs = NdsFileSystem::read(data, header.fat_offset, header.fat_size, header.fnt_offset)?;
        Ok(NdsRom {
            header,
            compressed_arm9_size: if compressed_arm9_size != decompressed_arm9_size { Some(compressed_arm9_size) } else { None },
            arm9_binary,
            arm7_binary,
            fs,
        })
    }

    /// Whether the ARM9 binary of `data`, when it is BLZ-compressed, decompresses to a length
    /// that an address can hold (always so where `usize` has 64 bits): the test `read` needs.
    pub fn arm9_fits(data: &[u8]) -> (r: bool)
        ensures
            r == arm9_fits(data@),
    {
        if data.len() < 0x30 {
            return true;
        }
        let off = match read_u32_le(data, 0x20) { Some(v) => v, None => 0 };
        let size = match read_u32_le(data, 0x2C) { Some(v) => v, None => 0 };
        match read_bytes(data, off as usize, size as usize) {
            Some(a) => blz_fits(a.as_slice()),
            None => true,
        }
    }

    /// The game title from the header.
    pub fn name(&self) -> (r: &str)
        ensures
            r@ == self.header.game_title.0@,
    {
        self.header.game_title.as_str()
    }

    /// Where the HeartGold/SoulSilver map header table starts in the ARM9 binary: the first
    /// place holding the first map's known fields, provided a second header follows whose
    /// first two bytes are `FF 00`.
    pub fn find_hgss_map_header_table_offset(&self) -> (r: Option<usize>)
        ensures
            r == spec_map_header_table_offset(self.arm9_binary@),
    {
        find_map_header_table(self.arm9_binary.as_slice())
    }
}

/// The first ten bytes of the first HeartGold/SoulSilver map header: no wild encounters,
/// area 0, coordinates word 0x000F, matrix 0, script 139, level script 399.
pub open spec fn map_header_signature() -> Seq<u8> {
    seq![0xFFu8, 0x00, 0x0F, 0x00, 0x00, 0x00, 0x8B, 0x00, 0x8F, 0x01]
}

/// The first position from `i` on where `s` holds the signature.
pub open spec fn find_signature(s: Seq<u8>, i: int) -> Option<int>
    decreases s.len() - i,
{
    if i < 0 || i + 10 > s.len() {
        None
    } else if s.subrange(i, i + 10) == map_header_signature() {
        Some(i)
    } else {
        find_signature(s, i + 1)
    }
}

/// A found signature lies at or after where the search started, inside `s`, and is the first
/// one from there; when none is found, the signature occurs nowhere from there on.
pub proof fn lemma_find_signature_bounds(s: Seq<u8>, i: int)
    ensures
        find_signature(s, i) matches Some(j) ==> i <= j && j + 10 <= s.len() && s.subrange(j, j + 10) == map_header_signature()
            && forall|p: int| i <= p < j ==> #[trigger] s.subrange(p, p + 10) != map_header_signature(),
        find_signature(s, i) is None && 0 <= i ==> forall|p: int| i <= p && p + 10 <= s.len() ==> #[trigger] s.subrange(p, p + 10) != map_header_signature(),
    decreases s.len() - i,
{
    if i >= 0 && i + 10 <= s.len() && s.subrange(i, i + 10) != map_header_signature() {
        lemma_find_signature_bounds(s, i + 1);
    }
}

/// The start of the map header table in the ARM9 binary `s`, if the signature is found and
/// the second header looks right.
pub open spec fn spec_map_header_table_offset(s: Seq<u8>) -> Option<usize> {
    match find_signature(s, 0) {
        Some(o) => if o + 48 <= s.len() && s[o + 24] == 0xFF && s[o + 25] == 0x00 { Some(o as usize) } else { None },
        None => None,
    }
}

/// The map header table of an ARM9 binary (of a length that an address can hold) starts at
/// the first place where the binary holds the bytes
/// `FF 00 0F 00 00 00 8B 00 8F 01`, provided 48 bytes fit from there and the second header
/// starts with `FF 00`; it is not found when the bytes occur nowhere or their first
/// occurrence fails that test.
pub proof fn lemma_map_header_table_offset(s: Seq<u8>)
    requires
        s.len() <= usize::MAX,
    ensures
        spec_map_header_table_offset(s) matches Some(o) ==> ({
            &&& o + 48 <= s.len()
            &&& s.subrange(o as int, o + 10) == seq![0xFFu8, 0x00, 0x0F, 0x00, 0x00, 0x00, 0x8B, 0x00, 0x8F, 0x01]
            &&& forall|p: int| 0 <= p < o ==> #[trigger] s.subrange(p, p + 10) != seq![0xFFu8, 0x00, 0x0F, 0x00, 0x00, 0x00, 0x8B, 0x00, 0x8F, 0x01]
            &&& s[o + 24] == 0xFF && s[o + 25] == 0x00
        }),
        spec_map_header_table_offset(s) is None ==> (
            (forall|p: int| 0 <= p && p + 10 <= s.len() ==> #[trigger] s.subrange(p, p + 10) != seq![0xFFu8, 0x00, 0x0F, 0x00, 0x00, 0x00, 0x8B, 0x00, 0x8F, 0x01])
            || exists|o: int| 0 <= o && o + 10 <= s.len()
                && #[trigger] s.subrange(o, o + 10) == seq![0xFFu8, 0x00, 0x0F, 0x00, 0x00, 0x00, 0x8B, 0x00, 0x8F, 0x01]
                && (forall|p: int| 0 <= p < o ==> #[trigger] s.subrange(p, p + 10) != seq![0xFFu8, 0x00, 0x0F, 0x00, 0x00, 0x00, 0x8B, 0x00, 0x8F, 0x01])
                && !(o + 48 <= s.len() && s[o + 24] == 0xFF && s[o + 25] == 0x00)),
{
    lemma_find_signature_bounds(s, 0);
    assert(map_header_signature() =~= seq![0xFFu8, 0x00, 0x0F, 0x00, 0x00, 0x00, 0x8B, 0x00, 0x8F, 0x01]);
}

/// Searches the ARM9 binary for the map header table.
pub(crate) fn find_map_header_table(s: &[u8]) -> (r: Option<usize>)
    ensures
        r == spec_map_header_table_offset(s@),
{
    let n = s.len();
    if n < 10 {
        return None;
    }
    let mut i: usize = 0;
    while i <= n - 10
        invariant
            n == s@.len(),
            n >= 10,
            i <= n - 9,
            find_signature(s@, 0) == find_signature(s@, i as int),
        decreases n - i,
    {
        if s[i] == 0xFF && s[i + 1] == 0x00 && s[i + 2] == 0x0F && s[i + 3] == 0x00 && s[i + 4] == 0x00
            && s[i + 5] == 0x00 && s[i + 6] == 0x8B && s[i + 7] == 0x00 && s[i + 8] == 0x8F && s[i + 9] == 0x01 {
            assert(s@.subrange(i as int, i + 10) =~= map_header_signature());
            if n - i >= 48 && s[i + 24] == 0xFF && s[i + 25] == 0x00 {
                return Some(i);
            }
            return None;
        }
        proof {
            if s@.subrange(i as int, i + 10) == map_header_signature() {
                assert(s@.subrange(i as int, i + 10)[0] == s@[i as int]);
                assert(s@.subrange(i as int, i + 10)[1] == s@[i + 1]);
                assert(s@.subrange(i as int, i + 10)[2] == s@[i + 2]);
                assert(s@.subrange(i as int, i + 10)[3] == s@[i + 3]);
                assert(s@.subrange(i as int, i + 10)[4] == s@[i + 4]);
                assert(s@.subrange(i as int, i + 10)[5] == s@[i + 5]);
                assert(s@.subrange(i as int, i + 10)[6] == s@[i + 6]);
                assert(s@.subrange(i as int, i + 10)[7] == s@[i + 7]);
                assert(s@.subrange(i as int, i + 10)[8] == s@[i + 8]);
                assert(s@.subrange(i as int, i + 10)[9] == s@[i + 9]);
            }
        }
        i = i + 1;
    }
    None
}

} // verus!
