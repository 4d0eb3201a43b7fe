//! Nitro archives (NARC): a small file system of their own inside a single file.
use crate::codec::common::rom::RomReadError;
use crate::codec::nds::fs::{lemma_read_file_contents, spec_fs_result, NdsFileSystem};
use crate::codec::nds::rom::fat::{read_fat_entries, spec_fat_entry, FatEntry};
use crate::rw::bytes::{read_array, spec_u16_le, spec_u32_le, u16_at, u32_at, ParseError};
use vstd::prelude::*;

verus! {

/// A parsed archive.
pub struct Narc {
    pub header: NarcHeader,
    pub btaf: BtafChunk,
    pub btnf: BtnfChunkHeader,
    pub gmif: GmifChunkHeader,
    pub fs: NdsFileSystem,
}

/// The archive header (16 bytes), starting with the magic `NARC`.
pub struct NarcHeader {
    pub magic: [u8; 4],
    pub byte_order: u16,
    pub version: u16,
    pub file_size: u32,
    pub chunk_size: u16,
    pub num_chunks: u16,
}

/// The allocation chunk: magic `BTAF`, then where each file's bytes lie.
pub struct BtafChunk {
    pub magic: [u8; 4],
    pub chunk_size: u32,
    pub num_files: u16,
    pub reserved: u16,
    pub entries: Vec<FatEntry>,
}

/// The header of the name chunk (magic `BTNF`), which holds a file name table.
pub struct BtnfChunkHeader {
    pub magic: [u8; 4],
    pub chunk_size: u32,
}

/// The header of the image chunk (magic `GMIF`), which holds the files' bytes.
pub struct GmifChunkHeader {
    pub magic: [u8; 4],
    pub chunk_size: u32,
}

/// Whether `s[pos..pos + 4]` holds the four bytes `m`.
pub open spec fn magic_at(s: Seq<u8>, pos: int, m: Seq<u8>) -> bool {
    pos + 4 <= s.len() && s.subrange(pos, pos + 4) == m
}

pub open spec fn narc_magic() -> Seq<u8> { seq![0x4Eu8, 0x41, 0x52, 0x43] }
pub open spec fn btaf_magic() -> Seq<u8> { seq![0x42u8, 0x54, 0x41, 0x46] }
pub open spec fn btnf_magic() -> Seq<u8> { seq![0x42u8, 0x54, 0x4E, 0x46] }
pub open spec fn gmif_magic() -> Seq<u8> { seq![0x47u8, 0x4D, 0x49, 0x46] }

/// How reading a structure of `size` bytes at `pos` that starts with the magic `m` fails,
/// if it does: first the magic field itself, then its assertion, then the rest.
pub open spec fn spec_magic_struct_error(s: Seq<u8>, pos: int, m: Seq<u8>, size: int) -> Option<ParseError> {
    if pos + 4 > s.len() {
        Some(ParseError::UnexpectedEof)
    } else if s.subrange(pos, pos + 4) != m {
        Some(ParseError::AssertFail { pos: pos as usize })
    } else if pos + size > s.len() {
        Some(ParseError::UnexpectedEof)
    } else {
        None
    }
}

/// The chunk layout of an archive, when its headers can be read: the allocation table, where
/// the name table starts, and where the image starts.
pub open spec fn spec_narc_tables(s: Seq<u8>) -> Result<(Seq<FatEntry>, int, int), ParseError> {
    if spec_magic_struct_error(s, 0, narc_magic(), 16) is Some {
        Err(spec_magic_struct_error(s, 0, narc_magic(), 16)->Some_0)
    } else if spec_magic_struct_error(s, 16, btaf_magic(), 12) is Some {
        Err(spec_magic_struct_error(s, 16, btaf_magic(), 12)->Some_0)
    } else {
        let num_files = spec_u16_le(s, 24);
        if 28 + 8 * num_files > s.len() {
            Err(ParseError::UnexpectedEof)
        } else {
            let entries = Seq::new(num_files as nat, |i: int| spec_fat_entry(s, 28 + 8 * i));
            let btnf_start = 28 + 8 * num_files;
            if spec_magic_struct_error(s, btnf_start, btnf_magic(), 8) is Some {
                Err(spec_magic_struct_error(s, btnf_start, btnf_magic(), 8)->Some_0)
            } else {
                let aligned = ((btnf_start + spec_u32_le(s, btnf_start + 4) + 3) / 4) * 4;
                if spec_magic_struct_error(s, aligned, gmif_magic(), 8) is Some {
                    Err(spec_magic_struct_error(s, aligned, gmif_magic(), 8)->Some_0)
                } else {
                    Ok((entries, btnf_start + 8, aligned + 8))
                }
            }
        }
    }
}

/// Whether `s` starts with the archive magic.
pub open spec fn spec_narc_probe(s: Seq<u8>) -> bool {
    magic_at(s, 0, narc_magic())
}

/// Whether reading `s` as an archive succeeds.
pub open spec fn spec_narc_ok(s: Seq<u8>) -> bool {
    spec_narc_tables(s) matches Ok((entries, fnt_base, img_base)) && spec_fs_result(s, entries, fnt_base, img_base) is Ok
}

/// How reading `s` as an archive fails, if it does.
pub open spec fn spec_narc_error(s: Seq<u8>) -> Option<RomReadError> {
    match spec_narc_tables(s) {
        Err(e) => Some(RomReadError::Parse(e)),
        Ok((entries, fnt_base, img_base)) => match spec_fs_result(s, entries, fnt_base, img_base) {
            Ok(_) => None,
            Err(e) => Some(e),
        },
    }
}

/// Checks for the magic `m` at `pos` as a structure of `size` bytes would.
pub(crate) fn check_magic(data: &[u8], pos: usize, m0: u8, m1: u8, m2: u8, m3: u8, size: usize) -> (r: Result<[u8; 4], ParseError>)
    ensures
        r is Ok <==> spec_magic_struct_error(data@, pos as int, seq![m0, m1, m2, m3], size as int) is None,
        r matches Err(e) ==> spec_magic_struct_error(data@, pos as int, seq![m0, m1, m2, m3], size as int) == Some(e),
        r matches Ok(a) ==> a@ == seq![m0, m1, m2, m3],
{
    let n = data.len();
    if pos > n || n - pos < 4 {
        return Err(ParseError::UnexpectedEof);
    }
    let a = read_array::<4>(data, pos);
    if !(a[0] == m0 && a[1] == m1 && a[2] == m2 && a[3] == m3) {
        proof {
            if data@.subrange(pos as int, pos + 4) == seq![m0, m1, m2, m3] {
                assert(a@[0] == m0 && a@[1] == m1 && a@[2] == m2 && a@[3] == m3);
            }
        }
        return Err(ParseError::AssertFail { pos });
    }
    assert(a@ =~= seq![m0, m1, m2, m3]);
    if n - pos < size {
        return Err(ParseError::UnexpectedEof);
    }
    Ok(a)
}


impl Narc {
    /// Whether the archive holds what `s` stores.
    pub open spec fn parsed_from(&self, s: Seq<u8>) -> bool
        decreases self,
    {
        &&& spec_narc_tables(s) matches Ok((entries, fnt_base, img_base)) && {
            let btnf_start = 28 + 8 * spec_u16_le(s, 24);
            let aligned = img_base - 8;
            &&& self.header.magic@ == narc_magic()
            &&& self.header.byte_order == spec_u16_le(s, 4)
            &&& self.header.version == spec_u16_le(s, 6)
            &&& self.header.file_size == spec_u32_le(s, 8)
            &&& self.header.chunk_size == spec_u16_le(s, 12)
            &&& self.header.num_chunks == spec_u16_le(s, 14)
            &&& self.btaf.magic@ == btaf_magic()
            &&& self.btaf.chunk_size == spec_u32_le(s, 20)
            &&& self.btaf.num_files == spec_u16_le(s, 24)
            &&& self.btaf.reserved == spec_u16_le(s, 26)
            &&& self.btaf.entries@ == entries
            &&& self.btnf.magic@ == btnf_magic()
            &&& self.btnf.chunk_size == spec_u32_le(s, btnf_start + 4)
            &&& self.gmif.magic@ == gmif_magic()
            &&& self.gmif.chunk_size == spec_u32_le(s, aligned + 4)
            &&& self.fs.read_from(s, entries, fnt_base, img_base)
        }
    }

    /// Whether `data` starts with the archive magic.
    pub fn probe(data: &[u8]) -> (r: bool)
        ensures
            r == spec_narc_probe(data@),
    {
        if data.len() < 4 {
            return false;
        }
        let r = data[0] == 0x4E && data[1] == 0x41 && data[2] == 0x52 && data[3] == 0x43;
        proof {
            if r {
                assert(data@.subrange(0, 4) =~= narc_magic());
            } else if data@.subrange(0, 4) == narc_magic() {
                assert(data@.subrange(0, 4)[0] == data@[0]);
            }
        }
        r
    }

    /// Reads an archive.
    pub fn read(data: &[u8]) -> (r: Result<Narc, RomReadError>)
        ensures
            r is Ok <==> spec_narc_ok(data@),
            r matches Ok(n) ==> n.parsed_from(data@),
            r matches Err(e) ==> spec_narc_error(data@) == Some(e),
        decreases data@.len(), 0nat,
    {
        let n = data.len();
        let magic = match check_magic(data, 0, 0x4E, 0x41, 0x52, 0x43, 16) {
            Ok(m) => m,
            Err(e) => { return Err(RomReadError::Parse(e)); }
        };
        let header = NarcHeader {
            magic,
            byte_order: u16_at(data, 4),
            version: u16_at(data, 6),
            file_size: u32_at(data, 8),
            chunk_size: u16_at(data, 12),
            num_chunks: u16_at(data, 14),
        };
        let btaf_magic_bytes = match check_magic(data, 16, 0x42, 0x54, 0x41, 0x46, 12) {
            Ok(m) => m,
            Err(e) => { return Err(RomReadError::Parse(e)); }
        };
        let num_files = u16_at(data, 24);
        let entries = match read_fat_entries(data, 28, num_files as usize) {
            Ok(v) => v,
            Err(e) => { return Err(RomReadError::Parse(e)); }
        };
        let btaf = BtafChunk {
            magic: btaf_magic_bytes,
            chunk_size: u32_at(data, 20),
            num_files,
            reserved: u16_at(data, 26),
            entries,
        };
        proof {
            assert(btaf.entries@ =~= Seq::new(num_files as nat, |i: int| spec_fat_entry(data@, 28 + 8 * i)));
        }
        let btnf_start: usize = 28 + 8 * (num_files as usize);
        let btnf_magic_bytes = match check_magic(data, btnf_start, 0x42, 0x54, 0x4E, 0x46, 8) {
            Ok(m) => m,
            Err(e) => { return Err(RomReadError::Parse(e)); }
        };
        let btnf = BtnfChunkHeader { magic: btnf_magic_bytes, chunk_size: u32_at(data, btnf_start + 4) };
        let fnt_base = btnf_start + 8;
        let end: u64 = btnf_start as u64 + btnf.chunk_size as u64 + 3;
        let aligned64: u64 = end / 4 * 4;
        if aligned64 > n as u64 {
            return Err(RomReadError::Parse(ParseError::UnexpectedEof));
        }
        let aligned = aligned64 as usize;
        let gmif_magic_bytes = match check_magic(data, aligned, 0x47, 0x4D, 0x49, 0x46, 8) {
            Ok(m) => m,
            Err(e) => { return Err(RomReadError::Parse(e)); }
        };
        let gmif = GmifChunkHeader { magic: gmif_magic_bytes, chunk_size: u32_at(data, aligned + 4) };
        let img_base = aligned + 8;
        let fs = NdsFileSystem::read_tables(data, btaf.entries.as_slice(), fnt_base, img_base)?;
        Ok(Narc { header, btaf, btnf, gmif, fs })
    }
}

/// Only data that passes the probe can be read as an archive.
pub proof fn lemma_narc_read_needs_probe(s: Seq<u8>)
    ensures
        spec_narc_tables(s) is Ok ==> spec_narc_probe(s),
{
}

/// Each file of an archive read from `s` holds the bytes that its allocation-table entry
/// gives: the entry with the file's id (at `28 + 8 * id`) holds a start and an end offset,
/// counted from the data of the image chunk, which starts 8 bytes past the name table's
/// end rounded up to a multiple of four; the file holds the bytes between them, and its
/// size is their number.
pub proof fn lemma_narc_file_bytes(n: Narc, s: Seq<u8>, j: int)
    requires
        n.parsed_from(s),
        0 <= j < n.fs.files@.len(),
    ensures
        ({
            let nf = spec_u16_le(s, 24) as int;
            let id = n.fs.files@[j].id as int;
            let start = spec_u32_le(s, 28 + 8 * id) as int;
            let end = spec_u32_le(s, 28 + 8 * id + 4) as int;
            let btnf = 28 + 8 * nf;
            let img = ((btnf + spec_u32_le(s, btnf + 4) + 3) / 4) * 4 + 8;
            let len = if end >= start { end - start } else { 0 };
            &&& id < nf
            &&& n.fs.files@[j].size == len
            &&& len > 0 ==> img + start + len <= s.len()
            &&& n.fs.files@[j].data.built_from(if len == 0 { Seq::empty() } else { s.subrange(img + start, img + start + len) })
        }),
{
    let (entries, fnt_base, img_base) = spec_narc_tables(s)->Ok_0;
    lemma_read_file_contents(n.fs, s, entries, fnt_base, img_base, j);
    let id = n.fs.files@[j].id as int;
    assert(entries[id] == spec_fat_entry(s, 28 + 8 * id));
}

} // verus!
