//! The file allocation table (FAT) of the NitroROM file system.
use crate::rw::bytes::{read_u32_le, spec_u32_le, ParseError};
use vstd::prelude::*;

verus! {

/// Where each file's data lies.
pub struct Fat {
    pub entries: Vec<FatEntry>,
}

/// One FAT entry: the byte range of a file.
#[derive(Debug, Clone, Copy, PartialEq, Eq, Structural)]
pub struct FatEntry {
    /// Start address (relative to IMG base, which is 0 for the ROM)
    pub start_address: u32,
    /// End address (Start + Length)
    pub end_address: u32,
}

/// The FAT entry stored at `s[pos..pos + 8]`.
pub open spec fn spec_fat_entry(s: Seq<u8>, pos: int) -> FatEntry {
    FatEntry { start_address: spec_u32_le(s, pos), end_address: spec_u32_le(s, pos + 4) }
}

impl FatEntry {
    pub fn is_unused(&self) -> (r: bool)
        ensures
            r == (self.start_address == 0 && self.end_address == 0),
    {
        self.start_address == 0 && self.end_address == 0
    }

    /// The length of the file; zero when the end lies before the start.
    pub fn size(&self) -> (r: u32)
        ensures
            r == (if self.end_address >= self.start_address { (self.end_address - self.start_address) as u32 } else { 0u32 }),
    {
        self.end_address.saturating_sub(self.start_address)
    }

    /// Reads an entry from `data[pos..pos + 8]`.
    pub fn read(data: &[u8], pos: usize) -> (r: Result<FatEntry, ParseError>)
        ensures
            r == (if pos + 8 <= data@.len() { Ok::<FatEntry, ParseError>(spec_fat_entry(data@, pos as int)) } else { Err::<FatEntry, ParseError>(ParseError::UnexpectedEof) }),
    {
        if pos > data.len() || data.len() - pos < 8 {
            return Err(ParseError::UnexpectedEof);
        }
        let start_address = match read_u32_le(data, pos) { Some(v) => v, None => { return Err(ParseError::UnexpectedEof); } };
        let end_address = match read_u32_le(data, pos + 4) { Some(v) => v, None => { return Err(ParseError::UnexpectedEof); } };
        Ok(FatEntry { start_address, end_address })
    }
}

/// Reads `count` consecutive FAT entries starting at `pos`.
pub fn read_fat_entries(data: &[u8], pos: usize, count: usize) -> (r: Result<Vec<FatEntry>, ParseError>)
    ensures
        r is Ok <==> (count == 0 || pos + 8 * count <= data@.len()),
        r matches Ok(v) ==> v@.len() == count && forall|i: int| 0 <= i < count ==> #[trigger] v@[i] == spec_fat_entry(data@, pos + 8 * i),
        r matches Err(e) ==> e == ParseError::UnexpectedEof,
{
    let n = data.len();
    if count == 0 {
        return Ok(Vec::new());
    }
    if pos > n || (n - pos) / 8 < count {
        proof {
            if pos <= n {
                let q = ((n - pos) / 8) as int;
                assert(8 * count > n - pos) by (nonlinear_arith)
                    requires q < count, q == (n - pos) / 8, n >= pos;
            }
        }
        return Err(ParseError::UnexpectedEof);
    }
    proof {
        let q = ((n - pos) / 8) as int;
        assert(8 * count <= n - pos) by (nonlinear_arith)
            requires q >= count, q == (n - pos) / 8, n >= pos;
    }
    let mut v: Vec<FatEntry> = Vec::with_capacity(count);
    let mut k: usize = 0;
    while k < count
        invariant
            k <= count,
            n == data@.len(),
            pos + 8 * count <= data@.len(),
            v@.len() == k,
            forall|i: int| 0 <= i < k ==> #[trigger] v@[i] == spec_fat_entry(data@, pos + 8 * i),
        decreases count - k,
    {
        let e = match FatEntry::read(data, pos + 8 * k) { Ok(e) => e, Err(e) => { return Err(e); } };
        v.push(e);
        k = k + 1;
    }
    Ok(v)
}

impl Fat {
    /// Reads a FAT of `fat_size` bytes (`fat_size / 8` entries) starting at `pos`.
    pub fn read(data: &[u8], pos: usize, fat_size: u32) -> (r: Result<Fat, ParseError>)
        ensures
            r is Ok <==> (fat_size / 8 == 0 || pos + 8 * (fat_size / 8) <= data@.len()),
            r matches Ok(f) ==> f.entries@.len() == fat_size / 8 && forall|i: int| 0 <= i < fat_size / 8 ==> #[trigger] f.entries@[i] == spec_fat_entry(data@, pos + 8 * i),
            r matches Err(e) ==> e == ParseError::UnexpectedEof,
    {
        let entries = read_fat_entries(data, pos, (fat_size / 8) as usize)?;
        Ok(Fat { entries })
    }
}

} // verus!
