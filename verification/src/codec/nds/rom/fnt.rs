//! The file name table (FNT) of the NitroROM file system.
use crate::rw::bytes::{copy_range, read_u16_le, read_u32_le, spec_u16_le, spec_u32_le, ParseError};
use crate::text::{utf8_lossy, utf8_to_string_lossy};
use vstd::prelude::*;

verus! {

/// A directory's entry in the main table of the FNT.
#[derive(Debug, Clone, Copy, PartialEq, Eq, Structural)]
pub struct FntMainEntry {
    pub sub_table_offset: u32,
    pub first_file_id: u16,
    pub parent_id_or_count: u16,
}

/// The main-table entry stored at `s[pos..pos + 8]`.
pub open spec fn spec_fnt_main_entry(s: Seq<u8>, pos: int) -> FntMainEntry {
    FntMainEntry {
        sub_table_offset: spec_u32_le(s, pos),
        first_file_id: spec_u16_le(s, pos + 4),
        parent_id_or_count: spec_u16_le(s, pos + 6),
    }
}

impl FntMainEntry {
    /// Reads a main-table entry from `data[pos..pos + 8]`.
    pub fn read(data: &[u8], pos: usize) -> (r: Result<FntMainEntry, ParseError>)
        ensures
            r == (if pos + 8 <= data@.len() { Ok::<FntMainEntry, ParseError>(spec_fnt_main_entry(data@, pos as int)) } else { Err::<FntMainEntry, ParseError>(ParseError::UnexpectedEof) }),
    {
        if pos > data.len() || data.len() - pos < 8 {
            return Err(ParseError::UnexpectedEof);
        }
        let sub_table_offset = match read_u32_le(data, pos) { Some(v) => v, None => { return Err(ParseError::UnexpectedEof); } };
        let first_file_id = match read_u16_le(data, pos + 4) { Some(v) => v, None => { return Err(ParseError::UnexpectedEof); } };
        let parent_id_or_count = match read_u16_le(data, pos + 6) { Some(v) => v, None => { return Err(ParseError::UnexpectedEof); } };
        Ok(FntMainEntry { sub_table_offset, first_file_id, parent_id_or_count })
    }
}

/// Reads `count` consecutive main-table entries starting at `pos`.
pub fn read_fnt_main_entries(data: &[u8], pos: usize, count: usize) -> (r: Result<Vec<FntMainEntry>, ParseError>)
    ensures
        r is Ok <==> pos + 8 * count <= data@.len(),
        r matches Ok(v) ==> v@.len() == count && forall|i: int| 0 <= i < count ==> #[trigger] v@[i] == spec_fnt_main_entry(data@, pos + 8 * i),
        r matches Err(e) ==> e == ParseError::UnexpectedEof,
{
    let n = data.len();
    if pos > n || (n - pos) / 8 < count {
        proof {
            if pos <= n {
                let q = ((n - pos) / 8) as int;
                assert(8 * count > n - pos) by (nonlinear_arith)
                    requires q < count, q == (n - pos) / 8, n >= pos;
            }
        }
        return Err(ParseError::UnexpectedEof);
    }
    proof {
        let q = ((n - pos) / 8) as int;
        assert(8 * count <= n - pos) by (nonlinear_arith)
            requires q >= count, q == (n - pos) / 8, n >= pos;
    }
    let mut v: Vec<FntMainEntry> = Vec::with_capacity(count);
    let mut k: usize = 0;
    while k < count
        invariant
            k <= count,
            n == data@.len(),
            pos + 8 * count <= data@.len(),
            v@.len() == k,
            forall|i: int| 0 <= i < k ==> #[trigger] v@[i] == spec_fnt_main_entry(data@, pos + 8 * i),
        decreases count - k,
    {
        let e = match FntMainEntry::read(data, pos + 8 * k) { Ok(e) => e, Err(e) => { return Err(e); } };
        v.push(e);
        k = k + 1;
    }
    Ok(v)
}

/// An entry of a directory's sub-table in the FNT: a file, a sub-directory, or the end.
#[derive(Debug, Clone)]
pub struct FntSubEntry {
    pub type_length: u8,
    /// The name; its length is the bottom 7 bits of `type_length`.
    pub name_bytes: Vec<u8>,
    /// Only directories (bit 7 set) carry the id of the directory.
    pub sub_dir_id: Option<u16>,
}

/// How many bytes a sub-table entry with this type/length byte occupies.
pub open spec fn fnt_sub_entry_len(type_length: u8) -> int {
    1 + (type_length % 128) + (if type_length >= 0x80 { 2int } else { 0int })
}

impl FntSubEntry {
    /// Whether the entry, read from `s` at `pos`, holds what is stored there.
    pub open spec fn parsed_at(&self, s: Seq<u8>, pos: int) -> bool {
        let t = s[pos];
        let n = (t % 128) as int;
        &&& self.type_length == t
        &&& self.name_bytes@ == s.subrange(pos + 1, pos + 1 + n)
        &&& self.sub_dir_id == (if t >= 0x80 { Some(spec_u16_le(s, pos + 1 + n)) } else { None::<u16> })
    }

    /// Reads a sub-table entry at `pos`.
    pub fn read(data: &[u8], pos: usize) -> (r: Result<FntSubEntry, ParseError>)
        ensures
            r is Ok <==> pos < data@.len() && pos + fnt_sub_entry_len(data@[pos as int]) <= data@.len(),
            r matches Ok(e) ==> e.parsed_at(data@, pos as int),
            r matches Err(e) ==> e == ParseError::UnexpectedEof,
    {
        let n = data.len();
        if pos >= n {
            return Err(ParseError::UnexpectedEof);
        }
        let type_length = data[pos];
        let name_len = (type_length & 0x7F) as usize;
        assert(type_length & 0x7F == type_length % 128) by (bit_vector);
        if n - pos - 1 < name_len {
            return Err(ParseError::UnexpectedEof);
        }
        let name_bytes = copy_range(data, pos + 1, name_len);
        let sub_dir_id = if type_length >= 0x80 {
            match read_u16_le(data, pos + 1 + name_len) {
                Some(v) => Some(v),
                None => { return Err(ParseError::UnexpectedEof); }
            }
        } else {
            None
        };
        Ok(FntSubEntry { type_length, name_bytes, sub_dir_id })
    }

    pub fn is_end(&self) -> (r: bool)
        ensures
            r == (self.type_length == 0),
    {
        self.type_length == 0x00
    }

    pub fn is_dir(&self) -> (r: bool)
        ensures
            r == (self.type_length >= 0x80),
    {
        self.type_length >= 0x80
    }

    /// The name, decoded as UTF-8 with invalid sequences replaced.
    pub fn name(&self) -> (r: String)
        ensures
            r@ == utf8_lossy(self.name_bytes@),
    {
        utf8_to_string_lossy(self.name_bytes.as_slice())
    }
}

} // verus!
