//! Map matrices of the generation-4 Pokémon games: which map file fills each cell of the
//! world grid, with optional per-cell header ids and altitudes.
use crate::codec::common::fmt::{format_grid, spec_format_grid};
use crate::rw::bytes::{copy_range, read_u16_vec, spec_u16_seq, ParseError};
use crate::text::{utf8_lossy, utf8_to_string_lossy};
use vstd::prelude::*;
use vstd::utf8::{decode_utf8, encode_utf8, encode_utf8_decode_utf8, encode_utf8_valid_utf8, valid_utf8};

verus! {

/// A parsed map matrix.
pub struct Gen4MapMatrix {
    pub header: Gen4MapMatrixHeader,
    pub files: Vec<u16>,
    pub headers: Option<Vec<u16>>,
    pub altitudes: Option<Vec<u8>>,
}

/// The dimensions and section flags that open a map matrix, then its name.
pub struct Gen4MapMatrixHeader {
    pub global_map_width: u8,
    pub global_map_height: u8,
    pub headers_section_present: u8,
    pub altitudes_section_present: u8,
    pub prefix_name_length: u8,
    pub prefix_name: String,
}

/// Whether every byte is printable ASCII.
pub open spec fn all_printable(b: Seq<u8>) -> bool {
    forall|i: int| 0 <= i < b.len() ==> 0x20 <= #[trigger] b[i] <= 0x7E
}

/// Whether `s` looks like a map matrix: sane dimensions and flags, a printable name, and a
/// size that matches the sections the header announces exactly.
pub open spec fn spec_gen4_matrix_probe(s: Seq<u8>) -> bool {
    &&& s.len() >= 5
    &&& s[0] != 0 && s[1] != 0
    &&& s[0] <= 64 && s[1] <= 64
    &&& s[2] <= 1 && s[3] <= 1
    &&& 5 + s[4] <= s.len()
    &&& all_printable(s.subrange(5, 5 + s[4]))
    &&& s.len() == 5 + s[4] + s[0] * s[1] * (2 + (if s[2] == 1 { 2int } else { 0int }) + (if s[3] == 1 { 1int } else { 0int }))
}

/// Where the sections lie, when the matrix can be read: (headers start, altitudes start,
/// files start, end).
pub open spec fn spec_gen4_matrix_layout(s: Seq<u8>) -> Option<(int, int, int, int)> {
    if s.len() < 5 || 5 + s[4] > s.len() {
        None
    } else {
        let count = s[0] * s[1];
        let p1 = 5 + s[4];
        let p2 = p1 + (if s[2] == 1 { 2 * count } else { 0 });
        let p3 = p2 + (if s[3] == 1 { count } else { 0 });
        let p4 = p3 + 2 * count;
        if p4 <= s.len() { Some((p1, p2, p3, p4)) } else { None }
    }
}

/// The bytes a header is stored as: the dimension and flag bytes, the byte length of the
/// name's UTF-8 form cut to one byte, then that UTF-8 form.
pub open spec fn spec_header_bytes(h: Gen4MapMatrixHeader) -> Seq<u8> {
    let name = encode_utf8(h.prefix_name@);
    seq![
        h.global_map_width,
        h.global_map_height,
        h.headers_section_present,
        h.altitudes_section_present,
        (name.len() % 256) as u8,
    ] + name
}

impl Gen4MapMatrixHeader {
    /// Appends the header's bytes to `out`; the stored name length is computed from the name,
    /// not taken from `prefix_name_length`.
    pub fn write(&self, out: &mut Vec<u8>)
        ensures
            final(out)@ == old(out)@ + spec_header_bytes(*self),
    {
        let name = self.prefix_name.as_str().as_bytes();
        let ghost start = out@;
        out.push(self.global_map_width);
        out.push(self.global_map_height);
        out.push(self.headers_section_present);
        out.push(self.altitudes_section_present);
        out.push((name.len() % 256) as u8);
        let ghost head = out@;
        let mut i: usize = 0;
        while i < name.len()
            invariant
                i <= name@.len(),
                out@ == head + name@.take(i as int),
            decreases name@.len() - i,
        {
            out.push(name[i]);
            proof {
                assert(name@.take(i + 1) =~= name@.take(i as int).push(name@[i as int]));
            }
            i = i + 1;
        }
        assert(name@.take(name@.len() as int) =~= name@);
        assert(out@ =~= start + spec_header_bytes(*self));
    }
}

/// A matrix read from bytes that begin with a written header has that header back: the
/// same dimensions and flags, the name's byte length, and the same name, when the name's
/// UTF-8 form fits in a byte-long length.
pub proof fn lemma_header_write_read(h: Gen4MapMatrixHeader, rest: Seq<u8>, m: Gen4MapMatrix)
    requires
        encode_utf8(h.prefix_name@).len() <= 255,
        m.parsed_from(spec_header_bytes(h) + rest),
    ensures
        m.header.global_map_width == h.global_map_width,
        m.header.global_map_height == h.global_map_height,
        m.header.headers_section_present == h.headers_section_present,
        m.header.altitudes_section_present == h.altitudes_section_present,
        m.header.prefix_name_length == encode_utf8(h.prefix_name@).len(),
        m.header.prefix_name@ == h.prefix_name@,
{
    let name = encode_utf8(h.prefix_name@);
    let s = spec_header_bytes(h) + rest;
    assert(s[4] == name.len());
    assert(s.subrange(5, 5 + name.len() as int) =~= name);
    encode_utf8_valid_utf8(h.prefix_name@);
    encode_utf8_decode_utf8(h.prefix_name@);
}

impl Gen4MapMatrix {
    /// Whether the matrix holds what the file `s` stores.
    pub open spec fn parsed_from(&self, s: Seq<u8>) -> bool {
        &&& spec_gen4_matrix_layout(s) matches Some((p1, p2, p3, p4)) && {
            let count = (s[0] * s[1]) as nat;
            &&& self.header.global_map_width == s[0]
            &&& self.header.global_map_height == s[1]
            &&& self.header.headers_section_present == s[2]
            &&& self.header.altitudes_section_present == s[3]
            &&& self.header.prefix_name_length == s[4]
            &&& self.header.prefix_name@ == utf8_lossy(s.subrange(5, p1))
            &&& valid_utf8(s.subrange(5, p1)) ==> self.header.prefix_name@ == decode_utf8(s.subrange(5, p1))
            &&& (match self.headers {
                Some(h) => s[2] == 1 && h@ == spec_u16_seq(s, p1, count),
                None => s[2] != 1,
            })
            &&& (match self.altitudes {
                Some(a) => s[3] == 1 && a@ == s.subrange(p2, p3),
                None => s[3] != 1,
            })
            &&& self.files@ == spec_u16_seq(s, p3, count)
        }
    }

    /// Whether `data` looks like a map matrix.
    pub fn probe(data: &[u8]) -> (r: bool)
        ensures
            r == spec_gen4_matrix_probe(data@),
    {
        let total_size = data.len();
        if total_size < 5 {
            return false;
        }
        let width = data[0] as usize;
        let height = data[1] as usize;
        let has_headers = data[2];
        let has_altitudes = data[3];
        let prefix_len = data[4] as usize;
        if width == 0 || height == 0 {
            return false;
        }
        if width > 64 || height > 64 {
            return false;
        }
        if has_headers > 1 || has_altitudes > 1 {
            return false;
        }
        if prefix_len > 0 {
            if total_size - 5 < prefix_len {
                return false;
            }
            let mut i: usize = 0;
            while i < prefix_len
                invariant
                    i <= prefix_len,
                    total_size == data@.len(),
                    5 + prefix_len <= data@.len(),
                    prefix_len == data@[4],
                    data@[0] != 0 && data@[1] != 0 && data@[0] <= 64 && data@[1] <= 64,
                    data@[2] <= 1 && data@[3] <= 1,
                    forall|j: int| 0 <= j < i ==> 0x20 <= #[trigger] data@.subrange(5, 5 + prefix_len)[j] <= 0x7E,
                decreases prefix_len - i,
            {
                let b = data[5 + i];
                if b < 0x20 || b > 0x7E {
                    assert(data@.subrange(5, 5 + prefix_len)[i as int] == b);
                    return false;
                }
                i = i + 1;
            }
        }
        assert(width * height <= 4096) by (nonlinear_arith) requires width <= 64, height <= 64;
        let cells: usize = width * height;
        let bytes_per_cell: usize = 2 + if has_headers == 1 { 2 } else { 0 } + if has_altitudes == 1 { 1 } else { 0 };
        assert(cells * bytes_per_cell <= 20480) by (nonlinear_arith)
            requires cells <= 4096, bytes_per_cell <= 5;
        let expected = 5 + prefix_len + cells * bytes_per_cell;
        total_size == expected
    }

    /// Reads a map matrix.
    pub fn read(data: &[u8]) -> (r: Result<Gen4MapMatrix, ParseError>)
        ensures
            r is Ok <==> spec_gen4_matrix_layout(data@) is Some,
            r matches Ok(m) ==> m.parsed_from(data@),
            r matches Err(e) ==> e == ParseError::UnexpectedEof,
    {
        let n = data.len();
        if n < 5 {
            return Err(ParseError::UnexpectedEof);
        }
        let prefix_len = data[4] as usize;
        if n - 5 < prefix_len {
            return Err(ParseError::UnexpectedEof);
        }
        let name_bytes = copy_range(data, 5, prefix_len);
        let header = Gen4MapMatrixHeader {
            global_map_width: data[0],
            global_map_height: data[1],
            headers_section_present: data[2],
            altitudes_section_present: data[3],
            prefix_name_length: data[4],
            prefix_name: utf8_to_string_lossy(name_bytes.as_slice()),
        };
        let w = header.global_map_width as usize;
        let h = header.global_map_height as usize;
        assert(w * h <= 65025) by (nonlinear_arith) requires w <= 255, h <= 255;
        let count = w * h;
        let p1 = 5 + prefix_len;
        let headers = if header.headers_section_present == 1 {
            match read_u16_vec(data, p1, count) {
                Some(v) => Some(v),
                None => { return Err(ParseError::UnexpectedEof); }
            }
        } else {
            None
        };
        let p2 = if header.headers_section_present == 1 { p1 + 2 * count } else { p1 };
        let altitudes = if header.altitudes_section_present == 1 {
            if n - p2 < count {
                return Err(ParseError::UnexpectedEof);
            }
            Some(copy_range(data, p2, count))
        } else {
            None
        };
        let p3 = if header.altitudes_section_present == 1 { p2 + count } else { p2 };
        let files = match read_u16_vec(data, p3, count) {
            Some(v) => v,
            None => { return Err(ParseError::UnexpectedEof); }
        };
        proof {
            if let Some(h) = &headers {
                assert(h@ =~= spec_u16_seq(data@, p1 as int, count as nat));
            }
            assert(files@ =~= spec_u16_seq(data@, p3 as int, count as nat));
        }
        Ok(Gen4MapMatrix { header, files, headers, altitudes })
    }

    /// The grid of map file ids, one matrix row per line.
    pub fn format_file_ids(&self) -> (r: String)
        requires
            self.header.global_map_width > 0,
        ensures
            r@ == spec_format_grid(self.files@, self.header.global_map_width as nat),
    {
        format_grid(self.files.as_slice(), self.header.global_map_width as usize)
    }

    /// The grid of map header ids, when the matrix has that section.
    pub fn format_header_ids(&self) -> (r: Option<String>)
        requires
            self.headers is Some ==> self.header.global_map_width > 0,
        ensures
            match self.headers {
                Some(h) => r matches Some(t) && t@ == spec_format_grid(h@, self.header.global_map_width as nat),
                None => r is None,
            },
    {
        match &self.headers {
            Some(h) => Some(format_grid(h.as_slice(), self.header.global_map_width as usize)),
            None => None,
        }
    }
}

} // verus!
