//! Map matrices (earlier reading): map file ids per world-grid cell, with two optional
//! extra layers.
use crate::codec::common::fmt::{joined_cells, max_decimal_len};
use crate::rw::bytes::{copy_range, read_u16_vec, spec_u16_seq, ParseError};
use crate::text::{decimal, string_push, usize_to_decimal, utf8_lossy, utf8_to_string_lossy};
use vstd::prelude::*;
use vstd::utf8::{decode_utf8, encode_utf8, encode_utf8_decode_utf8, encode_utf8_valid_utf8, valid_utf8};

verus! {

/// A parsed map matrix.
pub struct Gen4MapMatrix {
    pub header: Gen4MapMatrixHeader,
    pub map_indices: Vec<u16>,
    /// Present in some files (such as the first HG/SS matrix and the safari zone).
    pub extra_u16_layer: Option<Vec<u16>>,
    pub extra_u8_layer: Option<Vec<u8>>,
}

/// The dimensions and layer flags that open a map matrix, then its name.
pub struct Gen4MapMatrixHeader {
    pub global_map_width: u8,
    pub global_map_height: u8,
    pub has_extra_u16_layer: u8,
    pub has_extra_u8_layer: u8,
    pub prefix_name_length: u8,
    pub prefix_name: String,
}

/// Whether the size of `s` is exactly what its header announces.
pub open spec fn spec_matrix_probe(s: Seq<u8>) -> bool {
    &&& s.len() >= 5
    &&& s.len() == 5 + s[4] + s[0] * s[1] * (2 + (if s[2] == 1 { 2int } else { 0int }) + (if s[3] == 1 { 1int } else { 0int }))
}

/// Where the layers lie, when the matrix can be read: (indices start, u16 layer start,
/// u8 layer start, end).
pub open spec fn spec_matrix_layout(s: Seq<u8>) -> Option<(int, int, int, int)> {
    if s.len() < 5 || 5 + s[4] > s.len() {
        None
    } else {
        let count = s[0] * s[1];
        let p1 = 5 + s[4];
        let p2 = p1 + 2 * count;
        let p3 = p2 + (if s[2] == 1 { 2 * count } else { 0 });
        let p4 = p3 + (if s[3] == 1 { count } else { 0 });
        if p4 <= s.len() { Some((p1, p2, p3, p4)) } else { None }
    }
}

/// The first `k` lines of the matrix: row `y` holds cells `y * w .. y * w + w`.
pub open spec fn matrix_lines(m: Seq<u16>, w: nat, cw: nat, k: nat) -> Seq<char>
    decreases k,
{
    let row = |y: nat| joined_cells(m.subrange((y * w) as int, (y * w + w) as int).map_values(|v: u16| v as nat), cw);
    if k == 0 {
        Seq::empty()
    } else if k == 1 {
        row(0)
    } else {
        matrix_lines(m, w, cw, (k - 1) as nat) + seq!['\n'] + row((k - 1) as nat)
    }
}

/// The bytes a header is stored as: the dimension and layer-flag bytes, the byte length of
/// the name's UTF-8 form cut to one byte, then that UTF-8 form.
pub open spec fn spec_header_bytes(h: Gen4MapMatrixHeader) -> Seq<u8> {
    let name = encode_utf8(h.prefix_name@);
    seq![
        h.global_map_width,
        h.global_map_height,
        h.has_extra_u16_layer,
        h.has_extra_u8_layer,
        (name.len() % 256) as u8,
    ] + name
}

impl Gen4MapMatrixHeader {
    /// Appends the header's bytes to `out`; the stored name length is computed from the name,
    /// not taken from `prefix_name_length`.
    pub fn write(&self, out: &mut Vec<u8>)
        ensures
            final(out)@ == old(out)@ + spec_header_bytes(*self),
    {
        let name = self.prefix_name.as_str().as_bytes();
        let ghost start = out@;
        out.push(self.global_map_width);
        out.push(self.global_map_height);
        out.push(self.has_extra_u16_layer);
        out.push(self.has_extra_u8_layer);
        out.push((name.len() % 256) as u8);
        let ghost head = out@;
        let mut i: usize = 0;
        while i < name.len()
            invariant
                i <= name@.len(),
                out@ == head + name@.take(i as int),
            decreases name@.len() - i,
        {
            out.push(name[i]);
            proof {
                assert(name@.take(i + 1) =~= name@.take(i as int).push(name@[i as int]));
            }
            i = i + 1;
        }
        assert(name@.take(name@.len() as int) =~= name@);
        assert(out@ =~= start + spec_header_bytes(*self));
    }
}

/// A matrix read from bytes that begin with a written header has that header back: the
/// same dimensions and layer flags, the name's byte length, and the same name, when the
/// name's UTF-8 form fits in a byte-long length.
pub proof fn lemma_header_write_read(h: Gen4MapMatrixHeader, rest: Seq<u8>, m: Gen4MapMatrix)
    requires
        encode_utf8(h.prefix_name@).len() <= 255,
        m.parsed_from(spec_header_bytes(h) + rest),
    ensures
        m.header.global_map_width == h.global_map_width,
        m.header.global_map_height == h.global_map_height,
        m.header.has_extra_u16_layer == h.has_extra_u16_layer,
        m.header.has_extra_u8_layer == h.has_extra_u8_layer,
        m.header.prefix_name_length == encode_utf8(h.prefix_name@).len(),
        m.header.prefix_name@ == h.prefix_name@,
{
    let name = encode_utf8(h.prefix_name@);
    let s = spec_header_bytes(h) + rest;
    assert(s[4] == name.len());
    assert(s.subrange(5, 5 + name.len() as int) =~= name);
    encode_utf8_valid_utf8(h.prefix_name@);
    encode_utf8_decode_utf8(h.prefix_name@);
}

impl Gen4MapMatrix {
    /// Whether the matrix holds what the file `s` stores.
    pub open spec fn parsed_from(&self, s: Seq<u8>) -> bool {
        &&& spec_matrix_layout(s) matches Some((p1, p2, p3, p4)) && {
            let count = (s[0] * s[1]) as nat;
            &&& self.header.global_map_width == s[0]
            &&& self.header.global_map_height == s[1]
            &&& self.header.has_extra_u16_layer == s[2]
            &&& self.header.has_extra_u8_layer == s[3]
            &&& self.header.prefix_name_length == s[4]
            &&& self.header.prefix_name@ == utf8_lossy(s.subrange(5, p1))
            &&& valid_utf8(s.subrange(5, p1)) ==> self.header.prefix_name@ == decode_utf8(s.subrange(5, p1))
            &&& self.map_indices@ == spec_u16_seq(s, p1, count)
            &&& (match self.extra_u16_layer {
                Some(l) => s[2] == 1 && l@ == spec_u16_seq(s, p2, count),
                None => s[2] != 1,
            })
            &&& (match self.extra_u8_layer {
                Some(l) => s[3] == 1 && l@ == s.subrange(p3, p4),
                None => s[3] != 1,
            })
        }
    }

    /// Whether `data` is exactly as long as the matrix its header announces.
    pub fn probe(data: &[u8]) -> (r: bool)
        ensures
            r == spec_matrix_probe(data@),
    {
        let total_size = data.len();
        if total_size < 5 {
            return false;
        }
        let width = data[0] as usize;
        let height = data[1] as usize;
        let prefix_len = data[4] as usize;
        assert(width * height <= 65025) by (nonlinear_arith) requires width <= 255, height <= 255;
        let cells: usize = width * height;
        let bytes_per_cell: usize = 2 + if data[2] == 1 { 2 } else { 0 } + if data[3] == 1 { 1 } else { 0 };
        assert(cells * bytes_per_cell <= 65025 * 5) by (nonlinear_arith)
            requires cells <= 65025, bytes_per_cell <= 5;
        let expected = 5 + prefix_len + cells * bytes_per_cell;
        total_size == expected
    }

    /// Reads a map matrix.
    pub fn read(data: &[u8]) -> (r: Result<Gen4MapMatrix, ParseError>)
        ensures
            r is Ok <==> spec_matrix_layout(data@) is Some,
            r matches Ok(m) ==> m.parsed_from(data@),
            r matches Err(e) ==> e == ParseError::UnexpectedEof,
    {
        let n = data.len();
        if n < 5 {
            return Err(ParseError::UnexpectedEof);
        }
        let prefix_len = data[4] as usize;
        if n - 5 < prefix_len {
            return Err(ParseError::UnexpectedEof);
        }
        let name_bytes = copy_range(data, 5, prefix_len);
        let header = Gen4MapMatrixHeader {
            global_map_width: data[0],
            global_map_height: data[1],
            has_extra_u16_layer: data[2],
            has_extra_u8_layer: data[3],
            prefix_name_length: data[4],
            prefix_name: utf8_to_string_lossy(name_bytes.as_slice()),
        };
        let w = header.global_map_width as usize;
        let h = header.global_map_height as usize;
        assert(w * h <= 65025) by (nonlinear_arith) requires w <= 255, h <= 255;
        let count = w * h;
        let p1 = 5 + prefix_len;
        let map_indices = match read_u16_vec(data, p1, count) {
            Some(v) => v,
            None => { return Err(ParseError::UnexpectedEof); }
        };
        let p2 = p1 + 2 * count;
        let extra_u16_layer = if header.has_extra_u16_layer == 1 {
            match read_u16_vec(data, p2, count) {
                Some(v) => Some(v),
                None => { return Err(ParseError::UnexpectedEof); }
            }
        } else {
            None
        };
        let p3 = if header.has_extra_u16_layer == 1 { p2 + 2 * count } else { p2 };
        let extra_u8_layer = if header.has_extra_u8_layer == 1 {
            if n - p3 < count {
                return Err(ParseError::UnexpectedEof);
            }
            Some(copy_range(data, p3, count))
        } else {
            None
        };
        proof {
            if let Some(l) = &extra_u16_layer {
                assert(l@ =~= spec_u16_seq(data@, p2 as int, count as nat));
            }
            assert(map_indices@ =~= spec_u16_seq(data@, p1 as int, count as nat));
        }
        Ok(Gen4MapMatrix { header, map_indices, extra_u16_layer, extra_u8_layer })
    }

    /// The map indices as a grid: one matrix row per line, each index right-aligned to the
    /// width of the longest one.
    pub fn format_grid(&self) -> (r: String)
        requires
            self.map_indices@.len() >= self.header.global_map_width * self.header.global_map_height,
        ensures
            r@ == matrix_lines(
                self.map_indices@,
                self.header.global_map_width as nat,
                if self.map_indices@.len() == 0 { 1 } else { max_decimal_len(self.map_indices@) },
                self.header.global_map_height as nat,
            ),
    {
        let w = self.header.global_map_width as usize;
        let h = self.header.global_map_height as usize;
        let m = &self.map_indices;
        let n = m.len();
        let mut col_width: usize = 0;
        let mut i: usize = 0;
        while i < n
            invariant
                i <= n,
                n == m@.len(),
                col_width == max_decimal_len(m@.subrange(0, i as int)),
            decreases n - i,
        {
            let d = usize_to_decimal(m[i] as usize);
            let l = d.as_str().unicode_len();
            assert(m@.subrange(0, i + 1).drop_last() =~= m@.subrange(0, i as int));
            if l > col_width {
                col_width = l;
            }
            i = i + 1;
        }
        assert(m@.subrange(0, n as int) =~= m@);
        if n == 0 {
            col_width = 1;
        }
        let mut out = String::new();
        let mut y: usize = 0;
        while y < h
            invariant
                y <= h,
                w <= 255,
                h <= 255,
                m@.len() >= w * h,
                out@ == matrix_lines(m@, w as nat, col_width as nat, y as nat),
            decreases h - y,
        {
            let ghost line_start = out@;
            if y > 0 {
                string_push(&mut out, '\n');
            }
            assert(y * w + w <= w * h) by (nonlinear_arith) requires y < h;
            assert(y * w <= 255 * 255) by (nonlinear_arith) requires y < h, w <= 255, h <= 255;
            assert(y * w + w <= 255 * 255 + 255);
            let start = y * w;
            let ghost cell_start = out@;
            let mut x: usize = 0;
            while x < w
                invariant
                    x <= w,
                    start + w <= m@.len(),
                    start + w <= 255 * 255 + 255,
                    out@ == cell_start + joined_cells(m@.subrange(start as int, start + x).map_values(|v: u16| v as nat), col_width as nat),
                decreases w - x,
            {
                let ghost prev = m@.subrange(start as int, start + x).map_values(|v: u16| v as nat);
                let ghost next = m@.subrange(start as int, start + x + 1).map_values(|v: u16| v as nat);
                assert(next.drop_last() =~= prev);
                if x > 0 {
                    string_push(&mut out, ' ');
                }
                let d = usize_to_decimal(m[start + x] as usize);
                let l = d.as_str().unicode_len();
                let ghost before_pad = out@;
                if l < col_width {
                    let mut k: usize = 0;
                    while k < col_width - l
                        invariant
                            l < col_width,
                            k <= col_width - l,
                            out@ == before_pad + Seq::new(k as nat, |j: int| ' '),
                        decreases col_width - l - k,
                    {
                        string_push(&mut out, ' ');
                        k = k + 1;
                        assert(out@ =~= before_pad + Seq::new(k as nat, |j: int| ' '));
                    }
                }
                out.append(d.as_str());
                x = x + 1;
                proof {
                    if x - 1 == 0 {
                        assert(prev =~= Seq::<nat>::empty());
                    }
                    assert(out@ =~= cell_start + joined_cells(next, col_width as nat));
                }
            }
            y = y + 1;
            proof {
                if y - 1 > 0 {
                    assert(out@ =~= line_start + seq!['\n'] + joined_cells(m@.subrange(start as int, start + w).map_values(|v: u16| v as nat), col_width as nat));
                } else {
                    assert(out@ =~= line_start + joined_cells(m@.subrange(start as int, start + w).map_values(|v: u16| v as nat), col_width as nat));
                }
                assert(out@ =~= matrix_lines(m@, w as nat, col_width as nat, y as nat));
            }
        }
        out
    }
}

} // verus!
