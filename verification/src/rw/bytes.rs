//! Little-endian integer fields read out of byte buffers.
use vstd::prelude::*;

verus! {

/// The little-endian `u16` stored at `s[i..i + 2]`.
pub open spec fn spec_u16_le(s: Seq<u8>, i: int) -> u16 {
    (s[i] + s[i + 1] * 256) as u16
}

/// The little-endian `u32` stored at `s[i..i + 4]`.
pub open spec fn spec_u32_le(s: Seq<u8>, i: int) -> u32 {
    (s[i] + s[i + 1] * 256 + s[i + 2] * 65536 + s[i + 3] * 16777216) as u32
}

/// Whether `n` bytes starting at `pos` lie inside a buffer of `len` bytes.
pub open spec fn in_bounds(len: int, pos: int, n: int) -> bool {
    0 <= pos && pos + n <= len
}

pub fn read_u8(s: &[u8], i: usize) -> (v: Option<u8>)
    ensures
        v == (if in_bounds(s@.len() as int, i as int, 1) { Some(s@[i as int]) } else { None::<u8> }),
{
    if i < s.len() {
        Some(s[i])
    } else {
        None
    }
}

pub fn read_u16_le(s: &[u8], i: usize) -> (v: Option<u16>)
    ensures
        v == (if in_bounds(s@.len() as int, i as int, 2) {
            Some(spec_u16_le(s@, i as int))
        } else {
            None::<u16>
        }),
{
    if i < s.len() && s.len() - i >= 2 {
        let b0 = s[i] as u16;
        let b1 = s[i + 1] as u16;
        Some(b0 + b1 * 256)
    } else {
        None
    }
}

pub fn read_u32_le(s: &[u8], i: usize) -> (v: Option<u32>)
    ensures
        v == (if in_bounds(s@.len() as int, i as int, 4) {
            Some(spec_u32_le(s@, i as int))
        } else {
            None::<u32>
        }),
{
    if i < s.len() && s.len() - i >= 4 {
        let b0 = s[i] as u32;
        let b1 = s[i + 1] as u32;
        let b2 = s[i + 2] as u32;
        let b3 = s[i + 3] as u32;
        Some(b0 + b1 * 256 + b2 * 65536 + b3 * 16777216)
    } else {
        None
    }
}

/// The little-endian `u16` at `pos`, which must lie inside `data`.
pub(crate) fn u16_at(data: &[u8], pos: usize) -> (v: u16)
    requires
        pos + 2 <= data@.len(),
    ensures
        v == spec_u16_le(data@, pos as int),
{
    match read_u16_le(data, pos) { Some(v) => v, None => 0 }
}

/// The little-endian `u32` at `pos`, which must lie inside `data`.
pub(crate) fn u32_at(data: &[u8], pos: usize) -> (v: u32)
    requires
        pos + 4 <= data@.len(),
    ensures
        v == spec_u32_le(data@, pos as int),
{
    match read_u32_le(data, pos) { Some(v) => v, None => 0 }
}

/// What reading `len` bytes at `start` gives: nothing to read always succeeds (wherever
/// `start` lies), otherwise the bytes must all lie inside `s`.
pub open spec fn bytes_at(s: Seq<u8>, start: int, len: int) -> Option<Seq<u8>> {
    if len == 0 {
        Some(Seq::empty())
    } else if 0 <= start && start + len <= s.len() {
        Some(s.subrange(start, start + len))
    } else {
        None
    }
}

/// Reads `len` bytes at `start`, as a seek followed by an exact read would.
pub fn read_bytes(s: &[u8], start: usize, len: usize) -> (r: Option<Vec<u8>>)
    ensures
        r is Some <==> bytes_at(s@, start as int, len as int) is Some,
        r matches Some(v) ==> bytes_at(s@, start as int, len as int) == Some(v@),
{
    if len == 0 {
        return Some(Vec::new());
    }
    if start > s.len() || len > s.len() - start {
        return None;
    }
    Some(copy_range(s, start, len))
}

/// Copies `s[start..start + len]` into a new vector.
pub fn copy_range(s: &[u8], start: usize, len: usize) -> (v: Vec<u8>)
    requires
        start + len <= s@.len(),
    ensures
        v@ == s@.subrange(start as int, start + len),
{
    let mut v: Vec<u8> = Vec::with_capacity(len);
    let mut k: usize = 0;
    let n = s.len();
    while k < len
        invariant
            k <= len,
            n == s@.len(),
            start + len <= s@.len(),
            v@ == s@.subrange(start as int, start + k),
        decreases len - k,
    {
        v.push(s[start + k]);
        k = k + 1;
        assert(v@ =~= s@.subrange(start as int, start + k));
    }
    v
}

} // verus!

verus! {

/// Why a structured read of binary data failed.
#[derive(Debug, Clone, Copy, PartialEq, Eq, Structural)]
pub enum ParseError {
    /// A field failed its assertion (such as a magic number); `pos` is where the field starts.
    AssertFail { pos: usize },
    /// The data ended before the structure did.
    UnexpectedEof,
    /// A text field held bytes that are not UTF-8.
    InvalidUtf8,
}

/// Copies the `N` bytes at `s[pos..pos + N]` into an array.
pub fn read_array<const N: usize>(s: &[u8], pos: usize) -> (a: [u8; N])
    requires
        pos + N <= s@.len(),
    ensures
        a@ == s@.subrange(pos as int, pos + N),
{
    let mut a: [u8; N] = [0u8; N];
    let mut k: usize = 0;
    let n = s.len();
    while k < N
        invariant
            k <= N,
            n == s@.len(),
            pos + N <= n,
            a@.len() == N,
            forall|i: int| 0 <= i < k ==> a@[i] == s@[pos + i],
        decreases N - k,
    {
        a[k] = s[pos + k];
        k = k + 1;
    }
    assert(a@ =~= s@.subrange(pos as int, pos + N));
    a
}

} // verus!

verus! {

/// Reads `count` consecutive little-endian `u16` values starting at `pos`.
pub fn read_u16_vec(s: &[u8], pos: usize, count: usize) -> (r: Option<Vec<u16>>)
    ensures
        r is Some <==> pos + 2 * count <= s@.len(),
        r matches Some(v) ==> v@.len() == count && forall|i: int| 0 <= i < count ==> #[trigger] v@[i] == spec_u16_le(s@, pos + 2 * i),
{
    let n = s.len();
    if pos > n || (n - pos) / 2 < count {
        proof {
            if pos <= n {
                let q = ((n - pos) / 2) as int;
                assert(2 * count > n - pos) by (nonlinear_arith)
                    requires q < count, q == (n - pos) / 2, n >= pos;
            }
        }
        return None;
    }
    proof {
        let q = ((n - pos) / 2) as int;
        assert(2 * count <= n - pos) by (nonlinear_arith)
            requires q >= count, q == (n - pos) / 2, n >= pos;
    }
    let mut v: Vec<u16> = Vec::with_capacity(count);
    let mut k: usize = 0;
    while k < count
        invariant
            k <= count,
            n == s@.len(),
            pos + 2 * count <= n,
            v@.len() == k,
            forall|i: int| 0 <= i < k ==> #[trigger] v@[i] == spec_u16_le(s@, pos + 2 * i),
        decreases count - k,
    {
        let x = match read_u16_le(s, pos + 2 * k) { Some(x) => x, None => 0 };
        v.push(x);
        k = k + 1;
    }
    Some(v)
}

/// The little-endian `u16` values stored at `s[pos..pos + 2 * count]`.
pub open spec fn spec_u16_seq(s: Seq<u8>, pos: int, count: nat) -> Seq<u16> {
    Seq::new(count, |i: int| spec_u16_le(s, pos + 2 * i))
}

} // verus!
