//! Fixed-width text fields padded with zero bytes.
use crate::rw::bytes::ParseError;
use crate::text::{string_push, utf8_to_string};
use vstd::prelude::*;
use vstd::utf8::{decode_utf8, encode_scalar, encode_utf8, encode_utf8_decode_utf8, encode_utf8_valid_utf8, valid_utf8};

verus! {

/// A text field stored in exactly `N` bytes, ended early by a zero byte.
#[derive(Debug, Clone)]
pub struct ZeroPaddedString<const N: usize>(pub String);

/// The characters of `cs` before the first NUL.
pub open spec fn until_nul(cs: Seq<char>) -> Seq<char>
    decreases cs.len(),
{
    if cs.len() == 0 {
        cs
    } else if cs[0] == '\0' {
        Seq::empty()
    } else {
        seq![cs[0]] + until_nul(cs.drop_first())
    }
}

/// What reading an `n`-byte zero-padded string at `pos` gives: the text before the first
/// NUL of the UTF-8 decoding of those bytes.
pub open spec fn spec_read_zps(s: Seq<u8>, pos: int, n: int) -> Result<Seq<char>, ParseError> {
    if pos + n > s.len() {
        Err(ParseError::UnexpectedEof)
    } else if !valid_utf8(s.subrange(pos, pos + n)) {
        Err(ParseError::InvalidUtf8)
    } else {
        Ok(until_nul(decode_utf8(s.subrange(pos, pos + n))))
    }
}

/// The `n` bytes that a field holding `cs` is stored as: the UTF-8 encoding of `cs`, cut
/// after `n` bytes, then zeros.
pub open spec fn spec_write_zps(cs: Seq<char>, n: nat) -> Seq<u8> {
    let b = encode_utf8(cs);
    if b.len() >= n {
        b.take(n as int)
    } else {
        b + Seq::new((n - b.len()) as nat, |i: int| 0u8)
    }
}

/// `m` NUL characters.
spec fn nuls(m: nat) -> Seq<char> {
    Seq::new(m, |i: int| '\0')
}

proof fn lemma_encode_concat(a: Seq<char>, b: Seq<char>)
    ensures
        encode_utf8(a + b) == encode_utf8(a) + encode_utf8(b),
    decreases a.len(),
{
    if a.len() > 0 {
        lemma_encode_concat(a.drop_first(), b);
        assert((a + b).drop_first() =~= a.drop_first() + b);
        assert((a + b)[0] == a[0]);
        assert(encode_utf8(a + b) =~= encode_utf8(a) + encode_utf8(b));
    } else {
        assert(a + b =~= b);
    }
}

proof fn lemma_encode_nuls(m: nat)
    ensures
        encode_utf8(nuls(m)) == Seq::new(m, |i: int| 0u8),
    decreases m,
{
    if m > 0 {
        lemma_encode_nuls((m - 1) as nat);
        assert(nuls(m).drop_first() =~= nuls((m - 1) as nat));
        assert(('\0' as u32) == 0u32);
        assert((0u32 & 0x7Fu32) as u8 == 0u8) by (bit_vector);
        assert(encode_scalar(nuls(m)[0] as u32) =~= seq![0u8]);
        assert(encode_utf8(nuls(m)) =~= Seq::new(m, |i: int| 0u8));
    } else {
        assert(encode_utf8(nuls(m)) =~= Seq::new(m, |i: int| 0u8));
    }
}

proof fn lemma_until_nul_before_nuls(cs: Seq<char>, m: nat)
    requires
        forall|i: int| 0 <= i < cs.len() ==> cs[i] != '\0',
    ensures
        until_nul(cs + nuls(m)) == cs,
    decreases cs.len(),
{
    if cs.len() > 0 {
        lemma_until_nul_before_nuls(cs.drop_first(), m);
        assert((cs + nuls(m)).drop_first() =~= cs.drop_first() + nuls(m));
        assert((cs + nuls(m))[0] == cs[0]);
        assert(cs =~= seq![cs[0]] + cs.drop_first());
    } else if m > 0 {
        assert((cs + nuls(m))[0] == '\0');
    } else {
        assert(cs + nuls(m) =~= cs);
    }
}

/// Writing a field and reading it back gives its text unchanged, when the text holds no NUL
/// and its UTF-8 encoding fits in the field.
pub proof fn lemma_write_then_read(cs: Seq<char>, n: nat)
    requires
        forall|i: int| 0 <= i < cs.len() ==> cs[i] != '\0',
        encode_utf8(cs).len() <= n,
    ensures
        spec_write_zps(cs, n).len() == n,
        spec_read_zps(spec_write_zps(cs, n), 0, n as int) == Ok::<Seq<char>, ParseError>(cs),
{
    let b = encode_utf8(cs);
    let m = (n - b.len()) as nat;
    let w = spec_write_zps(cs, n);
    lemma_encode_nuls(m);
    lemma_encode_concat(cs, nuls(m));
    if b.len() == n {
        assert(b.take(n as int) =~= b + Seq::new(m, |i: int| 0u8));
    }
    assert(w == encode_utf8(cs + nuls(m)));
    assert(w.subrange(0, n as int) =~= w);
    encode_utf8_valid_utf8(cs + nuls(m));
    encode_utf8_decode_utf8(cs + nuls(m));
    lemma_until_nul_before_nuls(cs, m);
}

/// The text of a field never holds a NUL.
pub proof fn lemma_until_nul_has_no_nul(cs: Seq<char>)
    ensures
        forall|i: int| 0 <= i < until_nul(cs).len() ==> until_nul(cs)[i] != '\0',
        until_nul(cs).len() <= cs.len(),
    decreases cs.len(),
{
    if cs.len() > 0 && cs[0] != '\0' {
        lemma_until_nul_has_no_nul(cs.drop_first());
        let t = until_nul(cs.drop_first());
        assert forall|i: int| 0 <= i < until_nul(cs).len() implies until_nul(cs)[i] != '\0' by {
            if i > 0 {
                assert(until_nul(cs)[i] == t[i - 1]);
            }
        }
    }
}

proof fn lemma_until_nul_step(cs: Seq<char>, i: int)
    requires
        0 <= i < cs.len(),
        forall|j: int| 0 <= j < i ==> cs[j] != '\0',
    ensures
        cs[i] == '\0' ==> until_nul(cs) == cs.take(i),
        cs[i] != '\0' ==> until_nul(cs) == cs.take(i + 1) + until_nul(cs.skip(i + 1)),
    decreases i,
{
    if i == 0 {
        assert(cs.take(0) =~= Seq::<char>::empty());
        assert(cs.take(1) =~= seq![cs[0]]);
        assert(cs.skip(1) =~= cs.drop_first());
    } else {
        let t = cs.drop_first();
        lemma_until_nul_step(t, i - 1);
        assert(cs.take(i) =~= seq![cs[0]] + t.take(i - 1));
        assert(cs.take(i + 1) =~= seq![cs[0]] + t.take(i));
        assert(cs.skip(i + 1) =~= t.skip(i));
    }
}

proof fn lemma_until_nul_all(cs: Seq<char>)
    requires
        forall|j: int| 0 <= j < cs.len() ==> cs[j] != '\0',
    ensures
        until_nul(cs) == cs,
    decreases cs.len(),
{
    if cs.len() > 0 {
        lemma_until_nul_all(cs.drop_first());
        assert(cs =~= seq![cs[0]] + cs.drop_first());
    }
}

/// The characters of `s` before the first NUL, as a new string.
fn string_until_nul(s: &String) -> (r: String)
    ensures
        r@ == until_nul(s@),
{
    let st = s.as_str();
    let n = st.unicode_len();
    let mut r = String::new();
    let mut i: usize = 0;
    loop
        invariant_except_break
            i <= n,
            n == s@.len(),
            st@ == s@,
            r@ == s@.take(i as int),
            forall|j: int| 0 <= j < i ==> s@[j] != '\0',
        ensures
            r@ == until_nul(s@),
        decreases n - i,
    {
        if i >= n {
            proof {
                lemma_until_nul_all(s@);
                assert(s@.take(n as int) =~= s@);
            }
            break;
        }
        let c = st.get_char(i);
        proof {
            lemma_until_nul_step(s@, i as int);
        }
        if c == '\0' {
            break;
        }
        string_push(&mut r, c);
        proof {
            assert(r@ =~= s@.take(i + 1));
        }
        i = i + 1;
    }
    r
}

impl<const N: usize> ZeroPaddedString<N> {
    /// Reads the field from `data[pos..pos + N]`.
    pub fn read(data: &[u8], pos: usize) -> (r: Result<Self, ParseError>)
        ensures
            r matches Ok(z) ==> spec_read_zps(data@, pos as int, N as int) == Ok::<Seq<char>, ParseError>(z.0@),
            r matches Err(e) ==> spec_read_zps(data@, pos as int, N as int) == Err::<Seq<char>, ParseError>(e),
    {
        if pos > data.len() || data.len() - pos < N {
            return Err(ParseError::UnexpectedEof);
        }
        let bytes = crate::rw::bytes::copy_range(data, pos, N);
        match utf8_to_string(bytes) {
            Some(s) => Ok(ZeroPaddedString(string_until_nul(&s))),
            None => Err(ParseError::InvalidUtf8),
        }
    }

    /// Appends the field's `N` bytes to `out`: the text's UTF-8 bytes, cut after `N`, then
    /// zeros.
    pub fn write(&self, out: &mut Vec<u8>)
        ensures
            final(out)@ == old(out)@ + spec_write_zps(self.0@, N as nat),
    {
        let bytes = self.0.as_str().as_bytes();
        let len = if bytes.len() < N { bytes.len() } else { N };
        let ghost start = out@;
        let ghost b = encode_utf8(self.0@);
        let mut i: usize = 0;
        while i < len
            invariant
                len <= N,
                len <= bytes@.len(),
                bytes@ == b,
                i <= len,
                out@ == start + b.take(i as int),
            decreases len - i,
        {
            out.push(bytes[i]);
            proof {
                assert(b.take(i + 1) =~= b.take(i as int).push(b[i as int]));
            }
            i = i + 1;
        }
        while i < N
            invariant
                len <= i <= N,
                len <= bytes@.len(),
                bytes@ == b,
                len == (if b.len() < N { b.len() as int } else { N as int }),
                out@ == start + b.take(len as int) + Seq::new((i - len) as nat, |j: int| 0u8),
            decreases N - i,
        {
            out.push(0u8);
            proof {
                assert(Seq::new((i + 1 - len) as nat, |j: int| 0u8) =~= Seq::new((i - len) as nat, |j: int| 0u8).push(0u8));
            }
            i = i + 1;
        }
        proof {
            if b.len() >= N {
                assert(Seq::new(0nat, |j: int| 0u8) =~= Seq::<u8>::empty());
                assert(out@ =~= start + spec_write_zps(self.0@, N as nat));
            } else {
                assert(b.take(len as int) =~= b);
                assert(out@ =~= start + spec_write_zps(self.0@, N as nat));
            }
        }
    }

    /// The text of the field.
    pub fn as_str(&self) -> (r: &str)
        ensures
            r@ == self.0@,
    {
        self.0.as_str()
    }

    /// Whether the text equals `other`.
    pub fn eq_str(&self, other: &str) -> (r: bool)
        ensures
            r == (self.0@ == other@),
    {
        crate::text::str_eq(self.0.as_str(), other)
    }
}

} // verus!
