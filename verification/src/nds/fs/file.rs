//! Files of a DS file system, kept brotli-compressed in memory and parsed when their
//! format is recognised.
use crate::codec::common::rom::{IoError, RomReadError};
use crate::codec::nds::formats::hgss_map::HgSsMap;
use crate::codec::nds::formats::narc::Narc;
use crate::codec::nds::fs::NdsFileSystem;
use crate::platform::nds::formats::{spec_parse_nds_file, NdsFileFormat, ParsedNdsFile};
use crate::text::string_push;
use std::io::Write;
use vstd::prelude::*;

verus! {

/// What brotli's streaming compressor (4096-byte buffer, quality 4, window 22) writes for
/// `data`: the compressed bytes, or `None` when it reports an I/O error. The crate is built
/// with its `portable-float` feature, which makes these bytes the same on every target.
pub uninterp spec fn brotli_compressed(data: Seq<u8>) -> Option<Seq<u8>>;

/// What brotli's decompressor produces from `data`, or `None` when it reports an error.
pub uninterp spec fn brotli_decompressed(data: Seq<u8>) -> Option<Seq<u8>>;

/// Compresses `data` with `brotli::CompressorWriter` writing into a vector.
/// The contract claims only that the output is a function of the input (true with the
/// `portable-float` feature, which Cargo.toml turns on); what the bytes are is left to brotli.
#[verifier::external_body]
fn brotli_compress(data: &[u8]) -> (r: Result<Vec<u8>, std::io::Error>)
    ensures
        r is Ok <==> brotli_compressed(data@) is Some,
        r matches Ok(c) ==> brotli_compressed(data@) == Some(c@),
{
    let mut compressed = Vec::new();
    let mut writer = brotli::CompressorWriter::new(&mut compressed, 4096, 4, 22);
    writer.write_all(data)?;
    drop(writer);
    Ok(compressed)
}

/// Decompresses `data` with `brotli::BrotliDecompress` into a vector. Besides tying the
/// result to the input, the contract claims brotli's losslessness: bytes that the compressor
/// above produced for `x` decompress to `x`.
#[verifier::external_body]
fn brotli_decompress(data: &[u8]) -> (r: Result<Vec<u8>, std::io::Error>)
    ensures
        r is Ok <==> brotli_decompressed(data@) is Some,
        r matches Ok(v) ==> brotli_decompressed(data@) == Some(v@),
        r is Ok || !(exists|x: Seq<u8>| brotli_compressed(x) == Some(data@)),
        r matches Ok(v) ==> forall|x: Seq<u8>| brotli_compressed(x) == Some(data@) ==> v@ == x,
{
    let mut decompressed = Vec::new();
    brotli::BrotliDecompress(&mut std::io::Cursor::new(data), &mut decompressed)?;
    Ok(decompressed)
}

/// A file of the file system.
pub struct NdsFile {
    pub id: u16,
    pub name: String,
    pub parent_dir_id: u16,
    pub size: usize,
    pub data: NdsFileData,
}

/// The contents of a file: always the compressed bytes, and the parsed form when the
/// format was recognised.
pub enum NdsFileData {
    Parsed { compressed: Vec<u8>, parsed: ParsedNdsFile },
    Raw(Vec<u8>),
}

/// Whether `s` contains the character `c`.
pub open spec fn contains_char(s: Seq<char>, c: char) -> bool {
    exists|i: int| 0 <= i < s.len() && s[i] == c
}

impl NdsFileData {
    /// Whether the contents are what `new` makes of the bytes `raw`: their compressed form,
    /// parsed exactly when parsing them succeeds.
    pub open spec fn built_from(&self, raw: Seq<u8>) -> bool
        decreases self,
    {
        match self {
            NdsFileData::Parsed { compressed, parsed } => {
                &&& brotli_compressed(raw) == Some(compressed@)
                &&& parsed.parsed_from(raw)
            },
            NdsFileData::Raw(compressed) => {
                &&& brotli_compressed(raw) == Some(compressed@)
                &&& spec_parse_nds_file(raw) is Err
            },
        }
    }

    /// The compressed bytes held either way.
    pub open spec fn compressed_bytes(&self) -> Seq<u8> {
        match self {
            NdsFileData::Parsed { compressed, .. } => compressed@,
            NdsFileData::Raw(compressed) => compressed@,
        }
    }

    /// Compresses `data` and parses it when its format is recognised.
    pub fn new(data: Vec<u8>) -> (r: Result<NdsFileData, IoError>)
        ensures
            r is Ok <==> brotli_compressed(data@) is Some,
            r matches Ok(d) ==> d.built_from(data@),
            r matches Err(e) ==> e == IoError::Other,
        decreases data@.len(), 2nat,
    {
        let compressed = match brotli_compress(data.as_slice()) {
            Ok(c) => c,
            Err(_) => { return Err(IoError::Other); }
        };
        match ParsedNdsFile::read(data.as_slice()) {
            Ok(parsed) => Ok(NdsFileData::Parsed { compressed, parsed }),
            Err(_) => Ok(NdsFileData::Raw(compressed)),
        }
    }

    /// The uncompressed bytes.
    pub fn raw(&self) -> (r: Result<Vec<u8>, IoError>)
        ensures
            r is Ok <==> brotli_decompressed(self.compressed_bytes()) is Some,
            r matches Ok(v) ==> brotli_decompressed(self.compressed_bytes()) == Some(v@),
            r matches Err(e) ==> e == IoError::Other,
            forall|x: Seq<u8>| self.built_from(x) ==> (r matches Ok(v) && v@ == x),
    {
        let data = match self {
            NdsFileData::Parsed { compressed, .. } => compressed,
            NdsFileData::Raw(data) => data,
        };
        match brotli_decompress(data.as_slice()) {
            Ok(v) => Ok(v),
            Err(_) => Err(IoError::Other),
        }
    }

    /// The recognised format, if any.
    pub fn format(&self) -> (r: Option<NdsFileFormat>)
        ensures
            r == (match self {
                NdsFileData::Parsed { parsed, .. } => Some(parsed.spec_format()),
                NdsFileData::Raw(_) => None::<NdsFileFormat>,
            }),
    {
        match self {
            NdsFileData::Parsed { parsed, .. } => Some(parsed.format()),
            _ => None,
        }
    }

    /// The file system inside, when the file is an archive.
    pub fn nested_fs(&self) -> (r: Option<&NdsFileSystem>)
        ensures
            r == (match self {
                NdsFileData::Parsed { parsed: ParsedNdsFile::Narc(narc), .. } => Some(&narc.fs),
                _ => None::<&NdsFileSystem>,
            }),
    {
        match self {
            NdsFileData::Parsed { parsed: ParsedNdsFile::Narc(narc), .. } => Some(&narc.fs),
            _ => None,
        }
    }

    /// The archive, when the file is one.
    pub fn narc(&self) -> (r: Option<&Narc>)
        ensures
            r == (match self {
                NdsFileData::Parsed { parsed: ParsedNdsFile::Narc(narc), .. } => Some(narc),
                _ => None::<&Narc>,
            }),
    {
        match self {
            NdsFileData::Parsed { parsed: ParsedNdsFile::Narc(narc), .. } => Some(narc),
            _ => None,
        }
    }

    /// The map data, when the file is a map.
    pub fn gen4map(&self) -> (r: Option<&HgSsMap>)
        ensures
            r == (match self {
                NdsFileData::Parsed { parsed: ParsedNdsFile::Gen4MapData(map), .. } => Some(map),
                _ => None::<&HgSsMap>,
            }),
    {
        match self {
            NdsFileData::Parsed { parsed: ParsedNdsFile::Gen4MapData(map), .. } => Some(map),
            _ => None,
        }
    }
}

impl NdsFile {
    /// The name, with the extension of the recognised format (or `bin`) appended when the
    /// name has no dot.
    pub fn name_with_ext_fallback(&self) -> (r: String)
        ensures
            r@ == (if contains_char(self.name@, '.') {
                self.name@
            } else {
                self.name@ + seq!['.'] + (match self.data {
                    NdsFileData::Parsed { parsed, .. } => crate::platform::nds::formats::spec_extension(parsed.spec_format()),
                    NdsFileData::Raw(_) => "bin"@,
                })
            }),
    {
        let s = self.name.as_str();
        let n = s.unicode_len();
        let mut i: usize = 0;
        let mut found = false;
        while i < n
            invariant
                i <= n,
                n == self.name@.len(),
                s@ == self.name@,
                found == (exists|j: int| 0 <= j < i && self.name@[j] == '.'),
            decreases n - i,
        {
            if s.get_char(i) == '.' {
                found = true;
            }
            i = i + 1;
        }
        if !found {
            let ext: &str = match self.data.format() {
                Some(f) => f.extension(),
                None => "bin",
            };
            let mut r = self.name.clone();
            string_push(&mut r, '.');
            r.append(ext);
            r
        } else {
            self.name.clone()
        }
    }
}

} // verus!
