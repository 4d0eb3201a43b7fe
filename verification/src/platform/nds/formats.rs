//! The file formats recognised inside DS file systems.
use crate::codec::common::rom::RomReadError;
use crate::codec::nds::formats::hgss_map::{spec_hgss_map_layout, spec_hgss_map_probe, HgSsMap};
use crate::codec::nds::formats::narc::{spec_narc_error, spec_narc_ok, spec_narc_probe, Narc};
use crate::nds::rom::NdsRomReadError;
use crate::platform::nds::formats::gen4_map_matrix::{spec_gen4_matrix_layout, spec_gen4_matrix_probe, Gen4MapMatrix};
use crate::rw::bytes::ParseError;
use vstd::prelude::*;

pub mod gen4_map_matrix;
pub mod hgss_map_header;
pub mod nsbtx;
pub mod nstex;

verus! {

/// A recognised file format.
#[derive(Debug, Copy, Clone, PartialEq, Eq, Structural, Hash)]
pub enum NdsFileFormat {
    Narc,
    Gen4MapData,
    Gen4MapMatrix,
}

pub open spec fn spec_extension(f: NdsFileFormat) -> Seq<char> {
    match f {
        NdsFileFormat::Narc => "narc"@,
        NdsFileFormat::Gen4MapData => "gen4mapdat"@,
        NdsFileFormat::Gen4MapMatrix => "gen4mapmat"@,
    }
}

pub open spec fn spec_short_name(f: NdsFileFormat) -> Seq<char> {
    match f {
        NdsFileFormat::Narc => "NARC"@,
        NdsFileFormat::Gen4MapData => "G4MAPDAT"@,
        NdsFileFormat::Gen4MapMatrix => "G4MAPMAT"@,
    }
}

pub open spec fn spec_full_name(f: NdsFileFormat) -> Seq<char> {
    match f {
        NdsFileFormat::Narc => "Nitro Archive Container"@,
        NdsFileFormat::Gen4MapData => "Pokémon Generation 4 Map Data"@,
        NdsFileFormat::Gen4MapMatrix => "Pokémon Generation 4 Map Matrix"@,
    }
}

pub open spec fn spec_explanation(f: NdsFileFormat) -> Seq<char> {
    match f {
        NdsFileFormat::Narc => "A Nitro Archive containing multiple sub-files, used to bundle related assets together."@,
        NdsFileFormat::Gen4MapData => "A map file containing tile permissions, 3D objects, an NSBMD model, and terrain data."@,
        NdsFileFormat::Gen4MapMatrix => "A map file for associating the rendered map to the map data."@,
    }
}

impl NdsFileFormat {
    /// The file extension used for files of this format.
    pub fn extension(&self) -> (r: &'static str)
        ensures
            r@ == spec_extension(*self),
    {
        match self {
            NdsFileFormat::Narc => "narc",
            NdsFileFormat::Gen4MapData => "gen4mapdat",
            NdsFileFormat::Gen4MapMatrix => "gen4mapmat",
        }
    }

    /// A short tag for the format.
    pub fn short_name(&self) -> (r: &'static str)
        ensures
            r@ == spec_short_name(*self),
    {
        match self {
            NdsFileFormat::Narc => "NARC",
            NdsFileFormat::Gen4MapData => "G4MAPDAT",
            NdsFileFormat::Gen4MapMatrix => "G4MAPMAT",
        }
    }

    /// The full name of the format.
    pub fn full_name(&self) -> (r: &'static str)
        ensures
            r@ == spec_full_name(*self),
    {
        match self {
            NdsFileFormat::Narc => "Nitro Archive Container",
            NdsFileFormat::Gen4MapData => "Pokémon Generation 4 Map Data",
            NdsFileFormat::Gen4MapMatrix => "Pokémon Generation 4 Map Matrix",
        }
    }

    /// A sentence on what files of this format hold.
    pub fn explanation(&self) -> (r: &'static str)
        ensures
            r@ == spec_explanation(*self),
    {
        match self {
            NdsFileFormat::Narc => "A Nitro Archive containing multiple sub-files, used to bundle related assets together.",
            NdsFileFormat::Gen4MapData => "A map file containing tile permissions, 3D objects, an NSBMD model, and terrain data.",
            NdsFileFormat::Gen4MapMatrix => "A map file for associating the rendered map to the map data.",
        }
    }

    /// The text shown for the format: its short name.
    pub fn to_display_string(&self) -> (r: String)
        ensures
            r@ == spec_short_name(*self),
    {
        String::from_str(self.short_name())
    }
}

/// A file whose format was recognised, in parsed form.
pub enum ParsedNdsFile {
    Narc(Narc),
    Gen4MapData(HgSsMap),
    Gen4MapMatrix(Gen4MapMatrix),
}

/// What parsing the bytes `s` as a file gives: the formats are tried in order (archive,
/// map data, map matrix) by their probes, and the first that matches must then read.
pub open spec fn spec_parse_nds_file(s: Seq<u8>) -> Result<NdsFileFormat, RomReadError> {
    if spec_narc_probe(s) {
        if spec_narc_ok(s) { Ok(NdsFileFormat::Narc) } else { Err(spec_narc_error(s)->Some_0) }
    } else if spec_hgss_map_probe(s) {
        if spec_hgss_map_layout(s) is Some { Ok(NdsFileFormat::Gen4MapData) } else { Err(RomReadError::Parse(ParseError::UnexpectedEof)) }
    } else if spec_gen4_matrix_probe(s) {
        if spec_gen4_matrix_layout(s) is Some { Ok(NdsFileFormat::Gen4MapMatrix) } else { Err(RomReadError::Parse(ParseError::UnexpectedEof)) }
    } else {
        Err(RomReadError::Nds(NdsRomReadError::UnknownFileFormat))
    }
}

impl ParsedNdsFile {
    pub open spec fn spec_format(&self) -> NdsFileFormat {
        match self {
            ParsedNdsFile::Narc(_) => NdsFileFormat::Narc,
            ParsedNdsFile::Gen4MapData(_) => NdsFileFormat::Gen4MapData,
            ParsedNdsFile::Gen4MapMatrix(_) => NdsFileFormat::Gen4MapMatrix,
        }
    }

    /// Whether the parsed file is what parsing `s` gives.
    pub open spec fn parsed_from(&self, s: Seq<u8>) -> bool
        decreases self,
    {
        &&& spec_parse_nds_file(s) == Ok::<NdsFileFormat, RomReadError>(self.spec_format())
        &&& match self {
            ParsedNdsFile::Narc(n) => n.parsed_from(s),
            ParsedNdsFile::Gen4MapData(m) => m.parsed_from(s),
            ParsedNdsFile::Gen4MapMatrix(m) => m.parsed_from(s),
        }
    }

    /// Parses the bytes of a file whose format is recognised.
    pub fn read(data: &[u8]) -> (r: Result<ParsedNdsFile, RomReadError>)
        ensures
            r is Ok <==> spec_parse_nds_file(data@) is Ok,
            r matches Ok(p) ==> p.parsed_from(data@),
            r matches Err(e) ==> spec_parse_nds_file(data@) == Err::<NdsFileFormat, RomReadError>(e),
        decreases data@.len(), 1nat,
    {
        if Narc::probe(data) {
            return match Narc::read(data) {
                Ok(n) => Ok(ParsedNdsFile::Narc(n)),
                Err(e) => Err(e),
            };
        }
        if HgSsMap::probe(data) {
            return match HgSsMap::read(data) {
                Ok(m) => Ok(ParsedNdsFile::Gen4MapData(m)),
                Err(e) => Err(RomReadError::Parse(e)),
            };
        }
        if Gen4MapMatrix::probe(data) {
            return match Gen4MapMatrix::read(data) {
                Ok(m) => Ok(ParsedNdsFile::Gen4MapMatrix(m)),
                Err(e) => Err(RomReadError::Parse(e)),
            };
        }
        Err(RomReadError::Nds(NdsRomReadError::UnknownFileFormat))
    }

    /// The format of the file.
    pub fn format(&self) -> (r: NdsFileFormat)
        ensures
            r == self.spec_format(),
    {
        match self {
            ParsedNdsFile::Narc(_) => NdsFileFormat::Narc,
            ParsedNdsFile::Gen4MapData(_) => NdsFileFormat::Gen4MapData,
            ParsedNdsFile::Gen4MapMatrix(_) => NdsFileFormat::Gen4MapMatrix,
        }
    }
}

} // verus!
