//! ROM images of any supported platform.
use crate::codec::common::platform::Platform;
use crate::codec::nds::rom::NdsRom;
use crate::nds::rom::{spec_nds_message, spec_nds_probe, spec_rom_error, NdsRomReadError};
use crate::rw::bytes::ParseError;
use vstd::prelude::*;

verus! {

/// std's I/O error, carried through unread.
#[verifier::external_type_specification]
#[verifier::external_body]
pub struct ExIoError(std::io::Error);

/// A failure of the underlying byte source.
#[derive(Debug, Clone, Copy, PartialEq, Eq, Structural)]
pub enum IoError {
    /// A read went past the end of the data.
    UnexpectedEof,
    /// Any other failure reported by std's I/O layer (here: by the compressor).
    Other,
}

/// Why a ROM (or a file inside one) could not be read.
#[derive(Debug, Clone, Copy, PartialEq, Eq, Structural)]
pub enum RomReadError {
    Io(IoError),
    Parse(ParseError),
    RomTooSmall,
    UnknownFormat,
    Nds(NdsRomReadError),
}

/// The description of a ROM error.
pub open spec fn spec_rom_message(e: RomReadError) -> Seq<char> {
    match e {
        RomReadError::Io(IoError::UnexpectedEof) => "failed to fill whole buffer"@,
        RomReadError::Io(IoError::Other) => "I/O error"@,
        RomReadError::Parse(_) => "Parse error"@,
        RomReadError::RomTooSmall => "ROM is too small"@,
        RomReadError::UnknownFormat => "Unknown ROM format"@,
        RomReadError::Nds(n) => spec_nds_message(n),
    }
}

impl RomReadError {
    /// The human-readable description of the error.
    pub fn message(&self) -> (r: String)
        ensures
            r@ == spec_rom_message(*self),
    {
        match self {
            RomReadError::Io(IoError::UnexpectedEof) => String::from_str("failed to fill whole buffer"),
            RomReadError::Io(IoError::Other) => String::from_str("I/O error"),
            RomReadError::Parse(_) => String::from_str("Parse error"),
            RomReadError::RomTooSmall => String::from_str("ROM is too small"),
            RomReadError::UnknownFormat => String::from_str("Unknown ROM format"),
            RomReadError::Nds(e) => e.message(),
        }
    }
}

/// A ROM image of one of the supported platforms.
pub enum Rom {
    Nds(NdsRom),
}

/// Why reading `s` as a ROM fails, if it does: only DS ROMs are recognised.
pub open spec fn spec_rom_read_error(s: Seq<u8>) -> Option<RomReadError> {
    if spec_nds_probe(s) { spec_rom_error(s, false) } else { Some(RomReadError::UnknownFormat) }
}

impl Rom {
    /// Reads a ROM of whichever platform `data` belongs to.
    pub fn read(data: &[u8]) -> (r: Result<Rom, RomReadError>)
        ensures
            r is Ok <==> spec_rom_read_error(data@) is None,
            r matches Ok(Rom::Nds(rom)) ==> rom.parsed_from(data@),
            r matches Err(e) ==> spec_rom_read_error(data@) == Some(e),
    {
        if NdsRom::probe(data) {
            return match NdsRom::read(data) {
                Ok(rom) => Ok(Rom::Nds(rom)),
                Err(e) => Err(e),
            };
        }
        Err(RomReadError::UnknownFormat)
    }

    /// The game's name.
    pub fn name(&self) -> (r: &str)
        ensures
            r@ == (match self {
                Rom::Nds(rom) => rom.header.game_title.0@,
            }),
    {
        match self {
            Rom::Nds(rom) => rom.name(),
        }
    }

    /// The platform of the ROM.
    pub fn platform(&self) -> (r: Platform)
        ensures
            r == (match self {
                Rom::Nds(_) => Platform::Nds,
            }),
    {
        match self {
            Rom::Nds(_) => Platform::Nds,
        }
    }

    /// The DS ROM, when it is one.
    pub fn nds(&self) -> (r: Option<&NdsRom>)
        ensures
            r == (match self {
                Rom::Nds(rom) => Some(rom),
            }),
    {
        match self {
            Rom::Nds(rom) => Some(rom),
        }
    }

    /// Whether the ROM is a DS ROM.
    pub fn is_nds(&self) -> (r: bool)
        ensures
            r == (self is Nds),
    {
        match self {
            Rom::Nds(_) => true,
        }
    }
}

} // verus!
