//! DS ROM images as stored: header, ARM binaries and file system.
use crate::codec::common::rom::RomReadError;
use crate::codec::nds::fs::NdsFileSystem;
use crate::codec::nds::rom::header::NdsHeader;
use crate::nds::rom::{probe_nds, rom_fat, rom_fnt_offset, spec_nds_probe, spec_rom_error, stored_arm7, stored_arm9};
use crate::rw::bytes::read_bytes;
use vstd::prelude::*;

pub use crate::nds::rom::NdsRomReadError;

pub mod fat;
pub mod fnt;
pub mod header;

verus! {

/// A DS ROM with its ARM binaries as stored.
pub struct NdsRom {
    pub header: NdsHeader,
    pub arm9_binary: Vec<u8>,
    pub arm7_binary: Vec<u8>,
    pub fs: NdsFileSystem,
}

impl NdsRom {
    /// Whether the ROM holds what `s` stores.
    pub open spec fn parsed_from(&self, s: Seq<u8>) -> bool {
        &&& self.header.parsed_at(s, 0)
        &&& stored_arm9(s) == Some(self.arm9_binary@)
        &&& stored_arm7(s) == Some(self.arm7_binary@)
        &&& self.fs.read_from(s, rom_fat(s)->Some_0, rom_fnt_offset(s), 0)
    }

    /// Whether `data` looks like a DS ROM (the header-size field holds 0x4000); too short
    /// data does not.
    pub fn probe(data: &[u8]) -> (r: bool)
        ensures
            r == spec_nds_probe(data@),
    {
        probe_nds(data)
    }

    /// Reads a ROM: the header, both ARM binaries, and the file system.
    pub fn read(data: &[u8]) -> (r: Result<NdsRom, RomReadError>)
        ensures
            r is Ok <==> spec_rom_error(data@, false) is None,
            r matches Ok(rom) ==> rom.parsed_from(data@),
            r matches Err(e) ==> spec_rom_error(data@, false) == Some(e),
    {
        let header = match NdsHeader::read(data, 0) {
            Ok(h) => h,
            Err(e) => { return Err(RomReadError::Parse(e)); }
        };
        let arm9_binary = match read_bytes(data, header.arm9_offset as usize, header.arm9_size as usize) {
            Some(v) => v,
            None => { return Err(RomReadError::Nds(NdsRomReadError::Arm9BinaryLocation)); }
        };
        let arm7_binary = match read_bytes(data, header.arm7_offset as usize, header.arm7_size as usize) {
            Some(v) => v,
            None => { return Err(RomReadError::Nds(NdsRomReadError::Arm7BinaryLocation)); }
        };
        let fs = NdsFileSystem::read(data, header.fat_offset, header.fat_size, header.fnt_offset)?;
        Ok(NdsRom { header, arm9_binary, arm7_binary, fs })
    }

    /// The game title from the header.
    pub fn name(&self) -> (r: &str)
        ensures
            r@ == self.header.game_title.0@,
    {
        self.header.game_title.as_str()
    }
}

} // verus!
