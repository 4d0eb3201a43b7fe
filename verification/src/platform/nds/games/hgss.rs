//! HeartGold and SoulSilver: their files and their table of map headers.
use crate::codec::nds::fs::path::NdsPath;
use crate::nds::rom::{find_map_header_table, lemma_find_signature_bounds, spec_map_header_table_offset, NdsRom};
use crate::platform::nds::formats::hgss_map_header::HGSSMapHeader;
use crate::platform::nds::games::{spec_detect, CommonFile, NdsGame};
use vstd::prelude::*;

verus! {

/// A ROM recognised as HeartGold or SoulSilver.
pub struct HgSsRom<'a> {
    pub rom: &'a NdsRom,
    pub game: HgSsGame,
}

#[derive(Debug, Clone, Copy, PartialEq, Eq, Structural)]
pub enum HgSsGame {
    HeartGold,
    SoulSilver,
}

/// Files whose place these games fix.
#[derive(Debug, Clone, Copy, PartialEq, Eq, Structural)]
pub enum HgSsFile {
    LandData,
    MapMatrix,
    MapNames,
    MapTextures,
}

/// Where a file lies in these games' file system.
pub open spec fn spec_hgss_path(f: HgSsFile) -> Seq<char> {
    match f {
        HgSsFile::LandData => "/a/0/6/5"@,
        HgSsFile::MapMatrix => "/a/0/4/1"@,
        HgSsFile::MapNames => "/fielddata/maptable/mapname.bin"@,
        HgSsFile::MapTextures => "/a/0/4/4"@,
    }
}

impl HgSsFile {
    /// Where the file lies in the file system.
    pub fn path(self) -> (p: NdsPath)
        ensures
            p@ == spec_hgss_path(self),
    {
        match self {
            HgSsFile::LandData => NdsPath::from("/a/0/6/5"),
            HgSsFile::MapMatrix => NdsPath::from("/a/0/4/1"),
            HgSsFile::MapNames => NdsPath::from("/fielddata/maptable/mapname.bin"),
            HgSsFile::MapTextures => NdsPath::from("/a/0/4/4"),
        }
    }

    /// The file of these games that plays the common role `file`.
    pub fn from_common(file: CommonFile) -> (r: Option<Self>)
        ensures
            r == (match file {
                CommonFile::LandData => Some(HgSsFile::LandData),
                CommonFile::MapMatrix => Some(HgSsFile::MapMatrix),
            }),
    {
        match file {
            CommonFile::LandData => Some(HgSsFile::LandData),
            CommonFile::MapMatrix => Some(HgSsFile::MapMatrix),
        }
    }
}

/// The game among these that a detected game is, if it is one.
pub open spec fn spec_hgss_game(g: NdsGame) -> Option<HgSsGame> {
    match g {
        NdsGame::HeartGold => Some(HgSsGame::HeartGold),
        NdsGame::SoulSilver => Some(HgSsGame::SoulSilver),
        _ => None,
    }
}

/// How many headers the table holds.
pub const MAP_HEADER_TABLE_LENGTH: usize = 540;

/// The headers read from the table at `offset` in `s`: as many consecutive 24-byte headers
/// as fit, at most the table's length.
pub open spec fn map_header_count(len: int, offset: int) -> int {
    let fit = (len - offset) / 24;
    if fit < 540 { fit } else { 540 }
}

impl<'a> HgSsRom<'a> {
    /// The ROM, when its game code names HeartGold or SoulSilver.
    pub fn try_from(rom: &'a NdsRom) -> (r: Option<Self>)
        ensures
            r is Some <==> spec_hgss_game(spec_detect(rom.header.game_code.0@)) is Some,
            r matches Some(h) ==> h.rom == rom && Some(h.game) == spec_hgss_game(spec_detect(rom.header.game_code.0@)),
    {
        let game = match NdsGame::detect(rom) {
            NdsGame::HeartGold => HgSsGame::HeartGold,
            NdsGame::SoulSilver => HgSsGame::SoulSilver,
            _ => { return None; }
        };
        Some(HgSsRom { rom, game })
    }

    /// Where the map header table starts in the ARM9 binary (see
    /// `NdsRom::find_hgss_map_header_table_offset`).
    pub fn find_map_header_table_offset(&self) -> (r: Option<usize>)
        ensures
            r == spec_map_header_table_offset(self.rom.arm9_binary@),
    {
        find_map_header_table(self.rom.arm9_binary.as_slice())
    }

    /// The map headers: none when the table is not found, else as many of its headers as
    /// the ARM9 binary holds in full, up to the table's length.
    pub fn read_map_headers(&self) -> (r: Vec<HGSSMapHeader>)
        ensures
            spec_map_header_table_offset(self.rom.arm9_binary@) is None ==> r@.len() == 0,
            spec_map_header_table_offset(self.rom.arm9_binary@) matches Some(o) ==> {
                &&& r@.len() == map_header_count(self.rom.arm9_binary@.len() as int, o as int)
                &&& forall|k: int| 0 <= k < r@.len() ==> #[trigger] r@[k].parsed_at(self.rom.arm9_binary@, o + 24 * k)
            },
    {
        let offset = match self.find_map_header_table_offset() {
            Some(o) => o,
            None => { return Vec::new(); }
        };
        let data = self.rom.arm9_binary.as_slice();
        let n = data.len();
        proof {
            lemma_find_signature_bounds(data@, 0);
        }
        assert(offset + 48 <= n);
        let mut out: Vec<HGSSMapHeader> = Vec::new();
        let mut k: usize = 0;
        while k < MAP_HEADER_TABLE_LENGTH
            invariant
                n == data@.len(),
                data@ == self.rom.arm9_binary@,
                spec_map_header_table_offset(self.rom.arm9_binary@) == Some(offset),
                offset + 48 <= n,
                k <= 540,
                out@.len() == k,
                24 * k <= n - offset,
                forall|j: int| 0 <= j < k ==> #[trigger] out@[j].parsed_at(data@, offset + 24 * j),
            decreases 540 - k,
        {
            if n - offset - 24 * k < 24 {
                proof {
                    assert((n - offset) / 24 == k) by (nonlinear_arith)
                        requires n - offset - 24 * k < 24, 24 * k <= n - offset;
                }
                return out;
            }
            match HGSSMapHeader::read(data, offset + 24 * k) {
                Ok(h) => out.push(h),
                Err(_) => { return out; }
            }
            k = k + 1;
        }
        proof {
            assert((n - offset) / 24 >= 540) by (nonlinear_arith)
                requires 24 * 540 <= n - offset;
        }
        out
    }
}

} // verus!
