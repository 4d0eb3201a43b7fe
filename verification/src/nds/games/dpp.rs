//! Diamond, Pearl and Platinum.
use crate::codec::nds::fs::path::NdsPath;
use crate::nds::rom::NdsRom;
use crate::platform::nds::games::{spec_detect, CommonFile, NdsGame};
use vstd::prelude::*;

verus! {

/// A ROM recognised as one of Diamond, Pearl and Platinum.
pub struct DppRom<'a> {
    pub rom: &'a NdsRom,
    pub game: DppGame,
}

#[derive(Debug, Clone, Copy, PartialEq, Eq, Structural)]
pub enum DppGame {
    Diamond,
    Pearl,
    Platinum,
}

/// Files whose place these games fix.
#[derive(Debug, Clone, Copy, PartialEq, Eq, Structural)]
pub enum DppFile {
    LandData,
    MapMatrix,
}

/// Where a file lies in these games' file system.
pub open spec fn spec_dpp_path(f: DppFile) -> Seq<char> {
    match f {
        DppFile::LandData => "/fielddata/land_data/land_data.narc"@,
        DppFile::MapMatrix => "/fielddata/mapmatrix/map_matrix.narc"@,
    }
}

impl DppFile {
    /// Where the file lies in the file system.
    pub fn path(self) -> (p: NdsPath)
        ensures
            p@ == spec_dpp_path(self),
    {
        match self {
            DppFile::LandData => NdsPath::from("/fielddata/land_data/land_data.narc"),
            DppFile::MapMatrix => NdsPath::from("/fielddata/mapmatrix/map_matrix.narc"),
        }
    }

    /// The file of these games that plays the common role `file`.
    pub fn from_common(file: CommonFile) -> (r: Option<Self>)
        ensures
            r == (match file {
                CommonFile::LandData => Some(DppFile::LandData),
                CommonFile::MapMatrix => Some(DppFile::MapMatrix),
            }),
    {
        match file {
            CommonFile::LandData => Some(DppFile::LandData),
            CommonFile::MapMatrix => Some(DppFile::MapMatrix),
        }
    }
}

/// The game among these that a detected game is, if it is one.
pub open spec fn spec_dpp_game(g: NdsGame) -> Option<DppGame> {
    match g {
        NdsGame::Diamond => Some(DppGame::Diamond),
        NdsGame::Pearl => Some(DppGame::Pearl),
        NdsGame::Platinum => Some(DppGame::Platinum),
        _ => None,
    }
}

impl<'a> DppRom<'a> {
    /// The ROM, when its game code names one of these games.
    pub fn try_from(rom: &'a NdsRom) -> (r: Option<Self>)
        ensures
            r is Some <==> spec_dpp_game(spec_detect(rom.header.game_code.0@)) is Some,
            r matches Some(d) ==> d.rom == rom && Some(d.game) == spec_dpp_game(spec_detect(rom.header.game_code.0@)),
    {
        let game = match NdsGame::detect(rom) {
            NdsGame::Diamond => DppGame::Diamond,
            NdsGame::Pearl => DppGame::Pearl,
            NdsGame::Platinum => DppGame::Platinum,
            _ => { return None; }
        };
        Some(DppRom { rom, game })
    }
}

} // verus!
