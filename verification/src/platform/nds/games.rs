//! Recognising which game a DS ROM holds, and where the games keep their files.
use crate::codec::nds::fs::path::NdsPath;
use crate::nds::rom::NdsRom;
use vstd::prelude::*;

pub use crate::nds::games::dpp;
use crate::nds::games::dpp::{spec_dpp_game, spec_dpp_path, DppFile, DppRom};
use crate::platform::nds::games::hgss::{spec_hgss_game, spec_hgss_path, HgSsFile, HgSsRom};

pub mod hgss;

verus! {

/// The games that can be told apart by their game code.
#[derive(Debug, PartialEq, Eq, Clone, Copy, Structural)]
pub enum NdsGame {
    Diamond,
    Pearl,
    Platinum,
    HeartGold,
    SoulSilver,
    Unknown,
}

/// The game whose code starts with the three characters of `code`.
pub open spec fn spec_detect(code: Seq<char>) -> NdsGame {
    if code.len() < 3 {
        NdsGame::Unknown
    } else if code[0] == 'A' && code[1] == 'D' && code[2] == 'A' {
        NdsGame::Diamond
    } else if code[0] == 'A' && code[1] == 'P' && code[2] == 'A' {
        NdsGame::Pearl
    } else if code[0] == 'C' && code[1] == 'P' && code[2] == 'U' {
        NdsGame::Platinum
    } else if code[0] == 'I' && code[1] == 'P' && code[2] == 'K' {
        NdsGame::HeartGold
    } else if code[0] == 'I' && code[1] == 'P' && code[2] == 'G' {
        NdsGame::SoulSilver
    } else {
        NdsGame::Unknown
    }
}

impl NdsGame {
    /// The game named by the first three characters of the ROM's game code (the fourth,
    /// the region, is not looked at).
    pub fn detect(rom: &NdsRom) -> (r: Self)
        ensures
            r == spec_detect(rom.header.game_code.0@),
    {
        let code = rom.header.game_code.as_str();
        if code.unicode_len() < 3 {
            return NdsGame::Unknown;
        }
        let c0 = code.get_char(0);
        let c1 = code.get_char(1);
        let c2 = code.get_char(2);
        if c0 == 'A' && c1 == 'D' && c2 == 'A' {
            NdsGame::Diamond
        } else if c0 == 'A' && c1 == 'P' && c2 == 'A' {
            NdsGame::Pearl
        } else if c0 == 'C' && c1 == 'P' && c2 == 'U' {
            NdsGame::Platinum
        } else if c0 == 'I' && c1 == 'P' && c2 == 'K' {
            NdsGame::HeartGold
        } else if c0 == 'I' && c1 == 'P' && c2 == 'G' {
            NdsGame::SoulSilver
        } else {
            NdsGame::Unknown
        }
    }

    /// Whether the game is Diamond, Pearl or Platinum.
    pub fn is_dpp(&self) -> (r: bool)
        ensures
            r == (*self == NdsGame::Diamond || *self == NdsGame::Pearl || *self == NdsGame::Platinum),
    {
        match self {
            NdsGame::Diamond | NdsGame::Pearl | NdsGame::Platinum => true,
            _ => false,
        }
    }

    /// Whether the game is HeartGold or SoulSilver.
    pub fn is_hgss(&self) -> (r: bool)
        ensures
            r == (*self == NdsGame::HeartGold || *self == NdsGame::SoulSilver),
    {
        match self {
            NdsGame::HeartGold | NdsGame::SoulSilver => true,
            _ => false,
        }
    }
}

/// A ROM of a recognised game.
pub enum NdsGameRom<'a> {
    Dpp(DppRom<'a>),
    HgSs(HgSsRom<'a>),
}

/// Files that every recognised game has, wherever it keeps them.
#[derive(Debug, Clone, Copy, PartialEq, Eq, Structural)]
pub enum CommonFile {
    LandData,
    MapMatrix,
}

impl<'a> NdsGameRom<'a> {
    /// The ROM, when its game is recognised.
    pub fn try_from(rom: &'a NdsRom) -> (r: Option<Self>)
        ensures
            r is Some <==> spec_detect(rom.header.game_code.0@) != NdsGame::Unknown,
            r matches Some(NdsGameRom::Dpp(d)) ==> d.rom == rom && Some(d.game) == spec_dpp_game(spec_detect(rom.header.game_code.0@)),
            r matches Some(NdsGameRom::HgSs(h)) ==> h.rom == rom && Some(h.game) == spec_hgss_game(spec_detect(rom.header.game_code.0@)),
            r is Some ==> (r->Some_0 is Dpp <==> spec_dpp_game(spec_detect(rom.header.game_code.0@)) is Some),
    {
        if let Some(dpp) = DppRom::try_from(rom) {
            return Some(NdsGameRom::Dpp(dpp));
        }
        if let Some(hgss) = HgSsRom::try_from(rom) {
            return Some(NdsGameRom::HgSs(hgss));
        }
        None
    }

    /// Where the game keeps the common file `file`.
    pub fn resolve(&self, file: CommonFile) -> (r: Option<NdsPath>)
        ensures
            r is Some,
            r matches Some(p) ==> p@ == (match self {
                NdsGameRom::Dpp(_) => spec_dpp_path(match file {
                    CommonFile::LandData => DppFile::LandData,
                    CommonFile::MapMatrix => DppFile::MapMatrix,
                }),
                NdsGameRom::HgSs(_) => spec_hgss_path(match file {
                    CommonFile::LandData => HgSsFile::LandData,
                    CommonFile::MapMatrix => HgSsFile::MapMatrix,
                }),
            }),
    {
        match self {
            NdsGameRom::Dpp(_) => match DppFile::from_common(file) {
                Some(f) => Some(f.path()),
                None => None,
            },
            NdsGameRom::HgSs(_) => match HgSsFile::from_common(file) {
                Some(f) => Some(f.path()),
                None => None,
            },
        }
    }

    /// The ROM itself.
    pub fn rom(&self) -> (r: &NdsRom)
        ensures
            r == (match self {
                NdsGameRom::Dpp(d) => d.rom,
                NdsGameRom::HgSs(h) => h.rom,
            }),
    {
        match self {
            NdsGameRom::Dpp(r) => r.rom,
            NdsGameRom::HgSs(r) => r.rom,
        }
    }
}

} // verus!
