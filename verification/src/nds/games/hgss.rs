//! Files of HeartGold and SoulSilver.
use crate::codec::nds::fs::path::NdsPath;
use vstd::prelude::*;

verus! {

/// Files whose place HeartGold and SoulSilver fix.
#[derive(Debug, PartialEq, Eq, Clone, Copy, Structural)]
pub enum HgSsKnownFile {
    /// Map files
    LandData,
    /// Map connections
    MapMatrix,
    /// Internal map names
    MapNames,
    MapTextures,
}

/// Where a file lies in these games' file system.
pub open spec fn spec_hgss_known_path(f: HgSsKnownFile) -> Seq<char> {
    match f {
        HgSsKnownFile::LandData => "/a/0/6/5"@,
        HgSsKnownFile::MapMatrix => "/a/0/4/1"@,
        HgSsKnownFile::MapNames => "/fielddata/maptable/mapname.bin"@,
        HgSsKnownFile::MapTextures => "/a/0/4/4"@,
    }
}

impl HgSsKnownFile {
    /// Where the file lies in the ROM's file system.
    pub fn rom_path(&self) -> (p: NdsPath)
        ensures
            p@ == spec_hgss_known_path(*self),
    {
        match self {
            HgSsKnownFile::LandData => NdsPath::from("/a/0/6/5"),
            HgSsKnownFile::MapMatrix => NdsPath::from("/a/0/4/1"),
            HgSsKnownFile::MapNames => NdsPath::from("/fielddata/maptable/mapname.bin"),
            HgSsKnownFile::MapTextures => NdsPath::from("/a/0/4/4"),
        }
    }
}

impl From<HgSsKnownFile> for NdsPath {
    /// The file's place in the file system.
    fn from(value: HgSsKnownFile) -> (p: Self)
        ensures
            p@ == spec_hgss_known_path(value),
    {
        value.rom_path()
    }
}

impl vstd::std_specs::convert::FromSpecImpl<HgSsKnownFile> for NdsPath {
    open spec fn obeys_from_spec() -> bool {
        false
    }

    open spec fn from_spec(value: HgSsKnownFile) -> Self {
        crate::codec::nds::fs::path::path_of(spec_hgss_known_path(value))
    }
}

} // verus!
