//! Map files of HeartGold / SoulSilver: tile permissions, 3D objects, a model and terrain.
use crate::rw::bytes::{copy_range, read_array, spec_u16_le, spec_u32_le, u16_at, u32_at, ParseError};
use vstd::prelude::*;

verus! {

/// A parsed map file.
pub struct HgSsMap {
    pub header: HgSsMapHeader,
    pub unknown_data: Option<Vec<u8>>,
    pub permissions: HgSsMapPermissions,
    pub objects: Vec<HgSsMapObject>,
    pub nsbmd: Vec<u8>,
    pub bdhc: Vec<u8>,
}

/// The section sizes that open a map file.
#[derive(Debug, Clone, Copy, PartialEq, Eq, Structural)]
pub struct HgSsMapHeader {
    /// Always 0x800
    pub permission_size: u32,
    pub objects_size: u32,
    pub nsbmd_size: u32,
    pub bdhc_size: u32,
}

/// The 32×32 grid of tile permissions, ordered left-to-right, bottom-to-top.
pub struct HgSsMapPermissions {
    pub tiles: Vec<HgSsTilePermission>,
}

/// The permission of one tile.
#[derive(Debug, Clone, Copy, PartialEq, Eq, Structural)]
pub struct HgSsTilePermission {
    /// Special behavior — surfable, tall grass, ledge, warp, etc.
    pub special: u8,
    /// 0x0 = passable, 0x4 = ignore special byte, 0x8 = solid wall
    pub movement: u8,
}

/// A 3D object placed on the map (48 bytes).
#[derive(Debug, Clone, Copy)]
pub struct HgSsMapObject {
    pub object_id: u32,
    pub y_frac: u16,
    pub y_coord: u16,
    pub z_frac: u16,
    pub z_coord: u16,
    pub x_frac: u16,
    pub x_coord: u16,
    pub unknown1: [u8; 13],
    pub width: u32,
    pub height: u32,
    pub length: u32,
    pub unknown2: [u8; 7],
}

impl HgSsMapObject {
    /// Whether the object holds what is stored at `s[pos..pos + 48]`.
    pub open spec fn parsed_at(&self, s: Seq<u8>, pos: int) -> bool {
        &&& self.object_id == spec_u32_le(s, pos)
        &&& self.y_frac == spec_u16_le(s, pos + 4)
        &&& self.y_coord == spec_u16_le(s, pos + 6)
        &&& self.z_frac == spec_u16_le(s, pos + 8)
        &&& self.z_coord == spec_u16_le(s, pos + 10)
        &&& self.x_frac == spec_u16_le(s, pos + 12)
        &&& self.x_coord == spec_u16_le(s, pos + 14)
        &&& self.unknown1@ == s.subrange(pos + 16, pos + 29)
        &&& self.width == spec_u32_le(s, pos + 29)
        &&& self.height == spec_u32_le(s, pos + 33)
        &&& self.length == spec_u32_le(s, pos + 37)
        &&& self.unknown2@ == s.subrange(pos + 41, pos + 48)
    }

    /// Reads an object from `data[pos..pos + 48]`.
    pub fn read(data: &[u8], pos: usize) -> (r: HgSsMapObject)
        requires
            pos + 48 <= data@.len(),
        ensures
            r.parsed_at(data@, pos as int),
    {
        let n = data.len();
        assert(pos + 48 <= n);
        HgSsMapObject {
            object_id: u32_at(data, pos),
            y_frac: u16_at(data, pos + 4),
            y_coord: u16_at(data, pos + 6),
            z_frac: u16_at(data, pos + 8),
            z_coord: u16_at(data, pos + 10),
            x_frac: u16_at(data, pos + 12),
            x_coord: u16_at(data, pos + 14),
            unknown1: read_array::<13>(data, pos + 16),
            width: u32_at(data, pos + 29),
            height: u32_at(data, pos + 33),
            length: u32_at(data, pos + 37),
            unknown2: read_array::<7>(data, pos + 41),
        }
    }
}


/// The header stored at `s[0..16]`.
pub open spec fn spec_hgss_map_header(s: Seq<u8>) -> HgSsMapHeader {
    HgSsMapHeader {
        permission_size: spec_u32_le(s, 0),
        objects_size: spec_u32_le(s, 4),
        nsbmd_size: spec_u32_le(s, 8),
        bdhc_size: spec_u32_le(s, 12),
    }
}

/// Where the permission grid starts, when the optional section after the header can be
/// read: after a magic `0x1234`, a 16-bit size and that many bytes; else right after the header.
pub open spec fn spec_permissions_start(s: Seq<u8>) -> Option<int> {
    if s.len() < 18 {
        None
    } else if spec_u16_le(s, 16) == 0x1234 {
        if s.len() < 20 || 20 + spec_u16_le(s, 18) > s.len() {
            None
        } else {
            Some(20 + spec_u16_le(s, 18))
        }
    } else {
        Some(16)
    }
}

/// Where each section ends, when the whole file can be read: (permissions start, objects
/// start, model start, terrain start, end).
pub open spec fn spec_hgss_map_layout(s: Seq<u8>) -> Option<(int, int, int, int, int)> {
    if s.len() < 16 {
        None
    } else {
        match spec_permissions_start(s) {
            None => None,
            Some(p1) => {
                let h = spec_hgss_map_header(s);
                let p2 = p1 + 2048;
                let p3 = p2 + 48 * (h.objects_size / 48);
                let p4 = p3 + h.nsbmd_size;
                let p5 = p4 + h.bdhc_size;
                if p5 <= s.len() { Some((p1, p2, p3, p4, p5)) } else { None }
            },
        }
    }
}

/// Whether a buffer looks like a map file: a permission section of 0x800 bytes and an
/// object section made of whole 48-byte objects.
pub open spec fn spec_hgss_map_probe(s: Seq<u8>) -> bool {
    s.len() >= 8 && spec_u32_le(s, 0) == 0x800 && spec_u32_le(s, 4) % 48 == 0
}

impl HgSsMap {
    /// Whether the map holds what the file `s` stores.
    pub open spec fn parsed_from(&self, s: Seq<u8>) -> bool {
        &&& spec_hgss_map_layout(s) matches Some((p1, p2, p3, p4, p5)) && {
            &&& self.header == spec_hgss_map_header(s)
            &&& (match self.unknown_data {
                Some(u) => spec_u16_le(s, 16) == 0x1234 && u@ == s.subrange(20, p1),
                None => spec_u16_le(s, 16) != 0x1234,
            })
            &&& self.permissions.tiles@.len() == 1024
            &&& forall|i: int| 0 <= i < 1024 ==> #[trigger] self.permissions.tiles@[i] == (HgSsTilePermission { special: s[p1 + 2 * i], movement: s[p1 + 2 * i + 1] })
            &&& self.objects@.len() == self.header.objects_size / 48
            &&& forall|i: int| 0 <= i < self.objects@.len() ==> #[trigger] self.objects@[i].parsed_at(s, p2 + 48 * i)
            &&& self.nsbmd@ == s.subrange(p3, p4)
            &&& self.bdhc@ == s.subrange(p4, p5)
        }
    }

    /// Whether `data` starts like a map file.
    pub fn probe(data: &[u8]) -> (r: bool)
        ensures
            r == spec_hgss_map_probe(data@),
    {
        if data.len() < 8 {
            return false;
        }
        let perm_size = u32_at(data, 0);
        let obj_size = u32_at(data, 4);
        perm_size == 0x800 && obj_size % 48 == 0
    }

    /// Reads a map file.
    pub fn read(data: &[u8]) -> (r: Result<HgSsMap, ParseError>)
        ensures
            r is Ok <==> spec_hgss_map_layout(data@) is Some,
            r matches Ok(m) ==> m.parsed_from(data@),
            r matches Err(e) ==> e == ParseError::UnexpectedEof,
    {
        let n = data.len();
        if n < 16 {
            return Err(ParseError::UnexpectedEof);
        }
        let header = HgSsMapHeader {
            permission_size: u32_at(data, 0),
            objects_size: u32_at(data, 4),
            nsbmd_size: u32_at(data, 8),
            bdhc_size: u32_at(data, 12),
        };
        if n < 18 {
            return Err(ParseError::UnexpectedEof);
        }
        let unknown_magic = u16_at(data, 16);
        let mut p: usize = 16;
        let unknown_data = if unknown_magic == 0x1234 {
            if n < 20 {
                return Err(ParseError::UnexpectedEof);
            }
            let size = u16_at(data, 18) as usize;
            if n - 20 < size {
                return Err(ParseError::UnexpectedEof);
            }
            p = 20 + size;
            Some(copy_range(data, 20, size))
        } else {
            None
        };
        let p1 = p;
        if n - p1 < 2048 {
            return Err(ParseError::UnexpectedEof);
        }
        let mut tiles: Vec<HgSsTilePermission> = Vec::with_capacity(1024);
        let mut k: usize = 0;
        while k < 1024
            invariant
                k <= 1024,
                n == data@.len(),
                p1 + 2048 <= n,
                tiles@.len() == k,
                forall|i: int| 0 <= i < k ==> #[trigger] tiles@[i] == (HgSsTilePermission { special: data@[p1 + 2 * i], movement: data@[p1 + 2 * i + 1] }),
            decreases 1024 - k,
        {
            tiles.push(HgSsTilePermission { special: data[p1 + 2 * k], movement: data[p1 + 2 * k + 1] });
            k = k + 1;
        }
        let permissions = HgSsMapPermissions { tiles };
        let p2 = p1 + 2048;
        let num_objects = (header.objects_size / 48) as usize;
        if (n - p2) / 48 < num_objects {
            proof {
                let q = ((n - p2) / 48) as int;
                assert(48 * num_objects > n - p2) by (nonlinear_arith)
                    requires q < num_objects, q == (n - p2) / 48, n >= p2;
            }
            return Err(ParseError::UnexpectedEof);
        }
        proof {
            let q = ((n - p2) / 48) as int;
            assert(48 * num_objects <= n - p2) by (nonlinear_arith)
                requires q >= num_objects, q == (n - p2) / 48, n >= p2;
        }
        let mut objects: Vec<HgSsMapObject> = Vec::with_capacity(num_objects);
        let mut j: usize = 0;
        while j < num_objects
            invariant
                j <= num_objects,
                n == data@.len(),
                p2 + 48 * num_objects <= n,
                objects@.len() == j,
                forall|i: int| 0 <= i < j ==> #[trigger] objects@[i].parsed_at(data@, p2 + 48 * i),
            decreases num_objects - j,
        {
            objects.push(HgSsMapObject::read(data, p2 + 48 * j));
            j = j + 1;
        }
        let p3 = p2 + 48 * num_objects;
        let nsbmd_size = header.nsbmd_size as usize;
        if n - p3 < nsbmd_size {
            return Err(ParseError::UnexpectedEof);
        }
        let nsbmd = copy_range(data, p3, nsbmd_size);
        let p4 = p3 + nsbmd_size;
        let bdhc_size = header.bdhc_size as usize;
        if n - p4 < bdhc_size {
            return Err(ParseError::UnexpectedEof);
        }
        let bdhc = copy_range(data, p4, bdhc_size);
        Ok(HgSsMap { header, unknown_data, permissions, objects, nsbmd, bdhc })
    }
}

} // verus!

verus! {

/// What stepping on a tile does, for tiles whose movement byte does not say "free".
/// These special permissions might only be correct for the Sinnoh games.
#[derive(Debug, Clone, Copy, PartialEq, Eq, Structural)]
pub enum HgSsMapSpecialPermission {
    FreePassage,
    Grass,
    HighGrass,
    CaveEncounter,
    PlainsEncounter,
    Surfing,
    Waterfall,
    GoDown,
    WaterSplash,
    FootOnSand,
    Blocked,
    JumpUp,
    JumpDown,
    RotateRight,
    RotateLeft,
    RotateUp,
    RotateDown,
    RockClimb,
    StairsDown,
    StairsUp,
    DoorNoAnim,
    ExitBuilding,
    DoorJumpWarp,
    DoorOpening,
    ForceBike,
    OpenPc,
    OpenMapSinnoh,
    BattleWatch,
    SnowWaist,
    SnowHead,
    MudWaist,
    MudHead,
    GrassMud,
    UnderGrassMud,
    SnowLow,
    RideJumpLeft,
    RideBike,
    SignBookshelf,
    SignTrashCan,
    SignShelf,
    SignNothing,
    Unknown(u8),
}

/// The special permission that the byte `val` stands for.
pub open spec fn spec_special_permission(val: u8) -> HgSsMapSpecialPermission {
    if val == 0x00 || (0x04 <= val && val <= 0x09) || (0x0C <= val && val <= 0x0F) || val == 0x18 || (0x1A <= val && val <= 0x1B) || (0x1D <= val && val <= 0x20) || (0x23 <= val && val <= 0x29) || (0x2B <= val && val <= 0x32) || (0x34 <= val && val <= 0x35) || (0x38 <= val && val <= 0x39) || (0x3C <= val && val <= 0x3F) || (0x44 <= val && val <= 0x48) || val == 0x4A || (0x4C <= val && val <= 0x4F) || (0x54 <= val && val <= 0x5D) || (0x60 <= val && val <= 0x63) || val == 0x66 || val == 0x68 || (0x6A <= val && val <= 0x6D) || (0x6F <= val && val <= 0x70) || val == 0x72 || (0x74 <= val && val <= 0x77) || (0x79 <= val && val <= 0x7B) || (0x7D <= val && val <= 0x82) || val == 0x84 || (0x87 <= val && val <= 0xA0) || (0xAA <= val && val <= 0xD2) || (0xDC <= val && val <= 0xDF) || (0xED <= val && val <= 0xFF) {
        HgSsMapSpecialPermission::FreePassage
    } else if val == 0x02 {
        HgSsMapSpecialPermission::Grass
    } else if val == 0x03 {
        HgSsMapSpecialPermission::HighGrass
    } else if val == 0x0A {
        HgSsMapSpecialPermission::CaveEncounter
    } else if val == 0x0B {
        HgSsMapSpecialPermission::PlainsEncounter
    } else if (0x10 <= val && val <= 0x12) || (0x14 <= val && val <= 0x15) || val == 0x19 || val == 0x22 || val == 0x2A || (0x50 <= val && val <= 0x53) || val == 0x73 || val == 0x78 || val == 0x7C {
        HgSsMapSpecialPermission::Surfing
    } else if val == 0x13 {
        HgSsMapSpecialPermission::Waterfall
    } else if val == 0x16 || val == 0x1C {
        HgSsMapSpecialPermission::GoDown
    } else if val == 0x17 {
        HgSsMapSpecialPermission::WaterSplash
    } else if val == 0x21 {
        HgSsMapSpecialPermission::FootOnSand
    } else if val == 0x33 || (0x36 <= val && val <= 0x37) || val == 0x49 {
        HgSsMapSpecialPermission::Blocked
    } else if val == 0x3A {
        HgSsMapSpecialPermission::JumpUp
    } else if val == 0x3B {
        HgSsMapSpecialPermission::JumpDown
    } else if val == 0x40 {
        HgSsMapSpecialPermission::RotateRight
    } else if val == 0x41 {
        HgSsMapSpecialPermission::RotateLeft
    } else if val == 0x42 {
        HgSsMapSpecialPermission::RotateUp
    } else if val == 0x43 {
        HgSsMapSpecialPermission::RotateDown
    } else if val == 0x4B {
        HgSsMapSpecialPermission::RockClimb
    } else if val == 0x5E {
        HgSsMapSpecialPermission::StairsDown
    } else if val == 0x5F {
        HgSsMapSpecialPermission::StairsUp
    } else if val == 0x64 || val == 0x6E {
        HgSsMapSpecialPermission::DoorNoAnim
    } else if val == 0x65 {
        HgSsMapSpecialPermission::ExitBuilding
    } else if val == 0x67 {
        HgSsMapSpecialPermission::DoorJumpWarp
    } else if val == 0x69 {
        HgSsMapSpecialPermission::DoorOpening
    } else if val == 0x71 || val == 0xDB {
        HgSsMapSpecialPermission::ForceBike
    } else if val == 0x83 {
        HgSsMapSpecialPermission::OpenPc
    } else if val == 0x85 {
        HgSsMapSpecialPermission::OpenMapSinnoh
    } else if val == 0x86 {
        HgSsMapSpecialPermission::BattleWatch
    } else if val == 0xA1 {
        HgSsMapSpecialPermission::SnowWaist
    } else if val == 0xA3 {
        HgSsMapSpecialPermission::SnowHead
    } else if val == 0xA4 {
        HgSsMapSpecialPermission::MudWaist
    } else if val == 0xA5 {
        HgSsMapSpecialPermission::MudHead
    } else if val == 0xA6 {
        HgSsMapSpecialPermission::GrassMud
    } else if val == 0xA7 {
        HgSsMapSpecialPermission::UnderGrassMud
    } else if val == 0xA9 {
        HgSsMapSpecialPermission::SnowLow
    } else if (0xD3 <= val && val <= 0xD9) {
        HgSsMapSpecialPermission::RideJumpLeft
    } else if val == 0xDA {
        HgSsMapSpecialPermission::RideBike
    } else if (0xE0 <= val && val <= 0xE2) || (0xEB <= val && val <= 0xEC) {
        HgSsMapSpecialPermission::SignBookshelf
    } else if val == 0xE4 {
        HgSsMapSpecialPermission::SignTrashCan
    } else if val == 0xE5 {
        HgSsMapSpecialPermission::SignShelf
    } else if (0xE6 <= val && val <= 0xEA) {
        HgSsMapSpecialPermission::SignNothing
    } else if val == 0xE3 {
        HgSsMapSpecialPermission::FreePassage
    } else {
        HgSsMapSpecialPermission::Unknown(val)
    }
}

impl From<u8> for HgSsMapSpecialPermission {
    fn from(val: u8) -> (r: Self) {
        if val == 0x00 || (0x04 <= val && val <= 0x09) || (0x0C <= val && val <= 0x0F) || val == 0x18 || (0x1A <= val && val <= 0x1B) || (0x1D <= val && val <= 0x20) || (0x23 <= val && val <= 0x29) || (0x2B <= val && val <= 0x32) || (0x34 <= val && val <= 0x35) || (0x38 <= val && val <= 0x39) || (0x3C <= val && val <= 0x3F) || (0x44 <= val && val <= 0x48) || val == 0x4A || (0x4C <= val && val <= 0x4F) || (0x54 <= val && val <= 0x5D) || (0x60 <= val && val <= 0x63) || val == 0x66 || val == 0x68 || (0x6A <= val && val <= 0x6D) || (0x6F <= val && val <= 0x70) || val == 0x72 || (0x74 <= val && val <= 0x77) || (0x79 <= val && val <= 0x7B) || (0x7D <= val && val <= 0x82) || val == 0x84 || (0x87 <= val && val <= 0xA0) || (0xAA <= val && val <= 0xD2) || (0xDC <= val && val <= 0xDF) || (0xED <= val && val <= 0xFF) {
            HgSsMapSpecialPermission::FreePassage
        } else if val == 0x02 {
            HgSsMapSpecialPermission::Grass
        } else if val == 0x03 {
            HgSsMapSpecialPermission::HighGrass
        } else if val == 0x0A {
            HgSsMapSpecialPermission::CaveEncounter
        } else if val == 0x0B {
            HgSsMapSpecialPermission::PlainsEncounter
        } else if (0x10 <= val && val <= 0x12) || (0x14 <= val && val <= 0x15) || val == 0x19 || val == 0x22 || val == 0x2A || (0x50 <= val && val <= 0x53) || val == 0x73 || val == 0x78 || val == 0x7C {
            HgSsMapSpecialPermission::Surfing
        } else if val == 0x13 {
            HgSsMapSpecialPermission::Waterfall
        } else if val == 0x16 || val == 0x1C {
            HgSsMapSpecialPermission::GoDown
        } else if val == 0x17 {
            HgSsMapSpecialPermission::WaterSplash
        } else if val == 0x21 {
            HgSsMapSpecialPermission::FootOnSand
        } else if val == 0x33 || (0x36 <= val && val <= 0x37) || val == 0x49 {
            HgSsMapSpecialPermission::Blocked
        } else if val == 0x3A {
            HgSsMapSpecialPermission::JumpUp
        } else if val == 0x3B {
            HgSsMapSpecialPermission::JumpDown
        } else if val == 0x40 {
            HgSsMapSpecialPermission::RotateRight
        } else if val == 0x41 {
            HgSsMapSpecialPermission::RotateLeft
        } else if val == 0x42 {
            HgSsMapSpecialPermission::RotateUp
        } else if val == 0x43 {
            HgSsMapSpecialPermission::RotateDown
        } else if val == 0x4B {
            HgSsMapSpecialPermission::RockClimb
        } else if val == 0x5E {
            HgSsMapSpecialPermission::StairsDown
        } else if val == 0x5F {
            HgSsMapSpecialPermission::StairsUp
        } else if val == 0x64 || val == 0x6E {
            HgSsMapSpecialPermission::DoorNoAnim
        } else if val == 0x65 {
            HgSsMapSpecialPermission::ExitBuilding
        } else if val == 0x67 {
            HgSsMapSpecialPermission::DoorJumpWarp
        } else if val == 0x69 {
            HgSsMapSpecialPermission::DoorOpening
        } else if val == 0x71 || val == 0xDB {
            HgSsMapSpecialPermission::ForceBike
        } else if val == 0x83 {
            HgSsMapSpecialPermission::OpenPc
        } else if val == 0x85 {
            HgSsMapSpecialPermission::OpenMapSinnoh
        } else if val == 0x86 {
            HgSsMapSpecialPermission::BattleWatch
        } else if val == 0xA1 {
            HgSsMapSpecialPermission::SnowWaist
        } else if val == 0xA3 {
            HgSsMapSpecialPermission::SnowHead
        } else if val == 0xA4 {
            HgSsMapSpecialPermission::MudWaist
        } else if val == 0xA5 {
            HgSsMapSpecialPermission::MudHead
        } else if val == 0xA6 {
            HgSsMapSpecialPermission::GrassMud
        } else if val == 0xA7 {
            HgSsMapSpecialPermission::UnderGrassMud
        } else if val == 0xA9 {
            HgSsMapSpecialPermission::SnowLow
        } else if (0xD3 <= val && val <= 0xD9) {
            HgSsMapSpecialPermission::RideJumpLeft
        } else if val == 0xDA {
            HgSsMapSpecialPermission::RideBike
        } else if (0xE0 <= val && val <= 0xE2) || (0xEB <= val && val <= 0xEC) {
            HgSsMapSpecialPermission::SignBookshelf
        } else if val == 0xE4 {
            HgSsMapSpecialPermission::SignTrashCan
        } else if val == 0xE5 {
            HgSsMapSpecialPermission::SignShelf
        } else if (0xE6 <= val && val <= 0xEA) {
            HgSsMapSpecialPermission::SignNothing
        } else if val == 0xE3 {
            HgSsMapSpecialPermission::FreePassage
        } else {
            HgSsMapSpecialPermission::Unknown(val)
        }
    }
}

impl vstd::std_specs::convert::FromSpecImpl<u8> for HgSsMapSpecialPermission {
    open spec fn obeys_from_spec() -> bool {
        true
    }

    open spec fn from_spec(val: u8) -> Self {
        spec_special_permission(val)
    }
}

/// The two-character picture of a special permission.
pub open spec fn spec_icon(p: HgSsMapSpecialPermission) -> Seq<char> {
    match p {
        HgSsMapSpecialPermission::FreePassage => "  "@,
        HgSsMapSpecialPermission::Grass | HgSsMapSpecialPermission::HighGrass => ",,"@,
        HgSsMapSpecialPermission::GrassMud | HgSsMapSpecialPermission::UnderGrassMud => ",~"@,
        HgSsMapSpecialPermission::CaveEncounter => ".."@,
        HgSsMapSpecialPermission::PlainsEncounter => ". "@,
        HgSsMapSpecialPermission::Surfing => "~~"@,
        HgSsMapSpecialPermission::Waterfall => "~v"@,
        HgSsMapSpecialPermission::WaterSplash => "~*"@,
        HgSsMapSpecialPermission::GoDown => "vv"@,
        HgSsMapSpecialPermission::Blocked => "XX"@,
        HgSsMapSpecialPermission::StairsUp => "/^"@,
        HgSsMapSpecialPermission::StairsDown => "/v"@,
        HgSsMapSpecialPermission::JumpUp => "^^"@,
        HgSsMapSpecialPermission::JumpDown => "vv"@,
        HgSsMapSpecialPermission::RotateRight => " >"@,
        HgSsMapSpecialPermission::RotateLeft => "< "@,
        HgSsMapSpecialPermission::RotateUp => " ^"@,
        HgSsMapSpecialPermission::RotateDown => " v"@,
        HgSsMapSpecialPermission::RockClimb => "RC"@,
        HgSsMapSpecialPermission::DoorNoAnim | HgSsMapSpecialPermission::DoorOpening => "[]"@,
        HgSsMapSpecialPermission::DoorJumpWarp => "[!"@,
        HgSsMapSpecialPermission::ExitBuilding => "]["@,
        HgSsMapSpecialPermission::ForceBike | HgSsMapSpecialPermission::RideBike => "BB"@,
        HgSsMapSpecialPermission::OpenPc => "PC"@,
        HgSsMapSpecialPermission::OpenMapSinnoh => "MP"@,
        HgSsMapSpecialPermission::BattleWatch => "BW"@,
        HgSsMapSpecialPermission::SnowWaist => "::"@,
        HgSsMapSpecialPermission::SnowHead => ":^"@,
        HgSsMapSpecialPermission::SnowLow => ":."@,
        HgSsMapSpecialPermission::MudWaist => "%%"@,
        HgSsMapSpecialPermission::MudHead => "%^"@,
        HgSsMapSpecialPermission::FootOnSand => "°°"@,
        HgSsMapSpecialPermission::RideJumpLeft => "<^"@,
        HgSsMapSpecialPermission::SignBookshelf => "SB"@,
        HgSsMapSpecialPermission::SignTrashCan => "ST"@,
        HgSsMapSpecialPermission::SignShelf => "SS"@,
        HgSsMapSpecialPermission::SignNothing => "S?"@,
        HgSsMapSpecialPermission::Unknown(_) => "??"@,
    }
}

impl HgSsMapSpecialPermission {
    /// A two-character picture of the permission, for text renderings of a map.
    pub fn icon(&self) -> (r: &'static str)
        ensures
            r@ == spec_icon(*self),
    {
        match self {
            HgSsMapSpecialPermission::FreePassage => {
                proof { reveal_strlit("  "); }
                "  "
            },
            HgSsMapSpecialPermission::Grass | HgSsMapSpecialPermission::HighGrass => {
                proof { reveal_strlit(",,"); }
                ",,"
            },
            HgSsMapSpecialPermission::GrassMud | HgSsMapSpecialPermission::UnderGrassMud => {
                proof { reveal_strlit(",~"); }
                ",~"
            },
            HgSsMapSpecialPermission::CaveEncounter => {
                proof { reveal_strlit(".."); }
                ".."
            },
            HgSsMapSpecialPermission::PlainsEncounter => {
                proof { reveal_strlit(". "); }
                ". "
            },
            HgSsMapSpecialPermission::Surfing => {
                proof { reveal_strlit("~~"); }
                "~~"
            },
            HgSsMapSpecialPermission::Waterfall => {
                proof { reveal_strlit("~v"); }
                "~v"
            },
            HgSsMapSpecialPermission::WaterSplash => {
                proof { reveal_strlit("~*"); }
                "~*"
            },
            HgSsMapSpecialPermission::GoDown => {
                proof { reveal_strlit("vv"); }
                "vv"
            },
            HgSsMapSpecialPermission::Blocked => {
                proof { reveal_strlit("XX"); }
                "XX"
            },
            HgSsMapSpecialPermission::StairsUp => {
                proof { reveal_strlit("/^"); }
                "/^"
            },
            HgSsMapSpecialPermission::StairsDown => {
                proof { reveal_strlit("/v"); }
                "/v"
            },
            HgSsMapSpecialPermission::JumpUp => {
                proof { reveal_strlit("^^"); }
                "^^"
            },
            HgSsMapSpecialPermission::JumpDown => {
                proof { reveal_strlit("vv"); }
                "vv"
            },
            HgSsMapSpecialPermission::RotateRight => {
                proof { reveal_strlit(" >"); }
                " >"
            },
            HgSsMapSpecialPermission::RotateLeft => {
                proof { reveal_strlit("< "); }
                "< "
            },
            HgSsMapSpecialPermission::RotateUp => {
                proof { reveal_strlit(" ^"); }
                " ^"
            },
            HgSsMapSpecialPermission::RotateDown => {
                proof { reveal_strlit(" v"); }
                " v"
            },
            HgSsMapSpecialPermission::RockClimb => {
                proof { reveal_strlit("RC"); }
                "RC"
            },
            HgSsMapSpecialPermission::DoorNoAnim | HgSsMapSpecialPermission::DoorOpening => {
                proof { reveal_strlit("[]"); }
                "[]"
            },
            HgSsMapSpecialPermission::DoorJumpWarp => {
                proof { reveal_strlit("[!"); }
                "[!"
            },
            HgSsMapSpecialPermission::ExitBuilding => {
                proof { reveal_strlit("]["); }
                "]["
            },
            HgSsMapSpecialPermission::ForceBike | HgSsMapSpecialPermission::RideBike => {
                proof { reveal_strlit("BB"); }
                "BB"
            },
            HgSsMapSpecialPermission::OpenPc => {
                proof { reveal_strlit("PC"); }
                "PC"
            },
            HgSsMapSpecialPermission::OpenMapSinnoh => {
                proof { reveal_strlit("MP"); }
                "MP"
            },
            HgSsMapSpecialPermission::BattleWatch => {
                proof { reveal_strlit("BW"); }
                "BW"
            },
            HgSsMapSpecialPermission::SnowWaist => {
                proof { reveal_strlit("::"); }
                "::"
            },
            HgSsMapSpecialPermission::SnowHead => {
                proof { reveal_strlit(":^"); }
                ":^"
            },
            HgSsMapSpecialPermission::SnowLow => {
                proof { reveal_strlit(":."); }
                ":."
            },
            HgSsMapSpecialPermission::MudWaist => {
                proof { reveal_strlit("%%"); }
                "%%"
            },
            HgSsMapSpecialPermission::MudHead => {
                proof { reveal_strlit("%^"); }
                "%^"
            },
            HgSsMapSpecialPermission::FootOnSand => {
                proof { reveal_strlit("°°"); }
                "°°"
            },
            HgSsMapSpecialPermission::RideJumpLeft => {
                proof { reveal_strlit("<^"); }
                "<^"
            },
            HgSsMapSpecialPermission::SignBookshelf => {
                proof { reveal_strlit("SB"); }
                "SB"
            },
            HgSsMapSpecialPermission::SignTrashCan => {
                proof { reveal_strlit("ST"); }
                "ST"
            },
            HgSsMapSpecialPermission::SignShelf => {
                proof { reveal_strlit("SS"); }
                "SS"
            },
            HgSsMapSpecialPermission::SignNothing => {
                proof { reveal_strlit("S?"); }
                "S?"
            },
            HgSsMapSpecialPermission::Unknown(_) => {
                proof { reveal_strlit("??"); }
                "??"
            },
        }
    }
}

impl HgSsTilePermission {
    /// The special behaviour of the tile: free passage when the movement byte says to
    /// ignore the special byte.
    pub fn special(&self) -> (r: HgSsMapSpecialPermission)
        ensures
            r == (if self.movement == 0x04 { HgSsMapSpecialPermission::FreePassage } else { spec_special_permission(self.special) }),
    {
        if self.movement == 0x04 {
            HgSsMapSpecialPermission::FreePassage
        } else {
            HgSsMapSpecialPermission::from(self.special)
        }
    }
}

} // verus!

verus! {

/// The two characters drawn for a tile: a wall for solid tiles, else its special icon.
pub open spec fn spec_tile_icon(t: HgSsTilePermission) -> Seq<char> {
    if t.movement == 0x08 || t.movement == 0x80 {
        "██"@
    } else {
        spec_icon(if t.movement == 0x04 { HgSsMapSpecialPermission::FreePassage } else { spec_special_permission(t.special) })
    }
}

/// The first `cols` tile pictures of grid row `row`.
pub open spec fn spec_grid_row(tiles: Seq<HgSsTilePermission>, row: int, cols: nat) -> Seq<char>
    decreases cols,
{
    if cols == 0 {
        Seq::empty()
    } else {
        spec_grid_row(tiles, row, (cols - 1) as nat) + spec_tile_icon(tiles[row * 32 + cols - 1])
    }
}

/// The first `rows` lines of the grid picture, top line first (the grid is stored bottom-up).
pub open spec fn spec_grid_text(tiles: Seq<HgSsTilePermission>, rows: nat) -> Seq<char>
    decreases rows,
{
    if rows == 0 {
        Seq::empty()
    } else {
        spec_grid_text(tiles, (rows - 1) as nat) + spec_grid_row(tiles, 32 - rows, 32) + "\n"@
    }
}

/// Every picture of a special permission is two characters, neither of them a line break.
proof fn lemma_icon_shape(p: HgSsMapSpecialPermission)
    ensures
        spec_icon(p).len() == 2,
        spec_icon(p)[0] != '\n',
        spec_icon(p)[1] != '\n',
{
    match p {
        HgSsMapSpecialPermission::FreePassage => {
            reveal_strlit("  ");
        },
        HgSsMapSpecialPermission::Grass | HgSsMapSpecialPermission::HighGrass => {
            reveal_strlit(",,");
        },
        HgSsMapSpecialPermission::GrassMud | HgSsMapSpecialPermission::UnderGrassMud => {
            reveal_strlit(",~");
        },
        HgSsMapSpecialPermission::CaveEncounter => {
            reveal_strlit("..");
        },
        HgSsMapSpecialPermission::PlainsEncounter => {
            reveal_strlit(". ");
        },
        HgSsMapSpecialPermission::Surfing => {
            reveal_strlit("~~");
        },
        HgSsMapSpecialPermission::Waterfall => {
            reveal_strlit("~v");
        },
        HgSsMapSpecialPermission::WaterSplash => {
            reveal_strlit("~*");
        },
        HgSsMapSpecialPermission::GoDown => {
            reveal_strlit("vv");
        },
        HgSsMapSpecialPermission::Blocked => {
            reveal_strlit("XX");
        },
        HgSsMapSpecialPermission::StairsUp => {
            reveal_strlit("/^");
        },
        HgSsMapSpecialPermission::StairsDown => {
            reveal_strlit("/v");
        },
        HgSsMapSpecialPermission::JumpUp => {
            reveal_strlit("^^");
        },
        HgSsMapSpecialPermission::JumpDown => {
            reveal_strlit("vv");
        },
        HgSsMapSpecialPermission::RotateRight => {
            reveal_strlit(" >");
        },
        HgSsMapSpecialPermission::RotateLeft => {
            reveal_strlit("< ");
        },
        HgSsMapSpecialPermission::RotateUp => {
            reveal_strlit(" ^");
        },
        HgSsMapSpecialPermission::RotateDown => {
            reveal_strlit(" v");
        },
        HgSsMapSpecialPermission::RockClimb => {
            reveal_strlit("RC");
        },
        HgSsMapSpecialPermission::DoorNoAnim | HgSsMapSpecialPermission::DoorOpening => {
            reveal_strlit("[]");
        },
        HgSsMapSpecialPermission::DoorJumpWarp => {
            reveal_strlit("[!");
        },
        HgSsMapSpecialPermission::ExitBuilding => {
            reveal_strlit("][");
        },
        HgSsMapSpecialPermission::ForceBike | HgSsMapSpecialPermission::RideBike => {
            reveal_strlit("BB");
        },
        HgSsMapSpecialPermission::OpenPc => {
            reveal_strlit("PC");
        },
        HgSsMapSpecialPermission::OpenMapSinnoh => {
            reveal_strlit("MP");
        },
        HgSsMapSpecialPermission::BattleWatch => {
            reveal_strlit("BW");
        },
        HgSsMapSpecialPermission::SnowWaist => {
            reveal_strlit("::");
        },
        HgSsMapSpecialPermission::SnowHead => {
            reveal_strlit(":^");
        },
        HgSsMapSpecialPermission::SnowLow => {
            reveal_strlit(":.");
        },
        HgSsMapSpecialPermission::MudWaist => {
            reveal_strlit("%%");
        },
        HgSsMapSpecialPermission::MudHead => {
            reveal_strlit("%^");
        },
        HgSsMapSpecialPermission::FootOnSand => {
            reveal_strlit("°°");
        },
        HgSsMapSpecialPermission::RideJumpLeft => {
            reveal_strlit("<^");
        },
        HgSsMapSpecialPermission::SignBookshelf => {
            reveal_strlit("SB");
        },
        HgSsMapSpecialPermission::SignTrashCan => {
            reveal_strlit("ST");
        },
        HgSsMapSpecialPermission::SignShelf => {
            reveal_strlit("SS");
        },
        HgSsMapSpecialPermission::SignNothing => {
            reveal_strlit("S?");
        },
        HgSsMapSpecialPermission::Unknown(_) => {
            reveal_strlit("??");
        },
    }
}

/// Every tile picture is two characters, neither of them a line break.
proof fn lemma_tile_icon_shape(t: HgSsTilePermission)
    ensures
        spec_tile_icon(t).len() == 2,
        spec_tile_icon(t)[0] != '\n',
        spec_tile_icon(t)[1] != '\n',
{
    if t.movement == 0x08 || t.movement == 0x80 {
        reveal_strlit("██");
    } else {
        lemma_icon_shape(if t.movement == 0x04 { HgSsMapSpecialPermission::FreePassage } else { spec_special_permission(t.special) });
    }
}

/// The first `cols` pictures of a row take two characters each, cell `c` at `2c`, with no
/// line break among them.
proof fn lemma_grid_row_cells(tiles: Seq<HgSsTilePermission>, row: int, cols: nat)
    ensures
        spec_grid_row(tiles, row, cols).len() == 2 * cols,
        forall|c: int| 0 <= c < cols ==> #[trigger] spec_grid_row(tiles, row, cols).subrange(2 * c, 2 * c + 2)
            == spec_tile_icon(tiles[row * 32 + c]),
        forall|i: int| 0 <= i < 2 * cols ==> #[trigger] spec_grid_row(tiles, row, cols)[i] != '\n',
    decreases cols,
{
    if cols > 0 {
        let prev = spec_grid_row(tiles, row, (cols - 1) as nat);
        let last = spec_tile_icon(tiles[row * 32 + cols - 1]);
        let cur = spec_grid_row(tiles, row, cols);
        lemma_grid_row_cells(tiles, row, (cols - 1) as nat);
        lemma_tile_icon_shape(tiles[row * 32 + cols - 1]);
        assert(cur == prev + last);
        assert forall|c: int| 0 <= c < cols implies #[trigger] cur.subrange(2 * c, 2 * c + 2) == spec_tile_icon(tiles[row * 32 + c]) by {
            if c < cols - 1 {
                assert(cur.subrange(2 * c, 2 * c + 2) =~= prev.subrange(2 * c, 2 * c + 2));
            } else {
                assert(cur.subrange(2 * c, 2 * c + 2) =~= last);
            }
        }
        assert forall|i: int| 0 <= i < 2 * cols implies #[trigger] cur[i] != '\n' by {
            if i < 2 * (cols - 1) {
                assert(cur[i] == prev[i]);
            } else {
                assert(cur[i] == last[i - 2 * (cols - 1)]);
            }
        }
    }
}

/// The first `rows` lines of the picture take 65 characters each, and the text of `rows`
/// lines begins that of any more lines.
proof fn lemma_grid_text_grows(tiles: Seq<HgSsTilePermission>, n: nat, m: nat)
    requires
        n <= m,
    ensures
        spec_grid_text(tiles, n).len() == 65 * n,
        spec_grid_text(tiles, m).len() == 65 * m,
        spec_grid_text(tiles, m).subrange(0, (65 * n) as int) == spec_grid_text(tiles, n),
    decreases m,
{
    if m == 0 {
        assert(spec_grid_text(tiles, m).subrange(0, 0) =~= spec_grid_text(tiles, n));
    } else if n == m {
        lemma_grid_text_grows(tiles, (m - 1) as nat, (m - 1) as nat);
        lemma_grid_row_cells(tiles, 32 - m, 32);
        reveal_strlit("\n");
        assert(spec_grid_text(tiles, m).subrange(0, (65 * n) as int) =~= spec_grid_text(tiles, n));
    } else {
        lemma_grid_text_grows(tiles, n, (m - 1) as nat);
        lemma_grid_row_cells(tiles, 32 - m, 32);
        reveal_strlit("\n");
        let prev = spec_grid_text(tiles, (m - 1) as nat);
        assert(spec_grid_text(tiles, m).subrange(0, (65 * n) as int) =~= prev.subrange(0, (65 * n) as int));
    }
}

/// The 32-line picture of the grid, line by line: line `k` (the first is 0) pictures grid
/// row `31 - k`, so the top row comes first; it is the two-character pictures of the row's
/// 32 tiles from left to right, with no line break among them, followed by a line break.
pub proof fn lemma_grid_lines(tiles: Seq<HgSsTilePermission>, k: int, c: int)
    requires
        0 <= k < 32,
        0 <= c < 32,
    ensures
        spec_grid_text(tiles, 32).len() == 32 * 65,
        spec_grid_text(tiles, 32).subrange(65 * k, 65 * k + 64) == spec_grid_row(tiles, 31 - k, 32),
        spec_grid_text(tiles, 32).subrange(65 * k + 2 * c, 65 * k + 2 * c + 2) == spec_tile_icon(tiles[(31 - k) * 32 + c]),
        forall|i: int| 65 * k <= i < 65 * k + 64 ==> spec_grid_text(tiles, 32)[i] != '\n',
        spec_grid_text(tiles, 32)[65 * k + 64] == '\n',
{
    let all = spec_grid_text(tiles, 32);
    let upto = spec_grid_text(tiles, (k + 1) as nat);
    let before = spec_grid_text(tiles, k as nat);
    let row = spec_grid_row(tiles, 31 - k, 32);
    lemma_grid_text_grows(tiles, (k + 1) as nat, 32);
    lemma_grid_text_grows(tiles, k as nat, k as nat);
    lemma_grid_row_cells(tiles, 31 - k, 32);
    reveal_strlit("\n");
    assert(upto == before + row + "\n"@);
    assert(all.subrange(0, 65 * (k + 1)) == upto);
    assert(all.subrange(65 * k, 65 * k + 64) =~= row) by {
        assert forall|i: int| 0 <= i < 64 implies all.subrange(65 * k, 65 * k + 64)[i] == row[i] by {
            assert(all[65 * k + i] == upto[65 * k + i]);
        }
    }
    assert(all[65 * k + 64] == upto[65 * k + 64]);
    assert(row.subrange(2 * c, 2 * c + 2) == spec_tile_icon(tiles[(31 - k) * 32 + c]));
    assert(all.subrange(65 * k + 2 * c, 65 * k + 2 * c + 2) =~= row.subrange(2 * c, 2 * c + 2));
    assert forall|i: int| 65 * k <= i < 65 * k + 64 implies all[i] != '\n' by {
        assert(all[i] == all.subrange(65 * k, 65 * k + 64)[i - 65 * k]);
        assert(row[i - 65 * k] != '\n');
    }
}

/// Each cell of the grid picture: line `k`, cell `c` pictures tile `c` of grid row `31 - k`;
/// a solid tile (movement 0x08 or 0x80) is a wall, a tile whose movement byte is 0x04 is
/// free passage whatever its special byte, and any other tile is the icon of its special
/// byte.
pub proof fn lemma_grid_cells(tiles: Seq<HgSsTilePermission>, k: int, c: int)
    requires
        0 <= k < 32,
        0 <= c < 32,
    ensures
        ({
            let t = tiles[(31 - k) * 32 + c];
            let cell = spec_grid_text(tiles, 32).subrange(65 * k + 2 * c, 65 * k + 2 * c + 2);
            &&& (t.movement == 0x08 || t.movement == 0x80) ==> cell == "██"@
            &&& t.movement == 0x04 ==> cell == "  "@
            &&& !(t.movement == 0x08 || t.movement == 0x80 || t.movement == 0x04)
                ==> cell == spec_icon(spec_special_permission(t.special))
        }),
{
    lemma_grid_lines(tiles, k, c);
    reveal_strlit("  ");
    reveal_strlit("██");
}

impl HgSsMapPermissions {
    /// A 32-line picture of the grid, two characters per tile, the top row first.
    pub fn to_grid_string(&self) -> (r: String)
        requires
            self.tiles@.len() >= 1024,
        ensures
            r@ == spec_grid_text(self.tiles@, 32),
    {
        let mut out = String::new();
        let mut done: usize = 0;
        while done < 32
            invariant
                done <= 32,
                self.tiles@.len() >= 1024,
                out@ == spec_grid_text(self.tiles@, done as nat),
            decreases 32 - done,
        {
            let row = 31 - done;
            let mut col: usize = 0;
            let ghost before = out@;
            while col < 32
                invariant
                    col <= 32,
                    row < 32,
                    self.tiles@.len() >= 1024,
                    out@ == before + spec_grid_row(self.tiles@, row as int, col as nat),
                decreases 32 - col,
            {
                let tile = &self.tiles[row * 32 + col];
                let ch: &str = if tile.movement == 0x08 || tile.movement == 0x80 {
                    "██"
                } else {
                    tile.special().icon()
                };
                out.append(ch);
                col = col + 1;
                proof {
                    assert(out@ =~= before + spec_grid_row(self.tiles@, row as int, col as nat));
                }
            }
            out.append("\n");
            done = done + 1;
            proof {
                assert(out@ =~= spec_grid_text(self.tiles@, done as nat));
            }
        }
        out
    }
}

} // verus!
