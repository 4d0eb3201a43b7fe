//! The 24-byte map headers of HeartGold/SoulSilver, kept in a table inside the ARM9 binary.
use crate::rw::bytes::{read_u32_le, spec_u16_le, spec_u32_le, u16_at, ParseError};
use vstd::prelude::*;

verus! {

/// The size of one header in bytes.
pub const HGSS_MAP_HEADER_SIZE: usize = 24;

/// One map header.
#[derive(Debug, Clone, Copy, PartialEq, Eq, Structural)]
pub struct HGSSMapHeader {
    /// 0x00: Index into the wild Pokémon encounter file table (0xFF = no encounters)
    pub wild_pokemon_file_number: u8,
    /// 0x01: Area data ID, controls area-specific properties (tileset, etc.)
    pub area_data_value: u8,
    /// 0x02-0x03: Packed world map coordinates: bits 0-3 unknown, bits 4-9 X, bits 10-15 Y
    pub coords: u16,
    /// 0x04-0x05: Index of the map matrix (defines map tile layout)
    pub matrix_number: u16,
    /// 0x06-0x07: Index of the map's script file
    pub script_file_number: u16,
    /// 0x08-0x09: Index of the map's level script file (background/trigger scripts)
    pub level_script_file: u16,
    /// 0x0A-0x0B: Index of the text archive used by this map's scripts
    pub text_archive_number: u16,
    /// 0x0C-0x0D: Music track ID played during daytime
    pub day_music_track_number: u16,
    /// 0x0E-0x0F: Music track ID played during nighttime
    pub night_music_track_number: u16,
    /// 0x10-0x11: Index of the event file (NPCs, warps, triggers)
    pub event_file_number: u16,
    /// 0x12: Index into the text archive of map names
    pub map_name_index: u8,
    /// 0x13: Packed area properties: bits 0-3 area icon, bits 4-7 unknown
    pub area_properties: u8,
    /// 0x14-0x17: Packed flags: bit 0 Kanto, bits 1-7 weather, bits 8-11 location type,
    /// bits 12-17 camera angle, bits 18-19 follow mode, bits 20-24 battle background,
    /// bits 25-31 permission flags
    pub packed_flags: u32,
}

impl HGSSMapHeader {
    /// Whether the header is the one stored at `s[pos..pos + 24]`.
    pub open spec fn parsed_at(&self, s: Seq<u8>, pos: int) -> bool {
        &&& self.wild_pokemon_file_number == s[pos]
        &&& self.area_data_value == s[pos + 1]
        &&& self.coords == spec_u16_le(s, pos + 2)
        &&& self.matrix_number == spec_u16_le(s, pos + 4)
        &&& self.script_file_number == spec_u16_le(s, pos + 6)
        &&& self.level_script_file == spec_u16_le(s, pos + 8)
        &&& self.text_archive_number == spec_u16_le(s, pos + 10)
        &&& self.day_music_track_number == spec_u16_le(s, pos + 12)
        &&& self.night_music_track_number == spec_u16_le(s, pos + 14)
        &&& self.event_file_number == spec_u16_le(s, pos + 16)
        &&& self.map_name_index == s[pos + 18]
        &&& self.area_properties == s[pos + 19]
        &&& self.packed_flags == spec_u32_le(s, pos + 20)
    }

    /// Reads the header stored at `data[pos..pos + 24]`.
    pub fn read(data: &[u8], pos: usize) -> (r: Result<HGSSMapHeader, ParseError>)
        ensures
            r is Ok <==> pos + 24 <= data@.len(),
            r matches Ok(h) ==> h.parsed_at(data@, pos as int),
            r matches Err(e) ==> e == ParseError::UnexpectedEof,
    {
        let n = data.len();
        if pos > n || n - pos < 24 {
            return Err(ParseError::UnexpectedEof);
        }
        let packed_flags = match read_u32_le(data, pos + 20) { Some(v) => v, None => 0 };
        Ok(HGSSMapHeader {
            wild_pokemon_file_number: data[pos],
            area_data_value: data[pos + 1],
            coords: u16_at(data, pos + 2),
            matrix_number: u16_at(data, pos + 4),
            script_file_number: u16_at(data, pos + 6),
            level_script_file: u16_at(data, pos + 8),
            text_archive_number: u16_at(data, pos + 10),
            day_music_track_number: u16_at(data, pos + 12),
            night_music_track_number: u16_at(data, pos + 14),
            event_file_number: u16_at(data, pos + 16),
            map_name_index: data[pos + 18],
            area_properties: data[pos + 19],
            packed_flags,
        })
    }

    /// Bit 0 of the flags: whether the map lies in Kanto.
    pub fn kanto_flag(&self) -> (r: bool)
        ensures
            r == (self.packed_flags % 2 == 1),
    {
        let f = self.packed_flags;
        assert((f & 1 == 1) == (f % 2 == 1)) by (bit_vector);
        f & 1 == 1
    }

    /// Bits 1-7 of the flags.
    pub fn weather_id(&self) -> (r: u8)
        ensures
            r == (self.packed_flags / 2) % 128,
    {
        let f = self.packed_flags;
        assert(((f >> 1u32) & 0x7F) == (f / 2) % 128) by (bit_vector);
        ((f >> 1) & 0x7F) as u8
    }

    /// Bits 8-11 of the flags.
    pub fn location_type(&self) -> (r: u8)
        ensures
            r == (self.packed_flags / 0x100) % 16,
    {
        let f = self.packed_flags;
        assert(((f >> 8u32) & 0xF) == (f / 0x100) % 16) by (bit_vector);
        ((f >> 8) & 0xF) as u8
    }

    /// Bits 12-17 of the flags.
    pub fn camera_angle_id(&self) -> (r: u8)
        ensures
            r == (self.packed_flags / 0x1000) % 64,
    {
        let f = self.packed_flags;
        assert(((f >> 12u32) & 0x3F) == (f / 0x1000) % 64) by (bit_vector);
        ((f >> 12) & 0x3F) as u8
    }

    /// Bits 18-19 of the flags.
    pub fn follow_mode(&self) -> (r: u8)
        ensures
            r == (self.packed_flags / 0x40000) % 4,
    {
        let f = self.packed_flags;
        assert(((f >> 18u32) & 0x3) == (f / 0x40000) % 4) by (bit_vector);
        ((f >> 18) & 0x3) as u8
    }

    /// Bits 20-24 of the flags.
    pub fn battle_background(&self) -> (r: u8)
        ensures
            r == (self.packed_flags / 0x100000) % 32,
    {
        let f = self.packed_flags;
        assert(((f >> 20u32) & 0x1F) == (f / 0x100000) % 32) by (bit_vector);
        ((f >> 20) & 0x1F) as u8
    }

    /// Bits 25-31 of the flags: the permission flags.
    pub fn flags(&self) -> (r: u8)
        ensures
            r == (self.packed_flags / 0x2000000) % 128,
    {
        let f = self.packed_flags;
        assert(((f >> 25u32) & 0x7F) == (f / 0x2000000) % 128) by (bit_vector);
        ((f >> 25) & 0x7F) as u8
    }

    /// Bits 4-9 of the coordinates.
    pub fn world_map_x(&self) -> (r: u8)
        ensures
            r == (self.coords / 16) % 64,
    {
        let c = self.coords;
        assert(((c >> 4u16) & 0x3F) == (c / 16) % 64) by (bit_vector);
        ((c >> 4) & 0x3F) as u8
    }

    /// Bits 10-15 of the coordinates.
    pub fn world_map_y(&self) -> (r: u8)
        ensures
            r == (self.coords / 1024) % 64,
    {
        let c = self.coords;
        assert(((c >> 10u16) & 0x3F) == (c / 1024) % 64) by (bit_vector);
        ((c >> 10) & 0x3F) as u8
    }

    /// Bits 0-3 of the area properties.
    pub fn area_icon(&self) -> (r: u8)
        ensures
            r == self.area_properties % 16,
    {
        let a = self.area_properties;
        assert((a & 0xF) == a % 16) by (bit_vector);
        a & 0xF
    }
}

/// The packed fields together cover every bit of the flags word: reassembling them gives
/// the word back.
pub proof fn lemma_packed_flags_recompose(f: u32)
    ensures
        f == f % 2 + 2 * ((f / 2) % 128) + 0x100 * ((f / 0x100) % 16) + 0x1000 * ((f / 0x1000) % 64)
            + 0x40000 * ((f / 0x40000) % 4) + 0x100000 * ((f / 0x100000) % 32) + 0x2000000 * ((f / 0x2000000) % 128),
{
    assert(f == f % 2 + 2 * ((f / 2) % 128) + 0x100 * ((f / 0x100) % 16) + 0x1000 * ((f / 0x1000) % 64)
        + 0x40000 * ((f / 0x40000) % 4) + 0x100000 * ((f / 0x100000) % 32) + 0x2000000 * ((f / 0x2000000) % 128)) by (bit_vector);
}

} // verus!
