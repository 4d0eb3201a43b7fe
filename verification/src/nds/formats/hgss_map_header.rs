//! The 24-byte HeartGold/SoulSilver map header, with its bytes 0x12-0x17 read as separate
//! fields.
use crate::rw::bytes::{read_array, spec_u16_le, u16_at, ParseError};
use vstd::prelude::*;

verus! {

/// One map header.
pub struct HGSSMapHeader {
    pub wild_pokemon_file_number: u8,
    pub area_data_value: u8,
    pub unknown: [u8; 2],
    pub matrix_number: u16,
    pub script_file_number: u16,
    pub level_script_file: u16,
    pub text_archive_number: u16,
    pub day_music_track_number: u16,
    pub night_music_track_number: u16,
    pub event_file_number: u16,
    pub map_name_index: u8,
    pub map_name_textbox_type: u8,
    pub weather_value: u8,
    pub camera_value: u8,
    pub follow_mode: u8,
    pub permission_flags: u8,
}

impl HGSSMapHeader {
    /// Whether the header is the one stored at `s[pos..pos + 24]`.
    pub open spec fn parsed_at(&self, s: Seq<u8>, pos: int) -> bool {
        &&& self.wild_pokemon_file_number == s[pos]
        &&& self.area_data_value == s[pos + 1]
        &&& self.unknown@ == s.subrange(pos + 2, pos + 4)
        &&& self.matrix_number == spec_u16_le(s, pos + 4)
        &&& self.script_file_number == spec_u16_le(s, pos + 6)
        &&& self.level_script_file == spec_u16_le(s, pos + 8)
        &&& self.text_archive_number == spec_u16_le(s, pos + 10)
        &&& self.day_music_track_number == spec_u16_le(s, pos + 12)
        &&& self.night_music_track_number == spec_u16_le(s, pos + 14)
        &&& self.event_file_number == spec_u16_le(s, pos + 16)
        &&& self.map_name_index == s[pos + 18]
        &&& self.map_name_textbox_type == s[pos + 19]
        &&& self.weather_value == s[pos + 20]
        &&& self.camera_value == s[pos + 21]
        &&& self.follow_mode == s[pos + 22]
        &&& self.permission_flags == s[pos + 23]
    }

    /// Reads the header stored at `data[pos..pos + 24]`.
    pub fn read(data: &[u8], pos: usize) -> (r: Result<HGSSMapHeader, ParseError>)
        ensures
            r is Ok <==> pos + 24 <= data@.len(),
            r matches Ok(h) ==> h.parsed_at(data@, pos as int),
            r matches Err(e) ==> e == ParseError::UnexpectedEof,
    {
        let n = data.len();
        if pos > n || n - pos < 24 {
            return Err(ParseError::UnexpectedEof);
        }
        Ok(HGSSMapHeader {
            wild_pokemon_file_number: data[pos],
            area_data_value: data[pos + 1],
            unknown: read_array::<2>(data, pos + 2),
            matrix_number: u16_at(data, pos + 4),
            script_file_number: u16_at(data, pos + 6),
            level_script_file: u16_at(data, pos + 8),
            text_archive_number: u16_at(data, pos + 10),
            day_music_track_number: u16_at(data, pos + 12),
            night_music_track_number: u16_at(data, pos + 14),
            event_file_number: u16_at(data, pos + 16),
            map_name_index: data[pos + 18],
            map_name_textbox_type: data[pos + 19],
            weather_value: data[pos + 20],
            camera_value: data[pos + 21],
            follow_mode: data[pos + 22],
            permission_flags: data[pos + 23],
        })
    }
}

} // verus!
