//! The cartridge header at the start of every DS ROM.
use crate::rw::bytes::{read_array, spec_u16_le, spec_u32_le, u16_at, u32_at, ParseError};
use crate::rw::zero_padded_string::{spec_read_zps, ZeroPaddedString};
use vstd::prelude::*;

verus! {

/// How many bytes the header occupies.
pub const NDS_HEADER_SIZE: usize = 0x1000;

/// The DS cartridge header.
pub struct NdsHeader {
    pub game_title: ZeroPaddedString<12>,
    /// NTR-xxxx, 0 is referring to homebrew
    pub game_code: ZeroPaddedString<4>,
    pub maker_code: NdsMakerCode,
    pub unit_code: NdsUnitCode,
    /// 0x00..=0x07, usually 0x00
    pub encryption_seed_select: u8,
    /// Chip size = 128KB SHL nn (eg. 7 = 16MB)
    pub device_capacity: u8,
    pub _reserved_1: [u8; 7],
    pub dsi_flags: u8,
    pub nds_region_or_dsi_permit: u8,
    pub rom_version: u8,
    /// Bit 2: Skip "Press Button" after Health and Safety
    pub autostart: u8,
    /// 0x4000 and up, aligned by 0x1000
    pub arm9_offset: u32,
    /// 0x2000000..=0x23BFE00
    pub arm9_entry_address: u32,
    /// 0x2000000..=0x23BFE00
    pub arm9_ram_address: u32,
    /// max. 0x3BFE00 (3839.5KB)
    pub arm9_size: u32,
    /// 0x8000 and up
    pub arm7_offset: u32,
    /// 0x2000000..=0x23BFE00, or 0x37F8000..=0x3807E00
    pub arm7_entry_address: u32,
    /// 0x2000000..=0x23BFE00, or 0x37F8000..=0x3807E00
    pub arm7_ram_address: u32,
    /// max. 0x3BFE00 (3839.5KB), or 0xFE00 (63.5KB)
    pub arm7_size: u32,
    pub fnt_offset: u32,
    pub fnt_size: u32,
    pub fat_offset: u32,
    pub fat_size: u32,
    pub arm9_overlay_offset: u32,
    pub arm9_overlay_size: u32,
    pub arm7_overlay_offset: u32,
    pub arm7_overlay_size: u32,
    /// ROMCTRL (0x40001A4h) setting for normal (unencrypted) commands
    pub normal_romctrl: u32,
    /// ROMCTRL (0x40001A4h) setting for KEY1 (encrypted) commands
    pub key1_romctrl: u32,
    /// 0x0 = None, 0x8000 and up
    pub icon_title_offset: u32,
    /// CRC-16 of [[0x020]..=0x00007FFF]
    pub secure_area_checksum: u16,
    /// In 131 kHz units (0x051E=10ms, 0x0D7E=26ms)
    pub secure_area_delay: u16,
    /// End address of ARM9 auto-load function list in RAM
    pub arm9_auto_load_hook_addr: u32,
    /// End address of ARM7 auto-load function list in RAM
    pub arm7_auto_load_hook_addr: u32,
    /// Secure area is disabled if this contains "NmMdOnly" encrypted, is usually zero
    pub secure_area_disable: [u8; 8],
    /// Total used ROM size (bytes after this are 0xFF padding, excluding DSi area)
    pub total_used_rom_size: u32,
    /// 0x4000
    pub rom_header_size: u32,
    /// 0x088..=0x093
    pub _reserved_2: [u8; 12],
    /// NAND end of ROM area (in 0x20000-byte units, DSi: 0x80000-byte)
    pub nand_rom_end: u16,
    /// NAND start of read-write area (in 0x20000-byte units, 0 = none)
    pub nand_rw_start: u16,
    pub _reserved_3: [u8; 40],
    pub nintendo_logo: [u8; 156],
    /// CRC-16 of [0x0C0-0x15B], fixed 0xCF56
    pub nintendo_logo_checksum: u16,
    /// CRC of [0x000-0x15D]
    pub header_checksum: u16,
    /// 0x0 = None, 0x8000 and up
    pub debug_rom_offset: u32,
    /// 0x0 = None, max. 0x3BFE00
    pub debug_size: u32,
    /// 0x0 = None, 0x2400000..=0x27BFE00
    pub debug_ram_address: u32,
    pub _reserved_4: [u8; 4],
    pub _reserved_5: [u8; 144],
    pub _reserved_6: [u8; 3584],
}

/// The maker of the game.
#[derive(Debug, Clone, Copy, PartialEq, Eq)]
pub enum NdsMakerCode {
    /// `"00"`
    Homebrew,
    /// `"01"`
    Nintendo,
    Unknown([u8; 2]),
}

/// The maker code stored as the two bytes `b0`, `b1`.
pub open spec fn spec_maker_code(b0: u8, b1: u8) -> NdsMakerCode {
    if b0 == 0x30 && b1 == 0x30 {
        NdsMakerCode::Homebrew
    } else if b0 == 0x30 && b1 == 0x31 {
        NdsMakerCode::Nintendo
    } else {
        NdsMakerCode::Unknown([b0, b1])
    }
}

impl NdsMakerCode {
    /// Decodes the two bytes of the maker code.
    pub fn from_bytes(b0: u8, b1: u8) -> (r: NdsMakerCode)
        ensures
            r == spec_maker_code(b0, b1),
    {
        if b0 == 0x30 && b1 == 0x30 {
            NdsMakerCode::Homebrew
        } else if b0 == 0x30 && b1 == 0x31 {
            NdsMakerCode::Nintendo
        } else {
            NdsMakerCode::Unknown([b0, b1])
        }
    }
}

/// The console the game is made for.
#[derive(Debug, Clone, Copy, PartialEq, Eq, Structural)]
pub enum NdsUnitCode {
    /// `0x00`
    Nds,
    /// `0x02`
    NdsDsi,
    /// `0x03`
    Dsi,
    Unknown(u8),
}

/// The unit code stored as the byte `b`.
pub open spec fn spec_unit_code(b: u8) -> NdsUnitCode {
    if b == 0 {
        NdsUnitCode::Nds
    } else if b == 2 {
        NdsUnitCode::NdsDsi
    } else if b == 3 {
        NdsUnitCode::Dsi
    } else {
        NdsUnitCode::Unknown(b)
    }
}

impl NdsUnitCode {
    /// Decodes the unit code byte.
    pub fn from_byte(b: u8) -> (r: NdsUnitCode)
        ensures
            r == spec_unit_code(b),
    {
        if b == 0 {
            NdsUnitCode::Nds
        } else if b == 2 {
            NdsUnitCode::NdsDsi
        } else if b == 3 {
            NdsUnitCode::Dsi
        } else {
            NdsUnitCode::Unknown(b)
        }
    }
}


/// Why reading a header at `pos` fails, if it does: the fields are read in order, so the
/// first field that runs past the data or holds invalid text decides.
pub open spec fn spec_header_error(s: Seq<u8>, pos: int) -> Option<ParseError> {
    if spec_read_zps(s, pos, 12) is Err {
        Some(spec_read_zps(s, pos, 12)->Err_0)
    } else if spec_read_zps(s, pos + 12, 4) is Err {
        Some(spec_read_zps(s, pos + 12, 4)->Err_0)
    } else if pos + 0x1000 > s.len() {
        Some(ParseError::UnexpectedEof)
    } else {
        None
    }
}

impl NdsHeader {
    /// Whether every field holds what the header stored at `s[pos..pos + 0x1000]` says.
    pub open spec fn parsed_at(&self, s: Seq<u8>, pos: int) -> bool {
        &&& spec_read_zps(s, pos + 0, 12) == Ok::<Seq<char>, ParseError>(self.game_title.0@)
        &&& spec_read_zps(s, pos + 12, 4) == Ok::<Seq<char>, ParseError>(self.game_code.0@)
        &&& self.maker_code == spec_maker_code(s[pos + 16], s[pos + 16 + 1])
        &&& self.unit_code == spec_unit_code(s[pos + 18])
        &&& self.encryption_seed_select == s[pos + 19]
        &&& self.device_capacity == s[pos + 20]
        &&& self._reserved_1@ == s.subrange(pos + 21, pos + 21 + 7)
        &&& self.dsi_flags == s[pos + 28]
        &&& self.nds_region_or_dsi_permit == s[pos + 29]
        &&& self.rom_version == s[pos + 30]
        &&& self.autostart == s[pos + 31]
        &&& self.arm9_offset == spec_u32_le(s, pos + 32)
        &&& self.arm9_entry_address == spec_u32_le(s, pos + 36)
        &&& self.arm9_ram_address == spec_u32_le(s, pos + 40)
        &&& self.arm9_size == spec_u32_le(s, pos + 44)
        &&& self.arm7_offset == spec_u32_le(s, pos + 48)
        &&& self.arm7_entry_address == spec_u32_le(s, pos + 52)
        &&& self.arm7_ram_address == spec_u32_le(s, pos + 56)
        &&& self.arm7_size == spec_u32_le(s, pos + 60)
        &&& self.fnt_offset == spec_u32_le(s, pos + 64)
        &&& self.fnt_size == spec_u32_le(s, pos + 68)
        &&& self.fat_offset == spec_u32_le(s, pos + 72)
        &&& self.fat_size == spec_u32_le(s, pos + 76)
        &&& self.arm9_overlay_offset == spec_u32_le(s, pos + 80)
        &&& self.arm9_overlay_size == spec_u32_le(s, pos + 84)
        &&& self.arm7_overlay_offset == spec_u32_le(s, pos + 88)
        &&& self.arm7_overlay_size == spec_u32_le(s, pos + 92)
        &&& self.normal_romctrl == spec_u32_le(s, pos + 96)
        &&& self.key1_romctrl == spec_u32_le(s, pos + 100)
        &&& self.icon_title_offset == spec_u32_le(s, pos + 104)
        &&& self.secure_area_checksum == spec_u16_le(s, pos + 108)
        &&& self.secure_area_delay == spec_u16_le(s, pos + 110)
        &&& self.arm9_auto_load_hook_addr == spec_u32_le(s, pos + 112)
        &&& self.arm7_auto_load_hook_addr == spec_u32_le(s, pos + 116)
        &&& self.secure_area_disable@ == s.subrange(pos + 120, pos + 120 + 8)
        &&& self.total_used_rom_size == spec_u32_le(s, pos + 128)
        &&& self.rom_header_size == spec_u32_le(s, pos + 132)
        &&& self._reserved_2@ == s.subrange(pos + 136, pos + 136 + 12)
        &&& self.nand_rom_end == spec_u16_le(s, pos + 148)
        &&& self.nand_rw_start == spec_u16_le(s, pos + 150)
        &&& self._reserved_3@ == s.subrange(pos + 152, pos + 152 + 40)
        &&& self.nintendo_logo@ == s.subrange(pos + 192, pos + 192 + 156)
        &&& self.nintendo_logo_checksum == spec_u16_le(s, pos + 348)
        &&& self.header_checksum == spec_u16_le(s, pos + 350)
        &&& self.debug_rom_offset == spec_u32_le(s, pos + 352)
        &&& self.debug_size == spec_u32_le(s, pos + 356)
        &&& self.debug_ram_address == spec_u32_le(s, pos + 360)
        &&& self._reserved_4@ == s.subrange(pos + 364, pos + 364 + 4)
        &&& self._reserved_5@ == s.subrange(pos + 368, pos + 368 + 144)
        &&& self._reserved_6@ == s.subrange(pos + 512, pos + 512 + 3584)
    }

    /// Reads the header stored at `data[pos..pos + 0x1000]`.
    pub fn read(data: &[u8], pos: usize) -> (r: Result<NdsHeader, ParseError>)
        ensures
            r is Ok <==> spec_header_error(data@, pos as int) is None,
            r matches Ok(h) ==> h.parsed_at(data@, pos as int),
            r matches Err(e) ==> spec_header_error(data@, pos as int) == Some(e),
    {
        let game_title = ZeroPaddedString::<12>::read(data, pos)?;
        if pos > data.len() || data.len() - pos < 12 {
            return Err(ParseError::UnexpectedEof);
        }
        let game_code = ZeroPaddedString::<4>::read(data, pos + 12)?;
        if data.len() - pos < 0x1000 {
            return Err(ParseError::UnexpectedEof);
        }
        let maker_code = NdsMakerCode::from_bytes(data[pos + 16], data[pos + 16 + 1]);
        let unit_code = NdsUnitCode::from_byte(data[pos + 18]);
        let encryption_seed_select = data[pos + 19];
        let device_capacity = data[pos + 20];
        let _reserved_1 = read_array::<7>(data, pos + 21);
        let dsi_flags = data[pos + 28];
        let nds_region_or_dsi_permit = data[pos + 29];
        let rom_version = data[pos + 30];
        let autostart = data[pos + 31];
        let arm9_offset = u32_at(data, pos + 32);
        let arm9_entry_address = u32_at(data, pos + 36);
        let arm9_ram_address = u32_at(data, pos + 40);
        let arm9_size = u32_at(data, pos + 44);
        let arm7_offset = u32_at(data, pos + 48);
        let arm7_entry_address = u32_at(data, pos + 52);
        let arm7_ram_address = u32_at(data, pos + 56);
        let arm7_size = u32_at(data, pos + 60);
        let fnt_offset = u32_at(data, pos + 64);
        let fnt_size = u32_at(data, pos + 68);
        let fat_offset = u32_at(data, pos + 72);
        let fat_size = u32_at(data, pos + 76);
        let arm9_overlay_offset = u32_at(data, pos + 80);
        let arm9_overlay_size = u32_at(data, pos + 84);
        let arm7_overlay_offset = u32_at(data, pos + 88);
        let arm7_overlay_size = u32_at(data, pos + 92);
        let normal_romctrl = u32_at(data, pos + 96);
        let key1_romctrl = u32_at(data, pos + 100);
        let icon_title_offset = u32_at(data, pos + 104);
        let secure_area_checksum = u16_at(data, pos + 108);
        let secure_area_delay = u16_at(data, pos + 110);
        let arm9_auto_load_hook_addr = u32_at(data, pos + 112);
        let arm7_auto_load_hook_addr = u32_at(data, pos + 116);
        let secure_area_disable = read_array::<8>(data, pos + 120);
        let total_used_rom_size = u32_at(data, pos + 128);
        let rom_header_size = u32_at(data, pos + 132);
        let _reserved_2 = read_array::<12>(data, pos + 136);
        let nand_rom_end = u16_at(data, pos + 148);
        let nand_rw_start = u16_at(data, pos + 150);
        let _reserved_3 = read_array::<40>(data, pos + 152);
        let nintendo_logo = read_array::<156>(data, pos + 192);
        let nintendo_logo_checksum = u16_at(data, pos + 348);
        let header_checksum = u16_at(data, pos + 350);
        let debug_rom_offset = u32_at(data, pos + 352);
        let debug_size = u32_at(data, pos + 356);
        let debug_ram_address = u32_at(data, pos + 360);
        let _reserved_4 = read_array::<4>(data, pos + 364);
        let _reserved_5 = read_array::<144>(data, pos + 368);
        let _reserved_6 = read_array::<3584>(data, pos + 512);
        Ok(NdsHeader {
            game_title,
            game_code,
            maker_code,
            unit_code,
            encryption_seed_select,
            device_capacity,
            _reserved_1,
            dsi_flags,
            nds_region_or_dsi_permit,
            rom_version,
            autostart,
            arm9_offset,
            arm9_entry_address,
            arm9_ram_address,
            arm9_size,
            arm7_offset,
            arm7_entry_address,
            arm7_ram_address,
            arm7_size,
            fnt_offset,
            fnt_size,
            fat_offset,
            fat_size,
            arm9_overlay_offset,
            arm9_overlay_size,
            arm7_overlay_offset,
            arm7_overlay_size,
            normal_romctrl,
            key1_romctrl,
            icon_title_offset,
            secure_area_checksum,
            secure_area_delay,
            arm9_auto_load_hook_addr,
            arm7_auto_load_hook_addr,
            secure_area_disable,
            total_used_rom_size,
            rom_header_size,
            _reserved_2,
            nand_rom_end,
            nand_rw_start,
            _reserved_3,
            nintendo_logo,
            nintendo_logo_checksum,
            header_checksum,
            debug_rom_offset,
            debug_size,
            debug_ram_address,
            _reserved_4,
            _reserved_5,
            _reserved_6
        })
    }

    /// The capacity of the cartridge chip in bytes: 128 KiB shifted left by the capacity field.
    pub fn chip_size(&self) -> (r: usize)
        requires
            (self.device_capacity as u32) < usize::BITS,
        ensures
            r == (131072usize << (self.device_capacity as usize)),
            131072 * vstd::arithmetic::power2::pow2(self.device_capacity as nat) <= usize::MAX
                ==> r == 131072 * vstd::arithmetic::power2::pow2(self.device_capacity as nat),
    {
        let base: usize = 128 * 1024;
        let shift = self.device_capacity as usize;
        proof {
            if 131072 * vstd::arithmetic::power2::pow2(shift as nat) <= usize::MAX {
                vstd::bits::lemma_usize_shl_is_mul(base, shift);
            }
        }
        base << shift
    }

    pub fn is_skip_press_button(&self) -> (r: bool)
        ensures
            r == (self.autostart & 0x04 != 0),
    {
        self.autostart & 0x04 != 0
    }
}

} // verus!
