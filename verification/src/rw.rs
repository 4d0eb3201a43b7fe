pub mod blob;
pub mod bytes;
pub mod nds_dict;
pub mod zero_padded_string;
