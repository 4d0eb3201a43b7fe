pub mod formats;
pub mod fs;
pub mod rom;
