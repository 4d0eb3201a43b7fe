pub mod formats;
pub mod fs;
pub mod games;
pub mod rom;
