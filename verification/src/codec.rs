pub mod common;
pub mod nds;
