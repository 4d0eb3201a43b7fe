pub mod fmt;
pub mod platform;
pub mod rom;
