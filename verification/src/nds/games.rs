pub mod dpp;
pub mod hgss;
