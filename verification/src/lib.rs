//! Reading and decoding Nintendo DS ROM images and the formats found inside them.
pub mod codec;
pub mod compression;
pub mod gfx;
pub mod nds;
pub mod platform;
pub mod rw;
pub mod text;
