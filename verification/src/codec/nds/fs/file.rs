//! Files of a DS file system: the same types serve the ROM reader and the newer views.
pub use crate::nds::fs::file::{NdsFile, NdsFileData};
