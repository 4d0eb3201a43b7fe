//! Reading a run of bytes at an absolute position.
use crate::codec::common::rom::{IoError, RomReadError};
use crate::rw::bytes::{bytes_at, read_bytes};
use vstd::prelude::*;

verus! {

/// Reads `len` bytes at `offset`: nothing to read always succeeds; otherwise the bytes must
/// all lie inside `data`.
pub fn read_blob(data: &[u8], offset: u64, len: usize) -> (r: Result<Vec<u8>, RomReadError>)
    ensures
        r is Ok <==> bytes_at(data@, offset as int, len as int) is Some,
        r matches Ok(v) ==> bytes_at(data@, offset as int, len as int) == Some(v@),
        r matches Err(e) ==> e == RomReadError::Io(IoError::UnexpectedEof),
{
    if len == 0 {
        return Ok(Vec::new());
    }
    if offset > data.len() as u64 {
        return Err(RomReadError::Io(IoError::UnexpectedEof));
    }
    match read_bytes(data, offset as usize, len) {
        Some(v) => Ok(v),
        None => Err(RomReadError::Io(IoError::UnexpectedEof)),
    }
}

} // verus!
