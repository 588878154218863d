//! From the file handle of a cgroup directory to the identifier of the
//! cgroup.
//!
//! The operating system encodes the handle of a directory as a byte count,
//! a type tag and the handle itself. For a cgroup directory the handle is
//! eight bytes long and is the identifier of the cgroup: it follows the two
//! four-byte fields. Asking the operating system for the encoding is not
//! done here; a path that it refuses has no identifier.

use vstd::prelude::*;
use crate::record::{DecodeError, FileHandle, length_mismatch, FILE_HANDLE_SIZE};
use crate::wire::le_u64;

verus! {

/// The byte count of the handle of a cgroup directory.
pub const HANDLE_BYTES: u32 = 8;

/// Offset of the identifier in the encoding of a handle.
pub const SCOPE_OFFSET: usize = 8;

/// The identifier by which the instrumentation knows a cgroup.
#[derive(Clone, Copy, Debug, PartialEq, Eq)]
pub struct ScopeId {
    pub raw: u64,
}

/// The empty encoding to hand to the operating system: room for a handle of
/// [`HANDLE_BYTES`] bytes, everything else zero.
pub fn handle_request() -> (request: FileHandle)
    ensures
        request == (FileHandle { handle_bytes: HANDLE_BYTES, handle_type: 0, cgid: 0 }),
{
    FileHandle { handle_bytes: HANDLE_BYTES, handle_type: 0, cgid: 0 }
}

/// The identifier carried by the encoding `encoding` of a file handle: the
/// eight bytes from [`SCOPE_OFFSET`] on. An encoding that is not of
/// [`FILE_HANDLE_SIZE`] bytes is refused.
pub fn scope_id(encoding: &[u8]) -> (result: Result<ScopeId, DecodeError>)
    ensures
        encoding.len() == FILE_HANDLE_SIZE ==> result == Ok::<ScopeId, DecodeError>(
            ScopeId { raw: le_u64(encoding@, SCOPE_OFFSET as int) },
        ),
        encoding.len() != FILE_HANDLE_SIZE ==> result == Err::<ScopeId, DecodeError>(
            length_mismatch(FILE_HANDLE_SIZE, encoding@.len()),
        ),
{
    match FileHandle::decode(encoding) {
        Ok(handle) => Ok(ScopeId { raw: handle.cgid }),
        Err(error) => Err(error),
    }
}

/// The identifier that the operating system stored in a request is read
/// back from the encoding of the request.
pub proof fn lemma_scope_of_handle(handle: FileHandle)
    ensures
        handle.to_bytes().len() == FILE_HANDLE_SIZE,
        le_u64(handle.to_bytes(), SCOPE_OFFSET as int) == handle.cgid,
{
    handle.lemma_encode_then_decode();
}

} // verus!
