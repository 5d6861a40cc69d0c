//! Identity of the files that signed provenance binds.

use vstd::prelude::*;
use crate::digest::{digest, digest_text};

verus! {

/// One file of a snapshot: its bytes and whether it is executable.
#[derive(Debug, Clone)]
pub struct File {
    pub bytes: Vec<u8>,
    pub executable: bool,
}

/// What provenance records of a file: its digest, size and mode.
#[derive(Debug, Clone)]
pub struct ProvenanceFileIdentity {
    pub digest: String,
    pub bytes: usize,
    pub executable: bool,
}

/// The identity of `file`.
pub fn file_identity(file: &File) -> (res: ProvenanceFileIdentity)
    ensures
        res.digest@ == digest_text(file.bytes@),
        res.bytes == file.bytes@.len(),
        res.executable == file.executable,
{
    ProvenanceFileIdentity {
        digest: digest(file.bytes.as_slice()),
        bytes: file.bytes.len(),
        executable: file.executable,
    }
}

} // verus!
