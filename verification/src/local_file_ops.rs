//! What the local mirror computes from the content of files.

use vstd::prelude::*;
use crate::hashing::{blake3_of, ContentHash};
use crate::rsync::{
    apply_patch, bytes_view, calculate_delta, create_signature, outcome, rsync_delta, rsync_patch,
    rsync_signature, RsyncError,
};

verus! {

/// The computations of the local mirror on files held in memory.
#[derive(Debug, Clone, Copy)]
pub struct LocalFileOps;

impl LocalFileOps {
    /// The new content of a backup file: what the delta makes of the old
    /// content. The caller replaces the file's content by it.
    pub fn handle_original_modified_apply_delta(old_content: &[u8], dlt: &[u8]) -> (r: Result<
        Vec<u8>,
        RsyncError,
    >)
        ensures
            bytes_view(r) == outcome(rsync_patch(old_content@, dlt@), RsyncError::Patch),
    {
        apply_patch(old_content, dlt)
    }

    /// The new content of a backup file, accepted only if it has the hash
    /// of the original's content. A patch that leads elsewhere fails, and
    /// the backup stays as it is.
    pub fn apply_delta_verified(old_content: &[u8], dlt: &[u8], expected: &ContentHash) -> (r:
        Result<Vec<u8>, RsyncError>)
        ensures
            match r {
                Ok(new) => rsync_patch(old_content@, dlt@) == Some(new@) && blake3_of(new@)
                    == expected@,
                Err(e) => e == RsyncError::Patch && !(rsync_patch(old_content@, dlt@) matches Some(
                    new,
                ) && blake3_of(new) == expected@),
            },
    {
        match apply_patch(old_content, dlt) {
            Err(e) => Err(e),
            Ok(new) => {
                if ContentHash::of(new.as_slice()) == *expected {
                    Ok(new)
                } else {
                    Err(RsyncError::Patch)
                }
            },
        }
    }

    /// The signature of a file's content.
    pub fn create_signature(content: &[u8]) -> (r: Result<Vec<u8>, RsyncError>)
        ensures
            bytes_view(r) == outcome(rsync_signature(content@), RsyncError::Signature),
    {
        create_signature(content)
    }

    /// The delta that leads from the file with the signature `old_sig` to
    /// the file with the given content.
    pub fn calculate_delta(old_sig: &[u8], content: &[u8]) -> (r: Result<Vec<u8>, RsyncError>)
        ensures
            bytes_view(r) == outcome(rsync_delta(content@, old_sig@), RsyncError::Delta),
    {
        calculate_delta(content, old_sig)
    }
}

} // verus!
