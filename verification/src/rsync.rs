//! Signatures, deltas and patches in the rsync format, computed by the
//! `librsync` crate on whole files held in memory.

use vstd::prelude::*;

verus! {

/// The error of the `librsync` crate, carried through without a look
/// inside.
#[verifier::external_type_specification]
#[verifier::external_body]
pub struct ExRsyncError(librsync::Error);

/// Why a signature, a delta or a patch could not be computed.
#[derive(Debug, Clone, Copy, PartialEq, Eq, Structural)]
pub enum RsyncError {
    /// The file's signature could not be computed.
    Signature,
    /// The signature is not one, or the delta could not be computed.
    Delta,
    /// The delta is not one, or does not fit the file.
    Patch,
}

/// The signature that `librsync` computes of a file with its default
/// settings, where it computes one.
pub uninterp spec fn rsync_signature(data: Seq<u8>) -> Option<Seq<u8>>;

/// The delta that `librsync` computes between a new file and the
/// signature of a base, where it computes one.
pub uninterp spec fn rsync_delta(new: Seq<u8>, base_signature: Seq<u8>) -> Option<Seq<u8>>;

/// The file that `librsync` writes when it applies a delta to a base,
/// where the delta can be applied.
pub uninterp spec fn rsync_patch(base: Seq<u8>, delta: Seq<u8>) -> Option<Seq<u8>>;

/// `librsync::whole::signature` on a file in memory.
#[verifier::external_body]
fn whole_signature(data: &[u8]) -> (r: Result<Vec<u8>, librsync::Error>)
    ensures
        match r {
            Ok(signature) => rsync_signature(data@) == Some(signature@),
            Err(_) => rsync_signature(data@) is None,
        },
{
    let mut input = data;
    let mut signature = Vec::<u8>::new();
    librsync::whole::signature(&mut input, &mut signature).map(|_| signature)
}

/// `librsync::whole::delta` on a file and a signature in memory.
#[verifier::external_body]
fn whole_delta(new: &[u8], base_signature: &[u8]) -> (r: Result<Vec<u8>, librsync::Error>)
    ensures
        match r {
            Ok(delta) => rsync_delta(new@, base_signature@) == Some(delta@),
            Err(_) => rsync_delta(new@, base_signature@) is None,
        },
{
    let mut input = new;
    let mut signature = base_signature;
    let mut delta = Vec::<u8>::new();
    librsync::whole::delta(&mut input, &mut signature, &mut delta).map(|_| delta)
}

/// `librsync::whole::patch` on a file and a delta in memory.
#[verifier::external_body]
fn whole_patch(base: &[u8], delta: &[u8]) -> (r: Result<Vec<u8>, librsync::Error>)
    ensures
        match r {
            Ok(out) => rsync_patch(base@, delta@) == Some(out@),
            Err(_) => rsync_patch(base@, delta@) is None,
        },
{
    let mut input = std::io::Cursor::new(base);
    let mut steps = delta;
    let mut out = Vec::<u8>::new();
    librsync::whole::patch(&mut input, &mut steps, &mut out).map(|_| out)
}

/// The result of one of the computations, with the library's own error.
pub open spec fn outcome(computed: Option<Seq<u8>>, failure: RsyncError) -> Result<Seq<u8>, RsyncError> {
    match computed {
        Some(bytes) => Ok(bytes),
        None => Err(failure),
    }
}

/// The bytes of a result.
pub open spec fn bytes_view(r: Result<Vec<u8>, RsyncError>) -> Result<Seq<u8>, RsyncError> {
    match r {
        Ok(bytes) => Ok(bytes@),
        Err(e) => Err(e),
    }
}

/// The signature of a file.
pub fn create_signature(data: &[u8]) -> (r: Result<Vec<u8>, RsyncError>)
    ensures
        bytes_view(r) == outcome(rsync_signature(data@), RsyncError::Signature),
{
    match whole_signature(data) {
        Ok(signature) => Ok(signature),
        Err(_) => Err(RsyncError::Signature),
    }
}

/// The delta that leads from the file with the signature `old_sig` to the
/// file `new`.
pub fn calculate_delta(new: &[u8], old_sig: &[u8]) -> (r: Result<Vec<u8>, RsyncError>)
    ensures
        bytes_view(r) == outcome(rsync_delta(new@, old_sig@), RsyncError::Delta),
{
    match whole_delta(new, old_sig) {
        Ok(delta) => Ok(delta),
        Err(_) => Err(RsyncError::Delta),
    }
}

/// The file that the delta makes of the file `old`.
pub fn apply_patch(old: &[u8], dlt: &[u8]) -> (r: Result<Vec<u8>, RsyncError>)
    ensures
        bytes_view(r) == outcome(rsync_patch(old@, dlt@), RsyncError::Patch),
{
    match whole_patch(old, dlt) {
        Ok(out) => Ok(out),
        Err(_) => Err(RsyncError::Patch),
    }
}

} // verus!
