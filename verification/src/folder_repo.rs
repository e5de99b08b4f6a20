//! The folders of one agent, by their identity.

use std::collections::HashMap;
use vstd::prelude::*;
use crate::folder::{
    is_operation_outcome, scanned_count, scanned_size, with_scanned, DiskContext, Folder,
    FolderAction, FolderError, FolderView, ScannedFile,
};
use crate::protocol::{FileEntryView, FolderId, FolderOperation, SyncManifest};

verus! {

/// The chunk size of a manifest where none is asked for: one mebibyte.
pub const DEFAULT_CHUNK_SIZE: u64 = 1024 * 1024;

/// The folders of one agent.
#[derive(Debug)]
pub struct FolderRepo {
    folders: HashMap<FolderId, Folder>,
}

impl View for FolderRepo {
    type V = Map<FolderId, FolderView>;

    closed spec fn view(&self) -> Map<FolderId, FolderView> {
        self.folders@.map_values(|f: Folder| f@)
    }
}

/// What the caller has to do for an operation on one of the folders.
#[derive(Debug)]
pub enum RepoStep {
    /// Carry out the action on the folder's disk.
    Act { folder_id: FolderId, action: FolderAction },
    /// Scan the folder and answer with `generate_manifest`.
    Scan { folder_id: FolderId },
}

/// What an operation on the folders leads to, and what it does to them.
pub open spec fn is_repo_outcome(
    operation: FolderOperation,
    context: DiskContext,
    r: Result<RepoStep, FolderError>,
    before: Map<FolderId, FolderView>,
    after: Map<FolderId, FolderView>,
) -> bool {
    match operation {
        FolderOperation::Init { folder_id } => false,
        FolderOperation::Operation { folder_id, operation, operation_id } => {
            if before.dom().contains(folder_id) {
                &&& after.dom() == before.dom()
                &&& forall|other: FolderId|
                    other != folder_id && before.dom().contains(other) ==> after[other]
                        == before[other]
                &&& after[folder_id].id == before[folder_id].id
                &&& after[folder_id].name == before[folder_id].name
                &&& after[folder_id].root == before[folder_id].root
                &&& match r {
                    Ok(RepoStep::Act { folder_id: told, action }) => told == folder_id
                        && is_operation_outcome(
                        operation,
                        context,
                        Ok(action),
                        before[folder_id].transfers,
                        after[folder_id].transfers,
                    ),
                    Ok(_) => false,
                    Err(e) => is_operation_outcome(
                        operation,
                        context,
                        Err(e),
                        before[folder_id].transfers,
                        after[folder_id].transfers,
                    ),
                }
            } else {
                &&& after == before
                &&& r matches Err(FolderError::FolderNotFound { folder_id: told }) && told
                    == folder_id
            }
        },
        FolderOperation::RequestSync { folder_id } => {
            &&& after == before
            &&& if before.dom().contains(folder_id) {
                r matches Ok(RepoStep::Scan { folder_id: told }) && told == folder_id
            } else {
                r matches Err(FolderError::FolderNotFound { folder_id: told }) && told == folder_id
            }
        },
    }
}

impl FolderRepo {
    /// No folders.
    pub fn new() -> (r: Self)
        ensures
            r@ == Map::<FolderId, FolderView>::empty(),
    {
        let r = FolderRepo { folders: HashMap::new() };
        proof {
            assert(r@ =~= Map::<FolderId, FolderView>::empty());
        }
        r
    }

    /// Puts a folder under an identity and returns the one that was there.
    pub fn insert(&mut self, folder_id: FolderId, folder: Folder) -> (r: Option<Folder>)
        ensures
            final(self)@ == old(self)@.insert(folder_id, folder@),
            match r {
                Some(was) => old(self)@.dom().contains(folder_id) && was@ == old(self)@[folder_id],
                None => !old(self)@.dom().contains(folder_id),
            },
    {
        let r = self.folders.insert(folder_id, folder);
        proof {
            assert(self@ =~= old(self)@.insert(folder_id, folder@));
        }
        r
    }

    /// Takes the folder with the identity out and returns it.
    pub fn remove(&mut self, folder_id: &FolderId) -> (r: Option<Folder>)
        ensures
            final(self)@ == old(self)@.remove(*folder_id),
            match r {
                Some(was) => old(self)@.dom().contains(*folder_id) && was@ == old(self)@[*folder_id],
                None => !old(self)@.dom().contains(*folder_id),
            },
    {
        let r = self.folders.remove(folder_id);
        proof {
            assert(self@ =~= old(self)@.remove(*folder_id));
        }
        r
    }

    /// Hands an operation to the folder it names. `Init` is reserved and
    /// must not be sent.
    pub fn process_operation(&mut self, operation: FolderOperation, context: &DiskContext) -> (r:
        Result<RepoStep, FolderError>)
        requires
            !(operation is Init),
        ensures
            is_repo_outcome(operation, *context, r, old(self)@, final(self)@),
    {
        match operation {
            FolderOperation::Init { folder_id } => Err(FolderError::FolderNotFound { folder_id }),
            FolderOperation::Operation { folder_id, operation, operation_id } => {
                match self.folders.remove(&folder_id) {
                    None => {
                        proof {
                            assert(self@ =~= old(self)@);
                        }
                        Err(FolderError::FolderNotFound { folder_id })
                    },
                    Some(folder) => {
                        let mut folder = folder;
                        let outcome = folder.process_operation(operation, context);
                        self.folders.insert(folder_id, folder);
                        proof {
                            assert(self@.dom() =~= old(self)@.dom());
                        }
                        match outcome {
                            Ok(action) => Ok(RepoStep::Act { folder_id, action }),
                            Err(e) => Err(e),
                        }
                    },
                }
            },
            FolderOperation::RequestSync { folder_id } => {
                if self.folders.contains_key(&folder_id) {
                    Ok(RepoStep::Scan { folder_id })
                } else {
                    Err(FolderError::FolderNotFound { folder_id })
                }
            },
        }
    }

    /// The manifest of what a scan of the folder found, with chunks of
    /// one mebibyte.
    pub fn generate_manifest(&self, folder_id: &FolderId, scanned: &Vec<ScannedFile>) -> (r: Result<
        SyncManifest,
        FolderError,
    >)
        ensures
            is_manifest_outcome(r, self@, *folder_id, scanned@, DEFAULT_CHUNK_SIZE),
    {
        self.generate_manifest_with_chunk_size(folder_id, scanned, DEFAULT_CHUNK_SIZE)
    }

    /// The manifest of what a scan of the folder found.
    pub fn generate_manifest_with_chunk_size(
        &self,
        folder_id: &FolderId,
        scanned: &Vec<ScannedFile>,
        chunk_size: u64,
    ) -> (r: Result<SyncManifest, FolderError>)
        requires
            chunk_size > 0,
        ensures
            is_manifest_outcome(r, self@, *folder_id, scanned@, chunk_size),
    {
        match self.folders.get(folder_id) {
            None => Err(FolderError::FolderNotFound { folder_id: *folder_id }),
            Some(folder) => folder.generate_manifest(scanned, chunk_size),
        }
    }
}

/// What asking for a manifest leads to: a failure where the folder is not
/// known or the totals do not fit; else the manifest of the scanned
/// entries.
pub open spec fn is_manifest_outcome(
    r: Result<SyncManifest, FolderError>,
    folders: Map<FolderId, FolderView>,
    folder_id: FolderId,
    scanned: Seq<ScannedFile>,
    chunk_size: u64,
) -> bool {
    if !folders.dom().contains(folder_id) {
        r matches Err(FolderError::FolderNotFound { folder_id: told }) && told == folder_id
    } else if scanned_size(scanned) > u64::MAX || scanned_count(scanned) > u64::MAX {
        r matches Err(FolderError::SizeOverflow)
    } else {
        r matches Ok(m) && m.folder_id == folders[folder_id].id && m.version == 1 && m.files@
            == with_scanned(Map::<Seq<char>, FileEntryView>::empty(), scanned, chunk_size)
            && m.total_size == scanned_size(scanned) && m.file_count == scanned_count(scanned)
    }
}

impl Default for FolderRepo {
    fn default() -> (r: Self)
        ensures
            r@ == Map::<FolderId, FolderView>::empty(),
    {
        Self::new()
    }
}

} // verus!
