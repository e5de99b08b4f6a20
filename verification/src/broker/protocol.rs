//! The records that the broker keeps and the messages it exchanges with
//! agents.

use std::path::PathBuf;
use vstd::prelude::*;
use crate::text::{clone_strings, view_all};

verus! {

/// The id of a user.
pub type UserId = String;

/// The id of a computer.
pub type ComputerId = String;

/// The id of a folder.
pub type FolderId = String;

/// A computer that a user has registered.
#[derive(Debug)]
pub struct Computer {
    pub id: ComputerId,
    pub name: String,
    pub online: bool,
}

/// The mathematical value of a [`Computer`].
pub struct ComputerView {
    pub id: Seq<char>,
    pub name: Seq<char>,
    pub online: bool,
}

impl View for Computer {
    type V = ComputerView;

    open spec fn view(&self) -> ComputerView {
        ComputerView { id: self.id@, name: self.name@, online: self.online }
    }
}

impl Clone for Computer {
    fn clone(&self) -> (r: Self)
        ensures
            r@ == self@,
    {
        Computer { id: self.id.clone(), name: self.name.clone(), online: self.online }
    }
}

/// A folder that is replicated: one origin, which alone may change it, and
/// the backups that follow.
#[derive(Debug)]
pub struct SyncFolder {
    pub id: FolderId,
    pub name: String,
    pub origin_computer: ComputerId,
    pub backup_computers: Vec<ComputerId>,
    pub is_synced: bool,
    pub pending_operations: u64,
}

/// The mathematical value of a [`SyncFolder`].
pub struct SyncFolderView {
    pub id: Seq<char>,
    pub name: Seq<char>,
    pub origin_computer: Seq<char>,
    pub backup_computers: Seq<Seq<char>>,
    pub is_synced: bool,
    pub pending_operations: u64,
}

impl View for SyncFolder {
    type V = SyncFolderView;

    open spec fn view(&self) -> SyncFolderView {
        SyncFolderView {
            id: self.id@,
            name: self.name@,
            origin_computer: self.origin_computer@,
            backup_computers: view_all(self.backup_computers@),
            is_synced: self.is_synced,
            pending_operations: self.pending_operations,
        }
    }
}

impl Clone for SyncFolder {
    fn clone(&self) -> (r: Self)
        ensures
            r@ == self@,
    {
        SyncFolder {
            id: self.id.clone(),
            name: self.name.clone(),
            origin_computer: self.origin_computer.clone(),
            backup_computers: clone_strings(&self.backup_computers),
            is_synced: self.is_synced,
            pending_operations: self.pending_operations,
        }
    }
}

/// A user with the computers and folders that belong to them.
#[derive(Debug)]
pub struct User {
    pub id: UserId,
    pub name: String,
    pub computers: Vec<Computer>,
    pub sync_folders: Vec<SyncFolder>,
}

/// The mathematical value of a [`User`].
pub struct UserView {
    pub id: Seq<char>,
    pub name: Seq<char>,
    pub computers: Seq<ComputerView>,
    pub sync_folders: Seq<SyncFolderView>,
}

impl View for User {
    type V = UserView;

    open spec fn view(&self) -> UserView {
        UserView {
            id: self.id@,
            name: self.name@,
            computers: view_all(self.computers@),
            sync_folders: view_all(self.sync_folders@),
        }
    }
}

impl Clone for User {
    fn clone(&self) -> (r: Self)
        ensures
            r@ == self@,
    {
        let mut computers: Vec<Computer> = Vec::new();
        let mut i: usize = 0;
        while i < self.computers.len()
            invariant
                i <= self.computers.len(),
                computers.len() == i,
                forall|j: int| 0 <= j < i ==> computers@[j]@ == self.computers@[j]@,
            decreases self.computers.len() - i,
        {
            computers.push(self.computers[i].clone());
            i += 1;
        }
        let mut sync_folders: Vec<SyncFolder> = Vec::new();
        let mut k: usize = 0;
        while k < self.sync_folders.len()
            invariant
                k <= self.sync_folders.len(),
                sync_folders.len() == k,
                forall|j: int| 0 <= j < k ==> sync_folders@[j]@ == self.sync_folders@[j]@,
            decreases self.sync_folders.len() - k,
        {
            sync_folders.push(self.sync_folders[k].clone());
            k += 1;
        }
        proof {
            assert(view_all(computers@) =~= view_all(self.computers@));
            assert(view_all(sync_folders@) =~= view_all(self.sync_folders@));
        }
        User { id: self.id.clone(), name: self.name.clone(), computers, sync_folders }
    }
}

/// A change to a folder as agents send it through the broker. The broker
/// passes it on without a look inside.
#[derive(Debug)]
pub enum FileOperation {
    CreateFile { relative_path: PathBuf, content: Vec<u8> },
    CreateDir { relative_path: PathBuf },
    RemoveFile { relative_path: PathBuf },
    RemoveDir { relative_path: PathBuf },
    RenameFile { from_relative: PathBuf, to_relative: PathBuf },
    ApplyDelta { relative_path: PathBuf, delta: Vec<u8> },
    RequestSignature { relative_path: PathBuf },
    SignatureResponse { relative_path: PathBuf, signature: Vec<u8> },
}

/// A message from an agent to the broker.
#[derive(Debug)]
pub enum ClientMessage {
    Authenticate { user_id: UserId, computer_id: ComputerId },
    RegisterComputer { name: String },
    CreateSyncFolder { name: String },
    JoinSyncFolder { folder_id: FolderId },
    LeaveSyncFolder { folder_id: FolderId },
    RequestOriginSwitch { folder_id: FolderId },
    FolderOperation { folder_id: FolderId, operation: FileOperation },
    Ack { operation_id: u64 },
    RequestFullSync { folder_id: FolderId },
    GetUserState,
}

/// A message from the broker to an agent.
#[derive(Debug)]
pub enum ServerMessage {
    Welcome,
    Authenticated { user: User },
    ComputerRegistered { computer: Computer },
    SyncFolderCreated { folder: SyncFolder },
    JoinedSyncFolder { folder: SyncFolder },
    LeftSyncFolder { folder_id: FolderId },
    OriginSwitched { folder_id: FolderId, new_origin: ComputerId },
    OriginSwitchDenied { folder_id: FolderId, reason: String },
    FolderOperation { folder_id: FolderId, operation_id: u64, operation: FileOperation },
    OperationComplete { operation_id: u64 },
    SyncStatusChanged { folder_id: FolderId, is_synced: bool, pending_operations: u64 },
    UserState { user: User },
    Error { message: String },
}

} // verus!
