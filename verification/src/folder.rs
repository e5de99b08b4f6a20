//! One replicated directory on one agent: what each incoming operation
//! asks of the disk, and the state of the transfers that arrive in chunks.
//!
//! The folder never touches the disk itself. Each operation yields a
//! [`FolderAction`] for the caller to carry out; where the state of a
//! transfer changes only once the disk has been written, the caller reports
//! back through the function that the action names.

use std::collections::{HashMap, HashSet};
use std::path::PathBuf;
use vstd::prelude::*;
use crate::delta::Delta;
use crate::file_metadata::{FileMetadata, FileMetadataView, FileType, Timestamp};
use crate::hashing::{blake3_of, chunk_count, signature_of, ContentHash, Signature};
use crate::protocol::{
    ChunkedTransferOp, DeltaSyncOp, FileEntry, FileEntryView, FileOperation, FolderId,
    ManifestFiles, SyncManifest,
};
use crate::relative_path::{windows_safe, RelativePath};
use crate::text::{
    append_chars, append_number, append_text, decimal_chars, decimal_of, from_chars,
    lemma_split_nonempty, split, split_chars, to_chars, view_all,
};

verus! {

/// Why an operation on a folder failed.
#[derive(Debug)]
pub enum FolderError {
    /// The file to rename does not exist.
    NotFound { path: RelativePath },
    /// The content does not have the hash that was announced.
    HashMismatch { expected: ContentHash, actual: ContentHash },
    /// A chunk came for a transfer that was never started.
    TransferNotStarted { id: u64 },
    /// The end came for a transfer that is not there.
    TransferNotFound { id: u64 },
    /// The place of a chunk does not fit 64 bits.
    OffsetOverflow { id: u64, index: u64 },
    /// The sizes of the files do not add up in 64 bits.
    SizeOverflow,
    /// No folder has this identity.
    FolderNotFound { folder_id: FolderId },
    /// A transfer was announced with chunks of no bytes.
    InvalidChunkSize { id: u64 },
}

/// What a failed operation says.
pub open spec fn folder_error_text(e: FolderError) -> Seq<char> {
    match e {
        FolderError::NotFound { path } => "File not found: "@ + path@,
        FolderError::HashMismatch { expected, actual } => "Hash mismatch: expected "@
            + crate::hashing::hex_of(expected@) + ", got "@ + crate::hashing::hex_of(actual@),
        FolderError::TransferNotStarted { id } => "Transfer not started"@,
        FolderError::TransferNotFound { id } => "Transfer state not found for id: "@ + decimal_of(
            id as nat,
        ),
        FolderError::OffsetOverflow { id, index } => "Chunk "@ + decimal_of(index as nat)
            + " of transfer "@ + decimal_of(id as nat) + " lies beyond what a file can hold"@,
        FolderError::SizeOverflow => "The sizes of the files do not add up"@,
        FolderError::FolderNotFound { folder_id } => "Folder not found"@,
        FolderError::InvalidChunkSize { id } => "Transfer "@ + decimal_of(id as nat)
            + " was announced with chunks of no bytes"@,
    }
}

impl FolderError {
    /// What the failed operation says.
    pub fn message(&self) -> (r: String)
        ensures
            r@ == folder_error_text(*self),
    {
        match self {
            FolderError::NotFound { path } => {
                let mut out = to_chars("File not found: ");
                append_text(&mut out, path.as_str());
                from_chars(&out)
            },
            FolderError::HashMismatch { expected, actual } => {
                let mut out = to_chars("Hash mismatch: expected ");
                let first = expected.to_hex();
                append_text(&mut out, first.as_str());
                append_text(&mut out, ", got ");
                let second = actual.to_hex();
                append_text(&mut out, second.as_str());
                from_chars(&out)
            },
            FolderError::TransferNotStarted { id } => "Transfer not started".to_owned(),
            FolderError::TransferNotFound { id } => {
                let mut out = to_chars("Transfer state not found for id: ");
                append_number(&mut out, *id);
                from_chars(&out)
            },
            FolderError::OffsetOverflow { id, index } => {
                let mut out = to_chars("Chunk ");
                append_number(&mut out, *index);
                append_text(&mut out, " of transfer ");
                append_number(&mut out, *id);
                append_text(&mut out, " lies beyond what a file can hold");
                from_chars(&out)
            },
            FolderError::SizeOverflow => "The sizes of the files do not add up".to_owned(),
            FolderError::FolderNotFound { folder_id } => "Folder not found".to_owned(),
            FolderError::InvalidChunkSize { id } => {
                let mut out = to_chars("Transfer ");
                append_number(&mut out, *id);
                append_text(&mut out, " was announced with chunks of no bytes");
                from_chars(&out)
            },
        }
    }
}

/// What is found at a path on disk.
#[derive(Debug, Clone, Copy, PartialEq, Eq, Structural)]
pub enum PathState {
    Absent,
    Directory,
    Other,
}

/// What the caller has found out about the disk and the platform before it
/// hands an operation to the folder.
#[derive(Debug)]
pub struct DiskContext {
    /// What is at the path of a `Delete`, or whether the source of a
    /// `Rename` exists.
    pub target: PathState,
    /// Whether the destination of a `Rename` exists.
    pub destination_exists: bool,
    /// Whether native paths are written the Windows way.
    pub windows: bool,
    /// The current time as text, for the name of a conflict copy.
    pub stamp: String,
}

/// What the caller has to do on disk.
#[derive(Debug)]
pub enum FolderAction {
    /// Nothing.
    Nothing,
    /// Remove a directory with all that is in it.
    RemoveDirAll { path: RelativePath },
    /// Remove a file.
    RemoveFile { path: RelativePath },
    /// Create one directory; its parent must exist.
    CreateDir { path: RelativePath },
    /// Rename `from` to `to`; with a conflict name, to that name beside `to`.
    Rename { from: RelativePath, to: RelativePath, conflict_name: Option<String> },
    /// Write the file in one step and apply the metadata.
    WriteFile { path: RelativePath, content: Vec<u8>, metadata: FileMetadata },
    /// Create the transfer's temporary file anew with `total_size` bytes,
    /// then report with `handle_start`.
    PrepareTemp { id: u64, total_size: u64, chunk_size: u64 },
    /// Write the data into the temporary file at the offset and make it
    /// durable, then report with `handle_chunk`.
    WriteChunk { id: u64, index: u64, offset: u64, data: Vec<u8> },
    /// Read the temporary file and check it with `handle_end_internal`;
    /// if that accepts, move it to `path`, apply the metadata and report
    /// with `finish_transfer`; else remove it.
    Commit { id: u64, path: RelativePath, hash: ContentHash, metadata: FileMetadata },
    /// Remove the transfer's temporary file, if there is one.
    RemoveTemp { id: u64 },
    /// Read the file, apply the delta with `Delta::apply_verified` and write
    /// what comes out.
    Patch { path: RelativePath, delta: Delta, hash: ContentHash },
    /// Read the file and answer with its signature.
    SendSignature { path: RelativePath },
    /// Read the file and answer with its delta against the signature.
    SendDelta { path: RelativePath, signature: Signature },
}

/// The end of a transfer that came before its last chunk.
#[derive(Debug)]
pub struct PendingEnd {
    pub path: RelativePath,
    pub hash: ContentHash,
    pub metadata: FileMetadata,
}

/// The mathematical value of a [`PendingEnd`].
pub struct PendingEndView {
    pub path: Seq<char>,
    pub hash: Seq<u8>,
    pub metadata: FileMetadataView,
}

impl View for PendingEnd {
    type V = PendingEndView;

    open spec fn view(&self) -> PendingEndView {
        PendingEndView { path: self.path@, hash: self.hash@, metadata: self.metadata@ }
    }
}

impl Clone for PendingEnd {
    fn clone(&self) -> (r: Self)
        ensures
            r@ == self@,
    {
        PendingEnd {
            path: self.path.clone(),
            hash: self.hash,
            metadata: self.metadata.clone(),
        }
    }
}

/// The state of one transfer in chunks.
#[derive(Debug)]
pub struct TransferState {
    total_chunks: u64,
    chunk_size: u64,
    received_chunks: HashSet<u64>,
    pending_end: Option<PendingEnd>,
}

/// The mathematical value of a [`TransferState`].
pub struct TransferView {
    pub total_chunks: u64,
    pub chunk_size: u64,
    pub received: Set<u64>,
    pub pending_end: Option<PendingEndView>,
}

/// The value of an optional pending end.
pub open spec fn pending_view(p: Option<PendingEnd>) -> Option<PendingEndView> {
    match p {
        Some(end) => Some(end@),
        None => None,
    }
}

impl View for TransferState {
    type V = TransferView;

    closed spec fn view(&self) -> TransferView {
        TransferView {
            total_chunks: self.total_chunks,
            chunk_size: self.chunk_size,
            received: self.received_chunks@,
            pending_end: pending_view(self.pending_end),
        }
    }
}

/// A transfer right after its start: no chunk received, no end pending.
pub open spec fn started(total_size: u64, chunk_size: u64) -> TransferView {
    TransferView {
        total_chunks: chunk_count(total_size as int, chunk_size as int) as u64,
        chunk_size,
        received: Set::<u64>::empty(),
        pending_end: None,
    }
}

/// Whether every chunk of the transfer has been received: as many
/// different indices as the transfer has chunks.
pub open spec fn complete(t: TransferView) -> bool {
    t.received.len() == t.total_chunks
}

/// One replicated directory.
#[derive(Debug)]
pub struct Folder {
    id: FolderId,
    name: String,
    path: PathBuf,
    transfer_states: HashMap<u64, TransferState>,
}

/// The mathematical value of a [`Folder`]: its identity, its root on disk
/// and the transfers under way.
pub struct FolderView {
    pub id: FolderId,
    pub name: Seq<char>,
    pub root: PathBuf,
    pub transfers: Map<u64, TransferView>,
}

impl View for Folder {
    type V = FolderView;

    closed spec fn view(&self) -> FolderView {
        FolderView {
            id: self.id,
            name: self.name@,
            root: self.path,
            transfers: self.transfer_states@.map_values(|t: TransferState| t@),
        }
    }
}

/// The name of the directory, below the system's temporary directory,
/// that holds the temporary files of all folders.
pub open spec fn temp_root_name() -> Seq<char> {
    seq![
        'b', 'a', 'c', 'k', 'u', 'p', '_', 's', 'y', 'n', 'c', '_', 't', 'e', 'm', 'p', '_', 'd',
        'i', 'r',
    ]
}

/// The sixteen bytes of a folder's identity, the most significant first.
pub open spec fn id_bytes(id: u128) -> Seq<u8> {
    Seq::new(16, |i: int| ((id as int / vstd::arithmetic::power::pow(256, (15 - i) as nat)) % 256) as u8)
}

/// A folder's identity as text: lower-case hexadecimal digits in groups
/// of 8, 4, 4, 4 and 12 with hyphens between them.
pub open spec fn id_text(id: u128) -> Seq<char> {
    let digits = crate::hashing::hex_of(id_bytes(id));
    digits.subrange(0, 8) + seq!['-'] + digits.subrange(8, 12) + seq!['-'] + digits.subrange(12, 16)
        + seq!['-'] + digits.subrange(16, 20) + seq!['-'] + digits.subrange(20, 32)
}

/// The name of a transfer's temporary file: its number and `.tmp`.
pub open spec fn temp_file_name(id: u64) -> Seq<char> {
    decimal_of(id as nat) + seq!['.', 't', 'm', 'p']
}

/// `uuid::Uuid::from_u128` and its `Display`: the identity in the
/// hyphenated lower-case form.
#[verifier::external_body]
fn show_id(id: u128) -> (r: String)
    ensures
        r@ == id_text(id),
{
    uuid::Uuid::from_u128(id).to_string()
}

/// The last piece of a native path: what stands after the last separator.
pub open spec fn native_file_name(path: Seq<char>, windows: bool) -> Seq<char> {
    if windows {
        split(windows_safe(path), '\\').last()
    } else {
        split(path, '/').last()
    }
}

/// The name of the conflict copy of a file named `name`, made at the time
/// that `stamp` shows.
pub open spec fn conflict_name(name: Seq<char>, stamp: Seq<char>) -> Seq<char> {
    name + seq!['_'] + stamp + seq!['_', 'c', 'o', 'n', 'f', 'l', 'i', 'c', 't']
}

/// What `Delete` asks of the disk: nothing where nothing is there.
pub open spec fn is_delete_action(action: FolderAction, path: Seq<char>, state: PathState) -> bool {
    match state {
        PathState::Absent => action is Nothing,
        PathState::Directory => action matches FolderAction::RemoveDirAll { path: p } && p@ == path,
        PathState::Other => action matches FolderAction::RemoveFile { path: p } && p@ == path,
    }
}

/// What `Rename` asks of the disk, or why it fails.
pub open spec fn is_rename_outcome(
    r: Result<FolderAction, FolderError>,
    from: Seq<char>,
    to: Seq<char>,
    context: DiskContext,
) -> bool {
    if context.target == PathState::Absent {
        r matches Err(FolderError::NotFound { path }) && path@ == from
    } else {
        r matches Ok(FolderAction::Rename { from: f, to: t, conflict_name: c }) && f@ == from && t@
            == to && (if context.destination_exists {
            c matches Some(name) && name@ == conflict_name(
                native_file_name(to, context.windows),
                context.stamp@,
            )
        } else {
            c is None
        })
    }
}

/// What `WriteFile` asks of the disk, or why it fails.
pub open spec fn is_write_outcome(
    r: Result<FolderAction, FolderError>,
    path: Seq<char>,
    content: Seq<u8>,
    metadata: FileMetadataView,
    hash: Seq<u8>,
) -> bool {
    if blake3_of(content) == hash {
        r matches Ok(FolderAction::WriteFile { path: p, content: c, metadata: m }) && p@ == path
            && c@ == content && m@ == metadata
    } else {
        r matches Err(FolderError::HashMismatch { expected, actual }) && expected@ == hash
            && actual@ == blake3_of(content)
    }
}

/// Where a chunk goes in the temporary file, or why it cannot be taken.
pub open spec fn chunk_place(transfers: Map<u64, TransferView>, id: u64, index: u64) -> Result<
    u64,
    (),
> {
    if !transfers.dom().contains(id) || index * transfers[id].chunk_size > u64::MAX {
        Err(())
    } else {
        Ok((index * transfers[id].chunk_size) as u64)
    }
}

/// What a `Chunk` message asks of the disk, or why it fails.
pub open spec fn is_chunk_outcome(
    r: Result<FolderAction, FolderError>,
    transfers: Map<u64, TransferView>,
    id: u64,
    index: u64,
    data: Seq<u8>,
) -> bool {
    if !transfers.dom().contains(id) {
        r matches Err(FolderError::TransferNotStarted { id: i }) && i == id
    } else if index * transfers[id].chunk_size > u64::MAX {
        r matches Err(FolderError::OffsetOverflow { id: i, index: x }) && i == id && x == index
    } else {
        r matches Ok(FolderAction::WriteChunk { id: i, index: x, offset, data: d }) && i == id && x
            == index && offset == index * transfers[id].chunk_size && d@ == data
    }
}

/// The transfers after a chunk has been written: its index counts as
/// received. Nothing changes where the transfer is gone.
pub open spec fn after_chunk(transfers: Map<u64, TransferView>, id: u64, index: u64) -> Map<
    u64,
    TransferView,
> {
    if transfers.dom().contains(id) {
        transfers.insert(
            id,
            TransferView { received: transfers[id].received.insert(index), ..transfers[id] },
        )
    } else {
        transfers
    }
}

/// Whether an action is the commit of the given pending end.
pub open spec fn is_commit(action: FolderAction, id: u64, end: PendingEndView) -> bool {
    action matches FolderAction::Commit { id: i, path, hash, metadata } && i == id && path@
        == end.path && hash@ == end.hash && metadata@ == end.metadata
}

/// What follows a written chunk: the commit, where the end is pending and
/// this chunk was the last one missing; else nothing.
pub open spec fn is_after_chunk_action(
    action: FolderAction,
    transfers: Map<u64, TransferView>,
    id: u64,
    index: u64,
) -> bool {
    let now = after_chunk(transfers, id, index);
    if transfers.dom().contains(id) && now[id].pending_end is Some && complete(now[id]) {
        is_commit(action, id, now[id].pending_end->0)
    } else {
        action is Nothing
    }
}

/// The transfers after an `End` message: where chunks are missing, the end
/// is kept for later; else nothing changes.
pub open spec fn after_end(transfers: Map<u64, TransferView>, id: u64, end: PendingEndView) -> Map<
    u64,
    TransferView,
> {
    if transfers.dom().contains(id) && !complete(transfers[id]) {
        transfers.insert(id, TransferView { pending_end: Some(end), ..transfers[id] })
    } else {
        transfers
    }
}

/// What an `End` message leads to: the commit where every chunk is there,
/// nothing where chunks are missing, a failure where the transfer is not
/// known.
pub open spec fn is_end_outcome(
    r: Result<FolderAction, FolderError>,
    transfers: Map<u64, TransferView>,
    id: u64,
    end: PendingEndView,
) -> bool {
    if !transfers.dom().contains(id) {
        r matches Err(FolderError::TransferNotFound { id: i }) && i == id
    } else if complete(transfers[id]) {
        r matches Ok(action) && is_commit(action, id, end)
    } else {
        r matches Ok(FolderAction::Nothing)
    }
}

proof fn lemma_div_ceil(total: int, size: int)
    requires
        0 <= total,
        0 < size,
    ensures
        chunk_count(total, size) == total / size + (if total % size == 0 {
            0int
        } else {
            1int
        }),
        chunk_count(total, size) <= total,
        size > 1 && total % size != 0 ==> total / size < total,
{
    let q = total / size;
    let r = total % size;
    vstd::arithmetic::div_mod::lemma_fundamental_div_mod(total, size);
    assert(total == size * q + r);
    assert(0 <= r < size);
    if r == 0 {
        assert(total + size - 1 == q * size + (size - 1)) by (nonlinear_arith)
            requires
                total == size * q + r,
                r == 0,
        ;
        vstd::arithmetic::div_mod::lemma_fundamental_div_mod_converse(
            total + size - 1,
            size,
            q,
            size - 1,
        );
    } else {
        assert(total + size - 1 == (q + 1) * size + (r - 1)) by (nonlinear_arith)
            requires
                total == size * q + r,
        ;
        vstd::arithmetic::div_mod::lemma_fundamental_div_mod_converse(
            total + size - 1,
            size,
            q + 1,
            r - 1,
        );
    }
    assert(q >= 0) by (nonlinear_arith)
        requires
            total == size * q + r,
            0 <= r < size,
            0 <= total,
            0 < size,
    ;
    assert(q + (if r == 0 {
        0int
    } else {
        1int
    }) <= total) by (nonlinear_arith)
        requires
            total == size * q + r,
            0 <= r < size,
            0 < size,
            q >= 0,
    ;
    if size > 1 && r != 0 {
        assert(q < total) by (nonlinear_arith)
            requires
                total == size * q + r,
                0 < r,
                1 < size,
                q >= 0,
        ;
    }
}

impl Folder {
    /// A folder with no transfer under way.
    pub fn new(id: FolderId, name: String, path: PathBuf) -> (r: Self)
        ensures
            r@ == (FolderView {
                id,
                name: name@,
                root: path,
                transfers: Map::<u64, TransferView>::empty(),
            }),
    {
        let r = Folder { id, name, path, transfer_states: HashMap::new() };
        proof {
            assert(r@.transfers =~= Map::<u64, TransferView>::empty());
        }
        r
    }

    pub fn id(&self) -> (r: &FolderId)
        ensures
            *r == self@.id,
    {
        &self.id
    }

    pub fn name(&self) -> (r: &str)
        ensures
            r@ == self@.name,
    {
        self.name.as_str()
    }

    /// The folder's root on disk: the path that the folder was made with.
    pub fn path(&self) -> (r: &PathBuf)
        ensures
            *r == self@.root,
    {
        &self.path
    }

    /// The names that lead from the system's temporary directory to this
    /// folder's temporary files: the common directory and the folder's
    /// identity.
    pub fn temp_folder_path(&self) -> (r: Vec<String>)
        ensures
            view_all(r@) == seq![temp_root_name(), id_text(self@.id)],
    {
        let mut r: Vec<String> = Vec::new();
        let root = "backup_sync_temp_dir";
        proof {
            reveal_strlit("backup_sync_temp_dir");
            assert(root@ =~= temp_root_name());
        }
        r.push(root.to_owned());
        r.push(show_id(self.id));
        proof {
            assert(view_all(r@) =~= seq![temp_root_name(), id_text(self@.id)]);
        }
        r
    }

    /// The names that lead from the system's temporary directory to the
    /// temporary file of a transfer.
    pub fn temp_path_ref(&self, id: u64) -> (r: Vec<String>)
        ensures
            view_all(r@) == seq![temp_root_name(), id_text(self@.id), temp_file_name(id)],
    {
        let mut r = self.temp_folder_path();
        let mut name = decimal_chars(id);
        name.push('.');
        name.push('t');
        name.push('m');
        name.push('p');
        proof {
            assert(name@ =~= temp_file_name(id));
        }
        let ghost before = view_all(r@);
        r.push(from_chars(&name));
        proof {
            assert(view_all(r@) =~= before.push(temp_file_name(id)));
            assert(view_all(r@) =~= seq![temp_root_name(), id_text(self@.id), temp_file_name(id)]);
        }
        r
    }

    /// Whether a transfer with the number is under way.
    pub fn has_transfer(&self, id: u64) -> (r: bool)
        ensures
            r == self@.transfers.dom().contains(id),
    {
        self.transfer_states.contains_key(&id)
    }

    /// The number of transfers under way.
    pub fn transfer_count(&self) -> (r: usize)
        ensures
            r == self@.transfers.dom().len(),
    {
        proof {
            assert(self@.transfers.dom() =~= self.transfer_states@.dom());
        }
        self.transfer_states.len()
    }

    /// What `Delete` asks of the disk, given what is at the path: a
    /// directory goes with all that is in it, anything else is unlinked,
    /// and nothing is done where nothing is there.
    pub fn process_delete(&self, path: &RelativePath, state: PathState) -> (r: FolderAction)
        ensures
            is_delete_action(r, path@, state),
    {
        match state {
            PathState::Absent => FolderAction::Nothing,
            PathState::Directory => FolderAction::RemoveDirAll { path: path.clone() },
            PathState::Other => FolderAction::RemoveFile { path: path.clone() },
        }
    }

    /// What `CreateDir` asks of the disk.
    pub fn process_create_dir(&self, path: &RelativePath) -> (r: FolderAction)
        ensures
            r matches FolderAction::CreateDir { path: p } && p@ == path@,
    {
        FolderAction::CreateDir { path: path.clone() }
    }

    /// What `Rename` asks of the disk. A source that is not there fails;
    /// where the destination exists, the incoming file gets the name of a
    /// conflict copy beside it.
    pub fn process_rename(&self, from: &RelativePath, to: &RelativePath, context: &DiskContext) -> (r:
        Result<FolderAction, FolderError>)
        ensures
            is_rename_outcome(r, from@, to@, *context),
    {
        if context.target == PathState::Absent {
            return Err(FolderError::NotFound { path: from.clone() });
        }
        let conflict = if context.destination_exists {
            let native = to.native_string_for(context.windows);
            let chars = to_chars(native.as_str());
            let separator = if context.windows {
                '\\'
            } else {
                '/'
            };
            let pieces = split_chars(&chars, separator);
            proof {
                lemma_split_nonempty(chars@, separator);
                assert(view_all(pieces@).last() == pieces@.last()@);
            }
            let mut name: Vec<char> = Vec::new();
            append_chars(&mut name, &pieces[pieces.len() - 1]);
            name.push('_');
            let stamp = to_chars(context.stamp.as_str());
            append_chars(&mut name, &stamp);
            let tail = to_chars("_conflict");
            proof {
                reveal_strlit("_conflict");
                assert(tail@ =~= seq!['_', 'c', 'o', 'n', 'f', 'l', 'i', 'c', 't']);
            }
            append_chars(&mut name, &tail);
            proof {
                assert(name@ =~= conflict_name(native_file_name(to@, context.windows), context.stamp@));
            }
            Some(from_chars(&name))
        } else {
            None
        };
        Ok(FolderAction::Rename { from: from.clone(), to: to.clone(), conflict_name: conflict })
    }

    /// What `WriteFile` asks of the disk: the write, where the content has
    /// the hash announced; else a failure, and nothing is written.
    pub fn process_write_file(
        &self,
        path: &RelativePath,
        content: Vec<u8>,
        metadata: &FileMetadata,
        hash: ContentHash,
    ) -> (r: Result<FolderAction, FolderError>)
        ensures
            is_write_outcome(r, path@, content@, metadata@, hash@),
    {
        let actual = ContentHash::of(content.as_slice());
        if actual != hash {
            return Err(FolderError::HashMismatch { expected: hash, actual });
        }
        Ok(FolderAction::WriteFile { path: path.clone(), content, metadata: metadata.clone() })
    }

    /// Records a transfer whose temporary file has been prepared. A
    /// transfer that was there under the same number is started over. A
    /// transfer in chunks of no bytes is refused, and nothing changes.
    pub fn handle_start(&mut self, id: u64, total_size: u64, chunk_size: u64) -> (r: Result<
        (),
        FolderError,
    >)
        ensures
            chunk_size == 0 ==> final(self)@ == old(self)@ && (r matches Err(
                FolderError::InvalidChunkSize { id: i },
            ) && i == id),
            chunk_size > 0 ==> r is Ok && final(self)@ == (FolderView {
                transfers: old(self)@.transfers.insert(id, started(total_size, chunk_size)),
                ..old(self)@
            }),
    {
        if chunk_size == 0 {
            return Err(FolderError::InvalidChunkSize { id });
        }
        proof {
            lemma_div_ceil(total_size as int, chunk_size as int);
        }
        let total_chunks = if total_size % chunk_size == 0 {
            total_size / chunk_size
        } else {
            total_size / chunk_size + 1
        };
        let state = TransferState {
            total_chunks,
            chunk_size,
            received_chunks: HashSet::new(),
            pending_end: None,
        };
        proof {
            assert(state@ == started(total_size, chunk_size));
        }
        self.transfer_states.insert(id, state);
        proof {
            assert(self@.transfers =~= old(self)@.transfers.insert(
                id,
                started(total_size, chunk_size),
            ));
        }
        Ok(())
    }

    /// Where the chunk with the given index goes in the temporary file of
    /// a transfer: at `index` times the chunk size.
    pub fn chunk_offset(&self, id: u64, index: u64) -> (r: Result<u64, FolderError>)
        ensures
            match r {
                Ok(offset) => chunk_place(self@.transfers, id, index) == Ok::<u64, ()>(offset),
                Err(e) => chunk_place(self@.transfers, id, index) is Err && (if self@.transfers.dom().contains(
                    id,
                ) {
                    e matches FolderError::OffsetOverflow { id: i, index: x } && i == id && x
                        == index
                } else {
                    e matches FolderError::TransferNotStarted { id: i } && i == id
                }),
            },
    {
        match self.transfer_states.get(&id) {
            None => Err(FolderError::TransferNotStarted { id }),
            Some(state) => match index.checked_mul(state.chunk_size) {
                Some(offset) => Ok(offset),
                None => Err(FolderError::OffsetOverflow { id, index }),
            },
        }
    }

    /// Records a chunk that has been written to the temporary file. Where
    /// the end of the transfer is pending and this was the last chunk
    /// missing, the commit follows.
    pub fn handle_chunk(&mut self, id: u64, index: u64) -> (r: FolderAction)
        ensures
            final(self)@ == (FolderView {
                transfers: after_chunk(old(self)@.transfers, id, index),
                ..old(self)@
            }),
            is_after_chunk_action(r, old(self)@.transfers, id, index),
    {
        match self.transfer_states.remove(&id) {
            None => {
                proof {
                    assert(self@.transfers =~= old(self)@.transfers);
                }
                FolderAction::Nothing
            },
            Some(state) => {
                let mut state = state;
                state.received_chunks.insert(index);
                let all = state.received_chunks.len() as u64 == state.total_chunks;
                let action = match &state.pending_end {
                    Some(end) => if all {
                        FolderAction::Commit {
                            id,
                            path: end.path.clone(),
                            hash: end.hash,
                            metadata: end.metadata.clone(),
                        }
                    } else {
                        FolderAction::Nothing
                    },
                    None => FolderAction::Nothing,
                };
                self.transfer_states.insert(id, state);
                proof {
                    assert(self@.transfers =~= after_chunk(old(self)@.transfers, id, index));
                }
                action
            },
        }
    }

    /// Takes the end of a transfer. Where every chunk is there, the commit
    /// follows at once; where chunks are missing, the end is kept and the
    /// commit follows the last chunk.
    pub fn handle_end(
        &mut self,
        id: u64,
        path: &RelativePath,
        expected_hash: ContentHash,
        metadata: &FileMetadata,
    ) -> (r: Result<FolderAction, FolderError>)
        ensures
            final(self)@ == (FolderView {
                transfers: after_end(
                    old(self)@.transfers,
                    id,
                    PendingEndView { path: path@, hash: expected_hash@, metadata: metadata@ },
                ),
                ..old(self)@
            }),
            is_end_outcome(
                r,
                old(self)@.transfers,
                id,
                PendingEndView { path: path@, hash: expected_hash@, metadata: metadata@ },
            ),
    {
        match self.transfer_states.remove(&id) {
            None => {
                proof {
                    assert(self@.transfers =~= old(self)@.transfers);
                }
                Err(FolderError::TransferNotFound { id })
            },
            Some(state) => {
                let mut state = state;
                let all = state.received_chunks.len() as u64 == state.total_chunks;
                if all {
                    self.transfer_states.insert(id, state);
                    proof {
                        assert(self@.transfers =~= old(self)@.transfers);
                    }
                    Ok(
                        FolderAction::Commit {
                            id,
                            path: path.clone(),
                            hash: expected_hash,
                            metadata: metadata.clone(),
                        },
                    )
                } else {
                    state.pending_end = Some(
                        PendingEnd {
                            path: path.clone(),
                            hash: expected_hash,
                            metadata: metadata.clone(),
                        },
                    );
                    self.transfer_states.insert(id, state);
                    proof {
                        assert(self@.transfers =~= after_end(
                            old(self)@.transfers,
                            id,
                            PendingEndView {
                                path: path@,
                                hash: expected_hash@,
                                metadata: metadata@,
                            },
                        ));
                    }
                    Ok(FolderAction::Nothing)
                }
            },
        }
    }

    /// Checks what the temporary file holds against the hash announced.
    /// Content with that hash is accepted and the transfer stays until the
    /// file is in place; other content fails, and the transfer is dropped.
    pub fn handle_end_internal(&mut self, id: u64, content: &[u8], expected_hash: ContentHash) -> (r:
        Result<(), FolderError>)
        ensures
            r is Ok <==> blake3_of(content@) == expected_hash@,
            r is Ok ==> final(self)@ == old(self)@,
            r matches Err(e) ==> (e matches FolderError::HashMismatch { expected, actual }
                && expected@ == expected_hash@ && actual@ == blake3_of(content@)) && final(self)@
                == (FolderView { transfers: old(self)@.transfers.remove(id), ..old(self)@ }),
    {
        let actual = ContentHash::of(content);
        if actual != expected_hash {
            self.transfer_states.remove(&id);
            proof {
                assert(self@.transfers =~= old(self)@.transfers.remove(id));
            }
            return Err(FolderError::HashMismatch { expected: expected_hash, actual });
        }
        Ok(())
    }

    /// Drops a transfer whose file is in place.
    pub fn finish_transfer(&mut self, id: u64)
        ensures
            final(self)@ == (FolderView {
                transfers: old(self)@.transfers.remove(id),
                ..old(self)@
            }),
    {
        self.transfer_states.remove(&id);
        proof {
            assert(self@.transfers =~= old(self)@.transfers.remove(id));
        }
    }

    /// Drops a transfer and asks for its temporary file to be removed.
    /// Where no such transfer is known, nothing changes.
    pub fn handle_abort(&mut self, id: u64) -> (r: FolderAction)
        ensures
            r matches FolderAction::RemoveTemp { id: i } && i == id,
            final(self)@ == (FolderView {
                transfers: old(self)@.transfers.remove(id),
                ..old(self)@
            }),
            !old(self)@.transfers.dom().contains(id) ==> final(self)@ == old(self)@,
    {
        self.transfer_states.remove(&id);
        proof {
            assert(self@.transfers =~= old(self)@.transfers.remove(id));
            if !old(self)@.transfers.dom().contains(id) {
                assert(old(self)@.transfers.remove(id) =~= old(self)@.transfers);
            }
        }
        FolderAction::RemoveTemp { id }
    }
}


/// What a message of a transfer in chunks leads to, and what it does to
/// the transfers under way.
pub open spec fn is_transfer_outcome(
    op: ChunkedTransferOp,
    r: Result<FolderAction, FolderError>,
    before: Map<u64, TransferView>,
    after: Map<u64, TransferView>,
) -> bool {
    match op {
        ChunkedTransferOp::Start { id, total_size, chunk_size } => {
            &&& if chunk_size == 0 {
                r matches Err(FolderError::InvalidChunkSize { id: i }) && i == id
            } else {
                r matches Ok(FolderAction::PrepareTemp { id: i, total_size: t, chunk_size: c })
                    && i == id && t == total_size && c == chunk_size
            }
            &&& after == before
        },
        ChunkedTransferOp::Chunk { id, index, data } => {
            &&& is_chunk_outcome(r, before, id, index, data@)
            &&& after == before
        },
        ChunkedTransferOp::End { id, path, hash, metadata } => {
            let end = PendingEndView { path: path@, hash: hash@, metadata: metadata@ };
            &&& is_end_outcome(r, before, id, end)
            &&& after == after_end(before, id, end)
        },
        ChunkedTransferOp::Abort { id, reason } => {
            &&& r matches Ok(FolderAction::RemoveTemp { id: i }) && i == id
            &&& after == before.remove(id)
        },
    }
}

/// What a message of a transfer by delta asks of the caller.
pub open spec fn is_delta_action(op: DeltaSyncOp, action: FolderAction) -> bool {
    match op {
        DeltaSyncOp::RequestSignature { path } => action matches FolderAction::SendSignature {
            path: p,
        } && p@ == path@,
        DeltaSyncOp::RequestDelta { path, signature } => action matches FolderAction::SendDelta {
            path: p,
            signature: s,
        } && p@ == path@ && s@ == signature@,
        DeltaSyncOp::ApplyDelta { path, delta, hash } => action matches FolderAction::Patch {
            path: p,
            delta: d,
            hash: h,
        } && p@ == path@ && d.instructions@ == delta.instructions@ && h@ == hash@,
    }
}

/// What an operation leads to, and what it does to the transfers under way.
pub open spec fn is_operation_outcome(
    operation: FileOperation,
    context: DiskContext,
    r: Result<FolderAction, FolderError>,
    before: Map<u64, TransferView>,
    after: Map<u64, TransferView>,
) -> bool {
    match operation {
        FileOperation::Delete { path } => {
            &&& r matches Ok(action) && is_delete_action(action, path@, context.target)
            &&& after == before
        },
        FileOperation::CreateDir { path } => {
            &&& r matches Ok(FolderAction::CreateDir { path: p }) && p@ == path@
            &&& after == before
        },
        FileOperation::Rename { from, to } => {
            &&& is_rename_outcome(r, from@, to@, context)
            &&& after == before
        },
        FileOperation::WriteFile { path, content, metadata, hash } => {
            &&& is_write_outcome(r, path@, content@, metadata@, hash@)
            &&& after == before
        },
        FileOperation::ChunkedTransfer(op) => is_transfer_outcome(op, r, before, after),
        FileOperation::DeltaSync(op) => {
            &&& r matches Ok(action) && is_delta_action(op, action)
            &&& after == before
        },
    }
}

/// One entry that a scan of the folder found: its path, its metadata and,
/// for a file, what it holds.
#[derive(Debug)]
pub struct ScannedFile {
    pub path: RelativePath,
    pub metadata: FileMetadata,
    pub content: Vec<u8>,
}

/// Whether a scanned entry gets an entry in the manifest: a directory
/// does not.
pub open spec fn is_listed(f: ScannedFile) -> bool {
    f.metadata@.file_type != FileType::Directory
}

/// Whether a scanned entry counts for the totals: only a regular file does.
pub open spec fn is_counted(f: ScannedFile) -> bool {
    f.metadata@.file_type == FileType::File
}

/// The manifest entry of a scanned entry.
pub open spec fn entry_of(f: ScannedFile, chunk_size: u64) -> FileEntryView {
    FileEntryView {
        hash: blake3_of(f.content@),
        metadata: f.metadata@,
        chunks: signature_of(f.content@, chunk_size as int),
    }
}

/// The files of a manifest after the scanned entries have been added to
/// `start`, in their order.
pub open spec fn with_scanned(
    start: Map<Seq<char>, FileEntryView>,
    files: Seq<ScannedFile>,
    chunk_size: u64,
) -> Map<Seq<char>, FileEntryView>
    decreases files.len(),
{
    if files.len() == 0 {
        start
    } else {
        let before = with_scanned(start, files.drop_last(), chunk_size);
        if is_listed(files.last()) {
            before.insert(files.last().path@, entry_of(files.last(), chunk_size))
        } else {
            before
        }
    }
}

/// The sizes of the regular files among the scanned entries, added up.
pub open spec fn scanned_size(files: Seq<ScannedFile>) -> int
    decreases files.len(),
{
    if files.len() == 0 {
        0
    } else {
        scanned_size(files.drop_last()) + (if is_counted(files.last()) {
            files.last().metadata@.size as int
        } else {
            0
        })
    }
}

/// The number of regular files among the scanned entries.
pub open spec fn scanned_count(files: Seq<ScannedFile>) -> int
    decreases files.len(),
{
    if files.len() == 0 {
        0
    } else {
        scanned_count(files.drop_last()) + (if is_counted(files.last()) {
            1int
        } else {
            0
        })
    }
}

proof fn lemma_scanned_grow(files: Seq<ScannedFile>, upto: int)
    requires
        0 <= upto <= files.len(),
    ensures
        0 <= scanned_size(files.take(upto)) <= scanned_size(files),
        0 <= scanned_count(files.take(upto)) <= scanned_count(files),
    decreases files.len() - upto,
{
    if upto < files.len() {
        assert(files.take(upto + 1).drop_last() =~= files.take(upto));
        lemma_scanned_grow(files, upto + 1);
        lemma_scanned_nonnegative(files.take(upto));
    } else {
        assert(files.take(upto) =~= files);
        lemma_scanned_nonnegative(files);
    }
}

proof fn lemma_scanned_nonnegative(files: Seq<ScannedFile>)
    ensures
        0 <= scanned_size(files),
        0 <= scanned_count(files),
    decreases files.len(),
{
    if files.len() > 0 {
        lemma_scanned_nonnegative(files.drop_last());
    }
}

/// Two entries with different paths may be found in either order: the
/// manifest is the same.
pub proof fn lemma_scan_order_is_irrelevant(
    start: Map<Seq<char>, FileEntryView>,
    found: Seq<ScannedFile>,
    a: ScannedFile,
    b: ScannedFile,
    chunk_size: u64,
)
    requires
        a.path@ != b.path@,
    ensures
        with_scanned(start, found.push(a).push(b), chunk_size) == with_scanned(
            start,
            found.push(b).push(a),
            chunk_size,
        ),
        scanned_size(found.push(a).push(b)) == scanned_size(found.push(b).push(a)),
        scanned_count(found.push(a).push(b)) == scanned_count(found.push(b).push(a)),
{
    let ab = found.push(a).push(b);
    let ba = found.push(b).push(a);
    assert(ab.drop_last() =~= found.push(a));
    assert(ba.drop_last() =~= found.push(b));
    assert(found.push(a).drop_last() =~= found);
    assert(found.push(b).drop_last() =~= found);
    let base = with_scanned(start, found, chunk_size);
    assert(with_scanned(start, found.push(a), chunk_size) == (if is_listed(a) {
        base.insert(a.path@, entry_of(a, chunk_size))
    } else {
        base
    }));
    assert(with_scanned(start, found.push(b), chunk_size) == (if is_listed(b) {
        base.insert(b.path@, entry_of(b, chunk_size))
    } else {
        base
    }));
    assert(with_scanned(start, ab, chunk_size) =~= with_scanned(start, ba, chunk_size));
    assert(scanned_size(found.push(a)) == scanned_size(found) + (if is_counted(a) {
        a.metadata@.size as int
    } else {
        0
    }));
    assert(scanned_size(found.push(b)) == scanned_size(found) + (if is_counted(b) {
        b.metadata@.size as int
    } else {
        0
    }));
    assert(scanned_count(found.push(a)) == scanned_count(found) + (if is_counted(a) {
        1int
    } else {
        0
    }));
    assert(scanned_count(found.push(b)) == scanned_count(found) + (if is_counted(b) {
        1int
    } else {
        0
    }));
}

/// The chunk indices below `count`.
pub open spec fn indices_below(count: u64) -> Set<u64> {
    Set::new(|i: u64| i < count)
}

/// There are `count` chunk indices below `count`.
pub proof fn lemma_indices_below(count: u64)
    ensures
        indices_below(count).finite(),
        indices_below(count).len() == count,
    decreases count,
{
    if count == 0 {
        assert(indices_below(0) =~= Set::<u64>::empty());
    } else {
        let fewer = (count - 1) as u64;
        lemma_indices_below(fewer);
        assert(indices_below(count) =~= indices_below(fewer).insert(fewer));
    }
}

/// A transfer that has received every chunk index below its number of
/// chunks, and no other, is complete, in whatever order they came.
pub proof fn lemma_all_chunks_complete(t: TransferView)
    requires
        t.received == indices_below(t.total_chunks),
    ensures
        complete(t),
{
    lemma_indices_below(t.total_chunks);
}

/// Two chunks of a transfer may come in either order: what has been
/// received is the same.
pub proof fn lemma_chunk_order_is_irrelevant(
    transfers: Map<u64, TransferView>,
    id: u64,
    first: u64,
    second: u64,
)
    ensures
        after_chunk(after_chunk(transfers, id, first), id, second) == after_chunk(
            after_chunk(transfers, id, second),
            id,
            first,
        ),
{
    if transfers.dom().contains(id) {
        let t = transfers[id];
        assert(t.received.insert(first).insert(second) =~= t.received.insert(second).insert(first));
        assert(after_chunk(after_chunk(transfers, id, first), id, second) =~= after_chunk(
            after_chunk(transfers, id, second),
            id,
            first,
        ));
    }
}

/// An end that comes before the last chunk is kept, and the chunk that
/// completes the transfer brings the commit of that very end.
pub proof fn lemma_early_end_commits_with_last_chunk(
    transfers: Map<u64, TransferView>,
    id: u64,
    end: PendingEndView,
    index: u64,
    action: FolderAction,
)
    requires
        transfers.dom().contains(id),
        !complete(transfers[id]),
        complete(after_chunk(after_end(transfers, id, end), id, index)[id]),
        is_after_chunk_action(action, after_end(transfers, id, end), id, index),
    ensures
        is_commit(action, id, end),
{
}

/// A transfer of no bytes is complete as soon as it has started: its end
/// commits at once, and the file that comes out is empty.
pub proof fn lemma_empty_transfer_is_complete(chunk_size: u64)
    requires
        chunk_size > 0,
    ensures
        complete(started(0, chunk_size)),
        started(0, chunk_size).total_chunks == 0,
{
    lemma_div_ceil(0, chunk_size as int);
}

/// The number of chunks of a transfer: the size divided by the chunk size,
/// rounded up, so that a last short chunk counts as one.
pub proof fn lemma_total_chunks(total_size: u64, chunk_size: u64)
    requires
        chunk_size > 0,
    ensures
        started(total_size, chunk_size).total_chunks == total_size / chunk_size + (if total_size
            % chunk_size == 0 {
            0int
        } else {
            1int
        }),
{
    lemma_div_ceil(total_size as int, chunk_size as int);
}

impl Folder {
    /// What a message of a transfer in chunks leads to. `Start` and `Chunk`
    /// change nothing yet: the caller reports with `handle_start` and
    /// `handle_chunk` once the disk has been written.
    pub fn process_chunked_transfer(&mut self, op: ChunkedTransferOp) -> (r: Result<
        FolderAction,
        FolderError,
    >)
        ensures
            is_transfer_outcome(op, r, old(self)@.transfers, final(self)@.transfers),
            final(self)@.id == old(self)@.id,
            final(self)@.name == old(self)@.name,
            final(self)@.root == old(self)@.root,
    {
        match op {
            ChunkedTransferOp::Start { id, total_size, chunk_size } => if chunk_size == 0 {
                Err(FolderError::InvalidChunkSize { id })
            } else {
                Ok(FolderAction::PrepareTemp { id, total_size, chunk_size })
            },
            ChunkedTransferOp::Chunk { id, index, data } => match self.chunk_offset(id, index) {
                Ok(offset) => Ok(FolderAction::WriteChunk { id, index, offset, data }),
                Err(e) => Err(e),
            },
            ChunkedTransferOp::End { id, path, hash, metadata } => self.handle_end(
                id,
                &path,
                hash,
                &metadata,
            ),
            ChunkedTransferOp::Abort { id, reason } => Ok(self.handle_abort(id)),
        }
    }

    /// What an operation asks of the disk, given what the caller has found
    /// there.
    pub fn process_operation(&mut self, operation: FileOperation, context: &DiskContext) -> (r:
        Result<FolderAction, FolderError>)
        ensures
            is_operation_outcome(
                operation,
                *context,
                r,
                old(self)@.transfers,
                final(self)@.transfers,
            ),
            final(self)@.id == old(self)@.id,
            final(self)@.name == old(self)@.name,
            final(self)@.root == old(self)@.root,
    {
        match operation {
            FileOperation::Delete { path } => Ok(self.process_delete(&path, context.target)),
            FileOperation::CreateDir { path } => Ok(self.process_create_dir(&path)),
            FileOperation::Rename { from, to } => self.process_rename(&from, &to, context),
            FileOperation::WriteFile { path, content, metadata, hash } => self.process_write_file(
                &path,
                content,
                &metadata,
                hash,
            ),
            FileOperation::ChunkedTransfer(op) => self.process_chunked_transfer(op),
            FileOperation::DeltaSync(op) => match op {
                DeltaSyncOp::RequestSignature { path } => Ok(FolderAction::SendSignature { path }),
                DeltaSyncOp::RequestDelta { path, signature } => Ok(
                    FolderAction::SendDelta { path, signature },
                ),
                DeltaSyncOp::ApplyDelta { path, delta, hash } => Ok(
                    FolderAction::Patch { path, delta, hash },
                ),
            },
        }
    }

    /// Adds the scanned entries to a manifest's files and totals. A
    /// directory adds nothing; a symbolic link gets an entry; a regular
    /// file gets an entry and counts for the totals. Fails where the totals
    /// do not fit 64 bits.
    pub fn walk_directory(
        &self,
        scanned: &Vec<ScannedFile>,
        files: &mut ManifestFiles,
        total_size: &mut u64,
        file_count: &mut u64,
        chunk_size: u64,
    ) -> (r: Result<(), FolderError>)
        requires
            chunk_size > 0,
        ensures
            r is Ok <==> *old(total_size) + scanned_size(scanned@) <= u64::MAX && *old(file_count)
                + scanned_count(scanned@) <= u64::MAX,
            r is Ok ==> final(files)@ == with_scanned(old(files)@, scanned@, chunk_size)
                && *final(total_size) == *old(total_size) + scanned_size(scanned@)
                && *final(file_count) == *old(file_count) + scanned_count(scanned@),
            r matches Err(e) ==> e is SizeOverflow,
    {
        let window: usize = if chunk_size > usize::MAX as u64 {
            usize::MAX
        } else {
            chunk_size as usize
        };
        let mut i: usize = 0;
        proof {
            assert(scanned@.take(0) =~= Seq::<ScannedFile>::empty());
        }
        while i < scanned.len()
            invariant
                i <= scanned.len(),
                window > 0,
                window == chunk_size || (chunk_size > usize::MAX && window == usize::MAX),
                files@ == with_scanned(old(files)@, scanned@.take(i as int), chunk_size),
                *total_size == *old(total_size) + scanned_size(scanned@.take(i as int)),
                *file_count == *old(file_count) + scanned_count(scanned@.take(i as int)),
            decreases scanned.len() - i,
        {
            let found = &scanned[i];
            proof {
                assert(scanned@.take(i + 1).drop_last() =~= scanned@.take(i as int));
                assert(scanned@.take(i + 1).last() == *found);
                lemma_scanned_grow(scanned@, i + 1);
            }
            if !found.metadata.is_dir() {
                let content = found.content.as_slice();
                let length = content.len();
                proof {
                    assert(content@.len() == length);
                    assert(signature_of(content@, window as int) == signature_of(
                        content@,
                        chunk_size as int,
                    ));
                }
                let entry = FileEntry {
                    hash: ContentHash::of(content),
                    metadata: found.metadata.clone(),
                    chunks: Signature::compute(content, window),
                };
                proof {
                    assert(entry@ == entry_of(*found, chunk_size));
                }
                files.insert(found.path.clone(), entry);
            }
            if found.metadata.is_file() {
                let size = found.metadata.size();
                if size > u64::MAX - *total_size || *file_count == u64::MAX {
                    return Err(FolderError::SizeOverflow);
                }
                *total_size = *total_size + size;
                *file_count = *file_count + 1;
            }
            i += 1;
        }
        proof {
            assert(scanned@.take(scanned.len() as int) =~= scanned@);
        }
        Ok(())
    }

    /// The manifest of the scanned entries. Its version is 1 and its time
    /// is the clock's; both are advisory.
    pub fn generate_manifest(&self, scanned: &Vec<ScannedFile>, chunk_size: u64) -> (r: Result<
        SyncManifest,
        FolderError,
    >)
        requires
            chunk_size > 0,
        ensures
            r is Ok <==> scanned_size(scanned@) <= u64::MAX && scanned_count(scanned@) <= u64::MAX,
            r matches Ok(m) ==> m.folder_id == self@.id && m.version == 1 && m.files@
                == with_scanned(Map::<Seq<char>, FileEntryView>::empty(), scanned@, chunk_size)
                && m.total_size == scanned_size(scanned@) && m.file_count == scanned_count(
                scanned@,
            ),
            r matches Err(e) ==> e is SizeOverflow,
    {
        let mut files = ManifestFiles::new();
        let mut total_size: u64 = 0;
        let mut file_count: u64 = 0;
        match self.walk_directory(scanned, &mut files, &mut total_size, &mut file_count, chunk_size) {
            Err(e) => Err(e),
            Ok(()) => Ok(
                SyncManifest {
                    folder_id: self.id,
                    version: 1,
                    timestamp: Timestamp::now_utc().unix_timestamp(),
                    files,
                    total_size,
                    file_count,
                },
            ),
        }
    }
}

} // verus!
