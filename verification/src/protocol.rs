//! The messages between agents and the broker's relay, and the manifest
//! that describes a folder's content.

use vstd::prelude::*;
use crate::delta::Delta;
use crate::file_metadata::{FileMetadata, FileMetadataView};
use crate::hashing::{ContentHash, Signature, SignatureView};
use crate::relative_path::RelativePath;

verus! {

/// A folder's identity: the 128 bits of its UUID.
pub type FolderId = u128;

/// The number that the broker gives an operation.
pub type OperationId = u64;

/// One change to a folder's content.
#[derive(Debug)]
pub enum FileOperation {
    Delete { path: RelativePath },
    CreateDir { path: RelativePath },
    Rename { from: RelativePath, to: RelativePath },
    /// A whole file in one message.
    WriteFile { path: RelativePath, content: Vec<u8>, metadata: FileMetadata, hash: ContentHash },
    /// One message of a transfer in chunks.
    ChunkedTransfer(ChunkedTransferOp),
    /// One message of a transfer by delta.
    DeltaSync(DeltaSyncOp),
}

/// The messages of a transfer in chunks; `id` is the sender's number for
/// the transfer.
#[derive(Debug)]
pub enum ChunkedTransferOp {
    Start { id: u64, total_size: u64, chunk_size: u64 },
    Chunk { id: u64, index: u64, data: Vec<u8> },
    End { id: u64, path: RelativePath, hash: ContentHash, metadata: FileMetadata },
    Abort { id: u64, reason: String },
}

/// The messages of a transfer by delta.
#[derive(Debug)]
pub enum DeltaSyncOp {
    RequestSignature { path: RelativePath },
    RequestDelta { path: RelativePath, signature: Signature },
    ApplyDelta { path: RelativePath, delta: Delta, hash: ContentHash },
}

/// What the relay asks of an agent's folder.
#[derive(Debug)]
pub enum FolderOperation {
    /// Reserved.
    Init { folder_id: FolderId },
    Operation { folder_id: FolderId, operation: FileOperation, operation_id: OperationId },
    RequestSync { folder_id: FolderId },
}

/// What an agent's folder answers.
#[derive(Debug)]
pub enum FolderResponse {
    SyncManifest(SyncManifest),
    Signature { path: RelativePath, signature: Signature, hash: ContentHash },
    Delta { id: u64, path: RelativePath, delta: Delta, hash: ContentHash },
}

/// A message from an agent.
#[derive(Debug)]
pub enum ClientMessage {
    Control(ControlMessage),
    FolderOperation(FolderOperation),
    FolderResponse(FolderResponse),
    Ack { operation_id: OperationId },
    Error { operation_id: OperationId, message: String },
}

/// A message to an agent.
#[derive(Debug)]
pub enum ServerMessage {
    Hello(Handshake),
    Control(ControlMessage),
    FolderOperation(FolderOperation),
    FolderResponse(FolderResponse),
    Ack { operation_id: OperationId },
    Error { operation_id: OperationId, message: String },
}

/// The first message of a connection.
#[derive(Debug)]
pub struct Handshake {
    pub protocol_version: u64,
    pub capabilities: Vec<String>,
}

/// Keep-alive and flow control. `Pause` and `Resume` are hints from a
/// backup that cannot keep up.
#[derive(Debug, Clone, Copy, PartialEq, Eq, Structural)]
pub enum ControlMessage {
    Ping(u64),
    Pong(u64),
    Pause,
    Resume,
}

/// One file of a manifest.
#[derive(Debug)]
pub struct FileEntry {
    pub hash: ContentHash,
    pub metadata: FileMetadata,
    pub chunks: Signature,
}

/// The mathematical value of a [`FileEntry`].
pub struct FileEntryView {
    pub hash: Seq<u8>,
    pub metadata: FileMetadataView,
    pub chunks: SignatureView,
}

impl View for FileEntry {
    type V = FileEntryView;

    open spec fn view(&self) -> FileEntryView {
        FileEntryView { hash: self.hash@, metadata: self.metadata@, chunks: self.chunks@ }
    }
}

impl Clone for FileEntry {
    fn clone(&self) -> (r: Self)
        ensures
            r@ == self@,
    {
        FileEntry {
            hash: self.hash,
            metadata: self.metadata.clone(),
            chunks: self.chunks.duplicate(),
        }
    }
}

/// A path of a manifest with its entry.
#[derive(Debug)]
pub struct ManifestItem {
    pub path: RelativePath,
    pub entry: FileEntry,
}

/// The files of a manifest: at most one entry for a path.
#[derive(Debug)]
pub struct ManifestFiles {
    items: Vec<ManifestItem>,
}

/// The map that a list of items stands for; where a path occurs twice, the
/// later item counts.
pub open spec fn items_map(items: Seq<ManifestItem>) -> Map<Seq<char>, FileEntryView>
    decreases items.len(),
{
    if items.len() == 0 {
        Map::empty()
    } else {
        items_map(items.drop_last()).insert(items.last().path@, items.last().entry@)
    }
}

/// Whether no path occurs twice.
pub open spec fn distinct_paths(items: Seq<ManifestItem>) -> bool {
    forall|i: int, j: int|
        0 <= i < j < items.len() ==> (#[trigger] items[i]).path@ != (#[trigger] items[j]).path@
}

proof fn lemma_items_map_dom(items: Seq<ManifestItem>)
    ensures
        forall|p: Seq<char>|
            items_map(items).dom().contains(p) <==> exists|i: int|
                0 <= i < items.len() && (#[trigger] items[i]).path@ == p,
        items_map(items).dom().finite(),
    decreases items.len(),
{
    if items.len() > 0 {
        let front = items.drop_last();
        lemma_items_map_dom(front);
        assert forall|p: Seq<char>|
            items_map(items).dom().contains(p) <==> exists|i: int|
                0 <= i < items.len() && (#[trigger] items[i]).path@ == p by {
            if items_map(items).dom().contains(p) {
                if p == items.last().path@ {
                    assert(items[items.len() - 1].path@ == p);
                } else {
                    let i = choose|i: int| 0 <= i < front.len() && (#[trigger] front[i]).path@ == p;
                    assert(items[i].path@ == p);
                }
            }
            if exists|i: int| 0 <= i < items.len() && (#[trigger] items[i]).path@ == p {
                let i = choose|i: int| 0 <= i < items.len() && (#[trigger] items[i]).path@ == p;
                if i < front.len() {
                    assert(front[i].path@ == p);
                }
            }
        }
    }
}

proof fn lemma_items_map_at(items: Seq<ManifestItem>, i: int)
    requires
        distinct_paths(items),
        0 <= i < items.len(),
    ensures
        items_map(items).dom().contains(items[i].path@),
        items_map(items)[items[i].path@] == items[i].entry@,
    decreases items.len(),
{
    let front = items.drop_last();
    if i < items.len() - 1 {
        assert(distinct_paths(front)) by {
            assert forall|a: int, b: int| 0 <= a < b < front.len() implies (#[trigger] front[a]).path@
                != (#[trigger] front[b]).path@ by {
                assert(front[a] == items[a] && front[b] == items[b]);
            }
        }
        lemma_items_map_at(front, i);
        assert(items[i].path@ != items[items.len() - 1].path@);
        assert(front[i] == items[i]);
    }
}

proof fn lemma_items_map_len(items: Seq<ManifestItem>)
    requires
        distinct_paths(items),
    ensures
        items_map(items).dom().finite(),
        items_map(items).dom().len() == items.len(),
    decreases items.len(),
{
    lemma_items_map_dom(items);
    if items.len() > 0 {
        let front = items.drop_last();
        assert(distinct_paths(front)) by {
            assert forall|a: int, b: int| 0 <= a < b < front.len() implies (#[trigger] front[a]).path@
                != (#[trigger] front[b]).path@ by {
                assert(front[a] == items[a] && front[b] == items[b]);
            }
        }
        lemma_items_map_len(front);
        lemma_items_map_dom(front);
        assert(!items_map(front).dom().contains(items.last().path@)) by {
            if items_map(front).dom().contains(items.last().path@) {
                let i = choose|i: int|
                    0 <= i < front.len() && (#[trigger] front[i]).path@ == items.last().path@;
                assert(front[i] == items[i]);
                assert(items[i].path@ != items[items.len() - 1].path@);
            }
        }
        assert(items_map(items).dom() =~= items_map(front).dom().insert(items.last().path@));
    } else {
        assert(items_map(items).dom() =~= Set::<Seq<char>>::empty());
    }
}

proof fn lemma_items_map_update(items: Seq<ManifestItem>, i: int, item: ManifestItem)
    requires
        0 <= i < items.len(),
        distinct_paths(items),
        item.path@ == items[i].path@,
    ensures
        distinct_paths(items.update(i, item)),
        items_map(items.update(i, item)) == items_map(items).insert(item.path@, item.entry@),
    decreases items.len(),
{
    let changed = items.update(i, item);
    assert(distinct_paths(changed)) by {
        assert forall|a: int, b: int| 0 <= a < b < changed.len() implies (#[trigger] changed[a]).path@
            != (#[trigger] changed[b]).path@ by {
            assert(items[a].path@ != items[b].path@);
        }
    }
    let front = items.drop_last();
    if i == items.len() - 1 {
        assert(changed.drop_last() =~= front);
        assert(items_map(changed) =~= items_map(items).insert(item.path@, item.entry@));
    } else {
        assert(distinct_paths(front)) by {
            assert forall|a: int, b: int| 0 <= a < b < front.len() implies (#[trigger] front[a]).path@
                != (#[trigger] front[b]).path@ by {
                assert(front[a] == items[a] && front[b] == items[b]);
            }
        }
        lemma_items_map_update(front, i, item);
        assert(changed.drop_last() =~= front.update(i, item));
        assert(changed.last() == items.last());
        assert(items[i].path@ != items[items.len() - 1].path@);
        assert(items_map(changed) =~= items_map(items).insert(item.path@, item.entry@));
    }
}

impl View for ManifestFiles {
    type V = Map<Seq<char>, FileEntryView>;

    closed spec fn view(&self) -> Map<Seq<char>, FileEntryView> {
        items_map(self.items@)
    }
}

impl ManifestFiles {
    #[verifier::type_invariant]
    closed spec fn distinct(self) -> bool {
        distinct_paths(self.items@)
    }

    /// No files.
    pub fn new() -> (r: Self)
        ensures
            r@ == Map::<Seq<char>, FileEntryView>::empty(),
    {
        ManifestFiles { items: Vec::new() }
    }

    fn position(&self, path: &RelativePath) -> (r: Option<usize>)
        ensures
            match r {
                Some(i) => i < self.items@.len() && self.items@[i as int].path@ == path@,
                None => forall|j: int|
                    0 <= j < self.items@.len() ==> (#[trigger] self.items@[j]).path@ != path@,
            },
    {
        let mut i: usize = 0;
        while i < self.items.len()
            invariant
                i <= self.items.len(),
                forall|j: int| 0 <= j < i ==> (#[trigger] self.items@[j]).path@ != path@,
            decreases self.items.len() - i,
        {
            if self.items[i].path == *path {
                return Some(i);
            }
            i += 1;
        }
        None
    }

    /// The number of files.
    pub fn len(&self) -> (r: usize)
        ensures
            self@.dom().finite(),
            r == self@.dom().len(),
    {
        proof {
            use_type_invariant(self);
            lemma_items_map_len(self.items@);
        }
        self.items.len()
    }

    /// Whether there is no file.
    pub fn is_empty(&self) -> (r: bool)
        ensures
            r == (self@.dom().len() == 0),
            self@.dom().finite(),
    {
        self.len() == 0
    }

    /// Whether the manifest holds the path.
    pub fn contains_key(&self, path: &RelativePath) -> (r: bool)
        ensures
            r == self@.dom().contains(path@),
    {
        proof {
            lemma_items_map_dom(self.items@);
        }
        self.position(path).is_some()
    }

    /// The entry of a path, if the manifest holds it.
    pub fn get(&self, path: &RelativePath) -> (r: Option<&FileEntry>)
        ensures
            match r {
                Some(entry) => self@.dom().contains(path@) && self@[path@] == entry@,
                None => !self@.dom().contains(path@),
            },
    {
        proof {
            use_type_invariant(self);
            lemma_items_map_dom(self.items@);
        }
        match self.position(path) {
            Some(i) => {
                proof {
                    lemma_items_map_at(self.items@, i as int);
                }
                Some(&self.items[i].entry)
            },
            None => None,
        }
    }

    /// Puts an entry under a path, in place of the one that was there.
    /// Returns whether the path was new.
    pub fn insert(&mut self, path: RelativePath, entry: FileEntry) -> (fresh: bool)
        ensures
            final(self)@ == old(self)@.insert(path@, entry@),
            fresh == !old(self)@.dom().contains(path@),
    {
        proof {
            use_type_invariant(&*self);
            lemma_items_map_dom(self.items@);
        }
        let found = self.position(&path);
        let item = ManifestItem { path, entry };
        let mut items: Vec<ManifestItem> = Vec::new();
        std::mem::swap(&mut items, &mut self.items);
        let fresh = match found {
            Some(i) => {
                proof {
                    lemma_items_map_update(items@, i as int, item);
                }
                items.set(i, item);
                false
            },
            None => {
                let ghost before = items@;
                items.push(item);
                proof {
                    assert(items@.drop_last() =~= before);
                    assert(distinct_paths(items@)) by {
                        assert forall|a: int, b: int| 0 <= a < b < items@.len() implies (
                        #[trigger] items@[a]).path@ != (#[trigger] items@[b]).path@ by {
                            if b < before.len() {
                                assert(before[a].path@ != before[b].path@);
                            } else {
                                assert(before[a].path@ != item.path@);
                            }
                        }
                    }
                }
                true
            },
        };
        self.items = items;
        fresh
    }

    /// The paths and entries, in the order in which the paths came in.
    pub fn items(&self) -> (r: &Vec<ManifestItem>)
        ensures
            items_map(r@) == self@,
            distinct_paths(r@),
    {
        proof {
            use_type_invariant(self);
        }
        &self.items
    }
}

/// A snapshot of a folder's files. `version` and `timestamp` are advisory.
#[derive(Debug)]
pub struct SyncManifest {
    pub folder_id: FolderId,
    pub version: u64,
    pub timestamp: i64,
    pub files: ManifestFiles,
    pub total_size: u64,
    pub file_count: u64,
}

} // verus!
