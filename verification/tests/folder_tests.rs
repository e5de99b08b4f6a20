use backup_sync::delta::{Delta, DeltaError, DeltaInstruction};
use backup_sync::file_metadata::{FileMetadata, FileType, Permissions, Timestamp};
use backup_sync::folder::{
    DiskContext, Folder, FolderAction, FolderError, PathState, ScannedFile,
};
use backup_sync::folder_repo::{FolderRepo, RepoStep, DEFAULT_CHUNK_SIZE};
use backup_sync::hashing::{ChunkSignature, ContentHash, Signature};
use backup_sync::protocol::{
    ChunkedTransferOp, DeltaSyncOp, FileOperation, FolderOperation,
};
use backup_sync::relative_path::RelativePath;
use std::collections::BTreeMap;
use std::path::PathBuf;

/// An agent that keeps its files in memory and carries out what its
/// folder asks for.
struct Agent {
    folder: Folder,
    temp: BTreeMap<u64, Vec<u8>>,
    files: BTreeMap<String, Vec<u8>>,
}

fn hash(content: &[u8]) -> ContentHash {
    ContentHash::from_bytes(*blake3::hash(content).as_bytes())
}

fn create_test_folder() -> Agent {
    Agent {
        folder: Folder::new(7, "test_folder".to_string(), PathBuf::from("/tmp/test_folder")),
        temp: BTreeMap::new(),
        files: BTreeMap::new(),
    }
}

fn create_dummy_metadata() -> FileMetadata {
    FileMetadata::new(FileType::File, 0, Permissions::default_file(), Timestamp::now_utc())
}

impl Agent {
    fn carry_out(&mut self, action: FolderAction) -> Result<(), FolderError> {
        match action {
            FolderAction::Nothing => Ok(()),
            FolderAction::PrepareTemp { id, total_size, chunk_size } => {
                self.temp.insert(id, vec![0u8; total_size as usize]);
                self.folder.handle_start(id, total_size, chunk_size)
            }
            FolderAction::WriteChunk { id, index, offset, data } => {
                let file = self.temp.get_mut(&id).expect("temporary file");
                let end = offset as usize + data.len();
                if file.len() < end {
                    file.resize(end, 0);
                }
                file[offset as usize..end].copy_from_slice(&data);
                let next = self.folder.handle_chunk(id, index);
                self.carry_out(next)
            }
            FolderAction::Commit { id, path, hash, metadata: _ } => {
                let content = self.temp[&id].clone();
                match self.folder.handle_end_internal(id, &content, hash) {
                    Ok(()) => {
                        self.temp.remove(&id);
                        self.files.insert(path.to_string(), content);
                        self.folder.finish_transfer(id);
                        Ok(())
                    }
                    Err(e) => {
                        self.temp.remove(&id);
                        Err(e)
                    }
                }
            }
            FolderAction::RemoveTemp { id } => {
                self.temp.remove(&id);
                Ok(())
            }
            FolderAction::WriteFile { path, content, metadata: _ } => {
                self.files.insert(path.to_string(), content);
                Ok(())
            }
            FolderAction::RemoveFile { path } => {
                self.files.remove(path.as_str());
                Ok(())
            }
            other => panic!("not carried out here: {:?}", other),
        }
    }

    fn process_chunked_transfer(&mut self, op: ChunkedTransferOp) -> Result<(), FolderError> {
        let action = self.folder.process_chunked_transfer(op)?;
        self.carry_out(action)
    }

    fn exists_at(&self, path: &RelativePath) -> bool {
        self.files.contains_key(path.as_str())
    }
}

fn context(target: PathState, destination_exists: bool) -> DiskContext {
    DiskContext {
        target,
        destination_exists,
        windows: false,
        stamp: "2024-01-01 0:00:00.0 +00:00:00".to_string(),
    }
}

#[test]
fn test_generate_manifest_empty_folder() {
    let agent = create_test_folder();
    let manifest = agent.folder.generate_manifest(&Vec::new(), 1024).unwrap();

    assert_eq!(manifest.files.len(), 0);
    assert_eq!(manifest.total_size, 0);
    assert_eq!(manifest.file_count, 0);
    assert_eq!(manifest.folder_id, 7);
    assert_eq!(manifest.version, 1);
}

fn scanned(path: &str, content: &[u8]) -> ScannedFile {
    ScannedFile {
        path: RelativePath::new(path).unwrap(),
        metadata: FileMetadata::new(
            FileType::File,
            content.len() as u64,
            Permissions::default_file(),
            Timestamp { seconds: 1, nanoseconds: 0 },
        ),
        content: content.to_vec(),
    }
}

#[test]
fn test_generate_manifest_single_file() {
    let agent = create_test_folder();
    let manifest = agent.folder.generate_manifest(&vec![scanned("test.txt", b"Hello World")], 1024).unwrap();

    assert_eq!(manifest.files.len(), 1);
    assert_eq!(manifest.total_size, 11);
    assert_eq!(manifest.file_count, 1);

    let relative_path = RelativePath::new("test.txt").unwrap();
    let entry = manifest.files.get(&relative_path).unwrap();
    assert_eq!(entry.metadata.size(), 11);
    assert_eq!(entry.chunks.chunk_size, 11);
    assert_eq!(entry.hash, hash(b"Hello World"));
    assert_eq!(entry.chunks.chunks, vec![ChunkSignature { index: 0, hash: hash(b"Hello World") }]);
}

#[test]
fn test_generate_manifest_nested_files() {
    let agent = create_test_folder();
    let found = vec![
        ScannedFile {
            path: RelativePath::new("sub").unwrap(),
            metadata: FileMetadata::new_directory(),
            content: Vec::new(),
        },
        scanned("sub/nested.txt", b"Nested Content"),
        scanned("root.txt", b"Root Content"),
    ];
    let manifest = agent.folder.generate_manifest(&found, 1024).unwrap();

    assert_eq!(manifest.files.len(), 2);
    assert_eq!(manifest.file_count, 2);
    assert_eq!(manifest.total_size, 26);

    let nested_path = RelativePath::new("sub/nested.txt").unwrap();
    assert!(manifest.files.contains_key(&nested_path));

    let root_path = RelativePath::new("root.txt").unwrap();
    assert!(manifest.files.contains_key(&root_path));
    assert!(!manifest.files.contains_key(&RelativePath::new("sub").unwrap()));
}

#[test]
fn test_generate_manifest_large_file_chunking() {
    let agent = create_test_folder();
    let content = vec![0u8; 2048]; // 2KB

    // Chunk size 1KB, should produce 2 chunks
    let manifest = agent.folder.generate_manifest(&vec![scanned("large.bin", &content)], 1024).unwrap();

    let relative_path = RelativePath::new("large.bin").unwrap();
    let entry = manifest.files.get(&relative_path).unwrap();

    assert_eq!(entry.metadata.size(), 2048);
    assert_eq!(entry.chunks.chunk_size, 1024);

    let chunks = &entry.chunks;
    assert_eq!(chunks.chunks.len(), 2);
    assert_eq!(chunks.chunks[0].index, 0);
    assert_eq!(chunks.chunks[0].hash, hash(&content[..1024]));
    assert_eq!(chunks.chunks[1].index, 1);
    assert_eq!(chunks.chunks[1].hash, hash(&content[1024..]));
}

#[test]
fn a_symbolic_link_is_listed_but_not_counted() {
    let agent = create_test_folder();
    let found = vec![
        ScannedFile {
            path: RelativePath::new("link").unwrap(),
            metadata: FileMetadata::new_symlink("target.txt".to_string()),
            content: Vec::new(),
        },
        scanned("target.txt", b"abc"),
    ];
    let manifest = agent.folder.generate_manifest(&found, 1024).unwrap();
    assert_eq!(manifest.files.len(), 2);
    assert_eq!(manifest.file_count, 1);
    assert_eq!(manifest.total_size, 3);
    let link = manifest.files.get(&RelativePath::new("link").unwrap()).unwrap();
    assert_eq!(link.metadata.symlink_target(), Some("target.txt"));
}

#[test]
fn a_last_window_may_be_short() {
    let content: Vec<u8> = (0..2500u32).map(|i| (i % 251) as u8).collect();
    let signature = Signature::compute(&content, 1024);
    assert_eq!(signature.chunk_size, 1024);
    assert_eq!(
        signature.chunks,
        vec![
            ChunkSignature { index: 0, hash: hash(&content[..1024]) },
            ChunkSignature { index: 1, hash: hash(&content[1024..2048]) },
            ChunkSignature { index: 2, hash: hash(&content[2048..]) },
        ]
    );
    let exact = Signature::compute(&content[..1024], 1024);
    assert_eq!(exact.chunk_size, 1024);
    assert_eq!(exact.chunks, vec![ChunkSignature { index: 0, hash: hash(&content[..1024]) }]);
    let empty = Signature::compute(b"", 1024);
    assert_eq!(empty.chunk_size, 0);
    assert_eq!(empty.chunks, vec![ChunkSignature { index: 0, hash: hash(b"") }]);
}

#[test]
fn the_totals_must_fit() {
    let agent = create_test_folder();
    let mut big = scanned("a", b"");
    big.metadata.set_size(u64::MAX);
    let mut more = scanned("b", b"");
    more.metadata.set_size(1);
    assert!(matches!(
        agent.folder.generate_manifest(&vec![big, more], 1024),
        Err(FolderError::SizeOverflow)
    ));
}

#[test]
fn hashes_are_blake3() {
    assert_eq!(ContentHash::of(b"Hello, World!"), hash(b"Hello, World!"));
    assert_ne!(ContentHash::of(b"Hello, World!"), ContentHash::of(b"Hello, World?"));
    assert_ne!(
        ContentHash::of(b"Hello, World!").as_bytes()[..13],
        b"Hello, World!"[..]
    );
    assert_eq!(
        ContentHash::of(b"").to_hex(),
        "af1349b9f5f9a1a6a0404dea36dcc9499bcb25c9adc112b7cc9a93cae41f3262"
    );
    assert_eq!(ContentHash::of(b"abc").to_hex(), blake3::hash(b"abc").to_hex().to_string());
}

#[test]
fn test_chunked_transfer_linear() {
    let mut agent = create_test_folder();
    let transfer_id = 1;
    let file_content = b"Hello, World!";
    let chunk_size = 5;

    // Split content into chunks: "Hello", ", Wor", "ld!"
    let chunks: Vec<&[u8]> = file_content.chunks(chunk_size).collect();
    let total_size = file_content.len() as u64;
    let hash = hash(file_content);
    let target_path = RelativePath::new("test.txt").unwrap();

    // 1. Start transfer
    agent
        .process_chunked_transfer(ChunkedTransferOp::Start {
            id: transfer_id,
            total_size,
            chunk_size: chunk_size as u64,
        })
        .unwrap();

    // 2. Send chunks in order
    for (i, chunk) in chunks.iter().enumerate() {
        agent
            .process_chunked_transfer(ChunkedTransferOp::Chunk {
                id: transfer_id,
                index: i as u64,
                data: chunk.to_vec(),
            })
            .unwrap();
    }

    // 3. End transfer
    agent
        .process_chunked_transfer(ChunkedTransferOp::End {
            id: transfer_id,
            path: target_path.clone(),
            hash,
            metadata: create_dummy_metadata(),
        })
        .unwrap();

    // Verify file exists and content matches
    assert!(agent.exists_at(&target_path));
    assert_eq!(agent.files["test.txt"], file_content);
    assert!(!agent.folder.has_transfer(transfer_id));
    assert!(agent.temp.is_empty());
}

#[test]
fn test_chunked_transfer_unordered() {
    let mut agent = create_test_folder();
    let transfer_id = 2;
    let file_content = b"Unordered chunks test";
    let chunk_size = 5;

    let chunks: Vec<&[u8]> = file_content.chunks(chunk_size).collect();
    let total_size = file_content.len() as u64;
    let hash = hash(file_content);
    let target_path = RelativePath::new("unordered.txt").unwrap();

    agent
        .process_chunked_transfer(ChunkedTransferOp::Start {
            id: transfer_id,
            total_size,
            chunk_size: chunk_size as u64,
        })
        .unwrap();

    // Send chunks in reverse order
    for i in (0..chunks.len()).rev() {
        agent
            .process_chunked_transfer(ChunkedTransferOp::Chunk {
                id: transfer_id,
                index: i as u64,
                data: chunks[i].to_vec(),
            })
            .unwrap();
    }

    agent
        .process_chunked_transfer(ChunkedTransferOp::End {
            id: transfer_id,
            path: target_path.clone(),
            hash,
            metadata: create_dummy_metadata(),
        })
        .unwrap();

    assert!(agent.exists_at(&target_path));
    assert_eq!(agent.files["unordered.txt"], file_content);
}

#[test]
fn reversed_chunks_give_the_same_file() {
    let mut agent = create_test_folder();
    let content = b"Hello, World!";
    agent
        .process_chunked_transfer(ChunkedTransferOp::Start { id: 1, total_size: 13, chunk_size: 5 })
        .unwrap();
    for (index, data) in [(2u64, &b"ld!"[..]), (1, &b", Wor"[..]), (0, &b"Hello"[..])] {
        agent
            .process_chunked_transfer(ChunkedTransferOp::Chunk { id: 1, index, data: data.to_vec() })
            .unwrap();
    }
    agent
        .process_chunked_transfer(ChunkedTransferOp::End {
            id: 1,
            path: RelativePath::new("test.txt").unwrap(),
            hash: hash(content),
            metadata: create_dummy_metadata(),
        })
        .unwrap();
    assert_eq!(agent.files["test.txt"], b"Hello, World!");
}

#[test]
fn test_chunked_transfer_early_end() {
    let mut agent = create_test_folder();
    let transfer_id = 3;
    let file_content = b"Race condition test";
    let chunk_size = 5;

    let chunks: Vec<&[u8]> = file_content.chunks(chunk_size).collect();
    let total_size = file_content.len() as u64;
    let hash = hash(file_content);
    let target_path = RelativePath::new("race.txt").unwrap();

    agent
        .process_chunked_transfer(ChunkedTransferOp::Start {
            id: transfer_id,
            total_size,
            chunk_size: chunk_size as u64,
        })
        .unwrap();

    // Send first chunk
    agent
        .process_chunked_transfer(ChunkedTransferOp::Chunk {
            id: transfer_id,
            index: 0,
            data: chunks[0].to_vec(),
        })
        .unwrap();

    // Send End message BEFORE other chunks (simulate race condition)
    agent
        .process_chunked_transfer(ChunkedTransferOp::End {
            id: transfer_id,
            path: target_path.clone(),
            hash,
            metadata: create_dummy_metadata(),
        })
        .unwrap();

    // File should NOT exist yet
    assert!(!agent.exists_at(&target_path));
    assert!(agent.folder.has_transfer(transfer_id));

    // Send remaining chunks
    for (i, chunk) in chunks.iter().enumerate().skip(1) {
        agent
            .process_chunked_transfer(ChunkedTransferOp::Chunk {
                id: transfer_id,
                index: i as u64,
                data: chunk.to_vec(),
            })
            .unwrap();
        if i + 1 < chunks.len() {
            assert!(!agent.exists_at(&target_path));
        }
    }

    // File SHOULD exist now
    assert!(agent.exists_at(&target_path));
    assert_eq!(agent.files["race.txt"], file_content);
    assert!(!agent.folder.has_transfer(transfer_id));
}

#[test]
fn test_chunked_transfer_hash_mismatch() {
    let mut agent = create_test_folder();
    let transfer_id = 4;
    let file_content = b"Corrupted content";
    let chunk_size = 5;
    let total_size = file_content.len() as u64;

    // Use WRONG hash
    let wrong = hash(b"Different content");
    let target_path = RelativePath::new("corrupt.txt").unwrap();

    agent
        .process_chunked_transfer(ChunkedTransferOp::Start {
            id: transfer_id,
            total_size,
            chunk_size: chunk_size as u64,
        })
        .unwrap();

    let chunks: Vec<&[u8]> = file_content.chunks(chunk_size).collect();
    for (i, chunk) in chunks.iter().enumerate() {
        agent
            .process_chunked_transfer(ChunkedTransferOp::Chunk {
                id: transfer_id,
                index: i as u64,
                data: chunk.to_vec(),
            })
            .unwrap();
    }

    // Expect error on End
    let result = agent.process_chunked_transfer(ChunkedTransferOp::End {
        id: transfer_id,
        path: target_path.clone(),
        hash: wrong,
        metadata: create_dummy_metadata(),
    });

    assert!(result.is_err());
    match result.unwrap_err() {
        FolderError::HashMismatch { expected, actual } => {
            assert_eq!(expected, wrong);
            assert_eq!(actual, hash(file_content));
        }
        other => panic!("expected HashMismatch, got {:?}", other),
    }

    // File should not exist
    assert!(!agent.exists_at(&target_path));
    // The temporary file and the state of the transfer are gone
    assert!(agent.temp.is_empty());
    assert!(!agent.folder.has_transfer(transfer_id));
    assert_eq!(agent.folder.transfer_count(), 0);
}

#[test]
fn a_transfer_of_nothing_gives_an_empty_file() {
    let mut agent = create_test_folder();
    agent
        .process_chunked_transfer(ChunkedTransferOp::Start { id: 9, total_size: 0, chunk_size: 5 })
        .unwrap();
    agent
        .process_chunked_transfer(ChunkedTransferOp::End {
            id: 9,
            path: RelativePath::new("empty.bin").unwrap(),
            hash: hash(b""),
            metadata: create_dummy_metadata(),
        })
        .unwrap();
    assert_eq!(agent.files["empty.bin"], b"");
    assert!(!agent.folder.has_transfer(9));
}

#[test]
fn a_short_last_chunk_completes_the_transfer() {
    let mut agent = create_test_folder();
    let content = b"0123456789ab"; // 12 bytes in chunks of 5: 5, 5, 2
    agent
        .process_chunked_transfer(ChunkedTransferOp::Start { id: 5, total_size: 12, chunk_size: 5 })
        .unwrap();
    for (i, chunk) in content.chunks(5).enumerate() {
        let action = agent
            .folder
            .process_chunked_transfer(ChunkedTransferOp::Chunk { id: 5, index: i as u64, data: chunk.to_vec() })
            .unwrap();
        match &action {
            FolderAction::WriteChunk { offset, .. } => assert_eq!(*offset, 5 * i as u64),
            other => panic!("expected WriteChunk, got {:?}", other),
        }
        agent.carry_out(action).unwrap();
    }
    agent
        .process_chunked_transfer(ChunkedTransferOp::End {
            id: 5,
            path: RelativePath::new("digits.txt").unwrap(),
            hash: hash(content),
            metadata: create_dummy_metadata(),
        })
        .unwrap();
    assert_eq!(agent.files["digits.txt"], content);
}

#[test]
fn an_abort_of_an_unknown_transfer_changes_nothing() {
    let mut agent = create_test_folder();
    agent
        .process_chunked_transfer(ChunkedTransferOp::Start { id: 1, total_size: 4, chunk_size: 2 })
        .unwrap();
    agent
        .process_chunked_transfer(ChunkedTransferOp::Abort { id: 77, reason: "gone".to_string() })
        .unwrap();
    assert!(agent.folder.has_transfer(1));
    assert_eq!(agent.folder.transfer_count(), 1);
    assert_eq!(agent.temp.len(), 1);

    agent
        .process_chunked_transfer(ChunkedTransferOp::Abort { id: 1, reason: "stop".to_string() })
        .unwrap();
    assert!(!agent.folder.has_transfer(1));
    assert!(agent.temp.is_empty());
}

#[test]
fn chunks_and_ends_need_a_start() {
    let mut agent = create_test_folder();
    assert!(matches!(
        agent.process_chunked_transfer(ChunkedTransferOp::Chunk { id: 3, index: 0, data: vec![1] }),
        Err(FolderError::TransferNotStarted { id: 3 })
    ));
    assert!(matches!(
        agent.process_chunked_transfer(ChunkedTransferOp::End {
            id: 3,
            path: RelativePath::new("x").unwrap(),
            hash: hash(b""),
            metadata: create_dummy_metadata(),
        }),
        Err(FolderError::TransferNotFound { id: 3 })
    ));
    agent
        .process_chunked_transfer(ChunkedTransferOp::Start { id: 3, total_size: 10, chunk_size: u64::MAX })
        .unwrap();
    assert!(matches!(
        agent.folder.chunk_offset(3, 2),
        Err(FolderError::OffsetOverflow { id: 3, index: 2 })
    ));
    assert_eq!(agent.folder.chunk_offset(3, 1).unwrap(), u64::MAX);
    assert_eq!(agent.folder.chunk_offset(3, 0).unwrap(), 0);
}

#[test]
fn a_start_over_discards_what_was_received() {
    let mut agent = create_test_folder();
    agent
        .process_chunked_transfer(ChunkedTransferOp::Start { id: 1, total_size: 4, chunk_size: 2 })
        .unwrap();
    agent
        .process_chunked_transfer(ChunkedTransferOp::Chunk { id: 1, index: 0, data: b"ab".to_vec() })
        .unwrap();
    agent
        .process_chunked_transfer(ChunkedTransferOp::Start { id: 1, total_size: 2, chunk_size: 2 })
        .unwrap();
    // One chunk is needed again, though one had been received.
    let pending = agent
        .folder
        .process_chunked_transfer(ChunkedTransferOp::End {
            id: 1,
            path: RelativePath::new("again.txt").unwrap(),
            hash: hash(b"xy"),
            metadata: create_dummy_metadata(),
        })
        .unwrap();
    assert!(matches!(pending, FolderAction::Nothing));
    agent
        .process_chunked_transfer(ChunkedTransferOp::Chunk { id: 1, index: 0, data: b"xy".to_vec() })
        .unwrap();
    assert_eq!(agent.files["again.txt"], b"xy");
}

#[test]
fn a_delete_of_nothing_does_nothing() {
    let mut agent = create_test_folder();
    let path = RelativePath::new("gone.txt").unwrap();
    let action = agent
        .folder
        .process_operation(FileOperation::Delete { path: path.clone() }, &context(PathState::Absent, false))
        .unwrap();
    assert!(matches!(action, FolderAction::Nothing));
    let action = agent
        .folder
        .process_operation(FileOperation::Delete { path: path.clone() }, &context(PathState::Directory, false))
        .unwrap();
    assert!(matches!(action, FolderAction::RemoveDirAll { path: p } if p == path));
    let action = agent
        .folder
        .process_operation(FileOperation::Delete { path: path.clone() }, &context(PathState::Other, false))
        .unwrap();
    assert!(matches!(action, FolderAction::RemoveFile { path: p } if p == path));
    let action = agent
        .folder
        .process_operation(FileOperation::CreateDir { path: path.clone() }, &context(PathState::Absent, false))
        .unwrap();
    assert!(matches!(action, FolderAction::CreateDir { path: p } if p == path));
}

#[test]
fn a_rename_onto_an_existing_file_keeps_a_conflict_copy() {
    let mut agent = create_test_folder();
    let from = RelativePath::new("a.txt").unwrap();
    let to = RelativePath::new("dir/b.txt").unwrap();
    let rename = || FileOperation::Rename { from: from.clone(), to: to.clone() };

    assert!(matches!(
        agent.folder.process_operation(rename(), &context(PathState::Absent, true)),
        Err(FolderError::NotFound { path }) if path == from
    ));
    match agent.folder.process_operation(rename(), &context(PathState::Other, false)).unwrap() {
        FolderAction::Rename { from: f, to: t, conflict_name } => {
            assert_eq!((f, t), (from.clone(), to.clone()));
            assert_eq!(conflict_name, None);
        }
        other => panic!("expected Rename, got {:?}", other),
    }
    match agent.folder.process_operation(rename(), &context(PathState::Other, true)).unwrap() {
        FolderAction::Rename { conflict_name, .. } => {
            assert_eq!(
                conflict_name,
                Some("b.txt_2024-01-01 0:00:00.0 +00:00:00_conflict".to_string())
            );
        }
        other => panic!("expected Rename, got {:?}", other),
    }
    let windows = DiskContext { windows: true, ..context(PathState::Other, true) };
    let odd = RelativePath::new("dir/CON").unwrap();
    match agent.folder.process_rename(&from, &odd, &windows).unwrap() {
        FolderAction::Rename { conflict_name, .. } => {
            assert_eq!(
                conflict_name,
                Some("_CON_2024-01-01 0:00:00.0 +00:00:00_conflict".to_string())
            );
        }
        other => panic!("expected Rename, got {:?}", other),
    }
}

#[test]
fn a_written_file_must_have_its_hash() {
    let mut agent = create_test_folder();
    let path = RelativePath::new("w.txt").unwrap();
    let write = |h: ContentHash| FileOperation::WriteFile {
        path: path.clone(),
        content: b"payload".to_vec(),
        metadata: create_dummy_metadata(),
        hash: h,
    };
    let action = agent.folder.process_operation(write(hash(b"payload")), &context(PathState::Absent, false)).unwrap();
    agent.carry_out(action).unwrap();
    assert_eq!(agent.files["w.txt"], b"payload");

    agent.files.clear();
    match agent.folder.process_operation(write(hash(b"other")), &context(PathState::Absent, false)) {
        Err(FolderError::HashMismatch { expected, actual }) => {
            assert_eq!(expected, hash(b"other"));
            assert_eq!(actual, hash(b"payload"));
        }
        other => panic!("expected HashMismatch, got {:?}", other),
    }
    assert!(agent.files.is_empty());
}

#[test]
fn temporary_files_are_named_by_folder_and_transfer() {
    let folder = Folder::new(
        0x0123_4567_89ab_cdef_0123_4567_89ab_cdef,
        "named".to_string(),
        PathBuf::from("/data"),
    );
    assert_eq!(*folder.id(), 0x0123_4567_89ab_cdef_0123_4567_89ab_cdef);
    assert_eq!(folder.name(), "named");
    assert_eq!(folder.path(), &PathBuf::from("/data"));
    assert_eq!(
        folder.temp_folder_path(),
        vec!["backup_sync_temp_dir".to_string(), "01234567-89ab-cdef-0123-456789abcdef".to_string()]
    );
    assert_eq!(
        folder.temp_path_ref(42),
        vec![
            "backup_sync_temp_dir".to_string(),
            "01234567-89ab-cdef-0123-456789abcdef".to_string(),
            "42.tmp".to_string()
        ]
    );
    assert_eq!(folder.temp_path_ref(0)[2], "0.tmp");
    assert_eq!(folder.temp_path_ref(u64::MAX)[2], "18446744073709551615.tmp");
    assert_eq!(
        Folder::new(1, "n".to_string(), PathBuf::new()).temp_folder_path()[1],
        "00000000-0000-0000-0000-000000000001"
    );
}

#[test]
fn deltas_rebuild_files() {
    let base = b"The quick brown fox";
    let delta = Delta {
        instructions: vec![
            DeltaInstruction::Copy { offset: 4, length: 5 },
            DeltaInstruction::Literal(b" red".to_vec()),
            DeltaInstruction::Copy { offset: 15, length: 4 },
        ],
    };
    assert_eq!(delta.apply(base).unwrap(), b"quick red fox");
    assert_eq!(delta.apply_verified(base, &hash(b"quick red fox")).unwrap(), b"quick red fox");
    assert_eq!(
        delta.apply_verified(base, &hash(b"else")),
        Err(DeltaError::HashMismatch { expected: hash(b"else"), actual: hash(b"quick red fox") })
    );
    let beyond = Delta {
        instructions: vec![
            DeltaInstruction::Literal(b"x".to_vec()),
            DeltaInstruction::Copy { offset: 18, length: 2 },
            DeltaInstruction::Copy { offset: u64::MAX, length: u64::MAX },
        ],
    };
    assert_eq!(beyond.apply(base), Err(DeltaError::OutOfRange { instruction: 1 }));
    assert_eq!(Delta { instructions: vec![] }.apply(base).unwrap(), b"");
}

#[test]
fn delta_messages_are_handed_on() {
    let mut agent = create_test_folder();
    let path = RelativePath::new("d.txt").unwrap();
    let ctx = context(PathState::Other, false);
    let action = agent
        .folder
        .process_operation(FileOperation::DeltaSync(DeltaSyncOp::RequestSignature { path: path.clone() }), &ctx)
        .unwrap();
    assert!(matches!(action, FolderAction::SendSignature { path: p } if p == path));
    let action = agent
        .folder
        .process_operation(
            FileOperation::DeltaSync(DeltaSyncOp::ApplyDelta {
                path: path.clone(),
                delta: Delta { instructions: vec![DeltaInstruction::Literal(b"z".to_vec())] },
                hash: hash(b"z"),
            }),
            &ctx,
        )
        .unwrap();
    match action {
        FolderAction::Patch { path: p, delta, hash: h } => {
            assert_eq!(p, path);
            assert_eq!(delta.apply_verified(b"", &h).unwrap(), b"z");
        }
        other => panic!("expected Patch, got {:?}", other),
    }
}

#[test]
fn test_request_sync_returns_manifest() {
    let agent = create_test_folder();
    let folder_id = *agent.folder.id();

    let mut repo = FolderRepo::new();
    repo.insert(folder_id, agent.folder);

    let op = FolderOperation::RequestSync { folder_id };
    let step = repo.process_operation(op, &context(PathState::Absent, false)).unwrap();
    assert!(matches!(step, RepoStep::Scan { folder_id: id } if id == folder_id));

    // The agent scans the folder and asks for the manifest
    let manifest = repo.generate_manifest(&folder_id, &vec![scanned("test.txt", b"Hello Manifest")]).unwrap();
    assert_eq!(manifest.folder_id, folder_id);
    assert_eq!(manifest.file_count, 1);
    assert_eq!(manifest.total_size, 14);

    let relative_path = RelativePath::new("test.txt").unwrap();
    assert!(manifest.files.contains_key(&relative_path));

    let entry = manifest.files.get(&relative_path).unwrap();
    assert_eq!(entry.metadata.size(), 14);
    assert_eq!(DEFAULT_CHUNK_SIZE, 1024 * 1024);
}

#[test]
fn the_registry_routes_operations_by_folder() {
    let mut repo = FolderRepo::default();
    assert!(repo.insert(1, Folder::new(1, "one".to_string(), PathBuf::from("/one"))).is_none());
    assert!(repo.insert(2, Folder::new(2, "two".to_string(), PathBuf::from("/two"))).is_none());
    let ctx = context(PathState::Absent, false);

    let start = |folder_id| FolderOperation::Operation {
        folder_id,
        operation: FileOperation::ChunkedTransfer(ChunkedTransferOp::Start {
            id: 1,
            total_size: 3,
            chunk_size: 3,
        }),
        operation_id: 10,
    };
    match repo.process_operation(start(2), &ctx).unwrap() {
        RepoStep::Act { folder_id, action } => {
            assert_eq!(folder_id, 2);
            assert!(matches!(action, FolderAction::PrepareTemp { id: 1, total_size: 3, chunk_size: 3 }));
        }
        other => panic!("expected Act, got {:?}", other),
    }
    assert!(matches!(
        repo.process_operation(start(3), &ctx),
        Err(FolderError::FolderNotFound { folder_id: 3 })
    ));
    assert!(matches!(
        repo.process_operation(FolderOperation::RequestSync { folder_id: 3 }, &ctx),
        Err(FolderError::FolderNotFound { folder_id: 3 })
    ));
    assert!(matches!(
        repo.generate_manifest_with_chunk_size(&3, &Vec::new(), 16),
        Err(FolderError::FolderNotFound { folder_id: 3 })
    ));
    assert_eq!(repo.remove(&1).unwrap().name(), "one");
    assert!(repo.remove(&1).is_none());
    let replaced = repo.insert(2, Folder::new(2, "again".to_string(), PathBuf::from("/two")));
    assert_eq!(replaced.unwrap().name(), "two");
}

#[test]
fn an_early_end_waits_for_the_last_chunk() {
    let mut agent = create_test_folder();
    let path = RelativePath::new("test.txt").unwrap();
    agent
        .process_chunked_transfer(ChunkedTransferOp::Start { id: 1, total_size: 13, chunk_size: 5 })
        .unwrap();
    agent
        .process_chunked_transfer(ChunkedTransferOp::Chunk { id: 1, index: 0, data: b"Hello".to_vec() })
        .unwrap();
    agent
        .process_chunked_transfer(ChunkedTransferOp::End {
            id: 1,
            path: path.clone(),
            hash: hash(b"Hello, World!"),
            metadata: create_dummy_metadata(),
        })
        .unwrap();
    assert!(!agent.exists_at(&path));
    agent
        .process_chunked_transfer(ChunkedTransferOp::Chunk { id: 1, index: 1, data: b", Wor".to_vec() })
        .unwrap();
    assert!(!agent.exists_at(&path));
    agent
        .process_chunked_transfer(ChunkedTransferOp::Chunk { id: 1, index: 2, data: b"ld!".to_vec() })
        .unwrap();
    assert!(agent.exists_at(&path));
    assert_eq!(agent.files["test.txt"], b"Hello, World!");
}

#[test]
fn a_chunk_that_comes_twice_counts_once() {
    let mut agent = create_test_folder();
    agent
        .process_chunked_transfer(ChunkedTransferOp::Start { id: 1, total_size: 4, chunk_size: 2 })
        .unwrap();
    for _ in 0..2 {
        agent
            .process_chunked_transfer(ChunkedTransferOp::Chunk { id: 1, index: 0, data: b"ab".to_vec() })
            .unwrap();
    }
    let action = agent
        .folder
        .process_chunked_transfer(ChunkedTransferOp::End {
            id: 1,
            path: RelativePath::new("twice.txt").unwrap(),
            hash: hash(b"abcd"),
            metadata: create_dummy_metadata(),
        })
        .unwrap();
    assert!(matches!(action, FolderAction::Nothing));
    agent
        .process_chunked_transfer(ChunkedTransferOp::Chunk { id: 1, index: 1, data: b"cd".to_vec() })
        .unwrap();
    assert_eq!(agent.files["twice.txt"], b"abcd");
}

#[test]
fn a_delta_is_made_against_a_signature() {
    let base: Vec<u8> = (0..40u8).collect();
    let signature = Signature::compute(&base, 16);
    // The middle window is new, the others are chunks of the base in another order.
    let mut new = base[32..40].to_vec();
    new.extend_from_slice(&base[32..40]);
    new.extend_from_slice(b"sixteen new byte");
    new.extend_from_slice(&base[0..16]);
    let mut first = base[32..40].to_vec();
    first.extend_from_slice(&base[32..40]);

    let delta = Delta::between(&new, &signature);
    assert_eq!(delta.instructions.len(), 3);
    assert!(matches!(&delta.instructions[0], DeltaInstruction::Literal(bytes) if *bytes == first));
    assert!(matches!(&delta.instructions[1], DeltaInstruction::Literal(bytes) if bytes == b"sixteen new byte"));
    assert!(matches!(&delta.instructions[2], DeltaInstruction::Copy { offset: 0, length: 16 }));
    assert_eq!(delta.apply_verified(&base, &hash(&new)).unwrap(), new);

    // A short last window is found again as the short last chunk.
    let tail = Delta::between(&base[16..40], &signature);
    assert!(matches!(&tail.instructions[0], DeltaInstruction::Copy { offset: 16, length: 16 }));
    assert!(matches!(&tail.instructions[1], DeltaInstruction::Copy { offset: 32, length: 8 }));
    assert_eq!(tail.apply(&base).unwrap(), base[16..40].to_vec());

    let from_nothing = Delta::between(b"abc", &Signature::compute(b"", 16));
    assert!(matches!(&from_nothing.instructions[..], [DeltaInstruction::Literal(bytes)] if bytes == b"abc"));
    assert!(Delta::between(b"", &signature).instructions.is_empty());
}

#[test]
fn a_folder_keeps_the_root_it_was_made_with() {
    let mut folder = Folder::new(3, "docs".to_string(), PathBuf::from("/data/docs"));
    assert_eq!(folder.path(), &PathBuf::from("/data/docs"));
    folder.handle_start(1, 10, 4).unwrap();
    folder.handle_chunk(1, 0);
    folder.handle_abort(1);
    assert_eq!(folder.path(), &PathBuf::from("/data/docs"));
    let other = Folder::new(3, "docs".to_string(), PathBuf::from("elsewhere"));
    assert_eq!(other.path(), &PathBuf::from("elsewhere"));
}

#[test]
fn a_start_with_chunks_of_no_bytes_is_refused() {
    let mut folder = Folder::new(3, "docs".to_string(), PathBuf::from("/data/docs"));
    let start = ChunkedTransferOp::Start { id: 9, total_size: 10, chunk_size: 0 };
    assert!(matches!(
        folder.process_chunked_transfer(start),
        Err(FolderError::InvalidChunkSize { id: 9 })
    ));
    assert!(matches!(
        folder.handle_start(9, 10, 0),
        Err(FolderError::InvalidChunkSize { id: 9 })
    ));
    assert!(!folder.has_transfer(9));
    assert_eq!(folder.transfer_count(), 0);
    assert!(matches!(
        folder.handle_start(9, 0, 0),
        Err(FolderError::InvalidChunkSize { id: 9 })
    ));
    let start = ChunkedTransferOp::Start { id: 9, total_size: 10, chunk_size: 4 };
    assert!(matches!(
        folder.process_chunked_transfer(start),
        Ok(FolderAction::PrepareTemp { id: 9, total_size: 10, chunk_size: 4 })
    ));
    assert!(folder.handle_start(9, 10, 4).is_ok());
    assert!(folder.has_transfer(9));
    assert_eq!(folder.path(), &PathBuf::from("/data/docs"));
}

#[test]
fn failed_operations_say_what_is_wrong() {
    let path = RelativePath::new("dir/file.txt").unwrap();
    assert_eq!(FolderError::NotFound { path }.message(), "File not found: dir/file.txt");
    let expected = ContentHash::of(b"a");
    let actual = ContentHash::of(b"b");
    assert_eq!(
        FolderError::HashMismatch { expected, actual }.message(),
        format!("Hash mismatch: expected {}, got {}", expected.to_hex(), actual.to_hex())
    );
    assert_eq!(FolderError::TransferNotStarted { id: 3 }.message(), "Transfer not started");
    assert_eq!(
        FolderError::TransferNotFound { id: 42 }.message(),
        "Transfer state not found for id: 42"
    );
    assert_eq!(
        FolderError::OffsetOverflow { id: 7, index: 9 }.message(),
        "Chunk 9 of transfer 7 lies beyond what a file can hold"
    );
    assert_eq!(FolderError::SizeOverflow.message(), "The sizes of the files do not add up");
    assert_eq!(FolderError::FolderNotFound { folder_id: 1 }.message(), "Folder not found");
    assert_eq!(
        FolderError::InvalidChunkSize { id: 0 }.message(),
        "Transfer 0 was announced with chunks of no bytes"
    );
}
