use backup_sync::api::{
    auth_middleware, computer_belongs_to_user, create_folder, get_user_state, join_folder,
    join_message, login, register_computer, ApiError, Cli, TOKEN_LIFETIME,
};
use backup_sync::file_streaming::{
    apply_delta_securely, compute_blake3_hash, generate_delta_streamed, ChunkedDeltaWriter,
    StreamError, StreamMessage, CHUNK_SIZE,
};
use backup_sync::rsync::{calculate_delta, create_signature, RsyncError};
use backup_sync::synchronizer::SyncOptions;

fn chunk(transfer_id: u64, chunk_index: u64, data: &[u8]) -> StreamMessage {
    StreamMessage::FileChunk { transfer_id, chunk_index, data: data.to_vec() }
}

#[test]
fn the_writer_cuts_a_stream_into_chunks() {
    let mut writer = ChunkedDeltaWriter::new(7, 4);
    assert_eq!(writer.write(b"ab"), vec![]);
    assert_eq!(writer.write(b"cdefghij"), vec![chunk(7, 0, b"abcd"), chunk(7, 1, b"efgh")]);
    assert_eq!(writer.write(b""), vec![]);
    assert_eq!(writer.write(b"kl"), vec![chunk(7, 2, b"ijkl")]);
    assert_eq!(writer.flush(), None);
    assert_eq!(writer.write(b"m"), vec![]);
    assert_eq!(writer.flush(), Some(chunk(7, 3, b"m")));
    assert_eq!(writer.flush(), None);
    assert_eq!(writer.write(b"nopq"), vec![chunk(7, 4, b"nopq")]);
}

#[test]
fn no_byte_is_lost_in_the_writer() {
    let input: Vec<u8> = (0..1000u32).map(|i| (i % 256) as u8).collect();
    let mut writer = ChunkedDeltaWriter::new(1, 64);
    let mut out = Vec::new();
    let mut next = 0u64;
    for piece in input.chunks(37) {
        for message in writer.write(piece) {
            match message {
                StreamMessage::FileChunk { transfer_id, chunk_index, data } => {
                    assert_eq!(transfer_id, 1);
                    assert_eq!(chunk_index, next);
                    assert_eq!(data.len(), 64);
                    next += 1;
                    out.extend(data);
                }
                other => panic!("unexpected {:?}", other),
            }
        }
    }
    if let Some(StreamMessage::FileChunk { chunk_index, data, .. }) = writer.flush() {
        assert_eq!(chunk_index, next);
        assert_eq!(data.len(), 1000 % 64);
        out.extend(data);
    }
    assert_eq!(out, input);
}

#[test]
fn a_small_file_is_sent_in_one_message() {
    let old = b"the old content of the file";
    let new = b"the new content of the file";
    let signature = create_signature(old).unwrap();
    let messages = generate_delta_streamed("dir/file.txt".to_string(), new, &signature, 5).unwrap();
    assert_eq!(messages.len(), 1);
    match &messages[0] {
        StreamMessage::ApplyDelta { transfer_id, relative_path, delta, expected_hash } => {
            assert_eq!(*transfer_id, 5);
            assert_eq!(relative_path, "dir/file.txt");
            assert_eq!(delta, &calculate_delta(new, &signature).unwrap());
            assert_eq!(expected_hash, &blake3::hash(new).to_hex().to_string());
            assert_eq!(apply_delta_securely(Some(old), delta, expected_hash).unwrap(), new);
        }
        other => panic!("expected ApplyDelta, got {:?}", other),
    }
    assert_eq!(
        generate_delta_streamed("f".to_string(), new, b"no signature", 5),
        Err(RsyncError::Delta)
    );
}

#[test]
fn a_large_file_is_sent_in_chunks() {
    assert_eq!(CHUNK_SIZE, 64 * 1024);
    let old: Vec<u8> = Vec::new();
    // Content that does not repeat, so that the delta is about as long.
    let mut seed = 12345u32;
    let new: Vec<u8> = (0..200_000)
        .map(|_| {
            seed = seed.wrapping_mul(1_103_515_245).wrapping_add(12345);
            (seed >> 16) as u8
        })
        .collect();
    let signature = create_signature(&old).unwrap();
    let messages = generate_delta_streamed("big.bin".to_string(), &new, &signature, 9).unwrap();

    assert_eq!(
        messages[0],
        StreamMessage::StartTransfer {
            transfer_id: 9,
            relative_path: "big.bin".to_string(),
            total_size: 200_000
        }
    );
    let hash = blake3::hash(&new).to_hex().to_string();
    assert_eq!(
        messages[messages.len() - 1],
        StreamMessage::EndTransfer { transfer_id: 9, expected_hash: hash.clone() }
    );
    let mut delta = Vec::new();
    for (i, message) in messages[1..messages.len() - 1].iter().enumerate() {
        match message {
            StreamMessage::FileChunk { transfer_id, chunk_index, data } => {
                assert_eq!(*transfer_id, 9);
                assert_eq!(*chunk_index, i as u64);
                if i + 3 < messages.len() {
                    assert_eq!(data.len(), CHUNK_SIZE);
                } else {
                    assert!(!data.is_empty() && data.len() <= CHUNK_SIZE);
                }
                delta.extend_from_slice(data);
            }
            other => panic!("expected FileChunk, got {:?}", other),
        }
    }
    assert!(messages.len() >= 5);
    assert_eq!(delta, calculate_delta(&new, &signature).unwrap());
    assert_eq!(apply_delta_securely(Some(&old[..]), &delta, &hash).unwrap(), new);
}

#[test]
fn a_patched_file_must_have_the_hash_announced() {
    let old = b"basis";
    let signature = create_signature(old).unwrap();
    let delta = calculate_delta(b"basis and more", &signature).unwrap();
    let right = compute_blake3_hash(b"basis and more");
    assert_eq!(right, blake3::hash(b"basis and more").to_hex().to_string());
    assert_eq!(right.len(), 64);

    assert_eq!(apply_delta_securely(Some(&old[..]), &delta, &right).unwrap(), b"basis and more");
    assert_eq!(apply_delta_securely(None, &delta, &right), Err(StreamError::BasisNotFound));
    assert_eq!(
        apply_delta_securely(Some(&old[..]), b"garbage", &right),
        Err(StreamError::Rsync(RsyncError::Patch))
    );
    let wrong = compute_blake3_hash(b"something else");
    assert_eq!(
        apply_delta_securely(Some(&old[..]), &delta, &wrong),
        Err(StreamError::IntegrityFailed { expected: wrong.clone(), computed: right.clone() })
    );
    // The hash is compared as it is written: upper case is another text.
    assert!(apply_delta_securely(Some(&old[..]), &delta, &right.to_uppercase()).is_err());
}

#[test]
fn failures_are_answered_with_their_status() {
    let cases = vec![
        (ApiError::AuthenticationFailed("Invalid token".to_string()), 401, "Invalid token"),
        (ApiError::UserNotFound, 401, "User not found"),
        (ApiError::PermissionDenied("no".to_string()), 403, "no"),
        (ApiError::NotFound("nothing".to_string()), 404, "nothing"),
        (ApiError::InvalidRequest("bad".to_string()), 400, "bad"),
        (ApiError::Conflict("twice".to_string()), 409, "twice"),
        (ApiError::InternalError("secret detail".to_string()), 500, "Internal server error"),
        (ApiError::DatabaseError("table missing".to_string()), 500, "Database error"),
    ];
    for (error, status, message) in cases {
        assert_eq!(error.into_response(), (status, message.to_string()));
    }
}

#[test]
fn a_token_follows_the_bearer_scheme() {
    assert_eq!(auth_middleware(Some("Bearer abc.def.ghi")).unwrap(), "abc.def.ghi");
    assert_eq!(auth_middleware(Some("Bearer ")).unwrap(), "");
    assert_eq!(auth_middleware(Some("Bearer caf\u{00e9} x")).unwrap(), "caf\u{00e9} x");
    assert!(matches!(
        auth_middleware(None),
        Err(ApiError::AuthenticationFailed(text)) if text == "Missing authorization header"
    ));
    for header in ["", "Bearer", "bearer abc", "Basic abc", " Bearer abc", "Bearerabc"] {
        assert!(matches!(
            auth_middleware(Some(header)),
            Err(ApiError::AuthenticationFailed(text)) if text == "Invalid authorization header format"
        ));
    }
}

#[test]
fn a_token_lasts_a_day() {
    assert_eq!(TOKEN_LIFETIME, 86_400);
    let claims = login(Some("user-1".to_string()), true, 1_700_000_000).unwrap();
    assert_eq!(claims.sub, "user-1");
    assert_eq!(claims.exp, 1_700_086_400);
    assert!(matches!(
        login(Some("u".to_string()), true, u64::MAX),
        Err(ApiError::InternalError(_))
    ));
}

#[test]
fn folders_are_joined_by_their_owner_only() {
    assert!(join_folder(Some("user-1"), "user-1").is_ok());
    for owner in [Some("user-2"), None] {
        assert!(matches!(
            join_folder(owner, "user-1"),
            Err(ApiError::NotFound(text)) if text == "Folder not found or access denied"
        ));
    }
    assert_eq!(join_message(false), "Joined folder");
    assert_eq!(join_message(true), "Already joined");
    assert!(computer_belongs_to_user(true).is_ok());
    assert!(matches!(
        computer_belongs_to_user(false),
        Err(ApiError::PermissionDenied(text)) if text == "Computer does not belong to user"
    ));
}

#[test]
fn the_store_records_new_folders_and_computers() {
    let folder = create_folder("f-1".to_string(), "Docs", "c-1");
    assert_eq!(folder.id, "f-1");
    assert_eq!(folder.name, "Docs");
    assert_eq!(folder.origin_computer, "c-1");
    assert!(folder.backup_computers.is_empty());
    assert!(folder.is_synced);
    assert_eq!(folder.pending_operations, 0);

    let computer = register_computer("c-1".to_string(), "Desk");
    assert_eq!((computer.id.as_str(), computer.name.as_str(), computer.online), ("c-1", "Desk", true));

    let user = get_user_state("u-1", Some("Ann".to_string()), vec![computer], vec![folder]).unwrap();
    assert_eq!(user.id, "u-1");
    assert_eq!(user.name, "Ann");
    assert_eq!(user.computers.len(), 1);
    assert_eq!(user.sync_folders.len(), 1);
    assert!(matches!(get_user_state("u-2", None, vec![], vec![]), Err(ApiError::UserNotFound)));
}

#[test]
fn arguments_become_options() {
    let cli = Cli {
        source_local: Some("/src".to_string()),
        backup_local: Some("/dst".to_string()),
        when_missing_preserve_backup: true,
        when_conflict_preserve_backup: false,
        when_delete_keep_backup: true,
    };
    let options = cli.sync_options();
    assert!(options.when_missing_preserve_backup());
    assert!(!options.when_conflict_preserve_backup());
    assert!(options.when_delete_keep_backup());
    assert_eq!(cli.local_pair(), Some(("/src", "/dst")));
    let half = Cli { backup_local: None, ..cli };
    assert_eq!(half.local_pair(), None);
    assert_eq!(SyncOptions::default(), SyncOptions::default().with_when_delete_keep_backup(false));
}

#[test]
fn a_login_tells_a_missing_user_from_a_wrong_password() {
    match login(None, false, 1_700_000_000) {
        Err(ApiError::AuthenticationFailed(text)) => assert_eq!(text, "User not found"),
        other => panic!("unexpected answer: {:?}", other),
    }
    match login(None, true, 1_700_000_000) {
        Err(ApiError::AuthenticationFailed(text)) => assert_eq!(text, "User not found"),
        other => panic!("unexpected answer: {:?}", other),
    }
    match login(Some("user-1".to_string()), false, 1_700_000_000) {
        Err(ApiError::AuthenticationFailed(text)) => assert_eq!(text, "Invalid credentials"),
        other => panic!("unexpected answer: {:?}", other),
    }
    match login(Some("user-1".to_string()), false, u64::MAX) {
        Err(ApiError::AuthenticationFailed(text)) => assert_eq!(text, "Invalid credentials"),
        other => panic!("unexpected answer: {:?}", other),
    }
    assert!(login(Some("user-1".to_string()), true, 0).is_ok());
}
