use backup_sync::broker::handlers::{handle_create_sync_folder, HandlerResponse};
use backup_sync::broker::protocol::{Computer, ServerMessage, SyncFolder};
use backup_sync::broker::state::{PeerAddr, ServerState};
use backup_sync::file_metadata::{
    system_time_to_offset, FileMetadata, FileType, Permissions, Timestamp,
};
use backup_sync::hashing::{ContentHash, Signature};
use backup_sync::local_origin::FolderStructure;
use backup_sync::lookup::{contains_text, remove_text};
use backup_sync::origin::FileEntry;
use backup_sync::rsync::{apply_patch, calculate_delta, create_signature};
use backup_sync::text::{
    append_chars, chars_equal, clone_strings, copy_bytes, copy_chars, decimal_chars, from_chars,
    join_chars, lower_hex_chars, same_text, split_chars, to_chars,
};

fn chars(s: &str) -> Vec<char> {
    s.chars().collect()
}

fn peer(port: u16) -> PeerAddr {
    PeerAddr { ip: 0x7f00_0001, port, v6: false }
}

fn state_with_folder() -> ServerState {
    let mut state = ServerState::new();
    let user = "user1".to_string();
    state.get_or_create_user(&user);
    state.register_computer(
        &user,
        Computer { id: "comp1".to_string(), name: "One".to_string(), online: false },
    );
    state.create_sync_folder(
        &user,
        SyncFolder {
            id: "folder1".to_string(),
            name: "Docs".to_string(),
            origin_computer: "comp1".to_string(),
            backup_computers: vec!["comp2".to_string(), "comp3".to_string()],
            is_synced: true,
            pending_operations: 0,
        },
    );
    state
}

#[test]
fn text_goes_to_characters_and_back() {
    assert_eq!(to_chars("añb"), vec!['a', 'ñ', 'b']);
    assert_eq!(to_chars(""), Vec::<char>::new());
    assert_eq!(from_chars(&vec!['a', 'ñ', 'b']), "añb");
    assert_eq!(from_chars(&Vec::new()), "");
    assert_eq!(copy_chars(&chars("xyz")), chars("xyz"));
}

#[test]
fn characters_are_compared_one_by_one() {
    assert!(chars_equal(&chars("abc"), &chars("abc")));
    assert!(!chars_equal(&chars("abc"), &chars("abd")));
    assert!(!chars_equal(&chars("abc"), &chars("ab")));
    assert!(chars_equal(&Vec::new(), &Vec::new()));
    assert!(same_text("dir/file", "dir/file"));
    assert!(!same_text("dir/file", "dir/File"));
    assert!(!same_text("", "a"));
}

#[test]
fn splitting_keeps_empty_pieces() {
    assert_eq!(split_chars(&chars("a//b"), '/'), vec![chars("a"), chars(""), chars("b")]);
    assert_eq!(split_chars(&chars(""), '/'), vec![chars("")]);
    assert_eq!(split_chars(&chars("/a/"), '/'), vec![chars(""), chars("a"), chars("")]);
    assert_eq!(split_chars(&chars("abc"), '/'), vec![chars("abc")]);
}

#[test]
fn joining_undoes_splitting() {
    let text = chars("one/two//three/");
    let pieces = split_chars(&text, '/');
    assert_eq!(join_chars(&pieces, '/'), text);
    assert_eq!(join_chars(&vec![chars("a"), chars("b")], '/'), chars("a/b"));
    assert_eq!(join_chars(&vec![chars("a")], '/'), chars("a"));
    assert_eq!(join_chars(&Vec::new(), '/'), chars(""));
}

#[test]
fn numbers_are_written_without_leading_zeros() {
    assert_eq!(decimal_chars(0), chars("0"));
    assert_eq!(decimal_chars(7), chars("7"));
    assert_eq!(decimal_chars(1024), chars("1024"));
    assert_eq!(decimal_chars(u64::MAX), chars("18446744073709551615"));
    assert_eq!(lower_hex_chars(0), chars("0"));
    assert_eq!(lower_hex_chars(255), chars("ff"));
    assert_eq!(lower_hex_chars(0x1a2b), chars("1a2b"));
    assert_eq!(lower_hex_chars(u64::MAX), chars("ffffffffffffffff"));
}

#[test]
fn appending_and_copying_keep_the_order() {
    let mut text = chars("ab");
    append_chars(&mut text, &chars("cd"));
    assert_eq!(text, chars("abcd"));
    append_chars(&mut text, &Vec::new());
    assert_eq!(text, chars("abcd"));
    assert_eq!(copy_bytes(&[1, 2, 3]), vec![1, 2, 3]);
    assert_eq!(copy_bytes(&[]), Vec::<u8>::new());
    let names = vec!["b".to_string(), "a".to_string()];
    assert_eq!(clone_strings(&names), names);
}

#[test]
fn a_text_is_found_and_removed_everywhere() {
    let mut list = vec!["a".to_string(), "b".to_string(), "a".to_string(), "c".to_string()];
    assert!(contains_text(&list, &"b".to_string()));
    assert!(!contains_text(&list, &"d".to_string()));
    remove_text(&mut list, &"a".to_string());
    assert_eq!(list, vec!["b".to_string(), "c".to_string()]);
    remove_text(&mut list, &"d".to_string());
    assert_eq!(list, vec!["b".to_string(), "c".to_string()]);
}

#[test]
fn permissions_are_compared_by_their_bits() {
    assert!(Permissions::from_mode(0o644).same_as(Permissions::from_mode(0o644)));
    assert!(!Permissions::from_mode(0o644).same_as(Permissions::from_mode(0o600)));
    assert!(Permissions::default_file().same_as(Permissions::from_mode(0o644)));
    assert!(Permissions::default_directory().same_as(Permissions::from_mode(0o755)));
}

#[test]
fn seconds_since_the_epoch_become_a_timestamp() {
    let t = system_time_to_offset(1_700_000_000).unwrap();
    assert_eq!(t, Timestamp { seconds: 1_700_000_000, nanoseconds: 0 });
    assert_eq!(system_time_to_offset(0).unwrap(), Timestamp { seconds: 0, nanoseconds: 0 });
    assert_eq!(
        system_time_to_offset(253_402_300_799).unwrap(),
        Timestamp { seconds: 253_402_300_799, nanoseconds: 0 }
    );
    assert!(system_time_to_offset(253_402_300_800).is_err());
    assert!(system_time_to_offset(1 << 63).is_err());
    assert_eq!(
        system_time_to_offset(u64::MAX).unwrap(),
        Timestamp { seconds: -1, nanoseconds: 0 }
    );
}

#[test]
fn directories_and_symlinks_are_made_at_given_times() {
    let then = Timestamp { seconds: 1_000, nanoseconds: 5 };
    let later = Timestamp { seconds: 2_000, nanoseconds: 0 };
    let dir = FileMetadata::new_directory_at(later, then);
    assert_eq!(dir.file_type(), FileType::Directory);
    assert_eq!(dir.size(), 0);
    assert_eq!(dir.mtime(), later);
    assert_eq!(dir.ctime(), Some(then));
    assert_eq!(dir.symlink_target(), None);
    assert!(dir.permissions().same_as(Permissions::default_directory()));
    let link = FileMetadata::new_symlink_at("target/file".to_string(), later, then);
    assert_eq!(link.file_type(), FileType::Symlink);
    assert_eq!(link.size(), 0);
    assert_eq!(link.symlink_target(), Some("target/file"));
    assert_eq!(link.mtime(), later);
    let file = FileMetadata::new_file_at(42, later, then);
    assert_eq!(file.file_type(), FileType::File);
    assert_eq!(file.size(), 42);
    assert!(file.permissions().same_as(Permissions::default_file()));
}

#[test]
fn a_signature_copy_holds_the_same_chunks() {
    let data: Vec<u8> = (0..10u8).collect();
    let signature = Signature::compute(&data, 4);
    let copy = signature.duplicate();
    assert_eq!(copy.chunk_size, 4);
    assert_eq!(copy.chunks.len(), 3);
    for i in 0..3 {
        assert_eq!(copy.chunks[i].index, i as u64);
        assert!(copy.chunks[i].hash == signature.chunks[i].hash);
    }
    assert!(copy.chunks[2].hash == ContentHash::of(&data[8..]));
    assert!(copy.chunks[0].hash == ContentHash::of(&data[..4]));
}

#[test]
fn entries_are_found_changed_and_removed_by_path() {
    let mut tree = FolderStructure::new(
        "root".to_string(),
        vec![
            FileEntry::new("a.txt".to_string(), vec![1]),
            FileEntry::new("dir".to_string(), vec![]),
            FileEntry::new("dir/b.txt".to_string(), vec![2, 3]),
        ],
    );
    assert_eq!(tree.root(), "root");
    assert_eq!(tree.files().len(), 3);
    assert_eq!(tree.get_relatives(), vec!["a.txt", "dir", "dir/b.txt"]);
    assert_eq!(tree.entries(), tree.get_relatives());
    assert!(tree.get_entry("dir").unwrap().is_dir());
    assert!(!tree.get_entry("a.txt").unwrap().is_dir());
    assert_eq!(tree.get_entry("dir/b.txt").unwrap().signature(), &[2, 3]);
    assert!(tree.get_entry("missing").is_none());

    tree.update_entry("a.txt", vec![9, 9]);
    assert_eq!(tree.get_entry("a.txt").unwrap().signature(), &[9, 9]);
    assert_eq!(tree.files().len(), 3);
    tree.update_entry("new.txt", vec![7]);
    assert_eq!(tree.get_relatives(), vec!["a.txt", "dir", "dir/b.txt", "new.txt"]);

    let removed = tree.remove_entry("dir").unwrap();
    assert_eq!(removed.path(), "dir");
    assert!(tree.remove_entry("dir").is_none());
    assert_eq!(tree.get_relatives(), vec!["a.txt", "dir/b.txt", "new.txt"]);
}

#[test]
fn a_patch_rebuilds_the_new_bytes() {
    let old = b"the quick brown fox jumps over the lazy dog".to_vec();
    let new = b"the quick brown cat jumps over the lazy dog, twice".to_vec();
    let signature = create_signature(&old).unwrap();
    assert_ne!(signature, old);
    let delta = calculate_delta(&new, &signature).unwrap();
    assert_ne!(delta, new);
    let rebuilt = apply_patch(&old, &delta).unwrap();
    assert_eq!(rebuilt, new);
    assert_ne!(rebuilt, old);
    assert!(apply_patch(&old, b"no delta at all").is_err());
    assert!(calculate_delta(&new, b"no signature").is_err());
}

#[test]
fn a_user_can_be_changed_in_place() {
    let mut state = state_with_folder();
    let user = "user1".to_string();
    state.get_user_mut(&user).unwrap().name = "Renamed".to_string();
    assert_eq!(state.get_user(&user).unwrap().name, "Renamed");
    assert_eq!(state.get_user(&user).unwrap().computers.len(), 1);
    assert!(state.get_user_mut(&"nobody".to_string()).is_none());
    state.ensure_user(&user);
    assert_eq!(state.users.len(), 1);
    assert_eq!(state.get_user(&user).unwrap().name, "Renamed");
    state.ensure_user(&"user2".to_string());
    assert_eq!(state.users.len(), 2);
    assert_eq!(state.get_user(&"user2".to_string()).unwrap().name, "user2");
}

#[test]
fn a_connection_can_be_changed_in_place() {
    let mut state = state_with_folder();
    state.register_connection(peer(1));
    assert!(state.identity(&peer(1)).is_none());
    assert!(state.connected_user(&peer(1)).is_none());
    state.get_connection_mut(&peer(1)).unwrap().user_id = Some("user1".to_string());
    assert_eq!(state.connected_user(&peer(1)), Some("user1".to_string()));
    assert!(state.identity(&peer(1)).is_none());
    state.get_connection_mut(&peer(1)).unwrap().computer_id = Some("comp1".to_string());
    assert_eq!(state.identity(&peer(1)), Some(("user1".to_string(), "comp1".to_string())));
    assert!(state.get_connection_mut(&peer(2)).is_none());
    assert!(state.identity(&peer(2)).is_none());
}

#[test]
fn a_route_is_removed_by_user_and_computer() {
    let mut state = state_with_folder();
    state.register_connection(peer(1));
    state
        .authenticate_connection(&peer(1), "user1".to_string(), "comp1".to_string())
        .unwrap();
    assert_eq!(state.computer_connections.len(), 1);
    state.remove_route(&"user1".to_string(), &"comp2".to_string());
    assert_eq!(state.computer_connections.len(), 1);
    state.remove_route(&"user2".to_string(), &"comp1".to_string());
    assert_eq!(state.computer_connections.len(), 1);
    state.remove_route(&"user1".to_string(), &"comp1".to_string());
    assert!(state.computer_connections.is_empty());
    assert_eq!(state.connections.len(), 1);
}

#[test]
fn pending_operations_are_counted_and_tracked() {
    let mut state = state_with_folder();
    let user = "user1".to_string();
    let folder = "folder1".to_string();
    assert_eq!(state.get_backup_count(&user, &folder), 2);
    assert_eq!(state.get_backup_count(&user, &"other".to_string()), 0);
    assert_eq!(state.get_backup_count(&"nobody".to_string(), &folder), 0);

    state.increment_pending_operations(&user, &folder);
    {
        let found = state.get_folder(&user, &folder).unwrap();
        assert_eq!(found.pending_operations, 1);
        assert!(!found.is_synced);
    }
    state.increment_pending_operations(&user, &"other".to_string());
    assert_eq!(state.get_folder(&user, &folder).unwrap().pending_operations, 1);

    state.track_operation(&folder, 5, 2);
    assert_eq!(state.pending_operations.len(), 1);
    assert_eq!(state.pending_operations[0].folder_id, "folder1");
    assert_eq!(state.pending_operations[0].operation_id, 5);
    assert_eq!(state.pending_operations[0].remaining, 2);
}

#[test]
fn a_created_folder_has_the_caller_as_origin() {
    let mut state = state_with_folder();
    state.register_connection(peer(1));
    state
        .authenticate_connection(&peer(1), "user1".to_string(), "comp1".to_string())
        .unwrap();
    match handle_create_sync_folder(peer(1), &mut state, "My Photos".to_string()) {
        HandlerResponse::Send(ServerMessage::SyncFolderCreated { folder }) => {
            assert!(folder.id.starts_with("my_photos_"));
            let unique = &folder.id["my_photos_".len()..];
            assert!(!unique.is_empty());
            assert!(unique.chars().all(|c| c.is_ascii_digit() || ('a'..='f').contains(&c)));
            assert_eq!(folder.name, "My Photos");
            assert_eq!(folder.origin_computer, "comp1");
            assert!(folder.backup_computers.is_empty());
            assert!(folder.is_synced);
            assert_eq!(folder.pending_operations, 0);
            let kept = state.get_folder(&"user1".to_string(), &folder.id).unwrap();
            assert_eq!(kept.name, "My Photos");
        }
        other => panic!("unexpected answer: {:?}", other),
    }
    assert_eq!(state.get_user(&"user1".to_string()).unwrap().sync_folders.len(), 2);
    match handle_create_sync_folder(peer(9), &mut state, "Other".to_string()) {
        HandlerResponse::Send(ServerMessage::Error { message }) => {
            assert_eq!(message, "Not authenticated with a computer");
        }
        other => panic!("unexpected answer: {:?}", other),
    }
    assert_eq!(state.get_user(&"user1".to_string()).unwrap().sync_folders.len(), 2);
}
