use backup_sync::broker::handlers::{
    generate_id, handle_authenticate, handle_create_sync_folder_as, handle_disconnect,
    handle_folder_operation, handle_get_user_state, handle_join_sync_folder,
    handle_leave_sync_folder, handle_message, handle_register_computer,
    handle_register_computer_as, handle_request_origin_switch, id_from_lowered, unique_part,
    uuid_simple, HandlerResponse,
};
use backup_sync::broker::protocol::{
    ClientMessage, Computer, FileOperation, ServerMessage, SyncFolder,
};
use backup_sync::broker::server::{
    accept_connection, handle_connection, ConnectionStep, Frame, ServerConfig,
};
use backup_sync::broker::state::{PeerAddr, ServerState};
use std::path::PathBuf;

fn create_test_user(state: &mut ServerState, user_id: &str) {
    state.get_or_create_user(&user_id.to_string());
}

fn addr(port: u16) -> PeerAddr {
    PeerAddr { ip: 0x7f00_0001, port, v6: false }
}

fn folder(backups: Vec<&str>, is_synced: bool, pending_operations: u64) -> SyncFolder {
    SyncFolder {
        id: "folder1".to_string(),
        name: "My Folder".to_string(),
        origin_computer: "comp1".to_string(),
        backup_computers: backups.into_iter().map(String::from).collect(),
        is_synced,
        pending_operations,
    }
}

#[test]
fn test_get_or_create_user() {
    let mut state = ServerState::new();

    create_test_user(&mut state, "user1");
    let user = state.get_user(&"user1".to_string()).unwrap();
    assert_eq!(user.id, "user1");
    assert_eq!(user.name, "user1");
    assert!(user.computers.is_empty());
    assert!(user.sync_folders.is_empty());

    // Getting same user should return existing
    let user2 = state.get_or_create_user(&"user1".to_string());
    assert_eq!(user2.id, "user1");
    assert_eq!(state.users.len(), 1);
}

#[test]
fn test_register_computer() {
    let mut state = ServerState::new();
    create_test_user(&mut state, "user1");

    let computer = Computer {
        id: "comp1".to_string(),
        name: "My Computer".to_string(),
        online: false,
    };

    assert!(state.register_computer(&"user1".to_string(), computer));

    let user = state.get_user(&"user1".to_string()).unwrap();
    assert_eq!(user.computers.len(), 1);
    assert_eq!(user.computers[0].id, "comp1");
}

#[test]
fn test_register_computer_nonexistent_user() {
    let mut state = ServerState::new();

    let computer = Computer {
        id: "comp1".to_string(),
        name: "My Computer".to_string(),
        online: false,
    };

    assert!(!state.register_computer(&"nonexistent".to_string(), computer));
}

#[test]
fn state_test_create_sync_folder() {
    let mut state = ServerState::new();
    create_test_user(&mut state, "user1");

    let folder = SyncFolder {
        id: "folder1".to_string(),
        name: "My Folder".to_string(),
        origin_computer: "comp1".to_string(),
        backup_computers: vec![],
        is_synced: true,
        pending_operations: 0,
    };

    assert!(state.create_sync_folder(&"user1".to_string(), folder));

    let user = state.get_user(&"user1".to_string()).unwrap();
    assert_eq!(user.sync_folders.len(), 1);
    assert_eq!(user.sync_folders[0].id, "folder1");
}

#[test]
fn state_test_join_sync_folder() {
    let mut state = ServerState::new();
    create_test_user(&mut state, "user1");

    let folder = SyncFolder {
        id: "folder1".to_string(),
        name: "My Folder".to_string(),
        origin_computer: "comp1".to_string(),
        backup_computers: vec![],
        is_synced: true,
        pending_operations: 0,
    };
    state.create_sync_folder(&"user1".to_string(), folder);

    let result = state.join_sync_folder(
        &"user1".to_string(),
        &"folder1".to_string(),
        &"comp2".to_string(),
    );

    assert!(result.is_some());
    let folder = result.unwrap();
    assert!(folder.backup_computers.contains(&"comp2".to_string()));
    assert!(!folder.is_synced); // Should be marked as not synced

    // Joining again changes nothing
    let again = state
        .join_sync_folder(&"user1".to_string(), &"folder1".to_string(), &"comp2".to_string())
        .unwrap();
    assert_eq!(again.backup_computers, vec!["comp2".to_string()]);
    assert!(state
        .join_sync_folder(&"user1".to_string(), &"nowhere".to_string(), &"comp2".to_string())
        .is_none());
}

#[test]
fn state_test_leave_sync_folder() {
    let mut state = ServerState::new();
    create_test_user(&mut state, "user1");

    let folder = SyncFolder {
        id: "folder1".to_string(),
        name: "My Folder".to_string(),
        origin_computer: "comp1".to_string(),
        backup_computers: vec!["comp2".to_string()],
        is_synced: true,
        pending_operations: 0,
    };
    state.create_sync_folder(&"user1".to_string(), folder);

    state.leave_sync_folder(
        &"user1".to_string(),
        &"folder1".to_string(),
        &"comp2".to_string(),
    );

    let folder = state
        .get_folder(&"user1".to_string(), &"folder1".to_string())
        .unwrap();
    assert!(!folder.backup_computers.contains(&"comp2".to_string()));
}

#[test]
fn test_is_folder_synced() {
    let mut state = ServerState::new();
    create_test_user(&mut state, "user1");

    let folder = SyncFolder {
        id: "folder1".to_string(),
        name: "My Folder".to_string(),
        origin_computer: "comp1".to_string(),
        backup_computers: vec![],
        is_synced: true,
        pending_operations: 0,
    };
    state.create_sync_folder(&"user1".to_string(), folder);

    assert!(state.is_folder_synced(&"user1".to_string(), &"folder1".to_string()));

    // Mark as not synced
    if let Some(f) = state.get_folder_mut(&"user1".to_string(), &"folder1".to_string()) {
        f.is_synced = false;
    }
    assert!(!state.is_folder_synced(&"user1".to_string(), &"folder1".to_string()));
}

#[test]
fn test_switch_origin_success() {
    let mut state = ServerState::new();
    create_test_user(&mut state, "user1");

    let folder = SyncFolder {
        id: "folder1".to_string(),
        name: "My Folder".to_string(),
        origin_computer: "comp1".to_string(),
        backup_computers: vec!["comp2".to_string()],
        is_synced: true,
        pending_operations: 0,
    };
    state.create_sync_folder(&"user1".to_string(), folder);

    let result = state.switch_origin(
        &"user1".to_string(),
        &"folder1".to_string(),
        &"comp2".to_string(),
    );

    assert!(result.is_ok());
    let folder = state
        .get_folder(&"user1".to_string(), &"folder1".to_string())
        .unwrap();
    assert_eq!(folder.origin_computer, "comp2");
    assert!(folder.backup_computers.contains(&"comp1".to_string()));
    assert!(!folder.backup_computers.contains(&"comp2".to_string()));
}

#[test]
fn test_switch_origin_not_synced() {
    let mut state = ServerState::new();
    create_test_user(&mut state, "user1");

    let folder = SyncFolder {
        id: "folder1".to_string(),
        name: "My Folder".to_string(),
        origin_computer: "comp1".to_string(),
        backup_computers: vec!["comp2".to_string()],
        is_synced: false, // Not synced
        pending_operations: 0,
    };
    state.create_sync_folder(&"user1".to_string(), folder);

    let result = state.switch_origin(
        &"user1".to_string(),
        &"folder1".to_string(),
        &"comp2".to_string(),
    );

    assert!(result.is_err());
    assert_eq!(
        result.unwrap_err(),
        "Folder has pending operations and is not fully synced"
    );
}

#[test]
fn test_switch_origin_not_backup() {
    let mut state = ServerState::new();
    create_test_user(&mut state, "user1");

    let folder = SyncFolder {
        id: "folder1".to_string(),
        name: "My Folder".to_string(),
        origin_computer: "comp1".to_string(),
        backup_computers: vec!["comp2".to_string()],
        is_synced: true,
        pending_operations: 0,
    };
    state.create_sync_folder(&"user1".to_string(), folder);

    let result = state.switch_origin(
        &"user1".to_string(),
        &"folder1".to_string(),
        &"comp3".to_string(), // Not a backup
    );

    assert!(result.is_err());
    assert_eq!(
        result.unwrap_err(),
        "Only backup computers can request to become origin"
    );
}

#[test]
fn test_set_computer_online() {
    let mut state = ServerState::new();
    create_test_user(&mut state, "user1");

    let computer = Computer {
        id: "comp1".to_string(),
        name: "My Computer".to_string(),
        online: false,
    };
    state.register_computer(&"user1".to_string(), computer);

    state.set_computer_online(&"user1".to_string(), &"comp1".to_string(), true);

    let user = state.get_user(&"user1".to_string()).unwrap();
    assert!(user.computers[0].online);
}

#[test]
fn test_operation_counter() {
    let mut state = ServerState::new();

    assert_eq!(state.next_operation_id(), 1);
    assert_eq!(state.next_operation_id(), 2);
    assert_eq!(state.next_operation_id(), 3);
}

#[test]
fn test_connection_management() {
    let mut state = ServerState::new();
    let addr = addr(8080);

    state.register_connection(addr);
    assert!(state.get_connection(&addr).is_some());

    let conn = state.remove_connection(&addr);
    assert!(conn.is_some());
    assert!(state.get_connection(&addr).is_none());
}

#[test]
fn test_authenticate_connection() {
    let mut state = ServerState::new();
    let addr = addr(8080);

    create_test_user(&mut state, "user1");
    let computer = Computer {
        id: "comp1".to_string(),
        name: "My Computer".to_string(),
        online: false,
    };
    state.register_computer(&"user1".to_string(), computer);
    state.register_connection(addr);

    let result = state.authenticate_connection(&addr, "user1".to_string(), "comp1".to_string());

    assert!(result.is_ok());

    let conn = state.get_connection(&addr).unwrap();
    assert_eq!(conn.user_id, Some("user1".to_string()));
    assert_eq!(conn.computer_id, Some("comp1".to_string()));

    // Computer should be online
    let user = state.get_user(&"user1".to_string()).unwrap();
    assert!(user.computers[0].online);
    assert_eq!(state.computer_connections.len(), 1);
    assert_eq!(state.computer_connections[0].addr, addr);
}

#[test]
fn test_authenticate_connection_invalid_computer() {
    let mut state = ServerState::new();
    let addr = addr(8080);

    create_test_user(&mut state, "user1");
    state.register_connection(addr);

    let result =
        state.authenticate_connection(&addr, "user1".to_string(), "nonexistent".to_string());

    assert!(result.is_err());
    assert_eq!(result.unwrap_err(), "Computer not registered for user");
    assert_eq!(state.get_connection(&addr).unwrap().user_id, None);
}

#[test]
fn test_is_origin_and_is_backup() {
    let mut state = ServerState::new();
    create_test_user(&mut state, "user1");

    let folder = SyncFolder {
        id: "folder1".to_string(),
        name: "My Folder".to_string(),
        origin_computer: "comp1".to_string(),
        backup_computers: vec!["comp2".to_string()],
        is_synced: true,
        pending_operations: 0,
    };
    state.create_sync_folder(&"user1".to_string(), folder);

    assert!(state.is_origin(
        &"user1".to_string(),
        &"folder1".to_string(),
        &"comp1".to_string()
    ));
    assert!(!state.is_origin(
        &"user1".to_string(),
        &"folder1".to_string(),
        &"comp2".to_string()
    ));

    assert!(state.is_backup(
        &"user1".to_string(),
        &"folder1".to_string(),
        &"comp2".to_string()
    ));
    assert!(!state.is_backup(
        &"user1".to_string(),
        &"folder1".to_string(),
        &"comp1".to_string()
    ));
}

/// A broker with `user1`, the computers `comp1` and `comp2`, both connected
/// and authenticated, and the given folder.
fn broker_with(folder: SyncFolder) -> ServerState {
    let mut state = ServerState::new();
    create_test_user(&mut state, "user1");
    for (id, port) in [("comp1", 1u16), ("comp2", 2u16)] {
        state.register_computer(
            &"user1".to_string(),
            Computer { id: id.to_string(), name: id.to_string(), online: false },
        );
        assert!(matches!(accept_connection(addr(port), &mut state), ServerMessage::Welcome));
        let answer = handle_authenticate(addr(port), &mut state, "user1".to_string(), id.to_string());
        assert!(matches!(answer, HandlerResponse::Send(ServerMessage::Authenticated { .. })));
    }
    state.create_sync_folder(&"user1".to_string(), folder);
    state
}

fn the_folder(state: &ServerState) -> SyncFolder {
    state.get_folder(&"user1".to_string(), &"folder1".to_string()).unwrap().clone()
}

#[test]
fn origin_switch_is_denied_for_an_unsynced_folder() {
    let mut state = broker_with(folder(vec!["comp2"], false, 5));

    let answer = handle_message(
        ClientMessage::RequestOriginSwitch { folder_id: "folder1".to_string() },
        addr(2),
        &mut state,
    );

    match answer {
        HandlerResponse::Send(ServerMessage::OriginSwitchDenied { folder_id, reason }) => {
            assert_eq!(folder_id, "folder1");
            assert!(reason.contains("pending operations") || reason.contains("not fully synced"));
            assert_eq!(reason, "Folder has pending operations and is not fully synced");
        }
        other => panic!("expected OriginSwitchDenied, got {:?}", other),
    }
    // topology unchanged
    let now = the_folder(&state);
    assert_eq!(now.origin_computer, "comp1");
    assert_eq!(now.backup_computers, vec!["comp2".to_string()]);
    assert!(!now.is_synced);
    assert_eq!(now.pending_operations, 5);
}

#[test]
fn origin_switch_has_three_conditions() {
    // Not authenticated with a computer.
    let mut state = broker_with(folder(vec!["comp2"], true, 0));
    let answer = handle_request_origin_switch(addr(9), &mut state, "folder1".to_string());
    assert!(matches!(
        answer,
        HandlerResponse::Send(ServerMessage::Error { message }) if message == "Not authenticated with a computer"
    ));
    // Not a backup: the origin itself asks.
    let answer = handle_request_origin_switch(addr(1), &mut state, "folder1".to_string());
    assert!(matches!(
        answer,
        HandlerResponse::Send(ServerMessage::OriginSwitchDenied { reason, .. })
            if reason == "Only backup computers can request to become origin"
    ));
    // Synced, but an operation is pending.
    let mut pending = broker_with(folder(vec!["comp2"], true, 1));
    let answer = handle_request_origin_switch(addr(2), &mut pending, "folder1".to_string());
    assert!(matches!(answer, HandlerResponse::Send(ServerMessage::OriginSwitchDenied { .. })));
    // No such folder.
    let answer = handle_request_origin_switch(addr(2), &mut state, "other".to_string());
    assert!(matches!(answer, HandlerResponse::Send(ServerMessage::OriginSwitchDenied { .. })));
    // All three hold.
    let answer = handle_request_origin_switch(addr(2), &mut state, "folder1".to_string());
    match answer {
        HandlerResponse::Send(ServerMessage::OriginSwitched { folder_id, new_origin }) => {
            assert_eq!(folder_id, "folder1");
            assert_eq!(new_origin, "comp2");
        }
        other => panic!("expected OriginSwitched, got {:?}", other),
    }
    let now = the_folder(&state);
    assert_eq!(now.origin_computer, "comp2");
    assert_eq!(now.backup_computers, vec!["comp1".to_string()]);
    assert!(!now.backup_computers.contains(&now.origin_computer));
}

#[test]
fn an_operation_goes_to_the_backups_and_not_to_the_origin() {
    let mut state = broker_with(folder(vec!["comp2"], true, 0));
    let operation = FileOperation::CreateFile { relative_path: PathBuf::from("x.txt"), content: vec![42] };

    let answer = handle_message(
        ClientMessage::FolderOperation { folder_id: "folder1".to_string(), operation },
        addr(1),
        &mut state,
    );

    let (response, broadcast) = match answer {
        HandlerResponse::Broadcast { response, broadcast } => (response, broadcast),
        other => panic!("expected Broadcast, got {:?}", other),
    };
    // comp1 receives exactly one OperationComplete
    let number = match response {
        ServerMessage::OperationComplete { operation_id } => operation_id,
        other => panic!("expected OperationComplete, got {:?}", other),
    };
    assert_eq!(number, 1);
    // comp2 receives the broadcast with the same payload
    assert_eq!(broadcast.folder_id, "folder1");
    match &broadcast.message {
        ServerMessage::FolderOperation { folder_id, operation_id, operation } => {
            assert_eq!(folder_id, "folder1");
            assert_eq!(*operation_id, number);
            match operation {
                FileOperation::CreateFile { relative_path, content } => {
                    assert_eq!(relative_path, &PathBuf::from("x.txt"));
                    assert_eq!(content, &vec![42]);
                }
                other => panic!("expected CreateFile, got {:?}", other),
            }
        }
        other => panic!("expected FolderOperation, got {:?}", other),
    }
    assert!(state.should_receive_broadcast(&addr(2), &broadcast.folder_id));
    // comp1 does not receive a broadcast copy, nor does a stranger
    assert!(!state.should_receive_broadcast(&addr(1), &broadcast.folder_id));
    assert!(!state.should_receive_broadcast(&addr(3), &broadcast.folder_id));
    assert!(!state.should_receive_broadcast(&addr(2), &"folder2".to_string()));

    // The operation is pending until the backup has acknowledged it.
    let now = the_folder(&state);
    assert_eq!(now.pending_operations, 1);
    assert!(!now.is_synced);
    assert_eq!(state.pending_operations.len(), 1);
    assert_eq!(state.pending_operations[0].remaining, 1);
    let answer = handle_message(ClientMessage::Ack { operation_id: number }, addr(2), &mut state);
    assert!(matches!(answer, HandlerResponse::NoReply));
    let now = the_folder(&state);
    assert_eq!(now.pending_operations, 0);
    assert!(now.is_synced);
    assert!(state.pending_operations.is_empty());
}

#[test]
fn only_the_origin_may_send_operations() {
    let mut state = broker_with(folder(vec!["comp2"], true, 0));
    let operation = || FileOperation::RemoveFile { relative_path: PathBuf::from("x.txt") };
    let from_backup = handle_folder_operation(addr(2), &mut state, "folder1".to_string(), operation());
    assert!(matches!(
        from_backup,
        HandlerResponse::Send(ServerMessage::Error { message }) if message == "Only origin computer can send operations"
    ));
    let from_stranger = handle_folder_operation(addr(7), &mut state, "folder1".to_string(), operation());
    assert!(matches!(
        from_stranger,
        HandlerResponse::Send(ServerMessage::Error { message }) if message == "Not authenticated with a computer"
    ));
    assert_eq!(state.operation_counter, 0);
    assert_eq!(the_folder(&state).pending_operations, 0);
}

#[test]
fn every_backup_must_acknowledge() {
    let mut state = broker_with(folder(vec!["comp2", "comp3"], true, 0));
    for expected in 1..=2u64 {
        let answer = handle_folder_operation(
            addr(1),
            &mut state,
            "folder1".to_string(),
            FileOperation::CreateDir { relative_path: PathBuf::from("d") },
        );
        assert!(matches!(
            answer,
            HandlerResponse::Broadcast { response: ServerMessage::OperationComplete { operation_id }, .. }
                if operation_id == expected
        ));
    }
    assert_eq!(the_folder(&state).pending_operations, 2);
    state.acknowledge_operation(1);
    assert_eq!(the_folder(&state).pending_operations, 2);
    state.acknowledge_operation(1);
    let now = the_folder(&state);
    assert_eq!(now.pending_operations, 1);
    assert!(!now.is_synced);
    state.acknowledge_operation(99);
    state.acknowledge_operation(2);
    state.acknowledge_operation(2);
    let now = the_folder(&state);
    assert_eq!(now.pending_operations, 0);
    assert!(now.is_synced);
    // no operation is left to acknowledge
    state.acknowledge_operation(2);
    assert_eq!(the_folder(&state).pending_operations, 0);
}

#[test]
fn leaving_without_being_a_backup_changes_nothing() {
    let mut state = broker_with(folder(vec!["comp2"], true, 0));
    let before = the_folder(&state);
    let answer = handle_leave_sync_folder(addr(1), &mut state, "folder1".to_string());
    assert!(matches!(
        answer,
        HandlerResponse::Send(ServerMessage::LeftSyncFolder { folder_id }) if folder_id == "folder1"
    ));
    let after = the_folder(&state);
    assert_eq!(after.backup_computers, before.backup_computers);
    assert_eq!(after.origin_computer, before.origin_computer);
    assert_eq!(after.is_synced, before.is_synced);

    let answer = handle_leave_sync_folder(addr(2), &mut state, "folder1".to_string());
    assert!(matches!(answer, HandlerResponse::Send(ServerMessage::LeftSyncFolder { .. })));
    assert!(the_folder(&state).backup_computers.is_empty());
    let answer = handle_leave_sync_folder(addr(2), &mut state, "nowhere".to_string());
    assert!(matches!(answer, HandlerResponse::Send(ServerMessage::LeftSyncFolder { .. })));
}

#[test]
fn joining_marks_the_folder_as_not_synced() {
    let mut state = broker_with(folder(vec![], true, 0));
    let answer = handle_join_sync_folder(addr(2), &mut state, "folder1".to_string());
    match answer {
        HandlerResponse::Send(ServerMessage::JoinedSyncFolder { folder }) => {
            assert_eq!(folder.backup_computers, vec!["comp2".to_string()]);
            assert!(!folder.is_synced);
            assert_eq!(folder.pending_operations, 1);
        }
        other => panic!("expected JoinedSyncFolder, got {:?}", other),
    }
    let answer = handle_join_sync_folder(addr(2), &mut state, "missing".to_string());
    assert!(matches!(
        answer,
        HandlerResponse::Send(ServerMessage::Error { message }) if message == "Folder missing not found"
    ));
}

#[test]
fn registering_and_creating_make_up_ids() {
    let mut state = broker_with(folder(vec![], true, 0));
    let answer = handle_register_computer_as(addr(1), &mut state, "My New Laptop".to_string(), "abc123");
    match answer {
        HandlerResponse::Send(ServerMessage::ComputerRegistered { computer }) => {
            assert_eq!(computer.id, "my_new_laptop_abc123");
            assert_eq!(computer.name, "My New Laptop");
            assert!(!computer.online);
        }
        other => panic!("expected ComputerRegistered, got {:?}", other),
    }
    assert_eq!(state.get_user(&"user1".to_string()).unwrap().computers.len(), 3);

    let answer = handle_create_sync_folder_as(addr(2), &mut state, "Holiday Photos".to_string(), "ff");
    match answer {
        HandlerResponse::Send(ServerMessage::SyncFolderCreated { folder }) => {
            assert_eq!(folder.id, "holiday_photos_ff");
            assert_eq!(folder.name, "Holiday Photos");
            assert_eq!(folder.origin_computer, "comp2");
            assert!(folder.backup_computers.is_empty());
            assert!(folder.is_synced);
            assert_eq!(folder.pending_operations, 0);
        }
        other => panic!("expected SyncFolderCreated, got {:?}", other),
    }
    assert!(state.get_folder(&"user1".to_string(), &"holiday_photos_ff".to_string()).is_some());

    assert_eq!(generate_id("\u{00c9}COLE  A", "1"), "\u{00e9}cole__a_1");
    let made = uuid_simple();
    assert!(made.len() >= 2);
    assert!(made.chars().all(|c| c.is_ascii_hexdigit() && !c.is_ascii_uppercase()));

    let clocked = handle_register_computer(addr(1), &mut state, "Box".to_string());
    assert!(matches!(
        clocked,
        HandlerResponse::Send(ServerMessage::ComputerRegistered { computer }) if computer.id.starts_with("box_")
    ));
    let unknown = handle_register_computer(addr(8), &mut state, "Box".to_string());
    assert!(matches!(
        unknown,
        HandlerResponse::Send(ServerMessage::Error { message }) if message == "Not authenticated"
    ));
}

#[test]
fn authentication_needs_a_registered_computer() {
    let mut state = ServerState::new();
    accept_connection(addr(1), &mut state);
    let answer = handle_authenticate(addr(1), &mut state, "newcomer".to_string(), "laptop".to_string());
    assert!(matches!(
        answer,
        HandlerResponse::Send(ServerMessage::Error { message })
            if message == "Computer laptop not registered for user newcomer: Computer not registered for user"
    ));
    // The user is known from now on.
    assert!(state.get_user(&"newcomer".to_string()).is_some());
    assert!(matches!(
        handle_get_user_state(addr(1), &state),
        HandlerResponse::Send(ServerMessage::Error { message }) if message == "Not authenticated"
    ));

    state.register_computer(
        &"newcomer".to_string(),
        Computer { id: "laptop".to_string(), name: "Laptop".to_string(), online: false },
    );
    let answer = handle_authenticate(addr(1), &mut state, "newcomer".to_string(), "laptop".to_string());
    match answer {
        HandlerResponse::Send(ServerMessage::Authenticated { user }) => {
            assert_eq!(user.id, "newcomer");
            assert!(user.computers[0].online);
        }
        other => panic!("expected Authenticated, got {:?}", other),
    }
    match handle_message(ClientMessage::GetUserState, addr(1), &mut state) {
        HandlerResponse::Send(ServerMessage::UserState { user }) => assert_eq!(user.id, "newcomer"),
        other => panic!("expected UserState, got {:?}", other),
    }
    assert!(matches!(
        handle_message(ClientMessage::RequestFullSync { folder_id: "f".to_string() }, addr(1), &mut state),
        HandlerResponse::NoReply
    ));
}

#[test]
fn a_disconnect_takes_the_computer_offline() {
    let mut state = broker_with(folder(vec!["comp2"], true, 0));
    assert_eq!(state.connections.len(), 2);
    assert_eq!(state.computer_connections.len(), 2);

    handle_disconnect(addr(2), &mut state);
    assert!(state.get_connection(&addr(2)).is_none());
    assert_eq!(state.computer_connections.len(), 1);
    let user = state.get_user(&"user1".to_string()).unwrap();
    assert!(user.computers[0].online);
    assert!(!user.computers[1].online);
    assert!(!state.should_receive_broadcast(&addr(2), &"folder1".to_string()));

    // A connection that is not known changes nothing.
    handle_disconnect(addr(2), &mut state);
    assert_eq!(state.connections.len(), 1);
}

#[test]
fn frames_drive_a_connection() {
    let mut state = broker_with(folder(vec!["comp2"], true, 0));
    assert!(matches!(handle_connection(Frame::Other, addr(1), &mut state), ConnectionStep::Ignore));
    assert!(matches!(handle_connection(Frame::Unreadable, addr(1), &mut state), ConnectionStep::Ignore));
    match handle_connection(Frame::Message(ClientMessage::GetUserState), addr(1), &mut state) {
        ConnectionStep::Respond(HandlerResponse::Send(ServerMessage::UserState { user })) => {
            assert_eq!(user.sync_folders.len(), 1)
        }
        other => panic!("expected a response, got {:?}", other),
    }
    assert!(matches!(handle_connection(Frame::Closed, addr(1), &mut state), ConnectionStep::Stop));
    assert!(state.get_connection(&addr(1)).is_none());
    assert!(matches!(handle_connection(Frame::Failed, addr(2), &mut state), ConnectionStep::Stop));
    assert!(state.connections.is_empty());

    let config = ServerConfig::default();
    assert_eq!(config.addr, "0.0.0.0:9000");
    assert_eq!(config.broadcast_capacity, 100);
}

#[test]
fn folder_rules_hold_on_their_own() {
    let mut f = folder(vec!["comp2"], true, 0);
    assert!(f.is_fully_synced());
    assert!(f.is_backup(&"comp2".to_string()));
    assert!(f.is_origin(&"comp1".to_string()));
    f.add_operation();
    assert_eq!((f.is_synced, f.pending_operations), (false, 1));
    assert_eq!(f.switch_origin(&"comp2".to_string()), Err("Folder has pending operations and is not fully synced"));
    f.add_operation();
    f.complete_operation();
    assert_eq!((f.is_synced, f.pending_operations), (false, 1));
    f.complete_operation();
    assert_eq!((f.is_synced, f.pending_operations), (true, 0));
    f.complete_operation();
    assert_eq!((f.is_synced, f.pending_operations), (true, 0));
    f.join(&"comp3".to_string());
    assert_eq!(f.backup_computers, vec!["comp2".to_string(), "comp3".to_string()]);
    assert!(!f.is_synced);
    f.leave(&"comp2".to_string());
    f.leave(&"comp2".to_string());
    assert_eq!(f.backup_computers, vec!["comp3".to_string()]);
}

#[test]
fn a_new_backup_counts_as_pending_until_it_has_caught_up() {
    let mut state = broker_with(folder(vec![], true, 0));
    let counter = state.operation_counter;
    let answer = handle_join_sync_folder(addr(2), &mut state, "folder1".to_string());
    assert!(matches!(answer, HandlerResponse::Send(ServerMessage::JoinedSyncFolder { .. })));
    {
        let joined = the_folder(&state);
        assert_eq!(joined.backup_computers, vec!["comp2".to_string()]);
        assert!(!joined.is_synced);
        assert_eq!(joined.pending_operations, 1);
        assert_eq!(joined.is_synced, joined.pending_operations == 0);
    }
    assert_eq!(state.operation_counter, counter + 1);
    assert_eq!(state.pending_operations.len(), 1);
    assert_eq!(state.pending_operations[0].folder_id, "folder1");
    assert_eq!(state.pending_operations[0].operation_id, counter + 1);
    assert_eq!(state.pending_operations[0].remaining, 1);

    // Joining again changes nothing.
    let answer = handle_join_sync_folder(addr(2), &mut state, "folder1".to_string());
    assert!(matches!(answer, HandlerResponse::Send(ServerMessage::JoinedSyncFolder { .. })));
    assert_eq!(the_folder(&state).pending_operations, 1);
    assert_eq!(state.operation_counter, counter + 1);
    assert_eq!(state.pending_operations.len(), 1);

    // The acknowledgement of the catch-up makes the folder synced again.
    let answer = handle_message(
        ClientMessage::Ack { operation_id: counter + 1 },
        addr(2),
        &mut state,
    );
    assert!(matches!(answer, HandlerResponse::NoReply));
    let caught_up = the_folder(&state);
    assert!(caught_up.is_synced);
    assert_eq!(caught_up.pending_operations, 0);
    assert_eq!(caught_up.backup_computers, vec!["comp2".to_string()]);
    assert!(state.pending_operations.is_empty());
}

#[test]
fn the_origin_does_not_become_its_own_backup() {
    let mut state = broker_with(folder(vec!["comp2"], true, 0));
    let answer = handle_join_sync_folder(addr(1), &mut state, "folder1".to_string());
    assert!(matches!(
        answer,
        HandlerResponse::Send(ServerMessage::Error { message })
            if message == "Origin computer cannot join as a backup"
    ));
    {
        let kept = the_folder(&state);
        assert_eq!(kept.origin_computer, "comp1");
        assert_eq!(kept.backup_computers, vec!["comp2".to_string()]);
        assert!(kept.is_synced);
        assert_eq!(kept.pending_operations, 0);
    }
    assert!(state.pending_operations.is_empty());

    let told = state
        .join_sync_folder(&"user1".to_string(), &"folder1".to_string(), &"comp1".to_string())
        .unwrap();
    assert_eq!(told.backup_computers, vec!["comp2".to_string()]);
    assert!(!the_folder(&state).backup_computers.contains(&"comp1".to_string()));

    let mut alone = folder(vec![], true, 0);
    alone.join(&"comp1".to_string());
    assert!(alone.backup_computers.is_empty());
    assert!(alone.is_synced);
    alone.join(&"comp3".to_string());
    assert_eq!(alone.backup_computers, vec!["comp3".to_string()]);
    assert!(!alone.is_synced);
    assert_eq!(alone.pending_operations, 1);
}

#[test]
fn a_broadcast_is_forwarded_to_the_backups_only() {
    let mut state = broker_with(folder(vec!["comp2"], true, 0));
    let arrival = || Frame::Broadcast { folder_id: "folder1".to_string() };
    assert!(matches!(handle_connection(arrival(), addr(2), &mut state), ConnectionStep::Forward));
    assert!(matches!(handle_connection(arrival(), addr(1), &mut state), ConnectionStep::Ignore));
    assert!(matches!(handle_connection(arrival(), addr(7), &mut state), ConnectionStep::Ignore));
    let elsewhere = Frame::Broadcast { folder_id: "other".to_string() };
    assert!(matches!(handle_connection(elsewhere, addr(2), &mut state), ConnectionStep::Ignore));
    let kept = the_folder(&state);
    assert_eq!(kept.backup_computers, vec!["comp2".to_string()]);
    assert_eq!(kept.pending_operations, 0);
    assert_eq!(state.operation_counter, 0);
}

#[test]
fn room_is_asked_of_the_counter_and_the_folder_spoken_of() {
    let mut state = broker_with(folder(vec!["comp2"], false, u64::MAX));
    assert!(!state.has_room(&addr(1), &"folder1".to_string()));
    assert!(state.has_room(&addr(1), &"other".to_string()));
    assert!(state.has_room(&addr(7), &"folder1".to_string()));
    state.operation_counter = u64::MAX;
    assert!(!state.has_room(&addr(1), &"other".to_string()));
    assert!(!state.has_room(&addr(7), &"folder1".to_string()));
}

#[test]
fn the_unique_part_is_the_clock_in_hexadecimal() {
    assert_eq!(unique_part(0, 0), "00");
    assert_eq!(unique_part(255, 16), "ff10");
    assert_eq!(unique_part(0x6543_21ab, 999_999_999), "654321ab3b9ac9ff");
    let made = uuid_simple();
    assert!(made.len() >= 2);
    assert!(made.chars().all(|c| c.is_ascii_digit() || ('a'..='f').contains(&c)));
}

#[test]
fn an_id_is_made_from_the_lowered_name() {
    assert_eq!(id_from_lowered("my new laptop", "abc123"), "my_new_laptop_abc123");
    assert_eq!(id_from_lowered("", ""), "_");
    assert_eq!(id_from_lowered("  ", "1"), "___1");
    // Only spaces are replaced, and the case is left as it is found.
    assert_eq!(id_from_lowered("a\tb-C", "x y"), "a\tb-C_x y");
    assert_eq!(generate_id("My New Laptop", "abc123"), "my_new_laptop_abc123");
}

#[test]
fn an_operation_without_backups_is_done_at_once() {
    let mut state = broker_with(folder(vec![], true, 0));
    let operation = FileOperation::CreateDir { relative_path: PathBuf::from("dir") };
    let answer = handle_folder_operation(addr(1), &mut state, "folder1".to_string(), operation);
    match answer {
        HandlerResponse::Broadcast { response, broadcast } => {
            assert!(matches!(response, ServerMessage::OperationComplete { operation_id: 1 }));
            assert_eq!(broadcast.folder_id, "folder1");
            assert!(matches!(
                broadcast.message,
                ServerMessage::FolderOperation { operation_id: 1, .. }
            ));
        }
        other => panic!("unexpected answer: {:?}", other),
    }
    assert_eq!(state.operation_counter, 1);
    assert!(state.pending_operations.is_empty());
    let kept = the_folder(&state);
    assert!(kept.is_synced);
    assert_eq!(kept.pending_operations, 0);
}
