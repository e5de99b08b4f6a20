//! What each message from an agent leads to: the change to the broker's
//! state and the answer.

use vstd::prelude::*;
use crate::broker::protocol::{
    ClientMessage, Computer, ComputerView, FileOperation, ServerMessage, SyncFolder,
};
use crate::broker::state::{
    all_synced_iff_idle, all_synced_only_if_idle, find_user, folder_of, has_computer, has_room,
    identity_of, keeps_invariants, lemma_online_keeps_users, origins_apart, user_ids, user_of,
    with_acknowledgement, with_authentication, with_computer, with_disconnect, with_folder_change,
    with_new_folder, with_tracking, with_user, BroadcastMessage, PeerAddr, ServerState,
    ServerStateView,
};
use crate::broker::topology::{
    created, has_backup, joined, left, lemma_created_is_sound, reason_not_synced, switch_outcome,
    with_operation,
};
use crate::lookup::lemma_key_position_is_first;
use crate::text::{append_chars, from_chars, lower_hex_chars, lower_hex_of, to_chars};

verus! {

/// What the broker does with the answer to a message.
#[derive(Debug)]
pub enum HandlerResponse {
    /// Send the message to the agent that asked.
    Send(ServerMessage),
    /// Send `response` to the agent that asked and `broadcast` to the
    /// backups of the folder.
    Broadcast { response: ServerMessage, broadcast: BroadcastMessage },
    /// Send nothing.
    NoReply,
}

/// The lower-case form of a text, as std's `str::to_lowercase` gives it.
pub uninterp spec fn lowercase_of(text: Seq<char>) -> Seq<char>;

/// `str::to_lowercase`.
#[verifier::external_body]
fn lowercase(text: &str) -> (r: String)
    ensures
        r@ == lowercase_of(text@),
{
    text.to_lowercase()
}

/// `SystemTime::now` as the seconds since the Unix epoch and the
/// nanoseconds into the second; a clock before the epoch reads as the
/// epoch. Which value comes back is the clock's; the nanoseconds stay
/// below one second.
#[verifier::external_body]
fn since_epoch() -> (r: (u64, u32))
    ensures
        r.1 < 1_000_000_000,
{
    let passed = std::time::SystemTime::now().duration_since(
        std::time::UNIX_EPOCH,
    ).unwrap_or_default();
    (passed.as_secs(), passed.subsec_nanos())
}

/// The text with every space turned into an underscore.
pub open spec fn underscored(text: Seq<char>) -> Seq<char> {
    text.map_values(|c: char| if c == ' ' { '_' } else { c })
}

/// The id that the broker makes up for a computer or a folder: the name
/// in lower case with underscores for spaces, an underscore, and a part
/// that tells it from all others.
pub open spec fn generated_id(name: Seq<char>, unique: Seq<char>) -> Seq<char> {
    underscored(lowercase_of(name)) + seq!['_'] + unique
}

/// The unique part of an id made at the given time: the seconds and the
/// nanoseconds in hexadecimal digits.
pub open spec fn unique_at(seconds: u64, nanoseconds: u32) -> Seq<char> {
    lower_hex_of(seconds as nat) + lower_hex_of(nanoseconds as nat)
}

/// What an agent is told that has not authenticated.
pub open spec fn text_not_authenticated() -> Seq<char> {
    "Not authenticated"@
}

/// What an agent is told that has not authenticated with a computer.
pub open spec fn text_no_computer() -> Seq<char> {
    "Not authenticated with a computer"@
}

/// What a computer is told that sends an operation without being the
/// origin.
pub open spec fn text_only_origin() -> Seq<char> {
    "Only origin computer can send operations"@
}

/// What an agent is told whose user the broker does not know.
pub open spec fn text_user_not_found() -> Seq<char> {
    "User not found"@
}

/// What an agent is told whose computer is not registered.
pub open spec fn text_not_registered(user: Seq<char>, computer: Seq<char>) -> Seq<char> {
    "Computer "@ + computer + " not registered for user "@ + user
        + ": Computer not registered for user"@
}

/// What an agent is told that asks for a folder that is not there.
pub open spec fn text_folder_missing(folder: Seq<char>) -> Seq<char> {
    "Folder "@ + folder + " not found"@
}

/// Whether the answer is an error with the given text.
pub open spec fn is_error(r: HandlerResponse, text: Seq<char>) -> bool {
    r matches HandlerResponse::Send(ServerMessage::Error { message }) && message@ == text
}

/// What the origin of a folder is told that asks to join it as a backup.
pub open spec fn text_origin_joins() -> Seq<char> {
    "Origin computer cannot join as a backup"@
}

/// Whether a message that counts an operation finds room to count it;
/// other messages count nothing.
pub open spec fn message_fits(msg: ClientMessage, st: ServerStateView, addr: PeerAddr) -> bool {
    match msg {
        ClientMessage::JoinSyncFolder { folder_id } => has_room(st, addr, folder_id@),
        ClientMessage::FolderOperation { folder_id, operation } => has_room(st, addr, folder_id@),
        _ => true,
    }
}

/// What `Authenticate` leads to. The user is recorded if they were not;
/// then the connection is bound to the computer, where the user has
/// registered it.
pub open spec fn is_authenticate_outcome(
    before: ServerStateView,
    after: ServerStateView,
    r: HandlerResponse,
    addr: PeerAddr,
    user: Seq<char>,
    computer: Seq<char>,
) -> bool {
    let known = with_user(before, user);
    if has_computer(known, user, computer) {
        &&& after == with_authentication(known, addr, user, computer)
        &&& r matches HandlerResponse::Send(ServerMessage::Authenticated { user: told })
            && find_user(after, user) matches Some(u) && told@ == after.users[u]
    } else {
        &&& after == known
        &&& is_error(r, text_not_registered(user, computer))
    }
}

/// What `RegisterComputer` leads to, with `unique` as the part of the new
/// id that tells it from all others.
pub open spec fn is_register_outcome(
    before: ServerStateView,
    after: ServerStateView,
    r: HandlerResponse,
    addr: PeerAddr,
    name: Seq<char>,
    unique: Seq<char>,
) -> bool {
    match user_of(before, addr) {
        Some(user) => {
            let computer = ComputerView { id: generated_id(name, unique), name, online: false };
            &&& after == with_computer(before, user, computer)
            &&& r matches HandlerResponse::Send(ServerMessage::ComputerRegistered { computer: told })
                && told@ == computer
        },
        None => after == before && is_error(r, text_not_authenticated()),
    }
}

/// What `CreateSyncFolder` leads to, with `unique` as the part of the new
/// id that tells it from all others: a folder with the caller's computer
/// as its origin.
pub open spec fn is_create_outcome(
    before: ServerStateView,
    after: ServerStateView,
    r: HandlerResponse,
    addr: PeerAddr,
    name: Seq<char>,
    unique: Seq<char>,
) -> bool {
    match identity_of(before, addr) {
        Some((user, computer)) => {
            let folder = created(generated_id(name, unique), name, computer);
            &&& after == with_new_folder(before, user, folder)
            &&& r matches HandlerResponse::Send(ServerMessage::SyncFolderCreated { folder: told })
                && told@ == folder
        },
        None => after == before && is_error(r, text_no_computer()),
    }
}

/// What `JoinSyncFolder` leads to. The origin of the folder is refused. A
/// computer that is a backup already is told the folder as it is. A new
/// backup is added, and its catching up is an operation like any other: it
/// gets the next number, counts as pending for the folder and waits for
/// the one acknowledgement of the new backup.
pub open spec fn is_join_outcome(
    before: ServerStateView,
    after: ServerStateView,
    r: HandlerResponse,
    addr: PeerAddr,
    folder_id: Seq<char>,
) -> bool {
    match identity_of(before, addr) {
        Some((user, computer)) => match folder_of(before, user, folder_id) {
            Some(folder) => if folder.origin_computer == computer {
                after == before && is_error(r, text_origin_joins())
            } else if has_backup(folder, computer) {
                &&& after == before
                &&& r matches HandlerResponse::Send(ServerMessage::JoinedSyncFolder { folder: told })
                    && told@ == folder
            } else {
                let number = (before.operation_counter + 1) as u64;
                &&& after == with_tracking(
                    with_folder_change(
                        ServerStateView { operation_counter: number, ..before },
                        user,
                        folder_id,
                        joined(folder, computer),
                    ),
                    folder_id,
                    number,
                    1,
                )
                &&& r matches HandlerResponse::Send(ServerMessage::JoinedSyncFolder { folder: told })
                    && told@ == joined(folder, computer)
            },
            None => after == before && is_error(r, text_folder_missing(folder_id)),
        },
        None => after == before && is_error(r, text_no_computer()),
    }
}

/// What `LeaveSyncFolder` leads to. Nothing changes where the computer is
/// no backup of the folder.
pub open spec fn is_leave_outcome(
    before: ServerStateView,
    after: ServerStateView,
    r: HandlerResponse,
    addr: PeerAddr,
    folder_id: Seq<char>,
) -> bool {
    match identity_of(before, addr) {
        Some((user, computer)) => {
            &&& after == (match folder_of(before, user, folder_id) {
                Some(folder) => with_folder_change(before, user, folder_id, left(folder, computer)),
                None => before,
            })
            &&& r matches HandlerResponse::Send(ServerMessage::LeftSyncFolder { folder_id: told })
                && told@ == folder_id
        },
        None => after == before && is_error(r, text_no_computer()),
    }
}

/// What `RequestOriginSwitch` leads to: the switch where the caller is a
/// backup of a quiet folder, else a denial with its reason.
pub open spec fn is_switch_outcome(
    before: ServerStateView,
    after: ServerStateView,
    r: HandlerResponse,
    addr: PeerAddr,
    folder_id: Seq<char>,
) -> bool {
    match identity_of(before, addr) {
        Some((user, computer)) => {
            let outcome = match folder_of(before, user, folder_id) {
                Some(folder) => switch_outcome(folder, computer),
                None => Err(reason_not_synced()),
            };
            match outcome {
                Ok(now) => {
                    &&& after == with_folder_change(before, user, folder_id, now)
                    &&& r matches HandlerResponse::Send(
                        ServerMessage::OriginSwitched { folder_id: told, new_origin },
                    ) && told@ == folder_id && new_origin@ == computer
                },
                Err(why) => {
                    &&& after == before
                    &&& r matches HandlerResponse::Send(
                        ServerMessage::OriginSwitchDenied { folder_id: told, reason },
                    ) && told@ == folder_id && reason@ == why
                },
            }
        },
        None => after == before && is_error(r, text_no_computer()),
    }
}

/// What `FolderOperation` leads to. From the origin of the folder, the
/// operation gets the next number, counts as pending for the folder, waits
/// for one acknowledgement of each backup, and goes out to the backups
/// unchanged. In a folder without backups there is nobody to wait for:
/// the operation gets its number and is done.
pub open spec fn is_operation_outcome(
    before: ServerStateView,
    after: ServerStateView,
    r: HandlerResponse,
    addr: PeerAddr,
    folder_id: Seq<char>,
    operation: FileOperation,
) -> bool {
    match identity_of(before, addr) {
        Some((user, computer)) => match folder_of(before, user, folder_id) {
            Some(folder) if folder.origin_computer == computer => {
                let number = (before.operation_counter + 1) as u64;
                let numbered = ServerStateView { operation_counter: number, ..before };
                &&& after == (if folder.backup_computers.len() == 0 {
                    numbered
                } else {
                    with_tracking(
                        with_folder_change(numbered, user, folder_id, with_operation(folder)),
                        folder_id,
                        number,
                        folder.backup_computers.len() as usize,
                    )
                })
                &&& r matches HandlerResponse::Broadcast { response, broadcast }
                    && (response matches ServerMessage::OperationComplete { operation_id }
                    && operation_id == number) && broadcast.folder_id@ == folder_id && (
                broadcast.message matches ServerMessage::FolderOperation {
                    folder_id: told,
                    operation_id,
                    operation: sent,
                } && told@ == folder_id && operation_id == number && sent == operation)
            },
            _ => after == before && is_error(r, text_only_origin()),
        },
        None => after == before && is_error(r, text_no_computer()),
    }
}

/// What `GetUserState` leads to.
pub open spec fn is_user_state_outcome(
    before: ServerStateView,
    after: ServerStateView,
    r: HandlerResponse,
    addr: PeerAddr,
) -> bool {
    &&& after == before
    &&& match user_of(before, addr) {
        Some(user) => match find_user(before, user) {
            Some(u) => r matches HandlerResponse::Send(ServerMessage::UserState { user: told })
                && told@ == before.users[u],
            None => is_error(r, text_user_not_found()),
        },
        None => is_error(r, text_not_authenticated()),
    }
}

fn text3(a: &str, b: &str, c: &str) -> (r: String)
    ensures
        r@ == a@ + b@ + c@,
{
    let mut out = to_chars(a);
    let second = to_chars(b);
    append_chars(&mut out, &second);
    let third = to_chars(c);
    append_chars(&mut out, &third);
    from_chars(&out)
}

fn text5(a: &str, b: &str, c: &str, d: &str, e: &str) -> (r: String)
    ensures
        r@ == a@ + b@ + c@ + d@ + e@,
{
    let mut out = to_chars(a);
    let second = to_chars(b);
    append_chars(&mut out, &second);
    let third = to_chars(c);
    append_chars(&mut out, &third);
    let fourth = to_chars(d);
    append_chars(&mut out, &fourth);
    let fifth = to_chars(e);
    append_chars(&mut out, &fifth);
    from_chars(&out)
}

fn error(text: &str) -> (r: HandlerResponse)
    ensures
        is_error(r, text@),
{
    HandlerResponse::Send(ServerMessage::Error { message: text.to_owned() })
}

/// The unique part of an id made at the given reading of the clock: the
/// seconds and the nanoseconds in hexadecimal digits.
pub fn unique_part(seconds: u64, nanoseconds: u32) -> (r: String)
    ensures
        r@ == unique_at(seconds, nanoseconds),
{
    let mut out = lower_hex_chars(seconds);
    let rest = lower_hex_chars(nanoseconds as u64);
    append_chars(&mut out, &rest);
    proof {
        assert(out@ == unique_at(seconds, nanoseconds));
    }
    from_chars(&out)
}

/// The part of an id that tells it from those made at any other time:
/// [`unique_part`] of what the clock reads now.
pub fn uuid_simple() -> (r: String)
    ensures
        exists|seconds: u64, nanoseconds: u32| r@ == #[trigger] unique_at(seconds, nanoseconds),
{
    let (seconds, nanoseconds) = since_epoch();
    unique_part(seconds, nanoseconds)
}

/// The id for a name that is already in lower case: the name with
/// underscores for spaces, an underscore, and the unique part.
pub fn id_from_lowered(lowered: &str, unique: &str) -> (r: String)
    ensures
        r@ == underscored(lowered@) + seq!['_'] + unique@,
{
    let chars = to_chars(lowered);
    let ghost wanted = underscored(lowered@);
    let mut out: Vec<char> = Vec::new();
    let mut i: usize = 0;
    while i < chars.len()
        invariant
            i <= chars.len(),
            chars@ == lowered@,
            wanted == underscored(lowered@),
            out@ == wanted.take(i as int),
        decreases chars.len() - i,
    {
        if chars[i] == ' ' {
            out.push('_');
        } else {
            out.push(chars[i]);
        }
        proof {
            assert(wanted.take(i as int).push(wanted[i as int]) =~= wanted.take(i + 1));
        }
        i += 1;
    }
    proof {
        assert(wanted.take(chars.len() as int) =~= wanted);
    }
    out.push('_');
    let tail = to_chars(unique);
    append_chars(&mut out, &tail);
    proof {
        assert(out@ =~= underscored(lowered@) + seq!['_'] + unique@);
    }
    from_chars(&out)
}

/// Makes up the id of a computer or a folder from its name: the name is
/// put into lower case, and [`id_from_lowered`] does the rest.
pub fn generate_id(name: &str, unique: &str) -> (r: String)
    ensures
        r@ == generated_id(name@, unique@),
{
    let lowered = lowercase(name);
    id_from_lowered(lowered.as_str(), unique)
}

/// Binds the connection to the user's computer and answers with the user,
/// where the user has registered the computer.
pub fn handle_authenticate(addr: PeerAddr, state: &mut ServerState, user_id: String, computer_id: String) -> (r:
    HandlerResponse)
    ensures
        is_authenticate_outcome(old(state)@, final(state)@, r, addr, user_id@, computer_id@),
        keeps_invariants(old(state)@, final(state)@),
{
    state.ensure_user(&user_id);
    let ghost known = state@;
    match state.authenticate_connection(&addr, user_id.clone(), computer_id.clone()) {
        Ok(()) => {
            proof {
                let bound = ServerStateView {
                    connections: state@.connections,
                    routes: state@.routes,
                    ..known
                };
                lemma_online_keeps_users(bound, user_id@, computer_id@, true);
                assert(user_ids(state@.users) == user_ids(known.users));
                assert(find_user(state@, user_id@) is Some);
            }
            match state.get_user(&user_id) {
                Some(user) => HandlerResponse::Send(
                    ServerMessage::Authenticated { user: user.clone() },
                ),
                None => error("User not found after authentication"),
            }
        },
        Err(_) => {
            let message = text5(
                "Computer ",
                computer_id.as_str(),
                " not registered for user ",
                user_id.as_str(),
                ": Computer not registered for user",
            );
            HandlerResponse::Send(ServerMessage::Error { message })
        },
    }
}

/// Registers a computer for the user of the connection, under an id made
/// up from its name and the clock.
pub fn handle_register_computer(addr: PeerAddr, state: &mut ServerState, name: String) -> (r:
    HandlerResponse)
    ensures
        exists|seconds: u64, nanoseconds: u32|
            is_register_outcome(
                old(state)@,
                final(state)@,
                r,
                addr,
                name@,
                #[trigger] unique_at(seconds, nanoseconds),
            ),
        keeps_invariants(old(state)@, final(state)@),
{
    let unique = uuid_simple();
    handle_register_computer_as(addr, state, name, unique.as_str())
}

/// Registers a computer for the user of the connection, under an id made
/// up from its name and `unique`.
pub fn handle_register_computer_as(addr: PeerAddr, state: &mut ServerState, name: String, unique: &str) -> (r:
    HandlerResponse)
    ensures
        is_register_outcome(old(state)@, final(state)@, r, addr, name@, unique@),
        keeps_invariants(old(state)@, final(state)@),
{
    match state.connected_user(&addr) {
        Some(user_id) => {
            let id = generate_id(name.as_str(), unique);
            let computer = Computer { id, name, online: false };
            state.register_computer(&user_id, computer.clone());
            HandlerResponse::Send(ServerMessage::ComputerRegistered { computer })
        },
        None => error("Not authenticated"),
    }
}

/// Creates a folder with the caller's computer as its origin, under an id
/// made up from its name and the clock.
pub fn handle_create_sync_folder(addr: PeerAddr, state: &mut ServerState, name: String) -> (r:
    HandlerResponse)
    ensures
        exists|seconds: u64, nanoseconds: u32|
            is_create_outcome(
                old(state)@,
                final(state)@,
                r,
                addr,
                name@,
                #[trigger] unique_at(seconds, nanoseconds),
            ),
        keeps_invariants(old(state)@, final(state)@),
{
    let unique = uuid_simple();
    handle_create_sync_folder_as(addr, state, name, unique.as_str())
}

/// Creates a folder with the caller's computer as its origin, under an id
/// made up from its name and `unique`.
pub fn handle_create_sync_folder_as(addr: PeerAddr, state: &mut ServerState, name: String, unique: &str) -> (r:
    HandlerResponse)
    ensures
        is_create_outcome(old(state)@, final(state)@, r, addr, name@, unique@),
        keeps_invariants(old(state)@, final(state)@),
{
    match state.identity(&addr) {
        Some((user_id, computer_id)) => {
            let id = generate_id(name.as_str(), unique);
            let folder = SyncFolder {
                id,
                name,
                origin_computer: computer_id,
                backup_computers: Vec::new(),
                is_synced: true,
                pending_operations: 0,
            };
            proof {
                assert(folder@.backup_computers =~= Seq::<Seq<char>>::empty());
                lemma_created_is_sound(folder@.id, folder@.name, folder@.origin_computer);
            }
            state.create_sync_folder(&user_id, folder.clone());
            HandlerResponse::Send(ServerMessage::SyncFolderCreated { folder })
        },
        None => error("Not authenticated with a computer"),
    }
}

/// Makes the caller's computer a backup of the folder, and counts its
/// catching up as a pending operation under the next number. The origin
/// of the folder is refused.
pub fn handle_join_sync_folder(addr: PeerAddr, state: &mut ServerState, folder_id: String) -> (r:
    HandlerResponse)
    requires
        has_room(old(state)@, addr, folder_id@),
    ensures
        is_join_outcome(old(state)@, final(state)@, r, addr, folder_id@),
        keeps_invariants(old(state)@, final(state)@),
{
    match state.identity(&addr) {
        Some((user_id, computer_id)) => {
            let known = match state.get_folder(&user_id, &folder_id) {
                None => None,
                Some(folder) => if folder.is_origin(&computer_id) {
                    Some(Err(()))
                } else if folder.is_backup(&computer_id) {
                    Some(Ok(Some(folder.clone())))
                } else {
                    Some(Ok(None))
                },
            };
            match known {
                None => {
                    let message = text3("Folder ", folder_id.as_str(), " not found");
                    HandlerResponse::Send(ServerMessage::Error { message })
                },
                Some(Err(())) => error("Origin computer cannot join as a backup"),
                Some(Ok(Some(folder))) => HandlerResponse::Send(
                    ServerMessage::JoinedSyncFolder { folder },
                ),
                Some(Ok(None)) => {
                    let ghost before = folder_of(old(state)@, user_id@, folder_id@)->0;
                    let number = state.next_operation_id();
                    match state.join_sync_folder(&user_id, &folder_id, &computer_id) {
                        None => error("Not authenticated with a computer"),
                        Some(folder) => {
                            proof {
                                lemma_changed_folder_found(
                                    ServerStateView { operation_counter: number, ..old(state)@ },
                                    user_id@,
                                    folder_id@,
                                    joined(before, computer_id@),
                                );
                            }
                            state.track_operation(&folder_id, number, 1);
                            HandlerResponse::Send(ServerMessage::JoinedSyncFolder { folder })
                        },
                    }
                },
            }
        },
        None => error("Not authenticated with a computer"),
    }
}

/// Takes the caller's computer out of the backups of the folder.
pub fn handle_leave_sync_folder(addr: PeerAddr, state: &mut ServerState, folder_id: String) -> (r:
    HandlerResponse)
    ensures
        is_leave_outcome(old(state)@, final(state)@, r, addr, folder_id@),
        keeps_invariants(old(state)@, final(state)@),
{
    match state.identity(&addr) {
        Some((user_id, computer_id)) => {
            state.leave_sync_folder(&user_id, &folder_id, &computer_id);
            HandlerResponse::Send(ServerMessage::LeftSyncFolder { folder_id })
        },
        None => error("Not authenticated with a computer"),
    }
}

/// Makes the caller's computer the origin of the folder, where it is a
/// backup and the folder is quiet.
pub fn handle_request_origin_switch(addr: PeerAddr, state: &mut ServerState, folder_id: String) -> (r:
    HandlerResponse)
    ensures
        is_switch_outcome(old(state)@, final(state)@, r, addr, folder_id@),
        keeps_invariants(old(state)@, final(state)@),
{
    match state.identity(&addr) {
        Some((user_id, computer_id)) => match state.switch_origin(
            &user_id,
            &folder_id,
            &computer_id,
        ) {
            Ok(()) => HandlerResponse::Send(
                ServerMessage::OriginSwitched { folder_id, new_origin: computer_id },
            ),
            Err(reason) => HandlerResponse::Send(
                ServerMessage::OriginSwitchDenied { folder_id, reason: reason.to_owned() },
            ),
        },
        None => error("Not authenticated with a computer"),
    }
}

/// Takes an operation from the origin of a folder: numbers it, counts it
/// as pending and hands it on for the backups.
pub fn handle_folder_operation(
    addr: PeerAddr,
    state: &mut ServerState,
    folder_id: String,
    operation: FileOperation,
) -> (r: HandlerResponse)
    requires
        has_room(old(state)@, addr, folder_id@),
    ensures
        is_operation_outcome(old(state)@, final(state)@, r, addr, folder_id@, operation),
        keeps_invariants(old(state)@, final(state)@),
{
    match state.identity(&addr) {
        Some((user_id, computer_id)) => {
            if !state.is_origin(&user_id, &folder_id, &computer_id) {
                return error("Only origin computer can send operations");
            }
            proof {
                let place = crate::broker::state::find_folder(state@, user_id@, folder_id@)->0;
                lemma_key_position_is_first(user_ids(state@.users), user_id@);
                lemma_key_position_is_first(
                    crate::broker::state::folder_ids(state@.users[place.0].sync_folders),
                    folder_id@,
                );
                assert(state@.users[place.0].sync_folders[place.1].pending_operations < u64::MAX);
            }
            let operation_id = state.next_operation_id();
            let backup_count = state.get_backup_count(&user_id, &folder_id);
            if backup_count > 0 {
                state.increment_pending_operations(&user_id, &folder_id);
                proof {
                    lemma_changed_folder_found(
                        ServerStateView { operation_counter: operation_id, ..old(state)@ },
                        user_id@,
                        folder_id@,
                        with_operation(folder_of(old(state)@, user_id@, folder_id@)->0),
                    );
                }
                state.track_operation(&folder_id, operation_id, backup_count);
            }
            let message = ServerMessage::FolderOperation {
                folder_id: folder_id.clone(),
                operation_id,
                operation,
            };
            HandlerResponse::Broadcast {
                response: ServerMessage::OperationComplete { operation_id },
                broadcast: BroadcastMessage { folder_id, message },
            }
        },
        None => error("Not authenticated with a computer"),
    }
}

/// Answers with what the broker knows of the user of the connection.
pub fn handle_get_user_state(addr: PeerAddr, state: &ServerState) -> (r: HandlerResponse)
    ensures
        is_user_state_outcome(state@, state@, r, addr),
{
    match state.connected_user(&addr) {
        Some(user_id) => match state.get_user(&user_id) {
            Some(user) => HandlerResponse::Send(ServerMessage::UserState { user: user.clone() }),
            None => error("User not found"),
        },
        None => error("Not authenticated"),
    }
}

/// Forgets a connection that has gone; the computer that was authenticated
/// on it is offline.
pub fn handle_disconnect(addr: PeerAddr, state: &mut ServerState)
    ensures
        final(state)@ == with_disconnect(old(state)@, addr),
        keeps_invariants(old(state)@, final(state)@),
{
    match state.remove_connection(&addr) {
        None => {},
        Some(connection) => match (connection.user_id, connection.computer_id) {
            (Some(user_id), Some(computer_id)) => {
                state.remove_route(&user_id, &computer_id);
                state.set_computer_online(&user_id, &computer_id, false);
            },
            _ => {},
        },
    }
}

/// What a message leads to: the change to the state and the answer.
pub open spec fn is_message_outcome(
    msg: ClientMessage,
    before: ServerStateView,
    after: ServerStateView,
    r: HandlerResponse,
    addr: PeerAddr,
) -> bool {
    match msg {
        ClientMessage::Authenticate { user_id, computer_id } => is_authenticate_outcome(
            before,
            after,
            r,
            addr,
            user_id@,
            computer_id@,
        ),
        ClientMessage::RegisterComputer { name } => exists|seconds: u64, nanoseconds: u32|
            is_register_outcome(
                before,
                after,
                r,
                addr,
                name@,
                #[trigger] unique_at(seconds, nanoseconds),
            ),
        ClientMessage::CreateSyncFolder { name } => exists|seconds: u64, nanoseconds: u32|
            is_create_outcome(
                before,
                after,
                r,
                addr,
                name@,
                #[trigger] unique_at(seconds, nanoseconds),
            ),
        ClientMessage::JoinSyncFolder { folder_id } => is_join_outcome(
            before,
            after,
            r,
            addr,
            folder_id@,
        ),
        ClientMessage::LeaveSyncFolder { folder_id } => is_leave_outcome(
            before,
            after,
            r,
            addr,
            folder_id@,
        ),
        ClientMessage::RequestOriginSwitch { folder_id } => is_switch_outcome(
            before,
            after,
            r,
            addr,
            folder_id@,
        ),
        ClientMessage::FolderOperation { folder_id, operation } => is_operation_outcome(
            before,
            after,
            r,
            addr,
            folder_id@,
            operation,
        ),
        ClientMessage::Ack { operation_id } => after == with_acknowledgement(before, operation_id)
            && r is NoReply,
        ClientMessage::RequestFullSync { folder_id } => after == before && r is NoReply,
        ClientMessage::GetUserState => is_user_state_outcome(before, after, r, addr),
    }
}

/// Handles one message from the agent at the address.
pub fn handle_message(msg: ClientMessage, addr: PeerAddr, state: &mut ServerState) -> (r:
    HandlerResponse)
    requires
        message_fits(msg, old(state)@, addr),
    ensures
        is_message_outcome(msg, old(state)@, final(state)@, r, addr),
        keeps_invariants(old(state)@, final(state)@),
{
    match msg {
        ClientMessage::Authenticate { user_id, computer_id } => handle_authenticate(
            addr,
            state,
            user_id,
            computer_id,
        ),
        ClientMessage::RegisterComputer { name } => handle_register_computer(addr, state, name),
        ClientMessage::CreateSyncFolder { name } => handle_create_sync_folder(addr, state, name),
        ClientMessage::JoinSyncFolder { folder_id } => handle_join_sync_folder(
            addr,
            state,
            folder_id,
        ),
        ClientMessage::LeaveSyncFolder { folder_id } => handle_leave_sync_folder(
            addr,
            state,
            folder_id,
        ),
        ClientMessage::RequestOriginSwitch { folder_id } => handle_request_origin_switch(
            addr,
            state,
            folder_id,
        ),
        ClientMessage::FolderOperation { folder_id, operation } => handle_folder_operation(
            addr,
            state,
            folder_id,
            operation,
        ),
        ClientMessage::Ack { operation_id } => {
            state.acknowledge_operation(operation_id);
            HandlerResponse::NoReply
        },
        ClientMessage::RequestFullSync { folder_id } => HandlerResponse::NoReply,
        ClientMessage::GetUserState => handle_get_user_state(addr, state),
    }
}

/// A folder that has been changed in place is found where it was, as long
/// as it keeps its id.
proof fn lemma_changed_folder_found(
    st: ServerStateView,
    user: Seq<char>,
    folder_id: Seq<char>,
    changed: crate::broker::protocol::SyncFolderView,
)
    requires
        folder_of(st, user, folder_id) matches Some(folder) && changed.id == folder.id,
    ensures
        folder_of(with_folder_change(st, user, folder_id, changed), user, folder_id) == Some(
            changed,
        ),
        crate::broker::state::find_folder(with_folder_change(st, user, folder_id, changed), user, folder_id)
            == crate::broker::state::find_folder(st, user, folder_id),
{
    let place = crate::broker::state::find_folder(st, user, folder_id)->0;
    let now = with_folder_change(st, user, folder_id, changed);
    lemma_key_position_is_first(user_ids(st.users), user);
    lemma_key_position_is_first(
        crate::broker::state::folder_ids(st.users[place.0].sync_folders),
        folder_id,
    );
    assert(user_ids(now.users) =~= user_ids(st.users));
    assert(crate::broker::state::folder_ids(now.users[place.0].sync_folders)
        =~= crate::broker::state::folder_ids(st.users[place.0].sync_folders));
}

} // verus!
