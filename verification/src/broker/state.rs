//! The broker's state: users with their computers and folders, the
//! connections, and the operations that wait for acknowledgement.

use vstd::prelude::*;
use crate::broker::protocol::{
    Computer, ComputerId, ComputerView, FolderId, ServerMessage, SyncFolder, SyncFolderView, User,
    UserId, UserView,
};
use crate::broker::topology::{
    fully_synced, has_backup, joined, joins_anew, left, lemma_accounting_keeps_origin_apart,
    lemma_join_keeps_origin_apart, lemma_leave_keeps_origin_apart, lemma_leave_without_membership,
    lemma_switch_keeps_origin_apart, origin_apart, reason_not_synced, switch_outcome, synced_iff_idle, synced_only_if_idle,
    with_completion, with_operation,
};
use crate::lookup::{key_position, lemma_key_position, lemma_key_position_is_first};
use crate::text::view_all;

verus! {

/// The address of an agent's end of a connection.
#[derive(Debug, Clone, Copy, PartialEq, Eq, Hash, Structural)]
pub struct PeerAddr {
    /// The address; an IPv4 address fills the low 32 bits.
    pub ip: u128,
    pub port: u16,
    /// Whether `ip` is an IPv6 address.
    pub v6: bool,
}

/// A message for the backups of a folder.
#[derive(Debug)]
pub struct BroadcastMessage {
    pub folder_id: FolderId,
    pub message: ServerMessage,
}

/// A connection and who has authenticated on it.
#[derive(Debug)]
pub struct ConnectedClient {
    pub user_id: Option<UserId>,
    pub computer_id: Option<ComputerId>,
    pub addr: PeerAddr,
}

/// The text of an optional id.
pub open spec fn id_view(id: Option<String>) -> Option<Seq<char>> {
    match id {
        Some(text) => Some(text@),
        None => None,
    }
}

/// The mathematical value of a [`ConnectedClient`].
pub struct ConnectedClientView {
    pub user_id: Option<Seq<char>>,
    pub computer_id: Option<Seq<char>>,
    pub addr: PeerAddr,
}

impl View for ConnectedClient {
    type V = ConnectedClientView;

    open spec fn view(&self) -> ConnectedClientView {
        ConnectedClientView {
            user_id: id_view(self.user_id),
            computer_id: id_view(self.computer_id),
            addr: self.addr,
        }
    }
}

/// Where a user's computer is connected.
#[derive(Debug)]
pub struct ComputerRoute {
    pub user_id: UserId,
    pub computer_id: ComputerId,
    pub addr: PeerAddr,
}

/// The mathematical value of a [`ComputerRoute`].
pub struct ComputerRouteView {
    pub user_id: Seq<char>,
    pub computer_id: Seq<char>,
    pub addr: PeerAddr,
}

impl View for ComputerRoute {
    type V = ComputerRouteView;

    open spec fn view(&self) -> ComputerRouteView {
        ComputerRouteView { user_id: self.user_id@, computer_id: self.computer_id@, addr: self.addr }
    }
}

/// An operation that backups have yet to acknowledge.
#[derive(Debug)]
pub struct PendingOperation {
    pub folder_id: FolderId,
    pub operation_id: u64,
    /// How many acknowledgements are missing.
    pub remaining: usize,
}

/// The mathematical value of a [`PendingOperation`].
pub struct PendingOperationView {
    pub folder_id: Seq<char>,
    pub operation_id: u64,
    pub remaining: usize,
}

impl View for PendingOperation {
    type V = PendingOperationView;

    open spec fn view(&self) -> PendingOperationView {
        PendingOperationView {
            folder_id: self.folder_id@,
            operation_id: self.operation_id,
            remaining: self.remaining,
        }
    }
}

/// All that the broker knows. The users, the connections, the routes and
/// the pending operations are looked up by their keys; where a key occurs
/// twice, the first entry counts.
#[derive(Debug)]
pub struct ServerState {
    pub users: Vec<User>,
    pub connections: Vec<ConnectedClient>,
    pub computer_connections: Vec<ComputerRoute>,
    pub pending_operations: Vec<PendingOperation>,
    pub operation_counter: u64,
}

/// The mathematical value of a [`ServerState`].
pub struct ServerStateView {
    pub users: Seq<UserView>,
    pub connections: Seq<ConnectedClientView>,
    pub routes: Seq<ComputerRouteView>,
    pub pending: Seq<PendingOperationView>,
    pub operation_counter: u64,
}

impl View for ServerState {
    type V = ServerStateView;

    open spec fn view(&self) -> ServerStateView {
        ServerStateView {
            users: view_all(self.users@),
            connections: view_all(self.connections@),
            routes: view_all(self.computer_connections@),
            pending: view_all(self.pending_operations@),
            operation_counter: self.operation_counter,
        }
    }
}

/// The ids of the users, in order.
pub open spec fn user_ids(users: Seq<UserView>) -> Seq<Seq<char>> {
    users.map_values(|u: UserView| u.id)
}

/// The ids of the folders, in order.
pub open spec fn folder_ids(folders: Seq<SyncFolderView>) -> Seq<Seq<char>> {
    folders.map_values(|f: SyncFolderView| f.id)
}

/// The ids of the computers, in order.
pub open spec fn computer_ids(computers: Seq<ComputerView>) -> Seq<Seq<char>> {
    computers.map_values(|c: ComputerView| c.id)
}

/// The addresses of the connections, in order.
pub open spec fn connection_addrs(connections: Seq<ConnectedClientView>) -> Seq<PeerAddr> {
    connections.map_values(|c: ConnectedClientView| c.addr)
}

/// The numbers of the pending operations, in order.
pub open spec fn pending_ids(pending: Seq<PendingOperationView>) -> Seq<u64> {
    pending.map_values(|p: PendingOperationView| p.operation_id)
}

/// The users and computers of the routes, in order.
pub open spec fn route_keys(routes: Seq<ComputerRouteView>) -> Seq<(Seq<char>, Seq<char>)> {
    routes.map_values(|r: ComputerRouteView| (r.user_id, r.computer_id))
}

/// The folders and numbers of the pending operations, in order.
pub open spec fn pending_keys(pending: Seq<PendingOperationView>) -> Seq<(Seq<char>, u64)> {
    pending.map_values(|p: PendingOperationView| (p.folder_id, p.operation_id))
}

/// Where the user is.
pub open spec fn find_user(st: ServerStateView, user_id: Seq<char>) -> Option<int> {
    key_position(user_ids(st.users), user_id)
}

/// Where the folder of the user is.
pub open spec fn find_folder(st: ServerStateView, user_id: Seq<char>, folder_id: Seq<char>) -> Option<
    (int, int),
> {
    match find_user(st, user_id) {
        Some(u) => match key_position(folder_ids(st.users[u].sync_folders), folder_id) {
            Some(f) => Some((u, f)),
            None => None,
        },
        None => None,
    }
}

/// The folder of the user, if there is one.
pub open spec fn folder_of(st: ServerStateView, user_id: Seq<char>, folder_id: Seq<char>) -> Option<
    SyncFolderView,
> {
    match find_folder(st, user_id, folder_id) {
        Some((u, f)) => Some(st.users[u].sync_folders[f]),
        None => None,
    }
}

/// The state with one folder replaced.
pub open spec fn with_folder(st: ServerStateView, u: int, f: int, folder: SyncFolderView) -> ServerStateView {
    ServerStateView {
        users: st.users.update(
            u,
            UserView { sync_folders: st.users[u].sync_folders.update(f, folder), ..st.users[u] },
        ),
        ..st
    }
}

/// Where the connection from the address is.
pub open spec fn find_connection(st: ServerStateView, addr: PeerAddr) -> Option<int> {
    key_position(connection_addrs(st.connections), addr)
}

/// The user and the computer that have authenticated on the connection
/// from the address.
pub open spec fn identity_of(st: ServerStateView, addr: PeerAddr) -> Option<(Seq<char>, Seq<char>)> {
    match find_connection(st, addr) {
        Some(c) => match (st.connections[c].user_id, st.connections[c].computer_id) {
            (Some(user), Some(computer)) => Some((user, computer)),
            _ => None,
        },
        None => None,
    }
}

/// The user that has authenticated on the connection from the address.
pub open spec fn user_of(st: ServerStateView, addr: PeerAddr) -> Option<Seq<char>> {
    match find_connection(st, addr) {
        Some(c) => st.connections[c].user_id,
        None => None,
    }
}

/// A user as the broker first records them: named by their id, with no
/// computers and no folders.
pub open spec fn fresh_user(user_id: Seq<char>) -> UserView {
    UserView {
        id: user_id,
        name: user_id,
        computers: Seq::<ComputerView>::empty(),
        sync_folders: Seq::<SyncFolderView>::empty(),
    }
}

/// The state with the user recorded, if they were not.
pub open spec fn with_user(st: ServerStateView, user_id: Seq<char>) -> ServerStateView {
    if find_user(st, user_id) is Some {
        st
    } else {
        ServerStateView { users: st.users.push(fresh_user(user_id)), ..st }
    }
}

/// The state with the user's computer marked as online or offline; the
/// same state where there is no such computer.
pub open spec fn with_online(
    st: ServerStateView,
    user_id: Seq<char>,
    computer_id: Seq<char>,
    online: bool,
) -> ServerStateView {
    match find_user(st, user_id) {
        Some(u) => match key_position(computer_ids(st.users[u].computers), computer_id) {
            Some(c) => ServerStateView {
                users: st.users.update(
                    u,
                    UserView {
                        computers: st.users[u].computers.update(
                            c,
                            ComputerView { online, ..st.users[u].computers[c] },
                        ),
                        ..st.users[u]
                    },
                ),
                ..st
            },
            None => st,
        },
        None => st,
    }
}

/// Whether the user has registered the computer.
pub open spec fn has_computer(st: ServerStateView, user_id: Seq<char>, computer_id: Seq<char>) -> bool {
    find_user(st, user_id) matches Some(u) && computer_ids(st.users[u].computers).contains(
        computer_id,
    )
}

/// The state with a computer added to those of the user; the same state
/// where the user is not known.
pub open spec fn with_computer(st: ServerStateView, user_id: Seq<char>, computer: ComputerView) -> ServerStateView {
    match find_user(st, user_id) {
        Some(u) => ServerStateView {
            users: st.users.update(
                u,
                UserView { computers: st.users[u].computers.push(computer), ..st.users[u] },
            ),
            ..st
        },
        None => st,
    }
}

/// The state with a folder added to those of the user; the same state
/// where the user is not known.
pub open spec fn with_new_folder(st: ServerStateView, user_id: Seq<char>, folder: SyncFolderView) -> ServerStateView {
    match find_user(st, user_id) {
        Some(u) => ServerStateView {
            users: st.users.update(
                u,
                UserView { sync_folders: st.users[u].sync_folders.push(folder), ..st.users[u] },
            ),
            ..st
        },
        None => st,
    }
}

/// Whether the counter of operations can still grow, and with it the
/// count of pending operations of the folder that the connection from the
/// address speaks of.
pub open spec fn has_room(st: ServerStateView, addr: PeerAddr, folder_id: Seq<char>) -> bool {
    &&& st.operation_counter < u64::MAX
    &&& identity_of(st, addr) matches Some((user, computer)) ==> (folder_of(st, user, folder_id)
        matches Some(folder) ==> folder.pending_operations < u64::MAX)
}

/// The state after the connection from the address has gone: it is
/// forgotten, and the computer that was authenticated on it is offline and
/// has no route.
pub open spec fn with_disconnect(st: ServerStateView, addr: PeerAddr) -> ServerStateView {
    match find_connection(st, addr) {
        None => st,
        Some(c) => match (st.connections[c].user_id, st.connections[c].computer_id) {
            (Some(user), Some(computer)) => with_online(
                without_route(without_connection(st, addr), user, computer),
                user,
                computer,
                false,
            ),
            _ => without_connection(st, addr),
        },
    }
}

/// The list with `item` in the place of the first entry with the key, or
/// at the end where no entry has the key.
pub open spec fn upsert<T, K>(items: Seq<T>, keys: Seq<K>, key: K, item: T) -> Seq<T> {
    match key_position(keys, key) {
        Some(i) => items.update(i, item),
        None => items.push(item),
    }
}

/// The list without the first entry with the key.
pub open spec fn remove_key<T, K>(items: Seq<T>, keys: Seq<K>, key: K) -> Seq<T> {
    match key_position(keys, key) {
        Some(i) => items.remove(i),
        None => items,
    }
}

/// The state after a connection from the address has been accepted: it is
/// recorded without a user, in place of any earlier one from that address.
pub open spec fn with_connection(st: ServerStateView, addr: PeerAddr) -> ServerStateView {
    ServerStateView {
        connections: upsert(
            st.connections,
            connection_addrs(st.connections),
            addr,
            ConnectedClientView { user_id: None, computer_id: None, addr },
        ),
        ..st
    }
}

/// The state without the connection from the address.
pub open spec fn without_connection(st: ServerStateView, addr: PeerAddr) -> ServerStateView {
    ServerStateView {
        connections: remove_key(st.connections, connection_addrs(st.connections), addr),
        ..st
    }
}

/// The state without the route to the user's computer.
pub open spec fn without_route(st: ServerStateView, user_id: Seq<char>, computer_id: Seq<char>) -> ServerStateView {
    ServerStateView {
        routes: remove_key(st.routes, route_keys(st.routes), (user_id, computer_id)),
        ..st
    }
}

/// The state after the user's computer has authenticated on the
/// connection from the address: the connection carries both ids, the
/// route to the computer leads to the address, and the computer is online.
pub open spec fn with_authentication(
    st: ServerStateView,
    addr: PeerAddr,
    user_id: Seq<char>,
    computer_id: Seq<char>,
) -> ServerStateView {
    let bound = match find_connection(st, addr) {
        Some(c) => st.connections.update(
            c,
            ConnectedClientView { user_id: Some(user_id), computer_id: Some(computer_id), addr },
        ),
        None => st.connections,
    };
    with_online(
        ServerStateView {
            connections: bound,
            routes: upsert(
                st.routes,
                route_keys(st.routes),
                (user_id, computer_id),
                ComputerRouteView { user_id, computer_id, addr },
            ),
            ..st
        },
        user_id,
        computer_id,
        true,
    )
}

/// The state after an operation of the folder has been sent out to
/// `backup_count` backups: it is pending under its number.
pub open spec fn with_tracking(
    st: ServerStateView,
    folder_id: Seq<char>,
    operation_id: u64,
    backup_count: usize,
) -> ServerStateView {
    ServerStateView {
        pending: upsert(
            st.pending,
            pending_keys(st.pending),
            (folder_id, operation_id),
            PendingOperationView { folder_id, operation_id, remaining: backup_count },
        ),
        ..st
    }
}

/// The state after the folder of the user has changed to what `change`
/// gives; the same state where there is no such folder.
pub open spec fn with_folder_change(
    st: ServerStateView,
    user_id: Seq<char>,
    folder_id: Seq<char>,
    changed: SyncFolderView,
) -> ServerStateView {
    match find_folder(st, user_id, folder_id) {
        Some((u, f)) => with_folder(st, u, f, changed),
        None => st,
    }
}

/// Where the first folder with the id is, whoever owns it.
pub open spec fn find_any_folder(users: Seq<UserView>, folder_id: Seq<char>) -> Option<(int, int)>
    decreases users.len(),
{
    if users.len() == 0 {
        None
    } else {
        match find_any_folder(users.drop_last(), folder_id) {
            Some(place) => Some(place),
            None => match key_position(folder_ids(users.last().sync_folders), folder_id) {
                Some(f) => Some((users.len() - 1, f)),
                None => None,
            },
        }
    }
}

/// The state after one acknowledgement of the operation with the number.
/// An operation that still misses more than one acknowledgement misses one
/// less; else the operation is done: its row goes, and the folder it
/// belongs to counts one pending operation less. An operation that is not
/// pending changes nothing.
pub open spec fn with_acknowledgement(st: ServerStateView, operation_id: u64) -> ServerStateView {
    match key_position(pending_ids(st.pending), operation_id) {
        None => st,
        Some(p) => {
            let row = st.pending[p];
            if row.remaining > 1 {
                ServerStateView {
                    pending: st.pending.update(
                        p,
                        PendingOperationView { remaining: (row.remaining - 1) as usize, ..row },
                    ),
                    ..st
                }
            } else {
                let rest = ServerStateView { pending: st.pending.remove(p), ..st };
                match find_any_folder(st.users, row.folder_id) {
                    Some((u, f)) => with_folder(
                        rest,
                        u,
                        f,
                        with_completion(st.users[u].sync_folders[f]),
                    ),
                    None => rest,
                }
            }
        },
    }
}

/// Whether every folder of every user has its origin apart from its
/// backups.
pub open spec fn origins_apart(st: ServerStateView) -> bool {
    forall|u: int, f: int|
        0 <= u < st.users.len() && 0 <= f < st.users[u].sync_folders.len() ==> origin_apart(
            #[trigger] st.users[u].sync_folders[f],
        )
}

/// Whether every folder of every user is marked as synced exactly when
/// it has no operation pending.
pub open spec fn all_synced_iff_idle(st: ServerStateView) -> bool {
    forall|u: int, f: int|
        0 <= u < st.users.len() && 0 <= f < st.users[u].sync_folders.len() ==> synced_iff_idle(
            #[trigger] st.users[u].sync_folders[f],
        )
}

/// Whether every folder of every user that is marked as synced has no
/// operation pending.
pub open spec fn all_synced_only_if_idle(st: ServerStateView) -> bool {
    forall|u: int, f: int|
        0 <= u < st.users.len() && 0 <= f < st.users[u].sync_folders.len()
            ==> synced_only_if_idle(#[trigger] st.users[u].sync_folders[f])
}

/// Replacing a folder by one that is synced exactly when it is idle keeps
/// every folder so.
pub proof fn lemma_synced_iff_idle_everywhere(
    st: ServerStateView,
    u: int,
    f: int,
    folder: SyncFolderView,
)
    requires
        0 <= u < st.users.len(),
        0 <= f < st.users[u].sync_folders.len(),
    ensures
        all_synced_iff_idle(st) && synced_iff_idle(folder) ==> all_synced_iff_idle(
            with_folder(st, u, f, folder),
        ),
        all_synced_only_if_idle(st) && synced_only_if_idle(folder) ==> all_synced_only_if_idle(
            with_folder(st, u, f, folder),
        ),
{
    let now = with_folder(st, u, f, folder);
    if all_synced_iff_idle(st) && synced_iff_idle(folder) {
        assert forall|a: int, b: int|
            0 <= a < now.users.len() && 0 <= b < now.users[a].sync_folders.len() implies synced_iff_idle(
            #[trigger] now.users[a].sync_folders[b],
        ) by {
            if !(a == u && b == f) {
                assert(now.users[a].sync_folders[b] == st.users[a].sync_folders[b]);
            }
        }
    }
    if all_synced_only_if_idle(st) && synced_only_if_idle(folder) {
        assert forall|a: int, b: int|
            0 <= a < now.users.len() && 0 <= b < now.users[a].sync_folders.len() implies synced_only_if_idle(
            #[trigger] now.users[a].sync_folders[b],
        ) by {
            if !(a == u && b == f) {
                assert(now.users[a].sync_folders[b] == st.users[a].sync_folders[b]);
            }
        }
    }
}

/// Whether a change to the state keeps what holds of every folder: the
/// origin apart from the backups, and synced together with idle.
pub open spec fn keeps_invariants(before: ServerStateView, after: ServerStateView) -> bool {
    &&& origins_apart(before) ==> origins_apart(after)
    &&& all_synced_iff_idle(before) ==> all_synced_iff_idle(after)
    &&& all_synced_only_if_idle(before) ==> all_synced_only_if_idle(after)
}

/// A change that leaves the folders of every user as they are keeps what
/// holds of every folder.
pub proof fn lemma_same_folders_keep_invariants(before: ServerStateView, after: ServerStateView)
    requires
        after.users.len() == before.users.len(),
        forall|u: int|
            0 <= u < before.users.len() ==> (#[trigger] after.users[u]).sync_folders
                == before.users[u].sync_folders,
    ensures
        keeps_invariants(before, after),
{
    if origins_apart(before) {
        assert forall|u: int, f: int|
            0 <= u < after.users.len() && 0 <= f < after.users[u].sync_folders.len() implies origin_apart(
            #[trigger] after.users[u].sync_folders[f],
        ) by {
            assert(after.users[u].sync_folders[f] == before.users[u].sync_folders[f]);
        }
    }
    if all_synced_iff_idle(before) {
        assert forall|u: int, f: int|
            0 <= u < after.users.len() && 0 <= f < after.users[u].sync_folders.len() implies synced_iff_idle(
            #[trigger] after.users[u].sync_folders[f],
        ) by {
            assert(after.users[u].sync_folders[f] == before.users[u].sync_folders[f]);
        }
    }
    if all_synced_only_if_idle(before) {
        assert forall|u: int, f: int|
            0 <= u < after.users.len() && 0 <= f < after.users[u].sync_folders.len() implies synced_only_if_idle(
            #[trigger] after.users[u].sync_folders[f],
        ) by {
            assert(after.users[u].sync_folders[f] == before.users[u].sync_folders[f]);
        }
    }
}

/// Recording a user keeps what holds of every folder: a new user has no
/// folders.
pub proof fn lemma_new_user_keeps_invariants(st: ServerStateView, user_id: Seq<char>)
    ensures
        keeps_invariants(st, with_user(st, user_id)),
{
    let after = with_user(st, user_id);
    if find_user(st, user_id) is None {
        if origins_apart(st) {
            assert forall|u: int, f: int|
                0 <= u < after.users.len() && 0 <= f < after.users[u].sync_folders.len() implies origin_apart(
                #[trigger] after.users[u].sync_folders[f],
            ) by {
                assert(u < st.users.len());
                assert(after.users[u].sync_folders[f] == st.users[u].sync_folders[f]);
            }
        }
        if all_synced_iff_idle(st) {
            assert forall|u: int, f: int|
                0 <= u < after.users.len() && 0 <= f < after.users[u].sync_folders.len() implies synced_iff_idle(
                #[trigger] after.users[u].sync_folders[f],
            ) by {
                assert(u < st.users.len());
                assert(after.users[u].sync_folders[f] == st.users[u].sync_folders[f]);
            }
        }
        if all_synced_only_if_idle(st) {
            assert forall|u: int, f: int|
                0 <= u < after.users.len() && 0 <= f < after.users[u].sync_folders.len() implies synced_only_if_idle(
                #[trigger] after.users[u].sync_folders[f],
            ) by {
                assert(u < st.users.len());
                assert(after.users[u].sync_folders[f] == st.users[u].sync_folders[f]);
            }
        }
    }
}

/// Adding a folder keeps of every folder what holds of the new one.
pub proof fn lemma_new_folder_keeps_invariants(
    st: ServerStateView,
    user_id: Seq<char>,
    folder: SyncFolderView,
)
    ensures
        origins_apart(st) && origin_apart(folder) ==> origins_apart(
            with_new_folder(st, user_id, folder),
        ),
        all_synced_iff_idle(st) && synced_iff_idle(folder) ==> all_synced_iff_idle(
            with_new_folder(st, user_id, folder),
        ),
        all_synced_only_if_idle(st) && synced_only_if_idle(folder) ==> all_synced_only_if_idle(
            with_new_folder(st, user_id, folder),
        ),
{
    let after = with_new_folder(st, user_id, folder);
    lemma_key_position_is_first(user_ids(st.users), user_id);
    match find_user(st, user_id) {
        None => {},
        Some(v) => {
            let was = st.users[v].sync_folders;
            if origins_apart(st) && origin_apart(folder) {
                assert forall|u: int, f: int|
                    0 <= u < after.users.len() && 0 <= f < after.users[u].sync_folders.len() implies origin_apart(
                    #[trigger] after.users[u].sync_folders[f],
                ) by {
                    if u == v && f == was.len() {
                    } else {
                        assert(after.users[u].sync_folders[f] == st.users[u].sync_folders[f]);
                    }
                }
            }
            if all_synced_iff_idle(st) && synced_iff_idle(folder) {
                assert forall|u: int, f: int|
                    0 <= u < after.users.len() && 0 <= f < after.users[u].sync_folders.len() implies synced_iff_idle(
                    #[trigger] after.users[u].sync_folders[f],
                ) by {
                    if u == v && f == was.len() {
                    } else {
                        assert(after.users[u].sync_folders[f] == st.users[u].sync_folders[f]);
                    }
                }
            }
            if all_synced_only_if_idle(st) && synced_only_if_idle(folder) {
                assert forall|u: int, f: int|
                    0 <= u < after.users.len() && 0 <= f < after.users[u].sync_folders.len() implies synced_only_if_idle(
                    #[trigger] after.users[u].sync_folders[f],
                ) by {
                    if u == v && f == was.len() {
                    } else {
                        assert(after.users[u].sync_folders[f] == st.users[u].sync_folders[f]);
                    }
                }
            }
        },
    }
}

/// Whether the connection from the address is to get what is broadcast
/// for the folder: its computer is a backup of the folder.
pub open spec fn receives_broadcast(st: ServerStateView, addr: PeerAddr, folder_id: Seq<char>) -> bool {
    match identity_of(st, addr) {
        Some((user, computer)) => folder_of(st, user, folder_id) matches Some(folder)
            && has_backup(folder, computer),
        None => false,
    }
}

/// The origin of a folder gets no broadcast for it, as long as the origin
/// is apart from the backups.
pub proof fn lemma_origin_gets_no_broadcast(st: ServerStateView, addr: PeerAddr, folder_id: Seq<char>)
    requires
        origins_apart(st),
        identity_of(st, addr) matches Some((user, computer)) && folder_of(st, user, folder_id)
            matches Some(folder) && folder.origin_computer == computer,
    ensures
        !receives_broadcast(st, addr, folder_id),
{
    let (user, computer) = identity_of(st, addr)->0;
    let (u, f) = find_folder(st, user, folder_id)->0;
    lemma_key_position_is_first(user_ids(st.users), user);
    lemma_key_position_is_first(folder_ids(st.users[u].sync_folders), folder_id);
    assert(origin_apart(st.users[u].sync_folders[f]));
}

fn find_user_index(users: &Vec<User>, user_id: &UserId) -> (r: Option<usize>)
    ensures
        match r {
            Some(i) => key_position(user_ids(view_all(users@)), user_id@) == Some(i as int) && i
                < users.len(),
            None => key_position(user_ids(view_all(users@)), user_id@) is None,
        },
{
    let mut i: usize = 0;
    let ghost keys = user_ids(view_all(users@));
    while i < users.len()
        invariant
            i <= users.len(),
            keys == user_ids(view_all(users@)),
            forall|j: int| 0 <= j < i ==> keys[j] != user_id@,
        decreases users.len() - i,
    {
        if users[i].id == *user_id {
            proof {
                assert(keys[i as int] == user_id@);
                lemma_key_position(keys, user_id@, i as int);
            }
            return Some(i);
        }
        i += 1;
    }
    proof {
        lemma_key_position(keys, user_id@, i as int);
    }
    None
}

fn find_folder_index(folders: &Vec<SyncFolder>, folder_id: &FolderId) -> (r: Option<usize>)
    ensures
        match r {
            Some(i) => key_position(folder_ids(view_all(folders@)), folder_id@) == Some(i as int)
                && i < folders.len(),
            None => key_position(folder_ids(view_all(folders@)), folder_id@) is None,
        },
{
    let mut i: usize = 0;
    let ghost keys = folder_ids(view_all(folders@));
    while i < folders.len()
        invariant
            i <= folders.len(),
            keys == folder_ids(view_all(folders@)),
            forall|j: int| 0 <= j < i ==> keys[j] != folder_id@,
        decreases folders.len() - i,
    {
        if folders[i].id == *folder_id {
            proof {
                assert(keys[i as int] == folder_id@);
                lemma_key_position(keys, folder_id@, i as int);
            }
            return Some(i);
        }
        i += 1;
    }
    proof {
        lemma_key_position(keys, folder_id@, i as int);
    }
    None
}

fn find_computer_index(computers: &Vec<Computer>, computer_id: &ComputerId) -> (r: Option<usize>)
    ensures
        match r {
            Some(i) => key_position(computer_ids(view_all(computers@)), computer_id@) == Some(
                i as int,
            ) && i < computers.len(),
            None => key_position(computer_ids(view_all(computers@)), computer_id@) is None,
        },
{
    let mut i: usize = 0;
    let ghost keys = computer_ids(view_all(computers@));
    while i < computers.len()
        invariant
            i <= computers.len(),
            keys == computer_ids(view_all(computers@)),
            forall|j: int| 0 <= j < i ==> keys[j] != computer_id@,
        decreases computers.len() - i,
    {
        if computers[i].id == *computer_id {
            proof {
                assert(keys[i as int] == computer_id@);
                lemma_key_position(keys, computer_id@, i as int);
            }
            return Some(i);
        }
        i += 1;
    }
    proof {
        lemma_key_position(keys, computer_id@, i as int);
    }
    None
}

fn find_connection_index(connections: &Vec<ConnectedClient>, addr: PeerAddr) -> (r: Option<usize>)
    ensures
        match r {
            Some(i) => key_position(connection_addrs(view_all(connections@)), addr) == Some(
                i as int,
            ) && i < connections.len(),
            None => key_position(connection_addrs(view_all(connections@)), addr) is None,
        },
{
    let mut i: usize = 0;
    let ghost keys = connection_addrs(view_all(connections@));
    while i < connections.len()
        invariant
            i <= connections.len(),
            keys == connection_addrs(view_all(connections@)),
            forall|j: int| 0 <= j < i ==> keys[j] != addr,
        decreases connections.len() - i,
    {
        if connections[i].addr == addr {
            proof {
                assert(keys[i as int] == addr);
                lemma_key_position(keys, addr, i as int);
            }
            return Some(i);
        }
        i += 1;
    }
    proof {
        lemma_key_position(keys, addr, i as int);
    }
    None
}

fn find_pending_index(pending: &Vec<PendingOperation>, operation_id: u64) -> (r: Option<usize>)
    ensures
        match r {
            Some(i) => key_position(pending_ids(view_all(pending@)), operation_id) == Some(i as int)
                && i < pending.len(),
            None => key_position(pending_ids(view_all(pending@)), operation_id) is None,
        },
{
    let mut i: usize = 0;
    let ghost keys = pending_ids(view_all(pending@));
    while i < pending.len()
        invariant
            i <= pending.len(),
            keys == pending_ids(view_all(pending@)),
            forall|j: int| 0 <= j < i ==> keys[j] != operation_id,
        decreases pending.len() - i,
    {
        if pending[i].operation_id == operation_id {
            proof {
                assert(keys[i as int] == operation_id);
                lemma_key_position(keys, operation_id, i as int);
            }
            return Some(i);
        }
        i += 1;
    }
    proof {
        lemma_key_position(keys, operation_id, i as int);
    }
    None
}

fn find_owner(users: &Vec<User>, folder_id: &FolderId) -> (r: Option<(usize, usize)>)
    ensures
        match r {
            Some((u, f)) => find_any_folder(view_all(users@), folder_id@) == Some((u as int, f as int))
                && u < users.len() && f < users@[u as int].sync_folders.len(),
            None => find_any_folder(view_all(users@), folder_id@) is None,
        },
{
    let mut i: usize = 0;
    let ghost all = view_all(users@);
    proof {
        assert(all.take(0) =~= Seq::<UserView>::empty());
    }
    while i < users.len()
        invariant
            i <= users.len(),
            all == view_all(users@),
            find_any_folder(all.take(i as int), folder_id@) is None,
        decreases users.len() - i,
    {
        proof {
            assert(all.take(i + 1).drop_last() =~= all.take(i as int));
            assert(all.take(i + 1).last() == users@[i as int]@);
        }
        match find_folder_index(&users[i].sync_folders, folder_id) {
            Some(f) => {
                proof {
                    lemma_any_folder_stays(all, folder_id@, i + 1);
                }
                return Some((i, f));
            },
            None => {},
        }
        i += 1;
    }
    proof {
        assert(all.take(users.len() as int) =~= all);
    }
    None
}

proof fn lemma_any_folder_stays(users: Seq<UserView>, folder_id: Seq<char>, upto: int)
    requires
        0 < upto <= users.len(),
        find_any_folder(users.take(upto), folder_id) is Some,
    ensures
        find_any_folder(users, folder_id) == find_any_folder(users.take(upto), folder_id),
    decreases users.len() - upto,
{
    if upto < users.len() {
        assert(users.take(upto + 1).drop_last() =~= users.take(upto));
        lemma_any_folder_stays(users, folder_id, upto + 1);
    } else {
        assert(users.take(upto) =~= users);
    }
}


fn find_route_index(routes: &Vec<ComputerRoute>, user_id: &UserId, computer_id: &ComputerId) -> (r:
    Option<usize>)
    ensures
        match r {
            Some(i) => key_position(route_keys(view_all(routes@)), (user_id@, computer_id@)) == Some(
                i as int,
            ) && i < routes.len(),
            None => key_position(route_keys(view_all(routes@)), (user_id@, computer_id@)) is None,
        },
{
    let mut i: usize = 0;
    let ghost keys = route_keys(view_all(routes@));
    while i < routes.len()
        invariant
            i <= routes.len(),
            keys == route_keys(view_all(routes@)),
            forall|j: int| 0 <= j < i ==> keys[j] != (user_id@, computer_id@),
        decreases routes.len() - i,
    {
        if routes[i].user_id == *user_id && routes[i].computer_id == *computer_id {
            proof {
                assert(keys[i as int] == (user_id@, computer_id@));
                lemma_key_position(keys, (user_id@, computer_id@), i as int);
            }
            return Some(i);
        }
        i += 1;
    }
    proof {
        lemma_key_position(keys, (user_id@, computer_id@), i as int);
    }
    None
}

fn find_tracked_index(pending: &Vec<PendingOperation>, folder_id: &FolderId, operation_id: u64) -> (r:
    Option<usize>)
    ensures
        match r {
            Some(i) => key_position(pending_keys(view_all(pending@)), (folder_id@, operation_id))
                == Some(i as int) && i < pending.len(),
            None => key_position(pending_keys(view_all(pending@)), (folder_id@, operation_id))
                is None,
        },
{
    let mut i: usize = 0;
    let ghost keys = pending_keys(view_all(pending@));
    while i < pending.len()
        invariant
            i <= pending.len(),
            keys == pending_keys(view_all(pending@)),
            forall|j: int| 0 <= j < i ==> keys[j] != (folder_id@, operation_id),
        decreases pending.len() - i,
    {
        if pending[i].folder_id == *folder_id && pending[i].operation_id == operation_id {
            proof {
                assert(keys[i as int] == (folder_id@, operation_id));
                lemma_key_position(keys, (folder_id@, operation_id), i as int);
            }
            return Some(i);
        }
        i += 1;
    }
    proof {
        lemma_key_position(keys, (folder_id@, operation_id), i as int);
    }
    None
}

fn clone_id(id: &Option<String>) -> (r: Option<String>)
    ensures
        id_view(r) == id_view(*id),
{
    match id {
        Some(text) => Some(text.clone()),
        None => None,
    }
}

impl ServerState {
    /// A broker that knows nobody.
    pub fn new() -> (r: Self)
        ensures
            r@ == (ServerStateView {
                users: Seq::<UserView>::empty(),
                connections: Seq::<ConnectedClientView>::empty(),
                routes: Seq::<ComputerRouteView>::empty(),
                pending: Seq::<PendingOperationView>::empty(),
                operation_counter: 0,
            }),
    {
        let r = ServerState {
            users: Vec::new(),
            connections: Vec::new(),
            computer_connections: Vec::new(),
            pending_operations: Vec::new(),
            operation_counter: 0,
        };
        proof {
            assert(r@.users =~= Seq::<UserView>::empty());
            assert(r@.connections =~= Seq::<ConnectedClientView>::empty());
            assert(r@.routes =~= Seq::<ComputerRouteView>::empty());
            assert(r@.pending =~= Seq::<PendingOperationView>::empty());
        }
        r
    }

    /// Whether an operation on the folder that the connection speaks of
    /// can still be counted.
    pub fn has_room(&self, addr: &PeerAddr, folder_id: &FolderId) -> (r: bool)
        ensures
            r == has_room(self@, *addr, folder_id@),
    {
        if self.operation_counter == u64::MAX {
            return false;
        }
        match self.identity(addr) {
            None => true,
            Some((user_id, _computer_id)) => match self.get_folder(&user_id, folder_id) {
                None => true,
                Some(folder) => folder.pending_operations < u64::MAX,
            },
        }
    }

    /// The number of the next operation: one more than the last.
    pub fn next_operation_id(&mut self) -> (r: u64)
        requires
            old(self).operation_counter < u64::MAX,
        ensures
            r == old(self).operation_counter + 1,
            final(self)@ == (ServerStateView { operation_counter: r, ..old(self)@ }),
            keeps_invariants(old(self)@, final(self)@),
    {
        self.operation_counter = self.operation_counter + 1;
        proof {
            lemma_same_folders_keep_invariants(old(self)@, self@);
        }
        self.operation_counter
    }

    /// The user with the id, if the broker knows them.
    pub fn get_user(&self, user_id: &UserId) -> (r: Option<&User>)
        ensures
            match r {
                Some(user) => find_user(self@, user_id@) matches Some(u) && user@ == self@.users[u],
                None => find_user(self@, user_id@) is None,
            },
    {
        match find_user_index(&self.users, user_id) {
            Some(u) => Some(&self.users[u]),
            None => None,
        }
    }

    /// Records the user, unless the broker knows them already.
    pub fn ensure_user(&mut self, user_id: &UserId)
        ensures
            final(self)@ == with_user(old(self)@, user_id@),
            find_user(final(self)@, user_id@) is Some,
            keeps_invariants(old(self)@, final(self)@),
    {
        proof {
            lemma_new_user_keeps_invariants(self@, user_id@);
        }
        match find_user_index(&self.users, user_id) {
            Some(_) => {},
            None => {
                let ghost before = view_all(self.users@);
                let user = User {
                    id: user_id.clone(),
                    name: user_id.clone(),
                    computers: Vec::new(),
                    sync_folders: Vec::new(),
                };
                proof {
                    assert(user@.computers =~= Seq::<ComputerView>::empty());
                    assert(user@.sync_folders =~= Seq::<SyncFolderView>::empty());
                }
                self.users.push(user);
                proof {
                    assert(view_all(self.users@) =~= before.push(fresh_user(user_id@)));
                    lemma_key_position_is_first(user_ids(before), user_id@);
                    let keys = user_ids(view_all(self.users@));
                    assert forall|j: int| 0 <= j < before.len() implies keys[j] != user_id@ by {
                        assert(user_ids(before)[j] != user_id@);
                    }
                    lemma_key_position(keys, user_id@, before.len() as int);
                }
            },
        }
    }

    /// The folder of the user, if there is one.
    pub fn get_folder(&self, user_id: &UserId, folder_id: &FolderId) -> (r: Option<&SyncFolder>)
        ensures
            match r {
                Some(folder) => folder_of(self@, user_id@, folder_id@) == Some(folder@),
                None => folder_of(self@, user_id@, folder_id@) is None,
            },
    {
        match find_user_index(&self.users, user_id) {
            None => None,
            Some(u) => match find_folder_index(&self.users[u].sync_folders, folder_id) {
                None => None,
                Some(f) => Some(&self.users[u].sync_folders[f]),
            },
        }
    }

    fn locate_folder(&self, user_id: &UserId, folder_id: &FolderId) -> (r: Option<(usize, usize)>)
        ensures
            match r {
                Some((u, f)) => find_folder(self@, user_id@, folder_id@) == Some((u as int, f as int))
                    && u < self.users.len() && f < self.users[u as int].sync_folders.len(),
                None => find_folder(self@, user_id@, folder_id@) is None,
            },
    {
        match find_user_index(&self.users, user_id) {
            None => None,
            Some(u) => match find_folder_index(&self.users[u].sync_folders, folder_id) {
                None => None,
                Some(f) => Some((u, f)),
            },
        }
    }

    /// The user with the id, recorded first if the broker did not know
    /// them. What the caller writes to the user is written to the state.
    pub fn get_or_create_user(&mut self, user_id: &UserId) -> (r: &mut User)
        ensures
            find_user(with_user(old(self)@, user_id@), user_id@) matches Some(u) && r@ == with_user(
                old(self)@,
                user_id@,
            ).users[u] && view_all(final(self).users@) == with_user(
                old(self)@,
                user_id@,
            ).users.update(u, final(r)@),
            final(self)@.connections == old(self)@.connections,
            final(self)@.routes == old(self)@.routes,
            final(self)@.pending == old(self)@.pending,
            final(self)@.operation_counter == old(self)@.operation_counter,
    {
        self.ensure_user(user_id);
        let found = find_user_index(&self.users, user_id);
        let u = found.unwrap();
        proof {
            lemma_update_views(self.users@, u as int);
        }
        &mut self.users[u]
    }

    /// The user with the id, to be changed in place.
    pub fn get_user_mut(&mut self, user_id: &UserId) -> (r: Option<&mut User>)
        ensures
            match r {
                Some(user) => find_user(old(self)@, user_id@) matches Some(u) && user@ == old(
                    self,
                )@.users[u] && view_all(final(self).users@) == old(self)@.users.update(
                    u,
                    final(user)@,
                ),
                None => find_user(old(self)@, user_id@) is None && final(self).users == old(
                    self,
                ).users,
            },
            final(self).connections == old(self).connections,
            final(self).computer_connections == old(self).computer_connections,
            final(self).pending_operations == old(self).pending_operations,
            final(self).operation_counter == old(self).operation_counter,
    {
        match find_user_index(&self.users, user_id) {
            Some(u) => {
                proof {
                    lemma_update_views(self.users@, u as int);
                }
                Some(&mut self.users[u])
            },
            None => None,
        }
    }

    /// The folder of the user, to be changed in place.
    pub fn get_folder_mut(&mut self, user_id: &UserId, folder_id: &FolderId) -> (r: Option<
        &mut SyncFolder,
    >)
        ensures
            match r {
                Some(folder) => find_folder(old(self)@, user_id@, folder_id@) matches Some((u, f))
                    && folder@ == old(self)@.users[u].sync_folders[f] && view_all(
                    final(self).users@,
                ) == with_folder(old(self)@, u, f, final(folder)@).users,
                None => find_folder(old(self)@, user_id@, folder_id@) is None && final(self).users
                    == old(self).users,
            },
            final(self).connections == old(self).connections,
            final(self).computer_connections == old(self).computer_connections,
            final(self).pending_operations == old(self).pending_operations,
            final(self).operation_counter == old(self).operation_counter,
    {
        match self.locate_folder(user_id, folder_id) {
            Some((u, f)) => {
                proof {
                    lemma_nested_update_views(self.users@, u as int, f as int);
                }
                let user = &mut self.users[u];
                Some(&mut user.sync_folders[f])
            },
            None => None,
        }
    }

    /// What is known of the connection from the address, to be changed in
    /// place.
    pub fn get_connection_mut(&mut self, addr: &PeerAddr) -> (r: Option<&mut ConnectedClient>)
        ensures
            match r {
                Some(connection) => find_connection(old(self)@, *addr) matches Some(c)
                    && connection@ == old(self)@.connections[c] && view_all(
                    final(self).connections@,
                ) == old(self)@.connections.update(c, final(connection)@),
                None => find_connection(old(self)@, *addr) is None && final(self).connections
                    == old(self).connections,
            },
            final(self).users == old(self).users,
            final(self).computer_connections == old(self).computer_connections,
            final(self).pending_operations == old(self).pending_operations,
            final(self).operation_counter == old(self).operation_counter,
    {
        match find_connection_index(&self.connections, *addr) {
            Some(c) => {
                proof {
                    lemma_update_views(self.connections@, c as int);
                }
                Some(&mut self.connections[c])
            },
            None => None,
        }
    }

    /// Whether the folder of the user is marked as synced and has no
    /// operation pending.
    pub fn is_folder_synced(&self, user_id: &UserId, folder_id: &FolderId) -> (r: bool)
        ensures
            r == (folder_of(self@, user_id@, folder_id@) matches Some(folder) && fully_synced(
                folder,
            )),
    {
        match self.get_folder(user_id, folder_id) {
            Some(folder) => folder.is_fully_synced(),
            None => false,
        }
    }

    /// Marks the user's computer as online or offline.
    pub fn set_computer_online(&mut self, user_id: &UserId, computer_id: &ComputerId, online: bool)
        ensures
            final(self)@ == with_online(old(self)@, user_id@, computer_id@, online),
            keeps_invariants(old(self)@, final(self)@),
    {
        proof {
            lemma_online_keeps_invariants(self@, user_id@, computer_id@, online);
        }
        match find_user_index(&self.users, user_id) {
            None => {},
            Some(u) => match find_computer_index(&self.users[u].computers, computer_id) {
                None => {},
                Some(c) => {
                    let user = &mut self.users[u];
                    let computer = &mut user.computers[c];
                    computer.online = online;
                    proof {
                        let before = old(self)@;
                        assert(self.users@[u as int]@.computers =~= before.users[u as int].computers.update(
                            c as int,
                            ComputerView { online, ..before.users[u as int].computers[c as int] },
                        ));
                        assert(self.users@[u as int]@.sync_folders =~= before.users[u as int].sync_folders);
                        assert(view_all(self.users@) =~= with_online(
                            before,
                            user_id@,
                            computer_id@,
                            online,
                        ).users);
                    }
                },
            },
        }
    }

    /// Records a connection from the address, with nobody authenticated.
    pub fn register_connection(&mut self, addr: PeerAddr)
        ensures
            final(self)@ == with_connection(old(self)@, addr),
            keeps_invariants(old(self)@, final(self)@),
    {
        proof {
            lemma_same_folders_keep_invariants(self@, with_connection(self@, addr));
        }
        let fresh = ConnectedClient { user_id: None, computer_id: None, addr };
        let ghost before = view_all(self.connections@);
        match find_connection_index(&self.connections, addr) {
            Some(c) => {
                self.connections.set(c, fresh);
                proof {
                    assert(view_all(self.connections@) =~= before.update(c as int, fresh@));
                }
            },
            None => {
                self.connections.push(fresh);
                proof {
                    assert(view_all(self.connections@) =~= before.push(fresh@));
                }
            },
        }
    }

    /// Forgets the connection from the address and returns what was known
    /// of it.
    pub fn remove_connection(&mut self, addr: &PeerAddr) -> (r: Option<ConnectedClient>)
        ensures
            final(self)@ == without_connection(old(self)@, *addr),
            keeps_invariants(old(self)@, final(self)@),
            match r {
                Some(connection) => find_connection(old(self)@, *addr) matches Some(c)
                    && connection@ == old(self)@.connections[c],
                None => find_connection(old(self)@, *addr) is None,
            },
    {
        proof {
            lemma_same_folders_keep_invariants(self@, without_connection(self@, *addr));
        }
        let ghost before = view_all(self.connections@);
        match find_connection_index(&self.connections, *addr) {
            Some(c) => {
                let connection = self.connections.remove(c);
                proof {
                    assert(view_all(self.connections@) =~= before.remove(c as int));
                }
                Some(connection)
            },
            None => None,
        }
    }

    /// What is known of the connection from the address.
    pub fn get_connection(&self, addr: &PeerAddr) -> (r: Option<&ConnectedClient>)
        ensures
            match r {
                Some(connection) => find_connection(self@, *addr) matches Some(c) && connection@
                    == self@.connections[c],
                None => find_connection(self@, *addr) is None,
            },
    {
        match find_connection_index(&self.connections, *addr) {
            Some(c) => Some(&self.connections[c]),
            None => None,
        }
    }

    /// The user and the computer that have authenticated on the connection
    /// from the address.
    pub fn identity(&self, addr: &PeerAddr) -> (r: Option<(UserId, ComputerId)>)
        ensures
            match r {
                Some((user, computer)) => identity_of(self@, *addr) == Some((user@, computer@)),
                None => identity_of(self@, *addr) is None,
            },
    {
        match self.get_connection(addr) {
            None => None,
            Some(connection) => match (&connection.user_id, &connection.computer_id) {
                (Some(user), Some(computer)) => Some((user.clone(), computer.clone())),
                _ => None,
            },
        }
    }

    /// The user that has authenticated on the connection from the address.
    pub fn connected_user(&self, addr: &PeerAddr) -> (r: Option<UserId>)
        ensures
            id_view(r) == user_of(self@, *addr),
    {
        match self.get_connection(addr) {
            None => None,
            Some(connection) => clone_id(&connection.user_id),
        }
    }

    /// Binds the connection from the address to the user's computer, where
    /// the user has registered that computer.
    pub fn authenticate_connection(&mut self, addr: &PeerAddr, user_id: UserId, computer_id: ComputerId) -> (r:
        Result<(), &'static str>)
        ensures
            r is Ok <==> has_computer(old(self)@, user_id@, computer_id@),
            r is Ok ==> final(self)@ == with_authentication(
                old(self)@,
                *addr,
                user_id@,
                computer_id@,
            ),
            r matches Err(reason) ==> reason@ == "Computer not registered for user"@ && final(self)@
                == old(self)@,
            keeps_invariants(old(self)@, final(self)@),
    {
        proof {
            let st = self@;
            let bound = match find_connection(st, *addr) {
                Some(c) => st.connections.update(
                    c,
                    ConnectedClientView {
                        user_id: Some(user_id@),
                        computer_id: Some(computer_id@),
                        addr: *addr,
                    },
                ),
                None => st.connections,
            };
            let middle = ServerStateView {
                connections: bound,
                routes: upsert(
                    st.routes,
                    route_keys(st.routes),
                    (user_id@, computer_id@),
                    ComputerRouteView { user_id: user_id@, computer_id: computer_id@, addr: *addr },
                ),
                ..st
            };
            assert(with_authentication(st, *addr, user_id@, computer_id@) == with_online(
                middle,
                user_id@,
                computer_id@,
                true,
            ));
            lemma_online_keeps_users_folders(middle, user_id@, computer_id@, true);
            lemma_same_folders_keep_invariants(
                st,
                with_authentication(st, *addr, user_id@, computer_id@),
            );
        }
        let known = match find_user_index(&self.users, &user_id) {
            None => false,
            Some(u) => {
                let found = find_computer_index(&self.users[u].computers, &computer_id);
                proof {
                    lemma_key_position_is_first(
                        computer_ids(self@.users[u as int].computers),
                        computer_id@,
                    );
                }
                found.is_some()
            },
        };
        if !known {
            return Err("Computer not registered for user");
        }
        let ghost before = self@;
        match find_connection_index(&self.connections, *addr) {
            Some(c) => {
                let bound = ConnectedClient {
                    user_id: Some(user_id.clone()),
                    computer_id: Some(computer_id.clone()),
                    addr: *addr,
                };
                self.connections.set(c, bound);
                proof {
                    assert(view_all(self.connections@) =~= before.connections.update(
                        c as int,
                        bound@,
                    ));
                }
            },
            None => {},
        }
        let route = ComputerRoute {
            user_id: user_id.clone(),
            computer_id: computer_id.clone(),
            addr: *addr,
        };
        match find_route_index(&self.computer_connections, &user_id, &computer_id) {
            Some(i) => {
                self.computer_connections.set(i, route);
                proof {
                    assert(view_all(self.computer_connections@) =~= before.routes.update(
                        i as int,
                        route@,
                    ));
                }
            },
            None => {
                self.computer_connections.push(route);
                proof {
                    assert(view_all(self.computer_connections@) =~= before.routes.push(route@));
                }
            },
        }
        self.set_computer_online(&user_id, &computer_id, true);
        Ok(())
    }

    /// Forgets the route to the user's computer.
    pub fn remove_route(&mut self, user_id: &UserId, computer_id: &ComputerId)
        ensures
            final(self)@ == without_route(old(self)@, user_id@, computer_id@),
            keeps_invariants(old(self)@, final(self)@),
    {
        proof {
            lemma_same_folders_keep_invariants(self@, without_route(self@, user_id@, computer_id@));
        }
        let ghost before = view_all(self.computer_connections@);
        match find_route_index(&self.computer_connections, user_id, computer_id) {
            Some(i) => {
                self.computer_connections.remove(i);
                proof {
                    assert(view_all(self.computer_connections@) =~= before.remove(i as int));
                }
            },
            None => {},
        }
    }

    /// Adds a computer to those of the user. Returns whether the user is
    /// known.
    pub fn register_computer(&mut self, user_id: &UserId, computer: Computer) -> (r: bool)
        ensures
            r == find_user(old(self)@, user_id@) is Some,
            final(self)@ == with_computer(old(self)@, user_id@, computer@),
            keeps_invariants(old(self)@, final(self)@),
    {
        proof {
            lemma_key_position_is_first(user_ids(self@.users), user_id@);
            lemma_same_folders_keep_invariants(self@, with_computer(self@, user_id@, computer@));
        }
        match find_user_index(&self.users, user_id) {
            None => false,
            Some(u) => {
                let user = &mut self.users[u];
                user.computers.push(computer);
                proof {
                    let before = old(self)@;
                    assert(self.users@[u as int]@.computers =~= before.users[u as int].computers.push(
                        computer@,
                    ));
                    assert(self.users@[u as int]@.sync_folders =~= before.users[u as int].sync_folders);
                    assert(view_all(self.users@) =~= before.users.update(
                        u as int,
                        UserView {
                            computers: before.users[u as int].computers.push(computer@),
                            ..before.users[u as int]
                        },
                    ));
                }
                true
            },
        }
    }

    /// Adds a folder to those of the user. Returns whether the user is
    /// known.
    pub fn create_sync_folder(&mut self, user_id: &UserId, folder: SyncFolder) -> (r: bool)
        ensures
            r == find_user(old(self)@, user_id@) is Some,
            final(self)@ == with_new_folder(old(self)@, user_id@, folder@),
            origins_apart(old(self)@) && origin_apart(folder@) ==> origins_apart(final(self)@),
            all_synced_iff_idle(old(self)@) && synced_iff_idle(folder@) ==> all_synced_iff_idle(
                final(self)@,
            ),
            all_synced_only_if_idle(old(self)@) && synced_only_if_idle(folder@)
                ==> all_synced_only_if_idle(final(self)@),
    {
        proof {
            lemma_new_folder_keeps_invariants(self@, user_id@, folder@);
        }
        match find_user_index(&self.users, user_id) {
            None => false,
            Some(u) => {
                let user = &mut self.users[u];
                user.sync_folders.push(folder);
                proof {
                    let before = old(self)@;
                    assert(self.users@[u as int]@.sync_folders =~= before.users[u as int].sync_folders.push(
                        folder@,
                    ));
                    assert(self.users@[u as int]@.computers =~= before.users[u as int].computers);
                    assert(view_all(self.users@) =~= before.users.update(
                        u as int,
                        UserView {
                            sync_folders: before.users[u as int].sync_folders.push(folder@),
                            ..before.users[u as int]
                        },
                    ));
                }
                true
            },
        }
    }

    /// Makes the computer a backup of the user's folder and returns the
    /// folder as it then is.
    pub fn join_sync_folder(&mut self, user_id: &UserId, folder_id: &FolderId, computer_id: &ComputerId) -> (r:
        Option<SyncFolder>)
        requires
            folder_of(old(self)@, user_id@, folder_id@) matches Some(folder) ==> (joins_anew(
                folder,
                computer_id@,
            ) ==> folder.pending_operations < u64::MAX),
        ensures
            match folder_of(old(self)@, user_id@, folder_id@) {
                Some(folder) => {
                    &&& final(self)@ == with_folder_change(
                        old(self)@,
                        user_id@,
                        folder_id@,
                        joined(folder, computer_id@),
                    )
                    &&& r matches Some(now) && now@ == joined(folder, computer_id@)
                },
                None => final(self)@ == old(self)@ && r is None,
            },
            keeps_invariants(old(self)@, final(self)@),
            (folder_of(old(self)@, user_id@, folder_id@) matches Some(folder) && !joins_anew(
                folder,
                computer_id@,
            )) ==> final(self)@ == old(self)@,
    {
        match self.locate_folder(user_id, folder_id) {
            None => None,
            Some((u, f)) => {
                let user = &mut self.users[u];
                let folder = &mut user.sync_folders[f];
                folder.join(computer_id);
                let copy = folder.clone();
                proof {
                    lemma_folder_replaced(old(self)@, self@, u as int, f as int);
                    let before = old(self)@.users[u as int].sync_folders[f as int];
                    let after = self@.users[u as int].sync_folders[f as int];
                    if origins_apart(old(self)@) {
                        lemma_join_keeps_origin_apart(before, computer_id@);
                        lemma_origins_apart_kept(old(self)@, u as int, f as int, after);
                    }
                    if !joins_anew(before, computer_id@) {
                        lemma_folder_kept(old(self)@, u as int, f as int);
                    }
                    lemma_synced_iff_idle_everywhere(old(self)@, u as int, f as int, after);
                }
                Some(copy)
            },
        }
    }

    /// Takes the computer out of the backups of the user's folder.
    pub fn leave_sync_folder(&mut self, user_id: &UserId, folder_id: &FolderId, computer_id: &ComputerId)
        ensures
            match folder_of(old(self)@, user_id@, folder_id@) {
                Some(folder) => final(self)@ == with_folder_change(
                    old(self)@,
                    user_id@,
                    folder_id@,
                    left(folder, computer_id@),
                ),
                None => final(self)@ == old(self)@,
            },
            !(folder_of(old(self)@, user_id@, folder_id@) matches Some(folder) && has_backup(
                folder,
                computer_id@,
            )) ==> final(self)@ == old(self)@,
            origins_apart(old(self)@) ==> origins_apart(final(self)@),
            all_synced_iff_idle(old(self)@) ==> all_synced_iff_idle(final(self)@),
            all_synced_only_if_idle(old(self)@) ==> all_synced_only_if_idle(final(self)@),
    {
        match self.locate_folder(user_id, folder_id) {
            None => {},
            Some((u, f)) => {
                let user = &mut self.users[u];
                let folder = &mut user.sync_folders[f];
                folder.leave(computer_id);
                proof {
                    lemma_folder_replaced(old(self)@, self@, u as int, f as int);
                    let before = old(self)@.users[u as int].sync_folders[f as int];
                    let after = self@.users[u as int].sync_folders[f as int];
                    if !has_backup(before, computer_id@) {
                        lemma_leave_without_membership(before, computer_id@);
                        lemma_folder_kept(old(self)@, u as int, f as int);
                    }
                    if origins_apart(old(self)@) {
                        lemma_leave_keeps_origin_apart(before, computer_id@);
                        lemma_origins_apart_kept(old(self)@, u as int, f as int, after);
                    }
                    lemma_synced_iff_idle_everywhere(old(self)@, u as int, f as int, after);
                }
            },
        }
    }

    /// Whether the computer is the origin of the user's folder.
    pub fn is_origin(&self, user_id: &UserId, folder_id: &FolderId, computer_id: &ComputerId) -> (r:
        bool)
        ensures
            r == (folder_of(self@, user_id@, folder_id@) matches Some(folder)
                && folder.origin_computer == computer_id@),
    {
        match self.get_folder(user_id, folder_id) {
            Some(folder) => folder.is_origin(computer_id),
            None => false,
        }
    }

    /// Whether the computer is a backup of the user's folder.
    pub fn is_backup(&self, user_id: &UserId, folder_id: &FolderId, computer_id: &ComputerId) -> (r:
        bool)
        ensures
            r == (folder_of(self@, user_id@, folder_id@) matches Some(folder) && has_backup(
                folder,
                computer_id@,
            )),
    {
        match self.get_folder(user_id, folder_id) {
            Some(folder) => folder.is_backup(computer_id),
            None => false,
        }
    }

    /// Makes the backup `new_origin` the origin of the user's folder,
    /// where the folder is quiet; the old origin becomes a backup. A folder
    /// that is not there counts as not synced.
    pub fn switch_origin(&mut self, user_id: &UserId, folder_id: &FolderId, new_origin: &ComputerId) -> (r:
        Result<(), &'static str>)
        ensures
            match folder_of(old(self)@, user_id@, folder_id@) {
                Some(folder) => match switch_outcome(folder, new_origin@) {
                    Ok(now) => r is Ok && final(self)@ == with_folder_change(
                        old(self)@,
                        user_id@,
                        folder_id@,
                        now,
                    ),
                    Err(reason) => {
                        &&& final(self)@ == old(self)@
                        &&& r matches Err(told) && told@ == reason
                    },
                },
                None => {
                    &&& final(self)@ == old(self)@
                    &&& r matches Err(told) && told@ == reason_not_synced()
                },
            },
            origins_apart(old(self)@) ==> origins_apart(final(self)@),
            all_synced_iff_idle(old(self)@) ==> all_synced_iff_idle(final(self)@),
            all_synced_only_if_idle(old(self)@) ==> all_synced_only_if_idle(final(self)@),
    {
        match self.locate_folder(user_id, folder_id) {
            None => Err("Folder has pending operations and is not fully synced"),
            Some((u, f)) => {
                let user = &mut self.users[u];
                let folder = &mut user.sync_folders[f];
                let r = folder.switch_origin(new_origin);
                proof {
                    lemma_folder_replaced(old(self)@, self@, u as int, f as int);
                    let before = old(self)@.users[u as int].sync_folders[f as int];
                    let after = self@.users[u as int].sync_folders[f as int];
                    if r is Err {
                        lemma_folder_kept(old(self)@, u as int, f as int);
                    } else {
                        if origins_apart(old(self)@) {
                            lemma_switch_keeps_origin_apart(before, new_origin@);
                            lemma_origins_apart_kept(old(self)@, u as int, f as int, after);
                        }
                        lemma_synced_iff_idle_everywhere(old(self)@, u as int, f as int, after);
                    }
                }
                r
            },
        }
    }

    /// Counts one more pending operation for the user's folder.
    pub fn increment_pending_operations(&mut self, user_id: &UserId, folder_id: &FolderId)
        requires
            folder_of(old(self)@, user_id@, folder_id@) matches Some(folder)
                ==> folder.pending_operations < u64::MAX,
        ensures
            match folder_of(old(self)@, user_id@, folder_id@) {
                Some(folder) => final(self)@ == with_folder_change(
                    old(self)@,
                    user_id@,
                    folder_id@,
                    with_operation(folder),
                ),
                None => final(self)@ == old(self)@,
            },
            origins_apart(old(self)@) ==> origins_apart(final(self)@),
            all_synced_iff_idle(old(self)@) ==> all_synced_iff_idle(final(self)@),
            all_synced_only_if_idle(old(self)@) ==> all_synced_only_if_idle(final(self)@),
    {
        match self.locate_folder(user_id, folder_id) {
            None => {},
            Some((u, f)) => {
                let user = &mut self.users[u];
                let folder = &mut user.sync_folders[f];
                folder.add_operation();
                proof {
                    lemma_folder_replaced(old(self)@, self@, u as int, f as int);
                    let after = self@.users[u as int].sync_folders[f as int];
                    if origins_apart(old(self)@) {
                        lemma_origins_apart_kept(old(self)@, u as int, f as int, after);
                    }
                    lemma_synced_iff_idle_everywhere(old(self)@, u as int, f as int, after);
                }
            },
        }
    }

    /// The number of backups of the user's folder; 0 where there is no
    /// such folder.
    pub fn get_backup_count(&self, user_id: &UserId, folder_id: &FolderId) -> (r: usize)
        ensures
            r == (match folder_of(self@, user_id@, folder_id@) {
                Some(folder) => folder.backup_computers.len(),
                None => 0,
            }),
    {
        match self.get_folder(user_id, folder_id) {
            Some(folder) => folder.backup_computers.len(),
            None => 0,
        }
    }

    /// Records that the operation of the folder waits for `backup_count`
    /// acknowledgements.
    pub fn track_operation(&mut self, folder_id: &FolderId, operation_id: u64, backup_count: usize)
        ensures
            final(self)@ == with_tracking(old(self)@, folder_id@, operation_id, backup_count),
            keeps_invariants(old(self)@, final(self)@),
    {
        proof {
            lemma_same_folders_keep_invariants(
                self@,
                with_tracking(self@, folder_id@, operation_id, backup_count),
            );
        }
        let row = PendingOperation {
            folder_id: folder_id.clone(),
            operation_id,
            remaining: backup_count,
        };
        let ghost before = view_all(self.pending_operations@);
        match find_tracked_index(&self.pending_operations, folder_id, operation_id) {
            Some(i) => {
                self.pending_operations.set(i, row);
                proof {
                    assert(view_all(self.pending_operations@) =~= before.update(i as int, row@));
                }
            },
            None => {
                self.pending_operations.push(row);
                proof {
                    assert(view_all(self.pending_operations@) =~= before.push(row@));
                }
            },
        }
    }

    /// Takes one acknowledgement of the operation with the number. With
    /// the last one the operation is done: its folder counts one pending
    /// operation less, and is synced when none is left.
    pub fn acknowledge_operation(&mut self, operation_id: u64)
        ensures
            final(self)@ == with_acknowledgement(old(self)@, operation_id),
            origins_apart(old(self)@) ==> origins_apart(final(self)@),
            all_synced_iff_idle(old(self)@) ==> all_synced_iff_idle(final(self)@),
            all_synced_only_if_idle(old(self)@) ==> all_synced_only_if_idle(final(self)@),
    {
        let ghost before = self@;
        match find_pending_index(&self.pending_operations, operation_id) {
            None => {},
            Some(p) => {
                if self.pending_operations[p].remaining > 1 {
                    let row = &mut self.pending_operations[p];
                    row.remaining = row.remaining - 1;
                    proof {
                        assert(view_all(self.pending_operations@) =~= before.pending.update(
                            p as int,
                            PendingOperationView {
                                remaining: (before.pending[p as int].remaining - 1) as usize,
                                ..before.pending[p as int]
                            },
                        ));
                    }
                } else {
                    let row = self.pending_operations.remove(p);
                    proof {
                        assert(view_all(self.pending_operations@) =~= before.pending.remove(
                            p as int,
                        ));
                    }
                    match find_owner(&self.users, &row.folder_id) {
                        None => {},
                        Some((u, f)) => {
                            let ghost middle = self@;
                            let user = &mut self.users[u];
                            let folder = &mut user.sync_folders[f];
                            folder.complete_operation();
                            proof {
                                lemma_folder_replaced(middle, self@, u as int, f as int);
                                let was = middle.users[u as int].sync_folders[f as int];
                                let after = self@.users[u as int].sync_folders[f as int];
                                if origins_apart(middle) {
                                    assert(origin_apart(was));
                                    lemma_accounting_keeps_origin_apart(was);
                                    lemma_origins_apart_kept(middle, u as int, f as int, after);
                                }
                                if all_synced_iff_idle(middle) {
                                    assert(synced_iff_idle(was));
                                }
                                if all_synced_only_if_idle(middle) {
                                    assert(synced_only_if_idle(was));
                                }
                                lemma_synced_iff_idle_everywhere(middle, u as int, f as int, after);
                            }
                        },
                    }
                }
            },
        }
    }

    /// Whether the connection from the address is to get what is broadcast
    /// for the folder: its computer is a backup of the folder.
    pub fn should_receive_broadcast(&self, addr: &PeerAddr, folder_id: &FolderId) -> (r: bool)
        ensures
            r == receives_broadcast(self@, *addr, folder_id@),
    {
        match self.identity(addr) {
            Some((user, computer)) => self.is_backup(&user, folder_id, &computer),
            None => false,
        }
    }
}

/// The views of a list with one entry replaced are the views with that
/// entry's view replaced.
proof fn lemma_update_views<T: View>(items: Seq<T>, i: int)
    requires
        0 <= i < items.len(),
    ensures
        forall|item: T| #[trigger] view_all(items.update(i, item)) == view_all(items).update(i, item@),
{
    assert forall|item: T| #[trigger] view_all(items.update(i, item)) == view_all(items).update(
        i,
        item@,
    ) by {
        assert(view_all(items.update(i, item)) =~= view_all(items).update(i, item@));
    }
}

/// The views of the users with one folder of one user replaced.
proof fn lemma_nested_update_views(users: Seq<User>, u: int, f: int)
    requires
        0 <= u < users.len(),
        0 <= f < users[u].sync_folders.len(),
    ensures
        forall|user: User, folder: SyncFolder|
            user.id == users[u].id && user.name == users[u].name && user.computers
                == users[u].computers && user.sync_folders@ == users[u].sync_folders@.update(
                f,
                folder,
            ) ==> #[trigger] view_all(users.update(u, user)) == view_all(users).update(
                u,
                UserView {
                    sync_folders: view_all(users)[u].sync_folders.update(f, #[trigger] folder@),
                    ..view_all(users)[u]
                },
            ),
{
    assert forall|user: User, folder: SyncFolder|
        user.id == users[u].id && user.name == users[u].name && user.computers
            == users[u].computers && user.sync_folders@ == users[u].sync_folders@.update(
            f,
            folder,
        ) implies #[trigger] view_all(users.update(u, user)) == view_all(users).update(
        u,
        UserView {
            sync_folders: view_all(users)[u].sync_folders.update(f, #[trigger] folder@),
            ..view_all(users)[u]
        },
    ) by {
        assert(user@.sync_folders =~= view_all(users)[u].sync_folders.update(f, folder@));
        assert(view_all(users.update(u, user)) =~= view_all(users).update(
            u,
            UserView {
                sync_folders: view_all(users)[u].sync_folders.update(f, folder@),
                ..view_all(users)[u]
            },
        ));
    }
}

/// Marking a computer as online or offline keeps every user where they
/// are.
pub proof fn lemma_online_keeps_users(
    st: ServerStateView,
    user_id: Seq<char>,
    computer_id: Seq<char>,
    online: bool,
)
    ensures
        user_ids(with_online(st, user_id, computer_id, online).users) == user_ids(st.users),
{
    lemma_key_position_is_first(user_ids(st.users), user_id);
    match find_user(st, user_id) {
        Some(u) => {
            lemma_key_position_is_first(computer_ids(st.users[u].computers), computer_id);
        },
        None => {},
    }
    assert(user_ids(with_online(st, user_id, computer_id, online).users) =~= user_ids(st.users));
}

/// Marking a computer as online or offline leaves every folder as it is.
pub proof fn lemma_online_keeps_users_folders(
    st: ServerStateView,
    user_id: Seq<char>,
    computer_id: Seq<char>,
    online: bool,
)
    ensures
        with_online(st, user_id, computer_id, online).users.len() == st.users.len(),
        forall|u: int|
            0 <= u < st.users.len() ==> (#[trigger] with_online(
                st,
                user_id,
                computer_id,
                online,
            ).users[u]).sync_folders == st.users[u].sync_folders,
{
    lemma_key_position_is_first(user_ids(st.users), user_id);
    match find_user(st, user_id) {
        Some(u) => {
            lemma_key_position_is_first(computer_ids(st.users[u].computers), computer_id);
        },
        None => {},
    }
}

/// Marking a computer as online or offline keeps what holds of every
/// folder.
pub proof fn lemma_online_keeps_invariants(
    st: ServerStateView,
    user_id: Seq<char>,
    computer_id: Seq<char>,
    online: bool,
)
    ensures
        keeps_invariants(st, with_online(st, user_id, computer_id, online)),
{
    lemma_online_keeps_users_folders(st, user_id, computer_id, online);
    lemma_same_folders_keep_invariants(st, with_online(st, user_id, computer_id, online));
}

/// Changing one folder in place gives the state with that folder replaced.
proof fn lemma_folder_replaced(before: ServerStateView, after: ServerStateView, u: int, f: int)
    requires
        0 <= u < before.users.len(),
        0 <= f < before.users[u].sync_folders.len(),
        after.users.len() == before.users.len(),
        forall|j: int| 0 <= j < before.users.len() && j != u ==> after.users[j] == before.users[j],
        after.users[u].id == before.users[u].id,
        after.users[u].name == before.users[u].name,
        after.users[u].computers == before.users[u].computers,
        after.users[u].sync_folders.len() == before.users[u].sync_folders.len(),
        forall|k: int|
            0 <= k < before.users[u].sync_folders.len() && k != f ==> after.users[u].sync_folders[k]
                == before.users[u].sync_folders[k],
        after.connections == before.connections,
        after.routes == before.routes,
        after.pending == before.pending,
        after.operation_counter == before.operation_counter,
    ensures
        after == with_folder(before, u, f, after.users[u].sync_folders[f]),
{
    let wanted = with_folder(before, u, f, after.users[u].sync_folders[f]);
    assert(after.users[u].sync_folders =~= wanted.users[u].sync_folders);
    assert(after.users =~= wanted.users);
}

/// Replacing a folder by itself changes nothing.
proof fn lemma_folder_kept(st: ServerStateView, u: int, f: int)
    requires
        0 <= u < st.users.len(),
        0 <= f < st.users[u].sync_folders.len(),
    ensures
        with_folder(st, u, f, st.users[u].sync_folders[f]) == st,
{
    let same = with_folder(st, u, f, st.users[u].sync_folders[f]);
    assert(same.users[u].sync_folders =~= st.users[u].sync_folders);
    assert(same.users =~= st.users);
}

/// Replacing a folder by one whose origin is apart from its backups keeps
/// every origin apart.
pub proof fn lemma_origins_apart_kept(st: ServerStateView, u: int, f: int, folder: SyncFolderView)
    requires
        origins_apart(st),
        origin_apart(folder),
        0 <= u < st.users.len(),
        0 <= f < st.users[u].sync_folders.len(),
    ensures
        origins_apart(with_folder(st, u, f, folder)),
{
    let now = with_folder(st, u, f, folder);
    assert forall|a: int, b: int|
        0 <= a < now.users.len() && 0 <= b < now.users[a].sync_folders.len() implies origin_apart(
        #[trigger] now.users[a].sync_folders[b],
    ) by {
        if a == u && b == f {
        } else {
            assert(now.users[a].sync_folders[b] == st.users[a].sync_folders[b]);
        }
    }
}

} // verus!
