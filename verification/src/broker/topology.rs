//! Who may write to a folder: the origin, the backups, and the rules by
//! which a backup becomes the origin.

use vstd::prelude::*;
use crate::broker::protocol::{ComputerId, SyncFolder, SyncFolderView};
use crate::lookup::{contains_text, lemma_without, remove_text, without};
use crate::text::view_all;

verus! {

/// Why a switch of origin was denied: operations are pending.
pub open spec fn reason_not_synced() -> Seq<char> {
    "Folder has pending operations and is not fully synced"@
}

/// Why a switch of origin was denied: the computer is no backup.
pub open spec fn reason_not_backup() -> Seq<char> {
    "Only backup computers can request to become origin"@
}

/// Whether the folder is quiet: marked as synced, with no operation
/// pending.
pub open spec fn fully_synced(f: SyncFolderView) -> bool {
    f.is_synced && f.pending_operations == 0
}

/// Whether the computer is a backup of the folder.
pub open spec fn has_backup(f: SyncFolderView, computer: Seq<char>) -> bool {
    f.backup_computers.contains(computer)
}

/// Whether the computer would be a new backup of the folder: it is
/// neither the origin nor a backup already.
pub open spec fn joins_anew(f: SyncFolderView, computer: Seq<char>) -> bool {
    !has_backup(f, computer) && f.origin_computer != computer
}

/// The folder after a computer has joined as a backup. A new backup is
/// added at the end, and its catching up counts as one more pending
/// operation, so that the folder is not synced until the backup has
/// acknowledged it. The origin and a computer that is a backup already
/// change nothing.
pub open spec fn joined(f: SyncFolderView, computer: Seq<char>) -> SyncFolderView {
    if joins_anew(f, computer) {
        SyncFolderView {
            backup_computers: f.backup_computers.push(computer),
            is_synced: false,
            pending_operations: (f.pending_operations + 1) as u64,
            ..f
        }
    } else {
        f
    }
}

/// The folder after a computer has left: it is no backup any more.
pub open spec fn left(f: SyncFolderView, computer: Seq<char>) -> SyncFolderView {
    SyncFolderView { backup_computers: without(f.backup_computers, computer), ..f }
}

/// The folder after the backup `computer` has become the origin: the old
/// origin is the last of the backups.
pub open spec fn switched(f: SyncFolderView, computer: Seq<char>) -> SyncFolderView {
    SyncFolderView {
        origin_computer: computer,
        backup_computers: without(f.backup_computers, computer).push(f.origin_computer),
        ..f
    }
}

/// What a request to become the origin leads to: the reason of a denial,
/// or the folder after the switch.
pub open spec fn switch_outcome(f: SyncFolderView, computer: Seq<char>) -> Result<
    SyncFolderView,
    Seq<char>,
> {
    if !fully_synced(f) {
        Err(reason_not_synced())
    } else if !has_backup(f, computer) {
        Err(reason_not_backup())
    } else {
        Ok(switched(f, computer))
    }
}

/// The folder with one more operation pending.
pub open spec fn with_operation(f: SyncFolderView) -> SyncFolderView {
    SyncFolderView {
        pending_operations: (f.pending_operations + 1) as u64,
        is_synced: false,
        ..f
    }
}

/// The folder after every backup has acknowledged one operation: one
/// operation less is pending, and with none left the folder is synced.
pub open spec fn with_completion(f: SyncFolderView) -> SyncFolderView {
    if f.pending_operations == 0 {
        f
    } else {
        SyncFolderView {
            pending_operations: (f.pending_operations - 1) as u64,
            is_synced: f.pending_operations == 1,
            ..f
        }
    }
}

/// The origin is not among the backups.
pub open spec fn origin_apart(f: SyncFolderView) -> bool {
    !f.backup_computers.contains(f.origin_computer)
}

/// The folder is marked as synced exactly when no operation is pending.
pub open spec fn synced_iff_idle(f: SyncFolderView) -> bool {
    f.is_synced <==> f.pending_operations == 0
}

/// A folder that is marked as synced has no operation pending.
pub open spec fn synced_only_if_idle(f: SyncFolderView) -> bool {
    f.is_synced ==> f.pending_operations == 0
}

/// A switch of origin keeps the origin out of the backups.
pub proof fn lemma_switch_keeps_origin_apart(f: SyncFolderView, computer: Seq<char>)
    requires
        origin_apart(f),
        has_backup(f, computer),
    ensures
        origin_apart(switched(f, computer)),
{
    lemma_without(f.backup_computers, computer);
    let rest = without(f.backup_computers, computer);
    let now = rest.push(f.origin_computer);
    if now.contains(computer) {
        let i = choose|i: int| 0 <= i < now.len() && now[i] == computer;
        if i < rest.len() {
            assert(rest[i] == computer);
            assert(rest.contains(computer));
        }
    }
}

/// A computer that joins keeps the origin out of the backups, whichever
/// computer it is: the origin itself is not taken as a backup.
pub proof fn lemma_join_keeps_origin_apart(f: SyncFolderView, computer: Seq<char>)
    requires
        origin_apart(f),
    ensures
        origin_apart(joined(f, computer)),
{
    if joins_anew(f, computer) {
        let now = f.backup_computers.push(computer);
        if now.contains(f.origin_computer) {
            let i = choose|i: int| 0 <= i < now.len() && now[i] == f.origin_computer;
            assert(f.backup_computers[i] == f.origin_computer);
        }
    }
}

/// A computer that leaves keeps the origin out of the backups.
pub proof fn lemma_leave_keeps_origin_apart(f: SyncFolderView, computer: Seq<char>)
    requires
        origin_apart(f),
    ensures
        origin_apart(left(f, computer)),
{
    lemma_without(f.backup_computers, computer);
}

/// Counting operations keeps the origin where it is, and the backups.
pub proof fn lemma_accounting_keeps_origin_apart(f: SyncFolderView)
    requires
        origin_apart(f),
    ensures
        origin_apart(with_operation(f)),
        origin_apart(with_completion(f)),
{
}

/// Leaving a folder of which the computer is no backup changes nothing.
pub proof fn lemma_leave_without_membership(f: SyncFolderView, computer: Seq<char>)
    requires
        !has_backup(f, computer),
    ensures
        left(f, computer) == f,
{
    lemma_without(f.backup_computers, computer);
}

/// A new operation, a completed one, a switch of origin, a computer that
/// joins and one that leaves all keep the folder synced exactly when
/// nothing is pending.
pub proof fn lemma_synced_iff_idle_kept(f: SyncFolderView, computer: Seq<char>)
    requires
        synced_iff_idle(f),
        f.pending_operations < u64::MAX,
    ensures
        synced_iff_idle(with_operation(f)),
        synced_iff_idle(with_completion(f)),
        synced_iff_idle(switched(f, computer)),
        synced_iff_idle(left(f, computer)),
        synced_iff_idle(joined(f, computer)),
{
}

/// Every change to a folder, a join included, keeps a synced folder free
/// of pending operations.
pub proof fn lemma_synced_only_if_idle_kept(f: SyncFolderView, computer: Seq<char>)
    requires
        synced_only_if_idle(f),
        f.pending_operations < u64::MAX,
    ensures
        synced_only_if_idle(with_operation(f)),
        synced_only_if_idle(with_completion(f)),
        synced_only_if_idle(switched(f, computer)),
        synced_only_if_idle(left(f, computer)),
        synced_only_if_idle(joined(f, computer)),
{
}

/// A folder as an origin creates it: no backups, synced, nothing pending.
pub open spec fn created(id: Seq<char>, name: Seq<char>, origin: Seq<char>) -> SyncFolderView {
    SyncFolderView {
        id,
        name,
        origin_computer: origin,
        backup_computers: Seq::<Seq<char>>::empty(),
        is_synced: true,
        pending_operations: 0,
    }
}

/// A folder that has just been created has its origin apart from its
/// backups and is synced with nothing pending.
pub proof fn lemma_created_is_sound(id: Seq<char>, name: Seq<char>, origin: Seq<char>)
    ensures
        origin_apart(created(id, name, origin)),
        synced_iff_idle(created(id, name, origin)),
{
}

impl SyncFolder {
    /// Whether the folder is marked as synced and has no operation pending.
    pub fn is_fully_synced(&self) -> (r: bool)
        ensures
            r == fully_synced(self@),
    {
        self.is_synced && self.pending_operations == 0
    }

    /// Whether the computer is a backup of the folder.
    pub fn is_backup(&self, computer_id: &ComputerId) -> (r: bool)
        ensures
            r == has_backup(self@, computer_id@),
    {
        contains_text(&self.backup_computers, computer_id)
    }

    /// Whether the computer is the origin of the folder.
    pub fn is_origin(&self, computer_id: &ComputerId) -> (r: bool)
        ensures
            r == (self@.origin_computer == computer_id@),
    {
        self.origin_computer == *computer_id
    }

    /// Adds the computer to the backups and counts its catching up as a
    /// pending operation, unless the computer is the origin or a backup
    /// already.
    pub fn join(&mut self, computer_id: &ComputerId)
        requires
            joins_anew(old(self)@, computer_id@) ==> old(self).pending_operations < u64::MAX,
        ensures
            final(self)@ == joined(old(self)@, computer_id@),
    {
        if !contains_text(&self.backup_computers, computer_id) && !self.is_origin(computer_id) {
            let ghost before = view_all(self.backup_computers@);
            self.backup_computers.push(computer_id.clone());
            self.is_synced = false;
            self.pending_operations = self.pending_operations + 1;
            proof {
                assert(view_all(self.backup_computers@) =~= before.push(computer_id@));
            }
        }
    }

    /// Takes the computer out of the backups.
    pub fn leave(&mut self, computer_id: &ComputerId)
        ensures
            final(self)@ == left(old(self)@, computer_id@),
    {
        remove_text(&mut self.backup_computers, computer_id);
    }

    /// Makes the backup `new_origin` the origin, where the folder is quiet;
    /// the old origin becomes a backup.
    pub fn switch_origin(&mut self, new_origin: &ComputerId) -> (r: Result<(), &'static str>)
        ensures
            match r {
                Ok(()) => switch_outcome(old(self)@, new_origin@) == Ok::<
                    SyncFolderView,
                    Seq<char>,
                >(final(self)@),
                Err(reason) => switch_outcome(old(self)@, new_origin@) == Err::<
                    SyncFolderView,
                    Seq<char>,
                >(reason@) && final(self)@ == old(self)@,
            },
    {
        if !self.is_fully_synced() {
            return Err("Folder has pending operations and is not fully synced");
        }
        if !self.is_backup(new_origin) {
            return Err("Only backup computers can request to become origin");
        }
        let mut old_origin = new_origin.clone();
        std::mem::swap(&mut old_origin, &mut self.origin_computer);
        remove_text(&mut self.backup_computers, new_origin);
        let ghost rest = view_all(self.backup_computers@);
        self.backup_computers.push(old_origin);
        proof {
            assert(view_all(self.backup_computers@) =~= rest.push(old(self)@.origin_computer));
        }
        Ok(())
    }

    /// Counts one more pending operation.
    pub fn add_operation(&mut self)
        requires
            old(self).pending_operations < u64::MAX,
        ensures
            final(self)@ == with_operation(old(self)@),
    {
        self.pending_operations = self.pending_operations + 1;
        self.is_synced = false;
    }

    /// Counts one pending operation as done.
    pub fn complete_operation(&mut self)
        ensures
            final(self)@ == with_completion(old(self)@),
    {
        if self.pending_operations > 0 {
            self.pending_operations = self.pending_operations - 1;
            self.is_synced = self.pending_operations == 0;
        }
    }
}

} // verus!
