//! The local mirror: what has to be done to make a backup tree equal to
//! the original tree, at the start and after each change to the original.
//!
//! Nothing here touches the disk. The plans say what the caller has to do;
//! the handlers record what has been done.

use vstd::prelude::*;
use crate::local_origin::{entry_paths, find_entry, with_entry, without_entry, FolderStructure};
use crate::lookup::{contains_text, remove_text, without};
use crate::origin::{is_dir_entry, EntryView};
use crate::rsync::{calculate_delta, create_signature, rsync_delta, rsync_signature, RsyncError};
use crate::text::view_all;

verus! {

/// How the mirror treats what the backup has and the original has not.
#[derive(Debug, Clone, Copy, PartialEq, Eq, Structural)]
pub struct SyncOptions {
    when_missing_preserve_backup: bool,
    when_conflict_preserve_backup: bool,
    when_delete_keep_backup: bool,
}

/// The mathematical value of [`SyncOptions`].
pub struct OptionsView {
    /// Leave alone what only the backup has.
    pub when_missing_preserve_backup: bool,
    /// Where both have a file and they differ, the backup's wins.
    pub when_conflict_preserve_backup: bool,
    /// Keep the backup of a file that is deleted from the original.
    pub when_delete_keep_backup: bool,
}

impl View for SyncOptions {
    type V = OptionsView;

    closed spec fn view(&self) -> OptionsView {
        OptionsView {
            when_missing_preserve_backup: self.when_missing_preserve_backup,
            when_conflict_preserve_backup: self.when_conflict_preserve_backup,
            when_delete_keep_backup: self.when_delete_keep_backup,
        }
    }
}

impl Default for SyncOptions {
    fn default() -> (r: Self)
        ensures
            r@ == (OptionsView {
                when_missing_preserve_backup: false,
                when_conflict_preserve_backup: false,
                when_delete_keep_backup: false,
            }),
    {
        SyncOptions {
            when_missing_preserve_backup: false,
            when_conflict_preserve_backup: false,
            when_delete_keep_backup: false,
        }
    }
}

impl SyncOptions {
    pub fn with_when_missing_preserve_backup(self, preserve: bool) -> (r: Self)
        ensures
            r@ == (OptionsView { when_missing_preserve_backup: preserve, ..self@ }),
    {
        SyncOptions { when_missing_preserve_backup: preserve, ..self }
    }

    pub fn with_when_conflict_preserve_backup(self, when_conflict: bool) -> (r: Self)
        ensures
            r@ == (OptionsView { when_conflict_preserve_backup: when_conflict, ..self@ }),
    {
        SyncOptions { when_conflict_preserve_backup: when_conflict, ..self }
    }

    pub fn with_when_delete_keep_backup(self, on_delete: bool) -> (r: Self)
        ensures
            r@ == (OptionsView { when_delete_keep_backup: on_delete, ..self@ }),
    {
        SyncOptions { when_delete_keep_backup: on_delete, ..self }
    }

    pub fn when_missing_preserve_backup(&self) -> (r: bool)
        ensures
            r == self@.when_missing_preserve_backup,
    {
        self.when_missing_preserve_backup
    }

    pub fn when_conflict_preserve_backup(&self) -> (r: bool)
        ensures
            r == self@.when_conflict_preserve_backup,
    {
        self.when_conflict_preserve_backup
    }

    pub fn when_delete_keep_backup(&self) -> (r: bool)
        ensures
            r == self@.when_delete_keep_backup,
    {
        self.when_delete_keep_backup
    }
}

/// One thing to do on disk. Paths are below the roots of the two trees.
#[derive(Debug, PartialEq, Eq)]
pub enum SyncAction {
    /// Create the directory in the backup, with the directories above it.
    CreateDirAll { relative: String },
    /// Copy the file from the original to the backup, creating the
    /// directories above it.
    CopyToBackup { relative: String },
    /// Copy the file from the backup to the original.
    CopyToOriginal { relative: String },
    /// Remove the directory from the backup with all that is in it.
    RemoveBackupDir { relative: String },
    /// Remove the file from the backup.
    RemoveBackupFile { relative: String },
    /// Rename the file in the backup, creating the directories above its
    /// new place.
    RenameBackup { from: String, to: String },
}

/// The mathematical value of a [`SyncAction`].
pub enum ActionView {
    CreateDirAll { relative: Seq<char> },
    CopyToBackup { relative: Seq<char> },
    CopyToOriginal { relative: Seq<char> },
    RemoveBackupDir { relative: Seq<char> },
    RemoveBackupFile { relative: Seq<char> },
    RenameBackup { from: Seq<char>, to: Seq<char> },
}

impl View for SyncAction {
    type V = ActionView;

    open spec fn view(&self) -> ActionView {
        match self {
            SyncAction::CreateDirAll { relative } => ActionView::CreateDirAll {
                relative: relative@,
            },
            SyncAction::CopyToBackup { relative } => ActionView::CopyToBackup {
                relative: relative@,
            },
            SyncAction::CopyToOriginal { relative } => ActionView::CopyToOriginal {
                relative: relative@,
            },
            SyncAction::RemoveBackupDir { relative } => ActionView::RemoveBackupDir {
                relative: relative@,
            },
            SyncAction::RemoveBackupFile { relative } => ActionView::RemoveBackupFile {
                relative: relative@,
            },
            SyncAction::RenameBackup { from, to } => ActionView::RenameBackup {
                from: from@,
                to: to@,
            },
        }
    }
}

/// A file to lock while the trees are brought together.
#[derive(Debug, PartialEq, Eq)]
pub struct LockRequest {
    pub relative: String,
    /// Whether the file is in the backup; else it is in the original.
    pub in_backup: bool,
    /// Whether the lock shuts everyone else out; else it is shared.
    pub exclusive: bool,
}

/// The mathematical value of a [`LockRequest`].
pub struct LockView {
    pub relative: Seq<char>,
    pub in_backup: bool,
    pub exclusive: bool,
}

impl View for LockRequest {
    type V = LockView;

    open spec fn view(&self) -> LockView {
        LockView { relative: self.relative@, in_backup: self.in_backup, exclusive: self.exclusive }
    }
}

/// Why a change to the original could not be followed.
#[derive(Debug, PartialEq, Eq)]
pub enum SyncError {
    /// The file that was renamed has no backup to rename.
    BackupMissing { relative: String },
    /// The backup knows no file at the path.
    NotTracked { relative: String },
    /// A signature, a delta or a patch could not be computed.
    Rsync(RsyncError),
}

/// The mirror's knowledge of both trees.
#[derive(Debug)]
pub struct Synchronizer {
    original: FolderStructure,
    backup: FolderStructure,
    path_mapping: Vec<String>,
    options: SyncOptions,
}

/// The mathematical value of a [`Synchronizer`].
pub struct SynchronizerView {
    pub original: Seq<EntryView>,
    pub backup: Seq<EntryView>,
    /// The paths of the original that are known to have a place in the
    /// backup.
    pub mapped: Seq<Seq<char>>,
    pub options: OptionsView,
}

impl View for Synchronizer {
    type V = SynchronizerView;

    closed spec fn view(&self) -> SynchronizerView {
        SynchronizerView {
            original: self.original@.entries,
            backup: self.backup@.entries,
            mapped: view_all(self.path_mapping@),
            options: self.options@,
        }
    }
}

/// The locks for a reconciliation: a shared one on every file of the
/// original.
pub open spec fn original_locks(entries: Seq<EntryView>) -> Seq<LockView>
    decreases entries.len(),
{
    if entries.len() == 0 {
        Seq::<LockView>::empty()
    } else if is_dir_entry(entries.last()) {
        original_locks(entries.drop_last())
    } else {
        original_locks(entries.drop_last()).push(
            LockView { relative: entries.last().path, in_backup: false, exclusive: false },
        )
    }
}

/// The locks for a reconciliation: an exclusive one on every file of the
/// backup.
pub open spec fn backup_locks(entries: Seq<EntryView>) -> Seq<LockView>
    decreases entries.len(),
{
    if entries.len() == 0 {
        Seq::<LockView>::empty()
    } else if is_dir_entry(entries.last()) {
        backup_locks(entries.drop_last())
    } else {
        backup_locks(entries.drop_last()).push(
            LockView { relative: entries.last().path, in_backup: true, exclusive: true },
        )
    }
}

/// What to do for the entries that the original has and the backup has
/// not: a directory is created, a file is copied.
pub open spec fn missing_plan(original: Seq<EntryView>, backup: Seq<EntryView>) -> Seq<ActionView>
    decreases original.len(),
{
    if original.len() == 0 {
        Seq::<ActionView>::empty()
    } else {
        let before = missing_plan(original.drop_last(), backup);
        let entry = original.last();
        if find_entry(backup, entry.path) is Some {
            before
        } else if is_dir_entry(entry) {
            before.push(ActionView::CreateDirAll { relative: entry.path })
        } else {
            before.push(ActionView::CopyToBackup { relative: entry.path })
        }
    }
}

/// What to do for the entries that the backup has and the original has
/// not: they are removed.
pub open spec fn removal_plan(original: Seq<EntryView>, backup: Seq<EntryView>) -> Seq<ActionView>
    decreases backup.len(),
{
    if backup.len() == 0 {
        Seq::<ActionView>::empty()
    } else {
        let before = removal_plan(original, backup.drop_last());
        let entry = backup.last();
        if find_entry(original, entry.path) is Some {
            before
        } else if is_dir_entry(entry) {
            before.push(ActionView::RemoveBackupDir { relative: entry.path })
        } else {
            before.push(ActionView::RemoveBackupFile { relative: entry.path })
        }
    }
}

/// What to do for the entries that only the backup has: nothing where the
/// backup is to be preserved.
pub open spec fn extra_plan(original: Seq<EntryView>, backup: Seq<EntryView>, options: OptionsView) -> Seq<
    ActionView,
> {
    if options.when_missing_preserve_backup {
        Seq::<ActionView>::empty()
    } else {
        removal_plan(original, backup)
    }
}

/// What to do for the files that both trees have with different content:
/// the original's is copied over the backup's, or the other way round
/// where the backup is to be preserved.
pub open spec fn conflict_plan(
    original: Seq<EntryView>,
    backup: Seq<EntryView>,
    options: OptionsView,
) -> Seq<ActionView>
    decreases original.len(),
{
    if original.len() == 0 {
        Seq::<ActionView>::empty()
    } else {
        let before = conflict_plan(original.drop_last(), backup, options);
        let entry = original.last();
        match find_entry(backup, entry.path) {
            None => before,
            Some(i) => {
                if is_dir_entry(entry) || is_dir_entry(backup[i]) || entry.signature
                    == backup[i].signature {
                    before
                } else if options.when_conflict_preserve_backup {
                    before.push(ActionView::CopyToOriginal { relative: entry.path })
                } else {
                    before.push(ActionView::CopyToBackup { relative: entry.path })
                }
            },
        }
    }
}

/// What brings the two trees together: first what the backup lacks, then
/// what it has too much, then what differs.
pub open spec fn sync_plan(original: Seq<EntryView>, backup: Seq<EntryView>, options: OptionsView) -> Seq<
    ActionView,
> {
    missing_plan(original, backup) + extra_plan(original, backup, options) + conflict_plan(
        original,
        backup,
        options,
    )
}

/// With the backup preserved, a reconciliation removes nothing from it.
pub proof fn lemma_preserved_backup_loses_nothing(
    original: Seq<EntryView>,
    backup: Seq<EntryView>,
    options: OptionsView,
)
    requires
        options.when_missing_preserve_backup,
    ensures
        extra_plan(original, backup, options).len() == 0,
        sync_plan(original, backup, options) == missing_plan(original, backup) + conflict_plan(
            original,
            backup,
            options,
        ),
{
    assert(missing_plan(original, backup) + Seq::<ActionView>::empty() =~= missing_plan(
        original,
        backup,
    ));
}

/// The state after a file has been created in the original and copied to
/// the backup.
pub open spec fn after_created(
    st: SynchronizerView,
    relative: Seq<char>,
    original_signature: Seq<u8>,
    backup_signature: Seq<u8>,
) -> SynchronizerView {
    SynchronizerView {
        original: with_entry(st.original, relative, original_signature),
        backup: with_entry(st.backup, relative, backup_signature),
        mapped: if st.mapped.contains(relative) {
            st.mapped
        } else {
            st.mapped.push(relative)
        },
        ..st
    }
}

/// What to do when a file has been deleted from the original: its backup
/// goes, unless backups are kept or there is none.
pub open spec fn deleted_plan(st: SynchronizerView, relative: Seq<char>, backup_exists: bool) -> Seq<
    ActionView,
> {
    if !st.options.when_delete_keep_backup && st.mapped.contains(relative) && backup_exists {
        seq![ActionView::RemoveBackupFile { relative }]
    } else {
        Seq::<ActionView>::empty()
    }
}

/// The state after a file has been deleted from the original.
pub open spec fn after_deleted(st: SynchronizerView, relative: Seq<char>) -> SynchronizerView {
    if st.options.when_delete_keep_backup {
        st
    } else {
        SynchronizerView {
            original: without_entry(st.original, relative),
            backup: if st.mapped.contains(relative) {
                without_entry(st.backup, relative)
            } else {
                st.backup
            },
            mapped: without(st.mapped, relative),
            ..st
        }
    }
}

/// The state after a file of the original has been renamed and its backup
/// with it.
pub open spec fn after_renamed(
    st: SynchronizerView,
    from: Seq<char>,
    to: Seq<char>,
    original_signature: Seq<u8>,
    backup_signature: Seq<u8>,
) -> SynchronizerView {
    let moved = without(st.mapped, from);
    SynchronizerView {
        original: with_entry(without_entry(st.original, from), to, original_signature),
        backup: with_entry(without_entry(st.backup, from), to, backup_signature),
        mapped: if moved.contains(to) {
            moved
        } else {
            moved.push(to)
        },
        ..st
    }
}

/// The delta that brings the backup of a file up to its new content: none
/// where the backup is not known, empty where the signature of the new
/// content is the backup's.
pub open spec fn modification_delta(st: SynchronizerView, relative: Seq<char>, content: Seq<u8>) -> Result<
    Seq<u8>,
    (),
> {
    match find_entry(st.backup, relative) {
        None => Err(()),
        Some(i) => match rsync_signature(content) {
            None => Err(()),
            Some(signature) => if signature == st.backup[i].signature {
                Ok(Seq::<u8>::empty())
            } else {
                match rsync_delta(content, st.backup[i].signature) {
                    Some(delta) => Ok(delta),
                    None => Err(()),
                }
            },
        },
    }
}

fn same_bytes(a: &[u8], b: &[u8]) -> (r: bool)
    ensures
        r == (a@ == b@),
{
    if a.len() != b.len() {
        return false;
    }
    let mut i: usize = 0;
    while i < a.len()
        invariant
            i <= a.len(),
            a.len() == b.len(),
            forall|j: int| 0 <= j < i ==> a@[j] == b@[j],
        decreases a.len() - i,
    {
        if a[i] != b[i] {
            return false;
        }
        i += 1;
    }
    proof {
        assert(a@ =~= b@);
    }
    true
}

impl Synchronizer {
    /// The mirror of two trees as they were found; every entry of the
    /// original has its place in the backup.
    pub fn new(original: FolderStructure, backup: FolderStructure) -> (r: Self)
        ensures
            r@ == (SynchronizerView {
                original: original@.entries,
                backup: backup@.entries,
                mapped: entry_paths(original@.entries),
                options: OptionsView {
                    when_missing_preserve_backup: false,
                    when_conflict_preserve_backup: false,
                    when_delete_keep_backup: false,
                },
            }),
    {
        let path_mapping = original.get_relatives();
        Self { original, backup, path_mapping, options: SyncOptions::default() }
    }

    pub fn with_options(self, options: SyncOptions) -> (r: Self)
        ensures
            r@ == (SynchronizerView { options: options@, ..self@ }),
    {
        let mut r = self;
        r.options = options;
        r
    }

    /// The place in the backup of a path of the original: the same path
    /// below the backup's root, whether the mirror has the path on record
    /// or not. Every path that is written below the original's root has
    /// such a place; only a native path outside that root has none, and it
    /// cannot be written so.
    pub fn get_backup_path(&self, original_path: &str) -> (r: Option<String>)
        ensures
            r matches Some(path) && path@ == original_path@,
    {
        Some(original_path.to_owned())
    }

    /// The signature of the original's entry at the path.
    pub fn get_original_signature(&self, path: &str) -> (r: Option<&[u8]>)
        ensures
            match r {
                Some(signature) => find_entry(self@.original, path@) matches Some(i) && signature@
                    == self@.original[i].signature,
                None => find_entry(self@.original, path@) is None,
            },
    {
        match self.original.get_entry(path) {
            Some(entry) => Some(entry.signature()),
            None => None,
        }
    }

    /// The signature of the backup's entry at the path.
    pub fn get_backup_signature(&self, path: &str) -> (r: Option<&[u8]>)
        ensures
            match r {
                Some(signature) => find_entry(self@.backup, path@) matches Some(i) && signature@
                    == self@.backup[i].signature,
                None => find_entry(self@.backup, path@) is None,
            },
    {
        match self.backup.get_entry(path) {
            Some(entry) => Some(entry.signature()),
            None => None,
        }
    }

    /// The delta that brings the backup of a file up to the new content of
    /// the original; empty where nothing has changed.
    pub fn handle_original_modified_calculate_delta(&self, relative: &str, content: &[u8]) -> (r:
        Result<Vec<u8>, SyncError>)
        ensures
            match r {
                Ok(delta) => modification_delta(self@, relative@, content@) == Ok::<Seq<u8>, ()>(
                    delta@,
                ),
                Err(e) => modification_delta(self@, relative@, content@) is Err && (match e {
                    SyncError::NotTracked { relative: told } => told@ == relative@ && find_entry(
                        self@.backup,
                        relative@,
                    ) is None,
                    SyncError::Rsync(_) => find_entry(self@.backup, relative@) is Some,
                    SyncError::BackupMissing { .. } => false,
                }),
            },
    {
        let old_sig = match self.get_backup_signature(relative) {
            Some(signature) => signature,
            None => {
                return Err(SyncError::NotTracked { relative: relative.to_owned() });
            },
        };
        let new_sig = match create_signature(content) {
            Ok(signature) => signature,
            Err(e) => {
                return Err(SyncError::Rsync(e));
            },
        };
        if same_bytes(new_sig.as_slice(), old_sig) {
            return Ok(Vec::new());
        }
        match calculate_delta(content, old_sig) {
            Ok(delta) => Ok(delta),
            Err(e) => Err(SyncError::Rsync(e)),
        }
    }

    /// Records the signatures of a file and its backup after the delta
    /// has been applied to the backup.
    pub fn handle_original_modified_apply_delta(
        &mut self,
        relative: &str,
        original_signature: Vec<u8>,
        backup_signature: Vec<u8>,
    )
        ensures
            final(self)@ == (SynchronizerView {
                original: with_entry(old(self)@.original, relative@, original_signature@),
                backup: with_entry(old(self)@.backup, relative@, backup_signature@),
                ..old(self)@
            }),
    {
        self.original.update_entry(relative, original_signature);
        self.backup.update_entry(relative, backup_signature);
    }

    /// Records a file that has been created in the original and copied to
    /// the backup.
    pub fn handle_original_created(
        &mut self,
        relative: &str,
        original_signature: Vec<u8>,
        backup_signature: Vec<u8>,
    )
        ensures
            final(self)@ == after_created(
                old(self)@,
                relative@,
                original_signature@,
                backup_signature@,
            ),
    {
        self.original.update_entry(relative, original_signature);
        self.backup.update_entry(relative, backup_signature);
        self.map_path(relative);
    }

    fn map_path(&mut self, relative: &str)
        ensures
            final(self)@ == (SynchronizerView {
                mapped: if old(self)@.mapped.contains(relative@) {
                    old(self)@.mapped
                } else {
                    old(self)@.mapped.push(relative@)
                },
                ..old(self)@
            }),
    {
        let text = relative.to_owned();
        if !contains_text(&self.path_mapping, &text) {
            let ghost before = view_all(self.path_mapping@);
            self.path_mapping.push(text);
            proof {
                assert(view_all(self.path_mapping@) =~= before.push(relative@));
            }
        }
    }

    /// What to do on disk when a file has been deleted from the original.
    pub fn plan_deleted(&self, relative: &str, backup_exists: bool) -> (r: Vec<SyncAction>)
        ensures
            view_all(r@) == deleted_plan(self@, relative@, backup_exists),
    {
        let mut r: Vec<SyncAction> = Vec::new();
        let text = relative.to_owned();
        if !self.options.when_delete_keep_backup && backup_exists && contains_text(
            &self.path_mapping,
            &text,
        ) {
            r.push(SyncAction::RemoveBackupFile { relative: text });
            proof {
                assert(view_all(r@) =~= seq![ActionView::RemoveBackupFile { relative: relative@ }]);
            }
        } else {
            proof {
                assert(view_all(r@) =~= Seq::<ActionView>::empty());
            }
        }
        r
    }

    /// Records that a file has been deleted from the original. Where
    /// backups are kept, nothing is forgotten.
    pub fn handle_original_deleted(&mut self, relative: &str)
        ensures
            final(self)@ == after_deleted(old(self)@, relative@),
    {
        if self.options.when_delete_keep_backup {
            return ;
        }
        let text = relative.to_owned();
        if contains_text(&self.path_mapping, &text) {
            remove_text(&mut self.path_mapping, &text);
            self.backup.remove_entry(relative);
        } else {
            proof {
                crate::lookup::lemma_without(view_all(self.path_mapping@), relative@);
            }
        }
        self.original.remove_entry(relative);
    }

    /// What to do on disk when a file of the original has been renamed:
    /// its backup is renamed with it. Fails where there is no backup to
    /// rename.
    pub fn plan_renamed(&self, from: &str, to: &str, backup_exists: bool) -> (r: Result<
        Vec<SyncAction>,
        SyncError,
    >)
        ensures
            match r {
                Ok(actions) => self@.mapped.contains(from@) && backup_exists && view_all(actions@)
                    == seq![ActionView::RenameBackup { from: from@, to: to@ }],
                Err(e) => !(self@.mapped.contains(from@) && backup_exists) && (
                e matches SyncError::BackupMissing { relative } && relative@ == from@),
            },
    {
        let text = from.to_owned();
        if backup_exists && contains_text(&self.path_mapping, &text) {
            let mut actions: Vec<SyncAction> = Vec::new();
            actions.push(SyncAction::RenameBackup { from: text, to: to.to_owned() });
            proof {
                assert(view_all(actions@) =~= seq![
                    ActionView::RenameBackup { from: from@, to: to@ },
                ]);
            }
            Ok(actions)
        } else {
            Err(SyncError::BackupMissing { relative: text })
        }
    }

    /// Records that a file of the original has been renamed and its backup
    /// with it.
    pub fn handle_original_renamed(
        &mut self,
        from: &str,
        to: &str,
        original_signature: Vec<u8>,
        backup_signature: Vec<u8>,
    )
        ensures
            final(self)@ == after_renamed(
                old(self)@,
                from@,
                to@,
                original_signature@,
                backup_signature@,
            ),
    {
        let text = from.to_owned();
        remove_text(&mut self.path_mapping, &text);
        self.original.remove_entry(from);
        self.backup.remove_entry(from);
        self.original.update_entry(to, original_signature);
        self.backup.update_entry(to, backup_signature);
        self.map_path(to);
    }

    /// Records what a reconciliation has left in the backup at a path: an
    /// entry with the signature, or none.
    pub fn record_backup(&mut self, relative: &str, signature: Option<Vec<u8>>)
        ensures
            final(self)@ == (SynchronizerView {
                backup: match signature {
                    Some(bytes) => with_entry(old(self)@.backup, relative@, bytes@),
                    None => without_entry(old(self)@.backup, relative@),
                },
                mapped: if signature is Some && !old(self)@.mapped.contains(relative@) {
                    old(self)@.mapped.push(relative@)
                } else {
                    old(self)@.mapped
                },
                ..old(self)@
            }),
    {
        match signature {
            Some(bytes) => {
                self.backup.update_entry(relative, bytes);
                self.map_path(relative);
            },
            None => {
                self.backup.remove_entry(relative);
            },
        }
    }

    /// Records what a reconciliation has left in the original at a path.
    pub fn record_original(&mut self, relative: &str, signature: Vec<u8>)
        ensures
            final(self)@ == (SynchronizerView {
                original: with_entry(old(self)@.original, relative@, signature@),
                ..old(self)@
            }),
    {
        self.original.update_entry(relative, signature);
    }

    /// The locks to hold while the trees are brought together: a shared
    /// one on every file of the original, then an exclusive one on every
    /// file of the backup.
    pub fn acquire_locks(&self) -> (r: Vec<LockRequest>)
        ensures
            view_all(r@) == original_locks(self@.original) + backup_locks(self@.backup),
    {
        let mut r: Vec<LockRequest> = Vec::new();
        let files = self.original.files();
        let ghost first = view_all(files@);
        let mut i: usize = 0;
        proof {
            assert(first.take(0) =~= Seq::<EntryView>::empty());
            assert(view_all(r@) =~= Seq::<LockView>::empty());
        }
        while i < files.len()
            invariant
                i <= files.len(),
                first == view_all(files@),
                view_all(r@) == original_locks(first.take(i as int)),
            decreases files.len() - i,
        {
            proof {
                assert(first.take(i + 1).drop_last() =~= first.take(i as int));
                assert(first.take(i + 1).last() == files@[i as int]@);
            }
            if !files[i].is_dir() {
                let ghost sofar = view_all(r@);
                let lock = LockRequest {
                    relative: files[i].path().clone(),
                    in_backup: false,
                    exclusive: false,
                };
                r.push(lock);
                proof {
                    assert(view_all(r@) =~= sofar.push(lock@));
                }
            }
            i += 1;
        }
        proof {
            assert(first.take(files.len() as int) =~= first);
        }
        let others = self.backup.files();
        let ghost second = view_all(others@);
        let ghost head = view_all(r@);
        let mut k: usize = 0;
        proof {
            assert(second.take(0) =~= Seq::<EntryView>::empty());
            assert(head + Seq::<LockView>::empty() =~= head);
        }
        while k < others.len()
            invariant
                k <= others.len(),
                second == view_all(others@),
                view_all(r@) == head + backup_locks(second.take(k as int)),
            decreases others.len() - k,
        {
            proof {
                assert(second.take(k + 1).drop_last() =~= second.take(k as int));
                assert(second.take(k + 1).last() == others@[k as int]@);
            }
            if !others[k].is_dir() {
                let ghost sofar = view_all(r@);
                let lock = LockRequest {
                    relative: others[k].path().clone(),
                    in_backup: true,
                    exclusive: true,
                };
                r.push(lock);
                proof {
                    assert(view_all(r@) =~= sofar.push(lock@));
                    assert(sofar.push(lock@) =~= head + backup_locks(second.take(k as int)).push(
                        lock@,
                    ));
                }
            }
            k += 1;
        }
        proof {
            assert(second.take(others.len() as int) =~= second);
        }
        r
    }

    /// What to do for the entries that the original has and the backup
    /// has not.
    pub fn sync_missing_in_backup(&self) -> (r: Vec<SyncAction>)
        ensures
            view_all(r@) == missing_plan(self@.original, self@.backup),
    {
        let mut r: Vec<SyncAction> = Vec::new();
        let files = self.original.files();
        let ghost all = view_all(files@);
        let mut i: usize = 0;
        proof {
            assert(all.take(0) =~= Seq::<EntryView>::empty());
            assert(view_all(r@) =~= Seq::<ActionView>::empty());
        }
        while i < files.len()
            invariant
                i <= files.len(),
                all == view_all(files@),
                view_all(r@) == missing_plan(all.take(i as int), self@.backup),
            decreases files.len() - i,
        {
            proof {
                assert(all.take(i + 1).drop_last() =~= all.take(i as int));
                assert(all.take(i + 1).last() == files@[i as int]@);
            }
            let entry = &files[i];
            if self.backup.get_entry(entry.path().as_str()).is_none() {
                let ghost sofar = view_all(r@);
                let action = if entry.is_dir() {
                    SyncAction::CreateDirAll { relative: entry.path().clone() }
                } else {
                    SyncAction::CopyToBackup { relative: entry.path().clone() }
                };
                r.push(action);
                proof {
                    assert(view_all(r@) =~= sofar.push(action@));
                }
            }
            i += 1;
        }
        proof {
            assert(all.take(files.len() as int) =~= all);
        }
        r
    }

    /// What to do for the entries that only the backup has.
    pub fn sync_extra_in_backup(&self) -> (r: Vec<SyncAction>)
        ensures
            view_all(r@) == extra_plan(self@.original, self@.backup, self@.options),
    {
        let mut r: Vec<SyncAction> = Vec::new();
        proof {
            assert(view_all(r@) =~= Seq::<ActionView>::empty());
        }
        if self.options.when_missing_preserve_backup {
            return r;
        }
        let files = self.backup.files();
        let ghost all = view_all(files@);
        let mut i: usize = 0;
        proof {
            assert(all.take(0) =~= Seq::<EntryView>::empty());
        }
        while i < files.len()
            invariant
                i <= files.len(),
                all == view_all(files@),
                view_all(r@) == removal_plan(self@.original, all.take(i as int)),
            decreases files.len() - i,
        {
            proof {
                assert(all.take(i + 1).drop_last() =~= all.take(i as int));
                assert(all.take(i + 1).last() == files@[i as int]@);
            }
            let entry = &files[i];
            if self.original.get_entry(entry.path().as_str()).is_none() {
                let ghost sofar = view_all(r@);
                let action = if entry.is_dir() {
                    SyncAction::RemoveBackupDir { relative: entry.path().clone() }
                } else {
                    SyncAction::RemoveBackupFile { relative: entry.path().clone() }
                };
                r.push(action);
                proof {
                    assert(view_all(r@) =~= sofar.push(action@));
                }
            }
            i += 1;
        }
        proof {
            assert(all.take(files.len() as int) =~= all);
        }
        r
    }

    /// What to do for the files that both trees have with different
    /// content.
    pub fn sync_conflicts(&self) -> (r: Vec<SyncAction>)
        ensures
            view_all(r@) == conflict_plan(self@.original, self@.backup, self@.options),
    {
        let mut r: Vec<SyncAction> = Vec::new();
        let files = self.original.files();
        let ghost all = view_all(files@);
        let mut i: usize = 0;
        proof {
            assert(all.take(0) =~= Seq::<EntryView>::empty());
            assert(view_all(r@) =~= Seq::<ActionView>::empty());
        }
        while i < files.len()
            invariant
                i <= files.len(),
                all == view_all(files@),
                view_all(r@) == conflict_plan(all.take(i as int), self@.backup, self@.options),
            decreases files.len() - i,
        {
            proof {
                assert(all.take(i + 1).drop_last() =~= all.take(i as int));
                assert(all.take(i + 1).last() == files@[i as int]@);
            }
            let entry = &files[i];
            match self.backup.get_entry(entry.path().as_str()) {
                None => {},
                Some(other) => {
                    if !entry.is_dir() && !other.is_dir() && !same_bytes(
                        entry.signature(),
                        other.signature(),
                    ) {
                        let ghost sofar = view_all(r@);
                        let action = if self.options.when_conflict_preserve_backup {
                            SyncAction::CopyToOriginal { relative: entry.path().clone() }
                        } else {
                            SyncAction::CopyToBackup { relative: entry.path().clone() }
                        };
                        r.push(action);
                        proof {
                            assert(view_all(r@) =~= sofar.push(action@));
                        }
                    }
                },
            }
            i += 1;
        }
        proof {
            assert(all.take(files.len() as int) =~= all);
        }
        r
    }

    /// What brings the two trees together: first what the backup lacks,
    /// then what it has too much, then what differs.
    pub fn sync(&self) -> (r: Vec<SyncAction>)
        ensures
            view_all(r@) == sync_plan(self@.original, self@.backup, self@.options),
    {
        let mut r = self.sync_missing_in_backup();
        let mut extra = self.sync_extra_in_backup();
        let mut conflicts = self.sync_conflicts();
        let ghost first = view_all(r@);
        let ghost second = view_all(extra@);
        let ghost third = view_all(conflicts@);
        r.append(&mut extra);
        proof {
            assert(view_all(r@) =~= first + second);
        }
        r.append(&mut conflicts);
        proof {
            assert(view_all(r@) =~= first + second + third);
        }
        r
    }
}

} // verus!
