//! What a reconciliation achieves: carried out on the two trees, the plan
//! leaves the backup with what the original has.
//!
//! A tree is taken here as the map from its paths to the signatures of
//! what is at them; a directory has the empty signature.

use vstd::prelude::*;
use crate::local_origin::{entry_paths, find_entry};
use crate::lookup::{lemma_key_position, lemma_key_position_is_first};
use crate::origin::{is_dir_entry, EntryView};
use crate::synchronizer::{
    conflict_plan, extra_plan, missing_plan, removal_plan, sync_plan, ActionView, OptionsView,
};

verus! {

/// The tree that a list of entries stands for.
pub open spec fn tree(entries: Seq<EntryView>) -> Map<Seq<char>, Seq<u8>> {
    Map::new(
        |p: Seq<char>| find_entry(entries, p) is Some,
        |p: Seq<char>| entries[find_entry(entries, p)->0].signature,
    )
}

/// Whether no path occurs twice among the entries.
pub open spec fn distinct(entries: Seq<EntryView>) -> bool {
    forall|i: int, j: int|
        0 <= i < j < entries.len() ==> (#[trigger] entries[i]).path != (#[trigger] entries[j]).path
}

/// The two trees after one action has been carried out.
pub open spec fn act(
    original: Map<Seq<char>, Seq<u8>>,
    backup: Map<Seq<char>, Seq<u8>>,
    action: ActionView,
) -> (Map<Seq<char>, Seq<u8>>, Map<Seq<char>, Seq<u8>>) {
    match action {
        ActionView::CreateDirAll { relative } => (
            original,
            backup.insert(relative, Seq::<u8>::empty()),
        ),
        ActionView::CopyToBackup { relative } => (original, backup.insert(relative, original[relative])),
        ActionView::CopyToOriginal { relative } => (
            original.insert(relative, backup[relative]),
            backup,
        ),
        ActionView::RemoveBackupDir { relative } => (original, backup.remove(relative)),
        ActionView::RemoveBackupFile { relative } => (original, backup.remove(relative)),
        ActionView::RenameBackup { from, to } => (
            original,
            backup.remove(from).insert(to, backup[from]),
        ),
    }
}

/// The two trees after the actions have been carried out in order.
pub open spec fn run(
    original: Map<Seq<char>, Seq<u8>>,
    backup: Map<Seq<char>, Seq<u8>>,
    actions: Seq<ActionView>,
) -> (Map<Seq<char>, Seq<u8>>, Map<Seq<char>, Seq<u8>>)
    decreases actions.len(),
{
    if actions.len() == 0 {
        (original, backup)
    } else {
        let before = run(original, backup, actions.drop_last());
        act(before.0, before.1, actions.last())
    }
}

/// Whether the path is that of one of the first `k` entries.
pub open spec fn among(entries: Seq<EntryView>, k: int, p: Seq<char>) -> bool {
    exists|i: int| 0 <= i < k && (#[trigger] entries[i]).path == p
}

/// Whether both trees have a file at the path, with different content.
pub open spec fn clashes(original: Seq<EntryView>, backup: Seq<EntryView>, p: Seq<char>) -> bool {
    &&& tree(original).dom().contains(p)
    &&& tree(backup).dom().contains(p)
    &&& tree(original)[p].len() > 0
    &&& tree(backup)[p].len() > 0
    &&& tree(original)[p] != tree(backup)[p]
}

/// Whether the two trees have entries of different kinds at the path: a
/// directory in one, a file in the other. A reconciliation leaves such a
/// path alone.
pub open spec fn kinds_differ(original: Seq<EntryView>, backup: Seq<EntryView>, p: Seq<char>) -> bool {
    &&& tree(original).dom().contains(p)
    &&& tree(backup).dom().contains(p)
    &&& (tree(original)[p].len() == 0) != (tree(backup)[p].len() == 0)
}

proof fn lemma_found_at(entries: Seq<EntryView>, i: int)
    requires
        distinct(entries),
        0 <= i < entries.len(),
    ensures
        find_entry(entries, entries[i].path) == Some(i),
        tree(entries).dom().contains(entries[i].path),
        tree(entries)[entries[i].path] == entries[i].signature,
{
    let keys = entry_paths(entries);
    assert forall|j: int| 0 <= j < i implies keys[j] != entries[i].path by {
        assert(entries[j].path != entries[i].path);
    }
    assert(keys[i] == entries[i].path);
    lemma_key_position(keys, entries[i].path, i);
}

proof fn lemma_found_is_entry(entries: Seq<EntryView>, p: Seq<char>)
    ensures
        tree(entries).dom().contains(p) <==> among(entries, entries.len() as int, p),
        find_entry(entries, p) matches Some(i) ==> 0 <= i < entries.len() && entries[i].path == p,
{
    let keys = entry_paths(entries);
    lemma_key_position_is_first(keys, p);
    match find_entry(entries, p) {
        Some(i) => {
            assert(keys[i] == p);
            assert(entries[i].path == p);
        },
        None => {
            if among(entries, entries.len() as int, p) {
                let i = choose|i: int| 0 <= i < entries.len() && (#[trigger] entries[i]).path == p;
                assert(keys[i] == p);
            }
        },
    }
}

/// Carrying out one list of actions after another is carrying out both.
pub proof fn lemma_run_in_parts(
    original: Map<Seq<char>, Seq<u8>>,
    backup: Map<Seq<char>, Seq<u8>>,
    first: Seq<ActionView>,
    second: Seq<ActionView>,
)
    ensures
        run(original, backup, first + second) == run(
            run(original, backup, first).0,
            run(original, backup, first).1,
            second,
        ),
    decreases second.len(),
{
    if second.len() == 0 {
        assert(first + second =~= first);
    } else {
        lemma_run_in_parts(original, backup, first, second.drop_last());
        assert((first + second).drop_last() =~= first + second.drop_last());
        assert((first + second).last() == second.last());
    }
}

/// The backup after the entries that it lacked among the first `k` of the
/// original have been added.
pub open spec fn after_missing(original: Seq<EntryView>, backup: Seq<EntryView>, k: int) -> Map<
    Seq<char>,
    Seq<u8>,
> {
    Map::new(
        |p: Seq<char>| tree(backup).dom().contains(p) || among(original, k, p),
        |p: Seq<char>|
            if tree(backup).dom().contains(p) {
                tree(backup)[p]
            } else {
                tree(original)[p]
            },
    )
}

proof fn lemma_missing(original: Seq<EntryView>, backup: Seq<EntryView>, k: int)
    requires
        distinct(original),
        0 <= k <= original.len(),
    ensures
        run(tree(original), tree(backup), missing_plan(original.take(k), backup)) == (
            tree(original),
            after_missing(original, backup, k),
        ),
    decreases k,
{
    let o = tree(original);
    if k == 0 {
        assert(original.take(0) =~= Seq::<EntryView>::empty());
        assert(after_missing(original, backup, 0) =~= tree(backup));
    } else {
        lemma_missing(original, backup, k - 1);
        let entry = original[k - 1];
        let p = entry.path;
        assert(original.take(k).drop_last() =~= original.take(k - 1));
        assert(original.take(k).last() == entry);
        lemma_found_at(original, k - 1);
        let before = after_missing(original, backup, k - 1);
        let now = after_missing(original, backup, k);
        assert forall|q: Seq<char>| among(original, k, q) <==> (among(original, k - 1, q) || q
            == p) by {
            if among(original, k, q) {
                let i = choose|i: int| 0 <= i < k && (#[trigger] original[i]).path == q;
                if i < k - 1 {
                    assert(among(original, k - 1, q));
                }
            }
            if among(original, k - 1, q) {
                let i = choose|i: int| 0 <= i < k - 1 && (#[trigger] original[i]).path == q;
                assert(original[i].path == q);
            }
            if q == p {
                assert(original[k - 1].path == q);
            }
        }
        let earlier = missing_plan(original.take(k - 1), backup);
        let plan = missing_plan(original.take(k), backup);
        assert(run(o, tree(backup), earlier) == (o, before));
        if find_entry(backup, p) is Some {
            assert(plan == earlier);
            assert(now =~= before);
        } else if is_dir_entry(entry) {
            let action = ActionView::CreateDirAll { relative: p };
            assert(plan == earlier.push(action));
            assert(plan.drop_last() =~= earlier);
            assert(plan.last() == action);
            assert(run(o, tree(backup), plan) == act(o, before, action));
            assert(entry.signature =~= Seq::<u8>::empty());
            assert(before.insert(p, Seq::<u8>::empty()) =~= now);
        } else {
            let action = ActionView::CopyToBackup { relative: p };
            assert(plan == earlier.push(action));
            assert(plan.drop_last() =~= earlier);
            assert(plan.last() == action);
            assert(run(o, tree(backup), plan) == act(o, before, action));
            assert(before.insert(p, o[p]) =~= now);
        }
    }
}

/// The backup after the entries among its first `k` that the original
/// lacks have been removed from `start`.
pub open spec fn after_removal(
    original: Seq<EntryView>,
    backup: Seq<EntryView>,
    start: Map<Seq<char>, Seq<u8>>,
    k: int,
) -> Map<Seq<char>, Seq<u8>> {
    Map::new(
        |p: Seq<char>|
            start.dom().contains(p) && !(among(backup, k, p) && !tree(original).dom().contains(p)),
        |p: Seq<char>| start[p],
    )
}

proof fn lemma_removal(
    original: Seq<EntryView>,
    backup: Seq<EntryView>,
    o: Map<Seq<char>, Seq<u8>>,
    start: Map<Seq<char>, Seq<u8>>,
    k: int,
)
    requires
        0 <= k <= backup.len(),
    ensures
        run(o, start, removal_plan(original, backup.take(k))) == (
            o,
            after_removal(original, backup, start, k),
        ),
    decreases k,
{
    if k == 0 {
        assert(backup.take(0) =~= Seq::<EntryView>::empty());
        assert(after_removal(original, backup, start, 0) =~= start);
    } else {
        lemma_removal(original, backup, o, start, k - 1);
        let entry = backup[k - 1];
        let p = entry.path;
        assert(backup.take(k).drop_last() =~= backup.take(k - 1));
        assert(backup.take(k).last() == entry);
        let before = after_removal(original, backup, start, k - 1);
        let now = after_removal(original, backup, start, k);
        assert forall|q: Seq<char>| among(backup, k, q) <==> (among(backup, k - 1, q) || q == p) by {
            if among(backup, k, q) {
                let i = choose|i: int| 0 <= i < k && (#[trigger] backup[i]).path == q;
                if i < k - 1 {
                    assert(among(backup, k - 1, q));
                }
            }
            if among(backup, k - 1, q) {
                let i = choose|i: int| 0 <= i < k - 1 && (#[trigger] backup[i]).path == q;
                assert(backup[i].path == q);
            }
            if q == p {
                assert(backup[k - 1].path == q);
            }
        }
        let earlier = removal_plan(original, backup.take(k - 1));
        let plan = removal_plan(original, backup.take(k));
        assert(run(o, start, earlier) == (o, before));
        lemma_found_is_entry(original, p);
        if find_entry(original, p) is Some {
            assert(plan == earlier);
            assert(now =~= before);
        } else {
            let action = if is_dir_entry(entry) {
                ActionView::RemoveBackupDir { relative: p }
            } else {
                ActionView::RemoveBackupFile { relative: p }
            };
            assert(plan == earlier.push(action));
            assert(plan.drop_last() =~= earlier);
            assert(plan.last() == action);
            assert(run(o, start, plan) == act(o, before, action));
            assert(before.remove(p) =~= now);
        }
    }
}

/// The backup after the files among the first `k` of the original that
/// clash with the backup's have been copied over those in `start`.
pub open spec fn after_conflicts_in_backup(
    original: Seq<EntryView>,
    backup: Seq<EntryView>,
    start: Map<Seq<char>, Seq<u8>>,
    k: int,
) -> Map<Seq<char>, Seq<u8>> {
    Map::new(
        |p: Seq<char>| start.dom().contains(p) || (among(original, k, p) && clashes(original, backup, p)),
        |p: Seq<char>|
            if among(original, k, p) && clashes(original, backup, p) {
                tree(original)[p]
            } else {
                start[p]
            },
    )
}

/// The original after the files among its first `k` that clash with the
/// backup's have been replaced by those of `start`.
pub open spec fn after_conflicts_in_original(
    original: Seq<EntryView>,
    backup: Seq<EntryView>,
    start: Map<Seq<char>, Seq<u8>>,
    k: int,
) -> Map<Seq<char>, Seq<u8>> {
    Map::new(
        |p: Seq<char>| tree(original).dom().contains(p),
        |p: Seq<char>|
            if among(original, k, p) && clashes(original, backup, p) {
                start[p]
            } else {
                tree(original)[p]
            },
    )
}

proof fn lemma_conflicts(
    original: Seq<EntryView>,
    backup: Seq<EntryView>,
    options: OptionsView,
    start: Map<Seq<char>, Seq<u8>>,
    k: int,
)
    requires
        distinct(original),
        0 <= k <= original.len(),
    ensures
        run(tree(original), start, conflict_plan(original.take(k), backup, options)) == (
        if options.when_conflict_preserve_backup {
            (after_conflicts_in_original(original, backup, start, k), start)
        } else {
            (tree(original), after_conflicts_in_backup(original, backup, start, k))
        }),
    decreases k,
{
    let o = tree(original);
    if k == 0 {
        assert(original.take(0) =~= Seq::<EntryView>::empty());
        assert(after_conflicts_in_backup(original, backup, start, 0) =~= start);
        assert(after_conflicts_in_original(original, backup, start, 0) =~= o);
    } else {
        lemma_conflicts(original, backup, options, start, k - 1);
        let entry = original[k - 1];
        let p = entry.path;
        assert(original.take(k).drop_last() =~= original.take(k - 1));
        assert(original.take(k).last() == entry);
        lemma_found_at(original, k - 1);
        lemma_found_is_entry(backup, p);
        assert forall|q: Seq<char>| among(original, k, q) <==> (among(original, k - 1, q) || q
            == p) by {
            if among(original, k, q) {
                let i = choose|i: int| 0 <= i < k && (#[trigger] original[i]).path == q;
                if i < k - 1 {
                    assert(among(original, k - 1, q));
                }
            }
            if among(original, k - 1, q) {
                let i = choose|i: int| 0 <= i < k - 1 && (#[trigger] original[i]).path == q;
                assert(original[i].path == q);
            }
            if q == p {
                assert(original[k - 1].path == q);
            }
        }
        let clash = match find_entry(backup, p) {
            None => false,
            Some(i) => !(is_dir_entry(entry) || is_dir_entry(backup[i]) || entry.signature
                == backup[i].signature),
        };
        assert(clash == clashes(original, backup, p));
        assert(!among(original, k - 1, p)) by {
            if among(original, k - 1, p) {
                let i = choose|i: int| 0 <= i < k - 1 && (#[trigger] original[i]).path == p;
                assert(original[i].path != original[k - 1].path);
            }
        }
        let earlier = conflict_plan(original.take(k - 1), backup, options);
        let plan = conflict_plan(original.take(k), backup, options);
        if options.when_conflict_preserve_backup {
            let before = after_conflicts_in_original(original, backup, start, k - 1);
            let now = after_conflicts_in_original(original, backup, start, k);
            assert(run(o, start, earlier) == (before, start));
            if clash {
                let action = ActionView::CopyToOriginal { relative: p };
                assert(plan == earlier.push(action));
                assert(plan.drop_last() =~= earlier);
                assert(plan.last() == action);
                assert(run(o, start, plan) == act(before, start, action));
                assert(before.insert(p, start[p]) =~= now);
            } else {
                assert(plan == earlier);
                assert(now =~= before);
            }
        } else {
            let before = after_conflicts_in_backup(original, backup, start, k - 1);
            let now = after_conflicts_in_backup(original, backup, start, k);
            assert(run(o, start, earlier) == (o, before));
            if clash {
                let action = ActionView::CopyToBackup { relative: p };
                assert(plan == earlier.push(action));
                assert(plan.drop_last() =~= earlier);
                assert(plan.last() == action);
                assert(run(o, start, plan) == act(o, before, action));
                assert(before.insert(p, o[p]) =~= now);
            } else {
                assert(plan == earlier);
                assert(now =~= before);
            }
        }
    }
}

/// What a reconciliation leaves at a path. The original keeps its paths.
/// Where the original has an entry, the backup has one too, and the two
/// are the same unless they are of different kinds; where files clashed,
/// both now hold the winner's content. Where the original has no entry,
/// the backup has none either, unless the backup is preserved and had one,
/// which is then untouched.
pub open spec fn reconciled_at(
    original: Seq<EntryView>,
    backup: Seq<EntryView>,
    options: OptionsView,
    after: (Map<Seq<char>, Seq<u8>>, Map<Seq<char>, Seq<u8>>),
    p: Seq<char>,
) -> bool {
    &&& after.0.dom().contains(p) == tree(original).dom().contains(p)
    &&& tree(original).dom().contains(p) ==> {
        &&& after.1.dom().contains(p)
        &&& !kinds_differ(original, backup, p) ==> after.1[p] == after.0[p]
        &&& after.0[p] == (if clashes(original, backup, p) && options.when_conflict_preserve_backup {
            tree(backup)[p]
        } else {
            tree(original)[p]
        })
    }
    &&& !tree(original).dom().contains(p) ==> {
        &&& after.1.dom().contains(p) == (options.when_missing_preserve_backup && tree(
            backup,
        ).dom().contains(p))
        &&& after.1.dom().contains(p) ==> after.1[p] == tree(backup)[p]
    }
}

/// Whether the two trees are reconciled at every path.
pub open spec fn reconciled(
    original: Seq<EntryView>,
    backup: Seq<EntryView>,
    options: OptionsView,
    after: (Map<Seq<char>, Seq<u8>>, Map<Seq<char>, Seq<u8>>),
) -> bool {
    forall|p: Seq<char>| #[trigger] reconciled_at(original, backup, options, after, p)
}

/// Carrying out the plan of a reconciliation leaves the two trees
/// reconciled, whatever the options.
pub proof fn lemma_sync_reconciles(
    original: Seq<EntryView>,
    backup: Seq<EntryView>,
    options: OptionsView,
)
    requires
        distinct(original),
    ensures
        reconciled(
            original,
            backup,
            options,
            run(tree(original), tree(backup), sync_plan(original, backup, options)),
        ),
{
    let o = tree(original);
    let b = tree(backup);
    let first = missing_plan(original, backup);
    let second = extra_plan(original, backup, options);
    let third = conflict_plan(original, backup, options);
    let n = original.len() as int;
    let m = backup.len() as int;

    assert(original.take(n) =~= original);
    assert(backup.take(m) =~= backup);
    lemma_missing(original, backup, n);
    let b1 = after_missing(original, backup, n);
    assert(run(o, b, first) == (o, b1));

    let b2 = if options.when_missing_preserve_backup {
        b1
    } else {
        after_removal(original, backup, b1, m)
    };
    if !options.when_missing_preserve_backup {
        lemma_removal(original, backup, o, b1, m);
    }
    assert(run(o, b1, second) == (o, b2));

    lemma_conflicts(original, backup, options, b2, n);
    let end = run(o, b2, third);

    lemma_run_in_parts(o, b, first, second);
    lemma_run_in_parts(o, b, first + second, third);
    assert(run(o, b, sync_plan(original, backup, options)) == end);

    assert(end == (if options.when_conflict_preserve_backup {
        (after_conflicts_in_original(original, backup, b2, n), b2)
    } else {
        (o, after_conflicts_in_backup(original, backup, b2, n))
    }));
    assert forall|p: Seq<char>| #[trigger] reconciled_at(original, backup, options, end, p) by {
        lemma_found_is_entry(original, p);
        lemma_found_is_entry(backup, p);
        let in_original = o.dom().contains(p);
        let in_backup = b.dom().contains(p);
        assert(among(original, n, p) == in_original);
        assert(among(backup, m, p) == in_backup);
        assert(b1.dom().contains(p) == (in_backup || in_original));
        assert(b1.dom().contains(p) ==> b1[p] == (if in_backup {
            b[p]
        } else {
            o[p]
        }));
        assert(b2.dom().contains(p) == (if options.when_missing_preserve_backup {
            in_backup || in_original
        } else {
            in_original
        }));
        assert(b2.dom().contains(p) ==> b2[p] == b1[p]);
        if in_original && in_backup && o[p].len() == 0 && b[p].len() == 0 {
            assert(o[p] =~= b[p]);
        }
        if options.when_conflict_preserve_backup {
            assert(end.1 == b2);
            assert(end.0.dom().contains(p) == in_original);
            assert(in_original ==> end.0[p] == (if clashes(original, backup, p) {
                b2[p]
            } else {
                o[p]
            }));
        } else {
            assert(end.0 == o);
            assert(end.1.dom().contains(p) == (b2.dom().contains(p) || (in_original && clashes(
                original,
                backup,
                p,
            ))));
            assert(end.1.dom().contains(p) ==> end.1[p] == (if in_original && clashes(
                original,
                backup,
                p,
            ) {
                o[p]
            } else {
                b2[p]
            }));
        }
    }
}

/// With the options as they are at first, and no path that is a directory
/// in one tree and a file in the other, a reconciliation leaves the backup
/// with exactly what the original has.
pub proof fn lemma_sync_makes_backup_equal(original: Seq<EntryView>, backup: Seq<EntryView>)
    requires
        distinct(original),
        forall|p: Seq<char>| !kinds_differ(original, backup, p),
    ensures
        run(
            tree(original),
            tree(backup),
            sync_plan(
                original,
                backup,
                OptionsView {
                    when_missing_preserve_backup: false,
                    when_conflict_preserve_backup: false,
                    when_delete_keep_backup: false,
                },
            ),
        ) == (tree(original), tree(original)),
{
    let options = OptionsView {
        when_missing_preserve_backup: false,
        when_conflict_preserve_backup: false,
        when_delete_keep_backup: false,
    };
    lemma_sync_reconciles(original, backup, options);
    let end = run(tree(original), tree(backup), sync_plan(original, backup, options));
    let o = tree(original);
    assert forall|p: Seq<char>| #[trigger] end.0.dom().contains(p) == o.dom().contains(p) by {
        assert(reconciled_at(original, backup, options, end, p));
    }
    assert forall|p: Seq<char>| #[trigger] end.1.dom().contains(p) == o.dom().contains(p) by {
        assert(reconciled_at(original, backup, options, end, p));
    }
    assert forall|p: Seq<char>| o.dom().contains(p) implies #[trigger] end.0[p] == o[p] by {
        assert(reconciled_at(original, backup, options, end, p));
    }
    assert forall|p: Seq<char>| o.dom().contains(p) implies #[trigger] end.1[p] == o[p] by {
        assert(reconciled_at(original, backup, options, end, p));
        assert(!kinds_differ(original, backup, p));
    }
    assert(end.0 =~= tree(original));
    assert(end.1 =~= tree(original));
}

} // verus!
