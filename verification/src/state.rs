//! From the events of the file system to the changes that the local
//! mirror has to follow.

use vstd::prelude::*;
use crate::synchronizer::{modification_delta, SyncError, Synchronizer, SynchronizerView};
use crate::text::view_all;

verus! {

/// What kind of change the file system reports.
#[derive(Debug, Clone, Copy, PartialEq, Eq, Structural)]
pub enum EventKind {
    /// Something was created.
    Create,
    /// The content of a file changed.
    ModifyData,
    /// A rename with both names known: the first path is the old name,
    /// the second the new one.
    RenameBoth,
    /// A rename of which only the new name is known.
    RenameTo,
    /// A rename of which only the old name is known.
    RenameFrom,
    /// Something was removed.
    Remove,
    /// Anything else.
    Other,
}

/// One change for the mirror to follow.
#[derive(Debug, PartialEq, Eq)]
pub enum PathTask {
    Modified { path: String },
    Renamed { from: String, to: String },
    Created { path: String },
    Deleted { path: String },
}

/// The mathematical value of a [`PathTask`].
pub enum TaskView {
    Modified { path: Seq<char> },
    Renamed { from: Seq<char>, to: Seq<char> },
    Created { path: Seq<char> },
    Deleted { path: Seq<char> },
}

impl View for PathTask {
    type V = TaskView;

    open spec fn view(&self) -> TaskView {
        match self {
            PathTask::Modified { path } => TaskView::Modified { path: path@ },
            PathTask::Renamed { from, to } => TaskView::Renamed { from: from@, to: to@ },
            PathTask::Created { path } => TaskView::Created { path: path@ },
            PathTask::Deleted { path } => TaskView::Deleted { path: path@ },
        }
    }
}

/// The task that an event of the kind gives for one of its paths.
pub open spec fn path_task(kind: EventKind, path: Seq<char>) -> TaskView {
    match kind {
        EventKind::ModifyData => TaskView::Modified { path },
        EventKind::Create | EventKind::RenameTo => TaskView::Created { path },
        _ => TaskView::Deleted { path },
    }
}

/// The tasks that an event gives. A change of content, a creation and a
/// removal give one task for each path; a rename with both names gives one
/// task, and none where a name is missing; other events give none.
pub open spec fn event_tasks(kind: EventKind, paths: Seq<Seq<char>>) -> Seq<TaskView> {
    match kind {
        EventKind::Other => Seq::<TaskView>::empty(),
        EventKind::RenameBoth => if paths.len() >= 2 {
            seq![TaskView::Renamed { from: paths[0], to: paths[1] }]
        } else {
            Seq::<TaskView>::empty()
        },
        _ => paths.map_values(|p: Seq<char>| path_task(kind, p)),
    }
}

/// The local mirror behind the stream of events.
#[derive(Debug)]
pub struct AppState {
    syncer: Synchronizer,
}

impl View for AppState {
    type V = SynchronizerView;

    closed spec fn view(&self) -> SynchronizerView {
        self.syncer@
    }
}

impl AppState {
    pub fn new(sync: Synchronizer) -> (r: Self)
        ensures
            r@ == sync@,
    {
        Self { syncer: sync }
    }

    /// The mirror.
    pub fn syncer(&self) -> (r: &Synchronizer)
        ensures
            r@ == self@,
    {
        &self.syncer
    }

    /// The mirror, to record what has been done.
    pub fn syncer_mut(&mut self) -> (r: &mut Synchronizer)
        ensures
            r@ == old(self)@,
            final(self)@ == final(r)@,
    {
        &mut self.syncer
    }

    /// Gives the mirror back.
    pub fn into_syncer(self) -> (r: Synchronizer)
        ensures
            r@ == self@,
    {
        self.syncer
    }

    /// The changes that an event asks the mirror to follow.
    pub fn process_debounced_event(&self, kind: EventKind, paths: &Vec<String>) -> (r: Vec<PathTask>)
        ensures
            view_all(r@) == event_tasks(kind, view_all(paths@)),
    {
        let mut r: Vec<PathTask> = Vec::new();
        proof {
            assert(view_all(r@) =~= Seq::<TaskView>::empty());
        }
        match kind {
            EventKind::Other => r,
            EventKind::RenameBoth => {
                if paths.len() >= 2 {
                    r.push(PathTask::Renamed { from: paths[0].clone(), to: paths[1].clone() });
                    proof {
                        assert(view_all(r@) =~= seq![
                            TaskView::Renamed {
                                from: view_all(paths@)[0],
                                to: view_all(paths@)[1],
                            },
                        ]);
                    }
                }
                r
            },
            _ => {
                let ghost wanted = view_all(paths@).map_values(|p: Seq<char>| path_task(kind, p));
                let mut i: usize = 0;
                while i < paths.len()
                    invariant
                        i <= paths.len(),
                        !(kind is Other) && !(kind is RenameBoth),
                        wanted == view_all(paths@).map_values(|p: Seq<char>| path_task(kind, p)),
                        view_all(r@) == wanted.take(i as int),
                    decreases paths.len() - i,
                {
                    let path = paths[i].clone();
                    let task = match kind {
                        EventKind::ModifyData => PathTask::Modified { path },
                        EventKind::Create => PathTask::Created { path },
                        EventKind::RenameTo => PathTask::Created { path },
                        _ => PathTask::Deleted { path },
                    };
                    let ghost sofar = view_all(r@);
                    r.push(task);
                    proof {
                        assert(view_all(r@) =~= sofar.push(wanted[i as int]));
                        assert(wanted.take(i as int).push(wanted[i as int]) =~= wanted.take(i + 1));
                    }
                    i += 1;
                }
                proof {
                    assert(wanted.take(paths.len() as int) =~= wanted);
                }
                r
            },
        }
    }

    /// The delta to apply to the backup of a file whose content has
    /// changed, or none where the content is what the backup has.
    pub fn process_modified_path(&self, relative: &str, content: &[u8]) -> (r: Result<
        Option<Vec<u8>>,
        SyncError,
    >)
        ensures
            match r {
                Ok(Some(delta)) => delta@.len() > 0 && modification_delta(
                    self@,
                    relative@,
                    content@,
                ) == Ok::<Seq<u8>, ()>(delta@),
                Ok(None) => modification_delta(self@, relative@, content@) == Ok::<Seq<u8>, ()>(
                    Seq::<u8>::empty(),
                ),
                Err(_) => modification_delta(self@, relative@, content@) is Err,
            },
    {
        match self.syncer.handle_original_modified_calculate_delta(relative, content) {
            Err(e) => Err(e),
            Ok(delta) => {
                if delta.len() == 0 {
                    proof {
                        assert(delta@ =~= Seq::<u8>::empty());
                    }
                    Ok(None)
                } else {
                    Ok(Some(delta))
                }
            },
        }
    }
}

} // verus!
