//! A directory tree as the local mirror knows it: its entries by their
//! paths below the root.

use vstd::prelude::*;
use crate::lookup::{key_position, lemma_key_position};
use crate::origin::{EntryView, FileEntry};
use crate::text::{same_text, view_all};

verus! {

/// The entries of one tree. Where a path occurs twice, the first entry
/// counts.
#[derive(Debug)]
pub struct FolderStructure {
    root: String,
    entries: Vec<FileEntry>,
}

/// The mathematical value of a [`FolderStructure`].
pub struct StructureView {
    pub root: Seq<char>,
    pub entries: Seq<EntryView>,
}

impl View for FolderStructure {
    type V = StructureView;

    closed spec fn view(&self) -> StructureView {
        StructureView { root: self.root@, entries: view_all(self.entries@) }
    }
}

/// The paths of the entries, in order.
pub open spec fn entry_paths(entries: Seq<EntryView>) -> Seq<Seq<char>> {
    entries.map_values(|e: EntryView| e.path)
}

/// Where the entry with the path is.
pub open spec fn find_entry(entries: Seq<EntryView>, path: Seq<char>) -> Option<int> {
    key_position(entry_paths(entries), path)
}

/// The entries with the one at `path` set to the signature, at the end
/// where the path is new.
pub open spec fn with_entry(entries: Seq<EntryView>, path: Seq<char>, signature: Seq<u8>) -> Seq<
    EntryView,
> {
    match find_entry(entries, path) {
        Some(i) => entries.update(i, EntryView { path, signature }),
        None => entries.push(EntryView { path, signature }),
    }
}

/// The entries without the one at `path`.
pub open spec fn without_entry(entries: Seq<EntryView>, path: Seq<char>) -> Seq<EntryView> {
    match find_entry(entries, path) {
        Some(i) => entries.remove(i),
        None => entries,
    }
}

impl FolderStructure {
    /// A tree with the entries that a walk of `root` found.
    pub fn new(root: String, entries: Vec<FileEntry>) -> (r: Self)
        ensures
            r@ == (StructureView { root: root@, entries: view_all(entries@) }),
    {
        Self { root, entries }
    }

    pub fn root(&self) -> (r: &String)
        ensures
            r@ == self@.root,
    {
        &self.root
    }

    /// The entries, in order.
    pub fn files(&self) -> (r: &Vec<FileEntry>)
        ensures
            view_all(r@) == self@.entries,
    {
        &self.entries
    }

    /// The paths of the entries, in order.
    pub fn entries(&self) -> (r: Vec<String>)
        ensures
            view_all(r@) == entry_paths(self@.entries),
    {
        self.get_relatives()
    }

    fn position(&self, path: &str) -> (r: Option<usize>)
        ensures
            match r {
                Some(i) => find_entry(self@.entries, path@) == Some(i as int) && i
                    < self.entries.len(),
                None => find_entry(self@.entries, path@) is None,
            },
    {
        let mut i: usize = 0;
        let ghost keys = entry_paths(view_all(self.entries@));
        while i < self.entries.len()
            invariant
                i <= self.entries.len(),
                keys == entry_paths(view_all(self.entries@)),
                forall|j: int| 0 <= j < i ==> keys[j] != path@,
            decreases self.entries.len() - i,
        {
            if same_text(self.entries[i].path().as_str(), path) {
                proof {
                    assert(keys[i as int] == path@);
                    lemma_key_position(keys, path@, i as int);
                }
                return Some(i);
            }
            i += 1;
        }
        proof {
            lemma_key_position(keys, path@, i as int);
        }
        None
    }

    /// The entry at the path.
    pub fn get_entry(&self, path: &str) -> (r: Option<&FileEntry>)
        ensures
            match r {
                Some(entry) => find_entry(self@.entries, path@) matches Some(i) && entry@
                    == self@.entries[i],
                None => find_entry(self@.entries, path@) is None,
            },
    {
        match self.position(path) {
            Some(i) => Some(&self.entries[i]),
            None => None,
        }
    }

    /// Sets the signature of the entry at the path, which is added where
    /// it is new.
    pub fn update_entry(&mut self, path: &str, signature: Vec<u8>)
        ensures
            final(self)@ == (StructureView {
                entries: with_entry(old(self)@.entries, path@, signature@),
                ..old(self)@
            }),
    {
        let entry = FileEntry::new(path.to_owned(), signature);
        let ghost before = view_all(self.entries@);
        match self.position(path) {
            Some(i) => {
                self.entries.set(i, entry);
                proof {
                    assert(view_all(self.entries@) =~= before.update(i as int, entry@));
                }
            },
            None => {
                self.entries.push(entry);
                proof {
                    assert(view_all(self.entries@) =~= before.push(entry@));
                }
            },
        }
    }

    /// Takes the entry at the path out and returns it.
    pub fn remove_entry(&mut self, path: &str) -> (r: Option<FileEntry>)
        ensures
            final(self)@ == (StructureView {
                entries: without_entry(old(self)@.entries, path@),
                ..old(self)@
            }),
            match r {
                Some(entry) => find_entry(old(self)@.entries, path@) matches Some(i) && entry@
                    == old(self)@.entries[i],
                None => find_entry(old(self)@.entries, path@) is None,
            },
    {
        let ghost before = view_all(self.entries@);
        match self.position(path) {
            Some(i) => {
                let entry = self.entries.remove(i);
                proof {
                    assert(view_all(self.entries@) =~= before.remove(i as int));
                }
                Some(entry)
            },
            None => None,
        }
    }

    /// The paths of the entries below the root, in order.
    pub fn get_relatives(&self) -> (r: Vec<String>)
        ensures
            view_all(r@) == entry_paths(self@.entries),
    {
        let mut r: Vec<String> = Vec::new();
        let mut i: usize = 0;
        let ghost wanted = entry_paths(view_all(self.entries@));
        while i < self.entries.len()
            invariant
                i <= self.entries.len(),
                wanted == entry_paths(view_all(self.entries@)),
                view_all(r@) == wanted.take(i as int),
            decreases self.entries.len() - i,
        {
            let ghost sofar = view_all(r@);
            r.push(self.entries[i].path().clone());
            proof {
                assert(view_all(r@) =~= sofar.push(wanted[i as int]));
                assert(wanted.take(i as int).push(wanted[i as int]) =~= wanted.take(i + 1));
            }
            i += 1;
        }
        proof {
            assert(wanted.take(self.entries.len() as int) =~= wanted);
        }
        r
    }
}

} // verus!
