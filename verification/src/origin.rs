//! One entry of a directory tree as the local mirror knows it.

use vstd::prelude::*;
use crate::text::copy_bytes;

verus! {

/// An entry of a tree: its path below the root and the rsync signature of
/// its content. A directory has an empty signature.
#[derive(Debug)]
pub struct FileEntry {
    path: String,
    signature: Vec<u8>,
}

/// The mathematical value of a [`FileEntry`].
pub struct EntryView {
    pub path: Seq<char>,
    pub signature: Seq<u8>,
}

impl View for FileEntry {
    type V = EntryView;

    closed spec fn view(&self) -> EntryView {
        EntryView { path: self.path@, signature: self.signature@ }
    }
}

/// Whether an entry stands for a directory: it has no signature.
pub open spec fn is_dir_entry(e: EntryView) -> bool {
    e.signature.len() == 0
}

impl Clone for FileEntry {
    fn clone(&self) -> (r: Self)
        ensures
            r@ == self@,
    {
        FileEntry { path: self.path.clone(), signature: copy_bytes(self.signature.as_slice()) }
    }
}

impl FileEntry {
    pub fn new(path: String, signature: Vec<u8>) -> (r: Self)
        ensures
            r@ == (EntryView { path: path@, signature: signature@ }),
    {
        Self { path, signature }
    }

    /// Whether the entry stands for a directory.
    pub fn is_dir(&self) -> (r: bool)
        ensures
            r == is_dir_entry(self@),
    {
        self.signature.len() == 0
    }

    pub fn path(&self) -> (r: &String)
        ensures
            r@ == self@.path,
    {
        &self.path
    }

    pub fn signature(&self) -> (r: &[u8])
        ensures
            r@ == self@.signature,
    {
        self.signature.as_slice()
    }
}

} // verus!
