//! Directory handles: a listing taken when the directory was opened, and a
//! cursor that walks it once.

use crate::bytes::lemma_bytes_deep_view;
use crate::model::next_entry;
use crate::types::FileKind;
use vstd::prelude::*;

verus! {

/// One entry of a directory.
#[derive(Debug)]
pub struct DirEntry {
    /// The entry's name: one component.
    pub name: Vec<u8>,
    /// File or directory.
    pub kind: FileKind,
}

impl View for DirEntry {
    type V = (Seq<u8>, FileKind);

    open spec fn view(&self) -> (Seq<u8>, FileKind) {
        (self.name@, self.kind)
    }
}

/// An entry that may be there, taken by its view.
pub open spec fn entry_view(entry: Option<DirEntry>) -> Option<(Seq<u8>, FileKind)> {
    match entry {
        Some(e) => Some(e@),
        None => None,
    }
}

/// A directory handle.
#[derive(Debug)]
pub struct FsDir {
    entries: Vec<DirEntry>,
    pos: usize,
}

impl View for FsDir {
    type V = Seq<(Seq<u8>, FileKind)>;

    /// The entries that are still to come.
    closed spec fn view(&self) -> Seq<(Seq<u8>, FileKind)> {
        Seq::new((self.entries.len() - self.pos) as nat, |i: int| self.entries[self.pos + i]@)
    }
}

impl FsDir {
    /// The handle's invariant: the cursor lies within the listing.
    pub closed spec fn wf(&self) -> bool {
        self.pos <= self.entries.len()
    }

    /// A handle at the start of a listing.
    pub fn new(entries: Vec<DirEntry>) -> (dir: FsDir)
        ensures
            dir.wf(),
            dir@ == Seq::new(entries.len() as nat, |i: int| entries[i]@),
    {
        let dir = FsDir { entries, pos: 0 };
        assert(dir@ =~= Seq::new(entries.len() as nat, |i: int| entries[i]@));
        dir
    }

    /// The next entry, or `None` once all were handed out.
    pub fn read_next(&mut self) -> (entry: Option<DirEntry>)
        requires
            old(self).wf(),
        ensures
            final(self).wf(),
            final(self)@ == next_entry(old(self)@).0,
            entry_view(entry) == next_entry(old(self)@).1,
    {
        if self.pos >= self.entries.len() {
            return None;
        }
        let ghost before = self@;
        let name = self.entries[self.pos].name.clone();
        let kind = self.entries[self.pos].kind;
        proof {
            lemma_bytes_deep_view(name);
            lemma_bytes_deep_view(self.entries[self.pos as int].name);
        }
        self.pos += 1;
        assert(self@ =~= before.skip(1));
        Some(DirEntry { name, kind })
    }

    /// How many entries are still to come.
    pub fn remaining(&self) -> (n: usize)
        requires
            self.wf(),
        ensures
            n == self@.len(),
    {
        self.entries.len() - self.pos
    }
}

} // verus!
