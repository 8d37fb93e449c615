//! The store itself: the path index, the descriptor table and the working
//! directory under one roof, and the operations on them.

use crate::bytes::copy_range;
use crate::bytes::is_utf8;
use crate::bytes::lemma_bytes_deep_view;
use crate::dir::entry_view;
use crate::dir::DirEntry;
use crate::dir::FsDir;
use crate::index::buildable;
use crate::index::holds_entries;
use crate::index::PathIndex;
use crate::model::listing_names;
use crate::model::next_entry;
use crate::model::FsState;
use crate::model::Handle;
use crate::model::MAX_OPEN;
use crate::path::join_paths;
use crate::path::resolve_path;
use crate::table::DescriptorTable;
use crate::types::FileKind;
use crate::types::FsError;
use crate::types::Metadata;
use vstd::prelude::*;
use vstd::utf8::valid_utf8;

verus! {

/// The store.
pub struct Fs {
    index: PathIndex,
    table: DescriptorTable,
    working_dir: Vec<u8>,
    poisoned: bool,
}

impl View for Fs {
    type V = FsState;

    closed spec fn view(&self) -> FsState {
        FsState {
            files: self.index@,
            cwd: self.working_dir@,
            open: self.table@,
            capacity: self.table.limit(),
            poisoned: self.poisoned,
        }
    }
}

/// A result that holds bytes, taken by their view.
pub open spec fn bytes_result(r: Result<Vec<u8>, FsError>) -> Result<Seq<u8>, FsError> {
    match r {
        Ok(bytes) => Ok(bytes@),
        Err(e) => Err(e),
    }
}

/// The smaller of two lengths.
pub open spec fn least_len(a: usize, b: nat) -> nat {
    if a <= b {
        a as nat
    } else {
        b
    }
}

/// How many bytes a read into a buffer of `len` bytes may yield when
/// `count` were asked for.
pub open spec fn read_room(count: usize, len: nat) -> nat {
    let room = least_len(count, len);
    if room <= isize::MAX {
        room
    } else {
        isize::MAX as nat
    }
}

impl Fs {
    /// What holds of the parts, apart from what the state says.
    pub closed spec fn inv(&self) -> bool {
        self.index.wf() && self.table.wf()
    }

    /// The store's invariant.
    pub open spec fn wf(&self) -> bool {
        self.inv() && self@.valid()
    }

    /// A store of the given (path, content) pairs with the given working
    /// directory, in which at most `capacity` files can be open at once
    /// (and never more than `MAX_OPEN`).
    pub fn with_capacity(entries: &Vec<(Vec<u8>, Vec<u8>)>, working_dir: &[u8], capacity: usize) -> (made:
        Result<Fs, FsError>)
        ensures
            made is Ok <==> buildable(entries.deep_view()) && valid_utf8(working_dir@),
            made matches Err(e) ==> e == FsError::InvalidInput,
            made matches Ok(fs) ==> {
                &&& fs.wf()
                &&& holds_entries(fs@.files, entries.deep_view())
                &&& fs@.cwd == working_dir@
                &&& fs@.open == Map::<i32, Handle>::empty()
                &&& fs@.capacity == if capacity <= MAX_OPEN {
                    capacity
                } else {
                    MAX_OPEN
                }
                &&& !fs@.poisoned
            },
    {
        if !is_utf8(working_dir) {
            return Err(FsError::InvalidInput);
        }
        match PathIndex::build(entries) {
            Err(e) => Err(e),
            Ok(index) => {
                let cwd = copy_range(working_dir, 0, working_dir.len());
                assert(cwd@ =~= working_dir@);
                Ok(Fs { index, table: DescriptorTable::new(capacity), working_dir: cwd, poisoned: false })
            },
        }
    }

    /// A store of the given (path, content) pairs with the given working
    /// directory.
    pub fn new(entries: &Vec<(Vec<u8>, Vec<u8>)>, working_dir: &[u8]) -> (made: Result<Fs, FsError>)
        ensures
            made is Ok <==> buildable(entries.deep_view()) && valid_utf8(working_dir@),
            made matches Err(e) ==> e == FsError::InvalidInput,
            made matches Ok(fs) ==> {
                &&& fs.wf()
                &&& holds_entries(fs@.files, entries.deep_view())
                &&& fs@.cwd == working_dir@
                &&& fs@.open == Map::<i32, Handle>::empty()
                &&& fs@.capacity == MAX_OPEN
                &&& !fs@.poisoned
            },
    {
        Fs::with_capacity(entries, working_dir, MAX_OPEN)
    }

    /// Marks the store as no longer trustworthy: every operation fails from
    /// now on.
    pub fn poison(&mut self)
        requires
            old(self).wf(),
        ensures
            final(self).wf(),
            final(self)@ == (FsState { poisoned: true, ..old(self)@ }),
    {
        self.poisoned = true;
    }

    /// Whether the store was marked as no longer trustworthy.
    pub fn is_poisoned(&self) -> (r: bool)
        ensures
            r == self@.poisoned,
    {
        self.poisoned
    }

    /// Whether a file or a directory stands at the key.
    fn exists_at(&self, key: &Vec<Vec<u8>>) -> (r: bool)
        ensures
            r == self@.exists_at(key.deep_view()),
    {
        self.index.lookup(key).is_some() || self.index.is_directory(key)
    }

    /// Opens a key.
    fn open_key(&mut self, key: Vec<Vec<u8>>) -> (opened: Result<i32, FsError>)
        requires
            old(self).wf(),
            !old(self)@.poisoned,
        ensures
            final(self).wf(),
            final(self)@ == old(self)@.open_key(key.deep_view()).0,
            opened == old(self)@.open_key(key.deep_view()).1,
    {
        if !self.exists_at(&key) {
            return Err(FsError::NotFound);
        }
        let ghost k = key.deep_view();
        let ghost before = self@;
        match self.table.allocate(key) {
            None => Err(FsError::ResourceExhausted),
            Some(fd) => {
                proof {
                    assert(self@ == before.open_key(k).0);
                    assert(before.content(k).len() >= 0);
                }
                Ok(fd)
            },
        }
    }

    /// Opens the file or directory at a path; a relative path starts at the
    /// working directory. The descriptor handed out is the lowest that is
    /// free, and reads through it start at the beginning.
    pub fn open(&mut self, path: &[u8]) -> (opened: Result<i32, FsError>)
        requires
            old(self).wf(),
        ensures
            final(self).wf(),
            final(self)@ == old(self)@.open(path@).0,
            opened == old(self)@.open(path@).1,
    {
        if self.poisoned {
            return Err(FsError::PoisonedState);
        }
        if !is_utf8(path) {
            return Err(FsError::InvalidInput);
        }
        let key = resolve_path(path, self.working_dir.as_slice());
        self.open_key(key)
    }

    /// As `open`, but a relative path starts at `base`.
    pub fn open_at(&mut self, path: &[u8], base: &[u8]) -> (opened: Result<i32, FsError>)
        requires
            old(self).wf(),
        ensures
            final(self).wf(),
            final(self)@ == old(self)@.open_at(path@, base@).0,
            opened == old(self)@.open_at(path@, base@).1,
    {
        if self.poisoned {
            return Err(FsError::PoisonedState);
        }
        if !is_utf8(path) || !is_utf8(base) {
            return Err(FsError::InvalidInput);
        }
        let key = resolve_path(path, base);
        self.open_key(key)
    }

    /// Closes a descriptor.
    pub fn close(&mut self, fd: i32) -> (closed: Result<(), FsError>)
        requires
            old(self).wf(),
        ensures
            final(self).wf(),
            final(self)@ == old(self)@.close(fd).0,
            closed == old(self)@.close(fd).1,
    {
        if self.poisoned {
            return Err(FsError::PoisonedState);
        }
        if self.table.release(fd) {
            Ok(())
        } else {
            assert(self@.open =~= old(self)@.open);
            Err(FsError::NotFound)
        }
    }

    /// What stands at a key that exists.
    fn metadata(&self, key: &Vec<Vec<u8>>) -> (meta: Metadata)
        ensures
            meta == self@.metadata(key.deep_view()),
    {
        match self.index.lookup(key) {
            Some(content) => Metadata { size: content.len(), kind: FileKind::File },
            None => Metadata { size: 0, kind: FileKind::Directory },
        }
    }

    /// What stands at a path.
    pub fn stat(&self, path: &[u8]) -> (meta: Result<Metadata, FsError>)
        ensures
            meta == self@.stat(path@),
    {
        if self.poisoned {
            return Err(FsError::PoisonedState);
        }
        if !is_utf8(path) {
            return Err(FsError::InvalidInput);
        }
        let key = resolve_path(path, self.working_dir.as_slice());
        if !self.exists_at(&key) {
            return Err(FsError::NotFound);
        }
        Ok(self.metadata(&key))
    }

    /// What stands behind a descriptor.
    pub fn fstat(&self, fd: i32) -> (meta: Result<Metadata, FsError>)
        ensures
            meta == self@.fstat(fd),
    {
        if self.poisoned {
            return Err(FsError::PoisonedState);
        }
        match self.table.get(fd) {
            None => Err(FsError::NotFound),
            Some(file) => Ok(self.metadata(file.key())),
        }
    }

    /// Reads at most `max` bytes from the read position on, and moves the
    /// position past them. At the end of the content the read is empty.
    pub fn read(&mut self, fd: i32, max: usize) -> (data: Result<Vec<u8>, FsError>)
        requires
            old(self).wf(),
        ensures
            final(self).wf(),
            final(self)@ == old(self)@.read(fd, max as nat).0,
            bytes_result(data) == old(self)@.read(fd, max as nat).1,
    {
        if self.poisoned {
            return Err(FsError::PoisonedState);
        }
        let ghost before = self@;
        let (data, end) = match self.table.get(fd) {
            None => {
                return Err(FsError::NotFound);
            },
            Some(file) => {
                let offset = file.offset();
                match self.index.lookup(file.key()) {
                    None => {
                        let nothing: Vec<u8> = Vec::new();
                        assert(nothing@ =~= before.content(before.open[fd].key).subrange(0, 0));
                        (nothing, offset)
                    },
                    Some(content) => {
                        let left = content.len() - offset;
                        let n = if max <= left {
                            max
                        } else {
                            left
                        };
                        (copy_range(content.as_slice(), offset, offset + n), offset + n)
                    },
                }
            },
        };
        self.table.set_offset(fd, end);
        proof {
            assert(self@.open =~= before.read(fd, max as nat).0.open);
        }
        Ok(data)
    }

    /// Reads into the start of `buf`: at most `count` bytes, and never more
    /// than `buf` has or than `isize::MAX`. The rest of `buf` stays as it
    /// was. The result is the number of bytes read.
    pub fn read_into(&mut self, fd: i32, buf: &mut Vec<u8>, count: usize) -> (got: Result<usize, FsError>)
        requires
            old(self).wf(),
        ensures
            final(self).wf(),
            final(self)@ == old(self)@.read(fd, read_room(count, old(buf)@.len())).0,
            got matches Ok(n) ==> {
                &&& old(self)@.read(fd, read_room(count, old(buf)@.len())).1 matches Ok(data)
                &&& n == data.len()
                &&& n <= isize::MAX
                &&& final(buf)@ == data + old(buf)@.skip(n as int)
            },
            got matches Err(e) ==> {
                &&& old(self)@.read(fd, read_room(count, old(buf)@.len())).1 == Err::<Seq<u8>, FsError>(e)
                &&& final(buf)@ == old(buf)@
            },
    {
        if self.poisoned {
            return Err(FsError::PoisonedState);
        }
        let ghost before = self@;
        let mut max: usize = if count <= buf.len() {
            count
        } else {
            buf.len()
        };
        if max > isize::MAX as usize {
            max = isize::MAX as usize;
        }
        assert(max == read_room(count, old(buf)@.len()));
        let (offset, n) = match self.table.get(fd) {
            None => {
                return Err(FsError::NotFound);
            },
            Some(file) => {
                let offset = file.offset();
                match self.index.lookup(file.key()) {
                    None => (offset, 0usize),
                    Some(content) => {
                        let left = content.len() - offset;
                        let n = if max <= left {
                            max
                        } else {
                            left
                        };
                        let mut i: usize = 0;
                        while i < n
                            invariant
                                i <= n <= buf.len(),
                                offset + n <= content.len(),
                                buf.len() == old(buf).len(),
                                buf@ == content@.subrange(offset as int, offset + i) + old(buf)@.skip(
                                    i as int,
                                ),
                            decreases n - i,
                        {
                            buf.set(i, content[offset + i]);
                            assert(buf@ =~= content@.subrange(offset as int, offset + i + 1) + old(
                                buf,
                            )@.skip(i + 1));
                            i += 1;
                        }
                        (offset, n)
                    },
                }
            },
        };
        self.table.set_offset(fd, offset + n);
        proof {
            assert(self@.open =~= before.read(fd, max as nat).0.open);
            let data = before.read(fd, max as nat).1->Ok_0;
            if n == 0 {
                assert(data =~= Seq::<u8>::empty());
                assert(buf@ =~= data + old(buf)@.skip(0));
            }
        }
        Ok(n)
    }

    /// Makes a directory the working directory. A relative path is joined
    /// to the old working directory.
    pub fn chdir(&mut self, path: &[u8]) -> (changed: Result<(), FsError>)
        requires
            old(self).wf(),
        ensures
            final(self).wf(),
            final(self)@ == old(self)@.chdir(path@).0,
            changed == old(self)@.chdir(path@).1,
    {
        if self.poisoned {
            return Err(FsError::PoisonedState);
        }
        if !is_utf8(path) {
            return Err(FsError::InvalidInput);
        }
        let key = resolve_path(path, self.working_dir.as_slice());
        if !self.index.is_directory(&key) {
            return Err(FsError::NotFound);
        }
        self.working_dir = join_paths(self.working_dir.as_slice(), path);
        Ok(())
    }

    /// The working directory, in a buffer of its own.
    pub fn getcwd(&self) -> (cwd: Result<Vec<u8>, FsError>)
        ensures
            bytes_result(cwd) == self@.getcwd(false, 0),
    {
        if self.poisoned {
            return Err(FsError::PoisonedState);
        }
        let cwd = copy_range(self.working_dir.as_slice(), 0, self.working_dir.len());
        assert(cwd@ =~= self.working_dir@);
        Ok(cwd)
    }

    /// Writes the working directory to the start of `buf`, of which `count`
    /// bytes may be used (and never more than it has). Where it does not
    /// fit, nothing is written. The result is the number of bytes written.
    pub fn getcwd_into(&self, buf: &mut Vec<u8>, count: usize) -> (written: Result<usize, FsError>)
        ensures
            written matches Ok(n) ==> {
                &&& self@.getcwd(true, least_len(count, old(buf)@.len())) == Ok::<Seq<u8>, FsError>(
                    self@.cwd,
                )
                &&& n == self@.cwd.len()
                &&& final(buf)@ == self@.cwd + old(buf)@.skip(n as int)
            },
            written matches Err(e) ==> {
                &&& self@.getcwd(true, least_len(count, old(buf)@.len())) == Err::<Seq<u8>, FsError>(e)
                &&& final(buf)@ == old(buf)@
            },
    {
        if self.poisoned {
            return Err(FsError::PoisonedState);
        }
        let room = if count <= buf.len() {
            count
        } else {
            buf.len()
        };
        let n = self.working_dir.len();
        if n > room {
            return Err(FsError::InvalidInput);
        }
        let mut i: usize = 0;
        while i < n
            invariant
                i <= n <= buf.len(),
                n == self.working_dir.len(),
                buf.len() == old(buf).len(),
                buf@ == self.working_dir@.subrange(0, i as int) + old(buf)@.skip(i as int),
            decreases n - i,
        {
            let ghost before = buf@;
            buf.set(i, self.working_dir[i]);
            assert(buf@ =~= self.working_dir@.subrange(0, i + 1) + old(buf)@.skip(i + 1));
            i += 1;
        }
        assert(self.working_dir@.subrange(0, n as int) =~= self.working_dir@);
        Ok(n)
    }

    /// The whole content of the file at a path, with a 0 byte behind it.
    pub fn file_read(&self, path: &[u8]) -> (content: Result<Vec<u8>, FsError>)
        ensures
            bytes_result(content) == self@.file_read(path@),
    {
        if self.poisoned {
            return Err(FsError::PoisonedState);
        }
        if !is_utf8(path) {
            return Err(FsError::InvalidInput);
        }
        let key = resolve_path(path, self.working_dir.as_slice());
        match self.index.lookup(&key) {
            None => Err(FsError::NotFound),
            Some(stored) => {
                let mut content = stored.clone();
                content.push(0u8);
                Ok(content)
            },
        }
    }

    /// The listing of a directory: each child once, with its kind.
    fn list_dir(&self, dir: &Vec<Vec<u8>>) -> (handle: FsDir)
        ensures
            handle.wf(),
            self@.lists(dir.deep_view(), handle@),
    {
        let names = self.index.children_of(dir);
        let ghost d = dir.deep_view();
        let mut entries: Vec<DirEntry> = Vec::new();
        let mut i: usize = 0;
        while i < names.len()
            invariant
                i <= names.len(),
                entries.len() == i,
                d == dir.deep_view(),
                forall|j: int|
                    0 <= j < i ==> (#[trigger] entries[j])@ == (
                        names.deep_view()[j],
                        self@.kind(d.push(names.deep_view()[j])),
                    ),
            decreases names.len() - i,
        {
            let name = names[i].clone();
            let mut child = dir.clone();
            child.push(names[i].clone());
            proof {
                lemma_bytes_deep_view(name);
                lemma_bytes_deep_view(names@[i as int]);
                assert(child.deep_view() =~= d.push(names.deep_view()[i as int]));
            }
            let kind = if self.index.lookup(&child).is_some() {
                FileKind::File
            } else {
                FileKind::Directory
            };
            entries.push(DirEntry { name, kind });
            i += 1;
        }
        let handle = FsDir::new(entries);
        proof {
            assert(listing_names(handle@) =~= names.deep_view());
        }
        handle
    }

    /// Opens the directory at a path for listing.
    pub fn opendir(&self, path: &[u8]) -> (opened: Result<FsDir, FsError>)
        ensures
            opened is Ok <==> self@.opendir(path@) is Ok,
            opened matches Err(e) ==> self@.opendir(path@) == Err::<Seq<Seq<u8>>, FsError>(e),
            opened matches Ok(dir) ==> dir.wf() && self@.lists(self@.key_of(path@), dir@),
    {
        if self.poisoned {
            return Err(FsError::PoisonedState);
        }
        if !is_utf8(path) {
            return Err(FsError::InvalidInput);
        }
        let key = resolve_path(path, self.working_dir.as_slice());
        if !self.index.is_directory(&key) {
            return Err(FsError::NotFound);
        }
        Ok(self.list_dir(&key))
    }

    /// Opens the directory behind a descriptor for listing. The descriptor
    /// stays open.
    pub fn fdopendir(&self, fd: i32) -> (opened: Result<FsDir, FsError>)
        ensures
            opened is Ok <==> self@.fdopendir(fd) is Ok,
            opened matches Err(e) ==> self@.fdopendir(fd) == Err::<Seq<Seq<u8>>, FsError>(e),
            opened matches Ok(dir) ==> dir.wf() && self@.lists(self@.open[fd].key, dir@),
    {
        if self.poisoned {
            return Err(FsError::PoisonedState);
        }
        match self.table.get(fd) {
            None => Err(FsError::NotFound),
            Some(file) => {
                if !self.index.is_directory(file.key()) {
                    return Err(FsError::NotFound);
                }
                Ok(self.list_dir(file.key()))
            },
        }
    }

    /// The next entry of a directory, or `None` once all were handed out.
    pub fn readdir(&self, dir: &mut FsDir) -> (entry: Result<Option<DirEntry>, FsError>)
        requires
            old(dir).wf(),
        ensures
            final(dir).wf(),
            self@.poisoned ==> entry == Err::<Option<DirEntry>, FsError>(FsError::PoisonedState)
                && final(dir)@ == old(dir)@,
            !self@.poisoned ==> {
                &&& entry matches Ok(e)
                &&& entry_view(e) == next_entry(old(dir)@).1
                &&& final(dir)@ == next_entry(old(dir)@).0
            },
    {
        if self.poisoned {
            return Err(FsError::PoisonedState);
        }
        Ok(dir.read_next())
    }

    /// Gives a directory handle back.
    pub fn closedir(&self, dir: FsDir) -> (closed: Result<(), FsError>)
        ensures
            closed == if self@.poisoned {
                Err::<(), FsError>(FsError::PoisonedState)
            } else {
                Ok::<(), FsError>(())
            },
    {
        if self.poisoned {
            return Err(FsError::PoisonedState);
        }
        Ok(())
    }
}

} // verus!
