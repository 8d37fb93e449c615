//! The store as a mathematical value, and each operation as a function from
//! the state before to the state after and the result.

use crate::index::child_names;
use crate::index::is_directory;
use crate::path::join;
use crate::path::resolve;
use crate::trie::Key;
use crate::types::FileKind;
use crate::types::FsError;
use crate::types::Metadata;
use vstd::prelude::*;
use vstd::utf8::valid_utf8;

verus! {

/// The first descriptor that the store hands out. Descriptors of the store
/// are never below it, which tells them apart from those of the operating
/// system, which are small.
pub const FD_BASE: i32 = 0x4000_0000;

/// The largest number of files that can be open at once.
pub const MAX_OPEN: usize = 0x3FFF_FFFF;

/// An open file: the key it was opened under and the read position.
pub struct Handle {
    pub key: Key,
    pub offset: nat,
}

/// The state of the store.
pub struct FsState {
    /// The stored files: key to content. Never changes.
    pub files: Map<Key, Seq<u8>>,
    /// The working directory.
    pub cwd: Seq<u8>,
    /// The open files, by descriptor.
    pub open: Map<i32, Handle>,
    /// How many files can be open at once.
    pub capacity: nat,
    /// Set once the store can no longer be trusted; every operation fails
    /// from then on.
    pub poisoned: bool,
}

/// The names of a directory listing, in its order.
pub open spec fn listing_names(listing: Seq<(Seq<u8>, FileKind)>) -> Seq<Seq<u8>> {
    Seq::new(listing.len(), |i: int| listing[i].0)
}

/// One step of a directory cursor: the listing that is left, and the entry
/// handed out, if any was left.
pub open spec fn next_entry(listing: Seq<(Seq<u8>, FileKind)>) -> (
    Seq<(Seq<u8>, FileKind)>,
    Option<(Seq<u8>, FileKind)>,
) {
    if listing.len() == 0 {
        (listing, None)
    } else {
        (listing.skip(1), Some(listing[0]))
    }
}

/// The smaller of two numbers.
pub open spec fn least(a: nat, b: nat) -> nat {
    if a <= b {
        a
    } else {
        b
    }
}

/// The descriptor lies in the range of a table of `capacity` descriptors.
pub open spec fn in_range(capacity: nat, fd: i32) -> bool {
    FD_BASE <= fd < FD_BASE + capacity
}

/// The descriptor is in range and not in use.
pub open spec fn is_free(open: Map<i32, Handle>, capacity: nat, fd: i32) -> bool {
    in_range(capacity, fd) && !open.contains_key(fd)
}

/// Some descriptor is free.
pub open spec fn has_free(open: Map<i32, Handle>, capacity: nat) -> bool {
    exists|fd: i32| is_free(open, capacity, fd)
}

/// The descriptor is free and every smaller one in range is in use.
pub open spec fn is_lowest_free(open: Map<i32, Handle>, capacity: nat, fd: i32) -> bool {
    is_free(open, capacity, fd) && forall|g: i32| FD_BASE <= g < fd ==> open.contains_key(g)
}

/// The lowest free descriptor.
pub open spec fn next_fd(open: Map<i32, Handle>, capacity: nat) -> i32 {
    choose|fd: i32| is_lowest_free(open, capacity, fd)
}

/// There is one lowest free descriptor at most, and `next_fd` is it.
pub proof fn lemma_next_fd(open: Map<i32, Handle>, capacity: nat, fd: i32)
    requires
        is_lowest_free(open, capacity, fd),
    ensures
        next_fd(open, capacity) == fd,
        has_free(open, capacity),
{
    let other = next_fd(open, capacity);
    assert(is_lowest_free(open, capacity, other));
    if other < fd {
        assert(open.contains_key(other));
    }
    if fd < other {
        assert(open.contains_key(fd));
    }
    assert(is_free(open, capacity, fd));
}

/// Where a descriptor is free, one is the lowest.
pub proof fn lemma_lowest_free_exists(open: Map<i32, Handle>, capacity: nat)
    requires
        has_free(open, capacity),
    ensures
        is_lowest_free(open, capacity, next_fd(open, capacity)),
{
    let f = choose|fd: i32| is_free(open, capacity, fd);
    lemma_scan_to_free(open, capacity, f, FD_BASE);
}

/// Scans upwards from `from` to the free descriptor `free` for the lowest
/// free one.
proof fn lemma_scan_to_free(open: Map<i32, Handle>, capacity: nat, free: i32, from: i32)
    requires
        is_free(open, capacity, free),
        FD_BASE <= from <= free,
        forall|g: i32| FD_BASE <= g < from ==> open.contains_key(g),
    ensures
        exists|fd: i32| is_lowest_free(open, capacity, fd),
    decreases free - from,
{
    if !open.contains_key(from) {
        assert(is_lowest_free(open, capacity, from));
    } else {
        lemma_scan_to_free(open, capacity, free, (from + 1) as i32);
    }
}

/// While fewer descriptors are in use than the table can hold, and all of
/// them lie in range, one is free.
pub proof fn lemma_room_is_free(open: Map<i32, Handle>, capacity: nat)
    requires
        capacity <= MAX_OPEN,
        open.dom().finite(),
        open.dom().len() < capacity,
    ensures
        has_free(open, capacity),
{
    if !has_free(open, capacity) {
        let top = (FD_BASE + capacity) as i32;
        let range = Set::new(|fd: i32| FD_BASE <= fd < top);
        vstd::set_lib::range_set_properties::<i32>(FD_BASE, top);
        assert(range =~= <i32 as vstd::set_lib::FiniteRange>::range_set(FD_BASE, top));
        assert forall|fd: i32| range.contains(fd) implies open.dom().contains(fd) by {
            assert(!is_free(open, capacity, fd));
        }
        vstd::set_lib::lemma_len_subset(range, open.dom());
    }
}

impl FsState {
    /// A file or a directory stands at the key.
    pub open spec fn exists_at(self, key: Key) -> bool {
        self.files.contains_key(key) || is_directory(self.files, key)
    }

    /// The content at a key; a directory has none.
    pub open spec fn content(self, key: Key) -> Seq<u8> {
        if self.files.contains_key(key) {
            self.files[key]
        } else {
            Seq::empty()
        }
    }

    /// A key under which a file is stored is a file, whatever is stored below
    /// it; any other key that exists is a directory.
    pub open spec fn kind(self, key: Key) -> FileKind {
        if self.files.contains_key(key) {
            FileKind::File
        } else {
            FileKind::Directory
        }
    }

    /// What `stat` reports of a key.
    pub open spec fn metadata(self, key: Key) -> Metadata {
        Metadata { size: self.content(key).len() as usize, kind: self.kind(key) }
    }

    /// The descriptor lies in the store's range.
    pub open spec fn in_range(self, fd: i32) -> bool {
        in_range(self.capacity, fd)
    }

    /// Some descriptor is free.
    pub open spec fn has_free(self) -> bool {
        has_free(self.open, self.capacity)
    }

    /// The descriptor that the next `open` hands out.
    pub open spec fn next_fd(self) -> i32 {
        next_fd(self.open, self.capacity)
    }

    /// What holds of every state that the operations reach: contents fit in
    /// memory, finitely many files are open, and every open file has a
    /// descriptor in range, a key that exists and a position within its
    /// content.
    pub open spec fn valid(self) -> bool {
        &&& self.capacity <= MAX_OPEN
        &&& self.open.dom().finite()
        &&& forall|k: Key| #[trigger] self.files.contains_key(k) ==> self.files[k].len() <= usize::MAX
        &&& forall|fd: i32| #[trigger]
            self.open.contains_key(fd) ==> {
                &&& self.in_range(fd)
                &&& self.exists_at(self.open[fd].key)
                &&& self.open[fd].offset <= self.content(self.open[fd].key).len()
            }
    }

    /// The key that a path stands for in this state.
    pub open spec fn key_of(self, path: Seq<u8>) -> Key {
        resolve(path, self.cwd)
    }

    /// Opening a key: fails where nothing stands at the key or no descriptor
    /// is free; else the lowest free descriptor is bound to the key, at
    /// position 0.
    pub open spec fn open_key(self, key: Key) -> (FsState, Result<i32, FsError>) {
        if !self.exists_at(key) {
            (self, Err(FsError::NotFound))
        } else if !self.has_free() {
            (self, Err(FsError::ResourceExhausted))
        } else {
            let fd = self.next_fd();
            (FsState { open: self.open.insert(fd, Handle { key, offset: 0 }), ..self }, Ok(fd))
        }
    }

    /// `open`: the path is checked, resolved against the working directory
    /// and opened.
    pub open spec fn open(self, path: Seq<u8>) -> (FsState, Result<i32, FsError>) {
        if self.poisoned {
            (self, Err(FsError::PoisonedState))
        } else if !valid_utf8(path) {
            (self, Err(FsError::InvalidInput))
        } else {
            self.open_key(self.key_of(path))
        }
    }

    /// `open_at`: as `open`, but a relative path is resolved against `base`.
    pub open spec fn open_at(self, path: Seq<u8>, base: Seq<u8>) -> (FsState, Result<i32, FsError>) {
        if self.poisoned {
            (self, Err(FsError::PoisonedState))
        } else if !valid_utf8(path) || !valid_utf8(base) {
            (self, Err(FsError::InvalidInput))
        } else {
            self.open_key(resolve(path, base))
        }
    }

    /// How many bytes a read of at most `max` bytes yields.
    pub open spec fn read_len(self, fd: i32, max: nat) -> nat {
        let h = self.open[fd];
        least(max, (self.content(h.key).len() - h.offset) as nat)
    }

    /// `read`: the next bytes of the content, at most `max` and none past
    /// its end; the position moves past them.
    pub open spec fn read(self, fd: i32, max: nat) -> (FsState, Result<Seq<u8>, FsError>) {
        if self.poisoned {
            (self, Err(FsError::PoisonedState))
        } else if !self.open.contains_key(fd) {
            (self, Err(FsError::NotFound))
        } else {
            let h = self.open[fd];
            let n = self.read_len(fd, max);
            (
                FsState { open: self.open.insert(fd, Handle { offset: h.offset + n, ..h }), ..self },
                Ok(self.content(h.key).subrange(h.offset as int, (h.offset + n) as int)),
            )
        }
    }

    /// `close`: the descriptor is forgotten and free again.
    pub open spec fn close(self, fd: i32) -> (FsState, Result<(), FsError>) {
        if self.poisoned {
            (self, Err(FsError::PoisonedState))
        } else if !self.open.contains_key(fd) {
            (self, Err(FsError::NotFound))
        } else {
            (FsState { open: self.open.remove(fd), ..self }, Ok(()))
        }
    }

    /// `stat`: what stands at a path.
    pub open spec fn stat(self, path: Seq<u8>) -> Result<Metadata, FsError> {
        if self.poisoned {
            Err(FsError::PoisonedState)
        } else if !valid_utf8(path) {
            Err(FsError::InvalidInput)
        } else if !self.exists_at(self.key_of(path)) {
            Err(FsError::NotFound)
        } else {
            Ok(self.metadata(self.key_of(path)))
        }
    }

    /// `fstat`: what stands behind a descriptor.
    pub open spec fn fstat(self, fd: i32) -> Result<Metadata, FsError> {
        if self.poisoned {
            Err(FsError::PoisonedState)
        } else if !self.open.contains_key(fd) {
            Err(FsError::NotFound)
        } else {
            Ok(self.metadata(self.open[fd].key))
        }
    }

    /// `chdir`: where the path is a directory, the working directory becomes
    /// the path, joined to the old working directory if it is relative.
    pub open spec fn chdir(self, path: Seq<u8>) -> (FsState, Result<(), FsError>) {
        if self.poisoned {
            (self, Err(FsError::PoisonedState))
        } else if !valid_utf8(path) {
            (self, Err(FsError::InvalidInput))
        } else if !is_directory(self.files, self.key_of(path)) {
            (self, Err(FsError::NotFound))
        } else {
            (FsState { cwd: join(self.cwd, path), ..self }, Ok(()))
        }
    }

    /// `getcwd` into a buffer of `room` bytes, or, with no buffer, into one
    /// that the callee makes: then `room` must be 0.
    pub open spec fn getcwd(self, has_buffer: bool, room: nat) -> Result<Seq<u8>, FsError> {
        if self.poisoned {
            Err(FsError::PoisonedState)
        } else if has_buffer && self.cwd.len() > room {
            Err(FsError::InvalidInput)
        } else if !has_buffer && room != 0 {
            Err(FsError::InvalidInput)
        } else {
            Ok(self.cwd)
        }
    }

    /// The whole content of the file at a path, with a 0 byte behind it.
    pub open spec fn file_read(self, path: Seq<u8>) -> Result<Seq<u8>, FsError> {
        if self.poisoned {
            Err(FsError::PoisonedState)
        } else if !valid_utf8(path) {
            Err(FsError::InvalidInput)
        } else if !self.files.contains_key(self.key_of(path)) {
            Err(FsError::NotFound)
        } else {
            Ok(self.files[self.key_of(path)].push(0u8))
        }
    }

    /// The directory at a path, to be listed.
    pub open spec fn opendir(self, path: Seq<u8>) -> Result<Key, FsError> {
        if self.poisoned {
            Err(FsError::PoisonedState)
        } else if !valid_utf8(path) {
            Err(FsError::InvalidInput)
        } else if !is_directory(self.files, self.key_of(path)) {
            Err(FsError::NotFound)
        } else {
            Ok(self.key_of(path))
        }
    }

    /// The directory behind a descriptor, to be listed.
    pub open spec fn fdopendir(self, fd: i32) -> Result<Key, FsError> {
        if self.poisoned {
            Err(FsError::PoisonedState)
        } else if !self.open.contains_key(fd) || !is_directory(self.files, self.open[fd].key) {
            Err(FsError::NotFound)
        } else {
            Ok(self.open[fd].key)
        }
    }

    /// `listing` names each child of `dir` once, with its kind.
    pub open spec fn lists(self, dir: Key, listing: Seq<(Seq<u8>, FileKind)>) -> bool {
        &&& listing_names(listing).no_duplicates()
        &&& listing_names(listing).to_set() == child_names(self.files, dir)
        &&& forall|i: int|
            0 <= i < listing.len() ==> (#[trigger] listing[i]).1 == self.kind(dir.push(listing[i].0))
    }
}

} // verus!
