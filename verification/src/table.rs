//! The descriptor table: which descriptors are in use, and for each the key
//! it was opened under and its read position.

use crate::model::has_free;
use crate::model::in_range;
use crate::model::is_free;
use crate::model::is_lowest_free;
use crate::model::lemma_next_fd;
use crate::model::next_fd;
use crate::model::Handle;
use crate::model::FD_BASE;
use crate::model::MAX_OPEN;
use vstd::prelude::*;

verus! {

/// An open file.
pub struct OpenFile {
    key: Vec<Vec<u8>>,
    offset: usize,
}

impl View for OpenFile {
    type V = Handle;

    closed spec fn view(&self) -> Handle {
        Handle { key: self.key.deep_view(), offset: self.offset as nat }
    }
}

impl OpenFile {
    /// The key that the file was opened under.
    pub fn key(&self) -> (key: &Vec<Vec<u8>>)
        ensures
            key.deep_view() == self@.key,
    {
        &self.key
    }

    /// The read position.
    pub fn offset(&self) -> (offset: usize)
        ensures
            offset == self@.offset,
    {
        self.offset
    }
}

/// The descriptor table. Slot `i` stands for the descriptor `FD_BASE + i`.
pub struct DescriptorTable {
    slots: Vec<Option<OpenFile>>,
    capacity: usize,
}

/// The slot of a descriptor.
pub open spec fn slot_of(fd: i32) -> int {
    fd - FD_BASE
}

impl View for DescriptorTable {
    type V = Map<i32, Handle>;

    closed spec fn view(&self) -> Map<i32, Handle> {
        Map::new(
            |fd: i32| 0 <= slot_of(fd) < self.slots.len() && self.slots[slot_of(fd)] is Some,
            |fd: i32| self.slots[slot_of(fd)]->0@,
        )
    }
}

impl DescriptorTable {
    /// How many descriptors the table can hold.
    pub closed spec fn limit(&self) -> nat {
        self.capacity as nat
    }

    /// The table's invariant: no more slots than the limit allows.
    pub closed spec fn wf(&self) -> bool {
        self.slots.len() <= self.capacity <= MAX_OPEN
    }

    /// An empty table for at most `capacity` descriptors, and never more
    /// than `MAX_OPEN`.
    pub fn new(capacity: usize) -> (table: DescriptorTable)
        ensures
            table.wf(),
            table@ == Map::<i32, Handle>::empty(),
            table.limit() == if capacity <= MAX_OPEN {
                capacity
            } else {
                MAX_OPEN
            },
    {
        let table = DescriptorTable {
            slots: Vec::new(),
            capacity: if capacity <= MAX_OPEN {
                capacity
            } else {
                MAX_OPEN
            },
        };
        assert(table@ =~= Map::<i32, Handle>::empty());
        table
    }

    /// Binds the lowest free descriptor to `key`, at position 0. `None`
    /// where no descriptor is free.
    pub fn allocate(&mut self, key: Vec<Vec<u8>>) -> (got: Option<i32>)
        requires
            old(self).wf(),
        ensures
            final(self).wf(),
            final(self).limit() == old(self).limit(),
            got is Some <==> has_free(old(self)@, old(self).limit()),
            got matches Some(fd) ==> is_lowest_free(old(self)@, old(self).limit(), fd),
            got matches Some(fd) ==> fd == next_fd(old(self)@, old(self).limit()) && final(self)@
                == old(self)@.insert(fd, Handle { key: key.deep_view(), offset: 0 }),
            got is None ==> final(self)@ == old(self)@,
    {
        let ghost before = self@;
        let ghost limit = self.limit();
        let mut i: usize = 0;
        while i < self.slots.len() && self.slots[i].is_some()
            invariant
                i <= self.slots.len(),
                forall|j: int| 0 <= j < i ==> self.slots[j] is Some,
            decreases self.slots.len() - i,
        {
            i += 1;
        }
        if i >= self.capacity {
            proof {
                assert forall|fd: i32| !is_free(before, limit, fd) by {
                    if in_range(limit, fd) {
                        assert(self.slots[slot_of(fd)] is Some);
                    }
                }
            }
            return None;
        }
        let fd: i32 = FD_BASE + (i as i32);
        let ghost handle = Handle { key: key.deep_view(), offset: 0 };
        proof {
            assert(slot_of(fd) == i);
            assert forall|g: i32| FD_BASE <= g < fd implies before.contains_key(g) by {
                assert(self.slots[slot_of(g)] is Some);
            }
            assert(is_lowest_free(before, limit, fd));
            lemma_next_fd(before, limit, fd);
        }
        let file = OpenFile { key, offset: 0 };
        if i < self.slots.len() {
            self.slots[i] = Some(file);
        } else {
            self.slots.push(Some(file));
        }
        assert(self@ =~= before.insert(fd, handle));
        Some(fd)
    }

    /// The open file behind a descriptor.
    pub fn get(&self, fd: i32) -> (got: Option<&OpenFile>)
        ensures
            got is Some <==> self@.contains_key(fd),
            got matches Some(file) ==> file@ == self@[fd],
    {
        if fd < FD_BASE {
            return None;
        }
        let i = (fd - FD_BASE) as usize;
        if i >= self.slots.len() {
            return None;
        }
        self.slots[i].as_ref()
    }

    /// Moves the read position of an open file.
    pub fn set_offset(&mut self, fd: i32, offset: usize)
        requires
            old(self).wf(),
            old(self)@.contains_key(fd),
        ensures
            final(self).wf(),
            final(self).limit() == old(self).limit(),
            final(self)@ == old(self)@.insert(
                fd,
                Handle { key: old(self)@[fd].key, offset: offset as nat },
            ),
    {
        let ghost before = self@;
        let i = (fd - FD_BASE) as usize;
        let slot = &mut self.slots[i];
        match slot {
            Some(file) => {
                file.offset = offset;
            },
            None => {},
        }
        assert(self@ =~= before.insert(fd, Handle { key: before[fd].key, offset: offset as nat }));
    }

    /// Frees a descriptor. `false` where it was not in use.
    pub fn release(&mut self, fd: i32) -> (was_open: bool)
        requires
            old(self).wf(),
        ensures
            final(self).wf(),
            final(self).limit() == old(self).limit(),
            was_open == old(self)@.contains_key(fd),
            final(self)@ == old(self)@.remove(fd),
    {
        let ghost before = self@;
        if fd < FD_BASE {
            assert(self@ =~= before.remove(fd));
            return false;
        }
        let i = (fd - FD_BASE) as usize;
        if i >= self.slots.len() {
            assert(self@ =~= before.remove(fd));
            return false;
        }
        let was_open = self.slots[i].is_some();
        self.slots[i] = None;
        assert(self@ =~= before.remove(fd));
        was_open
    }
}

} // verus!
