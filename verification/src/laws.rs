//! What holds of the operations together, proved over the model.

use crate::index::buildable;
use crate::index::child_names;
use crate::index::entry_key;
use crate::index::holds_entries;
use crate::index::is_directory;
use crate::model::is_lowest_free;
use crate::model::least;
use crate::model::lemma_lowest_free_exists;
use crate::model::lemma_room_is_free;
use crate::model::listing_names;
use crate::model::next_entry;
use crate::model::FsState;
use crate::model::Handle;
use crate::path::components;
use crate::path::is_absolute;
use crate::path::join;
use crate::path::lemma_resolve_relative;
use crate::path::normal_segments;
use crate::path::resolve;
use crate::trie::Key;
use crate::types::FileKind;
use crate::types::FsError;
use crate::types::Metadata;
use vstd::prelude::*;
use vstd::utf8::valid_utf8;

verus! {

/// The bytes that successive reads of the given sizes yield, one after the
/// other, and the state after the last.
pub open spec fn read_chunks(s: FsState, fd: i32, sizes: Seq<nat>) -> (FsState, Seq<u8>)
    decreases sizes.len(),
{
    if sizes.len() == 0 {
        (s, Seq::empty())
    } else {
        let first = s.read(fd, sizes[0]);
        let rest = read_chunks(first.0, fd, sizes.skip(1));
        (
            rest.0,
            match first.1 {
                Ok(data) => data,
                Err(_) => Seq::empty(),
            } + rest.1,
        )
    }
}

/// The sum of the sizes.
pub open spec fn total(sizes: Seq<nat>) -> nat
    decreases sizes.len(),
{
    if sizes.len() == 0 {
        0
    } else {
        sizes[0] + total(sizes.skip(1))
    }
}

/// The descriptors that successive opens of the given paths yield, and the
/// state after the last.
pub open spec fn open_all(s: FsState, paths: Seq<Seq<u8>>) -> (FsState, Seq<Result<i32, FsError>>)
    decreases paths.len(),
{
    if paths.len() == 0 {
        (s, Seq::empty())
    } else {
        let first = s.open(paths[0]);
        let rest = open_all(first.0, paths.skip(1));
        (rest.0, seq![first.1] + rest.1)
    }
}

/// The names that `k` steps of a directory cursor hand out, in order.
pub open spec fn names_read(listing: Seq<(Seq<u8>, FileKind)>, k: nat) -> Seq<Seq<u8>>
    decreases k,
{
    if k == 0 {
        Seq::empty()
    } else {
        let step = next_entry(listing);
        match step.1 {
            Some(e) => seq![e.0] + names_read(step.0, (k - 1) as nat),
            None => names_read(step.0, (k - 1) as nat),
        }
    }
}

/// The listing that is left after `k` steps of a directory cursor.
pub open spec fn left_after(listing: Seq<(Seq<u8>, FileKind)>, k: nat) -> Seq<(Seq<u8>, FileKind)>
    decreases k,
{
    if k == 0 {
        listing
    } else {
        left_after(next_entry(listing).0, (k - 1) as nat)
    }
}

/// An absolute path stands for the same key whatever the working directory
/// is, and so does any path while the working directory is empty.
pub proof fn law_absolute_key(s: FsState, path: Seq<u8>)
    requires
        is_absolute(path) || s.cwd.len() == 0,
    ensures
        s.key_of(path) == components(path),
{
}

/// Every operation keeps a valid state valid.
pub proof fn law_valid_is_kept(s: FsState, path: Seq<u8>, base: Seq<u8>, fd: i32, max: nat)
    requires
        s.valid(),
    ensures
        s.open(path).0.valid(),
        s.open_at(path, base).0.valid(),
        s.read(fd, max).0.valid(),
        s.close(fd).0.valid(),
        s.chdir(path).0.valid(),
{
    lemma_open_key(s, s.key_of(path));
    lemma_open_key(s, resolve(path, base));
}

/// Opening a key that exists, while a descriptor is free, binds a
/// descriptor that was free to the key at position 0 and leaves every other
/// descriptor as it was.
pub proof fn lemma_open_key(s: FsState, key: Key)
    requires
        s.valid(),
    ensures
        s.open_key(key).0.valid(),
        s.open_key(key).1 is Ok <==> s.exists_at(key) && s.has_free(),
        s.open_key(key).1 matches Ok(fd) ==> {
            &&& is_lowest_free(s.open, s.capacity, fd)
            &&& s.open_key(key).0 == (FsState {
                open: s.open.insert(fd, Handle { key, offset: 0 }),
                ..s
            })
        },
        s.open_key(key).1 is Err ==> s.open_key(key).0 == s,
{
    if s.exists_at(key) && s.has_free() {
        lemma_lowest_free_exists(s.open, s.capacity);
    }
}

/// A file given at construction under a path that stands for its own key
/// can be opened while a descriptor is free; reads through the descriptor
/// start at the beginning of the content given with the path.
pub proof fn law_stored_file_opens(s: FsState, entries: Seq<(Seq<u8>, Seq<u8>)>, i: int)
    requires
        s.valid(),
        !s.poisoned,
        s.has_free(),
        buildable(entries),
        holds_entries(s.files, entries),
        0 <= i < entries.len(),
        s.key_of(entries[i].0) == components(entries[i].0),
    ensures
        s.open(entries[i].0).1 matches Ok(fd) && {
            let after = s.open(entries[i].0).0;
            &&& after.open.contains_key(fd)
            &&& after.open[fd].offset == 0
            &&& after.content(after.open[fd].key) == entries[i].1
            &&& after.valid()
            &&& !after.poisoned
        },
{
    let path = entries[i].0;
    assert(valid_utf8(entries[i].0));
    assert(entry_key(entries, i) == s.key_of(path));
    assert(s.files.contains_key(entry_key(entries, i)));
    lemma_open_key(s, s.key_of(path));
}

/// Reads in chunks of any sizes yield, put together, the content from the
/// read position on, as far as the sizes reach and not past its end; the
/// position ends behind what was read.
pub proof fn law_reads_concatenate(s: FsState, fd: i32, sizes: Seq<nat>)
    requires
        s.valid(),
        !s.poisoned,
        s.open.contains_key(fd),
    ensures
        ({
            let h = s.open[fd];
            let content = s.content(h.key);
            let end = least(content.len(), h.offset + total(sizes));
            let after = read_chunks(s, fd, sizes);
            &&& after.1 == content.subrange(h.offset as int, end as int)
            &&& after.0 == (FsState { open: s.open.insert(fd, Handle { key: h.key, offset: end }), ..s })
            &&& after.0.valid()
        }),
    decreases sizes.len(),
{
    let h = s.open[fd];
    let content = s.content(h.key);
    let end = least(content.len(), h.offset + total(sizes));
    if sizes.len() == 0 {
        assert(s.open.insert(fd, Handle { key: h.key, offset: end }) =~= s.open);
        assert(content.subrange(h.offset as int, end as int) =~= Seq::<u8>::empty());
    } else {
        let first = s.read(fd, sizes[0]);
        let n = s.read_len(fd, sizes[0]);
        let mid = h.offset + n;
        law_reads_concatenate(first.0, fd, sizes.skip(1));
        let rest = read_chunks(first.0, fd, sizes.skip(1));
        assert(first.0.open[fd] == Handle { key: h.key, offset: mid });
        assert(first.0.content(h.key) == content);
        assert(end == least(content.len(), mid + total(sizes.skip(1))));
        assert(content.subrange(h.offset as int, mid as int) + content.subrange(mid as int, end as int)
            =~= content.subrange(h.offset as int, end as int));
        assert(first.0.open.insert(fd, Handle { key: h.key, offset: end }) =~= s.open.insert(
            fd,
            Handle { key: h.key, offset: end },
        ));
    }
}

/// Reads from the beginning whose sizes add up to the length of the content
/// or more yield the whole content, and every read after them is empty.
pub proof fn law_reads_reproduce_content(s: FsState, fd: i32, sizes: Seq<nat>, max: nat)
    requires
        s.valid(),
        !s.poisoned,
        s.open.contains_key(fd),
        s.open[fd].offset == 0,
        total(sizes) >= s.content(s.open[fd].key).len(),
    ensures
        read_chunks(s, fd, sizes).1 == s.content(s.open[fd].key),
        read_chunks(s, fd, sizes).0.read(fd, max).1 == Ok::<Seq<u8>, FsError>(Seq::empty()),
{
    law_reads_concatenate(s, fd, sizes);
    let content = s.content(s.open[fd].key);
    assert(content.subrange(0, content.len() as int) =~= content);
    let after = read_chunks(s, fd, sizes).0;
    assert(after.read(fd, max).1->Ok_0 =~= Seq::<u8>::empty());
}

/// Where a path can be opened, `fstat` on the new descriptor reports what
/// `stat` reports of the path, before and after.
pub proof fn law_fstat_is_stat(s: FsState, path: Seq<u8>)
    requires
        s.valid(),
        s.open(path).1 is Ok,
    ensures
        s.open(path).0.fstat(s.open(path).1->Ok_0) == s.stat(path),
        s.open(path).0.stat(path) == s.stat(path),
        s.stat(path) is Ok,
{
    lemma_open_key(s, s.key_of(path));
}

/// Of a file given at construction, `stat` reports the length of its
/// content.
pub proof fn law_stat_size(s: FsState, entries: Seq<(Seq<u8>, Seq<u8>)>, i: int)
    requires
        s.valid(),
        !s.poisoned,
        buildable(entries),
        holds_entries(s.files, entries),
        0 <= i < entries.len(),
        s.key_of(entries[i].0) == components(entries[i].0),
    ensures
        s.stat(entries[i].0) matches Ok(meta) && meta.size == entries[i].1.len() && meta.kind
            == FileKind::File,
{
    assert(valid_utf8(entries[i].0));
    assert(entry_key(entries, i) == s.key_of(entries[i].0));
    assert(s.files.contains_key(entry_key(entries, i)));
}

/// After `close`, the descriptor is unknown: `read`, `fstat` and a second
/// `close` find nothing.
pub proof fn law_closed_is_unknown(s: FsState, fd: i32, max: nat)
    requires
        !s.poisoned,
    ensures
        s.close(fd).0.read(fd, max).1 == Err::<Seq<u8>, FsError>(FsError::NotFound),
        s.close(fd).0.fstat(fd) == Err::<Metadata, FsError>(FsError::NotFound),
        s.close(fd).0.close(fd).1 == Err::<(), FsError>(FsError::NotFound),
{
}

/// As many steps of the cursor as the listing is long hand out its names in
/// order; no step after them hands out anything.
pub proof fn law_cursor_hands_out_listing(listing: Seq<(Seq<u8>, FileKind)>, more: nat)
    ensures
        names_read(listing, listing.len()) == listing_names(listing),
        left_after(listing, listing.len() + more).len() == 0,
        next_entry(left_after(listing, listing.len() + more)).1 is None,
    decreases listing.len(),
{
    if listing.len() == 0 {
        assert(listing_names(listing) =~= Seq::<Seq<u8>>::empty());
        lemma_nothing_left(listing, more);
    } else {
        let rest = listing.skip(1);
        law_cursor_hands_out_listing(rest, more);
        assert(listing_names(listing) =~= seq![listing[0].0] + listing_names(rest));
    }
}

/// An empty listing stays empty.
proof fn lemma_nothing_left(listing: Seq<(Seq<u8>, FileKind)>, k: nat)
    requires
        listing.len() == 0,
    ensures
        left_after(listing, k) == listing,
    decreases k,
{
    if k > 0 {
        lemma_nothing_left(listing, (k - 1) as nat);
    }
}

/// Reading a directory to its end yields exactly its children, each once.
pub proof fn law_readdir_yields_children(s: FsState, dir: Key, listing: Seq<(Seq<u8>, FileKind)>)
    requires
        s.lists(dir, listing),
    ensures
        names_read(listing, listing.len()).no_duplicates(),
        names_read(listing, listing.len()).to_set() == child_names(s.files, dir),
{
    law_cursor_hands_out_listing(listing, 0);
}

/// `chdir` to a path that is no directory fails and changes nothing.
pub proof fn law_chdir_needs_directory(s: FsState, path: Seq<u8>)
    requires
        !is_directory(s.files, s.key_of(path)),
    ensures
        s.chdir(path).1 is Err,
        s.chdir(path).0 == s,
{
}

/// `chdir` to a directory succeeds, and a relative path then stands for the
/// key of that directory followed by the path's own segments.
pub proof fn law_chdir_moves_resolution(s: FsState, path: Seq<u8>, relative: Seq<u8>)
    requires
        !s.poisoned,
        valid_utf8(path),
        is_directory(s.files, s.key_of(path)),
        !is_absolute(relative),
        join(s.cwd, path).len() > 0,
    ensures
        s.chdir(path).1 is Ok,
        s.chdir(path).0.cwd == join(s.cwd, path),
        s.chdir(path).0.key_of(relative) == s.key_of(path) + normal_segments(relative),
{
    lemma_resolve_relative(relative, join(s.cwd, path));
}

/// `getcwd` succeeds with a buffer that is exactly as long as the working
/// directory, and fails with one that is a byte shorter.
pub proof fn law_getcwd_room(s: FsState)
    requires
        !s.poisoned,
    ensures
        s.getcwd(true, s.cwd.len()) == Ok::<Seq<u8>, FsError>(s.cwd),
        s.cwd.len() > 0 ==> s.getcwd(true, (s.cwd.len() - 1) as nat) == Err::<Seq<u8>, FsError>(
            FsError::InvalidInput,
        ),
{
}

/// A descriptor that `open` hands out was not in use before, is in use
/// after, and no other descriptor changes.
pub proof fn law_open_is_fresh(s: FsState, path: Seq<u8>)
    requires
        s.valid(),
        s.open(path).1 is Ok,
    ensures
        ({
            let fd = s.open(path).1->Ok_0;
            let after = s.open(path).0;
            &&& !s.open.contains_key(fd)
            &&& after.open.contains_key(fd)
            &&& forall|other: i32| #[trigger]
                s.open.contains_key(other) ==> after.open.contains_key(other) && after.open[other]
                    == s.open[other]
        }),
{
    lemma_open_key(s, s.key_of(path));
}

/// Opens that follow one another with no `close` between them never hand
/// out the same descriptor twice, and every descriptor handed out is in use
/// at the end.
pub proof fn law_opens_are_distinct(s: FsState, paths: Seq<Seq<u8>>)
    requires
        s.valid(),
    ensures
        ({
            let got = open_all(s, paths).1;
            let after = open_all(s, paths).0;
            &&& got.len() == paths.len()
            &&& after.valid()
            &&& forall|fd: i32| #[trigger] s.open.contains_key(fd) ==> after.open.contains_key(fd)
            &&& forall|i: int|
                0 <= i < got.len() && (#[trigger] got[i]) is Ok ==> after.open.contains_key(got[i]->Ok_0)
                    && !s.open.contains_key(got[i]->Ok_0)
            &&& forall|i: int, j: int|
                0 <= i < j < got.len() && (#[trigger] got[i]) is Ok && (#[trigger] got[j]) is Ok
                    ==> got[i]->Ok_0 != got[j]->Ok_0
        }),
    decreases paths.len(),
{
    if paths.len() > 0 {
        let first = s.open(paths[0]);
        lemma_open_key(s, s.key_of(paths[0]));
        law_opens_are_distinct(first.0, paths.skip(1));
        let rest = open_all(first.0, paths.skip(1));
        let got = open_all(s, paths).1;
        let after = open_all(s, paths).0;
        assert(got == seq![first.1] + rest.1);
        assert forall|i: int| 0 <= i < got.len() && (#[trigger] got[i]) is Ok implies after.open.contains_key(
            got[i]->Ok_0,
        ) && !s.open.contains_key(got[i]->Ok_0) by {
            let fd = got[i]->Ok_0;
            if i > 0 {
                assert(got[i] == rest.1[i - 1]);
                assert(!first.0.open.contains_key(fd));
                if s.open.contains_key(fd) {
                    assert(first.0.open.contains_key(fd));
                }
            } else {
                assert(got[0] == first.1);
                assert(first.0.open.contains_key(fd));
                assert(!s.open.contains_key(fd));
            }
        }
        assert forall|i: int, j: int|
            0 <= i < j < got.len() && (#[trigger] got[i]) is Ok && (#[trigger] got[j]) is Ok implies got[i]->Ok_0
            != got[j]->Ok_0 by {
            assert(got[j] == rest.1[j - 1]);
            if i > 0 {
                assert(got[i] == rest.1[i - 1]);
            } else {
                assert(got[0] == first.1);
                assert(first.0.open.contains_key(got[0]->Ok_0));
            }
        }
    }
}

/// Opens of paths that exist, one after the other, all succeed while the
/// table has room for them.
pub proof fn law_opens_succeed(s: FsState, paths: Seq<Seq<u8>>)
    requires
        s.valid(),
        !s.poisoned,
        forall|i: int|
            0 <= i < paths.len() ==> valid_utf8(#[trigger] paths[i]) && s.exists_at(s.key_of(paths[i])),
        s.open.dom().len() + paths.len() <= s.capacity,
    ensures
        forall|i: int| 0 <= i < paths.len() ==> (#[trigger] open_all(s, paths).1[i]) is Ok,
        open_all(s, paths).1.len() == paths.len(),
    decreases paths.len(),
{
    if paths.len() > 0 {
        let first = s.open(paths[0]);
        let tail = paths.skip(1);
        lemma_room_is_free(s.open, s.capacity);
        lemma_open_key(s, s.key_of(paths[0]));
        assert(first.1 is Ok);
        assert forall|i: int| 0 <= i < tail.len() implies valid_utf8(#[trigger] tail[i])
            && first.0.exists_at(first.0.key_of(tail[i])) by {
            assert(tail[i] == paths[i + 1]);
        }
        law_opens_succeed(first.0, tail);
        let rest = open_all(first.0, tail);
        let got = open_all(s, paths).1;
        assert(got == seq![first.1] + rest.1);
        assert forall|i: int| 0 <= i < paths.len() implies (#[trigger] got[i]) is Ok by {
            if i > 0 {
                assert(got[i] == rest.1[i - 1]);
            }
        }
    }
}

} // verus!
