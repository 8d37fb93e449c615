//! The operations in the shape in which a layer that intercepts system
//! calls asks for them: paths and buffers as bytes, a result or nothing.

use crate::blob::blob_entries;
use crate::blob::pair_records;
use crate::blob::split_records;
use crate::bytes::is_utf8;
use crate::dir::entry_view;
use crate::dir::DirEntry;
use crate::dir::FsDir;
use crate::fs::least_len;
use crate::fs::read_room;
use crate::fs::Fs;
use crate::gate::active;
use crate::gate::ThreadActivationMap;
use crate::index::buildable;
use crate::index::holds_entries;
use crate::model::next_entry;
use crate::model::Handle;
use crate::model::MAX_OPEN;
use crate::path::resolve;
use crate::path::resolve_path;
use crate::types::FsError;
use crate::types::Metadata;
use vstd::prelude::*;
use vstd::string::StringSliceAdditionalSpecFns;
use vstd::utf8::valid_utf8;

verus! {

/// The value of a result, if it has one.
pub open spec fn ok_of<T>(r: Result<T, FsError>) -> Option<T> {
    match r {
        Ok(v) => Some(v),
        Err(_) => None,
    }
}

/// Builds the store from the embedded data: a block of paths and a block of
/// contents, each a run of records ended by 0 bytes, and the working
/// directory.
pub fn initialize_trie(paths: &[u8], files: &[u8], working_dir: &[u8]) -> (made: Result<Fs, FsError>)
    ensures
        made is Ok <==> buildable(blob_entries(paths@, files@)) && valid_utf8(working_dir@),
        made matches Err(e) ==> e == FsError::InvalidInput,
        made matches Ok(fs) ==> {
            &&& fs.wf()
            &&& holds_entries(fs@.files, blob_entries(paths@, files@))
            &&& fs@.cwd == working_dir@
            &&& fs@.open == Map::<i32, Handle>::empty()
            &&& fs@.capacity == MAX_OPEN
            &&& !fs@.poisoned
        },
{
    let path_records = split_records(paths);
    let file_records = split_records(files);
    let entries = pair_records(&path_records, &file_records);
    Fs::new(&entries, working_dir)
}

/// The key of a path given as raw bytes, or nothing where the bytes are not
/// valid UTF-8.
pub fn raw_path_to_kompo_path(raw_path: &[u8], working_dir: &[u8]) -> (key: Option<Vec<Vec<u8>>>)
    ensures
        key is Some <==> valid_utf8(raw_path@),
        key matches Some(k) ==> k.deep_view() == resolve(raw_path@, working_dir@),
{
    if !is_utf8(raw_path) {
        return None;
    }
    Some(resolve_path(raw_path, working_dir))
}

/// `open`: the descriptor, or nothing where the call fails.
pub fn open_from_fs(fs: &mut Fs, path: &[u8]) -> (fd: Option<i32>)
    requires
        old(fs).wf(),
    ensures
        final(fs).wf(),
        final(fs)@ == old(fs)@.open(path@).0,
        fd == ok_of(old(fs)@.open(path@).1),
{
    match fs.open(path) {
        Ok(fd) => Some(fd),
        Err(_) => None,
    }
}

/// `openat`: as `open_from_fs`, but a relative path starts at
/// `base_dir_path`.
pub fn open_at_from_fs(fs: &mut Fs, path: &[u8], base_dir_path: &str) -> (fd: Option<i32>)
    requires
        old(fs).wf(),
    ensures
        final(fs).wf(),
        final(fs)@ == old(fs)@.open_at(path@, base_dir_path.spec_bytes()).0,
        fd == ok_of(old(fs)@.open_at(path@, base_dir_path.spec_bytes()).1),
{
    match fs.open_at(path, base_dir_path.as_bytes()) {
        Ok(fd) => Some(fd),
        Err(_) => None,
    }
}

/// `close`: 0, or nothing where the call fails.
pub fn close_from_fs(fs: &mut Fs, fd: i32) -> (closed: Option<i32>)
    requires
        old(fs).wf(),
    ensures
        final(fs).wf(),
        final(fs)@ == old(fs)@.close(fd).0,
        closed == if old(fs)@.close(fd).1 is Ok {
            Some(0i32)
        } else {
            None
        },
{
    match fs.close(fd) {
        Ok(_) => Some(0),
        Err(_) => None,
    }
}

/// `stat`: fills `stat` and gives 0, or leaves it and gives nothing where
/// the call fails.
pub fn stat_from_fs(fs: &Fs, path: &[u8], stat: &mut Metadata) -> (done: Option<i32>)
    ensures
        fs@.stat(path@) matches Ok(meta) ==> done == Some(0i32) && *final(stat) == meta,
        fs@.stat(path@) is Err ==> done is None && *final(stat) == *old(stat),
{
    match fs.stat(path) {
        Ok(meta) => {
            *stat = meta;
            Some(0)
        },
        Err(_) => None,
    }
}

/// `fstat`: fills `stat` and gives 0, or leaves it and gives nothing where
/// the call fails.
pub fn fstat_from_fs(fs: &Fs, fd: i32, stat: &mut Metadata) -> (done: Option<i32>)
    ensures
        fs@.fstat(fd) matches Ok(meta) ==> done == Some(0i32) && *final(stat) == meta,
        fs@.fstat(fd) is Err ==> done is None && *final(stat) == *old(stat),
{
    match fs.fstat(fd) {
        Ok(meta) => {
            *stat = meta;
            Some(0)
        },
        Err(_) => None,
    }
}

/// `read`: reads into the start of `buf` and gives the number of bytes
/// read, or leaves `buf` and gives nothing where the call fails.
pub fn read_from_fs(fs: &mut Fs, fd: i32, buf: &mut Vec<u8>, count: usize) -> (got: Option<isize>)
    requires
        old(fs).wf(),
    ensures
        final(fs).wf(),
        final(fs)@ == old(fs)@.read(fd, read_room(count, old(buf)@.len())).0,
        old(fs)@.read(fd, read_room(count, old(buf)@.len())).1 matches Ok(data) ==> {
            &&& got == Some(data.len() as isize)
            &&& data.len() <= isize::MAX
            &&& final(buf)@ == data + old(buf)@.skip(data.len() as int)
        },
        old(fs)@.read(fd, read_room(count, old(buf)@.len())).1 is Err ==> got is None && final(buf)@
            == old(buf)@,
{
    match fs.read_into(fd, buf, count) {
        Ok(n) => Some(n as isize),
        Err(_) => None,
    }
}

/// `chdir`: 1, or nothing where the call fails.
pub fn chdir_from_fs(fs: &mut Fs, path: &[u8]) -> (changed: Option<isize>)
    requires
        old(fs).wf(),
    ensures
        final(fs).wf(),
        final(fs)@ == old(fs)@.chdir(path@).0,
        changed == if old(fs)@.chdir(path@).1 is Ok {
            Some(1isize)
        } else {
            None
        },
{
    match fs.chdir(path) {
        Ok(_) => Some(1),
        Err(_) => None,
    }
}

/// `getcwd`: the working directory, or nothing where the call fails. With
/// a buffer, its first `count` bytes may be used, the working directory is
/// written to its start, and the call fails where it does not fit. Without
/// one, `count` must be 0.
pub fn getcwd_from_fs(fs: &Fs, buf: Option<&mut Vec<u8>>, count: usize) -> (cwd: Option<Vec<u8>>)
    ensures
        buf matches Some(b) ==> {
            &&& cwd is Some <==> fs@.getcwd(true, least_len(count, b@.len())) is Ok
            &&& cwd matches Some(c) ==> c@ == fs@.cwd && final(b)@ == fs@.cwd + b@.skip(
                fs@.cwd.len() as int,
            )
            &&& cwd is None ==> final(b)@ == b@
        },
        buf is None ==> {
            &&& cwd is Some <==> fs@.getcwd(false, count as nat) is Ok
            &&& cwd matches Some(c) ==> c@ == fs@.cwd
        },
{
    match buf {
        Some(b) => match fs.getcwd_into(b, count) {
            Ok(_) => match fs.getcwd() {
                Ok(c) => Some(c),
                Err(_) => None,
            },
            Err(_) => None,
        },
        None => {
            if count != 0 {
                return None;
            }
            match fs.getcwd() {
                Ok(c) => Some(c),
                Err(_) => None,
            }
        },
    }
}

/// `fdopendir`: a handle on the directory behind a descriptor, or nothing
/// where the call fails.
pub fn fdopendir_from_fs(fs: &Fs, fd: i32) -> (dir: Option<FsDir>)
    ensures
        dir is Some <==> fs@.fdopendir(fd) is Ok,
        dir matches Some(d) ==> d.wf() && fs@.lists(fs@.open[fd].key, d@),
{
    match fs.fdopendir(fd) {
        Ok(d) => Some(d),
        Err(_) => None,
    }
}

/// `readdir`: the next entry, or nothing at the end and where the call
/// fails.
pub fn readdir_from_fs(fs: &Fs, dir: &mut FsDir) -> (entry: Option<DirEntry>)
    requires
        old(dir).wf(),
    ensures
        final(dir).wf(),
        fs@.poisoned ==> entry is None && final(dir)@ == old(dir)@,
        !fs@.poisoned ==> entry_view(entry) == next_entry(old(dir)@).1 && final(dir)@ == next_entry(
            old(dir)@,
        ).0,
{
    match fs.readdir(dir) {
        Ok(e) => e,
        Err(_) => None,
    }
}

/// `closedir`: 0, or nothing where the call fails.
pub fn closedir_from_fs(fs: &Fs, dir: FsDir) -> (closed: Option<i32>)
    ensures
        closed == if fs@.poisoned {
            None
        } else {
            Some(0i32)
        },
{
    match fs.closedir(dir) {
        Ok(_) => Some(0),
        Err(_) => None,
    }
}

/// The whole file at a path with a 0 byte behind it, or nothing where there
/// is no such file.
pub fn get_start_file(fs: &Fs, start_file_path: &[u8]) -> (content: Option<Vec<u8>>)
    ensures
        content is Some <==> fs@.file_read(start_file_path@) is Ok,
        content matches Some(c) ==> fs@.file_read(start_file_path@) == Ok::<Seq<u8>, FsError>(c@),
{
    match fs.file_read(start_file_path) {
        Ok(c) => Some(c),
        Err(_) => None,
    }
}

/// Runs `work` with the thread marked as active; the thread is inactive
/// again whatever `work` returns.
pub fn context_func<T, F: FnOnce(&ThreadActivationMap) -> T>(
    gate: &mut ThreadActivationMap,
    thread: u64,
    work: F,
) -> (result: T)
    requires
        forall|during: ThreadActivationMap|
            during@ == old(gate)@.insert(thread, true) ==> work.requires((&during,)),
    ensures
        exists|during: ThreadActivationMap|
            during@ == old(gate)@.insert(thread, true) && work.ensures((&during,), result),
        final(gate)@ == old(gate)@.insert(thread, false),
        !active(final(gate)@, thread),
{
    gate.enter_scope(thread, work)
}

/// Whether the thread is inside a scope. A thread that never entered one is
/// not.
pub fn is_context_func(gate: &ThreadActivationMap, thread: u64) -> (r: bool)
    ensures
        r == active(gate@, thread),
{
    gate.is_active(thread)
}

} // verus!
