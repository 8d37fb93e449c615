use kompo_fs::chdir_from_fs;
use kompo_fs::close_from_fs;
use kompo_fs::closedir_from_fs;
use kompo_fs::context_func;
use kompo_fs::fdopendir_from_fs;
use kompo_fs::fstat_from_fs;
use kompo_fs::get_start_file;
use kompo_fs::getcwd_from_fs;
use kompo_fs::initialize_trie;
use kompo_fs::is_context_func;
use kompo_fs::open_at_from_fs;
use kompo_fs::open_from_fs;
use kompo_fs::raw_path_to_kompo_path;
use kompo_fs::read_from_fs;
use kompo_fs::readdir_from_fs;
use kompo_fs::stat_from_fs;
use kompo_fs::FileKind;
use kompo_fs::Fs;
use kompo_fs::FsError;
use kompo_fs::Metadata;
use kompo_fs::ThreadActivationMap;
use kompo_fs::FD_BASE;

fn store() -> Fs {
    initialize_trie(
        b"/root/app.rb\0/root/lib/foo.rb\0",
        b"puts 1\0class Foo; end\0",
        b"/root",
    )
    .unwrap()
}

#[test]
fn store_from_embedded_blocks() {
    let mut fs = store();
    let fd = open_from_fs(&mut fs, b"/root/app.rb").unwrap();
    assert_eq!(fd, FD_BASE);
    let mut buf = vec![0u8; 100];
    assert_eq!(read_from_fs(&mut fs, fd, &mut buf, 100), Some(6));
    assert_eq!(&buf[..6], b"puts 1");
    assert_eq!(read_from_fs(&mut fs, fd, &mut buf, 100), Some(0));
    assert_eq!(fs.getcwd(), Ok(b"/root".to_vec()));
}

#[test]
fn blocks_with_more_paths_than_contents_keep_the_pairs() {
    let mut fs = initialize_trie(b"/a\0/b\0/c\0", b"1\0", b"/").unwrap();
    assert!(open_from_fs(&mut fs, b"/a").is_some());
    assert_eq!(open_from_fs(&mut fs, b"/b"), None);
    assert!(matches!(initialize_trie(b"/a\0/a\0", b"1\0002\0", b"/"), Err(FsError::InvalidInput)));
    assert!(matches!(initialize_trie(b"\xff\0", b"1\0", b"/"), Err(FsError::InvalidInput)));
    assert!(matches!(initialize_trie(b"\0", b"1\0", b"/"), Err(FsError::InvalidInput)));
}

#[test]
fn raw_paths_become_keys() {
    assert_eq!(
        raw_path_to_kompo_path(b"lib/foo.rb", b"/root"),
        Some(vec![b"/".to_vec(), b"root".to_vec(), b"lib".to_vec(), b"foo.rb".to_vec()])
    );
    assert_eq!(
        raw_path_to_kompo_path(b"/x", b"/root"),
        Some(vec![b"/".to_vec(), b"x".to_vec()])
    );
    assert_eq!(raw_path_to_kompo_path(&[0x80], b"/root"), None);
}

#[test]
fn open_read_close_through_the_surface() {
    let mut fs = store();
    assert_eq!(open_from_fs(&mut fs, b"/root/none"), None);
    assert_eq!(open_from_fs(&mut fs, &[0xff]), None);
    let fd = open_from_fs(&mut fs, b"lib/foo.rb").unwrap();
    let mut buf = vec![b'#'; 8];
    assert_eq!(read_from_fs(&mut fs, fd, &mut buf, 5), Some(5));
    assert_eq!(buf, b"class###".to_vec());
    assert_eq!(read_from_fs(&mut fs, fd, &mut buf, 100), Some(8));
    assert_eq!(buf, b" Foo; en".to_vec());
    assert_eq!(read_from_fs(&mut fs, fd, &mut buf, 0), Some(0));
    assert_eq!(read_from_fs(&mut fs, fd, &mut buf, 100), Some(1));
    assert_eq!(buf, b"dFoo; en".to_vec());
    assert_eq!(read_from_fs(&mut fs, fd, &mut buf, 100), Some(0));
    assert_eq!(close_from_fs(&mut fs, fd), Some(0));
    assert_eq!(close_from_fs(&mut fs, fd), None);
    assert_eq!(read_from_fs(&mut fs, fd, &mut buf, 100), None);
    assert_eq!(buf, b"dFoo; en".to_vec());
}

#[test]
fn open_at_through_the_surface() {
    let mut fs = store();
    let fd = open_at_from_fs(&mut fs, b"foo.rb", "/root/lib").unwrap();
    let mut buf = vec![0u8; 5];
    assert_eq!(read_from_fs(&mut fs, fd, &mut buf, 5), Some(5));
    assert_eq!(buf, b"class".to_vec());
    assert_eq!(open_at_from_fs(&mut fs, b"foo.rb", "/root"), None);
    assert!(open_at_from_fs(&mut fs, b"/root/app.rb", "/other").is_some());
}

#[test]
fn stat_fills_the_record_only_on_success() {
    let mut fs = store();
    let untouched = Metadata { size: 77, kind: FileKind::Directory };
    let mut stat = untouched;
    assert_eq!(stat_from_fs(&fs, b"/root/none", &mut stat), None);
    assert_eq!(stat, untouched);
    assert_eq!(stat_from_fs(&fs, b"/root/lib/foo.rb", &mut stat), Some(0));
    assert_eq!(stat, Metadata { size: 14, kind: FileKind::File });
    let fd = open_from_fs(&mut fs, b"app.rb").unwrap();
    let mut fstat = untouched;
    assert_eq!(fstat_from_fs(&fs, fd + 5, &mut fstat), None);
    assert_eq!(fstat, untouched);
    assert_eq!(fstat_from_fs(&fs, fd, &mut fstat), Some(0));
    assert_eq!(fstat, Metadata { size: 6, kind: FileKind::File });
    assert_eq!(stat_from_fs(&fs, b"lib", &mut stat), Some(0));
    assert_eq!(stat, Metadata { size: 0, kind: FileKind::Directory });
}

#[test]
fn chdir_gives_one_on_success() {
    let mut fs = store();
    assert_eq!(chdir_from_fs(&mut fs, b"/root/app.rb"), None);
    assert_eq!(getcwd_from_fs(&fs, None, 0), Some(b"/root".to_vec()));
    assert_eq!(chdir_from_fs(&mut fs, b"/root/lib"), Some(1));
    assert_eq!(getcwd_from_fs(&fs, None, 0), Some(b"/root/lib".to_vec()));
    assert!(open_from_fs(&mut fs, b"foo.rb").is_some());
}

#[test]
fn getcwd_with_and_without_a_buffer() {
    let fs = store();
    assert_eq!(getcwd_from_fs(&fs, None, 0), Some(b"/root".to_vec()));
    assert_eq!(getcwd_from_fs(&fs, None, 5), None);
    assert_eq!(getcwd_from_fs(&fs, None, 1), None);
    let mut exact = vec![0u8; 5];
    assert_eq!(getcwd_from_fs(&fs, Some(&mut exact), 5), Some(b"/root".to_vec()));
    assert_eq!(exact, b"/root".to_vec());
    let mut short = vec![3u8; 4];
    assert_eq!(getcwd_from_fs(&fs, Some(&mut short), 4), None);
    assert_eq!(short, vec![3u8; 4]);
    let mut long = vec![3u8; 7];
    assert_eq!(getcwd_from_fs(&fs, Some(&mut long), 4), None);
    assert_eq!(long, vec![3u8; 7]);
    assert_eq!(getcwd_from_fs(&fs, Some(&mut long), 6), Some(b"/root".to_vec()));
    assert_eq!(long, b"/root\x03\x03".to_vec());
}

#[test]
fn directories_through_the_surface() {
    let mut fs = store();
    let file = open_from_fs(&mut fs, b"/root/app.rb").unwrap();
    assert!(fdopendir_from_fs(&fs, file).is_none());
    let fd = open_from_fs(&mut fs, b"/root").unwrap();
    let mut dir = fdopendir_from_fs(&fs, fd).unwrap();
    let mut names = Vec::new();
    while let Some(entry) = readdir_from_fs(&fs, &mut dir) {
        names.push((entry.name, entry.kind));
    }
    names.sort_by(|x, y| x.0.cmp(&y.0));
    assert_eq!(
        names,
        vec![(b"app.rb".to_vec(), FileKind::File), (b"lib".to_vec(), FileKind::Directory)]
    );
    assert!(readdir_from_fs(&fs, &mut dir).is_none());
    assert!(readdir_from_fs(&fs, &mut dir).is_none());
    assert_eq!(closedir_from_fs(&fs, dir), Some(0));
}

#[test]
fn start_file_comes_with_a_zero_byte() {
    let fs = store();
    assert_eq!(get_start_file(&fs, b"/root/app.rb"), Some(b"puts 1\0".to_vec()));
    assert_eq!(get_start_file(&fs, b"/root/none.rb"), None);
    assert_eq!(get_start_file(&fs, b"/root/lib"), None);
}

#[test]
fn poisoned_store_gives_nothing() {
    let mut fs = store();
    let fd = open_from_fs(&mut fs, b"/root").unwrap();
    let mut dir = fdopendir_from_fs(&fs, fd).unwrap();
    fs.poison();
    assert_eq!(open_from_fs(&mut fs, b"/root/app.rb"), None);
    assert_eq!(close_from_fs(&mut fs, fd), None);
    assert!(readdir_from_fs(&fs, &mut dir).is_none());
    assert_eq!(dir.remaining(), 2);
    assert_eq!(closedir_from_fs(&fs, dir), None);
    assert_eq!(getcwd_from_fs(&fs, None, 0), None);
    assert_eq!(chdir_from_fs(&mut fs, b"/root/lib"), None);
    assert_eq!(get_start_file(&fs, b"/root/app.rb"), None);
}

#[test]
fn a_thread_that_never_entered_is_inactive() {
    let gate = ThreadActivationMap::new();
    assert!(!gate.is_active(1));
    assert!(!is_context_func(&gate, 42));
}

#[test]
fn enter_and_leave_touch_only_the_thread_named() {
    let mut gate = ThreadActivationMap::new();
    gate.enter(1);
    assert!(gate.is_active(1));
    assert!(!gate.is_active(2));
    gate.enter(2);
    gate.leave(1);
    assert!(!gate.is_active(1));
    assert!(gate.is_active(2));
    gate.leave(2);
    assert!(!gate.is_active(2));
}

#[test]
fn scope_ends_inactive_whatever_the_work_returns() {
    let mut gate = ThreadActivationMap::new();
    let ok: Result<i32, String> = gate.enter_scope(7, |_| Ok(3));
    assert_eq!(ok, Ok(3));
    assert!(!gate.is_active(7));
    let failed: Result<i32, String> = gate.enter_scope(7, |_| Err("gave up".to_string()));
    assert_eq!(failed, Err("gave up".to_string()));
    assert!(!gate.is_active(7));
    gate.enter(8);
    let through: Result<(), ()> = context_func(&mut gate, 9, |_| Err(()));
    assert_eq!(through, Err(()));
    assert!(!is_context_func(&gate, 9));
    assert!(is_context_func(&gate, 8));
    assert_eq!(context_func(&mut gate, 8, |_| 5), 5);
    assert!(!is_context_func(&gate, 8));
}

#[test]
fn the_thread_is_active_while_the_work_runs() {
    let mut gate = ThreadActivationMap::new();
    gate.enter(2);
    let seen = gate.enter_scope(1, |during| (during.is_active(1), during.is_active(2), during.is_active(3)));
    assert_eq!(seen, (true, true, false));
    assert!(!gate.is_active(1));
    assert!(gate.is_active(2));
    let nested = context_func(&mut gate, 2, |during| is_context_func(during, 2));
    assert!(nested);
    assert!(!gate.is_active(2));
}
