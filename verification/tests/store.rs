use kompo_fs::FileKind;
use kompo_fs::Fs;
use kompo_fs::FsError;
use kompo_fs::Metadata;
use kompo_fs::FD_BASE;

fn pair(path: &str, content: &str) -> (Vec<u8>, Vec<u8>) {
    (path.as_bytes().to_vec(), content.as_bytes().to_vec())
}

fn sample() -> Fs {
    let entries = vec![
        pair("/root/app.rb", "puts 1"),
        pair("/root/lib/foo.rb", "class Foo; end"),
    ];
    Fs::new(&entries, b"/root").unwrap()
}

fn names_of(fs: &Fs, path: &[u8]) -> Vec<String> {
    let mut dir = fs.opendir(path).unwrap();
    let mut names = Vec::new();
    while let Some(entry) = fs.readdir(&mut dir).unwrap() {
        names.push(String::from_utf8(entry.name).unwrap());
    }
    names.sort();
    names
}

#[test]
fn scenario_open_read_readdir_relative() {
    let mut fs = sample();
    let d = fs.open(b"/root/app.rb").unwrap();
    assert_eq!(fs.read(d, 100).unwrap(), b"puts 1".to_vec());
    assert_eq!(fs.read(d, 100).unwrap(), Vec::<u8>::new());
    assert_eq!(names_of(&fs, b"/root"), vec!["app.rb".to_string(), "lib".to_string()]);
    let e = fs.open(b"lib/foo.rb").unwrap();
    assert_ne!(d, e);
    assert_eq!(fs.read(e, 100).unwrap(), b"class Foo; end".to_vec());
}

#[test]
fn first_descriptor_is_the_base() {
    let mut fs = sample();
    assert_eq!(FD_BASE, 0x4000_0000);
    assert_eq!(fs.open(b"/root/app.rb"), Ok(FD_BASE));
    assert_eq!(fs.open(b"/root/app.rb"), Ok(FD_BASE + 1));
    assert_eq!(fs.open(b"/root/lib/foo.rb"), Ok(FD_BASE + 2));
}

#[test]
fn closed_descriptor_is_handed_out_again_lowest_first() {
    let mut fs = sample();
    let a = fs.open(b"/root/app.rb").unwrap();
    let b = fs.open(b"/root/app.rb").unwrap();
    let c = fs.open(b"/root/app.rb").unwrap();
    assert_eq!(fs.close(b), Ok(()));
    assert_eq!(fs.close(a), Ok(()));
    assert_eq!(fs.open(b"/root/lib/foo.rb"), Ok(a));
    assert_eq!(fs.open(b"/root/lib/foo.rb"), Ok(b));
    assert_eq!(fs.open(b"/root/lib/foo.rb"), Ok(c + 1));
    assert_eq!(fs.read(a, 5).unwrap(), b"class".to_vec());
}

#[test]
fn reads_in_chunks_reproduce_the_content() {
    for sizes in [vec![1usize; 20], vec![2, 3, 100], vec![14], vec![0, 5, 0, 9, 1]] {
        let mut fs = sample();
        let fd = fs.open(b"/root/lib/foo.rb").unwrap();
        let mut all = Vec::new();
        for n in sizes {
            all.extend(fs.read(fd, n).unwrap());
        }
        assert_eq!(all, b"class Foo; end".to_vec());
        assert_eq!(fs.read(fd, 7).unwrap(), Vec::<u8>::new());
        assert_eq!(fs.read(fd, 0).unwrap(), Vec::<u8>::new());
    }
}

#[test]
fn read_moves_the_position_by_what_it_returns() {
    let mut fs = sample();
    let fd = fs.open(b"/root/app.rb").unwrap();
    assert_eq!(fs.read(fd, 4).unwrap(), b"puts".to_vec());
    assert_eq!(fs.read(fd, 0).unwrap(), Vec::<u8>::new());
    assert_eq!(fs.read(fd, 1).unwrap(), b" ".to_vec());
    assert_eq!(fs.read(fd, 10).unwrap(), b"1".to_vec());
    let other = fs.open(b"/root/app.rb").unwrap();
    assert_eq!(fs.read(other, 2).unwrap(), b"pu".to_vec());
}

#[test]
fn fstat_and_stat_report_the_length_of_the_content() {
    let mut fs = sample();
    for (path, len) in [(&b"/root/app.rb"[..], 6usize), (&b"/root/lib/foo.rb"[..], 14usize)] {
        let fd = fs.open(path).unwrap();
        let want = Metadata { size: len, kind: FileKind::File };
        assert_eq!(fs.fstat(fd), Ok(want));
        assert_eq!(fs.stat(path), Ok(want));
    }
}

#[test]
fn stat_of_a_directory() {
    let mut fs = sample();
    let want = Metadata { size: 0, kind: FileKind::Directory };
    assert_eq!(fs.stat(b"/root/lib"), Ok(want));
    assert_eq!(fs.stat(b"/root"), Ok(want));
    assert_eq!(fs.stat(b"/"), Ok(want));
    assert_eq!(fs.stat(b"lib"), Ok(want));
    let fd = fs.open(b"/root/lib").unwrap();
    assert_eq!(fs.fstat(fd), Ok(want));
    assert_eq!(fs.read(fd, 10), Ok(Vec::new()));
}

#[test]
fn after_close_the_descriptor_is_unknown() {
    let mut fs = sample();
    let fd = fs.open(b"/root/app.rb").unwrap();
    assert_eq!(fs.close(fd), Ok(()));
    assert_eq!(fs.read(fd, 1), Err(FsError::NotFound));
    assert_eq!(fs.fstat(fd), Err(FsError::NotFound));
    assert_eq!(fs.close(fd), Err(FsError::NotFound));
    assert!(matches!(fs.fdopendir(fd), Err(FsError::NotFound)));
}

#[test]
fn unknown_descriptors_are_not_found() {
    let mut fs = sample();
    for fd in [-1, 0, 3, FD_BASE - 1, FD_BASE, FD_BASE + 1, i32::MAX, i32::MIN] {
        assert_eq!(fs.read(fd, 1), Err(FsError::NotFound));
        assert_eq!(fs.fstat(fd), Err(FsError::NotFound));
        assert_eq!(fs.close(fd), Err(FsError::NotFound));
    }
}

#[test]
fn not_found_for_a_path_that_is_not_stored() {
    let mut fs = sample();
    assert_eq!(fs.open(b"/root/nope.rb"), Err(FsError::NotFound));
    assert_eq!(fs.open(b"/root/app.rb/x"), Err(FsError::NotFound));
    assert_eq!(fs.open(b"/root/app"), Err(FsError::NotFound));
    assert_eq!(fs.stat(b"/elsewhere"), Err(FsError::NotFound));
    assert_eq!(fs.file_read(b"/root/lib"), Err(FsError::NotFound));
    assert!(matches!(fs.opendir(b"/root/app.rb"), Err(FsError::NotFound)));
}

#[test]
fn invalid_input_for_a_path_that_is_not_utf8() {
    let mut fs = sample();
    let bad: &[u8] = &[b'/', 0xff, 0xfe];
    assert_eq!(fs.open(bad), Err(FsError::InvalidInput));
    assert_eq!(fs.open_at(bad, b"/root"), Err(FsError::InvalidInput));
    assert_eq!(fs.open_at(b"app.rb", bad), Err(FsError::InvalidInput));
    assert_eq!(fs.stat(bad), Err(FsError::InvalidInput));
    assert_eq!(fs.chdir(bad), Err(FsError::InvalidInput));
    assert_eq!(fs.file_read(bad), Err(FsError::InvalidInput));
    assert!(matches!(fs.opendir(bad), Err(FsError::InvalidInput)));
    assert_eq!(fs.open(&[0xc3]), Err(FsError::InvalidInput));
    assert_eq!(fs.open("/root/\u{e9}".as_bytes()), Err(FsError::NotFound));
}

#[test]
fn resource_exhausted_when_every_descriptor_is_in_use() {
    let entries = vec![pair("/a", "1")];
    let mut fs = Fs::with_capacity(&entries, b"/", 2).unwrap();
    let a = fs.open(b"/a").unwrap();
    let b = fs.open(b"/a").unwrap();
    assert_eq!(fs.open(b"/a"), Err(FsError::ResourceExhausted));
    assert_eq!(fs.open(b"/missing"), Err(FsError::NotFound));
    assert_eq!(fs.close(a), Ok(()));
    assert_eq!(fs.open(b"/a"), Ok(a));
    assert_eq!(fs.open(b"/a"), Err(FsError::ResourceExhausted));
    assert_eq!(fs.read(b, 1), Ok(vec![b'1']));
    let mut none = Fs::with_capacity(&entries, b"/", 0).unwrap();
    assert_eq!(none.open(b"/a"), Err(FsError::ResourceExhausted));
}

#[test]
fn poisoned_store_fails_every_call() {
    let mut fs = sample();
    let fd = fs.open(b"/root/app.rb").unwrap();
    let mut dir = fs.opendir(b"/root").unwrap();
    assert!(!fs.is_poisoned());
    fs.poison();
    assert!(fs.is_poisoned());
    assert_eq!(fs.open(b"/root/app.rb"), Err(FsError::PoisonedState));
    assert_eq!(fs.open_at(b"app.rb", b"/root"), Err(FsError::PoisonedState));
    assert_eq!(fs.read(fd, 1), Err(FsError::PoisonedState));
    assert_eq!(fs.fstat(fd), Err(FsError::PoisonedState));
    assert_eq!(fs.stat(b"/root"), Err(FsError::PoisonedState));
    assert_eq!(fs.close(fd), Err(FsError::PoisonedState));
    assert_eq!(fs.chdir(b"/root/lib"), Err(FsError::PoisonedState));
    assert_eq!(fs.getcwd(), Err(FsError::PoisonedState));
    assert_eq!(fs.file_read(b"/root/app.rb"), Err(FsError::PoisonedState));
    assert!(matches!(fs.opendir(b"/root"), Err(FsError::PoisonedState)));
    assert!(matches!(fs.fdopendir(fd), Err(FsError::PoisonedState)));
    assert!(matches!(fs.readdir(&mut dir), Err(FsError::PoisonedState)));
    assert_eq!(dir.remaining(), 2);
    assert_eq!(fs.closedir(dir), Err(FsError::PoisonedState));
    let mut buf = vec![7u8; 8];
    assert_eq!(fs.getcwd_into(&mut buf, 8), Err(FsError::PoisonedState));
    assert_eq!(fs.read_into(fd, &mut buf, 8), Err(FsError::PoisonedState));
    assert_eq!(buf, vec![7u8; 8]);
}

#[test]
fn chdir_to_what_is_no_directory_changes_nothing() {
    let mut fs = sample();
    assert_eq!(fs.chdir(b"/root/app.rb"), Err(FsError::NotFound));
    assert_eq!(fs.chdir(b"/nowhere"), Err(FsError::NotFound));
    assert_eq!(fs.chdir(b"/root/lib/foo.rb"), Err(FsError::NotFound));
    assert_eq!(fs.getcwd(), Ok(b"/root".to_vec()));
    assert!(fs.open(b"app.rb").is_ok());
}

#[test]
fn chdir_moves_relative_resolution() {
    let mut fs = sample();
    assert_eq!(fs.open(b"foo.rb"), Err(FsError::NotFound));
    assert_eq!(fs.chdir(b"/root/lib"), Ok(()));
    assert_eq!(fs.getcwd(), Ok(b"/root/lib".to_vec()));
    let fd = fs.open(b"foo.rb").unwrap();
    assert_eq!(fs.read(fd, 100).unwrap(), b"class Foo; end".to_vec());
    assert_eq!(fs.open(b"app.rb"), Err(FsError::NotFound));
    assert!(fs.open(b"/root/app.rb").is_ok());
}

#[test]
fn chdir_with_a_relative_path_joins_it_to_the_working_directory() {
    let mut fs = sample();
    assert_eq!(fs.chdir(b"lib"), Ok(()));
    assert_eq!(fs.getcwd(), Ok(b"/root/lib".to_vec()));
    assert!(fs.open(b"foo.rb").is_ok());
    assert_eq!(fs.chdir(b"/"), Ok(()));
    assert_eq!(fs.getcwd(), Ok(b"/".to_vec()));
    assert!(fs.open(b"root/app.rb").is_ok());
    assert_eq!(fs.chdir(b"root"), Ok(()));
    assert_eq!(fs.getcwd(), Ok(b"//root".to_vec()));
    assert!(fs.open(b"app.rb").is_ok());
}

#[test]
fn getcwd_into_a_buffer_that_fits_exactly() {
    let fs = sample();
    let mut buf = vec![0u8; 5];
    assert_eq!(fs.getcwd_into(&mut buf, 5), Ok(5));
    assert_eq!(buf, b"/root".to_vec());
}

#[test]
fn getcwd_into_a_buffer_one_byte_too_small_writes_nothing() {
    let fs = sample();
    let mut buf = vec![9u8; 4];
    assert_eq!(fs.getcwd_into(&mut buf, 4), Err(FsError::InvalidInput));
    assert_eq!(buf, vec![9u8; 4]);
    let mut long = vec![9u8; 10];
    assert_eq!(fs.getcwd_into(&mut long, 4), Err(FsError::InvalidInput));
    assert_eq!(long, vec![9u8; 10]);
    let mut none: Vec<u8> = Vec::new();
    assert_eq!(fs.getcwd_into(&mut none, 100), Err(FsError::InvalidInput));
}

#[test]
fn getcwd_into_a_longer_buffer_leaves_the_rest() {
    let fs = sample();
    let mut buf = vec![9u8; 8];
    assert_eq!(fs.getcwd_into(&mut buf, 100), Ok(5));
    assert_eq!(buf, b"/root\x09\x09\x09".to_vec());
    let mut other = vec![1u8; 8];
    assert_eq!(fs.getcwd_into(&mut other, 5), Ok(5));
    assert_eq!(other, b"/root\x01\x01\x01".to_vec());
}

#[test]
fn read_into_fills_the_start_of_the_buffer() {
    let mut fs = sample();
    let fd = fs.open(b"/root/app.rb").unwrap();
    let mut buf = vec![b'.'; 8];
    assert_eq!(fs.read_into(fd, &mut buf, 4), Ok(4));
    assert_eq!(buf, b"puts....".to_vec());
    assert_eq!(fs.read_into(fd, &mut buf, 100), Ok(2));
    assert_eq!(buf, b" 1ts....".to_vec());
    assert_eq!(fs.read_into(fd, &mut buf, 100), Ok(0));
    assert_eq!(buf, b" 1ts....".to_vec());
    assert_eq!(fs.read_into(fd + 1, &mut buf, 100), Err(FsError::NotFound));
    let again = fs.open(b"/root/lib/foo.rb").unwrap();
    let mut small = vec![0u8; 3];
    assert_eq!(fs.read_into(again, &mut small, 100), Ok(3));
    assert_eq!(small, b"cla".to_vec());
}

#[test]
fn open_at_resolves_against_the_base() {
    let mut fs = sample();
    let fd = fs.open_at(b"foo.rb", b"/root/lib").unwrap();
    assert_eq!(fs.read(fd, 100).unwrap(), b"class Foo; end".to_vec());
    assert_eq!(fs.open_at(b"foo.rb", b"/root"), Err(FsError::NotFound));
    assert!(fs.open_at(b"/root/app.rb", b"/nowhere").is_ok());
    assert!(fs.open_at(b"root/app.rb", b"/").is_ok());
    assert_eq!(fs.open_at(b"app.rb", b""), Err(FsError::NotFound));
    assert_eq!(fs.getcwd(), Ok(b"/root".to_vec()));
}

#[test]
fn file_read_appends_a_zero_byte() {
    let fs = sample();
    assert_eq!(fs.file_read(b"/root/app.rb"), Ok(b"puts 1\0".to_vec()));
    assert_eq!(fs.file_read(b"app.rb"), Ok(b"puts 1\0".to_vec()));
    assert_eq!(fs.file_read(b"/root/none"), Err(FsError::NotFound));
}

#[test]
fn opens_in_a_row_give_distinct_descriptors() {
    let mut entries = Vec::new();
    for i in 0..40 {
        entries.push(pair(&format!("/data/file{}.txt", i), &format!("content {}", i)));
    }
    let mut fs = Fs::new(&entries, b"/data").unwrap();
    let mut seen = Vec::new();
    for i in 0..40 {
        let fd = fs.open(format!("/data/file{}.txt", i).as_bytes()).unwrap();
        assert!(!seen.contains(&fd));
        assert!(fd >= FD_BASE);
        seen.push(fd);
    }
    for (i, fd) in seen.iter().enumerate() {
        assert_eq!(fs.read(*fd, 100).unwrap(), format!("content {}", i).into_bytes());
    }
}

#[test]
fn construction_rejects_duplicates_empty_keys_and_bad_text() {
    assert!(matches!(
        Fs::new(&vec![pair("/a", "1"), pair("/a", "2")], b"/"),
        Err(FsError::InvalidInput)
    ));
    assert!(matches!(
        Fs::new(&vec![pair("/a/b", "1"), pair("//a/./b/", "2")], b"/"),
        Err(FsError::InvalidInput)
    ));
    assert!(matches!(Fs::new(&vec![pair("", "1")], b"/"), Err(FsError::InvalidInput)));
    assert!(matches!(
        Fs::new(&vec![(vec![b'/', 0xff], vec![1])], b"/"),
        Err(FsError::InvalidInput)
    ));
    assert!(matches!(Fs::new(&vec![pair("/a", "1")], &[0xff]), Err(FsError::InvalidInput)));
    assert!(Fs::new(&vec![pair("/a", "1"), pair("a", "2")], b"/").is_ok());
    assert!(Fs::new(&Vec::new(), b"").is_ok());
}

#[test]
fn contents_need_not_be_text() {
    let entries = vec![(b"/bin".to_vec(), vec![0u8, 255, 0, 128])];
    let mut fs = Fs::new(&entries, b"/").unwrap();
    let fd = fs.open(b"bin").unwrap();
    assert_eq!(fs.read(fd, 9).unwrap(), vec![0u8, 255, 0, 128]);
    assert_eq!(fs.file_read(b"/bin"), Ok(vec![0u8, 255, 0, 128, 0]));
}

#[test]
fn a_file_that_has_files_below_it_is_a_file_and_a_directory() {
    let entries = vec![pair("/a", "top"), pair("/a/b", "below")];
    let mut fs = Fs::new(&entries, b"/").unwrap();
    assert_eq!(fs.stat(b"/a"), Ok(Metadata { size: 3, kind: FileKind::File }));
    let fd = fs.open(b"/a").unwrap();
    assert_eq!(fs.read(fd, 10).unwrap(), b"top".to_vec());
    assert_eq!(names_of(&fs, b"/a"), vec!["b".to_string()]);
    assert_eq!(fs.chdir(b"/a"), Ok(()));
    assert!(fs.fdopendir(fd).is_ok());
}

#[test]
fn relative_stored_paths_are_reached_with_an_empty_working_directory() {
    let entries = vec![pair("lib/x.rb", "x")];
    let mut fs = Fs::new(&entries, b"").unwrap();
    assert!(fs.open(b"lib/x.rb").is_ok());
    assert_eq!(fs.open(b"/lib/x.rb"), Err(FsError::NotFound));
    let mut rooted = Fs::new(&entries, b"/").unwrap();
    assert_eq!(rooted.open(b"lib/x.rb"), Err(FsError::NotFound));
}
