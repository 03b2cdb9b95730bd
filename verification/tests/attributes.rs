use nsfs::attr::FileType;
use nsfs::error::Error;
use nsfs::fs::NsFS;

#[test]
fn test_set_attr_updates_supplied_fields() {
    let mut fs = NsFS::new();
    let ino = fs.create_file(1, "test", 0).unwrap().0.ino;
    let a = fs
        .set_attr(ino, Some(10), Some(20), None, Some(111), Some(222), Some(333))
        .unwrap();
    assert_eq!(a.uid, 10);
    assert_eq!(a.gid, 20);
    assert_eq!(a.atime, 111);
    assert_eq!(a.mtime, 222);
    assert_eq!(a.crtime, 333);
    assert_eq!(a.size, 0);
    let kept = *fs.get_attr(ino).unwrap();
    assert_eq!(kept, a);
}

#[test]
fn test_set_attr_size_truncates_content() {
    let mut fs = NsFS::new();
    let ino = fs.create_file(1, "test", 0).unwrap().0.ino;
    fs.write_file(ino, b"abcdef", 0).unwrap();
    let a = fs.set_attr(ino, None, None, Some(3), None, None, None).unwrap();
    assert_eq!(a.size, 3);
    let data = fs.read_file(ino, 1024, 0).unwrap();
    assert_eq!(data.as_slice(), b"abc");
}

#[test]
fn test_set_attr_size_zero_extends_content() {
    let mut fs = NsFS::new();
    let ino = fs.create_file(1, "test", 0).unwrap().0.ino;
    fs.write_file(ino, b"ab", 0).unwrap();
    let a = fs.set_attr(ino, None, None, Some(5), None, None, None).unwrap();
    assert_eq!(a.size, 5);
    let data = fs.read_file(ino, 1024, 0).unwrap();
    assert_eq!(data.as_slice(), &[b'a', b'b', 0, 0, 0]);
}

#[test]
fn test_set_attr_missing_inode_fails() {
    let mut fs = NsFS::new();
    match fs.set_attr(9, Some(1), None, None, None, None, None) {
        Ok(_) => panic!("setting attributes of a missing inode must fail"),
        Err(e) => assert_eq!(e, Error::AttrsNotFound),
    }
}

#[test]
fn test_created_attribute_records() {
    let mut fs = NsFS::new();
    let (fa, _) = fs.create_file(1, "f", 5).unwrap();
    assert_eq!(fa.kind, FileType::RegularFile);
    assert_eq!(fa.size, 0);
    assert_eq!(fa.perm, 0o777);
    assert_eq!(fa.flags, 5);
    assert_eq!(fa.atime, fa.mtime);
    assert_eq!(fa.ctime, fa.crtime);
    let da = fs.create_directory(1, "d").unwrap();
    assert_eq!(da.kind, FileType::Directory);
    assert_eq!(da.size, 0);
    assert_eq!(da.nlink, 0);
    let root = fs.get_attr(1).unwrap();
    assert_eq!(root.ino, 1);
    assert_eq!(root.kind, FileType::Directory);
}

#[test]
fn test_open_and_release_handles() {
    let mut fs = NsFS::new();
    let (_, fh0) = fs.create_file(1, "a", 0).unwrap();
    assert_eq!(fh0, 0);
    let fh1 = fs.open_file(2);
    assert_eq!(fh1, 1);
    let fh2 = fs.open_file(2);
    assert_eq!(fh2, 2);
    fs.release(fh1);
    // Releasing an unknown handle is a no-op, not an error.
    fs.release(77);
    fs.release(fh1);
    // Handle numbers are never reused.
    let fh3 = fs.open_file(2);
    assert_eq!(fh3, 3);
}

#[test]
fn test_error_messages() {
    assert_eq!(Error::NotFound.message(), "not found");
    assert_eq!(Error::FileNotFound.message(), "file not found");
    assert_eq!(Error::AttrsNotFound.message(), "attributes not found");
    assert_eq!(Error::EOF.message(), "eof");
    assert_eq!(Error::AlreadyExists.message(), "already exists");
    assert_eq!(Error::NotImplemented.message(), "not implemented");
}

#[test]
fn test_nested_directories_resolve_level_by_level() {
    let mut fs = NsFS::new();
    let d1 = fs.create_directory(1, "a").unwrap().ino;
    let d2 = fs.create_directory(d1, "b").unwrap().ino;
    let f = fs.create_file(d2, "c", 0).unwrap().0.ino;
    // Multi-segment resolution is the adapter's job: repeated one-level
    // lookups.
    let n1 = fs.find_node(1, "a").unwrap().index;
    assert_eq!(n1, d1);
    let n2 = fs.find_node(n1, "b").unwrap().index;
    assert_eq!(n2, d2);
    let n3 = fs.find_node(n2, "c").unwrap().index;
    assert_eq!(n3, f);
    // A name is only visible in its own parent.
    assert_eq!(fs.find_node(1, "c").unwrap_err(), Error::NotFound);
    let listing = fs.read_dir(d2).unwrap();
    assert_eq!(listing.len(), 3);
    assert_eq!(listing[0].name, ".");
    assert_eq!(listing[1].name, "..");
    assert_eq!(listing[1].index, d1);
    assert_eq!(listing[2].name, "c");
    assert_eq!(listing[2].index, f);
}
