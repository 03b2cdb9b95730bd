use nsfs::error::Error;
use nsfs::fs::NsFS;

#[test]
fn test_create_file() {
    let mut fs = NsFS::new();
    let parent = 1;
    let name = "test";
    let flags = 0;
    let (attrs, fh) = fs.create_file(parent, name, flags).unwrap();
    assert_eq!(attrs.ino, 2);
    assert_eq!(fh, 0);
}

#[test]
fn test_write_read_file() {
    let mut fs = NsFS::new();
    let parent = 1;
    let name = "test";
    let flags = 0;
    let ino = {
        let (attrs, _) = fs.create_file(parent, name, flags).unwrap();
        attrs.ino
    };

    let data = b"Hello, Rust";
    let written = fs.write_file(ino, data, 0).unwrap();
    assert_eq!(written, 11);

    match fs.read_file(ino, 1024, 0) {
        Ok(data) => assert_eq!(data.as_slice(), b"Hello, Rust"),
        Err(err) => panic!("read_file failed: {}", err.message()),
    }

    match fs.get_attr(ino) {
        Ok(attrs) => assert_eq!(attrs.size, 11),
        Err(err) => panic!("get_attr failed: {}", err.message()),
    }
}

#[test]
fn test_append_to_file() {
    let mut fs = NsFS::new();
    let parent = 1;
    let name = "test";
    let flags = 0;
    let ino = {
        let (attrs, _) = fs.create_file(parent, name, flags).unwrap();
        attrs.ino
    };

    let data = b"Hello, Rust";
    let written = fs.write_file(ino, data, 0).unwrap();
    assert_eq!(written, 11);

    let data = b"Hello, Rust";
    let written = fs.write_file(ino, data, 11).unwrap();
    assert_eq!(written, 11);

    match fs.read_file(ino, 1024, 0) {
        Ok(data) => assert_eq!(data.as_slice(), b"Hello, RustHello, Rust"),
        Err(err) => panic!("read_file failed: {}", err.message()),
    }

    match fs.get_attr(ino) {
        Ok(attrs) => assert_eq!(attrs.size, 22),
        Err(err) => panic!("get_attr failed: {}", err.message()),
    }
}

#[test]
fn test_read_big_file() {
    let mut fs = NsFS::new();
    let parent = 1;
    let name = "test";
    let flags = 0;
    let ino = {
        let (attrs, _) = fs.create_file(parent, name, flags).unwrap();
        attrs.ino
    };

    let mut offset = 0;
    let mut expected = Vec::new();

    for i in 0..100 {
        let data = format!("#{} Hello, Rust", i);
        expected.extend_from_slice(data.as_bytes());

        let written = fs
            .write_file(ino, &expected[offset..offset + data.len()], offset)
            .unwrap();
        assert_eq!(written, data.len());

        offset += data.len();
    }

    match fs.get_attr(ino) {
        Ok(attrs) => assert_eq!(attrs.size, expected.len() as u64),
        Err(err) => panic!("get_attr failed: {}", err.message()),
    }

    let mut data = Vec::new();
    offset = 0;
    while let Ok(chunk) = fs.read_file(ino, 10, offset) {
        data.extend_from_slice(&chunk);
        offset += chunk.len();
    }

    assert_eq!(data.len(), offset);
    assert_eq!(data, expected);
}

#[test]
fn test_sparse_write_reads_zero_gap() {
    let mut fs = NsFS::new();
    let ino = fs.create_file(1, "sparse", 0).unwrap().0.ino;
    let written = fs.write_file(ino, b"abc", 5).unwrap();
    assert_eq!(written, 3);
    assert_eq!(fs.get_attr(ino).unwrap().size, 8);
    let data = fs.read_file(ino, 1024, 0).unwrap();
    assert_eq!(data.as_slice(), &[0, 0, 0, 0, 0, b'a', b'b', b'c']);
}

#[test]
fn test_overwrite_keeps_bytes_outside_range() {
    let mut fs = NsFS::new();
    let ino = fs.create_file(1, "overwrite", 0).unwrap().0.ino;
    fs.write_file(ino, b"abcdef", 0).unwrap();
    let written = fs.write_file(ino, b"XY", 2).unwrap();
    assert_eq!(written, 2);
    assert_eq!(fs.get_attr(ino).unwrap().size, 6);
    let data = fs.read_file(ino, 1024, 0).unwrap();
    assert_eq!(data.as_slice(), b"abXYef");
}

#[test]
fn test_overwrite_extending_past_end() {
    let mut fs = NsFS::new();
    let ino = fs.create_file(1, "extend", 0).unwrap().0.ino;
    fs.write_file(ino, b"abcdef", 0).unwrap();
    let written = fs.write_file(ino, b"WXYZ", 4).unwrap();
    assert_eq!(written, 4);
    assert_eq!(fs.get_attr(ino).unwrap().size, 8);
    let data = fs.read_file(ino, 1024, 0).unwrap();
    assert_eq!(data.as_slice(), b"abcdWXYZ");
}

#[test]
fn test_create_existing_name_fails() {
    let mut fs = NsFS::new();
    let ino = fs.create_file(1, "test", 0).unwrap().0.ino;
    fs.write_file(ino, b"keep", 0).unwrap();
    match fs.create_file(1, "test", 0) {
        Ok(_) => panic!("duplicate create must fail"),
        Err(e) => assert_eq!(e, Error::AlreadyExists),
    }
    // The file that was there first is unaffected.
    let data = fs.read_file(ino, 1024, 0).unwrap();
    assert_eq!(data.as_slice(), b"keep");
    assert_eq!(fs.get_attr(ino).unwrap().size, 4);
}

#[test]
fn test_create_under_missing_parent_fails() {
    let mut fs = NsFS::new();
    match fs.create_file(99, "test", 0) {
        Ok(_) => panic!("create under a missing parent must fail"),
        Err(e) => assert_eq!(e, Error::NotFound),
    }
}

#[test]
fn test_remove_then_find_fails() {
    let mut fs = NsFS::new();
    let ino = fs.create_file(1, "test", 0).unwrap().0.ino;
    fs.write_file(ino, b"bytes", 0).unwrap();
    fs.remove_file(1, "test").unwrap();
    match fs.find_node(1, "test") {
        Ok(_) => panic!("a removed name must not resolve"),
        Err(e) => assert_eq!(e, Error::NotFound),
    }
    match fs.get_attr(ino) {
        Ok(_) => panic!("a removed inode must have no attributes"),
        Err(e) => assert_eq!(e, Error::AttrsNotFound),
    }
    match fs.read_file(ino, 10, 0) {
        Ok(_) => panic!("a removed inode must have no content"),
        Err(e) => assert_eq!(e, Error::FileNotFound),
    }
}

#[test]
fn test_freed_inode_is_never_reassigned() {
    let mut fs = NsFS::new();
    let freed = fs.create_file(1, "gone", 0).unwrap().0.ino;
    assert_eq!(freed, 2);
    fs.remove_file(1, "gone").unwrap();
    let a = fs.create_file(1, "next", 0).unwrap().0.ino;
    assert_eq!(a, 3);
    let b = fs.create_directory(1, "dir").unwrap().ino;
    assert_eq!(b, 4);
    assert_ne!(a, freed);
    assert_ne!(b, freed);
}

#[test]
fn test_remove_missing_name_fails() {
    let mut fs = NsFS::new();
    match fs.remove_file(1, "absent") {
        Ok(_) => panic!("removing a missing name must fail"),
        Err(e) => assert_eq!(e, Error::NotFound),
    }
    match fs.remove_file(99, "absent") {
        Ok(_) => panic!("removing under a missing parent must fail"),
        Err(e) => assert_eq!(e, Error::NotFound),
    }
}

#[test]
fn test_remove_directory_is_not_implemented() {
    let mut fs = NsFS::new();
    fs.create_directory(1, "sub").unwrap();
    match fs.remove_file(1, "sub") {
        Ok(_) => panic!("unlinking a directory must fail"),
        Err(e) => assert_eq!(e, Error::NotImplemented),
    }
    assert_eq!(fs.remove_directory(1, "sub"), Err(Error::NotImplemented));
    assert_eq!(fs.rename(1, "sub", 1, "sub2"), Err(Error::NotImplemented));
    assert_eq!(fs.make_link(2, 1, "link"), Err(Error::NotImplemented));
    assert_eq!(fs.make_symlink(1, "sym", "sub"), Err(Error::NotImplemented));
}

#[test]
fn test_fresh_directory_lists_dot_and_dotdot() {
    let mut fs = NsFS::new();
    let dir = fs.create_directory(1, "sub").unwrap().ino;
    let entries = fs.read_dir(dir).unwrap();
    assert_eq!(entries.len(), 2);
    assert_eq!(entries[0].name, ".");
    assert_eq!(entries[0].index, dir);
    assert_eq!(entries[1].name, "..");
    assert_eq!(entries[1].index, 1);
}

#[test]
fn test_root_listing_has_no_parent_entry() {
    let mut fs = NsFS::new();
    let entries = fs.read_dir(1).unwrap();
    assert_eq!(entries.len(), 1);
    assert_eq!(entries[0].name, ".");
    assert_eq!(entries[0].index, 1);
    fs.create_file(1, "a", 0).unwrap();
    fs.create_directory(1, "b").unwrap();
    let entries = fs.read_dir(1).unwrap();
    assert_eq!(entries.len(), 3);
    assert_eq!(entries[1].name, "a");
    assert_eq!(entries[2].name, "b");
}

#[test]
fn test_read_dir_missing_node_fails() {
    let fs = NsFS::new();
    match fs.read_dir(42) {
        Ok(_) => panic!("listing a missing node must fail"),
        Err(e) => assert_eq!(e, Error::NotFound),
    }
}

#[test]
fn test_read_at_end_is_eof() {
    let mut fs = NsFS::new();
    let ino = fs.create_file(1, "test", 0).unwrap().0.ino;
    match fs.read_file(ino, 10, 0) {
        Ok(_) => panic!("reading an empty file must hit the end"),
        Err(e) => assert_eq!(e, Error::EOF),
    }
    fs.write_file(ino, b"ab", 0).unwrap();
    match fs.read_file(ino, 10, 2) {
        Ok(_) => panic!("reading at the end must fail"),
        Err(e) => assert_eq!(e, Error::EOF),
    }
    // A read spanning the end returns the short tail, not an error.
    let data = fs.read_file(ino, 10, 1).unwrap();
    assert_eq!(data.as_slice(), b"b");
}

#[test]
fn test_read_write_missing_inode_fails() {
    let mut fs = NsFS::new();
    match fs.read_file(7, 10, 0) {
        Ok(_) => panic!("reading a missing inode must fail"),
        Err(e) => assert_eq!(e, Error::FileNotFound),
    }
    match fs.write_file(7, b"x", 0) {
        Ok(_) => panic!("writing a missing inode must fail"),
        Err(e) => assert_eq!(e, Error::FileNotFound),
    }
    match fs.get_attr(7) {
        Ok(_) => panic!("a missing inode has no attributes"),
        Err(e) => assert_eq!(e, Error::AttrsNotFound),
    }
}

#[test]
fn test_find_node_resolves_created_child() {
    let mut fs = NsFS::new();
    let ino = fs.create_file(1, "test", 0).unwrap().0.ino;
    let node = fs.find_node(1, "test").unwrap();
    assert_eq!(node.index, ino);
    assert_eq!(node.parent, 1);
    assert_eq!(node.name, "test");
    match fs.find_node(1, "other") {
        Ok(_) => panic!("an absent name must not resolve"),
        Err(e) => assert_eq!(e, Error::NotFound),
    }
}
