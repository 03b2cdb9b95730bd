use vstd::prelude::*;

verus! {

/// The kind of a filesystem object. Only directories and regular files
/// exist in this store.
#[derive(Clone, Copy, Debug, PartialEq, Eq, Structural)]
pub enum FileType {
    Directory,
    RegularFile,
}

/// The metadata record kept for one live inode. Timestamps are whole
/// nanoseconds since the Unix epoch.
#[derive(Clone, Copy, Debug, PartialEq, Eq, Structural)]
pub struct FileAttr {
    pub ino: u64,
    pub size: u64,
    pub blocks: u64,
    pub atime: u64,
    pub mtime: u64,
    pub ctime: u64,
    pub crtime: u64,
    pub kind: FileType,
    pub perm: u16,
    pub nlink: u32,
    pub uid: u32,
    pub gid: u32,
    pub rdev: u32,
    pub blksize: u32,
    pub flags: u32,
}

/// The attribute record of the root directory, seeded at start-up, with all
/// four timestamps read at time `t`.
pub open spec fn root_attr(t: u64) -> FileAttr {
    FileAttr {
        ino: 1,
        size: 0,
        blocks: 0,
        atime: t,
        mtime: t,
        ctime: t,
        crtime: t,
        kind: FileType::Directory,
        perm: 0,
        nlink: 0,
        uid: 0,
        gid: 0,
        rdev: 0,
        blksize: 0,
        flags: 0,
    }
}

/// The attribute record of a freshly created regular file: empty, broad
/// permission bits, all four timestamps read at time `t`.
pub open spec fn new_file_attr(ino: u64, t: u64, flags: u32) -> FileAttr {
    FileAttr {
        ino: ino,
        size: 0,
        blocks: 0,
        atime: t,
        mtime: t,
        ctime: t,
        crtime: t,
        kind: FileType::RegularFile,
        perm: 0o777,
        nlink: 0,
        uid: 0,
        gid: 0,
        rdev: 0,
        blksize: 0,
        flags: flags,
    }
}

/// The attribute record of a freshly created directory, with all four
/// timestamps read at time `t`.
pub open spec fn new_dir_attr(ino: u64, t: u64) -> FileAttr {
    FileAttr {
        ino: ino,
        size: 0,
        blocks: 0,
        atime: t,
        mtime: t,
        ctime: t,
        crtime: t,
        kind: FileType::Directory,
        perm: 0o777,
        nlink: 0,
        uid: 0,
        gid: 0,
        rdev: 0,
        blksize: 0,
        flags: 0,
    }
}

/// `a` with each field that the caller supplied replaced: owner, group,
/// size and the three settable timestamps; everything else is kept.
pub open spec fn applied_set_attr(
    a: FileAttr,
    uid: Option<u32>,
    gid: Option<u32>,
    size: Option<u64>,
    atime: Option<u64>,
    mtime: Option<u64>,
    crtime: Option<u64>,
) -> FileAttr {
    FileAttr {
        uid: match uid {
            Some(u) => u,
            None => a.uid,
        },
        gid: match gid {
            Some(g) => g,
            None => a.gid,
        },
        size: match size {
            Some(n) => n,
            None => a.size,
        },
        atime: match atime {
            Some(t) => t,
            None => a.atime,
        },
        mtime: match mtime {
            Some(t) => t,
            None => a.mtime,
        },
        crtime: match crtime {
            Some(t) => t,
            None => a.crtime,
        },
        ..a
    }
}

/// `a` with its access time refreshed to `t`, as a successful read leaves it.
pub open spec fn attr_after_read(a: FileAttr, t: u64) -> FileAttr {
    FileAttr { atime: t, ..a }
}

/// `a` after a write that left the content `size` bytes long at time `t`:
/// access and modification times refreshed, size brought up to date.
pub open spec fn attr_after_write(a: FileAttr, t: u64, size: u64) -> FileAttr {
    FileAttr { atime: t, mtime: t, size: size, ..a }
}

} // verus!
