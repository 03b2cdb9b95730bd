use vstd::prelude::*;

use crate::attr::{
    applied_set_attr, attr_after_read, attr_after_write, new_dir_attr, new_file_attr, root_attr,
    FileAttr, FileType,
};
use crate::content::{read_range, read_range_copy, resize_content, resized, splice_into, spliced, File};
use crate::error::Error;
use crate::node::{child_added, child_removed, ChildEntry, Node};
use crate::table::Table;
use vstd::pervasive::unreached;

verus! {

/// The inode of the root directory, fixed at start-up.
pub const ROOT_INODE: u64 = 1;

/// The raw bytes held by each content buffer of a file table.
pub open spec fn buffer_bytes(m: Map<u64, File>) -> Map<u64, Seq<u8>> {
    Map::new(|k: u64| m.contains_key(k), |k: u64| m[k].data@)
}

/// Relies on std::time::SystemTime::now: reads the system clock. The
/// reading is converted to whole nanoseconds since the Unix epoch, and a
/// reading before the epoch is reported as 0. Nothing is promised of the
/// value: timestamps are opaque to the store's logic.
#[verifier::external_body]
fn current_time_nanos() -> u64 {
    std::time::SystemTime::now().duration_since(std::time::UNIX_EPOCH).map(
        |d| d.as_nanos() as u64,
    ).unwrap_or(0)
}

/// One entry of a directory listing: the inode the entry points at, its
/// kind, and its name.
pub struct DirEntry {
    pub index: u64,
    pub kind: FileType,
    pub name: String,
}

impl DirEntry {
    /// The entry as a plain triple, for stating what a listing holds.
    pub open spec fn entry(self) -> (u64, FileType, Seq<char>) {
        (self.index, self.kind, self.name@)
    }
}

/// The in-memory file store: the attribute table, the directory tree, the
/// open-handle table and the content buffers, together with the two
/// monotonic allocation counters. The engine exclusively owns all four
/// tables; a failed operation leaves all of them unmodified.
pub struct NsFS {
    attrs: Table<FileAttr>,
    nodes: Table<Node>,
    open_files: Table<u64>,
    files: Table<File>,
    current_inode: u64,
    current_file_descriptor: u64,
}

impl NsFS {
    /// The attribute record of each live inode.
    pub closed spec fn attrs_map(self) -> Map<u64, FileAttr> {
        self.attrs@
    }

    /// The directory-tree node of each live inode.
    pub closed spec fn nodes_map(self) -> Map<u64, Node> {
        self.nodes@
    }

    /// The inode each open handle refers to.
    pub closed spec fn handles(self) -> Map<u64, u64> {
        self.open_files@
    }

    /// The raw bytes of each regular file.
    pub closed spec fn contents(self) -> Map<u64, Seq<u8>> {
        buffer_bytes(self.files@)
    }

    /// The last inode number issued; allocation is `current + 1`.
    pub closed spec fn inode_counter(self) -> u64 {
        self.current_inode
    }

    /// The next handle number to issue.
    pub closed spec fn fd_counter(self) -> u64 {
        self.current_file_descriptor
    }

    /// The four backing tables each have pairwise distinct keys.
    pub closed spec fn tables_wf(self) -> bool {
        &&& self.attrs.wf()
        &&& self.nodes.wf()
        &&& self.open_files.wf()
        &&& self.files.wf()
    }

    /// The directory tree is intact: the root is present with no parent;
    /// every node records its own key, has distinct child names, and was
    /// allocated at or below the counter; regular files have no children;
    /// every non-root node sits under a live parent directory that lists it
    /// by name; and every child entry points at a live node that agrees on
    /// parent and name.
    pub open spec fn tree_wf(self) -> bool {
        &&& self.nodes_map().contains_key(ROOT_INODE)
        &&& self.nodes_map()[ROOT_INODE].parent == 0
        &&& self.nodes_map()[ROOT_INODE].kind == FileType::Directory
        &&& forall|i: u64| #[trigger]
            self.nodes_map().contains_key(i) ==> {
                let n = self.nodes_map()[i];
                &&& n.index == i
                &&& n.wf()
                &&& 1 <= i <= self.inode_counter()
                &&& (n.kind == FileType::RegularFile ==> n.children@.len() == 0)
                &&& (i != ROOT_INODE ==> {
                    &&& n.parent < i
                    &&& self.nodes_map().contains_key(n.parent)
                    &&& self.nodes_map()[n.parent].kind == FileType::Directory
                    &&& self.nodes_map()[n.parent].has_child(n.name@)
                    &&& self.nodes_map()[n.parent].child_ino(n.name@) == i
                })
            }
        &&& forall|i: u64, j: int|
            #![trigger self.nodes_map()[i].children@[j]]
            self.nodes_map().contains_key(i) && 0 <= j < self.nodes_map()[i].children@.len()
                ==> {
                let c = self.nodes_map()[i].children@[j];
                &&& self.nodes_map().contains_key(c.index)
                &&& self.nodes_map()[c.index].parent == i
                &&& self.nodes_map()[c.index].name@ == c.name@
                &&& c.index != ROOT_INODE
            }
    }

    /// Attribute records exist for exactly the live inodes and agree with
    /// them on inode number and kind; content buffers exist for exactly the
    /// regular files, and each file's recorded size equals its buffer
    /// length.
    pub open spec fn records_wf(self) -> bool {
        &&& forall|i: u64| #[trigger]
            self.attrs_map().contains_key(i) == self.nodes_map().contains_key(i)
        &&& forall|i: u64| #[trigger]
            self.attrs_map().contains_key(i) ==> self.attrs_map()[i].ino == i
                && self.attrs_map()[i].kind == self.nodes_map()[i].kind
        &&& forall|i: u64| #[trigger]
            self.contents().contains_key(i) == (self.nodes_map().contains_key(i)
                && self.nodes_map()[i].kind == FileType::RegularFile)
        &&& forall|i: u64| #[trigger]
            self.contents().contains_key(i) ==> self.attrs_map()[i].size
                == self.contents()[i].len()
    }

    /// Every open handle was issued below the handle counter.
    pub open spec fn handles_wf(self) -> bool {
        forall|fd: u64| #[trigger] self.handles().contains_key(fd) ==> fd < self.fd_counter()
    }

    /// The store's invariant: constructors establish it and every operation
    /// preserves it.
    pub open spec fn wf(self) -> bool {
        &&& self.tables_wf()
        &&& self.inode_counter() >= 1
        &&& self.tree_wf()
        &&& self.records_wf()
        &&& self.handles_wf()
    }

    /// Whether `parent` is live and has a child named `name`.
    pub open spec fn lookup_ok(self, parent: u64, name: Seq<char>) -> bool {
        self.nodes_map().contains_key(parent) && self.nodes_map()[parent].has_child(name)
    }

    /// The inode a one-level lookup of `name` under `parent` resolves to
    /// (meaningful when `lookup_ok`).
    pub open spec fn resolved_ino(self, parent: u64, name: Seq<char>) -> u64 {
        self.nodes_map()[parent].child_ino(name)
    }

    /// The first entries of the listing of `ino`: the self entry `.`
    /// pointing at the node itself, then, unless the node is the root, the
    /// parent entry `..`.
    pub open spec fn dir_header(self, ino: u64) -> Seq<(u64, FileType, Seq<char>)> {
        if self.nodes_map()[ino].parent != 0 {
            seq![
                (ino, FileType::Directory, "."@),
                (self.nodes_map()[ino].parent, FileType::Directory, ".."@),
            ]
        } else {
            seq![(ino, FileType::Directory, "."@)]
        }
    }

    /// The full listing of `ino`: the header, then every child in the
    /// collection's insertion order — a stable, deterministic ordering for
    /// a given tree state, so a consumer can resume from any offset.
    pub open spec fn dir_listing(self, ino: u64) -> Seq<(u64, FileType, Seq<char>)> {
        self.dir_header(ino) + Seq::new(
            self.nodes_map()[ino].children@.len(),
            |j: int|
                (
                    self.nodes_map()[ino].children@[j].index,
                    self.nodes_map()[self.nodes_map()[ino].children@[j].index].kind,
                    self.nodes_map()[ino].children@[j].name@,
                ),
        )
    }

    /// A store holding just the root directory: one node, one attribute
    /// record, no content buffers, no open handles.
    pub fn new() -> (r: Self)
        ensures
            r.wf(),
            r.inode_counter() == 1,
            r.fd_counter() == 0,
            r.handles() == Map::<u64, u64>::empty(),
            r.contents() == Map::<u64, Seq<u8>>::empty(),
            forall|i: u64| #[trigger] r.nodes_map().contains_key(i) == (i == ROOT_INODE),
            r.nodes_map()[ROOT_INODE].parent == 0,
            r.nodes_map()[ROOT_INODE].kind == FileType::Directory,
            r.nodes_map()[ROOT_INODE].name@ == "/"@,
            r.nodes_map()[ROOT_INODE].children@ == Seq::<ChildEntry>::empty(),
            forall|i: u64| #[trigger] r.attrs_map().contains_key(i) == (i == ROOT_INODE),
            exists|t: u64| r.attrs_map()[ROOT_INODE] == root_attr(t),
    {
        let now = current_time_nanos();
        let root = Node {
            index: ROOT_INODE,
            parent: 0,
            name: "/".to_owned(),
            kind: FileType::Directory,
            children: Vec::new(),
        };
        let mut attrs: Table<FileAttr> = Table::new();
        attrs.insert(
            ROOT_INODE,
            FileAttr {
                ino: ROOT_INODE,
                size: 0,
                blocks: 0,
                atime: now,
                mtime: now,
                ctime: now,
                crtime: now,
                kind: FileType::Directory,
                perm: 0,
                nlink: 0,
                uid: 0,
                gid: 0,
                rdev: 0,
                blksize: 0,
                flags: 0,
            },
        );
        let mut nodes: Table<Node> = Table::new();
        nodes.insert(ROOT_INODE, root);
        let r = NsFS {
            attrs,
            nodes,
            open_files: Table::new(),
            files: Table::new(),
            current_inode: 1,
            current_file_descriptor: 0,
        };
        proof {
            assert(r.attrs_map()[ROOT_INODE] == root_attr(now));
            assert(r.contents() =~= Map::<u64, Seq<u8>>::empty());
            assert(r.handles() =~= Map::<u64, u64>::empty());
        }
        r
    }

    /// The last inode number issued so far; the next allocation returns one
    /// more.
    pub fn inodes_issued(&self) -> (r: u64)
        ensures
            r == self.inode_counter(),
    {
        self.current_inode
    }

    /// The next handle number that will be issued.
    pub fn handles_issued(&self) -> (r: u64)
        ensures
            r == self.fd_counter(),
    {
        self.current_file_descriptor
    }

    /// Issues the next inode number: one more than the counter, which never
    /// decreases, so an id is never issued twice.
    pub fn next_inode(&mut self) -> (r: u64)
        requires
            old(self).wf(),
            old(self).inode_counter() < u64::MAX,
        ensures
            final(self).wf(),
            r == old(self).inode_counter() + 1,
            final(self).inode_counter() == r,
            final(self).fd_counter() == old(self).fd_counter(),
            final(self).nodes_map() == old(self).nodes_map(),
            final(self).attrs_map() == old(self).attrs_map(),
            final(self).contents() == old(self).contents(),
            final(self).handles() == old(self).handles(),
    {
        self.current_inode = self.current_inode + 1;
        proof {
            assert(self.contents() == old(self).contents());
            assert(self.handles() == old(self).handles());
        }
        self.current_inode
    }

    /// Opens a handle on `ino` and returns it. The caller has already
    /// resolved `ino` to an existing object; no existence check is made at
    /// this layer.
    pub fn open_file(&mut self, ino: u64) -> (r: u64)
        requires
            old(self).wf(),
            old(self).fd_counter() < u64::MAX,
        ensures
            final(self).wf(),
            r == old(self).fd_counter(),
            final(self).handles() == old(self).handles().insert(r, ino),
            final(self).fd_counter() == old(self).fd_counter() + 1,
            final(self).inode_counter() == old(self).inode_counter(),
            final(self).nodes_map() == old(self).nodes_map(),
            final(self).attrs_map() == old(self).attrs_map(),
            final(self).contents() == old(self).contents(),
    {
        let fd = self.current_file_descriptor;
        self.current_file_descriptor = self.current_file_descriptor + 1;
        self.open_files.insert(fd, ino);
        proof {
            assert(self.contents() == old(self).contents());
            assert(self.handles() == old(self).handles().insert(fd, ino));
            assert forall|fd2: u64| #[trigger]
                self.handles().contains_key(fd2) implies fd2 < self.fd_counter() by {
                if fd2 != fd {
                    assert(old(self).handles().contains_key(fd2));
                }
            }
        }
        fd
    }

    /// Closes `fh`, removing it from the handle table. Unknown handles are
    /// a no-op, not an error.
    pub fn release(&mut self, fh: u64)
        requires
            old(self).wf(),
        ensures
            final(self).wf(),
            final(self).handles() == old(self).handles().remove(fh),
            final(self).fd_counter() == old(self).fd_counter(),
            final(self).inode_counter() == old(self).inode_counter(),
            final(self).nodes_map() == old(self).nodes_map(),
            final(self).attrs_map() == old(self).attrs_map(),
            final(self).contents() == old(self).contents(),
    {
        let removed = self.open_files.remove(fh);
        proof {
            if removed is None {
                assert(self.open_files@ =~= old(self).open_files@.remove(fh));
            }
            assert(self.contents() == old(self).contents());
            assert(self.handles() == old(self).handles().remove(fh));
            assert forall|fd2: u64| #[trigger]
                self.handles().contains_key(fd2) implies fd2 < self.fd_counter() by {
                assert(old(self).handles().contains_key(fd2));
            }
        }
    }

    /// Name resolution: looks up the parent node, then its child by exact
    /// name match; one level only. Fails with `NotFound` if either the
    /// parent or the named child does not exist, and succeeds otherwise.
    pub fn find_node(&self, parent: u64, name: &str) -> (r: Result<&Node, Error>)
        requires
            self.wf(),
        ensures
            match r {
                Ok(node) => self.lookup_ok(parent, name@) && *node == self.nodes_map()[
                    self.resolved_ino(parent, name@)] && node.index == self.resolved_ino(
                    parent,
                    name@,
                ) && node.parent == parent && node.name@ == name@,
                Err(e) => e == Error::NotFound && !self.lookup_ok(parent, name@),
            },
    {
        let parent_node = match self.nodes.get(parent) {
            Some(n) => n,
            None => {
                return Err(Error::NotFound);
            },
        };
        match parent_node.find_child(name) {
            Some(i) => {
                let ino = parent_node.children[i].index;
                match self.nodes.get(ino) {
                    Some(n) => Ok(n),
                    None => unreached(),
                }
            },
            None => Err(Error::NotFound),
        }
    }

    /// The attribute record of `ino`, or `AttrsNotFound` if the inode has
    /// none.
    pub fn get_attr(&self, ino: u64) -> (r: Result<&FileAttr, Error>)
        requires
            self.wf(),
        ensures
            match r {
                Ok(a) => self.attrs_map().contains_key(ino) && *a == self.attrs_map()[ino],
                Err(e) => e == Error::AttrsNotFound && !self.attrs_map().contains_key(ino),
            },
    {
        match self.attrs.get(ino) {
            Some(a) => Ok(a),
            None => Err(Error::AttrsNotFound),
        }
    }

    /// Reads up to `size` bytes at `offset` from the file `ino`, clipped to
    /// the end of the buffer and never zero-padded: a read spanning the end
    /// returns fewer bytes than requested rather than an error. Fails with
    /// `FileNotFound` if the inode has no content buffer and with `EOF` if
    /// `offset` is at or past the end. A successful read refreshes the
    /// access time and changes nothing else; a failed read leaves the store
    /// unmodified.
    pub fn read_file(&mut self, ino: u64, size: usize, offset: usize) -> (r: Result<
        Vec<u8>,
        Error,
    >)
        requires
            old(self).wf(),
        ensures
            final(self).wf(),
            final(self).nodes_map() == old(self).nodes_map(),
            final(self).contents() == old(self).contents(),
            final(self).handles() == old(self).handles(),
            final(self).inode_counter() == old(self).inode_counter(),
            final(self).fd_counter() == old(self).fd_counter(),
            r is Ok <==> (old(self).contents().contains_key(ino) && offset < old(
                self,
            ).contents()[ino].len()),
            match r {
                Ok(d) => {
                    &&& d@ == read_range(old(self).contents()[ino], offset as int, size as int)
                    &&& exists|t: u64|
                        final(self).attrs_map() == old(self).attrs_map().insert(
                            ino,
                            attr_after_read(old(self).attrs_map()[ino], t),
                        )
                },
                Err(e) => {
                    &&& *final(self) == *old(self)
                    &&& (e == Error::FileNotFound <==> !old(self).contents().contains_key(ino))
                    &&& (e == Error::EOF <==> (old(self).contents().contains_key(ino) && offset
                        >= old(self).contents()[ino].len()))
                },
            },
    {
        proof {
            assert(self.contents().contains_key(ino) == self.files@.contains_key(ino));
        }
        if !self.files.contains(ino) {
            return Err(Error::FileNotFound);
        }
        if !self.attrs.contains(ino) {
            // A live content buffer always has an attribute record, so this
            // branch is provably unreachable.
            proof {
                assert(false);
            }
            return Err(Error::AttrsNotFound);
        }
        let flen: usize = match self.files.get(ino) {
            Some(f) => f.data.len(),
            None => unreached(),
        };
        proof {
            assert(self.contents()[ino] == self.files@[ino].data@);
        }
        if offset >= flen {
            return Err(Error::EOF);
        }
        let now = current_time_nanos();
        let mut a: FileAttr = match self.attrs.get(ino) {
            Some(a) => *a,
            None => unreached(),
        };
        a.atime = now;
        self.attrs.insert(ino, a);
        let out = match self.files.get(ino) {
            Some(f) => read_range_copy(&f.data, offset, size),
            None => unreached(),
        };
        proof {
            assert(a == attr_after_read(old(self).attrs_map()[ino], now));
            assert(self.contents() == old(self).contents());
            assert(self.handles() == old(self).handles());
            lemma_tree_wf_same_nodes(*old(self), *self);
            lemma_handles_wf_same(*old(self), *self);
            assert(self.records_wf()) by {
                assert forall|i: u64| #[trigger]
                    self.attrs_map().contains_key(i) == self.nodes_map().contains_key(i) by {
                    assert(old(self).attrs_map().contains_key(i) == old(
                        self,
                    ).nodes_map().contains_key(i));
                }
                assert forall|i: u64| #[trigger]
                    self.attrs_map().contains_key(i) implies self.attrs_map()[i].ino == i
                    && self.attrs_map()[i].kind == self.nodes_map()[i].kind by {
                    assert(old(self).attrs_map().contains_key(i));
                }
                assert forall|i: u64| #[trigger]
                    self.contents().contains_key(i) == (self.nodes_map().contains_key(i)
                        && self.nodes_map()[i].kind == FileType::RegularFile) by {
                    assert(old(self).contents().contains_key(i) == (old(
                        self,
                    ).nodes_map().contains_key(i) && old(self).nodes_map()[i].kind
                        == FileType::RegularFile));
                }
                assert forall|i: u64| #[trigger]
                    self.contents().contains_key(i) implies self.attrs_map()[i].size
                    == self.contents()[i].len() by {
                    assert(old(self).contents().contains_key(i));
                    assert(old(self).attrs_map()[i].size == old(self).contents()[i].len());
                }
            }
        }
        Ok(out)
    }

    /// Writes `data` at `offset` into the file `ino`. If `offset` lies past
    /// the buffer end, the buffer is first extended with zero bytes up to
    /// `offset`, so holes read back as zero; the data is then spliced in,
    /// overwriting in place where it fits within the current length and
    /// extending the buffer where it runs past it. Returns exactly
    /// `data.len()`: partial writes are not modeled, a write either fully
    /// applies or fails. A successful write refreshes the size and the
    /// access and modification times; a failed write leaves the store
    /// unmodified.
    pub fn write_file(&mut self, ino: u64, data: &[u8], offset: usize) -> (r: Result<usize, Error>)
        requires
            old(self).wf(),
            offset + data@.len() <= usize::MAX,
        ensures
            final(self).wf(),
            final(self).nodes_map() == old(self).nodes_map(),
            final(self).handles() == old(self).handles(),
            final(self).inode_counter() == old(self).inode_counter(),
            final(self).fd_counter() == old(self).fd_counter(),
            r is Ok <==> old(self).contents().contains_key(ino),
            match r {
                Ok(n) => {
                    &&& n == data@.len()
                    &&& final(self).contents() == old(self).contents().insert(
                        ino,
                        spliced(old(self).contents()[ino], offset as int, data@),
                    )
                    &&& exists|t: u64|
                        final(self).attrs_map() == old(self).attrs_map().insert(
                            ino,
                            #[trigger] attr_after_write(
                                old(self).attrs_map()[ino],
                                t,
                                spliced(
                                    old(self).contents()[ino],
                                    offset as int,
                                    data@,
                                ).len() as u64,
                            ),
                        )
                },
                Err(e) => e == Error::FileNotFound && *final(self) == *old(self),
            },
    {
        proof {
            assert(self.contents().contains_key(ino) == self.files@.contains_key(ino));
        }
        let mut file = match self.files.remove(ino) {
            None => {
                return Err(Error::FileNotFound);
            },
            Some(f) => f,
        };
        if !self.attrs.contains(ino) {
            // A live content buffer always has an attribute record, so this
            // branch is provably unreachable.
            proof {
                assert(false);
            }
            self.files.insert(ino, file);
            return Err(Error::AttrsNotFound);
        }
        proof {
            assert(old(self).contents()[ino] == file.data@);
        }
        let ghost old_bytes = file.data@;
        splice_into(&mut file.data, offset, data);
        let now = current_time_nanos();
        let mut a: FileAttr = match self.attrs.get(ino) {
            Some(a) => *a,
            None => unreached(),
        };
        a.atime = now;
        a.mtime = now;
        a.size = file.data.len() as u64;
        proof {
            assert(a == attr_after_write(
                old(self).attrs_map()[ino],
                now,
                spliced(old_bytes, offset as int, data@).len() as u64,
            ));
        }
        self.attrs.insert(ino, a);
        let n = data.len();
        let ghost new_bytes = file.data@;
        self.files.insert(ino, file);
        proof {
            assert(self.contents() =~= old(self).contents().insert(
                ino,
                spliced(old_bytes, offset as int, data@),
            ));
            assert(self.handles() == old(self).handles());
            lemma_tree_wf_same_nodes(*old(self), *self);
            lemma_handles_wf_same(*old(self), *self);
            assert(self.records_wf()) by {
                assert forall|i: u64| #[trigger]
                    self.attrs_map().contains_key(i) == self.nodes_map().contains_key(i) by {
                    assert(old(self).attrs_map().contains_key(i) == old(
                        self,
                    ).nodes_map().contains_key(i));
                }
                assert forall|i: u64| #[trigger]
                    self.attrs_map().contains_key(i) implies self.attrs_map()[i].ino == i
                    && self.attrs_map()[i].kind == self.nodes_map()[i].kind by {
                    assert(old(self).attrs_map().contains_key(i));
                }
                assert forall|i: u64| #[trigger]
                    self.contents().contains_key(i) == (self.nodes_map().contains_key(i)
                        && self.nodes_map()[i].kind == FileType::RegularFile) by {
                    assert(old(self).contents().contains_key(i) == (old(
                        self,
                    ).nodes_map().contains_key(i) && old(self).nodes_map()[i].kind
                        == FileType::RegularFile));
                }
                assert forall|i: u64| #[trigger]
                    self.contents().contains_key(i) implies self.attrs_map()[i].size
                    == self.contents()[i].len() by {
                    if i == ino {
                        assert(self.contents()[ino] == new_bytes);
                    } else {
                        assert(old(self).contents().contains_key(i));
                        assert(old(self).attrs_map()[i].size == old(self).contents()[i].len());
                    }
                }
            }
        }
        Ok(n)
    }

    /// Creates a regular file named `name` under `parent` and opens a
    /// handle on it. Fails with `NotFound` if `parent` is not a live
    /// directory and with `AlreadyExists` if `name` is already a child of
    /// `parent`; all preconditions are checked before anything is mutated,
    /// so a failed create leaves the store unmodified and consumes no
    /// inode. On success the new inode is one past the old counter: ids of
    /// removed files are never reassigned.
    pub fn create_file(&mut self, parent: u64, name: &str, flags: u32) -> (r: Result<
        (FileAttr, u64),
        Error,
    >)
        requires
            old(self).wf(),
            old(self).inode_counter() < u64::MAX,
            old(self).fd_counter() < u64::MAX,
        ensures
            final(self).wf(),
            r is Ok <==> (old(self).nodes_map().contains_key(parent) && old(self).nodes_map()[
                parent].kind == FileType::Directory && !old(self).nodes_map()[parent].has_child(
                name@,
            )),
            match r {
                Ok((attr, fh)) => {
                    let ino = attr.ino;
                    &&& ino == old(self).inode_counter() + 1
                    &&& fh == old(self).fd_counter()
                    &&& exists|t: u64| attr == #[trigger] new_file_attr(ino, t, flags)
                    &&& final(self).attrs_map() == old(self).attrs_map().insert(ino, attr)
                    &&& final(self).contents() == old(self).contents().insert(
                        ino,
                        Seq::<u8>::empty(),
                    )
                    &&& final(self).handles() == old(self).handles().insert(fh, ino)
                    &&& final(self).inode_counter() == ino
                    &&& final(self).fd_counter() == old(self).fd_counter() + 1
                    &&& final(self).nodes_map().contains_key(ino)
                    &&& final(self).nodes_map()[ino].index == ino
                    &&& final(self).nodes_map()[ino].parent == parent
                    &&& final(self).nodes_map()[ino].name@ == name@
                    &&& final(self).nodes_map()[ino].kind == FileType::RegularFile
                    &&& final(self).nodes_map()[ino].children@.len() == 0
                    &&& child_added(
                        old(self).nodes_map()[parent],
                        final(self).nodes_map()[parent],
                        name@,
                        ino,
                    )
                    &&& forall|k: u64| #[trigger]
                        final(self).nodes_map().contains_key(k) == (old(
                            self,
                        ).nodes_map().contains_key(k) || k == ino)
                    &&& forall|k: u64|
                        k != parent && k != ino && old(self).nodes_map().contains_key(k)
                            ==> final(self).nodes_map()[k] == old(self).nodes_map()[k]
                    &&& final(self).lookup_ok(parent, name@)
                    &&& final(self).resolved_ino(parent, name@) == ino
                },
                Err(e) => {
                    &&& *final(self) == *old(self)
                    &&& (e == Error::NotFound <==> (!old(self).nodes_map().contains_key(parent)
                        || old(self).nodes_map()[parent].kind != FileType::Directory))
                    &&& (e == Error::AlreadyExists <==> (old(self).nodes_map().contains_key(
                        parent,
                    ) && old(self).nodes_map()[parent].kind == FileType::Directory && old(
                        self,
                    ).nodes_map()[parent].has_child(name@)))
                },
            },
    {
        match self.nodes.get(parent) {
            None => {
                return Err(Error::NotFound);
            },
            Some(p) => {
                if p.kind != FileType::Directory {
                    return Err(Error::NotFound);
                }
                if p.find_child(name).is_some() {
                    return Err(Error::AlreadyExists);
                }
            },
        }
        let ino = self.next_inode();
        let ts = current_time_nanos();
        let attr = FileAttr {
            ino,
            size: 0,
            blocks: 0,
            atime: ts,
            mtime: ts,
            ctime: ts,
            crtime: ts,
            kind: FileType::RegularFile,
            perm: 0o777,
            nlink: 0,
            uid: 0,
            gid: 0,
            rdev: 0,
            blksize: 0,
            flags,
        };
        proof {
            assert(attr == new_file_attr(ino, ts, flags));
        }
        self.attrs.insert(ino, attr);
        self.files.insert(ino, File::new());
        let mut parent_node = match self.nodes.remove(parent) {
            Some(n) => n,
            None => unreached(),
        };
        parent_node.children.push(ChildEntry { name: name.to_owned(), index: ino });
        self.nodes.insert(parent, parent_node);
        self.nodes.insert(ino, Node::new_file(ino, parent, name));
        proof {
            assert(self.contents() =~= old(self).contents().insert(ino, Seq::<u8>::empty()));
            assert(self.handles() == old(self).handles());
            assert(child_added(
                old(self).nodes_map()[parent],
                self.nodes_map()[parent],
                name@,
                ino,
            )) by {
                assert(self.nodes_map()[parent].children@.drop_last() =~= old(self).nodes_map()[
                    parent].children@);
            }
            lemma_wf_after_create(
                *old(self),
                *self,
                parent,
                name@,
                ino,
                FileType::RegularFile,
                attr,
            );
        }
        let fh = self.open_file(ino);
        Ok((attr, fh))
    }

    /// Creates a directory named `name` under `parent`, with the same
    /// existence and collision checks as file creation; no handle is
    /// allocated and no content buffer exists for directories. A failed
    /// create leaves the store unmodified and consumes no inode.
    pub fn create_directory(&mut self, parent: u64, name: &str) -> (r: Result<FileAttr, Error>)
        requires
            old(self).wf(),
            old(self).inode_counter() < u64::MAX,
        ensures
            final(self).wf(),
            r is Ok <==> (old(self).nodes_map().contains_key(parent) && old(self).nodes_map()[
                parent].kind == FileType::Directory && !old(self).nodes_map()[parent].has_child(
                name@,
            )),
            match r {
                Ok(attr) => {
                    let ino = attr.ino;
                    &&& ino == old(self).inode_counter() + 1
                    &&& exists|t: u64| attr == #[trigger] new_dir_attr(ino, t)
                    &&& final(self).attrs_map() == old(self).attrs_map().insert(ino, attr)
                    &&& final(self).contents() == old(self).contents()
                    &&& final(self).handles() == old(self).handles()
                    &&& final(self).inode_counter() == ino
                    &&& final(self).fd_counter() == old(self).fd_counter()
                    &&& final(self).nodes_map().contains_key(ino)
                    &&& final(self).nodes_map()[ino].index == ino
                    &&& final(self).nodes_map()[ino].parent == parent
                    &&& final(self).nodes_map()[ino].name@ == name@
                    &&& final(self).nodes_map()[ino].kind == FileType::Directory
                    &&& final(self).nodes_map()[ino].children@.len() == 0
                    &&& child_added(
                        old(self).nodes_map()[parent],
                        final(self).nodes_map()[parent],
                        name@,
                        ino,
                    )
                    &&& forall|k: u64| #[trigger]
                        final(self).nodes_map().contains_key(k) == (old(
                            self,
                        ).nodes_map().contains_key(k) || k == ino)
                    &&& forall|k: u64|
                        k != parent && k != ino && old(self).nodes_map().contains_key(k)
                            ==> final(self).nodes_map()[k] == old(self).nodes_map()[k]
                    &&& final(self).lookup_ok(parent, name@)
                    &&& final(self).resolved_ino(parent, name@) == ino
                },
                Err(e) => {
                    &&& *final(self) == *old(self)
                    &&& (e == Error::NotFound <==> (!old(self).nodes_map().contains_key(parent)
                        || old(self).nodes_map()[parent].kind != FileType::Directory))
                    &&& (e == Error::AlreadyExists <==> (old(self).nodes_map().contains_key(
                        parent,
                    ) && old(self).nodes_map()[parent].kind == FileType::Directory && old(
                        self,
                    ).nodes_map()[parent].has_child(name@)))
                },
            },
    {
        match self.nodes.get(parent) {
            None => {
                return Err(Error::NotFound);
            },
            Some(p) => {
                if p.kind != FileType::Directory {
                    return Err(Error::NotFound);
                }
                if p.find_child(name).is_some() {
                    return Err(Error::AlreadyExists);
                }
            },
        }
        let ino = self.next_inode();
        let ts = current_time_nanos();
        let attr = FileAttr {
            ino,
            size: 0,
            blocks: 0,
            atime: ts,
            mtime: ts,
            ctime: ts,
            crtime: ts,
            kind: FileType::Directory,
            perm: 0o777,
            nlink: 0,
            uid: 0,
            gid: 0,
            rdev: 0,
            blksize: 0,
            flags: 0,
        };
        proof {
            assert(attr == new_dir_attr(ino, ts));
        }
        self.attrs.insert(ino, attr);
        let mut parent_node = match self.nodes.remove(parent) {
            Some(n) => n,
            None => unreached(),
        };
        parent_node.children.push(ChildEntry { name: name.to_owned(), index: ino });
        self.nodes.insert(parent, parent_node);
        self.nodes.insert(ino, Node::new_directory(ino, parent, name));
        proof {
            assert(self.contents() == old(self).contents());
            assert(self.handles() == old(self).handles());
            assert(child_added(
                old(self).nodes_map()[parent],
                self.nodes_map()[parent],
                name@,
                ino,
            )) by {
                assert(self.nodes_map()[parent].children@.drop_last() =~= old(self).nodes_map()[
                    parent].children@);
            }
            lemma_wf_after_create(*old(self), *self, parent, name@, ino, FileType::Directory, attr);
        }
        Ok(attr)
    }

    /// Removes the regular file listed as `name` under `parent`: its
    /// directory entry, node, attribute record and content buffer go, and
    /// every open handle pointing at it is removed eagerly, regardless of
    /// how many there are. Fails with `NotFound` if the parent or the name
    /// is missing, and with `NotImplemented` if the name resolves to a
    /// directory (directory removal is unsupported); a failed removal
    /// leaves the store unmodified. The freed inode is never reassigned:
    /// the allocation counter does not move.
    pub fn remove_file(&mut self, parent: u64, name: &str) -> (r: Result<(), Error>)
        requires
            old(self).wf(),
        ensures
            final(self).wf(),
            r is Ok <==> (old(self).lookup_ok(parent, name@) && old(self).nodes_map()[old(
                self,
            ).resolved_ino(parent, name@)].kind == FileType::RegularFile),
            match r {
                Ok(u) => {
                    let victim = old(self).resolved_ino(parent, name@);
                    &&& !final(self).lookup_ok(parent, name@)
                    &&& victim <= old(self).inode_counter()
                    &&& final(self).inode_counter() == old(self).inode_counter()
                    &&& final(self).fd_counter() == old(self).fd_counter()
                    &&& final(self).attrs_map() == old(self).attrs_map().remove(victim)
                    &&& final(self).contents() == old(self).contents().remove(victim)
                    &&& forall|k: u64| #[trigger]
                        final(self).nodes_map().contains_key(k) == (old(
                            self,
                        ).nodes_map().contains_key(k) && k != victim)
                    &&& forall|k: u64|
                        k != parent && #[trigger] final(self).nodes_map().contains_key(k)
                            ==> final(self).nodes_map()[k] == old(self).nodes_map()[k]
                    &&& child_removed(
                        old(self).nodes_map()[parent],
                        final(self).nodes_map()[parent],
                        name@,
                    )
                    &&& forall|fd: u64| #[trigger]
                        final(self).handles().contains_key(fd) == (old(
                            self,
                        ).handles().contains_key(fd) && old(self).handles()[fd] != victim)
                    &&& forall|fd: u64| #[trigger]
                        final(self).handles().contains_key(fd) ==> final(self).handles()[fd] == old(
                            self,
                        ).handles()[fd]
                },
                Err(e) => {
                    &&& *final(self) == *old(self)
                    &&& (e == Error::NotFound <==> !old(self).lookup_ok(parent, name@))
                    &&& (e == Error::NotImplemented <==> (old(self).lookup_ok(parent, name@)
                        && old(self).nodes_map()[old(self).resolved_ino(parent, name@)].kind
                        == FileType::Directory))
                },
            },
    {
        let pair: (u64, usize) = match self.nodes.get(parent) {
            None => {
                return Err(Error::NotFound);
            },
            Some(p) => match p.find_child(name) {
                None => {
                    return Err(Error::NotFound);
                },
                Some(i) => (p.children[i].index, i),
            },
        };
        let victim = pair.0;
        let child_idx = pair.1;
        match self.nodes.get(victim) {
            Some(v) => {
                if v.kind == FileType::Directory {
                    return Err(Error::NotImplemented);
                }
            },
            None => {
                return unreached();
            },
        }
        let mut parent_node = match self.nodes.remove(parent) {
            Some(n) => n,
            None => unreached(),
        };
        let _removed_entry = parent_node.children.remove(child_idx);
        proof {
            assert(child_removed(old(self).nodes_map()[parent], parent_node, name@)) by {
                assert(old(self).nodes_map()[parent].children@[child_idx as int].name@ == name@
                    && parent_node.children@ == old(self).nodes_map()[parent].children@.remove(
                    child_idx as int,
                ));
            }
        }
        self.nodes.insert(parent, parent_node);
        let _removed_node = self.nodes.remove(victim);
        let _removed_attr = self.attrs.remove(victim);
        let _removed_file = self.files.remove(victim);
        self.open_files.remove_value(victim);
        proof {
            assert(victim != parent);
            assert(self.contents() =~= old(self).contents().remove(victim));
            lemma_wf_after_remove(*old(self), *self, parent, name@, victim);
        }
        Ok(())
    }

    /// Sets the supplied attribute fields of `ino`: owner, group, size and
    /// the settable timestamps; absent fields are kept. Setting the size of
    /// a regular file resizes its content buffer to match, truncating or
    /// zero-extending, so that the recorded size always equals the buffer
    /// length. Fails with `AttrsNotFound` if the inode has no attribute
    /// record, leaving the store unmodified.
    pub fn set_attr(
        &mut self,
        ino: u64,
        uid: Option<u32>,
        gid: Option<u32>,
        size: Option<u64>,
        atime: Option<u64>,
        mtime: Option<u64>,
        crtime: Option<u64>,
    ) -> (r: Result<FileAttr, Error>)
        requires
            old(self).wf(),
            size matches Some(n) ==> n <= usize::MAX as u64,
        ensures
            final(self).wf(),
            final(self).nodes_map() == old(self).nodes_map(),
            final(self).handles() == old(self).handles(),
            final(self).inode_counter() == old(self).inode_counter(),
            final(self).fd_counter() == old(self).fd_counter(),
            r is Ok <==> old(self).attrs_map().contains_key(ino),
            match r {
                Ok(a) => {
                    &&& a == applied_set_attr(
                        old(self).attrs_map()[ino],
                        uid,
                        gid,
                        size,
                        atime,
                        mtime,
                        crtime,
                    )
                    &&& final(self).attrs_map() == old(self).attrs_map().insert(ino, a)
                    &&& (size is Some && old(self).contents().contains_key(ino)
                        ==> final(self).contents() == old(self).contents().insert(
                        ino,
                        resized(old(self).contents()[ino], size->Some_0 as int),
                    ))
                    &&& (!(size is Some && old(self).contents().contains_key(ino))
                        ==> final(self).contents() == old(self).contents())
                },
                Err(e) => e == Error::AttrsNotFound && *final(self) == *old(self),
            },
    {
        let mut a: FileAttr = match self.attrs.get(ino) {
            None => {
                return Err(Error::AttrsNotFound);
            },
            Some(a) => *a,
        };
        if let Some(u) = uid {
            a.uid = u;
        }
        if let Some(g) = gid {
            a.gid = g;
        }
        if let Some(n) = size {
            proof {
                assert(self.contents().contains_key(ino) == self.files@.contains_key(ino));
            }
            if self.files.contains(ino) {
                let mut f = match self.files.remove(ino) {
                    Some(f) => f,
                    None => unreached(),
                };
                proof {
                    assert(old(self).contents()[ino] == f.data@);
                }
                resize_content(&mut f.data, n as usize);
                self.files.insert(ino, f);
                proof {
                    assert(self.contents() =~= old(self).contents().insert(
                        ino,
                        resized(old(self).contents()[ino], n as int),
                    ));
                }
            }
            a.size = n;
        }
        if let Some(t) = atime {
            a.atime = t;
        }
        if let Some(t) = mtime {
            a.mtime = t;
        }
        if let Some(t) = crtime {
            a.crtime = t;
        }
        self.attrs.insert(ino, a);
        proof {
            assert(a == applied_set_attr(
                old(self).attrs_map()[ino],
                uid,
                gid,
                size,
                atime,
                mtime,
                crtime,
            ));
            if !(size is Some && old(self).contents().contains_key(ino)) {
                assert(self.contents() == old(self).contents());
            }
            assert(self.handles() == old(self).handles());
            lemma_tree_wf_same_nodes(*old(self), *self);
            lemma_handles_wf_same(*old(self), *self);
            assert(self.records_wf()) by {
                assert forall|i: u64| #[trigger]
                    self.attrs_map().contains_key(i) == self.nodes_map().contains_key(i) by {
                    assert(old(self).attrs_map().contains_key(i) == old(
                        self,
                    ).nodes_map().contains_key(i));
                }
                assert forall|i: u64| #[trigger]
                    self.attrs_map().contains_key(i) implies self.attrs_map()[i].ino == i
                    && self.attrs_map()[i].kind == self.nodes_map()[i].kind by {
                    assert(old(self).attrs_map().contains_key(i));
                }
                assert forall|i: u64| #[trigger]
                    self.contents().contains_key(i) == (self.nodes_map().contains_key(i)
                        && self.nodes_map()[i].kind == FileType::RegularFile) by {
                    assert(old(self).contents().contains_key(i) == (old(
                        self,
                    ).nodes_map().contains_key(i) && old(self).nodes_map()[i].kind
                        == FileType::RegularFile));
                }
                assert forall|i: u64| #[trigger]
                    self.contents().contains_key(i) implies self.attrs_map()[i].size
                    == self.contents()[i].len() by {
                    assert(old(self).contents().contains_key(i));
                    assert(old(self).attrs_map()[i].size == old(self).contents()[i].len());
                    if i == ino && size is Some && old(self).contents().contains_key(ino) {
                        assert(self.contents()[ino] == resized(
                            old(self).contents()[ino],
                            size->Some_0 as int,
                        ));
                    }
                }
            }
        }
        Ok(a)
    }

    /// Enumerates `ino`: the self entry `.`, a parent entry `..` unless the
    /// node is the root, then every child in insertion order. Fails with
    /// `NotFound` if the node does not exist. The store is not touched; the
    /// consumer resumes an in-progress listing by skipping a given offset,
    /// which is sound because the ordering is stable for a given tree
    /// state.
    pub fn read_dir(&self, ino: u64) -> (r: Result<Vec<DirEntry>, Error>)
        requires
            self.wf(),
        ensures
            match r {
                Ok(v) => self.nodes_map().contains_key(ino) && v@.map_values(
                    |e: DirEntry| e.entry(),
                ) == self.dir_listing(ino),
                Err(e) => e == Error::NotFound && !self.nodes_map().contains_key(ino),
            },
    {
        let node = match self.nodes.get(ino) {
            None => {
                return Err(Error::NotFound);
            },
            Some(n) => n,
        };
        let mut out: Vec<DirEntry> = Vec::new();
        out.push(DirEntry { index: ino, kind: FileType::Directory, name: ".".to_owned() });
        if node.parent != 0 {
            out.push(
                DirEntry { index: node.parent, kind: FileType::Directory, name: "..".to_owned() },
            );
        }
        let ghost hlen = out@.len() as int;
        proof {
            assert(hlen == self.dir_header(ino).len());
            assert(forall|j: int| 0 <= j < hlen ==> out@[j].entry() == self.dir_listing(ino)[j]);
        }
        let mut i: usize = 0;
        while i < node.children.len()
            invariant
                self.wf(),
                self.nodes_map().contains_key(ino),
                *node == self.nodes_map()[ino],
                i <= node.children@.len(),
                out@.len() == hlen + i,
                hlen == self.dir_header(ino).len(),
                forall|j: int| 0 <= j < out@.len() ==> out@[j].entry() == self.dir_listing(ino)[j],
            decreases node.children@.len() - i,
        {
            let c = &node.children[i];
            let child = match self.nodes.get(c.index) {
                Some(n) => n,
                None => unreached(),
            };
            out.push(DirEntry { index: c.index, kind: child.kind, name: c.name.clone() });
            proof {
                assert(out@[hlen + i].entry() == self.dir_listing(ino)[hlen + i]);
                assert(forall|j: int|
                    0 <= j < out@.len() - 1 ==> out@[j] == out@.subrange(0, out@.len() - 1)[j]);
            }
            i += 1;
        }
        proof {
            assert(out@.map_values(|e: DirEntry| e.entry()) =~= self.dir_listing(ino));
        }
        Ok(out)
    }

    /// Directory removal is intentionally unsupported.
    pub fn remove_directory(&self, _parent: u64, _name: &str) -> (r: Result<(), Error>)
        ensures
            r == Err::<(), Error>(Error::NotImplemented),
    {
        Err(Error::NotImplemented)
    }

    /// Renaming is intentionally unsupported.
    pub fn rename(&self, _parent: u64, _name: &str, _new_parent: u64, _new_name: &str) -> (r:
        Result<(), Error>)
        ensures
            r == Err::<(), Error>(Error::NotImplemented),
    {
        Err(Error::NotImplemented)
    }

    /// Hard links are intentionally unsupported.
    pub fn make_link(&self, _ino: u64, _new_parent: u64, _new_name: &str) -> (r: Result<
        FileAttr,
        Error,
    >)
        ensures
            r == Err::<FileAttr, Error>(Error::NotImplemented),
    {
        Err(Error::NotImplemented)
    }

    /// Symbolic links are intentionally unsupported.
    pub fn make_symlink(&self, _parent: u64, _name: &str, _target: &str) -> (r: Result<
        FileAttr,
        Error,
    >)
        ensures
            r == Err::<FileAttr, Error>(Error::NotImplemented),
    {
        Err(Error::NotImplemented)
    }
}

/// The directory tree stays intact when the nodes are unchanged and the
/// allocation counter has not decreased.
proof fn lemma_tree_wf_same_nodes(pre: NsFS, post: NsFS)
    requires
        pre.tree_wf(),
        post.nodes_map() == pre.nodes_map(),
        post.inode_counter() >= pre.inode_counter(),
    ensures
        post.tree_wf(),
{
    assert forall|i: u64| #[trigger] post.nodes_map().contains_key(i) implies {
        let n = post.nodes_map()[i];
        &&& n.index == i
        &&& n.wf()
        &&& 1 <= i <= post.inode_counter()
        &&& (n.kind == FileType::RegularFile ==> n.children@.len() == 0)
        &&& (i != ROOT_INODE ==> {
            &&& n.parent < i
            &&& post.nodes_map().contains_key(n.parent)
            &&& post.nodes_map()[n.parent].kind == FileType::Directory
            &&& post.nodes_map()[n.parent].has_child(n.name@)
            &&& post.nodes_map()[n.parent].child_ino(n.name@) == i
        })
    } by {
        assert(pre.nodes_map().contains_key(i));
    }
    assert forall|i: u64, j: int|
        #![trigger post.nodes_map()[i].children@[j]]
        post.nodes_map().contains_key(i) && 0 <= j < post.nodes_map()[i].children@.len() implies {
        let c = post.nodes_map()[i].children@[j];
        &&& post.nodes_map().contains_key(c.index)
        &&& post.nodes_map()[c.index].parent == i
        &&& post.nodes_map()[c.index].name@ == c.name@
        &&& c.index != ROOT_INODE
    } by {
        assert(pre.nodes_map().contains_key(i));
        assert(pre.nodes_map()[i].children@[j] == post.nodes_map()[i].children@[j]);
    }
}

/// The store's invariant is re-established after a creation: a fresh inode
/// `ino`, one past the old counter, is added as a childless node of kind
/// `kind` under a live directory `parent` that did not list `name` yet, with
/// a matching attribute record, and a content buffer exactly when the new
/// node is a regular file.
proof fn lemma_wf_after_create(
    pre: NsFS,
    post: NsFS,
    parent: u64,
    name: Seq<char>,
    ino: u64,
    kind: FileType,
    a: FileAttr,
)
    requires
        pre.wf(),
        pre.nodes_map().contains_key(parent),
        pre.nodes_map()[parent].kind == FileType::Directory,
        !pre.nodes_map()[parent].has_child(name),
        pre.inode_counter() < u64::MAX,
        ino == pre.inode_counter() + 1,
        post.tables_wf(),
        post.nodes_map().contains_key(parent),
        child_added(pre.nodes_map()[parent], post.nodes_map()[parent], name, ino),
        post.nodes_map().contains_key(ino),
        post.nodes_map()[ino].index == ino,
        post.nodes_map()[ino].parent == parent,
        post.nodes_map()[ino].name@ == name,
        post.nodes_map()[ino].kind == kind,
        post.nodes_map()[ino].children@.len() == 0,
        forall|k: u64| #[trigger]
            post.nodes_map().contains_key(k) == (pre.nodes_map().contains_key(k) || k == ino),
        forall|k: u64|
            k != parent && k != ino && pre.nodes_map().contains_key(k)
                ==> post.nodes_map()[k] == pre.nodes_map()[k],
        a.ino == ino,
        a.kind == kind,
        a.size == 0,
        post.attrs_map() == pre.attrs_map().insert(ino, a),
        kind == FileType::RegularFile ==> post.contents() == pre.contents().insert(
            ino,
            Seq::<u8>::empty(),
        ),
        kind == FileType::Directory ==> post.contents() == pre.contents(),
        post.inode_counter() == ino,
        post.fd_counter() == pre.fd_counter(),
        post.handles() == pre.handles(),
    ensures
        post.wf(),
        post.lookup_ok(parent, name),
        post.resolved_ino(parent, name) == ino,
{
    let pn = pre.nodes_map()[parent];
    let qn = post.nodes_map()[parent];
    // No pre-state key equals the fresh inode.
    assert forall|k: u64| #[trigger] pre.nodes_map().contains_key(k) implies k != ino by {}
    // The extended child list keeps its old entries and stays well formed.
    assert(forall|j: int| 0 <= j < pn.children@.len() ==> qn.children@[j] == pn.children@[j]);
    assert(qn.wf()) by {
        assert forall|x: int, y: int|
            0 <= x < y < qn.children@.len() implies qn.children@[x].name@
            != qn.children@[y].name@ by {
            if y < qn.children@.len() - 1 {
                assert(pn.children@[x].name@ != pn.children@[y].name@);
            } else {
                assert(qn.children@[x] == pn.children@[x]);
                assert(!pn.has_child(name));
                assert(pn.children@[x].name@ != name);
            }
        }
    }
    assert(qn.has_child(name)) by {
        assert(qn.children@[qn.children@.len() - 1].name@ == name);
    }
    qn.lemma_child_ino_at(name, qn.children@.len() - 1);
    assert(qn.child_ino(name) == ino);
    // A name already listed in the parent resolves to the same child.
    assert forall|nm: Seq<char>| pn.has_child(nm) implies #[trigger] qn.has_child(nm)
        && qn.child_ino(nm) == pn.child_ino(nm) by {
        let j = choose|j: int| 0 <= j < pn.children@.len() && pn.children@[j].name@ == nm;
        pn.lemma_child_ino_at(nm, j);
        assert(qn.children@[j].name@ == nm);
        qn.lemma_child_ino_at(nm, j);
    }
    assert(post.tree_wf()) by {
        assert forall|i: u64| #[trigger] post.nodes_map().contains_key(i) implies {
            let n = post.nodes_map()[i];
            &&& n.index == i
            &&& n.wf()
            &&& 1 <= i <= post.inode_counter()
            &&& (n.kind == FileType::RegularFile ==> n.children@.len() == 0)
            &&& (i != ROOT_INODE ==> {
                &&& n.parent < i
                &&& post.nodes_map().contains_key(n.parent)
                &&& post.nodes_map()[n.parent].kind == FileType::Directory
                &&& post.nodes_map()[n.parent].has_child(n.name@)
                &&& post.nodes_map()[n.parent].child_ino(n.name@) == i
            })
        } by {
            if i == ino {
            } else {
                assert(pre.nodes_map().contains_key(i));
                let n = post.nodes_map()[i];
                if i == parent {
                    assert(n == qn);
                    if parent != ROOT_INODE {
                        assert(pn.parent != parent && pn.parent != ino);
                        assert(post.nodes_map()[pn.parent] == pre.nodes_map()[pn.parent]);
                    }
                } else {
                    assert(n == pre.nodes_map()[i]);
                    if i != ROOT_INODE {
                        if n.parent == parent {
                            assert(pn.has_child(n.name@) && pn.child_ino(n.name@) == i);
                        } else {
                            assert(post.nodes_map()[n.parent] == pre.nodes_map()[n.parent]);
                        }
                    }
                }
            }
        }
        assert forall|i: u64, j: int|
            #![trigger post.nodes_map()[i].children@[j]]
            post.nodes_map().contains_key(i) && 0 <= j
                < post.nodes_map()[i].children@.len() implies {
            let c = post.nodes_map()[i].children@[j];
            &&& post.nodes_map().contains_key(c.index)
            &&& post.nodes_map()[c.index].parent == i
            &&& post.nodes_map()[c.index].name@ == c.name@
            &&& c.index != ROOT_INODE
        } by {
            assert(i != ino);
            assert(pre.nodes_map().contains_key(i));
            let c = post.nodes_map()[i].children@[j];
            if i == parent && j == qn.children@.len() - 1 {
                assert(c.index == ino);
            } else {
                assert(c == pre.nodes_map()[i].children@[j]);
                assert(pre.nodes_map().contains_key(c.index) && pre.nodes_map()[c.index].parent
                    == i && pre.nodes_map()[c.index].name@ == c.name@ && c.index != ROOT_INODE);
                assert(c.index != ino);
                if c.index == parent {
                    assert(post.nodes_map()[c.index].parent == pn.parent);
                    assert(post.nodes_map()[c.index].name == pn.name);
                } else {
                    assert(post.nodes_map()[c.index] == pre.nodes_map()[c.index]);
                }
            }
        }
    }
    assert(post.records_wf()) by {
        assert forall|i: u64| #[trigger]
            post.attrs_map().contains_key(i) == post.nodes_map().contains_key(i) by {
            assert(pre.attrs_map().contains_key(i) == pre.nodes_map().contains_key(i));
        }
        assert forall|i: u64| #[trigger]
            post.attrs_map().contains_key(i) implies post.attrs_map()[i].ino == i
            && post.attrs_map()[i].kind == post.nodes_map()[i].kind by {
            if i != ino {
                assert(pre.attrs_map().contains_key(i));
                assert(pre.attrs_map()[i].ino == i && pre.attrs_map()[i].kind
                    == pre.nodes_map()[i].kind);
                if i == parent {
                    assert(post.nodes_map()[i].kind == pn.kind);
                } else {
                    assert(post.nodes_map()[i] == pre.nodes_map()[i]);
                }
            }
        }
        assert forall|i: u64| #[trigger]
            post.contents().contains_key(i) == (post.nodes_map().contains_key(i)
                && post.nodes_map()[i].kind == FileType::RegularFile) by {
            assert(pre.contents().contains_key(i) == (pre.nodes_map().contains_key(i)
                && pre.nodes_map()[i].kind == FileType::RegularFile));
            if i != ino && i != parent {
                if pre.nodes_map().contains_key(i) {
                    assert(post.nodes_map()[i] == pre.nodes_map()[i]);
                }
            }
        }
        assert forall|i: u64| #[trigger]
            post.contents().contains_key(i) implies post.attrs_map()[i].size
            == post.contents()[i].len() by {
            if i == ino {
            } else {
                assert(pre.contents().contains_key(i));
                assert(pre.attrs_map()[i].size == pre.contents()[i].len());
            }
        }
    }
    assert(post.handles_wf()) by {
        assert forall|fd: u64| #[trigger] post.handles().contains_key(fd) implies fd
            < post.fd_counter() by {
            assert(pre.handles().contains_key(fd));
        }
    }
}

/// The store's invariant is re-established after a removal: the regular
/// file `victim`, listed as `name` under `parent`, loses its directory
/// entry, its node, its attribute record, its content buffer, and every
/// open handle that pointed at it.
#[verifier::rlimit(50)]
proof fn lemma_wf_after_remove(pre: NsFS, post: NsFS, parent: u64, name: Seq<char>, victim: u64)
    requires
        pre.wf(),
        pre.lookup_ok(parent, name),
        victim == pre.resolved_ino(parent, name),
        pre.nodes_map()[victim].kind == FileType::RegularFile,
        post.tables_wf(),
        post.nodes_map().contains_key(parent),
        child_removed(pre.nodes_map()[parent], post.nodes_map()[parent], name),
        forall|k: u64| #[trigger]
            post.nodes_map().contains_key(k) == (pre.nodes_map().contains_key(k) && k != victim),
        forall|k: u64|
            k != parent && #[trigger] post.nodes_map().contains_key(k) ==> post.nodes_map()[k]
                == pre.nodes_map()[k],
        post.attrs_map() == pre.attrs_map().remove(victim),
        post.contents() == pre.contents().remove(victim),
        forall|fd: u64| #[trigger]
            post.handles().contains_key(fd) == (pre.handles().contains_key(fd) && pre.handles()[fd]
                != victim),
        forall|fd: u64| #[trigger]
            post.handles().contains_key(fd) ==> post.handles()[fd] == pre.handles()[fd],
        post.inode_counter() == pre.inode_counter(),
        post.fd_counter() == pre.fd_counter(),
    ensures
        post.wf(),
        !post.lookup_ok(parent, name),
{
    let pn = pre.nodes_map()[parent];
    let qn = post.nodes_map()[parent];
    let iv = choose|i: int|
        0 <= i < pn.children@.len() && pn.children@[i].name@ == name && qn.children@
            == pn.children@.remove(i);
    assert(pn.children@[iv].name@ == name && qn.children@ == pn.children@.remove(iv));
    // The entry that resolution chose is the entry that was removed: names
    // are distinct within the parent.
    let jv = choose|j: int| 0 <= j < pn.children@.len() && pn.children@[j].name@ == name;
    assert(pn.wf());
    assert(!(iv < jv) && !(jv < iv));
    assert(pn.children@[iv].index == victim);
    // Facts about the victim.
    assert(pre.nodes_map().contains_key(victim) && pre.nodes_map()[victim].parent == parent
        && pre.nodes_map()[victim].name@ == name && victim != ROOT_INODE);
    assert(pre.nodes_map()[victim].children@.len() == 0);
    assert(victim != parent);
    assert(victim <= pre.inode_counter());
    // Only the entry at `iv` referred to the victim: a second entry would
    // carry the victim's name and collide with it.
    assert forall|j: int|
        0 <= j < pn.children@.len() && j != iv implies pn.children@[j].index != victim
        && pn.children@[j].name@ != name by {
        assert(pn.children@[j] == pre.nodes_map()[parent].children@[j]);
        if pn.children@[j].index == victim {
            assert(pn.children@[j].name@ == pre.nodes_map()[victim].name@);
        }
    }
    // How the removed list maps back onto the old one.
    assert forall|j: int| 0 <= j < qn.children@.len() implies qn.children@[j] == (if j < iv {
        pn.children@[j]
    } else {
        pn.children@[j + 1]
    }) by {}
    assert(qn.wf()) by {
        assert forall|x: int, y: int|
            0 <= x < y < qn.children@.len() implies qn.children@[x].name@
            != qn.children@[y].name@ by {
            let ox: int = if x < iv {
                x
            } else {
                x + 1
            };
            let oy: int = if y < iv {
                y
            } else {
                y + 1
            };
            assert(qn.children@[x] == pn.children@[ox]);
            assert(qn.children@[y] == pn.children@[oy]);
        }
    }
    assert(!qn.has_child(name)) by {
        assert forall|j: int| 0 <= j < qn.children@.len() implies qn.children@[j].name@ != name by {
            let oj: int = if j < iv {
                j
            } else {
                j + 1
            };
            assert(qn.children@[j] == pn.children@[oj]);
        }
    }
    // A surviving name still resolves to the same child.
    assert forall|nm: Seq<char>| pn.has_child(nm) && nm != name implies #[trigger] qn.has_child(nm)
        && qn.child_ino(nm) == pn.child_ino(nm) by {
        let j = choose|j: int| 0 <= j < pn.children@.len() && pn.children@[j].name@ == nm;
        pn.lemma_child_ino_at(nm, j);
        let tj: int = if j < iv {
            j
        } else {
            j - 1
        };
        assert(qn.children@[tj] == pn.children@[j]);
        qn.lemma_child_ino_at(nm, tj);
    }
    assert(post.tree_wf()) by {
        assert(post.nodes_map().contains_key(ROOT_INODE));
        if parent == ROOT_INODE {
            assert(post.nodes_map()[ROOT_INODE].parent == pn.parent);
            assert(post.nodes_map()[ROOT_INODE].kind == pn.kind);
        } else {
            assert(post.nodes_map()[ROOT_INODE] == pre.nodes_map()[ROOT_INODE]);
        }
        assert forall|i: u64| #[trigger] post.nodes_map().contains_key(i) implies {
            let n = post.nodes_map()[i];
            &&& n.index == i
            &&& n.wf()
            &&& 1 <= i <= post.inode_counter()
            &&& (n.kind == FileType::RegularFile ==> n.children@.len() == 0)
            &&& (i != ROOT_INODE ==> {
                &&& n.parent < i
                &&& post.nodes_map().contains_key(n.parent)
                &&& post.nodes_map()[n.parent].kind == FileType::Directory
                &&& post.nodes_map()[n.parent].has_child(n.name@)
                &&& post.nodes_map()[n.parent].child_ino(n.name@) == i
            })
        } by {
            assert(pre.nodes_map().contains_key(i));
            let n = post.nodes_map()[i];
            if i == parent {
                assert(n == qn);
                if parent != ROOT_INODE {
                    assert(pn.parent != parent);
                    assert(pn.parent != victim) by {
                        if pn.parent == victim {
                            assert(pre.nodes_map()[victim].has_child(pn.name@));
                        }
                    }
                    assert(post.nodes_map().contains_key(pn.parent));
                    assert(post.nodes_map()[pn.parent] == pre.nodes_map()[pn.parent]);
                }
            } else {
                assert(n == pre.nodes_map()[i]);
                if i != ROOT_INODE {
                    assert(n.parent != victim) by {
                        if n.parent == victim {
                            assert(pre.nodes_map()[victim].has_child(n.name@));
                        }
                    }
                    if n.parent == parent {
                        assert(pn.has_child(n.name@) && pn.child_ino(n.name@) == i);
                        assert(n.name@ != name) by {
                            if n.name@ == name {
                                pn.lemma_child_ino_at(name, iv);
                            }
                        }
                    } else {
                        assert(post.nodes_map().contains_key(n.parent));
                        assert(post.nodes_map()[n.parent] == pre.nodes_map()[n.parent]);
                    }
                }
            }
        }
        assert forall|i: u64, j: int|
            #![trigger post.nodes_map()[i].children@[j]]
            post.nodes_map().contains_key(i) && 0 <= j
                < post.nodes_map()[i].children@.len() implies {
            let c = post.nodes_map()[i].children@[j];
            &&& post.nodes_map().contains_key(c.index)
            &&& post.nodes_map()[c.index].parent == i
            &&& post.nodes_map()[c.index].name@ == c.name@
            &&& c.index != ROOT_INODE
        } by {
            assert(pre.nodes_map().contains_key(i));
            let c = post.nodes_map()[i].children@[j];
            let oj: int = if i == parent && j >= iv {
                j + 1
            } else {
                j
            };
            assert(c == pre.nodes_map()[i].children@[oj]);
            assert(pre.nodes_map().contains_key(c.index) && pre.nodes_map()[c.index].parent == i
                && pre.nodes_map()[c.index].name@ == c.name@ && c.index != ROOT_INODE);
            assert(c.index != victim) by {
                if c.index == victim {
                    assert(i == parent);
                }
            }
            assert(post.nodes_map().contains_key(c.index));
            if c.index == parent {
                assert(post.nodes_map()[c.index].parent == pn.parent);
                assert(post.nodes_map()[c.index].name == pn.name);
            } else {
                assert(post.nodes_map()[c.index] == pre.nodes_map()[c.index]);
            }
        }
    }
    assert(post.records_wf()) by {
        assert forall|i: u64| #[trigger]
            post.attrs_map().contains_key(i) == post.nodes_map().contains_key(i) by {
            assert(pre.attrs_map().contains_key(i) == pre.nodes_map().contains_key(i));
        }
        assert forall|i: u64| #[trigger]
            post.attrs_map().contains_key(i) implies post.attrs_map()[i].ino == i
            && post.attrs_map()[i].kind == post.nodes_map()[i].kind by {
            assert(pre.attrs_map().contains_key(i));
            assert(pre.attrs_map()[i].ino == i && pre.attrs_map()[i].kind
                == pre.nodes_map()[i].kind);
            assert(post.nodes_map().contains_key(i));
            if i == parent {
                assert(post.nodes_map()[i].kind == pn.kind);
            } else {
                assert(post.nodes_map()[i] == pre.nodes_map()[i]);
            }
        }
        assert forall|i: u64| #[trigger]
            post.contents().contains_key(i) == (post.nodes_map().contains_key(i)
                && post.nodes_map()[i].kind == FileType::RegularFile) by {
            assert(pre.contents().contains_key(i) == (pre.nodes_map().contains_key(i)
                && pre.nodes_map()[i].kind == FileType::RegularFile));
            if i != victim && i != parent && pre.nodes_map().contains_key(i) {
                assert(post.nodes_map().contains_key(i));
                assert(post.nodes_map()[i] == pre.nodes_map()[i]);
            }
        }
        assert forall|i: u64| #[trigger]
            post.contents().contains_key(i) implies post.attrs_map()[i].size
            == post.contents()[i].len() by {
            assert(pre.contents().contains_key(i));
            assert(pre.attrs_map()[i].size == pre.contents()[i].len());
        }
    }
    assert(post.handles_wf()) by {
        assert forall|fd: u64| #[trigger] post.handles().contains_key(fd) implies fd
            < post.fd_counter() by {
            assert(pre.handles().contains_key(fd));
        }
    }
}

/// The open handles stay well formed when the handle table and its counter
/// are unchanged.
proof fn lemma_handles_wf_same(pre: NsFS, post: NsFS)
    requires
        pre.handles_wf(),
        post.handles() == pre.handles(),
        post.fd_counter() == pre.fd_counter(),
    ensures
        post.handles_wf(),
{
    assert forall|fd: u64| #[trigger] post.handles().contains_key(fd) implies fd
        < post.fd_counter() by {
        assert(pre.handles().contains_key(fd));
    }
}

} // verus!
