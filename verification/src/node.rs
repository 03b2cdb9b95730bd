use vstd::prelude::*;

use crate::attr::FileType;

verus! {

/// One entry of a directory's child collection: the child's name, as held
/// by the parent, and the child's inode.
#[derive(Debug)]
pub struct ChildEntry {
    pub name: String,
    pub index: u64,
}

/// One node of the directory tree: its own inode, its parent's inode (0 for
/// the root, meaning "no parent"), its name as held by the parent, its kind,
/// and its child collection. Names are unique within a directory; children
/// are listed in insertion order.
#[derive(Debug)]
pub struct Node {
    pub index: u64,
    pub parent: u64,
    pub name: String,
    pub kind: FileType,
    pub children: Vec<ChildEntry>,
}

/// `post` is `pre` with one child entry appended, carrying `name` and
/// `ino`; the node's own identity is untouched.
pub open spec fn child_added(pre: Node, post: Node, name: Seq<char>, ino: u64) -> bool {
    &&& post.index == pre.index
    &&& post.parent == pre.parent
    &&& post.name == pre.name
    &&& post.kind == pre.kind
    &&& post.children@.len() == pre.children@.len() + 1
    &&& post.children@.drop_last() == pre.children@
    &&& post.children@.last().name@ == name
    &&& post.children@.last().index == ino
}

/// `post` is `pre` with the child entry named `name` removed; the node's
/// own identity is untouched.
pub open spec fn child_removed(pre: Node, post: Node, name: Seq<char>) -> bool {
    &&& post.index == pre.index
    &&& post.parent == pre.parent
    &&& post.name == pre.name
    &&& post.kind == pre.kind
    &&& exists|i: int|
        0 <= i < pre.children@.len() && pre.children@[i].name@ == name && post.children@
            == pre.children@.remove(i)
}

impl Node {
    /// The names of the children are pairwise distinct.
    pub open spec fn wf(self) -> bool {
        forall|i: int, j: int|
            0 <= i < j < self.children@.len() ==> self.children@[i].name@
                != self.children@[j].name@
    }

    /// Whether a child of this name exists.
    pub open spec fn has_child(self, name: Seq<char>) -> bool {
        exists|i: int| 0 <= i < self.children@.len() && self.children@[i].name@ == name
    }

    /// The inode of the child of this name (meaningful when `has_child`).
    pub open spec fn child_ino(self, name: Seq<char>) -> u64 {
        self.children@[choose|i: int|
            0 <= i < self.children@.len() && self.children@[i].name@ == name].index
    }

    /// With distinct names, any entry carrying `name` is the one `child_ino`
    /// speaks of.
    pub proof fn lemma_child_ino_at(self, name: Seq<char>, i: int)
        requires
            self.wf(),
            0 <= i < self.children@.len(),
            self.children@[i].name@ == name,
        ensures
            self.has_child(name),
            self.child_ino(name) == self.children@[i].index,
    {
        let j = choose|j: int| 0 <= j < self.children@.len() && self.children@[j].name@ == name;
        assert(!(i < j) && !(j < i));
    }

    /// A fresh directory node: no children.
    pub fn new_directory(index: u64, parent: u64, name: &str) -> (r: Self)
        ensures
            r.index == index,
            r.parent == parent,
            r.name@ == name@,
            r.kind == FileType::Directory,
            r.children@ == Seq::<ChildEntry>::empty(),
            r.wf(),
    {
        Node {
            index,
            parent,
            name: name.to_owned(),
            kind: FileType::Directory,
            children: Vec::new(),
        }
    }

    /// A fresh regular-file node: no children.
    pub fn new_file(index: u64, parent: u64, name: &str) -> (r: Self)
        ensures
            r.index == index,
            r.parent == parent,
            r.name@ == name@,
            r.kind == FileType::RegularFile,
            r.children@ == Seq::<ChildEntry>::empty(),
            r.wf(),
    {
        Node {
            index,
            parent,
            name: name.to_owned(),
            kind: FileType::RegularFile,
            children: Vec::new(),
        }
    }

    /// The position of the child named `name`, if there is one.
    pub fn find_child(&self, name: &str) -> (r: Option<usize>)
        requires
            self.wf(),
        ensures
            match r {
                Some(i) => i < self.children@.len() && self.children@[i as int].name@ == name@
                    && self.has_child(name@) && self.child_ino(name@) == self.children@[
                    i as int].index,
                None => !self.has_child(name@),
            },
    {
        let key: String = name.to_owned();
        let mut i: usize = 0;
        while i < self.children.len()
            invariant
                self.wf(),
                i <= self.children@.len(),
                key@ == name@,
                forall|j: int| 0 <= j < i ==> self.children@[j].name@ != name@,
            decreases self.children@.len() - i,
        {
            if self.children[i].name == key {
                proof {
                    self.lemma_child_ino_at(name@, i as int);
                }
                return Some(i);
            }
            i += 1;
        }
        None
    }
}

} // verus!
