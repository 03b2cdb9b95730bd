use vstd::prelude::*;

use crate::attr::FileType;
use crate::content::{read_range, spliced, zero_extended};
use crate::fs::NsFS;

verus! {

/// Round trip: reading back exactly the range a write covered returns the
/// bytes that were written. `write_file` leaves the content spliced and
/// `read_file` returns `read_range` of it, so a read of `data.len()` bytes
/// at the offset of the last write yields `data` again, whatever the buffer
/// held before.
pub proof fn lemma_write_read_round_trip(c: Seq<u8>, offset: int, data: Seq<u8>)
    requires
        0 <= offset,
    ensures
        read_range(spliced(c, offset, data), offset, data.len() as int) == data,
{
    let p = zero_extended(c, offset);
    let s = spliced(c, offset, data);
    if offset + data.len() >= p.len() {
        assert(read_range(s, offset, data.len() as int) =~= data);
    } else {
        assert(read_range(s, offset, data.len() as int) =~= data);
    }
}

/// Sparse write: writing past the current end first fills the hole with
/// zero bytes, so the buffer afterwards is exactly `offset + data.len()`
/// long, every byte of the gap reads back as zero, and the bytes before the
/// old end are untouched.
pub proof fn lemma_sparse_write_gap(c: Seq<u8>, offset: int, data: Seq<u8>)
    requires
        c.len() <= offset,
    ensures
        spliced(c, offset, data).len() == offset + data.len(),
        forall|i: int| c.len() <= i < offset ==> spliced(c, offset, data)[i] == 0u8,
        forall|i: int| 0 <= i < c.len() ==> spliced(c, offset, data)[i] == c[i],
{
    let p = zero_extended(c, offset);
    assert(p.len() == offset);
    assert(spliced(c, offset, data) =~= p + data);
}

/// Overwrite in place: writing `data` at an offset inside the current
/// content leaves every byte outside the written range unchanged, and the
/// buffer is at least `offset + data.len()` long afterwards — exactly that
/// long if the write ran past the old end, the old length otherwise.
pub proof fn lemma_overwrite_keeps_rest(c: Seq<u8>, offset: int, data: Seq<u8>)
    requires
        0 <= offset <= c.len(),
    ensures
        spliced(c, offset, data).len() >= offset + data.len(),
        spliced(c, offset, data).len() == (if offset + data.len() >= c.len() {
            offset + data.len()
        } else {
            c.len() as int
        }),
        forall|i: int| 0 <= i < offset ==> spliced(c, offset, data)[i] == c[i],
        forall|i: int|
            offset + data.len() <= i < c.len() ==> spliced(c, offset, data)[i] == c[i],
{
    let s = spliced(c, offset, data);
    assert(zero_extended(c, offset) == c);
    assert forall|i: int| 0 <= i < offset implies s[i] == c[i] by {
        assert(s[i] == c.subrange(0, offset)[i]);
    }
}

/// Freed inode ids are never reassigned. `remove_file` leaves the
/// allocation counter where it was, every live id is at most the counter,
/// and a later create returns one more than the counter it sees; counters
/// only grow, so the freed id can never come out of a later allocation.
pub proof fn lemma_freed_inode_never_reassigned(
    freed: u64,
    counter_at_removal: u64,
    later_counter: u64,
)
    requires
        freed <= counter_at_removal,
        counter_at_removal <= later_counter,
        later_counter < u64::MAX,
    ensures
        later_counter + 1 != freed,
{
}

/// A freshly created directory lists exactly its self entry `.` and, being
/// non-root, its parent entry `..`, and nothing else; a childless root
/// lists `.` alone.
pub proof fn lemma_fresh_directory_listing(fs: NsFS, ino: u64)
    requires
        fs.nodes_map().contains_key(ino),
        fs.nodes_map()[ino].children@.len() == 0,
    ensures
        fs.nodes_map()[ino].parent != 0 ==> fs.dir_listing(ino) == seq![
            (ino, FileType::Directory, "."@),
            (fs.nodes_map()[ino].parent, FileType::Directory, ".."@),
        ],
        fs.nodes_map()[ino].parent == 0 ==> fs.dir_listing(ino) == seq![
            (ino, FileType::Directory, "."@),
        ],
{
    if fs.nodes_map()[ino].parent != 0 {
        assert(fs.dir_listing(ino) =~= seq![
            (ino, FileType::Directory, "."@),
            (fs.nodes_map()[ino].parent, FileType::Directory, ".."@),
        ]);
    } else {
        assert(fs.dir_listing(ino) =~= seq![(ino, FileType::Directory, "."@)]);
    }
}

} // verus!
