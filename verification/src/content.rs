use vstd::prelude::*;

verus! {

/// The content buffer of one regular file: a growable byte vector.
pub struct File {
    pub data: Vec<u8>,
}

impl File {
    /// An empty content buffer.
    pub fn new() -> (r: Self)
        ensures
            r.data@ == Seq::<u8>::empty(),
    {
        File { data: Vec::new() }
    }
}

/// `n` zero bytes.
pub open spec fn zeros(n: int) -> Seq<u8> {
    Seq::new(n as nat, |i: int| 0u8)
}

/// `c` extended with zero bytes until it is at least `offset` long; holes
/// left by a sparse write read back as zero.
pub open spec fn zero_extended(c: Seq<u8>, offset: int) -> Seq<u8> {
    if c.len() >= offset {
        c
    } else {
        c + zeros(offset - c.len())
    }
}

/// The content after writing `data` at `offset` into `c`: the buffer is
/// first zero-extended up to `offset` if it is shorter, then `data` is
/// spliced in, overwriting in place where it fits and extending the buffer
/// where it runs past the end.
pub open spec fn spliced(c: Seq<u8>, offset: int, data: Seq<u8>) -> Seq<u8> {
    let padded = zero_extended(c, offset);
    if offset + data.len() >= padded.len() {
        padded.subrange(0, offset) + data
    } else {
        padded.subrange(0, offset) + data + padded.subrange(
            offset + data.len(),
            padded.len() as int,
        )
    }
}

/// The bytes a read of `size` at `offset` returns from content `c`: up to
/// `size` bytes starting at `offset`, clipped to the end of the buffer,
/// never zero-padded. Meaningful when `0 <= offset < c.len()`.
pub open spec fn read_range(c: Seq<u8>, offset: int, size: int) -> Seq<u8> {
    if offset + size >= c.len() {
        c.subrange(offset, c.len() as int)
    } else {
        c.subrange(offset, offset + size)
    }
}

/// `c` resized to exactly `n` bytes: truncated, or zero-extended.
pub open spec fn resized(c: Seq<u8>, n: int) -> Seq<u8> {
    if n <= c.len() {
        c.subrange(0, n)
    } else {
        c + zeros(n - c.len())
    }
}

/// Writes `data` into `buf` at `offset`, zero-extending the buffer first if
/// `offset` lies beyond its end.
pub fn splice_into(buf: &mut Vec<u8>, offset: usize, data: &[u8])
    requires
        offset + data@.len() <= usize::MAX,
    ensures
        final(buf)@ == spliced(old(buf)@, offset as int, data@),
{
    let ghost orig = old(buf)@;
    while buf.len() < offset
        invariant
            orig.len() >= offset ==> buf@ == orig,
            orig.len() < offset ==> {
                &&& orig.len() <= buf@.len() <= offset
                &&& buf@.subrange(0, orig.len() as int) == orig
                &&& forall|j: int| orig.len() <= j < buf@.len() ==> buf@[j] == 0u8
            },
        decreases offset - buf@.len(),
    {
        buf.push(0);
        proof {
            assert(buf@.subrange(0, orig.len() as int) =~= orig);
        }
    }
    let ghost padded = zero_extended(orig, offset as int);
    proof {
        assert(buf@ =~= padded);
    }
    let mut i: usize = 0;
    while i < data.len()
        invariant
            i <= data@.len(),
            offset + data@.len() <= usize::MAX,
            buf@.len() == if padded.len() >= offset + i {
                padded.len() as int
            } else {
                offset + i
            },
            buf@.subrange(0, offset as int) == padded.subrange(0, offset as int),
            buf@.subrange(offset as int, offset + i) == data@.subrange(0, i as int),
            forall|j: int| offset + i <= j < buf@.len() ==> buf@[j] == padded[j],
            padded == zero_extended(orig, offset as int),
            offset <= padded.len(),
        decreases data@.len() - i,
    {
        let ghost before = buf@;
        if offset + i < buf.len() {
            buf.set(offset + i, data[i]);
        } else {
            buf.push(data[i]);
        }
        proof {
            assert(buf@.subrange(0, offset as int) =~= before.subrange(0, offset as int));
            assert(buf@.subrange(offset as int, offset + i + 1) =~= data@.subrange(0, i + 1)) by {
                assert(before.subrange(offset as int, offset + i) == data@.subrange(0, i as int));
                assert forall|j: int| 0 <= j < i + 1 implies buf@.subrange(offset as int, offset + i + 1)[j]
                    == data@[j] by {
                    if j < i {
                        assert(before.subrange(offset as int, offset + i)[j] == data@.subrange(
                            0,
                            i as int,
                        )[j]);
                    }
                }
            }
        }
        i += 1;
    }
    proof {
        assert(final(buf)@ =~= spliced(orig, offset as int, data@)) by {
            let s = spliced(orig, offset as int, data@);
            assert(buf@.subrange(offset as int, offset + data@.len()) == data@.subrange(
                0,
                data@.len() as int,
            ));
            assert(data@.subrange(0, data@.len() as int) =~= data@);
            assert forall|j: int| 0 <= j < buf@.len() implies buf@[j] == s[j] by {
                if j < offset {
                    assert(buf@.subrange(0, offset as int)[j] == padded.subrange(
                        0,
                        offset as int,
                    )[j]);
                    assert(s[j] == padded.subrange(0, offset as int)[j]);
                } else if j < offset + data@.len() {
                    assert(buf@.subrange(offset as int, offset + data@.len())[j - offset]
                        == data@[j - offset]);
                }
            }
        }
    }
}

/// Copies up to `size` bytes of `buf` starting at `offset`, clipped to the
/// end of the buffer.
pub fn read_range_copy(buf: &Vec<u8>, offset: usize, size: usize) -> (r: Vec<u8>)
    requires
        offset < buf@.len(),
    ensures
        r@ == read_range(buf@, offset as int, size as int),
{
    let len = buf.len();
    let end: usize = if size >= len - offset {
        len
    } else {
        offset + size
    };
    let mut out: Vec<u8> = Vec::new();
    let mut i: usize = offset;
    while i < end
        invariant
            offset <= i <= end <= buf@.len(),
            out@ == buf@.subrange(offset as int, i as int),
        decreases end - i,
    {
        out.push(buf[i]);
        proof {
            assert(out@ =~= buf@.subrange(offset as int, i + 1));
        }
        i += 1;
    }
    proof {
        assert(out@ =~= read_range(buf@, offset as int, size as int));
    }
    out
}

/// Resizes `buf` to exactly `n` bytes, truncating or zero-extending.
pub fn resize_content(buf: &mut Vec<u8>, n: usize)
    ensures
        final(buf)@ == resized(old(buf)@, n as int),
{
    if n <= buf.len() {
        buf.truncate(n);
    } else {
        while buf.len() < n
            invariant
                old(buf)@.len() < n,
                old(buf)@.len() <= buf@.len() <= n,
                buf@.subrange(0, old(buf)@.len() as int) == old(buf)@,
                forall|j: int| old(buf)@.len() <= j < buf@.len() ==> buf@[j] == 0u8,
            decreases n - buf@.len(),
        {
            buf.push(0);
            proof {
                assert(buf@.subrange(0, old(buf)@.len() as int) =~= old(buf)@);
            }
        }
        proof {
            assert(buf@ =~= resized(old(buf)@, n as int));
        }
    }
}

} // verus!
