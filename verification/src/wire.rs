//! Read cursor over a byte buffer: length-checked `take` and the unread tail.

use vstd::prelude::*;

use crate::error::CursorError;

verus! {

/// A read-only byte buffer together with a monotonically advancing position.
pub struct Cursor<'a> {
    buf: &'a [u8],
    pos: usize,
}

impl<'a> Cursor<'a> {
    /// The whole underlying buffer.
    pub closed spec fn spec_buf(&self) -> Seq<u8> {
        self.buf@
    }

    /// The current read position.
    pub closed spec fn spec_pos(&self) -> int {
        self.pos as int
    }

    /// The position never runs past the end of the buffer.
    pub open spec fn wf(&self) -> bool {
        0 <= self.spec_pos() <= self.spec_buf().len()
    }

    /// The unread tail of the buffer.
    pub open spec fn spec_remaining(&self) -> Seq<u8> {
        self.spec_buf().subrange(self.spec_pos(), self.spec_buf().len() as int)
    }

    pub fn new(buf: &'a [u8]) -> (r: Cursor<'a>)
        ensures
            r.spec_buf() == buf@,
            r.spec_pos() == 0,
            r.wf(),
    {
        Cursor { buf, pos: 0 }
    }

    /// Returns the next `n` bytes and advances, or fails with
    /// `BufferUnderflowError` leaving the position unchanged.
    pub fn take(&mut self, n: usize) -> (r: Result<&'a [u8], CursorError>)
        requires
            old(self).wf(),
        ensures
            final(self).wf(),
            final(self).spec_buf() == old(self).spec_buf(),
            if old(self).spec_pos() + n <= old(self).spec_buf().len() {
                &&& r matches Ok(s) && s@ == old(self).spec_buf().subrange(
                    old(self).spec_pos(),
                    old(self).spec_pos() + n,
                )
                &&& final(self).spec_pos() == old(self).spec_pos() + n
            } else {
                &&& r matches Err(e) && e == CursorError::BufferUnderflowError
                &&& final(self).spec_pos() == old(self).spec_pos()
            },
    {
        if n > self.buf.len() - self.pos {
            return Err(CursorError::BufferUnderflowError);
        }
        let slice = vstd::slice::slice_subrange(self.buf, self.pos, self.pos + n);
        self.pos = self.pos + n;
        Ok(slice)
    }

    /// Returns the unread tail without advancing.
    pub fn remaining(&self) -> (r: &'a [u8])
        requires
            self.wf(),
        ensures
            r@ == self.spec_remaining(),
    {
        vstd::slice::slice_subrange(self.buf, self.pos, self.buf.len())
    }
}

/// Appends every byte of `s` to `out`.
pub fn push_bytes(out: &mut Vec<u8>, s: &[u8])
    ensures
        final(out)@ == old(out)@ + s@,
{
    let mut i: usize = 0;
    while i < s.len()
        invariant
            i <= s@.len(),
            out@ == old(out)@ + s@.take(i as int),
        decreases s@.len() - i,
    {
        let b = *vstd::slice::slice_index_get(s, i);
        out.push(b);
        proof {
            assert((old(out)@ + s@.take(i as int)).push(s@[i as int]) =~= old(out)@ + s@.take(
                i as int + 1,
            ));
        }
        i = i + 1;
    }
    proof {
        assert(s@.take(s@.len() as int) =~= s@);
    }
}

} // verus!
