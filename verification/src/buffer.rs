//! A zeroed byte buffer with bump-style aligned writes, used to build
//! device I/O control payloads.

use vstd::prelude::*;

verus! {

/// Whether `n` is a power of two.
pub open spec fn spec_pow2(n: usize) -> bool {
    n > 0 && (n & (n - 1) as usize) == 0
}

/// The cursor rounded up to the next multiple of `align`.
pub open spec fn round_up(cursor: int, align: int) -> int {
    if cursor % align == 0 {
        cursor
    } else {
        cursor + align - cursor % align
    }
}

/// A zeroed buffer of fixed size, filled front to back; each write
/// first realigns the cursor to the payload's alignment.
#[derive(Debug)]
pub struct AlignedBuffer {
    /// The buffer contents.
    pub data: Vec<u8>,
    /// Next free position.
    pub cursor: usize,
}

impl AlignedBuffer {
    /// The cursor never leaves the buffer.
    pub open spec fn wf(self) -> bool {
        self.cursor <= self.data@.len()
    }

    /// Allocate a zeroed buffer of `len_bytes` bytes, aligned to
    /// `align_bytes`, which must be a power of two.
    pub fn new(len_bytes: usize, align_bytes: usize) -> (r: Option<Self>)
        ensures
            r is Some <==> spec_pow2(align_bytes),
            r matches Some(b) ==> {
                &&& b.wf()
                &&& b.cursor == 0
                &&& b.data@.len() == len_bytes
                &&& forall|i: int| 0 <= i < len_bytes ==> b.data@[i] == 0
            },
    {
        if align_bytes == 0 || (align_bytes & (align_bytes - 1)) != 0 {
            return None;
        }
        let mut data: Vec<u8> = Vec::new();
        let mut i: usize = 0;
        while i < len_bytes
            invariant
                0 <= i <= len_bytes,
                data@.len() == i,
                forall|j: int| 0 <= j < i ==> data@[j] == 0,
            decreases len_bytes - i,
        {
            data.push(0);
            i = i + 1;
        }
        Some(AlignedBuffer { data, cursor: 0 })
    }

    /// Write a payload at the cursor realigned to `align`, advancing
    /// past it.  Returns the offset the payload landed at, or `None`
    /// when it does not fit; on overflow the buffer is untouched.
    pub fn write_aligned(&mut self, payload: &Vec<u8>, align: usize) -> (r: Option<usize>)
        requires
            old(self).wf(),
            align >= 1,
        ensures
            final(self).wf(),
            final(self).data@.len() == old(self).data@.len(),
            r is Some <==> round_up(old(self).cursor as int, align as int) + payload@.len()
                <= old(self).data@.len(),
            r is None ==> *final(self) == *old(self),
            r matches Some(off) ==> {
                &&& off == round_up(old(self).cursor as int, align as int)
                &&& final(self).cursor == off + payload@.len()
                &&& forall|i: int|
                    0 <= i < old(self).data@.len() ==> final(self).data@[i] == (if off <= i < off
                        + payload@.len() {
                        payload@[i - off]
                    } else {
                        old(self).data@[i]
                    })
            },
    {
        let rem = self.cursor % align;
        let pad = if rem == 0 {
            0
        } else {
            align - rem
        };
        if pad > self.data.len() - self.cursor {
            proof {
                assert(round_up(self.cursor as int, align as int) == self.cursor + pad);
            }
            return None;
        }
        let off = self.cursor + pad;
        proof {
            assert(off == round_up(old(self).cursor as int, align as int));
        }
        if payload.len() > self.data.len() - off {
            return None;
        }
        let mut i: usize = 0;
        while i < payload.len()
            invariant
                0 <= i <= payload@.len(),
                self.data@.len() <= usize::MAX,
                off + payload@.len() <= self.data@.len(),
                self.cursor == old(self).cursor,
                self.data@.len() == old(self).data@.len(),
                forall|j: int|
                    0 <= j < self.data@.len() ==> self.data@[j] == (if off <= j < off + i {
                        payload@[j - off]
                    } else {
                        old(self).data@[j]
                    }),
            decreases payload@.len() - i,
        {
            self.data.set(off + i, payload[i]);
            i = i + 1;
        }
        self.cursor = off + payload.len();
        Some(off)
    }

    /// The buffer's size in bytes.
    pub fn byte_len(&self) -> (r: usize)
        ensures
            r == self.data@.len(),
    {
        self.data.len()
    }

    /// The buffer contents.
    pub fn bytes(&self) -> (r: &Vec<u8>)
        ensures
            r@ == self.data@,
    {
        &self.data
    }
}

} // verus!
