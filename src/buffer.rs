//! A data buffer that either borrows a caller's memory or owns its own, so that
//! data can be produced in place and copied only when it must outlive the call.

use vstd::prelude::*;

verus! {

/// Either a borrowed caller buffer or an owned heap buffer.
pub enum DataBuffer<'a> {
    /// A caller's buffer, which outlives this value.
    Borrowed(&'a mut [u8]),
    /// A buffer owned by this value.
    Allocated(Vec<u8>),
}

impl<'a> DataBuffer<'a> {
    /// The bytes of the buffer.
    pub open spec fn view(&self) -> Seq<u8> {
        match self {
            DataBuffer::Borrowed(b) => b@,
            DataBuffer::Allocated(v) => v@,
        }
    }

    /// Read access to the bytes.
    pub fn slice(&self) -> (r: &[u8])
        ensures
            r@ == self.view(),
    {
        match self {
            DataBuffer::Borrowed(b) => &**b,
            DataBuffer::Allocated(v) => v.as_slice(),
        }
    }

    /// Write access to the bytes.
    pub fn mut_slice(&mut self) -> (r: &mut [u8])
        ensures
            r@ == old(self).view(),
            final(self).view() == final(r)@,
    {
        match self {
            DataBuffer::Borrowed(b) => &mut **b,
            DataBuffer::Allocated(v) => v.as_mut_slice(),
        }
    }

    /// A buffer with the same bytes that owns its memory.
    pub fn to_owned(self) -> (r: DataBuffer<'a>)
        ensures
            r is Allocated,
            r.view() == self.view(),
    {
        match self {
            DataBuffer::Borrowed(b) => {
                let mut v: Vec<u8> = Vec::new();
                let mut i: usize = 0;
                while i < b.len()
                    invariant
                        i <= b@.len(),
                        v@ == b@.subrange(0, i as int),
                    decreases b@.len() - i,
                {
                    v.push(b[i]);
                    i += 1;
                }
                assert(v@ =~= b@);
                DataBuffer::Allocated(v)
            },
            DataBuffer::Allocated(v) => DataBuffer::Allocated(v),
        }
    }
}

} // verus!
