//! The append-only destination object for the file being assembled.
//!
//! An [`UploadSink`] offers append and flush, and nothing else: no
//! seeking, no overwrite. Bytes passed to `append` in two calls are laid
//! out contiguously in call order. Flushing marks everything appended so
//! far as pushed down to the object — in this design a flush follows
//! every append, so each chunk survives on its own, independent of the
//! periodic durability sync.

use vstd::prelude::*;

verus! {

/// The growing destination object of one upload job.
pub struct UploadSink {
    data: Vec<u8>,
    flushed: Ghost<int>,
}

impl UploadSink {
    /// The bytes appended so far, in append order.
    pub closed spec fn bytes(&self) -> Seq<u8> {
        self.data@
    }

    /// How many of the appended bytes a flush has pushed down.
    pub closed spec fn flushed_bytes(&self) -> int {
        self.flushed@
    }

    /// Nothing unflushed beyond what was appended.
    pub closed spec fn wf(&self) -> bool {
        0 <= self.flushed@ <= self.data@.len()
    }

    /// A freshly created, empty destination object.
    pub fn create() -> (s: Self)
        ensures
            s.wf(),
            s.bytes() == Seq::<u8>::empty(),
            s.flushed_bytes() == 0,
    {
        UploadSink { data: Vec::new(), flushed: Ghost(0) }
    }

    /// Appends `bytes` after everything appended before: append-only, in
    /// call order.
    pub fn append(&mut self, bytes: &mut Vec<u8>)
        requires
            old(self).wf(),
        ensures
            final(self).wf(),
            final(self).bytes() == old(self).bytes() + old(bytes)@,
            final(self).flushed_bytes() == old(self).flushed_bytes(),
    {
        self.data.append(bytes);
    }

    /// Pushes everything appended so far down to the object.
    pub fn flush(&mut self)
        requires
            old(self).wf(),
        ensures
            final(self).wf(),
            final(self).bytes() == old(self).bytes(),
            final(self).flushed_bytes() == final(self).bytes().len(),
    {
        proof {
            self.flushed@ = self.data@.len() as int;
        }
    }

    /// Hands the finished object's bytes out.
    pub fn into_bytes(self) -> (r: Vec<u8>)
        ensures
            r@ == self.bytes(),
    {
        self.data
    }
}

} // verus!
