use vstd::prelude::*;

verus! {

/// Raised when bytes to hold would exceed a buffer's fixed capacity.
#[derive(Debug, PartialEq, Eq, Structural, Clone, Copy)]
pub struct BufferCapacityExceeded;

/// A byte buffer with a fixed capacity.
pub struct Buffer {
    data: Vec<u8>,
    capacity: usize,
}

impl Buffer {
    pub closed spec fn view(self) -> Seq<u8> {
        self.data@
    }

    pub closed spec fn capacity_spec(self) -> nat {
        self.capacity as nat
    }

    pub open spec fn wf(self) -> bool {
        self.view().len() <= self.capacity_spec()
    }

    pub fn new(capacity: usize) -> (r: Buffer)
        ensures
            r.view() == Seq::<u8>::empty(),
            r.capacity_spec() == capacity,
            r.wf(),
    {
        Buffer { data: Vec::new(), capacity }
    }

    pub fn capacity(&self) -> (r: usize)
        ensures
            r == self.capacity_spec(),
    {
        self.capacity
    }

    pub fn bytes(&self) -> (r: &[u8])
        ensures
            r@ == self.view(),
    {
        self.data.as_slice()
    }

    /// Replaces the contents with `bytes`, unless they do not fit.
    pub fn init_with(&mut self, bytes: &[u8]) -> (r: Result<(), BufferCapacityExceeded>)
        ensures
            final(self).capacity_spec() == old(self).capacity_spec(),
            r.is_ok() == (bytes@.len() <= old(self).capacity_spec()),
            r.is_ok() ==> final(self).view() == bytes@,
            r.is_err() ==> final(self).view() == old(self).view(),
    {
        if bytes.len() > self.capacity {
            return Err(BufferCapacityExceeded);
        }
        let mut data: Vec<u8> = Vec::new();
        let mut i: usize = 0;
        while i < bytes.len()
            invariant
                i <= bytes@.len(),
                data@ == bytes@.subrange(0, i as int),
            decreases bytes@.len() - i,
        {
            data.push(bytes[i]);
            proof {
                assert(bytes@.subrange(0, i + 1) == bytes@.subrange(0, i as int).push(bytes@[i as int]));
            }
            i = i + 1;
        }
        proof {
            assert(bytes@.subrange(0, bytes@.len() as int) == bytes@);
        }
        self.data = data;
        Ok(())
    }

    /// Appends `bytes`, unless the result would not fit.
    pub fn append(&mut self, bytes: &[u8]) -> (r: Result<(), BufferCapacityExceeded>)
        requires
            old(self).wf(),
        ensures
            final(self).capacity_spec() == old(self).capacity_spec(),
            r.is_ok() == (old(self).view().len() + bytes@.len() <= old(self).capacity_spec()),
            r.is_ok() ==> final(self).view() == old(self).view() + bytes@,
            r.is_err() ==> final(self).view() == old(self).view(),
    {
        if bytes.len() > self.capacity - self.data.len() {
            return Err(BufferCapacityExceeded);
        }
        let ghost start = self.data@;
        let mut i: usize = 0;
        while i < bytes.len()
            invariant
                i <= bytes@.len(),
                self.capacity == old(self).capacity,
                start == old(self).data@,
                self.data@ == start + bytes@.subrange(0, i as int),
            decreases bytes@.len() - i,
        {
            self.data.push(bytes[i]);
            proof {
                assert(bytes@.subrange(0, i + 1) == bytes@.subrange(0, i as int).push(bytes@[i as int]));
                assert(start + bytes@.subrange(0, i + 1) == (start + bytes@.subrange(0, i as int)).push(bytes@[i as int]));
            }
            i = i + 1;
        }
        proof {
            assert(bytes@.subrange(0, bytes@.len() as int) == bytes@);
        }
        Ok(())
    }

    /// Keeps only the last `count` bytes.
    pub fn shrink_to_last(&mut self, count: usize)
        requires
            count <= old(self).view().len(),
        ensures
            final(self).capacity_spec() == old(self).capacity_spec(),
            final(self).view() == old(self).view().subrange(
                old(self).view().len() - count,
                old(self).view().len() as int,
            ),
    {
        let len = self.data.len();
        let from = len - count;
        let mut data: Vec<u8> = Vec::new();
        let mut i: usize = from;
        while i < len
            invariant
                from <= i <= len,
                len == self.data@.len(),
                data@ == self.data@.subrange(from as int, i as int),
            decreases len - i,
        {
            data.push(self.data[i]);
            proof {
                assert(self.data@.subrange(from as int, i + 1)
                    == self.data@.subrange(from as int, i as int).push(self.data@[i as int]));
            }
            i = i + 1;
        }
        self.data = data;
    }
}

} // verus!
