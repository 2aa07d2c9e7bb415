//! Linear memory of one instance, filled from the bottom and never rewritten.

use crate::abi::bytes::zeros;
use crate::abi::model::{place, LowerError};
use crate::types::{align_up, is_align, round_up};
use vstd::prelude::*;

verus! {

/// The bytes that lowered strings and lists lie in, up to a fixed capacity.
pub struct Memory {
    bytes: Vec<u8>,
    capacity: u32,
}

impl View for Memory {
    type V = Seq<u8>;

    closed spec fn view(&self) -> Seq<u8> {
        self.bytes@
    }
}

impl Memory {
    /// The most bytes this memory can hold.
    pub closed spec fn capacity(&self) -> nat {
        self.capacity as nat
    }

    /// The bytes in use do not exceed the capacity.
    pub closed spec fn wf(&self) -> bool {
        self.bytes@.len() <= self.capacity
    }

    /// What is in use does not exceed the capacity, which fits 32 bits.
    pub proof fn lemma_bounds(&self)
        requires
            self.wf(),
        ensures
            self@.len() <= self.capacity() <= u32::MAX,
    {
    }

    /// Empty memory that can grow to `capacity` bytes.
    pub fn new(capacity: u32) -> (mem: Memory)
        ensures
            mem.wf(),
            mem@ == Seq::<u8>::empty(),
            mem.capacity() == capacity,
    {
        Memory { bytes: Vec::new(), capacity }
    }

    /// The number of bytes in use.
    pub fn len(&self) -> (n: usize)
        requires
            self.wf(),
        ensures
            n == self@.len(),
            n <= u32::MAX,
    {
        self.bytes.len()
    }

    /// The capacity this memory was made with.
    pub fn limit(&self) -> (n: u32)
        ensures
            n == self.capacity(),
    {
        self.capacity
    }

    /// The bytes in use.
    pub fn as_slice(&self) -> (bytes: &[u8])
        ensures
            bytes@ == self@,
    {
        self.bytes.as_slice()
    }

    /// Forgets everything written after the first `len` bytes.
    pub fn truncate(&mut self, len: usize)
        requires
            old(self).wf(),
            len <= old(self)@.len(),
        ensures
            final(self).wf(),
            final(self).capacity() == old(self).capacity(),
            final(self)@ == old(self)@.subrange(0, len as int),
    {
        self.bytes.truncate(len);
    }

    /// Appends `data` at the next multiple of `align` and returns where it
    /// starts; writes nothing and returns a null pointer for a count of zero.
    pub fn place(&mut self, data: &[u8], align: u32, count: usize) -> (result: Result<
        u32,
        LowerError,
    >)
        requires
            old(self).wf(),
            is_align(align as nat),
        ensures
            final(self).wf(),
            final(self).capacity() == old(self).capacity(),
            match place(data@, align as nat, count as nat, old(self)@, old(self).capacity()) {
                Ok(low) => {
                    &&& result is Ok
                    &&& final(self)@ == low.mem
                    &&& count == 0 ==> result == Ok::<u32, LowerError>(0)
                    &&& count != 0 ==> result == Ok::<u32, LowerError>(
                        align_up(old(self)@.len(), align as nat) as u32,
                    ) && align_up(old(self)@.len(), align as nat) <= u32::MAX
                },
                Err(e) => result == Err::<u32, LowerError>(e) && final(self)@ == old(self)@,
            },
    {
        if count == 0 {
            return Ok(0);
        }
        let used: u64 = self.bytes.len() as u64;
        let ptr: u64 = round_up(used, align);
        let room: u64 = self.capacity as u64;
        if ptr > room || data.len() as u64 > room - ptr {
            return Err(LowerError::OutOfMemory);
        }
        let ghost before = self.bytes@;
        let mut at: u64 = used;
        while at < ptr
            invariant
                used <= at <= ptr,
                self.bytes@ == before + zeros(at - used),
                self.capacity == old(self).capacity,
            decreases ptr - at,
        {
            self.bytes.push(0u8);
            at = at + 1;
            assert(self.bytes@ =~= before + zeros(at - used));
        }
        self.bytes.extend_from_slice(data);
        Ok(ptr as u32)
    }
}

} // verus!
