//! Buffers of the console serial port, larger than the USB serial class
//! gives by default.

use vstd::prelude::*;

verus! {

pub const BUFFER_SIZE: usize = 1024;

pub struct BufferStore(pub [u8; BUFFER_SIZE]);

impl BufferStore {
    /// A zeroed buffer.
    pub fn new() -> (r: Self)
        ensures
            r.0@ == Seq::new(BUFFER_SIZE as nat, |i: int| 0u8),
    {
        let r = BufferStore([0u8; BUFFER_SIZE]);
        assert(r.0@ =~= Seq::new(BUFFER_SIZE as nat, |i: int| 0u8));
        r
    }
}

impl core::borrow::Borrow<[u8]> for BufferStore {
    fn borrow(&self) -> &[u8] {
        &self.0
    }
}

impl core::borrow::BorrowMut<[u8]> for BufferStore {
    fn borrow_mut(&mut self) -> &mut [u8] {
        &mut self.0
    }
}

} // verus!
