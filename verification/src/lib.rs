//! A byte-oriented ring buffer with verified head/tail bookkeeping.
//!
//! The buffer is fixed-capacity (a whole number of 4096-byte pages), writes
//! and reads are all-or-nothing, and every cursor computation is proved
//! correct: a write lands exactly after the current contents, a read returns
//! exactly the oldest bytes, and a failed operation changes nothing.

use vstd::prelude::*;

pub mod laws;
pub mod ringbuf;

pub use ringbuf::BufError;
pub use ringbuf::Cursors;
pub use ringbuf::Error;
pub use ringbuf::RingBuf;
pub use ringbuf::PAGE_SIZE;

verus! {

/// Two mutable borrows of one local: the first borrow's lifetime ends before
/// the second begins, so the borrow checker accepts this ordering.
pub fn aliasing_enforced() {
    let mut x: usize = 12;
    let mref_x1 = &mut x;
    *mref_x1 = 12;
    let mref_x2 = &mut x;
    *mref_x2 = 12;
}

/// Distinct `&mut` parameters never alias, so the final read of `*a` can be
/// replaced by the constant just stored through it.
pub fn alias_analyzed(a: &mut usize, b: &mut usize) -> (r: usize)
    ensures
        *final(a) == 15,
        *final(b) == 16,
        r == 15,
{
    *a = 15;
    *b = 16;
    *a
}

} // verus!
