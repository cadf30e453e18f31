//! The ring buffer itself: cursor bookkeeping, byte storage, and the
//! byte-level and typed write/read operations.
//!
//! All index arithmetic lives in [`Cursors`], so a caller that copies bytes
//! through a flat memory region (for instance one mapped twice back-to-back,
//! so that a linear copy wraps transparently) can reuse the verified
//! bookkeeping unchanged: `grant_write` and `grant_read` hand out the offset
//! at which the copy must start and advance the cursors.

use vstd::arithmetic::div_mod::lemma_add_mod_noop_right;
use vstd::arithmetic::div_mod::lemma_mod_bound;
use vstd::arithmetic::div_mod::lemma_mod_equivalence;
use vstd::arithmetic::div_mod::lemma_mod_multiples_basic;
use vstd::arithmetic::div_mod::lemma_small_mod;
use vstd::prelude::*;

verus! {

/// Size of one page of backing storage; every capacity is a multiple of it.
pub const PAGE_SIZE: usize = 4096;

/// A recoverable buffer-state error.
#[derive(Debug, PartialEq, Eq, Structural)]
pub enum BufError {
    /// A write would exceed the remaining free space.
    Full,
    /// A read asked for more bytes than are currently resident.
    Underflow,
}

/// Any failure a buffer operation can report.
#[derive(Debug, PartialEq, Eq, Structural)]
pub enum Error {
    /// An underlying platform call failed; carries the raw OS error number.
    /// Only operations that touch the platform (mapping a real memory
    /// region) can produce it; the in-memory operations here never do.
    Platform(i32),
    /// One of the buffer's own recoverable errors.
    Ours(BufError),
}

/// The read/write cursors of a ring buffer of fixed capacity.
///
/// `head` is the offset of the oldest unread byte, `tail` the offset at
/// which the next write begins, and `contents_size` the number of resident
/// bytes; all offsets are relative to a storage region of `capacity` bytes.
pub struct Cursors {
    pub capacity: usize,
    pub head: usize,
    pub tail: usize,
    pub contents_size: usize,
}

impl Cursors {
    /// Well-formedness: the capacity is a positive whole number of pages
    /// small enough that a doubled region still fits in the address space,
    /// both offsets are in bounds, and `tail` is exactly `head` advanced by
    /// the resident contents, modulo the capacity.
    pub open spec fn wf(self) -> bool {
        &&& PAGE_SIZE <= self.capacity
        &&& self.capacity % PAGE_SIZE == 0
        &&& self.capacity * 2 <= usize::MAX
        &&& self.head < self.capacity
        &&& self.tail < self.capacity
        &&& self.contents_size <= self.capacity
        &&& self.tail as int == (self.head + self.contents_size) % (self.capacity as int)
    }

    /// Fresh cursors over an empty buffer of `num_pages` pages.
    pub fn new(num_pages: usize) -> (r: Cursors)
        requires
            1 <= num_pages,
            num_pages * (2 * PAGE_SIZE) <= usize::MAX,
        ensures
            r.wf(),
            r.capacity == num_pages * PAGE_SIZE,
            r.head == 0,
            r.tail == 0,
            r.contents_size == 0,
    {
        proof {
            assert(num_pages * PAGE_SIZE * 2 == num_pages * (2 * PAGE_SIZE)) by (nonlinear_arith);
            assert(PAGE_SIZE <= num_pages * PAGE_SIZE) by (nonlinear_arith)
                requires
                    1 <= num_pages,
            ;
            lemma_mod_multiples_basic(num_pages as int, PAGE_SIZE as int);
        }
        let capacity = num_pages * PAGE_SIZE;
        proof {
            lemma_small_mod(0nat, capacity as nat);
        }
        Cursors { capacity, head: 0, tail: 0, contents_size: 0 }
    }

    /// Runtime check of the well-formedness invariant, for callers outside
    /// the verified world that must validate a value before relying on it.
    pub fn is_wf(&self) -> (r: bool)
        ensures
            r == self.wf(),
    {
        PAGE_SIZE <= self.capacity && self.capacity % PAGE_SIZE == 0
            && self.capacity <= usize::MAX / 2 && self.head < self.capacity
            && self.tail < self.capacity && self.contents_size <= self.capacity
            && self.tail == (self.head + self.contents_size) % self.capacity
    }

    /// Free space left for writing.
    pub open spec fn spec_space_left(self) -> int {
        self.capacity - self.contents_size
    }

    /// Grant an all-or-nothing write of `len` bytes: if they fit, return the
    /// offset at which the caller must copy them (the old `tail`) and
    /// advance the cursors; otherwise fail with `Full` and change nothing.
    pub fn grant_write(&mut self, len: usize) -> (r: Result<usize, Error>)
        requires
            old(self).wf(),
        ensures
            final(self).wf(),
            final(self).capacity == old(self).capacity,
            len <= old(self).spec_space_left() ==> {
                &&& r == Ok::<usize, Error>(old(self).tail)
                &&& final(self).head == old(self).head
                &&& final(self).contents_size == old(self).contents_size + len
                &&& final(self).tail as int == (old(self).tail + len) % (
                old(self).capacity as int)
            },
            len > old(self).spec_space_left() ==> {
                &&& r == Err::<usize, Error>(Error::Ours(BufError::Full))
                &&& *final(self) == *old(self)
            },
    {
        if len > self.capacity - self.contents_size {
            return Err(Error::Ours(BufError::Full));
        }
        let offset = self.tail;
        let new_tail = (self.tail + len) % self.capacity;
        proof {
            let cap = self.capacity as int;
            lemma_mod_bound(self.tail + len, cap);
            lemma_add_mod_noop_right(len as int, self.head + self.contents_size, cap);
        }
        self.tail = new_tail;
        self.contents_size = self.contents_size + len;
        Ok(offset)
    }

    /// Grant an all-or-nothing read of `len` bytes: if that many are
    /// resident, return the offset at which the caller must copy them out
    /// (the old `head`) and advance the cursors; otherwise fail with
    /// `Underflow` and change nothing.
    pub fn grant_read(&mut self, len: usize) -> (r: Result<usize, Error>)
        requires
            old(self).wf(),
        ensures
            final(self).wf(),
            final(self).capacity == old(self).capacity,
            len <= old(self).contents_size ==> {
                &&& r == Ok::<usize, Error>(old(self).head)
                &&& final(self).tail == old(self).tail
                &&& final(self).contents_size == old(self).contents_size - len
                &&& final(self).head as int == (old(self).head + len) % (
                old(self).capacity as int)
            },
            len > old(self).contents_size ==> {
                &&& r == Err::<usize, Error>(Error::Ours(BufError::Underflow))
                &&& *final(self) == *old(self)
            },
    {
        if len > self.contents_size {
            return Err(Error::Ours(BufError::Underflow));
        }
        let offset = self.head;
        let new_head = (self.head + len) % self.capacity;
        proof {
            let cap = self.capacity as int;
            lemma_mod_bound(self.head + len, cap);
            lemma_add_mod_noop_right(
                self.contents_size - len,
                self.head + len,
                cap,
            );
        }
        self.head = new_head;
        self.contents_size = self.contents_size - len;
        Ok(offset)
    }
}

/// Physical position of logical offset `i` in a ring of size `cap` whose
/// region of interest starts at `start`.
pub open spec fn ring_index(start: int, i: int, cap: int) -> int {
    (start + i) % cap
}

/// Advancing by `a` and then by `b` lands where advancing by `a + b` does.
proof fn lemma_ring_index_add(start: int, a: int, b: int, cap: int)
    requires
        0 < cap,
    ensures
        ring_index(ring_index(start, a, cap), b, cap) == ring_index(start, a + b, cap),
{
    lemma_add_mod_noop_right(b, start + a, cap);
}

/// Distinct logical offsets within one ring's span occupy distinct
/// physical positions.
proof fn lemma_ring_index_injective(start: int, a: int, b: int, cap: int)
    requires
        0 < cap,
        0 <= a < cap,
        0 <= b < cap,
        a != b,
    ensures
        ring_index(start, a, cap) != ring_index(start, b, cap),
{
    if ring_index(start, a, cap) == ring_index(start, b, cap) {
        lemma_mod_equivalence(start + a, start + b, cap);
        assert(((start + a) - (start + b)) % cap == 0);
        if a > b {
            lemma_small_mod((a - b) as nat, cap as nat);
        } else {
            lemma_mod_equivalence(start + b, start + a, cap);
            lemma_small_mod((b - a) as nat, cap as nat);
        }
        assert(false);
    }
}

/// Whether physical position `k` is touched when `n` bytes are laid down
/// starting at logical offset zero of a write that begins at `start`.
spec fn ring_written(start: int, n: int, cap: int, k: int) -> bool {
    exists|j: int| 0 <= j < n && k == ring_index(start, j, cap)
}

/// A fixed-capacity byte ring buffer with verified bookkeeping.
///
/// Storage is a flat region of `capacity` bytes; the resident contents are
/// the `contents_size` bytes that start at `head` and wrap at the region's
/// end onto its beginning.
pub struct RingBuf {
    pub storage: Vec<u8>,
    pub cur: Cursors,
}

impl RingBuf {
    /// Well-formedness: the cursors are well formed and the storage region
    /// is exactly `capacity` bytes.
    pub open spec fn wf(self) -> bool {
        &&& self.cur.wf()
        &&& self.storage@.len() == self.cur.capacity
    }

    /// The resident bytes, oldest first.
    pub open spec fn contents(self) -> Seq<u8> {
        Seq::new(
            self.cur.contents_size as nat,
            |i: int|
                self.storage@[ring_index(
                    self.cur.head as int,
                    i,
                    self.cur.capacity as int,
                )],
        )
    }

    /// A fresh, empty buffer over `num_pages` pages of zeroed storage.
    pub fn new(num_pages: usize) -> (r: Result<RingBuf, Error>)
        requires
            1 <= num_pages,
            num_pages * (2 * PAGE_SIZE) <= usize::MAX,
        ensures
            r is Ok,
            r matches Ok(b) ==> {
                &&& b.wf()
                &&& b.cur.capacity == num_pages * PAGE_SIZE
                &&& b.cur.head == 0
                &&& b.cur.tail == 0
                &&& b.contents() == Seq::<u8>::empty()
            },
    {
        let cur = Cursors::new(num_pages);
        let mut storage: Vec<u8> = Vec::new();
        while storage.len() < cur.capacity
            invariant
                storage@.len() <= cur.capacity,
            decreases cur.capacity - storage@.len(),
        {
            storage.push(0u8);
        }
        let b = RingBuf { storage, cur };
        proof {
            assert(b.contents() =~= Seq::<u8>::empty());
        }
        Ok(b)
    }

    /// Write `raw` after the current contents, all or nothing: if it fits
    /// in the free space the contents are extended by exactly `raw` and
    /// `tail` advances; otherwise the call fails with `Full` and the buffer
    /// is unchanged.
    pub fn write(&mut self, raw: &[u8]) -> (r: Result<(), Error>)
        requires
            old(self).wf(),
        ensures
            final(self).wf(),
            final(self).cur.capacity == old(self).cur.capacity,
            raw@.len() <= old(self).cur.spec_space_left() ==> {
                &&& r == Ok::<(), Error>(())
                &&& final(self).contents() == old(self).contents() + raw@
                &&& final(self).cur.head == old(self).cur.head
                &&& final(self).cur.contents_size == old(self).cur.contents_size
                    + raw@.len()
                &&& final(self).cur.tail as int == ring_index(
                    old(self).cur.tail as int,
                    raw@.len() as int,
                    old(self).cur.capacity as int,
                )
            },
            raw@.len() > old(self).cur.spec_space_left() ==> {
                &&& r == Err::<(), Error>(Error::Ours(BufError::Full))
                &&& *final(self) == *old(self)
            },
    {
        let ghost pre = *old(self);
        let len = raw.len();
        if len > self.cur.capacity - self.cur.contents_size {
            return Err(Error::Ours(BufError::Full));
        }
        let offset = match self.cur.grant_write(len) {
            Ok(o) => o,
            Err(e) => {
                return Err(e);
            },
        };
        let ghost cur1 = self.cur;
        let ghost s0 = self.storage@;
        let ghost cap = cur1.capacity as int;
        let mut i: usize = 0;
        while i < len
            invariant
                i <= len,
                len == raw@.len(),
                self.cur == cur1,
                offset < cur1.capacity,
                len <= cur1.capacity,
                cur1.capacity * 2 <= usize::MAX,
                self.storage@.len() == cur1.capacity,
                cap == cur1.capacity as int,
                s0.len() == cur1.capacity,
                forall|j: int|
                    0 <= j < i ==> self.storage@[ring_index(offset as int, j, cap)]
                        == raw@[j],
                forall|k: int|
                    0 <= k < cap && !ring_written(offset as int, i as int, cap, k)
                        ==> self.storage@[k] == s0[k],
            decreases len - i,
        {
            proof {
                lemma_mod_bound(offset + i, cap);
            }
            let idx = (offset + i) % self.cur.capacity;
            let ghost s_before = self.storage@;
            self.storage.set(idx, raw[i]);
            proof {
                assert forall|j: int| 0 <= j < i implies ring_index(offset as int, j, cap)
                    != idx as int by {
                    lemma_ring_index_injective(offset as int, j, i as int, cap);
                }
                assert forall|k: int|
                    0 <= k < cap && !ring_written(offset as int, i + 1, cap, k) implies
                    self.storage@[k] == s0[k] by {
                    assert(!ring_written(offset as int, i as int, cap, k));
                    assert(idx as int == ring_index(offset as int, i as int, cap));
                    assert(k != idx as int);
                    assert(self.storage@[k] == s_before[k]);
                }
            }
            i = i + 1;
        }
        proof {
            let head = pre.cur.head as int;
            let cs0 = pre.cur.contents_size as int;
            assert forall|m: int| 0 <= m < cs0 + len implies self.contents()[m] == (
            pre.contents() + raw@)[m] by {
                lemma_ring_index_add(head, cs0, m - cs0, cap);
                if m < cs0 {
                    let pos = ring_index(head, m, cap);
                    lemma_mod_bound(head + m, cap);
                    assert forall|j: int| 0 <= j < len implies ring_index(
                        offset as int,
                        j,
                        cap,
                    ) != pos by {
                        lemma_ring_index_add(head, cs0, j, cap);
                        lemma_ring_index_injective(head, m, cs0 + j, cap);
                    }
                    assert(!ring_written(offset as int, len as int, cap, pos));
                } else {
                    assert(self.storage@[ring_index(offset as int, m - cs0, cap)]
                        == raw@[m - cs0]);
                }
            }
            assert(self.contents() =~= pre.contents() + raw@);
        }
        Ok(())
    }

    /// Read the `num_bytes` oldest bytes out of the buffer, all or nothing:
    /// if that many are resident they are returned in order and removed
    /// from the contents; otherwise the call fails with `Underflow` and the
    /// buffer is unchanged.
    pub fn read(&mut self, num_bytes: usize) -> (r: Result<Vec<u8>, Error>)
        requires
            old(self).wf(),
        ensures
            final(self).wf(),
            final(self).cur.capacity == old(self).cur.capacity,
            final(self).storage@ == old(self).storage@,
            num_bytes <= old(self).cur.contents_size ==> {
                &&& r is Ok
                &&& (r matches Ok(v) ==> v@ == old(self).contents().take(
                    num_bytes as int,
                ))
                &&& final(self).contents() == old(self).contents().skip(
                    num_bytes as int,
                )
                &&& final(self).cur.tail == old(self).cur.tail
                &&& final(self).cur.contents_size == old(self).cur.contents_size
                    - num_bytes
                &&& final(self).cur.head as int == ring_index(
                    old(self).cur.head as int,
                    num_bytes as int,
                    old(self).cur.capacity as int,
                )
            },
            num_bytes > old(self).cur.contents_size ==> {
                &&& r == Err::<Vec<u8>, Error>(Error::Ours(BufError::Underflow))
                &&& *final(self) == *old(self)
            },
    {
        let ghost pre = *old(self);
        if num_bytes > self.cur.contents_size {
            return Err(Error::Ours(BufError::Underflow));
        }
        let offset = match self.cur.grant_read(num_bytes) {
            Ok(o) => o,
            Err(e) => {
                return Err(e);
            },
        };
        let ghost cap = pre.cur.capacity as int;
        let ghost cur1 = self.cur;
        let mut out: Vec<u8> = Vec::new();
        let mut i: usize = 0;
        while i < num_bytes
            invariant
                i <= num_bytes,
                out@.len() == i,
                self.cur == cur1,
                cur1.capacity == pre.cur.capacity,
                self.storage@ == pre.storage@,
                offset == pre.cur.head,
                offset < pre.cur.capacity,
                num_bytes <= pre.cur.capacity,
                pre.cur.capacity * 2 <= usize::MAX,
                pre.storage@.len() == pre.cur.capacity,
                cap == pre.cur.capacity as int,
                forall|j: int|
                    0 <= j < i ==> out@[j] == pre.storage@[ring_index(
                        offset as int,
                        j,
                        cap,
                    )],
            decreases num_bytes - i,
        {
            proof {
                lemma_mod_bound(offset + i, cap);
            }
            let idx = (offset + i) % self.cur.capacity;
            let b = self.storage[idx];
            out.push(b);
            i = i + 1;
        }
        proof {
            let head = pre.cur.head as int;
            let nb = num_bytes as int;
            assert(out@ =~= pre.contents().take(nb));
            assert forall|m: int| 0 <= m < pre.cur.contents_size - nb implies self
                .contents()[m] == pre.contents().skip(nb)[m] by {
                lemma_ring_index_add(head, nb, m, cap);
            }
            assert(self.contents() =~= pre.contents().skip(nb));
        }
        Ok(out)
    }

    /// Write the little-endian byte image of a fixed-size 64-bit value.
    /// Adds no failure mode beyond those of the byte-level `write`.
    pub fn write_typed(&mut self, value: u64) -> (r: Result<(), Error>)
        requires
            old(self).wf(),
        ensures
            final(self).wf(),
            final(self).cur.capacity == old(self).cur.capacity,
            8 <= old(self).cur.spec_space_left() ==> {
                &&& r == Ok::<(), Error>(())
                &&& final(self).contents() == old(self).contents() + u64_le_bytes(
                    value,
                )
                &&& final(self).cur.head == old(self).cur.head
                &&& final(self).cur.contents_size == old(self).cur.contents_size + 8
            },
            8 > old(self).cur.spec_space_left() ==> {
                &&& r == Err::<(), Error>(Error::Ours(BufError::Full))
                &&& *final(self) == *old(self)
            },
    {
        proof {
            assert((value & 0xff) <= 0xff && ((value >> 8) & 0xff) <= 0xff && ((value
                >> 16) & 0xff) <= 0xff && ((value >> 24) & 0xff) <= 0xff && ((value
                >> 32) & 0xff) <= 0xff && ((value >> 40) & 0xff) <= 0xff && ((value
                >> 48) & 0xff) <= 0xff && ((value >> 56) & 0xff) <= 0xff)
                by (bit_vector);
        }
        let mut bytes: Vec<u8> = Vec::new();
        bytes.push((value & 0xff) as u8);
        bytes.push(((value >> 8) & 0xff) as u8);
        bytes.push(((value >> 16) & 0xff) as u8);
        bytes.push(((value >> 24) & 0xff) as u8);
        bytes.push(((value >> 32) & 0xff) as u8);
        bytes.push(((value >> 40) & 0xff) as u8);
        bytes.push(((value >> 48) & 0xff) as u8);
        bytes.push(((value >> 56) & 0xff) as u8);
        proof {
            assert(bytes@ =~= u64_le_bytes(value));
        }
        self.write(bytes.as_slice())
    }

    /// Read back a fixed-size 64-bit value from its little-endian byte
    /// image at the front of the contents. Adds no failure mode beyond
    /// those of the byte-level `read`.
    pub fn read_typed(&mut self) -> (r: Result<u64, Error>)
        requires
            old(self).wf(),
        ensures
            final(self).wf(),
            final(self).cur.capacity == old(self).cur.capacity,
            8 <= old(self).cur.contents_size ==> {
                &&& r == Ok::<u64, Error>(u64_from_le_bytes(
                    old(self).contents().take(8),
                ))
                &&& final(self).contents() == old(self).contents().skip(8)
                &&& final(self).cur.tail == old(self).cur.tail
                &&& final(self).cur.contents_size == old(self).cur.contents_size - 8
            },
            8 > old(self).cur.contents_size ==> {
                &&& r == Err::<u64, Error>(Error::Ours(BufError::Underflow))
                &&& *final(self) == *old(self)
            },
    {
        let bytes = match self.read(8) {
            Ok(v) => v,
            Err(e) => {
                return Err(e);
            },
        };
        let value = (bytes[0] as u64) | ((bytes[1] as u64) << 8u64) | ((bytes[2]
            as u64) << 16u64) | ((bytes[3] as u64) << 24u64) | ((bytes[4] as u64)
            << 32u64) | ((bytes[5] as u64) << 40u64) | ((bytes[6] as u64) << 48u64)
            | ((bytes[7] as u64) << 56u64);
        Ok(value)
    }

    /// Total byte capacity of the buffer.
    pub fn capacity(&self) -> (r: usize)
        ensures
            r == self.cur.capacity,
    {
        self.cur.capacity
    }

    /// Offset of the oldest unread byte.
    pub fn head(&self) -> (r: usize)
        ensures
            r == self.cur.head,
    {
        self.cur.head
    }

    /// Offset at which the next write begins.
    pub fn tail(&self) -> (r: usize)
        ensures
            r == self.cur.tail,
    {
        self.cur.tail
    }

    /// Number of resident, unread bytes.
    pub fn contents_size(&self) -> (r: usize)
        ensures
            r == self.cur.contents_size,
    {
        self.cur.contents_size
    }
}

/// Little-endian byte image of a 64-bit value.
pub open spec fn u64_le_bytes(v: u64) -> Seq<u8> {
    seq![
        (v & 0xff) as u8,
        ((v >> 8) & 0xff) as u8,
        ((v >> 16) & 0xff) as u8,
        ((v >> 24) & 0xff) as u8,
        ((v >> 32) & 0xff) as u8,
        ((v >> 40) & 0xff) as u8,
        ((v >> 48) & 0xff) as u8,
        ((v >> 56) & 0xff) as u8,
    ]
}

/// The 64-bit value whose little-endian byte image is `s`.
pub open spec fn u64_from_le_bytes(s: Seq<u8>) -> u64
    recommends
        s.len() == 8,
{
    (s[0] as u64) | ((s[1] as u64) << 8u64) | ((s[2] as u64) << 16u64) | ((s[3]
        as u64) << 24u64) | ((s[4] as u64) << 32u64) | ((s[5] as u64) << 40u64) | ((
    s[6] as u64) << 48u64) | ((s[7] as u64) << 56u64)
}

impl BufError {
    /// A fixed description of the error.
    pub fn message(&self) -> (r: &'static str)
        ensures
            self is Full ==> r@ == "Not enough buffer space!"@,
            self is Underflow ==> r@ == "Not enough bytes in the buffer!"@,
    {
        match self {
            BufError::Full => "Not enough buffer space!",
            BufError::Underflow => "Not enough bytes in the buffer!",
        }
    }
}

impl Error {
    /// A fixed description of the error.
    pub fn message(&self) -> (r: &'static str)
        ensures
            self is Platform ==> r@ == "A platform call failed!"@,
            self matches Error::Ours(e) ==> {
                &&& (e is Full ==> r@ == "Not enough buffer space!"@)
                &&& (e is Underflow ==> r@ == "Not enough bytes in the buffer!"@)
            },
    {
        match self {
            Error::Platform(_) => "A platform call failed!",
            Error::Ours(e) => e.message(),
        }
    }
}

impl core::convert::From<BufError> for Error {
    /// Wrap a recoverable buffer error as the general error type.
    fn from(v: BufError) -> (r: Error) {
        Error::Ours(v)
    }
}

impl vstd::std_specs::convert::FromSpecImpl<BufError> for Error {
    open spec fn obeys_from_spec() -> bool {
        true
    }

    open spec fn from_spec(v: BufError) -> Error {
        Error::Ours(v)
    }
}

} // verus!
