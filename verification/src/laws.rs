//! Laws that span several buffer operations, stated and proved over the
//! same sequence model that the operations' contracts use: `write` extends
//! the contents by the written bytes when they fit, `read` takes and drops
//! the oldest bytes when enough are resident, and a failed operation
//! changes nothing.

use crate::ringbuf::u64_from_le_bytes;
use crate::ringbuf::u64_le_bytes;
use vstd::prelude::*;

verus! {

/// One buffer operation: a write of the given bytes, or a read of the
/// given number of bytes.
pub enum BufOp {
    Write(Seq<u8>),
    Read(nat),
}

/// Whether one operation succeeds on contents `c` under capacity `cap`.
pub open spec fn op_succeeds(c: Seq<u8>, cap: nat, op: BufOp) -> bool {
    match op {
        BufOp::Write(data) => c.len() + data.len() <= cap,
        BufOp::Read(n) => n <= c.len(),
    }
}

/// The contents after one all-or-nothing operation: a write that fits
/// appends its bytes, a read that is covered drops the oldest bytes, and a
/// failing operation leaves the contents unchanged.
pub open spec fn apply_op(c: Seq<u8>, cap: nat, op: BufOp) -> Seq<u8> {
    match op {
        BufOp::Write(data) => if c.len() + data.len() <= cap {
            c + data
        } else {
            c
        },
        BufOp::Read(n) => if n <= c.len() {
            c.skip(n as int)
        } else {
            c
        },
    }
}

/// The contents after a sequence of operations, applied in order.
pub open spec fn apply_ops(c: Seq<u8>, cap: nat, ops: Seq<BufOp>) -> Seq<u8>
    decreases ops.len(),
{
    if ops.len() == 0 {
        c
    } else {
        apply_ops(apply_op(c, cap, ops[0]), cap, ops.skip(1))
    }
}

/// Whether every operation of the sequence succeeds on the state it meets.
pub open spec fn all_succeed(c: Seq<u8>, cap: nat, ops: Seq<BufOp>) -> bool
    decreases ops.len(),
{
    ops.len() == 0 || (op_succeeds(c, cap, ops[0]) && all_succeed(
        apply_op(c, cap, ops[0]),
        cap,
        ops.skip(1),
    ))
}

/// Total bytes the writes of the sequence carry.
pub open spec fn total_written(ops: Seq<BufOp>) -> nat
    decreases ops.len(),
{
    if ops.len() == 0 {
        0
    } else {
        (match ops[0] {
            BufOp::Write(data) => data.len(),
            BufOp::Read(_) => 0,
        }) + total_written(ops.skip(1))
    }
}

/// Total bytes the reads of the sequence consume.
pub open spec fn total_read(ops: Seq<BufOp>) -> nat
    decreases ops.len(),
{
    if ops.len() == 0 {
        0
    } else {
        (match ops[0] {
            BufOp::Write(_) => 0,
            BufOp::Read(n) => n,
        }) + total_read(ops.skip(1))
    }
}

/// Capacity conservation: over any sequence of successful writes and
/// reads, the resident size afterwards equals the starting size plus the
/// total bytes written minus the total bytes read, and never exceeds the
/// capacity. Every intermediate state is the result of applying a prefix
/// of the sequence, so this lemma also bounds each intermediate size.
pub proof fn lemma_capacity_conservation(c: Seq<u8>, cap: nat, ops: Seq<BufOp>)
    requires
        c.len() <= cap,
        all_succeed(c, cap, ops),
    ensures
        apply_ops(c, cap, ops).len() + total_read(ops) == c.len() + total_written(
            ops,
        ),
        apply_ops(c, cap, ops).len() <= cap,
    decreases ops.len(),
{
    if ops.len() > 0 {
        lemma_capacity_conservation(apply_op(c, cap, ops[0]), cap, ops.skip(1));
    }
}

/// Round-trip: a byte sequence that fits the capacity, written into an
/// empty buffer, is read back exactly by a read of its length, which
/// leaves the buffer empty again.
pub proof fn lemma_round_trip(c: Seq<u8>, cap: nat, s: Seq<u8>)
    requires
        c.len() == 0,
        s.len() <= cap,
    ensures
        op_succeeds(c, cap, BufOp::Write(s)),
        apply_op(c, cap, BufOp::Write(s)).take(s.len() as int) == s,
        op_succeeds(apply_op(c, cap, BufOp::Write(s)), cap, BufOp::Read(s.len())),
        apply_op(apply_op(c, cap, BufOp::Write(s)), cap, BufOp::Read(s.len()))
            == Seq::<u8>::empty(),
{
    assert((c + s).take(s.len() as int) =~= s);
    assert((c + s).skip(s.len() as int) =~= Seq::<u8>::empty());
}

/// Exact fit: a write of exactly the free space succeeds and fills the
/// buffer to capacity, and any further write of at least one byte then
/// fails.
pub proof fn lemma_exact_fit(c: Seq<u8>, cap: nat, s: Seq<u8>, t: Seq<u8>)
    requires
        c.len() <= cap,
        s.len() == cap - c.len(),
        t.len() >= 1,
    ensures
        op_succeeds(c, cap, BufOp::Write(s)),
        apply_op(c, cap, BufOp::Write(s)).len() == cap,
        !op_succeeds(apply_op(c, cap, BufOp::Write(s)), cap, BufOp::Write(t)),
{
}

/// Typed round-trip: decoding the little-endian byte image of a 64-bit
/// value yields the value back, bit for bit.
pub proof fn lemma_typed_round_trip(v: u64)
    ensures
        u64_from_le_bytes(u64_le_bytes(v)) == v,
{
    let s = u64_le_bytes(v);
    assert(s[0] == (v & 0xff) as u8);
    assert(s[1] == ((v >> 8) & 0xff) as u8);
    assert(s[2] == ((v >> 16) & 0xff) as u8);
    assert(s[3] == ((v >> 24) & 0xff) as u8);
    assert(s[4] == ((v >> 32) & 0xff) as u8);
    assert(s[5] == ((v >> 40) & 0xff) as u8);
    assert(s[6] == ((v >> 48) & 0xff) as u8);
    assert(s[7] == ((v >> 56) & 0xff) as u8);
    assert(((v & 0xff) as u8 as u64) | ((((v >> 8) & 0xff) as u8 as u64) << 8u64)
        | ((((v >> 16) & 0xff) as u8 as u64) << 16u64) | ((((v >> 24) & 0xff)
        as u8 as u64) << 24u64) | ((((v >> 32) & 0xff) as u8 as u64) << 32u64) | ((
    ((v >> 40) & 0xff) as u8 as u64) << 40u64) | ((((v >> 48) & 0xff) as u8
        as u64) << 48u64) | ((((v >> 56) & 0xff) as u8 as u64) << 56u64) == v)
        by (bit_vector);
}

} // verus!
