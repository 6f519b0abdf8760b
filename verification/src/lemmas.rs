//! What holds between writes and reads, and of any sequence of them.

use vstd::prelude::*;
use crate::encoding::{
    be_bytes, lemma_be_bytes_len, lemma_decode_encode, lemma_encode_decode, pow256,
};
use crate::reader::ReadState;
use crate::writer::WriteState;

verus! {

/// The state a reader is in when it starts where a writer stood before a
/// write, over the region as the write left it.
pub open spec fn read_back(before: WriteState, after: WriteState) -> ReadState {
    ReadState { region: after.region, position: before.position }
}

/// A number that fits in `width` bytes and is written where the region has
/// at least `width` bytes left is read back unchanged from the same offset,
/// and the reader then stands where the writer stands.
pub proof fn lemma_round_trip(start: WriteState, v: nat, width: nat)
    requires
        v < pow256(width),
        start.position + width <= start.region.len(),
    ensures
        read_back(start, start.put(be_bytes(v, width))).get(width) == Some(v),
        read_back(start, start.put(be_bytes(v, width))).after_get(width).position
            == start.put(be_bytes(v, width)).position,
{
    let bytes = be_bytes(v, width);
    let reader = read_back(start, start.put(bytes));
    lemma_be_bytes_len(v, width);
    lemma_decode_encode(v, width);
    assert(reader.window(width) =~= bytes);
}

/// Every `u8` written where the region has one byte left is read
/// back as it was.
pub proof fn lemma_round_trip_u8(start: WriteState, x: u8)
    requires
        start.position + 1 <= start.region.len(),
    ensures
        read_back(start, start.put(be_bytes(x as nat, 1))).get(1) == Some(x as nat),
{
    reveal_with_fuel(pow256, 2);
    lemma_round_trip(start, x as nat, 1);
}

/// Every `u16` written where the region has two bytes left is read
/// back as it was.
pub proof fn lemma_round_trip_u16(start: WriteState, x: u16)
    requires
        start.position + 2 <= start.region.len(),
    ensures
        read_back(start, start.put(be_bytes(x as nat, 2))).get(2) == Some(x as nat),
{
    reveal_with_fuel(pow256, 3);
    lemma_round_trip(start, x as nat, 2);
}

/// Every `u32` written where the region has four bytes left is read
/// back as it was.
pub proof fn lemma_round_trip_u32(start: WriteState, x: u32)
    requires
        start.position + 4 <= start.region.len(),
    ensures
        read_back(start, start.put(be_bytes(x as nat, 4))).get(4) == Some(x as nat),
{
    reveal_with_fuel(pow256, 5);
    lemma_round_trip(start, x as nat, 4);
}

/// Every `u64` written where the region has eight bytes left is read
/// back as it was.
pub proof fn lemma_round_trip_u64(start: WriteState, x: u64)
    requires
        start.position + 8 <= start.region.len(),
    ensures
        read_back(start, start.put(be_bytes(x as nat, 8))).get(8) == Some(x as nat),
{
    reveal_with_fuel(pow256, 9);
    lemma_round_trip(start, x as nat, 8);
}

/// The state a writer is in when it starts where a reader stands, over the
/// reader's region.
pub open spec fn write_over(reader: ReadState) -> WriteState {
    WriteState { region: reader.region, position: reader.position }
}

/// Writing the number that a read of `width` bytes yields back to the offset
/// it was read from leaves the region as it was.
pub proof fn lemma_write_back(start: ReadState, width: nat)
    requires
        start.position + width <= start.region.len(),
    ensures
        start.get(width).is_some(),
        write_over(start).put(be_bytes(start.get(width).unwrap(), width)).region == start.region,
{
    let window = start.window(width);
    lemma_encode_decode(window);
    assert(write_over(start).put(window).region =~= start.region);
}

/// A write touches only the bytes from the position on that it stores: the
/// region keeps its length, and every other byte stays as it was.
pub proof fn lemma_put_frame(start: WriteState, bytes: Seq<u8>)
    ensures
        start.put(bytes).region.len() == start.region.len(),
        forall|i: int|
            0 <= i < start.region.len() && !(start.position <= i < start.position
                + start.accepted(bytes.len())) ==> start.put(bytes).region[i] == start.region[i],
        forall|i: int|
            0 <= i < start.accepted(bytes.len()) ==> start.put(bytes).region[start.position + i]
                == bytes[i],
{
}

/// The state after the writes `writes`, made in order.
pub open spec fn put_all(start: WriteState, writes: Seq<Seq<u8>>) -> WriteState
    decreases writes.len(),
{
    if writes.len() == 0 {
        start
    } else {
        put_all(start, writes.drop_last()).put(writes.last())
    }
}

/// The sum of the lengths of `writes`.
pub open spec fn total_len(writes: Seq<Seq<u8>>) -> nat
    decreases writes.len(),
{
    if writes.len() == 0 {
        0
    } else {
        total_len(writes.drop_last()) + writes.last().len()
    }
}

/// After any sequence of writes the position has not gone back, and it has
/// moved on by the sum of the widths asked for, whatever was truncated.
pub proof fn lemma_write_position(start: WriteState, writes: Seq<Seq<u8>>)
    ensures
        put_all(start, writes).position == start.position + total_len(writes),
        put_all(start, writes).position >= start.position,
        put_all(start, writes).region.len() == start.region.len(),
    decreases writes.len(),
{
    if writes.len() > 0 {
        lemma_write_position(start, writes.drop_last());
    }
}

/// The state after reads of the widths `widths`, made in order.
pub open spec fn get_all(start: ReadState, widths: Seq<nat>) -> ReadState
    decreases widths.len(),
{
    if widths.len() == 0 {
        start
    } else {
        get_all(start, widths.drop_last()).after_get(widths.last())
    }
}

/// The sum of those of `widths` whose read, made in order from `start`,
/// finds enough bytes.
pub open spec fn consumed(start: ReadState, widths: Seq<nat>) -> nat
    decreases widths.len(),
{
    if widths.len() == 0 {
        0
    } else if get_all(start, widths.drop_last()).get(widths.last()).is_some() {
        consumed(start, widths.drop_last()) + widths.last()
    } else {
        consumed(start, widths.drop_last())
    }
}

/// After any sequence of reads the position has not gone back, it has moved
/// on by the sum of the widths of the reads that succeeded, the region is the
/// same, and a position within the region is still within it.
pub proof fn lemma_read_position(start: ReadState, widths: Seq<nat>)
    ensures
        get_all(start, widths).position == start.position + consumed(start, widths),
        get_all(start, widths).position >= start.position,
        get_all(start, widths).region == start.region,
        start.wf() ==> get_all(start, widths).wf(),
    decreases widths.len(),
{
    if widths.len() > 0 {
        lemma_read_position(start, widths.drop_last());
    }
}

} // verus!
