//! The write cursor and its model.

use vstd::prelude::*;
use crate::encoding::{be_bytes, get_bytes_u16, get_bytes_u32, get_bytes_u64};

verus! {

/// What a write cursor stands for: the bytes of its region and its offset.
pub struct WriteState {
    pub region: Seq<u8>,
    pub position: nat,
}

impl WriteState {
    /// The number of bytes of the region at or after the position.
    pub open spec fn room(self) -> nat {
        if self.position <= self.region.len() {
            (self.region.len() - self.position) as nat
        } else {
            0
        }
    }

    /// How many bytes of a write of `width` bytes are stored.
    pub open spec fn accepted(self, width: nat) -> nat {
        if width <= self.room() {
            width
        } else {
            self.room()
        }
    }

    /// The state after a write of `bytes`: the leading bytes that fit replace
    /// the region's bytes from the position on, and the position moves on by
    /// the full length of `bytes`, whether or not all of them fit.
    pub open spec fn put(self, bytes: Seq<u8>) -> WriteState {
        WriteState {
            region: Seq::new(
                self.region.len(),
                |i: int|
                    if self.position <= i < self.position + bytes.len() {
                        bytes[i - self.position]
                    } else {
                        self.region[i]
                    },
            ),
            position: self.position + bytes.len(),
        }
    }
}

/// A cursor that writes big-endian unsigned integers into a borrowed region.
///
/// The cursor never owns or resizes the region. Its view is the region as it
/// stands now together with the position; `borrowed` is the borrow itself,
/// and every write keeps it, so that what the lender finds in the end is
/// what the last write left (`lemma_released`).
pub struct ByteBufMut<'a> {
    pos: usize,
    buf: &'a mut [u8],
}

impl<'a> View for ByteBufMut<'a> {
    type V = WriteState;

    closed spec fn view(&self) -> WriteState {
        WriteState { region: self.buf@, position: self.pos as nat }
    }
}

impl<'a> ByteBufMut<'a> {
    /// The mutable borrow that the cursor holds.
    pub closed spec fn borrowed(self) -> &'a mut [u8] {
        self.buf
    }

    /// Once the cursor is no longer used, the lender's region holds what the
    /// cursor's region held last. A caller that reads the region afterwards
    /// calls this after its last use of the cursor.
    pub proof fn lemma_released(self)
        requires
            has_resolved(self),
        ensures
            final(self.borrowed())@ == self@.region,
    {
    }

    /// A cursor at position 0 over `buf`, which lends its bytes until the
    /// cursor is released.
    pub fn wrap(buf: &'a mut [u8]) -> (cursor: ByteBufMut<'a>)
        ensures
            cursor@ == (WriteState { region: old(buf)@, position: 0 }),
            final(cursor.borrowed())@ == final(buf)@,
    {
        ByteBufMut { pos: 0, buf }
    }

    /// The current position: the sum of the widths of all writes so far.
    pub fn position(&self) -> (pos: usize)
        ensures
            pos == self@.position,
    {
        self.pos
    }

    /// Writes `x` as one byte, most significant first, as far as the region
    /// has room, and moves the position on by 1. Returns the number of
    /// bytes stored.
    pub fn put_u8(&mut self, x: u8) -> (n: usize)
        requires
            old(self)@.position + 1 <= usize::MAX,
        ensures
            n == old(self)@.accepted(1),
            final(self)@ == old(self)@.put(be_bytes(x as nat, 1)),
            final(self)@.position == old(self)@.position + 1,
            final(final(self).borrowed())@ == final(old(self).borrowed())@,
    {
        let bytes: [u8; 1] = [x];
        proof {
            reveal_with_fuel(be_bytes, 2);
            assert(bytes@ =~= be_bytes(x as nat, 1));
        }
        self.put_bytes(bytes.as_slice())
    }

    /// Writes `x` as two bytes, most significant first, as far as the region
    /// has room, and moves the position on by 2. Returns the number of
    /// bytes stored.
    pub fn put_u16(&mut self, x: u16) -> (n: usize)
        requires
            old(self)@.position + 2 <= usize::MAX,
        ensures
            n == old(self)@.accepted(2),
            final(self)@ == old(self)@.put(be_bytes(x as nat, 2)),
            final(self)@.position == old(self)@.position + 2,
            final(final(self).borrowed())@ == final(old(self).borrowed())@,
    {
        let bytes = get_bytes_u16(x);
        self.put_bytes(bytes.as_slice())
    }

    /// Writes `x` as four bytes, most significant first, as far as the region
    /// has room, and moves the position on by 4. Returns the number of
    /// bytes stored.
    pub fn put_u32(&mut self, x: u32) -> (n: usize)
        requires
            old(self)@.position + 4 <= usize::MAX,
        ensures
            n == old(self)@.accepted(4),
            final(self)@ == old(self)@.put(be_bytes(x as nat, 4)),
            final(self)@.position == old(self)@.position + 4,
            final(final(self).borrowed())@ == final(old(self).borrowed())@,
    {
        let bytes = get_bytes_u32(x);
        self.put_bytes(bytes.as_slice())
    }

    /// Writes `x` as eight bytes, most significant first, as far as the region
    /// has room, and moves the position on by 8. Returns the number of
    /// bytes stored.
    pub fn put_u64(&mut self, x: u64) -> (n: usize)
        requires
            old(self)@.position + 8 <= usize::MAX,
        ensures
            n == old(self)@.accepted(8),
            final(self)@ == old(self)@.put(be_bytes(x as nat, 8)),
            final(self)@.position == old(self)@.position + 8,
            final(final(self).borrowed())@ == final(old(self).borrowed())@,
    {
        let bytes = get_bytes_u64(x);
        self.put_bytes(bytes.as_slice())
    }

    /// Stores the leading bytes of `bytes` that fit from the position on, and
    /// moves the position on by the length of `bytes`. Returns the number of
    /// bytes stored.
    fn put_bytes(&mut self, bytes: &[u8]) -> (n: usize)
        requires
            old(self)@.position + bytes@.len() <= usize::MAX,
        ensures
            n == old(self)@.accepted(bytes@.len()),
            final(self)@ == old(self)@.put(bytes@),
            final(final(self).borrowed())@ == final(old(self).borrowed())@,
    {
        let start: usize = self.pos;
        let mut i: usize = 0;
        while i < bytes.len() && start + i < self.buf.len()
            invariant
                i <= bytes@.len(),
                start + bytes@.len() <= usize::MAX,
                start == old(self)@.position,
                self.pos == start,
                i <= old(self)@.room(),
                self.buf@.len() == old(self)@.region.len(),
                forall|k: int|
                    0 <= k < self.buf@.len() ==> self.buf@[k] == (if start <= k < start + i {
                        bytes@[k - start]
                    } else {
                        old(self)@.region[k]
                    }),
                final(self.buf)@ == final(old(self).buf)@,
            decreases bytes@.len() - i,
        {
            self.buf[start + i] = bytes[i];
            i += 1;
        }
        self.pos = start + bytes.len();
        proof {
            assert(self@.region =~= old(self)@.put(bytes@).region);
        }
        i
    }
}

} // verus!
