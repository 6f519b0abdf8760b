//! The read cursor and its model.

use vstd::prelude::*;
use crate::encoding::{be_value, lemma_shift_byte_u16, lemma_shift_byte_u32, lemma_shift_byte_u64};

verus! {

/// What a read cursor stands for: the bytes of its region and its offset.
pub struct ReadState {
    pub region: Seq<u8>,
    pub position: nat,
}

impl ReadState {
    /// The number of bytes of the region at or after the position.
    pub open spec fn remaining(self) -> nat {
        if self.position <= self.region.len() {
            (self.region.len() - self.position) as nat
        } else {
            0
        }
    }

    /// The position lies within the region or at its end.
    pub open spec fn wf(self) -> bool {
        self.position <= self.region.len()
    }

    /// How many of `width` bytes asked for can be had: all of them, or as
    /// many as remain.
    pub open spec fn available(self, width: nat) -> nat {
        if width <= self.remaining() {
            width
        } else {
            self.remaining()
        }
    }

    /// Whether `width` bytes remain from the position on.
    pub open spec fn can_get(self, width: nat) -> bool {
        self.position + width <= self.region.len()
    }

    /// The `width` bytes that start at the position.
    pub open spec fn window(self, width: nat) -> Seq<u8>
        recommends
            self.can_get(width),
    {
        self.region.subrange(self.position as int, (self.position + width) as int)
    }

    /// What a read of `width` bytes yields: the big-endian value of the
    /// window if that many bytes remain, and nothing otherwise.
    pub open spec fn get(self, width: nat) -> Option<nat> {
        if self.can_get(width) {
            Some(be_value(self.window(width)))
        } else {
            None
        }
    }

    /// The state after a read of `width` bytes: the position moves on by
    /// `width` if that many bytes remain, and nothing changes otherwise.
    pub open spec fn after_get(self, width: nat) -> ReadState {
        if self.can_get(width) {
            ReadState { region: self.region, position: self.position + width }
        } else {
            self
        }
    }
}

/// A cursor that reads big-endian unsigned integers from a borrowed region.
pub struct ByteBuf<'a> {
    pos: usize,
    buf: &'a [u8],
}

impl<'a> View for ByteBuf<'a> {
    type V = ReadState;

    closed spec fn view(&self) -> ReadState {
        ReadState { region: self.buf@, position: self.pos as nat }
    }
}

impl<'a> ByteBuf<'a> {
    #[verifier::type_invariant]
    spec fn in_region(self) -> bool {
        self.pos <= self.buf@.len()
    }

    /// A cursor at position 0 over `buf`.
    pub fn wrap(buf: &'a [u8]) -> (cursor: ByteBuf<'a>)
        ensures
            cursor@ == (ReadState { region: buf@, position: 0 }),
            cursor@.wf(),
    {
        ByteBuf { pos: 0, buf }
    }

    /// The current position, which never lies beyond the region.
    pub fn position(&self) -> (pos: usize)
        ensures
            pos == self@.position,
            self@.wf(),
    {
        proof {
            use_type_invariant(self);
        }
        self.pos
    }

    /// Reads one byte as a big-endian number and moves the position on by
    /// 1, if that many bytes remain; otherwise reads nothing and leaves
    /// the position where it is.
    pub fn get_u8(&mut self) -> (r: Option<u8>)
        ensures
            final(self)@ == old(self)@.after_get(1),
            final(self)@.wf(),
            match r {
                Some(x) => old(self)@.get(1) == Some(x as nat),
                None => old(self)@.get(1).is_none(),
            },
    {
        proof {
            use_type_invariant(&*self);
            assert(self.buf.len() == self.buf@.len());
        }
        let n: usize = 1;
        let bytes = self.get_bytes(n);
        if bytes.len() == n {
            let x: u8 = bytes[0];
            proof {
                reveal_with_fuel(be_value, 2);
            }
            self.pos += n;
            Some(x)
        } else {
            None
        }
    }

    /// Reads two bytes as a big-endian number and moves the position on by
    /// 2, if that many bytes remain; otherwise reads nothing and leaves
    /// the position where it is.
    pub fn get_u16(&mut self) -> (r: Option<u16>)
        ensures
            final(self)@ == old(self)@.after_get(2),
            final(self)@.wf(),
            match r {
                Some(x) => old(self)@.get(2) == Some(x as nat),
                None => old(self)@.get(2).is_none(),
            },
    {
        proof {
            use_type_invariant(&*self);
            assert(self.buf.len() == self.buf@.len());
        }
        let n: usize = 2;
        let bytes = self.get_bytes(n);
        if bytes.len() == n {
            proof {
                lemma_shift_byte_u16(bytes[0] as u16);
                reveal_with_fuel(be_value, 3);
            }
            let x: u16 = ((bytes[0] as u16) << 8) + bytes[1] as u16;
            self.pos += n;
            Some(x)
        } else {
            None
        }
    }

    /// Reads four bytes as a big-endian number and moves the position on by
    /// 4, if that many bytes remain; otherwise reads nothing and leaves
    /// the position where it is.
    pub fn get_u32(&mut self) -> (r: Option<u32>)
        ensures
            final(self)@ == old(self)@.after_get(4),
            final(self)@.wf(),
            match r {
                Some(x) => old(self)@.get(4) == Some(x as nat),
                None => old(self)@.get(4).is_none(),
            },
    {
        proof {
            use_type_invariant(&*self);
            assert(self.buf.len() == self.buf@.len());
        }
        let n: usize = 4;
        let bytes = self.get_bytes(n);
        if bytes.len() == n {
            proof {
                lemma_shift_byte_u32(bytes[0] as u32);
                lemma_shift_byte_u32(bytes[1] as u32);
                lemma_shift_byte_u32(bytes[2] as u32);
                reveal_with_fuel(be_value, 5);
            }
            let x: u32 = ((bytes[0] as u32) << 24) + ((bytes[1] as u32) << 16) + ((bytes[2] as u32)
                << 8) + bytes[3] as u32;
            self.pos += n;
            Some(x)
        } else {
            None
        }
    }

    /// Reads eight bytes as a big-endian number and moves the position on by
    /// 8, if that many bytes remain; otherwise reads nothing and leaves
    /// the position where it is.
    pub fn get_u64(&mut self) -> (r: Option<u64>)
        ensures
            final(self)@ == old(self)@.after_get(8),
            final(self)@.wf(),
            match r {
                Some(x) => old(self)@.get(8) == Some(x as nat),
                None => old(self)@.get(8).is_none(),
            },
    {
        proof {
            use_type_invariant(&*self);
            assert(self.buf.len() == self.buf@.len());
        }
        let n: usize = 8;
        let bytes = self.get_bytes(n);
        if bytes.len() == n {
            proof {
                lemma_shift_byte_u64(bytes[0] as u64);
                lemma_shift_byte_u64(bytes[1] as u64);
                lemma_shift_byte_u64(bytes[2] as u64);
                lemma_shift_byte_u64(bytes[3] as u64);
                lemma_shift_byte_u64(bytes[4] as u64);
                lemma_shift_byte_u64(bytes[5] as u64);
                lemma_shift_byte_u64(bytes[6] as u64);
                reveal_with_fuel(be_value, 9);
            }
            let x: u64 = ((bytes[0] as u64) << 56) + ((bytes[1] as u64) << 48) + ((bytes[2] as u64)
                << 40) + ((bytes[3] as u64) << 32) + ((bytes[4] as u64) << 24) + ((bytes[5] as u64)
                << 16) + ((bytes[6] as u64) << 8) + bytes[7] as u64;
            self.pos += n;
            Some(x)
        } else {
            None
        }
    }

    /// The next `n` bytes, or all that remain where fewer than `n` do.
    fn get_bytes(&self, n: usize) -> (bytes: &'a [u8])
        ensures
            bytes@ == self@.window(self@.available(n as nat)),
            bytes@.len() == self@.available(n as nat),
    {
        proof {
            use_type_invariant(self);
        }
        let at: usize = self.pos;
        let room: usize = self.buf.len() - at;
        let to: usize = if n <= room { at + n } else { self.buf.len() };
        vstd::slice::slice_subrange(self.buf, at, to)
    }
}

} // verus!
