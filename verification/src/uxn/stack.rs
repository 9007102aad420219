use vstd::prelude::*;
use super::bytes::{high_byte, join_short, low_byte, short_from_bytes, short_high, short_low, wrap_u8};

verus! {

/// The abstract content of a stack: its 256 cells and its pointer.
pub struct StackState {
    pub data: Seq<u8>,
    pub sp: u8,
}

impl StackState {
    pub open spec fn wf(self) -> bool {
        self.data.len() == 256
    }

    /// The byte `offset` places below the top of the stack (offset 0 is the top).
    pub open spec fn byte_at(self, offset: int) -> u8 {
        self.data[wrap_u8(self.sp - 1 - offset) as int]
    }

    /// The short whose low byte lies `offset` places below the top.
    pub open spec fn short_at(self, offset: int) -> u16 {
        join_short(self.byte_at(offset + 1), self.byte_at(offset))
    }

    pub open spec fn push8(self, byte: u8) -> StackState {
        StackState { data: self.data.update(self.sp as int, byte), sp: wrap_u8(self.sp + 1) }
    }

    pub open spec fn push16(self, value: u16) -> StackState {
        self.push8(high_byte(value)).push8(low_byte(value))
    }

    pub open spec fn drop_bytes(self, count: int) -> StackState {
        StackState { data: self.data, sp: wrap_u8(self.sp - count) }
    }

    /// Removes `count` bytes unless the keep flag is set.
    pub open spec fn consume(self, count: int, is_keep: bool) -> StackState {
        if is_keep {
            self
        } else {
            self.drop_bytes(count)
        }
    }

    /// The cells below the pointer, bottom first.
    pub open spec fn contents(self) -> Seq<u8> {
        self.data.subrange(0, self.sp as int)
    }
}

/// Uxn stack: 256 byte cells addressed by a wrapping 8-bit pointer.
pub struct Stack {
    pub(crate) data: [u8; 256],
    pub(crate) sp: u8,
}

impl View for Stack {
    type V = StackState;

    closed spec fn view(&self) -> StackState {
        StackState { data: self.data@, sp: self.sp }
    }
}

impl Stack {
    /// Every stack has exactly 256 cells.
    pub proof fn lemma_wf(&self)
        ensures
            self@.wf(),
    {
    }

    /// Writes `byte` at the pointer and advances the pointer (wrapping).
    pub fn push_u8(&mut self, byte: u8)
        ensures
            final(self)@ == old(self)@.push8(byte),
    {
        self.data[self.sp as usize] = byte;
        self.sp = self.sp.wrapping_add(1);
    }

    /// Pushes the high byte, then the low byte of `value`.
    pub fn push_u16(&mut self, value: u16)
        ensures
            final(self)@ == old(self)@.push16(value),
    {
        self.push_u8(short_high(value));
        self.push_u8(short_low(value));
    }

    /// Moves the pointer down one cell and returns the byte found there.
    pub fn pop_u8(&mut self) -> (byte: u8)
        ensures
            byte == old(self)@.byte_at(0),
            final(self)@ == old(self)@.drop_bytes(1),
    {
        self.sp = self.sp.wrapping_sub(1);
        self.data[self.sp as usize]
    }

    pub fn peek_u8(&self) -> (byte: u8)
        ensures
            byte == self@.byte_at(0),
    {
        self.data[self.sp.wrapping_sub(1) as usize]
    }

    pub fn peek_u8_at(&self, offset: u8) -> (byte: u8)
        ensures
            byte == self@.byte_at(offset as int),
    {
        self.data[self.sp.wrapping_sub(1).wrapping_sub(offset) as usize]
    }

    pub fn peek_u16_at(&self, offset: u8) -> (value: u16)
        ensures
            value == self@.short_at(offset as int),
    {
        let high_byte = self.peek_u8_at(offset.wrapping_add(1));
        let low_byte = self.peek_u8_at(offset);
        assert(wrap_u8(self.sp - 1 - wrap_u8(offset + 1)) == wrap_u8(self.sp - 1 - (offset + 1)));
        short_from_bytes(high_byte, low_byte)
    }

    /// Drops `consumed_bytes` from the stack unless `is_keep` is set.
    pub fn adjust_for_keep(&mut self, consumed_bytes: u8, is_keep: bool)
        ensures
            final(self)@ == old(self)@.consume(consumed_bytes as int, is_keep),
    {
        if !is_keep {
            self.sp = self.sp.wrapping_sub(consumed_bytes);
        }
    }

    pub fn dup_u8(&mut self)
        ensures
            final(self)@ == old(self)@.push8(old(self)@.byte_at(0)),
    {
        let byte = self.data[self.sp.wrapping_sub(1) as usize];
        self.push_u8(byte);
    }

    /// Pops the low byte, then the high byte.
    pub fn pop_u16(&mut self) -> (value: u16)
        ensures
            value == old(self)@.short_at(0),
            final(self)@ == old(self)@.drop_bytes(2),
    {
        let low_byte = self.pop_u8();
        let high_byte = self.pop_u8();
        assert(wrap_u8(wrap_u8(old(self).sp - 1) - 1) == wrap_u8(old(self).sp - 1 - 1));
        short_from_bytes(high_byte, low_byte)
    }

    pub fn peek_u16(&self) -> (value: u16)
        ensures
            value == self@.short_at(0),
    {
        let high_byte = self.data[self.sp.wrapping_sub(2) as usize];
        let low_byte = self.data[self.sp.wrapping_sub(1) as usize];
        short_from_bytes(high_byte, low_byte)
    }

    pub fn dup_u16(&mut self)
        ensures
            final(self)@ == old(self)@.push16(old(self)@.short_at(0)),
    {
        let value = self.peek_u16();
        self.push_u16(value);
    }

    pub fn pointer(&self) -> (sp: u8)
        ensures
            sp == self@.sp,
    {
        self.sp
    }

    pub fn data(&self) -> (data: &[u8; 256])
        ensures
            data@ == self@.data,
    {
        &self.data
    }

    /// The cells below the pointer, bottom first.
    pub fn as_slice(&self) -> (cells: &[u8])
        ensures
            cells@ == self@.contents(),
    {
        let all: &[u8] = self.data.as_slice();
        &all[0..self.sp as usize]
    }
}

impl Default for Stack {
    fn default() -> (stack: Self)
        ensures
            stack@.sp == 0,
            stack@.data == Seq::new(256, |i: int| 0u8),
    {
        Self { data: [0u8; 256], sp: 0 }
    }
}

/// Popping the byte just pushed gives it back and leaves the stack pointer where it was.
pub proof fn lemma_push_pop_byte(s: StackState, byte: u8)
    requires
        s.wf(),
    ensures
        s.push8(byte).wf(),
        s.push8(byte).byte_at(0) == byte,
        s.push8(byte).drop_bytes(1).sp == s.sp,
{
}

/// Popping the short just pushed gives it back and leaves the stack pointer where it was.
pub proof fn lemma_push_pop_short(s: StackState, value: u16)
    requires
        s.wf(),
    ensures
        s.push16(value).wf(),
        s.push16(value).short_at(0) == value,
        s.push16(value).drop_bytes(2).sp == s.sp,
{
    let once = s.push8(high_byte(value));
    let twice = once.push8(low_byte(value));
    assert(twice.byte_at(0) == low_byte(value));
    assert(twice.byte_at(1) == high_byte(value));
    super::bytes::lemma_join_split(value);
}

} // verus!
