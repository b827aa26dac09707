//! How the guest hands over variable arguments.
use crate::mem;
use crate::mem::Mem;
use vstd::prelude::*;

verus! {

/// The arguments that stand for `...` in a C signature: consecutive 32-bit
/// words from `pos` on. A 64-bit argument takes two words, the low one first.
#[derive(Clone, Copy)]
pub struct DotDotDot {
    pub pos: u32,
}

/// A `va_list`: the address of the next argument.
#[derive(Clone, Copy)]
pub struct VaList {
    pub pos: u32,
}

impl DotDotDot {
    /// `va_start`
    pub fn start(&self) -> (list: VaList)
        ensures
            list.pos == self.pos,
    {
        VaList { pos: self.pos }
    }
}

impl VaList {
    /// Takes the next argument, which is one word.
    pub fn next_u32(&mut self, mem: &Mem) -> (v: u32)
        ensures
            v == mem@.peek_u32(old(self).pos),
            final(self).pos == mem::wrap(old(self).pos + 4),
    {
        let v: u32 = mem.read_u32(self.pos);
        self.pos = mem::offset(self.pos, 4);
        v
    }

    /// Takes the next argument, which is two words.
    pub fn next_u64(&mut self, mem: &Mem) -> (v: u64)
        ensures
            v == mem@.peek_u64(old(self).pos),
            final(self).pos == mem::wrap(old(self).pos + 8),
    {
        let v: u64 = mem.read_u64(self.pos);
        self.pos = mem::offset(self.pos, 8);
        v
    }
}

/// The signed number that the low `bits` bits of a word stand for, given as
/// an unsigned number below `range`.
pub open spec fn signed(n: int, range: int) -> int {
    if n < range / 2 {
        n
    } else {
        n - range
    }
}

/// Reads `n` as a 32-bit two's complement number.
pub fn to_i32(n: u32) -> (i: i32)
    ensures
        i == signed(n as int, 0x1_0000_0000),
{
    if n < 0x8000_0000 {
        n as i32
    } else {
        (n as i64 - 0x1_0000_0000) as i32
    }
}

/// Reads `n` as a 64-bit two's complement number.
pub fn to_i64(n: u64) -> (i: i64)
    ensures
        i == signed(n as int, 0x1_0000_0000_0000_0000),
{
    if n < 0x8000_0000_0000_0000 {
        n as i64
    } else {
        (n as i128 - 0x1_0000_0000_0000_0000) as i64
    }
}

/// The two's complement form of `i`.
pub open spec fn bits32(i: int) -> u32 {
    (i % 0x1_0000_0000) as u32
}

/// The two's complement form of `i`.
pub fn from_i32(i: i32) -> (n: u32)
    ensures
        n == bits32(i as int),
{
    if i >= 0 {
        i as u32
    } else {
        (i as i64 + 0x1_0000_0000) as u32
    }
}

} // verus!
