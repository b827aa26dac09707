//! The guest's 32-bit address space.
//!
//! Addresses wrap around at 2^32. The first page is the null page: it always
//! reads as zero and writes to it are dropped, so following a null (or nearly
//! null) pointer is harmless. Memory that was never written reads as zero.
pub mod laws;

use std::collections::HashMap;
use vstd::prelude::*;

verus! {

broadcast use vstd::std_specs::hash::group_hash_axioms;

/// A size or an address as the guest's 32-bit CPU sees it.
pub type GuestUSize = u32;

/// Addresses below this one belong to the null page.
pub const NULL_PAGE_END: u32 = 0x1000;

/// The heap ends here; what lies above belongs to the stacks.
pub const HEAP_END: u32 = 0xF000_0000;

/// What the guest's memory holds: the bytes that were written, and where the
/// unallocated part of the heap starts.
#[verifier::ext_equal]
pub struct MemState {
    pub bytes: Map<u32, u8>,
    pub heap: u32,
}

/// The address that `a` denotes once it has wrapped around.
pub open spec fn wrap(a: int) -> u32 {
    (a % 0x1_0000_0000) as u32
}

/// How many bytes are left before the null page when walking up from `p`.
pub open spec fn bytes_to_end(p: u32) -> nat {
    if p == 0 {
        0
    } else {
        (0x1_0000_0000 - p) as nat
    }
}

/// As [bytes_to_end], for a walk in steps of four bytes.
pub open spec fn words_to_end(p: u32) -> nat {
    if p <= 0xFFC {
        0
    } else {
        (0x1_0000_0004 - p) as nat
    }
}

/// The heap space that an allocation of `size` bytes takes up: blocks are
/// multiples of 16 bytes, and none is empty.
pub open spec fn block_size(size: u32) -> int {
    if size == 0 {
        16
    } else {
        (size + 15) / 16 * 16
    }
}

impl MemState {
    /// The byte at `a`.
    pub open spec fn peek(self, a: u32) -> u8 {
        if a < NULL_PAGE_END || !self.bytes.contains_key(a) {
            0
        } else {
            self.bytes[a]
        }
    }

    /// The little-endian 16-bit word at `a`.
    #[verifier::opaque]
    pub open spec fn peek_u16(self, a: u32) -> u16 {
        (self.peek(a) + 0x100 * self.peek(wrap(a + 1))) as u16
    }

    /// The little-endian 32-bit word at `a`.
    #[verifier::opaque]
    pub open spec fn peek_u32(self, a: u32) -> u32 {
        (self.peek_u16(a) + 0x1_0000 * self.peek_u16(wrap(a + 2))) as u32
    }

    /// The little-endian 64-bit word at `a`.
    #[verifier::opaque]
    pub open spec fn peek_u64(self, a: u32) -> u64 {
        (self.peek_u32(a) + 0x1_0000_0000 * self.peek_u32(wrap(a + 4))) as u64
    }

    /// The memory after the byte `v` was stored at `a`.
    #[verifier::opaque]
    pub open spec fn poke(self, a: u32, v: u8) -> MemState {
        if a < NULL_PAGE_END {
            self
        } else {
            MemState { bytes: self.bytes.insert(a, v), heap: self.heap }
        }
    }

    /// The memory after the 16-bit word `v` was stored at `a`.
    #[verifier::opaque]
    pub open spec fn poke_u16(self, a: u32, v: u16) -> MemState {
        self.poke(a, (v % 0x100) as u8).poke(wrap(a + 1), (v / 0x100) as u8)
    }

    /// The memory after the 32-bit word `v` was stored at `a`.
    #[verifier::opaque]
    pub open spec fn poke_u32(self, a: u32, v: u32) -> MemState {
        self.poke_u16(a, (v % 0x1_0000) as u16).poke_u16(wrap(a + 2), (v / 0x1_0000) as u16)
    }

    /// The memory after the 64-bit word `v` was stored at `a`.
    #[verifier::opaque]
    pub open spec fn poke_u64(self, a: u32, v: u64) -> MemState {
        self.poke_u32(a, (v % 0x1_0000_0000) as u32).poke_u32(wrap(a + 4),
            (v / 0x1_0000_0000) as u32)
    }

    /// The memory after `data` was stored from `a` on, in order.
    pub open spec fn poke_bytes(self, a: u32, data: Seq<u8>) -> MemState
        decreases data.len(),
    {
        if data.len() == 0 {
            self
        } else {
            self.poke_bytes(a, data.drop_last()).poke(wrap(a + data.len() - 1), data.last())
        }
    }

    /// The memory after `data` was stored as 32-bit words from `a` on, in order.
    pub open spec fn poke_words(self, a: u32, data: Seq<u32>) -> MemState
        decreases data.len(),
    {
        if data.len() == 0 {
            self
        } else {
            self.poke_words(a, data.drop_last()).poke_u32(wrap(a + 4 * (data.len() - 1)), data.last())
        }
    }

    /// The NUL-terminated string at `p`, without its terminator. The null page
    /// terminates every string.
    pub open spec fn cstr(self, p: u32) -> Seq<u8>
        decreases bytes_to_end(p),
    {
        if self.peek(p) == 0 {
            Seq::empty()
        } else {
            seq![self.peek(p)] + self.cstr(wrap(p + 1))
        }
    }

    /// The zero-terminated string of 32-bit characters at `p`, without its
    /// terminator.
    pub open spec fn wcstr(self, p: u32) -> Seq<u32>
        decreases words_to_end(p),
    {
        if self.peek_u32(p) == 0 {
            Seq::empty()
        } else {
            proof {
                lemma_low_word(self, p);
            }
            seq![self.peek_u32(p)] + self.wcstr(wrap(p + 4))
        }
    }

    /// The `n` bytes from `p` on.
    pub open spec fn peek_bytes(self, p: u32, n: nat) -> Seq<u8> {
        Seq::new(n, |i: int| self.peek(wrap(p + i)))
    }

    /// The memory after an allocation of `size` bytes. The block starts where the
    /// heap's unallocated part did; its bytes keep whatever they held.
    pub open spec fn grow(self, size: u32) -> MemState {
        MemState { bytes: self.bytes, heap: (self.heap + block_size(size)) as u32 }
    }

    /// How many heap bytes are left.
    pub open spec fn room(self) -> int {
        HEAP_END - self.heap
    }

    /// The memory after `text` and a terminating NUL were stored from `a` on.
    pub open spec fn poke_cstr(self, a: u32, text: Seq<u8>) -> MemState {
        self.poke_bytes(a, text).poke(wrap(a + text.len()), 0)
    }
}

/// The guest's memory.
pub struct Mem {
    bytes: HashMap<u32, u8>,
    heap: u32,
}

impl View for Mem {
    type V = MemState;

    closed spec fn view(&self) -> MemState {
        MemState { bytes: self.bytes@, heap: self.heap }
    }
}

impl Mem {
    /// Memory in which nothing was written yet. The heap starts at
    /// `heap_start`.
    pub fn new(heap_start: u32) -> (mem: Mem)
        ensures
            mem@.bytes == Map::<u32, u8>::empty(),
            mem@.heap == heap_start,
    {
        Mem { bytes: HashMap::new(), heap: heap_start }
    }

    pub fn read_u8(&self, a: u32) -> (v: u8)
        ensures
            v == self@.peek(a),
    {
        if a < NULL_PAGE_END {
            return 0;
        }
        match self.bytes.get(&a) {
            Some(v) => *v,
            None => 0,
        }
    }

    pub fn read_u16(&self, a: u32) -> (v: u16)
        ensures
            v == self@.peek_u16(a),
    {
        reveal(MemState::peek_u16);
        let low: u8 = self.read_u8(a);
        let high: u8 = self.read_u8(offset(a, 1));
        low as u16 + 0x100 * (high as u16)
    }

    pub fn read_u32(&self, a: u32) -> (v: u32)
        ensures
            v == self@.peek_u32(a),
    {
        reveal(MemState::peek_u32);
        let low: u16 = self.read_u16(a);
        let high: u16 = self.read_u16(offset(a, 2));
        low as u32 + 0x1_0000 * (high as u32)
    }

    pub fn read_u64(&self, a: u32) -> (v: u64)
        ensures
            v == self@.peek_u64(a),
    {
        reveal(MemState::peek_u64);
        let low: u32 = self.read_u32(a);
        let high: u32 = self.read_u32(offset(a, 4));
        low as u64 + 0x1_0000_0000 * (high as u64)
    }

    pub fn write_u8(&mut self, a: u32, v: u8)
        ensures
            final(self)@ == old(self)@.poke(a, v),
    {
        reveal(MemState::poke);
        if a >= NULL_PAGE_END {
            self.bytes.insert(a, v);
        }
    }

    pub fn write_u16(&mut self, a: u32, v: u16)
        ensures
            final(self)@ == old(self)@.poke_u16(a, v),
    {
        reveal(MemState::poke_u16);
        self.write_u8(a, (v % 0x100) as u8);
        self.write_u8(offset(a, 1), (v / 0x100) as u8);
    }

    pub fn write_u32(&mut self, a: u32, v: u32)
        ensures
            final(self)@ == old(self)@.poke_u32(a, v),
    {
        reveal(MemState::poke_u32);
        self.write_u16(a, (v % 0x1_0000) as u16);
        self.write_u16(offset(a, 2), (v / 0x1_0000) as u16);
    }

    pub fn write_u64(&mut self, a: u32, v: u64)
        ensures
            final(self)@ == old(self)@.poke_u64(a, v),
    {
        reveal(MemState::poke_u64);
        self.write_u32(a, (v % 0x1_0000_0000) as u32);
        self.write_u32(offset(a, 4), (v / 0x1_0000_0000) as u32);
    }

    /// Stores `data` from `a` on.
    pub fn write_bytes(&mut self, a: u32, data: &[u8])
        requires
            data@.len() <= u32::MAX,
        ensures
            final(self)@ == old(self)@.poke_bytes(a, data@),
    {
        let n: usize = data.len();
        let mut i: usize = 0;
        while i < n
            invariant
                i <= n,
                n == data@.len(),
                n <= u32::MAX,
                self@ == old(self)@.poke_bytes(a, data@.take(i as int)),
            decreases n - i,
        {
            self.write_u8(offset(a, i as u32), data[i]);
            proof {
                assert(data@.take(i + 1).drop_last() =~= data@.take(i as int));
            }
            i += 1;
        }
        proof {
            assert(data@.take(n as int) =~= data@);
        }
    }

    /// Stores `data` as 32-bit words from `a` on.
    pub fn write_words(&mut self, a: u32, data: &Vec<u32>)
        ensures
            final(self)@ == old(self)@.poke_words(a, data@),
    {
        let n: usize = data.len();
        let mut i: usize = 0;
        let mut q: u32 = a;
        while i < n
            invariant
                i <= n,
                n == data@.len(),
                q == wrap(a + 4 * i),
                self@ == old(self)@.poke_words(a, data@.take(i as int)),
            decreases n - i,
        {
            self.write_u32(q, data[i]);
            proof {
                assert(data@.take(i + 1).drop_last() =~= data@.take(i as int));
                lemma_wrap(a + 4 * i, 4);
            }
            q = offset(q, 4);
            i += 1;
        }
        proof {
            assert(data@.take(n as int) =~= data@);
        }
    }

    /// The `n` bytes from `p` on.
    pub fn bytes_at(&self, p: u32, n: u32) -> (r: Vec<u8>)
        ensures
            r@ == self@.peek_bytes(p, n as nat),
    {
        let mut r: Vec<u8> = Vec::new();
        let mut i: u32 = 0;
        while i < n
            invariant
                i <= n,
                r@ == self@.peek_bytes(p, i as nat),
            decreases n - i,
        {
            r.push(self.read_u8(offset(p, i)));
            proof {
                assert(r@ =~= self@.peek_bytes(p, (i + 1) as nat));
            }
            i += 1;
        }
        r
    }

    /// The NUL-terminated string at `p`.
    pub fn cstr_at(&self, p: u32) -> (r: Vec<u8>)
        ensures
            r@ == self@.cstr(p),
            r@.len() <= u32::MAX,
    {
        let mut r: Vec<u8> = Vec::new();
        let mut q: u32 = p;
        let ghost whole = self@.cstr(p);
        proof {
            lemma_cstr_len(self@, p);
            assert(r@ + self@.cstr(q) =~= whole);
        }
        loop
            invariant
                r@ + self@.cstr(q) == whole,
                whole == self@.cstr(p),
                whole.len() <= u32::MAX,
            ensures
                r@ == whole,
                whole == self@.cstr(p),
                whole.len() <= u32::MAX,
            decreases bytes_to_end(q),
        {
            let c: u8 = self.read_u8(q);
            if c == 0 {
                proof {
                    assert(r@ + self@.cstr(q) =~= r@);
                }
                break;
            }
            proof {
                assert(r@ + self@.cstr(q) =~= r@.push(c) + self@.cstr(wrap(q + 1)));
            }
            r.push(c);
            q = offset(q, 1);
        }
        r
    }

    /// The zero-terminated string of 32-bit characters at `p`.
    pub fn wcstr_at(&self, p: u32) -> (r: Vec<u32>)
        ensures
            r@ == self@.wcstr(p),
    {
        let mut r: Vec<u32> = Vec::new();
        let mut q: u32 = p;
        let ghost whole = self@.wcstr(p);
        proof {
            assert(r@ + self@.wcstr(q) =~= whole);
        }
        loop
            invariant
                r@ + self@.wcstr(q) == whole,
                whole == self@.wcstr(p),
            ensures
                r@ == whole,
                whole == self@.wcstr(p),
            decreases words_to_end(q),
        {
            let c: u32 = self.read_u32(q);
            if c == 0 {
                proof {
                    assert(r@ + self@.wcstr(q) =~= r@);
                }
                break;
            }
            proof {
                lemma_low_word(self@, q);
                assert(r@ + self@.wcstr(q) =~= r@.push(c) + self@.wcstr(wrap(q + 4)));
            }
            r.push(c);
            q = offset(q, 4);
        }
        r
    }

    /// Where the next block will be.
    pub fn next_block(&self) -> (p: u32)
        ensures
            p == self@.heap,
    {
        self.heap
    }

    /// Whether the heap has a block of `size` bytes left.
    pub fn has_room(&self, size: u32) -> (b: bool)
        ensures
            b == (block_size(size) <= self@.room()),
    {
        let block: u64 = if size == 0 {
            16
        } else {
            (size as u64 + 15) / 16 * 16
        };
        self.heap <= HEAP_END && block <= (HEAP_END - self.heap) as u64
    }

    /// Takes a block of `size` bytes from the heap.
    pub fn allocate(&mut self, size: u32) -> (p: u32)
        requires
            block_size(size) <= old(self)@.room(),
        ensures
            p == old(self)@.heap,
            final(self)@ == old(self)@.grow(size),
    {
        let p: u32 = self.heap;
        let block: u32 = if size == 0 {
            16
        } else {
            (size + 15) / 16 * 16
        };
        self.heap = p + block;
        p
    }

    /// Allocates a word and stores `v` in it.
    pub fn alloc_and_write_u32(&mut self, v: u32) -> (p: u32)
        requires
            old(self)@.room() >= 16,
        ensures
            p == old(self)@.heap,
            final(self)@ == old(self)@.grow(4).poke_u32(p, v),
    {
        let p: u32 = self.allocate(4);
        self.write_u32(p, v);
        p
    }

    /// Allocates room for `text` and a terminating NUL, and stores both.
    pub fn alloc_and_write_cstr(&mut self, text: &Vec<u8>) -> (p: u32)
        requires
            text@.len() + 32 <= old(self)@.room(),
        ensures
            p == old(self)@.heap,
            final(self)@ == old(self)@.grow((text@.len() + 1) as u32).poke_cstr(p, text@),
    {
        let n: u32 = text.len() as u32;
        let p: u32 = self.allocate(n + 1);
        self.write_cstr(p, text);
        p
    }

    /// Stores `text` and a terminating NUL from `a` on.
    pub fn write_cstr(&mut self, a: u32, text: &Vec<u8>)
        requires
            text@.len() <= u32::MAX,
        ensures
            final(self)@ == old(self)@.poke_cstr(a, text@),
    {
        self.write_bytes(a, text.as_slice());
        self.write_u8(offset(a, text.len() as u32), 0);
    }
}

/// It makes no difference whether an address wraps around before or after
/// something is added to it.
pub proof fn lemma_wrap(x: int, k: int)
    ensures
        wrap(wrap(x) + k) == wrap(x + k),
{
    vstd::arithmetic::div_mod::lemma_add_mod_noop(x, k, 0x1_0000_0000);
    vstd::arithmetic::div_mod::lemma_add_mod_noop(x % 0x1_0000_0000, k, 0x1_0000_0000);
    vstd::arithmetic::div_mod::lemma_mod_twice(x, 0x1_0000_0000);
}

/// The address `k` bytes above `a`.
pub fn offset(a: u32, k: u32) -> (r: u32)
    ensures
        r == wrap(a + k),
{
    a.wrapping_add(k)
}

/// A wide string is no longer than the rest of the address space.
pub proof fn lemma_wcstr_len(m: MemState, p: u32)
    ensures
        4 * m.wcstr(p).len() <= words_to_end(p),
        4 * m.wcstr(p).len() <= u32::MAX,
    decreases words_to_end(p),
{
    lemma_low_word(m, p);
    if m.peek_u32(p) != 0 {
        lemma_wcstr_len(m, wrap(p + 4));
    }
}

/// A store does not allocate.
pub proof fn lemma_poke_u32_heap(m: MemState, a: u32, v: u32)
    ensures
        m.poke_u32(a, v).heap == m.heap,
{
    reveal(MemState::poke);
    reveal(MemState::poke_u16);
    reveal(MemState::poke_u32);
}

/// A second store to the same word leaves nothing of the first.
pub proof fn lemma_poke_u32_again(m: MemState, a: u32, v: u32, w: u32)
    ensures
        m.poke_u32(a, v).poke_u32(a, w) == m.poke_u32(a, w),
{
    reveal(MemState::poke);
    reveal(MemState::poke_u16);
    reveal(MemState::poke_u32);
    assert(m.poke_u32(a, v).poke_u32(a, w) =~= m.poke_u32(a, w));
}

/// A word reads as what was last stored there, outside the null page.
pub proof fn lemma_peek_poke_u32(m: MemState, a: u32, v: u32)
    requires
        NULL_PAGE_END <= a <= 0xFFFF_FFFC,
    ensures
        m.poke_u32(a, v).peek_u32(a) == v,
{
    reveal(MemState::poke);
    reveal(MemState::poke_u16);
    reveal(MemState::poke_u32);
    reveal(MemState::peek_u16);
    reveal(MemState::peek_u32);
}

/// A store of a word leaves the other bytes as they were.
pub proof fn lemma_peek_poke_u32_byte(m: MemState, a: u32, v: u32, b: u32)
    requires
        a <= 0xFFFF_FFFC,
        b < a || a + 4 <= b,
    ensures
        m.poke_u32(a, v).peek(b) == m.peek(b),
{
    reveal(MemState::poke);
    reveal(MemState::poke_u16);
    reveal(MemState::poke_u32);
}

/// A store leaves the words that it does not overlap as they were.
pub proof fn lemma_peek_poke_u32_apart(m: MemState, a: u32, b: u32, v: u32)
    requires
        a + 4 <= b || b + 4 <= a,
        a <= 0xFFFF_FFFC,
        b <= 0xFFFF_FFFC,
    ensures
        m.poke_u32(a, v).peek_u32(b) == m.peek_u32(b),
{
    lemma_peek_poke_u32_byte(m, a, v, b);
    lemma_peek_poke_u32_byte(m, a, v, (b + 1) as u32);
    lemma_peek_poke_u32_byte(m, a, v, (b + 2) as u32);
    lemma_peek_poke_u32_byte(m, a, v, (b + 3) as u32);
    reveal(MemState::peek_u16);
    reveal(MemState::peek_u32);
}

/// A word that lies in the null page as a whole is zero.
pub proof fn lemma_low_word(m: MemState, p: u32)
    ensures
        p <= 0xFFC ==> m.peek_u32(p) == 0,
{
    reveal(MemState::peek_u16);
    reveal(MemState::peek_u32);
}

/// A string is no longer than the rest of the address space.
pub proof fn lemma_cstr_len(m: MemState, p: u32)
    ensures
        m.cstr(p).len() <= bytes_to_end(p),
    decreases bytes_to_end(p),
{
    if m.peek(p) != 0 {
        lemma_cstr_len(m, wrap(p + 1));
    }
}

} // verus!
