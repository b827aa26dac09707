//! What holds of the guest's memory.
use crate::mem;
use crate::mem::{MemState, NULL_PAGE_END};
use vstd::prelude::*;

verus! {

/// A byte reads as what was last stored there, outside the null page, and the
/// other bytes stay as they are.
pub proof fn law_byte_reads_back(m: MemState, a: u32, v: u8, b: u32)
    ensures
        m.poke(a, v).peek(b) == if b == a && a >= NULL_PAGE_END {
            v
        } else {
            m.peek(b)
        },
        m.poke(a, v).heap == m.heap,
{
    reveal(MemState::poke);
}

/// The null page reads as zero whatever is stored there, and storing there
/// changes nothing.
pub proof fn law_null_page(m: MemState, a: u32, v: u8)
    requires
        a < NULL_PAGE_END,
    ensures
        m.peek(a) == 0,
        m.poke(a, v) == m,
{
    reveal(MemState::poke);
}

/// Words of each size read as what was last stored there, outside the null page.
pub proof fn law_words_read_back(m: MemState, a: u32, v: u16, w: u32, x: u64)
    requires
        NULL_PAGE_END <= a <= 0xFFFF_FFF8,
    ensures
        m.poke_u16(a, v).peek_u16(a) == v,
        m.poke_u32(a, w).peek_u32(a) == w,
        m.poke_u64(a, x).peek_u64(a) == x,
{
    assert(m.poke_u16(a, v).peek_u16(a) == v) by {
        reveal(MemState::poke);
        reveal(MemState::poke_u16);
        reveal(MemState::peek_u16);
    }
    mem::lemma_peek_poke_u32(m, a, w);
    assert(m.poke_u64(a, x).peek_u64(a) == x) by {
        reveal(MemState::poke_u64);
        reveal(MemState::peek_u64);
        let low = (x % 0x1_0000_0000) as u32;
        let high = (x / 0x1_0000_0000) as u32;
        let b = (a + 4) as u32;
        assert(mem::wrap(a + 4) == b);
        let m1 = m.poke_u32(a, low);
        mem::lemma_peek_poke_u32(m, a, low);
        mem::lemma_peek_poke_u32(m1, b, high);
        mem::lemma_peek_poke_u32_apart(m1, b, a, high);
    }
}

/// What is stored in bytes from `a` on is there, and nothing else changes.
pub proof fn law_bytes_read_back(m: MemState, a: u32, data: Seq<u8>, b: u32)
    requires
        NULL_PAGE_END <= a,
        a + data.len() <= 0x1_0000_0000,
    ensures
        m.poke_bytes(a, data).peek(b) == if a <= b < a + data.len() {
            data[b - a]
        } else {
            m.peek(b)
        },
        m.poke_bytes(a, data).heap == m.heap,
    decreases data.len(),
{
    if data.len() > 0 {
        law_bytes_read_back(m, a, data.drop_last(), b);
        let at = (a + data.len() - 1) as u32;
        assert(mem::wrap(a + data.len() - 1) == at);
        law_byte_reads_back(m.poke_bytes(a, data.drop_last()), at, data.last(), b);
    }
}

/// A string of bytes from `p` on that are not zero, with a zero behind it.
pub proof fn lemma_cstr_is(m: MemState, p: u32, text: Seq<u8>)
    requires
        p + text.len() <= 0xFFFF_FFFF,
        forall|i: int| 0 <= i < text.len() ==> text[i] != 0,
        forall|i: int| 0 <= i < text.len() ==> m.peek((p + i) as u32) == #[trigger] text[i],
        m.peek((p + text.len()) as u32) == 0,
    ensures
        m.cstr(p) == text,
    decreases text.len(),
{
    if text.len() > 0 {
        let rest = text.drop_first();
        let q = (p + 1) as u32;
        assert(mem::wrap(p + 1) == q);
        assert(text[0] == m.peek(p));
        assert forall|i: int| 0 <= i < rest.len() implies rest[i] != 0 && m.peek((q + i) as u32)
            == #[trigger] rest[i] by {
            assert(text[i + 1] == rest[i]);
            assert((p + (i + 1)) as u32 == (q + i) as u32);
        }
        lemma_cstr_is(m, q, rest);
        assert(seq![m.peek(p)] + rest =~= text);
    } else {
        assert(m.cstr(p) =~= text);
    }
}

/// A string that was stored reads back, if it has no NUL in it.
pub proof fn law_string_reads_back(m: MemState, a: u32, text: Seq<u8>)
    requires
        NULL_PAGE_END <= a,
        a + text.len() <= 0xFFFF_FFFF,
        forall|i: int| 0 <= i < text.len() ==> text[i] != 0,
    ensures
        m.poke_cstr(a, text).cstr(a) == text,
        m.poke_cstr(a, text).heap == m.heap,
{
    let stored = m.poke_bytes(a, text);
    let end = (a + text.len()) as u32;
    assert(mem::wrap(a + text.len()) == end);
    law_bytes_read_back(m, a, text, a);
    law_byte_reads_back(stored, end, 0, end);
    assert forall|i: int| 0 <= i < text.len() implies m.poke_cstr(a, text).peek((a + i) as u32)
        == #[trigger] text[i] by {
        law_bytes_read_back(m, a, text, (a + i) as u32);
        law_byte_reads_back(stored, end, 0, (a + i) as u32);
    }
    lemma_cstr_is(m.poke_cstr(a, text), a, text);
}

/// Storing a string changes nothing outside it.
pub proof fn law_string_stays_in_place(m: MemState, a: u32, text: Seq<u8>, b: u32)
    requires
        NULL_PAGE_END <= a,
        a + text.len() <= 0xFFFF_FFFF,
        b < a || a + text.len() < b,
    ensures
        m.poke_cstr(a, text).peek(b) == m.peek(b),
{
    law_bytes_read_back(m, a, text, b);
    assert(mem::wrap(a + text.len()) == a + text.len());
    law_byte_reads_back(m.poke_bytes(a, text), (a + text.len()) as u32, 0, b);
}

/// Blocks from the heap do not overlap, and taking one changes no byte.
pub proof fn law_blocks_apart(m: MemState, size: u32, b: u32)
    requires
        m.room() >= mem::block_size(size),
    ensures
        m.heap + size <= m.grow(size).heap,
        m.grow(size).peek(b) == m.peek(b),
{
}

/// Words have their low bytes first, whatever their size.
pub proof fn law_low_byte_first(m: MemState, a: u32)
    requires
        a <= 0xFFFF_FFF8,
    ensures
        m.peek_u16(a) == m.peek(a) + 256 * m.peek((a + 1) as u32),
        m.peek_u32(a) == m.peek(a) + 256 * m.peek((a + 1) as u32) + 65536 * m.peek((a + 2) as u32)
            + 16777216 * m.peek((a + 3) as u32),
        m.peek_u64(a) == m.peek_u32(a) + 0x1_0000_0000 * m.peek_u32((a + 4) as u32),
{
    reveal(MemState::peek_u16);
    reveal(MemState::peek_u32);
    reveal(MemState::peek_u64);
}

/// Blocks take up multiples of 16 bytes, no more than they need and at least one.
pub proof fn law_block_size(size: u32)
    requires
        size > 0,
    ensures
        mem::block_size(size) % 16 == 0,
        size <= mem::block_size(size) < size + 16,
        mem::block_size(0) == 16,
{
}

/// A string goes on up to the first byte that is zero: what follows the first byte is the
/// string behind it.
pub proof fn law_string_goes_on(m: MemState, p: u32)
    requires
        p < 0xFFFF_FFFF,
    ensures
        m.peek(p) == 0 ==> m.cstr(p).len() == 0,
        m.peek(p) != 0 ==> m.cstr(p).len() == 1 + m.cstr((p + 1) as u32).len() && m.cstr(p)[0]
            == m.peek(p) && m.cstr(p).skip(1) == m.cstr((p + 1) as u32),
{
    let q = (p + 1) as u32;
    assert(mem::wrap(p + 1) == q);
    if m.peek(p) != 0 {
        assert(m.cstr(p).skip(1) =~= m.cstr(q));
    }
}

/// A wide string goes on up to the first 32-bit word that is zero.
pub proof fn law_wide_string_goes_on(m: MemState, p: u32)
    requires
        p <= 0xFFFF_FFF8,
    ensures
        m.peek_u32(p) == 0 ==> m.wcstr(p).len() == 0,
        m.peek_u32(p) != 0 ==> m.wcstr(p).len() == 1 + m.wcstr((p + 4) as u32).len() && m.wcstr(
            p,
        )[0] == m.peek_u32(p) && m.wcstr(p).skip(1) == m.wcstr((p + 4) as u32),
{
    let q = (p + 4) as u32;
    assert(mem::wrap(p + 4) == q);
    if m.peek_u32(p) != 0 {
        assert(m.wcstr(p).skip(1) =~= m.wcstr(q));
    }
}

/// The bytes from an address on are read one by one.
pub proof fn law_bytes_read(m: MemState, p: u32, n: nat, i: int)
    requires
        0 <= i < n,
        p + n <= 0x1_0000_0000,
    ensures
        m.peek_bytes(p, n).len() == n,
        m.peek_bytes(p, n)[i] == m.peek((p + i) as u32),
{
    assert(mem::wrap(p + i) == (p + i) as u32);
}

} // verus!
