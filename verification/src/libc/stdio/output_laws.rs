//! What becomes of formatted text, and of the texts that the host gives.
use crate::environment::EnvState;
use crate::guest_console;
use crate::guest_console::Stream;
use crate::libc::stdio::convert;
use crate::libc::stdio::directive;
use crate::libc::stdio::directive::{Directive, FormatView, Length};
use crate::libc::stdio::printf;
use crate::libc::stdio::printf::{Flow, OutcomeView, Progress, Sink};
use crate::libc::stdio::text;
use crate::mem;
use crate::mem::NULL_PAGE_END;
use vstd::prelude::*;
use vstd::utf8::*;

verus! {

// Where text goes

/// A buffer of `n` bytes gets the whole text where that is shorter, and otherwise all
/// but one of the bytes that it has room for; the length of the whole text is returned.
/// A buffer of no bytes is left alone.
pub proof fn law_bounded_fills(env: EnvState, dest: u32, n: u32, out: Seq<u8>)
    requires
        NULL_PAGE_END <= dest,
        dest + n <= 0x1_0000_0000,
        out.len() <= i32::MAX,
        forall|i: int| 0 <= i < out.len() ==> #[trigger] out[i] != 0,
    ensures
        ({
            let (e, r) = printf::finish(env, Sink::Bounded { dest, n }, out);
            &&& r == (OutcomeView::Returned { value: out.len() as i32 })
            &&& out.len() < n ==> e.mem.cstr(dest) == out
            &&& 0 < n <= out.len() ==> e.mem.cstr(dest) == out.take(n - 1)
            &&& n == 0 ==> e == env
            &&& e == (EnvState { mem: e.mem, ..env })
        }),
{
    if n > 0 {
        let t = if out.len() < n {
            out
        } else {
            out.take(n - 1)
        };
        assert forall|i: int| 0 <= i < t.len() implies t[i] != 0 by {
            assert(out[i] != 0);
        }
        mem::laws::law_string_reads_back(env.mem, dest, t);
    }
}

/// A new block gets the whole text, and its address is stored; it lies where the heap's
/// unallocated part started.
pub proof fn law_allocated(env: EnvState, ret: u32, out: Seq<u8>)
    requires
        NULL_PAGE_END <= env.mem.heap,
        NULL_PAGE_END <= ret <= 0xFFFF_FFFC,
        ret + 4 <= env.mem.heap || env.mem.heap + out.len() + 1 <= ret,
        env.mem.heap + out.len() + 1 <= 0x1_0000_0000,
        out.len() <= i32::MAX,
        mem::block_size((out.len() + 1) as u32) <= env.mem.room(),
        forall|i: int| 0 <= i < out.len() ==> #[trigger] out[i] != 0,
    ensures
        ({
            let (e, r) = printf::finish(env, Sink::Allocated { ret }, out);
            &&& r == (OutcomeView::Returned { value: out.len() as i32 })
            &&& e.mem.peek_u32(ret) == env.mem.heap
            &&& e.mem.cstr(env.mem.heap) == out
            &&& e.mem.heap > env.mem.heap
        }),
{
    let g = env.mem.grow((out.len() + 1) as u32);
    let at = env.mem.heap;
    let s = g.poke_cstr(at, out);
    let e = s.poke_u32(ret, at);
    mem::laws::law_string_reads_back(g, at, out);
    mem::lemma_peek_poke_u32(s, ret, at);
    mem::lemma_poke_u32_heap(s, ret, at);
    let stored = g.poke_bytes(at, out);
    let end = (at + out.len()) as u32;
    assert(mem::wrap(at + out.len()) == end);
    assert forall|k: int| 0 <= k < out.len() implies e.peek((at + k) as u32) == #[trigger] out[k] by {
        let b = (at + k) as u32;
        mem::lemma_peek_poke_u32_byte(s, ret, at, b);
        mem::laws::law_byte_reads_back(stored, end, 0, b);
        mem::laws::law_bytes_read_back(g, at, out, b);
    }
    mem::lemma_peek_poke_u32_byte(s, ret, at, end);
    mem::laws::law_byte_reads_back(stored, end, 0, end);
    mem::laws::lemma_cstr_is(e, at, out);
}

/// A buffer of `n` 32-bit characters gets the text and a terminator, and the length is
/// returned, where the text is shorter; otherwise it gets `n` characters without a
/// terminator, and -1 is returned.
pub proof fn law_wide_buffer(env: EnvState, ws: u32, n: u32, out: Seq<u8>, i: int)
    requires
        NULL_PAGE_END <= ws,
        ws + 4 * n <= 0x1_0000_0000,
        out.len() <= i32::MAX,
        0 <= i < n,
        i <= out.len(),
    ensures
        ({
            let (e, r) = printf::finish(env, Sink::Wide { ws, n }, out);
            let at = e.mem.peek_u32((ws + 4 * i) as u32);
            &&& i < out.len() ==> at == out[i]
            &&& i == out.len() ==> at == 0
            &&& out.len() < n ==> r == (OutcomeView::Returned { value: out.len() as i32 })
            &&& out.len() >= n ==> r == (OutcomeView::Returned { value: -1i32 })
        }),
{
    let count = if n < out.len() {
        n as int
    } else {
        out.len() as int
    };
    let words = printf::widened(out.take(count));
    let filled = env.mem.poke_words(ws, words);
    if i < count {
        lemma_word_stored(env.mem, ws, words, i);
        assert(words[i] == out[i] as u32);
    }
    if count < n {
        let end = (ws + 4 * count) as u32;
        assert(mem::wrap(ws + 4 * count) == end);
        mem::lemma_peek_poke_u32(filled, end, 0);
        if i < count {
            mem::lemma_peek_poke_u32_apart(filled, end, (ws + 4 * i) as u32, 0);
        }
    }
}

proof fn lemma_word_stored(m: mem::MemState, a: u32, words: Seq<u32>, i: int)
    requires
        NULL_PAGE_END <= a,
        a + 4 * words.len() <= 0x1_0000_0000,
        0 <= i < words.len(),
    ensures
        m.poke_words(a, words).peek_u32((a + 4 * i) as u32) == words[i],
    decreases words.len(),
{
    let l = words.len() - 1;
    let before = m.poke_words(a, words.drop_last());
    let at = (a + 4 * l) as u32;
    assert(mem::wrap(a + 4 * l) == at);
    if i == l {
        mem::lemma_peek_poke_u32(before, at, words[l]);
    } else {
        lemma_word_stored(m, a, words.drop_last(), i);
        mem::lemma_peek_poke_u32_apart(before, at, (a + 4 * i) as u32, words[l]);
    }
}

/// Text for `stdout` goes there, and its length is returned. The files with the numbers 1
/// and 2 are the guest's `stdout` and `stderr`, the one with the number 0 takes nothing,
/// and for any other the host has to write the text.
pub proof fn law_files(env: EnvState, stream: u32, out: Seq<u8>)
    requires
        out.len() <= i32::MAX,
    ensures
        ({
            let fd = env.mem.peek_u32(stream);
            let (e, r) = printf::finish(env, Sink::File { stream }, out);
            let value = out.len() as i32;
            let to_stdout = EnvState { console: env.console.written(Stream::Stdout, out), ..env };
            let to_stderr = EnvState { console: env.console.written(Stream::Stderr, out), ..env };
            &&& fd == 0 ==> e == env && r == (OutcomeView::Returned { value })
            &&& fd == 1 ==> e == to_stdout && r == (OutcomeView::Returned { value })
            &&& fd == 2 ==> e == to_stderr && r == (OutcomeView::Returned { value })
            &&& fd > 2 ==> e == env && r == (OutcomeView::Write { stream, bytes: out, value })
            &&& printf::finish(env, Sink::Stdout, out) == (
                to_stdout,
                OutcomeView::Returned { value },
            )
        }),
{
}

/// Text for the log goes there as a message that says where it is from.
pub proof fn law_logged(env: EnvState, out: Seq<u8>)
    ensures
        printf::finish(env, Sink::Log, out) == (
            env,
            OutcomeView::Log { message: "NSLog: "@ + guest_console::lossy_text(out) },
        ),
{
}

// Wide characters

/// The UTF-8 form of ASCII characters is these characters.
proof fn lemma_plain_wide(w: Seq<u32>, b: Seq<u8>)
    requires
        w.len() == b.len(),
        forall|i: int| 0 <= i < w.len() ==> w[i] == #[trigger] b[i] && b[i] < 0x80,
    ensures
        text::wide_text(w) == b,
        text::all_chars(w),
    decreases w.len(),
{
    if w.len() > 0 {
        assert forall|i: int| 0 <= i < w.len() - 1 implies w.drop_last()[i]
            == #[trigger] b.drop_last()[i] && b.drop_last()[i] < 0x80 by {
            assert(w[i] == b[i]);
        }
        lemma_plain_wide(w.drop_last(), b.drop_last());
        assert(w[w.len() - 1] == b[b.len() - 1]);
        lemma_plain_char(w.last());
        assert(b.drop_last() + seq![b.last()] =~= b);
        assert forall|i: int| 0 <= i < w.len() implies is_scalar(#[trigger] w[i]) by {
            assert(w[i] == b[i]);
        }
    } else {
        assert(text::wide_text(w) =~= b);
    }
}

proof fn lemma_plain_char(v: u32)
    requires
        v < 0x80,
    ensures
        text::char_text(v) == seq![v as u8],
{
    assert(v as u8 == leading_byte_width_1(v)) by (bit_vector)
        requires
            v < 0x80,
    ;
    assert(text::char_text(v) =~= seq![v as u8]);
}

/// A wide format string of ASCII characters, in the `C` locale, is the format string of
/// these characters.
pub proof fn law_wide_format(env: EnvState, sink: Sink, format: u32, va: u32, bytes: Seq<u8>)
    requires
        env.mem.peek(env.ctype_locale) == 'C' as u8,
        env.mem.wcstr(format).len() == bytes.len(),
        forall|i: int|
            0 <= i < bytes.len() ==> env.mem.wcstr(format)[i] == #[trigger] bytes[i] && bytes[i]
                < 0x80,
    ensures
        printf::begin_wide(env, sink, format, va) == printf::begin(
            env,
            sink,
            false,
            FormatView::Bytes { bytes },
            va,
        ),
{
    lemma_plain_wide(env.mem.wcstr(format), bytes);
}

/// `%S` puts out the wide string at the argument's address, and `(null)` for NULL, in the
/// `C` locale. `%C` puts out the character that the low half of the argument is. Here
/// they are ASCII characters. In fields neither is supported, nor another locale for `%S`.
pub proof fn law_wide_arguments(
    ns_log: bool,
    locale: u32,
    d: Directive,
    p: Progress,
    bytes: Seq<u8>,
)
    requires
        d.specifier == 'S' as u8 || d.specifier == 'C' as u8,
    ensures
        ({
            let word = p.mem.peek_u32(p.va);
            let wide = p.mem.wcstr(word);
            let (q, flow) = printf::convert_step(ns_log, locale, d, p);
            let in_field = d.zero || d.width != 0;
            let is_c = p.mem.peek(locale) == 'C' as u8;
            let next = Progress { va: mem::wrap(p.va + 4), ..p };
            &&& in_field ==> flow is Unsupported
            &&& d.specifier == 'S' as u8 && !is_c ==> flow is Unsupported
            &&& d.specifier == 'S' as u8 && is_c && !in_field && word == 0 ==> flow is Go && q == (
            Progress { out: p.out + seq![40u8, 110u8, 117u8, 108u8, 108u8, 41u8], ..next })
            &&& d.specifier == 'S' as u8 && is_c && !in_field && word != 0 && wide.len()
                == bytes.len() && (forall|i: int|
                0 <= i < bytes.len() ==> wide[i] == #[trigger] bytes[i] && bytes[i] < 0x80)
                ==> flow is Go && q == (Progress { out: p.out + bytes, ..next })
            &&& d.specifier == 'C' as u8 && !in_field && word % 0x1_0000 < 0x80 ==> flow is Go && q
                == (Progress { out: p.out.push((word % 0x1_0000) as u8), ..next })
        }),
{
    let word = p.mem.peek_u32(p.va);
    let wide = p.mem.wcstr(word);
    if wide.len() == bytes.len() && (forall|i: int|
        0 <= i < bytes.len() ==> wide[i] == #[trigger] bytes[i] && bytes[i] < 0x80) {
        lemma_plain_wide(wide, bytes);
    }
    if word % 0x1_0000 < 0x80 {
        let v = (word % 0x1_0000) as u32;
        lemma_plain_char(v);
        assert(p.out + seq![v as u8] =~= p.out.push(v as u8));
    }
    assert(printf::null_text() =~= seq![40u8, 110u8, 117u8, 108u8, 108u8, 41u8]);
}

// Floating-point numbers

/// Whether the number with these bits has no minus sign.
pub open spec fn has_no_minus(bits: u64) -> bool {
    bits < 0x8000_0000_0000_0000
}

/// `+` puts a plus sign in front of a text that does not start with a space, unless the
/// number has a minus sign.
pub proof fn law_plus_sign(d: Directive, bits: u64, t: Seq<u8>)
    requires
        d.plus,
        t.len() > 0,
        t[0] != ' ' as u8,
    ensures
        has_no_minus(bits) ==> convert::float_sign(d, bits, t) == seq!['+' as u8] + t,
        !has_no_minus(bits) ==> convert::float_sign(d, bits, t) == t,
{
}

/// In a field that is filled up with spaces in front, the plus sign takes the place of
/// the last of them, so that the field stays as wide.
pub proof fn law_plus_sign_in_field(d: Directive, bits: u64, n: nat, t: Seq<u8>)
    requires
        d.plus,
        has_no_minus(bits),
        n > 0,
        t.len() > 0,
        t[0] != ' ' as u8,
    ensures
        convert::float_sign(d, bits, Seq::new(n, |i: int| 32u8) + t) == Seq::new(
            (n - 1) as nat,
            |i: int| 32u8,
        ) + seq!['+' as u8] + t,
{
    let whole = Seq::new(n, |i: int| 32u8) + t;
    lemma_spaces(n, t);
    assert(whole.update(n - 1, '+' as u8) =~= Seq::new((n - 1) as nat, |i: int| 32u8)
        + seq!['+' as u8] + t);
}

proof fn lemma_spaces(n: nat, t: Seq<u8>)
    requires
        t.len() > 0,
        t[0] != ' ' as u8,
    ensures
        convert::leading_spaces(Seq::new(n, |i: int| 32u8) + t) == n,
    decreases n,
{
    let whole = Seq::new(n, |i: int| 32u8) + t;
    if n > 0 {
        lemma_spaces((n - 1) as nat, t);
        assert(whole.drop_first() =~= Seq::new((n - 1) as nat, |i: int| 32u8) + t);
    } else {
        assert(whole =~= t);
    }
}

/// A field that is to be filled up with zeros has them in front of the host's text for
/// `%f`, and between the sign and the host's text for `%e`, up to its width.
pub proof fn law_float_zeros(d: Directive, bits: u64, t: Seq<u8>)
    requires
        !d.plus,
        d.zero,
        !d.left,
    ensures
        d.specifier == 'f' as u8 ==> ({
            let r = convert::fixed_text(d, bits, t);
            let n = r.len() - t.len();
            &&& t.len() <= r.len()
            &&& r.skip(n) == t
            &&& forall|i: int| 0 <= i < n ==> #[trigger] r[i] == 48
            &&& r.len() == t.len() || r.len() == d.width
            &&& r.len() >= d.width
        }),
        d.specifier == 'e' as u8 ==> ({
            let r = convert::scientific_text(d, bits, t);
            let s: int = if has_no_minus(bits) {
                0
            } else {
                1
            };
            let n = r.len() - t.len();
            &&& s <= n
            &&& s == 1 ==> r[0] == '-' as u8
            &&& r.skip(n) == t
            &&& forall|i: int| s <= i < n ==> #[trigger] r[i] == 48
            &&& r.len() == t.len() + s || r.len() == d.width
            &&& r.len() >= d.width
        }),
{
    let f = convert::fixed_text(d, bits, t);
    let e = convert::scientific_text(d, bits, t);
    if d.specifier == 'f' as u8 {
        assert(f.skip(f.len() - t.len()) =~= t);
    }
    if d.specifier == 'e' as u8 {
        assert(e.skip(e.len() - t.len()) =~= t);
    }
}

/// `%g` and `%G` leave out the zeros at the end of the decimals, and the point too where
/// no decimals are left. `start` is what is before the decimals, with the point, and
/// `decimals` are those that stay.
pub proof fn law_trailing_zeros(d: Directive, bits: u64, start: Seq<u8>, decimals: Seq<u8>, n: nat)
    requires
        d.specifier == 'g' as u8 || d.specifier == 'G' as u8,
        !d.plus,
        d.width == 0,
        start.len() > 0,
        start.last() != '0' as u8,
        start.last() != '.' as u8,
        forall|i: int| 0 <= i < start.len() ==> !(97 <= #[trigger] start[i] <= 122),
        forall|i: int| 0 <= i < decimals.len() ==> 48 <= #[trigger] decimals[i] <= 57,
        decimals.len() > 0 ==> decimals.last() != '0' as u8,
    ensures
        ({
            let zeros = Seq::new(n, |i: int| 48u8);
            let whole = start.push('.' as u8) + decimals + zeros;
            convert::fixed_text(d, bits, whole) == if decimals.len() > 0 {
                start.push('.' as u8) + decimals
            } else {
                start
            }
        }),
{
    let zeros = Seq::new(n, |i: int| 48u8);
    let kept = start.push('.' as u8) + decimals;
    let whole = kept + zeros;
    let left = if decimals.len() > 0 {
        kept
    } else {
        start
    };
    lemma_zeros_trimmed(kept, n);
    if decimals.len() == 0 {
        assert(kept =~= start.push('.' as u8));
        assert(kept.drop_last() =~= start);
        assert(convert::trim_end(start, '.' as u8) == start);
    } else {
        assert(kept.last() == decimals[decimals.len() - 1]);
    }
    assert(convert::trim_zeros(whole) == left);
    lemma_unpadded(d, whole);
    lemma_unpadded(d, left);
    assert(whole[start.len() as int] == '.' as u8);
    assert(whole.contains('.' as u8));
    if d.specifier == 'G' as u8 {
        assert forall|i: int| 0 <= i < left.len() implies text::upper_char(#[trigger] left[i])
            == left[i] by {
            if i < start.len() {
                assert(left[i] == start[i]);
            } else if i > start.len() {
                assert(left[i] == decimals[i - start.len() - 1]);
            }
        }
        assert(text::uppercase(left) =~= left);
    }
}

proof fn lemma_zeros_trimmed(kept: Seq<u8>, n: nat)
    requires
        kept.len() > 0,
        kept.last() != '0' as u8,
    ensures
        convert::trim_end(kept + Seq::new(n, |i: int| 48u8), '0' as u8) == kept,
    decreases n,
{
    let whole = kept + Seq::new(n, |i: int| 48u8);
    if n > 0 {
        lemma_zeros_trimmed(kept, (n - 1) as nat);
        assert(whole.drop_last() =~= kept + Seq::new((n - 1) as nat, |i: int| 48u8));
    } else {
        assert(whole =~= kept);
    }
}

proof fn lemma_unpadded(d: Directive, t: Seq<u8>)
    requires
        d.width == 0,
    ensures
        convert::pad_field(d, t) == t,
{
    assert(convert::pad_field(d, t) =~= t);
}

/// `%a` and `%A` put out the number in scientific notation, with `p` or `P` in front of
/// the exponent.
pub proof fn law_exponent_letter(d: Directive, bits: u64, t: Seq<u8>, i: int)
    requires
        d.specifier == 'a' as u8 || d.specifier == 'A' as u8,
        !d.plus,
        d.width == 0,
        0 <= i < t.len(),
    ensures
        ({
            let r = convert::exponent_text(d, bits, t);
            let upper = d.specifier == 'A' as u8;
            &&& r.len() == t.len()
            &&& t[i] == 'e' as u8 && !upper ==> r[i] == 'p' as u8
            &&& t[i] == 'e' as u8 && upper ==> r[i] == 'P' as u8
            &&& 43 <= t[i] <= 57 ==> r[i] == t[i]
        }),
{
    let r = convert::exponent_text(d, bits, t);
    if d.specifier == 'A' as u8 {
        lemma_unpadded(d, text::uppercase(convert::replace(t, 'e' as u8, 'P' as u8)));
    } else {
        lemma_unpadded(d, convert::replace(t, 'e' as u8, 'p' as u8));
    }
}

// What is not supported

/// A precision is for numbers and strings; with any other conversion it is not supported,
/// but for a percent sign.
pub proof fn law_no_precision(ns_log: bool, locale: u32, f: FormatView, p: Progress)
    requires
        f.at(p.mem, p.idx) == '%' as u8,
        directive::parse(f, p.mem, p.idx + 1, p.va) matches Some(parsed)
            && parsed.directive.precision is Some && (parsed.directive.specifier == 'c' as u8
            || parsed.directive.specifier == 'C' as u8 || parsed.directive.specifier == 'S' as u8
            || parsed.directive.specifier == 'p' as u8 || parsed.directive.specifier == 'n' as u8
            || parsed.directive.specifier == '@' as u8),
    ensures
        printf::step(ns_log, locale, f, p).1 is Unsupported,
        printf::step(ns_log, locale, f, p).0.out == p.out,
{
}

/// A plain `%c` puts out one byte, in a field it is not supported, and with the modifier
/// `l` it takes any character.
pub proof fn law_plain_character(ns_log: bool, locale: u32, d: Directive, p: Progress)
    requires
        d.specifier == 'c' as u8,
    ensures
        ({
            let word = p.mem.peek_u32(p.va);
            let (q, flow) = printf::convert_step(ns_log, locale, d, p);
            &&& d.length != Length::Long && !d.zero && d.width == 0 ==> flow is Go && q.out
                == p.out.push((word % 256) as u8)
            &&& d.length != Length::Long && (d.zero || d.width != 0) ==> flow is Unsupported
            &&& d.length == Length::Long && word < 0x80 ==> flow is Go && q.out == p.out.push(
                word as u8,
            )
        }),
{
    let word = p.mem.peek_u32(p.va);
    if word < 0x80 {
        lemma_plain_char(word);
        assert(p.out + seq![word as u8] =~= p.out.push(word as u8));
    }
    assert(p.out + seq![(word % 0x100) as u8] =~= p.out.push((word % 256) as u8));
}

} // verus!
