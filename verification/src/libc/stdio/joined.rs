//! Formatting with two format strings, one after the other.
use crate::libc::stdio::directive;
use crate::libc::stdio::directive::{Directive, FormatView};
use crate::libc::stdio::printf;
use crate::libc::stdio::printf::{Flow, Progress, ReplyView, Request};
use crate::mem::MemState;
use vstd::prelude::*;

verus! {

/// A memory in which nothing was written. A format string on the host does not
/// depend on the memory.
pub open spec fn blank() -> MemState {
    MemState { bytes: Map::empty(), heap: 0 }
}

/// The index of the specifier of the conversion whose `%` is at index `i`.
pub open spec fn specifier_of(bytes: Seq<u8>, i: int) -> int {
    directive::specifier_index(FormatView::Bytes { bytes }, blank(), i + 1)
}

/// The index from which formatting goes on behind the conversion whose `%` is at
/// index `i`. An unknown specifier is put out.
pub open spec fn behind(bytes: Seq<u8>, i: int) -> int {
    let k = specifier_of(bytes, i);
    if directive::is_specifier(bytes[k]) {
        k + 1
    } else {
        k
    }
}

/// Whether the string does not end inside a conversion, from index `i` on, where
/// none has begun.
pub open spec fn ends_outside(bytes: Seq<u8>, i: int) -> bool
    decreases bytes.len() - i,
{
    if i < 0 || i >= bytes.len() {
        true
    } else if bytes[i] != '%' as u8 {
        ends_outside(bytes, i + 1)
    } else if specifier_of(bytes, i) < bytes.len() {
        proof {
            lemma_specifier_ahead(FormatView::Bytes { bytes }, blank(), i + 1);
        }
        ends_outside(bytes, behind(bytes, i))
    } else {
        false
    }
}

/// Whether there is a `%n` in the string, from index `i` on.
pub open spec fn stores_count(bytes: Seq<u8>, i: int) -> bool
    decreases bytes.len() - i,
{
    if i < 0 || i >= bytes.len() {
        false
    } else if bytes[i] != '%' as u8 {
        stores_count(bytes, i + 1)
    } else if specifier_of(bytes, i) < bytes.len() {
        proof {
            lemma_specifier_ahead(FormatView::Bytes { bytes }, blank(), i + 1);
        }
        bytes[specifier_of(bytes, i)] == 'n' as u8 || stores_count(bytes, behind(bytes, i))
    } else {
        false
    }
}

/// Formatting with the host's replies, for as long as they last: where it gets to,
/// how it goes on, and the replies that are left.
pub open spec fn formatted(
    ns_log: bool,
    locale: u32,
    f: FormatView,
    p: Progress,
    flow: Flow,
    replies: Seq<ReplyView>,
) -> (Progress, Flow, Seq<ReplyView>)
    decreases replies.len(),
{
    let (q, next) = if flow is Go {
        printf::run(ns_log, locale, f, p)
    } else {
        (p, flow)
    };
    match next {
        Flow::Waiting { directive, request } => if replies.len() > 0 {
            let (a, then_flow) = printf::answer(directive, request, replies[0], q);
            formatted(ns_log, locale, f, a, then_flow, replies.drop_first())
        } else {
            (q, next, replies)
        },
        _ => (q, next, replies),
    }
}

/// A specifier is not before the flags and the width.
pub proof fn lemma_specifier_ahead(f: FormatView, m: MemState, i: int)
    ensures
        i <= directive::specifier_index(f, m, i),
{
    let i1 = directive::skip_char(f, m, i, '+' as u8);
    let i2 = directive::skip_char(f, m, i1, '#' as u8);
    let i3 = directive::skip_char(f, m, i2, '0' as u8);
    let i4 = directive::skip_char(f, m, i3, '-' as u8);
    directive::lemma_number_grows(f, m, i4, 0);
    let width = directive::field_end(f, m, i4);
    directive::lemma_number_grows(f, m, width + 1, 0);
}

/// The character at index `k`, or NUL.
pub open spec fn char_at(bytes: Seq<u8>, k: int) -> u8 {
    if 0 <= k < bytes.len() {
        bytes[k]
    } else {
        0
    }
}

/// Whether two format strings have the same characters before index `end` of the
/// first, which is `n` characters into the second.
spec fn alike(a: Seq<u8>, b: Seq<u8>, n: int, end: int) -> bool {
    forall|k: int| 0 <= k < end ==> #[trigger] char_at(a, k) == char_at(b, k + n)
}

proof fn lemma_number_alike(
    a: Seq<u8>,
    b: Seq<u8>,
    n: int,
    end: int,
    m: MemState,
    w: MemState,
    i: int,
    acc: int,
)
    requires
        0 <= i,
        0 <= n,
        alike(a, b, n, end),
        directive::number_end(FormatView::Bytes { bytes: a }, m, i) < end,
    ensures
        ({
            let f = FormatView::Bytes { bytes: a };
            let g = FormatView::Bytes { bytes: b };
            &&& directive::number_end(g, w, i + n) == directive::number_end(f, m, i) + n
            &&& directive::number_value(g, w, i + n, acc) == directive::number_value(f, m, i, acc)
        }),
    decreases a.len() - i,
{
    let f = FormatView::Bytes { bytes: a };
    directive::lemma_number_grows(f, m, i, 0);
    assert(char_at(a, i) == char_at(b, i + n));
    if i < a.len() && directive::is_digit(a[i]) {
        lemma_number_alike(a, b, n, end, m, w, i + 1, acc * 10 + (a[i] - '0' as u8));
    }
}

proof fn lemma_skip_alike(
    a: Seq<u8>,
    b: Seq<u8>,
    n: int,
    end: int,
    m: MemState,
    w: MemState,
    i: int,
    c: u8,
)
    requires
        0 <= i < end,
        alike(a, b, n, end),
        c != 0,
        0 <= n,
    ensures
        ({
            let f = FormatView::Bytes { bytes: a };
            let g = FormatView::Bytes { bytes: b };
            directive::skip_char(g, w, i + n, c) == directive::skip_char(f, m, i, c) + n
        }),
{
    assert(char_at(a, i) == char_at(b, i + n));
}

proof fn lemma_field_alike(
    a: Seq<u8>,
    b: Seq<u8>,
    n: int,
    end: int,
    m: MemState,
    w: MemState,
    i: int,
    va: u32,
)
    requires
        0 <= i,
        0 <= n,
        alike(a, b, n, end),
        directive::field_end(FormatView::Bytes { bytes: a }, m, i) < end,
    ensures
        ({
            let f = FormatView::Bytes { bytes: a };
            let g = FormatView::Bytes { bytes: b };
            let x = directive::field(f, m, i, va);
            &&& i <= directive::field_end(f, m, i)
            &&& directive::field_end(g, w, i + n) == directive::field_end(f, m, i) + n
            &&& x.idx == directive::field_end(f, m, i)
            &&& w == m ==> directive::field(g, m, i + n, va) == (directive::Field {
                idx: x.idx + n,
                ..x
            })
        }),
{
    let f = FormatView::Bytes { bytes: a };
    directive::lemma_number_grows(f, m, i, 0);
    assert(char_at(a, i) == char_at(b, i + n));
    if f.at(m, i) != '*' as u8 {
        lemma_number_alike(a, b, n, end, m, w, i, 0);
    }
}

proof fn lemma_length_alike(
    a: Seq<u8>,
    b: Seq<u8>,
    n: int,
    end: int,
    m: MemState,
    w: MemState,
    i: int,
)
    requires
        0 <= i,
        0 <= n,
        alike(a, b, n, end),
        directive::length_at(FormatView::Bytes { bytes: a }, m, i).1 < end,
    ensures
        ({
            let f = FormatView::Bytes { bytes: a };
            let g = FormatView::Bytes { bytes: b };
            let x = directive::length_at(f, m, i);
            &&& i <= x.1
            &&& directive::length_at(g, w, i + n) == (x.0, x.1 + n)
            &&& g.at(w, x.1 + n) == char_at(a, x.1)
        }),
{
    let f = FormatView::Bytes { bytes: a };
    let k = directive::length_at(f, m, i).1;
    assert(char_at(a, i) == char_at(b, i + n));
    if i < k {
        assert(char_at(a, i + 1) == char_at(b, i + 1 + n));
    }
    assert(char_at(a, k) == char_at(b, k + n));
}

/// Where the flags of a conversion end.
spec fn flags_end(f: FormatView, m: MemState, i: int) -> int {
    let i1 = directive::skip_char(f, m, i, '+' as u8);
    let i2 = directive::skip_char(f, m, i1, '#' as u8);
    let i3 = directive::skip_char(f, m, i2, '0' as u8);
    directive::skip_char(f, m, i3, '-' as u8)
}

proof fn lemma_flags_alike(
    a: Seq<u8>,
    b: Seq<u8>,
    n: int,
    end: int,
    m: MemState,
    w: MemState,
    i: int,
)
    requires
        0 <= i,
        0 <= n,
        alike(a, b, n, end),
        flags_end(FormatView::Bytes { bytes: a }, m, i) < end,
    ensures
        ({
            let f = FormatView::Bytes { bytes: a };
            let g = FormatView::Bytes { bytes: b };
            let i1 = directive::skip_char(f, m, i, '+' as u8);
            let i2 = directive::skip_char(f, m, i1, '#' as u8);
            let i3 = directive::skip_char(f, m, i2, '0' as u8);
            let i4 = directive::skip_char(f, m, i3, '-' as u8);
            &&& i <= i1 <= i2 <= i3 <= i4
            &&& directive::skip_char(g, w, i + n, '+' as u8) == i1 + n
            &&& directive::skip_char(g, w, i1 + n, '#' as u8) == i2 + n
            &&& directive::skip_char(g, w, i2 + n, '0' as u8) == i3 + n
            &&& directive::skip_char(g, w, i3 + n, '-' as u8) == i4 + n
        }),
{
    let f = FormatView::Bytes { bytes: a };
    let i1 = directive::skip_char(f, m, i, '+' as u8);
    let i2 = directive::skip_char(f, m, i1, '#' as u8);
    let i3 = directive::skip_char(f, m, i2, '0' as u8);
    lemma_skip_alike(a, b, n, end, m, w, i, '+' as u8);
    lemma_skip_alike(a, b, n, end, m, w, i1, '#' as u8);
    lemma_skip_alike(a, b, n, end, m, w, i2, '0' as u8);
    lemma_skip_alike(a, b, n, end, m, w, i3, '-' as u8);
}

proof fn lemma_parse_alike(
    a: Seq<u8>,
    b: Seq<u8>,
    n: int,
    end: int,
    m: MemState,
    w: MemState,
    i: int,
    va: u32,
)
    requires
        0 <= i,
        0 <= n,
        alike(a, b, n, end),
        directive::specifier_index(FormatView::Bytes { bytes: a }, m, i) < end,
    ensures
        ({
            let f = FormatView::Bytes { bytes: a };
            let g = FormatView::Bytes { bytes: b };
            let k = directive::specifier_index(f, m, i);
            &&& directive::specifier_index(g, w, i + n) == k + n
            &&& w == m ==> match directive::parse(f, m, i, va) {
                Some(parsed) => {
                    &&& directive::parse(g, m, i + n, va) == Some(
                        directive::Parsed { idx: parsed.idx + n, ..parsed },
                    )
                    &&& parsed.idx == k
                    &&& parsed.directive.specifier == char_at(a, k)
                },
                None => directive::parse(g, m, i + n, va) is None,
            }
        }),
{
    let f = FormatView::Bytes { bytes: a };
    let g = FormatView::Bytes { bytes: b };
    let i4 = flags_end(f, m, i);
    let width = directive::field_end(f, m, i4);
    let dot = f.at(m, width) == '.' as u8;
    let precision = if dot {
        directive::field_end(f, m, width + 1)
    } else {
        width
    };
    directive::lemma_number_grows(f, m, i4, 0);
    directive::lemma_number_grows(f, m, width + 1, 0);
    assert(precision <= directive::length_at(f, m, precision).1);
    lemma_flags_alike(a, b, n, end, m, w, i);
    lemma_field_alike(a, b, n, end, m, w, i4, va);
    assert(char_at(a, width) == char_at(b, width + n));
    if dot {
        lemma_field_alike(a, b, n, end, m, w, width + 1, directive::field(f, m, i4, va).va);
    }
    lemma_length_alike(a, b, n, end, m, w, precision);
}

/// The specifier of a conversion does not depend on the memory.
proof fn lemma_specifier(bytes: Seq<u8>, m: MemState, i: int, va: u32)
    requires
        0 <= i < bytes.len(),
    ensures
        ({
            let f = FormatView::Bytes { bytes };
            &&& i < specifier_of(bytes, i) <= bytes.len()
            &&& directive::specifier_index(f, m, i + 1) == specifier_of(bytes, i)
            &&& directive::parse(f, m, i + 1, va) matches Some(parsed) ==> parsed.idx
                == specifier_of(bytes, i) && parsed.directive.specifier == char_at(
                bytes,
                parsed.idx,
            )
        }),
{
    let f = FormatView::Bytes { bytes };
    lemma_specifier_ahead(f, blank(), i + 1);
    lemma_specifier_within(bytes, blank(), i + 1);
    assert(alike(bytes, bytes, 0, bytes.len() + 1int));
    lemma_parse_alike(bytes, bytes, 0, bytes.len() + 1int, blank(), m, i + 1, va);
    lemma_parse_alike(bytes, bytes, 0, bytes.len() + 1int, m, m, i + 1, va);
}

proof fn lemma_specifier_within(bytes: Seq<u8>, m: MemState, i: int)
    requires
        0 <= i <= bytes.len(),
    ensures
        directive::specifier_index(FormatView::Bytes { bytes }, m, i) <= bytes.len(),
{
    let f = FormatView::Bytes { bytes };
    let i1 = directive::skip_char(f, m, i, '+' as u8);
    let i2 = directive::skip_char(f, m, i1, '#' as u8);
    let i3 = directive::skip_char(f, m, i2, '0' as u8);
    let i4 = directive::skip_char(f, m, i3, '-' as u8);
    assert(i4 <= bytes.len());
    directive::lemma_number_grows(f, m, i4, 0);
    let width = directive::field_end(f, m, i4);
    assert(width <= bytes.len());
    directive::lemma_number_grows(f, m, width + 1, 0);
}

// The first format string

/// Whether there is no NUL in the string.
pub open spec fn has_no_nul(bytes: Seq<u8>) -> bool {
    forall|i: int| 0 <= i < bytes.len() ==> #[trigger] bytes[i] != 0
}

/// A step in the first of two strings is the same in both of them together.
proof fn lemma_first_step(ns_log: bool, locale: u32, a: Seq<u8>, b: Seq<u8>, p: Progress)
    requires
        has_no_nul(a),
        ends_outside(a, p.idx),
        0 <= p.idx < a.len(),
    ensures
        ({
            let f = FormatView::Bytes { bytes: a };
            let g = FormatView::Bytes { bytes: a + b };
            let next = printf::step(ns_log, locale, f, p);
            &&& printf::step(ns_log, locale, g, p) == next
            &&& !(next.1 is Done)
            &&& next.1 is Unsupported || (p.idx < next.0.idx <= a.len() && ends_outside(
                a,
                next.0.idx,
            ))
        }),
{
    let f = FormatView::Bytes { bytes: a };
    assert(alike(a, a + b, 0, a.len() as int));
    assert(a[p.idx] != 0);
    if a[p.idx] == '%' as u8 {
        lemma_specifier(a, p.mem, p.idx, p.va);
        lemma_parse_alike(a, a + b, 0, a.len() as int, p.mem, p.mem, p.idx + 1, p.va);
    }
}

proof fn lemma_first_run(ns_log: bool, locale: u32, a: Seq<u8>, b: Seq<u8>, p: Progress)
    requires
        has_no_nul(a),
        ends_outside(a, p.idx),
        0 <= p.idx <= a.len(),
    ensures
        ({
            let f = FormatView::Bytes { bytes: a };
            let g = FormatView::Bytes { bytes: a + b };
            let (q, flow) = printf::run(ns_log, locale, f, p);
            &&& flow is Done ==> q.idx == a.len() && printf::run(ns_log, locale, g, p)
                == printf::run(ns_log, locale, g, q)
            &&& !(flow is Done) ==> printf::run(ns_log, locale, g, p) == (q, flow)
            &&& flow is Waiting ==> 0 <= q.idx <= a.len() && ends_outside(a, q.idx)
            &&& !(flow is Go)
        }),
    decreases a.len() - p.idx,
{
    let f = FormatView::Bytes { bytes: a };
    let g = FormatView::Bytes { bytes: a + b };
    if p.idx < a.len() {
        lemma_first_step(ns_log, locale, a, b, p);
        let next = printf::step(ns_log, locale, f, p);
        if next.1 is Go {
            lemma_first_run(ns_log, locale, a, b, next.0);
        }
    }
}

// The second format string

/// The state `n` characters further in the format string, with `text` before what
/// was put out.
pub open spec fn behind_text(p: Progress, n: int, text: Seq<u8>) -> Progress {
    Progress { idx: p.idx + n, out: text + p.out, ..p }
}

proof fn lemma_put_behind(p: Progress, n: int, text: Seq<u8>, t: Seq<u8>)
    ensures
        behind_text(p, n, text).put(t) == behind_text(p.put(t), n, text),
{
    assert((text + p.out) + t =~= text + (p.out + t));
}

#[verifier::spinoff_prover]
#[verifier::rlimit(60)]
proof fn lemma_convert_behind(
    ns_log: bool,
    locale: u32,
    d: Directive,
    p: Progress,
    n: int,
    text: Seq<u8>,
)
    requires
        d.specifier != 'n' as u8,
    ensures
        ({
            let (q, flow) = printf::convert_step(ns_log, locale, d, p);
            printf::convert_step(ns_log, locale, d, behind_text(p, n, text)) == (
                behind_text(q, n, text),
                flow,
            )
        }),
{
    assert forall|r: Progress, t: Seq<u8>| #[trigger] behind_text(r, n, text).put(t)
        == behind_text(r.put(t), n, text) by {
        lemma_put_behind(r, n, text, t);
    }
    let b = behind_text(p, n, text);
    assert(b.take(4) == behind_text(p.take(4), n, text));
    assert(b.take(8) == behind_text(p.take(8), n, text));
    assert(b.take_int(d.length) == behind_text(p.take_int(d.length), n, text));
    assert(b.unsigned(d.length) == p.unsigned(d.length));
    assert(b.signed(d.length) == p.signed(d.length));
    assert(b.signed(directive::Length::Plain) == p.signed(directive::Length::Plain));
}

proof fn lemma_answer_behind(
    d: Directive,
    request: Request,
    reply: ReplyView,
    p: Progress,
    n: int,
    text: Seq<u8>,
)
    ensures
        ({
            let (q, flow) = printf::answer(d, request, reply, p);
            &&& printf::answer(d, request, reply, behind_text(p, n, text)) == (
                behind_text(q, n, text),
                flow,
            )
            &&& q.idx == p.idx
        }),
{
    let (q, flow) = printf::answer(d, request, reply, p);
    let (r, other) = printf::answer(d, request, reply, behind_text(p, n, text));
    assert(r.out =~= text + q.out);
}

#[verifier::spinoff_prover]
#[verifier::rlimit(60)]
proof fn lemma_second_step(
    ns_log: bool,
    locale: u32,
    a: Seq<u8>,
    b: Seq<u8>,
    p: Progress,
    text: Seq<u8>,
)
    requires
        0 <= p.idx <= b.len(),
        !stores_count(b, p.idx),
    ensures
        ({
            let f = FormatView::Bytes { bytes: b };
            let g = FormatView::Bytes { bytes: a + b };
            let n = a.len() as int;
            let (q, flow) = printf::step(ns_log, locale, f, p);
            &&& printf::step(ns_log, locale, g, behind_text(p, n, text)) == (
                behind_text(q, n, text),
                flow,
            )
            &&& flow is Go || flow is Waiting ==> p.idx < q.idx <= b.len() && !stores_count(b, q.idx)
        }),
{
    let f = FormatView::Bytes { bytes: b };
    let n = a.len() as int;
    let (q, flow) = printf::step(ns_log, locale, f, p);
    assert forall|k: int| 0 <= k < b.len() + 1 implies #[trigger] char_at(b, k) == char_at(
        a + b,
        k + n,
    ) by {}
    assert(alike(b, a + b, n, b.len() + 1int));
    assert(char_at(b, p.idx) == char_at(a + b, p.idx + n));
    if p.idx < b.len() {
        let c = b[p.idx];
        if c == '%' as u8 {
            lemma_specifier(b, p.mem, p.idx, p.va);
            lemma_parse_alike(b, a + b, n, b.len() + 1int, p.mem, p.mem, p.idx + 1, p.va);
            if let Some(parsed) = directive::parse(f, p.mem, p.idx + 1, p.va) {
                let after = Progress { idx: parsed.idx + 1, va: parsed.va, ..p };
                if parsed.directive.specifier != 'n' as u8 {
                    lemma_convert_behind(ns_log, locale, parsed.directive, after, n, text);
                }
                assert(text + after.put(seq!['%' as u8]).out =~= behind_text(after, n, text).put(
                    seq!['%' as u8],
                ).out);
            }
        } else {
            assert(text + (p.out + seq![c]) =~= (text + p.out) + seq![c]);
        }
    }
}

proof fn lemma_second_run(
    ns_log: bool,
    locale: u32,
    a: Seq<u8>,
    b: Seq<u8>,
    p: Progress,
    text: Seq<u8>,
)
    requires
        0 <= p.idx <= b.len(),
        !stores_count(b, p.idx),
    ensures
        ({
            let f = FormatView::Bytes { bytes: b };
            let g = FormatView::Bytes { bytes: a + b };
            let n = a.len() as int;
            let (q, flow) = printf::run(ns_log, locale, f, p);
            &&& printf::run(ns_log, locale, g, behind_text(p, n, text)) == (
                behind_text(q, n, text),
                flow,
            )
            &&& flow is Waiting ==> 0 <= q.idx <= b.len() && !stores_count(b, q.idx)
            &&& !(flow is Go)
        }),
    decreases b.len() - p.idx,
{
    let f = FormatView::Bytes { bytes: b };
    let g = FormatView::Bytes { bytes: a + b };
    lemma_second_step(ns_log, locale, a, b, p, text);
    let next = printf::step(ns_log, locale, f, p);
    if next.1 is Go {
        lemma_second_run(ns_log, locale, a, b, next.0, text);
    }
}

proof fn lemma_second(
    ns_log: bool,
    locale: u32,
    a: Seq<u8>,
    b: Seq<u8>,
    p: Progress,
    flow: Flow,
    text: Seq<u8>,
    replies: Seq<ReplyView>,
)
    requires
        0 <= p.idx <= b.len(),
        !stores_count(b, p.idx),
    ensures
        ({
            let f = FormatView::Bytes { bytes: b };
            let g = FormatView::Bytes { bytes: a + b };
            let n = a.len() as int;
            let (q, next, rest) = formatted(ns_log, locale, f, p, flow, replies);
            formatted(ns_log, locale, g, behind_text(p, n, text), flow, replies) == (
                behind_text(q, n, text),
                next,
                rest,
            )
        }),
    decreases replies.len(),
{
    let f = FormatView::Bytes { bytes: b };
    let n = a.len() as int;
    if flow is Go {
        lemma_second_run(ns_log, locale, a, b, p, text);
    }
    let (q, next) = if flow is Go {
        printf::run(ns_log, locale, f, p)
    } else {
        (p, flow)
    };
    if let Flow::Waiting { directive, request } = next {
        if replies.len() > 0 {
            lemma_answer_behind(directive, request, replies[0], q, n, text);
            let (r, other) = printf::answer(directive, request, replies[0], q);
            lemma_second(ns_log, locale, a, b, r, other, text, replies.drop_first());
        }
    }
}

proof fn lemma_first(
    ns_log: bool,
    locale: u32,
    a: Seq<u8>,
    b: Seq<u8>,
    p: Progress,
    flow: Flow,
    replies: Seq<ReplyView>,
)
    requires
        has_no_nul(a),
        ends_outside(a, p.idx),
        0 <= p.idx <= a.len(),
        !(flow is Done),
        formatted(
            ns_log,
            locale,
            FormatView::Bytes { bytes: a },
            p,
            flow,
            replies,
        ).1 is Done,
    ensures
        ({
            let f = FormatView::Bytes { bytes: a };
            let g = FormatView::Bytes { bytes: a + b };
            let (q, _, rest) = formatted(ns_log, locale, f, p, flow, replies);
            &&& q.idx == a.len()
            &&& formatted(ns_log, locale, g, p, flow, replies) == formatted(
                ns_log,
                locale,
                g,
                q,
                Flow::Go,
                rest,
            )
        }),
    decreases replies.len(),
{
    let f = FormatView::Bytes { bytes: a };
    let g = FormatView::Bytes { bytes: a + b };
    if flow is Go {
        lemma_first_run(ns_log, locale, a, b, p);
    }
    let (q, next) = if flow is Go {
        printf::run(ns_log, locale, f, p)
    } else {
        (p, flow)
    };
    if let Flow::Waiting { directive, request } = next {
        if replies.len() > 0 {
            lemma_answer_behind(directive, request, replies[0], q, 0, seq![]);
            let (r, other) = printf::answer(directive, request, replies[0], q);
            lemma_first(ns_log, locale, a, b, r, other, replies.drop_first());
        }
    }
}

/// Formatting with two format strings joined into one gives the text of the first
/// and, behind it, that of the second with the arguments and the host's replies
/// that the first leaves. The first must not end inside a conversion, nor have a
/// NUL in it, and the second must not ask for the number of characters so far.
pub proof fn law_joined(
    ns_log: bool,
    locale: u32,
    a: Seq<u8>,
    b: Seq<u8>,
    va: u32,
    m: MemState,
    replies: Seq<ReplyView>,
)
    requires
        has_no_nul(a),
        ends_outside(a, 0),
        !stores_count(b, 0),
        formatted(
            ns_log,
            locale,
            FormatView::Bytes { bytes: a },
            Progress { mem: m, idx: 0, va, out: seq![] },
            Flow::Go,
            replies,
        ).1 is Done,
    ensures
        ({
            let start = Progress { mem: m, idx: 0, va, out: seq![] };
            let (p, _, rest) = formatted(
                ns_log,
                locale,
                FormatView::Bytes { bytes: a },
                start,
                Flow::Go,
                replies,
            );
            let (q, flow, left) = formatted(
                ns_log,
                locale,
                FormatView::Bytes { bytes: b },
                Progress { mem: p.mem, idx: 0, va: p.va, out: seq![] },
                Flow::Go,
                rest,
            );
            formatted(
                ns_log,
                locale,
                FormatView::Bytes { bytes: a + b },
                start,
                Flow::Go,
                replies,
            ) == (
                Progress { mem: q.mem, idx: a.len() + q.idx, va: q.va, out: p.out + q.out },
                flow,
                left,
            )
        }),
{
    let start = Progress { mem: m, idx: 0, va, out: seq![] };
    let f = FormatView::Bytes { bytes: a };
    let (p, _, rest) = formatted(ns_log, locale, f, start, Flow::Go, replies);
    let second = Progress { mem: p.mem, idx: 0, va: p.va, out: seq![] };
    lemma_first(ns_log, locale, a, b, start, Flow::Go, replies);
    lemma_second(ns_log, locale, a, b, second, Flow::Go, p.out, rest);
    assert(p.out + second.out =~= p.out);
    assert(behind_text(second, a.len() as int, p.out) == p);
}

} // verus!
