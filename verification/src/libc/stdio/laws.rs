//! What holds of formatting and scanning.
use crate::abi;
use crate::environment::EnvState;
use crate::libc::stdio::convert;
use crate::libc::stdio::directive::{Directive, FormatView, Length};
use crate::libc::stdio::printf;
use crate::libc::stdio::printf::{Flow, OutcomeView, Progress, Sink};
use crate::libc::stdio::scanf;
use crate::libc::stdio::scanf::{Run, Scan, ScanDirective, SubjectView};
use crate::libc::stdio::text;
use crate::mem;
use crate::mem::{MemState, NULL_PAGE_END};
use vstd::prelude::*;

verus! {

// Formatting

/// Whether a format string has no conversion in it.
pub open spec fn is_literal(bytes: Seq<u8>) -> bool {
    forall|i: int| 0 <= i < bytes.len() ==> #[trigger] bytes[i] != 0 && bytes[i] != '%' as u8
}

proof fn lemma_literal(ns_log: bool, locale: u32, bytes: Seq<u8>, p: Progress)
    requires
        is_literal(bytes),
        0 <= p.idx <= bytes.len(),
    ensures
        printf::run(ns_log, locale, FormatView::Bytes { bytes }, p) == (
            Progress { idx: bytes.len() as int, out: p.out + bytes.skip(p.idx), ..p },
            Flow::Done,
        ),
    decreases bytes.len() - p.idx,
{
    let f = FormatView::Bytes { bytes };
    if p.idx == bytes.len() {
        assert(p.out + bytes.skip(p.idx) =~= p.out);
    } else {
        let q = Progress { idx: p.idx + 1, ..p }.put(seq![bytes[p.idx]]);
        lemma_literal(ns_log, locale, bytes, q);
        assert(q.out + bytes.skip(q.idx) =~= p.out + bytes.skip(p.idx));
    }
}

/// A format string without conversions is put out as it is, and takes no
/// argument.
pub proof fn law_literal(ns_log: bool, locale: u32, bytes: Seq<u8>, va: u32, m: MemState)
    requires
        is_literal(bytes),
    ensures
        printf::start(ns_log, locale, FormatView::Bytes { bytes }, va, m) == (
            Progress { mem: m, idx: bytes.len() as int, va, out: bytes },
            Flow::Done,
        ),
{
    let p = Progress { mem: m, idx: 0, va, out: seq![] };
    lemma_literal(ns_log, locale, bytes, p);
    assert(p.out + bytes.skip(0) =~= bytes);
}

/// A field is at least as wide as it is asked to be, and nothing of the text is
/// lost.
pub proof fn law_padded(t: Seq<u8>, width: int, zero: bool, left: bool)
    ensures
        text::pad(t, width, zero, left).len() == if width > t.len() {
            width
        } else {
            t.len() as int
        },
        left ==> t.is_prefix_of(text::pad(t, width, zero, left)),
        !left ==> t.is_suffix_of(text::pad(t, width, zero, left)),
{
    let r = text::pad(t, width, zero, left);
    if left {
        assert(t =~= r.subrange(0, t.len() as int));
    } else {
        assert(t =~= r.subrange(r.len() - t.len(), r.len() as int));
    }
}

/// The fields of integer conversions are at least as wide as they are asked to
/// be.
pub proof fn law_field_width(d: Directive, i: int, n: nat, upper: bool)
    ensures
        convert::int_text(d, i).len() >= d.width,
        convert::uint_text(d, n).len() >= d.width,
        convert::octal_text(d, n).len() >= d.width,
        convert::hex_text(d, n, upper).len() >= d.width,
        convert::long_octal_text(d, n).len() >= d.width,
{
}

/// A call that formats into a buffer of `n` bytes writes nothing outside the
/// buffer, leaves a string there that is as much of the text as there is room
/// for, and returns the length of the whole text.
pub proof fn law_bounded(env: EnvState, dest: u32, n: u32, out: Seq<u8>, b: u32)
    requires
        n > 0,
        NULL_PAGE_END <= dest,
        dest + n <= 0x1_0000_0000,
        out.len() <= i32::MAX,
        forall|i: int| 0 <= i < out.len() ==> #[trigger] out[i] != 0,
    ensures
        ({
            let (e, r) = printf::finish(env, Sink::Bounded { dest, n }, out);
            &&& r == (OutcomeView::Returned { value: out.len() as i32 })
            &&& e.mem.cstr(dest) == printf::truncated(out, n as int)
            &&& e.mem.cstr(dest).is_prefix_of(out)
            &&& b < dest || dest + n <= b ==> e.mem.peek(b) == env.mem.peek(b)
        }),
{
    let t = printf::truncated(out, n as int);
    assert forall|i: int| 0 <= i < t.len() implies t[i] != 0 by {
        assert(out[i] != 0);
    }
    assert(t =~= out.subrange(0, t.len() as int));
    mem::laws::law_string_reads_back(env.mem, dest, t);
    if b < dest || dest + n <= b {
        mem::laws::law_string_stays_in_place(env.mem, dest, t, b);
    }
}

/// A call that formats into a buffer leaves the text there.
pub proof fn law_buffer(env: EnvState, dest: u32, out: Seq<u8>)
    requires
        NULL_PAGE_END <= dest,
        dest + out.len() <= 0xFFFF_FFFF,
        out.len() <= i32::MAX,
        forall|i: int| 0 <= i < out.len() ==> #[trigger] out[i] != 0,
    ensures
        ({
            let (e, r) = printf::finish(env, Sink::Buffer { dest }, out);
            &&& r == (OutcomeView::Returned { value: out.len() as i32 })
            &&& e.mem.cstr(dest) == out
        }),
{
    mem::laws::law_string_reads_back(env.mem, dest, out);
}

// Scanning what was formatted

proof fn lemma_digits(n: nat)
    ensures
        text::digits(n, 10, false).len() > 0,
        n > 0 ==> text::digits(n, 10, false)[0] != '0' as u8,
        text::digits(n, 10, false)[0] != '-' as u8,
        text::digits(n, 10, false)[0] != '+' as u8,
    decreases n,
{
    if n >= 10 {
        lemma_digits(n / 10);
    }
}

proof fn lemma_digits_len(n: nat, k: nat)
    requires
        k > 0,
        n < vstd::arithmetic::power::pow(10, k),
    ensures
        text::digits(n, 10, false).len() <= k,
    decreases k,
{
    reveal(vstd::arithmetic::power::pow);
    if n >= 10 {
        if k == 1 {
            assert(vstd::arithmetic::power::pow(10, 0) == 1);
            assert(vstd::arithmetic::power::pow(10, 1) == 10 * vstd::arithmetic::power::pow(10, 0));
        } else {
            let rest = vstd::arithmetic::power::pow(10, (k - 1) as nat);
            assert(vstd::arithmetic::power::pow(10, k) == 10 * rest);
            lemma_digits_len(n / 10, (k - 1) as nat);
        }
    }
}

/// Scanning the digits of `n`, which stand at `at`.
proof fn lemma_digit_run(bytes: Seq<u8>, at: int, n: nat, run: Run, limit: nat)
    requires
        0 <= at,
        at + text::digits(n, 10, false).len() <= bytes.len(),
        bytes.len() < u32::MAX,
        bytes.subrange(at, at + text::digits(n, 10, false).len()) == text::digits(n, 10, false),
        run.s.idx == at,
        run.value == 0,
        limit >= text::digits(n, 10, false).len(),
    ensures
        ({
            let len = text::digits(n, 10, false).len();
            scanf::digit_run(SubjectView::Text { bytes }, run, 10, limit) == scanf::digit_run(
                SubjectView::Text { bytes },
                Run {
                    value: n as int,
                    count: run.count + len,
                    s: Scan { idx: (at + len) as u32, ..run.s },
                },
                10,
                (limit - len) as nat,
            )
        }),
    decreases n,
{
    let sub = SubjectView::Text { bytes };
    let digits = text::digits(n, 10, false);
    let len = digits.len();
    let part = bytes.subrange(at, at + len);
    let last = at + len - 1;
    assert(bytes[last] == part[len - 1]);
    if n < 10 {
        assert(mem::wrap(run.s.idx + 1) == at + 1);
        assert(sub.get(run.s) == Some(bytes[at]));
    } else {
        let head = text::digits(n / 10, 10, false);
        assert(bytes.subrange(at, at + head.len()) =~= head) by {
            assert forall|i: int| 0 <= i < head.len() implies bytes.subrange(
                at,
                at + head.len(),
            )[i] == head[i] by {
                assert(part[i] == digits[i]);
            }
        }
        lemma_digit_run(bytes, at, n / 10, run, limit);
        let mid = Run {
            value: (n / 10) as int,
            count: run.count + head.len(),
            s: Scan { idx: last as u32, ..run.s },
        };
        assert(sub.get(mid.s) == Some(bytes[last]));
        assert(mem::wrap(mid.s.idx + 1) == last + 1);
        assert((n / 10) * 10 + n % 10 == n);
    }
}

/// The decimal text of a number is scanned as that number, to its end.
pub proof fn law_decimal_scans_back(i: int, s: Scan)
    requires
        s.idx == 0,
        -0x1_0000_0000_0000_0000 < i < 0x1_0000_0000_0000_0000,
    ensures
        text::decimal(i).len() <= 21,
        ({
            let n = scanf::integer(
                SubjectView::Text { bytes: text::decimal(i) },
                s,
                10,
                u32::MAX as nat,
            );
            &&& n.found
            &&& n.negative == (i < 0)
            &&& n.magnitude == text::magnitude(i)
            &&& n.s == (Scan { idx: text::decimal(i).len() as u32, ..s })
        }),
{
    let bytes = text::decimal(i);
    let sub = SubjectView::Text { bytes };
    let m = text::magnitude(i);
    let digits = text::digits(m, 10, false);
    lemma_digits(m);
    reveal_with_fuel(vstd::arithmetic::power::pow, 21);
    lemma_digits_len(m, 20);
    let at: int = if i < 0 {
        1
    } else {
        0
    };
    assert(bytes.subrange(at, at + digits.len()) =~= digits);
    assert(bytes[at] == digits[0]);
    let limit = (u32::MAX - at) as nat;
    let s1 = Scan { idx: at as u32, ..s };
    assert(sub.get(s1) == Some(digits[0]));
    let end = Scan { idx: (at + digits.len()) as u32, ..s };
    assert(sub.get(end) == Some(0u8));
    if m == 0 {
        assert(digits =~= seq!['0' as u8]);
        let s2 = sub.advanced(s1);
        assert(s2 == end);
        assert(scanf::digit_run(sub, Run { value: 0, count: 1, s: s2 }, 10, (limit - 1) as nat) == (
        Run { value: 0, count: 1, s: s2 }));
    } else {
        lemma_digit_run(bytes, at, m, Run { value: 0, count: 0, s: s1 }, limit);
    }
}

/// What `%d` makes of a number, `%d` reads back as that number. The one number
/// whose absolute value is out of range is left out.
pub proof fn law_printed_scans_back(i: int, s: Scan)
    requires
        s.idx == 0,
        i32::MIN < i <= i32::MAX,
    ensures
        ({
            let p = Directive {
                plus: false,
                alternative: false,
                zero: false,
                left: false,
                width: 0,
                precision: None,
                length: Length::Plain,
                specifier: 'd' as u8,
            };
            let d = ScanDirective {
                suppress: false,
                width: 0,
                length: Length::Plain,
                specifier: 'd' as u8,
            };
            let bytes = convert::int_text(p, i);
            let (after, flow) = scanf::scan_integer(SubjectView::Text { bytes }, d, s);
            &&& flow is Go
            &&& after.matched == s.matched + 1
            &&& after.idx == bytes.len()
            &&& after.mem == s.mem.poke_u32(s.mem.peek_u32(s.va), abi::bits32(i))
        }),
{
    law_decimal_scans_back(i, s);
    let d = ScanDirective { suppress: false, width: 0, length: Length::Plain, specifier: 'd' as u8 };
    let n = scanf::integer(
        SubjectView::Text { bytes: text::decimal(i) },
        s,
        10,
        u32::MAX as nat,
    );
    let bits = scanf::int_bits(d, n);
    assert(bits == if i < 0 {
        0x1_0000_0000 + i
    } else {
        i
    });
    assert(bits as u32 == abi::bits32(i));
}

} // verus!
