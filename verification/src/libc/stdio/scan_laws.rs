//! What each conversion of the `scanf` family is for.
use crate::environment::EnvState;
use crate::libc::stdio::directive;
use crate::libc::stdio::directive::{FormatView, Length};
use crate::libc::stdio::format_laws;
use crate::libc::stdio::format_laws::Written;
use crate::libc::stdio::numerals;
use crate::libc::stdio::printf;
use crate::libc::stdio::scanf;
use crate::libc::stdio::scanf::{
    ParsedFloat, Run, Scan, ScanDirective, ScanFlow, ScanJobView, ScanOutcomeView, SubjectView,
};
use crate::mem;
use crate::mem::MemState;
use vstd::prelude::*;

verus! {

// What lies ahead

/// The character `k` places ahead; a string ends in NULs, a file in nothing.
pub open spec fn ahead(sub: SubjectView, s: Scan, k: int) -> Option<u8> {
    match sub {
        SubjectView::CString { ptr } => Some(s.mem.peek(mem::wrap(ptr + s.idx + k))),
        SubjectView::Text { bytes } => Some(
            if s.idx + k < bytes.len() {
                bytes[s.idx + k]
            } else {
                0
            },
        ),
        SubjectView::File { bytes } => if s.pos + k < bytes.len() {
            Some(bytes[s.pos + k])
        } else {
            None
        },
    }
}

/// Whether `t` comes next, from `k` places ahead.
pub open spec fn comes(sub: SubjectView, s: Scan, k: int, t: Seq<u8>) -> bool {
    forall|j: int| 0 <= j < t.len() ==> #[trigger] ahead(sub, s, k + j) == Some(t[j])
}

/// Scanning that has gone `k` places ahead.
pub open spec fn gone(sub: SubjectView, s: Scan, k: int) -> Scan {
    Scan {
        idx: (s.idx + k) as u32,
        pos: if sub is File {
            s.pos + k
        } else {
            s.pos
        },
        ..s
    }
}

pub open spec fn is_blank(c: u8) -> bool {
    9 <= c <= 13 || c == 32
}

proof fn lemma_ahead(sub: SubjectView, s: Scan, k: int)
    requires
        0 <= k,
        s.idx + k + 1 < u32::MAX,
        sub is File ==> 0 <= s.pos,
    ensures
        sub.get(gone(sub, s, k)) == ahead(sub, s, k),
        sub.advanced(gone(sub, s, k)) == gone(sub, s, k + 1),
        gone(sub, s, 0) == s,
{
}

proof fn lemma_blanks(sub: SubjectView, s: Scan, k: int, n: int)
    requires
        0 <= k <= n,
        s.idx + n + 1 < u32::MAX,
        sub is File ==> 0 <= s.pos,
        forall|j: int|
            k <= j < n ==> (#[trigger] ahead(sub, s, j)) is Some && is_blank(
                ahead(sub, s, j).unwrap(),
            ),
        ahead(sub, s, n) matches Some(c) ==> !is_blank(c),
    ensures
        scanf::skip_spaces(sub, gone(sub, s, k)) == gone(sub, s, n),
    decreases n - k,
{
    lemma_ahead(sub, s, k);
    if k < n {
        assert(ahead(sub, s, k) is Some);
        lemma_blanks(sub, s, k + 1, n);
    }
}

proof fn lemma_run(
    sub: SubjectView,
    s: Scan,
    k: int,
    t: Seq<u8>,
    acc: nat,
    count: int,
    base: nat,
    limit: nat,
)
    requires
        0 <= k,
        2 <= base <= 36,
        s.idx + k + t.len() + 1 < u32::MAX,
        sub is File ==> 0 <= s.pos,
        comes(sub, s, k, t),
        forall|j: int|
            0 <= j < t.len() ==> numerals::digit_of(#[trigger] t[j]) is Some
                && numerals::digit_of(t[j]).unwrap() < base,
        t.len() <= limit,
        t.len() == limit || !is_digit_ahead(sub, s, k + t.len(), base),
    ensures
        scanf::digit_run(
            sub,
            Run { value: acc as int, count, s: gone(sub, s, k) },
            base as int,
            limit,
        ) == (Run {
            value: numerals::value_from(acc, t, base) as int,
            count: count + t.len(),
            s: gone(sub, s, k + t.len()),
        }),
    decreases t.len(),
{
    lemma_ahead(sub, s, k);
    if t.len() > 0 {
        assert(ahead(sub, s, k + 0) == Some(t[0]));
        let rest = t.drop_first();
        assert forall|j: int| 0 <= j < rest.len() implies #[trigger] ahead(sub, s, k + 1 + j)
            == Some(rest[j]) by {
            assert(ahead(sub, s, k + (j + 1)) == Some(t[j + 1]));
        }
        lemma_run(
            sub,
            s,
            k + 1,
            rest,
            (acc * base + numerals::digit_of(t[0]).unwrap()) as nat,
            count + 1,
            base,
            (limit - 1) as nat,
        );
    }
}

/// Whether a digit of the base is `k` places ahead.
pub open spec fn is_digit_ahead(sub: SubjectView, s: Scan, k: int, base: nat) -> bool {
    ahead(sub, s, k) matches Some(c) && numerals::digit_of(c) is Some && numerals::digit_of(
        c,
    ).unwrap() < base
}

// Conversion specifications

/// A conversion specification, as it is written in a format string.
pub struct Asked {
    /// `*`
    pub suppress: bool,
    /// The digits of the width.
    pub width: Seq<u8>,
    /// The length modifier.
    pub length: Seq<u8>,
    pub specifier: u8,
}

/// The length modifiers of integers.
pub open spec fn is_scan_length(t: Seq<u8>) -> bool {
    ||| t == Seq::<u8>::empty()
    ||| t == seq!['h' as u8, 'h' as u8]
    ||| t == seq!['h' as u8]
    ||| t == seq!['l' as u8]
    ||| t == seq!['l' as u8, 'l' as u8]
    ||| t == seq!['q' as u8]
}

impl Asked {
    #[verifier::opaque]
    pub open spec fn text(self) -> Seq<u8> {
        seq!['%' as u8] + format_laws::flag(self.suppress, '*' as u8) + self.width + self.length
            + seq![self.specifier]
    }

    pub open spec fn width_value(self) -> int {
        numerals::value_from(0, self.width, 10) as int
    }

    /// The most characters that it takes.
    pub open spec fn limit(self) -> int {
        if self.width_value() > 0 {
            self.width_value()
        } else {
            u32::MAX as int
        }
    }

    pub open spec fn wf(self) -> bool {
        &&& format_laws::all_digits(self.width)
        &&& self.width_value() <= u32::MAX
        &&& is_scan_length(self.length)
    }
}

spec fn asked_directive(a: Asked) -> ScanDirective {
    ScanDirective {
        suppress: a.suppress,
        width: a.width_value() as u32,
        length: format_laws::length_kind(a.length),
        specifier: a.specifier,
    }
}

proof fn lemma_asked(a: Asked, m: MemState)
    requires
        a.wf(),
        directive::is_specifier(a.specifier),
    ensures
        scanf::parse_scan(FormatView::Bytes { bytes: a.text() }, m, 1) == Some(
            (asked_directive(a), a.text().len() as int),
        ),
        a.text().len() > 1,
        a.text()[0] == '%' as u8,
{
    reveal(Asked::text);
    let bytes = a.text();
    let f = FormatView::Bytes { bytes };
    let a1: int = 1int + format_laws::flag(a.suppress, '*' as u8).len();
    let a2: int = a1 + a.width.len();
    let a3: int = a2 + a.length.len();
    assert(bytes.subrange(a1, a2) =~= a.width);
    assert(bytes.subrange(a2, a3) =~= a.length);
    assert(bytes[a3] == a.specifier);
    assert(a3 == bytes.len() - 1);
    format_laws::lemma_lengths_differ();
    if a.width.len() > 0 {
        assert(bytes.subrange(a1, a2)[0] == bytes[a1]);
        assert(48 <= a.width[0] <= 57);
    }
    if a.length.len() > 0 {
        assert(bytes.subrange(a2, a3)[0] == bytes[a2]);
        assert(a.length[0] == bytes[a2]);
    }
    assert(!directive::is_digit(bytes[a2]));
    assert(format_laws::is_length(a.length));
    format_laws::lemma_number(bytes, m, a1, a.width, 0);
    format_laws::lemma_length(bytes, m, a2, a.length);
    format_laws::lemma_value_grows(0, a.width);
    if a.suppress {
        assert(bytes[1] == '*' as u8);
    } else {
        assert(bytes[1] != '*' as u8);
    }
    assert(directive::skip_char(f, m, 1, '*' as u8) == a1);
}

/// What a format string that is one conversion comes to.
proof fn lemma_asked_alone(sub: SubjectView, a: Asked, s: Scan)
    requires
        a.wf(),
        directive::is_specifier(a.specifier),
        a.specifier != '[' as u8,
        s.fidx == 0,
    ensures
        ({
            let f = FormatView::Bytes { bytes: a.text() };
            let next = scanf::scan_convert(
                sub,
                f,
                asked_directive(a),
                Scan { fidx: a.text().len() as int, ..s },
            );
            scanf::scan_run(sub, f, s) == if next.1 is Go && next.0.fidx == a.text().len() {
                (next.0, ScanFlow::Done)
            } else {
                scanf::scan_run(sub, f, s)
            } && (!(next.1 is Go) ==> scanf::scan_run(sub, f, s) == next)
        }),
{
    let f = FormatView::Bytes { bytes: a.text() };
    lemma_asked(a, s.mem);
    scanf::lemma_scan_step(sub, f, s);
    let next = scanf::scan_step(sub, f, s);
    if next.1 is Go && next.0.fidx == a.text().len() {
        assert(f.at(next.0.mem, next.0.fidx) == 0);
        assert(scanf::scan_run(sub, f, next.0) == (next.0, ScanFlow::Done));
        assert(scanf::scan_run(sub, f, s) == scanf::scan_run(sub, f, next.0));
    }
}

// Integers

/// How many values the integer that is stored can have.
pub open spec fn range_of(a: Asked) -> int {
    if a.specifier == 'p' as u8 {
        0x1_0000_0000
    } else if a.length == seq!['h' as u8, 'h' as u8] {
        0x100
    } else if a.length == seq!['h' as u8] {
        0x1_0000
    } else if a.length.len() == 2 || a.length == seq!['q' as u8] {
        0x1_0000_0000_0000_0000
    } else {
        0x1_0000_0000
    }
}

/// The base of an integer with the digits `t`.
pub open spec fn base_of(a: Asked, prefix: Seq<u8>, t: Seq<u8>) -> nat {
    if a.specifier == 'd' as u8 || a.specifier == 'u' as u8 {
        10
    } else if a.specifier != 'i' as u8 || prefix.len() > 0 {
        16
    } else if t.len() > 0 && t[0] == '0' as u8 {
        8
    } else {
        10
    }
}

/// What is stored for the digits of a number: the number, or the largest one there
/// is, or zero for `%p`; with a minus sign, its two's complement.
pub open spec fn stored(a: Asked, negative: bool, n: nat) -> int {
    let largest = if a.specifier == 'd' as u8 || a.specifier == 'i' as u8 {
        range_of(a) / 2 - 1
    } else {
        range_of(a) - 1
    };
    let v: int = if n <= largest {
        n as int
    } else if a.specifier == 'p' as u8 {
        0
    } else {
        largest
    };
    if negative && v > 0 {
        range_of(a) - v
    } else {
        v
    }
}

/// The memory with an integer of the range stored at `ptr`.
pub open spec fn with_integer(m: MemState, ptr: u32, range: int, v: int) -> MemState {
    if range == 0x100 {
        m.poke(ptr, v as u8)
    } else if range == 0x1_0000 {
        m.poke_u16(ptr, v as u16)
    } else if range == 0x1_0000_0000 {
        m.poke_u32(ptr, v as u32)
    } else {
        m.poke_u64(ptr, v as u64)
    }
}

/// Whether these are a sign and a prefix that an integer can have: `0x` and `0X` are
/// for hexadecimal ones.
pub open spec fn is_lead(a: Asked, sign: Seq<u8>, prefix: Seq<u8>) -> bool {
    &&& sign == Seq::<u8>::empty() || sign == seq!['+' as u8] || sign == seq!['-' as u8]
    &&& prefix == Seq::<u8>::empty() || ((prefix == seq!['0' as u8, 'x' as u8] || prefix
        == seq!['0' as u8, 'X' as u8]) && a.specifier != 'd' as u8 && a.specifier != 'u' as u8)
}

/// `%d`, `%i`, `%u`, `%x`, `%X` and `%p` skip white space, read a sign, a prefix and
/// digits, and store the number where the argument points to. They end behind the
/// last digit, or where the width does.
pub proof fn law_scan_integer(
    sub: SubjectView,
    a: Asked,
    s: Scan,
    blanks: int,
    sign: Seq<u8>,
    prefix: Seq<u8>,
    t: Seq<u8>,
)
    requires
        a.wf(),
        a.specifier == 'd' as u8 || a.specifier == 'i' as u8 || a.specifier == 'u' as u8
            || a.specifier == 'x' as u8 || a.specifier == 'X' as u8 || a.specifier == 'p' as u8,
        !(a.length == seq!['h' as u8] && (a.specifier == 'u' as u8 || a.specifier == 'x' as u8
            || a.specifier == 'X' as u8)),
        s.fidx == 0,
        0 <= blanks,
        sub is File ==> 0 <= s.pos,
        is_lead(a, sign, prefix),
        t.len() > 0,
        s.idx + blanks + sign.len() + prefix.len() + t.len() + 2 < u32::MAX,
        forall|j: int|
            0 <= j < blanks ==> (#[trigger] ahead(sub, s, j)) is Some && is_blank(
                ahead(sub, s, j).unwrap(),
            ),
        comes(sub, s, blanks, sign + prefix + t),
        forall|j: int|
            0 <= j < t.len() ==> numerals::digit_of(#[trigger] t[j]) is Some
                && numerals::digit_of(t[j]).unwrap() < base_of(a, prefix, t),
        sign.len() + prefix.len() + t.len() <= a.limit(),
        sign.len() + prefix.len() + t.len() == a.limit() || !is_digit_ahead(
            sub,
            s,
            blanks + sign.len() + prefix.len() + t.len(),
            base_of(a, prefix, t),
        ),
        // A lone zero is not taken for the start of a prefix.
        prefix.len() == 0 && t =~= seq!['0' as u8] && a.limit() > sign.len() + 1 ==> ahead(
            sub,
            s,
            blanks + sign.len() + 1,
        ) != Some('x' as u8) && ahead(sub, s, blanks + sign.len() + 1) != Some('X' as u8),
    ensures
        ({
            let (after, flow) = scanf::scan_run(sub, FormatView::Bytes { bytes: a.text() }, s);
            let end = gone(sub, s, (blanks + sign.len() + prefix.len() + t.len()) as int);
            let n = numerals::value_from(0, t, base_of(a, prefix, t));
            &&& flow is Done
            &&& after.idx == end.idx && after.pos == end.pos && after.fidx == a.text().len()
            &&& a.suppress ==> after.mem == s.mem && after.va == s.va && after.matched == s.matched
            &&& !a.suppress ==> after.matched == s.matched + 1 && after.va == mem::wrap(s.va + 4)
                && after.mem == with_integer(
                s.mem,
                s.mem.peek_u32(s.va),
                range_of(a),
                stored(a, sign == seq!['-' as u8], n),
            )
        }),
{
    let f = FormatView::Bytes { bytes: a.text() };
    let d = asked_directive(a);
    let s0 = Scan { fidx: a.text().len() as int, ..s };
    lemma_asked(a, s.mem);
    lemma_asked_alone(sub, a, s);
    lemma_ahead_same(sub, s, s0);
    let whole = sign + prefix + t;
    assert(ahead(sub, s, blanks + 0) == Some(whole[0]));
    lemma_starts(a, sign, prefix, t);
    lemma_blanks(sub, s0, 0, blanks);
    lemma_ahead(sub, s0, 0);
    let s1 = gone(sub, s0, blanks);
    assert(scanf::skip_spaces(sub, s0) == s1);
    lemma_ahead(sub, s0, blanks);
    format_laws::lemma_lengths_differ();
    format_laws::lemma_value_grows(0, a.width);
    let base: int = if a.specifier == 'i' as u8 {
        0
    } else if a.specifier == 'd' as u8 || a.specifier == 'u' as u8 {
        10
    } else {
        16
    };
    lemma_integer_is(sub, a, s0, blanks, sign, prefix, t, base);
}

proof fn lemma_ahead_same(sub: SubjectView, s: Scan, r: Scan)
    requires
        r == (Scan { fidx: r.fidx, ..s }),
    ensures
        forall|k: int|
            #![trigger ahead(sub, s, k)]
            #![trigger ahead(sub, r, k)]
            ahead(sub, s, k) == ahead(sub, r, k),
{
}

proof fn lemma_starts(a: Asked, sign: Seq<u8>, prefix: Seq<u8>, t: Seq<u8>)
    requires
        is_lead(a, sign, prefix),
        t.len() > 0,
        numerals::digit_of(t[0]) is Some,
    ensures
        ({
            let whole = sign + prefix + t;
            &&& !is_blank(whole[0])
            &&& sign.len() <= 1
            &&& prefix.len() == 0 || prefix.len() == 2
            &&& sign.len() == 1 ==> whole[0] == sign[0]
            &&& sign.len() == 0 ==> whole[0] != '-' as u8 && whole[0] != '+' as u8
            &&& prefix.len() == 2 ==> whole[sign.len() as int] == '0' as u8 && (whole[sign.len()
                + 1int] == 'x' as u8 || whole[sign.len() + 1int] == 'X' as u8)
            &&& prefix.len() == 0 ==> whole[sign.len() as int] == t[0]
        }),
{
    let plus = seq!['+' as u8];
    let minus = seq!['-' as u8];
    let low = seq!['0' as u8, 'x' as u8];
    let up = seq!['0' as u8, 'X' as u8];
    assert(plus.len() == 1 && minus.len() == 1 && low.len() == 2 && up.len() == 2);
    assert(plus[0] == '+' as u8 && minus[0] == '-' as u8 && low[0] == '0' as u8 && up[0]
        == '0' as u8);
    assert(low[1] == 'x' as u8 && up[1] == 'X' as u8);
}

proof fn lemma_integer_is(
    sub: SubjectView,
    a: Asked,
    s: Scan,
    at: int,
    sign: Seq<u8>,
    prefix: Seq<u8>,
    t: Seq<u8>,
    base: int,
)
    requires
        0 <= at,
        sub is File ==> 0 <= s.pos,
        is_lead(a, sign, prefix),
        t.len() > 0,
        s.idx + at + sign.len() + prefix.len() + t.len() + 2 < u32::MAX,
        comes(sub, s, at, sign + prefix + t),
        base == if a.specifier == 'i' as u8 {
            0int
        } else if a.specifier == 'd' as u8 || a.specifier == 'u' as u8 {
            10
        } else {
            16
        },
        forall|j: int|
            0 <= j < t.len() ==> numerals::digit_of(#[trigger] t[j]) is Some
                && numerals::digit_of(t[j]).unwrap() < base_of(a, prefix, t),
        sign.len() + prefix.len() + t.len() <= a.limit(),
        sign.len() + prefix.len() + t.len() == a.limit() || !is_digit_ahead(
            sub,
            s,
            at + sign.len() + prefix.len() + t.len(),
            base_of(a, prefix, t),
        ),
        prefix.len() == 0 && t =~= seq!['0' as u8] && a.limit() > sign.len() + 1 ==> ahead(
            sub,
            s,
            at + sign.len() + 1,
        ) != Some('x' as u8) && ahead(sub, s, at + sign.len() + 1) != Some('X' as u8),
    ensures
        ({
            let n = scanf::integer(sub, gone(sub, s, at), base, a.limit() as nat);
            &&& n.found
            &&& n.negative == (sign == seq!['-' as u8])
            &&& n.magnitude == numerals::value_from(0, t, base_of(a, prefix, t))
            &&& n.s == gone(sub, s, at + sign.len() + prefix.len() + t.len())
        }),
{
    let whole = sign + prefix + t;
    lemma_starts(a, sign, prefix, t);
    let minus = seq!['-' as u8];
    assert(minus.len() == 1 && minus[0] == '-' as u8);
    let limit = a.limit() as nat;
    let k1: int = at + sign.len();
    let radix = base_of(a, prefix, t);
    assert(ahead(sub, s, at + 0) == Some(whole[0]));
    assert(ahead(sub, s, at + sign.len()) == Some(whole[sign.len() as int]));
    lemma_ahead(sub, s, at);
    lemma_ahead(sub, s, k1);
    lemma_ahead(sub, s, k1 + 1);
    let limit1 = (limit - sign.len()) as nat;
    let k2: int = k1 + prefix.len();
    assert forall|j: int| 0 <= j < t.len() implies #[trigger] ahead(sub, s, k2 + j) == Some(t[j])
        by {
        assert(ahead(sub, s, at + (sign.len() + prefix.len() + j)) == Some(
            whole[sign.len() + prefix.len() + j],
        ));
    }
    if prefix.len() == 2 {
        assert(ahead(sub, s, at + (sign.len() + 1)) == Some(whole[sign.len() + 1int]));
        lemma_run(sub, s, k2, t, 0, 0, radix, (limit1 - 2) as nat);
    } else {
        lemma_run(sub, s, k2, t, 0, 0, radix, limit1);
        if t[0] == '0' as u8 {
            // The first digit is taken by itself.
            let rest = t.drop_first();
            assert forall|j: int| 0 <= j < rest.len() implies #[trigger] ahead(
                sub,
                s,
                k1 + 1 + j,
            ) == Some(rest[j]) by {
                assert(ahead(sub, s, k2 + (j + 1)) == Some(t[j + 1]));
            }
            assert(0 * radix + 0 == 0) by (nonlinear_arith);
            lemma_run(sub, s, k1 + 1, rest, 0, 1, radix, (limit1 - 1) as nat);
            if t.len() > 1 {
                assert(ahead(sub, s, k1 + 1 + 0) == Some(rest[0]));
                assert(numerals::digit_of(t[1]) is Some);
            } else {
                assert(t =~= seq!['0' as u8]);
            }
        }
    }
}

/// Where there is no digit behind the white space and a sign, an integer conversion
/// ends the scan: nothing is stored and nothing is counted.
pub proof fn law_scan_no_integer(sub: SubjectView, a: Asked, s: Scan, blanks: int, sign: Seq<u8>)
    requires
        a.wf(),
        a.specifier == 'd' as u8 || a.specifier == 'u' as u8 || a.specifier == 'i' as u8
            || a.specifier == 'x' as u8 || a.specifier == 'X' as u8 || a.specifier == 'p' as u8,
        !(a.length == seq!['h' as u8] && (a.specifier == 'u' as u8 || a.specifier == 'x' as u8
            || a.specifier == 'X' as u8)),
        s.fidx == 0,
        0 <= blanks,
        sub is File ==> 0 <= s.pos,
        s.idx + blanks + 3 < u32::MAX,
        forall|j: int|
            0 <= j < blanks ==> (#[trigger] ahead(sub, s, j)) is Some && is_blank(
                ahead(sub, s, j).unwrap(),
            ),
        sign == Seq::<u8>::empty() || sign == seq!['+' as u8] || sign == seq!['-' as u8],
        comes(sub, s, blanks, sign),
        a.limit() > sign.len(),
        !is_digit_ahead(sub, s, blanks + sign.len(), 16),
        ahead(sub, s, blanks + sign.len()) matches Some(c) ==> !is_blank(c) && (sign.len() == 0
            ==> c != '+' as u8 && c != '-' as u8),
    ensures
        ({
            let (after, flow) = scanf::scan_run(sub, FormatView::Bytes { bytes: a.text() }, s);
            &&& flow is Done
            &&& after.mem == s.mem
            &&& after.va == s.va
            &&& after.matched == s.matched
        }),
{
    let f = FormatView::Bytes { bytes: a.text() };
    let s0 = Scan { fidx: a.text().len() as int, ..s };
    lemma_asked(a, s.mem);
    lemma_asked_alone(sub, a, s);
    lemma_ahead_same(sub, s, s0);
    let plus = seq!['+' as u8];
    let minus = seq!['-' as u8];
    assert(plus.len() == 1 && minus.len() == 1 && plus[0] == '+' as u8 && minus[0] == '-' as u8);
    if sign.len() > 0 {
        assert(ahead(sub, s, blanks + 0) == Some(sign[0]));
    }
    lemma_blanks(sub, s0, 0, blanks);
    lemma_ahead(sub, s0, 0);
    lemma_ahead(sub, s0, blanks);
    lemma_ahead(sub, s0, blanks + 1);
    lemma_ahead(sub, s0, blanks + 2);
    format_laws::lemma_lengths_differ();
    let k: int = blanks + sign.len();
    let c = ahead(sub, s0, k);
    assert(c is Some ==> scanf::digit_value(c.unwrap()) >= 16);
}

/// What `%x`, `%X`, `%u` or `%d` puts out for a word, the same conversion reads back
/// as that word. The one word whose number has no absolute value of its kind is left
/// out for `%d`.
pub proof fn law_word_reads_back(
    ns_log: bool,
    locale: u32,
    w: Written,
    a: Asked,
    va: u32,
    m: MemState,
    s: Scan,
)
    requires
        w.wf(),
        w.is_plain(),
        format_laws::is_word_length(w.length),
        a.wf(),
        a.width.len() == 0,
        !a.suppress,
        a.length == Seq::<u8>::empty() || a.length == seq!['l' as u8],
        a.specifier == w.specifier,
        w.specifier == 'x' as u8 || w.specifier == 'X' as u8 || w.specifier == 'u' as u8
            || w.specifier == 'd' as u8,
        w.specifier == 'd' as u8 ==> m.peek_u32(va) != 0x8000_0000,
        s.fidx == 0,
        s.idx == 0,
    ensures
        ({
            let t = printf::start(
                ns_log,
                locale,
                FormatView::Bytes { bytes: w.text() },
                va,
                m,
            ).0.out;
            let (after, flow) = scanf::scan_run(
                SubjectView::Text { bytes: t },
                FormatView::Bytes { bytes: a.text() },
                s,
            );
            &&& flow is Done
            &&& t.len() < 20
            &&& after.idx == t.len()
            &&& after.matched == s.matched + 1
            &&& after.mem == s.mem.poke_u32(s.mem.peek_u32(s.va), m.peek_u32(va))
        }),
{
    let t = printf::start(ns_log, locale, FormatView::Bytes { bytes: w.text() }, va, m).0.out;
    let sub = SubjectView::Text { bytes: t };
    let word = m.peek_u32(va);
    let none = Seq::<u8>::empty();
    format_laws::lemma_lengths_differ();
    assert(w.width.len() == 0);
    assert(format_laws::argument(m, va, w.length) == word);
    assert(format_laws::range_of(w.length) == 0x1_0000_0000);
    assert(range_of(a) == 0x1_0000_0000);
    assert(a.width =~= none);
    assert(a.width_value() == 0);
    if w.specifier == 'd' as u8 {
        let i: int = if word < 0x8000_0000 {
            word as int
        } else {
            word - 0x1_0000_0000
        };
        format_laws::law_signed(ns_log, locale, w, va, m, i);
        let sign: Seq<u8> = if i < 0 {
            seq!['-' as u8]
        } else {
            none
        };
        let digits = t.skip(sign.len() as int);
        assert(i < 0 ==> digits =~= t.drop_first());
        assert(i >= 0 ==> digits =~= t);
        let n: nat = if i < 0 {
            (-i) as nat
        } else {
            i as nat
        };
        lemma_number_length(digits, n, 10, false);
        assert(sign + none + digits =~= t);
        lemma_text_comes(t, s, sign + none + digits);
        assert(sign == seq!['-' as u8] <==> i < 0) by {
            assert(seq!['-' as u8].len() == 1);
        }
        lemma_scannable(a, t, s, sign, digits, n, 10, false);
        law_scan_integer(sub, a, s, 0, sign, none, digits);
    } else {
        let upper = w.specifier == 'X' as u8;
        let base: nat = if w.specifier == 'u' as u8 {
            10
        } else {
            16
        };
        if w.specifier == 'u' as u8 {
            format_laws::law_unsigned(ns_log, locale, w, va, m);
            let core = choose|core: Seq<u8>| #[trigger]
                numerals::is_field(
                    t,
                    core,
                    w.width_value(),
                    format_laws::filler(w),
                    w.left,
                ) && numerals::is_number(core, word as nat, 10, false, w.precision_value());
            assert(t =~= core);
        } else {
            format_laws::law_hexadecimal(ns_log, locale, w, va, m);
            assert(t.skip(0) =~= t);
        }
        lemma_number_length(t, word as nat, base, upper);
        assert(none + none + t =~= t);
        lemma_text_comes(t, s, none + none + t);
        assert(none != seq!['-' as u8]) by {
            assert(seq!['-' as u8].len() == 1);
        }
        lemma_scannable(a, t, s, none, t, word as nat, base, upper);
        law_scan_integer(sub, a, s, 0, none, none, t);
    }
}

proof fn lemma_text_comes(t: Seq<u8>, s: Scan, whole: Seq<u8>)
    requires
        whole == t,
        s.idx == 0,
    ensures
        comes(SubjectView::Text { bytes: t }, s, 0, whole),
{
}

/// The text of a number can be scanned.
proof fn lemma_scannable(
    a: Asked,
    t: Seq<u8>,
    s: Scan,
    sign: Seq<u8>,
    digits: Seq<u8>,
    n: nat,
    base: nat,
    upper: bool,
)
    requires
        numerals::is_number(digits, n, base, upper, 0) || numerals::is_number(
            digits,
            n,
            base,
            upper,
            1,
        ),
        t.len() == sign.len() + digits.len(),
        s.idx == 0,
        base == base_of(a, Seq::empty(), digits),
        a.specifier != 'i' as u8,
    ensures
        forall|j: int|
            0 <= j < digits.len() ==> numerals::digit_of(#[trigger] digits[j]) is Some
                && numerals::digit_of(digits[j]).unwrap() < base_of(a, Seq::empty(), digits),
        !is_digit_ahead(
            SubjectView::Text { bytes: t },
            s,
            (0 + sign.len() + 0 + digits.len()) as int,
            base,
        ),
        digits =~= seq!['0' as u8] ==> ahead(
            SubjectView::Text { bytes: t },
            s,
            0int + sign.len() + 1,
        ) == Some(0u8),
{
    assert forall|j: int| 0 <= j < digits.len() implies numerals::digit_of(#[trigger] digits[j])
        is Some && numerals::digit_of(digits[j]).unwrap() < base by {
        assert(numerals::is_base_digit(digits[j], base, upper));
    }
}

/// A number below 2^33 has few digits.
proof fn lemma_number_length(t: Seq<u8>, n: nat, base: nat, upper: bool)
    requires
        numerals::is_number(t, n, base, upper, 0) || numerals::is_number(t, n, base, upper, 1),
        base == 10 || base == 16,
        n < 0x1_0000_0000,
    ensures
        t.len() < 12,
{
    if t.len() >= 12 {
        assert(t[0] != 48);
        assert(numerals::is_base_digit(t[0], base, upper));
        lemma_leading(t, base, upper);
    }
}

proof fn lemma_leading(t: Seq<u8>, base: nat, upper: bool)
    requires
        base >= 10,
        t.len() >= 12,
        t[0] != 48,
        forall|j: int| 0 <= j < t.len() ==> numerals::is_base_digit(#[trigger] t[j], base, upper),
    ensures
        numerals::value_from(0, t, base) >= 100_000_000_000,
{
    reveal_with_fuel(numerals::value_from, 2);
    assert(numerals::is_base_digit(t[0], base, upper));
    let d = numerals::digit_of(t[0]).unwrap();
    assert(0 * base + d == d) by (nonlinear_arith);
    lemma_grows_by(d, t.drop_first(), base, 11, 1);
}

proof fn lemma_grows_by(acc: nat, t: Seq<u8>, base: nat, k: nat, least: nat)
    requires
        base >= 10,
        t.len() >= k,
        acc >= least,
    ensures
        numerals::value_from(acc, t, base) >= least * vstd::arithmetic::power::pow(10, k),
        k == 11 && least == 1 ==> numerals::value_from(acc, t, base) >= 100_000_000_000,
    decreases t.len(),
{
    reveal_with_fuel(vstd::arithmetic::power::pow, 12);
    if t.len() > 0 {
        let next = (acc * base + numerals::digit_of(t[0]).unwrap()) as nat;
        assert(acc * base >= acc * 10) by (nonlinear_arith)
            requires
                base >= 10,
        ;
        if k > 0 {
            lemma_grows_by(next, t.drop_first(), base, (k - 1) as nat, least * 10);
            assert(vstd::arithmetic::power::pow(10, k) == 10 * vstd::arithmetic::power::pow(
                10,
                (k - 1) as nat,
            ));
            let q = vstd::arithmetic::power::pow(10, (k - 1) as nat);
            assert((least * 10) * q == least * (10 * q)) by (nonlinear_arith);
        } else {
            lemma_grows_by(next, t.drop_first(), base, 0, least);
        }
    }
}

// Text

/// Whether storing `n` bytes from `p` on leaves what is scanned alone, up to `k`
/// places ahead.
pub open spec fn spares(sub: SubjectView, s: Scan, k: int, p: u32, n: int) -> bool {
    sub matches SubjectView::CString { ptr } ==> forall|j: int, i: int|
        0 <= j <= k && 0 <= i < n ==> #[trigger] mem::wrap(ptr + s.idx + j) != #[trigger] mem::wrap(
            p + i,
        )
}

/// Scanning with other contents of the memory.
spec fn with_mem(s: Scan, m: MemState) -> Scan {
    Scan { mem: m, ..s }
}

proof fn lemma_ahead_spared(
    sub: SubjectView,
    s: Scan,
    k: int,
    p: u32,
    t: Seq<u8>,
    j: int,
)
    requires
        spares(sub, s, k, p, t.len() as int),
        0 <= j <= k,
    ensures
        ahead(sub, with_mem(s, s.mem.poke_bytes(p, t)), j) == ahead(sub, s, j),
    decreases t.len(),
{
    if t.len() > 0 {
        if sub is CString {
            assert(spares(sub, s, k, p, t.drop_last().len() as int));
            lemma_ahead_spared(sub, s, k, p, t.drop_last(), j);
            let ptr = sub->ptr;
            let at = mem::wrap(p + t.len() - 1);
            assert(mem::wrap(ptr + s.idx + j) != mem::wrap(p + (t.len() - 1)));
            mem::laws::law_byte_reads_back(
                s.mem.poke_bytes(p, t.drop_last()),
                at,
                t.last(),
                mem::wrap(ptr + s.idx + j),
            );
        }
    }
}

/// How a word or a run of a set ends: with the width, with the file, or with a
/// character that does not belong to it.
pub open spec fn ends_at(sub: SubjectView, s: Scan, k: int, taken: int, limit: int, stop: bool) -> bool {
    taken == limit || ahead(sub, s, k) is None || stop
}

proof fn lemma_word(
    sub: SubjectView,
    s: Scan,
    at: int,
    t: Seq<u8>,
    k: int,
    dst: Option<u32>,
    limit: nat,
)
    requires
        0 <= k <= t.len(),
        0 <= at,
        s.idx + at + t.len() + 2 < u32::MAX,
        sub is File ==> 0 <= s.pos,
        comes(sub, s, at, t),
        forall|j: int| 0 <= j < t.len() ==> !is_blank(#[trigger] t[j]) && t[j] != 0,
        t.len() <= limit,
        ends_at(
            sub,
            s,
            at + t.len(),
            t.len() as int,
            limit as int,
            ahead(sub, s, at + t.len()) matches Some(c) && (is_blank(c) || (c == 0 && !(sub
                is File))),
        ),
        dst matches Some(p) ==> spares(sub, s, at + t.len(), p, t.len() as int),
    ensures
        ({
            let m = |i: int|
                match dst {
                    Some(p) => s.mem.poke_bytes(p, t.take(i)),
                    None => s.mem,
                };
            let to = |i: int|
                match dst {
                    Some(p) => Some(mem::wrap(p + i)),
                    None => None::<u32>,
                };
            scanf::copy_word(
                sub,
                scanf::Copied {
                    count: k,
                    s: with_mem(gone(sub, s, at + k), m(k)),
                    dst: to(k),
                },
                (limit - k) as nat,
            ) == (scanf::Copied {
                count: t.len() as int,
                s: with_mem(gone(sub, s, at + t.len()), m(t.len() as int)),
                dst: to(t.len() as int),
            })
        }),
    decreases t.len() - k,
{
    let m = match dst {
        Some(p) => s.mem.poke_bytes(p, t.take(k)),
        None => s.mem,
    };
    let r = with_mem(s, m);
    lemma_ahead(sub, r, at + k);
    assert(gone(sub, r, at + k) == with_mem(gone(sub, s, at + k), m));
    if let Some(p) = dst {
        assert(spares(sub, s, at + t.len(), p, t.take(k).len() as int));
        lemma_ahead_spared(sub, s, at + t.len(), p, t.take(k), at + k);
    }
    assert(ahead(sub, r, at + k) == ahead(sub, s, at + k));
    if k < t.len() {
        assert(ahead(sub, s, at + k) == Some(t[k]));
        assert(gone(sub, r, at + k + 1) == with_mem(gone(sub, s, at + k + 1), m));
        if let Some(p) = dst {
            assert(t.take(k + 1).drop_last() =~= t.take(k));
            assert(s.mem.poke_bytes(p, t.take(k + 1)) == m.poke(mem::wrap(p + k), t[k]));
            mem::lemma_wrap(p + k, 1);
        }
        lemma_word(sub, s, at, t, k + 1, dst, limit);
    } else {
        assert(t.take(k) =~= t);
    }
}

/// `%s` skips white space and copies the characters up to the next white space, the
/// end or the width to where the argument points to, with a NUL behind them.
pub proof fn law_scan_word(sub: SubjectView, a: Asked, s: Scan, blanks: int, t: Seq<u8>)
    requires
        a.wf(),
        a.specifier == 's' as u8,
        s.fidx == 0,
        0 <= blanks,
        sub is File ==> 0 <= s.pos,
        s.idx + blanks + t.len() + 2 < u32::MAX,
        t.len() > 0,
        forall|j: int|
            0 <= j < blanks ==> (#[trigger] ahead(sub, s, j)) is Some && is_blank(
                ahead(sub, s, j).unwrap(),
            ),
        comes(sub, s, blanks, t),
        forall|j: int| 0 <= j < t.len() ==> !is_blank(#[trigger] t[j]) && t[j] != 0,
        t.len() <= a.limit(),
        ends_at(
            sub,
            s,
            blanks + t.len(),
            t.len() as int,
            a.limit(),
            ahead(sub, s, blanks + t.len()) matches Some(c) && (is_blank(c) || (c == 0 && !(sub
                is File))),
        ),
        !a.suppress ==> spares(sub, s, blanks + t.len(), s.mem.peek_u32(s.va), t.len() as int),
    ensures
        ({
            let (after, flow) = scanf::scan_run(sub, FormatView::Bytes { bytes: a.text() }, s);
            let end = gone(sub, s, blanks + t.len());
            &&& flow is Done
            &&& after.idx == end.idx && after.pos == end.pos
            &&& a.suppress ==> after.mem == s.mem && after.va == s.va && after.matched == s.matched
            &&& !a.suppress ==> after.mem == s.mem.poke_cstr(s.mem.peek_u32(s.va), t) && after.va
                == mem::wrap(s.va + 4) && after.matched == s.matched + 1
        }),
{
    let f = FormatView::Bytes { bytes: a.text() };
    let d = asked_directive(a);
    let s0 = Scan { fidx: a.text().len() as int, ..s };
    lemma_asked(a, s.mem);
    lemma_asked_alone(sub, a, s);
    lemma_ahead_same(sub, s, s0);
    assert(ahead(sub, s, blanks + 0) == Some(t[0]));
    lemma_blanks(sub, s0, 0, blanks);
    lemma_ahead(sub, s0, 0);
    lemma_ahead(sub, s0, blanks);
    format_laws::lemma_value_grows(0, a.width);
    let s1 = gone(sub, s0, blanks);
    let (dst, u) = scanf::destination(d, s1);
    // The argument is taken before the characters are.
    let r = if a.suppress {
        s0
    } else {
        Scan { va: mem::wrap(s0.va + 4), ..s0 }
    };
    assert(u == gone(sub, r, blanks));
    assert forall|j: int| 0 <= j < t.len() implies #[trigger] ahead(sub, r, blanks + j) == Some(
        t[j],
    ) by {
        assert(ahead(sub, s, blanks + j) == Some(t[j]));
    }
    assert(ahead(sub, r, blanks + t.len()) == ahead(sub, s, blanks + t.len()));
    if let Some(p) = dst {
        assert(spares(sub, r, blanks + t.len(), p, t.len() as int));
    }
    lemma_word(sub, r, blanks, t, 0, dst, a.limit() as nat);
    assert(t.take(0) =~= seq![]);
    assert(t.take(t.len() as int) =~= t);
    if let Some(p) = dst {
        assert(r.mem.poke_bytes(p, t.take(0)) == r.mem);
        assert(mem::wrap(p + 0) == p);
    }
    assert(with_mem(gone(sub, r, blanks + 0), r.mem) == u);
}

/// `%c` stores the next character, white space or not, where the argument points to;
/// `%n` stores how many characters were scanned so far, and is not counted.
pub proof fn law_scan_character(sub: SubjectView, a: Asked, s: Scan)
    requires
        a.wf(),
        !a.suppress,
        a.specifier == 'c' as u8 || a.specifier == 'n' as u8,
        s.fidx == 0,
        sub is File ==> 0 <= s.pos,
        s.idx + 2 < u32::MAX,
    ensures
        ({
            let (after, flow) = scanf::scan_run(sub, FormatView::Bytes { bytes: a.text() }, s);
            let p = s.mem.peek_u32(s.va);
            &&& flow is Done
            &&& a.specifier == 'c' as u8 ==> match ahead(sub, s, 0) {
                Some(c) => {
                    &&& after.idx == s.idx + 1
                    &&& after.pos == gone(sub, s, 1).pos
                    &&& after.matched == s.matched + 1
                    &&& after.mem == s.mem.poke(p, c)
                    &&& after.va == mem::wrap(s.va + 4)
                },
                None => after.matched == s.matched && after.mem == s.mem,
            }
            &&& a.specifier == 'n' as u8 ==> {
                &&& after.idx == s.idx && after.pos == s.pos
                &&& after.matched == s.matched
                &&& after.mem == s.mem.poke_u32(p, s.idx)
                &&& after.va == mem::wrap(s.va + 4)
            }
        }),
{
    let s0 = Scan { fidx: a.text().len() as int, ..s };
    lemma_asked(a, s.mem);
    lemma_asked_alone(sub, a, s);
    lemma_ahead(sub, s0, 0);
    lemma_ahead_same(sub, s, s0);
}

// What stands between conversions

/// White space in the format string skips any white space, and another character
/// must come next, or the scan ends.
pub proof fn law_scan_literal(sub: SubjectView, c: u8, s: Scan, blanks: int)
    requires
        c != 0,
        c != '%' as u8,
        s.fidx == 0,
        0 <= blanks,
        sub is File ==> 0 <= s.pos,
        s.idx + blanks + 2 < u32::MAX,
        forall|j: int|
            0 <= j < blanks ==> (#[trigger] ahead(sub, s, j)) is Some && is_blank(
                ahead(sub, s, j).unwrap(),
            ),
        ahead(sub, s, blanks) matches Some(d) ==> !is_blank(d),
    ensures
        ({
            let (after, flow) = scanf::scan_run(sub, FormatView::Bytes { bytes: seq![c] }, s);
            &&& flow is Done
            &&& after.mem == s.mem && after.matched == s.matched && after.va == s.va
            &&& is_blank(c) ==> after.idx == s.idx + blanks
            &&& !is_blank(c) && ahead(sub, s, 0) == Some(c) ==> after.idx == s.idx + 1 && after.fidx
                == 1
            &&& !is_blank(c) && ahead(sub, s, 0) != Some(c) ==> after.idx == s.idx
        }),
{
    let f = FormatView::Bytes { bytes: seq![c] };
    let s1 = Scan { fidx: 1, ..s };
    lemma_ahead(sub, s, 0);
    lemma_ahead(sub, s1, 0);
    lemma_ahead_same(sub, s, s1);
    lemma_blanks(sub, s1, 0, blanks);
    scanf::lemma_scan_step(sub, f, s);
    scanf::lemma_skip_spaces(sub, s1);
    let next = scanf::scan_step(sub, f, s);
    if next.1 is Go {
        assert(next.0.fidx == 1);
        assert(f.at(next.0.mem, 1) == 0);
        assert(scanf::scan_run(sub, f, next.0) == (next.0, ScanFlow::Done));
        assert(scanf::scan_run(sub, f, s) == scanf::scan_run(sub, f, next.0));
    }
}

// The call

/// A call that scans without the host returns how many conversions were assigned, and
/// changes nothing but the memory.
pub proof fn law_sscanf(env: EnvState, sub: SubjectView, format: FormatView, va: u32)
    requires
        ({
            let s = Scan { mem: env.mem, idx: 0, pos: 0, fidx: 0, va, matched: 0 };
            scanf::scan_run(sub, format, s).1 is Done
        }),
    ensures
        ({
            let s = Scan { mem: env.mem, idx: 0, pos: 0, fidx: 0, va, matched: 0 };
            let after = scanf::scan_run(sub, format, s).0;
            let (e, r) = scanf::begin_scan(env, sub, format, va);
            &&& e == (EnvState { mem: after.mem, ..env })
            &&& r == (ScanOutcomeView::Returned { value: after.matched as i32, taken: after.pos })
        }),
{
}

/// The number that the host makes of a text is stored in double precision for the
/// modifier `l`, in single precision otherwise, and counted; a text that is no number
/// ends the scan.
pub proof fn law_scan_number(d: ScanDirective, double: u64, single: u32, s: Scan)
    requires
        !d.suppress,
    ensures
        ({
            let p = s.mem.peek_u32(s.va);
            let (after, flow) = scanf::scan_answer(d, ParsedFloat::Number { double, single }, s);
            &&& flow is Go
            &&& after.matched == s.matched + 1
            &&& after.va == mem::wrap(s.va + 4)
            &&& after.mem == if d.length == Length::Long {
                s.mem.poke_u64(p, double)
            } else {
                s.mem.poke_u32(p, single)
            }
            &&& scanf::scan_answer(d, ParsedFloat::Invalid, s) == (s, ScanFlow::Done)
        }),
{
}

// Floating-point text

spec fn piece(text: Seq<u8>, sub: SubjectView, s: Scan, k: int) -> scanf::Piece {
    scanf::Piece { text, s: gone(sub, s, k) }
}

/// Whether a decimal digit is `k` places ahead.
pub open spec fn decimal_ahead(sub: SubjectView, s: Scan, k: int) -> bool {
    ahead(sub, s, k) matches Some(c) && 48 <= c <= 57
}

proof fn lemma_digits_taken(sub: SubjectView, s: Scan, k: int, before: Seq<u8>, t: Seq<u8>)
    requires
        0 <= k,
        s.idx + k + t.len() + 2 < u32::MAX,
        sub is File ==> 0 <= s.pos,
        comes(sub, s, k, t),
        format_laws::all_digits(t),
        !decimal_ahead(sub, s, k + t.len()),
    ensures
        scanf::digits_piece(sub, piece(before, sub, s, k)) == piece(
            before + t,
            sub,
            s,
            k + t.len(),
        ),
    decreases t.len(),
{
    lemma_ahead(sub, s, k);
    if t.len() > 0 {
        assert(ahead(sub, s, k + 0) == Some(t[0]));
        let rest = t.drop_first();
        assert forall|j: int| 0 <= j < rest.len() implies #[trigger] ahead(sub, s, k + 1 + j)
            == Some(rest[j]) by {
            assert(ahead(sub, s, k + (j + 1)) == Some(t[j + 1]));
        }
        lemma_digits_taken(sub, s, k + 1, before.push(t[0]), rest);
        assert(before.push(t[0]) + rest =~= before + t);
    } else {
        assert(before + t =~= before);
    }
}

proof fn lemma_one_taken(sub: SubjectView, s: Scan, k: int, before: Seq<u8>, t: Seq<u8>)
    requires
        0 <= k,
        s.idx + k + 3 < u32::MAX,
        sub is File ==> 0 <= s.pos,
        t.len() == 1,
        comes(sub, s, k, t),
    ensures
        piece(before, sub, s, k).grown(sub) == piece(before + t, sub, s, k + 1),
        ahead(sub, s, k) == Some(t[0]),
        sub.get(gone(sub, s, k)) == Some(t[0]),
{
    lemma_ahead(sub, s, k);
    assert(ahead(sub, s, k + 0) == Some(t[0]));
    assert(before.push(t[0]) =~= before + t);
}

/// The part of what comes next.
proof fn lemma_part(sub: SubjectView, s: Scan, k: int, a: Seq<u8>, t: Seq<u8>, z: Seq<u8>)
    requires
        comes(sub, s, k, a + t + z),
    ensures
        comes(sub, s, k + a.len(), t),
{
    let whole = a + t + z;
    assert forall|j: int| 0 <= j < t.len() implies #[trigger] ahead(sub, s, k + a.len() + j)
        == Some(t[j]) by {
        assert(ahead(sub, s, k + (a.len() + j)) == Some(whole[a.len() + j]));
    }
}

/// Whether these are the parts of a floating-point number: a sign, digits, a point
/// with more digits, and an `e` with a sign and digits, each of them possibly missing.
pub open spec fn is_float_text(
    sign: Seq<u8>,
    whole: Seq<u8>,
    point: Seq<u8>,
    fraction: Seq<u8>,
    e: Seq<u8>,
    e_sign: Seq<u8>,
    exponent: Seq<u8>,
) -> bool {
    &&& sign.len() <= 1 && (sign.len() == 1 ==> sign[0] == '+' as u8 || sign[0] == '-' as u8)
    &&& format_laws::all_digits(whole)
    &&& point.len() <= 1 && (point.len() == 1 ==> point[0] == '.' as u8)
    &&& format_laws::all_digits(fraction) && (point.len() == 0 ==> fraction.len() == 0)
    &&& e.len() <= 1 && (e.len() == 1 ==> e[0] == 'e' as u8 || e[0] == 'E' as u8)
    &&& e_sign.len() <= 1 && (e_sign.len() == 1 ==> e_sign[0] == '+' as u8 || e_sign[0]
        == '-' as u8)
    &&& format_laws::all_digits(exponent)
    &&& e.len() == 0 ==> e_sign.len() == 0 && exponent.len() == 0
}

/// `%f` and `%g` skip white space and hand the text of a number over to the host, all
/// of it and nothing else.
#[verifier::spinoff_prover]
#[verifier::rlimit(100)]
pub proof fn law_scan_float(
    sub: SubjectView,
    a: Asked,
    s: Scan,
    blanks: int,
    sign: Seq<u8>,
    whole: Seq<u8>,
    point: Seq<u8>,
    fraction: Seq<u8>,
    e: Seq<u8>,
    e_sign: Seq<u8>,
    exponent: Seq<u8>,
)
    requires
        a.wf(),
        a.specifier == 'f' as u8 || a.specifier == 'g' as u8,
        a.length == Seq::<u8>::empty() || a.length == seq!['l' as u8],
        s.fidx == 0,
        0 <= blanks,
        sub is File ==> 0 <= s.pos,
        is_float_text(sign, whole, point, fraction, e, e_sign, exponent),
        ({
            let t = sign + whole + point + fraction + e + e_sign + exponent;
            let end = blanks + t.len();
            &&& t.len() > 0
            &&& s.idx + end + 4 < u32::MAX
            &&& comes(sub, s, blanks, t)
            // The number ends there.
            &&& !decimal_ahead(sub, s, end)
            &&& ahead(sub, s, end) != Some('+' as u8) && ahead(sub, s, end) != Some('-' as u8)
            &&& ahead(sub, s, end) != Some('.' as u8)
            &&& ahead(sub, s, end) != Some('e' as u8) && ahead(sub, s, end) != Some('E' as u8)
        }),
        forall|j: int|
            0 <= j < blanks ==> (#[trigger] ahead(sub, s, j)) is Some && is_blank(
                ahead(sub, s, j).unwrap(),
            ),
    ensures
        ({
            let t = sign + whole + point + fraction + e + e_sign + exponent;
            let (after, flow) = scanf::scan_run(sub, FormatView::Bytes { bytes: a.text() }, s);
            &&& flow is Waiting
            &&& flow->text == t
            &&& flow->directive.suppress == a.suppress
            &&& flow->directive.length == Length::Long <==> a.length.len() == 1
            &&& after == (Scan { fidx: a.text().len() as int, ..gone(sub, s, blanks + t.len()) })
        }),
{
    let f = FormatView::Bytes { bytes: a.text() };
    let s0 = Scan { fidx: a.text().len() as int, ..s };
    lemma_asked(a, s.mem);
    lemma_asked_alone(sub, a, s);
    lemma_ahead_same(sub, s, s0);
    format_laws::lemma_lengths_differ();
    let t = sign + whole + point + fraction + e + e_sign + exponent;
    assert(comes(sub, s0, blanks, t));
    lemma_float_pieces(sub, s0, blanks, sign, whole, point, fraction, e, e_sign, exponent);
    assert(ahead(sub, s, blanks + 0) == Some(t[0]));
    assert(!is_blank(t[0])) by {
        lemma_float_start(sign, whole, point, fraction, e, e_sign, exponent);
    }
    lemma_blanks(sub, s0, 0, blanks);
    lemma_ahead(sub, s0, 0);
    lemma_ahead(sub, s0, blanks);
}

proof fn lemma_float_start(
    sign: Seq<u8>,
    whole: Seq<u8>,
    point: Seq<u8>,
    fraction: Seq<u8>,
    e: Seq<u8>,
    e_sign: Seq<u8>,
    exponent: Seq<u8>,
)
    requires
        is_float_text(sign, whole, point, fraction, e, e_sign, exponent),
        (sign + whole + point + fraction + e + e_sign + exponent).len() > 0,
    ensures
        !is_blank((sign + whole + point + fraction + e + e_sign + exponent)[0]),
{
    let t = sign + whole + point + fraction + e + e_sign + exponent;
    if sign.len() > 0 {
        assert(t[0] == sign[0]);
    } else if whole.len() > 0 {
        assert(t[0] == whole[0]);
        assert(48 <= whole[0] <= 57);
    } else if point.len() > 0 {
        assert(t[0] == point[0]);
    } else {
        assert(t[0] == e[0]);
    }
}

#[verifier::spinoff_prover]
#[verifier::rlimit(100)]
proof fn lemma_float_pieces(
    sub: SubjectView,
    s: Scan,
    at: int,
    sign: Seq<u8>,
    whole: Seq<u8>,
    point: Seq<u8>,
    fraction: Seq<u8>,
    e: Seq<u8>,
    e_sign: Seq<u8>,
    exponent: Seq<u8>,
)
    requires
        0 <= at,
        sub is File ==> 0 <= s.pos,
        is_float_text(sign, whole, point, fraction, e, e_sign, exponent),
        ({
            let t = sign + whole + point + fraction + e + e_sign + exponent;
            let end = at + t.len();
            &&& s.idx + end + 4 < u32::MAX
            &&& comes(sub, s, at, t)
            &&& !decimal_ahead(sub, s, end)
            &&& ahead(sub, s, end) != Some('+' as u8) && ahead(sub, s, end) != Some('-' as u8)
            &&& ahead(sub, s, end) != Some('.' as u8)
            &&& ahead(sub, s, end) != Some('e' as u8) && ahead(sub, s, end) != Some('E' as u8)
        }),
    ensures
        ({
            let t = sign + whole + point + fraction + e + e_sign + exponent;
            scanf::float_piece(sub, gone(sub, s, at)) == piece(t, sub, s, at + t.len())
        }),
{
    let none = Seq::<u8>::empty();
    let t2 = sign + whole;
    let t4 = t2 + point + fraction;
    let last = e + e_sign + exponent;
    let t = sign + whole + point + fraction + e + e_sign + exponent;
    let k2: int = at + t2.len();
    let k4: int = at + t4.len();
    assert(t =~= t2 + (point + fraction) + last);
    assert(t =~= none + t2 + (point + fraction + last));
    assert(t =~= t4 + last + none);
    lemma_part(sub, s, at, none, t2, point + fraction + last);
    lemma_part(sub, s, at, t2, point + fraction, last);
    lemma_part(sub, s, at, t4, last, none);
    lemma_last_starts(sub, s, k4, e, e_sign, exponent);
    lemma_middle_starts(sub, s, k2, point, fraction);
    lemma_first_part(sub, s, at, sign, whole);
    lemma_middle_part(sub, s, k2, t2, point, fraction);
    assert(t2 + (point + fraction) =~= t4);
    lemma_last_part(sub, s, k4, t4, e, e_sign, exponent);
    assert(t4 + last =~= t);
    assert(piece(none, sub, s, at) == (scanf::Piece { text: seq![], s: gone(sub, s, at) }));
}

/// What the exponent starts with, or what stands behind it.
proof fn lemma_last_starts(
    sub: SubjectView,
    s: Scan,
    k: int,
    e: Seq<u8>,
    e_sign: Seq<u8>,
    exponent: Seq<u8>,
)
    requires
        comes(sub, s, k, e + e_sign + exponent),
        e.len() <= 1 && (e.len() == 1 ==> e[0] == 'e' as u8 || e[0] == 'E' as u8),
        e.len() == 0 ==> e_sign.len() == 0 && exponent.len() == 0,
        ({
            let end = k + e.len() + e_sign.len() + exponent.len();
            &&& !decimal_ahead(sub, s, end)
            &&& ahead(sub, s, end) != Some('+' as u8) && ahead(sub, s, end) != Some('-' as u8)
            &&& ahead(sub, s, end) != Some('.' as u8)
            &&& ahead(sub, s, end) != Some('e' as u8) && ahead(sub, s, end) != Some('E' as u8)
        }),
    ensures
        !decimal_ahead(sub, s, k),
        ahead(sub, s, k) != Some('+' as u8),
        ahead(sub, s, k) != Some('-' as u8),
        ahead(sub, s, k) != Some('.' as u8),
        e.len() == 0 ==> ahead(sub, s, k) != Some('e' as u8) && ahead(sub, s, k) != Some('E' as u8),
{
    let t = e + e_sign + exponent;
    if e.len() == 1 {
        assert(ahead(sub, s, k + 0) == Some(t[0]));
        assert(t[0] == e[0]);
    }
}

/// What the fraction starts with, or what stands behind it.
proof fn lemma_middle_starts(sub: SubjectView, s: Scan, k: int, point: Seq<u8>, fraction: Seq<u8>)
    requires
        comes(sub, s, k, point + fraction),
        point.len() <= 1 && (point.len() == 1 ==> point[0] == '.' as u8),
        point.len() == 0 ==> fraction.len() == 0,
        ({
            let end = k + point.len() + fraction.len();
            &&& !decimal_ahead(sub, s, end)
            &&& ahead(sub, s, end) != Some('+' as u8) && ahead(sub, s, end) != Some('-' as u8)
            &&& ahead(sub, s, end) != Some('.' as u8)
        }),
    ensures
        !decimal_ahead(sub, s, k),
        ahead(sub, s, k) != Some('+' as u8),
        ahead(sub, s, k) != Some('-' as u8),
        point.len() == 0 ==> ahead(sub, s, k) != Some('.' as u8),
{
    let t = point + fraction;
    if point.len() == 1 {
        assert(ahead(sub, s, k + 0) == Some(t[0]));
        assert(t[0] == point[0]);
    }
}

proof fn lemma_first_part(sub: SubjectView, s: Scan, k: int, sign: Seq<u8>, whole: Seq<u8>)
    requires
        0 <= k,
        sub is File ==> 0 <= s.pos,
        s.idx + k + sign.len() + whole.len() + 4 < u32::MAX,
        comes(sub, s, k, sign + whole),
        sign.len() <= 1 && (sign.len() == 1 ==> sign[0] == '+' as u8 || sign[0] == '-' as u8),
        format_laws::all_digits(whole),
        ({
            let end = k + sign.len() + whole.len();
            &&& !decimal_ahead(sub, s, end)
            &&& ahead(sub, s, end) != Some('+' as u8) && ahead(sub, s, end) != Some('-' as u8)
        }),
    ensures
        scanf::digits_piece(
            sub,
            scanf::sign_piece(sub, piece(Seq::empty(), sub, s, k)),
        ) == piece(sign + whole, sub, s, k + sign.len() + whole.len()),
{
    let none = Seq::<u8>::empty();
    let t = sign + whole;
    assert(none + sign + whole =~= t);
    assert(t + none =~= t);
    assert(sign + whole + none =~= t);
    lemma_part(sub, s, k, none, sign, whole);
    lemma_part(sub, s, k, sign, whole, none);
    lemma_ahead(sub, s, k);
    if sign.len() > 0 {
        lemma_one_taken(sub, s, k, none, sign);
        assert(none + sign =~= sign);
    } else {
        assert(sign =~= none);
        if whole.len() > 0 {
            assert(ahead(sub, s, k + 0) == Some(t[0]));
            assert(t[0] == whole[0]);
            assert(48 <= whole[0] <= 57);
        }
    }
    lemma_digits_taken(sub, s, k + sign.len(), sign, whole);
}

proof fn lemma_middle_part(
    sub: SubjectView,
    s: Scan,
    k: int,
    before: Seq<u8>,
    point: Seq<u8>,
    fraction: Seq<u8>,
)
    requires
        0 <= k,
        sub is File ==> 0 <= s.pos,
        s.idx + k + point.len() + fraction.len() + 4 < u32::MAX,
        comes(sub, s, k, point + fraction),
        point.len() <= 1 && (point.len() == 1 ==> point[0] == '.' as u8),
        format_laws::all_digits(fraction) && (point.len() == 0 ==> fraction.len() == 0),
        !decimal_ahead(sub, s, k + point.len() + fraction.len()),
        point.len() == 0 ==> ahead(sub, s, k) != Some('.' as u8),
    ensures
        ({
            let p = piece(before, sub, s, k);
            (if sub.next_is(p.s, '.' as u8) {
                scanf::digits_piece(sub, p.grown(sub))
            } else {
                p
            }) == piece(before + (point + fraction), sub, s, k + point.len() + fraction.len())
        }),
{
    let none = Seq::<u8>::empty();
    assert(none + point + fraction =~= point + fraction);
    assert(point + fraction + none =~= point + fraction);
    lemma_part(sub, s, k, none, point, fraction);
    lemma_part(sub, s, k, point, fraction, none);
    lemma_ahead(sub, s, k);
    if point.len() > 0 {
        lemma_one_taken(sub, s, k, before, point);
        lemma_digits_taken(sub, s, k + 1, before + point, fraction);
        assert(before + point + fraction =~= before + (point + fraction));
    } else {
        assert(before + (point + fraction) =~= before);
    }
}

proof fn lemma_last_part(
    sub: SubjectView,
    s: Scan,
    k: int,
    before: Seq<u8>,
    e: Seq<u8>,
    e_sign: Seq<u8>,
    exponent: Seq<u8>,
)
    requires
        0 <= k,
        sub is File ==> 0 <= s.pos,
        s.idx + k + e.len() + e_sign.len() + exponent.len() + 4 < u32::MAX,
        comes(sub, s, k, e + e_sign + exponent),
        e.len() <= 1 && (e.len() == 1 ==> e[0] == 'e' as u8 || e[0] == 'E' as u8),
        e_sign.len() <= 1 && (e_sign.len() == 1 ==> e_sign[0] == '+' as u8 || e_sign[0]
            == '-' as u8),
        format_laws::all_digits(exponent),
        e.len() == 0 ==> e_sign.len() == 0 && exponent.len() == 0,
        e.len() == 0 ==> ahead(sub, s, k) != Some('e' as u8) && ahead(sub, s, k) != Some('E' as u8),
        ({
            let end = k + e.len() + e_sign.len() + exponent.len();
            &&& !decimal_ahead(sub, s, end)
            &&& ahead(sub, s, end) != Some('+' as u8) && ahead(sub, s, end) != Some('-' as u8)
        }),
    ensures
        ({
            let p = piece(before, sub, s, k);
            (if sub.next_is(p.s, 'e' as u8) || sub.next_is(p.s, 'E' as u8) {
                scanf::digits_piece(sub, scanf::sign_piece(sub, p.grown(sub)))
            } else {
                p
            }) == piece(
                before + (e + e_sign + exponent),
                sub,
                s,
                k + e.len() + e_sign.len() + exponent.len(),
            )
        }),
{
    let none = Seq::<u8>::empty();
    let t = e + e_sign + exponent;
    lemma_ahead(sub, s, k);
    if e.len() > 0 {
        assert(none + e + (e_sign + exponent) =~= t);
        assert(e + e_sign + exponent =~= t);
        assert((e + e_sign) + exponent + none =~= t);
        lemma_part(sub, s, k, none, e, e_sign + exponent);
        lemma_part(sub, s, k, e, e_sign, exponent);
        lemma_part(sub, s, k, e + e_sign, exponent, none);
        lemma_one_taken(sub, s, k, before, e);
        lemma_ahead(sub, s, k + 1);
        if e_sign.len() > 0 {
            lemma_one_taken(sub, s, k + 1, before + e, e_sign);
        } else {
            assert(before + e + e_sign =~= before + e);
            if exponent.len() > 0 {
                assert(ahead(sub, s, k + (e + e_sign).len() + 0) == Some(exponent[0]));
                assert(48 <= exponent[0] <= 57);
            }
        }
        lemma_digits_taken(sub, s, k + 1 + e_sign.len(), before + e + e_sign, exponent);
        assert(before + e + e_sign + exponent =~= before + t);
    } else {
        assert(before + t =~= before);
    }
}

// Sets of characters

/// What stands in a set: a character, or two characters with a dash between them.
pub enum Member {
    One { c: u8 },
    Range { a: u8, b: u8 },
}

impl Member {
    pub open spec fn text(self) -> Seq<u8> {
        match self {
            Member::One { c } => seq![c],
            Member::Range { a, b } => seq![a, '-' as u8, b],
        }
    }

    /// Whether it stands for `x`. Two characters in the wrong order stand for
    /// themselves and the dash.
    pub open spec fn has(self, x: u8) -> bool {
        match self {
            Member::One { c } => x == c,
            Member::Range { a, b } => a <= x <= b || (a > b && (x == a || x == b || x
                == '-' as u8)),
        }
    }

    pub open spec fn wf(self) -> bool {
        match self {
            Member::One { c } => is_ordinary(c),
            Member::Range { a, b } => is_ordinary(a) && is_ordinary(b),
        }
    }
}

/// Whether `c` has no other meaning in a set.
pub open spec fn is_ordinary(c: u8) -> bool {
    c != 0 && c != ']' as u8 && c != '-' as u8 && c != '^' as u8
}

pub open spec fn set_text(members: Seq<Member>) -> Seq<u8>
    decreases members.len(),
{
    if members.len() == 0 {
        seq![]
    } else {
        members[0].text() + set_text(members.drop_first())
    }
}

/// Whether a set has `x`.
pub open spec fn set_has(members: Seq<Member>, x: u8) -> bool
    decreases members.len(),
{
    members.len() > 0 && (members[0].has(x) || set_has(members.drop_first(), x))
}

pub open spec fn set_wf(members: Seq<Member>) -> bool {
    forall|i: int| 0 <= i < members.len() ==> (#[trigger] members[i]).wf()
}

proof fn lemma_set_parsed(
    bytes: Seq<u8>,
    m: MemState,
    i: int,
    first: bool,
    known: Set<u8>,
    members: Seq<Member>,
)
    requires
        0 <= i,
        set_wf(members),
        i + set_text(members).len() < bytes.len(),
        bytes.subrange(i, i + set_text(members).len()) == set_text(members),
        bytes[i + set_text(members).len()] == ']' as u8,
        first ==> members.len() > 0,
    ensures
        ({
            let r = scanf::scanset(FormatView::Bytes { bytes }, m, i, first, known);
            &&& r.idx == i + set_text(members).len() + 1
            &&& forall|x: u8| #[trigger]
                r.members.contains(x) <==> known.contains(x) || set_has(members, x)
        }),
    decreases members.len(),
{
    let f = FormatView::Bytes { bytes };
    let t = set_text(members);
    let part = bytes.subrange(i, i + t.len());
    if members.len() > 0 {
        let item = members[0];
        assert(item.wf());
        let rest = members.drop_first();
        let rt = set_text(rest);
        let n = item.text().len();
        assert(t.len() == n + rt.len());
        assert(bytes.subrange(i + n, i + n + rt.len()) =~= rt) by {
            assert forall|k: int| 0 <= k < rt.len() implies bytes.subrange(
                i + n,
                i + n + rt.len(),
            )[k] == rt[k] by {
                assert(part[n + k] == t[n + k]);
            }
        }
        assert forall|k: int| 0 <= k < rest.len() implies (#[trigger] rest[k]).wf() by {
            assert(members[k + 1].wf());
        }
        assert(part[0] == t[0]);
        match item {
            Member::One { c } => {
                assert(bytes[i] == c);
                // No dash follows.
                if rest.len() > 0 {
                    assert(rest[0].wf());
                    assert(part[1] == t[1]);
                    assert(t[1] == rt[0]);
                    assert(rt[0] == rest[0].text()[0]);
                }
                lemma_set_parsed(bytes, m, i + 1, false, known.insert(c), rest);
            },
            Member::Range { a, b } => {
                assert(part[1] == t[1]);
                assert(part[2] == t[2]);
                assert(bytes[i] == a && bytes[i + 1] == '-' as u8 && bytes[i + 2] == b);
                lemma_set_parsed(
                    bytes,
                    m,
                    i + 3,
                    false,
                    known.union(scanf::char_range(a, b)),
                    rest,
                );
            },
        }
    }
}

proof fn lemma_set_copied(
    sub: SubjectView,
    s: Scan,
    t: Seq<u8>,
    k: int,
    p: u32,
    known: Set<u8>,
    inverted: bool,
    limit: nat,
)
    requires
        0 <= k <= t.len(),
        s.idx + t.len() + 2 < u32::MAX,
        sub is File ==> 0 <= s.pos,
        comes(sub, s, 0, t),
        forall|j: int|
            0 <= j < t.len() ==> (#[trigger] t[j]) != 0 && known.contains(t[j]) != inverted,
        t.len() <= limit,
        t.len() == limit || (ahead(sub, s, t.len() as int) matches Some(c) ==> c == 0
            || known.contains(c) == inverted),
        spares(sub, s, t.len() as int, p, t.len() as int),
    ensures
        scanf::copy_scanset(
            sub,
            scanf::Copied {
                count: k,
                s: with_mem(gone(sub, s, k), s.mem.poke_bytes(p, t.take(k))),
                dst: Some(mem::wrap(p + k)),
            },
            known,
            inverted,
            (limit - k) as nat,
        ) == (scanf::Copied {
            count: t.len() as int,
            s: with_mem(gone(sub, s, t.len() as int), s.mem.poke_bytes(p, t)),
            dst: Some(mem::wrap(p + t.len())),
        }),
    decreases t.len() - k,
{
    let m = s.mem.poke_bytes(p, t.take(k));
    let r = with_mem(s, m);
    lemma_ahead(sub, r, k);
    assert(gone(sub, r, k) == with_mem(gone(sub, s, k), m));
    assert(spares(sub, s, t.len() as int, p, t.take(k).len() as int));
    lemma_ahead_spared(sub, s, t.len() as int, p, t.take(k), k);
    assert(ahead(sub, r, k) == ahead(sub, s, k));
    if k < t.len() {
        assert(ahead(sub, s, 0 + k) == Some(t[k]));
        assert(gone(sub, r, k + 1) == with_mem(gone(sub, s, k + 1), m));
        assert(t.take(k + 1).drop_last() =~= t.take(k));
        assert(s.mem.poke_bytes(p, t.take(k + 1)) == m.poke(mem::wrap(p + k), t[k]));
        mem::lemma_wrap(p + k, 1);
        lemma_set_copied(sub, s, t, k + 1, p, known, inverted, limit);
    } else {
        assert(t.take(k) =~= t);
    }
}

/// `%[` copies the characters that the set has, or with `^` those that it does not
/// have, up to the first other one, to where the argument points to, with a NUL behind
/// them; it skips no white space. Where there is none, nothing is stored or counted.
pub proof fn law_scan_set(
    sub: SubjectView,
    s: Scan,
    inverted: bool,
    members: Seq<Member>,
    t: Seq<u8>,
)
    requires
        s.fidx == 0,
        sub is File ==> 0 <= s.pos,
        s.idx + t.len() + 2 < u32::MAX,
        set_wf(members),
        members.len() > 0,
        comes(sub, s, 0, t),
        forall|j: int|
            0 <= j < t.len() ==> (#[trigger] t[j]) != 0 && set_has(members, t[j]) != inverted,
        ahead(sub, s, t.len() as int) matches Some(c) ==> c == 0 || set_has(members, c)
            == inverted,
        spares(sub, s, t.len() as int, s.mem.peek_u32(s.va), t.len() as int),
    ensures
        ({
            let bytes = seq!['%' as u8, '[' as u8] + format_laws::flag(inverted, '^' as u8)
                + set_text(members) + seq![']' as u8];
            let (after, flow) = scanf::scan_run(sub, FormatView::Bytes { bytes }, s);
            &&& flow is Done
            &&& after.idx == s.idx + t.len()
            &&& after.pos == gone(sub, s, t.len() as int).pos
            &&& t.len() > 0 ==> after.mem == s.mem.poke_cstr(s.mem.peek_u32(s.va), t)
                && after.matched == s.matched + 1
            &&& t.len() == 0 ==> after.mem == s.mem && after.matched == s.matched
            &&& after.va == mem::wrap(s.va + 4)
        }),
{
    let flag = format_laws::flag(inverted, '^' as u8);
    let text = set_text(members);
    let bytes = seq!['%' as u8, '[' as u8] + flag + text + seq![']' as u8];
    let f = FormatView::Bytes { bytes };
    let start: int = 2 + flag.len() as int;
    assert(bytes.subrange(start, start + text.len()) =~= text);
    assert(bytes[0] == '%' as u8 && bytes[1] == '[' as u8);
    assert(bytes[start + text.len()] == ']' as u8);
    assert(members[0].wf());
    assert(text[0] == members[0].text()[0]);
    assert(bytes[start] == text[0]);
    if inverted {
        assert(bytes[2] == '^' as u8);
    }
    assert(directive::skip_char(f, s.mem, 2, '^' as u8) == start);
    lemma_set_parsed(bytes, s.mem, start, true, Set::empty(), members);
    let set = scanf::scanset(f, s.mem, start, true, Set::empty());
    assert(directive::number_end(f, s.mem, 1) == 1);
    assert(directive::number_value(f, s.mem, 1, 0) == 0);
    let d = ScanDirective {
        suppress: false,
        width: 0,
        length: Length::Plain,
        specifier: '[' as u8,
    };
    assert(scanf::parse_scan(f, s.mem, 1) == Some((d, 2int)));
    let s2 = Scan { fidx: 2, ..s };
    let r = Scan { fidx: set.idx, va: mem::wrap(s.va + 4), ..s };
    let p = s.mem.peek_u32(s.va);
    assert(spares(sub, r, t.len() as int, p, t.len() as int));
    assert forall|j: int| 0 <= j < t.len() implies #[trigger] ahead(sub, r, 0 + j) == Some(t[j]) by {
        assert(ahead(sub, s, 0 + j) == Some(t[j]));
    }
    assert(ahead(sub, r, t.len() as int) == ahead(sub, s, t.len() as int));
    lemma_set_copied(sub, r, t, 0, p, set.members, inverted, u32::MAX as nat);
    assert(t.take(0) =~= seq![]);
    assert(r.mem.poke_bytes(p, t.take(0)) == r.mem);
    assert(mem::wrap(p + 0) == p);
    lemma_ahead(sub, r, 0);
    assert(with_mem(gone(sub, r, 0), r.mem) == r);
    let next = scanf::scan_step(sub, f, s);
    assert(next == scanf::scan_set(sub, f, d, s2));
    assert(next.1 is Go);
    assert(next.0.fidx == bytes.len());
    if t.len() == 0 {
        assert(t =~= seq![]);
        assert(r.mem.poke_bytes(p, t) == r.mem);
    }
    scanf::lemma_scan_step(sub, f, s);
    assert(f.at(next.0.mem, next.0.fidx) == 0);
    assert(scanf::scan_run(sub, f, next.0) == (next.0, ScanFlow::Done));
    assert(scanf::scan_run(sub, f, s) == scanf::scan_run(sub, f, next.0));
}

/// `%%` skips white space and must be met by a percent sign, which is not counted; any
/// other character ends the scan.
pub proof fn law_scan_percent(sub: SubjectView, f: FormatView, d: ScanDirective, s: Scan)
    requires
        d.specifier == '%' as u8,
        sub.get(s) matches Some(c) && !(c == 32 || 9 <= c <= 13),
    ensures
        ({
            let (t, flow) = scanf::scan_convert(sub, f, d, s);
            &&& t.mem == s.mem && t.va == s.va && t.matched == s.matched && t.fidx == s.fidx
            &&& sub.get(s) == Some('%' as u8) ==> flow is Go && t.idx == mem::wrap(s.idx + 1)
            &&& sub.get(s) != Some('%' as u8) ==> flow is Done && t.idx == s.idx
        }),
{
    assert(scanf::skip_spaces(sub, s) == s);
}

/// A conversion that is suppressed scans as it would otherwise, but it takes no argument,
/// stores nothing and is not counted.
pub proof fn law_suppressed(sub: SubjectView, d: ScanDirective, s: Scan)
    requires
        d.specifier == 'd' as u8 || d.specifier == 'i' as u8,
        !d.suppress,
    ensures
        ({
            let quiet = ScanDirective { suppress: true, ..d };
            let (t, flow) = scanf::scan_after_spaces(sub, d, s);
            let (q, same) = scanf::scan_after_spaces(sub, quiet, s);
            &&& same == flow
            &&& q.idx == t.idx && q.pos == t.pos && q.fidx == t.fidx
            &&& q.matched == if flow is Go {
                t.matched - 1
            } else {
                t.matched
            }
            &&& flow is Go ==> t.va == mem::wrap(q.va + 4)
        }),
{
}

/// Once the host has made a number of the text, it is stored and counted, and scanning
/// goes on; at the end of the format string the call returns how many there are. Where
/// the text is no number, the call returns at once.
pub proof fn law_scan_resumed(env: EnvState, job: ScanJobView, double: u64, single: u32)
    requires
        !job.directive.suppress,
        job.format.covers(job.place.fidx),
        job.directive.length != Length::Long,
        job.format.at(
            env.mem.poke_u32(env.mem.peek_u32(job.place.va), single),
            job.place.fidx,
        ) == 0,
    ensures
        ({
            let (e, r) = scanf::resume_scan(env, job, ParsedFloat::Number { double, single });
            &&& e == (EnvState {
                mem: env.mem.poke_u32(env.mem.peek_u32(job.place.va), single),
                ..env
            })
            &&& r == (ScanOutcomeView::Returned {
                value: (job.place.matched + 1) as i32,
                taken: job.place.pos,
            })
        }),
        scanf::resume_scan(env, job, ParsedFloat::Invalid) == (
            env,
            ScanOutcomeView::Returned {
                value: job.place.matched as i32,
                taken: job.place.pos,
            },
        ),
{
    let s = job.place.scan(env.mem);
    let next = scanf::scan_answer(job.directive, ParsedFloat::Number { double, single }, s).0;
    assert(scanf::scan_run(job.subject, job.format, next) == (next, ScanFlow::Done));
}

} // verus!
