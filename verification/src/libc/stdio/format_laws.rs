//! What each conversion of the `printf` family is for.
use crate::environment::EnvState;
use crate::libc::stdio::convert;
use crate::libc::stdio::directive;
use crate::libc::stdio::directive::{Directive, FormatView, Length, Parsed};
use crate::libc::stdio::numerals;
use crate::libc::stdio::printf;
use crate::libc::stdio::printf::{Flow, OutcomeView, Progress, ReplyView, Request, Sink};
use crate::libc::stdio::text;
use crate::mem;
use crate::mem::{MemState, NULL_PAGE_END};
use vstd::prelude::*;
use vstd::utf8::*;

verus! {

/// A conversion specification, as it is written in a format string.
pub struct Written {
    pub plus: bool,
    pub alternative: bool,
    pub zero: bool,
    pub left: bool,
    /// The digits of the width.
    pub width: Seq<u8>,
    /// The digits of the precision, if there is a point.
    pub precision: Option<Seq<u8>>,
    /// The length modifier.
    pub length: Seq<u8>,
    pub specifier: u8,
}

pub open spec fn flag(on: bool, c: u8) -> Seq<u8> {
    if on {
        seq![c]
    } else {
        seq![]
    }
}

/// Whether `t` is made of decimal digits.
pub open spec fn all_digits(t: Seq<u8>) -> bool {
    forall|k: int| 0 <= k < t.len() ==> 48 <= #[trigger] t[k] <= 57
}

/// The length modifiers.
pub open spec fn is_length(t: Seq<u8>) -> bool {
    ||| t == seq!['h' as u8, 'h' as u8]
    ||| t == seq!['h' as u8]
    ||| t == seq!['l' as u8, 'l' as u8]
    ||| t == seq!['q' as u8]
    ||| t == seq!['j' as u8]
    ||| is_word_length(t)
}

/// The length modifiers, or none, with which an argument is one word.
pub open spec fn is_word_length(t: Seq<u8>) -> bool {
    ||| t == Seq::<u8>::empty()
    ||| t == seq!['l' as u8]
    ||| t == seq!['z' as u8]
    ||| t == seq!['t' as u8]
    ||| t == seq!['L' as u8]
}

/// How many values an integer argument can have.
pub open spec fn range_of(length: Seq<u8>) -> int {
    if length == seq!['h' as u8, 'h' as u8] {
        0x100
    } else if length == seq!['h' as u8] {
        0x1_0000
    } else if is_word_length(length) {
        0x1_0000_0000
    } else {
        0x1_0000_0000_0000_0000
    }
}

/// How many bytes an integer argument takes.
pub open spec fn bytes_of(length: Seq<u8>) -> int {
    if range_of(length) > 0x1_0000_0000 {
        8
    } else {
        4
    }
}

/// The argument at `va`: a word, or two words, the low one first.
pub open spec fn argument(m: MemState, va: u32, length: Seq<u8>) -> int {
    if bytes_of(length) == 8 {
        m.peek_u32(va) + 0x1_0000_0000 * m.peek_u32(mem::wrap(va + 4))
    } else {
        m.peek_u32(va) as int
    }
}

impl Written {
    pub open spec fn precision_text(self) -> Seq<u8> {
        match self.precision {
            Some(t) => seq!['.' as u8] + t,
            None => seq![],
        }
    }

    #[verifier::opaque]
    pub open spec fn text(self) -> Seq<u8> {
        seq!['%' as u8] + flag(self.plus, '+' as u8) + flag(self.alternative, '#' as u8) + flag(
            self.zero,
            '0' as u8,
        ) + flag(self.left, '-' as u8) + self.width + self.precision_text() + self.length
            + seq![self.specifier]
    }

    pub open spec fn width_value(self) -> int {
        numerals::value_from(0, self.width, 10) as int
    }

    pub open spec fn precision_value(self) -> int {
        match self.precision {
            Some(t) => numerals::value_from(0, t, 10) as int,
            None => 0,
        }
    }

    /// Whether it is one that can be written in this way.
    pub open spec fn wf(self) -> bool {
        &&& all_digits(self.width)
        &&& self.width.len() > 0 ==> self.width[0] != 48
        &&& self.width_value() <= i32::MAX
        &&& self.precision matches Some(t) ==> all_digits(t)
        &&& self.precision_value() <= u64::MAX
        &&& is_length(self.length)
    }

    /// Whether there are only a length modifier and the specifier.
    pub open spec fn is_plain(self) -> bool {
        !self.plus && !self.alternative && !self.zero && !self.left && self.width.len() == 0
            && self.precision is None
    }
}

// Reading a conversion specification

/// The kind of a length modifier.
pub open spec fn length_kind(t: Seq<u8>) -> Length {
    if t == seq!['h' as u8, 'h' as u8] {
        Length::HalfHalf
    } else if t == seq!['h' as u8] {
        Length::Half
    } else if t == seq!['l' as u8, 'l' as u8] || t == seq!['q' as u8] || t == seq!['j' as u8] {
        Length::LongLong
    } else if t == seq!['L' as u8] {
        Length::LongDouble
    } else if t == Seq::<u8>::empty() {
        Length::Plain
    } else {
        Length::Long
    }
}

spec fn directive_of(w: Written) -> Directive {
    Directive {
        plus: w.plus,
        alternative: w.alternative,
        zero: w.zero,
        left: w.left,
        width: w.width_value() as u32,
        precision: match w.precision {
            Some(_) => Some(w.precision_value() as u64),
            None => None,
        },
        length: length_kind(w.length),
        specifier: w.specifier,
    }
}

/// A number in a format string.
pub proof fn lemma_number(bytes: Seq<u8>, m: MemState, i: int, t: Seq<u8>, acc: nat)
    requires
        0 <= i,
        i + t.len() < bytes.len(),
        bytes.subrange(i, i + t.len()) == t,
        all_digits(t),
        !directive::is_digit(bytes[i + t.len()]),
    ensures
        directive::number_end(FormatView::Bytes { bytes }, m, i) == i + t.len(),
        directive::number_value(FormatView::Bytes { bytes }, m, i, acc as int)
            == numerals::value_from(acc, t, 10),
    decreases t.len(),
{
    if t.len() > 0 {
        let part = bytes.subrange(i, i + t.len());
        assert(part[0] == bytes[i]);
        let rest = t.drop_first();
        assert(bytes.subrange(i + 1, i + 1 + rest.len()) =~= part.drop_first());
        lemma_number(
            bytes,
            m,
            i + 1,
            rest,
            (acc * 10 + numerals::digit_of(t[0]).unwrap()) as nat,
        );
    }
}

/// A length modifier in a format string.
pub proof fn lemma_length(bytes: Seq<u8>, m: MemState, i: int, t: Seq<u8>)
    requires
        0 <= i,
        i + t.len() < bytes.len(),
        bytes.subrange(i, i + t.len()) == t,
        is_length(t),
        directive::is_specifier(bytes[i + t.len()]) || bytes[i + t.len()] == '[' as u8,
    ensures
        directive::length_at(FormatView::Bytes { bytes }, m, i) == (length_kind(t), i + t.len()),
{
    let part = bytes.subrange(i, i + t.len());
    let one = seq!['h' as u8];
    let two = seq!['h' as u8, 'h' as u8];
    let ll = seq!['l' as u8, 'l' as u8];
    assert(one.len() == 1 && two.len() == 2 && ll.len() == 2);
    if t.len() > 0 {
        assert(part[0] == bytes[i]);
        assert(t[0] == bytes[i]);
    }
    if t.len() > 1 {
        assert(part[1] == bytes[i + 1]);
    }
    assert(one[0] == 'h' as u8);
    assert(ll[0] == 'l' as u8);
}

/// Where the pieces of a conversion specification start.
spec fn starts(w: Written) -> (int, int, int, int, int, int, int) {
    let a1: int = 1int + flag(w.plus, '+' as u8).len();
    let a2: int = a1 + flag(w.alternative, '#' as u8).len();
    let a3: int = a2 + flag(w.zero, '0' as u8).len();
    let a4: int = a3 + flag(w.left, '-' as u8).len();
    let a5: int = a4 + w.width.len();
    let a6: int = a5 + w.precision_text().len();
    let a7: int = a6 + w.length.len();
    (a1, a2, a3, a4, a5, a6, a7)
}

proof fn lemma_pieces(w: Written)
    ensures
        ({
            let bytes = w.text();
            let (a1, a2, a3, a4, a5, a6, a7) = starts(w);
            &&& a7 == bytes.len() - 1
            &&& bytes[0] == '%' as u8
            &&& bytes[a7] == w.specifier
            &&& bytes.subrange(a4, a5) == w.width
            &&& bytes.subrange(a5, a6) == w.precision_text()
            &&& bytes.subrange(a6, a7) == w.length
            &&& w.left ==> bytes[a3] == '-' as u8
            &&& w.zero ==> bytes[a2] == '0' as u8
            &&& w.alternative ==> bytes[a1] == '#' as u8
            &&& w.plus ==> bytes[1] == '+' as u8
        }),
{
    reveal(Written::text);
    let bytes = w.text();
    let (a1, a2, a3, a4, a5, a6, a7) = starts(w);
    assert(bytes.subrange(a4, a5) =~= w.width);
    assert(bytes.subrange(a5, a6) =~= w.precision_text());
    assert(bytes.subrange(a6, a7) =~= w.length);
}

/// What the pieces start with.
proof fn lemma_piece_starts(w: Written)
    requires
        w.wf(),
        directive::is_specifier(w.specifier),
    ensures
        ({
            let bytes = w.text();
            let (a1, a2, a3, a4, a5, a6, a7) = starts(w);
            let c6 = bytes[a6];
            &&& c6 == 'h' as u8 || c6 == 'l' as u8 || c6 == 'q' as u8 || c6 == 'j' as u8 || c6
                == 'z' as u8 || c6 == 't' as u8 || c6 == 'L' as u8 || c6 == w.specifier
            &&& bytes[a5] == if w.precision is Some {
                '.' as u8
            } else {
                c6
            }
            &&& if w.width.len() > 0 {
                49 <= bytes[a4] <= 57
            } else {
                bytes[a4] == bytes[a5]
            }
            &&& w.precision matches Some(t) ==> bytes.subrange(a5 + 1, a6) == t
        }),
{
    lemma_pieces(w);
    lemma_lengths_differ();
    let bytes = w.text();
    let (a1, a2, a3, a4, a5, a6, a7) = starts(w);
    if w.length.len() > 0 {
        assert(bytes.subrange(a6, a7)[0] == bytes[a6]);
    }
    if w.precision is Some {
        let t = w.precision.unwrap();
        assert(bytes.subrange(a5, a6)[0] == bytes[a5]);
        assert(bytes.subrange(a5 + 1, a6) =~= t) by {
            assert forall|k: int| 0 <= k < t.len() implies bytes.subrange(a5 + 1, a6)[k] == t[k] by {
                assert(bytes.subrange(a5, a6)[k + 1] == w.precision_text()[k + 1]);
            }
        }
    }
    if w.width.len() > 0 {
        assert(bytes.subrange(a4, a5)[0] == bytes[a4]);
    }
}

proof fn lemma_parse(w: Written, m: MemState, va: u32)
    requires
        w.wf(),
        directive::is_specifier(w.specifier),
    ensures
        directive::parse(FormatView::Bytes { bytes: w.text() }, m, 1, va) == Some(
            Parsed { directive: directive_of(w), idx: w.text().len() - 1, va },
        ),
        w.text()[0] == '%' as u8,
        w.text().len() > 1,
{
    let bytes = w.text();
    let f = FormatView::Bytes { bytes };
    lemma_pieces(w);
    lemma_piece_starts(w);
    let (a1, a2, a3, a4, a5, a6, a7) = starts(w);
    lemma_number(bytes, m, a4, w.width, 0);
    if let Some(t) = w.precision {
        lemma_number(bytes, m, a5 + 1, t, 0);
        if t.len() > 0 {
            assert(bytes.subrange(a5 + 1, a6)[0] == bytes[a5 + 1]);
            assert(48 <= t[0] <= 57);
        }
    }
    lemma_length(bytes, m, a6, w.length);
    lemma_value_grows(0, w.width);
    assert(directive::skip_char(f, m, 1, '+' as u8) == a1);
    assert(directive::skip_char(f, m, a1, '#' as u8) == a2);
    assert(directive::skip_char(f, m, a2, '0' as u8) == a3);
    assert(directive::skip_char(f, m, a3, '-' as u8) == a4);
}

/// What a format string that is one conversion makes of its argument.
proof fn lemma_alone(ns_log: bool, locale: u32, w: Written, va: u32, m: MemState)
    requires
        w.wf(),
        directive::is_specifier(w.specifier),
        w.specifier != '%' as u8,
        w.precision is None || directive::is_integer_specifier(w.specifier)
            || directive::is_float_specifier(w.specifier) || w.specifier == 's' as u8,
    ensures
        ({
            let p = Progress { mem: m, idx: w.text().len() as int, va, out: seq![] };
            let next = printf::convert_step(ns_log, locale, directive_of(w), p);
            printf::start(ns_log, locale, FormatView::Bytes { bytes: w.text() }, va, m) == if next.1
                is Go {
                (next.0, Flow::Done)
            } else {
                next
            }
        }),
{
    let f = FormatView::Bytes { bytes: w.text() };
    let p0 = Progress { mem: m, idx: 0, va, out: seq![] };
    lemma_parse(w, m, va);
    printf::lemma_step_advances(ns_log, locale, f, p0);
    let next = printf::step(ns_log, locale, f, p0);
    let p = Progress { mem: m, idx: w.text().len() as int, va, out: seq![] };
    assert(next == printf::convert_step(ns_log, locale, directive_of(w), p));
    assert(next.0.idx == w.text().len());
    if next.1 is Go {
        assert(f.at(next.0.mem, next.0.idx) == 0);
        assert(printf::run(ns_log, locale, f, next.0) == (next.0, Flow::Done));
        assert(printf::run(ns_log, locale, f, p0) == printf::run(ns_log, locale, f, next.0));
    }
}

proof fn lemma_put(
    ns_log: bool,
    locale: u32,
    w: Written,
    va: u32,
    m: MemState,
    t: Seq<u8>,
    n: int,
)
    requires
        w.wf(),
        directive::is_specifier(w.specifier),
        w.specifier != '%' as u8,
        w.precision is None || directive::is_integer_specifier(w.specifier)
            || directive::is_float_specifier(w.specifier) || w.specifier == 's' as u8,
        ({
            let p = Progress { mem: m, idx: w.text().len() as int, va, out: seq![] };
            printf::convert_step(ns_log, locale, directive_of(w), p) == (p.take(n).put(t), Flow::Go)
        }),
    ensures
        ({
            let next = printf::start(
                ns_log,
                locale,
                FormatView::Bytes { bytes: w.text() },
                va,
                m,
            );
            has_put(next, w, m, va, n) && next.0.out == t
        }),
{
    lemma_alone(ns_log, locale, w, va, m);
    assert(Seq::<u8>::empty() + t =~= t);
    assert(seq![] + t =~= t);
}

proof fn lemma_argument(w: Written, p: Progress)
    requires
        w.wf(),
    ensures
        p.unsigned(length_kind(w.length)) == argument(p.mem, p.va, w.length) % range_of(w.length),
        p.take_int(length_kind(w.length)).va == mem::wrap(p.va + bytes_of(w.length)),
{
    reveal(MemState::peek_u64);
    lemma_lengths_differ();
    let a = p.mem.peek_u32(p.va) as int;
    let b = p.mem.peek_u32(mem::wrap(p.va + 4)) as int;
    assert((a + 0x1_0000_0000 * b) % 0x1_0000_0000_0000_0000 == a + 0x1_0000_0000 * b);
}

/// The length modifiers differ.
pub proof fn lemma_lengths_differ()
    ensures
        seq!['h' as u8, 'h' as u8].len() == 2,
        seq!['l' as u8, 'l' as u8].len() == 2,
        seq!['l' as u8, 'l' as u8][0] == 'l' as u8,
        seq!['h' as u8, 'h' as u8][0] == 'h' as u8,
        seq!['h' as u8].len() == 1,
        seq!['h' as u8][0] == 'h' as u8,
        seq!['l' as u8].len() == 1,
        seq!['l' as u8][0] == 'l' as u8,
        seq!['q' as u8].len() == 1,
        seq!['q' as u8][0] == 'q' as u8,
        seq!['j' as u8].len() == 1,
        seq!['j' as u8][0] == 'j' as u8,
        seq!['z' as u8].len() == 1,
        seq!['z' as u8][0] == 'z' as u8,
        seq!['t' as u8].len() == 1,
        seq!['t' as u8][0] == 't' as u8,
        seq!['L' as u8].len() == 1,
        seq!['L' as u8][0] == 'L' as u8,
        Seq::<u8>::empty().len() == 0,
{
}

// Integers

/// Whether `t` is `i` in decimal: a minus sign or, where it is asked for, a plus
/// sign, and digits. A minus sign counts among the `least` characters.
pub open spec fn is_signed_number(t: Seq<u8>, i: int, plus: bool, least: int) -> bool {
    if i < 0 {
        t.len() > 0 && t[0] == '-' as u8 && numerals::is_number(
            t.drop_first(),
            (-i) as nat,
            10,
            false,
            least - 1,
        )
    } else if plus {
        t.len() > 0 && t[0] == '+' as u8 && numerals::is_number(
            t.drop_first(),
            i as nat,
            10,
            false,
            least,
        )
    } else {
        numerals::is_number(t, i as nat, 10, false, least)
    }
}

/// Whether `t` is a prefix, where it is asked for and `n` is not zero, and `n`.
pub open spec fn is_prefixed_number(
    t: Seq<u8>,
    n: nat,
    prefix: Seq<u8>,
    on: bool,
    base: nat,
    upper: bool,
    least: int,
) -> bool {
    let p: Seq<u8> = if on && n != 0 {
        prefix
    } else {
        seq![]
    };
    t.len() >= p.len() && t.take(p.len() as int) == p && numerals::is_number(
        t.skip(p.len() as int),
        n,
        base,
        upper,
        least,
    )
}

/// Whether the field is filled up with zeros, rather than with spaces.
pub open spec fn has_zeros(w: Written) -> bool {
    w.zero && !w.left && w.precision is None
}

/// What a field of an unsigned number is filled up with.
pub open spec fn filler(w: Written) -> u8 {
    if w.zero && !w.left {
        48
    } else {
        32
    }
}

/// Whether formatting has come to the end of `w` with the text `t` and has taken
/// `n` bytes of arguments; nothing is stored.
pub open spec fn has_put(
    next: (Progress, Flow),
    w: Written,
    m: MemState,
    va: u32,
    n: int,
) -> bool {
    &&& next.1 is Done
    &&& next.0.mem == m
    &&& next.0.va == mem::wrap(va + n)
    &&& next.0.idx == w.text().len()
}

proof fn lemma_decimal(i: int)
    ensures
        is_signed_number(text::decimal(i), i, false, 1),
{
    numerals::lemma_digits_are(text::magnitude(i), 10, false);
    if i < 0 {
        assert(text::decimal(i).drop_first() =~= text::digits(text::magnitude(i), 10, false));
    }
}

proof fn lemma_decimal_zeros(i: int, least: int)
    ensures
        is_signed_number(text::decimal_zeros(i, least), i, false, least),
{
    numerals::lemma_filled(text::magnitude(i), 10, false, least);
    numerals::lemma_filled(text::magnitude(i), 10, false, least - 1);
    if i < 0 {
        assert(text::decimal_zeros(i, least).drop_first() =~= text::pad_start(
            text::digits(text::magnitude(i), 10, false),
            least - 1,
            '0' as u8,
        ));
    }
}

/// `%d` and `%i` put the argument out in decimal: the number of the length's range
/// that is the argument modulo the range. A precision asks for leading zeros; a
/// field is filled up with spaces, or with zeros in front.
#[verifier::spinoff_prover]
#[verifier::rlimit(60)]
pub proof fn law_signed(ns_log: bool, locale: u32, w: Written, va: u32, m: MemState, i: int)
    requires
        w.wf(),
        w.specifier == 'd' as u8 || w.specifier == 'i' as u8,
        -range_of(w.length) <= 2 * i < range_of(w.length),
        (argument(m, va, w.length) - i) % range_of(w.length) == 0,
    ensures
        ({
            let next = printf::start(
                ns_log,
                locale,
                FormatView::Bytes { bytes: w.text() },
                va,
                m,
            );
            let t = next.0.out;
            let width = w.width_value();
            let least = if w.precision_value() > 0 {
                w.precision_value()
            } else {
                1
            };
            &&& has_put(next, w, m, va, bytes_of(w.length))
            &&& w.width.len() == 0 ==> is_signed_number(t, i, w.plus, least)
            &&& w.width.len() > 0 && has_zeros(w) && w.plus ==> is_signed_number(
                t,
                i,
                true,
                if i < 0 {
                    width
                } else {
                    width - 1
                },
            )
            &&& w.width.len() > 0 && has_zeros(w) && !w.plus ==> exists|core: Seq<u8>|
                #[trigger] numerals::is_field(t, core, width, 48, false) && is_signed_number(
                    core,
                    i,
                    false,
                    1,
                )
            &&& w.width.len() > 0 && !has_zeros(w) ==> exists|core: Seq<u8>|
                #[trigger] numerals::is_field(t, core, width, 32, w.left) && is_signed_number(
                    core,
                    i,
                    false,
                    least,
                )
        }),
{
    lemma_alone(ns_log, locale, w, va, m);
    let p = Progress { mem: m, idx: w.text().len() as int, va, out: seq![] };
    lemma_argument(w, p);
    let d = directive_of(w);
    let a = argument(m, va, w.length);
    let r = range_of(w.length);
    lemma_signed_value(a, i, r);
    lemma_lengths_differ();
    assert(p.signed(d.length) == i);
    let t = convert::int_text(d, i);
    lemma_put(ns_log, locale, w, va, m, t, bytes_of(w.length));
    lemma_width(w);
    lemma_decimal(i);
    lemma_decimal_zeros(i, w.precision_value());
    let with_precision = if w.precision_value() > 0 {
        text::decimal_zeros(i, w.precision_value())
    } else {
        text::decimal(i)
    };
    if w.width.len() == 0 {
        if w.plus && i >= 0 {
            assert(t.drop_first() =~= with_precision);
        }
    } else if has_zeros(w) && w.plus {
        let field = text::pad_start(
            text::digits(text::magnitude(i), 10, false),
            d.width - 1,
            '0' as u8,
        );
        numerals::lemma_filled(text::magnitude(i), 10, false, d.width - 1);
        assert(t.drop_first() =~= field);
    } else if has_zeros(w) {
        numerals::lemma_padded(text::decimal(i), d.width as int, 48, false);
        assert(numerals::is_field(t, text::decimal(i), w.width_value(), 48, false));
    } else {
        numerals::lemma_padded(with_precision, d.width as int, 32, w.left);
        assert(numerals::is_field(t, with_precision, w.width_value(), 32, w.left));
    }
}

proof fn lemma_signed_value(a: int, i: int, r: int)
    requires
        0 <= a,
        r == 0x100 || r == 0x1_0000 || r == 0x1_0000_0000 || r == 0x1_0000_0000_0000_0000,
        -r <= 2 * i < r,
        (a - i) % r == 0,
    ensures
        crate::abi::signed(a % r, r) == i,
{
}

/// A width that is written down is not zero.
proof fn lemma_width(w: Written)
    requires
        w.wf(),
    ensures
        w.width.len() == 0 <==> w.width_value() == 0,
        w.width_value() >= 0,
{
    if w.width.len() > 0 {
        lemma_value_grows(numerals::digit_of(w.width[0]).unwrap(), w.width.drop_first());
    }
}

/// More digits make no smaller number.
pub proof fn lemma_value_grows(acc: nat, t: Seq<u8>)
    ensures
        numerals::value_from(acc, t, 10) >= acc,
    decreases t.len(),
{
    if t.len() > 0 {
        lemma_value_grows(
            (acc * 10 + numerals::digit_of(t[0]).unwrap()) as nat,
            t.drop_first(),
        );
    }
}

/// `%u` puts the argument out in decimal, modulo the length's range. A precision
/// and a field of zeros ask for leading zeros.
pub proof fn law_unsigned(ns_log: bool, locale: u32, w: Written, va: u32, m: MemState)
    requires
        w.wf(),
        w.specifier == 'u' as u8,
    ensures
        ({
            let next = printf::start(
                ns_log,
                locale,
                FormatView::Bytes { bytes: w.text() },
                va,
                m,
            );
            let t = next.0.out;
            let n = (argument(m, va, w.length) % range_of(w.length)) as nat;
            &&& has_put(next, w, m, va, bytes_of(w.length))
            &&& exists|core: Seq<u8>| #[trigger]
                numerals::is_field(
                    t,
                    core,
                    w.width_value(),
                    filler(w),
                    w.left,
                ) && numerals::is_number(core, n, 10, false, w.precision_value())
        }),
{
    lemma_alone(ns_log, locale, w, va, m);
    let p = Progress { mem: m, idx: w.text().len() as int, va, out: seq![] };
    lemma_argument(w, p);
    let d = directive_of(w);
    let n = (argument(m, va, w.length) % range_of(w.length)) as nat;
    let t = convert::uint_text(d, n);
    lemma_put(ns_log, locale, w, va, m, t, bytes_of(w.length));
    lemma_width(w);
    let core = convert::precise_digits(d, n, 10, false);
    numerals::lemma_digits_are(n, 10, false);
    numerals::lemma_filled(n, 10, false, w.precision_value());
    numerals::lemma_padded(core, d.width as int, 32, w.left);
    numerals::lemma_padded(core, d.width as int, 48, w.left);
    assert(numerals::is_field(t, core, w.width_value(), filler(w), w.left));
}

/// `%x` and `%X` put the argument out in hexadecimal, with letters of their own
/// case, modulo the length's range. `#` asks for `0x` or `0X` unless the number is
/// zero, which counts as part of the field.
#[verifier::spinoff_prover]
#[verifier::rlimit(60)]
pub proof fn law_hexadecimal(ns_log: bool, locale: u32, w: Written, va: u32, m: MemState)
    requires
        w.wf(),
        w.specifier == 'x' as u8 || w.specifier == 'X' as u8,
    ensures
        ({
            let next = printf::start(
                ns_log,
                locale,
                FormatView::Bytes { bytes: w.text() },
                va,
                m,
            );
            let t = next.0.out;
            let n = (argument(m, va, w.length) % range_of(w.length)) as nat;
            let upper = w.specifier == 'X' as u8;
            let prefix = seq!['0' as u8, w.specifier];
            let on = w.alternative;
            let least = w.precision_value();
            let width = w.width_value();
            &&& has_put(next, w, m, va, bytes_of(w.length))
            &&& w.width.len() == 0 && w.precision is Some && least == 0 && n == 0 ==> t.len() == 0
            &&& w.width.len() == 0 && !(w.precision is Some && least == 0 && n == 0)
                ==> is_prefixed_number(t, n, prefix, on, 16, upper, least)
            &&& w.width.len() > 0 && has_zeros(w) ==> is_prefixed_number(
                t,
                n,
                prefix,
                on,
                16,
                upper,
                if on && n != 0 {
                    width - 2
                } else {
                    width
                },
            )
            &&& w.width.len() > 0 && !has_zeros(w) ==> exists|core: Seq<u8>|
                #[trigger] numerals::is_field(t, core, width, 32, w.left) && is_prefixed_number(
                    core,
                    n,
                    prefix,
                    on,
                    16,
                    upper,
                    least,
                )
        }),
{
    lemma_alone(ns_log, locale, w, va, m);
    let p = Progress { mem: m, idx: w.text().len() as int, va, out: seq![] };
    lemma_argument(w, p);
    let d = directive_of(w);
    let n = (argument(m, va, w.length) % range_of(w.length)) as nat;
    let upper = w.specifier == 'X' as u8;
    let t = convert::hex_text(d, n, upper);
    lemma_put(ns_log, locale, w, va, m, t, bytes_of(w.length));
    lemma_width(w);
    let prefix = seq!['0' as u8, w.specifier];
    assert(prefix =~= convert::hex_prefix(upper));
    let pre = convert::prefix_text(d, n, prefix);
    lemma_prefixed(d, n, prefix, w.alternative, 16, upper, w.precision_value());
    let core = pre + convert::precise_digits(d, n, 16, upper);
    if w.width.len() > 0 && has_zeros(w) {
        let rest = text::pad_start(
            text::digits(n, 16, upper),
            d.width - pre.len(),
            '0' as u8,
        );
        numerals::lemma_filled(n, 16, upper, d.width - pre.len());
        assert(t.take(pre.len() as int) =~= pre);
        assert(t.skip(pre.len() as int) =~= rest);
    } else if w.width.len() > 0 {
        numerals::lemma_padded(core, d.width as int, 32, w.left);
        assert(numerals::is_field(t, core, w.width_value(), 32, w.left));
    }
}

proof fn lemma_prefixed(
    d: Directive,
    n: nat,
    prefix: Seq<u8>,
    on: bool,
    base: nat,
    upper: bool,
    least: int,
)
    requires
        base == 8 || base == 16,
        d.alternative == on,
        least == match d.precision {
            Some(p) => p as int,
            None => 0,
        },
    ensures
        is_prefixed_number(
            convert::prefix_text(d, n, prefix) + convert::precise_digits(d, n, base, upper),
            n,
            prefix,
            on,
            base,
            upper,
            least,
        ),
        is_prefixed_number(
            convert::prefix_text(d, n, prefix) + text::digits(n, base, upper),
            n,
            prefix,
            on,
            base,
            upper,
            0,
        ),
{
    let pre = convert::prefix_text(d, n, prefix);
    numerals::lemma_digits_are(n, base, upper);
    numerals::lemma_filled(n, base, upper, least);
    let a = pre + convert::precise_digits(d, n, base, upper);
    let b = pre + text::digits(n, base, upper);
    assert(a.take(pre.len() as int) =~= pre);
    assert(b.take(pre.len() as int) =~= pre);
    assert(a.skip(pre.len() as int) =~= convert::precise_digits(d, n, base, upper));
    assert(b.skip(pre.len() as int) =~= text::digits(n, base, upper));
}

/// `%o` puts the argument out in octal, modulo the length's range. `#` asks for a
/// `0` in front unless the number is zero. A precision is disregarded where there is
/// a width.
pub proof fn law_octal(ns_log: bool, locale: u32, w: Written, va: u32, m: MemState)
    requires
        w.wf(),
        w.specifier == 'o' as u8,
    ensures
        ({
            let next = printf::start(
                ns_log,
                locale,
                FormatView::Bytes { bytes: w.text() },
                va,
                m,
            );
            let t = next.0.out;
            let n = (argument(m, va, w.length) % range_of(w.length)) as nat;
            let prefix = seq!['0' as u8];
            let on = w.alternative;
            let width = w.width_value();
            &&& has_put(next, w, m, va, bytes_of(w.length))
            &&& w.width.len() == 0 ==> is_prefixed_number(
                t,
                n,
                prefix,
                on,
                8,
                false,
                w.precision_value(),
            )
            &&& w.width.len() > 0 && has_zeros(w) ==> is_prefixed_number(
                t,
                n,
                prefix,
                on,
                8,
                false,
                if on && n != 0 {
                    width - 1
                } else {
                    width
                },
            )
            &&& w.width.len() > 0 && !has_zeros(w) ==> exists|core: Seq<u8>|
                #[trigger] numerals::is_field(t, core, width, 32, w.left) && is_prefixed_number(
                    core,
                    n,
                    prefix,
                    on,
                    8,
                    false,
                    0,
                )
        }),
{
    lemma_alone(ns_log, locale, w, va, m);
    let p = Progress { mem: m, idx: w.text().len() as int, va, out: seq![] };
    lemma_argument(w, p);
    let d = directive_of(w);
    let n = (argument(m, va, w.length) % range_of(w.length)) as nat;
    let t = convert::octal_text(d, n);
    lemma_put(ns_log, locale, w, va, m, t, bytes_of(w.length));
    lemma_width(w);
    let prefix = seq!['0' as u8];
    let pre = convert::prefix_text(d, n, prefix);
    lemma_prefixed(d, n, prefix, w.alternative, 8, false, w.precision_value());
    let core = pre + text::digits(n, 8, false);
    if w.width.len() > 0 && has_zeros(w) {
        let rest = text::pad_start(text::digits(n, 8, false), d.width - pre.len(), '0' as u8);
        numerals::lemma_filled(n, 8, false, d.width - pre.len());
        assert(t.take(pre.len() as int) =~= pre);
        assert(t.skip(pre.len() as int) =~= rest);
    } else if w.width.len() > 0 {
        numerals::lemma_padded(core, d.width as int, 32, w.left);
        assert(numerals::is_field(t, core, w.width_value(), 32, w.left));
    }
}

/// `%D`, `%U` and `%O` are those of long integers: they take one word, whatever the
/// length modifier says.
pub proof fn law_long(ns_log: bool, locale: u32, w: Written, va: u32, m: MemState, i: int)
    requires
        w.wf(),
        w.is_plain(),
        w.specifier == 'D' as u8 || w.specifier == 'U' as u8 || w.specifier == 'O' as u8,
        -0x8000_0000 <= i < 0x8000_0000,
        m.peek_u32(va) == i || m.peek_u32(va) == i + 0x1_0000_0000,
    ensures
        ({
            let next = printf::start(
                ns_log,
                locale,
                FormatView::Bytes { bytes: w.text() },
                va,
                m,
            );
            let t = next.0.out;
            let n = m.peek_u32(va) as nat;
            &&& has_put(next, w, m, va, 4)
            &&& w.specifier == 'D' as u8 ==> is_signed_number(t, i, false, 1)
            &&& w.specifier == 'U' as u8 ==> numerals::is_number(t, n, 10, false, 1)
            &&& w.specifier == 'O' as u8 ==> numerals::is_number(t, n, 8, false, 1)
        }),
{
    lemma_alone(ns_log, locale, w, va, m);
    let d = directive_of(w);
    let n = m.peek_u32(va) as nat;
    lemma_width(w);
    lemma_decimal(i);
    numerals::lemma_digits_are(n, 10, false);
    numerals::lemma_digits_are(n, 8, false);
    let t1 = text::decimal(i);
    assert(seq![] + t1 =~= t1);
    let t2 = text::digits(n, 10, false);
    assert(text::pad(t2, 0, false, false) =~= t2);
    assert(seq![] + t2 =~= t2);
    let t3 = text::digits(n, 8, false);
    assert(seq![] + t3 =~= t3);
    assert(text::pad(t3, 0, false, false) =~= t3);
}

/// `%p` puts the argument out as `0x` and a hexadecimal number, in a field filled up
/// with spaces.
pub proof fn law_pointer(ns_log: bool, locale: u32, w: Written, va: u32, m: MemState)
    requires
        w.wf(),
        w.specifier == 'p' as u8,
        w.precision is None,
        !(w.zero && w.width.len() > 0),
    ensures
        ({
            let next = printf::start(
                ns_log,
                locale,
                FormatView::Bytes { bytes: w.text() },
                va,
                m,
            );
            let n = m.peek_u32(va) as nat;
            &&& has_put(next, w, m, va, 4)
            &&& exists|core: Seq<u8>|
                #[trigger] numerals::is_field(
                    next.0.out,
                    core,
                    w.width_value(),
                    32,
                    w.left,
                ) && core.len() > 2 && core[0] == '0' as u8 && core[1] == 'x' as u8
                    && numerals::is_number(core.skip(2), n, 16, false, 1)
        }),
{
    lemma_alone(ns_log, locale, w, va, m);
    let d = directive_of(w);
    let n = m.peek_u32(va) as nat;
    lemma_width(w);
    numerals::lemma_digits_are(n, 16, false);
    let core = convert::hex_prefix(false) + text::digits(n, 16, false);
    assert(core.skip(2) =~= text::digits(n, 16, false));
    let t = convert::pointer_text(d, n as u32);
    lemma_put(ns_log, locale, w, va, m, t, 4);
    numerals::lemma_padded(core, d.width as int, 32, w.left);
    assert(numerals::is_field(t, core, w.width_value(), 32, w.left));
}

// Text

/// `%c` puts out the byte that the argument is; with the modifier `l`, a character
/// in UTF-8, or `?` where there is no such character.
#[verifier::spinoff_prover]
#[verifier::rlimit(60)]
pub proof fn law_character(ns_log: bool, locale: u32, w: Written, va: u32, m: MemState)
    requires
        w.wf(),
        w.is_plain(),
        w.specifier == 'c' as u8 || w.specifier == 'C' as u8,
    ensures
        ({
            let next = printf::start(
                ns_log,
                locale,
                FormatView::Bytes { bytes: w.text() },
                va,
                m,
            );
            let t = next.0.out;
            let c = m.peek_u32(va);
            &&& has_put(next, w, m, va, 4)
            &&& w.specifier == 'c' as u8 && w.length.len() == 0 ==> t.len() == 1 && (c - t[0])
                % 0x100 == 0
            &&& w.specifier == 'c' as u8 && w.length == seq!['l' as u8] ==> t == if is_scalar(c) {
                encode_scalar(c)
            } else {
                seq!['?' as u8]
            }
            &&& w.specifier == 'C' as u8 ==> exists|low: u32|
                low < 0x1_0000 && (c - low) % 0x1_0000 == 0 && t == if #[trigger] is_scalar(low) {
                    encode_scalar(low)
                } else {
                    seq!['?' as u8]
                }
        }),
{
    lemma_alone(ns_log, locale, w, va, m);
    lemma_width(w);
    lemma_lengths_differ();
    let c = m.peek_u32(va);
    let one = seq![(c % 0x100) as u8];
    assert(seq![] + one =~= one);
    let wide = text::char_text(c);
    assert(seq![] + wide =~= wide);
    let low = (c % 0x1_0000) as u32;
    let half = text::char_text(low);
    assert(seq![] + half =~= half);
    assert(is_scalar(low) || !is_scalar(low));
}

/// `%s` puts out the string at the argument's address, or as much of it as the
/// precision allows; `(null)` stands for NULL. In a field, it is filled up with
/// spaces to as many characters as the width asks for.
pub proof fn law_string(ns_log: bool, locale: u32, w: Written, va: u32, m: MemState)
    requires
        w.wf(),
        w.specifier == 's' as u8,
        w.precision_value() < 0x1_0000_0000,
    ensures
        ({
            let next = printf::start(
                ns_log,
                locale,
                FormatView::Bytes { bytes: w.text() },
                va,
                m,
            );
            let t = next.0.out;
            let ptr = m.peek_u32(va);
            let s = m.cstr(ptr);
            let width = w.width_value();
            let fits = w.precision is Some || w.width.len() == 0 || valid_utf8(s);
            &&& ptr == 0 ==> has_put(next, w, m, va, 4) && t == seq![
                '(' as u8,
                'n' as u8,
                'u' as u8,
                'l' as u8,
                'l' as u8,
                ')' as u8,
            ]
            &&& ptr != 0 && fits ==> has_put(next, w, m, va, 4)
            &&& ptr != 0 && !fits ==> next.1 is Unsupported
            &&& ptr != 0 && w.precision is Some ==> t.is_prefix_of(s) && t.len()
                <= w.precision_value() && (t.len() == w.precision_value() || t == s)
            &&& ptr != 0 && w.precision is None && w.width.len() == 0 ==> t == s
            &&& ptr != 0 && w.precision is None && w.width.len() > 0 && valid_utf8(s) ==> {
                let missing = width - decode_utf8(s).len();
                numerals::is_field(
                    t,
                    s,
                    if missing > 0 {
                        s.len() + missing
                    } else {
                        s.len() as int
                    },
                    32,
                    w.left,
                )
            }
        }),
{
    lemma_alone(ns_log, locale, w, va, m);
    lemma_width(w);
    let d = directive_of(w);
    let ptr = m.peek_u32(va);
    let s = m.cstr(ptr);
    if let Some(t) = printf::string_text(d, m, ptr) {
        assert(seq![] + t =~= t);
        if ptr != 0 && w.precision is Some {
            assert(t =~= s.subrange(0, t.len() as int));
            if s.len() <= w.precision_value() {
                assert(t =~= s);
            }
        }
    }
}

/// `%%` puts out a percent sign and takes no argument.
pub proof fn law_percent(ns_log: bool, locale: u32, w: Written, va: u32, m: MemState)
    requires
        w.wf(),
        w.specifier == '%' as u8,
    ensures
        ({
            let next = printf::start(
                ns_log,
                locale,
                FormatView::Bytes { bytes: w.text() },
                va,
                m,
            );
            has_put(next, w, m, va, 0) && next.0.out == seq!['%' as u8]
        }),
{
    let f = FormatView::Bytes { bytes: w.text() };
    let p0 = Progress { mem: m, idx: 0, va, out: seq![] };
    lemma_parse(w, m, va);
    printf::lemma_step_advances(ns_log, locale, f, p0);
    let next = printf::step(ns_log, locale, f, p0);
    assert(next.0.idx == w.text().len());
    assert(seq![] + seq!['%' as u8] =~= seq!['%' as u8]);
    assert(f.at(next.0.mem, next.0.idx) == 0);
    assert(mem::wrap(va + 0) == va);
    assert(next.1 is Go);
    assert(printf::run(ns_log, locale, f, next.0) == (next.0, Flow::Done));
    assert(printf::run(ns_log, locale, f, p0) == printf::run(ns_log, locale, f, next.0));
}

// What the host has to answer

/// `%f`, `%e` and `%a` ask the host for the text of the 64-bit argument, with six
/// decimals unless there is a precision; `%g` for its exponent first, if it is not
/// zero. The argument has its low word first.
pub proof fn law_float_request(ns_log: bool, locale: u32, w: Written, va: u32, m: MemState)
    requires
        w.wf(),
        directive::is_float_specifier(w.specifier),
        w.precision_value() <= i32::MAX,
    ensures
        ({
            let next = printf::start(
                ns_log,
                locale,
                FormatView::Bytes { bytes: w.text() },
                va,
                m,
            );
            let bits = (m.peek_u32(va) + 0x1_0000_0000 * m.peek_u32(mem::wrap(va + 4))) as u64;
            let c = w.specifier;
            let precision = if w.precision is Some {
                w.precision_value()
            } else {
                6
            };
            let request = next.1->request;
            &&& next.1 is Waiting
            &&& next.0 == (Progress {
                mem: m,
                idx: w.text().len() as int,
                va: mem::wrap(va + 8),
                out: seq![],
            })
            &&& c == 'f' as u8 || c == 'F' as u8 ==> request == (Request::Fixed {
                bits,
                precision: precision as u64,
            })
            &&& c == 'e' as u8 || c == 'E' as u8 ==> request == (Request::Scientific {
                bits,
                precision: precision as u64,
            })
            &&& c == 'a' as u8 || c == 'A' as u8 ==> request == (Request::LowerExp { bits })
            &&& c == 'g' as u8 || c == 'G' as u8 ==> if bits == 0 || bits == 0x8000_0000_0000_0000 {
                request == (Request::Fixed {
                    bits,
                    precision: (if precision == 0 {
                        0
                    } else {
                        precision - 1
                    }) as u64,
                })
            } else {
                request == Request::Exponent { bits }
            }
        }),
{
    lemma_alone(ns_log, locale, w, va, m);
    reveal(MemState::peek_u64);
}

/// Formatting that waits, as [printf::start] has left it.
pub open spec fn waiting(
    next: (Progress, Flow),
    ns_log: bool,
    w: Written,
) -> printf::PrintfView {
    printf::PrintfView {
        format: FormatView::Bytes { bytes: w.text() },
        ns_log,
        idx: next.0.idx,
        va: next.0.va,
        out: next.0.out,
        flow: next.1,
    }
}

/// `%g` and `%G` choose decimal notation for a number whose decimal exponent is from
/// -4 on and below the number of significant digits, and scientific notation for
/// others, with that many significant digits either way: six, or the precision, but
/// at least one.
pub proof fn law_notation(
    ns_log: bool,
    locale: u32,
    w: Written,
    va: u32,
    m: MemState,
    exponent: i32,
)
    requires
        w.wf(),
        w.specifier == 'g' as u8 || w.specifier == 'G' as u8,
        w.precision_value() < 0x4000_0000,
        ({
            let next = printf::start(
                ns_log,
                locale,
                FormatView::Bytes { bytes: w.text() },
                va,
                m,
            );
            next.1 is Waiting && next.1->request is Exponent
        }),
    ensures
        ({
            let next = printf::start(
                ns_log,
                locale,
                FormatView::Bytes { bytes: w.text() },
                va,
                m,
            );
            let bits = next.1->request->Exponent_bits;
            let digits = if w.precision is None {
                6
            } else if w.precision_value() == 0 {
                1
            } else {
                w.precision_value()
            };
            let after = printf::resume(
                locale,
                waiting(next, ns_log, w),
                ReplyView::Exponent { exponent },
                m,
            );
            &&& after.0 == next.0
            &&& after.1 is Waiting
            &&& -4 <= exponent < digits ==> after.1->request == (Request::Fixed {
                bits,
                precision: (digits - 1 - exponent) as u64,
            })
            &&& !(-4 <= exponent < digits) ==> after.1->request == (Request::Scientific {
                bits,
                precision: (digits - 1) as u64,
            })
        }),
{
    lemma_alone(ns_log, locale, w, va, m);
}

/// The host's text for `%f`, `%e`, `%F` and `%E` is put out in the field that is
/// asked for: `%e` and `%E` are given the absolute value and add the sign, and `%F`
/// and `%E` have upper case letters. `+` asks for a plus sign.
pub proof fn law_float_text(
    ns_log: bool,
    locale: u32,
    w: Written,
    va: u32,
    m: MemState,
    text: Seq<u8>,
)
    requires
        w.wf(),
        w.specifier == 'f' as u8 || w.specifier == 'F' as u8 || w.specifier == 'e' as u8
            || w.specifier == 'E' as u8,
        w.precision_value() <= i32::MAX,
        !w.plus,
        !(w.zero && !w.left),
    ensures
        ({
            let next = printf::start(
                ns_log,
                locale,
                FormatView::Bytes { bytes: w.text() },
                va,
                m,
            );
            let after = printf::resume(
                locale,
                waiting(next, ns_log, w),
                ReplyView::Text { text },
                m,
            );
            let high = m.peek_u32(mem::wrap(va + 4));
            let scientific = w.specifier == 'e' as u8 || w.specifier == 'E' as u8;
            let upper = w.specifier == 'F' as u8 || w.specifier == 'E' as u8;
            let sign: Seq<u8> = if scientific && high >= 0x8000_0000 {
                seq!['-' as u8]
            } else {
                seq![]
            };
            &&& has_put(after, w, m, va, 8)
            &&& exists|core: Seq<u8>|
                #[trigger] numerals::is_field(
                    after.0.out,
                    core,
                    w.width_value(),
                    32,
                    w.left,
                ) && is_cased(core, sign + text, upper)
        }),
{
    lemma_alone(ns_log, locale, w, va, m);
    reveal(MemState::peek_u64);
    lemma_width(w);
    let f = FormatView::Bytes { bytes: w.text() };
    let next = printf::start(ns_log, locale, f, va, m);
    let d = directive_of(w);
    let bits = m.peek_u64(va);
    let high = m.peek_u32(mem::wrap(va + 4));
    assert(convert::is_negative(bits) == (high >= 0x8000_0000));
    let scientific = w.specifier == 'e' as u8 || w.specifier == 'E' as u8;
    let upper = w.specifier == 'F' as u8 || w.specifier == 'E' as u8;
    let sign: Seq<u8> = if scientific && high >= 0x8000_0000 {
        seq!['-' as u8]
    } else {
        seq![]
    };
    let out = if scientific {
        convert::scientific_text(d, bits, text)
    } else {
        convert::fixed_text(d, bits, text)
    };
    let whole = sign + text;
    let core = if upper {
        text::uppercase(whole)
    } else {
        whole
    };
    if !scientific {
        assert(whole =~= text);
    }
    numerals::lemma_padded(core, d.width as int, 32, w.left);
    numerals::lemma_padded(whole, d.width as int, 32, w.left);
    if scientific && upper {
        let padded = text::pad(whole, d.width as int, false, w.left);
        assert(text::uppercase(padded) =~= text::pad(core, d.width as int, false, w.left));
    }
    assert(out == text::pad(core, d.width as int, false, w.left));
    assert(numerals::is_field(out, core, w.width_value(), 32, w.left));
    assert(seq![] + out =~= out);
    let p = Progress { out, ..next.0 };
    assert(f.at(m, p.idx) == 0);
    assert(printf::run(ns_log, locale, f, p) == (p, Flow::Done));
    assert(is_cased(core, whole, upper));
    assert(next.0.out =~= seq![]);
    assert(next.1 is Waiting);
    let v = waiting(next, ns_log, w);
    let after = printf::resume(locale, v, ReplyView::Text { text }, m);
    assert(v.flow->directive == d);
    assert(printf::answer(d, v.flow->request, ReplyView::Text { text }, v.progress(m)).0 == p);
    assert(after == (p, Flow::Done));
    assert(has_put(after, w, m, va, 8));
    assert(numerals::is_field(after.0.out, core, w.width_value(), 32, w.left));
    assert(is_cased(core, sign + text, upper));
}

/// Whether `t` is `text`, with letters in upper case where that is asked for.
pub open spec fn is_cased(t: Seq<u8>, text: Seq<u8>, upper: bool) -> bool {
    &&& t.len() == text.len()
    &&& forall|k: int|
        0 <= k < t.len() ==> #[trigger] t[k] == if upper && 97 <= text[k] <= 122 {
            text[k] - 32
        } else {
            text[k] as int
        }
}

/// `%@` puts out the description that the host gives of the object that the argument
/// is, and `(null)` where there is none; it is for `NSLog` only.
pub proof fn law_object(locale: u32, w: Written, va: u32, m: MemState, text: Seq<u8>)
    requires
        w.wf(),
        w.specifier == '@' as u8,
        w.precision is None,
    ensures
        ({
            let f = FormatView::Bytes { bytes: w.text() };
            let next = printf::start(true, locale, f, va, m);
            let after = printf::resume(
                locale,
                waiting(next, true, w),
                ReplyView::Text { text },
                m,
            );
            let none = printf::resume(locale, waiting(next, true, w), ReplyView::Nil, m);
            let plain = printf::start(false, locale, f, va, m);
            &&& next.1 is Waiting
            &&& next.1->request == Request::Description { object: m.peek_u32(va) }
            &&& has_put(after, w, m, va, 4) && after.0.out == text
            &&& has_put(none, w, m, va, 4) && none.0.out == seq![
                '(' as u8,
                'n' as u8,
                'u' as u8,
                'l' as u8,
                'l' as u8,
                ')' as u8,
            ]
            &&& has_put(plain, w, m, va, 0) && plain.0.out.len() == 0
        }),
{
    lemma_alone(true, locale, w, va, m);
    lemma_alone(false, locale, w, va, m);
    let f = FormatView::Bytes { bytes: w.text() };
    let next = printf::start(true, locale, f, va, m);
    assert(seq![] + text =~= text);
    assert(seq![] + printf::null_text() =~= printf::null_text());
    let p = Progress { out: text, ..next.0 };
    let q = Progress { out: printf::null_text(), ..next.0 };
    assert(f.at(m, p.idx) == 0);
    assert(printf::run(true, locale, f, p) == (p, Flow::Done));
    assert(printf::run(true, locale, f, q) == (q, Flow::Done));
    assert(mem::wrap(va + 0) == va);
}

// The call

/// A call that formats without the host leaves the text in the buffer and returns its
/// length.
pub proof fn law_sprintf(
    env: EnvState,
    dest: u32,
    ns_log: bool,
    format: FormatView,
    va: u32,
)
    requires
        ({
            let next = printf::start(ns_log, env.ctype_locale, format, va, env.mem);
            &&& next.1 is Done
            &&& next.0.out.len() <= i32::MAX
            &&& dest + next.0.out.len() <= 0xFFFF_FFFF
            &&& forall|i: int| 0 <= i < next.0.out.len() ==> #[trigger] next.0.out[i] != 0
        }),
        NULL_PAGE_END <= dest,
    ensures
        ({
            let next = printf::start(ns_log, env.ctype_locale, format, va, env.mem);
            let (e, r) = printf::begin(env, Sink::Buffer { dest }, ns_log, format, va);
            &&& e.mem.cstr(dest) == next.0.out
            &&& r == (OutcomeView::Returned { value: next.0.out.len() as i32 })
            &&& e == (EnvState { mem: e.mem, ..env })
        }),
{
    let next = printf::start(ns_log, env.ctype_locale, format, va, env.mem);
    mem::laws::law_string_reads_back(next.0.mem, dest, next.0.out);
}

// Widths and precisions that are arguments

/// A `*` for the width stands for the argument before the one that is converted: the
/// text is that of the conversion with the width written out.
pub proof fn law_star_width(ns_log: bool, locale: u32, w: Written, va: u32, m: MemState)
    requires
        w.wf(),
        w.width.len() > 0,
        directive::is_specifier(w.specifier),
        m.peek_u32(va) == w.width_value(),
    ensures
        ({
            let star = Written { width: seq!['*' as u8], ..w };
            let a = printf::start(
                ns_log,
                locale,
                FormatView::Bytes { bytes: star.text() },
                va,
                m,
            );
            let b = printf::start(
                ns_log,
                locale,
                FormatView::Bytes { bytes: w.text() },
                mem::wrap(va + 4),
                m,
            );
            &&& a.1 == b.1
            &&& !(a.1 is Unsupported) ==> a.0.out == b.0.out && a.0.va == b.0.va && a.0.mem
                == b.0.mem
        }),
{
    let star = Written { width: seq!['*' as u8], ..w };
    lemma_star_parse(w, m, va);
    lemma_parse(w, m, mem::wrap(va + 4));
    lemma_same_step(ns_log, locale, star.text(), va, w.text(), mem::wrap(va + 4), m, w);
}

/// A `*` for the precision stands for the argument before the one that is converted.
pub proof fn law_star_precision(ns_log: bool, locale: u32, w: Written, va: u32, m: MemState)
    requires
        w.wf(),
        w.precision is Some,
        directive::is_specifier(w.specifier),
        m.peek_u32(va) == w.precision_value(),
        w.precision_value() < 0x8000_0000,
    ensures
        ({
            let star = Written { precision: Some(seq!['*' as u8]), ..w };
            let a = printf::start(
                ns_log,
                locale,
                FormatView::Bytes { bytes: star.text() },
                va,
                m,
            );
            let b = printf::start(
                ns_log,
                locale,
                FormatView::Bytes { bytes: w.text() },
                mem::wrap(va + 4),
                m,
            );
            &&& a.1 == b.1
            &&& !(a.1 is Unsupported) ==> a.0.out == b.0.out && a.0.va == b.0.va && a.0.mem
                == b.0.mem
        }),
{
    let star = Written { precision: Some(seq!['*' as u8]), ..w };
    lemma_star_precision_parse(w, m, va);
    lemma_parse(w, m, mem::wrap(va + 4));
    lemma_same_step(ns_log, locale, star.text(), va, w.text(), mem::wrap(va + 4), m, w);
}

proof fn lemma_star_parse(w: Written, m: MemState, va: u32)
    requires
        w.wf(),
        w.width.len() > 0,
        directive::is_specifier(w.specifier),
        m.peek_u32(va) == w.width_value(),
    ensures
        ({
            let star = Written { width: seq!['*' as u8], ..w };
            &&& directive::parse(FormatView::Bytes { bytes: star.text() }, m, 1, va) == Some(
                Parsed {
                    directive: directive_of(w),
                    idx: star.text().len() - 1,
                    va: mem::wrap(va + 4),
                },
            )
            &&& star.text()[0] == '%' as u8
            &&& star.text().len() > 1
        }),
{
    let star = Written { width: seq!['*' as u8], ..w };
    let bytes = star.text();
    let f = FormatView::Bytes { bytes };
    lemma_pieces(star);
    lemma_tail_starts(star);
    let (a1, a2, a3, a4, a5, a6, a7) = starts(star);
    assert(bytes.subrange(a4, a5)[0] == bytes[a4]);
    if let Some(t) = w.precision {
        lemma_number(bytes, m, a5 + 1, t, 0);
        if t.len() > 0 {
            assert(bytes.subrange(a5 + 1, a6)[0] == bytes[a5 + 1]);
            assert(48 <= t[0] <= 57);
        }
    }
    lemma_length(bytes, m, a6, w.length);
    lemma_value_grows(0, w.width);
    assert(directive::skip_char(f, m, 1, '+' as u8) == a1);
    assert(directive::skip_char(f, m, a1, '#' as u8) == a2);
    assert(directive::skip_char(f, m, a2, '0' as u8) == a3);
    assert(directive::skip_char(f, m, a3, '-' as u8) == a4);
}

proof fn lemma_star_precision_parse(w: Written, m: MemState, va: u32)
    requires
        w.wf(),
        w.precision is Some,
        directive::is_specifier(w.specifier),
        m.peek_u32(va) == w.precision_value(),
        w.precision_value() < 0x8000_0000,
    ensures
        ({
            let star = Written { precision: Some(seq!['*' as u8]), ..w };
            &&& directive::parse(FormatView::Bytes { bytes: star.text() }, m, 1, va) == Some(
                Parsed {
                    directive: directive_of(w),
                    idx: star.text().len() - 1,
                    va: mem::wrap(va + 4),
                },
            )
            &&& star.text()[0] == '%' as u8
            &&& star.text().len() > 1
        }),
{
    let star = Written { precision: Some(seq!['*' as u8]), ..w };
    let bytes = star.text();
    let f = FormatView::Bytes { bytes };
    lemma_pieces(star);
    lemma_tail_starts(star);
    let (a1, a2, a3, a4, a5, a6, a7) = starts(star);
    if w.width.len() > 0 {
        assert(bytes.subrange(a4, a5)[0] == bytes[a4]);
        assert(48 <= w.width[0] <= 57);
    }
    lemma_number(bytes, m, a4, w.width, 0);
    assert(bytes.subrange(a5 + 1, a6)[0] == bytes[a5 + 1]);
    lemma_length(bytes, m, a6, w.length);
    lemma_value_grows(0, w.width);
    assert(directive::skip_char(f, m, 1, '+' as u8) == a1);
    assert(directive::skip_char(f, m, a1, '#' as u8) == a2);
    assert(directive::skip_char(f, m, a2, '0' as u8) == a3);
    assert(directive::skip_char(f, m, a3, '-' as u8) == a4);
}

/// What the pieces behind the width start with.
proof fn lemma_tail_starts(w: Written)
    requires
        is_length(w.length),
        directive::is_specifier(w.specifier),
    ensures
        ({
            let bytes = w.text();
            let (a1, a2, a3, a4, a5, a6, a7) = starts(w);
            let c6 = bytes[a6];
            &&& c6 == 'h' as u8 || c6 == 'l' as u8 || c6 == 'q' as u8 || c6 == 'j' as u8 || c6
                == 'z' as u8 || c6 == 't' as u8 || c6 == 'L' as u8 || c6 == w.specifier
            &&& bytes[a5] == if w.precision is Some {
                '.' as u8
            } else {
                c6
            }
            &&& w.width.len() == 0 ==> bytes[a4] == bytes[a5]
            &&& w.precision matches Some(t) ==> bytes.subrange(a5 + 1, a6) == t
        }),
{
    lemma_pieces(w);
    lemma_lengths_differ();
    let bytes = w.text();
    let (a1, a2, a3, a4, a5, a6, a7) = starts(w);
    if w.length.len() > 0 {
        assert(bytes.subrange(a6, a7)[0] == bytes[a6]);
    }
    if w.precision is Some {
        let t = w.precision.unwrap();
        assert(bytes.subrange(a5, a6)[0] == bytes[a5]);
        assert(bytes.subrange(a5 + 1, a6) =~= t) by {
            assert forall|k: int| 0 <= k < t.len() implies bytes.subrange(a5 + 1, a6)[k] == t[k] by {
                assert(bytes.subrange(a5, a6)[k + 1] == w.precision_text()[k + 1]);
            }
        }
    }
}

/// A conversion does not depend on where it stands in the format string.
#[verifier::spinoff_prover]
#[verifier::rlimit(60)]
proof fn lemma_convert_anywhere(ns_log: bool, locale: u32, d: Directive, p: Progress, idx: int)
    ensures
        ({
            let a = printf::convert_step(ns_log, locale, d, p);
            let b = printf::convert_step(ns_log, locale, d, Progress { idx, ..p });
            &&& a.1 == b.1
            &&& b.0 == (Progress { idx, ..a.0 })
            &&& a.0.idx == p.idx
        }),
{
}

/// What a single conversion does first.
proof fn lemma_first_step(
    ns_log: bool,
    locale: u32,
    bytes: Seq<u8>,
    va: u32,
    m: MemState,
    d: Directive,
    after: u32,
)
    requires
        bytes.len() > 1,
        bytes[0] == '%' as u8,
        directive::is_specifier(d.specifier),
        directive::parse(FormatView::Bytes { bytes }, m, 1, va) == Some(
            Parsed { directive: d, idx: bytes.len() - 1, va: after },
        ),
    ensures
        ({
            let f = FormatView::Bytes { bytes };
            let q = Progress { mem: m, idx: bytes.len() as int, va: after, out: seq![] };
            let next = if d.specifier == '%' as u8 {
                (q.put(seq!['%' as u8]), Flow::Go)
            } else if d.precision is Some && !directive::is_integer_specifier(d.specifier)
                && !directive::is_float_specifier(d.specifier) && d.specifier != 's' as u8 {
                (q, Flow::Unsupported)
            } else {
                printf::convert_step(ns_log, locale, d, q)
            };
            &&& next.0.idx == bytes.len()
            &&& printf::start(ns_log, locale, f, va, m) == if next.1 is Go {
                (next.0, Flow::Done)
            } else {
                next
            }
        }),
{
    let f = FormatView::Bytes { bytes };
    let p0 = Progress { mem: m, idx: 0, va, out: seq![] };
    let q = Progress { mem: m, idx: bytes.len() as int, va: after, out: seq![] };
    printf::lemma_step_advances(ns_log, locale, f, p0);
    lemma_convert_anywhere(ns_log, locale, d, q, q.idx);
    let next = printf::step(ns_log, locale, f, p0);
    assert(next.0.idx == bytes.len());
    if next.1 is Go {
        assert(f.at(next.0.mem, next.0.idx) == 0);
        assert(printf::run(ns_log, locale, f, next.0) == (next.0, Flow::Done));
        assert(printf::run(ns_log, locale, f, p0) == printf::run(ns_log, locale, f, next.0));
    }
}

/// Two format strings that are the same conversion do the same.
proof fn lemma_same_step(
    ns_log: bool,
    locale: u32,
    b1: Seq<u8>,
    va1: u32,
    b2: Seq<u8>,
    va2: u32,
    m: MemState,
    w: Written,
)
    requires
        b1.len() > 1,
        b2.len() > 1,
        b1[0] == '%' as u8,
        b2[0] == '%' as u8,
        directive::is_specifier(w.specifier),
        directive::parse(FormatView::Bytes { bytes: b1 }, m, 1, va1) == Some(
            Parsed { directive: directive_of(w), idx: b1.len() - 1, va: va2 },
        ),
        directive::parse(FormatView::Bytes { bytes: b2 }, m, 1, va2) == Some(
            Parsed { directive: directive_of(w), idx: b2.len() - 1, va: va2 },
        ),
    ensures
        ({
            let a = printf::start(ns_log, locale, FormatView::Bytes { bytes: b1 }, va1, m);
            let b = printf::start(ns_log, locale, FormatView::Bytes { bytes: b2 }, va2, m);
            &&& a.1 == b.1
            &&& !(a.1 is Unsupported) ==> a.0.out == b.0.out && a.0.va == b.0.va && a.0.mem
                == b.0.mem
        }),
{
    let d = directive_of(w);
    lemma_first_step(ns_log, locale, b1, va1, m, d, va2);
    lemma_first_step(ns_log, locale, b2, va2, m, d, va2);
    let q = Progress { mem: m, idx: b1.len() as int, va: va2, out: seq![] };
    lemma_convert_anywhere(ns_log, locale, d, q, b2.len() as int);
}

/// `%n` behind other text stores how many bytes were put out, and puts out nothing.
pub proof fn law_count(ns_log: bool, locale: u32, d: Directive, p: Progress)
    requires
        d.specifier == 'n' as u8,
        p.out.len() <= u32::MAX,
        NULL_PAGE_END <= p.mem.peek_u32(p.va) <= 0xFFFF_FFF8,
    ensures
        ({
            let (q, flow) = printf::convert_step(ns_log, locale, d, p);
            &&& flow is Go
            &&& q.out == p.out && q.idx == p.idx
            &&& q.va == mem::wrap(p.va + 4)
            &&& q.mem.peek_u32(p.mem.peek_u32(p.va)) == p.out.len()
        }),
{
    let ptr = p.mem.peek_u32(p.va);
    mem::lemma_peek_poke_u32(p.mem, ptr, p.out.len() as u32);
}

} // verus!
