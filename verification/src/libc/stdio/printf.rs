//! `printf` function family. The implementation is also used by `NSLog` etc.
//!
//! Floating-point numbers and objects are put into text by the host. Where a
//! conversion needs one of those, formatting stops with a [Request] and goes
//! on once the host has answered it.
use crate::abi;
use crate::abi::{DotDotDot, VaList};
use crate::environment::{EnvState, Environment};
use crate::guest_console;
use crate::guest_console::Stream;
use crate::libc::errno;
use crate::libc::stdio::convert;
use crate::libc::stdio::directive;
use crate::libc::stdio::directive::{Directive, Format, FormatView, Length};
use crate::libc::stdio::text;
use crate::mem;
use crate::mem::{Mem, MemState};
use vstd::prelude::*;
use vstd::utf8::*;

verus! {

/// The file descriptors of the standard streams.
pub const STDIN_FILENO: u32 = 0;

pub const STDOUT_FILENO: u32 = 1;

pub const STDERR_FILENO: u32 = 2;

/// Something that only the host can put into text.
#[derive(Clone, Copy, PartialEq, Eq, Structural, Debug)]
pub enum Request {
    /// The number with this bit pattern in decimal notation, with this many
    /// digits behind the point.
    Fixed { bits: u64, precision: u64 },
    /// The absolute value of the number in scientific notation: with this many
    /// digits behind the point, and an exponent with a sign and at least two
    /// digits.
    Scientific { bits: u64, precision: u64 },
    /// The number in scientific notation, with as many digits as it needs.
    LowerExp { bits: u64 },
    /// The decimal exponent of the number.
    Exponent { bits: u64 },
    /// The description of an object.
    Description { object: u32 },
}

/// The answer to a [Request].
pub enum Reply {
    Text { text: Vec<u8> },
    Exponent { exponent: i32 },
    /// There is no description.
    Nil,
}

/// The model of a [Reply].
pub enum ReplyView {
    Text { text: Seq<u8> },
    Exponent { exponent: i32 },
    Nil,
}

impl View for Reply {
    type V = ReplyView;

    open spec fn view(&self) -> ReplyView {
        match *self {
            Reply::Text { text } => ReplyView::Text { text: text@ },
            Reply::Exponent { exponent } => ReplyView::Exponent { exponent },
            Reply::Nil => ReplyView::Nil,
        }
    }
}

impl Request {
    /// Whether `reply` is an answer to this request.
    pub open spec fn takes(self, reply: ReplyView) -> bool {
        match self {
            Request::Exponent { .. } => reply is Exponent,
            Request::Description { .. } => reply is Text || reply is Nil,
            _ => reply is Text,
        }
    }
}

/// How formatting goes on after a step.
#[derive(Clone, Copy, PartialEq, Eq, Structural, Debug)]
pub enum Flow {
    /// With the next character of the format string.
    Go,
    /// The format string has ended.
    Done,
    /// The host has to answer the request first.
    Waiting { directive: Directive, request: Request },
    /// The format asks for something that is not supported.
    Unsupported,
}

/// The state of formatting.
#[verifier::ext_equal]
pub struct Progress {
    pub mem: MemState,
    /// The index of the next character of the format string.
    pub idx: int,
    /// The address of the next argument.
    pub va: u32,
    /// What has been formatted so far.
    pub out: Seq<u8>,
}

impl Progress {
    /// The state after `text` was put out.
    pub open spec fn put(self, text: Seq<u8>) -> Progress {
        Progress { out: self.out + text, ..self }
    }

    /// The state after arguments of `n` bytes were taken.
    pub open spec fn take(self, n: int) -> Progress {
        Progress { va: mem::wrap(self.va + n), ..self }
    }

    /// The next argument as an unsigned integer of the given length.
    pub open spec fn unsigned(self, length: Length) -> int {
        match length {
            Length::LongLong => self.mem.peek_u64(self.va) as int,
            Length::HalfHalf => self.mem.peek_u32(self.va) as int % 0x100,
            Length::Half => self.mem.peek_u32(self.va) as int % 0x1_0000,
            _ => self.mem.peek_u32(self.va) as int,
        }
    }

    /// The next argument as a signed integer of the given length.
    pub open spec fn signed(self, length: Length) -> int {
        abi::signed(
            self.unsigned(length),
            match length {
                Length::LongLong => 0x1_0000_0000_0000_0000,
                Length::HalfHalf => 0x100,
                Length::Half => 0x1_0000,
                _ => 0x1_0000_0000,
            },
        )
    }

    /// The state after an integer argument of the given length was taken.
    pub open spec fn take_int(self, length: Length) -> Progress {
        self.take(
            if length == Length::LongLong {
                8
            } else {
                4
            },
        )
    }
}

/// What stands for a null string or object.
pub open spec fn null_text() -> Seq<u8> {
    seq!['(' as u8, 'n' as u8, 'u' as u8, 'l' as u8, 'l' as u8, ')' as u8]
}

/// The number of significant digits that `%g` or `%G` asks for: six, or the
/// precision, but at least one. `%G` reads the low half of the precision as a
/// signed number; for `%g` one that does not fit is not supported.
pub open spec fn significant(d: Directive) -> Option<int> {
    match d.precision {
        None => Some(6),
        Some(p) => if p == 0 {
            Some(1)
        } else if d.specifier == 'G' as u8 {
            Some(abi::signed((p % 0x1_0000_0000) as int, 0x1_0000_0000))
        } else if p <= i32::MAX {
            Some(p as int)
        } else {
            None
        },
    }
}

/// `%g` and `%G` choose between the two notations by the decimal exponent `x`
/// of the number.
pub open spec fn general(d: Directive, bits: u64, x: int) -> Flow {
    match significant(d) {
        None => Flow::Unsupported,
        Some(p) => if p > x && x >= -4 {
            if p - x > i32::MAX {
                Flow::Unsupported
            } else {
                Flow::Waiting {
                    directive: d,
                    request: Request::Fixed { bits, precision: (p - x - 1) as u64 },
                }
            }
        } else if p < 1 {
            Flow::Unsupported
        } else {
            Flow::Waiting {
                directive: d,
                request: Request::Scientific { bits, precision: (p - 1) as u64 },
            }
        },
    }
}

/// What a float conversion asks of the host first.
pub open spec fn float_flow(d: Directive, bits: u64) -> Flow {
    let precision = match d.precision {
        Some(p) => p,
        None => 6,
    };
    let s = d.specifier;
    if s == 'f' as u8 || s == 'F' as u8 {
        Flow::Waiting { directive: d, request: Request::Fixed { bits, precision } }
    } else if s == 'e' as u8 || s == 'E' as u8 {
        Flow::Waiting { directive: d, request: Request::Scientific { bits, precision } }
    } else if s == 'a' as u8 || s == 'A' as u8 {
        Flow::Waiting { directive: d, request: Request::LowerExp { bits } }
    } else if significant(d) is None {
        Flow::Unsupported
    } else if convert::is_zero(bits) {
        general(d, bits, 0)
    } else {
        Flow::Waiting { directive: d, request: Request::Exponent { bits } }
    }
}

/// The text of `%s` for the string at `ptr`; [None] where a width asks to
/// count the characters of something that is not valid UTF-8.
pub open spec fn string_text(d: Directive, m: MemState, ptr: u32) -> Option<Seq<u8>> {
    let s = m.cstr(ptr);
    if ptr == 0 {
        Some(null_text())
    } else if d.precision is Some {
        let p = d.precision.unwrap() % 0x1_0000_0000;
        Some(
            s.take(
                if s.len() < p {
                    s.len() as int
                } else {
                    p as int
                },
            ),
        )
    } else if d.width == 0 {
        Some(s)
    } else if valid_utf8(s) {
        Some(convert::pad_chars(s, decode_utf8(s).len() as int, d.width as int, d.left))
    } else {
        None
    }
}

/// The text of `%S` for the wide string at `ptr`; [None] if it holds something
/// that is no character.
pub open spec fn wide_string_text(m: MemState, ptr: u32) -> Option<Seq<u8>> {
    if ptr == 0 {
        Some(null_text())
    } else if text::all_chars(m.wcstr(ptr)) {
        Some(text::wide_text(m.wcstr(ptr)))
    } else {
        None
    }
}

/// Puts `text` out, if there is one.
pub open spec fn put_or_stop(p: Progress, text: Option<Seq<u8>>) -> (Progress, Flow) {
    match text {
        Some(text) => (p.put(text), Flow::Go),
        None => (p, Flow::Unsupported),
    }
}

/// Carries out the conversion `d` for the next argument. `locale` is the
/// address of the name of the `LC_CTYPE` locale.
pub open spec fn convert_step(ns_log: bool, locale: u32, d: Directive, p: Progress) -> (
    Progress,
    Flow,
) {
    let s = d.specifier;
    let word = p.mem.peek_u32(p.va);
    let int_next = p.take_int(d.length);
    let padded = d.zero || d.width != 0;
    if directive::is_float_specifier(s) {
        (p.take(8), float_flow(d, p.mem.peek_u64(p.va)))
    } else if s == 'c' as u8 {
        if d.length == Length::Long {
            (p.take(4).put(text::char_text(word)), Flow::Go)
        } else if padded {
            (p, Flow::Unsupported)
        } else {
            (p.take(4).put(seq![(word % 0x100) as u8]), Flow::Go)
        }
    } else if s == 'C' as u8 {
        if padded {
            (p, Flow::Unsupported)
        } else {
            (p.take(4).put(text::char_text((word % 0x1_0000) as u32)), Flow::Go)
        }
    } else if s == 's' as u8 {
        put_or_stop(p.take(4), string_text(d, p.mem, word))
    } else if s == 'S' as u8 {
        if padded || p.mem.peek(locale) != 'C' as u8 {
            (p, Flow::Unsupported)
        } else {
            put_or_stop(p.take(4), wide_string_text(p.mem, word))
        }
    } else if s == 'd' as u8 || s == 'i' as u8 {
        (int_next.put(convert::int_text(d, p.signed(d.length))), Flow::Go)
    } else if s == 'u' as u8 {
        (int_next.put(convert::uint_text(d, p.unsigned(d.length) as nat)), Flow::Go)
    } else if s == 'o' as u8 {
        (int_next.put(convert::octal_text(d, p.unsigned(d.length) as nat)), Flow::Go)
    } else if s == 'x' as u8 || s == 'X' as u8 {
        (
            int_next.put(convert::hex_text(d, p.unsigned(d.length) as nat, s == 'X' as u8)),
            Flow::Go,
        )
    } else if s == 'p' as u8 {
        if d.zero && d.width != 0 {
            (p, Flow::Unsupported)
        } else {
            (p.take(4).put(convert::pointer_text(d, word)), Flow::Go)
        }
    } else if s == 'n' as u8 {
        let q = p.take(4);
        if word != 0 {
            (
                Progress { mem: q.mem.poke_u32(word, abi::bits32(p.out.len() as int)), ..q },
                Flow::Go,
            )
        } else {
            (q, Flow::Go)
        }
    } else if s == 'D' as u8 {
        (p.take(4).put(convert::int_text(d, p.signed(Length::Plain))), Flow::Go)
    } else if s == 'U' as u8 {
        (p.take(4).put(convert::uint_text(d, word as nat)), Flow::Go)
    } else if s == 'O' as u8 {
        (p.take(4).put(convert::long_octal_text(d, word as nat)), Flow::Go)
    } else if s == '@' as u8 && ns_log {
        (
            p.take(4),
            Flow::Waiting { directive: d, request: Request::Description { object: word } },
        )
    } else {
        (p, Flow::Go)
    }
}

/// What the host's reply adds to the text.
pub open spec fn answer(d: Directive, request: Request, reply: ReplyView, p: Progress) -> (
    Progress,
    Flow,
) {
    match (request, reply) {
        (Request::Fixed { bits, .. }, ReplyView::Text { text }) => (
            p.put(convert::fixed_text(d, bits, text)),
            Flow::Go,
        ),
        (Request::Scientific { bits, .. }, ReplyView::Text { text }) => (
            p.put(convert::scientific_text(d, bits, text)),
            Flow::Go,
        ),
        (Request::LowerExp { bits }, ReplyView::Text { text }) => (
            p.put(convert::exponent_text(d, bits, text)),
            Flow::Go,
        ),
        (Request::Exponent { bits }, ReplyView::Exponent { exponent }) => (
            p,
            general(d, bits, exponent as int),
        ),
        (Request::Description { .. }, ReplyView::Text { text }) => (p.put(text), Flow::Go),
        (Request::Description { .. }, ReplyView::Nil) => (p.put(null_text()), Flow::Go),
        _ => (p, Flow::Unsupported),
    }
}

/// Handles the next character of the format string, or the conversion that
/// starts with it. An unknown specifier has what stands before it skipped.
pub open spec fn step(ns_log: bool, locale: u32, f: FormatView, p: Progress) -> (Progress, Flow) {
    let c = f.at(p.mem, p.idx);
    if c == 0 {
        (p, Flow::Done)
    } else if c != '%' as u8 {
        (Progress { idx: p.idx + 1, ..p }.put(seq![c]), Flow::Go)
    } else {
        match directive::parse(f, p.mem, p.idx + 1, p.va) {
            None => (p, Flow::Unsupported),
            Some(parsed) => {
                let d = parsed.directive;
                let q = Progress { idx: parsed.idx + 1, va: parsed.va, ..p };
                if !directive::is_specifier(d.specifier) {
                    (Progress { idx: parsed.idx, ..q }, Flow::Go)
                } else if d.specifier == '%' as u8 {
                    (q.put(seq!['%' as u8]), Flow::Go)
                } else if d.precision is Some && !directive::is_integer_specifier(d.specifier)
                    && !directive::is_float_specifier(d.specifier) && d.specifier != 's' as u8 {
                    (q, Flow::Unsupported)
                } else {
                    convert_step(ns_log, locale, d, q)
                }
            },
        }
    }
}

/// Formatting goes forward in the format string.
pub proof fn lemma_step_advances(ns_log: bool, locale: u32, f: FormatView, p: Progress)
    requires
        f.covers(p.idx),
    ensures
        step(ns_log, locale, f, p).1 is Done || step(ns_log, locale, f, p).1 is Unsupported || (
        p.idx < step(ns_log, locale, f, p).0.idx && f.covers(step(ns_log, locale, f, p).0.idx)),
{
    directive::lemma_more(f, p.mem, p.idx);
    if f.at(p.mem, p.idx) == '%' as u8 {
        directive::lemma_parse_advances(f, p.mem, p.idx + 1, p.va);
    }
}

/// Formats until the format string ends or the host has to step in.
pub open spec fn run(ns_log: bool, locale: u32, f: FormatView, p: Progress) -> (Progress, Flow)
    decreases f.limit() - p.idx,
    when f.covers(p.idx)
{
    let next = step(ns_log, locale, f, p);
    if next.1 is Go {
        proof {
            lemma_step_advances(ns_log, locale, f, p);
        }
        run(ns_log, locale, f, next.0)
    } else {
        next
    }
}

/// Formatting that has begun: where it stands in the format string and the
/// arguments, what it has put out, and how it goes on.
pub struct Printf {
    pub format: Format,
    pub ns_log: bool,
    pub idx: u32,
    pub args: VaList,
    pub out: Vec<u8>,
    pub flow: Flow,
}

/// The model of a [Printf].
#[verifier::ext_equal]
pub struct PrintfView {
    pub format: FormatView,
    pub ns_log: bool,
    pub idx: int,
    pub va: u32,
    pub out: Seq<u8>,
    pub flow: Flow,
}

impl View for Printf {
    type V = PrintfView;

    open spec fn view(&self) -> PrintfView {
        PrintfView {
            format: self.format@,
            ns_log: self.ns_log,
            idx: self.idx as int,
            va: self.args.pos,
            out: self.out@,
            flow: self.flow,
        }
    }
}

impl PrintfView {
    pub open spec fn wf(self) -> bool {
        self.format.covers(self.idx) && self.format.limit() <= u32::MAX
    }

    /// The state of formatting, with the memory `m`.
    pub open spec fn progress(self, m: MemState) -> Progress {
        Progress { mem: m, idx: self.idx, va: self.va, out: self.out }
    }

    /// This with another state of formatting.
    pub open spec fn with(self, next: (Progress, Flow)) -> PrintfView {
        PrintfView {
            idx: next.0.idx,
            va: next.0.va,
            out: next.0.out,
            flow: next.1,
            ..self
        }
    }
}

/// Formatting from the start of `format`, with the arguments from `va` on.
pub open spec fn start(ns_log: bool, locale: u32, format: FormatView, va: u32, m: MemState) -> (
    Progress,
    Flow,
) {
    run(ns_log, locale, format, Progress { mem: m, idx: 0, va, out: seq![] })
}

/// Formatting after the host has answered the request that `p` waits for.
pub open spec fn resume(locale: u32, p: PrintfView, reply: ReplyView, m: MemState) -> (
    Progress,
    Flow,
) {
    let next = answer(p.flow->directive, p.flow->request, reply, p.progress(m));
    if next.1 is Go {
        run(p.ns_log, locale, p.format, next.0)
    } else {
        next
    }
}

impl Printf {
    /// Appends `text` to what was put out.
    fn put(&mut self, text: &Vec<u8>)
        ensures
            final(self)@ == (PrintfView { out: old(self)@.out + text@, ..old(self)@ }),
    {
        self.out.extend_from_slice(text.as_slice());
        proof {
            assert(self.out@ =~= old(self).out@ + text@);
        }
    }

    /// Appends `(null)`.
    fn put_null(&mut self)
        ensures
            final(self)@ == (PrintfView { out: old(self)@.out + null_text(), ..old(self)@ }),
    {
        self.out.push('(' as u8);
        self.out.push('n' as u8);
        self.out.push('u' as u8);
        self.out.push('l' as u8);
        self.out.push('l' as u8);
        self.out.push(')' as u8);
        proof {
            assert(self.out@ =~= old(self).out@ + null_text());
        }
    }

    /// Takes an unsigned integer argument.
    fn next_unsigned(&mut self, mem: &Mem, length: Length) -> (n: u64)
        ensures
            n == old(self)@.progress(mem@).unsigned(length),
            final(self)@ == (PrintfView {
                va: old(self)@.progress(mem@).take_int(length).va,
                ..old(self)@
            }),
    {
        match length {
            Length::LongLong => self.args.next_u64(mem),
            Length::HalfHalf => (self.args.next_u32(mem) % 0x100) as u64,
            Length::Half => (self.args.next_u32(mem) % 0x1_0000) as u64,
            _ => self.args.next_u32(mem) as u64,
        }
    }

    /// Takes a signed integer argument.
    fn next_signed(&mut self, mem: &Mem, length: Length) -> (i: i64)
        ensures
            i == old(self)@.progress(mem@).signed(length),
            final(self)@ == (PrintfView {
                va: old(self)@.progress(mem@).take_int(length).va,
                ..old(self)@
            }),
    {
        let n: u64 = self.next_unsigned(mem, length);
        match length {
            Length::LongLong => abi::to_i64(n),
            Length::HalfHalf => if n < 0x80 {
                n as i64
            } else {
                n as i64 - 0x100
            },
            Length::Half => if n < 0x8000 {
                n as i64
            } else {
                n as i64 - 0x1_0000
            },
            _ => abi::to_i32(n as u32) as i64,
        }
    }

    /// Carries out a string conversion.
    fn convert_string(&mut self, mem: &Mem, d: Directive) -> (flow: Flow)
        ensures
            ({
                let p = old(self)@.progress(mem@);
                let next = put_or_stop(
                    p.take(4),
                    string_text(d, mem@, mem@.peek_u32(p.va)),
                );
                &&& flow == next.1
                &&& final(self)@ == old(self)@.with((next.0, old(self).flow))
            }),
    {
        let ptr: u32 = self.args.next_u32(mem);
        if ptr == 0 {
            self.put_null();
            return Flow::Go;
        }
        let s: Vec<u8> = mem.cstr_at(ptr);
        match d.precision {
            Some(p) => {
                let p: u64 = p % 0x1_0000_0000;
                let n: usize = if (s.len() as u64) < p {
                    s.len()
                } else {
                    p as usize
                };
                let ghost before = self.out@;
                self.out.extend_from_slice(vstd::slice::slice_subrange(s.as_slice(), 0, n));
                proof {
                    assert(self.out@ =~= before + s@.take(n as int));
                }
                Flow::Go
            },
            None => if d.width == 0 {
                self.put(&s);
                Flow::Go
            } else {
                match text::char_count(&s) {
                    Some(count) => {
                        self.put(&convert::pad_to_chars(&s, count, d.width, d.left));
                        Flow::Go
                    },
                    None => Flow::Unsupported,
                }
            },
        }
    }

    /// Carries out a wide string conversion.
    fn convert_wide_string(&mut self, mem: &Mem) -> (flow: Flow)
        ensures
            ({
                let p = old(self)@.progress(mem@);
                let next = put_or_stop(
                    p.take(4),
                    wide_string_text(mem@, mem@.peek_u32(p.va)),
                );
                &&& flow == next.1
                &&& final(self)@ == old(self)@.with((next.0, old(self).flow))
            }),
    {
        let ptr: u32 = self.args.next_u32(mem);
        if ptr == 0 {
            self.put_null();
            return Flow::Go;
        }
        match text::wide_to_text(&mem.wcstr_at(ptr)) {
            Some(s) => {
                self.put(&s);
                Flow::Go
            },
            None => Flow::Unsupported,
        }
    }

    /// Carries out the conversion `d`.
    fn convert(&mut self, mem: &mut Mem, locale: u32, d: Directive) -> (flow: Flow)
        ensures
            ({
                let next = convert_step(
                    old(self)@.ns_log,
                    locale,
                    d,
                    old(self)@.progress(old(mem)@),
                );
                &&& flow == next.1
                &&& final(mem)@ == next.0.mem
                &&& final(self)@ == old(self)@.with((next.0, old(self).flow))
            }),
    {
        let s: u8 = d.specifier;
        let padded: bool = d.zero || d.width != 0;
        if directive::float_specifier(s) {
            let bits: u64 = self.args.next_u64(mem);
            float_request(d, bits)
        } else if s == 'c' as u8 {
            if d.length == Length::Long {
                let c: u32 = self.args.next_u32(mem);
                text::push_char(&mut self.out, c);
                Flow::Go
            } else if padded {
                Flow::Unsupported
            } else {
                let c: u32 = self.args.next_u32(mem);
                self.out.push((c % 0x100) as u8);
                proof {
                    assert(self.out@ =~= old(self).out@ + seq![(c % 0x100) as u8]);
                }
                Flow::Go
            }
        } else if s == 'C' as u8 {
            if padded {
                Flow::Unsupported
            } else {
                let c: u32 = self.args.next_u32(mem);
                text::push_char(&mut self.out, c % 0x1_0000);
                Flow::Go
            }
        } else if s == 's' as u8 {
            self.convert_string(mem, d)
        } else if s == 'S' as u8 {
            if padded || mem.read_u8(locale) != 'C' as u8 {
                Flow::Unsupported
            } else {
                self.convert_wide_string(mem)
            }
        } else if s == 'd' as u8 || s == 'i' as u8 {
            let i: i64 = self.next_signed(mem, d.length);
            self.put(&convert::apply_int_pad(d, i));
            Flow::Go
        } else if s == 'u' as u8 {
            let n: u64 = self.next_unsigned(mem, d.length);
            self.put(&convert::apply_uint_pad(d, n));
            Flow::Go
        } else if s == 'o' as u8 {
            let n: u64 = self.next_unsigned(mem, d.length);
            self.put(&convert::octal(d, n));
            Flow::Go
        } else if s == 'x' as u8 || s == 'X' as u8 {
            let n: u64 = self.next_unsigned(mem, d.length);
            self.put(&convert::hex(d, n, s == 'X' as u8));
            Flow::Go
        } else if s == 'p' as u8 {
            if d.zero && d.width != 0 {
                Flow::Unsupported
            } else {
                let ptr: u32 = self.args.next_u32(mem);
                self.put(&convert::pointer(d, ptr));
                Flow::Go
            }
        } else if s == 'n' as u8 {
            let ptr: u32 = self.args.next_u32(mem);
            if ptr != 0 {
                mem.write_u32(ptr, (self.out.len() as u64 % 0x1_0000_0000) as u32);
            }
            Flow::Go
        } else if s == 'D' as u8 {
            let i: i64 = self.next_signed(mem, Length::Plain);
            self.put(&convert::apply_int_pad(d, i));
            Flow::Go
        } else if s == 'U' as u8 {
            let n: u32 = self.args.next_u32(mem);
            self.put(&convert::apply_uint_pad(d, n as u64));
            Flow::Go
        } else if s == 'O' as u8 {
            let n: u32 = self.args.next_u32(mem);
            self.put(&convert::long_octal(d, n));
            Flow::Go
        } else if s == '@' as u8 && self.ns_log {
            let object: u32 = self.args.next_u32(mem);
            Flow::Waiting { directive: d, request: Request::Description { object } }
        } else {
            Flow::Go
        }
    }
}

impl Printf {
    /// Handles the next character or conversion.
    fn step(&mut self, mem: &mut Mem, locale: u32) -> (flow: Flow)
        requires
            old(self)@.wf(),
        ensures
            ({
                let next = step(
                    old(self)@.ns_log,
                    locale,
                    old(self)@.format,
                    old(self)@.progress(old(mem)@),
                );
                &&& flow == next.1
                &&& final(mem)@ == next.0.mem
                &&& flow is Unsupported || final(self)@ == old(self)@.with(
                    (next.0, old(self).flow),
                )
                &&& flow is Unsupported || final(self)@.wf()
                &&& flow is Go ==> final(self).idx > old(self).idx
                &&& final(self)@.format == old(self)@.format
                &&& final(self)@.ns_log == old(self)@.ns_log
            }),
    {
        proof {
            lemma_step_advances(self@.ns_log, locale, self@.format, self@.progress(mem@));
            directive::lemma_more(self@.format, mem@, self@.idx);
        }
        let c: u8 = self.format.at(mem, self.idx);
        if c == 0 {
            return Flow::Done;
        }
        if c != '%' as u8 {
            self.idx = self.idx + 1;
            self.out.push(c);
            proof {
                assert(self.out@ =~= old(self).out@ + seq![c]);
            }
            return Flow::Go;
        }
        proof {
            directive::lemma_parse_advances(self@.format, mem@, self@.idx + 1, self@.va);
        }
        match directive::parse_directive(&self.format, mem, self.idx + 1, &mut self.args) {
            None => Flow::Unsupported,
            Some((d, idx)) => {
                if !directive::known_specifier(d.specifier) {
                    self.idx = idx;
                    return Flow::Go;
                }
                self.idx = idx + 1;
                if d.specifier == '%' as u8 {
                    self.out.push('%' as u8);
                    proof {
                        assert(self.out@ =~= old(self).out@ + seq!['%' as u8]);
                    }
                    return Flow::Go;
                }
                if d.precision.is_some() && !directive::integer_specifier(d.specifier)
                    && !directive::float_specifier(d.specifier) && d.specifier != 's' as u8 {
                    return Flow::Unsupported;
                }
                self.convert(mem, locale, d)
            },
        }
    }

    /// Formats until the format string ends or the host has to step in.
    fn run(&mut self, mem: &mut Mem, locale: u32)
        requires
            old(self)@.wf(),
        ensures
            ({
                let next = run(
                    old(self)@.ns_log,
                    locale,
                    old(self)@.format,
                    old(self)@.progress(old(mem)@),
                );
                &&& final(self)@.flow == next.1
                &&& !(next.1 is Go)
                &&& final(mem)@ == next.0.mem
                &&& next.1 is Unsupported || final(self)@ == old(self)@.with(next)
                &&& next.1 is Unsupported || final(self)@.wf()
                &&& final(self)@.format == old(self)@.format
                &&& final(self)@.ns_log == old(self)@.ns_log
            }),
    {
        let ghost f = self@.format;
        let ghost ns_log = self@.ns_log;
        let ghost whole = run(ns_log, locale, f, self@.progress(mem@));
        let ghost before = self@;
        let mut flow: Flow = Flow::Go;
        while flow == Flow::Go
            invariant
                flow is Unsupported || self@.wf(),
                self@.format == f,
                self@.ns_log == ns_log,
                flow is Unsupported || self@ == before.with((self@.progress(mem@), before.flow)),
                flow is Go ==> whole == run(ns_log, locale, f, self@.progress(mem@)),
                !(flow is Go) ==> whole.1 == flow && whole.0.mem == mem@,
                !(flow is Go) && !(flow is Unsupported) ==> whole == (self@.progress(mem@), flow),
            decreases
                (if flow is Go {
                    f.limit() - self.idx + 1
                } else {
                    0
                }),
        {
            flow = self.step(mem, locale);
        }
        self.flow = flow;
    }
}

/// How many significant digits `%g` or `%G` asks for.
fn significant_digits(d: Directive) -> (r: Option<i32>)
    ensures
        r.is_some() == significant(d).is_some(),
        r.is_some() ==> r.unwrap() == significant(d).unwrap(),
{
    match d.precision {
        None => Some(6),
        Some(p) => if p == 0 {
            Some(1)
        } else if d.specifier == 'G' as u8 {
            Some(abi::to_i32((p % 0x1_0000_0000) as u32))
        } else if p <= 0x7FFF_FFFF {
            Some(p as i32)
        } else {
            None
        },
    }
}

/// Chooses the notation of `%g` and `%G`.
fn general_request(d: Directive, bits: u64, x: i32) -> (flow: Flow)
    ensures
        flow == general(d, bits, x as int),
{
    match significant_digits(d) {
        None => Flow::Unsupported,
        Some(p) => if p > x && x >= -4 {
            let n: i64 = p as i64 - x as i64;
            if n > 0x7FFF_FFFF {
                Flow::Unsupported
            } else {
                Flow::Waiting {
                    directive: d,
                    request: Request::Fixed { bits, precision: (n - 1) as u64 },
                }
            }
        } else if p < 1 {
            Flow::Unsupported
        } else {
            Flow::Waiting {
                directive: d,
                request: Request::Scientific { bits, precision: (p - 1) as u64 },
            }
        },
    }
}

/// What a float conversion asks of the host first.
fn float_request(d: Directive, bits: u64) -> (flow: Flow)
    requires
        directive::is_float_specifier(d.specifier),
    ensures
        flow == float_flow(d, bits),
{
    let precision: u64 = match d.precision {
        Some(p) => p,
        None => 6,
    };
    let s: u8 = d.specifier;
    if s == 'f' as u8 || s == 'F' as u8 {
        Flow::Waiting { directive: d, request: Request::Fixed { bits, precision } }
    } else if s == 'e' as u8 || s == 'E' as u8 {
        Flow::Waiting { directive: d, request: Request::Scientific { bits, precision } }
    } else if s == 'a' as u8 || s == 'A' as u8 {
        Flow::Waiting { directive: d, request: Request::LowerExp { bits } }
    } else if significant_digits(d).is_none() {
        Flow::Unsupported
    } else if bits == 0 || bits == 0x8000_0000_0000_0000 {
        general_request(d, bits, 0)
    } else {
        Flow::Waiting { directive: d, request: Request::Exponent { bits } }
    }
}

/// Where formatted text goes.
#[derive(Clone, Copy, PartialEq, Eq, Structural, Debug)]
pub enum Sink {
    /// A buffer that is as large as it needs to be.
    Buffer { dest: u32 },
    /// A buffer of `n` bytes.
    Bounded { dest: u32, n: u32 },
    /// A buffer of `n` 32-bit characters.
    Wide { ws: u32, n: u32 },
    /// A new block of memory, whose address is stored at `ret`.
    Allocated { ret: u32 },
    /// The guest's `stdout`.
    Stdout,
    /// The `FILE` at this address.
    File { stream: u32 },
    /// The emulator's log.
    Log,
}

/// What has come of a call of the `printf` family.
pub enum Outcome {
    /// It has returned this value.
    Returned { value: i32 },
    /// The host has to answer a request first.
    Waiting { job: PrintJob },
    /// It returns this value, and the host has these bytes to write to a file.
    Write { stream: u32, bytes: Vec<u8>, value: i32 },
    /// It returns zero, and the host has this message to log.
    Log { message: String },
    /// It asks for something that is not supported.
    Unsupported,
}

/// The model of an [Outcome].
pub enum OutcomeView {
    Returned { value: i32 },
    Waiting { printf: PrintfView, sink: Sink },
    Write { stream: u32, bytes: Seq<u8>, value: i32 },
    Log { message: Seq<char> },
    Unsupported,
}

impl View for Outcome {
    type V = OutcomeView;

    open spec fn view(&self) -> OutcomeView {
        match *self {
            Outcome::Returned { value } => OutcomeView::Returned { value },
            Outcome::Waiting { job } => OutcomeView::Waiting {
                printf: job.printf@,
                sink: job.sink,
            },
            Outcome::Write { stream, bytes, value } => OutcomeView::Write {
                stream,
                bytes: bytes@,
                value,
            },
            Outcome::Log { message } => OutcomeView::Log { message: message@ },
            Outcome::Unsupported => OutcomeView::Unsupported,
        }
    }
}

/// A call of the `printf` family that waits for the host.
pub struct PrintJob {
    pub printf: Printf,
    pub sink: Sink,
}

/// A call returns the number of bytes that were formatted, if that fits.
pub open spec fn returned(env: EnvState, old_env: EnvState, len: int) -> (EnvState, OutcomeView) {
    if len <= i32::MAX {
        (env, OutcomeView::Returned { value: len as i32 })
    } else {
        (old_env, OutcomeView::Unsupported)
    }
}

/// What a buffer of `n` bytes has room for, beside the terminator.
pub open spec fn truncated(out: Seq<u8>, n: int) -> Seq<u8> {
    if out.len() < n {
        out
    } else {
        out.take(n - 1)
    }
}

/// The characters of `out` as 32-bit characters.
pub open spec fn widened(out: Seq<u8>) -> Seq<u32> {
    out.map_values(|c: u8| c as u32)
}

/// The log message for the formatted text `out`, which need not be UTF-8.
pub open spec fn log_message(out: Seq<u8>) -> Seq<char> {
    "NSLog: "@ + guest_console::lossy_text(out)
}

/// Hands the formatted text `out` over to `sink`.
pub open spec fn finish(env: EnvState, sink: Sink, out: Seq<u8>) -> (EnvState, OutcomeView) {
    let m = env.mem;
    let len = out.len() as int;
    match sink {
        Sink::Buffer { dest } => returned(
            EnvState { mem: m.poke_cstr(dest, out), ..env },
            env,
            len,
        ),
        Sink::Bounded { dest, n } => if n == 0 {
            returned(env, env, len)
        } else {
            returned(EnvState { mem: m.poke_cstr(dest, truncated(out, n as int)), ..env }, env, len)
        },
        Sink::Wide { ws, n } => {
            let count = if n < len % 0x1_0000_0000 {
                n as int
            } else {
                len % 0x1_0000_0000
            };
            let filled = m.poke_words(ws, widened(out.take(count)));
            if count >= n {
                (EnvState { mem: filled, ..env }, OutcomeView::Returned { value: -1i32 })
            } else {
                (
                    EnvState { mem: filled.poke_u32(mem::wrap(ws + 4 * count), 0), ..env },
                    OutcomeView::Returned { value: abi::signed(count, 0x1_0000_0000) as i32 },
                )
            }
        },
        Sink::Allocated { ret } => if len <= i32::MAX && mem::block_size((len + 1) as u32)
            <= m.room() {
            returned(
                EnvState {
                    mem: m.grow((len + 1) as u32).poke_cstr(m.heap, out).poke_u32(ret, m.heap),
                    ..env
                },
                env,
                len,
            )
        } else {
            (env, OutcomeView::Unsupported)
        },
        Sink::Stdout => returned(
            EnvState { console: env.console.written(Stream::Stdout, out), ..env },
            env,
            len,
        ),
        Sink::File { stream } => {
            let value = if len <= i32::MAX {
                len as i32
            } else {
                i32::MAX
            };
            let fd = m.peek_u32(stream);
            if fd == STDIN_FILENO {
                (env, OutcomeView::Returned { value })
            } else if fd == STDOUT_FILENO {
                (
                    EnvState { console: env.console.written(Stream::Stdout, out), ..env },
                    OutcomeView::Returned { value },
                )
            } else if fd == STDERR_FILENO {
                (
                    EnvState { console: env.console.written(Stream::Stderr, out), ..env },
                    OutcomeView::Returned { value },
                )
            } else {
                (env, OutcomeView::Write { stream, bytes: out, value })
            }
        },
        Sink::Log => (env, OutcomeView::Log { message: log_message(out) }),
    }
}

/// What comes of a call once formatting has got as far as `next`.
pub open spec fn settle(env: EnvState, sink: Sink, p: PrintfView, next: (Progress, Flow)) -> (
    EnvState,
    OutcomeView,
) {
    let env = EnvState { mem: next.0.mem, ..env };
    match next.1 {
        Flow::Done => finish(env, sink, next.0.out),
        Flow::Waiting { .. } => (env, OutcomeView::Waiting { printf: p.with(next), sink }),
        _ => (env, OutcomeView::Unsupported),
    }
}

/// What comes of formatting `format` from its start.
pub open spec fn begin(env: EnvState, sink: Sink, ns_log: bool, format: FormatView, va: u32) -> (
    EnvState,
    OutcomeView,
) {
    let p = PrintfView { format, ns_log, idx: 0, va, out: seq![], flow: Flow::Go };
    settle(env, sink, p, start(ns_log, env.ctype_locale, format, va, env.mem))
}

/// What comes of formatting the wide string at `format`, of which only the
/// `C` locale is supported.
pub open spec fn begin_wide(env: EnvState, sink: Sink, format: u32, va: u32) -> (
    EnvState,
    OutcomeView,
) {
    let w = env.mem.wcstr(format);
    if env.mem.peek(env.ctype_locale) != 'C' as u8 || !text::all_chars(w) {
        (env, OutcomeView::Unsupported)
    } else {
        begin(env, sink, false, FormatView::Bytes { bytes: text::wide_text(w) }, va)
    }
}

impl OutcomeView {
    /// Whether what it waits for, if it does, can go on.
    pub open spec fn wf(self) -> bool {
        self matches OutcomeView::Waiting { printf, .. } ==> printf.wf() && printf.flow is Waiting
    }
}

/// String formatting implementation for `printf` and `NSLog` function families.
///
/// `NS_LOG` is [true] for the `NSLog` format string type, or [false] for the
/// `printf` format string type.
pub fn printf_inner<const NS_LOG: bool>(env: &mut Environment, format: Format, args: VaList) -> (r:
    Printf)
    requires
        format@.limit() <= u32::MAX,
    ensures
        ({
            let next = start(NS_LOG, old(env)@.ctype_locale, format@, args.pos, old(env)@.mem);
            &&& r.flow == next.1
            &&& !(r.flow is Go)
            &&& r.flow is Unsupported || r@ == (PrintfView {
                format: format@,
                ns_log: NS_LOG,
                idx: next.0.idx,
                va: next.0.va,
                out: next.0.out,
                flow: next.1,
            })
            &&& r.flow is Unsupported || r@.wf()
            &&& final(env)@ == (EnvState { mem: next.0.mem, ..old(env)@ })
        }),
{
    let mut r: Printf = Printf {
        format,
        ns_log: NS_LOG,
        idx: 0,
        args,
        out: Vec::new(),
        flow: Flow::Go,
    };
    r.run(&mut env.mem, env.libc_state.ctype_locale);
    r
}

impl Printf {
    /// Goes on after the host has answered the request.
    pub fn resume(&mut self, env: &mut Environment, reply: Reply)
        requires
            old(self)@.wf(),
            old(self).flow is Waiting,
            old(self).flow->request.takes(reply@),
        ensures
            ({
                let next = resume(old(env)@.ctype_locale, old(self)@, reply@, old(env)@.mem);
                &&& final(self).flow == next.1
                &&& !(next.1 is Go)
                &&& next.1 is Unsupported || final(self)@ == old(self)@.with(next)
                &&& next.1 is Unsupported || final(self)@.wf()
                &&& final(env)@ == (EnvState { mem: next.0.mem, ..old(env)@ })
            }),
    {
        if let Flow::Waiting { directive, request } = self.flow {
            let flow: Flow = match (request, reply) {
                (Request::Fixed { bits, .. }, Reply::Text { text }) => {
                    self.put(&convert::fixed(directive, bits, &text));
                    Flow::Go
                },
                (Request::Scientific { bits, .. }, Reply::Text { text }) => {
                    self.put(&convert::scientific(directive, bits, &text));
                    Flow::Go
                },
                (Request::LowerExp { bits }, Reply::Text { text }) => {
                    self.put(&convert::exponent(directive, bits, &text));
                    Flow::Go
                },
                (Request::Exponent { bits }, Reply::Exponent { exponent }) => general_request(
                    directive,
                    bits,
                    exponent,
                ),
                (Request::Description { .. }, Reply::Text { text }) => {
                    self.put(&text);
                    Flow::Go
                },
                (Request::Description { .. }, Reply::Nil) => {
                    self.put_null();
                    Flow::Go
                },
                _ => Flow::Unsupported,
            };
            self.flow = flow;
            if flow == Flow::Go {
                self.run(&mut env.mem, env.libc_state.ctype_locale);
            }
        }
    }
}

/// The value that a call returns for text of this length, if it fits.
fn length_value(len: usize) -> (value: Option<i32>)
    ensures
        value == (if len <= i32::MAX {
            Some(len as i32)
        } else {
            None
        }),
{
    if len <= 0x7FFF_FFFF {
        Some(len as i32)
    } else {
        None
    }
}

/// Hands formatted text over to a buffer of 32-bit characters.
fn finish_wide(env: &mut Environment, ws: u32, n: u32, out: &Vec<u8>) -> (value: i32)
    ensures
        finish(old(env)@, Sink::Wide { ws, n }, out@) == (
            final(env)@,
            OutcomeView::Returned { value },
        ),
{
    let len: u64 = out.len() as u64 % 0x1_0000_0000;
    let count: u32 = if (n as u64) < len {
        n
    } else {
        len as u32
    };
    let mut words: Vec<u32> = Vec::new();
    let mut i: usize = 0;
    let ghost want = widened(out@.take(count as int));
    while i < count as usize
        invariant
            i <= count <= out@.len(),
            want == widened(out@.take(count as int)),
            words@ == want.take(i as int),
        decreases count - i,
    {
        words.push(out[i] as u32);
        i += 1;
        proof {
            assert(words@ =~= want.take(i as int));
        }
    }
    proof {
        assert(words@ =~= want);
    }
    env.mem.write_words(ws, &words);
    if count >= n {
        return -1;
    }
    let end: u32 = mem::offset(ws, ((4 * (count as u64)) % 0x1_0000_0000) as u32);
    proof {
        mem::lemma_wrap(4 * count, ws as int);
    }
    env.mem.write_u32(end, 0);
    abi::to_i32(count)
}

/// Hands formatted text over to where it goes.
fn finish_call(env: &mut Environment, sink: Sink, out: Vec<u8>) -> (r: Outcome)
    requires
        old(env)@.wf(),
    ensures
        (final(env)@, r@) == finish(old(env)@, sink, out@),
        final(env)@.wf(),
{
    let value: Option<i32> = length_value(out.len());
    match sink {
        Sink::Buffer { dest } => match value {
            Some(value) => {
                env.mem.write_cstr(dest, &out);
                Outcome::Returned { value }
            },
            None => Outcome::Unsupported,
        },
        Sink::Bounded { dest, n } => match value {
            Some(value) => {
                if n > 0 {
                    let mut text: Vec<u8> = out;
                    if text.len() >= n as usize {
                        text.truncate((n - 1) as usize);
                    }
                    proof {
                        assert(text@ =~= truncated(out@, n as int));
                    }
                    env.mem.write_cstr(dest, &text);
                }
                Outcome::Returned { value }
            },
            None => Outcome::Unsupported,
        },
        Sink::Wide { ws, n } => {
            let value: i32 = finish_wide(env, ws, n, &out);
            Outcome::Returned { value }
        },
        Sink::Allocated { ret } => match value {
            Some(value) => {
                let size: u32 = value as u32 + 1;
                if !env.mem.has_room(size) {
                    return Outcome::Unsupported;
                }
                let dest: u32 = env.mem.allocate(size);
                env.mem.write_cstr(dest, &out);
                env.mem.write_u32(ret, dest);
                Outcome::Returned { value }
            },
            None => Outcome::Unsupported,
        },
        Sink::Stdout => match value {
            Some(value) => {
                guest_console::write(&mut env.console, Stream::Stdout, out.as_slice());
                Outcome::Returned { value }
            },
            None => Outcome::Unsupported,
        },
        Sink::File { stream } => {
            let value: i32 = match value {
                Some(value) => value,
                None => 0x7FFF_FFFF,
            };
            let fd: u32 = env.mem.read_u32(stream);
            if fd == STDIN_FILENO {
                Outcome::Returned { value }
            } else if fd == STDOUT_FILENO {
                guest_console::write(&mut env.console, Stream::Stdout, out.as_slice());
                Outcome::Returned { value }
            } else if fd == STDERR_FILENO {
                guest_console::write(&mut env.console, Stream::Stderr, out.as_slice());
                Outcome::Returned { value }
            } else {
                Outcome::Write { stream, bytes: out, value }
            }
        },
        Sink::Log => {
            let mut message: String = "NSLog: ".to_owned();
            let text: String = guest_console::from_utf8_lossy(out.as_slice());
            message.append(text.as_str());
            Outcome::Log { message }
        },
    }
}

/// What comes of a call whose formatting has got this far.
fn settle_call(env: &mut Environment, sink: Sink, printf: Printf) -> (r: Outcome)
    requires
        old(env)@.wf(),
        !(printf.flow is Go),
        printf.flow is Unsupported || printf@.wf(),
    ensures
        (final(env)@, r@) == (match printf.flow {
            Flow::Done => finish(old(env)@, sink, printf@.out),
            Flow::Waiting { .. } => (
                old(env)@,
                OutcomeView::Waiting { printf: printf@, sink },
            ),
            _ => (old(env)@, OutcomeView::Unsupported),
        }),
        final(env)@.wf(),
        r@.wf(),
{
    match printf.flow {
        Flow::Done => finish_call(env, sink, printf.out),
        Flow::Waiting { .. } => Outcome::Waiting { job: PrintJob { printf, sink } },
        _ => Outcome::Unsupported,
    }
}

/// Formats `format` from its start.
fn begin_call<const NS_LOG: bool>(env: &mut Environment, sink: Sink, format: Format, args: VaList)
    -> (r: Outcome)
    requires
        old(env)@.wf(),
        format@.limit() <= u32::MAX,
    ensures
        (final(env)@, r@) == begin(old(env)@, sink, NS_LOG, format@, args.pos),
        final(env)@.wf(),
        r@.wf(),
{
    let printf: Printf = printf_inner::<NS_LOG>(env, format, args);
    settle_call(env, sink, printf)
}

/// Formats the wide string at `format`.
fn begin_wide_call(env: &mut Environment, sink: Sink, format: u32, args: VaList) -> (r: Outcome)
    requires
        old(env)@.wf(),
    ensures
        (final(env)@, r@) == begin_wide(old(env)@, sink, format, args.pos),
        final(env)@.wf(),
        r@.wf(),
{
    if env.mem.read_u8(env.libc_state.ctype_locale) != 'C' as u8 {
        return Outcome::Unsupported;
    }
    match text::wide_to_text(&env.mem.wcstr_at(format)) {
        Some(bytes) => {
            proof {
                mem::lemma_wcstr_len(env@.mem, format);
                text::lemma_wide_text_len(env@.mem.wcstr(format));
            }
            begin_call::<false>(env, sink, Format::Bytes { bytes }, args)
        },
        None => Outcome::Unsupported,
    }
}

impl PrintJob {
    /// What the host has to answer.
    pub fn request(&self) -> (r: Option<Request>)
        ensures
            r == (match self.printf.flow {
                Flow::Waiting { request, .. } => Some(request),
                _ => None,
            }),
    {
        match self.printf.flow {
            Flow::Waiting { request, .. } => Some(request),
            _ => None,
        }
    }

    /// Goes on with the host's answer.
    pub fn resume(self, env: &mut Environment, reply: Reply) -> (r: Outcome)
        requires
            old(env)@.wf(),
            self.printf@.wf(),
            self.printf.flow is Waiting,
            self.printf.flow->request.takes(reply@),
        ensures
            (final(env)@, r@) == settle(
                old(env)@,
                self.sink,
                self.printf@,
                resume(old(env)@.ctype_locale, self.printf@, reply@, old(env)@.mem),
            ),
            final(env)@.wf(),
            r@.wf(),
    {
        let sink: Sink = self.sink;
        let mut printf: Printf = self.printf;
        printf.resume(env, reply);
        settle_call(env, sink, printf)
    }
}

/// Formats into a buffer of `n` bytes. What does not fit is cut off.
pub fn vsnprintf(env: &mut Environment, dest: u32, n: u32, format: u32, arg: VaList) -> (r: Outcome)
    requires
        old(env)@.wf(),
        old(env)@.errno_ready(),
    ensures
        (final(env)@, r@) == begin(
            old(env)@.errno_set(0),
            Sink::Bounded { dest, n },
            false,
            FormatView::Guest { ptr: format },
            arg.pos,
        ),
        final(env)@.wf(),
        r@.wf(),
{
    errno::set_errno(env, 0);
    begin_call::<false>(env, Sink::Bounded { dest, n }, Format::Guest { ptr: format }, arg)
}

/// As [vsnprintf].
pub fn snprintf(env: &mut Environment, dest: u32, n: u32, format: u32, args: DotDotDot) -> (r: Outcome)
    requires
        old(env)@.wf(),
        old(env)@.errno_ready(),
    ensures
        (final(env)@, r@) == begin(
            old(env)@.errno_set(0),
            Sink::Bounded { dest, n },
            false,
            FormatView::Guest { ptr: format },
            args.pos,
        ),
        final(env)@.wf(),
        r@.wf(),
{
    proof {
        errno::lemma_errno_set_again(env@, 0, 0);
    }
    errno::set_errno(env, 0);
    vsnprintf(env, dest, n, format, args.start())
}

/// Formats into a new block of memory and stores its address at `ret`.
pub fn vasprintf(env: &mut Environment, ret: u32, format: u32, arg: VaList) -> (r: Outcome)
    requires
        old(env)@.wf(),
    ensures
        (final(env)@, r@) == begin(
            old(env)@,
            Sink::Allocated { ret },
            false,
            FormatView::Guest { ptr: format },
            arg.pos,
        ),
        final(env)@.wf(),
        r@.wf(),
{
    begin_call::<false>(env, Sink::Allocated { ret }, Format::Guest { ptr: format }, arg)
}

/// Formats to `stdout`.
pub fn vprintf(env: &mut Environment, format: u32, arg: VaList) -> (r: Outcome)
    requires
        old(env)@.wf(),
        old(env)@.errno_ready(),
    ensures
        (final(env)@, r@) == begin(
            old(env)@.errno_set(0),
            Sink::Stdout,
            false,
            FormatView::Guest { ptr: format },
            arg.pos,
        ),
        final(env)@.wf(),
        r@.wf(),
{
    errno::set_errno(env, 0);
    begin_call::<false>(env, Sink::Stdout, Format::Guest { ptr: format }, arg)
}

/// The hardened form of [vsnprintf].
pub fn __vsnprintf_chk(env: &mut Environment, s: u32, maxlen: u32, _flag: i32, _os: u32, format: u32, ap: VaList) -> (r: Outcome)
    requires
        old(env)@.wf(),
        old(env)@.errno_ready(),
    ensures
        (final(env)@, r@) == begin(
            old(env)@.errno_set(0),
            Sink::Bounded { dest: s, n: maxlen },
            false,
            FormatView::Guest { ptr: format },
            ap.pos,
        ),
        final(env)@.wf(),
        r@.wf(),
{
    vsnprintf(env, s, maxlen, format, ap)
}

/// The hardened form of [snprintf], emitted by compilers for apps that are built
/// with hardening. `strlen` is the compiler-known size of the destination buffer,
/// or zero; a larger `maxlen` is clamped to it.
pub fn __snprintf_chk(env: &mut Environment, s: u32, maxlen: u32, _flag: i32, strlen: u32, format: u32, args: DotDotDot) -> (r: Outcome)
    requires
        old(env)@.wf(),
        old(env)@.errno_ready(),
    ensures
        (final(env)@, r@) == begin(
            old(env)@.errno_set(0),
            Sink::Bounded {
                dest: s,
                n: if strlen != 0 && maxlen > strlen {
                    strlen
                } else {
                    maxlen
                },
            },
            false,
            FormatView::Guest { ptr: format },
            args.pos,
        ),
        final(env)@.wf(),
        r@.wf(),
{
    let effective_maxlen: u32 = if strlen != 0 && maxlen > strlen {
        strlen
    } else {
        maxlen
    };
    proof {
        errno::lemma_errno_set_again(env@, 0, 0);
    }
    errno::set_errno(env, 0);
    vsnprintf(env, s, effective_maxlen, format, args.start())
}

/// The hardened form of [vsprintf].
pub fn __vsprintf_chk(env: &mut Environment, s: u32, maxlen: u32, _flag: i32, _os: u32, format: u32, ap: VaList) -> (r: Outcome)
    requires
        old(env)@.wf(),
        old(env)@.errno_ready(),
    ensures
        (final(env)@, r@) == begin(
            old(env)@.errno_set(0),
            Sink::Bounded { dest: s, n: maxlen },
            false,
            FormatView::Guest { ptr: format },
            ap.pos,
        ),
        final(env)@.wf(),
        r@.wf(),
{
    vsnprintf(env, s, maxlen, format, ap)
}

/// Formats into a buffer.
pub fn vsprintf(env: &mut Environment, dest: u32, format: u32, arg: VaList) -> (r: Outcome)
    requires
        old(env)@.wf(),
        old(env)@.errno_ready(),
    ensures
        (final(env)@, r@) == begin(
            old(env)@.errno_set(0),
            Sink::Buffer { dest },
            false,
            FormatView::Guest { ptr: format },
            arg.pos,
        ),
        final(env)@.wf(),
        r@.wf(),
{
    errno::set_errno(env, 0);
    begin_call::<false>(env, Sink::Buffer { dest }, Format::Guest { ptr: format }, arg)
}

/// Formats into a buffer.
pub fn sprintf(env: &mut Environment, dest: u32, format: u32, args: DotDotDot) -> (r: Outcome)
    requires
        old(env)@.wf(),
        old(env)@.errno_ready(),
    ensures
        (final(env)@, r@) == begin(
            old(env)@.errno_set(0),
            Sink::Buffer { dest },
            false,
            FormatView::Guest { ptr: format },
            args.pos,
        ),
        final(env)@.wf(),
        r@.wf(),
{
    errno::set_errno(env, 0);
    begin_call::<false>(env, Sink::Buffer { dest }, Format::Guest { ptr: format }, args.start())
}

/// The hardened form of [sprintf]. It does nothing for a destination of zero
/// bytes, where there is no room even for the terminating NUL.
pub fn __sprintf_chk(env: &mut Environment, dest: u32, _flags: i32, strlen: u32, format: u32, args: DotDotDot) -> (r: Outcome)
    requires
        old(env)@.wf(),
        old(env)@.errno_ready(),
    ensures
        (final(env)@, r@) == (if strlen == 0 {
            (old(env)@, OutcomeView::Returned { value: 0 })
        } else {
            begin(
                old(env)@.errno_set(0),
                Sink::Buffer { dest },
                false,
                FormatView::Guest { ptr: format },
                args.pos,
            )
        }),
        final(env)@.wf(),
        r@.wf(),
{
    if strlen == 0 {
        return Outcome::Returned { value: 0 };
    }
    sprintf(env, dest, format, args)
}

// Locale-aware variants from `xlocale.h`. There is a single locale, so the
// `locale_t` argument makes no difference.

/// As [sprintf].
pub fn sprintf_l(env: &mut Environment, dest: u32, _loc: u32, format: u32, args: DotDotDot) -> (r: Outcome)
    requires
        old(env)@.wf(),
        old(env)@.errno_ready(),
    ensures
        (final(env)@, r@) == begin(
            old(env)@.errno_set(0),
            Sink::Buffer { dest },
            false,
            FormatView::Guest { ptr: format },
            args.pos,
        ),
        final(env)@.wf(),
        r@.wf(),
{
    sprintf(env, dest, format, args)
}

/// As [snprintf].
pub fn snprintf_l(env: &mut Environment, dest: u32, n: u32, _loc: u32, format: u32, args: DotDotDot) -> (r: Outcome)
    requires
        old(env)@.wf(),
        old(env)@.errno_ready(),
    ensures
        (final(env)@, r@) == begin(
            old(env)@.errno_set(0),
            Sink::Bounded { dest, n },
            false,
            FormatView::Guest { ptr: format },
            args.pos,
        ),
        final(env)@.wf(),
        r@.wf(),
{
    vsnprintf(env, dest, n, format, args.start())
}

/// As [vsprintf].
pub fn vsprintf_l(env: &mut Environment, dest: u32, _loc: u32, format: u32, arg: VaList) -> (r: Outcome)
    requires
        old(env)@.wf(),
        old(env)@.errno_ready(),
    ensures
        (final(env)@, r@) == begin(
            old(env)@.errno_set(0),
            Sink::Buffer { dest },
            false,
            FormatView::Guest { ptr: format },
            arg.pos,
        ),
        final(env)@.wf(),
        r@.wf(),
{
    vsprintf(env, dest, format, arg)
}

/// As [vsnprintf].
pub fn vsnprintf_l(env: &mut Environment, dest: u32, n: u32, _loc: u32, format: u32, arg: VaList) -> (r: Outcome)
    requires
        old(env)@.wf(),
        old(env)@.errno_ready(),
    ensures
        (final(env)@, r@) == begin(
            old(env)@.errno_set(0),
            Sink::Bounded { dest, n },
            false,
            FormatView::Guest { ptr: format },
            arg.pos,
        ),
        final(env)@.wf(),
        r@.wf(),
{
    vsnprintf(env, dest, n, format, arg)
}

/// Formats into a buffer of `n` 32-bit characters. Returns -1 if the text and its
/// terminator do not fit.
pub fn vswprintf(env: &mut Environment, ws: u32, n: u32, format: u32, args: VaList) -> (r: Outcome)
    requires
        old(env)@.wf(),
        old(env)@.errno_ready(),
    ensures
        (final(env)@, r@) == begin_wide(old(env)@.errno_set(0), Sink::Wide { ws, n }, format, args.pos),
        final(env)@.wf(),
        r@.wf(),
{
    errno::set_errno(env, 0);
    begin_wide_call(env, Sink::Wide { ws, n }, format, args)
}

/// As [vswprintf].
pub fn swprintf(env: &mut Environment, ws: u32, n: u32, format: u32, args: DotDotDot) -> (r: Outcome)
    requires
        old(env)@.wf(),
        old(env)@.errno_ready(),
    ensures
        (final(env)@, r@) == begin_wide(old(env)@.errno_set(0), Sink::Wide { ws, n }, format, args.pos),
        final(env)@.wf(),
        r@.wf(),
{
    proof {
        errno::lemma_errno_set_again(env@, 0, 0);
    }
    errno::set_errno(env, 0);
    vswprintf(env, ws, n, format, args.start())
}

/// Formats a wide format string to `stdout`.
pub fn wprintf(env: &mut Environment, format: u32, args: DotDotDot) -> (r: Outcome)
    requires
        old(env)@.wf(),
        old(env)@.errno_ready(),
    ensures
        (final(env)@, r@) == begin_wide(old(env)@.errno_set(0), Sink::Stdout, format, args.pos),
        final(env)@.wf(),
        r@.wf(),
{
    errno::set_errno(env, 0);
    begin_wide_call(env, Sink::Stdout, format, args.start())
}

/// Formats a wide format string to `stdout`.
pub fn vwprintf(env: &mut Environment, format: u32, arg: VaList) -> (r: Outcome)
    requires
        old(env)@.wf(),
        old(env)@.errno_ready(),
    ensures
        (final(env)@, r@) == begin_wide(old(env)@.errno_set(0), Sink::Stdout, format, arg.pos),
        final(env)@.wf(),
        r@.wf(),
{
    errno::set_errno(env, 0);
    begin_wide_call(env, Sink::Stdout, format, arg)
}

/// Formats to `stdout`.
pub fn printf(env: &mut Environment, format: u32, args: DotDotDot) -> (r: Outcome)
    requires
        old(env)@.wf(),
        old(env)@.errno_ready(),
    ensures
        (final(env)@, r@) == begin(
            old(env)@.errno_set(0),
            Sink::Stdout,
            false,
            FormatView::Guest { ptr: format },
            args.pos,
        ),
        final(env)@.wf(),
        r@.wf(),
{
    errno::set_errno(env, 0);
    begin_call::<false>(env, Sink::Stdout, Format::Guest { ptr: format }, args.start())
}

/// Formats to a file. Text for `stdin` is discarded.
pub fn vfprintf(env: &mut Environment, stream: u32, format: u32, arg: VaList) -> (r: Outcome)
    requires
        old(env)@.wf(),
        old(env)@.errno_ready(),
    ensures
        (final(env)@, r@) == begin(
            old(env)@.errno_set(0),
            Sink::File { stream },
            false,
            FormatView::Guest { ptr: format },
            arg.pos,
        ),
        final(env)@.wf(),
        r@.wf(),
{
    errno::set_errno(env, 0);
    begin_call::<false>(env, Sink::File { stream }, Format::Guest { ptr: format }, arg)
}

/// As [vfprintf].
pub fn fprintf(env: &mut Environment, stream: u32, format: u32, args: DotDotDot) -> (r: Outcome)
    requires
        old(env)@.wf(),
        old(env)@.errno_ready(),
    ensures
        (final(env)@, r@) == begin(
            old(env)@.errno_set(0),
            Sink::File { stream },
            false,
            FormatView::Guest { ptr: format },
            args.pos,
        ),
        final(env)@.wf(),
        r@.wf(),
{
    proof {
        errno::lemma_errno_set_again(env@, 0, 0);
    }
    errno::set_errno(env, 0);
    vfprintf(env, stream, format, args.start())
}

/// Formats a message for the log. `format` is the text of the format object,
/// or [None] if that is nil.
pub fn NSLogv(env: &mut Environment, format: Option<Vec<u8>>, arg: VaList) -> (r: Outcome)
    requires
        old(env)@.wf(),
        format matches Some(text) ==> text@.len() <= u32::MAX,
    ensures
        (final(env)@, r@) == (match format {
            Some(text) => begin(
                old(env)@,
                Sink::Log,
                true,
                FormatView::Bytes { bytes: text@ },
                arg.pos,
            ),
            None => (old(env)@, OutcomeView::Log { message: "NSLog: (null format)"@ }),
        }),
        final(env)@.wf(),
        r@.wf(),
{
    match format {
        Some(bytes) => begin_call::<true>(env, Sink::Log, Format::Bytes { bytes }, arg),
        None => Outcome::Log { message: "NSLog: (null format)".to_owned() },
    }
}

/// As [NSLogv].
pub fn NSLog(env: &mut Environment, format: Option<Vec<u8>>, args: DotDotDot) -> (r: Outcome)
    requires
        old(env)@.wf(),
        format matches Some(text) ==> text@.len() <= u32::MAX,
    ensures
        (final(env)@, r@) == (match format {
            Some(text) => begin(
                old(env)@,
                Sink::Log,
                true,
                FormatView::Bytes { bytes: text@ },
                args.pos,
            ),
            None => (old(env)@, OutcomeView::Log { message: "NSLog: (null format)"@ }),
        }),
        final(env)@.wf(),
        r@.wf(),
{
    NSLogv(env, format, args.start())
}

} // verus!
