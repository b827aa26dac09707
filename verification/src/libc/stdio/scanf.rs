//! `scanf` function family.
//!
//! The host turns text into floating-point numbers: where a conversion needs
//! that, scanning stops with the text and goes on once the host has answered.
use crate::abi::{DotDotDot, VaList};
use crate::environment::{EnvState, Environment};
use crate::libc::errno;
use crate::libc::stdio::directive;
use crate::libc::stdio::directive::{Format, FormatView, Length};
use crate::libc::stdio::text;
use crate::mem;
use crate::mem::{Mem, MemState};
use std::collections::HashSet;
use vstd::prelude::*;

verus! {

broadcast use vstd::std_specs::hash::group_hash_axioms;

/// What `getc` returns at the end of a file.
pub const EOF: i32 = -1;

/// What is scanned.
pub enum Subject {
    /// A C string in guest memory.
    CString { ptr: u32 },
    /// A string on the host, which ends in a NUL as one of C does.
    Text { bytes: Vec<u8> },
    /// The contents of a file, from its current position on.
    File { bytes: Vec<u8> },
}

/// The model of a [Subject].
pub enum SubjectView {
    CString { ptr: u32 },
    Text { bytes: Seq<u8> },
    File { bytes: Seq<u8> },
}

impl View for Subject {
    type V = SubjectView;

    open spec fn view(&self) -> SubjectView {
        match *self {
            Subject::CString { ptr } => SubjectView::CString { ptr },
            Subject::Text { bytes } => SubjectView::Text { bytes: bytes@ },
            Subject::File { bytes } => SubjectView::File { bytes: bytes@ },
        }
    }
}

/// The state of scanning.
#[verifier::ext_equal]
pub struct Scan {
    pub mem: MemState,
    /// How many characters were scanned.
    pub idx: u32,
    /// How many characters were taken from the file.
    pub pos: int,
    /// The index of the next character of the format string.
    pub fidx: int,
    /// The address of the next argument.
    pub va: u32,
    /// How many conversions were assigned.
    pub matched: int,
}

/// A conversion specification of `scanf`.
#[derive(Clone, Copy, PartialEq, Eq, Structural, Debug)]
pub struct ScanDirective {
    /// `*`
    pub suppress: bool,
    /// The maximum width; zero if there is none.
    pub width: u32,
    pub length: Length,
    pub specifier: u8,
}

/// How scanning goes on after a step.
pub enum ScanFlow {
    /// With the next character of the format string.
    Go,
    /// It has ended.
    Done,
    /// The host has to turn this text into a number first.
    Waiting { directive: ScanDirective, text: Seq<u8> },
    /// The format asks for something that is not supported.
    Unsupported,
}

/// The number that the host has made of a text.
#[derive(Clone, Copy, PartialEq, Eq, Structural, Debug)]
pub enum ParsedFloat {
    /// Its bit patterns in double and in single precision.
    Number { double: u64, single: u32 },
    /// The text is not a number.
    Invalid,
}

/// Whether `c` is white space in C.
pub open spec fn is_space(c: u8) -> bool {
    c == ' ' as u8 || c == '\t' as u8 || c == '\n' as u8 || c == 0x0B || c == 0x0C || c
        == '\r' as u8
}

/// The value of the digit `c`; 36 if it is none.
pub open spec fn digit_value(c: u8) -> int {
    if '0' as u8 <= c <= '9' as u8 {
        c - '0' as u8
    } else if 'a' as u8 <= c <= 'z' as u8 {
        c - 'a' as u8 + 10
    } else if 'A' as u8 <= c <= 'Z' as u8 {
        c - 'A' as u8 + 10
    } else {
        36
    }
}

impl SubjectView {
    /// The next character; [None] at the end of a file.
    pub open spec fn get(self, s: Scan) -> Option<u8> {
        match self {
            SubjectView::CString { ptr } => Some(s.mem.peek(mem::wrap(ptr + s.idx))),
            SubjectView::Text { bytes } => Some(
                if s.idx < bytes.len() && s.idx < u32::MAX {
                    bytes[s.idx as int]
                } else {
                    0
                },
            ),
            SubjectView::File { bytes } => if s.pos < bytes.len() {
                Some(bytes[s.pos])
            } else {
                None
            },
        }
    }

    /// The state after the next character was taken from the file, if it is
    /// one.
    pub open spec fn taken(self, s: Scan) -> Scan {
        Scan {
            pos: if self is File {
                s.pos + 1
            } else {
                s.pos
            },
            ..s
        }
    }

    /// The state after the next character was scanned.
    pub open spec fn advanced(self, s: Scan) -> Scan {
        Scan { idx: mem::wrap(s.idx + 1), ..self.taken(s) }
    }

    /// How many characters are left at most, up to a NUL.
    pub open spec fn left(self, s: Scan) -> nat {
        match self {
            SubjectView::CString { ptr } => mem::bytes_to_end(mem::wrap(ptr + s.idx)),
            SubjectView::Text { bytes } => if s.idx < bytes.len() {
                (bytes.len() - s.idx) as nat
            } else {
                0
            },
            SubjectView::File { bytes } => if s.pos < bytes.len() {
                (bytes.len() - s.pos) as nat
            } else {
                0
            },
        }
    }

    /// Whether the next character is `c`.
    pub open spec fn next_is(self, s: Scan, c: u8) -> bool {
        self.get(s) == Some(c)
    }
}

/// Fewer characters are left behind one that is not NUL.
pub proof fn lemma_left(sub: SubjectView, s: Scan)
    requires
        sub.get(s) is Some,
        sub.get(s) != Some(0u8),
    ensures
        sub.left(sub.advanced(s)) < sub.left(s),
{
    if let SubjectView::CString { ptr } = sub {
        mem::lemma_wrap(s.idx + 1, ptr as int);
        mem::lemma_wrap(ptr + s.idx, 1);
    }
}

/// The state after consecutive white space was scanned.
pub open spec fn skip_spaces(sub: SubjectView, s: Scan) -> Scan
    decreases sub.left(s),
{
    match sub.get(s) {
        Some(c) => if is_space(c) {
            proof {
                lemma_left(sub, s);
            }
            skip_spaces(sub, sub.advanced(s))
        } else {
            s
        },
        None => s,
    }
}

/// The digits of an integer: their value, how many there are, and the state
/// after they were scanned.
pub struct Run {
    pub value: int,
    pub count: int,
    pub s: Scan,
}

/// The digits in the given base that come next, at most `limit` of them.
pub open spec fn digit_run(sub: SubjectView, run: Run, base: int, limit: nat) -> Run
    decreases limit,
{
    match sub.get(run.s) {
        Some(c) => if limit > 0 && digit_value(c) < base {
            digit_run(
                sub,
                Run {
                    value: run.value * base + digit_value(c),
                    count: run.count + 1,
                    s: sub.advanced(run.s),
                },
                base,
                (limit - 1) as nat,
            )
        } else {
            run
        },
        None => run,
    }
}

/// An integer that was scanned: whether there is one, its sign, its absolute
/// value, and the state after it.
pub struct Integer {
    pub found: bool,
    pub negative: bool,
    pub magnitude: int,
    pub s: Scan,
}

/// Scans an integer of at most `limit` characters: an optional sign, a prefix
/// `0x` if the base is 16 or zero, and digits. A base of zero stands for the
/// one that the prefix tells. Without digits there is no integer.
pub open spec fn integer(sub: SubjectView, s: Scan, base: int, limit: nat) -> Integer {
    let negative = sub.next_is(s, '-' as u8);
    let signed = limit > 0 && (negative || sub.next_is(s, '+' as u8));
    let s1 = if signed {
        sub.advanced(s)
    } else {
        s
    };
    let limit1 = if signed {
        (limit - 1) as nat
    } else {
        limit
    };
    let zero = limit1 > 0 && sub.next_is(s1, '0' as u8);
    let s2 = sub.advanced(s1);
    let prefix = zero && limit1 > 1 && (base == 0 || base == 16) && (sub.next_is(s2, 'x' as u8)
        || sub.next_is(s2, 'X' as u8));
    let radix = if base != 0 {
        base
    } else if prefix {
        16
    } else if zero {
        8
    } else {
        10
    };
    let run = if prefix {
        digit_run(
            sub,
            Run { value: 0, count: 0, s: sub.advanced(s2) },
            radix,
            (limit1 - 2) as nat,
        )
    } else if zero {
        digit_run(sub, Run { value: 0, count: 1, s: s2 }, radix, (limit1 - 1) as nat)
    } else {
        digit_run(sub, Run { value: 0, count: 0, s: s1 }, radix, limit1)
    };
    Integer {
        found: run.count > 0,
        negative: negative && signed,
        magnitude: run.value,
        s: run.s,
    }
}

/// Text that was scanned, and the state after it.
pub struct Piece {
    pub text: Seq<u8>,
    pub s: Scan,
}

impl Piece {
    /// The piece with the next character in it.
    pub open spec fn grown(self, sub: SubjectView) -> Piece {
        Piece { text: self.text.push(sub.get(self.s).unwrap()), s: sub.advanced(self.s) }
    }
}

/// Whether the next character is a decimal digit.
pub open spec fn next_is_digit(sub: SubjectView, s: Scan) -> bool {
    sub.get(s) matches Some(c) && directive::is_digit(c)
}

/// The piece with the decimal digits that come next.
pub open spec fn digits_piece(sub: SubjectView, p: Piece) -> Piece
    decreases sub.left(p.s),
{
    if next_is_digit(sub, p.s) {
        proof {
            lemma_left(sub, p.s);
        }
        digits_piece(sub, p.grown(sub))
    } else {
        p
    }
}

/// The piece with the sign that comes next, if there is one.
pub open spec fn sign_piece(sub: SubjectView, p: Piece) -> Piece {
    if sub.next_is(p.s, '+' as u8) || sub.next_is(p.s, '-' as u8) {
        p.grown(sub)
    } else {
        p
    }
}

/// The text of a floating-point number: a sign, digits, a point and more
/// digits, and an exponent with a sign, each of them optional.
pub open spec fn float_piece(sub: SubjectView, s: Scan) -> Piece {
    let p1 = digits_piece(sub, sign_piece(sub, Piece { text: seq![], s }));
    let p2 = if sub.next_is(p1.s, '.' as u8) {
        digits_piece(sub, p1.grown(sub))
    } else {
        p1
    };
    if sub.next_is(p2.s, 'e' as u8) || sub.next_is(p2.s, 'E' as u8) {
        digits_piece(sub, sign_piece(sub, p2.grown(sub)))
    } else {
        p2
    }
}

/// The conversion specification that starts at index `i`, just behind the
/// `%`, and the index behind it. [None] if its width does not fit.
pub open spec fn parse_scan(f: FormatView, m: MemState, i: int) -> Option<(ScanDirective, int)> {
    let i1 = directive::skip_char(f, m, i, '*' as u8);
    let width = directive::number_value(f, m, i1, 0);
    let i2 = directive::number_end(f, m, i1);
    let (length, i3) = scan_length_at(f, m, i2);
    if width > u32::MAX {
        None
    } else {
        Some(
            (
                ScanDirective {
                    suppress: i1 != i,
                    width: width as u32,
                    length,
                    specifier: f.at(m, i3),
                },
                i3 + 1,
            ),
        )
    }
}

/// The length modifier at index `i`, and the index behind it.
pub open spec fn scan_length_at(f: FormatView, m: MemState, i: int) -> (Length, int) {
    let c = f.at(m, i);
    if c == 'h' as u8 || c == 'l' as u8 || c == 'q' as u8 {
        directive::length_at(f, m, i)
    } else {
        (Length::Plain, i)
    }
}

/// The members of a scanset, and the index behind it.
pub struct Scanset {
    pub members: Set<u8>,
    pub idx: int,
}

/// The characters from `a` to `b`; if they are in the wrong order, the two
/// and the dash between them.
pub open spec fn char_range(a: u8, b: u8) -> Set<u8> {
    Set::new(
        |c: u8|
            if a <= b {
                a <= c <= b
            } else {
                c == a || c == '-' as u8 || c == b
            },
    )
}

/// The string goes on behind three characters that are not NUL.
pub proof fn lemma_covers_three(f: FormatView, m: MemState, i: int)
    requires
        f.covers(i),
    ensures
        f.at(m, i) != 0 && f.at(m, i + 1) != 0 && f.at(m, i + 2) != 0 ==> f.covers(i + 3),
{
    directive::lemma_more(f, m, i);
    if f.at(m, i) != 0 {
        directive::lemma_more(f, m, i + 1);
        if f.at(m, i + 1) != 0 {
            directive::lemma_more(f, m, i + 2);
        }
    }
}

/// The scanset whose rest starts at index `i`. A `]` that comes first is a
/// member; a `-` is one unless it stands between two others. The end of the
/// string ends the set.
pub open spec fn scanset(f: FormatView, m: MemState, i: int, first: bool, members: Set<u8>) -> Scanset
    decreases f.limit() - i,
    when f.covers(i)
{
    let c = f.at(m, i);
    let next = f.at(m, i + 1);
    let end = f.at(m, i + 2);
    if c == ']' as u8 && !first {
        Scanset { members, idx: i + 1 }
    } else if c == 0 {
        Scanset { members, idx: i }
    } else if next == '-' as u8 && end != ']' as u8 && end != 0 {
        proof {
            lemma_covers_three(f, m, i);
        }
        scanset(f, m, i + 3, false, members.union(char_range(c, end)))
    } else {
        proof {
            directive::lemma_more(f, m, i);
        }
        scanset(f, m, i + 1, false, members.insert(c))
    }
}

/// Stores `c` at `dst`, if there is such an address.
pub open spec fn store(s: Scan, dst: Option<u32>, c: u8) -> Scan {
    match dst {
        Some(p) => Scan { mem: s.mem.poke(p, c), ..s },
        None => s,
    }
}

/// The address behind `dst`.
pub open spec fn bumped(dst: Option<u32>) -> Option<u32> {
    match dst {
        Some(p) => Some(mem::wrap(p + 1)),
        None => None,
    }
}

/// Characters that were copied: how many, the state after them and where the
/// next one goes.
pub struct Copied {
    pub count: int,
    pub s: Scan,
    pub dst: Option<u32>,
}

/// Whether `%[` takes the character `c`.
pub open spec fn in_scanset(members: Set<u8>, inverted: bool, c: u8) -> bool {
    c != 0 && members.contains(c) != inverted
}

/// Copies the characters that the scanset takes, at most `limit` of them.
pub open spec fn copy_scanset(
    sub: SubjectView,
    from: Copied,
    members: Set<u8>,
    inverted: bool,
    limit: nat,
) -> Copied
    decreases limit,
{
    match sub.get(from.s) {
        Some(c) => if limit > 0 && in_scanset(members, inverted, c) {
            copy_scanset(
                sub,
                Copied {
                    count: from.count + 1,
                    s: store(sub.advanced(from.s), from.dst, c),
                    dst: bumped(from.dst),
                },
                members,
                inverted,
                (limit - 1) as nat,
            )
        } else {
            from
        },
        None => from,
    }
}

/// Copies the characters up to white space, at most `limit` of them. A NUL is
/// taken from a file but not copied.
pub open spec fn copy_word(sub: SubjectView, from: Copied, limit: nat) -> Copied
    decreases limit,
{
    match sub.get(from.s) {
        Some(c) => if limit == 0 || is_space(c) {
            from
        } else if c == 0 {
            Copied { s: sub.taken(from.s), ..from }
        } else {
            copy_word(
                sub,
                Copied {
                    count: from.count + 1,
                    s: store(sub.advanced(from.s), from.dst, c),
                    dst: bumped(from.dst),
                },
                (limit - 1) as nat,
            )
        },
        None => from,
    }
}

/// The maximum number of characters of a conversion.
pub open spec fn scan_limit(d: ScanDirective) -> nat {
    if d.width > 0 {
        d.width as nat
    } else {
        u32::MAX as nat
    }
}

/// The number of bytes in an integer of the given length.
pub open spec fn int_size(length: Length) -> int {
    match length {
        Length::HalfHalf => 1,
        Length::Half => 2,
        Length::LongLong => 8,
        _ => 4,
    }
}

/// The number of values that an integer of this many bytes can have.
pub open spec fn int_range(size: int) -> int {
    if size == 1 {
        0x100
    } else if size == 2 {
        0x1_0000
    } else if size == 4 {
        0x1_0000_0000
    } else {
        0x1_0000_0000_0000_0000
    }
}

/// The bit pattern that is stored for a scanned integer. An absolute value
/// that is too large for the type counts as the largest one (`%p`: as zero).
pub open spec fn int_bits(d: ScanDirective, n: Integer) -> u64 {
    let range = int_range(int_size(d.length));
    let max = if d.specifier == 'd' as u8 || d.specifier == 'i' as u8 {
        range / 2 - 1
    } else {
        range - 1
    };
    let v = if n.magnitude <= max {
        n.magnitude
    } else if d.specifier == 'p' as u8 {
        0
    } else {
        max
    };
    (if n.negative && v != 0 {
        range - v
    } else {
        v
    }) as u64
}

/// Stores an integer of `size` bytes at the address that the next argument
/// gives, unless the assignment is suppressed.
pub open spec fn assign(d: ScanDirective, s: Scan, size: int, bits: u64) -> Scan {
    let p = s.mem.peek_u32(s.va);
    if d.suppress {
        s
    } else {
        Scan {
            mem: if size == 1 {
                s.mem.poke(p, bits as u8)
            } else if size == 2 {
                s.mem.poke_u16(p, bits as u16)
            } else if size == 4 {
                s.mem.poke_u32(p, bits as u32)
            } else {
                s.mem.poke_u64(p, bits)
            },
            va: mem::wrap(s.va + 4),
            ..s
        }
    }
}

/// The state with one more conversion, unless the assignment is suppressed.
pub open spec fn counted(d: ScanDirective, s: Scan) -> Scan {
    Scan {
        matched: if d.suppress {
            s.matched
        } else {
            s.matched + 1
        },
        ..s
    }
}

/// An integer conversion.
pub open spec fn scan_integer(sub: SubjectView, d: ScanDirective, s: Scan) -> (Scan, ScanFlow) {
    let base = if d.specifier == 'i' as u8 {
        0
    } else if d.specifier == 'd' as u8 || d.specifier == 'u' as u8 {
        10int
    } else {
        16
    };
    let n = integer(sub, s, base, scan_limit(d));
    if n.found {
        (counted(d, assign(d, n.s, int_size(d.length), int_bits(d, n))), ScanFlow::Go)
    } else {
        (n.s, ScanFlow::Done)
    }
}

/// The address that the next argument gives, unless the assignment is
/// suppressed, and the state after that argument was taken.
pub open spec fn destination(d: ScanDirective, s: Scan) -> (Option<u32>, Scan) {
    if d.suppress {
        (None, s)
    } else {
        (Some(s.mem.peek_u32(s.va)), Scan { va: mem::wrap(s.va + 4), ..s })
    }
}

/// A `%[` conversion, whose scanset starts at the next character of the
/// format string. If the set takes no character, nothing is stored or counted.
pub open spec fn scan_set(sub: SubjectView, f: FormatView, d: ScanDirective, s: Scan) -> (
    Scan,
    ScanFlow,
) {
    let start = directive::skip_char(f, s.mem, s.fidx, '^' as u8);
    let set = scanset(f, s.mem, start, true, Set::empty());
    let (dst, t) = destination(d, Scan { fidx: set.idx, ..s });
    let copied = copy_scanset(
        sub,
        Copied { count: 0, s: t, dst },
        set.members,
        start != s.fidx,
        scan_limit(d),
    );
    if copied.count > 0 {
        (counted(d, store(copied.s, copied.dst, 0)), ScanFlow::Go)
    } else {
        (copied.s, ScanFlow::Go)
    }
}

/// A `%s` conversion.
pub open spec fn scan_word(sub: SubjectView, d: ScanDirective, s: Scan) -> (Scan, ScanFlow) {
    let (dst, t) = destination(d, s);
    let copied = copy_word(sub, Copied { count: 0, s: t, dst }, scan_limit(d));
    (counted(d, store(copied.s, copied.dst, 0)), ScanFlow::Go)
}

/// A conversion that skips white space before it. An unsigned conversion of half
/// length (`%hu`, `%hx`, `%hX`) counts as an assignment, but takes nothing of the
/// input, takes no argument and stores nothing.
pub open spec fn scan_after_spaces(sub: SubjectView, d: ScanDirective, s: Scan) -> (
    Scan,
    ScanFlow,
) {
    let c = d.specifier;
    if c == 'd' as u8 || c == 'i' as u8 {
        scan_integer(sub, d, s)
    } else if c == 'x' as u8 || c == 'X' as u8 || c == 'u' as u8 {
        if d.length == Length::Half {
            (counted(d, s), ScanFlow::Go)
        } else {
            scan_integer(sub, d, s)
        }
    } else if c == 'p' as u8 {
        scan_integer(sub, ScanDirective { length: Length::Plain, ..d }, s)
    } else if c == 'f' as u8 || c == 'g' as u8 {
        let piece = float_piece(sub, s);
        if d.length == Length::Plain || d.length == Length::Long {
            (piece.s, ScanFlow::Waiting { directive: d, text: piece.text })
        } else {
            (piece.s, ScanFlow::Done)
        }
    } else if c == '%' as u8 {
        if sub.next_is(s, '%' as u8) {
            (sub.advanced(s), ScanFlow::Go)
        } else {
            (sub.taken(s), ScanFlow::Done)
        }
    } else if c == 's' as u8 {
        scan_word(sub, d, s)
    } else {
        (s, ScanFlow::Done)
    }
}

/// Carries out the conversion `d`.
pub open spec fn scan_convert(sub: SubjectView, f: FormatView, d: ScanDirective, s: Scan) -> (
    Scan,
    ScanFlow,
) {
    let c = d.specifier;
    if c == '[' as u8 {
        scan_set(sub, f, d, s)
    } else if c == 'c' as u8 {
        match sub.get(s) {
            Some(cc) => (
                counted(d, assign(d, sub.advanced(s), 1, cc as u64)),
                ScanFlow::Go,
            ),
            None => (s, ScanFlow::Done),
        }
    } else if c == 'n' as u8 {
        (assign(d, s, 4, s.idx as u64), ScanFlow::Go)
    } else {
        let t = skip_spaces(sub, s);
        if sub.get(t) is None {
            (t, ScanFlow::Done)
        } else {
            scan_after_spaces(sub, d, t)
        }
    }
}

/// What the host's reply adds.
pub open spec fn scan_answer(d: ScanDirective, reply: ParsedFloat, s: Scan) -> (Scan, ScanFlow) {
    match reply {
        ParsedFloat::Number { double, single } => (
            counted(
                d,
                if d.length == Length::Long {
                    assign(d, s, 8, double)
                } else {
                    assign(d, s, 4, single as u64)
                },
            ),
            ScanFlow::Go,
        ),
        ParsedFloat::Invalid => (s, ScanFlow::Done),
    }
}

/// Handles the next character of the format string, or the conversion that
/// starts with it.
pub open spec fn scan_step(sub: SubjectView, f: FormatView, s: Scan) -> (Scan, ScanFlow) {
    let c = f.at(s.mem, s.fidx);
    let s1 = Scan { fidx: s.fidx + 1, ..s };
    if c == 0 {
        (s, ScanFlow::Done)
    } else if c != '%' as u8 {
        match sub.get(s) {
            None => (s1, ScanFlow::Done),
            Some(cc) => if is_space(c) {
                (skip_spaces(sub, s1), ScanFlow::Go)
            } else if c == cc {
                (sub.advanced(s1), ScanFlow::Go)
            } else {
                (sub.taken(s1), ScanFlow::Done)
            },
        }
    } else {
        match parse_scan(f, s.mem, s.fidx + 1) {
            None => (s, ScanFlow::Unsupported),
            Some((d, i)) => if d.specifier == 0 {
                (skip_spaces(sub, Scan { fidx: i - 1, ..s }), ScanFlow::Done)
            } else {
                scan_convert(sub, f, d, Scan { fidx: i, ..s })
            },
        }
    }
}

/// Scanning a subject does not touch anything else.
pub proof fn lemma_skip_spaces(sub: SubjectView, s: Scan)
    ensures
        skip_spaces(sub, s).mem == s.mem,
        skip_spaces(sub, s).fidx == s.fidx,
        skip_spaces(sub, s).va == s.va,
        skip_spaces(sub, s).matched == s.matched,
    decreases sub.left(s),
{
    if let Some(c) = sub.get(s) {
        if is_space(c) {
            lemma_left(sub, s);
            lemma_skip_spaces(sub, sub.advanced(s));
        }
    }
}

proof fn lemma_digit_run(sub: SubjectView, run: Run, base: int, limit: nat)
    ensures
        ({
            let r = digit_run(sub, run, base, limit);
            &&& r.s.mem == run.s.mem
            &&& r.s.fidx == run.s.fidx
            &&& r.s.va == run.s.va
            &&& r.s.matched == run.s.matched
        }),
    decreases limit,
{
    if let Some(c) = sub.get(run.s) {
        if limit > 0 && digit_value(c) < base {
            lemma_digit_run(
                sub,
                Run {
                    value: run.value * base + digit_value(c),
                    count: run.count + 1,
                    s: sub.advanced(run.s),
                },
                base,
                (limit - 1) as nat,
            );
        }
    }
}

proof fn lemma_digits_piece(sub: SubjectView, p: Piece)
    ensures
        ({
            let r = digits_piece(sub, p);
            &&& r.s.mem == p.s.mem
            &&& r.s.fidx == p.s.fidx
            &&& r.s.va == p.s.va
            &&& r.s.matched == p.s.matched
        }),
    decreases sub.left(p.s),
{
    if next_is_digit(sub, p.s) {
        lemma_left(sub, p.s);
        lemma_digits_piece(sub, p.grown(sub));
    }
}

proof fn lemma_copy_scanset(
    sub: SubjectView,
    from: Copied,
    members: Set<u8>,
    inverted: bool,
    limit: nat,
)
    ensures
        ({
            let r = copy_scanset(sub, from, members, inverted, limit);
            &&& r.s.fidx == from.s.fidx
            &&& r.s.matched == from.s.matched
        }),
    decreases limit,
{
    if let Some(c) = sub.get(from.s) {
        if limit > 0 && in_scanset(members, inverted, c) {
            lemma_copy_scanset(
                sub,
                Copied {
                    count: from.count + 1,
                    s: store(sub.advanced(from.s), from.dst, c),
                    dst: bumped(from.dst),
                },
                members,
                inverted,
                (limit - 1) as nat,
            );
        }
    }
}

proof fn lemma_copy_word(sub: SubjectView, from: Copied, limit: nat)
    ensures
        ({
            let r = copy_word(sub, from, limit);
            &&& r.s.fidx == from.s.fidx
            &&& r.s.matched == from.s.matched
        }),
    decreases limit,
{
    if let Some(c) = sub.get(from.s) {
        if limit > 0 && !is_space(c) && c != 0 {
            lemma_copy_word(
                sub,
                Copied {
                    count: from.count + 1,
                    s: store(sub.advanced(from.s), from.dst, c),
                    dst: bumped(from.dst),
                },
                (limit - 1) as nat,
            );
        }
    }
}

proof fn lemma_scanset(f: FormatView, m: MemState, i: int, first: bool, members: Set<u8>)
    requires
        f.covers(i),
    ensures
        i <= scanset(f, m, i, first, members).idx,
        f.covers(scanset(f, m, i, first, members).idx),
    decreases f.limit() - i,
{
    let c = f.at(m, i);
    let end = f.at(m, i + 2);
    directive::lemma_more(f, m, i);
    if (c == ']' as u8 && !first) || c == 0 {
    } else if f.at(m, i + 1) == '-' as u8 && end != ']' as u8 && end != 0 {
        lemma_covers_three(f, m, i);
        lemma_scanset(f, m, i + 3, false, members.union(char_range(c, end)));
    } else {
        lemma_scanset(f, m, i + 1, false, members.insert(c));
    }
}

proof fn lemma_parse_scan(f: FormatView, m: MemState, i: int)
    requires
        f.covers(i),
    ensures
        parse_scan(f, m, i) matches Some((d, j)) ==> i < j && f.covers(j - 1) && (d.specifier != 0
            ==> f.covers(j)),
{
    let i1 = directive::skip_char(f, m, i, '*' as u8);
    directive::lemma_more(f, m, i);
    directive::lemma_number_grows(f, m, i1, 0);
    let i2 = directive::number_end(f, m, i1);
    directive::lemma_more(f, m, i2);
    if f.at(m, i2) != 0 {
        directive::lemma_more(f, m, i2 + 1);
    }
    directive::lemma_more(f, m, scan_length_at(f, m, i2).1);
}

/// How far a step gets in the format string: further, and by two characters
/// at least for each conversion that counts.
pub open spec fn advances(f: FormatView, s: Scan, next: (Scan, ScanFlow)) -> bool {
    match next.1 {
        ScanFlow::Unsupported => true,
        ScanFlow::Done => f.covers(next.0.fidx) && next.0.fidx >= s.fidx && next.0.matched
            == s.matched,
        ScanFlow::Go => f.covers(next.0.fidx) && next.0.fidx > s.fidx && (next.0.matched
            == s.matched || (next.0.matched == s.matched + 1 && next.0.fidx >= s.fidx + 2)),
        ScanFlow::Waiting { .. } => f.covers(next.0.fidx) && next.0.fidx >= s.fidx + 2
            && next.0.matched == s.matched,
    }
}

proof fn lemma_scan_convert(sub: SubjectView, f: FormatView, d: ScanDirective, s: Scan)
    requires
        f.covers(s.fidx),
    ensures
        ({
            let next = scan_convert(sub, f, d, s);
            &&& f.covers(next.0.fidx)
            &&& next.0.fidx >= s.fidx
            &&& next.0.matched == s.matched || (next.1 is Go && next.0.matched == s.matched + 1)
            &&& !(next.1 is Unsupported)
        }),
{
    let t = skip_spaces(sub, s);
    lemma_skip_spaces(sub, s);
    let c = d.specifier;
    if c == '[' as u8 {
        let start = directive::skip_char(f, s.mem, s.fidx, '^' as u8);
        directive::lemma_more(f, s.mem, s.fidx);
        lemma_scanset(f, s.mem, start, true, Set::empty());
        let set = scanset(f, s.mem, start, true, Set::empty());
        let (dst, t) = destination(d, Scan { fidx: set.idx, ..s });
        lemma_copy_scanset(
            sub,
            Copied { count: 0, s: t, dst },
            set.members,
            start != s.fidx,
            scan_limit(d),
        );
    } else if c == 's' as u8 {
        let (dst, t2) = destination(d, t);
        lemma_copy_word(sub, Copied { count: 0, s: t2, dst }, scan_limit(d));
    } else if c == 'f' as u8 || c == 'g' as u8 {
        lemma_float_piece(sub, t);
    } else {
        lemma_integer(sub, t, 0, scan_limit(d));
        lemma_integer(sub, t, 10, scan_limit(d));
        lemma_integer(sub, t, 16, scan_limit(d));
    }
}

proof fn lemma_float_piece(sub: SubjectView, s: Scan)
    ensures
        ({
            let r = float_piece(sub, s).s;
            &&& r.mem == s.mem
            &&& r.fidx == s.fidx
            &&& r.va == s.va
            &&& r.matched == s.matched
        }),
{
    let p0 = sign_piece(sub, Piece { text: seq![], s });
    lemma_digits_piece(sub, p0);
    let p1 = digits_piece(sub, p0);
    lemma_digits_piece(sub, p1.grown(sub));
    let p2 = if sub.next_is(p1.s, '.' as u8) {
        digits_piece(sub, p1.grown(sub))
    } else {
        p1
    };
    lemma_digits_piece(sub, sign_piece(sub, p2.grown(sub)));
}

proof fn lemma_integer(sub: SubjectView, s: Scan, base: int, limit: nat)
    ensures
        ({
            let r = integer(sub, s, base, limit).s;
            &&& r.mem == s.mem
            &&& r.fidx == s.fidx
            &&& r.va == s.va
            &&& r.matched == s.matched
        }),
{
    assert forall|run: Run, b: int, l: nat| #![trigger digit_run(sub, run, b, l)]
        digit_run(sub, run, b, l).s.mem == run.s.mem && digit_run(sub, run, b, l).s.fidx
            == run.s.fidx && digit_run(sub, run, b, l).s.va == run.s.va && digit_run(
            sub,
            run,
            b,
            l,
        ).s.matched == run.s.matched by {
        lemma_digit_run(sub, run, b, l);
    }
}

/// Scanning goes forward in the format string.
pub proof fn lemma_scan_step(sub: SubjectView, f: FormatView, s: Scan)
    requires
        f.covers(s.fidx),
    ensures
        advances(f, s, scan_step(sub, f, s)),
{
    let c = f.at(s.mem, s.fidx);
    directive::lemma_more(f, s.mem, s.fidx);
    if c == 0 {
    } else if c != '%' as u8 {
        lemma_skip_spaces(sub, Scan { fidx: s.fidx + 1, ..s });
    } else {
        lemma_parse_scan(f, s.mem, s.fidx + 1);
        if let Some((d, i)) = parse_scan(f, s.mem, s.fidx + 1) {
            if d.specifier == 0 {
                lemma_skip_spaces(sub, Scan { fidx: i - 1, ..s });
            } else {
                lemma_scan_convert(sub, f, d, Scan { fidx: i, ..s });
            }
        }
    }
}

/// Scans until the format string or the subject ends or the host has to step
/// in.
pub open spec fn scan_run(sub: SubjectView, f: FormatView, s: Scan) -> (Scan, ScanFlow)
    decreases f.limit() - s.fidx,
    when f.covers(s.fidx)
{
    let next = scan_step(sub, f, s);
    if next.1 is Go {
        proof {
            lemma_scan_step(sub, f, s);
        }
        scan_run(sub, f, next.0)
    } else {
        next
    }
}

/// How scanning goes on; the executable form of a [ScanFlow].
pub enum ScanStatus {
    Go,
    Done,
    Waiting { directive: ScanDirective, text: Vec<u8> },
    Unsupported,
}

impl View for ScanStatus {
    type V = ScanFlow;

    open spec fn view(&self) -> ScanFlow {
        match *self {
            ScanStatus::Go => ScanFlow::Go,
            ScanStatus::Done => ScanFlow::Done,
            ScanStatus::Waiting { directive, text } => ScanFlow::Waiting { directive, text: text@ },
            ScanStatus::Unsupported => ScanFlow::Unsupported,
        }
    }
}

/// Scanning that has begun.
pub struct Scanner {
    pub subject: Subject,
    pub format: Format,
    pub idx: u32,
    pub pos: usize,
    pub fidx: u32,
    pub args: VaList,
    pub matched: i32,
}

impl Scanner {
    /// The state of scanning, with the memory `m`.
    pub open spec fn scan(&self, m: MemState) -> Scan {
        Scan {
            mem: m,
            idx: self.idx,
            pos: self.pos as int,
            fidx: self.fidx as int,
            va: self.args.pos,
            matched: self.matched as int,
        }
    }

    /// Whether the subject and the format string are as in `other`.
    pub open spec fn same_input(&self, other: Scanner) -> bool {
        self.subject == other.subject && self.format == other.format
    }

    pub open spec fn wf(&self) -> bool {
        &&& self.subject@ matches SubjectView::File { bytes } ==> self.pos <= bytes.len()
        &&& self.format@.covers(self.fidx as int)
        &&& self.format@.limit() <= u32::MAX
        &&& 0 <= 2 * self.matched <= self.fidx
    }

    /// The next character.
    fn get(&self, mem: &Mem) -> (c: Option<u8>)
        ensures
            c == self.subject@.get(self.scan(mem@)),
    {
        match &self.subject {
            Subject::CString { ptr } => Some(mem.read_u8(mem::offset(*ptr, self.idx))),
            Subject::Text { bytes } => Some(
                if (self.idx as usize) < bytes.len() && self.idx < 0xFFFF_FFFF {
                    bytes[self.idx as usize]
                } else {
                    0
                },
            ),
            Subject::File { bytes } => if self.pos < bytes.len() {
                Some(bytes[self.pos])
            } else {
                None
            },
        }
    }

    /// Takes a character from the file, if it is one.
    fn take(&mut self)
        requires
            old(self).wf(),
            old(self).subject@ matches SubjectView::File { bytes } ==> old(self).pos < bytes.len(),
        ensures
            final(self).wf(),
            final(self).same_input(*old(self)),
            *final(self) == (Scanner {
                pos: if old(self).subject@ is File {
                    (old(self).pos + 1) as usize
                } else {
                    old(self).pos
                },
                ..*old(self)
            }),
            old(self).subject@ is File ==> old(self).pos < usize::MAX,
    {
        if let Subject::File { bytes } = &self.subject {
            let n: usize = bytes.len();
            if self.pos < n {
                self.pos = self.pos + 1;
            }
        }
    }

    /// Scans a character.
    fn advance(&mut self)
        requires
            old(self).wf(),
            old(self).subject@ matches SubjectView::File { bytes } ==> old(self).pos < bytes.len(),
        ensures
            final(self).wf(),
            final(self).same_input(*old(self)),
            *final(self) == (Scanner {
                idx: mem::wrap(old(self).idx + 1),
                pos: if old(self).subject@ is File {
                    (old(self).pos + 1) as usize
                } else {
                    old(self).pos
                },
                ..*old(self)
            }),
            old(self).subject@ is File ==> old(self).pos < usize::MAX,
    {
        self.take();
        self.idx = mem::offset(self.idx, 1);
    }

    /// Whether the next character is `c`.
    fn next_is(&self, mem: &Mem, c: u8) -> (b: bool)
        ensures
            b == self.subject@.next_is(self.scan(mem@), c),
    {
        match self.get(mem) {
            Some(cc) => cc == c,
            None => false,
        }
    }

    /// Scans white space.
    fn skip_spaces(&mut self, mem: &Mem)
        requires
            old(self).wf(),
        ensures
            final(self).wf(),
            final(self).same_input(*old(self)),
            final(self).scan(mem@) == skip_spaces(old(self).subject@, old(self).scan(mem@)),
    {
        let ghost sub = self.subject@;
        let ghost want = skip_spaces(sub, self.scan(mem@));
        loop
            invariant
                self.wf(),
                self.same_input(*old(self)),
                sub == self.subject@,
                skip_spaces(sub, self.scan(mem@)) == want,
            ensures
                self.wf(),
                self.same_input(*old(self)),
                self.scan(mem@) == want,
            decreases sub.left(self.scan(mem@)),
        {
            match self.get(mem) {
                Some(c) => {
                    if !isspace_inner(c) {
                        break;
                    }
                    proof {
                        lemma_left(sub, self.scan(mem@));
                    }
                    self.advance();
                },
                None => {
                    break;
                },
            }
        }
    }

    /// Scans digits: at most `limit` of them, behind `found` ones. Returns
    /// whether there are any and their value, which is [None] if it does not
    /// fit.
    fn digit_run(&mut self, mem: &Mem, base: u64, limit: u32, found: bool) -> (r: (
        bool,
        Option<u64>,
    ))
        requires
            old(self).wf(),
            2 <= base <= 36,
        ensures
            final(self).wf(),
            final(self).same_input(*old(self)),
            ({
                let run = digit_run(
                    old(self).subject@,
                    Run {
                        value: 0,
                        count: if found {
                            1
                        } else {
                            0
                        },
                        s: old(self).scan(mem@),
                    },
                    base as int,
                    limit as nat,
                );
                &&& final(self).scan(mem@) == run.s
                &&& r.0 == (run.count > 0)
                &&& 0 <= run.value
                &&& r.1 == (if run.value <= u64::MAX {
                    Some(run.value as u64)
                } else {
                    None
                })
            }),
    {
        let ghost sub = self.subject@;
        let ghost mut run = Run {
            value: 0,
            count: if found {
                1
            } else {
                0
            },
            s: self.scan(mem@),
        };
        let ghost want = digit_run(sub, run, base as int, limit as nat);
        let mut left: u32 = limit;
        let mut any: bool = found;
        let mut value: Option<u64> = Some(0);
        loop
            invariant
                self.wf(),
                self.same_input(*old(self)),
                sub == self.subject@,
                2 <= base <= 36,
                digit_run(sub, run, base as int, left as nat) == want,
                run.s == self.scan(mem@),
                run.count >= 0,
                any == (run.count > 0),
                0 <= run.value,
                value == (if run.value <= u64::MAX {
                    Some(run.value as u64)
                } else {
                    None
                }),
            ensures
                self.wf(),
                self.same_input(*old(self)),
                run == want,
                run.s == self.scan(mem@),
                any == (run.count > 0),
                0 <= run.value,
                value == (if run.value <= u64::MAX {
                    Some(run.value as u64)
                } else {
                    None
                }),
            decreases left,
        {
            if left == 0 {
                break;
            }
            match self.get(mem) {
                Some(c) => {
                    let d: u64 = digit_of(c);
                    if d >= base {
                        break;
                    }
                    proof {
                        lemma_times(run.value, base as int, d as int);
                    }
                    value = match value {
                        Some(v) => {
                            let w: u128 = (v as u128) * (base as u128) + (d as u128);
                            if w <= 0xFFFF_FFFF_FFFF_FFFF {
                                Some(w as u64)
                            } else {
                                None
                            }
                        },
                        None => None,
                    };
                    any = true;
                    self.advance();
                    left = left - 1;
                    proof {
                        run = Run {
                            value: run.value * base + d,
                            count: run.count + 1,
                            s: self.scan(mem@),
                        };
                    }
                },
                None => {
                    break;
                },
            }
        }
        (any, value)
    }
}

/// More digits do not make a number smaller.
proof fn lemma_times(v: int, base: int, d: int)
    requires
        0 <= v,
        2 <= base <= 36,
        0 <= d < base,
    ensures
        v * base + d >= v,
        v <= u64::MAX ==> v * base <= 36 * u64::MAX,
{
    assert(v * base >= v) by (nonlinear_arith)
        requires
            0 <= v,
            2 <= base,
    ;
    if v <= u64::MAX {
        assert(v * base <= 36 * u64::MAX) by (nonlinear_arith)
            requires
                0 <= v <= u64::MAX,
                2 <= base <= 36,
        ;
    }
}

/// The value of the digit `c`; 36 if it is none.
fn digit_of(c: u8) -> (d: u64)
    ensures
        d == digit_value(c),
        d <= 36,
{
    if '0' as u8 <= c && c <= '9' as u8 {
        (c - '0' as u8) as u64
    } else if 'a' as u8 <= c && c <= 'z' as u8 {
        (c - 'a' as u8) as u64 + 10
    } else if 'A' as u8 <= c && c <= 'Z' as u8 {
        (c - 'A' as u8) as u64 + 10
    } else {
        36
    }
}

// Helper function, not a part of printf family
/// Whether the character at `src` is white space.
pub fn isspace(env: &Environment, src: u32) -> (b: bool)
    ensures
        b == is_space(env@.mem.peek(src)),
{
    isspace_inner(env.mem.read_u8(src))
}

/// Whether `c` is white space in C, which counts the vertical tab.
pub fn isspace_inner(c: u8) -> (b: bool)
    ensures
        b == is_space(c),
{
    c == ' ' as u8 || c == '\t' as u8 || c == '\n' as u8 || c == 0x0B || c == 0x0C || c
        == '\r' as u8
}

/// An integer that was scanned. Its absolute value is [None] if it does not
/// fit.
struct ScannedInteger {
    found: bool,
    negative: bool,
    magnitude: Option<u64>,
}

/// The maximum number of characters of a conversion.
fn limit_of(d: ScanDirective) -> (n: u32)
    ensures
        n == scan_limit(d),
{
    if d.width > 0 {
        d.width
    } else {
        0xFFFF_FFFF
    }
}

/// The largest value of an integer of the given length.
fn max_int(length: Length, signed: bool) -> (max: u64)
    ensures
        max == (if signed {
            int_range(int_size(length)) / 2 - 1
        } else {
            int_range(int_size(length)) - 1
        }),
{
    let max: u64 = match length {
        Length::HalfHalf => 0xFF,
        Length::Half => 0xFFFF,
        Length::LongLong => 0xFFFF_FFFF_FFFF_FFFF,
        _ => 0xFFFF_FFFF,
    };
    if signed {
        max / 2
    } else {
        max
    }
}

/// The bit pattern that is stored for a scanned integer.
fn bits_of(d: ScanDirective, n: &ScannedInteger) -> (bits: u64)
    ensures
        forall|want: Integer|
            #![trigger int_bits(d, want)]
            want.negative == n.negative && 0 <= want.magnitude && n.magnitude == (
            if want.magnitude <= u64::MAX {
                Some(want.magnitude as u64)
            } else {
                None
            }) ==> bits == int_bits(d, want),
        bits < int_range(int_size(d.length)),
{
    let max: u64 = max_int(d.length, d.specifier == 'd' as u8 || d.specifier == 'i' as u8);
    let over: u64 = if d.specifier == 'p' as u8 {
        0
    } else {
        max
    };
    let v: u64 = match n.magnitude {
        Some(m) => if m <= max {
            m
        } else {
            over
        },
        None => over,
    };
    if n.negative && v != 0 {
        max_int(d.length, false) - v + 1
    } else {
        v
    }
}

impl Scanner {
    /// Scans an integer of at most `limit` characters.
    fn integer(&mut self, mem: &Mem, base: u64, limit: u32) -> (r: ScannedInteger)
        requires
            old(self).wf(),
            base == 0 || base == 10 || base == 16,
        ensures
            final(self).wf(),
            final(self).same_input(*old(self)),
            ({
                let want = integer(
                    old(self).subject@,
                    old(self).scan(mem@),
                    base as int,
                    limit as nat,
                );
                &&& final(self).scan(mem@) == want.s
                &&& r.found == want.found
                &&& r.negative == want.negative
                &&& 0 <= want.magnitude
                &&& r.magnitude == (if want.magnitude <= u64::MAX {
                    Some(want.magnitude as u64)
                } else {
                    None
                })
            }),
    {
        let mut left: u32 = limit;
        let mut negative: bool = false;
        if left > 0 && (self.next_is(mem, '-' as u8) || self.next_is(mem, '+' as u8)) {
            negative = self.next_is(mem, '-' as u8);
            self.advance();
            left = left - 1;
        }
        let mut zero: bool = false;
        let mut prefix: bool = false;
        if left > 0 && self.next_is(mem, '0' as u8) {
            zero = true;
            self.advance();
            left = left - 1;
            if left > 0 && (base == 0 || base == 16) && (self.next_is(mem, 'x' as u8)
                || self.next_is(mem, 'X' as u8)) {
                prefix = true;
                self.advance();
                left = left - 1;
            }
        }
        let radix: u64 = if base != 0 {
            base
        } else if prefix {
            16
        } else if zero {
            8
        } else {
            10
        };
        let (found, magnitude) = self.digit_run(mem, radix, left, zero && !prefix);
        ScannedInteger { found, negative, magnitude }
    }

    /// Adds decimal digits to `text`.
    fn digits_piece(&mut self, mem: &Mem, text: &mut Vec<u8>)
        requires
            old(self).wf(),
        ensures
            final(self).wf(),
            final(self).same_input(*old(self)),
            digits_piece(
                old(self).subject@,
                Piece { text: old(text)@, s: old(self).scan(mem@) },
            ) == (Piece { text: final(text)@, s: final(self).scan(mem@) }),
    {
        let ghost sub = self.subject@;
        let ghost want = digits_piece(sub, Piece { text: text@, s: self.scan(mem@) });
        loop
            invariant
                self.wf(),
                self.same_input(*old(self)),
                sub == self.subject@,
                digits_piece(sub, Piece { text: text@, s: self.scan(mem@) }) == want,
            ensures
                self.wf(),
                self.same_input(*old(self)),
                want == (Piece { text: text@, s: self.scan(mem@) }),
            decreases sub.left(self.scan(mem@)),
        {
            match self.get(mem) {
                Some(c) => {
                    if !('0' as u8 <= c && c <= '9' as u8) {
                        break;
                    }
                    proof {
                        lemma_left(sub, self.scan(mem@));
                    }
                    text.push(c);
                    self.advance();
                },
                None => {
                    break;
                },
            }
        }
    }

    /// Adds the next character to `text`.
    fn grow(&mut self, text: &mut Vec<u8>, c: u8)
        requires
            old(self).wf(),
            old(self).subject@ matches SubjectView::File { bytes } ==> old(self).pos < bytes.len(),
        ensures
            final(self).wf(),
            final(self).same_input(*old(self)),
            final(text)@ == old(text)@.push(c),
            *final(self) == (Scanner {
                idx: mem::wrap(old(self).idx + 1),
                pos: if old(self).subject@ is File {
                    (old(self).pos + 1) as usize
                } else {
                    old(self).pos
                },
                ..*old(self)
            }),
            old(self).subject@ is File ==> old(self).pos < usize::MAX,
    {
        text.push(c);
        self.advance();
    }

    /// Adds a sign to `text`, if one comes next.
    fn sign_piece(&mut self, mem: &Mem, text: &mut Vec<u8>)
        requires
            old(self).wf(),
        ensures
            final(self).wf(),
            final(self).same_input(*old(self)),
            sign_piece(
                old(self).subject@,
                Piece { text: old(text)@, s: old(self).scan(mem@) },
            ) == (Piece { text: final(text)@, s: final(self).scan(mem@) }),
    {
        if self.next_is(mem, '+' as u8) {
            self.grow(text, '+' as u8);
        } else if self.next_is(mem, '-' as u8) {
            self.grow(text, '-' as u8);
        }
    }

    /// Scans the text of a floating-point number.
    fn float_piece(&mut self, mem: &Mem) -> (text: Vec<u8>)
        requires
            old(self).wf(),
        ensures
            final(self).wf(),
            final(self).same_input(*old(self)),
            float_piece(old(self).subject@, old(self).scan(mem@)) == (Piece {
                text: text@,
                s: final(self).scan(mem@),
            }),
    {
        let mut text: Vec<u8> = Vec::new();
        proof {
            assert(text@ =~= seq![]);
        }
        self.sign_piece(mem, &mut text);
        self.digits_piece(mem, &mut text);
        if self.next_is(mem, '.' as u8) {
            self.grow(&mut text, '.' as u8);
            self.digits_piece(mem, &mut text);
        }
        if self.next_is(mem, 'e' as u8) {
            self.grow(&mut text, 'e' as u8);
            self.sign_piece(mem, &mut text);
            self.digits_piece(mem, &mut text);
        } else if self.next_is(mem, 'E' as u8) {
            self.grow(&mut text, 'E' as u8);
            self.sign_piece(mem, &mut text);
            self.digits_piece(mem, &mut text);
        }
        text
    }

    /// Stores an integer at the address that the next argument gives.
    fn assign(&mut self, mem: &mut Mem, d: ScanDirective, size: u32, bits: u64)
        requires
            old(self).wf(),
            size == 1 || size == 2 || size == 4 || size == 8,
            bits < int_range(size as int),
        ensures
            final(self).wf(),
            final(self).same_input(*old(self)),
            final(self).scan(final(mem)@) == assign(
                d,
                old(self).scan(old(mem)@),
                size as int,
                bits,
            ),
    {
        if !d.suppress {
            let p: u32 = self.args.next_u32(mem);
            if size == 1 {
                mem.write_u8(p, bits as u8);
            } else if size == 2 {
                mem.write_u16(p, bits as u16);
            } else if size == 4 {
                mem.write_u32(p, bits as u32);
            } else {
                mem.write_u64(p, bits);
            }
        }
    }

    /// Counts a conversion.
    fn count(&mut self, d: ScanDirective)
        requires
            old(self).wf(),
            2 * old(self).matched + 2 <= old(self).fidx,
        ensures
            final(self).wf(),
            final(self).same_input(*old(self)),
            *final(self) == (Scanner {
                matched: if d.suppress {
                    old(self).matched
                } else {
                    (old(self).matched + 1) as i32
                },
                ..*old(self)
            }),
            old(self).matched < i32::MAX,
    {
        if !d.suppress {
            self.matched = self.matched + 1;
        }
    }

    /// An integer conversion.
    fn scan_integer(&mut self, mem: &mut Mem, d: ScanDirective) -> (status: ScanStatus)
        requires
            old(self).wf(),
            2 * old(self).matched + 2 <= old(self).fidx,
        ensures
            final(self).wf(),
            final(self).same_input(*old(self)),
            (final(self).scan(final(mem)@), status@) == scan_integer(
                old(self).subject@,
                d,
                old(self).scan(old(mem)@),
            ),
    {
        let base: u64 = if d.specifier == 'i' as u8 {
            0
        } else if d.specifier == 'd' as u8 || d.specifier == 'u' as u8 {
            10
        } else {
            16
        };
        let ghost want = integer(
            self.subject@,
            self.scan(mem@),
            base as int,
            scan_limit(d),
        );
        proof {
            lemma_integer(self.subject@, self.scan(mem@), base as int, scan_limit(d));
        }
        let n: ScannedInteger = self.integer(mem, base, limit_of(d));
        if !n.found {
            return ScanStatus::Done;
        }
        let size: u32 = match d.length {
            Length::HalfHalf => 1,
            Length::Half => 2,
            Length::LongLong => 8,
            _ => 4,
        };
        let bits: u64 = bits_of(d, &n);
        proof {
            assert(bits == int_bits(d, want));
        }
        self.assign(mem, d, size, bits);
        self.count(d);
        ScanStatus::Go
    }

    /// The address that the next argument gives.
    fn destination(&mut self, mem: &Mem, d: ScanDirective) -> (dst: Option<u32>)
        requires
            old(self).wf(),
        ensures
            final(self).wf(),
            final(self).same_input(*old(self)),
            (dst, final(self).scan(mem@)) == destination(d, old(self).scan(mem@)),
    {
        if d.suppress {
            None
        } else {
            Some(self.args.next_u32(mem))
        }
    }
}

/// Stores `c` at `dst`, if there is such an address.
fn store_char(mem: &mut Mem, dst: Option<u32>, c: u8)
    ensures
        forall|s: Scan|
            #![trigger store(s, dst, c)]
            s.mem == old(mem)@ ==> store(s, dst, c) == (Scan { mem: final(mem)@, ..s }),
{
    if let Some(p) = dst {
        mem.write_u8(p, c);
    }
}

/// The address behind `dst`.
fn bump(dst: Option<u32>) -> (r: Option<u32>)
    ensures
        r == bumped(dst),
{
    match dst {
        Some(p) => Some(mem::offset(p, 1)),
        None => None,
    }
}

/// Adds the characters of a range to a scanset.
fn insert_range(members: &mut HashSet<u8>, a: u8, b: u8)
    ensures
        final(members)@ == old(members)@.union(char_range(a, b)),
{
    if a <= b {
        let mut c: u8 = a;
        members.insert(c);
        while c < b
            invariant
                a <= c <= b,
                members@ == old(members)@.union(char_range(a, c)),
            decreases b - c,
        {
            c += 1;
            members.insert(c);
            proof {
                assert(members@ =~= old(members)@.union(char_range(a, c)));
            }
        }
        proof {
            assert(members@ =~= old(members)@.union(char_range(a, b)));
        }
    } else {
        members.insert(a);
        members.insert('-' as u8);
        members.insert(b);
        proof {
            assert(members@ =~= old(members)@.union(char_range(a, b)));
        }
    }
}

impl Scanner {
    /// Parses a scanset.
    fn scanset(&mut self, mem: &Mem) -> (members: HashSet<u8>)
        requires
            old(self).wf(),
        ensures
            final(self).wf(),
            final(self).same_input(*old(self)),
            scanset(
                old(self).format@,
                mem@,
                old(self).fidx as int,
                true,
                Set::empty(),
            ) == (Scanset { members: members@, idx: final(self).fidx as int }),
            *final(self) == (Scanner { fidx: final(self).fidx, ..*old(self) }),
            final(self).fidx >= old(self).fidx,
    {
        let mut members: HashSet<u8> = HashSet::new();
        let mut first: bool = true;
        let ghost f = self.format@;
        let ghost want = scanset(f, mem@, self.fidx as int, true, Set::empty());
        proof {
            assert(members@ =~= Set::empty());
        }
        loop
            invariant_except_break
                scanset(f, mem@, self.fidx as int, first, members@) == want,
            invariant
                self.wf(),
                f == self.format@,
                *self == (Scanner { fidx: self.fidx, ..*old(self) }),
                self.fidx >= old(self).fidx,
            ensures
                self.wf(),
                *self == (Scanner { fidx: self.fidx, ..*old(self) }),
                self.fidx >= old(self).fidx,
                want == (Scanset { members: members@, idx: self.fidx as int }),
            decreases f.limit() - self.fidx,
        {
            let c: u8 = self.format.at(mem, self.fidx);
            // A closing bracket that comes first is a member of the set.
            if c == ']' as u8 && !first {
                self.fidx = self.fidx + 1;
                break;
            }
            if c == 0 {
                break;
            }
            first = false;
            proof {
                lemma_covers_three(f, mem@, self.fidx as int);
            }
            let next: u8 = self.format.at(mem, self.fidx + 1);
            if next == '-' as u8 {
                let end: u8 = self.format.at(mem, self.fidx + 2);
                if end != ']' as u8 && end != 0 {
                    insert_range(&mut members, c, end);
                    self.fidx = self.fidx + 3;
                    continue;
                }
            }
            members.insert(c);
            self.fidx = self.fidx + 1;
        }
        members
    }

    /// Copies the characters that a scanset takes.
    fn copy_scanset(
        &mut self,
        mem: &mut Mem,
        dst: Option<u32>,
        members: &HashSet<u8>,
        inverted: bool,
        limit: u32,
    ) -> (r: (bool, Option<u32>))
        requires
            old(self).wf(),
        ensures
            final(self).wf(),
            final(self).same_input(*old(self)),
            ({
                let want = copy_scanset(
                    old(self).subject@,
                    Copied { count: 0, s: old(self).scan(old(mem)@), dst },
                    members@,
                    inverted,
                    limit as nat,
                );
                &&& want.s == final(self).scan(final(mem)@)
                &&& want.dst == r.1
                &&& r.0 == (want.count > 0)
            }),
    {
        let ghost sub = self.subject@;
        let ghost mut at = Copied { count: 0, s: self.scan(mem@), dst };
        let ghost want = copy_scanset(sub, at, members@, inverted, limit as nat);
        let mut left: u32 = limit;
        let mut dst: Option<u32> = dst;
        let mut matched: bool = false;
        loop
            invariant
                self.wf(),
                self.same_input(*old(self)),
                sub == self.subject@,
                at.s == self.scan(mem@),
                at.dst == dst,
                at.count >= 0,
                matched == (at.count > 0),
                copy_scanset(sub, at, members@, inverted, left as nat) == want,
            ensures
                self.wf(),
                self.same_input(*old(self)),
                want == at,
                at.s == self.scan(mem@),
                at.dst == dst,
                matched == (at.count > 0),
            decreases left,
        {
            if left == 0 {
                break;
            }
            match self.get(mem) {
                None => {
                    break;
                },
                Some(c) => {
                    if c == 0 || members.contains(&c) == inverted {
                        break;
                    }
                    let ghost before = self.scan(mem@);
                    self.advance();
                    store_char(mem, dst, c);
                    proof {
                        at = Copied {
                            count: at.count + 1,
                            s: store(sub.advanced(before), dst, c),
                            dst: bumped(dst),
                        };
                    }
                    dst = bump(dst);
                    matched = true;
                    left = left - 1;
                },
            }
        }
        (matched, dst)
    }

    /// Copies the characters up to white space.
    fn copy_word(&mut self, mem: &mut Mem, dst: Option<u32>, limit: u32) -> (r: Option<u32>)
        requires
            old(self).wf(),
        ensures
            final(self).wf(),
            final(self).same_input(*old(self)),
            ({
                let want = copy_word(
                    old(self).subject@,
                    Copied { count: 0, s: old(self).scan(old(mem)@), dst },
                    limit as nat,
                );
                &&& want.s == final(self).scan(final(mem)@)
                &&& want.dst == r
            }),
    {
        let ghost sub = self.subject@;
        let ghost mut at = Copied { count: 0, s: self.scan(mem@), dst };
        let ghost want = copy_word(sub, at, limit as nat);
        let mut left: u32 = limit;
        let mut dst: Option<u32> = dst;
        loop
            invariant_except_break
                at.s == self.scan(mem@),
                at.dst == dst,
                copy_word(sub, at, left as nat) == want,
            invariant
                self.wf(),
                self.same_input(*old(self)),
                sub == self.subject@,
            ensures
                self.wf(),
                self.same_input(*old(self)),
                want.s == self.scan(mem@),
                want.dst == dst,
            decreases left,
        {
            if left == 0 {
                break;
            }
            match self.get(mem) {
                None => {
                    break;
                },
                Some(c) => {
                    if isspace_inner(c) {
                        break;
                    }
                    if c == 0 {
                        self.take();
                        break;
                    }
                    let ghost before = self.scan(mem@);
                    self.advance();
                    store_char(mem, dst, c);
                    proof {
                        at = Copied {
                            count: at.count + 1,
                            s: store(sub.advanced(before), dst, c),
                            dst: bumped(dst),
                        };
                    }
                    dst = bump(dst);
                    left = left - 1;
                },
            }
        }
        dst
    }

    /// A `%[` conversion.
    fn scan_set(&mut self, mem: &mut Mem, d: ScanDirective) -> (status: ScanStatus)
        requires
            old(self).wf(),
            2 * old(self).matched + 2 <= old(self).fidx,
        ensures
            final(self).wf(),
            final(self).same_input(*old(self)),
            (final(self).scan(final(mem)@), status@) == scan_set(
                old(self).subject@,
                old(self).format@,
                d,
                old(self).scan(old(mem)@),
            ),
    {
        let inverted: bool = self.format.at(mem, self.fidx) == '^' as u8;
        if inverted {
            self.fidx = self.fidx + 1;
        }
        let members: HashSet<u8> = self.scanset(mem);
        let dst: Option<u32> = self.destination(mem, d);
        proof {
            lemma_copy_scanset(
                self.subject@,
                Copied { count: 0, s: self.scan(mem@), dst },
                members@,
                inverted,
                scan_limit(d),
            );
        }
        let (matched, dst) = self.copy_scanset(mem, dst, &members, inverted, limit_of(d));
        if matched {
            store_char(mem, dst, 0);
            self.count(d);
        }
        ScanStatus::Go
    }

    /// A `%s` conversion.
    fn scan_word(&mut self, mem: &mut Mem, d: ScanDirective) -> (status: ScanStatus)
        requires
            old(self).wf(),
            2 * old(self).matched + 2 <= old(self).fidx,
        ensures
            final(self).wf(),
            final(self).same_input(*old(self)),
            (final(self).scan(final(mem)@), status@) == scan_word(
                old(self).subject@,
                d,
                old(self).scan(old(mem)@),
            ),
    {
        let dst: Option<u32> = self.destination(mem, d);
        proof {
            lemma_copy_word(
                self.subject@,
                Copied { count: 0, s: self.scan(mem@), dst },
                scan_limit(d),
            );
        }
        let dst: Option<u32> = self.copy_word(mem, dst, limit_of(d));
        store_char(mem, dst, 0);
        self.count(d);
        ScanStatus::Go
    }

    /// A conversion that skips white space before it.
    fn scan_after_spaces(&mut self, mem: &mut Mem, d: ScanDirective) -> (status: ScanStatus)
        requires
            old(self).wf(),
            2 * old(self).matched + 2 <= old(self).fidx,
            old(self).subject@.get(old(self).scan(old(mem)@)) is Some,
        ensures
            final(self).wf(),
            final(self).same_input(*old(self)),
            (final(self).scan(final(mem)@), status@) == scan_after_spaces(
                old(self).subject@,
                d,
                old(self).scan(old(mem)@),
            ),
    {
        let c: u8 = d.specifier;
        if c == 'd' as u8 || c == 'i' as u8 {
            self.scan_integer(mem, d)
        } else if c == 'x' as u8 || c == 'X' as u8 || c == 'u' as u8 {
            if d.length == Length::Half {
                self.count(d);
                ScanStatus::Go
            } else {
                self.scan_integer(mem, d)
            }
        } else if c == 'p' as u8 {
            self.scan_integer(mem, ScanDirective { length: Length::Plain, ..d })
        } else if c == 'f' as u8 || c == 'g' as u8 {
            let text: Vec<u8> = self.float_piece(mem);
            if d.length == Length::Plain || d.length == Length::Long {
                ScanStatus::Waiting { directive: d, text }
            } else {
                ScanStatus::Done
            }
        } else if c == '%' as u8 {
            if self.next_is(mem, '%' as u8) {
                self.advance();
                ScanStatus::Go
            } else {
                self.take();
                ScanStatus::Done
            }
        } else if c == 's' as u8 {
            self.scan_word(mem, d)
        } else {
            ScanStatus::Done
        }
    }

    /// Carries out the conversion `d`.
    fn scan_convert(&mut self, mem: &mut Mem, d: ScanDirective) -> (status: ScanStatus)
        requires
            old(self).wf(),
            2 * old(self).matched + 2 <= old(self).fidx,
        ensures
            final(self).wf(),
            final(self).same_input(*old(self)),
            (final(self).scan(final(mem)@), status@) == scan_convert(
                old(self).subject@,
                old(self).format@,
                d,
                old(self).scan(old(mem)@),
            ),
    {
        let c: u8 = d.specifier;
        if c == '[' as u8 {
            self.scan_set(mem, d)
        } else if c == 'c' as u8 {
            match self.get(mem) {
                Some(cc) => {
                    self.advance();
                    self.assign(mem, d, 1, cc as u64);
                    self.count(d);
                    ScanStatus::Go
                },
                None => ScanStatus::Done,
            }
        } else if c == 'n' as u8 {
            self.assign(mem, d, 4, self.idx as u64);
            ScanStatus::Go
        } else {
            proof {
                lemma_skip_spaces(self.subject@, self.scan(mem@));
            }
            self.skip_spaces(mem);
            if self.get(mem).is_none() {
                ScanStatus::Done
            } else {
                self.scan_after_spaces(mem, d)
            }
        }
    }

    /// Parses the conversion specification at the next character of the
    /// format string. Returns it with the index of its specifier.
    fn parse(&self, mem: &Mem) -> (r: Option<(ScanDirective, u32)>)
        requires
            self.wf(),
        ensures
            match r {
                Some((d, i)) => parse_scan(self.format@, mem@, self.fidx as int) == Some(
                    (d, i + 1),
                ) && self.fidx <= i && self.format@.covers(i as int),
                None => parse_scan(self.format@, mem@, self.fidx as int) is None,
            },
    {
        proof {
            lemma_parse_scan(self.format@, mem@, self.fidx as int);
        }
        let suppress: bool = self.format.at(mem, self.fidx) == '*' as u8;
        let i1: u32 = if suppress {
            self.fidx + 1
        } else {
            self.fidx
        };
        proof {
            directive::lemma_number_grows(self.format@, mem@, i1 as int, 0);
        }
        let (width, i2) = directive::number(&self.format, mem, i1, 0xFFFF_FFFF);
        let c: u8 = self.format.at(mem, i2);
        let (length, i3) = if c == 'h' as u8 || c == 'l' as u8 || c == 'q' as u8 {
            directive::length(&self.format, mem, i2)
        } else {
            (Length::Plain, i2)
        };
        let specifier: u8 = self.format.at(mem, i3);
        match width {
            Some(width) => Some(
                (ScanDirective { suppress, width: width as u32, length, specifier }, i3),
            ),
            None => None,
        }
    }

    /// Handles the next character or conversion.
    fn step(&mut self, mem: &mut Mem) -> (status: ScanStatus)
        requires
            old(self).wf(),
        ensures
            final(self).same_input(*old(self)),
            ({
                let next = scan_step(
                    old(self).subject@,
                    old(self).format@,
                    old(self).scan(old(mem)@),
                );
                &&& status@ == next.1
                &&& final(self).scan(final(mem)@) == next.0
                &&& advances(old(self).format@, old(self).scan(old(mem)@), next)
            }),
            final(self).wf(),
            status is Waiting ==> 2 * final(self).matched + 2 <= final(self).fidx,
    {
        proof {
            lemma_scan_step(self.subject@, self.format@, self.scan(mem@));
            directive::lemma_more(self.format@, mem@, self.fidx as int);
        }
        let c: u8 = self.format.at(mem, self.fidx);
        if c == 0 {
            return ScanStatus::Done;
        }
        if c != '%' as u8 {
            let cc: Option<u8> = self.get(mem);
            self.fidx = self.fidx + 1;
            return match cc {
                None => ScanStatus::Done,
                Some(cc) => if isspace_inner(c) {
                    self.skip_spaces(mem);
                    ScanStatus::Go
                } else if c == cc {
                    self.advance();
                    ScanStatus::Go
                } else {
                    self.take();
                    ScanStatus::Done
                },
            };
        }
        let ghost start = *self;
        self.fidx = self.fidx + 1;
        match self.parse(mem) {
            None => {
                self.fidx = self.fidx - 1;
                ScanStatus::Unsupported
            },
            Some((d, i)) => {
                proof {
                    lemma_parse_scan(self.format@, mem@, self.fidx as int);
                }
                if d.specifier == 0 {
                    self.fidx = i;
                    self.skip_spaces(mem);
                    ScanStatus::Done
                } else {
                    self.fidx = i + 1;
                    self.scan_convert(mem, d)
                }
            },
        }
    }

    /// Scans until the format string or the subject ends or the host has to
    /// step in.
    fn run(&mut self, mem: &mut Mem) -> (status: ScanStatus)
        requires
            old(self).wf(),
        ensures
            final(self).same_input(*old(self)),
            (final(self).scan(final(mem)@), status@) == scan_run(
                old(self).subject@,
                old(self).format@,
                old(self).scan(old(mem)@),
            ),
            !(status is Go),
            final(self).wf(),
            status is Waiting ==> 2 * final(self).matched + 2 <= final(self).fidx,
    {
        let ghost sub = self.subject@;
        let ghost f = self.format@;
        let ghost want = scan_run(sub, f, self.scan(mem@));
        loop
            invariant
                self.wf(),
                self.same_input(*old(self)),
                sub == self.subject@,
                f == self.format@,
                sub == old(self).subject@,
                f == old(self).format@,
                want == scan_run(sub, f, old(self).scan(old(mem)@)),
                scan_run(sub, f, self.scan(mem@)) == want,
            decreases f.limit() - self.fidx,
        {
            let status: ScanStatus = self.step(mem);
            match status {
                ScanStatus::Go => {},
                _ => {
                    return status;
                },
            }
        }
    }
}

/// Where scanning stands.
#[verifier::ext_equal]
pub struct Place {
    pub idx: u32,
    pub pos: int,
    pub fidx: int,
    pub va: u32,
    pub matched: int,
}

impl Scan {
    pub open spec fn place(self) -> Place {
        Place {
            idx: self.idx,
            pos: self.pos,
            fidx: self.fidx,
            va: self.va,
            matched: self.matched,
        }
    }
}

impl Place {
    /// The state of scanning, with the memory `m`.
    pub open spec fn scan(self, m: MemState) -> Scan {
        Scan {
            mem: m,
            idx: self.idx,
            pos: self.pos,
            fidx: self.fidx,
            va: self.va,
            matched: self.matched,
        }
    }
}

/// What has come of a call of the `scanf` family.
pub enum ScanOutcome {
    /// It has returned this value, and has taken this many bytes of the file.
    Returned { value: i32, taken: usize },
    /// The host has to turn text into a number first.
    Waiting { job: ScanJob },
    /// It asks for something that is not supported.
    Unsupported,
}

/// A call of the `scanf` family that waits for the host.
pub struct ScanJob {
    pub scanner: Scanner,
    pub directive: ScanDirective,
    pub text: Vec<u8>,
}

/// The model of a [ScanJob].
#[verifier::ext_equal]
pub struct ScanJobView {
    pub subject: SubjectView,
    pub format: FormatView,
    pub place: Place,
    pub directive: ScanDirective,
    pub text: Seq<u8>,
}

/// The model of a [ScanOutcome].
pub enum ScanOutcomeView {
    Returned { value: i32, taken: int },
    Waiting { job: ScanJobView },
    Unsupported,
}

impl View for ScanJob {
    type V = ScanJobView;

    open spec fn view(&self) -> ScanJobView {
        ScanJobView {
            subject: self.scanner.subject@,
            format: self.scanner.format@,
            place: Place {
                idx: self.scanner.idx,
                pos: self.scanner.pos as int,
                fidx: self.scanner.fidx as int,
                va: self.scanner.args.pos,
                matched: self.scanner.matched as int,
            },
            directive: self.directive,
            text: self.text@,
        }
    }
}

impl ScanJob {
    pub open spec fn wf(&self) -> bool {
        self.scanner.wf() && 2 * self.scanner.matched + 2 <= self.scanner.fidx
    }
}

impl View for ScanOutcome {
    type V = ScanOutcomeView;

    open spec fn view(&self) -> ScanOutcomeView {
        match *self {
            ScanOutcome::Returned { value, taken } => ScanOutcomeView::Returned {
                value,
                taken: taken as int,
            },
            ScanOutcome::Waiting { job } => ScanOutcomeView::Waiting { job: job@ },
            ScanOutcome::Unsupported => ScanOutcomeView::Unsupported,
        }
    }
}

impl ScanOutcome {
    pub open spec fn wf(&self) -> bool {
        self matches ScanOutcome::Waiting { job } ==> job.wf()
    }
}

/// What comes of a call once scanning has got as far as `next`.
pub open spec fn settle_scan(
    env: EnvState,
    subject: SubjectView,
    format: FormatView,
    next: (Scan, ScanFlow),
) -> (EnvState, ScanOutcomeView) {
    (
        EnvState { mem: next.0.mem, ..env },
        match next.1 {
            ScanFlow::Done => ScanOutcomeView::Returned {
                value: next.0.matched as i32,
                taken: next.0.pos,
            },
            ScanFlow::Waiting { directive, text } => ScanOutcomeView::Waiting {
                job: ScanJobView { subject, format, place: next.0.place(), directive, text },
            },
            _ => ScanOutcomeView::Unsupported,
        },
    )
}

/// What comes of scanning `subject` by `format` from their starts.
pub open spec fn begin_scan(env: EnvState, subject: SubjectView, format: FormatView, va: u32) -> (
    EnvState,
    ScanOutcomeView,
) {
    let s = Scan { mem: env.mem, idx: 0, pos: 0, fidx: 0, va, matched: 0 };
    settle_scan(env, subject, format, scan_run(subject, format, s))
}

/// What comes of scanning after the host has turned the text into a number.
pub open spec fn resume_scan(env: EnvState, job: ScanJobView, reply: ParsedFloat) -> (
    EnvState,
    ScanOutcomeView,
) {
    let next = scan_answer(job.directive, reply, job.place.scan(env.mem));
    settle_scan(
        env,
        job.subject,
        job.format,
        if next.1 is Go {
            scan_run(job.subject, job.format, next.0)
        } else {
            next
        },
    )
}

/// What comes of a call whose scanning has got this far.
fn settle_scan_call(env: &Environment, scanner: Scanner, status: ScanStatus) -> (r: ScanOutcome)
    requires
        scanner.wf(),
        !(status is Go),
        status is Waiting ==> 2 * scanner.matched + 2 <= scanner.fidx,
    ensures
        r.wf(),
        (env@, r@) == settle_scan(
            env@,
            scanner.subject@,
            scanner.format@,
            (scanner.scan(env@.mem), status@),
        ),
{
    match status {
        ScanStatus::Done => ScanOutcome::Returned { value: scanner.matched, taken: scanner.pos },
        ScanStatus::Waiting { directive, text } => ScanOutcome::Waiting {
            job: ScanJob { scanner, directive, text },
        },
        _ => ScanOutcome::Unsupported,
    }
}

/// Formatted scan implementation for `sscanf` family.
///
/// `args` is the list of arguments to store produced outputs.
pub fn sscanf_common_generic(
    env: &mut Environment,
    subject: Subject,
    format: Format,
    args: VaList,
) -> (r: ScanOutcome)
    requires
        format@.limit() <= u32::MAX,
    ensures
        (final(env)@, r@) == begin_scan(old(env)@, subject@, format@, args.pos),
        r.wf(),
{
    let mut scanner: Scanner = Scanner { subject, format, idx: 0, pos: 0, fidx: 0, args, matched: 0 };
    let status: ScanStatus = scanner.run(&mut env.mem);
    settle_scan_call(env, scanner, status)
}

impl ScanJob {
    /// Goes on with the number that the host has made of the text.
    pub fn resume(self, env: &mut Environment, reply: ParsedFloat) -> (r: ScanOutcome)
        requires
            self.wf(),
        ensures
            (final(env)@, r@) == resume_scan(old(env)@, self@, reply),
            r.wf(),
    {
        let d: ScanDirective = self.directive;
        let mut scanner: Scanner = self.scanner;
        proof {
            assert(self@.place.scan(env@.mem) == scanner.scan(env@.mem));
        }
        match reply {
            ParsedFloat::Number { double, single } => {
                if d.length == Length::Long {
                    scanner.assign(&mut env.mem, d, 8, double);
                } else {
                    scanner.assign(&mut env.mem, d, 4, single as u64);
                }
                scanner.count(d);
                let status: ScanStatus = scanner.run(&mut env.mem);
                settle_scan_call(env, scanner, status)
            },
            ParsedFloat::Invalid => settle_scan_call(env, scanner, ScanStatus::Done),
        }
    }
}

/// A simple wrapper around [sscanf_common_generic] for the case of C string.
pub fn sscanf_common(env: &mut Environment, src: u32, format: u32, args: VaList) -> (r: ScanOutcome)
    ensures
        (final(env)@, r@) == begin_scan(
            old(env)@,
            SubjectView::CString { ptr: src },
            FormatView::Guest { ptr: format },
            args.pos,
        ),
        r.wf(),
{
    sscanf_common_generic(env, Subject::CString { ptr: src }, Format::Guest { ptr: format }, args)
}

/// Scans the string at `src`.
pub fn sscanf(env: &mut Environment, src: u32, format: u32, args: DotDotDot) -> (r: ScanOutcome)
    requires
        old(env)@.errno_ready(),
    ensures
        (final(env)@, r@) == begin_scan(
            old(env)@.errno_set(0),
            SubjectView::CString { ptr: src },
            FormatView::Guest { ptr: format },
            args.pos,
        ),
        r.wf(),
{
    errno::set_errno(env, 0);
    sscanf_common(env, src, format, args.start())
}

/// Scans the string at `src`.
pub fn vsscanf(env: &mut Environment, src: u32, format: u32, arg: VaList) -> (r: ScanOutcome)
    requires
        old(env)@.errno_ready(),
    ensures
        (final(env)@, r@) == begin_scan(
            old(env)@.errno_set(0),
            SubjectView::CString { ptr: src },
            FormatView::Guest { ptr: format },
            arg.pos,
        ),
        r.wf(),
{
    errno::set_errno(env, 0);
    sscanf_common(env, src, format, arg)
}

/// Scans the wide string at `ws`. Only the `C` locale is supported.
pub fn swscanf(env: &mut Environment, ws: u32, format: u32, args: DotDotDot) -> (r: ScanOutcome)
    requires
        old(env)@.errno_ready(),
    ensures
        ({
            let e = old(env)@.errno_set(0);
            let subject = e.mem.wcstr(ws);
            let format = e.mem.wcstr(format);
            (final(env)@, r@) == (if e.mem.peek(e.ctype_locale) != 'C' as u8 || !text::all_chars(
                subject,
            ) || !text::all_chars(format) {
                (e, ScanOutcomeView::Unsupported)
            } else {
                begin_scan(
                    e,
                    SubjectView::Text { bytes: text::wide_text(subject) },
                    FormatView::Bytes { bytes: text::wide_text(format) },
                    args.pos,
                )
            })
        }),
        r.wf(),
{
    errno::set_errno(env, 0);
    if env.mem.read_u8(env.libc_state.ctype_locale) != 'C' as u8 {
        return ScanOutcome::Unsupported;
    }
    let w_string: Option<Vec<u8>> = text::wide_to_text(&env.mem.wcstr_at(ws));
    let w_format: Option<Vec<u8>> = text::wide_to_text(&env.mem.wcstr_at(format));
    match (w_string, w_format) {
        (Some(subject), Some(bytes)) => {
            proof {
                mem::lemma_wcstr_len(env@.mem, format);
                text::lemma_wide_text_len(env@.mem.wcstr(format));
            }
            sscanf_common_generic(
                env,
                Subject::Text { bytes: subject },
                Format::Bytes { bytes },
                args.start(),
            )
        },
        _ => ScanOutcome::Unsupported,
    }
}

/// Scans a file, of which `contents` is what lies ahead.
pub fn fscanf(env: &mut Environment, contents: Vec<u8>, format: u32, args: DotDotDot) -> (r:
    ScanOutcome)
    requires
        old(env)@.errno_ready(),
    ensures
        (final(env)@, r@) == (if contents@.len() == 0 {
            (old(env)@.errno_set(0), ScanOutcomeView::Returned { value: EOF, taken: 0 })
        } else {
            begin_scan(
                old(env)@.errno_set(0),
                SubjectView::File { bytes: contents@ },
                FormatView::Guest { ptr: format },
                args.pos,
            )
        }),
        r.wf(),
{
    errno::set_errno(env, 0);
    if contents.len() == 0 {
        return ScanOutcome::Returned { value: EOF, taken: 0 };
    }
    sscanf_common_generic(
        env,
        Subject::File { bytes: contents },
        Format::Guest { ptr: format },
        args.start(),
    )
}

} // verus!
