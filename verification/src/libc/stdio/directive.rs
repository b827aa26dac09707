//! Format strings and the conversion specifications in them.
use crate::abi;
use crate::abi::VaList;
use crate::mem;
use crate::mem::{Mem, MemState};
use vstd::prelude::*;

verus! {

/// Where a format string is read from.
pub enum Format {
    /// A C string in guest memory.
    Guest { ptr: u32 },
    /// Bytes on the host.
    Bytes { bytes: Vec<u8> },
}

/// The model of a [Format].
pub enum FormatView {
    Guest { ptr: u32 },
    Bytes { bytes: Seq<u8> },
}

impl View for Format {
    type V = FormatView;

    open spec fn view(&self) -> FormatView {
        match *self {
            Format::Guest { ptr } => FormatView::Guest { ptr },
            Format::Bytes { bytes } => FormatView::Bytes { bytes: bytes@ },
        }
    }
}

impl FormatView {
    /// The byte at the given index, or NUL if the index is past the last byte.
    pub open spec fn at(self, m: MemState, i: int) -> u8 {
        match self {
            FormatView::Guest { ptr } => m.peek(mem::wrap(ptr + i)),
            FormatView::Bytes { bytes } => if 0 <= i < bytes.len() {
                bytes[i]
            } else {
                0
            },
        }
    }

    /// An index that the string does not go beyond.
    pub open spec fn limit(self) -> int {
        match self {
            FormatView::Guest { ptr } => mem::bytes_to_end(ptr) as int,
            FormatView::Bytes { bytes } => bytes.len() as int,
        }
    }

    /// Whether `i` is the index of a byte of the string or of its end.
    pub open spec fn covers(self, i: int) -> bool {
        0 <= i <= self.limit()
    }
}

/// The string goes on behind every byte that is not NUL.
pub proof fn lemma_more(f: FormatView, m: MemState, i: int)
    requires
        f.covers(i),
    ensures
        f.at(m, i) != 0 ==> i < f.limit(),
{
}

impl Format {
    pub fn at(&self, mem: &Mem, i: u32) -> (c: u8)
        requires
            self@.covers(i as int),
        ensures
            c == self@.at(mem@, i as int),
            c != 0 ==> i < self@.limit(),
    {
        proof {
            lemma_more(self@, mem@, i as int);
        }
        match self {
            Format::Guest { ptr } => mem.read_u8(mem::offset(*ptr, i)),
            Format::Bytes { bytes } => if (i as usize) < bytes.len() {
                bytes[i as usize]
            } else {
                0
            },
        }
    }
}

/// The length modifier of a conversion. `q` and `j` count as `ll`, `z` and `t`
/// as `l`.
#[derive(Clone, Copy, PartialEq, Eq, Structural, Debug)]
pub enum Length {
    Plain,
    HalfHalf,
    Half,
    Long,
    LongLong,
    LongDouble,
}

/// A conversion specification: what stands between `%` and the specifier, and
/// the specifier itself.
#[derive(Clone, Copy, PartialEq, Eq, Structural, Debug)]
pub struct Directive {
    /// `+`
    pub plus: bool,
    /// `#`
    pub alternative: bool,
    /// `0`
    pub zero: bool,
    /// `-`
    pub left: bool,
    pub width: u32,
    pub precision: Option<u64>,
    pub length: Length,
    pub specifier: u8,
}

pub open spec fn is_digit(c: u8) -> bool {
    '0' as u8 <= c <= '9' as u8
}

/// The index behind the decimal number at index `i`.
pub open spec fn number_end(f: FormatView, m: MemState, i: int) -> int
    decreases f.limit() - i,
{
    if i < f.limit() && is_digit(f.at(m, i)) {
        number_end(f, m, i + 1)
    } else {
        i
    }
}

/// The value of the decimal number at index `i`, whose digits so far had the
/// value `acc`.
pub open spec fn number_value(f: FormatView, m: MemState, i: int, acc: int) -> int
    decreases f.limit() - i,
{
    if i < f.limit() && is_digit(f.at(m, i)) {
        number_value(f, m, i + 1, acc * 10 + (f.at(m, i) - '0' as u8))
    } else {
        acc
    }
}

/// The index behind the character `c`, if that is what stands at index `i`.
pub open spec fn skip_char(f: FormatView, m: MemState, i: int, c: u8) -> int {
    if f.at(m, i) == c {
        i + 1
    } else {
        i
    }
}

/// A number in a conversion specification, or the argument for which a `*`
/// stands there. With it the index behind it and the next argument's address.
pub struct Field {
    pub value: int,
    pub idx: int,
    pub va: u32,
}

pub open spec fn field(f: FormatView, m: MemState, i: int, va: u32) -> Field {
    if f.at(m, i) == '*' as u8 {
        Field {
            value: abi::signed(m.peek_u32(va) as int, 0x1_0000_0000),
            idx: i + 1,
            va: mem::wrap(va + 4),
        }
    } else {
        Field { value: number_value(f, m, i, 0), idx: number_end(f, m, i), va }
    }
}

/// The length modifier at index `i`, and the index behind it.
pub open spec fn length_at(f: FormatView, m: MemState, i: int) -> (Length, int) {
    let c = f.at(m, i);
    if c == 'h' as u8 {
        if f.at(m, i + 1) == 'h' as u8 {
            (Length::HalfHalf, i + 2)
        } else {
            (Length::Half, i + 1)
        }
    } else if c == 'l' as u8 {
        if f.at(m, i + 1) == 'l' as u8 {
            (Length::LongLong, i + 2)
        } else {
            (Length::Long, i + 1)
        }
    } else if c == 'q' as u8 || c == 'j' as u8 {
        (Length::LongLong, i + 1)
    } else if c == 'z' as u8 || c == 't' as u8 {
        (Length::Long, i + 1)
    } else if c == 'L' as u8 {
        (Length::LongDouble, i + 1)
    } else {
        (Length::Plain, i)
    }
}

/// A conversion specification, the index of its specifier and the next
/// argument's address.
pub struct Parsed {
    pub directive: Directive,
    pub idx: int,
    pub va: u32,
}

/// The conversion specification that starts at index `i`, just behind the
/// `%`. [None] if its width or its precision is negative or does not fit.
pub open spec fn parse(f: FormatView, m: MemState, i: int, va: u32) -> Option<Parsed> {
    let i1 = skip_char(f, m, i, '+' as u8);
    let i2 = skip_char(f, m, i1, '#' as u8);
    let i3 = skip_char(f, m, i2, '0' as u8);
    let i4 = skip_char(f, m, i3, '-' as u8);
    let width = field(f, m, i4, va);
    let dot = f.at(m, width.idx) == '.' as u8;
    let precision = if dot {
        field(f, m, width.idx + 1, width.va)
    } else {
        width
    };
    let (length, i5) = length_at(f, m, precision.idx);
    if !(0 <= width.value <= i32::MAX) || (dot && !(0 <= precision.value <= u64::MAX)) {
        None
    } else {
        Some(
            Parsed {
                directive: Directive {
                    plus: i1 != i,
                    alternative: i2 != i1,
                    zero: i3 != i2,
                    left: i4 != i3,
                    width: width.value as u32,
                    precision: if dot {
                        Some(precision.value as u64)
                    } else {
                        None
                    },
                    length,
                    specifier: f.at(m, i5),
                },
                idx: i5,
                va: precision.va,
            },
        )
    }
}

/// The index behind a number or a `*` at index `i`.
pub open spec fn field_end(f: FormatView, m: MemState, i: int) -> int {
    if f.at(m, i) == '*' as u8 {
        i + 1
    } else {
        number_end(f, m, i)
    }
}

/// The index of the specifier of the conversion specification that starts at index
/// `i`, just behind the `%`.
pub open spec fn specifier_index(f: FormatView, m: MemState, i: int) -> int {
    let i1 = skip_char(f, m, i, '+' as u8);
    let i2 = skip_char(f, m, i1, '#' as u8);
    let i3 = skip_char(f, m, i2, '0' as u8);
    let i4 = skip_char(f, m, i3, '-' as u8);
    let width = field_end(f, m, i4);
    let precision = if f.at(m, width) == '.' as u8 {
        field_end(f, m, width + 1)
    } else {
        width
    };
    length_at(f, m, precision).1
}

/// `d i o u x X D U O`
pub open spec fn is_integer_specifier(c: u8) -> bool {
    c == 'd' as u8 || c == 'i' as u8 || c == 'o' as u8 || c == 'u' as u8 || c == 'x' as u8 || c == 'X' as u8 || c == 'D' as u8 || c == 'U' as u8 || c
        == 'O' as u8
}

/// `f F e E g G a A`
pub open spec fn is_float_specifier(c: u8) -> bool {
    c == 'f' as u8 || c == 'F' as u8 || c == 'e' as u8 || c == 'E' as u8 || c == 'g' as u8 || c == 'G' as u8 || c == 'a' as u8 || c == 'A' as u8
}

/// The integer and float specifiers, and `c s p n C S % @ [`.
pub open spec fn is_specifier(c: u8) -> bool {
    is_integer_specifier(c) || is_float_specifier(c) || c == 'c' as u8 || c == 's' as u8 || c == 'p' as u8 || c == 'n' as u8
        || c == 'C' as u8 || c == 'S' as u8 || c == '%' as u8 || c == '@' as u8 || c == '[' as u8
}

/// The index `i`, or the one behind it if `c` stands there.
fn skip(format: &Format, mem: &Mem, i: u32, c: u8) -> (r: u32)
    requires
        c != 0,
        format@.covers(i as int),
        format@.limit() <= u32::MAX,
    ensures
        r == skip_char(format@, mem@, i as int, c),
        format@.covers(r as int),
{
    if format.at(mem, i) == c {
        i + 1
    } else {
        i
    }
}

/// A number only grows with its digits.
pub proof fn lemma_number_grows(f: FormatView, m: MemState, i: int, acc: int)
    requires
        0 <= acc,
    ensures
        number_value(f, m, i, acc) >= acc,
        i <= number_end(f, m, i),
        i <= f.limit() ==> number_end(f, m, i) <= f.limit(),
    decreases f.limit() - i,
{
    if i < f.limit() && is_digit(f.at(m, i)) {
        lemma_number_grows(f, m, i + 1, acc * 10 + (f.at(m, i) - '0' as u8));
    }
}

/// A conversion specification does not go beyond the string, and its
/// specifier is no further than the string's end.
pub proof fn lemma_parse_advances(f: FormatView, m: MemState, i: int, va: u32)
    requires
        f.covers(i),
    ensures
        parse(f, m, i, va) is Some ==> i <= parse(f, m, i, va).unwrap().idx && f.covers(
            parse(f, m, i, va).unwrap().idx,
        ),
        parse(f, m, i, va) is Some ==> parse(f, m, i, va).unwrap().directive.specifier != 0
            ==> parse(f, m, i, va).unwrap().idx < f.limit(),
{
    let i1 = skip_char(f, m, i, '+' as u8);
    let i2 = skip_char(f, m, i1, '#' as u8);
    let i3 = skip_char(f, m, i2, '0' as u8);
    let i4 = skip_char(f, m, i3, '-' as u8);
    lemma_more(f, m, i);
    lemma_more(f, m, i1);
    lemma_more(f, m, i2);
    lemma_more(f, m, i3);
    lemma_more(f, m, i4);
    lemma_number_grows(f, m, i4, 0);
    let width = field(f, m, i4, va);
    lemma_more(f, m, width.idx);
    let mut end = width.idx;
    if f.at(m, width.idx) == '.' as u8 {
        lemma_number_grows(f, m, width.idx + 1, 0);
        lemma_more(f, m, width.idx + 1);
        end = field(f, m, width.idx + 1, width.va).idx;
    }
    lemma_more(f, m, end);
    if f.at(m, end) != 0 {
        lemma_more(f, m, end + 1);
    }
    lemma_more(f, m, length_at(f, m, end).1);
}

/// Reads the number at index `i` and returns it with the index behind it.
/// The number is [None] if it is over `max`.
pub fn number(format: &Format, mem: &Mem, i: u32, max: u64) -> (r: (Option<u64>, u32))
    requires
        format@.covers(i as int),
        format@.limit() <= u32::MAX,
    ensures
        r.0 == (if number_value(format@, mem@, i as int, 0) <= max {
            Some(number_value(format@, mem@, i as int, 0) as u64)
        } else {
            None
        }),
        r.1 == number_end(format@, mem@, i as int),
        format@.covers(r.1 as int),
{
    let mut j: u32 = i;
    let mut value: Option<u64> = Some(0);
    let ghost mut acc: int = 0;
    loop
        invariant
            format@.covers(j as int),
            format@.limit() <= u32::MAX,
            0 <= acc,
            number_value(format@, mem@, j as int, acc) == number_value(format@, mem@, i as int, 0),
            number_end(format@, mem@, j as int) == number_end(format@, mem@, i as int),
            value == (if acc <= max {
                Some(acc as u64)
            } else {
                None
            }),
        ensures
            j == number_end(format@, mem@, i as int),
            format@.covers(j as int),
            value == (if number_value(format@, mem@, i as int, 0) <= max {
                Some(number_value(format@, mem@, i as int, 0) as u64)
            } else {
                None
            }),
        decreases format@.limit() - j,
    {
        let c: u8 = format.at(mem, j);
        if !('0' as u8 <= c && c <= '9' as u8) {
            break;
        }
        value = match value {
            Some(v) => {
                let w: u128 = (v as u128) * 10 + (c - '0' as u8) as u128;
                if w <= max as u128 {
                    Some(w as u64)
                } else {
                    None
                }
            },
            None => None,
        };
        proof {
            acc = acc * 10 + (c - '0' as u8);
        }
        j += 1;
    }
    (value, j)
}

/// Reads a number or `*`. The number is [None] if it is negative or over
/// `max`.
fn number_or_argument(
    format: &Format,
    mem: &Mem,
    i: u32,
    args: &mut VaList,
    max: u64,
) -> (r: (Option<u64>, u32))
    requires
        format@.covers(i as int),
        format@.limit() <= u32::MAX,
        max >= i32::MAX,
    ensures
        ({
            let want = field(format@, mem@, i as int, old(args).pos);
            &&& r.0 == (if 0 <= want.value <= max {
                Some(want.value as u64)
            } else {
                None
            })
            &&& r.1 == want.idx
            &&& final(args).pos == want.va
        }),
        format@.covers(r.1 as int),
{
    proof {
        lemma_number_grows(format@, mem@, i as int, 0);
    }
    if format.at(mem, i) == '*' as u8 {
        let v: i32 = abi::to_i32(args.next_u32(mem));
        (
            if v >= 0 {
                Some(v as u64)
            } else {
                None
            },
            i + 1,
        )
    } else {
        number(format, mem, i, max)
    }
}

/// Reads a length modifier and returns it with the index behind it.
pub fn length(format: &Format, mem: &Mem, i: u32) -> (r: (Length, u32))
    requires
        format@.covers(i as int),
        format@.limit() <= u32::MAX,
    ensures
        (r.0, r.1 as int) == length_at(format@, mem@, i as int),
        format@.covers(r.1 as int),
{
    let c: u8 = format.at(mem, i);
    if c == 'h' as u8 {
        if format.at(mem, i + 1) == 'h' as u8 {
            (Length::HalfHalf, i + 2)
        } else {
            (Length::Half, i + 1)
        }
    } else if c == 'l' as u8 {
        if format.at(mem, i + 1) == 'l' as u8 {
            (Length::LongLong, i + 2)
        } else {
            (Length::Long, i + 1)
        }
    } else if c == 'q' as u8 || c == 'j' as u8 {
        (Length::LongLong, i + 1)
    } else if c == 'z' as u8 || c == 't' as u8 {
        (Length::Long, i + 1)
    } else if c == 'L' as u8 {
        (Length::LongDouble, i + 1)
    } else {
        (Length::Plain, i)
    }
}

/// Parses the conversion specification at index `i` and takes the arguments
/// for which a `*` stands in it. Returns it with the index of its specifier.
pub fn parse_directive(format: &Format, mem: &Mem, i: u32, args: &mut VaList) -> (r: Option<
    (Directive, u32),
>)
    requires
        format@.covers(i as int),
        format@.limit() <= u32::MAX,
    ensures
        match r {
            Some((directive, idx)) => parse(format@, mem@, i as int, old(args).pos) == Some(
                Parsed { directive, idx: idx as int, va: final(args).pos },
            ) && i <= idx && format@.covers(idx as int),
            None => parse(format@, mem@, i as int, old(args).pos) is None,
        },
{
    let i1: u32 = skip(format, mem, i, '+' as u8);
    let i2: u32 = skip(format, mem, i1, '#' as u8);
    let i3: u32 = skip(format, mem, i2, '0' as u8);
    let i4: u32 = skip(format, mem, i3, '-' as u8);
    proof {
        lemma_number_grows(format@, mem@, i4 as int, 0);
    }
    let (width, iw) = number_or_argument(format, mem, i4, args, 0x7FFF_FFFF);
    let dot: bool = format.at(mem, iw) == '.' as u8;
    let mut precision: Option<u64> = None;
    let mut ip: u32 = iw;
    if dot {
        proof {
            lemma_number_grows(format@, mem@, iw + 1, 0);
        }
        let (p, end) = number_or_argument(format, mem, iw + 1, args, 0xFFFF_FFFF_FFFF_FFFF);
        precision = p;
        ip = end;
    }
    let (length, i5) = length(format, mem, ip);
    let specifier: u8 = format.at(mem, i5);
    match width {
        None => None,
        Some(width) => if dot && precision.is_none() {
            None
        } else {
            Some(
                (
                    Directive {
                        plus: i1 != i,
                        alternative: i2 != i1,
                        zero: i3 != i2,
                        left: i4 != i3,
                        width: width as u32,
                        precision,
                        length,
                        specifier,
                    },
                    i5,
                ),
            )
        },
    }
}

pub fn integer_specifier(c: u8) -> (b: bool)
    ensures
        b == is_integer_specifier(c),
{
    c == 'd' as u8 || c == 'i' as u8 || c == 'o' as u8 || c == 'u' as u8 || c == 'x' as u8 || c == 'X' as u8 || c == 'D' as u8 || c == 'U' as u8 || c
        == 'O' as u8
}

pub fn float_specifier(c: u8) -> (b: bool)
    ensures
        b == is_float_specifier(c),
{
    c == 'f' as u8 || c == 'F' as u8 || c == 'e' as u8 || c == 'E' as u8 || c == 'g' as u8 || c == 'G' as u8 || c == 'a' as u8 || c == 'A' as u8
}

pub fn known_specifier(c: u8) -> (b: bool)
    ensures
        b == is_specifier(c),
{
    integer_specifier(c) || float_specifier(c) || c == 'c' as u8 || c == 's' as u8 || c == 'p' as u8 || c == 'n' as u8 || c
        == 'C' as u8 || c == 'S' as u8 || c == '%' as u8 || c == '@' as u8 || c == '[' as u8
}

} // verus!
