//! The text that numbers and padded fields are made of.
use vstd::prelude::*;
use vstd::utf8::*;

verus! {

/// The character for the digit `d`.
pub open spec fn digit_char(d: int, upper: bool) -> u8 {
    if d < 10 {
        ('0' as u8 + d) as u8
    } else if upper {
        ('A' as u8 + d - 10) as u8
    } else {
        ('a' as u8 + d - 10) as u8
    }
}

/// The digits of `n` in the given base, the most significant one first and
/// without leading zeros.
pub open spec fn digits(n: nat, base: nat, upper: bool) -> Seq<u8>
    decreases n,
{
    if n < base || base < 2 {
        seq![digit_char(n as int, upper)]
    } else {
        proof {
            vstd::arithmetic::div_mod::lemma_div_decreases(n as int, base as int);
        }
        digits(n / base, base, upper).push(digit_char((n % base) as int, upper))
    }
}

/// `n` copies of `c`; none if `n` is negative.
pub open spec fn fill(c: u8, n: int) -> Seq<u8> {
    Seq::new(
        if n < 0 {
            0
        } else {
            n as nat
        },
        |i: int| c,
    )
}

/// `text` moved to the right end of a field of at least `width` bytes.
pub open spec fn pad_start(text: Seq<u8>, width: int, c: u8) -> Seq<u8> {
    fill(c, width - text.len()) + text
}

/// `text` at the left end of a field of at least `width` bytes.
pub open spec fn pad_end(text: Seq<u8>, width: int) -> Seq<u8> {
    text + fill(' ' as u8, width - text.len())
}

/// `text` in a field of at least `width` bytes: at its left end, or at its
/// right end behind zeros or spaces.
pub open spec fn pad(text: Seq<u8>, width: int, zero: bool, left: bool) -> Seq<u8> {
    if left {
        pad_end(text, width)
    } else if zero {
        pad_start(text, width, '0' as u8)
    } else {
        pad_start(text, width, ' ' as u8)
    }
}

/// The absolute value of `i`.
pub open spec fn magnitude(i: int) -> nat {
    if i < 0 {
        (-i) as nat
    } else {
        i as nat
    }
}

/// `i` in decimal, with a minus sign if it is negative.
pub open spec fn decimal(i: int) -> Seq<u8> {
    if i < 0 {
        seq!['-' as u8] + digits(magnitude(i), 10, false)
    } else {
        digits(magnitude(i), 10, false)
    }
}

/// `i` in decimal with at least `width` characters: zeros come between the
/// sign and the digits.
pub open spec fn decimal_zeros(i: int, width: int) -> Seq<u8> {
    if i < 0 {
        seq!['-' as u8] + pad_start(digits(magnitude(i), 10, false), width - 1, '0' as u8)
    } else {
        pad_start(digits(magnitude(i), 10, false), width, '0' as u8)
    }
}

/// `text` with ASCII letters in upper case.
pub open spec fn uppercase(text: Seq<u8>) -> Seq<u8> {
    text.map_values(|c: u8| upper_char(c))
}

pub open spec fn upper_char(c: u8) -> u8 {
    if 'a' as u8 <= c <= 'z' as u8 {
        (c - 32) as u8
    } else {
        c
    }
}

/// The bytes of the UTF-8 form of `v`, or `?` where `v` is no character.
pub open spec fn char_text(v: u32) -> Seq<u8> {
    if is_scalar(v) {
        encode_scalar(v)
    } else {
        seq!['?' as u8]
    }
}

/// The UTF-8 form of a string of 32-bit characters.
pub open spec fn wide_text(w: Seq<u32>) -> Seq<u8>
    decreases w.len(),
{
    if w.len() == 0 {
        seq![]
    } else {
        wide_text(w.drop_last()) + char_text(w.last())
    }
}

/// Whether every element of `w` is a character.
pub open spec fn all_chars(w: Seq<u32>) -> bool {
    forall|i: int| 0 <= i < w.len() ==> is_scalar(#[trigger] w[i])
}

pub fn digit(d: u64, upper: bool) -> (c: u8)
    requires
        d < 36,
    ensures
        c == digit_char(d as int, upper),
{
    if d < 10 {
        '0' as u8 + d as u8
    } else if upper {
        55 + d as u8
    } else {
        87 + d as u8
    }
}

/// The digits of `n`.
pub fn number_text(n: u64, base: u64, upper: bool) -> (text: Vec<u8>)
    requires
        2 <= base <= 36,
    ensures
        text@ == digits(n as nat, base as nat, upper),
    decreases n,
{
    if n < base {
        let mut text: Vec<u8> = Vec::new();
        text.push(digit(n, upper));
        proof {
            assert(text@ =~= seq![digit_char(n as int, upper)]);
        }
        text
    } else {
        proof {
            vstd::arithmetic::div_mod::lemma_div_decreases(n as int, base as int);
            vstd::arithmetic::div_mod::lemma_mod_bound(n as int, base as int);
        }
        let mut text: Vec<u8> = number_text(n / base, base, upper);
        text.push(digit(n % base, upper));
        text
    }
}

/// Appends `n` copies of `c`.
fn push_fill(text: &mut Vec<u8>, c: u8, n: u64)
    ensures
        final(text)@ == old(text)@ + fill(c, n as int),
{
    let mut i: u64 = 0;
    proof {
        assert(text@ =~= old(text)@ + fill(c, 0));
    }
    while i < n
        invariant
            i <= n,
            text@ == old(text)@ + fill(c, i as int),
        decreases n - i,
    {
        text.push(c);
        proof {
            assert(text@ =~= old(text)@ + fill(c, i + 1));
        }
        i += 1;
    }
}

/// How many bytes a field of `width` bytes has left beside `text`.
fn missing(text: &Vec<u8>, width: u64) -> (n: u64)
    ensures
        n == (if width > text@.len() {
            width - text@.len()
        } else {
            0
        }),
{
    let len: u64 = text.len() as u64;
    if width > len {
        width - len
    } else {
        0
    }
}

/// Appends `text`, padded at its start.
pub fn push_pad_start(out: &mut Vec<u8>, text: &Vec<u8>, width: u64, c: u8)
    ensures
        final(out)@ == old(out)@ + pad_start(text@, width as int, c),
{
    let n: u64 = missing(text, width);
    push_fill(out, c, n);
    out.extend_from_slice(text.as_slice());
    proof {
        assert(fill(c, n as int) =~= fill(c, width - text@.len()));
        assert(out@ =~= old(out)@ + pad_start(text@, width as int, c));
    }
}

/// Appends `text`, padded at its end.
pub fn push_pad_end(out: &mut Vec<u8>, text: &Vec<u8>, width: u64)
    ensures
        final(out)@ == old(out)@ + pad_end(text@, width as int),
{
    let n: u64 = missing(text, width);
    out.extend_from_slice(text.as_slice());
    push_fill(out, ' ' as u8, n);
    proof {
        assert(fill(' ' as u8, n as int) =~= fill(' ' as u8, width - text@.len()));
        assert(out@ =~= old(out)@ + pad_end(text@, width as int));
    }
}

/// `text` in a field of at least `width` bytes.
pub fn padded(text: &Vec<u8>, width: u64, zero: bool, left: bool) -> (r: Vec<u8>)
    ensures
        r@ == pad(text@, width as int, zero, left),
{
    let mut r: Vec<u8> = Vec::new();
    if left {
        push_pad_end(&mut r, text, width);
    } else if zero {
        push_pad_start(&mut r, text, width, '0' as u8);
    } else {
        push_pad_start(&mut r, text, width, ' ' as u8);
    }
    proof {
        assert(r@ =~= pad(text@, width as int, zero, left));
    }
    r
}

/// The absolute value of `i`.
pub fn unsigned_abs(i: i64) -> (n: u64)
    ensures
        n == magnitude(i as int),
{
    if i >= 0 {
        i as u64
    } else {
        (-(i as i128)) as u64
    }
}

/// `i` in decimal.
pub fn decimal_text(i: i64) -> (text: Vec<u8>)
    ensures
        text@ == decimal(i as int),
{
    let ds: Vec<u8> = number_text(unsigned_abs(i), 10, false);
    if i < 0 {
        let mut text: Vec<u8> = Vec::new();
        text.push('-' as u8);
        text.extend_from_slice(ds.as_slice());
        proof {
            assert(text@ =~= decimal(i as int));
        }
        text
    } else {
        ds
    }
}

/// `i` in decimal with zeros behind the sign.
pub fn decimal_zeros_text(i: i64, width: u64) -> (text: Vec<u8>)
    ensures
        text@ == decimal_zeros(i as int, width as int),
{
    let ds: Vec<u8> = number_text(unsigned_abs(i), 10, false);
    let mut text: Vec<u8> = Vec::new();
    if i < 0 {
        text.push('-' as u8);
        let w: u64 = if width == 0 {
            0
        } else {
            width - 1
        };
        push_pad_start(&mut text, &ds, w, '0' as u8);
        proof {
            assert(fill('0' as u8, w - ds@.len()) =~= fill('0' as u8, width - 1 - ds@.len()));
        }
    } else {
        push_pad_start(&mut text, &ds, width, '0' as u8);
    }
    proof {
        assert(text@ =~= decimal_zeros(i as int, width as int));
    }
    text
}

/// `text` with ASCII letters in upper case.
pub fn uppercase_text(text: &Vec<u8>) -> (r: Vec<u8>)
    ensures
        r@ == uppercase(text@),
{
    let mut r: Vec<u8> = Vec::new();
    let n: usize = text.len();
    let mut i: usize = 0;
    while i < n
        invariant
            i <= n,
            n == text@.len(),
            r@ == uppercase(text@).take(i as int),
        decreases n - i,
    {
        let c: u8 = text[i];
        r.push(if 'a' as u8 <= c && c <= 'z' as u8 {
            c - 32
        } else {
            c
        });
        i += 1;
        proof {
            assert(r@ =~= uppercase(text@).take(i as int));
        }
    }
    proof {
        assert(r@ =~= uppercase(text@));
    }
    r
}

/// Whether `v` is a character.
pub fn is_char(v: u32) -> (b: bool)
    ensures
        b == is_scalar(v),
{
    v < 0xD800 || (0xDFFF < v && v <= 0x10FFFF)
}

/// Appends the UTF-8 form of `v`, or `?`.
pub fn push_char(out: &mut Vec<u8>, v: u32)
    ensures
        final(out)@ == old(out)@ + char_text(v),
{
    if !is_char(v) {
        out.push('?' as u8);
    } else if v <= 0x7F {
        out.push((v & 0x7F) as u8);
    } else if v <= 0x7FF {
        out.push(0xC0 | ((v >> 6) & 0x1F) as u8);
        out.push(0x80 | (v & 0x3F) as u8);
    } else if v <= 0xFFFF {
        out.push(0xE0 | ((v >> 12) & 0x0F) as u8);
        out.push(0x80 | ((v >> 6) & 0x3F) as u8);
        out.push(0x80 | (v & 0x3F) as u8);
    } else {
        out.push(0xF0 | ((v >> 18) & 0x7) as u8);
        out.push(0x80 | ((v >> 12) & 0x3F) as u8);
        out.push(0x80 | ((v >> 6) & 0x3F) as u8);
        out.push(0x80 | (v & 0x3F) as u8);
    }
    proof {
        assert(out@ =~= old(out)@ + char_text(v));
    }
}

/// The UTF-8 form of a string of 32-bit characters; [None] if one of them is
/// no character.
pub fn wide_to_text(w: &Vec<u32>) -> (r: Option<Vec<u8>>)
    ensures
        r.is_some() == all_chars(w@),
        r.is_some() ==> r.unwrap()@ == wide_text(w@),
{
    let mut out: Vec<u8> = Vec::new();
    let n: usize = w.len();
    let mut i: usize = 0;
    proof {
        assert(w@.take(0) =~= seq![]);
    }
    while i < n
        invariant
            i <= n,
            n == w@.len(),
            all_chars(w@.take(i as int)),
            out@ == wide_text(w@.take(i as int)),
        decreases n - i,
    {
        if !is_char(w[i]) {
            proof {
                assert(!is_scalar(w@[i as int]));
            }
            return None;
        }
        push_char(&mut out, w[i]);
        i += 1;
        proof {
            assert(w@.take(i as int).drop_last() =~= w@.take(i - 1));
            assert forall|j: int| 0 <= j < i implies is_scalar(#[trigger] w@.take(i as int)[j]) by {
                if j < i - 1 {
                    assert(w@.take(i - 1)[j] == w@[j]);
                }
            }
        }
    }
    proof {
        assert(w@.take(n as int) =~= w@);
    }
    Some(out)
}

/// A character is at most four bytes.
pub proof fn lemma_wide_text_len(w: Seq<u32>)
    ensures
        wide_text(w).len() <= 4 * w.len(),
    decreases w.len(),
{
    if w.len() > 0 {
        lemma_wide_text_len(w.drop_last());
    }
}

/// The number of characters in `text`; [None] if it is not valid UTF-8.
pub fn char_count(text: &Vec<u8>) -> (r: Option<u64>)
    ensures
        r.is_some() == valid_utf8(text@),
        r.is_some() ==> r.unwrap() == decode_utf8(text@).len(),
{
    let n: usize = text.len();
    let mut i: usize = 0;
    let mut count: u64 = 0;
    let ghost whole = text@;
    proof {
        assert(whole.skip(0) =~= whole);
    }
    while i < n
        invariant
            i <= n,
            n == text@.len(),
            whole == text@,
            count <= i,
            valid_utf8(whole.skip(i as int)) == valid_utf8(whole),
            valid_utf8(whole) ==> decode_utf8(whole).len() == count + decode_utf8(
                whole.skip(i as int),
            ).len(),
        decreases n - i,
    {
        let ghost rest = whole.skip(i as int);
        let b0: u8 = text[i];
        let b1: u8 = if n - i > 1 {
            text[i + 1]
        } else {
            0
        };
        let b2: u8 = if n - i > 2 {
            text[i + 2]
        } else {
            0
        };
        let b3: u8 = if n - i > 3 {
            text[i + 3]
        } else {
            0
        };
        let c1: bool = 0x80 <= b1 && b1 <= 0xBF;
        let c2: bool = 0x80 <= b2 && b2 <= 0xBF;
        let c3: bool = 0x80 <= b3 && b3 <= 0xBF;
        let len: usize;
        if b0 <= 0x7F {
            len = 1;
            proof {
                assert(b0 & 0x7F < 0x80) by (bit_vector);
            }
        } else if 0xC0 <= b0 && b0 <= 0xDF {
            let code: u32 = (((b0 & 0x1F) as u32) << 6) | (b1 & 0x3F) as u32;
            if !c1 || code < 0x80 {
                return None;
            }
            proof {
                assert((((b0 & 0x1F) as u32) << 6) | (b1 & 0x3F) as u32 <= 0x7FF) by (bit_vector);
            }
            len = 2;
        } else if 0xE0 <= b0 && b0 <= 0xEF {
            let code: u32 = (((b0 & 0x0F) as u32) << 12) | (((b1 & 0x3F) as u32) << 6) | (b2
                & 0x3F) as u32;
            if !c1 || !c2 || code < 0x800 || (0xD800 <= code && code <= 0xDFFF) {
                return None;
            }
            len = 3;
        } else if 0xF0 <= b0 && b0 <= 0xF7 {
            let code: u32 = (((b0 & 0x07) as u32) << 18) | (((b1 & 0x3F) as u32) << 12) | (((b2
                & 0x3F) as u32) << 6) | (b3 & 0x3F) as u32;
            if !c1 || !c2 || !c3 || code < 0x1_0000 || 0x10_FFFF < code {
                return None;
            }
            len = 4;
        } else {
            return None;
        }
        proof {
            assert(valid_first_scalar(rest));
            assert(length_of_first_scalar(rest) == len);
            assert(pop_first_scalar(rest) =~= whole.skip(i + len));
        }
        i += len;
        count += 1;
    }
    proof {
        assert(whole.skip(n as int) =~= seq![]);
    }
    Some(count)
}

} // verus!
