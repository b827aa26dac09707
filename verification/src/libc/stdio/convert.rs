//! The text of each conversion of `printf`.
use crate::libc::stdio::directive::Directive;
use crate::libc::stdio::text;
use vstd::prelude::*;

verus! {

/// A signed decimal conversion (`%d`).
pub open spec fn int_text(d: Directive, i: int) -> Seq<u8> {
    let with_precision = match d.precision {
        Some(p) if p > 0 => text::decimal_zeros(i, p as int),
        _ => text::decimal(i),
    };
    if d.width == 0 {
        if d.plus && i >= 0 {
            seq!['+' as u8] + with_precision
        } else {
            with_precision
        }
    } else if d.zero && d.precision is None && !d.left {
        if d.plus {
            seq![
                if i >= 0 {
                    '+' as u8
                } else {
                    '-' as u8
                },
            ] + text::pad_start(text::digits(text::magnitude(i), 10, false), d.width - 1, '0' as u8)
        } else {
            text::pad_start(text::decimal(i), d.width as int, '0' as u8)
        }
    } else {
        text::pad(with_precision, d.width as int, false, d.left)
    }
}

/// The digits of `n`, and as many zeros before them as the precision asks
/// for.
pub open spec fn precise_digits(d: Directive, n: nat, base: nat, upper: bool) -> Seq<u8> {
    match d.precision {
        Some(p) => text::pad_start(text::digits(n, base, upper), p as int, '0' as u8),
        None => text::digits(n, base, upper),
    }
}

/// An unsigned decimal conversion (`%u`).
pub open spec fn uint_text(d: Directive, n: nat) -> Seq<u8> {
    text::pad(precise_digits(d, n, 10, false), d.width as int, d.zero, d.left)
}

/// What `#` puts before a number that is not zero.
pub open spec fn prefix_text(d: Directive, n: nat, prefix: Seq<u8>) -> Seq<u8> {
    if d.alternative && n != 0 {
        prefix
    } else {
        seq![]
    }
}

/// A field of zeros that ends in the digits of `n`; the prefix counts as a
/// part of it.
pub open spec fn zero_field(
    d: Directive,
    n: nat,
    base: nat,
    upper: bool,
    prefix: Seq<u8>,
) -> Seq<u8> {
    let p = prefix_text(d, n, prefix);
    p + text::pad_start(text::digits(n, base, upper), d.width - p.len(), '0' as u8)
}

/// An octal conversion (`%o`). A width makes it disregard the precision.
pub open spec fn octal_text(d: Directive, n: nat) -> Seq<u8> {
    let prefix = prefix_text(d, n, seq!['0' as u8]);
    if d.width == 0 {
        prefix + precise_digits(d, n, 8, false)
    } else if d.zero && d.precision is None && !d.left {
        zero_field(d, n, 8, false, seq!['0' as u8])
    } else {
        text::pad(prefix + text::digits(n, 8, false), d.width as int, false, d.left)
    }
}

/// `0x` or `0X`
pub open spec fn hex_prefix(upper: bool) -> Seq<u8> {
    seq![
        '0' as u8,
        if upper {
            'X' as u8
        } else {
            'x' as u8
        },
    ]
}

/// A hexadecimal conversion (`%x`, `%X`). Without a width, zero with a
/// precision of zero is no text at all.
pub open spec fn hex_text(d: Directive, n: nat, upper: bool) -> Seq<u8> {
    let whole = prefix_text(d, n, hex_prefix(upper)) + precise_digits(d, n, 16, upper);
    if d.width == 0 {
        if d.precision == Some(0u64) && n == 0 {
            seq![]
        } else {
            whole
        }
    } else if d.zero && d.precision is None && !d.left {
        zero_field(d, n, 16, upper, hex_prefix(upper))
    } else {
        text::pad(whole, d.width as int, false, d.left)
    }
}

/// A Darwin long octal conversion (`%O`), which has no precision.
pub open spec fn long_octal_text(d: Directive, n: nat) -> Seq<u8> {
    text::pad(
        prefix_text(d, n, seq!['0' as u8]) + text::digits(n, 8, false),
        d.width as int,
        d.zero,
        d.left,
    )
}

/// A pointer conversion (`%p`).
pub open spec fn pointer_text(d: Directive, ptr: u32) -> Seq<u8> {
    text::pad(
        hex_prefix(false) + text::digits(ptr as nat, 16, false),
        d.width as int,
        false,
        d.left,
    )
}

/// `text` in a field of `width` characters, of which it has `count`.
pub open spec fn pad_chars(text: Seq<u8>, count: int, width: int, left: bool) -> Seq<u8> {
    if left {
        text + text::fill(' ' as u8, width - count)
    } else {
        text::fill(' ' as u8, width - count) + text
    }
}

/// Whether the number with this bit pattern has a minus sign.
pub open spec fn is_negative(bits: u64) -> bool {
    bits >= 0x8000_0000_0000_0000
}

/// Whether the number with this bit pattern is zero.
pub open spec fn is_zero(bits: u64) -> bool {
    bits == 0 || bits == 0x8000_0000_0000_0000
}

/// The number of spaces that `text` starts with.
pub open spec fn leading_spaces(text: Seq<u8>) -> int
    decreases text.len(),
{
    if text.len() > 0 && text[0] == ' ' as u8 {
        1 + leading_spaces(text.drop_first())
    } else {
        0
    }
}

/// `text` with a plus sign before the number in it, if `+` asks for one. The
/// sign takes the place of a space of the padding where there is one.
pub open spec fn float_sign(d: Directive, bits: u64, text: Seq<u8>) -> Seq<u8> {
    let n = leading_spaces(text);
    if !d.plus || is_negative(bits) {
        text
    } else if 0 < n < text.len() {
        text.update(n - 1, '+' as u8)
    } else {
        seq!['+' as u8] + text
    }
}

/// `text` without any `c` at its end.
pub open spec fn trim_end(text: Seq<u8>, c: u8) -> Seq<u8>
    decreases text.len(),
{
    if text.len() > 0 && text.last() == c {
        trim_end(text.drop_last(), c)
    } else {
        text
    }
}

/// `text` without zeros at its end, nor the point that they followed.
pub open spec fn trim_zeros(text: Seq<u8>) -> Seq<u8> {
    trim_end(trim_end(text, '0' as u8), '.' as u8)
}

/// `text` with each `from` replaced by `to`.
pub open spec fn replace(text: Seq<u8>, from: u8, to: u8) -> Seq<u8> {
    text.map_values(
        |c: u8|
            if c == from {
                to
            } else {
                c
            },
    )
}

/// `text` in a field as wide as the directive asks for.
pub open spec fn pad_field(d: Directive, text: Seq<u8>) -> Seq<u8> {
    text::pad(text, d.width as int, d.zero, d.left)
}

/// The text of a float conversion whose digits are `text`, in decimal
/// notation.
pub open spec fn fixed_text(d: Directive, bits: u64, text: Seq<u8>) -> Seq<u8> {
    let field = if d.specifier == 'F' as u8 {
        pad_field(d, text::uppercase(text))
    } else if d.specifier == 'g' as u8 {
        let wide = pad_field(d, text);
        if wide.contains('.' as u8) {
            pad_field(d, trim_zeros(wide))
        } else {
            wide
        }
    } else if d.specifier == 'G' as u8 {
        text::uppercase(pad_field(d, trim_zeros(text)))
    } else {
        pad_field(d, text)
    };
    float_sign(d, bits, field)
}

/// The text of a float conversion whose absolute value is `text` in
/// scientific notation. Zeros go between the sign and the digits.
pub open spec fn scientific_text(d: Directive, bits: u64, text: Seq<u8>) -> Seq<u8> {
    let sign: Seq<u8> = if is_negative(bits) {
        seq!['-' as u8]
    } else {
        seq![]
    };
    let field = if d.zero && !d.left {
        sign + text::pad_start(text, d.width - sign.len(), '0' as u8)
    } else {
        text::pad(sign + text, d.width as int, false, d.left)
    };
    float_sign(
        d,
        bits,
        if d.specifier == 'E' as u8 || d.specifier == 'G' as u8 {
            text::uppercase(field)
        } else {
            field
        },
    )
}

/// The text of `%a` and `%A`, where `text` is the number in scientific
/// notation.
pub open spec fn exponent_text(d: Directive, bits: u64, text: Seq<u8>) -> Seq<u8> {
    float_sign(
        d,
        bits,
        pad_field(
            d,
            if d.specifier == 'A' as u8 {
                text::uppercase(replace(text, 'e' as u8, 'P' as u8))
            } else {
                replace(text, 'e' as u8, 'p' as u8)
            },
        ),
    )
}

/// `a` followed by `b`.
fn joined(a: &Vec<u8>, b: &Vec<u8>) -> (r: Vec<u8>)
    ensures
        r@ == a@ + b@,
{
    let mut r: Vec<u8> = Vec::new();
    r.extend_from_slice(a.as_slice());
    r.extend_from_slice(b.as_slice());
    proof {
        assert(r@ =~= a@ + b@);
    }
    r
}

/// The text of a signed decimal conversion.
pub fn apply_int_pad(d: Directive, i: i64) -> (r: Vec<u8>)
    ensures
        r@ == int_text(d, i as int),
{
    let with_precision: Vec<u8> = match d.precision {
        Some(p) => if p > 0 {
            text::decimal_zeros_text(i, p)
        } else {
            text::decimal_text(i)
        },
        None => text::decimal_text(i),
    };
    if d.width == 0 {
        if d.plus && i >= 0 {
            let mut r: Vec<u8> = Vec::new();
            r.push('+' as u8);
            let r: Vec<u8> = joined(&r, &with_precision);
            proof {
                assert(r@ =~= int_text(d, i as int));
            }
            return r;
        }
        return with_precision;
    }
    if d.zero && d.precision.is_none() && !d.left {
        let mut r: Vec<u8> = Vec::new();
        if d.plus {
            r.push(
                if i >= 0 {
                    '+' as u8
                } else {
                    '-' as u8
                },
            );
            let ds: Vec<u8> = text::number_text(text::unsigned_abs(i), 10, false);
            text::push_pad_start(&mut r, &ds, (d.width - 1) as u64, '0' as u8);
        } else {
            text::push_pad_start(&mut r, &text::decimal_text(i), d.width as u64, '0' as u8);
        }
        proof {
            assert(r@ =~= int_text(d, i as int));
        }
        r
    } else {
        text::padded(&with_precision, d.width as u64, false, d.left)
    }
}

/// The digits of `n` with the zeros that the precision asks for.
fn digits_with_precision(d: Directive, n: u64, base: u64, upper: bool) -> (r: Vec<u8>)
    requires
        2 <= base <= 36,
    ensures
        r@ == precise_digits(d, n as nat, base as nat, upper),
{
    let ds: Vec<u8> = text::number_text(n, base, upper);
    match d.precision {
        Some(p) => {
            let mut r: Vec<u8> = Vec::new();
            text::push_pad_start(&mut r, &ds, p, '0' as u8);
            proof {
                assert(r@ =~= precise_digits(d, n as nat, base as nat, upper));
            }
            r
        },
        None => ds,
    }
}

/// The text of an unsigned decimal conversion.
pub fn apply_uint_pad(d: Directive, uint: u64) -> (r: Vec<u8>)
    ensures
        r@ == uint_text(d, uint as nat),
{
    let with_precision: Vec<u8> = digits_with_precision(d, uint, 10, false);
    text::padded(&with_precision, d.width as u64, d.zero, d.left)
}

/// What `#` puts before an octal or hexadecimal number.
fn prefix(d: Directive, n: u64, base: u64, upper: bool) -> (r: Vec<u8>)
    requires
        base == 8 || base == 16,
    ensures
        r@ == prefix_text(
            d,
            n as nat,
            if base == 8 {
                seq!['0' as u8]
            } else {
                hex_prefix(upper)
            },
        ),
{
    let mut r: Vec<u8> = Vec::new();
    if d.alternative && n != 0 {
        r.push('0' as u8);
        if base == 16 {
            r.push(
                if upper {
                    'X' as u8
                } else {
                    'x' as u8
                },
            );
        }
    }
    proof {
        assert(r@ =~= prefix_text(
            d,
            n as nat,
            if base == 8 {
                seq!['0' as u8]
            } else {
                hex_prefix(upper)
            },
        ));
    }
    r
}

/// The text of an octal conversion.
pub fn octal(d: Directive, n: u64) -> (r: Vec<u8>)
    ensures
        r@ == octal_text(d, n as nat),
{
    let p: Vec<u8> = prefix(d, n, 8, false);
    if d.width == 0 {
        joined(&p, &digits_with_precision(d, n, 8, false))
    } else if d.zero && d.precision.is_none() && !d.left {
        let mut r: Vec<u8> = p;
        let w: u64 = d.width as u64 - r.len() as u64;
        text::push_pad_start(&mut r, &text::number_text(n, 8, false), w, '0' as u8);
        r
    } else {
        text::padded(&joined(&p, &text::number_text(n, 8, false)), d.width as u64, false, d.left)
    }
}

/// The text of a hexadecimal conversion.
pub fn hex(d: Directive, n: u64, upper: bool) -> (r: Vec<u8>)
    ensures
        r@ == hex_text(d, n as nat, upper),
{
    let p: Vec<u8> = prefix(d, n, 16, upper);
    if d.width > 0 && d.zero && d.precision.is_none() && !d.left {
        let mut r: Vec<u8> = p;
        let len: u64 = r.len() as u64;
        let w: u64 = if d.width as u64 >= len {
            d.width as u64 - len
        } else {
            0
        };
        let ds: Vec<u8> = text::number_text(n, 16, upper);
        text::push_pad_start(&mut r, &ds, w, '0' as u8);
        proof {
            assert(text::fill('0' as u8, w - ds@.len()) =~= text::fill(
                '0' as u8,
                d.width - len - ds@.len(),
            ));
            assert(r@ =~= hex_text(d, n as nat, upper));
        }
        return r;
    }
    let whole: Vec<u8> = joined(&p, &digits_with_precision(d, n, 16, upper));
    if d.width == 0 {
        if n == 0 && d.precision.is_some() && d.precision.unwrap() == 0 {
            Vec::new()
        } else {
            whole
        }
    } else {
        text::padded(&whole, d.width as u64, false, d.left)
    }
}

/// The text of a Darwin long octal conversion.
pub fn long_octal(d: Directive, n: u32) -> (r: Vec<u8>)
    ensures
        r@ == long_octal_text(d, n as nat),
{
    let p: Vec<u8> = prefix(d, n as u64, 8, false);
    let ds: Vec<u8> = text::number_text(n as u64, 8, false);
    text::padded(&joined(&p, &ds), d.width as u64, d.zero, d.left)
}

/// The text of a pointer conversion.
pub fn pointer(d: Directive, ptr: u32) -> (r: Vec<u8>)
    ensures
        r@ == pointer_text(d, ptr),
{
    let mut p: Vec<u8> = Vec::new();
    p.push('0' as u8);
    p.push('x' as u8);
    proof {
        assert(p@ =~= hex_prefix(false));
    }
    let ds: Vec<u8> = text::number_text(ptr as u64, 16, false);
    text::padded(&joined(&p, &ds), d.width as u64, false, d.left)
}

/// `text`, which has `count` characters, in a field of `width` characters.
pub fn pad_to_chars(text: &Vec<u8>, count: u64, width: u32, left: bool) -> (r: Vec<u8>)
    ensures
        r@ == pad_chars(text@, count as int, width as int, left),
{
    let n: u64 = if width as u64 > count {
        width as u64 - count
    } else {
        0
    };
    let empty: Vec<u8> = Vec::new();
    let mut spaces: Vec<u8> = Vec::new();
    text::push_pad_start(&mut spaces, &empty, n, ' ' as u8);
    proof {
        assert(spaces@ =~= text::fill(' ' as u8, width - count));
    }
    if left {
        joined(text, &spaces)
    } else {
        joined(&spaces, text)
    }
}

proof fn lemma_leading_spaces(text: Seq<u8>, n: int)
    requires
        0 <= n <= text.len(),
        forall|i: int| 0 <= i < n ==> text[i] == ' ' as u8,
        n < text.len() ==> text[n] != ' ' as u8,
    ensures
        leading_spaces(text) == n,
    decreases text.len(),
{
    if n > 0 {
        lemma_leading_spaces(text.drop_first(), n - 1);
    }
}

/// Applies the `+` flag to a signed floating-point conversion.
///
/// The width-padding has already been applied, so the `+` goes in front of
/// the first character that is not a space.
pub fn apply_float_sign(formatted: &Vec<u8>, bits: u64, d: Directive) -> (r: Vec<u8>)
    ensures
        r@ == float_sign(d, bits, formatted@),
{
    let mut r: Vec<u8> = Vec::new();
    if !d.plus || bits >= 0x8000_0000_0000_0000 {
        r.extend_from_slice(formatted.as_slice());
        proof {
            assert(r@ =~= formatted@);
        }
        return r;
    }
    let len: usize = formatted.len();
    let mut n: usize = 0;
    while n < len && formatted[n] == ' ' as u8
        invariant
            n <= len,
            len == formatted@.len(),
            forall|i: int| 0 <= i < n ==> formatted@[i] == ' ' as u8,
        decreases len - n,
    {
        n += 1;
    }
    proof {
        lemma_leading_spaces(formatted@, n as int);
    }
    if 0 < n && n < len {
        r.extend_from_slice(formatted.as_slice());
        r.set(n - 1, '+' as u8);
        proof {
            assert(r@ =~= formatted@.update(n - 1, '+' as u8));
        }
    } else {
        r.push('+' as u8);
        r.extend_from_slice(formatted.as_slice());
        proof {
            assert(r@ =~= seq!['+' as u8] + formatted@);
        }
    }
    r
}

/// Removes every `c` at the end of `text`.
fn trim(text: &mut Vec<u8>, c: u8)
    ensures
        final(text)@ == trim_end(old(text)@, c),
{
    while text.len() > 0 && text[text.len() - 1] == c
        invariant
            trim_end(text@, c) == trim_end(old(text)@, c),
        decreases text@.len(),
    {
        text.pop();
    }
}

/// `text` with each `from` replaced by `to`.
fn replaced(text: &Vec<u8>, from: u8, to: u8) -> (r: Vec<u8>)
    ensures
        r@ == replace(text@, from, to),
{
    let mut r: Vec<u8> = Vec::new();
    let n: usize = text.len();
    let mut i: usize = 0;
    while i < n
        invariant
            i <= n,
            n == text@.len(),
            r@ == replace(text@, from, to).take(i as int),
        decreases n - i,
    {
        let c: u8 = text[i];
        r.push(
            if c == from {
                to
            } else {
                c
            },
        );
        i += 1;
        proof {
            assert(r@ =~= replace(text@, from, to).take(i as int));
        }
    }
    proof {
        assert(r@ =~= replace(text@, from, to));
    }
    r
}

/// Whether `c` occurs in `text`.
fn has(text: &Vec<u8>, c: u8) -> (b: bool)
    ensures
        b == text@.contains(c),
{
    let n: usize = text.len();
    let mut i: usize = 0;
    while i < n
        invariant
            i <= n,
            n == text@.len(),
            forall|j: int| 0 <= j < i ==> text@[j] != c,
        decreases n - i,
    {
        if text[i] == c {
            proof {
                assert(text@[i as int] == c);
            }
            return true;
        }
        i += 1;
    }
    false
}

/// `text` in a field as wide as the directive asks for.
fn apply_pad(d: Directive, text: &Vec<u8>) -> (r: Vec<u8>)
    ensures
        r@ == pad_field(d, text@),
{
    text::padded(text, d.width as u64, d.zero, d.left)
}

/// The text of a float conversion in decimal notation.
pub fn fixed(d: Directive, bits: u64, text: &Vec<u8>) -> (r: Vec<u8>)
    ensures
        r@ == fixed_text(d, bits, text@),
{
    let field: Vec<u8> = if d.specifier == 'F' as u8 {
        apply_pad(d, &text::uppercase_text(text))
    } else if d.specifier == 'g' as u8 {
        let mut wide: Vec<u8> = apply_pad(d, text);
        if has(&wide, '.' as u8) {
            trim(&mut wide, '0' as u8);
            trim(&mut wide, '.' as u8);
            apply_pad(d, &wide)
        } else {
            wide
        }
    } else if d.specifier == 'G' as u8 {
        let empty: Vec<u8> = Vec::new();
        let mut raw: Vec<u8> = joined(&empty, text);
        proof {
            assert(raw@ =~= text@);
        }
        trim(&mut raw, '0' as u8);
        trim(&mut raw, '.' as u8);
        text::uppercase_text(&apply_pad(d, &raw))
    } else {
        apply_pad(d, text)
    };
    apply_float_sign(&field, bits, d)
}

/// The text of a float conversion in scientific notation.
pub fn scientific(d: Directive, bits: u64, text: &Vec<u8>) -> (r: Vec<u8>)
    ensures
        r@ == scientific_text(d, bits, text@),
{
    let mut sign: Vec<u8> = Vec::new();
    if bits >= 0x8000_0000_0000_0000 {
        sign.push('-' as u8);
    }
    let ghost want = if is_negative(bits) {
        seq!['-' as u8]
    } else {
        seq![]
    };
    proof {
        assert(sign@ =~= want);
    }
    let field: Vec<u8> = if d.zero && !d.left {
        let mut field: Vec<u8> = sign;
        let len: u64 = field.len() as u64;
        let w: u64 = if d.width as u64 >= len {
            d.width as u64 - len
        } else {
            0
        };
        text::push_pad_start(&mut field, text, w, '0' as u8);
        proof {
            assert(text::fill('0' as u8, w - text@.len()) =~= text::fill(
                '0' as u8,
                d.width - len - text@.len(),
            ));
        }
        field
    } else {
        text::padded(&joined(&sign, text), d.width as u64, false, d.left)
    };
    let field: Vec<u8> = if d.specifier == 'E' as u8 || d.specifier == 'G' as u8 {
        text::uppercase_text(&field)
    } else {
        field
    };
    apply_float_sign(&field, bits, d)
}

/// The text of `%a` and `%A`.
pub fn exponent(d: Directive, bits: u64, text: &Vec<u8>) -> (r: Vec<u8>)
    ensures
        r@ == exponent_text(d, bits, text@),
{
    let body: Vec<u8> = if d.specifier == 'A' as u8 {
        text::uppercase_text(&replaced(text, 'e' as u8, 'P' as u8))
    } else {
        replaced(text, 'e' as u8, 'p' as u8)
    };
    apply_float_sign(&apply_pad(d, &body), bits, d)
}

} // verus!
