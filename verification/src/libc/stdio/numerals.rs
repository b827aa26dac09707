//! Numerals, read from left to right, and fields that are filled up.
use crate::libc::stdio::text;
use vstd::prelude::*;

verus! {

/// The digit that `c` stands for: `0` to `9`, and letters from ten on.
pub open spec fn digit_of(c: u8) -> Option<nat> {
    if 48 <= c <= 57 {
        Some((c - 48) as nat)
    } else if 65 <= c <= 90 {
        Some((c - 55) as nat)
    } else if 97 <= c <= 122 {
        Some((c - 87) as nat)
    } else {
        None
    }
}

/// The value of the numeral `t`, if the digits before it have the value `acc`.
pub open spec fn value_from(acc: nat, t: Seq<u8>, base: nat) -> nat
    decreases t.len(),
{
    if t.len() == 0 {
        acc
    } else {
        value_from(acc * base + digit_of(t[0]).unwrap(), t.drop_first(), base)
    }
}

/// Whether `c` is a digit of the base, with letters of the given case.
pub open spec fn is_base_digit(c: u8, base: nat, upper: bool) -> bool {
    &&& digit_of(c) matches Some(d) && d < base
    &&& upper ==> c <= 90
    &&& !upper ==> c <= 57 || c >= 97
}

/// Whether `t` is the number `n` in the base: digits without leading zeros, but as
/// many as it takes to have `least` of them.
pub open spec fn is_number(t: Seq<u8>, n: nat, base: nat, upper: bool, least: int) -> bool {
    &&& t.len() > 0
    &&& t.len() >= least
    &&& forall|k: int| 0 <= k < t.len() ==> is_base_digit(#[trigger] t[k], base, upper)
    &&& value_from(0, t, base) == n
    &&& t.len() > least && t.len() > 1 ==> t[0] != 48
}

/// Whether `t` is a field of at least `width` bytes with `core` at one end of it,
/// filled up with `c`.
pub open spec fn is_field(t: Seq<u8>, core: Seq<u8>, width: int, c: u8, left: bool) -> bool {
    let at: int = if left {
        0
    } else {
        t.len() - core.len()
    };
    &&& t.len() >= core.len()
    &&& t.len() >= width
    &&& t.len() == width || t.len() == core.len()
    &&& forall|k: int| 0 <= k < core.len() ==> t[at + k] == #[trigger] core[k]
    &&& forall|k: int|
        0 <= k < t.len() && !(at <= k < at + core.len()) ==> #[trigger] t[k] == c
}

pub proof fn lemma_value_push(acc: nat, t: Seq<u8>, c: u8, base: nat)
    ensures
        value_from(acc, t.push(c), base) == value_from(acc, t, base) * base + digit_of(
            c,
        ).unwrap(),
    decreases t.len(),
{
    reveal_with_fuel(value_from, 2);
    if t.len() > 0 {
        lemma_value_push(acc * base + digit_of(t[0]).unwrap(), t.drop_first(), c, base);
        assert(t.push(c).drop_first() =~= t.drop_first().push(c));
    } else {
        assert(t.push(c).drop_first() =~= t);
    }
}

/// The digits of a number are the number.
pub proof fn lemma_digits_are(n: nat, base: nat, upper: bool)
    requires
        base == 8 || base == 10 || base == 16,
    ensures
        is_number(text::digits(n, base, upper), n, base, upper, 1),
        n > 0 ==> text::digits(n, base, upper)[0] != 48,
    decreases n,
{
    let t = text::digits(n, base, upper);
    if n < base {
        reveal_with_fuel(value_from, 2);
        assert(t.drop_first() =~= seq![]);
        assert(0 * base == 0) by (nonlinear_arith);
    } else {
        let head = text::digits(n / base, base, upper);
        lemma_digits_are(n / base, base, upper);
        let c = text::digit_char((n % base) as int, upper);
        lemma_value_push(0, head, c, base);
        assert((n / base) * base + n % base == n) by (nonlinear_arith)
            requires
                base > 0,
        ;
        assert(digit_of(c) == Some((n % base) as nat));
        assert forall|k: int| 0 <= k < t.len() implies is_base_digit(#[trigger] t[k], base, upper)
            by {
            if k < head.len() {
                assert(t[k] == head[k]);
            }
        }
        assert(t[0] == head[0]);
    }
}

/// Zeros before a number do not change it.
pub proof fn lemma_zeros(k: nat, t: Seq<u8>, base: nat)
    ensures
        value_from(0, text::fill(48, k as int) + t, base) == value_from(0, t, base),
    decreases k,
{
    let s = text::fill(48, k as int) + t;
    if k == 0 {
        assert(s =~= t);
    } else {
        assert(s.drop_first() =~= text::fill(48, k - 1) + t);
        assert(0 * base + 0 == 0) by (nonlinear_arith);
        lemma_zeros((k - 1) as nat, t, base);
    }
}

/// A number that is filled up with zeros is that number.
pub proof fn lemma_filled(n: nat, base: nat, upper: bool, least: int)
    requires
        base == 8 || base == 10 || base == 16,
    ensures
        is_number(
            text::pad_start(text::digits(n, base, upper), least, 48),
            n,
            base,
            upper,
            least,
        ),
{
    let t = text::digits(n, base, upper);
    lemma_digits_are(n, base, upper);
    let k: nat = if least > t.len() {
        (least - t.len()) as nat
    } else {
        0
    };
    let s = text::pad_start(t, least, 48);
    assert(s =~= text::fill(48, k as int) + t);
    lemma_zeros(k, t, base);
    assert forall|i: int| 0 <= i < s.len() implies is_base_digit(#[trigger] s[i], base, upper) by {
        if i >= k {
            assert(s[i] == t[i - k]);
        }
    }
}

/// A padded text is a field with the text in it.
pub proof fn lemma_padded(core: Seq<u8>, width: int, c: u8, left: bool)
    ensures
        left ==> is_field(text::pad_end(core, width), core, width, 32, true),
        !left ==> is_field(text::pad_start(core, width, c), core, width, c, false),
{
}

} // verus!
