//! Callbacks that a game left pending until the touch that caused them ends.
//!
//! A pending callback is described by texts, each of which may be missing.
use crate::objc::classes;
use crate::objc::classes::{id, SEL};
use crate::objc::names::Name;
use crate::objc::search;
use vstd::prelude::*;

verus! {

/// The texts that describe a pending callback.
pub struct Pending {
    pub target: Option<Name>,
    pub sel: Option<Name>,
    pub sender: Option<Name>,
    pub callback: Option<Name>,
}

/// What is to be done about a pending callback.
#[derive(Clone, Copy, PartialEq, Eq, Structural, Debug)]
pub enum Drain {
    /// It stays pending.
    Keep,
    /// It is pending no longer, but there is nothing to call.
    Forget,
    /// It is pending no longer, and this message is to be sent, with an argument
    /// if there is a sender.
    Call { target: id, sel: SEL, sender: Option<id> },
}

/// The number that these decimal digits stand for.
pub open spec fn decimal(digits: Seq<u8>) -> int
    decreases digits.len(),
{
    if digits.len() == 0 {
        0
    } else {
        10 * decimal(digits.drop_last()) + (digits.last() - '0' as u8)
    }
}

/// Whether this is a decimal digit.
pub open spec fn is_digit(c: u8) -> bool {
    '0' as u8 <= c <= '9' as u8
}

/// The number that a text of digits stands for.
pub open spec fn digits_number(digits: Seq<u8>) -> Option<u32> {
    if digits.len() > 0 && (forall|i: int| 0 <= i < digits.len() ==> is_digit(#[trigger] digits[i]))
        && decimal(digits) <= u32::MAX {
        Some(decimal(digits) as u32)
    } else {
        None
    }
}

/// The number that a text stands for: decimal digits, maybe with a plus sign in
/// front.
pub open spec fn number(text: Seq<u8>) -> Option<u32> {
    if text.len() > 0 && text[0] == '+' as u8 {
        digits_number(text.skip(1))
    } else {
        digits_number(text)
    }
}

/// The number that a text stands for, if there is one.
pub open spec fn number_in(text: Option<Name>) -> Option<u32> {
    match text {
        Some(text) => number(text@),
        None => None,
    }
}

/// Digits that come first do not make a number smaller.
proof fn lemma_decimal_grows(digits: Seq<u8>, k: int)
    requires
        forall|i: int| 0 <= i < digits.len() ==> is_digit(#[trigger] digits[i]),
        0 <= k <= digits.len(),
    ensures
        0 <= decimal(digits.take(k)) <= decimal(digits),
    decreases digits.len(),
{
    if k == digits.len() {
        assert(digits.take(k) =~= digits);
        if digits.len() > 0 {
            assert forall|i: int| 0 <= i < digits.len() - 1 implies is_digit(
                #[trigger] digits.drop_last()[i],
            ) by {
                assert(is_digit(digits[i]));
            }
            lemma_decimal_grows(digits.drop_last(), digits.len() - 1);
            assert(digits.drop_last().take(digits.len() - 1) =~= digits.drop_last());
            assert(is_digit(digits[digits.len() - 1]));
        }
    } else {
        assert forall|i: int| 0 <= i < digits.len() - 1 implies is_digit(
            #[trigger] digits.drop_last()[i],
        ) by {
            assert(is_digit(digits[i]));
        }
        lemma_decimal_grows(digits.drop_last(), k);
        assert(digits.drop_last().take(k) =~= digits.take(k));
        assert(is_digit(digits[digits.len() - 1]));
    }
}

/// The number that a text stands for.
pub fn parse_number(text: &[u8]) -> (r: Option<u32>)
    ensures
        r == number(text@),
{
    let n: usize = text.len();
    let start: usize = if n > 0 && text[0] == '+' as u8 {
        1
    } else {
        0
    };
    let ghost digits = text@.skip(start as int);
    proof {
        assert(text@.skip(0) =~= text@);
    }
    if start == n {
        return None;
    }
    let mut value: u32 = 0;
    let mut i: usize = start;
    proof {
        assert(digits.take(0) =~= seq![]);
    }
    while i < n
        invariant
            start <= i <= n,
            n == text@.len(),
            digits == text@.skip(start as int),
            digits.len() == n - start,
            number(text@) == digits_number(digits),
            value == decimal(digits.take(i - start)),
            forall|k: int| 0 <= k < i - start ==> is_digit(#[trigger] digits[k]),
        decreases n - i,
    {
        let c: u8 = text[i];
        proof {
            assert(digits[i - start] == c);
            assert(digits.take(i + 1 - start).drop_last() =~= digits.take(i - start));
        }
        if c < '0' as u8 || c > '9' as u8 {
            proof {
                assert(!is_digit(digits[i - start]));
            }
            return None;
        }
        let wide: u64 = 10 * (value as u64) + (c - '0' as u8) as u64;
        if wide > u32::MAX as u64 {
            proof {
                if forall|k: int| 0 <= k < digits.len() ==> is_digit(#[trigger] digits[k]) {
                    lemma_decimal_grows(digits, i + 1 - start);
                }
            }
            return None;
        }
        value = wide as u32;
        i += 1;
    }
    proof {
        assert(digits.take(n - start) =~= digits);
    }
    Some(value)
}

fn parse_number_in(text: &Option<Name>) -> (r: Option<u32>)
    ensures
        r == number_in(*text),
{
    match text {
        Some(text) => parse_number(text.as_slice()),
        None => None,
    }
}

/// Whether this game leaves callbacks pending.
pub open spec fn leaves_pending(bundle_identifier: Seq<u8>) -> bool {
    ||| bundle_identifier == classes::name_of("com.apprisetec9.minionjump"@)
    ||| bundle_identifier == classes::name_of("com.risinghighapps.kingdomprincepro"@)
}

/// The name of the callback, by which it is called.
pub open spec fn callback_name(pending: Pending) -> Seq<u8> {
    match pending.callback {
        Some(name) => name@,
        None => classes::name_of("<unknown>"@),
    }
}

/// What is to be done about a pending callback. With `select_only` only the one
/// that selects a level is called, and without it all but that.
pub open spec fn drained(
    bundle_identifier: Seq<u8>,
    pending: Pending,
    select_only: bool,
) -> Drain {
    let name = callback_name(pending);
    match (number_in(pending.target), number_in(pending.sel)) {
        (Some(target), Some(sel)) => if !leaves_pending(bundle_identifier) || select_only != (name
            == classes::name_of("selectLVAction:"@)) {
            Drain::Keep
        } else if target == 0 || sel == 0 {
            Drain::Forget
        } else {
            Drain::Call {
                target,
                sel,
                sender: if search::ends_in(name, ":"@) {
                    Some(
                        match number_in(pending.sender) {
                            Some(sender) => sender,
                            None => 0,
                        },
                    )
                } else {
                    None
                },
            }
        },
        _ => Drain::Keep,
    }
}

/// What is to be done about a pending callback.
pub fn ultrahle_minionjump_drain_pending_callback(
    bundle_identifier: &[u8],
    pending: &Pending,
    select_only: bool,
) -> (r: Drain)
    ensures
        r == drained(bundle_identifier@, *pending, select_only),
{
    if !(classes::name_is(bundle_identifier, "com.apprisetec9.minionjump") || classes::name_is(
        bundle_identifier,
        "com.risinghighapps.kingdomprincepro",
    )) {
        return Drain::Keep;
    }
    let target: u32 = match parse_number_in(&pending.target) {
        Some(target) => target,
        None => {
            return Drain::Keep;
        },
    };
    let sel: u32 = match parse_number_in(&pending.sel) {
        Some(sel) => sel,
        None => {
            return Drain::Keep;
        },
    };
    let sender: u32 = match parse_number_in(&pending.sender) {
        Some(sender) => sender,
        None => 0,
    };
    let name: Name = match &pending.callback {
        Some(name) => classes::copy_name(name.as_slice()),
        None => classes::copy_name("<unknown>".as_bytes()),
    };
    if select_only != classes::name_is(name.as_slice(), "selectLVAction:") {
        return Drain::Keep;
    }
    if target == 0 || sel == 0 {
        return Drain::Forget;
    }
    let sender: Option<id> = if search::ends_with(name.as_slice(), ":") {
        Some(sender)
    } else {
        None
    };
    Drain::Call { target, sel, sender }
}

/// Of the two passes that are made when a touch ends, at most one does
/// something about a pending callback.
pub proof fn law_drained_once(bundle_identifier: Seq<u8>, pending: Pending)
    ensures
        drained(bundle_identifier, pending, true) == Drain::Keep || drained(
            bundle_identifier,
            pending,
            false,
        ) == Drain::Keep,
{
}

} // verus!
