//! The parameter field of a control sequence: tokens between semicolons, each
//! read as a decimal number that fits sixteen signed bits.

use crate::sequence::{is_digit, SEMICOLON};
use vstd::prelude::*;
use vstd::slice::slice_subrange;

verus! {

/// The number that a string of decimal digits writes.
pub open spec fn decimal(digits: Seq<u8>) -> nat
    decreases digits.len(),
{
    if digits.len() == 0 {
        0
    } else {
        10 * decimal(digits.drop_last()) + (digits.last() - 0x30) as nat
    }
}

/// Every byte of `token` is a decimal digit.
pub open spec fn all_digits(token: Seq<u8>) -> bool {
    forall|k: int| 0 <= k < token.len() ==> is_digit(#[trigger] token[k])
}

/// The value of one token: its number where it is a non-empty string of
/// digits that writes at most `i16::MAX`, and `None` otherwise.
pub open spec fn param_value(token: Seq<u8>) -> Option<i16> {
    if token.len() > 0 && all_digits(token) && decimal(token) <= i16::MAX {
        Some(decimal(token) as i16)
    } else {
        None
    }
}

/// The number of bytes from index `i` up to the next semicolon or the end.
pub open spec fn token_len(field: Seq<u8>, i: int) -> nat
    decreases field.len() - i,
{
    if 0 <= i < field.len() && field[i] != SEMICOLON {
        1 + token_len(field, i + 1)
    } else {
        0
    }
}

/// The values of the tokens of `field` from index `i` on. A semicolon at the
/// very end is followed by one more, empty, token.
pub open spec fn params_from(field: Seq<u8>, i: int) -> Seq<Option<i16>>
    decreases field.len() - i,
{
    let end = i + token_len(field, i);
    let head = seq![param_value(field.subrange(i, end))];
    if 0 <= i && end < field.len() {
        head + params_from(field, end + 1)
    } else {
        head
    }
}

/// The values of the tokens that the semicolons of `field` part, in order.
/// There is always at least one: an empty field is one empty token.
pub open spec fn parameters(field: Seq<u8>) -> Seq<Option<i16>> {
    params_from(field, 0)
}

/// No token has a negative value.
pub proof fn lemma_params_non_negative(field: Seq<u8>, i: int)
    ensures
        forall|k: int|
            0 <= k < params_from(field, i).len() ==> (#[trigger] params_from(field, i)[k] matches Some(
                v,
            ) ==> v >= 0),
    decreases field.len() - i,
{
    let end = i + token_len(field, i);
    if 0 <= i && end < field.len() {
        lemma_params_non_negative(field, end + 1);
    }
}

/// Reads one token as a number.
pub fn parse_param(token: &[u8]) -> (value: Option<i16>)
    ensures
        value == param_value(token@),
{
    let n: usize = token.len();
    if n == 0 {
        return None;
    }
    let mut acc: i16 = 0;
    let mut fits: bool = true;
    let mut i: usize = 0;
    while i < n
        invariant
            0 <= i <= n,
            n == token@.len(),
            all_digits(token@.subrange(0, i as int)),
            fits ==> 0 <= acc && acc as nat == decimal(token@.subrange(0, i as int)),
            !fits ==> decimal(token@.subrange(0, i as int)) > i16::MAX,
        decreases n - i,
    {
        let b: u8 = token[i];
        if b < 0x30 || b > 0x39 {
            return None;
        }
        let d: i16 = (b - 0x30) as i16;
        assert(token@.subrange(0, i + 1).drop_last() == token@.subrange(0, i as int));
        if fits {
            if acc > (i16::MAX - d) / 10 {
                fits = false;
            } else {
                acc = acc * 10 + d;
            }
        }
        i += 1;
    }
    assert(token@.subrange(0, n as int) == token@);
    if fits {
        Some(acc)
    } else {
        None
    }
}

/// Parts a parameter field at its semicolons and reads each token.
pub fn parse_parameters(field: &[u8]) -> (values: Vec<Option<i16>>)
    ensures
        values@ == parameters(field@),
{
    let n: usize = field.len();
    let mut values: Vec<Option<i16>> = Vec::new();
    let mut start: usize = 0;
    loop
        invariant_except_break
            values@ + params_from(field@, start as int) == parameters(field@),
        invariant
            0 <= start <= n,
            n == field@.len(),
        ensures
            values@ == parameters(field@),
        decreases n - start,
    {
        let mut end: usize = start;
        while end < n && field[end] != SEMICOLON
            invariant
                start <= end <= n,
                n == field@.len(),
                end + token_len(field@, end as int) == start + token_len(field@, start as int),
            decreases n - end,
        {
            end += 1;
        }
        let value = parse_param(slice_subrange(field, start, end));
        values.push(value);
        if end >= n {
            break;
        }
        start = end + 1;
    }
    values
}

} // verus!
