//! Attribute bits of the character-cell display, as the `ncurses` crate lays
//! them out.

use ncurses::attr_t;
use vstd::prelude::*;

verus! {

/// The empty attribute set: what a reset leaves behind.
pub const NORMAL: attr_t = 0;

/// Underlined text.
pub const UNDERLINE: attr_t = 0x0002_0000;

/// Foreground and background swapped.
pub const REVERSE: attr_t = 0x0004_0000;

/// Blinking text.
pub const BLINK: attr_t = 0x0008_0000;

/// Bold or bright text.
pub const BOLD: attr_t = 0x0020_0000;

/// Invisible text.
pub const INVISIBLE: attr_t = 0x0080_0000;

/// Trusted: `ncurses::A_UNDERLINE`. The crate computes the bit as
/// `1 << (9 + 8)`, with no input and no state.
#[verifier::external_body]
pub(crate) fn underline() -> (bits: attr_t)
    ensures
        bits == UNDERLINE,
{
    ncurses::A_UNDERLINE()
}

/// Trusted: `ncurses::A_REVERSE`. The crate computes the bit as
/// `1 << (10 + 8)`, with no input and no state.
#[verifier::external_body]
pub(crate) fn reverse() -> (bits: attr_t)
    ensures
        bits == REVERSE,
{
    ncurses::A_REVERSE()
}

/// Trusted: `ncurses::A_BLINK`. The crate computes the bit as
/// `1 << (11 + 8)`, with no input and no state.
#[verifier::external_body]
pub(crate) fn blink() -> (bits: attr_t)
    ensures
        bits == BLINK,
{
    ncurses::A_BLINK()
}

/// Trusted: `ncurses::A_BOLD`. The crate computes the bit as
/// `1 << (13 + 8)`, with no input and no state.
#[verifier::external_body]
pub(crate) fn bold() -> (bits: attr_t)
    ensures
        bits == BOLD,
{
    ncurses::A_BOLD()
}

/// Trusted: `ncurses::A_INVIS`. The crate computes the bit as
/// `1 << (15 + 8)`, with no input and no state.
#[verifier::external_body]
pub(crate) fn invisible() -> (bits: attr_t)
    ensures
        bits == INVISIBLE,
{
    ncurses::A_INVIS()
}

} // verus!
