//! The scanner on text: strings in, a string and display attributes out, with
//! the colour pairs looked up by a function that the caller hands in.

use crate::scan::{
    lemma_offsets_ordered, lemma_strip_plain, positions, scan, strip_from, stripped, style_changes,
};
use crate::sequence::{lemma_sequence_shape, sequence_end};
use crate::sgr::{resolve, resolved, ColorState};
use ncurses::attr_t;
use vstd::pervasive::unreached;
use vstd::prelude::*;
use vstd::string::*;
use vstd::utf8::*;

verus! {

/// `attr` is what the display shows for `state`: its bits alone where both
/// colours are at their default, and otherwise its bits joined with some
/// result of `pairs` for its two colour indices.
pub open spec fn shown_as<F: Fn(i16, i16) -> attr_t>(
    state: ColorState,
    pairs: &F,
    attr: attr_t,
) -> bool {
    if state.has_color() {
        exists|pair: attr_t|
            call_ensures(*pairs, (state.fg, state.bg), pair) && attr == state.attr | pair
    } else {
        attr == state.attr
    }
}

/// `pairs` may be called for the colours of `state`, where it has any.
pub open spec fn may_look_up<F: Fn(i16, i16) -> attr_t>(state: ColorState, pairs: &F) -> bool {
    state.has_color() ==> call_requires(*pairs, (state.fg, state.bg))
}

/// The attribute of a state, with its colour pair looked up where it has a
/// colour.
pub fn attribute<F: Fn(i16, i16) -> attr_t>(state: &ColorState, pairs: &F) -> (attr: attr_t)
    requires
        may_look_up(*state, pairs),
    ensures
        shown_as(*state, pairs, attr),
{
    if state.colored() {
        let pair: attr_t = pairs(state.fg, state.bg);
        state.paint(pair)
    } else {
        state.attr
    }
}

/// Every state in `changes` may have its colours looked up by `pairs`.
pub open spec fn may_look_up_all<F: Fn(i16, i16) -> attr_t>(
    changes: Seq<(int, ColorState)>,
    pairs: &F,
) -> bool {
    forall|k: int| 0 <= k < changes.len() ==> may_look_up((#[trigger] changes[k]).1, pairs)
}

/// `events` are the changes of `changes` as the display takes them: as many,
/// at the same offsets, each attribute one that `pairs` gives for its state.
pub open spec fn events_show<F: Fn(i16, i16) -> attr_t>(
    events: Seq<(usize, attr_t)>,
    changes: Seq<(int, ColorState)>,
    pairs: &F,
) -> bool {
    &&& events.len() == changes.len()
    &&& forall|k: int|
        0 <= k < events.len() ==> {
            &&& (#[trigger] events[k]).0 == changes[k].0
            &&& shown_as(changes[k].1, pairs, events[k].1)
        }
}

/// Bytes below `0x80` at the head of well-formed UTF-8 are characters of
/// their own: what follows them is well-formed too.
proof fn lemma_skip_ascii(s: Seq<u8>, from: int, to: int)
    requires
        0 <= from <= to <= s.len(),
        valid_utf8(s.subrange(from, s.len() as int)),
        forall|k: int| from <= k < to ==> #[trigger] s[k] < 0x80,
    ensures
        valid_utf8(s.subrange(to, s.len() as int)),
    decreases to - from,
{
    if from < to {
        let rest = s.subrange(from, s.len() as int);
        assert(pop_first_scalar(rest) == s.subrange(from + 1, s.len() as int));
        lemma_skip_ascii(s, from + 1, to);
    }
}

/// Taking the control sequences out of well-formed UTF-8 leaves well-formed
/// UTF-8: a sequence is made of whole one-byte characters, and no byte
/// inside a longer character begins one.
pub proof fn lemma_strip_keeps_utf8(s: Seq<u8>, from: int)
    requires
        0 <= from <= s.len(),
        valid_utf8(s.subrange(from, s.len() as int)),
    ensures
        valid_utf8(strip_from(s, from)),
    decreases s.len() - from,
{
    if from < s.len() {
        let rest = s.subrange(from, s.len() as int);
        match sequence_end(s, from) {
            Some(end) => {
                lemma_sequence_shape(s, from);
                lemma_skip_ascii(s, from, end);
                lemma_strip_keeps_utf8(s, end);
            },
            None => {
                let width = length_of_first_scalar(rest);
                let first = take_first_scalar(rest);
                assert(pop_first_scalar(rest) == s.subrange(from + width, s.len() as int));
                lemma_strip_keeps_utf8(s, from + width);
                lemma_strip_plain(s, from + 1, from + width);
                assert(strip_from(s, from) == first + strip_from(s, from + width));
                assert(valid_utf8(first)) by {
                    reveal_with_fuel(valid_utf8, 2);
                }
                valid_utf8_concat(first, strip_from(s, from + width));
            },
        }
    }
}

/// Trusted: `String::from_utf8`. It gives a string exactly where the bytes
/// are well-formed UTF-8, and that string is made of those bytes.
#[verifier::external_body]
fn string_of(bytes: Vec<u8>) -> (text: Option<String>)
    ensures
        text is Some <==> valid_utf8(bytes@),
        text matches Some(t) ==> encode_utf8(t@) == bytes@,
{
    match String::from_utf8(bytes) {
        Ok(text) => Some(text),
        Err(_) => None,
    }
}

/// Interprets one control sequence: the attribute that it asks the display
/// for, or `None` where it asks for nothing.
///
/// `pairs` is called once, with the foreground and the background index,
/// where the sequence leaves a colour on either; `-1` is the default colour.
pub fn interpret_code<F: Fn(i16, i16) -> attr_t>(code: &str, pairs: F) -> (attr: Option<attr_t>)
    requires
        resolved(encode_utf8(code@)) matches Some(state) ==> may_look_up(state, &pairs),
    ensures
        match resolved(encode_utf8(code@)) {
            Some(state) => attr matches Some(a) && shown_as(state, &pairs, a),
            None => attr is None,
        },
{
    match resolve(code.as_bytes()) {
        Some(state) => Some(attribute(&state, &pairs)),
        None => None,
    }
}

/// Parts a text into its cleaned text and its style events.
///
/// The string is the text without its control sequences. Each event is the
/// byte offset into that string at which a sequence stood, with the attribute
/// that it asks for; sequences that ask for nothing leave no event. `pairs`
/// is called once for each event that has a colour, in the order of the
/// events.
pub fn parse_ansi<F: Fn(i16, i16) -> attr_t>(text: &str, pairs: F) -> (out: (
    String,
    Vec<(usize, attr_t)>,
))
    requires
        may_look_up_all(style_changes(encode_utf8(text@)), &pairs),
    ensures
        encode_utf8(out.0@) == stripped(encode_utf8(text@)),
        out.0@ == decode_utf8(stripped(encode_utf8(text@))),
        events_show(out.1@, style_changes(encode_utf8(text@)), &pairs),
        forall|k: int| 0 <= k < out.1@.len() ==> (#[trigger] out.1@[k]).0 <= encode_utf8(out.0@).len(),
        forall|j: int, k: int|
            0 <= j <= k < out.1@.len() ==> (#[trigger] out.1@[j]).0 <= (#[trigger] out.1@[k]).0,
{
    let bytes = text.as_bytes();
    let (clean, changes) = scan(bytes);
    let n: usize = changes.len();
    let mut events: Vec<(usize, attr_t)> = Vec::new();
    let mut k: usize = 0;
    while k < n
        invariant
            0 <= k <= n,
            n == changes@.len(),
            positions(changes@) == style_changes(encode_utf8(text@)),
            may_look_up_all(style_changes(encode_utf8(text@)), &pairs),
            events_show(events@, style_changes(encode_utf8(text@)).subrange(0, k as int), &pairs),
        decreases n - k,
    {
        let (offset, state) = changes[k];
        assert(positions(changes@)[k as int] == (offset as int, state));
        let attr: attr_t = attribute(&state, &pairs);
        events.push((offset, attr));
        k += 1;
    }
    proof {
        encode_utf8_valid_utf8(text@);
        assert(bytes@.subrange(0, bytes@.len() as int) == bytes@);
        lemma_strip_keeps_utf8(bytes@, 0);
        lemma_offsets_ordered(bytes@);
    }
    match string_of(clean) {
        Some(cleaned) => {
            proof {
                encode_utf8_decode_utf8(cleaned@);
            }
            (cleaned, events)
        },
        None => unreached(),
    }
}

} // verus!
