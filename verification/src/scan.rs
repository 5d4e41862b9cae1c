//! The scanner: what is left of a text once its control sequences are taken
//! out, and the style changes that they ask for, each at the offset into the
//! cleaned text where it takes effect.

use crate::sequence::{
    find_sequence, has_sequence, lemma_next_sequence, next_sequence, sequence_end, ESC,
};
use crate::sgr::{resolve, resolved, ColorState};
use vstd::prelude::*;
use vstd::slice::slice_subrange;

verus! {

/// What is left of the bytes from index `i` on: every control sequence, taken
/// from left to right with the next search starting behind the last match, is
/// dropped, and every other byte kept in place.
pub open spec fn strip_from(s: Seq<u8>, i: int) -> Seq<u8>
    decreases s.len() - i,
{
    if i < 0 || i >= s.len() {
        Seq::empty()
    } else {
        match sequence_end(s, i) {
            Some(end) => strip_from(s, end),
            None => seq![s[i]] + strip_from(s, i + 1),
        }
    }
}

/// The text without its control sequences.
pub open spec fn stripped(s: Seq<u8>) -> Seq<u8> {
    strip_from(s, 0)
}

/// The style changes of the sequences that begin at index `i` or later, where
/// `at` bytes of cleaned text stand before index `i`. A sequence that asks
/// for nothing leaves no entry.
pub open spec fn changes_from(s: Seq<u8>, i: int, at: int) -> Seq<(int, ColorState)>
    decreases s.len() - i,
{
    if i < 0 || i >= s.len() {
        Seq::empty()
    } else {
        match sequence_end(s, i) {
            Some(end) => match resolved(s.subrange(i, end)) {
                Some(state) => seq![(at, state)] + changes_from(s, end, at),
                None => changes_from(s, end, at),
            },
            None => changes_from(s, i + 1, at + 1),
        }
    }
}

/// The style changes of a text, in the order of their sequences: each with
/// the length that the cleaned text had when its sequence was met.
pub open spec fn style_changes(s: Seq<u8>) -> Seq<(int, ColorState)> {
    changes_from(s, 0, 0)
}

/// The entries of a list of changes with their offsets as mathematical
/// integers.
pub open spec fn positions(changes: Seq<(usize, ColorState)>) -> Seq<(int, ColorState)> {
    changes.map_values(|c: (usize, ColorState)| (c.0 as int, c.1))
}

/// Up to the next control sequence the text is kept as it is; behind the
/// last one, all of it.
pub proof fn lemma_strip_gap(s: Seq<u8>, from: int)
    requires
        0 <= from <= s.len(),
    ensures
        match next_sequence(s, from) {
            Some((start, end)) => strip_from(s, from) == s.subrange(from, start) + strip_from(
                s,
                end,
            ),
            None => strip_from(s, from) == s.subrange(from, s.len() as int),
        },
    decreases s.len() - from,
{
    lemma_next_sequence(s, from);
    if from < s.len() && sequence_end(s, from) is None {
        lemma_strip_gap(s, from + 1);
        lemma_next_sequence(s, from + 1);
    }
}

/// A stretch without an escape character is kept whole.
pub proof fn lemma_strip_plain(s: Seq<u8>, from: int, to: int)
    requires
        0 <= from <= to <= s.len(),
        forall|k: int| from <= k < to ==> #[trigger] s[k] != ESC,
    ensures
        strip_from(s, from) == s.subrange(from, to) + strip_from(s, to),
    decreases to - from,
{
    if from < to {
        lemma_strip_plain(s, from + 1, to);
    }
}

/// The bytes kept up to the next control sequence move the offset of its
/// style change by their number; behind the last one there is no change.
pub proof fn lemma_changes_gap(s: Seq<u8>, from: int, at: int)
    requires
        0 <= from <= s.len(),
    ensures
        match next_sequence(s, from) {
            Some((start, end)) => changes_from(s, from, at) == changes_from(
                s,
                start,
                at + (start - from),
            ),
            None => changes_from(s, from, at) == Seq::<(int, ColorState)>::empty(),
        },
    decreases s.len() - from,
{
    if from < s.len() && sequence_end(s, from) is None {
        lemma_changes_gap(s, from + 1, at + 1);
    }
}

/// The offsets of `changes` lie between `low` and `high` and never fall from
/// one entry to the next.
pub open spec fn offsets_ordered(changes: Seq<(int, ColorState)>, low: int, high: int) -> bool {
    &&& forall|k: int| 0 <= k < changes.len() ==> low <= (#[trigger] changes[k]).0 <= high
    &&& forall|j: int, k: int|
        0 <= j <= k < changes.len() ==> (#[trigger] changes[j]).0 <= (#[trigger] changes[k]).0
}

/// The style changes from index `from` on stand at offsets that begin at
/// `at`, never fall, and end inside the cleaned text.
pub proof fn lemma_changes_ordered(s: Seq<u8>, from: int, at: int)
    requires
        0 <= from <= s.len(),
    ensures
        offsets_ordered(changes_from(s, from, at), at, at + strip_from(s, from).len()),
    decreases s.len() - from,
{
    if from < s.len() {
        match sequence_end(s, from) {
            Some(end) => {
                lemma_next_sequence(s, from);
                lemma_changes_ordered(s, end, at);
            },
            None => {
                lemma_changes_ordered(s, from + 1, at + 1);
            },
        }
    }
}

/// Every style change of a text stands at an offset inside its cleaned text,
/// the end included, and the offsets never fall from one change to the next.
pub proof fn lemma_offsets_ordered(s: Seq<u8>)
    ensures
        offsets_ordered(style_changes(s), 0, stripped(s).len() as int),
{
    lemma_changes_ordered(s, 0, 0);
}

/// A text in which no control sequence begins is its own cleaned text and
/// has no style change.
pub proof fn lemma_plain_text_unchanged(s: Seq<u8>)
    requires
        !has_sequence(s),
    ensures
        stripped(s) == s,
        style_changes(s) == Seq::<(int, ColorState)>::empty(),
{
    lemma_next_sequence(s, 0);
    lemma_strip_gap(s, 0);
    lemma_changes_gap(s, 0, 0);
}

/// Cleaning a cleaned text once more gives the same text and no style
/// change, where no control sequence begins in the cleaned text.
///
/// The condition is needed: taking a sequence out can bring an escape
/// character and the rest of a sequence together, as in the text of an escape
/// character followed by the sequence `ESC [ 1 m` and the bytes `[ 1 m`.
pub proof fn lemma_strip_idempotent(s: Seq<u8>)
    requires
        !has_sequence(stripped(s)),
    ensures
        stripped(stripped(s)) == stripped(s),
        style_changes(stripped(s)) == Seq::<(int, ColorState)>::empty(),
{
    lemma_plain_text_unchanged(stripped(s));
}

/// Where every escape character of a text begins a control sequence, none
/// is left in what the bytes from `from` on are cleaned to.
pub proof fn lemma_strip_drops_escapes(s: Seq<u8>, from: int)
    requires
        forall|i: int| 0 <= i < s.len() && s[i] == ESC ==> (#[trigger] sequence_end(s, i)) is Some,
    ensures
        forall|k: int| 0 <= k < strip_from(s, from).len() ==> #[trigger] strip_from(s, from)[k] != ESC,
    decreases s.len() - from,
{
    if 0 <= from < s.len() {
        match sequence_end(s, from) {
            Some(end) => {
                lemma_strip_drops_escapes(s, end);
                assert(strip_from(s, from) == strip_from(s, end));
            },
            None => {
                lemma_strip_drops_escapes(s, from + 1);
                let rest = strip_from(s, from + 1);
                assert forall|k: int| 0 <= k < strip_from(s, from).len() implies #[trigger] strip_from(
                    s,
                    from,
                )[k] != ESC by {
                    if k > 0 {
                        assert(strip_from(s, from)[k] == rest[k - 1]);
                    }
                }
            },
        }
    }
}

/// Where every escape character of a text begins a control sequence, the
/// cleaned text holds no sequence, so that cleaning it once more gives the
/// same text and no style change.
pub proof fn lemma_strip_idempotent_well_formed(s: Seq<u8>)
    requires
        forall|i: int| 0 <= i < s.len() && s[i] == ESC ==> (#[trigger] sequence_end(s, i)) is Some,
    ensures
        !has_sequence(stripped(s)),
        stripped(stripped(s)) == stripped(s),
        style_changes(stripped(s)) == Seq::<(int, ColorState)>::empty(),
{
    lemma_strip_drops_escapes(s, 0);
    lemma_strip_idempotent(s);
}

/// Takes the control sequences out of `bytes` and lists what they ask for.
///
/// The first part of the result is the cleaned text. The second holds, for
/// each sequence that asks for something, the length of the cleaned text at
/// the place of the sequence and the state that its parameters lead to.
pub fn scan(bytes: &[u8]) -> (out: (Vec<u8>, Vec<(usize, ColorState)>))
    ensures
        out.0@ == stripped(bytes@),
        positions(out.1@) == style_changes(bytes@),
        offsets_ordered(positions(out.1@), 0, out.0@.len() as int),
{
    let n: usize = bytes.len();
    let mut text: Vec<u8> = Vec::new();
    let mut changes: Vec<(usize, ColorState)> = Vec::new();
    let mut last: usize = 0;
    loop
        invariant_except_break
            text@ + strip_from(bytes@, last as int) == stripped(bytes@),
            positions(changes@) + changes_from(bytes@, last as int, text@.len() as int)
                == style_changes(bytes@),
        invariant
            0 <= last <= n,
            n == bytes@.len(),
        ensures
            text@ == stripped(bytes@),
            positions(changes@) == style_changes(bytes@),
        decreases n - last,
    {
        proof {
            lemma_next_sequence(bytes@, last as int);
            lemma_strip_gap(bytes@, last as int);
            lemma_changes_gap(bytes@, last as int, text@.len() as int);
        }
        match find_sequence(bytes, last) {
            Some((start, end)) => {
                append(&mut text, slice_subrange(bytes, last, start));
                let code = slice_subrange(bytes, start, end);
                match resolve(code) {
                    Some(state) => {
                        changes.push((text.len(), state));
                    },
                    None => {},
                }
                last = end;
            },
            None => {
                append(&mut text, slice_subrange(bytes, last, n));
                break;
            },
        }
    }
    proof {
        lemma_offsets_ordered(bytes@);
    }
    (text, changes)
}

/// Copies `piece` to the end of `text`.
fn append(text: &mut Vec<u8>, piece: &[u8])
    ensures
        final(text)@ == old(text)@ + piece@,
{
    let n: usize = piece.len();
    let mut i: usize = 0;
    while i < n
        invariant
            0 <= i <= n,
            n == piece@.len(),
            text@ == old(text)@ + piece@.subrange(0, i as int),
        decreases n - i,
    {
        text.push(piece[i]);
        i += 1;
    }
}

} // verus!
