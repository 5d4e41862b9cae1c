//! The grammar of the control sequences that the scanner removes: the escape
//! character, `[`, any number of digits and semicolons, then `m` or `K`.

use vstd::prelude::*;

verus! {

/// The escape character that opens a control sequence.
pub const ESC: u8 = 0x1b;

/// `[`, the second byte of the introducer.
pub const BRACKET: u8 = 0x5b;

/// `;`, which separates the parameters.
pub const SEMICOLON: u8 = 0x3b;

/// `m`, which ends a sequence that selects a graphic rendition.
pub const STYLE_FINAL: u8 = 0x6d;

/// `K`, which ends a sequence that erases in the line.
pub const ERASE_FINAL: u8 = 0x4b;

/// An ASCII decimal digit.
pub open spec fn is_digit(b: u8) -> bool {
    0x30 <= b <= 0x39
}

/// A byte that may stand in the parameter field: a digit or a semicolon.
pub open spec fn is_param_byte(b: u8) -> bool {
    is_digit(b) || b == SEMICOLON
}

/// A byte that ends a sequence.
pub open spec fn is_final_byte(b: u8) -> bool {
    b == STYLE_FINAL || b == ERASE_FINAL
}

/// `s` is one whole control sequence, from its escape character to its final
/// byte.
pub open spec fn is_sequence(s: Seq<u8>) -> bool {
    &&& s.len() >= 3
    &&& s[0] == ESC
    &&& s[1] == BRACKET
    &&& forall|k: int| 2 <= k < s.len() - 1 ==> is_param_byte(#[trigger] s[k])
    &&& is_final_byte(s[s.len() - 1])
}

/// The number of parameter bytes that stand in a row from index `i` on.
pub open spec fn param_run(s: Seq<u8>, i: int) -> nat
    decreases s.len() - i,
{
    if 0 <= i < s.len() && is_param_byte(s[i]) {
        1 + param_run(s, i + 1)
    } else {
        0
    }
}

/// The index just behind the control sequence that begins at `i`, or `None`
/// where none begins there.
pub open spec fn sequence_end(s: Seq<u8>, i: int) -> Option<int> {
    if 0 <= i && i + 2 < s.len() && s[i] == ESC && s[i + 1] == BRACKET {
        let last = i + 2 + param_run(s, i + 2);
        if last < s.len() && is_final_byte(s[last]) {
            Some(last + 1)
        } else {
            None
        }
    } else {
        None
    }
}

/// The first control sequence that begins at `from` or later, as the pair of
/// its first index and the index just behind it.
pub open spec fn next_sequence(s: Seq<u8>, from: int) -> Option<(int, int)>
    decreases s.len() - from,
{
    if from < 0 || from >= s.len() {
        None
    } else {
        match sequence_end(s, from) {
            Some(end) => Some((from, end)),
            None => next_sequence(s, from + 1),
        }
    }
}

/// Some control sequence begins somewhere in `s`.
pub open spec fn has_sequence(s: Seq<u8>) -> bool {
    exists|i: int| (#[trigger] sequence_end(s, i)) is Some
}

/// The bytes counted by `param_run` are parameter bytes, and the byte behind
/// them, if there is one, is not.
pub proof fn lemma_param_run(s: Seq<u8>, i: int)
    requires
        0 <= i <= s.len(),
    ensures
        i + param_run(s, i) <= s.len(),
        forall|k: int| i <= k < i + param_run(s, i) ==> is_param_byte(#[trigger] s[k]),
        i + param_run(s, i) < s.len() ==> !is_param_byte(s[i + param_run(s, i)]),
    decreases s.len() - i,
{
    if i < s.len() && is_param_byte(s[i]) {
        lemma_param_run(s, i + 1);
    }
}

/// A stretch of parameter bytes that ends before a byte of another kind is
/// exactly what `param_run` counts.
pub proof fn lemma_param_run_unique(s: Seq<u8>, i: int, j: int)
    requires
        0 <= i <= j <= s.len(),
        forall|k: int| i <= k < j ==> is_param_byte(#[trigger] s[k]),
        j < s.len() ==> !is_param_byte(s[j]),
    ensures
        i + param_run(s, i) == j,
    decreases j - i,
{
    if i < j {
        lemma_param_run_unique(s, i + 1, j);
    }
}

/// `sequence_end` finds exactly the stretches that are control sequences:
/// one ends at `j` if and only if the bytes from `i` up to `j` form one.
pub proof fn lemma_sequence_end_iff(s: Seq<u8>, i: int, j: int)
    ensures
        sequence_end(s, i) == Some(j) <==> (0 <= i <= j <= s.len() && is_sequence(
            s.subrange(i, j),
        )),
{
    if 0 <= i && i + 2 < s.len() {
        lemma_param_run(s, i + 2);
    }
    if sequence_end(s, i) == Some(j) {
        let t = s.subrange(i, j);
        assert forall|k: int| 2 <= k < t.len() - 1 implies is_param_byte(#[trigger] t[k]) by {
            assert(t[k] == s[i + k]);
        }
    }
    if 0 <= i <= j <= s.len() && is_sequence(s.subrange(i, j)) {
        let t = s.subrange(i, j);
        assert forall|k: int| i + 2 <= k < j - 1 implies is_param_byte(#[trigger] s[k]) by {
            assert(s[k] == t[k - i]);
        }
        lemma_param_run_unique(s, i + 2, j - 1);
    }
}

/// A control sequence lies inside the text, is at least three bytes long,
/// and holds no escape character but its first byte.
pub proof fn lemma_sequence_shape(s: Seq<u8>, i: int)
    requires
        sequence_end(s, i) is Some,
    ensures
        0 <= i,
        i + 3 <= sequence_end(s, i)->0 <= s.len(),
        s[i] == ESC,
        forall|k: int| i < k < sequence_end(s, i)->0 ==> #[trigger] s[k] != ESC,
        forall|k: int| i <= k < sequence_end(s, i)->0 ==> #[trigger] s[k] < 0x80,
{
    lemma_param_run(s, i + 2);
}

/// `next_sequence` finds the leftmost: a sequence begins at the index it
/// gives and none begins between `from` and there; where it gives `None`,
/// none begins at `from` or later.
pub proof fn lemma_next_sequence(s: Seq<u8>, from: int)
    requires
        0 <= from,
    ensures
        match next_sequence(s, from) {
            Some((start, end)) => {
                &&& from <= start < end <= s.len()
                &&& sequence_end(s, start) == Some(end)
                &&& forall|k: int| from <= k < start ==> (#[trigger] sequence_end(s, k)) is None
            },
            None => forall|k: int| from <= k ==> (#[trigger] sequence_end(s, k)) is None,
        },
    decreases s.len() - from,
{
    if from < s.len() {
        match sequence_end(s, from) {
            Some(end) => {
                lemma_sequence_shape(s, from);
            },
            None => {
                lemma_next_sequence(s, from + 1);
            },
        }
    }
}

/// Executable test of [`is_param_byte`].
pub fn param_byte(b: u8) -> (r: bool)
    ensures
        r == is_param_byte(b),
{
    (0x30 <= b && b <= 0x39) || b == SEMICOLON
}

/// Executable test of [`is_final_byte`].
pub fn final_byte(b: u8) -> (r: bool)
    ensures
        r == is_final_byte(b),
{
    b == STYLE_FINAL || b == ERASE_FINAL
}

/// Tells whether a control sequence begins at index `at`, and where it ends.
pub fn sequence_at(bytes: &[u8], at: usize) -> (end: Option<usize>)
    ensures
        match end {
            Some(e) => sequence_end(bytes@, at as int) == Some(e as int),
            None => sequence_end(bytes@, at as int) is None,
        },
{
    let n: usize = bytes.len();
    if n < 3 || at >= n - 2 {
        return None;
    }
    if bytes[at] != ESC || bytes[at + 1] != BRACKET {
        return None;
    }
    let mut j: usize = at + 2;
    while j < n && param_byte(bytes[j])
        invariant
            at + 2 <= j <= n,
            n == bytes@.len(),
            j + param_run(bytes@, j as int) == at + 2 + param_run(bytes@, at + 2),
        decreases n - j,
    {
        j += 1;
    }
    if j < n && final_byte(bytes[j]) {
        Some(j + 1)
    } else {
        None
    }
}

/// Finds the first control sequence that begins at `from` or later.
pub fn find_sequence(bytes: &[u8], from: usize) -> (found: Option<(usize, usize)>)
    ensures
        match found {
            Some((start, end)) => next_sequence(bytes@, from as int) == Some(
                (start as int, end as int),
            ),
            None => next_sequence(bytes@, from as int) is None,
        },
{
    let n: usize = bytes.len();
    let mut i: usize = from;
    while i < n
        invariant
            from <= i,
            n == bytes@.len(),
            next_sequence(bytes@, i as int) == next_sequence(bytes@, from as int),
        decreases n - i,
    {
        match sequence_at(bytes, i) {
            Some(end) => {
                return Some((i, end));
            },
            None => {
                i += 1;
            },
        }
    }
    None
}

} // verus!
