//! What one control sequence asks for: the state machine that turns its
//! parameters into attribute bits and a pair of colour indices.

use crate::attr::{blink, bold, invisible, reverse, underline};
use crate::attr::{BLINK, BOLD, INVISIBLE, NORMAL, REVERSE, UNDERLINE};
use crate::param::{lemma_params_non_negative, parameters, parse_parameters};
use crate::sequence::STYLE_FINAL;
use ncurses::attr_t;
use vstd::prelude::*;
use vstd::slice::slice_subrange;

verus! {

/// The colour index that stands for the terminal's own default.
pub const DEFAULT_COLOR: i16 = -1;

/// The channel that an extended colour selection sets.
#[derive(Clone, Copy, Debug, PartialEq, Eq, Structural)]
pub enum Target {
    Foreground,
    Background,
}

/// Where the machine stands between two parameters.
#[derive(Clone, Copy, Debug, PartialEq, Eq, Structural)]
pub enum Phase {
    /// The next parameter is a code of its own.
    Base,
    /// `38` or `48` was read: the next parameter must be `5`.
    ExpectMode,
    /// `38;5` or `48;5` was read: the next parameter is the colour index.
    ExpectIndex,
}

/// The state that the parameters of one sequence build up.
#[derive(Clone, Copy, Debug, PartialEq, Eq, Structural)]
pub struct ColorState {
    /// The attribute bits set so far.
    pub attr: attr_t,
    /// The foreground index, or [`DEFAULT_COLOR`].
    pub fg: i16,
    /// The background index, or [`DEFAULT_COLOR`].
    pub bg: i16,
    /// The channel of the extended selection that was begun last.
    pub target: Target,
    /// What the next parameter is taken for.
    pub phase: Phase,
}

impl ColorState {
    /// The state before the first parameter: no bit set, both colours at
    /// their default.
    pub open spec fn initial() -> ColorState {
        ColorState {
            attr: NORMAL,
            fg: DEFAULT_COLOR,
            bg: DEFAULT_COLOR,
            target: Target::Foreground,
            phase: Phase::Base,
        }
    }

    /// The state after a code read in the base phase. `0` clears the bits and
    /// leaves the colours; a code of no meaning changes nothing.
    pub open spec fn dispatched(self, code: i16) -> ColorState {
        if code == 0 {
            ColorState { attr: NORMAL, ..self }
        } else if code == 1 {
            ColorState { attr: self.attr | BOLD, ..self }
        } else if code == 4 {
            ColorState { attr: self.attr | UNDERLINE, ..self }
        } else if code == 5 {
            ColorState { attr: self.attr | BLINK, ..self }
        } else if code == 7 {
            ColorState { attr: self.attr | REVERSE, ..self }
        } else if code == 8 {
            ColorState { attr: self.attr | INVISIBLE, ..self }
        } else if code == 38 {
            ColorState { target: Target::Foreground, phase: Phase::ExpectMode, ..self }
        } else if code == 48 {
            ColorState { target: Target::Background, phase: Phase::ExpectMode, ..self }
        } else if code == 39 {
            ColorState { fg: DEFAULT_COLOR, ..self }
        } else if code == 49 {
            ColorState { bg: DEFAULT_COLOR, ..self }
        } else if 30 <= code <= 37 {
            ColorState { fg: (code - 30) as i16, ..self }
        } else if 40 <= code <= 47 {
            ColorState { bg: (code - 40) as i16, ..self }
        } else {
            self
        }
    }

    /// The state after one parameter; `None` is a token that has no value.
    ///
    /// In the base phase such a token counts as `0`. While an extended
    /// selection waits for its mode, anything but `5` ends the selection and
    /// is used up. While it waits for its index, the parameter becomes the
    /// colour of the target channel as it is, and a token without a value
    /// becomes the default colour.
    pub open spec fn after(self, param: Option<i16>) -> ColorState {
        match self.phase {
            Phase::Base => self.dispatched(
                match param {
                    Some(code) => code,
                    None => 0,
                },
            ),
            Phase::ExpectMode => if param == Some(5i16) {
                ColorState { phase: Phase::ExpectIndex, ..self }
            } else {
                ColorState { phase: Phase::Base, ..self }
            },
            Phase::ExpectIndex => {
                let index = match param {
                    Some(index) => index,
                    None => DEFAULT_COLOR,
                };
                match self.target {
                    Target::Foreground => ColorState { fg: index, phase: Phase::Base, ..self },
                    Target::Background => ColorState { bg: index, phase: Phase::Base, ..self },
                }
            },
        }
    }

    /// The state after a row of parameters, taken from left to right.
    pub open spec fn after_all(self, params: Seq<Option<i16>>) -> ColorState
        decreases params.len(),
    {
        if params.len() == 0 {
            self
        } else {
            self.after_all(params.drop_last()).after(params.last())
        }
    }

    /// At least one channel has a colour of its own, so that a colour pair
    /// has to be looked up.
    pub open spec fn has_color(self) -> bool {
        self.fg != DEFAULT_COLOR || self.bg != DEFAULT_COLOR
    }

    /// The attribute that the state stands for, once the colour pair of its
    /// two indices is known to contribute `pair`.
    pub open spec fn painted(self, pair: attr_t) -> attr_t {
        if self.has_color() {
            self.attr | pair
        } else {
            self.attr
        }
    }

    /// Neither colour index lies below the default colour.
    pub open spec fn in_range(self) -> bool {
        self.fg >= DEFAULT_COLOR && self.bg >= DEFAULT_COLOR
    }

    /// Parameters that are not negative keep both colour indices at the
    /// default colour or above it.
    pub proof fn lemma_after_all_in_range(self, params: Seq<Option<i16>>)
        requires
            self.in_range(),
            forall|k: int| 0 <= k < params.len() ==> (#[trigger] params[k] matches Some(v) ==> v >= 0),
        ensures
            self.after_all(params).in_range(),
        decreases params.len(),
    {
        if params.len() > 0 {
            self.lemma_after_all_in_range(params.drop_last());
        }
    }

    /// Makes the state that stands before the first parameter.
    pub fn new() -> (state: ColorState)
        ensures
            state == ColorState::initial(),
    {
        ColorState {
            attr: NORMAL,
            fg: DEFAULT_COLOR,
            bg: DEFAULT_COLOR,
            target: Target::Foreground,
            phase: Phase::Base,
        }
    }

    /// Takes one parameter.
    pub fn step(self, param: Option<i16>) -> (next: ColorState)
        ensures
            next == self.after(param),
    {
        let mut next = self;
        match self.phase {
            Phase::Base => {
                let code: i16 = match param {
                    Some(code) => code,
                    None => 0,
                };
                if code == 0 {
                    next.attr = NORMAL;
                } else if code == 1 {
                    next.attr = self.attr | bold();
                } else if code == 4 {
                    next.attr = self.attr | underline();
                } else if code == 5 {
                    next.attr = self.attr | blink();
                } else if code == 7 {
                    next.attr = self.attr | reverse();
                } else if code == 8 {
                    next.attr = self.attr | invisible();
                } else if code == 38 {
                    next.target = Target::Foreground;
                    next.phase = Phase::ExpectMode;
                } else if code == 48 {
                    next.target = Target::Background;
                    next.phase = Phase::ExpectMode;
                } else if code == 39 {
                    next.fg = DEFAULT_COLOR;
                } else if code == 49 {
                    next.bg = DEFAULT_COLOR;
                } else if 30 <= code && code <= 37 {
                    next.fg = code - 30;
                } else if 40 <= code && code <= 47 {
                    next.bg = code - 40;
                }
            },
            Phase::ExpectMode => {
                let is_indexed: bool = match param {
                    Some(mode) => mode == 5,
                    None => false,
                };
                if is_indexed {
                    next.phase = Phase::ExpectIndex;
                } else {
                    next.phase = Phase::Base;
                }
            },
            Phase::ExpectIndex => {
                let index: i16 = match param {
                    Some(index) => index,
                    None => DEFAULT_COLOR,
                };
                match self.target {
                    Target::Foreground => {
                        next.fg = index;
                    },
                    Target::Background => {
                        next.bg = index;
                    },
                }
                next.phase = Phase::Base;
            },
        }
        next
    }

    /// Takes a row of parameters, from left to right.
    pub fn run(self, params: &[Option<i16>]) -> (end: ColorState)
        ensures
            end == self.after_all(params@),
    {
        let n: usize = params.len();
        let mut state = self;
        let mut i: usize = 0;
        while i < n
            invariant
                0 <= i <= n,
                n == params@.len(),
                state == self.after_all(params@.subrange(0, i as int)),
            decreases n - i,
        {
            assert(params@.subrange(0, i + 1).drop_last() == params@.subrange(0, i as int));
            state = state.step(params[i]);
            i += 1;
        }
        assert(params@.subrange(0, n as int) == params@);
        state
    }

    /// Tells whether a colour pair has to be looked up.
    pub fn colored(&self) -> (yes: bool)
        ensures
            yes == self.has_color(),
    {
        self.fg != DEFAULT_COLOR || self.bg != DEFAULT_COLOR
    }

    /// Joins the bits with what the colour pair contributes. `pair` is not
    /// looked at where both colours are at their default.
    pub fn paint(&self, pair: attr_t) -> (attr: attr_t)
        ensures
            attr == self.painted(pair),
    {
        if self.colored() {
            self.attr | pair
        } else {
            self.attr
        }
    }
}

/// The state that a control sequence leaves the machine in, or `None` where
/// the sequence asks for nothing: where it does not end in `m`, or has no
/// byte between its introducer and its final byte.
///
/// The two bytes of the introducer are passed over, as the caller has
/// matched them.
pub open spec fn resolved(code: Seq<u8>) -> Option<ColorState> {
    if code.len() > 3 && code[code.len() - 1] == STYLE_FINAL {
        Some(ColorState::initial().after_all(parameters(code.subrange(2, code.len() - 1))))
    } else {
        None
    }
}

/// Whatever a control sequence holds, it leaves neither colour index below
/// the default colour.
pub proof fn lemma_resolved_in_range(code: Seq<u8>)
    ensures
        resolved(code) matches Some(state) ==> state.in_range(),
{
    if code.len() > 3 {
        let field = code.subrange(2, code.len() - 1);
        lemma_params_non_negative(field, 0);
        ColorState::initial().lemma_after_all_in_range(parameters(field));
    }
}

/// Runs the machine over the parameters of one control sequence.
pub fn resolve(code: &[u8]) -> (state: Option<ColorState>)
    ensures
        state == resolved(code@),
        state matches Some(s) ==> s.in_range(),
{
    proof {
        lemma_resolved_in_range(code@);
    }
    let n: usize = code.len();
    if n <= 3 || code[n - 1] != STYLE_FINAL {
        return None;
    }
    let params = parse_parameters(slice_subrange(code, 2, n - 1));
    Some(ColorState::new().run(params.as_slice()))
}

} // verus!
