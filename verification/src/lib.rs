//! Strips SGR and erase-line escape sequences from terminal text and reports
//! the style changes they ask for, by byte offset into the cleaned text.
//!
//! * [`sequence`] is the grammar of a control sequence and the search for the
//!   next one.
//! * [`param`] reads the parameter field of a sequence.
//! * [`sgr`] is the state machine that turns parameters into attribute bits
//!   and colour indices.
//! * [`scan`] takes the sequences out of a text and lists their style changes.
//! * [`ansi`] does the same on strings and looks the colour pairs up through a
//!   function of the caller.
//! * [`attr`] holds the attribute bits of the display.

pub mod ansi;
pub mod attr;
pub mod param;
pub mod scan;
pub mod sequence;
pub mod sgr;
