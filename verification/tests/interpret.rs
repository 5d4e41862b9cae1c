use std::cell::RefCell;

use ansi_attrs::ansi::interpret_code;
use ansi_attrs::attr::{BLINK, BOLD, INVISIBLE, NORMAL, REVERSE, UNDERLINE};
use ncurses::attr_t;

/// A lookup that must not be reached.
fn no_pair(fg: i16, bg: i16) -> attr_t {
    panic!("no colour pair expected, got ({}, {})", fg, bg)
}

/// A lookup whose result tells both indices apart from every attribute bit.
fn pair_of(fg: i16, bg: i16) -> attr_t {
    ((((fg as u16 as attr_t) & 0xf) << 4) | ((bg as u16 as attr_t) & 0xf)) << 8
}

#[test]
fn attribute_bits_are_those_of_ncurses() {
    assert_eq!(BOLD, ncurses::A_BOLD());
    assert_eq!(UNDERLINE, ncurses::A_UNDERLINE());
    assert_eq!(BLINK, ncurses::A_BLINK());
    assert_eq!(REVERSE, ncurses::A_REVERSE());
    assert_eq!(INVISIBLE, ncurses::A_INVIS());
    assert_eq!(NORMAL, ncurses::A_NORMAL());
}

#[test]
fn bold_alone() {
    assert_eq!(interpret_code("\x1b[1m", no_pair), Some(ncurses::A_BOLD()));
    assert_eq!(interpret_code("\x1b[1m", no_pair), Some(0x0020_0000));
}

#[test]
fn reset_alone_is_an_event() {
    assert_eq!(interpret_code("\x1b[0m", no_pair), Some(0));
}

#[test]
fn underline_then_bold() {
    assert_eq!(
        interpret_code("\x1b[4;1m", no_pair),
        Some(ncurses::A_BOLD() | ncurses::A_UNDERLINE())
    );
    assert_eq!(interpret_code("\x1b[4;1m", no_pair), Some(0x0022_0000));
}

#[test]
fn each_plain_attribute() {
    assert_eq!(interpret_code("\x1b[4m", no_pair), Some(ncurses::A_UNDERLINE()));
    assert_eq!(interpret_code("\x1b[5m", no_pair), Some(ncurses::A_BLINK()));
    assert_eq!(interpret_code("\x1b[7m", no_pair), Some(ncurses::A_REVERSE()));
    assert_eq!(interpret_code("\x1b[8m", no_pair), Some(ncurses::A_INVIS()));
    assert_eq!(
        interpret_code("\x1b[1;4;5;7;8m", no_pair),
        Some(0x0020_0000 | 0x0002_0000 | 0x0008_0000 | 0x0004_0000 | 0x0080_0000)
    );
}

#[test]
fn erase_line_gives_nothing() {
    assert_eq!(interpret_code("\x1b[2K", no_pair), None);
    assert_eq!(interpret_code("\x1b[K", no_pair), None);
    assert_eq!(interpret_code("\x1b[1;31K", no_pair), None);
}

#[test]
fn empty_parameter_field_gives_nothing() {
    assert_eq!(interpret_code("\x1b[m", no_pair), None);
}

#[test]
fn basic_colours_are_looked_up_once() {
    let calls: RefCell<Vec<(i16, i16)>> = RefCell::new(Vec::new());
    let got = interpret_code("\x1b[31;42m", |fg: i16, bg: i16| {
        calls.borrow_mut().push((fg, bg));
        pair_of(fg, bg)
    });
    assert_eq!(got, Some(pair_of(1, 2)));
    assert_eq!(got, Some(0x1200));
    assert_eq!(*calls.borrow(), vec![(1, 2)]);
}

#[test]
fn basic_colour_ranges() {
    assert_eq!(interpret_code("\x1b[30m", pair_of), Some(pair_of(0, -1)));
    assert_eq!(interpret_code("\x1b[37m", pair_of), Some(pair_of(7, -1)));
    assert_eq!(interpret_code("\x1b[40m", pair_of), Some(pair_of(-1, 0)));
    assert_eq!(interpret_code("\x1b[47m", pair_of), Some(pair_of(-1, 7)));
    assert_eq!(interpret_code("\x1b[29m", no_pair), Some(0));
    assert_eq!(interpret_code("\x1b[50m", no_pair), Some(0));
}

#[test]
fn extended_foreground() {
    let calls: RefCell<Vec<(i16, i16)>> = RefCell::new(Vec::new());
    let got = interpret_code("\x1b[38;5;200m", |fg: i16, bg: i16| {
        calls.borrow_mut().push((fg, bg));
        0x4400
    });
    assert_eq!(got, Some(0x4400));
    assert_eq!(*calls.borrow(), vec![(200, -1)]);
}

#[test]
fn extended_background_then_bold() {
    let calls: RefCell<Vec<(i16, i16)>> = RefCell::new(Vec::new());
    let got = interpret_code("\x1b[48;5;17;1m", |fg: i16, bg: i16| {
        calls.borrow_mut().push((fg, bg));
        0x0300
    });
    assert_eq!(got, Some(0x0020_0300));
    assert_eq!(*calls.borrow(), vec![(-1, 17)]);
}

#[test]
fn extended_selection_returns_to_base() {
    let calls: RefCell<Vec<(i16, i16)>> = RefCell::new(Vec::new());
    let got = interpret_code("\x1b[38;5;200;4;41m", |fg: i16, bg: i16| {
        calls.borrow_mut().push((fg, bg));
        0x0500
    });
    assert_eq!(got, Some(0x0002_0500));
    assert_eq!(*calls.borrow(), vec![(200, 1)]);
}

#[test]
fn malformed_extended_selection_is_dropped() {
    assert_eq!(interpret_code("\x1b[38;9m", no_pair), Some(0));
}

#[test]
fn aborting_parameter_is_used_up() {
    // The 1 ends the selection and does not set bold; the 4 counts again.
    assert_eq!(interpret_code("\x1b[38;1;4m", no_pair), Some(0x0002_0000));
    assert_eq!(interpret_code("\x1b[48;31m", no_pair), Some(0));
}

#[test]
fn unfinished_extended_selection() {
    assert_eq!(interpret_code("\x1b[38m", no_pair), Some(0));
    assert_eq!(interpret_code("\x1b[1;38;5m", no_pair), Some(0x0020_0000));
}

#[test]
fn default_colour_codes_undo_a_colour() {
    assert_eq!(interpret_code("\x1b[31;39m", no_pair), Some(0));
    assert_eq!(interpret_code("\x1b[42;49m", no_pair), Some(0));
    assert_eq!(interpret_code("\x1b[31;42;39m", pair_of), Some(pair_of(-1, 2)));
}

#[test]
fn reset_clears_bits_and_keeps_colours() {
    assert_eq!(interpret_code("\x1b[1;31;0m", pair_of), Some(pair_of(1, -1)));
    assert_eq!(interpret_code("\x1b[0;31m", pair_of), Some(pair_of(1, -1)));
    assert_eq!(interpret_code("\x1b[1;0;4m", no_pair), Some(0x0002_0000));
}

#[test]
fn token_without_value_counts_as_reset() {
    assert_eq!(interpret_code("\x1b[1;m", no_pair), Some(0));
    assert_eq!(interpret_code("\x1b[;1m", no_pair), Some(0x0020_0000));
    assert_eq!(interpret_code("\x1b[;m", no_pair), Some(0));
    assert_eq!(interpret_code("\x1b[1;99999m", no_pair), Some(0));
    assert_eq!(interpret_code("\x1b[1;32768m", no_pair), Some(0));
}

#[test]
fn index_without_value_is_the_default_colour() {
    assert_eq!(interpret_code("\x1b[31;38;5;m", no_pair), Some(0));
    assert_eq!(interpret_code("\x1b[31;38;5;99999m", no_pair), Some(0));
}

#[test]
fn index_is_passed_through_as_parsed() {
    let calls: RefCell<Vec<(i16, i16)>> = RefCell::new(Vec::new());
    let got = interpret_code("\x1b[38;5;32767;48;5;256m", |fg: i16, bg: i16| {
        calls.borrow_mut().push((fg, bg));
        0x0100
    });
    assert_eq!(got, Some(0x0100));
    assert_eq!(*calls.borrow(), vec![(32767, 256)]);
}

#[test]
fn unknown_codes_are_passed_over() {
    assert_eq!(interpret_code("\x1b[2;1;3;9;100m", no_pair), Some(0x0020_0000));
    assert_eq!(interpret_code("\x1b[001m", no_pair), Some(0x0020_0000));
}

#[test]
fn pair_is_joined_with_the_bits() {
    assert_eq!(interpret_code("\x1b[1;4;33m", pair_of), Some(0x0022_0000 | pair_of(3, -1)));
}

#[test]
fn too_short_to_ask_for_anything() {
    assert_eq!(interpret_code("", no_pair), None);
    assert_eq!(interpret_code("m", no_pair), None);
    assert_eq!(interpret_code("\x1b[", no_pair), None);
}
