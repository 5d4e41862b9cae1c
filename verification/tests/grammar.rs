use ansi_attrs::scan::scan;
use ansi_attrs::sequence::{find_sequence, final_byte, param_byte, sequence_at};
use regex::Regex;

const SAMPLES: [&str; 16] = [
    "",
    "plain text",
    "A\x1b[1mB\x1b[0mC",
    "\x1b[31mred\x1b[0m",
    "\x1b[1m\x1b[4m\x1b[Kxy\x1b[m",
    "tail\x1b[7m",
    "\x1b[38;5;200mfg\x1b[48;5;17mbg\x1b[39;49m",
    "h\u{e9}llo \x1b[1mw\u{f6}rld\x1b[0m \u{4e16}\u{754c}",
    "broken \x1b[12 and \x1b[1x and \x1b] and \x1b",
    "\x1b\x1b[1m",
    "\x1b[\x1b[4mz",
    "\x1b[1;\x1b[2Kq",
    "a\x1b[1mb\x1b[1mc\x1b[1md",
    "\x1b[2K\x1b[2K",
    "\x1b\x1b[1m[1m",
    "\x1b[;;;m\x1b[0123456789;K\x1b[mK\x1b[Km",
];

fn pattern() -> Regex {
    Regex::new(r"\x1b\[[0-9;]*[mK]").unwrap()
}

#[test]
fn byte_classes() {
    for b in 0..=255u8 {
        assert_eq!(param_byte(b), b.is_ascii_digit() || b == b';', "{}", b);
        assert_eq!(final_byte(b), b == b'm' || b == b'K', "{}", b);
    }
}

#[test]
fn sequence_at_an_index() {
    let text = b"ab\x1b[1;31mcd\x1b[K";
    assert_eq!(sequence_at(text, 2), Some(9));
    assert_eq!(sequence_at(text, 11), Some(14));
    assert_eq!(sequence_at(text, 0), None);
    assert_eq!(sequence_at(text, 3), None);
    assert_eq!(sequence_at(text, 14), None);
    assert_eq!(sequence_at(text, 1000), None);
}

#[test]
fn shortest_sequences() {
    assert_eq!(sequence_at(b"\x1b[m", 0), Some(3));
    assert_eq!(sequence_at(b"\x1b[K", 0), Some(3));
    assert_eq!(sequence_at(b"\x1b[", 0), None);
    assert_eq!(sequence_at(b"\x1b", 0), None);
    assert_eq!(sequence_at(b"", 0), None);
}

#[test]
fn sequence_needs_its_final_byte() {
    assert_eq!(sequence_at(b"\x1b[12", 0), None);
    assert_eq!(sequence_at(b"\x1b[12;", 0), None);
    assert_eq!(sequence_at(b"\x1b[12x", 0), None);
    assert_eq!(sequence_at(b"\x1b[12M", 0), None);
    assert_eq!(sequence_at(b"\x1b[12k", 0), None);
    assert_eq!(sequence_at(b"\x1b[1 m", 0), None);
}

#[test]
fn sequence_ends_at_the_first_final_byte() {
    assert_eq!(sequence_at(b"\x1b[1mm", 0), Some(4));
    assert_eq!(sequence_at(b"\x1b[KK", 0), Some(3));
    assert_eq!(sequence_at(b"\x1b[1m2m", 0), Some(4));
}

#[test]
fn find_gives_the_leftmost() {
    let text = b"ab\x1b[1;31mcd\x1b[K";
    assert_eq!(find_sequence(text, 0), Some((2, 9)));
    assert_eq!(find_sequence(text, 2), Some((2, 9)));
    assert_eq!(find_sequence(text, 3), Some((11, 14)));
    assert_eq!(find_sequence(text, 12), None);
    assert_eq!(find_sequence(text, 14), None);
    assert_eq!(find_sequence(text, 99), None);
    assert_eq!(find_sequence(b"", 0), None);
}

#[test]
fn find_agrees_with_the_pattern() {
    let re = pattern();
    for text in SAMPLES {
        for from in 0..=text.len() {
            if text.is_char_boundary(from) {
                let expected = re.find_at(text, from).map(|m| (m.start(), m.end()));
                assert_eq!(find_sequence(text.as_bytes(), from), expected, "{:?} from {}", text, from);
            }
        }
    }
}

#[test]
fn cleaned_text_agrees_with_the_pattern() {
    let re = pattern();
    for text in SAMPLES {
        let (clean, changes) = scan(text.as_bytes());
        assert_eq!(clean, re.replace_all(text, "").as_bytes().to_vec(), "{:?}", text);
        assert!(changes.len() <= re.find_iter(text).count(), "{:?}", text);
    }
}

#[test]
fn offsets_agree_with_the_pattern() {
    let re = pattern();
    for text in SAMPLES {
        let mut expected: Vec<usize> = Vec::new();
        let mut kept: usize = 0;
        let mut last: usize = 0;
        for m in re.find_iter(text) {
            kept += m.start() - last;
            last = m.end();
            if m.as_str().ends_with('m') && m.as_str().len() > 3 {
                expected.push(kept);
            }
        }
        let (_, changes) = scan(text.as_bytes());
        let offsets: Vec<usize> = changes.iter().map(|c| c.0).collect();
        assert_eq!(offsets, expected, "{:?}", text);
    }
}
