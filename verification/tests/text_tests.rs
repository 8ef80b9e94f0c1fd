use rsh::text::{format_usize, is_whitespace, parse_usize, to_chars};

fn parse(s: &str) -> Option<usize> {
    let v = to_chars(s);
    parse_usize(&v, 0, v.len())
}

#[test]
fn whitespace_matches_std() {
    for c in ['\t', '\n', '\u{b}', '\u{c}', '\r', ' ', '\u{85}', '\u{a0}', '\u{1680}', '\u{2000}',
        '\u{200a}', '\u{2028}', '\u{2029}', '\u{202f}', '\u{205f}', '\u{3000}', 'a', '|', '\u{200b}',
        '\u{1f}', '0', '\u{feff}'] {
        assert_eq!(is_whitespace(c), c.is_whitespace(), "{:?}", c);
    }
}

#[test]
fn parse_usize_matches_std() {
    for s in ["0", "42", "+7", "007", "", "+", "-1", "1a", " 1", "18446744073709551615",
        "18446744073709551616", "99999999999999999999999"] {
        assert_eq!(parse(s), s.parse::<usize>().ok(), "{:?}", s);
    }
}

#[test]
fn parse_usize_on_a_span() {
    let v = to_chars("kill %15");
    assert_eq!(parse_usize(&v, 6, 8), Some(15));
    assert_eq!(parse_usize(&v, 5, 8), None);
}

#[test]
fn format_usize_matches_std() {
    for n in [0usize, 7, 10, 99, 100, 12345, usize::MAX] {
        assert_eq!(format_usize(n), n.to_string());
    }
}

#[test]
fn format_then_parse_round_trip() {
    for n in [0usize, 1, 9, 10, 255, 65536, usize::MAX] {
        assert_eq!(parse(&format_usize(n)), Some(n));
    }
}

#[test]
fn to_chars_keeps_all_characters() {
    assert_eq!(to_chars("a é|\u{3000}"), vec!['a', ' ', 'é', '|', '\u{3000}']);
}
