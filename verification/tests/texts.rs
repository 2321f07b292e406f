use anthropic_proxy::number::{decimal_text, parse_i32, parse_u16};
use anthropic_proxy::order::comes_before;
use anthropic_proxy::text::{
    entries_of_list, folded, is_white_space, lines_of, lowered, same_text, split_text,
    split_text_once, stripped_prefix, trimmed, trimmed_end_char, trimmed_end_text,
};

const SAMPLES: [&str; 14] = [
    "",
    " ",
    "a",
    " a b ",
    "\t\u{3000}x\u{a0}",
    "a\nb",
    "a\r\nb\r\n",
    "\n\n",
    "a\r",
    "line\r\n\r\nnext",
    "ÄÖ Straße",
    "a;b;;c",
    "==",
    "\u{feff}bom",
];

#[test]
fn white_space_is_that_of_unicode() {
    for code in 0..=0x10ffffu32 {
        if let Some(c) = char::from_u32(code) {
            assert_eq!(is_white_space(c), c.is_whitespace(), "{:x}", code);
        }
    }
}

#[test]
fn ascii_lower_case_decides_about_keywords() {
    for code in 0x80..=0x10ffffu32 {
        if let Some(c) = char::from_u32(code) {
            let low: String = c.to_lowercase().collect();
            assert!(!low.is_ascii() || low == "k", "{:x}", code);
        }
    }
    for word in ["true", "static", "upstream", "merge"] {
        assert!(!word.contains('k'));
    }
}

#[test]
fn texts_are_cut_as_by_the_standard_library() {
    for s in SAMPLES {
        assert_eq!(trimmed(s), s.trim());
        assert_eq!(lowered(s), s.to_ascii_lowercase());
        assert_eq!(trimmed_end_char(s, '\n'), s.trim_end_matches('\n'));
        assert_eq!(trimmed_end_text(s, "\r\n"), s.trim_end_matches("\r\n"));
        assert_eq!(lines_of(s), s.lines().map(|l| l.to_string()).collect::<Vec<_>>());
        assert_eq!(
            split_text(s, &[';', '\n']),
            s.split([';', '\n']).map(|p| p.to_string()).collect::<Vec<_>>()
        );
        assert_eq!(
            split_text_once(s, '='),
            s.split_once('=').map(|(a, b)| (a.to_string(), b.to_string()))
        );
        assert_eq!(stripped_prefix(s, "a"), s.strip_prefix("a").map(|r| r.to_string()));
        assert_eq!(
            folded(s),
            s.split_whitespace().collect::<Vec<_>>().join(" ").to_ascii_lowercase()
        );
        for t in SAMPLES {
            assert_eq!(same_text(s, t), s == t);
            assert_eq!(comes_before(s, t), s < t);
        }
    }
}

#[test]
fn lists_drop_empty_entries() {
    assert_eq!(entries_of_list(" a ; ;b\n\n", &[';', '\n']), vec!["a".to_string(), "b".to_string()]);
    assert!(entries_of_list(" ; ", &[';']).is_empty());
}

#[test]
fn characters_are_ordered_by_code_point() {
    assert!(comes_before("z", "ä"));
    assert!(comes_before("\u{ffff}", "\u{10000}"));
    assert!(comes_before("a", "a/"));
    assert!(!comes_before("a", "a"));
}

#[test]
fn numbers_are_read_as_by_the_standard_library() {
    for s in [
        "", "+", "-", "0", "+0", "-0", "00042", "+65535", "65536", "99999999999999", " 1", "1 ",
        "1a", "++1", "-1", "2147483647", "2147483648", "-2147483648", "-2147483649", "٣",
    ] {
        assert_eq!(parse_u16(s), s.parse::<u16>().ok(), "{}", s);
        assert_eq!(parse_i32(s), s.parse::<i32>().ok(), "{}", s);
    }
}

#[test]
fn numbers_are_written_and_read_back() {
    for n in [0u32, 7, 10, 99, 100, 3000, 65535] {
        assert_eq!(decimal_text(n), n.to_string());
        assert_eq!(parse_u16(&decimal_text(n)), Some(n as u16));
    }
    assert_eq!(decimal_text(u32::MAX), "4294967295");
}
