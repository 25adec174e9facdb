use git_viz::text::{
    ends_with, is_control, is_white, join, parse_u64, position_of, split_lines, split_pieces,
    split_words, starts_with, to_decimal, to_padded, to_signed, trim_eol, trimmed, trimmed_end,
};

const SAMPLES: [&str; 14] = [
    "",
    "\n",
    "\r\n",
    "one",
    "one\n",
    "one\r\ntwo\r\n",
    "\n\nx\n\n",
    "a\rb\n",
    "  padded\t ",
    "\u{a0}\u{3000}wide\u{2003}",
    "a b  c\td\n",
    "x\r\r\n",
    "héllo 汉",
    " \t\r\n",
];

#[test]
fn character_classes_agree_with_std() {
    for n in 0..=0x10FFFFu32 {
        if let Some(c) = char::from_u32(n) {
            assert_eq!(is_white(c), c.is_whitespace(), "{n:x}");
            assert_eq!(is_control(c), c.is_control(), "{n:x}");
        }
    }
}

#[test]
fn splitting_agrees_with_std() {
    for s in SAMPLES {
        let lines: Vec<String> = s.lines().map(String::from).collect();
        assert_eq!(split_lines(s), lines, "{s:?}");
        let pieces: Vec<String> = s.split_inclusive('\n').map(String::from).collect();
        assert_eq!(split_pieces(s), pieces, "{s:?}");
        let words: Vec<String> = s.split_whitespace().map(String::from).collect();
        assert_eq!(split_words(s), words, "{s:?}");
    }
}

#[test]
fn the_pieces_of_a_text_make_the_text() {
    for s in SAMPLES {
        assert_eq!(split_pieces(s).concat(), s);
    }
}

#[test]
fn trimming_agrees_with_std() {
    for s in SAMPLES {
        assert_eq!(trimmed(s), s.trim(), "{s:?}");
        assert_eq!(trimmed_end(s), s.trim_end(), "{s:?}");
        assert_eq!(trim_eol(s), s.trim_end_matches('\n').trim_end_matches('\r'), "{s:?}");
        assert_eq!(trimmed(&trimmed(s)), trimmed(s));
    }
}

#[test]
fn searching_agrees_with_std() {
    for s in SAMPLES {
        for pat in ["", "a", "one", " @@", "\n", "汉"] {
            assert_eq!(starts_with(s, pat), s.starts_with(pat));
            assert_eq!(ends_with(s, pat), s.ends_with(pat));
            let chars = s.find(pat).map(|b| s[..b].chars().count());
            assert_eq!(position_of(s, pat), chars);
        }
    }
}

#[test]
fn numbers_read_back() {
    for n in [0u64, 1, 9, 10, 42, 1999, u64::MAX] {
        assert_eq!(to_decimal(n as u128), n.to_string());
        assert_eq!(parse_u64(&to_decimal(n as u128)), Some(n));
    }
    assert_eq!(to_padded(7, 2), "07");
    assert_eq!(to_padded(123, 2), "123");
    assert_eq!(to_signed(-128), "-128");
    assert_eq!(to_signed(i64::MIN), i64::MIN.to_string());
    assert_eq!(parse_u64("+5"), "+5".parse().ok());
    assert_eq!(parse_u64(""), None);
    assert_eq!(parse_u64("+"), None);
    assert_eq!(parse_u64("1x"), None);
    assert_eq!(parse_u64("18446744073709551616"), None);
}

#[test]
fn joining_agrees_with_std() {
    let parts: Vec<String> = vec!["a".into(), "".into(), "b".into()];
    assert_eq!(join(&parts, ", "), "a, , b");
    assert_eq!(join(&Vec::new(), ", "), "");
}
