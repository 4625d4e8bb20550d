use splitty::blank::is_blank_char;
use splitty::{split_unquoted_char, split_unquoted_whitespace, SplitUnquotedChar};

fn check(src: &str, expected: &[&str]) {
    let mut split = SplitUnquotedChar::new(src, ' ').unwrap_quotes(true);
    for token in expected {
        assert_eq!(split.next(), Some(*token));
    }
    assert_eq!(split.next(), None);
}

fn collect(mut split: SplitUnquotedChar<'_>, max: usize) -> Vec<&str> {
    let mut tokens = Vec::new();
    while tokens.len() < max {
        match split.next() {
            Some(t) => tokens.push(t),
            None => break,
        }
    }
    tokens
}

#[test]
fn test_split_unquoted_whitespace() {
    check("", &[]);
    check("    ", &[]);
    check(" a    试bc d  ", &["a", "试bc", "d"]);
    check("e^iπ^ = 1", &["e^iπ^", "=", "1"]);
    check("1234", &["1234"]);
    check("1234\"", &["1234\""]);
    check(r#"""#, &[r#"""#]);
    check(r#""a""#, &[r#"a"#]);
    check(r#" " "#, &[r#"" "#]);
    check(r#"a  "deux mots" b"#, &["a", "deux mots", "b"]);
    check(r#" " ""#, &[" "]);
    check(r#" a  "2 * 试" x"x "z "#, &["a", "2 * 试", "x\"x", "\"z "]);
    check(r#"""""#, &["\""]);
    check(r#""""""#, &["\"\""]);
}

#[test]
fn command_line_with_quoted_argument() {
    let mut token = split_unquoted_char("xterm -e \"vi /some/path\"", ' ').unwrap_quotes(true);
    assert_eq!(token.next(), Some("xterm"));
    assert_eq!(token.next(), Some("-e"));
    assert_eq!(token.next(), Some("vi /some/path"));
    assert_eq!(token.next(), None);
}

#[test]
fn corner_cases_on_whitespace() {
    let mut token = split_unquoted_whitespace(r#" a  "2 * 试" x"x "z "#).unwrap_quotes(true);
    assert_eq!(token.next(), Some("a"));
    assert_eq!(token.next(), Some("2 * 试"));
    assert_eq!(token.next(), Some("x\"x"));
    assert_eq!(token.next(), Some("\"z "));
    assert_eq!(token.next(), None);
}

#[test]
fn quotes_kept_by_default() {
    let cmd = r#"Type "rhit -p blog""#;
    let mut split = SplitUnquotedChar::new(cmd, ' ');
    assert_eq!(split.next(), Some("Type"));
    assert_eq!(split.next(), Some("\"rhit -p blog\""));
    assert_eq!(split.next(), None);
    let mut split = SplitUnquotedChar::new(cmd, ' ').unwrap_quotes(true);
    assert_eq!(split.next(), Some("Type"));
    assert_eq!(split.next(), Some("rhit -p blog"));
    assert_eq!(split.next(), None);
}

#[test]
fn quoted_token_closed_mid_text_keeps_only_its_quotes() {
    let split = SplitUnquotedChar::new(r#""a b" c"#, ' ');
    assert_eq!(collect(split, 10), vec!["\"a b\"", "c"]);
    let split = SplitUnquotedChar::new(r#""a b" c"#, ' ').unwrap_quotes(true);
    assert_eq!(collect(split, 10), vec!["a b", "c"]);
}

#[test]
fn unwrapping_twice_is_unwrapping_once() {
    let src = r#" a "b c" "d" e"#;
    let once = collect(split_unquoted_whitespace(src).unwrap_quotes(true), 10);
    let twice = collect(split_unquoted_whitespace(src).unwrap_quotes(true).unwrap_quotes(true), 10);
    assert_eq!(once, twice);
    assert_eq!(once, vec!["a", "b c", "d", "e"]);
    let off = collect(split_unquoted_whitespace(src).unwrap_quotes(true).unwrap_quotes(false), 10);
    assert_eq!(off, vec!["a", "\"b c\"", "\"d\"", "e"]);
}

#[test]
fn round_trip_without_quotes() {
    let src = "  ab  c\td   e ";
    let mut split = split_unquoted_whitespace(src);
    let mut rebuilt = String::new();
    let mut consumed = 0;
    while let Some(tok) = split.next() {
        let start = tok.as_ptr() as usize - src.as_ptr() as usize;
        let gap = &src[consumed..start];
        assert!(gap.chars().all(|c| c.is_whitespace()));
        rebuilt.push_str(gap);
        rebuilt.push_str(tok);
        consumed = start + tok.len();
    }
    assert!(src[consumed..].chars().all(|c| c.is_whitespace()));
    rebuilt.push_str(&src[consumed..]);
    assert_eq!(rebuilt, src);
    assert_eq!(collect(split_unquoted_whitespace(src), 10), vec!["ab", "c\td", "e"]);
}

#[test]
fn leading_whitespace_skipped_whatever_the_delimiter() {
    let mut split = split_unquoted_char(" \t\u{3000}a,b", ',');
    assert_eq!(split.next(), Some("a"));
    let mut split = split_unquoted_char("\n \"x,y\",z", ',').unwrap_quotes(true);
    assert_eq!(split.next(), Some("x,y"));
}

#[test]
fn delimiter_other_than_blank_starts_the_next_token() {
    let tokens = collect(split_unquoted_char("a,b", ','), 10);
    assert_eq!(tokens, vec!["a", ",b"]);
    let tokens = collect(split_unquoted_char(",b", ','), 10);
    assert_eq!(tokens, vec![",b"]);
    let tokens = collect(split_unquoted_char("a,,b,", ','), 10);
    assert_eq!(tokens, vec!["a", ",", ",b", ","]);
}

#[test]
fn delimiter_equal_to_quote() {
    let tokens = collect(split_unquoted_char(r#"""""#, '"'), 10);
    assert_eq!(tokens, vec!["\"\"", "\""]);
    let tokens = collect(split_unquoted_char(r#"""""#, '"').unwrap_quotes(true), 10);
    assert_eq!(tokens, vec!["", "\""]);
}

#[test]
fn multi_byte_characters() {
    let tokens = collect(split_unquoted_char("π\u{3000}试x\u{3000}\u{3000}y", '\u{3000}'), 10);
    assert_eq!(tokens, vec!["π", "试x", "y"]);
    let tokens = collect(split_unquoted_char("π试x", '试'), 10);
    assert_eq!(tokens, vec!["π", "试x"]);
    let tokens = collect(split_unquoted_whitespace("\"π 试\" é").unwrap_quotes(true), 10);
    assert_eq!(tokens, vec!["π 试", "é"]);
    let tokens = collect(split_unquoted_whitespace("\u{2003}π\u{a0}x"), 10);
    assert_eq!(tokens, vec!["π\u{a0}x"]);
}

#[test]
fn blank_class_matches_unicode_white_space() {
    for u in 0..0x110000u32 {
        if let Some(c) = char::from_u32(u) {
            assert_eq!(is_blank_char(c), c.is_whitespace(), "at U+{:04X}", u);
        }
    }
}

#[test]
fn round_trip_with_non_blank_delimiter_ends() {
    let src = " a,,b , c,";
    let tokens = collect(split_unquoted_char(src, ','), 100);
    assert_eq!(tokens, vec!["a", ",", ",b ", ", c", ","]);
    assert!(tokens.len() <= src.chars().count());
    let mut rebuilt = String::new();
    let mut consumed = 0;
    for tok in &tokens {
        assert!(!tok.is_empty());
        let start = tok.as_ptr() as usize - src.as_ptr() as usize;
        assert!(src[consumed..start].chars().all(|c| c.is_whitespace()));
        rebuilt.push_str(&src[consumed..start]);
        rebuilt.push_str(tok);
        consumed = start + tok.len();
    }
    assert!(src[consumed..].chars().all(|c| c.is_whitespace()));
    rebuilt.push_str(&src[consumed..]);
    assert_eq!(rebuilt, src);
}
