use gukab::matcher::CompiledRegex;
use gukab::text::{decimal_string, is_whitespace, parse_unsigned_chars, split_on, split_whitespace, trim_str};

#[test]
fn whitespace_is_the_unicode_set() {
    assert!(is_whitespace(' ') && is_whitespace('\t') && is_whitespace('\u{3000}') && is_whitespace('\u{85}'));
    assert!(!is_whitespace('a') && !is_whitespace('\u{200b}') && !is_whitespace('_'));
    assert_eq!(trim_str("\u{a0} x y \n"), "x y");
}

#[test]
fn numbers_round_trip_through_text() {
    for n in [0u64, 7, 10, 9600, 115200, u32::MAX as u64] {
        let s = decimal_string(n);
        assert_eq!(s, n.to_string());
        let cs: Vec<char> = s.chars().collect();
        assert_eq!(parse_unsigned_chars(&cs, u32::MAX as u64), Some(n));
    }
    let plus: Vec<char> = "+12".chars().collect();
    assert_eq!(parse_unsigned_chars(&plus, 255), Some(12));
    let big: Vec<char> = "256".chars().collect();
    assert_eq!(parse_unsigned_chars(&big, 255), None);
    let empty: Vec<char> = Vec::new();
    assert_eq!(parse_unsigned_chars(&empty, 255), None);
}

#[test]
fn splitting_keeps_empty_pieces_but_not_empty_words() {
    assert_eq!(split_on("a\n\nb", '\n'), vec!["a", "", "b"]);
    assert_eq!(split_on("", '\n'), vec![""]);
    assert_eq!(split_whitespace("  show  run \t int "), vec!["show", "run", "int"]);
}

#[test]
fn patterns_compile_or_explain() {
    let re = CompiledRegex::compile("[Pp]assword:").ok().unwrap();
    assert_eq!(re.pattern(), "[Pp]assword:");
    assert!(re.is_match("Password: "));
    assert!(!re.is_match("user: "));
    assert_eq!(re.match_spans("Password: password:"), vec![(0, 9), (10, 19)]);
    assert!(CompiledRegex::compile("(").is_err());
}
