use attractor::strutil::{
    has_prefix, i64_to_string, join_nl, lines_of, parse_u64, split_on, str_eq, trim,
    u64_to_string,
};

#[test]
fn decimal_rendering() {
    assert_eq!(u64_to_string(0), "0");
    assert_eq!(u64_to_string(7), "7");
    assert_eq!(u64_to_string(42), "42");
    assert_eq!(u64_to_string(1030), "1030");
    assert_eq!(u64_to_string(u64::MAX), "18446744073709551615");
    assert_eq!(i64_to_string(0), "0");
    assert_eq!(i64_to_string(-1), "-1");
    assert_eq!(i64_to_string(137), "137");
    assert_eq!(i64_to_string(i64::MIN), "-9223372036854775808");
}

#[test]
fn decimal_parsing_matches_str_parse() {
    assert_eq!(parse_u64("0"), Some(0));
    assert_eq!(parse_u64("42"), Some(42));
    assert_eq!(parse_u64("+42"), Some(42));
    assert_eq!(parse_u64("18446744073709551615"), Some(u64::MAX));
    assert_eq!(parse_u64("18446744073709551616"), None);
    assert_eq!(parse_u64(""), None);
    assert_eq!(parse_u64("+"), None);
    assert_eq!(parse_u64("4x2"), None);
    assert_eq!(parse_u64("-3"), None);
}

#[test]
fn string_equality_and_prefixes() {
    assert!(str_eq("abc", "abc"));
    assert!(!str_eq("abc", "abd"));
    assert!(!str_eq("abc", "ab"));
    assert!(str_eq("", ""));
    assert!(has_prefix("attractor-store-x", "attractor-store-"));
    assert!(!has_prefix("attr", "attractor-store-"));
    assert!(has_prefix("anything", ""));
}

#[test]
fn splitting_and_trimming() {
    let pieces = split_on("a,b,,c", ',');
    assert_eq!(pieces, vec!["a", "b", "", "c"]);
    assert_eq!(split_on("", ','), vec![""]);
    assert_eq!(split_on("a,", ','), vec!["a", ""]);
    assert_eq!(trim("  padded \t"), "padded");
    assert_eq!(trim("clean"), "clean");
    assert_eq!(trim(" \n "), "");
}

#[test]
fn lines_match_std_semantics() {
    assert_eq!(lines_of("a\nb\nc"), vec!["a", "b", "c"]);
    assert_eq!(lines_of("a\nb\n"), vec!["a", "b"]);
    assert_eq!(lines_of("a\r\nb"), vec!["a", "b"]);
    assert!(lines_of("").is_empty());
    assert_eq!(lines_of("\n"), vec![""]);
    let joined = join_nl(&vec!["x".to_string(), "y".to_string(), "z".to_string()]);
    assert_eq!(joined, "x\ny\nz");
    assert_eq!(join_nl(&Vec::new()), "");
}
