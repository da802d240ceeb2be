use workbench::calr::parse_int;
use workbench::text::{
    centered, compare_text, i64_to_string, join_lines, lines_inclusive, lines_of, to_lowercase,
    trim_trailing, u64_to_string, Precedence,
};

#[test]
fn line_splitting() {
    assert_eq!(lines_inclusive("a\nb\r\nc"), vec!["a\n", "b\r\n", "c"]);
    assert_eq!(lines_inclusive("a\n"), vec!["a\n"]);
    assert_eq!(lines_inclusive(""), Vec::<String>::new());
    assert_eq!(lines_of("a\nb\r\nc\r"), vec!["a", "b", "c\r"]);
    assert_eq!(lines_of("\n\n"), vec!["", ""]);
}

#[test]
fn numbers_render_in_decimal() {
    assert_eq!(u64_to_string(0), "0");
    assert_eq!(u64_to_string(u64::MAX), u64::MAX.to_string());
    assert_eq!(i64_to_string(i64::MIN), i64::MIN.to_string());
    assert_eq!(i64_to_string(-42), "-42");
}

#[test]
fn integer_literals() {
    assert_eq!(parse_int::<i32>("-2147483648"), Ok(i32::MIN));
    assert!(parse_int::<i32>("2147483648").is_err());
    assert_eq!(parse_int::<u32>("+5"), Ok(5));
    assert!(parse_int::<usize>("-0").is_err());
    assert_eq!(parse_int::<i64>("-0"), Ok(0));
    assert!(parse_int::<i64>("+").is_err());
    assert!(parse_int::<i64>(" 1").is_err());
    assert!(parse_int::<i64>("١").is_err());
}

#[test]
fn padding_ordering_and_case() {
    assert_eq!(centered("May", 20), "        May         ");
    assert_eq!(centered("a longer title than twenty", 20), "a longer title than twenty");
    assert_eq!(compare_text("a", "b"), Precedence::Before);
    assert_eq!(compare_text("b", "a"), Precedence::After);
    assert_eq!(compare_text("ab", "a"), Precedence::After);
    assert_eq!(compare_text("é", "z"), Precedence::After);
    assert_eq!(compare_text("x", "x"), Precedence::Same);
    assert_eq!(trim_trailing("ab \t\u{3000}\n"), "ab");
    assert_eq!(to_lowercase("ÀB"), "àb");
    assert_eq!(join_lines(&vec!["x".to_string()]), "x");
}
