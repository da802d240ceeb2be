use workbench::headr::{file_frame, head_bytes, head_lines, parse_positive_int};

#[test]
fn test_parse_positive_int() {
    let res = parse_positive_int("3");
    assert!(res.is_ok());
    assert_eq!(res.unwrap(), 3);

    let res = parse_positive_int("foo");
    assert!(res.is_err());
    assert_eq!(
        res.unwrap_err().to_string(),
        "invalid digit found in string".to_string()
    );

    let res = parse_positive_int("0");
    assert!(res.is_err());
    assert_eq!(
        res.unwrap_err().to_string(),
        "invalid digit found in string".to_string()
    );
}

#[test]
fn parse_positive_int_edges() {
    assert_eq!(parse_positive_int("+7"), Ok(7));
    assert!(parse_positive_int("-7").is_err());
    assert!(parse_positive_int("").is_err());
    assert!(parse_positive_int("+").is_err());
    assert!(parse_positive_int("99999999999999999999999").is_err());
    assert_eq!(parse_positive_int("007"), Ok(7));
}

#[test]
fn head_lines_takes_the_first_lines() {
    assert_eq!(head_lines("a\nb\r\nc", 2), "a\nb\r\n");
    assert_eq!(head_lines("a\nb\r\nc", 10), "a\nb\r\nc");
    assert_eq!(head_lines("", 3), "");
    assert_eq!(head_lines("x\n", 0), "");
}

#[test]
fn head_bytes_replaces_broken_characters() {
    assert_eq!(head_bytes("héllo".as_bytes(), 2), "h\u{FFFD}");
    assert_eq!(head_bytes(b"abc", 10), "abc");
    assert_eq!(head_bytes(b"abc", 2), "ab");
}

#[test]
fn head_banners_and_blank_lines() {
    assert_eq!(file_frame("a.txt", 0, 3), (Some("==> a.txt <==".to_string()), true));
    assert_eq!(file_frame("c.txt", 2, 3), (Some("==> c.txt <==".to_string()), false));
    assert_eq!(file_frame("a.txt", 0, 1), (None, false));
}
