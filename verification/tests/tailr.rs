use workbench::tailr::{bytes_to_print, count_lines, file_frame, get_start_index, lines_to_print, TakeValue};
use workbench::tailr::TakeValue::{PlusZero, TakeNum};

#[test]
fn test_take_value() {
    let res = TakeValue::from_str("3");
    assert!(res.is_ok());
    assert_eq!(res.unwrap(), TakeNum(-3));

    let res = TakeValue::from_str("+3");
    assert!(res.is_ok());
    assert_eq!(res.unwrap(), TakeNum(3));

    let res = TakeValue::from_str("-3");
    assert!(res.is_ok());
    assert_eq!(res.unwrap(), TakeNum(-3));

    let res = TakeValue::from_str("0");
    assert!(res.is_ok());
    assert_eq!(res.unwrap(), TakeNum(0));

    let res = TakeValue::from_str("+0");
    assert!(res.is_ok());
    assert_eq!(res.unwrap(), PlusZero);

    let res = TakeValue::from_str(&i64::MAX.to_string());
    assert!(res.is_ok());
    assert_eq!(res.unwrap(), TakeNum(i64::MIN + 1));

    let res = TakeValue::from_str(&(i64::MIN + 1).to_string());
    assert!(res.is_ok());
    assert_eq!(res.unwrap(), TakeNum(i64::MIN + 1));

    let res = TakeValue::from_str(&format!("+{}", i64::MAX));
    assert!(res.is_ok());
    assert_eq!(res.unwrap(), TakeNum(i64::MAX));

    let res = TakeValue::from_str(&i64::MIN.to_string());
    assert!(res.is_ok());
    assert_eq!(res.unwrap(), TakeNum(i64::MIN));

    let res = TakeValue::from_str("3.14");
    assert!(res.is_err());
    assert_eq!(res.unwrap_err().to_string(), "illegal count -- 3.14");

    let res = TakeValue::from_str("foo");
    assert!(res.is_err());
    assert_eq!(res.unwrap_err().to_string(), "illegal count -- foo");
}

#[test]
fn test_get_start_index() {
    assert_eq!(get_start_index(&PlusZero, 0), None);
    assert_eq!(get_start_index(&PlusZero, 1), Some(0));
    assert_eq!(get_start_index(&TakeNum(0), 1), None);
    assert_eq!(get_start_index(&TakeNum(1), 0), None);
    assert_eq!(get_start_index(&TakeNum(2), 1), None);
    assert_eq!(get_start_index(&TakeNum(1), 10), Some(0));
    assert_eq!(get_start_index(&TakeNum(2), 10), Some(1));
    assert_eq!(get_start_index(&TakeNum(3), 10), Some(2));
    assert_eq!(get_start_index(&TakeNum(-1), 10), Some(9));
    assert_eq!(get_start_index(&TakeNum(-2), 10), Some(8));
    assert_eq!(get_start_index(&TakeNum(-3), 10), Some(7));
    assert_eq!(get_start_index(&TakeNum(-20), 10), Some(0));
}

#[test]
fn take_value_rejects_other_forms() {
    assert_eq!(TakeValue::from_str("").unwrap_err(), "illegal count -- ");
    assert_eq!(TakeValue::from_str("+-3").unwrap_err(), "illegal count -- +-3");
    assert_eq!(TakeValue::from_str("99999999999999999999").unwrap_err(), "illegal count -- 99999999999999999999");
    assert_eq!(TakeValue::from_str("-0"), Ok(TakeNum(0)));
}

#[test]
fn printing_from_the_start_index() {
    let text = "one\ntwo\nthree\n";
    let total = count_lines(text) as i64;
    assert_eq!(total, 3);
    assert_eq!(lines_to_print(text, &TakeNum(-2), total), Some("two\nthree\n".to_string()));
    assert_eq!(lines_to_print(text, &TakeNum(2), total), Some("two\nthree\n".to_string()));
    assert_eq!(lines_to_print(text, &PlusZero, total), Some(text.to_string()));
    assert_eq!(lines_to_print(text, &TakeNum(0), total), None);
    assert_eq!(lines_to_print(text, &TakeNum(4), total), None);
    assert_eq!(count_lines("a\r\nb"), 2);
}

#[test]
fn most_negative_count_shows_everything() {
    assert_eq!(get_start_index(&TakeNum(i64::MIN), 10), Some(0));
    assert_eq!(get_start_index(&TakeNum(i64::MIN), 0), Some(0));
    assert_eq!(get_start_index(&TakeNum(-1), i64::MIN), Some(0));
    assert_eq!(get_start_index(&TakeNum(-1), i64::MAX), Some(i64::MAX as u64 - 1));
    assert_eq!(lines_to_print("a\nb\n", &TakeNum(i64::MIN), 2), Some("a\nb\n".to_string()));
}

#[test]
fn tail_banners_and_blank_lines() {
    assert_eq!(file_frame("a.txt", 0, 2, false), (Some("==> a.txt <==".to_string()), true));
    assert_eq!(file_frame("b.txt", 1, 2, false), (Some("==> b.txt <==".to_string()), false));
    assert_eq!(file_frame("a.txt", 0, 2, true), (None, false));
    assert_eq!(file_frame("a.txt", 0, 1, false), (None, false));
}

#[test]
fn test_count_lines_bytes() {
    // The line count of the two sample files: one line, and twelve.
    let one = "\u{d6}ne line, four words.\r\n";
    assert_eq!(count_lines(one), 1);
    assert_eq!(one.len(), 24);
    let twelve = "one\ntwo\nthree\nfour\nfive\nsix\nseven\neight\nnine\nten\neleven\ntwelve\n";
    assert_eq!(count_lines(twelve), 12);
    assert_eq!(twelve.len(), 63);
}

#[test]
fn bytes_from_the_start_index() {
    let data = "abcdef".as_bytes();
    assert_eq!(bytes_to_print(data, &TakeNum(-2), 6), Some("ef".to_string()));
    assert_eq!(bytes_to_print(data, &TakeNum(3), 6), Some("cdef".to_string()));
    assert_eq!(bytes_to_print(data, &PlusZero, 6), Some("abcdef".to_string()));
    assert_eq!(bytes_to_print(data, &TakeNum(-20), 6), Some("abcdef".to_string()));
    assert_eq!(bytes_to_print(data, &TakeNum(7), 6), None);
    assert_eq!(bytes_to_print(data, &TakeNum(0), 6), None);
    // A cut through a multibyte character leaves a replacement character.
    let data = "\u{e9}t\u{e9}".as_bytes();
    assert_eq!(bytes_to_print(data, &TakeNum(-4), 5), Some("\u{fffd}t\u{e9}".to_string()));
}
