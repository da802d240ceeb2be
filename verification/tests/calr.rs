use workbench::calr::{
    config_from_args, format_month, format_year, last_day_in_month, parse_int, parse_month, parse_year, Args,
    Date,
};

#[test]
fn test_parse_int() {
    let res = parse_int::<usize>("1");
    assert!(res.is_ok());
    assert_eq!(res.unwrap(), 1usize);

    let res = parse_int::<i32>("-1");
    assert!(res.is_ok());
    assert_eq!(res.unwrap(), -1i32);

    let res = parse_int::<i64>("foo");
    assert!(res.is_err());
    assert_eq!(res.unwrap_err().to_string(), "Invalid integer \"foo\"");
}

#[test]
fn test_parse_year() {
    let res = parse_year("1");
    assert!(res.is_ok());
    assert_eq!(res.unwrap(), 1i32);

    let res = parse_year("9999");
    assert!(res.is_ok());
    assert_eq!(res.unwrap(), 9999i32);

    let res = parse_year("0");
    assert!(res.is_err());
    assert_eq!(
        res.unwrap_err().to_string(),
        "year \"0\" not in the range 1 through 9999"
    );

    let res = parse_year("10000");
    assert!(res.is_err());
    assert_eq!(
        res.unwrap_err().to_string(),
        "year \"10000\" not in the range 1 through 9999"
    );

    let res = parse_year("foo");
    assert!(res.is_err());
}

#[test]
fn test_parse_month() {
    let res = parse_month("1");
    assert!(res.is_ok());
    assert_eq!(res.unwrap(), 1u32);

    let res = parse_month("12");
    assert!(res.is_ok());
    assert_eq!(res.unwrap(), 12u32);

    let res = parse_month("jan");
    assert!(res.is_ok());
    assert_eq!(res.unwrap(), 1u32);

    let res = parse_month("0");
    assert!(res.is_err());
    assert_eq!(
        res.unwrap_err().to_string(),
        "month \"0\" not in the range 1 through 12"
    );

    let res = parse_month("13");
    assert!(res.is_err());
    assert_eq!(
        res.unwrap_err().to_string(),
        "month \"13\" not in the range 1 through 12"
    );

    let res = parse_month("foo");
    assert!(res.is_err());
    assert_eq!(res.unwrap_err().to_string(), "Invalid month \"foo\"");
}

#[test]
fn parse_month_names_and_ambiguity() {
    assert_eq!(parse_month("FEB"), Ok(2));
    assert_eq!(parse_month("s"), Ok(9));
    assert_eq!(
        parse_month("ju"),
        Err("Invalid month \"ju\", it's a ambiguous: [6, 7]".to_string())
    );
    assert_eq!(
        parse_month("ma"),
        Err("Invalid month \"ma\", it's a ambiguous: [3, 5]".to_string())
    );
    assert_eq!(parse_month("-1"), Err("Invalid month \"-1\"".to_string()));
    assert_eq!(parse_year("-5"), Err("year \"-5\" not in the range 1 through 9999".to_string()));
}

#[test]
fn test_format_month() {
    let today = Date::new(0, 1, 1);
    let leap_february = vec![
        "   February 2020      ",
        "Su Mo Tu We Th Fr Sa  ",
        "                   1  ",
        " 2  3  4  5  6  7  8  ",
        " 9 10 11 12 13 14 15  ",
        "16 17 18 19 20 21 22  ",
        "23 24 25 26 27 28 29  ",
        "                      ",
    ];
    assert_eq!(format_month(2020, 2, true, today), leap_february);

    let may = vec![
        "        May           ",
        "Su Mo Tu We Th Fr Sa  ",
        "                1  2  ",
        " 3  4  5  6  7  8  9  ",
        "10 11 12 13 14 15 16  ",
        "17 18 19 20 21 22 23  ",
        "24 25 26 27 28 29 30  ",
        "31                    ",
    ];
    assert_eq!(format_month(2020, 5, false, today), may);

    let april_hl = vec![
        "     April 2021       ",
        "Su Mo Tu We Th Fr Sa  ",
        "             1  2  3  ",
        " 4  5  6 \u{1b}[7m7\u{1b}[0m  8  9 10  ",
        "11 12 13 14 15 16 17  ",
        "18 19 20 21 22 23 24  ",
        "25 26 27 28 29 30     ",
        "                      ",
    ];
    let today = Date::new(2021, 4, 7);
    assert_eq!(format_month(2021, 4, true, today), april_hl);
}

#[test]
fn test_last_day_in_month() {
    assert_eq!(last_day_in_month(2020, 1), Date::new(2020, 1, 31));
    assert_eq!(last_day_in_month(2020, 2), Date::new(2020, 2, 29));
    assert_eq!(last_day_in_month(2020, 4), Date::new(2020, 4, 30));
}

#[test]
fn last_day_edges() {
    assert_eq!(last_day_in_month(2019, 2), Date::new(2019, 2, 28));
    assert_eq!(last_day_in_month(1900, 2), Date::new(1900, 2, 28));
    assert_eq!(last_day_in_month(2000, 2), Date::new(2000, 2, 29));
    assert_eq!(last_day_in_month(2020, 0), Date::new(2019, 12, 31));
}

#[test]
fn short_months_get_a_blank_line_and_saturdays_are_plain() {
    // February 2015 starts on a Sunday and fills four weeks exactly.
    let feb = format_month(2015, 2, true, Date::new(2015, 2, 7));
    assert_eq!(feb.len(), 7);
    assert_eq!(feb[2], " 1  2  3  4  5  6  7  ");
    assert_eq!(feb[6], "                      ");
    // A month over six weeks has no blank line.
    let aug = format_month(2020, 8, true, Date::new(1, 1, 1));
    assert_eq!(aug.len(), 8);
    assert_eq!(aug[7], "30 31                 ");
}

#[test]
fn configuration_from_the_command_line() {
    let today = Date::new(2024, 3, 15);
    let c = config_from_args(Args { year: None, month: None, show_current_year: false }, today);
    assert_eq!((c.month, c.year), (Some(3), 2024));
    let c = config_from_args(Args { year: Some(1999), month: None, show_current_year: false }, today);
    assert_eq!((c.month, c.year), (None, 1999));
    let c = config_from_args(Args { year: None, month: Some(7), show_current_year: false }, today);
    assert_eq!((c.month, c.year), (Some(7), 2024));
    let c = config_from_args(Args { year: None, month: None, show_current_year: true }, today);
    assert_eq!((c.month, c.year), (None, 2024));
}

#[test]
fn december_ends_on_the_31st() {
    assert_eq!(last_day_in_month(2020, 12), Date::new(2020, 12, 31));
    assert_eq!(last_day_in_month(9999, 12), Date::new(9999, 12, 31));
    let today = Date::new(0, 1, 1);
    let december = vec![
        "   December 2020      ",
        "Su Mo Tu We Th Fr Sa  ",
        "       1  2  3  4  5  ",
        " 6  7  8  9 10 11 12  ",
        "13 14 15 16 17 18 19  ",
        "20 21 22 23 24 25 26  ",
        "27 28 29 30 31        ",
        "                      ",
    ];
    assert_eq!(format_month(2020, 12, true, today), december);
}

#[test]
fn whole_year_in_rows_of_three_months() {
    let today = Date::new(0, 1, 1);
    let year = format_year(2021, today);
    assert_eq!(year.len(), 36);
    assert_eq!(year[0], format!("{:>32}", 2021));
    assert_eq!(
        year[1],
        "      January               February               March          "
    );
    assert_eq!(year[9], "");
    assert_eq!(year[18], "");
    assert_eq!(year[27], "");
    for q in 0..4 {
        let months: Vec<Vec<String>> =
            (1..=3).map(|k| format_month(2021, 3 * q + k, false, today)).collect();
        for r in 0..8 {
            let expected: String = months
                .iter()
                .map(|m| m.get(r).cloned().unwrap_or_else(|| " ".repeat(22)))
                .collect();
            assert_eq!(year[1 + 9 * q as usize + r], expected);
        }
    }
    // February 2015 has four weeks, so its column is filled out with blanks.
    assert_eq!(format_month(2015, 2, false, today).len(), 7);
    let year = format_year(2015, today);
    assert_eq!(
        year[7],
        format!("{}{}{}", "25 26 27 28 29 30 31  ", " ".repeat(22), "29 30 31              ")
    );
    assert_eq!(year[8], " ".repeat(66));
}
