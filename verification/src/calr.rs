//! `calr`: shows a month or a whole year of the calendar, and reads the
//! year and the month from the command line.
use vstd::prelude::*;
use chrono::Datelike;
use crate::decimal::{parsed, DecimalInt};
use crate::text::{
    center, decimal, i64_to_string, lowercase, pad_left, signed_decimal, spaces, starts_with,
    to_lowercase, u64_to_string, usize_to_string,
};

verus! {

/// A calendar date (proleptic Gregorian).
#[derive(Clone, Copy, Debug, PartialEq, Eq, Structural)]
pub struct Date {
    pub year: i32,
    pub month: u32,
    pub day: u32,
}

impl Date {
    /// The date with the given year, month and day.
    pub fn new(year: i32, month: u32, day: u32) -> (d: Date)
        ensures
            d == (Date { year, month, day }),
    {
        Date { year, month, day }
    }
}

/// The first year of the dates that `chrono::NaiveDate` represents.
pub open spec fn min_year() -> int {
    -262143
}

/// The last year of the dates that `chrono::NaiveDate` represents.
pub open spec fn max_year() -> int {
    262142
}

/// Whether `year` is a Gregorian leap year.
pub open spec fn is_leap(year: int) -> bool {
    (year % 4 == 0 && year % 100 != 0) || year % 400 == 0
}

/// The number of days in a month of the Gregorian calendar.
pub open spec fn days_in_month(year: int, month: int) -> int {
    if month == 2 {
        if is_leap(year) {
            29
        } else {
            28
        }
    } else if month == 4 || month == 6 || month == 9 || month == 11 {
        30
    } else {
        31
    }
}

/// Whether `(year, month, day)` is a date that `chrono::NaiveDate` holds.
pub open spec fn valid_date(year: int, month: int, day: int) -> bool {
    min_year() <= year <= max_year() && 1 <= month <= 12 && 1 <= day <= days_in_month(year, month)
}

/// The day before `(year, month, day)`, if there is one in range.
pub open spec fn previous_day(year: int, month: int, day: int) -> Option<Date> {
    if day > 1 {
        Some(Date { year: year as i32, month: month as u32, day: (day - 1) as u32 })
    } else if month > 1 {
        Some(
            Date {
                year: year as i32,
                month: (month - 1) as u32,
                day: days_in_month(year, month - 1) as u32,
            },
        )
    } else if year > min_year() {
        Some(Date { year: (year - 1) as i32, month: 12, day: 31 })
    } else {
        None
    }
}

/// The number of days from 1970-01-01 to the given date.
pub open spec fn days_from_epoch(year: int, month: int, day: int) -> int {
    let y = if month <= 2 {
        year - 1
    } else {
        year
    };
    let era = y / 400;
    let yoe = y - era * 400;
    let mp = (month + 9) % 12;
    let doy = (153 * mp + 2) / 5 + day - 1;
    let doe = yoe * 365 + yoe / 4 - yoe / 100 + doy;
    era * 146097 + doe - 719468
}

/// The day of the week of a date, counted from Sunday (1970-01-01 was a
/// Thursday).
pub open spec fn weekday_from_sunday(year: int, month: int, day: int) -> int {
    (days_from_epoch(year, month, day) + 4) % 7
}

/// `chrono::NaiveDate::from_ymd_opt(..).weekday().num_days_from_sunday()`:
/// the day of the week of a valid date, Sunday being 0.
#[verifier::external_body]
fn chrono_weekday(year: i32, month: u32, day: u32) -> (w: u32)
    requires
        valid_date(year as int, month as int, day as int),
    ensures
        w as int == weekday_from_sunday(year as int, month as int, day as int),
{
    chrono::NaiveDate::from_ymd_opt(year, month, day).unwrap().weekday().num_days_from_sunday()
}

/// `chrono::NaiveDate::from_ymd_opt(..).pred_opt()`: the day before a valid
/// date, none before the first representable one.
#[verifier::external_body]
fn chrono_pred(year: i32, month: u32, day: u32) -> (r: Option<Date>)
    requires
        valid_date(year as int, month as int, day as int),
    ensures
        r == previous_day(year as int, month as int, day as int),
{
    chrono::NaiveDate::from_ymd_opt(year, month, day).unwrap().pred_opt().map(
        |d| Date { year: d.year(), month: d.month(), day: d.day() },
    )
}

/// `ansi_term::Style::new().reverse().paint(s)` rendered: `s` between the
/// escape codes that turn reverse video on and reset it.
#[verifier::external_body]
fn paint_reverse(s: &str) -> (r: String)
    ensures
        r@ == reverse_video(s@),
{
    ansi_term::Style::new().reverse().paint(s).to_string()
}

/// `s` shown in reverse video.
pub open spec fn reverse_video(s: Seq<char>) -> Seq<char> {
    seq!['\x1b', '[', '7', 'm'] + s + seq!['\x1b', '[', '0', 'm']
}

/// The last day of a month: the day before the first of the next month,
/// which for December is the first of January of the next year.  For month
/// 0 this is the last day of the year before.
pub fn last_day_in_month(year: i32, month: u32) -> (d: Date)
    requires
        month <= 12,
        min_year() <= year <= max_year(),
        !(year == min_year() && month == 0),
        !(year == max_year() && month == 12),
    ensures
        month < 12 ==> Some(d) == previous_day(year as int, month + 1, 1),
        month == 12 ==> Some(d) == previous_day(year + 1, 1, 1),
{
    let next = if month == 12 {
        chrono_pred(year + 1, 1, 1)
    } else {
        chrono_pred(year, month + 1, 1)
    };
    match next {
        Some(d) => d,
        None => Date { year, month, day: 0 },
    }
}


/// The English name of month `m` (1 to 12).
pub open spec fn month_name(m: int) -> Seq<char> {
    if m == 1 {
        "January"@
    } else if m == 2 {
        "February"@
    } else if m == 3 {
        "March"@
    } else if m == 4 {
        "April"@
    } else if m == 5 {
        "May"@
    } else if m == 6 {
        "June"@
    } else if m == 7 {
        "July"@
    } else if m == 8 {
        "August"@
    } else if m == 9 {
        "September"@
    } else if m == 10 {
        "October"@
    } else if m == 11 {
        "November"@
    } else {
        "December"@
    }
}

/// The English name of month `m`.
pub fn month_name_of(m: u32) -> (s: &'static str)
    requires
        1 <= m <= 12,
    ensures
        s@ == month_name(m as int),
{
    match m {
        1 => "January",
        2 => "February",
        3 => "March",
        4 => "April",
        5 => "May",
        6 => "June",
        7 => "July",
        8 => "August",
        9 => "September",
        10 => "October",
        11 => "November",
        _ => "December",
    }
}

/// The message for a text that is no integer.
pub open spec fn invalid_integer(s: Seq<char>) -> Seq<char> {
    "Invalid integer \""@ + s + "\""@
}

/// Reads `s` as a decimal integer of type `T`.
pub fn parse_int<T: DecimalInt>(s: &str) -> (r: Result<T, String>)
    ensures
        match parsed(s@, T::signed(), T::lowest(), T::highest()) {
            Some(v) => r matches Ok(x) && x.value() == v,
            None => r matches Err(e) && e@ == invalid_integer(s@),
        },
{
    match T::parse_decimal(s) {
        Some(v) => Ok(v),
        None => {
            let mut e = "Invalid integer \"".to_owned();
            e.append(s);
            e.append("\"");
            Err(e)
        },
    }
}

/// Reads a year from 1 through 9999.
pub fn parse_year(s: &str) -> (r: Result<i32, String>)
    ensures
        match parsed(s@, true, i32::MIN as int, i32::MAX as int) {
            Some(v) => if 1 <= v <= 9999 {
                r == Ok::<i32, String>(v as i32)
            } else {
                r matches Err(e) && e@ == "year \""@ + signed_decimal(v) + "\" not in the range 1 through 9999"@
            },
            None => r matches Err(e) && e@ == invalid_integer(s@),
        },
{
    match parse_int::<i32>(s) {
        Ok(year) => {
            if 1 <= year && year <= 9999 {
                Ok(year)
            } else {
                let mut e = "year \"".to_owned();
                let y = i64_to_string(year as i64);
                e.append(y.as_str());
                e.append("\" not in the range 1 through 9999");
                Err(e)
            }
        },
        Err(e) => Err(e),
    }
}

/// The months, in order, whose lower-cased names start with `lower`, among
/// the first `k`.
pub open spec fn months_starting_with(lower: Seq<char>, k: int) -> Seq<int>
    decreases k,
{
    if k <= 0 {
        seq![]
    } else {
        months_starting_with(lower, k - 1) + (if lower.is_prefix_of(lowercase(month_name(k))) {
            seq![k]
        } else {
            seq![]
        })
    }
}

/// The numbers of `v` separated by `", "`.
pub open spec fn joined_numbers(v: Seq<int>) -> Seq<char>
    decreases v.len(),
{
    if v.len() == 0 {
        seq![]
    } else if v.len() == 1 {
        decimal(v[0] as nat)
    } else {
        joined_numbers(v.drop_last()) + ", "@ + decimal(v.last() as nat)
    }
}

/// A list of numbers as `{:?}` shows it: `[a, b, c]`.
pub open spec fn number_list(v: Seq<int>) -> Seq<char> {
    "["@ + joined_numbers(v) + "]"@
}

/// What `parse_month` gives for a text that is not a number: the one month
/// whose name starts with it (ignoring case), or the reason there is none.
pub open spec fn month_by_name(s: Seq<char>) -> Result<u32, Seq<char>> {
    let m = months_starting_with(lowercase(s), 12);
    if m.len() == 1 {
        Ok(m[0] as u32)
    } else if m.len() == 0 {
        Err("Invalid month \""@ + s + "\""@)
    } else {
        Err("Invalid month \""@ + s + "\", it's a ambiguous: "@ + number_list(m))
    }
}

/// Reads a month: a number from 1 through 12, or the start of a month's
/// name, in any case, that no other month's name starts with.
pub fn parse_month(month: &str) -> (r: Result<u32, String>)
    ensures
        match parsed(month@, false, 0, u32::MAX as int) {
            Some(v) => if 1 <= v <= 12 {
                r == Ok::<u32, String>(v as u32)
            } else {
                r matches Err(e) && e@ == "month \""@ + decimal(v as nat) + "\" not in the range 1 through 12"@
            },
            None => match month_by_name(month@) {
                Ok(m) => r == Ok::<u32, String>(m),
                Err(msg) => r matches Err(e) && e@ == msg,
            },
        },
{
    match parse_int::<u32>(month) {
        Ok(num) => {
            if 1 <= num && num <= 12 {
                Ok(num)
            } else {
                let mut e = "month \"".to_owned();
                let n = u64_to_string(num as u64);
                e.append(n.as_str());
                e.append("\" not in the range 1 through 12");
                Err(e)
            }
        },
        Err(_) => {
            let lower = to_lowercase(month);
            let mut matches: Vec<u32> = Vec::new();
            let mut i: u32 = 1;
            while i <= 12
                invariant
                    1 <= i <= 13,
                    lower@ == lowercase(month@),
                    matches@.map_values(|x: u32| x as int) == months_starting_with(lower@, i - 1),
                    forall|k: int| 0 <= k < matches@.len() ==> 1 <= #[trigger] matches@[k] <= 12,
                decreases 13 - i,
            {
                let name = month_name_of(i);
                let low = to_lowercase(name);
                let ghost old = matches@;
                if starts_with(low.as_str(), lower.as_str()) {
                    matches.push(i);
                }
                assert(matches@.map_values(|x: u32| x as int) =~= months_starting_with(lower@, i as int));
                i += 1;
            }
            let ghost m = months_starting_with(lower@, 12);
            assert(matches@.map_values(|x: u32| x as int) == m);
            if matches.len() == 1 {
                assert(m[0] == matches@[0] as int);
                Ok(matches[0])
            } else if matches.len() == 0 {
                let mut e = "Invalid month \"".to_owned();
                e.append(month);
                e.append("\"");
                Err(e)
            } else {
                let mut e = "Invalid month \"".to_owned();
                e.append(month);
                e.append("\", it's a ambiguous: ");
                e.append("[");
                let mut k: usize = 0;
                assert(m.take(0) =~= Seq::<int>::empty());
                assert(e@ =~= "Invalid month \""@ + month@ + "\", it's a ambiguous: "@ + "["@
                    + joined_numbers(m.take(0)));
                while k < matches.len()
                    invariant
                        0 < matches.len(),
                        k <= matches.len(),
                        matches@.map_values(|x: u32| x as int) == m,
                        e@ == "Invalid month \""@ + month@ + "\", it's a ambiguous: "@ + "["@
                            + joined_numbers(m.take(k as int)),
                    decreases matches.len() - k,
                {
                    if k > 0 {
                        e.append(", ");
                    }
                    let n = u64_to_string(matches[k] as u64);
                    e.append(n.as_str());
                    assert(m.take(k + 1).drop_last() =~= m.take(k as int));
                    assert(m[k as int] == matches@[k as int] as int);
                    if k == 0 {
                        assert(m.take(0) =~= Seq::<int>::empty());
                    }
                    k += 1;
                }
                e.append("]");
                assert(m.take(matches.len() as int) =~= m);
                Err(e)
            }
        },
    }
}


/// The title of a month: its name, with the year when asked, centred in 20
/// columns and followed by two blanks.
pub open spec fn header_line(year: int, month: int, print_year: bool) -> Seq<char> {
    center(
        if print_year {
            month_name(month) + " "@ + signed_decimal(year)
        } else {
            month_name(month)
        },
        20,
    ) + "  "@
}

/// The line naming the days of the week.
pub open spec fn weekday_line() -> Seq<char> {
    "Su Mo Tu We Th Fr Sa"@ + "  "@
}

/// Whether `today` is day `d` of the month shown.
pub open spec fn is_today(today: Date, year: int, month: int, d: int) -> bool {
    today.year == year && today.month == month && today.day == d
}

/// The cell for weekday `pos` (Sunday 0) of week `w` of a month whose first
/// day falls on weekday `first` and which has `last` days: the day's number
/// right-aligned in two columns (in reverse video when it is today, except on
/// Saturdays), or two blanks outside the month; then one blank, or two after
/// Saturday.
pub open spec fn day_cell(
    year: int,
    month: int,
    today: Date,
    first: int,
    last: int,
    w: int,
    pos: int,
) -> Seq<char> {
    let d = 7 * w + pos - first + 1;
    let content = if 1 <= d <= last {
        if pos < 6 && is_today(today, year, month, d) {
            pad_left(reverse_video(decimal(d as nat)), 2)
        } else {
            pad_left(decimal(d as nat), 2)
        }
    } else {
        spaces(2)
    };
    content + if pos == 6 {
        spaces(2)
    } else {
        spaces(1)
    }
}

/// The first `k` cells of week `w`.
pub open spec fn week_prefix(
    year: int,
    month: int,
    today: Date,
    first: int,
    last: int,
    w: int,
    k: int,
) -> Seq<char>
    decreases k,
{
    if k <= 0 {
        seq![]
    } else {
        week_prefix(year, month, today, first, last, w, k - 1) + day_cell(
            year,
            month,
            today,
            first,
            last,
            w,
            k - 1,
        )
    }
}

/// The number of weeks that a month touches.
pub open spec fn week_count(first: int, last: int) -> int {
    (first + last + 6) / 7
}

/// The calendar of a month: the title, the weekday names, one line per week,
/// and a blank line of 22 columns when that makes fewer than eight lines.
pub open spec fn month_lines(year: int, month: int, print_year: bool, today: Date) -> Seq<
    Seq<char>,
> {
    let first = weekday_from_sunday(year, month, 1);
    let last = days_in_month(year, month);
    let weeks = week_count(first, last);
    seq![header_line(year, month, print_year), weekday_line()] + Seq::new(
        weeks as nat,
        |w: int| week_prefix(year, month, today, first, last, w, 7),
    ) + (if weeks + 2 <= 7 {
        seq![spaces(22)]
    } else {
        seq![]
    })
}

/// One cell of the calendar.
fn format_cell(year: i32, month: u32, today: Date, first: i64, last: i64, w: i64, pos: i64) -> (s:
    String)
    requires
        0 <= first < 7,
        28 <= last <= 31,
        0 <= w < 6,
        0 <= pos < 7,
    ensures
        s@ == day_cell(
            year as int,
            month as int,
            today,
            first as int,
            last as int,
            w as int,
            pos as int,
        ),
{
    let d = 7 * w + pos - first + 1;
    let mut s = if 1 <= d && d <= last {
        let n = u64_to_string(d as u64);
        if pos < 6 && today.year == year && today.month == month && today.day as i64 == d {
            let p = paint_reverse(n.as_str());
            crate::text::right_align(p.as_str(), 2)
        } else {
            crate::text::right_align(n.as_str(), 2)
        }
    } else {
        crate::text::blanks(2)
    };
    let tail = if pos == 6 {
        crate::text::blanks(2)
    } else {
        crate::text::blanks(1)
    };
    s.append(tail.as_str());
    s
}

/// The calendar of a month, as `calr` prints it.
pub fn format_month(year: i32, month: u32, print_year: bool, today: Date) -> (lines: Vec<String>)
    requires
        1 <= month <= 12,
        min_year() <= year <= max_year(),
        !(year == max_year() && month == 12),
    ensures
        crate::text::views(lines@) == month_lines(year as int, month as int, print_year, today),
{
    let mut lines: Vec<String> = Vec::new();
    let name = month_name_of(month);
    let title = if print_year {
        let mut t = name.to_owned();
        t.append(" ");
        let y = i64_to_string(year as i64);
        t.append(y.as_str());
        t
    } else {
        name.to_owned()
    };
    let mut header = crate::text::centered(title.as_str(), 20);
    header.append("  ");
    lines.push(header);
    let mut days = "Su Mo Tu We Th Fr Sa".to_owned();
    days.append("  ");
    lines.push(days);
    let first = chrono_weekday(year, month, 1) as i64;
    let last_day = last_day_in_month(year, month);
    let last = last_day.day as i64;
    assert(last == days_in_month(year as int, month as int));
    let weeks = (first + last + 6) / 7;
    let ghost fi = first as int;
    let ghost la = last as int;
    let ghost top = seq![header_line(year as int, month as int, print_year), weekday_line()];
    assert(crate::text::views(lines@) =~= top);
    let mut w: i64 = 0;
    while w < weeks
        invariant
            0 <= w <= weeks,
            weeks == week_count(fi, la),
            0 <= fi < 7,
            28 <= la <= 31,
            fi == first,
            la == last,
            crate::text::views(lines@) == top + Seq::new(
                w as nat,
                |k: int| week_prefix(year as int, month as int, today, fi, la, k, 7),
            ),
        decreases weeks - w,
    {
        let mut row = String::new();
        let mut pos: i64 = 0;
        while pos < 7
            invariant
                0 <= pos <= 7,
                0 <= w < weeks,
                weeks == week_count(fi, la),
                0 <= fi < 7,
                28 <= la <= 31,
                fi == first,
                la == last,
                row@ == week_prefix(year as int, month as int, today, fi, la, w as int, pos as int),
            decreases 7 - pos,
        {
            let cell = format_cell(year, month, today, first, last, w, pos);
            row.append(cell.as_str());
            pos += 1;
        }
        let ghost old = crate::text::views(lines@);
        lines.push(row);
        assert(crate::text::views(lines@) =~= old.push(row@));
        assert(row@ == week_prefix(year as int, month as int, today, fi, la, w as int, 7));
        assert(crate::text::views(lines@) =~= top + Seq::new(
            (w + 1) as nat,
            |k: int| week_prefix(year as int, month as int, today, fi, la, k, 7),
        ));
        w += 1;
    }
    if weeks + 2 <= 7 {
        let pad = crate::text::blanks(22);
        lines.push(pad);
    }
    assert(crate::text::views(lines@) =~= month_lines(year as int, month as int, print_year, today));
    lines
}


/// Line `r` of a month's calendar (without the year in its title), or 22
/// blanks below its last line.
pub open spec fn month_row(year: int, month: int, today: Date, r: int) -> Seq<char> {
    let lines = month_lines(year, month, false, today);
    if r < lines.len() {
        lines[r]
    } else {
        spaces(22)
    }
}

/// Three months side by side, from month `first` on: eight lines, each the
/// lines of the three months at that height, one after the other.
pub open spec fn quarter_lines(year: int, first: int, today: Date) -> Seq<Seq<char>> {
    Seq::new(
        8,
        |r: int|
            month_row(year, first, today, r) + month_row(year, first + 1, today, r) + month_row(
                year,
                first + 2,
                today,
                r,
            ),
    )
}

/// The calendar of a whole year: the year right-aligned in 32 columns, then
/// the months three by three, side by side, each three apart from the next
/// by an empty line.
pub open spec fn year_lines(year: int, today: Date) -> Seq<Seq<char>> {
    seq![pad_left(signed_decimal(year), 32)] + quarter_lines(year, 1, today) + seq![seq![]]
        + quarter_lines(year, 4, today) + seq![seq![]] + quarter_lines(year, 7, today) + seq![seq![]]
        + quarter_lines(year, 10, today)
}

/// Line `r` of a calendar, or 22 blanks below its last line.
fn row_of(lines: &Vec<String>, r: usize) -> (s: String)
    ensures
        r < lines@.len() ==> s@ == lines@[r as int]@,
        r >= lines@.len() ==> s@ == spaces(22),
{
    if r < lines.len() {
        lines[r].clone()
    } else {
        crate::text::blanks(22)
    }
}

/// Three months side by side, from month `first` on.
fn format_quarter(year: i32, first: u32, today: Date) -> (rows: Vec<String>)
    requires
        1 <= first <= 10,
        min_year() <= year < max_year(),
    ensures
        crate::text::views(rows@) == quarter_lines(year as int, first as int, today),
{
    let a = format_month(year, first, false, today);
    let b = format_month(year, first + 1, false, today);
    let c = format_month(year, first + 2, false, today);
    let ghost y = year as int;
    let ghost f = first as int;
    let mut rows: Vec<String> = Vec::new();
    let mut r: usize = 0;
    while r < 8
        invariant
            r <= 8,
            y == year,
            f == first,
            crate::text::views(a@) == month_lines(y, f, false, today),
            crate::text::views(b@) == month_lines(y, f + 1, false, today),
            crate::text::views(c@) == month_lines(y, f + 2, false, today),
            crate::text::views(rows@) == quarter_lines(y, f, today).take(r as int),
        decreases 8 - r,
    {
        let mut line = row_of(&a, r);
        let lb = row_of(&b, r);
        let lc = row_of(&c, r);
        line.append(lb.as_str());
        line.append(lc.as_str());
        proof {
            let ri = r as int;
            if ri < a@.len() {
                assert(crate::text::views(a@)[ri] == a@[ri]@);
            }
            if ri < b@.len() {
                assert(crate::text::views(b@)[ri] == b@[ri]@);
            }
            if ri < c@.len() {
                assert(crate::text::views(c@)[ri] == c@[ri]@);
            }
            assert(line@ == quarter_lines(y, f, today)[ri]);
        }
        let ghost old = crate::text::views(rows@);
        rows.push(line);
        assert(crate::text::views(rows@) =~= old.push(rows@[r as int]@));
        assert(quarter_lines(y, f, today).take(r + 1) =~= quarter_lines(y, f, today).take(
            r as int,
        ).push(quarter_lines(y, f, today)[r as int]));
        r += 1;
    }
    assert(quarter_lines(y, f, today).take(8) =~= quarter_lines(y, f, today));
    rows
}

/// The calendar of a whole year, as `calr -y` shows it.
pub fn format_year(year: i32, today: Date) -> (lines: Vec<String>)
    requires
        min_year() <= year < max_year(),
    ensures
        crate::text::views(lines@) == year_lines(year as int, today),
{
    let y = i64_to_string(year as i64);
    let mut lines: Vec<String> = Vec::new();
    lines.push(crate::text::right_align(y.as_str(), 32));
    let mut q1 = format_quarter(year, 1, today);
    let mut q2 = format_quarter(year, 4, today);
    let mut q3 = format_quarter(year, 7, today);
    let mut q4 = format_quarter(year, 10, today);
    let ghost v1 = crate::text::views(q1@);
    let ghost v2 = crate::text::views(q2@);
    let ghost v3 = crate::text::views(q3@);
    let ghost v4 = crate::text::views(q4@);
    let ghost head = crate::text::views(lines@);
    lines.append(&mut q1);
    lines.push(String::new());
    lines.append(&mut q2);
    lines.push(String::new());
    lines.append(&mut q3);
    lines.push(String::new());
    lines.append(&mut q4);
    assert(crate::text::views(lines@) =~= head + v1 + seq![Seq::<char>::empty()] + v2 + seq![
        Seq::<char>::empty(),
    ] + v3 + seq![Seq::<char>::empty()] + v4);
    lines
}

/// The command line as given.
pub struct Args {
    pub year: Option<i32>,
    pub month: Option<u32>,
    pub show_current_year: bool,
}

/// What to show.
pub struct Config {
    pub month: Option<u32>,
    pub year: i32,
    pub today: Date,
}

/// The month and year to show: the whole current year with `-y`; the
/// current month when neither a month nor a year is given; otherwise what was
/// given, the year defaulting to the current one.
pub fn config_from_args(args: Args, today: Date) -> (c: Config)
    ensures
        c.today == today,
        args.show_current_year ==> c.month is None && c.year == today.year,
        !args.show_current_year && args.month is None && args.year is None ==> c.month == Some(
            today.month,
        ) && c.year == today.year,
        !args.show_current_year && !(args.month is None && args.year is None) ==> c.month
            == args.month && c.year == match args.year {
            Some(y) => y,
            None => today.year,
        },
{
    let mut month = args.month;
    let mut year = args.year;
    if args.show_current_year {
        month = None;
        year = Some(today.year);
    } else if args.month.is_none() && args.year.is_none() {
        month = Some(today.month);
        year = Some(today.year);
    }
    Config {
        month,
        year: match year {
            Some(y) => y,
            None => today.year,
        },
        today,
    }
}


/// Ten to the power `k`.
pub open spec fn ten_to(k: nat) -> nat
    decreases k,
{
    if k == 0 {
        1
    } else {
        10 * ten_to((k - 1) as nat)
    }
}

proof fn lemma_decimal_len(n: nat, k: nat)
    requires
        k >= 1,
        n < ten_to(k),
    ensures
        1 <= decimal(n).len() <= k,
    decreases n,
{
    if n >= 10 {
        assert(k >= 2) by {
            if k == 1 {
                assert(ten_to(1) == 10) by {
                    assert(ten_to(0) == 1);
                }
            }
        }
        assert(n / 10 < ten_to((k - 1) as nat));
        lemma_decimal_len(n / 10, (k - 1) as nat);
    }
}

proof fn lemma_cell_width(year: int, month: int, today: Date, first: int, last: int, w: int, pos: int)
    requires
        !(today.year == year && today.month == month),
        0 <= pos < 7,
        last <= 31,
    ensures
        day_cell(year, month, today, first, last, w, pos).len() == if pos == 6 {
            4int
        } else {
            3int
        },
{
    let d = 7 * w + pos - first + 1;
    if 1 <= d <= last {
        assert(ten_to(2) == 100) by {
            assert(ten_to(0) == 1);
            assert(ten_to(1) == 10);
        }
        lemma_decimal_len(d as nat, 2);
    }
}

proof fn lemma_week_width(year: int, month: int, today: Date, first: int, last: int, w: int, k: int)
    requires
        !(today.year == year && today.month == month),
        0 <= k <= 7,
        last <= 31,
    ensures
        week_prefix(year, month, today, first, last, w, k).len() == 3 * k + if k == 7 {
            1int
        } else {
            0int
        },
    decreases k,
{
    if k > 0 {
        lemma_week_width(year, month, today, first, last, w, k - 1);
        lemma_cell_width(year, month, today, first, last, w, k - 1);
    }
}

proof fn lemma_month_name_len(m: int)
    requires
        1 <= m <= 12,
    ensures
        month_name(m).len() <= 9,
{
    reveal_strlit("January");
    reveal_strlit("February");
    reveal_strlit("March");
    reveal_strlit("April");
    reveal_strlit("May");
    reveal_strlit("June");
    reveal_strlit("July");
    reveal_strlit("August");
    reveal_strlit("September");
    reveal_strlit("October");
    reveal_strlit("November");
    reveal_strlit("December");
}

/// Every line of a calendar is 22 columns wide (when today is not in the
/// month shown, as the reverse-video codes add to the width), and a calendar
/// has seven lines or eight.
pub proof fn calendar_lines_are_22_wide(year: int, month: int, print_year: bool, today: Date)
    requires
        1 <= month <= 12,
        min_year() <= year <= max_year(),
        !(today.year == year && today.month == month),
    ensures
        month_lines(year, month, print_year, today).len() == 7 || month_lines(
            year,
            month,
            print_year,
            today,
        ).len() == 8,
        forall|i: int|
            0 <= i < month_lines(year, month, print_year, today).len() ==> (#[trigger] month_lines(
                year,
                month,
                print_year,
                today,
            )[i]).len() == 22,
{
    let first = weekday_from_sunday(year, month, 1);
    let last = days_in_month(year, month);
    let weeks = week_count(first, last);
    let lines = month_lines(year, month, print_year, today);
    assert(0 <= first < 7);
    assert(28 <= last <= 31);
    assert(4 <= weeks <= 6);
    reveal_strlit("  ");
    reveal_strlit(" ");
    reveal_strlit("Su Mo Tu We Th Fr Sa");
    lemma_month_name_len(month);
    let y = if year < 0 {
        -year
    } else {
        year
    };
    assert(ten_to(6) == 1000000) by {
        assert(ten_to(0) == 1);
        assert(ten_to(1) == 10);
        assert(ten_to(2) == 100);
        assert(ten_to(3) == 1000);
        assert(ten_to(4) == 10000);
        assert(ten_to(5) == 100000);
    }
    lemma_decimal_len(y as nat, 6);
    assert(header_line(year, month, print_year).len() == 22);
    assert(weekday_line().len() == 22);
    assert forall|i: int| 0 <= i < lines.len() implies (#[trigger] lines[i]).len() == 22 by {
        if 2 <= i < 2 + weeks {
            lemma_week_width(year, month, today, first, last, i - 2, 7);
        }
    }
}

proof fn lemma_quarter_width(year: int, first: int, today: Date)
    requires
        1 <= first <= 10,
        min_year() <= year <= max_year(),
        today.year != year,
    ensures
        forall|r: int| 0 <= r < 8 ==> (#[trigger] quarter_lines(year, first, today)[r]).len() == 66,
{
    calendar_lines_are_22_wide(year, first, false, today);
    calendar_lines_are_22_wide(year, first + 1, false, today);
    calendar_lines_are_22_wide(year, first + 2, false, today);
    assert forall|r: int| 0 <= r < 8 implies (#[trigger] quarter_lines(year, first, today)[r]).len()
        == 66 by {
        assert(month_row(year, first, today, r).len() == 22);
        assert(month_row(year, first + 1, today, r).len() == 22);
        assert(month_row(year, first + 2, today, r).len() == 22);
    }
}

/// The months of a year's calendar line up: below the line with the year,
/// each line is three months side by side, 66 columns wide, or the empty
/// line between two rows of months (when today is not in that year, as the
/// reverse-video codes add to the width).
pub proof fn year_lines_line_up(year: int, today: Date)
    requires
        min_year() <= year <= max_year(),
        today.year != year,
    ensures
        year_lines(year, today).len() == 36,
        forall|i: int|
            1 <= i < 36 ==> (#[trigger] year_lines(year, today)[i]).len() == (if i % 9 == 0 {
                0int
            } else {
                66int
            }),
{
    lemma_quarter_width(year, 1, today);
    lemma_quarter_width(year, 4, today);
    lemma_quarter_width(year, 7, today);
    lemma_quarter_width(year, 10, today);
    let lines = year_lines(year, today);
    assert forall|i: int| 1 <= i < 36 implies (#[trigger] lines[i]).len() == (if i % 9 == 0 {
        0int
    } else {
        66int
    }) by {
        if i < 9 {
            assert(lines[i] == quarter_lines(year, 1, today)[i - 1]);
        } else if i == 9 || i == 18 || i == 27 {
        } else if i < 18 {
            assert(lines[i] == quarter_lines(year, 4, today)[i - 10]);
        } else if i < 27 {
            assert(lines[i] == quarter_lines(year, 7, today)[i - 19]);
        } else {
            assert(lines[i] == quarter_lines(year, 10, today)[i - 28]);
        }
    }
}

proof fn lemma_plain_cell_width(
    year: int,
    month: int,
    today: Date,
    first: int,
    last: int,
    w: int,
    pos: int,
)
    requires
        !is_today(today, year, month, 7 * w + pos - first + 1),
        0 <= pos < 6,
        last <= 31,
    ensures
        day_cell(year, month, today, first, last, w, pos).len() == 3,
{
    let d = 7 * w + pos - first + 1;
    if 1 <= d <= last {
        assert(ten_to(2) == 100) by {
            assert(ten_to(0) == 1);
            assert(ten_to(1) == 10);
        }
        lemma_decimal_len(d as nat, 2);
    }
}

proof fn lemma_prefix_before_today(
    year: int,
    month: int,
    today: Date,
    first: int,
    last: int,
    w: int,
    k: int,
    pos: int,
)
    requires
        0 <= k <= pos < 7,
        last <= 31,
        is_today(today, year, month, 7 * w + pos - first + 1),
    ensures
        week_prefix(year, month, today, first, last, w, k).len() == 3 * k,
    decreases k,
{
    if k > 0 {
        lemma_prefix_before_today(year, month, today, first, last, w, k - 1, pos);
        lemma_plain_cell_width(year, month, today, first, last, w, k - 1);
    }
}

proof fn lemma_week_prefix_grows(
    year: int,
    month: int,
    today: Date,
    first: int,
    last: int,
    w: int,
    j: int,
    k: int,
)
    requires
        0 <= j <= k,
    ensures
        week_prefix(year, month, today, first, last, w, j).len() <= week_prefix(
            year,
            month,
            today,
            first,
            last,
            w,
            k,
        ).len(),
        week_prefix(year, month, today, first, last, w, k).subrange(
            0,
            week_prefix(year, month, today, first, last, w, j).len() as int,
        ) == week_prefix(year, month, today, first, last, w, j),
    decreases k,
{
    let a = week_prefix(year, month, today, first, last, w, j);
    let b = week_prefix(year, month, today, first, last, w, k);
    if j == k {
        assert(b.subrange(0, a.len() as int) =~= a);
    } else {
        lemma_week_prefix_grows(year, month, today, first, last, w, j, k - 1);
        let c = week_prefix(year, month, today, first, last, w, k - 1);
        assert(b == c + day_cell(year, month, today, first, last, w, k - 1));
        assert(b.subrange(0, a.len() as int) =~= c.subrange(0, a.len() as int));
    }
}

proof fn lemma_inner_subrange(line: Seq<char>, u: Seq<char>, x: int, y: int)
    requires
        u.len() <= line.len(),
        line.subrange(0, u.len() as int) == u,
        0 <= x <= y <= u.len(),
    ensures
        line.subrange(x, y) == u.subrange(x, y),
{
    assert(line.subrange(x, y) =~= line.subrange(0, u.len() as int).subrange(x, y));
}

proof fn lemma_weekday_in_month(year: int, month: int, d: int)
    requires
        1 <= d,
    ensures
        weekday_from_sunday(year, month, d) == (weekday_from_sunday(year, month, 1) + d - 1) % 7,
{
    assert(days_from_epoch(year, month, d) == days_from_epoch(year, month, 1) + d - 1);
    let e = days_from_epoch(year, month, 1) + 4;
    vstd::arithmetic::div_mod::lemma_add_mod_noop(e, d - 1, 7);
    vstd::arithmetic::div_mod::lemma_mod_twice(d - 1, 7);
    vstd::arithmetic::div_mod::lemma_add_mod_noop(e % 7, d - 1, 7);
}

/// Where today's date stands in a month's calendar: its day of the week is
/// counted from the month's first day; and today is shown in reverse video
/// in its week's line, at the cell for its day of the week, on every day of
/// the week but Saturday, which shows it plain.
pub proof fn today_is_shown_in_reverse_video(year: int, month: int, print_year: bool, today: Date)
    requires
        1 <= month <= 12,
        min_year() <= year <= max_year(),
        today.year == year,
        today.month == month,
        1 <= today.day <= days_in_month(year, month),
    ensures
        ({
            let first = weekday_from_sunday(year, month, 1);
            let k = first + today.day - 1;
            let line = month_lines(year, month, print_year, today)[2 + k / 7];
            let at = 3 * (k % 7);
            let shown = reverse_video(decimal(today.day as nat));
            &&& weekday_from_sunday(year, month, today.day as int) == k % 7
            &&& 2 + k / 7 < month_lines(year, month, print_year, today).len()
            &&& k % 7 != 6 ==> line.subrange(at, at + shown.len()) == shown
            &&& k % 7 == 6 ==> line.subrange(at, at + 4) == pad_left(decimal(today.day as nat), 2)
                + spaces(2)
        }),
{
    let first = weekday_from_sunday(year, month, 1);
    let last = days_in_month(year, month);
    let d = today.day as int;
    let k = first + d - 1;
    let w = k / 7;
    let pos = k % 7;
    lemma_weekday_in_month(year, month, d);
    assert(0 <= first < 7);
    assert(7 * w + pos == k);
    assert(0 <= w < week_count(first, last));
    let lines = month_lines(year, month, print_year, today);
    assert(lines[2 + w] == week_prefix(year, month, today, first, last, w, 7));
    lemma_prefix_before_today(year, month, today, first, last, w, pos, pos);
    lemma_week_prefix_grows(year, month, today, first, last, w, pos + 1, 7);
    let before = week_prefix(year, month, today, first, last, w, pos);
    let upto = week_prefix(year, month, today, first, last, w, pos + 1);
    let cell = day_cell(year, month, today, first, last, w, pos);
    assert(upto == before + cell);
    let line = lines[2 + w];
    let shown = reverse_video(decimal(d as nat));
    if pos != 6 {
        assert(cell == pad_left(shown, 2) + spaces(1));
        assert(pad_left(shown, 2) == shown);
        lemma_inner_subrange(line, upto, 3 * pos, 3 * pos + shown.len());
        assert(upto.subrange(3 * pos, 3 * pos + shown.len()) =~= shown);
    } else {
        assert(ten_to(2) == 100) by {
            assert(ten_to(0) == 1);
            assert(ten_to(1) == 10);
        }
        lemma_decimal_len(d as nat, 2);
        assert(cell == pad_left(decimal(d as nat), 2) + spaces(2));
        lemma_inner_subrange(line, upto, 3 * pos, 3 * pos + 4);
        assert(upto.subrange(3 * pos, 3 * pos + 4) =~= cell);
    }
}

} // verus!
