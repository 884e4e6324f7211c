//! Calendar dates of the proleptic Gregorian calendar, as `chrono` handles them.

use vstd::prelude::*;
use chrono::Datelike;
use crate::text::{zero_padded, ascii_lower, is_ascii_letter, all_ascii, no_white_space, is_white_space};

verus! {

/// The earliest year that `chrono::NaiveDate` represents.
pub const MIN_YEAR: i32 = -262143;

/// The latest year that `chrono::NaiveDate` represents.
pub const MAX_YEAR: i32 = 262142;

/// Leap years of the proleptic Gregorian calendar.
pub open spec fn is_leap_year(y: int) -> bool {
    y % 4 == 0 && (y % 100 != 0 || y % 400 == 0)
}

/// Number of days in month `m` of year `y`.
pub open spec fn days_in_month_of(y: int, m: int) -> int {
    if m == 2 {
        if is_leap_year(y) { 29 } else { 28 }
    } else if m == 4 || m == 6 || m == 9 || m == 11 {
        30
    } else {
        31
    }
}

/// A year, month and day that name an existing date in the range of `chrono::NaiveDate`.
pub open spec fn valid_ymd(y: int, m: int, d: int) -> bool {
    &&& MIN_YEAR <= y <= MAX_YEAR
    &&& 1 <= m <= 12
    &&& 1 <= d <= days_in_month_of(y, m)
}

/// Days between 1970-01-01 and the given date (negative before it).
pub open spec fn days_from_epoch(y: int, m: int, d: int) -> int {
    let yy = if m <= 2 { y - 1 } else { y };
    let era = yy / 400;
    let yoe = yy - era * 400;
    let mp = if m > 2 { m - 3 } else { m + 9 };
    let doy = (153 * mp + 2) / 5 + d - 1;
    let doe = yoe * 365 + yoe / 4 - yoe / 100 + doy;
    era * 146097 + doe - 719468
}

/// Day of the week counted from Monday (0) to Sunday (6); 1970-01-01 was a Thursday.
pub open spec fn weekday_from_monday(y: int, m: int, d: int) -> int {
    (days_from_epoch(y, m, d) + 3) % 7
}

/// The mathematical value of a date.
pub struct DateView {
    pub year: int,
    pub month: int,
    pub day: int,
}

impl DateView {
    pub open spec fn is_valid(self) -> bool {
        valid_ymd(self.year, self.month, self.day)
    }

    pub open spec fn weekday(self) -> int {
        weekday_from_monday(self.year, self.month, self.day)
    }
}

/// A calendar date; it always names an existing day.
#[derive(Clone, Copy, Debug, PartialEq, Eq, Structural)]
pub struct Date {
    year: i32,
    month: u32,
    day: u32,
}

impl View for Date {
    type V = DateView;

    closed spec fn view(&self) -> DateView {
        DateView { year: self.year as int, month: self.month as int, day: self.day as int }
    }
}

impl Date {
    /// Every date names an existing day.
    #[verifier::type_invariant]
    pub closed spec fn inv(self) -> bool {
        valid_ymd(self.year as int, self.month as int, self.day as int)
    }

    /// The date with the given year, month and day, if it exists.
    pub fn from_ymd_opt(year: i32, month: u32, day: u32) -> (r: Option<Date>)
        ensures
            r is Some <==> valid_ymd(year as int, month as int, day as int),
            r matches Some(d) ==> d@ == (DateView {
                year: year as int,
                month: month as int,
                day: day as int,
            }),
    {
        if chrono_ymd_exists(year, month, day) {
            Some(Date { year, month, day })
        } else {
            None
        }
    }

    pub fn year(&self) -> (r: i32)
        ensures
            r == self@.year,
            self@.is_valid(),
    {
        proof { use_type_invariant(self); }
        self.year
    }

    pub fn month(&self) -> (r: u32)
        ensures
            r == self@.month,
            self@.is_valid(),
    {
        proof { use_type_invariant(self); }
        self.month
    }

    pub fn day(&self) -> (r: u32)
        ensures
            r == self@.day,
            self@.is_valid(),
    {
        proof { use_type_invariant(self); }
        self.day
    }

    /// Day of the week, counted from Monday (0) to Sunday (6).
    pub fn weekday(&self) -> (r: u32)
        ensures
            r == self@.weekday(),
            r < 7,
    {
        chrono_weekday_of(*self)
    }

    /// The date written as `chrono` formats `%Y-%m-%d`.
    pub fn iso_text(&self) -> (r: String)
        ensures
            r@ == iso_date_text(self@.year, self@.month, self@.day),
    {
        chrono_iso_text(*self)
    }

    /// Parses `s` as `chrono` parses the format `%F` (`%Y-%m-%d`).
    pub fn parse_iso(s: &str) -> (r: Option<Date>)
        ensures
            r matches Some(d) ==> chrono_date_parse(s@) == Some((d@.year, d@.month, d@.day)),
            r is None ==> chrono_date_parse(s@) is None,
            reads_written_dates(s@, r),
            s@.len() > 0 && is_ascii_letter(s@[0]) ==> r is None,
    {
        chrono_parse_iso(s)
    }

    /// Today's date in the local time zone.
    pub fn today() -> (r: Date) {
        chrono_local_today()
    }
}

/// Two dates with the same year, month and day are the same value.
pub proof fn lemma_date_view_injective(a: Date, b: Date)
    requires
        a@ == b@,
    ensures
        a == b,
{
}

/// Consecutive days of a month fall on consecutive days of the week.
pub proof fn lemma_weekday_next_day(y: int, m: int, d: int)
    ensures
        weekday_from_monday(y, m, d + 1) == (weekday_from_monday(y, m, d) + 1) % 7,
        0 <= weekday_from_monday(y, m, d) < 7,
{
    assert(days_from_epoch(y, m, d + 1) == days_from_epoch(y, m, d) + 1);
}

/// What `chrono` writes for `%Y`: four digits for the years 0 to 9999, otherwise a sign
/// and at least four digits.
pub open spec fn year_text(y: int) -> Seq<char> {
    if 0 <= y <= 9999 {
        zero_padded(y as nat, 4)
    } else if y > 0 {
        seq!['+'] + zero_padded(y as nat, 4)
    } else {
        seq!['-'] + zero_padded((-y) as nat, 4)
    }
}

/// A date written as year, month and day, joined by `-`, with the month and the day
/// zero-padded to `wm` and `wd` digits.
pub open spec fn ymd_text(y: int, m: int, d: int, wm: nat, wd: nat) -> Seq<char> {
    year_text(y) + seq!['-'] + zero_padded(m as nat, wm) + seq!['-'] + zero_padded(d as nat, wd)
}

/// What `chrono` writes for `%Y-%m-%d`.
pub open spec fn iso_date_text(y: int, m: int, d: int) -> Seq<char> {
    ymd_text(y, m, d, 2, 2)
}

/// `r` is the date that `s` writes, whenever `s` writes a date as a year, `-`, the month
/// in one or two digits, `-` and the day in one or two digits.
pub open spec fn reads_written_dates(s: Seq<char>, r: Option<Date>) -> bool {
    forall|y: int, m: int, d: int, wm: nat, wd: nat|
        #![trigger ymd_text(y, m, d, wm, wd)]
        valid_ymd(y, m, d) && 1 <= wm <= 2 && 1 <= wd <= 2 && s == ymd_text(y, m, d, wm, wd)
            ==> (r matches Some(x) && x@ == (DateView { year: y, month: m, day: d }))
}

/// What `chrono::NaiveDate::parse_from_str(s, "%F")` gives, as year, month and day.
pub uninterp spec fn chrono_date_parse(s: Seq<char>) -> Option<(int, int, int)>;

/// `chrono::NaiveDate::weekday`, counted by `num_days_from_monday`. `chrono` dates
/// follow the proleptic Gregorian calendar, in which 1970-01-01 was a Thursday.
#[verifier::external_body]
fn chrono_weekday_of(date: Date) -> (r: u32)
    ensures
        r == date@.weekday(),
{
    chrono::NaiveDate::from_ymd_opt(date.year, date.month, date.day).unwrap().weekday().num_days_from_monday()
}

/// `chrono::NaiveDate::format` with `%Y-%m-%d`: the year as `chrono` writes `%Y`, then
/// the month and the day with two digits each.
#[verifier::external_body]
fn chrono_iso_text(date: Date) -> (r: String)
    ensures
        r@ == iso_date_text(date@.year, date@.month, date@.day),
{
    chrono::NaiveDate::from_ymd_opt(date.year, date.month, date.day).unwrap().format("%Y-%m-%d").to_string()
}

/// `chrono::NaiveDate::parse_from_str(s, "%F")`. Its result is named by `chrono_date_parse`
/// and is a date of `chrono`'s range. Its source also shows that a year (four digits for
/// the years 0 to 9999, else signed), `-`, a month of one or two digits, `-` and a day of
/// one or two digits give that date, and that text starting with a letter is refused
/// (a year starts with a digit or a sign). Nothing more is stated of other text.
#[verifier::external_body]
fn chrono_parse_iso(s: &str) -> (r: Option<Date>)
    ensures
        r matches Some(d) ==> chrono_date_parse(s@) == Some((d@.year, d@.month, d@.day)),
        r is None ==> chrono_date_parse(s@) is None,
        reads_written_dates(s@, r),
        s@.len() > 0 && is_ascii_letter(s@[0]) ==> r is None,
{
    match chrono::NaiveDate::parse_from_str(s, "%F") {
        Ok(d) => Some(Date { year: d.year(), month: d.month(), day: d.day() }),
        Err(_) => None,
    }
}

/// `chrono::Local::now().date_naive()`: today's date, which depends on the clock and the
/// time zone; only that it is a date of `chrono`'s range is known.
#[verifier::external_body]
fn chrono_local_today() -> (r: Date) {
    let d = chrono::Local::now().date_naive();
    Date { year: d.year(), month: d.month(), day: d.day() }
}

// ---------------------------------------------------------------------------
// Names of weekdays and months
// ---------------------------------------------------------------------------

/// Lower-case English name of the weekday counted from Monday (0).
pub open spec fn weekday_long_name(i: int) -> Seq<char> {
    if i == 0 {
        seq!['m', 'o', 'n', 'd', 'a', 'y']
    } else if i == 1 {
        seq!['t', 'u', 'e', 's', 'd', 'a', 'y']
    } else if i == 2 {
        seq!['w', 'e', 'd', 'n', 'e', 's', 'd', 'a', 'y']
    } else if i == 3 {
        seq!['t', 'h', 'u', 'r', 's', 'd', 'a', 'y']
    } else if i == 4 {
        seq!['f', 'r', 'i', 'd', 'a', 'y']
    } else if i == 5 {
        seq!['s', 'a', 't', 'u', 'r', 'd', 'a', 'y']
    } else {
        seq!['s', 'u', 'n', 'd', 'a', 'y']
    }
}

/// What `chrono::Weekday`'s `Display` writes: the first three letters, capitalised.
pub open spec fn weekday_display_name(i: int) -> Seq<char> {
    if i == 0 {
        seq!['M', 'o', 'n']
    } else if i == 1 {
        seq!['T', 'u', 'e']
    } else if i == 2 {
        seq!['W', 'e', 'd']
    } else if i == 3 {
        seq!['T', 'h', 'u']
    } else if i == 4 {
        seq!['F', 'r', 'i']
    } else if i == 5 {
        seq!['S', 'a', 't']
    } else {
        seq!['S', 'u', 'n']
    }
}

/// Lower-case English name of month `m` (1 to 12).
pub open spec fn month_long_name(m: int) -> Seq<char> {
    if m == 1 {
        seq!['j', 'a', 'n', 'u', 'a', 'r', 'y']
    } else if m == 2 {
        seq!['f', 'e', 'b', 'r', 'u', 'a', 'r', 'y']
    } else if m == 3 {
        seq!['m', 'a', 'r', 'c', 'h']
    } else if m == 4 {
        seq!['a', 'p', 'r', 'i', 'l']
    } else if m == 5 {
        seq!['m', 'a', 'y']
    } else if m == 6 {
        seq!['j', 'u', 'n', 'e']
    } else if m == 7 {
        seq!['j', 'u', 'l', 'y']
    } else if m == 8 {
        seq!['a', 'u', 'g', 'u', 's', 't']
    } else if m == 9 {
        seq!['s', 'e', 'p', 't', 'e', 'm', 'b', 'e', 'r']
    } else if m == 10 {
        seq!['o', 'c', 't', 'o', 'b', 'e', 'r']
    } else if m == 11 {
        seq!['n', 'o', 'v', 'e', 'm', 'b', 'e', 'r']
    } else {
        seq!['d', 'e', 'c', 'e', 'm', 'b', 'e', 'r']
    }
}

/// What `chrono::Month`'s `Debug` writes: the capitalised English name.
pub open spec fn month_debug_name(m: int) -> Seq<char> {
    let l = month_long_name(m);
    seq![((l[0] as int - 32) as u32) as char] + l.drop_first()
}

/// The weekday (counted from Monday) whose short or long name `l` is, searching from `i`.
pub open spec fn weekday_named_from(l: Seq<char>, i: int) -> Option<int>
    decreases 7 - i,
{
    if i < 0 || i >= 7 {
        None
    } else if l == weekday_long_name(i) || l == weekday_long_name(i).take(3) {
        Some(i)
    } else {
        weekday_named_from(l, i + 1)
    }
}

/// What `s.parse::<chrono::Weekday>()` gives, counted from Monday: the three-letter
/// abbreviation or the full English name, in any ASCII letter case.
pub open spec fn weekday_from_name(s: Seq<char>) -> Option<int> {
    weekday_named_from(ascii_lower(s), 0)
}

/// The month whose short or long name `l` is, searching from `m`.
pub open spec fn month_named_from(l: Seq<char>, m: int) -> Option<int>
    decreases 13 - m,
{
    if m < 1 || m > 12 {
        None
    } else if l == month_long_name(m) || l == month_long_name(m).take(3) {
        Some(m)
    } else {
        month_named_from(l, m + 1)
    }
}

/// What `s.parse::<chrono::Month>()` gives, as the month's number: the three-letter
/// abbreviation or the full English name, in any ASCII letter case.
pub open spec fn month_from_name(s: Seq<char>) -> Option<int> {
    month_named_from(ascii_lower(s), 1)
}

proof fn lemma_weekday_named_from_range(l: Seq<char>, i: int)
    ensures
        weekday_named_from(l, i) matches Some(w) ==> 0 <= w < 7,
    decreases 7 - i,
{
    if 0 <= i < 7 {
        lemma_weekday_named_from_range(l, i + 1);
    }
}

/// A weekday read from a name is counted from 0 to 6.
pub proof fn lemma_weekday_from_name_range(s: Seq<char>)
    ensures
        weekday_from_name(s) matches Some(w) ==> 0 <= w < 7,
{
    lemma_weekday_named_from_range(ascii_lower(s), 0);
}

proof fn lemma_month_named_from_range(l: Seq<char>, m: int)
    ensures
        month_named_from(l, m) matches Some(x) ==> 1 <= x <= 12,
    decreases 13 - m,
{
    if 1 <= m <= 12 {
        lemma_month_named_from_range(l, m + 1);
    }
}

/// A month read from a name is numbered from 1 to 12.
pub proof fn lemma_month_from_name_range(s: Seq<char>)
    ensures
        month_from_name(s) matches Some(m) ==> 1 <= m <= 12,
{
    lemma_month_named_from_range(ascii_lower(s), 1);
}

/// `chrono` reads back the weekday names it displays, also in small letters.
pub proof fn lemma_weekday_display_name(i: int)
    requires
        0 <= i < 7,
    ensures
        weekday_display_name(i).len() == 3,
        all_ascii(weekday_display_name(i)),
        no_white_space(ascii_lower(weekday_display_name(i))),
        weekday_from_name(ascii_lower(weekday_display_name(i))) == Some(i),
{
    let d = weekday_display_name(i);
    let l = ascii_lower(d);
    assert(ascii_lower(l) =~= weekday_long_name(i).take(3));
    reveal_with_fuel(weekday_named_from, 8);
    if i == 0 {
    } else if i == 1 {
        assert(ascii_lower(l)[0] != weekday_long_name(0)[0]);
    } else if i == 2 {
        assert(ascii_lower(l)[0] != weekday_long_name(0)[0]);
        assert(ascii_lower(l)[0] != weekday_long_name(1)[0]);
    } else if i == 3 {
        assert(ascii_lower(l)[0] != weekday_long_name(0)[0]);
        assert(ascii_lower(l)[1] != weekday_long_name(1)[1]);
        assert(ascii_lower(l)[0] != weekday_long_name(2)[0]);
    } else if i == 4 {
        assert(ascii_lower(l)[0] != weekday_long_name(0)[0]);
        assert(ascii_lower(l)[0] != weekday_long_name(1)[0]);
        assert(ascii_lower(l)[0] != weekday_long_name(2)[0]);
        assert(ascii_lower(l)[0] != weekday_long_name(3)[0]);
    } else if i == 5 {
        assert(ascii_lower(l)[0] != weekday_long_name(0)[0]);
        assert(ascii_lower(l)[0] != weekday_long_name(1)[0]);
        assert(ascii_lower(l)[0] != weekday_long_name(2)[0]);
        assert(ascii_lower(l)[0] != weekday_long_name(3)[0]);
        assert(ascii_lower(l)[0] != weekday_long_name(4)[0]);
    } else {
        assert(ascii_lower(l)[0] != weekday_long_name(0)[0]);
        assert(ascii_lower(l)[0] != weekday_long_name(1)[0]);
        assert(ascii_lower(l)[0] != weekday_long_name(2)[0]);
        assert(ascii_lower(l)[0] != weekday_long_name(3)[0]);
        assert(ascii_lower(l)[0] != weekday_long_name(4)[0]);
        assert(ascii_lower(l)[1] != weekday_long_name(5)[1]);
    }
}

/// `chrono` reads back the month names it writes for `Debug`, also in small letters.
pub proof fn lemma_month_debug_name(m: int)
    requires
        1 <= m <= 12,
    ensures
        month_debug_name(m).len() >= 3,
        all_ascii(month_debug_name(m)),
        no_white_space(ascii_lower(month_debug_name(m))),
        month_from_name(ascii_lower(month_debug_name(m))) == Some(m),
{
    let l = month_long_name(m);
    assert(ascii_lower(ascii_lower(month_debug_name(m))) =~= l);
    reveal_with_fuel(month_named_from, 13);
    assert forall|j: int| 1 <= j < m implies l != month_long_name(j) && l != month_long_name(j).take(3) by {
        if l == month_long_name(j) || l == month_long_name(j).take(3) {
            assert(l[0] == month_long_name(j)[0]);
            assert(l[1] == month_long_name(j)[1]);
            assert(l[2] == month_long_name(j)[2]);
        }
    }
}

/// `<chrono::Weekday as FromStr>::from_str`, with the result counted from Monday. Its
/// source accepts the first three letters of the English name, optionally followed by
/// the rest of it, in any ASCII letter case, and nothing after that.
#[verifier::external_body]
pub(crate) fn chrono_parse_weekday(s: &str) -> (r: Option<u32>)
    ensures
        r matches Some(w) ==> weekday_from_name(s@) == Some(w as int),
        r is None ==> weekday_from_name(s@) is None,
{
    match s.parse::<chrono::Weekday>() {
        Ok(w) => Some(w.num_days_from_monday()),
        Err(_) => None,
    }
}

/// `<chrono::Month as FromStr>::from_str`, with the result as the month's number. Its
/// source accepts the first three letters of the English name, optionally followed by
/// the rest of it, in any ASCII letter case, and nothing after that.
#[verifier::external_body]
pub(crate) fn chrono_parse_month(s: &str) -> (r: Option<u32>)
    ensures
        r matches Some(m) ==> month_from_name(s@) == Some(m as int),
        r is None ==> month_from_name(s@) is None,
{
    match s.parse::<chrono::Month>() {
        Ok(m) => Some(m.number_from_month()),
        Err(_) => None,
    }
}

/// `chrono::Weekday`'s `Display` for the weekday `index` days after Monday.
#[verifier::external_body]
pub(crate) fn chrono_weekday_text(index: u32) -> (r: String)
    requires
        index < 7,
    ensures
        r@ == weekday_display_name(index as int),
{
    format!("{}", chrono::Weekday::try_from(index as u8).unwrap())
}

/// `chrono::Month`'s `Debug` for month number `month`.
#[verifier::external_body]
pub(crate) fn chrono_month_text(month: u32) -> (r: String)
    requires
        1 <= month <= 12,
    ensures
        r@ == month_debug_name(month as int),
{
    format!("{:?}", chrono::Month::try_from(month as u8).unwrap())
}

/// `chrono::NaiveDate::from_ymd_opt` succeeds exactly on the existing dates between
/// `MIN_YEAR` and `MAX_YEAR` (its documentation: `None` on an out-of-range date or an
/// invalid month or day).
#[verifier::external_body]
fn chrono_ymd_exists(year: i32, month: u32, day: u32) -> (r: bool)
    ensures
        r == valid_ymd(year as int, month as int, day as int),
{
    chrono::NaiveDate::from_ymd_opt(year, month, day).is_some()
}

} // verus!
