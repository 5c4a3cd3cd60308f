//! Dates in file names: placeholders and how they are filled in, and date suffixes and how they are
//! recognised.

use crate::paths;
use crate::text;
use vstd::prelude::*;

verus! {

/// A day of the calendar.
#[derive(Debug, Clone, Copy, PartialEq, Eq, Structural)]
pub struct CalendarDate {
    pub year: i32,
    pub month: u8,
    pub day: u8,
}

/// The magnitude of a year.
pub open spec fn year_magnitude(year: i32) -> nat {
    if year < 0 {
        (-year) as nat
    } else {
        year as nat
    }
}

impl CalendarDate {
    /// The year, with at least four characters, a sign among them.
    pub open spec fn yyyy(self) -> Seq<char> {
        if self.year < 0 {
            seq!['-'] + text::padded(text::decimal(year_magnitude(self.year)), '0', 3)
        } else {
            text::padded(text::decimal(self.year as nat), '0', 4)
        }
    }

    /// The last two digits of the year.
    pub open spec fn yy(self) -> Seq<char> {
        text::padded(text::decimal(year_magnitude(self.year) % 100), '0', 2)
    }

    /// The month, in two digits.
    pub open spec fn mm(self) -> Seq<char> {
        text::padded(text::decimal(self.month as nat), '0', 2)
    }

    /// The day, in two digits.
    pub open spec fn dd(self) -> Seq<char> {
        text::padded(text::decimal(self.day as nat), '0', 2)
    }

    /// The date in the format of the given name; a name that stands for none is read as
    /// `yyyymmdd`.
    pub open spec fn formatted(self, name: Seq<char>) -> Seq<char> {
        if name == "yyyy-mm-dd"@ {
            self.yyyy() + "-"@ + self.mm() + "-"@ + self.dd()
        } else if name == "yyyy_mm_dd"@ {
            self.yyyy() + "_"@ + self.mm() + "_"@ + self.dd()
        } else if name == "yymmdd"@ {
            self.yy() + self.mm() + self.dd()
        } else if name == "yy-mm-dd"@ {
            self.yy() + "-"@ + self.mm() + "-"@ + self.dd()
        } else if name == "yy_mm_dd"@ {
            self.yy() + "_"@ + self.mm() + "_"@ + self.dd()
        } else if name == "mmdd"@ {
            self.mm() + self.dd()
        } else if name == "mm-dd"@ {
            self.mm() + "-"@ + self.dd()
        } else if name == "mm_dd"@ {
            self.mm() + "_"@ + self.dd()
        } else {
            self.yyyy() + self.mm() + self.dd()
        }
    }

    /// `raw` with the placeholders for this date filled in, one after the other.
    pub open spec fn applied(self, raw: Seq<char>) -> Seq<char> {
        let s1 = text::replaced(raw, "{yyyymmdd}"@, self.formatted("yyyymmdd"@));
        let s2 = text::replaced(s1, "{yyyy-mm-dd}"@, self.formatted("yyyy-mm-dd"@));
        let s3 = text::replaced(s2, "{yyyy_mm_dd}"@, self.formatted("yyyy_mm_dd"@));
        let s4 = text::replaced(s3, "{yymmdd}"@, self.formatted("yymmdd"@));
        let s5 = text::replaced(s4, "{yy-mm-dd}"@, self.formatted("yy-mm-dd"@));
        let s6 = text::replaced(s5, "{yy_mm_dd}"@, self.formatted("yy_mm_dd"@));
        let s7 = text::replaced(s6, "{mmdd}"@, self.formatted("mmdd"@));
        let s8 = text::replaced(s7, "{mm-dd}"@, self.formatted("mm-dd"@));
        let s9 = text::replaced(s8, "{mm_dd}"@, self.formatted("mm_dd"@));
        let s10 = text::replaced(s9, "{yyyy}"@, self.yyyy());
        let s11 = text::replaced(s10, "{yy}"@, self.yy());
        let s12 = text::replaced(s11, "{mm}"@, self.mm());
        text::replaced(s12, "{dd}"@, self.dd())
    }
}

/// The formats that `{today}` stands for, in the order in which they are tried.
pub open spec fn today_formats() -> Seq<Seq<char>> {
    seq![
        "yyyymmdd"@,
        "yyyy-mm-dd"@,
        "yyyy_mm_dd"@,
        "mmdd"@,
        "mm-dd"@,
        "mm_dd"@,
        "yymmdd"@,
        "yy-mm-dd"@,
        "yy_mm_dd"@,
    ]
}

/// The formats that `{today}` stands for.
pub fn today_format_names() -> (res: Vec<&'static str>)
    ensures
        text::slices(res@) == today_formats(),
{
    let res: Vec<&'static str> = vec![
        "yyyymmdd",
        "yyyy-mm-dd",
        "yyyy_mm_dd",
        "mmdd",
        "mm-dd",
        "mm_dd",
        "yymmdd",
        "yy-mm-dd",
        "yy_mm_dd",
    ];
    assert(text::slices(res@) =~= today_formats());
    res
}

/// The placeholders that make a path depend on the date.
pub open spec fn placeholders() -> Seq<Seq<char>> {
    seq![
        "{today}"@,
        "{yyyymmdd}"@,
        "{yyyy-mm-dd}"@,
        "{yyyy_mm_dd}"@,
        "{yymmdd}"@,
        "{yy-mm-dd}"@,
        "{yy_mm_dd}"@,
        "{mmdd}"@,
        "{mm-dd}"@,
        "{mm_dd}"@,
        "{yyyy}"@,
        "{yy}"@,
        "{mm}"@,
        "{dd}"@,
    ]
}

/// `s` holds a placeholder.
pub open spec fn has_placeholder(s: Seq<char>) -> bool {
    exists|i: int|
        0 <= i < placeholders().len() && text::contains_text(s, #[trigger] placeholders()[i])
}

/// Whether `s` holds a placeholder for the date or a part of it.
pub fn contains_placeholder(s: &str) -> (res: bool)
    ensures
        res == has_placeholder(s@),
{
    let all: Vec<&'static str> = vec![
        "{today}",
        "{yyyymmdd}",
        "{yyyy-mm-dd}",
        "{yyyy_mm_dd}",
        "{yymmdd}",
        "{yy-mm-dd}",
        "{yy_mm_dd}",
        "{mmdd}",
        "{mm-dd}",
        "{mm_dd}",
        "{yyyy}",
        "{yy}",
        "{mm}",
        "{dd}",
    ];
    assert(text::slices(all@) =~= placeholders());
    let mut i: usize = 0;
    while i < all.len()
        invariant
            i <= all@.len(),
            text::slices(all@) == placeholders(),
            forall|j: int|
                0 <= j < i ==> !text::contains_text(s@, #[trigger] placeholders()[j]),
        decreases all@.len() - i,
    {
        assert(placeholders()[i as int] == all@[i as int]@);
        if text::contains(s, all[i]) {
            return true;
        }
        i = i + 1;
    }
    false
}

/// What the placeholders stand for on one day.
#[derive(Debug)]
pub struct DateTokens {
    date: CalendarDate,
    yyyy: String,
    yy: String,
    mm: String,
    dd: String,
    yyyymmdd: String,
    yyyy_mm_dd: String,
    yyyy_dash_mm_dash_dd: String,
    yymmdd: String,
    yy_mm_dd: String,
    yy_dash_mm_dash_dd: String,
    mmdd: String,
    mm_dd: String,
    mm_dash_dd: String,
}

impl View for DateTokens {
    type V = CalendarDate;

    closed spec fn view(&self) -> CalendarDate {
        self.date
    }
}

impl DateTokens {
    /// Each token is the date in its format.
    #[verifier::type_invariant]
    spec fn holds_its_date(self) -> bool {
        let date = self.date;
        &&& self.yyyy@ == date.yyyy()
        &&& self.yy@ == date.yy()
        &&& self.mm@ == date.mm()
        &&& self.dd@ == date.dd()
        &&& self.yyyymmdd@ == date.formatted("yyyymmdd"@)
        &&& self.yyyy_mm_dd@ == date.formatted("yyyy_mm_dd"@)
        &&& self.yyyy_dash_mm_dash_dd@ == date.formatted("yyyy-mm-dd"@)
        &&& self.yymmdd@ == date.formatted("yymmdd"@)
        &&& self.yy_mm_dd@ == date.formatted("yy_mm_dd"@)
        &&& self.yy_dash_mm_dash_dd@ == date.formatted("yy-mm-dd"@)
        &&& self.mmdd@ == date.formatted("mmdd"@)
        &&& self.mm_dd@ == date.formatted("mm_dd"@)
        &&& self.mm_dash_dd@ == date.formatted("mm-dd"@)
    }

    /// The tokens of `date`.
    pub fn for_date(date: CalendarDate) -> (res: DateTokens)
        ensures
            res@ == date,
    {
        let magnitude: u64 = if date.year < 0 {
            (-(date.year as i64)) as u64
        } else {
            date.year as u64
        };
        let yyyy: String = if date.year < 0 {
            let mut signed: String = String::new();
            signed.push('-');
            signed.append(text::pad(text::decimal_text(magnitude).as_str(), '0', 3).as_str());
            assert(signed@ =~= date.yyyy());
            signed
        } else {
            text::pad(text::decimal_text(magnitude).as_str(), '0', 4)
        };
        let yy: String = text::pad(text::decimal_text(magnitude % 100).as_str(), '0', 2);
        let mm: String = text::pad(text::decimal_text(date.month as u64).as_str(), '0', 2);
        let dd: String = text::pad(text::decimal_text(date.day as u64).as_str(), '0', 2);
        let yyyymmdd: String = text::concat3(yyyy.as_str(), mm.as_str(), dd.as_str());
        let yyyy_mm_dd: String = text::concat5(yyyy.as_str(), "_", mm.as_str(), "_", dd.as_str());
        let yyyy_dash_mm_dash_dd: String = text::concat5(
            yyyy.as_str(),
            "-",
            mm.as_str(),
            "-",
            dd.as_str(),
        );
        let yymmdd: String = text::concat3(yy.as_str(), mm.as_str(), dd.as_str());
        let yy_mm_dd: String = text::concat5(yy.as_str(), "_", mm.as_str(), "_", dd.as_str());
        let yy_dash_mm_dash_dd: String = text::concat5(
            yy.as_str(),
            "-",
            mm.as_str(),
            "-",
            dd.as_str(),
        );
        let mut mmdd: String = mm.clone();
        mmdd.append(dd.as_str());
        let mm_dd: String = text::concat3(mm.as_str(), "_", dd.as_str());
        let mm_dash_dd: String = text::concat3(mm.as_str(), "-", dd.as_str());
        proof {
            format_names_differ();
        }
        DateTokens {
            date,
            yyyy,
            yy,
            mm,
            dd,
            yyyymmdd,
            yyyy_mm_dd,
            yyyy_dash_mm_dash_dd,
            yymmdd,
            yy_mm_dd,
            yy_dash_mm_dash_dd,
            mmdd,
            mm_dd,
            mm_dash_dd,
        }
    }

    /// `raw` with the placeholders filled in.
    pub fn apply(&self, raw: &str) -> (res: String)
        ensures
            res@ == self@.applied(raw@),
    {
        proof {
            use_type_invariant(self);
            reveal_strlit("{yyyymmdd}");
            reveal_strlit("{yyyy-mm-dd}");
            reveal_strlit("{yyyy_mm_dd}");
            reveal_strlit("{yymmdd}");
            reveal_strlit("{yy-mm-dd}");
            reveal_strlit("{yy_mm_dd}");
            reveal_strlit("{mmdd}");
            reveal_strlit("{mm-dd}");
            reveal_strlit("{mm_dd}");
            reveal_strlit("{yyyy}");
            reveal_strlit("{yy}");
            reveal_strlit("{mm}");
            reveal_strlit("{dd}");
        }
        let s1: String = text::replace(raw, "{yyyymmdd}", self.yyyymmdd.as_str());
        let s2: String = text::replace(
            s1.as_str(),
            "{yyyy-mm-dd}",
            self.yyyy_dash_mm_dash_dd.as_str(),
        );
        let s3: String = text::replace(s2.as_str(), "{yyyy_mm_dd}", self.yyyy_mm_dd.as_str());
        let s4: String = text::replace(s3.as_str(), "{yymmdd}", self.yymmdd.as_str());
        let s5: String = text::replace(s4.as_str(), "{yy-mm-dd}", self.yy_dash_mm_dash_dd.as_str());
        let s6: String = text::replace(s5.as_str(), "{yy_mm_dd}", self.yy_mm_dd.as_str());
        let s7: String = text::replace(s6.as_str(), "{mmdd}", self.mmdd.as_str());
        let s8: String = text::replace(s7.as_str(), "{mm-dd}", self.mm_dash_dd.as_str());
        let s9: String = text::replace(s8.as_str(), "{mm_dd}", self.mm_dd.as_str());
        let s10: String = text::replace(s9.as_str(), "{yyyy}", self.yyyy.as_str());
        let s11: String = text::replace(s10.as_str(), "{yy}", self.yy.as_str());
        let s12: String = text::replace(s11.as_str(), "{mm}", self.mm.as_str());
        text::replace(s12.as_str(), "{dd}", self.dd.as_str())
    }

    /// The date in the format of the given name.
    pub fn value_for(&self, format_name: &str) -> (res: &String)
        ensures
            res@ == self@.formatted(format_name@),
    {
        proof {
            use_type_invariant(self);
            format_names_differ();
        }
        if text::same_text(format_name, "yyyy-mm-dd") {
            &self.yyyy_dash_mm_dash_dd
        } else if text::same_text(format_name, "yyyy_mm_dd") {
            &self.yyyy_mm_dd
        } else if text::same_text(format_name, "yymmdd") {
            &self.yymmdd
        } else if text::same_text(format_name, "yy-mm-dd") {
            &self.yy_dash_mm_dash_dd
        } else if text::same_text(format_name, "yy_mm_dd") {
            &self.yy_mm_dd
        } else if text::same_text(format_name, "mmdd") {
            &self.mmdd
        } else if text::same_text(format_name, "mm-dd") {
            &self.mm_dash_dd
        } else if text::same_text(format_name, "mm_dd") {
            &self.mm_dd
        } else {
            &self.yyyymmdd
        }
    }
}

/// No two format names are the same text.
pub proof fn format_names_differ()
    ensures
        forall|date: CalendarDate|
            #![trigger date.formatted("yyyymmdd"@)]
            date.formatted("yyyymmdd"@) == date.yyyy() + date.mm() + date.dd(),
        forall|date: CalendarDate|
            #![trigger date.formatted("yyyy_mm_dd"@)]
            date.formatted("yyyy_mm_dd"@) == date.yyyy() + "_"@ + date.mm() + "_"@ + date.dd(),
        forall|date: CalendarDate|
            #![trigger date.formatted("yymmdd"@)]
            date.formatted("yymmdd"@) == date.yy() + date.mm() + date.dd(),
        forall|date: CalendarDate|
            #![trigger date.formatted("yy-mm-dd"@)]
            date.formatted("yy-mm-dd"@) == date.yy() + "-"@ + date.mm() + "-"@ + date.dd(),
        forall|date: CalendarDate|
            #![trigger date.formatted("yy_mm_dd"@)]
            date.formatted("yy_mm_dd"@) == date.yy() + "_"@ + date.mm() + "_"@ + date.dd(),
        forall|date: CalendarDate|
            #![trigger date.formatted("mmdd"@)]
            date.formatted("mmdd"@) == date.mm() + date.dd(),
        forall|date: CalendarDate|
            #![trigger date.formatted("mm-dd"@)]
            date.formatted("mm-dd"@) == date.mm() + "-"@ + date.dd(),
        forall|date: CalendarDate|
            #![trigger date.formatted("mm_dd"@)]
            date.formatted("mm_dd"@) == date.mm() + "_"@ + date.dd(),
{
    reveal_strlit("yyyymmdd");
    reveal_strlit("yyyy-mm-dd");
    reveal_strlit("yyyy_mm_dd");
    reveal_strlit("mmdd");
    reveal_strlit("mm-dd");
    reveal_strlit("mm_dd");
    reveal_strlit("yymmdd");
    reveal_strlit("yy-mm-dd");
    reveal_strlit("yy_mm_dd");
    assert("yyyymmdd"@.len() == 8 && "yymmdd"@.len() == 6 && "mmdd"@.len() == 4);
    assert("yyyy-mm-dd"@.len() == 10 && "yy-mm-dd"@.len() == 8 && "mm-dd"@.len() == 5);
    assert("yyyy_mm_dd"@.len() == 10 && "yy_mm_dd"@.len() == 8 && "mm_dd"@.len() == 5);
    assert("yyyymmdd"@[2] == 'y' && "yy-mm-dd"@[2] == '-' && "yy_mm_dd"@[2] == '_');
    assert("yyyy-mm-dd"@[4] == '-' && "yyyy_mm_dd"@[4] == '_');
    assert("mm-dd"@[2] == '-' && "mm_dd"@[2] == '_');
}

/// A year with a day beyond the twenty-eighth of February.
pub open spec fn leap_year(year: int) -> bool {
    year % 4 == 0 && (year % 100 != 0 || year % 400 == 0)
}

/// The number of days of a month.
pub open spec fn days_in_month(year: int, month: int) -> int {
    if month == 2 {
        if leap_year(year) {
            29
        } else {
            28
        }
    } else if month == 4 || month == 6 || month == 9 || month == 11 {
        30
    } else {
        31
    }
}

/// A day of the Gregorian calendar in the years that can be represented.
pub open spec fn calendar_has(year: int, month: int, day: int) -> bool {
    -9999 <= year <= 9999 && 1 <= month <= 12 && 1 <= day <= days_in_month(year, month)
}

/// `time::Date::from_calendar_date`, on the month that `time::Month::try_from` gives for a number,
/// succeeds exactly on the days of the proleptic Gregorian calendar of the years from -9999 to
/// 9999; `Month::try_from` succeeds on the numbers from 1 to 12.
#[verifier::external_body]
fn is_valid_year_month_day(year: i32, month: u8, day: u8) -> (res: bool)
    ensures
        res == calendar_has(year as int, month as int, day as int),
{
    match time::Month::try_from(month) {
        Ok(month) => time::Date::from_calendar_date(year, month, day).is_ok(),
        Err(_) => false,
    }
}

/// A day that some year has.
pub open spec fn some_year_has(month: int, day: int) -> bool {
    1 <= month <= 12 && 1 <= day <= days_in_month(2000, month)
}

/// Whether some year has the day.
pub fn is_valid_month_day(month: u8, day: u8) -> (res: bool)
    ensures
        res == some_year_has(month as int, day as int),
{
    if month == 2 {
        1 <= day && day <= 29
    } else if month == 4 || month == 6 || month == 9 || month == 11 {
        1 <= day && day <= 30
    } else {
        1 <= month && month <= 12 && 1 <= day && day <= 31
    }
}

/// The year that a piece of text stands for: decimal digits, with a sign or without.
pub open spec fn parsed_year(s: Seq<char>) -> Option<int> {
    if s.len() > 0 && s[0] == '-' {
        match text::parsed_number(s.skip(1), 0x8000_0000) {
            Some(n) => Some(-(n as int)),
            None => None,
        }
    } else {
        let digits = if s.len() > 0 && s[0] == '+' {
            s.skip(1)
        } else {
            s
        };
        match text::parsed_number(digits, 0x7fff_ffff) {
            Some(n) => Some(n as int),
            None => None,
        }
    }
}

/// The month or day that a piece of text stands for: decimal digits, with a plus sign or without.
pub open spec fn parsed_part(s: Seq<char>) -> Option<nat> {
    if s.len() > 0 && s[0] == '+' {
        text::parsed_number(s.skip(1), 255)
    } else {
        text::parsed_number(s, 255)
    }
}

fn parse_year(s: &Vec<char>) -> (res: Option<i32>)
    ensures
        match res {
            Some(year) => parsed_year(s@) == Some(year as int),
            None => parsed_year(s@) is None,
        },
{
    if s.len() > 0 && (s[0] == '-' || s[0] == '+') {
        let digits: Vec<char> = text::subvec(s.as_slice(), 1, s.len());
        assert(digits@ =~= s@.skip(1));
        if s[0] == '-' {
            match text::parse_number(digits.as_slice(), 0x8000_0000) {
                Some(n) => Some((-(n as i64)) as i32),
                None => None,
            }
        } else {
            match text::parse_number(digits.as_slice(), 0x7fff_ffff) {
                Some(n) => Some(n as i32),
                None => None,
            }
        }
    } else {
        match text::parse_number(s.as_slice(), 0x7fff_ffff) {
            Some(n) => Some(n as i32),
            None => None,
        }
    }
}

fn parse_part(s: &Vec<char>) -> (res: Option<u8>)
    ensures
        match res {
            Some(part) => parsed_part(s@) == Some(part as nat),
            None => parsed_part(s@) is None,
        },
{
    let parsed: Option<u32> = if s.len() > 0 && s[0] == '+' {
        let digits: Vec<char> = text::subvec(s.as_slice(), 1, s.len());
        assert(digits@ =~= s@.skip(1));
        text::parse_number(digits.as_slice(), 255)
    } else {
        text::parse_number(s.as_slice(), 255)
    };
    match parsed {
        Some(n) => Some(n as u8),
        None => None,
    }
}

/// The place of a year in its century.
fn year_of_century(year: i32) -> (res: i32)
    ensures
        res == (year as int) % 100,
        0 <= res < 100,
{
    if year >= 0 {
        year % 100
    } else {
        let back: i32 = ((-(year as i64)) as u64 % 100) as i32;
        if back == 0 {
            0
        } else {
            100 - back
        }
    }
}

/// Year, month and day with a separator between them.
pub open spec fn parsed_ymd(value: Seq<char>, separator: char) -> Option<(int, nat, nat)> {
    let parts = paths::pieces(value, separator);
    if parts.len() == 3 && parsed_year(parts[0]) is Some && parsed_part(parts[1]) is Some
        && parsed_part(parts[2]) is Some {
        Some((parsed_year(parts[0])->0, parsed_part(parts[1])->0, parsed_part(parts[2])->0))
    } else {
        None
    }
}

/// Month and day with a separator between them.
pub open spec fn parsed_md(value: Seq<char>, separator: char) -> Option<(nat, nat)> {
    let parts = paths::pieces(value, separator);
    if parts.len() == 2 && parsed_part(parts[0]) is Some && parsed_part(parts[1]) is Some {
        Some((parsed_part(parts[0])->0, parsed_part(parts[1])->0))
    } else {
        None
    }
}

/// Year, month and day with a separator between them.
pub fn parse_ymd(value: &[char], separator: char) -> (res: Option<(i32, u8, u8)>)
    ensures
        match res {
            Some((year, month, day)) => parsed_ymd(value@, separator) == Some(
                (year as int, month as nat, day as nat),
            ),
            None => parsed_ymd(value@, separator) is None,
        },
{
    let parts: Vec<Vec<char>> = paths::split(value, separator);
    let ghost views = paths::pieces(value@, separator);
    if parts.len() != 3 {
        return None;
    }
    assert(views[0] == parts@[0]@ && views[1] == parts@[1]@ && views[2] == parts@[2]@);
    match (parse_year(&parts[0]), parse_part(&parts[1]), parse_part(&parts[2])) {
        (Some(year), Some(month), Some(day)) => Some((year, month, day)),
        _ => None,
    }
}

/// Month and day with a separator between them.
pub fn parse_md(value: &[char], separator: char) -> (res: Option<(u8, u8)>)
    ensures
        match res {
            Some((month, day)) => parsed_md(value@, separator) == Some((month as nat, day as nat)),
            None => parsed_md(value@, separator) is None,
        },
{
    let parts: Vec<Vec<char>> = paths::split(value, separator);
    let ghost views = paths::pieces(value@, separator);
    if parts.len() != 2 {
        return None;
    }
    assert(views[0] == parts@[0]@ && views[1] == parts@[1]@);
    match (parse_part(&parts[0]), parse_part(&parts[1])) {
        (Some(month), Some(day)) => Some((month, day)),
        _ => None,
    }
}

/// Where the field `i` starts when fields of the given widths stand one after the other.
pub open spec fn field_start(widths: Seq<usize>, i: int) -> int
    decreases i,
{
    if i <= 0 {
        0
    } else {
        field_start(widths, i - 1) + widths[i - 1]
    }
}

/// The text of the field `i`.
pub open spec fn field(value: Seq<char>, widths: Seq<usize>, i: int) -> Seq<char> {
    value.subrange(field_start(widths, i), field_start(widths, i + 1))
}

/// The value consists of digits, in fields of the given widths, each of which fits an `i32`.
pub open spec fn has_fields(value: Seq<char>, widths: Seq<usize>) -> bool {
    &&& text::all_digits(value)
    &&& value.len() == field_start(widths, widths.len() as int)
    &&& forall|i: int| 0 <= i < widths.len() ==> #[trigger] widths[i] > 0
    &&& forall|i: int|
        0 <= i < widths.len() ==> text::digits_value(#[trigger] field(value, widths, i))
            <= 0x7fff_ffff
}

proof fn field_starts_ascend(widths: Seq<usize>, i: int, j: int)
    requires
        0 <= i <= j,
    ensures
        0 <= field_start(widths, i) <= field_start(widths, j),
    decreases j,
{
    if i < j {
        field_starts_ascend(widths, i, j - 1);
    } else if i > 0 {
        field_starts_ascend(widths, i - 1, i - 1);
    }
}

/// The numbers in fields of the given widths, where the value consists of such fields.
#[verifier::loop_isolation(false)]
pub fn parse_digits(value: &[char], widths: &[usize]) -> (res: Option<Vec<i32>>)
    requires
        field_start(widths@, widths@.len() as int) <= usize::MAX,
    ensures
        res is Some <==> has_fields(value@, widths@),
        match res {
            Some(parts) => {
                &&& parts@.len() == widths@.len()
                &&& forall|i: int|
                    0 <= i < widths@.len() ==> #[trigger] parts@[i] == text::digits_value(
                        field(value@, widths@, i),
                    )
            },
            None => true,
        },
{
    let mut total: usize = 0;
    let mut i: usize = 0;
    while i < widths.len()
        invariant
            i <= widths@.len(),
            total == field_start(widths@, i as int),
        decreases widths@.len() - i,
    {
        proof {
            field_starts_ascend(widths@, i + 1, widths@.len() as int);
        }
        total = total + widths[i];
        i = i + 1;
    }
    if value.len() != total {
        return None;
    }
    let mut at: usize = 0;
    while at < value.len()
        invariant
            at <= value@.len(),
            forall|j: int| 0 <= j < at ==> text::is_digit(#[trigger] value@[j]),
        decreases value@.len() - at,
    {
        if !('0' <= value[at] && value[at] <= '9') {
            assert(!text::is_digit(value@[at as int]));
            return None;
        }
        at = at + 1;
    }
    assert(text::all_digits(value@));
    let mut parts: Vec<i32> = Vec::new();
    let mut start: usize = 0;
    let mut k: usize = 0;
    while k < widths.len()
        invariant
            k <= widths@.len(),
            start == field_start(widths@, k as int),
            parts@.len() == k,
            forall|j: int| 0 <= j < k ==> #[trigger] widths@[j] > 0,
            forall|j: int|
                0 <= j < k ==> text::digits_value(#[trigger] field(value@, widths@, j))
                    <= 0x7fff_ffff,
            forall|j: int|
                0 <= j < k ==> #[trigger] parts@[j] == text::digits_value(
                    field(value@, widths@, j),
                ),
        decreases widths@.len() - k,
    {
        proof {
            field_starts_ascend(widths@, k as int, k + 1);
            field_starts_ascend(widths@, k + 1, widths@.len() as int);
        }
        let end: usize = start + widths[k];
        let part: Vec<char> = text::subvec(value, start, end);
        proof {
            assert(part@ == field(value@, widths@, k as int));
            assert(part@.len() == widths@[k as int]);
            assert(text::all_digits(part@));
        }
        match text::parse_number(part.as_slice(), 0x7fff_ffff) {
            Some(n) => {
                parts.push(n as i32);
            },
            None => {
                return None;
            },
        }
        start = end;
        k = k + 1;
    }
    Some(parts)
}

/// The forms in which a date can end a file name.
#[derive(Debug, Clone, Copy)]
pub enum DateSuffixFormat {
    YearMonthDay(char),
    YearMonthDayCompact,
    ShortYearMonthDay(char),
    ShortYearMonthDayCompact,
    MonthDay(char),
    MonthDayCompact,
}

impl DateSuffixFormat {
    /// The value is a date in this form.
    pub open spec fn accepts(self, value: Seq<char>) -> bool {
        match self {
            DateSuffixFormat::YearMonthDay(separator) => match parsed_ymd(value, separator) {
                Some((year, month, day)) => calendar_has(year, month as int, day as int),
                None => false,
            },
            DateSuffixFormat::YearMonthDayCompact => {
                &&& text::all_digits(value)
                &&& value.len() == 8
                &&& calendar_has(
                    text::digits_value(value.subrange(0, 4)) as int,
                    text::digits_value(value.subrange(4, 6)) as int,
                    text::digits_value(value.subrange(6, 8)) as int,
                )
            },
            DateSuffixFormat::ShortYearMonthDay(separator) => match parsed_ymd(value, separator) {
                Some((year, month, day)) => calendar_has(
                    2000 + year % 100,
                    month as int,
                    day as int,
                ),
                None => false,
            },
            DateSuffixFormat::ShortYearMonthDayCompact => {
                &&& text::all_digits(value)
                &&& value.len() == 6
                &&& calendar_has(
                    2000 + text::digits_value(value.subrange(0, 2)) as int,
                    text::digits_value(value.subrange(2, 4)) as int,
                    text::digits_value(value.subrange(4, 6)) as int,
                )
            },
            DateSuffixFormat::MonthDay(separator) => match parsed_md(value, separator) {
                Some((month, day)) => some_year_has(month as int, day as int),
                None => false,
            },
            DateSuffixFormat::MonthDayCompact => {
                &&& text::all_digits(value)
                &&& value.len() == 4
                &&& some_year_has(
                    text::digits_value(value.subrange(0, 2)) as int,
                    text::digits_value(value.subrange(2, 4)) as int,
                )
            },
        }
    }

    /// Whether the value is a date in this form.
    pub fn is_valid(self, value: &[char]) -> (res: bool)
        ensures
            res == self.accepts(value@),
    {
        match self {
            DateSuffixFormat::YearMonthDay(separator) => match parse_ymd(value, separator) {
                Some((year, month, day)) => is_valid_year_month_day(year, month, day),
                None => false,
            },
            DateSuffixFormat::YearMonthDayCompact => {
                let widths: Vec<usize> = vec![4, 2, 2];
                proof {
                    compact_fields(value@, widths@);
                }
                match parse_digits(value, widths.as_slice()) {
                    Some(parts) => is_valid_year_month_day(
                        parts[0],
                        parts[1] as u8,
                        parts[2] as u8,
                    ),
                    None => false,
                }
            },
            DateSuffixFormat::ShortYearMonthDay(separator) => match parse_ymd(value, separator) {
                Some((year, month, day)) => is_valid_year_month_day(
                    2000 + year_of_century(year),
                    month,
                    day,
                ),
                None => false,
            },
            DateSuffixFormat::ShortYearMonthDayCompact => {
                let widths: Vec<usize> = vec![2, 2, 2];
                proof {
                    compact_fields(value@, widths@);
                }
                match parse_digits(value, widths.as_slice()) {
                    Some(parts) => is_valid_year_month_day(
                        2000 + parts[0],
                        parts[1] as u8,
                        parts[2] as u8,
                    ),
                    None => false,
                }
            },
            DateSuffixFormat::MonthDay(separator) => match parse_md(value, separator) {
                Some((month, day)) => is_valid_month_day(month, day),
                None => false,
            },
            DateSuffixFormat::MonthDayCompact => {
                let widths: Vec<usize> = vec![2, 2];
                proof {
                    compact_fields(value@, widths@);
                }
                match parse_digits(value, widths.as_slice()) {
                    Some(parts) => is_valid_month_day(parts[0] as u8, parts[1] as u8),
                    None => false,
                }
            },
        }
    }
}

/// A short run of digits stands for a small number.
proof fn digits_value_bound(s: Seq<char>)
    requires
        text::all_digits(s),
    ensures
        s.len() <= 1 ==> text::digits_value(s) < 10,
        s.len() <= 2 ==> text::digits_value(s) < 100,
        s.len() <= 4 ==> text::digits_value(s) < 10_000,
    decreases s.len(),
{
    if s.len() > 0 {
        assert(text::is_digit(s.last()));
        digits_value_bound(s.drop_last());
        if s.len() == 3 {
            digits_value_bound(s.drop_last());
        }
        if s.len() == 4 {
            digits_value_bound(s.drop_last().drop_last());
            assert(text::is_digit(s.drop_last().last()));
        }
    }
}

/// Fields of two or four digits hold small numbers, and start where their widths say.
proof fn compact_fields(value: Seq<char>, widths: Seq<usize>)
    requires
        2 <= widths.len() <= 3,
        widths[0] == 2 || widths[0] == 4,
        forall|i: int| 1 <= i < widths.len() ==> #[trigger] widths[i] == 2,
    ensures
        field_start(widths, 0) == 0,
        field_start(widths, 1) == widths[0],
        field_start(widths, 2) == widths[0] + 2,
        widths.len() == 3 ==> field_start(widths, 3) == widths[0] + 4,
        has_fields(value, widths) <==> text::all_digits(value) && value.len() == field_start(
            widths,
            widths.len() as int,
        ),
        has_fields(value, widths) ==> forall|i: int|
            0 <= i < widths.len() ==> text::digits_value(#[trigger] field(value, widths, i)) < (
            if widths[i] == 2 {
                100int
            } else {
                10_000
            }),
{
    assert(field_start(widths, 1) == field_start(widths, 0) + widths[0]);
    assert(field_start(widths, 2) == field_start(widths, 1) + widths[1]);
    if widths.len() == 3 {
        assert(field_start(widths, 3) == field_start(widths, 2) + widths[2]);
    }
    if text::all_digits(value) && value.len() == field_start(widths, widths.len() as int) {
        assert forall|i: int| 0 <= i < widths.len() implies text::digits_value(
            #[trigger] field(value, widths, i),
        ) < (if widths[i] == 2 {
            100int
        } else {
            10_000
        }) by {
            let part = field(value, widths, i);
            assert(text::all_digits(part));
            digits_value_bound(part);
        }
    }
}

/// The stem ends in a date of the form, which takes up its last `len` characters.
pub open spec fn ends_in(stem: Seq<char>, len: nat, format: DateSuffixFormat) -> bool {
    stem.len() >= len && format.accepts(stem.skip(stem.len() - len))
}

/// The length of the date that a stem ends in, the longest form first.
pub open spec fn date_suffix_len(stem: Seq<char>) -> Option<nat> {
    if ends_in(stem, 10, DateSuffixFormat::YearMonthDay('-')) || ends_in(
        stem,
        10,
        DateSuffixFormat::YearMonthDay('_'),
    ) {
        Some(10)
    } else if ends_in(stem, 8, DateSuffixFormat::YearMonthDayCompact) || ends_in(
        stem,
        8,
        DateSuffixFormat::ShortYearMonthDay('-'),
    ) || ends_in(stem, 8, DateSuffixFormat::ShortYearMonthDay('_')) {
        Some(8)
    } else if ends_in(stem, 6, DateSuffixFormat::ShortYearMonthDayCompact) {
        Some(6)
    } else if ends_in(stem, 5, DateSuffixFormat::MonthDay('-')) || ends_in(
        stem,
        5,
        DateSuffixFormat::MonthDay('_'),
    ) {
        Some(5)
    } else if ends_in(stem, 4, DateSuffixFormat::MonthDayCompact) {
        Some(4)
    } else {
        None
    }
}

fn is_ending_in(stem: &[char], len: usize, format: DateSuffixFormat) -> (res: bool)
    ensures
        res == ends_in(stem@, len as nat, format),
{
    if stem.len() < len {
        return false;
    }
    let suffix: Vec<char> = text::subvec(stem, stem.len() - len, stem.len());
    assert(suffix@ =~= stem@.skip(stem@.len() - len));
    format.is_valid(suffix.as_slice())
}

/// The length of the date that a stem ends in.
pub fn recognized_date_suffix_len(stem: &[char]) -> (res: Option<usize>)
    ensures
        match res {
            Some(len) => date_suffix_len(stem@) == Some(len as nat),
            None => date_suffix_len(stem@) is None,
        },
{
    if is_ending_in(stem, 10, DateSuffixFormat::YearMonthDay('-')) {
        Some(10)
    } else if is_ending_in(stem, 10, DateSuffixFormat::YearMonthDay('_')) {
        Some(10)
    } else if is_ending_in(stem, 8, DateSuffixFormat::YearMonthDayCompact) {
        Some(8)
    } else if is_ending_in(stem, 8, DateSuffixFormat::ShortYearMonthDay('-')) {
        Some(8)
    } else if is_ending_in(stem, 8, DateSuffixFormat::ShortYearMonthDay('_')) {
        Some(8)
    } else if is_ending_in(stem, 6, DateSuffixFormat::ShortYearMonthDayCompact) {
        Some(6)
    } else if is_ending_in(stem, 5, DateSuffixFormat::MonthDay('-')) {
        Some(5)
    } else if is_ending_in(stem, 5, DateSuffixFormat::MonthDay('_')) {
        Some(5)
    } else if is_ending_in(stem, 4, DateSuffixFormat::MonthDayCompact) {
        Some(4)
    } else {
        None
    }
}

/// A path with a date in its file name, and the pattern that follows the date.
#[derive(Debug, Clone, PartialEq, Eq)]
pub struct TodayPatternSuggestion {
    pub original_path: String,
    pub pattern_path: String,
}

/// The file name `name` with the date at the end of its stem replaced by `{today}`: where there is
/// such a date, no placeholder, and something beside the date.
pub open spec fn today_name(name: Seq<char>) -> Option<Seq<char>> {
    let stem = paths::name_stem(name);
    let extension = paths::name_extension(name);
    if has_placeholder(name) {
        None
    } else {
        match date_suffix_len(stem) {
            None => None,
            Some(len) => {
                let prefix = stem.take(stem.len() - len);
                match extension {
                    Some(extension) => Some(prefix + "{today}"@ + "."@ + extension),
                    None => if prefix.len() == 0 {
                        None
                    } else {
                        Some(prefix + "{today}"@)
                    },
                }
            },
        }
    }
}

/// The pattern that is suggested in place of `path`.
pub open spec fn today_pattern(path: Seq<char>) -> Option<Seq<char>> {
    match paths::path_file_name(path) {
        None => None,
        Some(name) => match today_name(name) {
            None => None,
            Some(suggested) => {
                let pattern = match paths::path_parent(path) {
                    Some(dir) => paths::joined(dir, suggested),
                    None => suggested,
                };
                if paths::same_path(pattern, path) {
                    None
                } else {
                    Some(pattern)
                }
            },
        },
    }
}

/// The pattern that follows the date in the name of `path`, where there is a date to follow.
pub fn suggest_today_pattern(path: &str) -> (res: Option<TodayPatternSuggestion>)
    ensures
        match res {
            Some(suggestion) => {
                &&& suggestion.original_path@ == path@
                &&& today_pattern(path@) == Some(suggestion.pattern_path@)
            },
            None => today_pattern(path@) is None,
        },
{
    suggest_today_pattern_for_date(path)
}

fn suggest_today_name(name: &Vec<char>) -> (res: Option<String>)
    ensures
        match res {
            Some(suggested) => today_name(name@) == Some(suggested@),
            None => today_name(name@) is None,
        },
{
    if contains_placeholder(text::text_of(name.as_slice()).as_str()) {
        return None;
    }
    let (stem, extension) = paths::split_extension(name.as_slice());
    let len: usize = match recognized_date_suffix_len(stem.as_slice()) {
        Some(len) => len,
        None => {
            return None;
        },
    };
    let prefix: Vec<char> = text::subvec(stem.as_slice(), 0, stem.len() - len);
    assert(prefix@ =~= stem@.take(stem@.len() - len));
    let mut suggested: String = text::text_of(prefix.as_slice());
    suggested.append("{today}");
    match extension {
        Some(extension) => {
            suggested.append(".");
            suggested.append(text::text_of(extension.as_slice()).as_str());
            Some(suggested)
        },
        None => if prefix.len() == 0 {
            None
        } else {
            Some(suggested)
        },
    }
}

/// The pattern that follows the date in the name of `path`, whatever day that date is.
pub fn suggest_today_pattern_for_date(path: &str) -> (res: Option<TodayPatternSuggestion>)
    ensures
        match res {
            Some(suggestion) => {
                &&& suggestion.original_path@ == path@
                &&& today_pattern(path@) == Some(suggestion.pattern_path@)
            },
            None => today_pattern(path@) is None,
        },
{
    let name: Vec<char> = match paths::file_name(path) {
        Some(name) => name,
        None => {
            return None;
        },
    };
    let suggested: String = match suggest_today_name(&name) {
        Some(suggested) => suggested,
        None => {
            return None;
        },
    };
    let pattern_path: String = match paths::parent(path) {
        Some(dir) => paths::join(dir.as_str(), suggested.as_str()),
        None => suggested,
    };
    if paths::is_same_path(pattern_path.as_str(), path) {
        None
    } else {
        Some(TodayPatternSuggestion { original_path: path.to_owned(), pattern_path })
    }
}

proof fn text_stands_in_concat(a: Seq<char>, b: Seq<char>, c: Seq<char>)
    ensures
        text::contains_text(a + b + c, b),
{
    assert((a + b + c).subrange(a.len() as int, (a.len() + b.len()) as int) =~= b);
    assert(text::stands_at(a + b + c, b, a.len() as int));
}

/// A text that stands in `b` stands in `a + b` too.
pub proof fn text_stands_in_longer(a: Seq<char>, b: Seq<char>, needle: Seq<char>)
    requires
        text::contains_text(b, needle),
    ensures
        text::contains_text(a + b, needle),
{
    let at = choose|at: int| text::stands_at(b, needle, at);
    assert((a + b).subrange(a.len() + at, a.len() + at + needle.len()) =~= b.subrange(
        at,
        at + needle.len(),
    ));
    assert(text::stands_at(a + b, needle, a.len() + at));
}

/// A suggested name holds the placeholder.
proof fn suggested_name_follows_the_date(name: Seq<char>)
    requires
        today_name(name) is Some,
    ensures
        text::contains_text(today_name(name)->0, "{today}"@),
{
    let stem = paths::name_stem(name);
    let prefix = stem.take(stem.len() - date_suffix_len(stem)->0);
    match paths::name_extension(name) {
        Some(extension) => {
            text_stands_in_concat(prefix, "{today}"@, "."@ + extension);
            assert(prefix + "{today}"@ + ("."@ + extension) =~= prefix + "{today}"@ + "."@
                + extension);
        },
        None => {
            text_stands_in_concat(prefix, "{today}"@, seq![]);
            assert(prefix + "{today}"@ + seq![] =~= prefix + "{today}"@);
        },
    }
}

/// A suggested pattern holds the placeholder `{today}`, so it follows the date.
pub proof fn suggestion_follows_the_date(path: Seq<char>)
    requires
        today_pattern(path) is Some,
    ensures
        text::contains_text(today_pattern(path)->0, "{today}"@),
        has_placeholder(today_pattern(path)->0),
{
    let name = paths::path_file_name(path)->0;
    let suggested = today_name(name)->0;
    suggested_name_follows_the_date(name);
    match paths::path_parent(path) {
        Some(dir) => {
            text_stands_in_longer(dir, suggested, "{today}"@);
            text_stands_in_longer(dir.push('/'), suggested, "{today}"@);
        },
        None => {},
    }
    assert(placeholders()[0] == "{today}"@);
}

/// Replacing what does not stand in a text leaves the text as it is.
pub proof fn replaced_absent(s: Seq<char>, from: Seq<char>, to: Seq<char>)
    requires
        !text::contains_text(s, from),
    ensures
        text::replaced(s, from, to) == s,
    decreases s.len(),
{
    if from.len() > 0 && s.len() > 0 {
        if text::contains_text(s.skip(1), from) {
            text_stands_in_longer(seq![s[0]], s.skip(1), from);
            assert(seq![s[0]] + s.skip(1) =~= s);
        }
        assert(!text::stands_at(s, from, 0));
        replaced_absent(s.skip(1), from, to);
        assert(seq![s[0]] + s.skip(1) =~= s);
    }
}

/// A text without placeholders is the same on every day.
pub proof fn dateless_text_is_unchanged(date: CalendarDate, raw: Seq<char>)
    requires
        !has_placeholder(raw),
    ensures
        date.applied(raw) == raw,
{
    assert forall|i: int| 0 <= i < placeholders().len() implies !text::contains_text(
        raw,
        #[trigger] placeholders()[i],
    ) by {}
    let all = placeholders();
    assert(all[1] == "{yyyymmdd}"@ && all[2] == "{yyyy-mm-dd}"@ && all[3] == "{yyyy_mm_dd}"@);
    assert(all[4] == "{yymmdd}"@ && all[5] == "{yy-mm-dd}"@ && all[6] == "{yy_mm_dd}"@);
    assert(all[7] == "{mmdd}"@ && all[8] == "{mm-dd}"@ && all[9] == "{mm_dd}"@);
    assert(all[10] == "{yyyy}"@ && all[11] == "{yy}"@ && all[12] == "{mm}"@ && all[13] == "{dd}"@);
    replaced_absent(raw, "{yyyymmdd}"@, date.formatted("yyyymmdd"@));
    replaced_absent(raw, "{yyyy-mm-dd}"@, date.formatted("yyyy-mm-dd"@));
    replaced_absent(raw, "{yyyy_mm_dd}"@, date.formatted("yyyy_mm_dd"@));
    replaced_absent(raw, "{yymmdd}"@, date.formatted("yymmdd"@));
    replaced_absent(raw, "{yy-mm-dd}"@, date.formatted("yy-mm-dd"@));
    replaced_absent(raw, "{yy_mm_dd}"@, date.formatted("yy_mm_dd"@));
    replaced_absent(raw, "{mmdd}"@, date.formatted("mmdd"@));
    replaced_absent(raw, "{mm-dd}"@, date.formatted("mm-dd"@));
    replaced_absent(raw, "{mm_dd}"@, date.formatted("mm_dd"@));
    replaced_absent(raw, "{yyyy}"@, date.yyyy());
    replaced_absent(raw, "{yy}"@, date.yy());
    replaced_absent(raw, "{mm}"@, date.mm());
    replaced_absent(raw, "{dd}"@, date.dd());
}

/// The text of a number below one hundred, padded to two digits, consists of digits that stand for
/// the number.
proof fn two_digits(n: nat)
    requires
        n < 100,
    ensures
        ({
            let s = text::padded(text::decimal(n), '0', 2);
            s.len() == 2 && text::all_digits(s) && text::digits_value(s) == n
        }),
{
    let s = text::padded(text::decimal(n), '0', 2);
    if n < 10 {
        assert(s =~= seq!['0', text::digit_char(n as int)]);
    } else {
        assert(text::decimal(n / 10) =~= seq![text::digit_char((n / 10) as int)]);
        assert(s =~= seq![text::digit_char((n / 10) as int), text::digit_char((n % 10) as int)]);
    }
    assert(s.drop_last() =~= seq![s[0]]);
    assert(s.drop_last().drop_last() =~= seq![]);
    assert(text::digits_value(s.drop_last().drop_last()) == 0);
    assert(text::digits_value(s.drop_last()) == text::digit_value(s[0]));
}

/// The text of a number below ten thousand, padded to four digits, consists of digits that stand
/// for the number.
proof fn four_digits(n: nat)
    requires
        n < 10_000,
    ensures
        ({
            let s = text::padded(text::decimal(n), '0', 4);
            s.len() == 4 && text::all_digits(s) && text::digits_value(s) == n
        }),
{
    let s = text::padded(text::decimal(n), '0', 4);
    let ones = text::digit_char((n % 10) as int);
    let tens = text::digit_char(((n / 10) % 10) as int);
    let hundreds = text::digit_char(((n / 100) % 10) as int);
    let thousands = text::digit_char((n / 1000) as int);
    assert((n / 10) / 10 == n / 100);
    assert((n / 100) / 10 == n / 1000);
    if n < 10 {
        assert(s =~= seq![thousands, hundreds, tens, ones]);
    } else if n < 100 {
        assert(text::decimal(n / 10) =~= seq![tens]);
        assert(s =~= seq![thousands, hundreds, tens, ones]);
    } else if n < 1000 {
        assert(text::decimal(n / 100) =~= seq![hundreds]);
        assert(text::decimal(n / 10) =~= seq![hundreds, tens]);
        assert(s =~= seq![thousands, hundreds, tens, ones]);
    } else {
        assert(text::decimal(n / 1000) =~= seq![thousands]);
        assert(text::decimal(n / 100) =~= seq![thousands, hundreds]);
        assert(text::decimal(n / 10) =~= seq![thousands, hundreds, tens]);
        assert(s =~= seq![thousands, hundreds, tens, ones]);
    }
    let s3 = s.drop_last();
    let s2 = s3.drop_last();
    let s1 = s2.drop_last();
    assert(s1.drop_last() =~= seq![]);
    assert(text::digits_value(s1.drop_last()) == 0);
    assert(text::digits_value(s1) == text::digit_value(thousands));
    assert(text::digits_value(s2) == text::digits_value(s1) * 10 + text::digit_value(hundreds));
    assert(text::digits_value(s3) == text::digits_value(s2) * 10 + text::digit_value(tens));
}

/// Year, month and day in digits, with a separator between them, are read as what they stand for.
proof fn separated_ymd_is_read(y: Seq<char>, m: Seq<char>, d: Seq<char>, sep: char)
    requires
        y.len() > 0 && text::all_digits(y) && text::digits_value(y) <= 0x7fff_ffff,
        m.len() > 0 && text::all_digits(m) && text::digits_value(m) <= 255,
        d.len() > 0 && text::all_digits(d) && text::digits_value(d) <= 255,
        sep == '-' || sep == '_',
    ensures
        parsed_ymd(y + seq![sep] + m + seq![sep] + d, sep) == Some(
            (text::digits_value(y) as int, text::digits_value(m), text::digits_value(d)),
        ),
{
    paths::one_piece(y, sep);
    paths::one_more_piece(y, m, sep);
    paths::one_more_piece(y.push(sep) + m, d, sep);
    assert(y + seq![sep] + m + seq![sep] + d =~= (y.push(sep) + m).push(sep) + d);
    let parts = paths::pieces(y + seq![sep] + m + seq![sep] + d, sep);
    assert(parts == seq![y].push(m).push(d));
    assert(parts[0] == y && parts[1] == m && parts[2] == d);
    assert(text::is_digit(y[0]) && text::is_digit(m[0]) && text::is_digit(d[0]));
}

/// Month and day in digits, with a separator between them, are read as what they stand for.
proof fn separated_md_is_read(m: Seq<char>, d: Seq<char>, sep: char)
    requires
        m.len() > 0 && text::all_digits(m) && text::digits_value(m) <= 255,
        d.len() > 0 && text::all_digits(d) && text::digits_value(d) <= 255,
        sep == '-' || sep == '_',
    ensures
        parsed_md(m + seq![sep] + d, sep) == Some((text::digits_value(m), text::digits_value(d))),
{
    paths::one_piece(m, sep);
    paths::one_more_piece(m, d, sep);
    assert(m + seq![sep] + d =~= m.push(sep) + d);
    let parts = paths::pieces(m + seq![sep] + d, sep);
    assert(parts == seq![m].push(d));
    assert(parts[0] == m && parts[1] == d);
    assert(text::is_digit(m[0]) && text::is_digit(d[0]));
}

/// A stem ends in what was appended to it.
proof fn appended_value_ends(prefix: Seq<char>, value: Seq<char>, format: DateSuffixFormat)
    requires
        format.accepts(value),
    ensures
        ends_in(prefix + value, value.len(), format),
{
    let stem = prefix + value;
    assert(stem.skip(stem.len() - value.len()) =~= value);
}

/// A day that a year has, the year of this century with the same last digits has too.
proof fn short_year_has_the_day(year: int, month: int, day: int)
    requires
        0 <= year,
        calendar_has(year, month, day),
    ensures
        calendar_has(2000 + year % 100, month, day),
        some_year_has(month, day),
{
    if month == 2 && leap_year(year) {
        let short = 2000 + year % 100;
        assert(year % 4 == 0);
        assert((year % 100) % 4 == 0);
        assert(short % 4 == 0);
        if short % 100 == 0 {
            assert(short == 2000);
        }
        assert(leap_year(short));
    }
}

/// The parts of a day of the years 0 to 9999 are digits that stand for it.
proof fn date_parts_are_digits(date: CalendarDate)
    requires
        0 <= date.year,
        calendar_has(date.year as int, date.month as int, date.day as int),
    ensures
        date.yyyy().len() == 4 && text::all_digits(date.yyyy()) && text::digits_value(date.yyyy())
            == date.year,
        date.yy().len() == 2 && text::all_digits(date.yy()) && text::digits_value(date.yy())
            == date.year % 100,
        date.mm().len() == 2 && text::all_digits(date.mm()) && text::digits_value(date.mm())
            == date.month,
        date.dd().len() == 2 && text::all_digits(date.dd()) && text::digits_value(date.dd())
            == date.day,
        "-"@ == seq!['-'],
        "_"@ == seq!['_'],
        calendar_has(2000 + date.year % 100, date.month as int, date.day as int),
        some_year_has(date.month as int, date.day as int),
{
    short_year_has_the_day(date.year as int, date.month as int, date.day as int);
    four_digits(date.year as nat);
    two_digits(year_magnitude(date.year) % 100);
    two_digits(date.month as nat);
    two_digits(date.day as nat);
    reveal_strlit("-");
    reveal_strlit("_");
    assert("-"@ =~= seq!['-']);
    assert("_"@ =~= seq!['_']);
}

/// The forms with a separator are accepted.
proof fn separated_forms_are_accepted(date: CalendarDate, sep: char)
    requires
        0 <= date.year,
        calendar_has(date.year as int, date.month as int, date.day as int),
        sep == '-' || sep == '_',
    ensures
        ({
            let full = date.yyyy() + seq![sep] + date.mm() + seq![sep] + date.dd();
            let short = date.yy() + seq![sep] + date.mm() + seq![sep] + date.dd();
            let yearless = date.mm() + seq![sep] + date.dd();
            &&& full.len() == 10 && DateSuffixFormat::YearMonthDay(sep).accepts(full)
            &&& short.len() == 8 && DateSuffixFormat::ShortYearMonthDay(sep).accepts(short)
            &&& yearless.len() == 5 && DateSuffixFormat::MonthDay(sep).accepts(yearless)
        }),
{
    date_parts_are_digits(date);
    separated_ymd_is_read(date.yyyy(), date.mm(), date.dd(), sep);
    separated_ymd_is_read(date.yy(), date.mm(), date.dd(), sep);
    separated_md_is_read(date.mm(), date.dd(), sep);
}

/// The forms without a separator are accepted.
proof fn compact_forms_are_accepted(date: CalendarDate)
    requires
        0 <= date.year,
        calendar_has(date.year as int, date.month as int, date.day as int),
    ensures
        ({
            let full = date.yyyy() + date.mm() + date.dd();
            let short = date.yy() + date.mm() + date.dd();
            let yearless = date.mm() + date.dd();
            &&& full.len() == 8 && DateSuffixFormat::YearMonthDayCompact.accepts(full)
            &&& short.len() == 6 && DateSuffixFormat::ShortYearMonthDayCompact.accepts(short)
            &&& yearless.len() == 4 && DateSuffixFormat::MonthDayCompact.accepts(yearless)
        }),
{
    date_parts_are_digits(date);
    let full = date.yyyy() + date.mm() + date.dd();
    let short = date.yy() + date.mm() + date.dd();
    let yearless = date.mm() + date.dd();
    assert(full.subrange(0, 4) =~= date.yyyy());
    assert(full.subrange(4, 6) =~= date.mm());
    assert(full.subrange(6, 8) =~= date.dd());
    assert(short.subrange(0, 2) =~= date.yy());
    assert(short.subrange(2, 4) =~= date.mm());
    assert(short.subrange(4, 6) =~= date.dd());
    assert(yearless.subrange(0, 2) =~= date.mm());
    assert(yearless.subrange(2, 4) =~= date.dd());
}

/// A character that can stand in what is read as a date.
pub open spec fn suffix_char(c: char) -> bool {
    date_char(c) || c == '+'
}

proof fn read_year_is_plain(s: Seq<char>, k: int)
    requires
        parsed_year(s) is Some,
        0 <= k < s.len(),
    ensures
        suffix_char(s[k]),
{
    if s[0] == '-' || s[0] == '+' {
        if k > 0 {
            assert(text::is_digit(s.skip(1)[k - 1]));
        }
    } else {
        assert(text::is_digit(s[k]));
    }
}

proof fn read_part_is_plain(s: Seq<char>, k: int)
    requires
        parsed_part(s) is Some,
        0 <= k < s.len(),
    ensures
        suffix_char(s[k]),
{
    if s[0] == '+' {
        if k > 0 {
            assert(text::is_digit(s.skip(1)[k - 1]));
        }
    } else {
        assert(text::is_digit(s[k]));
    }
}

/// The separator of a form, where it has one, is a dash or an underscore.
pub open spec fn usual_separator(format: DateSuffixFormat) -> bool {
    match format {
        DateSuffixFormat::YearMonthDay(separator) => separator == '-' || separator == '_',
        DateSuffixFormat::ShortYearMonthDay(separator) => separator == '-' || separator == '_',
        DateSuffixFormat::MonthDay(separator) => separator == '-' || separator == '_',
        _ => true,
    }
}

proof fn separated_value_is_plain(value: Seq<char>, sep: char, k: int)
    requires
        sep == '-' || sep == '_',
        parsed_ymd(value, sep) is Some || parsed_md(value, sep) is Some,
        0 <= k < value.len(),
    ensures
        suffix_char(value[k]),
{
    if value[k] != sep {
        let parts = paths::pieces(value, sep);
        let i = paths::pieces_hold_the_rest(value, sep, k);
        let j = choose|j: int| 0 <= j < parts[i].len() && parts[i][j] == value[k];
        if parsed_ymd(value, sep) is Some && i == 0 {
            read_year_is_plain(parts[i], j);
        } else {
            read_part_is_plain(parts[i], j);
        }
    }
}

proof fn accepted_value_is_plain(format: DateSuffixFormat, value: Seq<char>, k: int)
    requires
        usual_separator(format),
        format.accepts(value),
        0 <= k < value.len(),
    ensures
        suffix_char(value[k]),
{
    match format {
        DateSuffixFormat::YearMonthDay(sep) => separated_value_is_plain(value, sep, k),
        DateSuffixFormat::ShortYearMonthDay(sep) => separated_value_is_plain(value, sep, k),
        DateSuffixFormat::MonthDay(sep) => separated_value_is_plain(value, sep, k),
        _ => {
            assert(text::is_digit(value[k]));
        },
    }
}

/// Nothing at the end of the text can belong to a date: it is empty, or ends in a letter or another
/// character that no date holds.
pub open spec fn ends_outside_a_date(prefix: Seq<char>) -> bool {
    prefix.len() == 0 || !suffix_char(prefix.last())
}

proof fn longer_form_does_not_fit(
    prefix: Seq<char>,
    value: Seq<char>,
    len: nat,
    format: DateSuffixFormat,
)
    requires
        ends_outside_a_date(prefix),
        len > value.len(),
        usual_separator(format),
    ensures
        !ends_in(prefix + value, len, format),
{
    let stem = prefix + value;
    if ends_in(stem, len, format) {
        let suffix = stem.skip(stem.len() - len);
        let k = len - value.len() - 1;
        assert(suffix[k] == prefix.last());
        accepted_value_is_plain(format, suffix, k);
    }
}

proof fn longer_forms_do_not_fit(prefix: Seq<char>, value: Seq<char>)
    requires
        ends_outside_a_date(prefix),
    ensures
        value.len() < 10 ==> !ends_in(prefix + value, 10, DateSuffixFormat::YearMonthDay('-'))
            && !ends_in(prefix + value, 10, DateSuffixFormat::YearMonthDay('_')),
        value.len() < 8 ==> !ends_in(prefix + value, 8, DateSuffixFormat::YearMonthDayCompact)
            && !ends_in(prefix + value, 8, DateSuffixFormat::ShortYearMonthDay('-')) && !ends_in(
            prefix + value,
            8,
            DateSuffixFormat::ShortYearMonthDay('_'),
        ),
        value.len() < 6 ==> !ends_in(
            prefix + value,
            6,
            DateSuffixFormat::ShortYearMonthDayCompact,
        ),
        value.len() < 5 ==> !ends_in(prefix + value, 5, DateSuffixFormat::MonthDay('-'))
            && !ends_in(prefix + value, 5, DateSuffixFormat::MonthDay('_')),
{
    if value.len() < 10 {
        longer_form_does_not_fit(prefix, value, 10, DateSuffixFormat::YearMonthDay('-'));
        longer_form_does_not_fit(prefix, value, 10, DateSuffixFormat::YearMonthDay('_'));
    }
    if value.len() < 8 {
        longer_form_does_not_fit(prefix, value, 8, DateSuffixFormat::YearMonthDayCompact);
        longer_form_does_not_fit(prefix, value, 8, DateSuffixFormat::ShortYearMonthDay('-'));
        longer_form_does_not_fit(prefix, value, 8, DateSuffixFormat::ShortYearMonthDay('_'));
    }
    if value.len() < 6 {
        longer_form_does_not_fit(prefix, value, 6, DateSuffixFormat::ShortYearMonthDayCompact);
    }
    if value.len() < 5 {
        longer_form_does_not_fit(prefix, value, 5, DateSuffixFormat::MonthDay('-'));
        longer_form_does_not_fit(prefix, value, 5, DateSuffixFormat::MonthDay('_'));
    }
}

/// The form in which a date is written in each of the formats that `{today}` stands for.
spec fn form_of(i: int) -> DateSuffixFormat {
    if i == 0 {
        DateSuffixFormat::YearMonthDayCompact
    } else if i == 1 {
        DateSuffixFormat::YearMonthDay('-')
    } else if i == 2 {
        DateSuffixFormat::YearMonthDay('_')
    } else if i == 3 {
        DateSuffixFormat::MonthDayCompact
    } else if i == 4 {
        DateSuffixFormat::MonthDay('-')
    } else if i == 5 {
        DateSuffixFormat::MonthDay('_')
    } else if i == 6 {
        DateSuffixFormat::ShortYearMonthDayCompact
    } else if i == 7 {
        DateSuffixFormat::ShortYearMonthDay('-')
    } else {
        DateSuffixFormat::ShortYearMonthDay('_')
    }
}

/// How long a date is in each of the formats that `{today}` stands for.
spec fn length_of(i: int) -> nat {
    if i == 1 || i == 2 {
        10
    } else if i == 0 || i == 7 || i == 8 {
        8
    } else if i == 6 {
        6
    } else if i == 4 || i == 5 {
        5
    } else {
        4
    }
}

proof fn written_date_has_its_form(date: CalendarDate, i: int)
    requires
        0 <= date.year,
        calendar_has(date.year as int, date.month as int, date.day as int),
        0 <= i < today_formats().len(),
    ensures
        date.formatted(today_formats()[i]).len() == length_of(i),
        form_of(i).accepts(date.formatted(today_formats()[i])),
{
    format_names_differ();
    date_parts_are_digits(date);
    separated_forms_are_accepted(date, '-');
    separated_forms_are_accepted(date, '_');
    compact_forms_are_accepted(date);
}

/// Every form in which `{today}` is filled in for a day of the years 0 to 9999 is recognised as a
/// date at the end of a stem, whatever stands before it; and where nothing before it can belong to
/// a date, as behind a letter, all of it is recognised and nothing more.
pub proof fn todays_forms_are_recognised(date: CalendarDate, i: int, prefix: Seq<char>)
    requires
        0 <= date.year,
        calendar_has(date.year as int, date.month as int, date.day as int),
        0 <= i < today_formats().len(),
    ensures
        date_suffix_len(prefix + date.formatted(today_formats()[i])) is Some,
        ends_outside_a_date(prefix) ==> date_suffix_len(
            prefix + date.formatted(today_formats()[i]),
        ) == Some(date.formatted(today_formats()[i]).len()),
{
    let value = date.formatted(today_formats()[i]);
    written_date_has_its_form(date, i);
    appended_value_ends(prefix, value, form_of(i));
    assert(ends_in(prefix + value, length_of(i), form_of(i)));
    if ends_outside_a_date(prefix) {
        longer_forms_do_not_fit(prefix, value);
    }
}

/// A character of a written date.
pub open spec fn date_char(c: char) -> bool {
    text::is_digit(c) || c == '-' || c == '_'
}

/// Every character is one of `raw`, or one of a written date.
pub open spec fn drawn_from(s: Seq<char>, raw: Seq<char>) -> bool {
    forall|i: int| 0 <= i < s.len() ==> raw.contains(#[trigger] s[i]) || date_char(s[i])
}

proof fn decimal_is_digits(n: nat)
    ensures
        text::all_digits(text::decimal(n)),
    decreases n,
{
    if n >= 10 {
        decimal_is_digits(n / 10);
    }
}

proof fn padded_is_digits(n: nat, width: nat)
    ensures
        text::all_digits(text::padded(text::decimal(n), '0', width)),
{
    decimal_is_digits(n);
}

proof fn digits_are_drawn_from(s: Seq<char>, raw: Seq<char>)
    requires
        text::all_digits(s),
    ensures
        drawn_from(s, raw),
{
    assert forall|i: int| 0 <= i < s.len() implies raw.contains(#[trigger] s[i]) || date_char(
        s[i],
    ) by {
        assert(text::is_digit(s[i]));
    }
}

proof fn joined_is_drawn_from(a: Seq<char>, b: Seq<char>, raw: Seq<char>)
    requires
        drawn_from(a, raw),
        drawn_from(b, raw),
    ensures
        drawn_from(a + b, raw),
{
    let all = a + b;
    assert forall|i: int| 0 <= i < all.len() implies raw.contains(#[trigger] all[i]) || date_char(
        all[i],
    ) by {
        if i < a.len() {
            assert(all[i] == a[i]);
        } else {
            assert(all[i] == b[i - a.len()]);
        }
    }
}

proof fn separator_is_plain(raw: Seq<char>)
    ensures
        drawn_from("-"@, raw),
        drawn_from("_"@, raw),
{
    reveal_strlit("-");
    reveal_strlit("_");
}

proof fn written_parts_are_plain(date: CalendarDate, raw: Seq<char>)
    ensures
        drawn_from(date.yyyy(), raw),
        drawn_from(date.yy(), raw),
        drawn_from(date.mm(), raw),
        drawn_from(date.dd(), raw),
{
    let magnitude = year_magnitude(date.year);
    padded_is_digits(magnitude, 3);
    padded_is_digits(magnitude, 4);
    padded_is_digits(magnitude % 100, 2);
    padded_is_digits(date.month as nat, 2);
    padded_is_digits(date.day as nat, 2);
    digits_are_drawn_from(text::padded(text::decimal(magnitude), '0', 3), raw);
    digits_are_drawn_from(text::padded(text::decimal(magnitude), '0', 4), raw);
    digits_are_drawn_from(date.yy(), raw);
    digits_are_drawn_from(date.mm(), raw);
    digits_are_drawn_from(date.dd(), raw);
    assert(drawn_from(seq!['-'], raw));
    joined_is_drawn_from(
        seq!['-'],
        text::padded(text::decimal(magnitude), '0', 3),
        raw,
    );
}

/// The text has at least two characters, and the last is a digit.
pub open spec fn ends_in_a_digit(s: Seq<char>) -> bool {
    s.len() >= 2 && text::is_digit(s.last())
}

proof fn digits_end_in_a_digit(s: Seq<char>)
    requires
        text::all_digits(s),
        s.len() >= 2,
    ensures
        ends_in_a_digit(s),
{
    assert(text::is_digit(s[s.len() - 1]));
}

proof fn joined_ends_in_a_digit(a: Seq<char>, b: Seq<char>)
    requires
        ends_in_a_digit(b),
    ensures
        ends_in_a_digit(a + b),
{
    assert((a + b).last() == b.last());
}

proof fn written_parts_end_in_digits(date: CalendarDate)
    ensures
        ends_in_a_digit(date.yyyy()),
        ends_in_a_digit(date.yy()),
        ends_in_a_digit(date.mm()),
        ends_in_a_digit(date.dd()),
{
    let magnitude = year_magnitude(date.year);
    let three = text::padded(text::decimal(magnitude), '0', 3);
    let four = text::padded(text::decimal(magnitude), '0', 4);
    padded_is_digits(magnitude, 3);
    padded_is_digits(magnitude, 4);
    padded_is_digits(magnitude % 100, 2);
    padded_is_digits(date.month as nat, 2);
    padded_is_digits(date.day as nat, 2);
    digits_end_in_a_digit(three);
    digits_end_in_a_digit(four);
    digits_end_in_a_digit(date.yy());
    digits_end_in_a_digit(date.mm());
    digits_end_in_a_digit(date.dd());
    joined_ends_in_a_digit(seq!['-'], three);
}

/// However a date is written, its last character is a digit.
pub proof fn written_date_ends_in_a_digit(date: CalendarDate, name: Seq<char>)
    ensures
        ends_in_a_digit(date.yyyy()),
        ends_in_a_digit(date.yy()),
        ends_in_a_digit(date.mm()),
        ends_in_a_digit(date.dd()),
        ends_in_a_digit(date.formatted(name)),
{
    written_parts_end_in_digits(date);
    let dash = "-"@;
    let line = "_"@;
    let (y, s, m, d) = (date.yyyy(), date.yy(), date.mm(), date.dd());
    joined_ends_in_a_digit(m, d);
    joined_ends_in_a_digit(m + dash, d);
    joined_ends_in_a_digit(m + line, d);
    joined_ends_in_a_digit(y + m, d);
    joined_ends_in_a_digit(s + m, d);
    joined_ends_in_a_digit(y + dash + m + dash, d);
    joined_ends_in_a_digit(y + line + m + line, d);
    joined_ends_in_a_digit(s + dash + m + dash, d);
    joined_ends_in_a_digit(s + line + m + line, d);
}

/// A written date consists of digits and separators.
pub proof fn written_date_is_plain(date: CalendarDate, name: Seq<char>, raw: Seq<char>)
    ensures
        drawn_from(date.yyyy(), raw),
        drawn_from(date.yy(), raw),
        drawn_from(date.mm(), raw),
        drawn_from(date.dd(), raw),
        drawn_from(date.formatted(name), raw),
{
    written_parts_are_plain(date, raw);
    separator_is_plain(raw);
    let dash = "-"@;
    let line = "_"@;
    let (y, s, m, d) = (date.yyyy(), date.yy(), date.mm(), date.dd());
    joined_is_drawn_from(m, d, raw);
    joined_is_drawn_from(m, dash, raw);
    joined_is_drawn_from(m + dash, d, raw);
    joined_is_drawn_from(m, line, raw);
    joined_is_drawn_from(m + line, d, raw);
    joined_is_drawn_from(y, m, raw);
    joined_is_drawn_from(y + m, d, raw);
    joined_is_drawn_from(s, m, raw);
    joined_is_drawn_from(s + m, d, raw);
    joined_is_drawn_from(y, dash, raw);
    joined_is_drawn_from(y + dash, m, raw);
    joined_is_drawn_from(y + dash + m, dash, raw);
    joined_is_drawn_from(y + dash + m + dash, d, raw);
    joined_is_drawn_from(y, line, raw);
    joined_is_drawn_from(y + line, m, raw);
    joined_is_drawn_from(y + line + m, line, raw);
    joined_is_drawn_from(y + line + m + line, d, raw);
    joined_is_drawn_from(s, dash, raw);
    joined_is_drawn_from(s + dash, m, raw);
    joined_is_drawn_from(s + dash + m, dash, raw);
    joined_is_drawn_from(s + dash + m + dash, d, raw);
    joined_is_drawn_from(s, line, raw);
    joined_is_drawn_from(s + line, m, raw);
    joined_is_drawn_from(s + line + m, line, raw);
    joined_is_drawn_from(s + line + m + line, d, raw);
}

proof fn replaced_is_drawn_from(s: Seq<char>, from: Seq<char>, to: Seq<char>, raw: Seq<char>)
    requires
        drawn_from(s, raw),
        drawn_from(to, raw),
    ensures
        drawn_from(text::replaced(s, from, to), raw),
    decreases s.len(),
{
    if from.len() > 0 && s.len() > 0 {
        if text::stands_at(s, from, 0) {
            let rest = s.skip(from.len() as int);
            assert forall|i: int| 0 <= i < rest.len() implies raw.contains(#[trigger] rest[i])
                || date_char(rest[i]) by {
                assert(rest[i] == s[i + from.len()]);
            }
            replaced_is_drawn_from(rest, from, to, raw);
        } else {
            let rest = s.skip(1);
            assert forall|i: int| 0 <= i < rest.len() implies raw.contains(#[trigger] rest[i])
                || date_char(rest[i]) by {
                assert(rest[i] == s[i + 1]);
            }
            replaced_is_drawn_from(rest, from, to, raw);
        }
    }
}

/// Filling in placeholders brings in digits and separators, and nothing else.
pub proof fn filling_in_adds_digits_and_separators(
    date: CalendarDate,
    raw: Seq<char>,
    s: Seq<char>,
    name: Seq<char>,
)
    requires
        drawn_from(s, raw),
    ensures
        drawn_from(date.applied(s), raw),
        drawn_from(text::replaced(s, "{today}"@, date.formatted(name)), raw),
{
    written_date_is_plain(date, name, raw);
    replaced_is_drawn_from(s, "{today}"@, date.formatted(name), raw);
    written_date_is_plain(date, "yyyymmdd"@, raw);
    written_date_is_plain(date, "yyyy-mm-dd"@, raw);
    written_date_is_plain(date, "yyyy_mm_dd"@, raw);
    written_date_is_plain(date, "yymmdd"@, raw);
    written_date_is_plain(date, "yy-mm-dd"@, raw);
    written_date_is_plain(date, "yy_mm_dd"@, raw);
    written_date_is_plain(date, "mmdd"@, raw);
    written_date_is_plain(date, "mm-dd"@, raw);
    written_date_is_plain(date, "mm_dd"@, raw);
    let s1 = text::replaced(s, "{yyyymmdd}"@, date.formatted("yyyymmdd"@));
    replaced_is_drawn_from(s, "{yyyymmdd}"@, date.formatted("yyyymmdd"@), raw);
    let s2 = text::replaced(s1, "{yyyy-mm-dd}"@, date.formatted("yyyy-mm-dd"@));
    replaced_is_drawn_from(s1, "{yyyy-mm-dd}"@, date.formatted("yyyy-mm-dd"@), raw);
    let s3 = text::replaced(s2, "{yyyy_mm_dd}"@, date.formatted("yyyy_mm_dd"@));
    replaced_is_drawn_from(s2, "{yyyy_mm_dd}"@, date.formatted("yyyy_mm_dd"@), raw);
    let s4 = text::replaced(s3, "{yymmdd}"@, date.formatted("yymmdd"@));
    replaced_is_drawn_from(s3, "{yymmdd}"@, date.formatted("yymmdd"@), raw);
    let s5 = text::replaced(s4, "{yy-mm-dd}"@, date.formatted("yy-mm-dd"@));
    replaced_is_drawn_from(s4, "{yy-mm-dd}"@, date.formatted("yy-mm-dd"@), raw);
    let s6 = text::replaced(s5, "{yy_mm_dd}"@, date.formatted("yy_mm_dd"@));
    replaced_is_drawn_from(s5, "{yy_mm_dd}"@, date.formatted("yy_mm_dd"@), raw);
    let s7 = text::replaced(s6, "{mmdd}"@, date.formatted("mmdd"@));
    replaced_is_drawn_from(s6, "{mmdd}"@, date.formatted("mmdd"@), raw);
    let s8 = text::replaced(s7, "{mm-dd}"@, date.formatted("mm-dd"@));
    replaced_is_drawn_from(s7, "{mm-dd}"@, date.formatted("mm-dd"@), raw);
    let s9 = text::replaced(s8, "{mm_dd}"@, date.formatted("mm_dd"@));
    replaced_is_drawn_from(s8, "{mm_dd}"@, date.formatted("mm_dd"@), raw);
    let s10 = text::replaced(s9, "{yyyy}"@, date.yyyy());
    replaced_is_drawn_from(s9, "{yyyy}"@, date.yyyy(), raw);
    let s11 = text::replaced(s10, "{yy}"@, date.yy());
    replaced_is_drawn_from(s10, "{yy}"@, date.yy(), raw);
    let s12 = text::replaced(s11, "{mm}"@, date.mm());
    replaced_is_drawn_from(s11, "{mm}"@, date.mm(), raw);
    replaced_is_drawn_from(s12, "{dd}"@, date.dd(), raw);
}

} // verus!
