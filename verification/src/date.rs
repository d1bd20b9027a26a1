use vstd::prelude::*;
use vstd::string::*;
use chrono::{Datelike, TimeZone, Utc};
use crate::text::{chars_of, decimal, parse_u32, parse_u32_range, pieces, split, split_ranges};

verus! {

/// Leap years of the proleptic Gregorian calendar.
pub open spec fn is_leap_year(y: int) -> bool {
    (y % 4 == 0 && y % 100 != 0) || y % 400 == 0
}

pub open spec fn days_in_month(y: int, m: int) -> int {
    if m == 2 {
        if is_leap_year(y) { 29 } else { 28 }
    } else if m == 4 || m == 6 || m == 9 || m == 11 {
        30
    } else {
        31
    }
}

/// The calendar dates that chrono can represent: the proleptic Gregorian
/// calendar from year -262143 to year 262142.
pub open spec fn valid_ymd(y: int, m: int, d: int) -> bool {
    &&& -262143 <= y <= 262142
    &&& 1 <= m <= 12
    &&& 1 <= d <= days_in_month(y, m)
}

/// The day of the week of a calendar date of the proleptic Gregorian
/// calendar, counted from Monday (0) to Sunday (6): Zeller's congruence, with
/// January and February counted as months 13 and 14 of the year before.
pub open spec fn weekday_from_monday(year: i32, month: u32, day: u32) -> u32 {
    let y: int = if month < 3 { year - 1 } else { year as int };
    let m: int = if month < 3 { month + 12 } else { month as int };
    let h: int = (day + (13 * (m + 1)) / 5 + y + y / 4 - y / 100 + y / 400) % 7;
    ((h + 5) % 7) as u32
}

/// Calls chrono's `Utc.with_ymd_and_hms(year, month, day, 0, 0, 0)` and, for a
/// date that exists, `weekday().num_days_from_monday()` of the result.
/// Claimed: a result comes back exactly for the dates of `valid_ymd` (chrono's
/// `NaiveDate::from_ymd_opt` range and calendar checks, and `Utc` maps every
/// local time to a single instant), and the weekday is the one that
/// `weekday_from_monday` computes in chrono's proleptic Gregorian calendar.
#[verifier::external_body]
fn utc_midnight_weekday(year: i32, month: u32, day: u32) -> (r: Option<u32>)
    ensures
        r is Some <==> valid_ymd(year as int, month as int, day as int),
        r matches Some(w) ==> w == weekday_from_monday(year, month, day),
{
    match Utc.with_ymd_and_hms(year, month, day, 0, 0, 0).single() {
        Some(dt) => Some(dt.weekday().num_days_from_monday()),
        None => None,
    }
}

/// The Czech name of the weekday numbered from Monday (0).
pub open spec fn czech_weekday(w: u32) -> Seq<char> {
    if w == 0 {
        "Pondělí"@
    } else if w == 1 {
        "Úterý"@
    } else if w == 2 {
        "Středa"@
    } else if w == 3 {
        "Čtvrtek"@
    } else if w == 4 {
        "Pátek"@
    } else if w == 5 {
        "Sobota"@
    } else {
        "Neděle"@
    }
}

/// The Czech name of the weekday numbered from Monday (0).
pub fn czech_weekday_name(w: u32) -> (r: String)
    ensures
        r@ == czech_weekday(w),
{
    if w == 0 {
        String::from_str("Pondělí")
    } else if w == 1 {
        String::from_str("Úterý")
    } else if w == 2 {
        String::from_str("Středa")
    } else if w == 3 {
        String::from_str("Čtvrtek")
    } else if w == 4 {
        String::from_str("Pátek")
    } else if w == 5 {
        String::from_str("Sobota")
    } else {
        String::from_str("Neděle")
    }
}

/// The `(year, month, day)` that a text `dd.mm.yyyy` names: the text split at
/// every `.`, every piece a `u32`, at least three pieces, the third taken as
/// an `i32` (bit for bit), and the three forming a date that exists.
pub open spec fn date_fields(s: Seq<char>) -> Option<(i32, u32, u32)> {
    let parts = split(s, '.');
    if parts.len() >= 3 && (forall|i: int| 0 <= i < parts.len() ==> (#[trigger] parse_u32(parts[i])) is Some) {
        let d = parse_u32(parts[0]).unwrap();
        let m = parse_u32(parts[1]).unwrap();
        let y = parse_u32(parts[2]).unwrap() as i32;
        if valid_ymd(y as int, m as int, d as int) {
            Some((y, m, d))
        } else {
            None
        }
    } else {
        None
    }
}

/// Whether `(year, month, day)` is a date that exists.
pub fn is_valid_date(year: i32, month: u32, day: u32) -> (r: bool)
    ensures
        r == valid_ymd(year as int, month as int, day as int),
{
    if year < -262143 || year > 262142 || month < 1 || month > 12 || day < 1 {
        return false;
    }
    let leap = (year % 4 == 0 && year % 100 != 0) || year % 400 == 0;
    let days: u32 = if month == 2 {
        if leap { 29 } else { 28 }
    } else if month == 4 || month == 6 || month == 9 || month == 11 {
        30
    } else {
        31
    };
    day <= days
}

/// `s` with zeros in front up to `width` characters.
pub open spec fn zero_padded(s: Seq<char>, width: nat) -> Seq<char> {
    if s.len() < width {
        Seq::new((width - s.len()) as nat, |i: int| '0') + s
    } else {
        s
    }
}

/// A year as chrono's `%Y` writes it: four digits at least, zero-padded, with
/// a sign in front for a year outside 0 to 9999.
pub open spec fn year_text(y: int) -> Seq<char> {
    if 0 <= y < 10000 {
        zero_padded(decimal(y as nat), 4)
    } else if y >= 0 {
        seq!['+'] + zero_padded(decimal(y as nat), 4)
    } else {
        seq!['-'] + zero_padded(decimal((-y) as nat), 4)
    }
}

/// A date as chrono's `%d.%m.%Y` writes it.
pub open spec fn date_text(y: int, m: nat, d: nat) -> Seq<char> {
    zero_padded(decimal(d), 2) + "."@ + zero_padded(decimal(m), 2) + "."@ + year_text(y)
}

/// Calls chrono's `Utc.with_ymd_and_hms(year, month, day, 0, 0, 0)` and
/// `format("%d.%m.%Y")` of the result. Claimed: the text of `date_text`
/// (chrono's `write_two` for day and month, `write_year` for the year). The
/// date exists, so the call gives a single instant.
#[verifier::external_body]
fn chrono_date_text(year: i32, month: u32, day: u32) -> (r: String)
    requires
        valid_ymd(year as int, month as int, day as int),
    ensures
        r@ == date_text(year as int, month as nat, day as nat),
{
    Utc.with_ymd_and_hms(year, month, day, 0, 0, 0).unwrap().format("%d.%m.%Y").to_string()
}

/// A calendar day, with the Czech name of its weekday.
#[derive(Clone, Debug)]
pub struct Date {
    pub year: i32,
    pub month: u32,
    pub day: u32,
    pub day_of_week: String,
}

impl Date {
    /// The key by which days are ordered: year, then month, then day.
    pub open spec fn key(self) -> (i32, u32, u32) {
        (self.year, self.month, self.day)
    }

    /// The date that `s` names, with its weekday, as `new` builds it.
    pub open spec fn describes(self, s: Seq<char>) -> bool {
        &&& date_fields(s) == Some(self.key())
        &&& self.day_of_week@ == czech_weekday(weekday_from_monday(self.year, self.month, self.day))
    }

    /// Reads a date written `dd.mm.yyyy`; `None` where the text names no date.
    pub fn parse(date_string: &str) -> (r: Option<Date>)
        ensures
            r is Some <==> date_fields(date_string@) is Some,
            r matches Some(d) ==> d.describes(date_string@),
    {
        let v = chars_of(date_string);
        let parts = split_ranges(&v, '.');
        let ghost ps = split(v@, '.');
        let mut nums: Vec<u32> = Vec::new();
        let mut i: usize = 0;
        while i < parts.len()
            invariant
                ps == pieces(v@, parts@),
                ps == split(date_string@, '.'),
                forall|k: int| 0 <= k < parts@.len() ==> #[trigger] parts@[k].0 <= parts@[k].1 <= v@.len(),
                i <= parts@.len(),
                nums@.len() == i,
                forall|k: int| 0 <= k < i ==> parse_u32(#[trigger] ps[k]) == Some(nums@[k]),
            decreases parts@.len() - i,
        {
            let (a, b) = parts[i];
            match parse_u32_range(&v, a, b) {
                Some(n) => {
                    nums.push(n);
                },
                None => {
                    proof {
                        assert(ps[i as int] == v@.subrange(a as int, b as int));
                        assert(parse_u32(ps[i as int]) is None);
                    }
                    return None;
                },
            }
            i = i + 1;
        }
        if nums.len() < 3 {
            return None;
        }
        let day = nums[0];
        let month = nums[1];
        let year = nums[2] as i32;
        proof {
            assert(parse_u32(ps[0]) == Some(day));
            assert(parse_u32(ps[1]) == Some(month));
            assert(parse_u32(ps[2]) == Some(nums@[2]));
        }
        match utc_midnight_weekday(year, month, day) {
            Some(w) => Some(Date { year, month, day, day_of_week: czech_weekday_name(w) }),
            None => None,
        }
    }

    /// The date as it is written out: `dd.mm.yyyy` and the name of its weekday.
    pub fn to_text(&self) -> (r: String)
        requires
            valid_ymd(self.year as int, self.month as int, self.day as int),
        ensures
            r@ == date_text(self.year as int, self.month as nat, self.day as nat) + " "@ + self.day_of_week@,
    {
        let mut r = chrono_date_text(self.year, self.month, self.day);
        r.append(" ");
        r.append(self.day_of_week.as_str());
        r
    }

    /// Reads a date written `dd.mm.yyyy`.
    pub fn new(date_string: String) -> (r: Date)
        requires
            date_fields(date_string@) is Some,
        ensures
            r.describes(date_string@),
    {
        match Date::parse(date_string.as_str()) {
            Some(d) => d,
            None => {
                proof {
                    assert(false);
                }
                Date { year: 0, month: 0, day: 0, day_of_week: String::new() }
            },
        }
    }
}

impl PartialEq for Date {
    fn eq(&self, other: &Self) -> (r: bool) {
        self.year == other.year && self.month == other.month && self.day == other.day
    }
}

impl vstd::std_specs::cmp::PartialEqSpecImpl for Date {
    open spec fn obeys_eq_spec() -> bool {
        true
    }

    open spec fn eq_spec(&self, other: &Self) -> bool {
        self.key() == other.key()
    }
}

} // verus!
