use chrono::Datelike;
use vstd::prelude::*;

use crate::error::OracleError;

verus! {

/// The largest year a `CalendarDate` holds: its text form has four year digits.
pub const MAX_YEAR: u32 = 9999;

pub open spec fn is_leap_year(y: int) -> bool {
    (y % 4 == 0 && y % 100 != 0) || y % 400 == 0
}

pub open spec fn days_in_month(y: int, m: int) -> int {
    if m == 2 {
        if is_leap_year(y) { 29 } else { 28 }
    } else if m == 4 || m == 6 || m == 9 || m == 11 {
        30
    } else {
        31
    }
}

/// A day that exists in the proleptic Gregorian calendar.
pub open spec fn is_calendar_date(y: int, m: int, d: int) -> bool {
    1 <= m <= 12 && 1 <= d <= days_in_month(y, m)
}

/// The day before `(y, m, d)`.
pub open spec fn previous_day(y: int, m: int, d: int) -> (int, int, int) {
    if d > 1 {
        (y, m, d - 1)
    } else if m > 1 {
        (y, m - 1, days_in_month(y, m - 1))
    } else {
        (y - 1, 12, 31)
    }
}

/// The day `n` whole days before `(y, m, d)`.
pub open spec fn days_back(y: int, m: int, d: int, n: nat) -> (int, int, int)
    decreases n,
{
    if n == 0 {
        (y, m, d)
    } else {
        let p = previous_day(y, m, d);
        days_back(p.0, p.1, p.2, (n - 1) as nat)
    }
}

/// A calendar day of the years 0 to 9999.
#[derive(Debug, Clone, Copy, PartialEq, Eq, Structural)]
pub struct CalendarDate {
    pub year: u32,
    pub month: u32,
    pub day: u32,
}

impl CalendarDate {
    pub open spec fn wf(&self) -> bool {
        self.year <= MAX_YEAR && is_calendar_date(self.year as int, self.month as int, self.day as int)
    }

    /// The date with these fields, if it exists and its year has at most four digits.
    pub fn from_ymd(year: u32, month: u32, day: u32) -> (r: Option<CalendarDate>)
        ensures
            r is Some <==> (year <= MAX_YEAR && is_calendar_date(year as int, month as int, day as int)),
            r matches Some(date) ==> date.wf() && date == (CalendarDate { year, month, day }),
    {
        if year > MAX_YEAR {
            return None;
        }
        if chrono_date_exists(year, month, day) {
            Some(CalendarDate { year, month, day })
        } else {
            None
        }
    }
}

/// Relies on chrono::NaiveDate::from_ymd_opt: within chrono's range of years it
/// accepts exactly the days of the proleptic Gregorian calendar.
#[verifier::external_body]
fn chrono_date_exists(year: u32, month: u32, day: u32) -> (r: bool)
    requires
        year <= MAX_YEAR,
    ensures
        r == is_calendar_date(year as int, month as int, day as int),
{
    chrono::NaiveDate::from_ymd_opt(year as i32, month, day).is_some()
}

/// Relies on chrono::NaiveDate::checked_sub_signed with chrono::Duration::days:
/// the date that many whole days earlier, or None where it leaves chrono's range
/// (years -262143 to 262142), which holds every year from 0 on.
#[verifier::external_body]
fn chrono_days_before(year: u32, month: u32, day: u32, days: u32) -> (r: Option<(i32, u32, u32)>)
    requires
        year <= MAX_YEAR,
        is_calendar_date(year as int, month as int, day as int),
    ensures
        r matches Some(t) ==> (t.0 as int, t.1 as int, t.2 as int) == days_back(
            year as int,
            month as int,
            day as int,
            days as nat,
        ),
        days_back(year as int, month as int, day as int, days as nat).0 >= 0 ==> r is Some,
{
    let date = chrono::NaiveDate::from_ymd_opt(year as i32, month, day)?;
    let back = date.checked_sub_signed(chrono::Duration::days(days as i64))?;
    Some((back.year(), back.month(), back.day()))
}

proof fn lemma_previous_day_exists(y: int, m: int, d: int)
    requires
        is_calendar_date(y, m, d),
    ensures
        is_calendar_date(previous_day(y, m, d).0, previous_day(y, m, d).1, previous_day(y, m, d).2),
{
}

proof fn lemma_days_back_exists(y: int, m: int, d: int, n: nat)
    requires
        is_calendar_date(y, m, d),
    ensures
        is_calendar_date(days_back(y, m, d, n).0, days_back(y, m, d, n).1, days_back(y, m, d, n).2),
    decreases n,
{
    if n > 0 {
        lemma_previous_day_exists(y, m, d);
        let p = previous_day(y, m, d);
        lemma_days_back_exists(p.0, p.1, p.2, (n - 1) as nat);
    }
}

proof fn lemma_days_back_year_not_later(y: int, m: int, d: int, n: nat)
    ensures
        days_back(y, m, d, n).0 <= y,
    decreases n,
{
    if n > 0 {
        let p = previous_day(y, m, d);
        lemma_days_back_year_not_later(p.0, p.1, p.2, (n - 1) as nat);
    }
}

/// The date `n` whole days before `date`; `CalendarUnderflow` exactly where that
/// day falls before year 0.
pub fn days_before(date: &CalendarDate, n: u32) -> (r: Result<CalendarDate, OracleError>)
    requires
        date.wf(),
    ensures
        r matches Ok(back) ==> back.wf() && (back.year as int, back.month as int, back.day as int)
            == days_back(date.year as int, date.month as int, date.day as int, n as nat),
        r matches Err(e) ==> e == OracleError::CalendarUnderflow,
        r is Ok <==> days_back(date.year as int, date.month as int, date.day as int, n as nat).0 >= 0,
{
    proof {
        lemma_days_back_year_not_later(date.year as int, date.month as int, date.day as int, n as nat);
    }
    match chrono_days_before(date.year, date.month, date.day, n) {
        Some((y, m, d)) => {
            proof {
                lemma_days_back_exists(date.year as int, date.month as int, date.day as int, n as nat);
            }
            if y < 0 {
                Err(OracleError::CalendarUnderflow)
            } else {
                Ok(CalendarDate { year: y as u32, month: m, day: d })
            }
        },
        None => Err(OracleError::CalendarUnderflow),
    }
}

pub open spec fn is_digit(c: char) -> bool {
    '0' <= c <= '9'
}

pub open spec fn digit_value(c: char) -> int {
    c as int - '0' as int
}

pub open spec fn digit_char(n: int) -> char {
    ((n + 48) as u8) as char
}

pub open spec fn two_digit_value(s: Seq<char>, i: int) -> int {
    10 * digit_value(s[i]) + digit_value(s[i + 1])
}

/// Text of the shape `DD-MM-YYYY`: ten characters, digits but for the two hyphens.
pub open spec fn is_date_text(s: Seq<char>) -> bool {
    &&& s.len() == 10
    &&& s[2] == '-' && s[5] == '-'
    &&& forall|i: int| 0 <= i < 10 && i != 2 && i != 5 ==> #[trigger] is_digit(s[i])
}

/// The `(year, month, day)` that text of the shape `DD-MM-YYYY` names.
pub open spec fn date_text_fields(s: Seq<char>) -> (int, int, int) {
    (100 * two_digit_value(s, 6) + two_digit_value(s, 8), two_digit_value(s, 3), two_digit_value(s, 0))
}

/// The date that `s` denotes: `s` has the shape `DD-MM-YYYY` and names a real day.
pub open spec fn parsed_date(s: Seq<char>) -> Option<(int, int, int)> {
    let f = date_text_fields(s);
    if is_date_text(s) && is_calendar_date(f.0, f.1, f.2) {
        Some(f)
    } else {
        None
    }
}

/// `(year, month, day)` written as `DD-MM-YYYY`, zero-padded.
pub open spec fn date_text(y: int, m: int, d: int) -> Seq<char> {
    seq![
        digit_char(d / 10), digit_char(d % 10), '-',
        digit_char(m / 10), digit_char(m % 10), '-',
        digit_char(y / 1000), digit_char(y / 100 % 10), digit_char(y / 10 % 10), digit_char(y % 10),
    ]
}

fn digit_text(d: u32) -> (r: &'static str)
    requires
        d < 10,
    ensures
        r@ == seq![digit_char(d as int)],
{
    if d == 0 {
        proof {
            reveal_strlit("0");
        }
        "0"
    } else if d == 1 {
        proof {
            reveal_strlit("1");
        }
        "1"
    } else if d == 2 {
        proof {
            reveal_strlit("2");
        }
        "2"
    } else if d == 3 {
        proof {
            reveal_strlit("3");
        }
        "3"
    } else if d == 4 {
        proof {
            reveal_strlit("4");
        }
        "4"
    } else if d == 5 {
        proof {
            reveal_strlit("5");
        }
        "5"
    } else if d == 6 {
        proof {
            reveal_strlit("6");
        }
        "6"
    } else if d == 7 {
        proof {
            reveal_strlit("7");
        }
        "7"
    } else if d == 8 {
        proof {
            reveal_strlit("8");
        }
        "8"
    } else {
        proof {
            reveal_strlit("9");
        }
        "9"
    }
}

fn push_two_digits(s: &mut String, n: u32)
    requires
        n <= 99,
    ensures
        final(s)@ == old(s)@ + seq![digit_char(n as int / 10), digit_char(n as int % 10)],
{
    let ghost start = s@;
    s.append(digit_text(n / 10));
    s.append(digit_text(n % 10));
    assert(s@ =~= start + seq![digit_char(n as int / 10), digit_char(n as int % 10)]);
}

/// Renders a date as `DD-MM-YYYY`.
pub fn format_date_dd_mm_yyyy(date: &CalendarDate) -> (r: String)
    requires
        date.wf(),
    ensures
        r@ == date_text(date.year as int, date.month as int, date.day as int),
{
    let mut s = String::new();
    push_two_digits(&mut s, date.day);
    proof {
        reveal_strlit("-");
    }
    s.append("-");
    push_two_digits(&mut s, date.month);
    s.append("-");
    push_two_digits(&mut s, date.year / 100);
    push_two_digits(&mut s, date.year % 100);
    assert(s@ =~= date_text(date.year as int, date.month as int, date.day as int));
    s
}

fn digit_at(s: &str, i: usize) -> (r: Option<u32>)
    requires
        i < s@.len(),
    ensures
        r is Some <==> is_digit(s@[i as int]),
        r matches Some(v) ==> v as int == digit_value(s@[i as int]),
{
    let c = s.get_char(i);
    if '0' <= c && c <= '9' {
        Some(c as u32 - '0' as u32)
    } else {
        None
    }
}

/// Parses a date written exactly as `DD-MM-YYYY`; anything else, and a day that
/// does not exist, is `InvalidDate`.
pub fn parse_date_dd_mm_yyyy(s: &str) -> (r: Result<CalendarDate, OracleError>)
    ensures
        r matches Ok(date) ==> date.wf() && parsed_date(s@) == Some(
            (date.year as int, date.month as int, date.day as int),
        ),
        r matches Err(e) ==> e == OracleError::InvalidDate && parsed_date(s@) is None,
{
    if s.unicode_len() != 10 || s.get_char(2) != '-' || s.get_char(5) != '-' {
        return Err(OracleError::InvalidDate);
    }
    let mut digits: Vec<u32> = Vec::new();
    let mut i: usize = 0;
    while i < 10
        invariant
            s@.len() == 10,
            i <= 10,
            digits@.len() == i,
            forall|j: int| 0 <= j < i ==> (j == 2 || j == 5 || is_digit(s@[j])),
            forall|j: int|
                0 <= j < i && j != 2 && j != 5 ==> digits@[j] as int == digit_value(#[trigger] s@[j]),
        decreases 10 - i,
    {
        if i == 2 || i == 5 {
            digits.push(0);
        } else {
            match digit_at(s, i) {
                Some(v) => digits.push(v),
                None => return Err(OracleError::InvalidDate),
            }
        }
        i += 1;
    }
    let day = 10 * digits[0] + digits[1];
    let month = 10 * digits[3] + digits[4];
    let year = 1000 * digits[6] + 100 * digits[7] + 10 * digits[8] + digits[9];
    assert(is_date_text(s@));
    match CalendarDate::from_ymd(year, month, day) {
        Some(date) => Ok(date),
        None => Err(OracleError::InvalidDate),
    }
}

proof fn lemma_digit_char_of_value(c: char)
    requires
        is_digit(c),
    ensures
        digit_char(digit_value(c)) == c,
{
    let v = c as u32;
    assert(48 <= v <= 57);
    assert((((v - 48 + 48) as u8) as char) == c);
}

/// Parsing text of the shape `DD-MM-YYYY` that names a real day, then writing that
/// day out again, gives back the same text.
pub proof fn lemma_parse_then_format(s: Seq<char>)
    requires
        parsed_date(s) is Some,
    ensures
        date_text(parsed_date(s).unwrap().0, parsed_date(s).unwrap().1, parsed_date(s).unwrap().2)
            =~= s,
{
    assert(is_digit(s[0]) && is_digit(s[1]) && is_digit(s[3]) && is_digit(s[4]));
    assert(is_digit(s[6]) && is_digit(s[7]) && is_digit(s[8]) && is_digit(s[9]));
    lemma_digit_char_of_value(s[0]);
    lemma_digit_char_of_value(s[1]);
    lemma_digit_char_of_value(s[3]);
    lemma_digit_char_of_value(s[4]);
    lemma_digit_char_of_value(s[6]);
    lemma_digit_char_of_value(s[7]);
    lemma_digit_char_of_value(s[8]);
    lemma_digit_char_of_value(s[9]);
    let (y, m, d) = parsed_date(s).unwrap();
    let (a, b, c, e) = (digit_value(s[6]), digit_value(s[7]), digit_value(s[8]), digit_value(s[9]));
    assert(y == 1000 * a + 100 * b + 10 * c + e);
    assert(y / 1000 == a && y / 100 % 10 == b && y / 10 % 10 == c && y % 10 == e) by (nonlinear_arith)
        requires
            y == 1000 * a + 100 * b + 10 * c + e,
            0 <= a <= 9, 0 <= b <= 9, 0 <= c <= 9, 0 <= e <= 9,
    ;
}

} // verus!
