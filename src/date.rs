use chrono::Datelike;
use vstd::prelude::*;

verus! {

/// Smallest year that a calendar date of this library may carry.
pub const MIN_YEAR: i32 = -262143;

/// Largest year that a calendar date of this library may carry.
pub const MAX_YEAR: i32 = 262142;

/// A calendar date of the proleptic Gregorian calendar, without a time of day.
#[derive(Clone, Copy, Debug, PartialEq, Eq, Structural)]
pub struct Date {
    pub year: i32,
    pub month: u32,
    pub day: u32,
}

pub open spec fn is_leap_year(year: int) -> bool {
    (year % 4 == 0 && year % 100 != 0) || year % 400 == 0
}

pub open spec fn days_in_month(year: int, month: int) -> int {
    if month == 2 {
        if is_leap_year(year) {
            29
        } else {
            28
        }
    } else if month == 4 || month == 6 || month == 9 || month == 11 {
        30
    } else {
        31
    }
}

pub open spec fn is_valid_ymd(year: int, month: int, day: int) -> bool {
    &&& MIN_YEAR <= year <= MAX_YEAR
    &&& 1 <= month <= 12
    &&& 1 <= day <= days_in_month(year, month)
}

/// The decimal digit for `n`, for `n` below ten.
pub open spec fn digit_char(n: int) -> char {
    if n <= 0 {
        '0'
    } else if n == 1 {
        '1'
    } else if n == 2 {
        '2'
    } else if n == 3 {
        '3'
    } else if n == 4 {
        '4'
    } else if n == 5 {
        '5'
    } else if n == 6 {
        '6'
    } else if n == 7 {
        '7'
    } else if n == 8 {
        '8'
    } else {
        '9'
    }
}

/// The decimal digits of `n`, without leading zeros.
pub open spec fn decimal(n: nat) -> Seq<char>
    decreases n,
{
    if n < 10 {
        seq![digit_char(n as int)]
    } else {
        decimal(n / 10).push(digit_char((n % 10) as int))
    }
}

/// The decimal digits of `n`, padded with zeros to at least four.
pub open spec fn year_digits(n: int) -> Seq<char> {
    if n < 10000 {
        seq![
            digit_char(n / 1000),
            digit_char((n / 100) % 10),
            digit_char((n / 10) % 10),
            digit_char(n % 10),
        ]
    } else {
        decimal(n as nat)
    }
}

/// Two decimal digits of `n`, for `n` below one hundred.
pub open spec fn two_digits(n: int) -> Seq<char> {
    seq![digit_char(n / 10), digit_char(n % 10)]
}

/// The year as ISO 8601 writes it: four digits for the years 0 to 9999, and an explicit sign
/// before at least four digits for the others.
pub open spec fn year_text(year: int) -> Seq<char> {
    if 0 <= year <= 9999 {
        year_digits(year)
    } else if year < 0 {
        seq!['-'] + year_digits(-year)
    } else {
        seq!['+'] + year_digits(year)
    }
}

/// The canonical text of a date, `YYYY-MM-DD`.
pub open spec fn date_text(d: Date) -> Seq<char> {
    year_text(d.year as int) + seq!['-'] + two_digits(d.month as int) + seq!['-'] + two_digits(
        d.day as int,
    )
}

impl Date {
    /// The date names a day that exists in the calendar.
    pub open spec fn wf(self) -> bool {
        is_valid_ymd(self.year as int, self.month as int, self.day as int)
    }

    /// Chronological order, which for valid dates is the order of (year, month, day).
    pub open spec fn before(self, other: Date) -> bool {
        ||| self.year < other.year
        ||| self.year == other.year && self.month < other.month
        ||| self.year == other.year && self.month == other.month && self.day < other.day
    }

    /// The date for the given year, month and day, if that day exists.
    pub fn from_ymd(year: i32, month: u32, day: u32) -> (r: Option<Date>)
        ensures
            r is Some <==> is_valid_ymd(year as int, month as int, day as int),
            r matches Some(d) ==> d == (Date { year, month, day }),
    {
        if year < MIN_YEAR || year > MAX_YEAR || month < 1 || month > 12 || day < 1 {
            return None;
        }
        if day > month_length(year, month) {
            None
        } else {
            Some(Date { year, month, day })
        }
    }

    /// Whether `self` falls strictly earlier than `other`.
    pub fn is_before(&self, other: &Date) -> (r: bool)
        ensures
            r == self.before(*other),
    {
        self.year < other.year || (self.year == other.year && (self.month < other.month || (
        self.month == other.month && self.day < other.day)))
    }

    /// The canonical text of the date, `YYYY-MM-DD`.
    pub fn to_iso_string(&self) -> (r: String)
        requires
            self.wf(),
        ensures
            r@ == date_text(*self),
    {
        let mut text = String::new();
        if self.year >= 0 && self.year <= 9999 {
            push_year_digits(&mut text, self.year as u32);
        } else if self.year < 0 {
            text.append("-");
            proof {
                reveal_strlit("-");
            }
            push_year_digits(&mut text, (-(self.year as i64)) as u32);
        } else {
            text.append("+");
            proof {
                reveal_strlit("+");
            }
            push_year_digits(&mut text, self.year as u32);
        }
        text.append("-");
        proof {
            reveal_strlit("-");
        }
        push_two_digits(&mut text, self.month);
        text.append("-");
        push_two_digits(&mut text, self.day);
        proof {
            assert(text@ =~= date_text(*self));
        }
        text
    }
}

fn digit_str(n: u32) -> (r: &'static str)
    requires
        n < 10,
    ensures
        r@ == seq![digit_char(n as int)],
{
    proof {
        reveal_strlit("0");
        reveal_strlit("1");
        reveal_strlit("2");
        reveal_strlit("3");
        reveal_strlit("4");
        reveal_strlit("5");
        reveal_strlit("6");
        reveal_strlit("7");
        reveal_strlit("8");
        reveal_strlit("9");
    }
    if n == 0 {
        "0"
    } else if n == 1 {
        "1"
    } else if n == 2 {
        "2"
    } else if n == 3 {
        "3"
    } else if n == 4 {
        "4"
    } else if n == 5 {
        "5"
    } else if n == 6 {
        "6"
    } else if n == 7 {
        "7"
    } else if n == 8 {
        "8"
    } else {
        "9"
    }
}

fn push_decimal(text: &mut String, n: u32)
    ensures
        final(text)@ == old(text)@ + decimal(n as nat),
    decreases n,
{
    if n >= 10 {
        push_decimal(text, n / 10);
    }
    text.append(digit_str(n % 10));
    proof {
        assert(final(text)@ =~= old(text)@ + decimal(n as nat));
    }
}

fn push_year_digits(text: &mut String, n: u32)
    ensures
        final(text)@ == old(text)@ + year_digits(n as int),
{
    if n < 10000 {
        text.append(digit_str(n / 1000));
        text.append(digit_str((n / 100) % 10));
        text.append(digit_str((n / 10) % 10));
        text.append(digit_str(n % 10));
        proof {
            assert(final(text)@ =~= old(text)@ + year_digits(n as int));
        }
    } else {
        push_decimal(text, n);
    }
}

fn push_two_digits(text: &mut String, n: u32)
    requires
        n < 100,
    ensures
        final(text)@ == old(text)@ + two_digits(n as int),
{
    text.append(digit_str(n / 10));
    text.append(digit_str(n % 10));
    proof {
        assert(final(text)@ =~= old(text)@ + two_digits(n as int));
    }
}

fn leap_year(year: i32) -> (r: bool)
    requires
        MIN_YEAR <= year <= MAX_YEAR,
    ensures
        r == is_leap_year(year as int),
{
    // Shift by a multiple of 400 so that the remainders are taken of a natural number.
    let shifted: u32 = (year as i64 + 400000) as u32;
    (shifted % 4 == 0 && shifted % 100 != 0) || shifted % 400 == 0
}

fn month_length(year: i32, month: u32) -> (r: u32)
    requires
        MIN_YEAR <= year <= MAX_YEAR,
    ensures
        r as int == days_in_month(year as int, month as int),
{
    if month == 2 {
        if leap_year(year) {
            29
        } else {
            28
        }
    } else if month == 4 || month == 6 || month == 9 || month == 11 {
        30
    } else {
        31
    }
}

/// The pattern of the canonical date text, in chrono's notation.
pub open spec fn iso_pattern() -> Seq<char> {
    "%Y-%m-%d"@
}

/// The date that chrono reads from `text` with the pattern `pattern`, if it reads one.
pub uninterp spec fn parsed_date(text: Seq<char>, pattern: Seq<char>) -> Option<Date>;

/// Relies on chrono's `NaiveDate::parse_from_str`: the outcome depends on the text and the
/// pattern alone; a date it returns exists in the calendar and lies within chrono's years; and
/// with the pattern `%Y-%m-%d` it reads the text that chrono's `Display` writes of a date, which
/// `date_text` states, back as that date.
#[verifier::external_body]
pub(crate) fn parse_date(text: &str, pattern: &str) -> (r: Option<Date>)
    ensures
        r == parsed_date(text@, pattern@),
        r matches Some(d) ==> d.wf(),
        pattern@ == iso_pattern() ==> forall|d: Date|
            d.wf() && #[trigger] date_text(d) == text@ ==> r == Some(d),
{
    match chrono::NaiveDate::parse_from_str(text, pattern) {
        Ok(d) => Some(Date { year: d.year(), month: d.month(), day: d.day() }),
        Err(_) => None,
    }
}

/// Relies on chrono's `Local::now`: the calendar date of the local clock, which always lies
/// within chrono's years and exists in the calendar.
#[verifier::external_body]
pub(crate) fn today() -> (r: Date)
    ensures
        r.wf(),
{
    let d = chrono::Local::now().date_naive();
    Date { year: d.year(), month: d.month(), day: d.day() }
}

} // verus!
