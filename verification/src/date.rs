//! Calendar dates: parsed by chrono, then held as plain year, month and day.

use crate::text::{padded_spec, push_padded};
use chrono::{Datelike, NaiveDate};
use vstd::prelude::*;
use vstd::string::*;

verus! {

/// A calendar date. Dates are ordered by year, then month, then day.
#[derive(Clone, Copy, Debug, PartialEq, Eq, Structural, PartialOrd, Ord, Hash)]
pub struct Date {
    pub year: i32,
    pub month: u32,
    pub day: u32,
}

/// The format in which ledger files write their dates.
pub const DATE_FORMAT: &'static str = "%Y-%m-%d";

/// What chrono reads from `text` under the strftime-like `format`: the date,
/// or `None` where it reports a parse error.
pub uninterp spec fn chrono_parse_date(text: Seq<char>, format: Seq<char>) -> Option<Date>;

/// `chrono::NaiveDate::parse_from_str`, with the date handed back as year,
/// month and day, and `None` for chrono's parse error. All that is claimed
/// is that the result depends on the two texts alone.
#[verifier::external_body]
fn parse_from_str(text: &str, format: &str) -> (r: Option<Date>)
    ensures
        r == chrono_parse_date(text@, format@),
{
    match NaiveDate::parse_from_str(text, format) {
        Ok(d) => Some(Date { year: d.year(), month: d.month(), day: d.day() }),
        Err(_) => None,
    }
}

/// Whether `year` is a leap year of the proleptic Gregorian calendar.
pub open spec fn is_leap_year(year: int) -> bool {
    year % 4 == 0 && (year % 100 != 0 || year % 400 == 0)
}

/// The number of days of `month` in `year`; 0 where there is no such month.
pub open spec fn days_in_month(year: int, month: int) -> int {
    if month == 4 || month == 6 || month == 9 || month == 11 {
        30
    } else if month == 2 {
        if is_leap_year(year) {
            29
        } else {
            28
        }
    } else if 1 <= month <= 12 {
        31
    } else {
        0
    }
}

/// Whether year, month and day name a day of the calendar.
pub open spec fn is_calendar_day(year: int, month: int, day: int) -> bool {
    1 <= month <= 12 && 1 <= day <= days_in_month(year, month)
}

/// `a` is an earlier day than `b`.
pub open spec fn date_lt(a: Date, b: Date) -> bool {
    a.year < b.year || (a.year == b.year && (a.month < b.month || (a.month == b.month && a.day
        < b.day)))
}

/// `a` is `b` or an earlier day.
pub open spec fn date_le(a: Date, b: Date) -> bool {
    a == b || date_lt(a, b)
}

/// The sign that a year outside 0..=9999 is written with.
pub open spec fn year_sign(year: int) -> Seq<char> {
    if year < 0 {
        seq!['-']
    } else {
        seq!['+']
    }
}

/// A year as ISO 8601 writes it: four digits from 0 to 9999, otherwise a
/// sign and at least four digits.
pub open spec fn year_text(year: int) -> Seq<char> {
    if 0 <= year <= 9999 {
        padded_spec(year as nat, 4)
    } else {
        year_sign(year) + padded_spec((if year < 0 { -year } else { year }) as nat, 4)
    }
}

/// A date as `YYYY-MM-DD`.
pub open spec fn date_text(d: Date) -> Seq<char> {
    year_text(d.year as int) + seq!['-'] + padded_spec(d.month as nat, 2) + seq!['-']
        + padded_spec(d.day as nat, 2)
}

impl Date {
    /// The date with this year, month and day, if the calendar has it.
    pub fn from_ymd_opt(year: i32, month: u32, day: u32) -> (r: Option<Date>)
        ensures
            r == if is_calendar_day(year as int, month as int, day as int) {
                Some(Date { year, month, day })
            } else {
                None::<Date>
            },
    {
        if month < 1 || month > 12 || day < 1 {
            return None;
        }
        let leap = year % 4 == 0 && (year % 100 != 0 || year % 400 == 0);
        let days: u32 = if month == 4 || month == 6 || month == 9 || month == 11 {
            30
        } else if month == 2 {
            if leap {
                29
            } else {
                28
            }
        } else {
            31
        };
        if day <= days {
            Some(Date { year, month, day })
        } else {
            None
        }
    }

    /// Reads a date written as `YYYY-MM-DD`; `None` where chrono rejects the
    /// text.
    pub fn parse(text: &str) -> (r: Option<Date>)
        ensures
            r == chrono_parse_date(text@, DATE_FORMAT@),
    {
        parse_from_str(text, DATE_FORMAT)
    }

    /// `self` is an earlier day than `other`.
    pub fn lt(&self, other: &Date) -> (r: bool)
        ensures
            r == date_lt(*self, *other),
    {
        self.year < other.year || (self.year == other.year && (self.month < other.month || (
        self.month == other.month && self.day < other.day)))
    }

    /// `self` is `other` or an earlier day.
    pub fn le(&self, other: &Date) -> (r: bool)
        ensures
            r == date_le(*self, *other),
    {
        !other.lt(self)
    }

    /// Appends the date as `YYYY-MM-DD` to `out`.
    pub fn push_to(&self, out: &mut String)
        ensures
            final(out)@ == old(out)@ + date_text(*self),
    {
        let ghost before = out@;
        if 0 <= self.year && self.year <= 9999 {
            push_padded(out, self.year as u64, 4);
        } else if self.year < 0 {
            proof {
                reveal_strlit("-");
            }
            out.append("-");
            push_padded(out, (-(self.year as i64)) as u64, 4);
        } else {
            proof {
                reveal_strlit("+");
            }
            out.append("+");
            push_padded(out, self.year as u64, 4);
        }
        assert(out@ =~= before + year_text(self.year as int));
        proof {
            reveal_strlit("-");
        }
        out.append("-");
        push_padded(out, self.month as u64, 2);
        out.append("-");
        push_padded(out, self.day as u64, 2);
        assert(out@ =~= before + date_text(*self));
    }

    /// The date as `YYYY-MM-DD`.
    pub fn display(&self) -> (r: String)
        ensures
            r@ == date_text(*self),
    {
        let mut out = String::new();
        self.push_to(&mut out);
        out
    }
}

/// Dates are totally ordered: of two dates one is earlier, or they are the
/// same day.
pub proof fn lemma_date_order(a: Date, b: Date, c: Date)
    ensures
        date_le(a, a),
        date_le(a, b) || date_le(b, a),
        date_le(a, b) && date_le(b, a) ==> a == b,
        date_le(a, b) && date_le(b, c) ==> date_le(a, c),
        date_lt(a, b) <==> !date_le(b, a),
{
}

} // verus!
