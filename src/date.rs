//! Calendar days, for the window of recent activity that responsiveness counts.

use vstd::prelude::*;
use chrono::Datelike;
use crate::text::{digit_char, push_char, push_digit};

verus! {

/// A calendar day: year, month from 1, day of the month from 1.
pub struct Date {
    pub year: i32,
    pub month: u32,
    pub day: u32,
}

/// The day that `chrono` reaches `days` days before the given one, as year, month
/// and day.
pub uninterp spec fn days_earlier(year: i32, month: u32, day: u32, days: u64) -> Option<
    (i32, u32, u32),
>;

/// Relies on `chrono::NaiveDate::from_ymd_opt` (`None` for a day that does not
/// exist), `NaiveDate::checked_sub_days` (`None` out of chrono's range), and
/// `Datelike::year`, `Datelike::month` (1 to 12) and `Datelike::day` (1 to 31) of
/// the day it reaches.
#[verifier::external_body]
fn sub_days(year: i32, month: u32, day: u32, days: u64) -> (r: Option<(i32, u32, u32)>)
    ensures
        r == days_earlier(year, month, day, days),
        match r {
            Some((_, m, d)) => 1 <= m <= 12 && 1 <= d <= 31,
            None => true,
        },
{
    let d = chrono::NaiveDate::from_ymd_opt(year, month, day)?.checked_sub_days(
        chrono::Days::new(days),
    )?;
    Some((d.year(), d.month(), d.day()))
}

/// A day written `YYYY-MM-DD`.
pub open spec fn iso_date_text(year: int, month: int, day: int) -> Seq<char> {
    seq![
        digit_char((year / 1000) as nat),
        digit_char((year / 100 % 10) as nat),
        digit_char((year / 10 % 10) as nat),
        digit_char((year % 10) as nat),
        '-',
        digit_char((month / 10) as nat),
        digit_char((month % 10) as nat),
        '-',
        digit_char((day / 10) as nat),
        digit_char((day % 10) as nat),
    ]
}

impl Date {
    pub fn new(year: i32, month: u32, day: u32) -> (r: Date)
        ensures
            r == (Date { year, month, day }),
    {
        Date { year, month, day }
    }

    /// The day `days` days before this one, written `YYYY-MM-DD`: `None` when this is
    /// no day of the calendar, or the day reached lies outside years 0 to 9999.
    pub fn days_before(&self, days: u64) -> (r: Option<String>)
        ensures
            match days_earlier(self.year, self.month, self.day, days) {
                Some(ymd) => if 0 <= ymd.0 <= 9999 {
                    r is Some && r->0@ == iso_date_text(ymd.0 as int, ymd.1 as int, ymd.2 as int)
                } else {
                    r is None
                },
                None => r is None,
            },
    {
        let (y, m, d) = match sub_days(self.year, self.month, self.day, days) {
            Some(ymd) => ymd,
            None => return None,
        };
        if y < 0 || y > 9999 {
            return None;
        }
        let y = y as u32;
        let mut s = String::new();
        push_digit(&mut s, y / 1000);
        push_digit(&mut s, y / 100 % 10);
        push_digit(&mut s, y / 10 % 10);
        push_digit(&mut s, y % 10);
        push_char(&mut s, '-');
        push_digit(&mut s, m / 10);
        push_digit(&mut s, m % 10);
        push_char(&mut s, '-');
        push_digit(&mut s, d / 10);
        push_digit(&mut s, d % 10);
        assert(s@ =~= iso_date_text(y as int, m as int, d as int));
        Some(s)
    }
}

} // verus!
