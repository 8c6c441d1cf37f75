//! The local date and time at which a post is written.

use vstd::prelude::*;
use chrono::Datelike;
use crate::path::{two_digit_text, year_text};

verus! {

/// A moment in local time: the calendar date, and the full ISO-8601 text
/// that goes into a post's metadata header.
#[derive(Debug)]
pub struct Timestamp {
    pub day: u32,
    pub month: u32,
    pub year: i32,
    /// An ISO timestamp string. Example: `2022-05-11T15:15:56.123456789+00:00`
    pub timestamp: String,
}

impl Timestamp {
    /// The date and time now, in the machine's local time zone.
    ///
    /// Relies on `chrono::Local::now`, whose `day` lies in `1..=31` and whose
    /// `month` lies in `1..=12`; the text is its `Debug` rendering, which for
    /// the years `0..=9999` starts with the ISO-8601 date of that same moment
    /// and a `T`.
    #[verifier::external_body]
    pub fn now() -> (r: Timestamp)
        ensures
            1 <= r.day <= 31,
            1 <= r.month <= 12,
            0 <= r.year <= 9999 ==> r.timestamp@.len() >= 11 && r.timestamp@.take(11)
                == year_text(r.year as int) + "-"@ + two_digit_text(r.month as nat) + "-"@
                + two_digit_text(r.day as nat) + "T"@,
    {
        let dt = chrono::Local::now();
        Timestamp { day: dt.day(), month: dt.month(), year: dt.year(), timestamp: format!("{:?}", dt) }
    }
}

} // verus!
