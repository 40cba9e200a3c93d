//! The calendar day that the clock of the machine shows.

use crate::header::CalendarDate;
use chrono::Datelike;
use vstd::prelude::*;

verus! {

/// Reads the clock with `chrono::Local::now` and takes the day, the month
/// and the year of the local date with `Datelike::day`, `Datelike::month`
/// and `Datelike::year`. The contract claims what chrono documents of every
/// date: the month lies between 1 and 12 and the day between 1 and 31.
/// Nothing is claimed of which day it is. `Local::now` does not return where
/// the clock of the machine stands before the year 1970.
#[verifier::external_body]
pub(crate) fn today() -> (date: CalendarDate)
    ensures
        date.is_valid(),
{
    let now = chrono::Local::now();
    CalendarDate { day: now.day(), month: now.month(), year: now.year() }
}

} // verus!
