//! Events that have been quantised to a cell of the space-time grid.

use crate::grid::GridCell;
use crate::spacetime::SpaceTimeCell;
use chrono::{Datelike, NaiveDateTime, Timelike};
use vstd::prelude::*;

verus! {

/// `chrono::NaiveDateTime`, a calendar date and time of day without a time
/// zone. Nothing inside it is visible here.
#[verifier::external_type_specification]
#[verifier::external_body]
pub struct ExNaiveDateTime(chrono::NaiveDateTime);

/// What `chrono::Datelike::num_days_from_ce` returns for a moment: the
/// number of its day in the proleptic Gregorian calendar, where 1 January of
/// year 1 is day 1. It depends on the moment alone.
pub uninterp spec fn calendar_day(moment: NaiveDateTime) -> int;

/// What `chrono::Timelike::hour` returns for a moment: its hour of the day.
/// It depends on the moment alone.
pub uninterp spec fn calendar_hour(moment: NaiveDateTime) -> int;

/// Calls `chrono::Datelike::num_days_from_ce` on a `NaiveDateTime`. The
/// claim is that the result is the day that the calendar gives the moment;
/// nothing is claimed of the number itself.
#[verifier::external_body]
fn days_from_ce(moment: &NaiveDateTime) -> (days: i32)
    ensures
        days == calendar_day(*moment),
{
    moment.num_days_from_ce()
}

/// Calls `chrono::Timelike::hour` on a `NaiveDateTime`. The claim is that
/// the result is the hour that the calendar gives the moment, and that it
/// lies in the documented range, 0 to 23.
#[verifier::external_body]
fn hour_of_day(moment: &NaiveDateTime) -> (hour: u32)
    ensures
        hour < 24,
        hour == calendar_hour(*moment),
{
    moment.hour()
}

/// An event that has been quantised to occur in a spatiotemporal cell. All
/// events are of one kind.
#[derive(Debug, Clone, Copy, PartialEq, Eq, Structural)]
pub struct QuantizedEvent {
    pub location: SpaceTimeCell,
}

impl View for QuantizedEvent {
    type V = GridCell;

    open spec fn view(&self) -> GridCell {
        self.location@
    }
}

/// The number of an hour, counted from the start of day zero.
pub open spec fn hour_number(days_from_ce: int, hour: int) -> int {
    days_from_ce * 24 + hour
}

/// The event in column `x` and row `y` at the given hour of the given day,
/// where the day is not negative and the number of the hour fits a cell's
/// time.
pub open spec fn event_at(days_from_ce: int, hour: int, x: u16, y: u16) -> Option<QuantizedEvent> {
    if days_from_ce >= 0 && 0 <= hour_number(days_from_ce, hour) <= u32::MAX {
        Some(
            QuantizedEvent {
                location: SpaceTimeCell {
                    cell_t: hour_number(days_from_ce, hour) as u32,
                    cell_y: y,
                    cell_x: x,
                },
            },
        )
    } else {
        None
    }
}

impl QuantizedEvent {
    /// The event in column `x` and row `y` whose time slice is the given
    /// hour of the given day; `None` where the day is negative or the number
    /// of the hour does not fit a cell's time.
    pub fn from_day_and_hour(days_from_ce: i32, hour: u32, x: u16, y: u16) -> (event: Option<
        QuantizedEvent,
    >)
        ensures
            event == event_at(days_from_ce as int, hour as int, x, y),
    {
        if days_from_ce < 0 {
            return None;
        }
        let number: u64 = (days_from_ce as u64) * 24 + (hour as u64);
        if number > u32::MAX as u64 {
            return None;
        }
        Some(
            QuantizedEvent {
                location: SpaceTimeCell { cell_t: number as u32, cell_y: y, cell_x: x },
            },
        )
    }

    /// The event in column `x` and row `y` whose time slice is the hour in
    /// which `end` falls: the hour of the day that the calendar gives `end`,
    /// on the day that it gives `end`. `None` where that day is negative or
    /// the number of the hour does not fit a cell's time.
    pub fn from_end_time(end: &NaiveDateTime, x: u16, y: u16) -> (event: Option<QuantizedEvent>)
        ensures
            event == event_at(calendar_day(*end), calendar_hour(*end), x, y),
            0 <= calendar_hour(*end) < 24,
    {
        let days = days_from_ce(end);
        let hour = hour_of_day(end);
        QuantizedEvent::from_day_and_hour(days, hour, x, y)
    }
}

} // verus!
