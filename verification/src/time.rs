//! Times of day as the bar's clock and the notifications show them.
use vstd::prelude::*;

use crate::text::{two_digit, two_digit_string};

verus! {

/// A local time of day, to the minute.
#[derive(Clone, Copy, Debug, PartialEq, Eq, Structural)]
pub struct ClockTime {
    pub hour: u32,
    pub minute: u32,
}

/// The clock of the bar: the hour above the minute, each with two digits
/// (`%H` and `%M`).
pub fn date_time(time: ClockTime) -> (labels: (String, String))
    ensures
        labels.0@ == two_digit(time.hour as nat),
        labels.1@ == two_digit(time.minute as nat),
{
    (two_digit_string(time.hour), two_digit_string(time.minute))
}

/// A time written as `HH:MM` (`%H:%M`).
pub fn hour_minute(time: ClockTime) -> (label: String)
    ensures
        label@ == two_digit(time.hour as nat) + ":"@ + two_digit(time.minute as nat),
{
    let mut label = two_digit_string(time.hour);
    label.append(":");
    let minute = two_digit_string(time.minute);
    label.append(minute.as_str());
    label
}

} // verus!
