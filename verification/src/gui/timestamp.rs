//! How the page picker shows when a note was last modified: "Today 1:08 PM",
//! "Yesterday 9:30 AM", "Jul 3" within the current year, else "2026-07-03".
//! The calendar days (in local time) come from the caller.
use vstd::prelude::*;
use crate::text::{decimal, decimal_of, push_all, push_str, string_of};

verus! {

/// A calendar day.
#[derive(Debug, Clone, Copy, PartialEq, Eq, Structural)]
pub struct CalendarDay {
    pub year: u32,
    /// 1 to 12.
    pub month: u32,
    pub day: u32,
}

/// Two digits, zero-padded.
pub open spec fn two_digits(n: nat) -> Seq<char> {
    if n < 10 {
        seq!['0'] + decimal(n)
    } else {
        decimal(n)
    }
}

/// A year zero-padded to four digits, with a `+` when it has more.
pub open spec fn year_text(y: nat) -> Seq<char> {
    if y < 10 {
        "000"@ + decimal(y)
    } else if y < 100 {
        "00"@ + decimal(y)
    } else if y < 1000 {
        "0"@ + decimal(y)
    } else if y < 10000 {
        decimal(y)
    } else {
        "+"@ + decimal(y)
    }
}

/// The abbreviated English month name.
pub open spec fn month_abbr(m: nat) -> Seq<char> {
    if m == 1 { "Jan"@ } else if m == 2 { "Feb"@ } else if m == 3 { "Mar"@ } else if m == 4 {
        "Apr"@
    } else if m == 5 { "May"@ } else if m == 6 { "Jun"@ } else if m == 7 { "Jul"@ } else if m
        == 8 { "Aug"@ } else if m == 9 { "Sep"@ } else if m == 10 { "Oct"@ } else if m == 11 {
        "Nov"@
    } else { "Dec"@ }
}

/// A time of day on the 12-hour clock: hour without padding, minutes, AM/PM.
pub open spec fn clock_text(hour: nat, minute: nat) -> Seq<char> {
    let h = if hour % 12 == 0 { 12 } else { hour % 12 };
    decimal(h) + ":"@ + two_digits(minute) + (if hour < 12 { " AM"@ } else { " PM"@ })
}

/// The text for a modification on day `when` at `hour:minute`, seen on day
/// `today` whose previous day is `yesterday` (`None` when it has none).
pub open spec fn timestamp_of(
    when: CalendarDay,
    hour: nat,
    minute: nat,
    today: CalendarDay,
    yesterday: Option<CalendarDay>,
) -> Seq<char> {
    if when == today {
        "Today "@ + clock_text(hour, minute)
    } else if yesterday == Some(when) {
        "Yesterday "@ + clock_text(hour, minute)
    } else if when.year == today.year {
        month_abbr(when.month as nat) + " "@ + decimal(when.day as nat)
    } else {
        year_text(when.year as nat) + "-"@ + two_digits(when.month as nat) + "-"@ + two_digits(
            when.day as nat,
        )
    }
}

fn two_digits_exec(n: u32, out: &mut Vec<char>)
    ensures
        final(out)@ == old(out)@ + two_digits(n as nat),
{
    if n < 10 {
        out.push('0');
    }
    let d = decimal_of(n as usize);
    push_all(out, d.as_slice());
}

fn clock_exec(hour: u32, minute: u32, out: &mut Vec<char>)
    ensures
        final(out)@ == old(out)@ + clock_text(hour as nat, minute as nat),
{
    let h = if hour % 12 == 0 { 12 } else { hour % 12 };
    let d = decimal_of(h as usize);
    push_all(out, d.as_slice());
    push_str(out, ":");
    two_digits_exec(minute, out);
    if hour < 12 {
        push_str(out, " AM");
    } else {
        push_str(out, " PM");
    }
}

fn month_exec(m: u32) -> (r: &'static str)
    ensures
        r@ == month_abbr(m as nat),
{
    if m == 1 { "Jan" } else if m == 2 { "Feb" } else if m == 3 { "Mar" } else if m == 4 {
        "Apr"
    } else if m == 5 { "May" } else if m == 6 { "Jun" } else if m == 7 { "Jul" } else if m
        == 8 { "Aug" } else if m == 9 { "Sep" } else if m == 10 { "Oct" } else if m == 11 {
        "Nov"
    } else { "Dec" }
}

/// Format a modification time the way the picker shows it: "Today 1:08 PM",
/// "Yesterday 9:30 AM", "Jul 3" within the current year, else "2026-07-03"
/// (see `timestamp_of`).
pub fn timestamp_text(
    when: CalendarDay,
    hour: u32,
    minute: u32,
    today: CalendarDay,
    yesterday: Option<CalendarDay>,
) -> (r: String)
    ensures
        r@ == timestamp_of(when, hour as nat, minute as nat, today, yesterday),
{
    let mut out: Vec<char> = Vec::new();
    let is_yesterday = match yesterday {
        Some(y) => y == when,
        None => false,
    };
    if when == today {
        push_str(&mut out, "Today ");
        clock_exec(hour, minute, &mut out);
    } else if is_yesterday {
        push_str(&mut out, "Yesterday ");
        clock_exec(hour, minute, &mut out);
    } else if when.year == today.year {
        push_str(&mut out, month_exec(when.month));
        push_str(&mut out, " ");
        let d = decimal_of(when.day as usize);
        push_all(&mut out, d.as_slice());
    } else {
        let y = when.year;
        if y < 10 {
            push_str(&mut out, "000");
        } else if y < 100 {
            push_str(&mut out, "00");
        } else if y < 1000 {
            push_str(&mut out, "0");
        } else if y >= 10000 {
            push_str(&mut out, "+");
        }
        let d = decimal_of(y as usize);
        push_all(&mut out, d.as_slice());
        push_str(&mut out, "-");
        two_digits_exec(when.month, &mut out);
        push_str(&mut out, "-");
        two_digits_exec(when.day, &mut out);
    }
    string_of(out.as_slice())
}

} // verus!
