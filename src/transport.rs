//! The decision parts of the UDP and TCP front ends, and helpers for their query log.
//!
//! Sockets, tasks and timers stay with the caller; what is decided on the bytes and on the
//! pending-query table is here.
pub mod tcp;
pub mod udp;

use vstd::prelude::*;

verus! {

/// Maximum size of a DNS packet (with some headroom).
pub const MAX_DNS_PACKET_SIZE: usize = 4096;

/// Transport protocol identifier for logging.
#[derive(Debug, Clone, Copy, PartialEq, Eq, Structural)]
pub enum Protocol {
    Tcp,
    Udp,
}

impl Protocol {
    /// The protocol's name in log lines.
    pub fn as_str(self) -> (r: &'static str)
        ensures
            self == Protocol::Tcp ==> r@ == seq!['T', 'C', 'P'],
            self == Protocol::Udp ==> r@ == seq!['U', 'D', 'P'],
    {
        match self {
            Protocol::Tcp => {
                proof {
                    reveal_strlit("TCP");
                }
                "TCP"
            },
            Protocol::Udp => {
                proof {
                    reveal_strlit("UDP");
                }
                "UDP"
            },
        }
    }
}

/// Logger for DNS query events of one transport.
pub struct QueryLogger {
    protocol: Protocol,
}

impl QueryLogger {
    /// A logger for the given transport.
    pub fn new(protocol: Protocol) -> (r: Self)
        ensures
            r.protocol_spec() == protocol,
    {
        Self { protocol }
    }

    /// The transport this logger reports on.
    pub closed spec fn protocol_spec(&self) -> Protocol {
        self.protocol
    }

    /// The transport this logger reports on.
    pub fn protocol(&self) -> (r: Protocol)
        ensures
            r == self.protocol_spec(),
    {
        self.protocol
    }
}

/// Gregorian leap year.
pub open spec fn leap(year: int) -> bool {
    (year % 4 == 0 && year % 100 != 0) || year % 400 == 0
}

/// Days in a year.
pub open spec fn year_length(year: int) -> int {
    if leap(year) {
        366
    } else {
        365
    }
}

/// Days in month `i` (0 for January) of a leap or common year.
pub open spec fn month_length(i: int, is_leap: bool) -> int {
    if i == 1 {
        if is_leap {
            29
        } else {
            28
        }
    } else if i == 3 || i == 5 || i == 8 || i == 10 {
        30
    } else {
        31
    }
}

/// The year that day `rem` (counted from January 1 of `year`) falls in, and the day
/// within that year.
pub open spec fn year_of(rem: int, year: int) -> (int, int)
    decreases rem,
{
    if rem < year_length(year) {
        (year, rem)
    } else {
        year_of(rem - year_length(year), year + 1)
    }
}

/// The month (1 for January) that day `rem` of a year falls in, counting from month
/// index `i`, and the day within that month.
pub open spec fn month_of(rem: int, i: int, is_leap: bool) -> (int, int)
    decreases 12 - i,
{
    if i >= 12 || rem < month_length(i, is_leap) {
        (i + 1, rem)
    } else {
        month_of(rem - month_length(i, is_leap), i + 1, is_leap)
    }
}

/// Year, month and day (both from 1) of a day counted from 1970-01-01.
pub open spec fn civil_date(days: int) -> (int, int, int) {
    let (y, r) = year_of(days, 1970);
    let (m, d) = month_of(r, 0, leap(y));
    (y, m, d + 1)
}

/// Whether `year` is a Gregorian leap year.
pub fn is_leap_year(year: u64) -> (r: bool)
    ensures
        r == leap(year as int),
{
    (year % 4 == 0 && year % 100 != 0) || (year % 400 == 0)
}

fn days_in_month(i: u64, is_leap: bool) -> (r: u64)
    requires
        i < 12,
    ensures
        r == month_length(i as int, is_leap),
{
    if i == 1 {
        if is_leap {
            29
        } else {
            28
        }
    } else if i == 3 || i == 5 || i == 8 || i == 10 {
        30
    } else {
        31
    }
}

/// Year, month and day of a day counted from 1970-01-01.
pub fn days_to_ymd(days: u64) -> (r: (u64, u64, u64))
    ensures
        r.0 as int == civil_date(days as int).0,
        r.1 as int == civil_date(days as int).1,
        r.2 as int == civil_date(days as int).2,
{
    let mut remaining: u64 = days;
    let mut year: u64 = 1970;
    loop
        invariant
            remaining <= days,
            1970 <= year,
            (year - 1970) * 365 <= days - remaining,
            year_of(remaining as int, year as int) == year_of(days as int, 1970),
        ensures
            year_of(days as int, 1970) == (year as int, remaining as int),
            remaining < 366,
        decreases remaining,
    {
        let days_in_year: u64 = if is_leap_year(year) {
            366
        } else {
            365
        };
        if remaining < days_in_year {
            break;
        }
        remaining -= days_in_year;
        year += 1;
    }
    let is_leap = is_leap_year(year);
    let mut month: u64 = 0;
    while month < 12 && remaining >= days_in_month(month, is_leap)
        invariant
            month <= 12,
            remaining < 366,
            month_of(remaining as int, month as int, is_leap) == month_of(
                year_of(days as int, 1970).1,
                0,
                leap(year as int),
            ),
            year_of(days as int, 1970).0 == year,
            is_leap == leap(year as int),
        decreases 12 - month,
    {
        remaining -= days_in_month(month, is_leap);
        month += 1;
    }
    (year as u64, month + 1, remaining + 1)
}

/// Year, month, day, hour, minute and second (UTC) of a count of seconds since the Unix
/// epoch.
pub fn civil_from_unix(total_secs: u64) -> (r: (u64, u64, u64, u64, u64, u64))
    ensures
        r.0 as int == civil_date(total_secs as int / 86400).0,
        r.1 as int == civil_date(total_secs as int / 86400).1,
        r.2 as int == civil_date(total_secs as int / 86400).2,
        r.3 == (total_secs % 86400) / 3600,
        r.4 == ((total_secs % 86400) % 3600) / 60,
        r.5 == (total_secs % 86400) % 60,
{
    let (year, month, day) = days_to_ymd(total_secs / 86400);
    let day_secs = total_secs % 86400;
    (year, month, day, day_secs / 3600, (day_secs % 3600) / 60, day_secs % 60)
}

} // verus!
