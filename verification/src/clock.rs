//! The time of day that stands before a message.
use chrono::{Local, NaiveTime, Timelike};
use vstd::prelude::*;

use crate::number;

verus! {

/// Hours, minutes and seconds as a clock shows them.
pub const CLOCK_FORMAT: &'static str = "%H:%M:%S";

/// A time of day to the second.
#[derive(Debug, Clone, Copy, PartialEq, Eq, Structural)]
pub struct TimeOfDay {
    hour: u32,
    minute: u32,
    second: u32,
}

/// `n` in two digits.
pub open spec fn two_digits(n: nat) -> Seq<char> {
    seq![number::digit_char(n / 10), number::digit_char(n % 10)]
}

/// A time of day as a clock shows it.
pub open spec fn clock_text(hour: nat, minute: nat, second: nat) -> Seq<char> {
    two_digits(hour) + seq![':'] + two_digits(minute) + seq![':'] + two_digits(second)
}

/// `Local::now`, read by `Timelike::hour`, `Timelike::minute` and `Timelike::second`: the
/// numbers on a clock, whatever the moment.
#[verifier::external_body]
fn local_time() -> (t: (u32, u32, u32))
    ensures
        t.0 < 24,
        t.1 < 60,
        t.2 < 60,
{
    let now = Local::now();
    (now.hour(), now.minute(), now.second())
}

/// `NaiveTime::from_hms_opt` and `NaiveTime::format` with the hours, minutes and seconds
/// each in two digits.
#[verifier::external_body]
fn format_time(hour: u32, minute: u32, second: u32, format: &str) -> (s: String)
    requires
        hour < 24,
        minute < 60,
        second < 60,
        format@ == CLOCK_FORMAT@,
    ensures
        s@ == clock_text(hour as nat, minute as nat, second as nat),
{
    NaiveTime::from_hms_opt(hour, minute, second).unwrap().format(format).to_string()
}

impl TimeOfDay {
    #[verifier::type_invariant]
    spec fn on_the_clock(self) -> bool {
        self.hour < 24 && self.minute < 60 && self.second < 60
    }

    pub closed spec fn hours(self) -> nat {
        self.hour as nat
    }

    pub closed spec fn minutes(self) -> nat {
        self.minute as nat
    }

    pub closed spec fn seconds(self) -> nat {
        self.second as nat
    }

    /// The time of day with these numbers, where a clock shows them.
    pub fn new(hour: u32, minute: u32, second: u32) -> (t: Option<TimeOfDay>)
        ensures
            t is Some <==> hour < 24 && minute < 60 && second < 60,
            t matches Some(time) ==> {
                &&& time.hours() == hour
                &&& time.minutes() == minute
                &&& time.seconds() == second
            },
    {
        if hour < 24 && minute < 60 && second < 60 {
            Some(TimeOfDay { hour, minute, second })
        } else {
            None
        }
    }

    /// The time of day at this moment.
    pub fn now() -> (t: TimeOfDay)
        ensures
            t.hours() < 24,
            t.minutes() < 60,
            t.seconds() < 60,
    {
        let (hour, minute, second): (u32, u32, u32) = local_time();
        TimeOfDay { hour, minute, second }
    }

    /// The time as a clock shows it.
    pub open spec fn text(self) -> Seq<char> {
        clock_text(self.hours(), self.minutes(), self.seconds())
    }

    /// The time as a clock shows it.
    pub fn shown(&self) -> (s: String)
        ensures
            s@ == self.text(),
    {
        proof {
            use_type_invariant(self);
        }
        format_time(self.hour, self.minute, self.second, CLOCK_FORMAT)
    }
}

/// A clock shows hours, minutes and seconds in this order, each in two digits.
pub proof fn law_clock_shows_the_time(t: TimeOfDay)
    requires
        t.hours() < 24,
        t.minutes() < 60,
        t.seconds() < 60,
    ensures
        t.text().len() == 8,
        t.text()[2] == ':' && t.text()[5] == ':',
        (t.text()[0] as int - '0' as int) * 10 + (t.text()[1] as int - '0' as int) == t.hours(),
        (t.text()[3] as int - '0' as int) * 10 + (t.text()[4] as int - '0' as int) == t.minutes(),
        (t.text()[6] as int - '0' as int) * 10 + (t.text()[7] as int - '0' as int) == t.seconds(),
        forall|i: int|
            0 <= i < 8 && i != 2 && i != 5 ==> '0' <= #[trigger] t.text()[i] <= '9',
{
    let (h, m, s) = (two_digits(t.hours()), two_digits(t.minutes()), two_digits(t.seconds()));
    let text = t.text();
    assert(text[0] == h[0] && text[1] == h[1] && text[3] == m[0] && text[4] == m[1] && text[6]
        == s[0] && text[7] == s[1]);
    assert forall|i: int| 0 <= i < 8 && i != 2 && i != 5 implies '0' <= #[trigger] text[i]
        <= '9' by {
        assert(i == 0 || i == 1 || i == 3 || i == 4 || i == 6 || i == 7);
    }
}

}
