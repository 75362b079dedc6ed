//! Points in time and the spans between them.

use vstd::prelude::*;
use crate::text::{decimal, decimal_text};

verus! {

/// A point in time on the UTC time line: whole seconds since the Unix epoch
/// and the nanoseconds into that second.
#[derive(Clone, Copy, Debug, PartialEq, Eq, PartialOrd, Ord, Hash, Structural)]
pub struct Time {
    pub secs: i64,
    pub nanos: u32,
}

/// The whole multiples of `unit` in `amount`, counted towards zero.
pub open spec fn whole(amount: int, unit: int) -> int {
    if amount >= 0 {
        amount / unit
    } else {
        -((-amount) / unit)
    }
}

impl Time {
    /// The nanoseconds from the Unix epoch to this point in time.
    pub open spec fn since_epoch(self) -> int {
        self.secs * 1_000_000_000 + self.nanos
    }

    /// The whole seconds that passed from `earlier` to this point in time;
    /// negative when `earlier` is in fact the later of the two.
    pub open spec fn spec_seconds_since(self, earlier: Time) -> int {
        whole(self.since_epoch() - earlier.since_epoch(), 1_000_000_000)
    }

    /// Whether this point in time comes after `other`.
    pub open spec fn spec_is_after(self, other: Time) -> bool {
        self.secs > other.secs || (self.secs == other.secs && self.nanos > other.nanos)
    }

    /// The current time, read from the system clock by `chrono::Utc::now`.
    /// Nothing is claimed of the value: it is whatever the clock says.
    #[verifier::external_body]
    pub(crate) fn now() -> (t: Time) {
        let clock = chrono::Utc::now();
        Time { secs: clock.timestamp(), nanos: clock.timestamp_subsec_nanos() }
    }

    /// The whole seconds that passed from `earlier` to this point in time.
    pub fn seconds_since(&self, earlier: &Time) -> (seconds: i128)
        ensures
            seconds == self.spec_seconds_since(*earlier),
    {
        let secs: i128 = self.secs as i128 - earlier.secs as i128;
        let nanos: i128 = self.nanos as i128 - earlier.nanos as i128;
        (secs * 1_000_000_000 + nanos) / 1_000_000_000
    }

    /// Whether this point in time comes after `other`.
    pub fn is_after(&self, other: &Time) -> (after: bool)
        ensures
            after == self.spec_is_after(*other),
    {
        self.secs > other.secs || (self.secs == other.secs && self.nanos > other.nanos)
    }

    /// The point in time `seconds` before this one, or `None` where that
    /// lies outside what a `Time` can hold.
    pub fn minus_seconds(&self, seconds: i64) -> (earlier: Option<Time>)
        ensures
            earlier == if i64::MIN <= self.secs - seconds <= i64::MAX {
                Some(Time { secs: (self.secs - seconds) as i64, nanos: self.nanos })
            } else {
                None
            },
    {
        match self.secs.checked_sub(seconds) {
            Some(secs) => Some(Time { secs, nanos: self.nanos }),
            None => None,
        }
    }
}

/// How long ago something happened, in whole seconds.
#[derive(Clone, Copy, Debug, PartialEq, Eq, Structural)]
pub struct Age(pub i128);

impl Age {
    /// The number and the unit by which an age is shown: the largest of
    /// weeks, days, hours, minutes and seconds of which the age holds at
    /// least one, and how many of it the age holds.
    pub open spec fn spec_coarsest(self) -> (int, char) {
        let s = self.0 as int;
        if whole(s, 60) == 0 {
            (s, 's')
        } else if whole(s, 3_600) == 0 {
            (whole(s, 60), 'm')
        } else if whole(s, 86_400) == 0 {
            (whole(s, 3_600), 'h')
        } else if whole(s, 604_800) == 0 {
            (whole(s, 86_400), 'd')
        } else {
            (whole(s, 604_800), 'w')
        }
    }

    /// The number and the unit by which the age is shown.
    pub fn coarsest(&self) -> (shown: (i128, char))
        ensures
            shown.0 == self.spec_coarsest().0,
            shown.1 == self.spec_coarsest().1,
    {
        let s: i128 = self.0;
        if s / 60 == 0 {
            (s, 's')
        } else if s / 3_600 == 0 {
            (s / 60, 'm')
        } else if s / 86_400 == 0 {
            (s / 3_600, 'h')
        } else if s / 604_800 == 0 {
            (s / 86_400, 'd')
        } else {
            (s / 604_800, 'w')
        }
    }

    /// The age as it is shown: the number in decimal with the letter of
    /// the unit behind it, such as `3d` or `45s`.
    pub open spec fn spec_to_string(self) -> Seq<char> {
        decimal(self.spec_coarsest().0).push(self.spec_coarsest().1)
    }

    /// The age as it is shown.
    pub fn to_string(&self) -> (text: String)
        ensures
            text@ == self.spec_to_string(),
    {
        let (count, unit) = self.coarsest();
        proof {
            reveal_strlit("s");
            reveal_strlit("m");
            reveal_strlit("h");
            reveal_strlit("d");
            reveal_strlit("w");
        }
        let suffix = if unit == 's' {
            "s"
        } else if unit == 'm' {
            "m"
        } else if unit == 'h' {
            "h"
        } else if unit == 'd' {
            "d"
        } else {
            "w"
        };
        assert(suffix@ =~= seq![unit]);
        let mut text = decimal_text(count);
        text.append(suffix);
        assert(text@ =~= decimal(count as int).push(unit));
        text
    }
}

} // verus!
