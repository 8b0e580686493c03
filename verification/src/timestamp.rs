//! Moments in time, in UTC, as seconds since the start of 1970.

use chrono::Datelike;
use vstd::prelude::*;

verus! {

/// The first second that `chrono` has a date for: the start of the year
/// -262143.
pub const MIN_SECONDS: i64 = -8_334_601_228_800;

/// The last second that `chrono` has a date for: the end of the year 262142.
pub const MAX_SECONDS: i64 = 8_210_266_876_799;

/// A moment in UTC that `chrono` has a date and a time for.
#[derive(PartialEq, Eq, Clone, Copy, Debug, Structural)]
pub struct Timestamp {
    secs: i64,
    nanos: u32,
}

/// What a `Timestamp` stands for: the whole seconds since 1970-01-01 00:00:00
/// UTC, leap seconds not counted, and the nanoseconds since the last whole
/// second.
pub struct Moment {
    pub secs: int,
    pub nanos: int,
}

/// The second lies in a year for which `chrono` has dates.
pub open spec fn representable(secs: int) -> bool {
    MIN_SECONDS <= secs <= MAX_SECONDS
}

/// The seconds and nanoseconds of a moment that `chrono` has a date and a time
/// for. A thousand million nanoseconds and more stand for a leap second,
/// which can only follow the last second of a minute.
pub open spec fn valid_moment(secs: int, nanos: int) -> bool {
    &&& representable(secs)
    &&& 0 <= nanos < 2_000_000_000
    &&& (nanos >= 1_000_000_000 ==> secs % 60 == 59)
}

/// The day of the week that a second lies in, counted from Monday as 0 to
/// Sunday as 6. The first day of 1970 was a Thursday.
pub open spec fn weekday_from_monday(secs: int) -> int {
    (secs / 86_400 + 3) % 7
}

/// The moment `days` days after `m`, or before it where `days` is negative,
/// as `chrono` adds whole days to a moment: the time of day stays, and a leap
/// second does not last through the shift. Going on from a leap second starts
/// at the second that holds it; going back starts at the second after it.
pub open spec fn plus_days_moment(m: Moment, days: int) -> Moment {
    if m.nanos >= 1_000_000_000 && days > 0 {
        Moment { secs: m.secs + days * 86_400, nanos: m.nanos - 1_000_000_000 }
    } else if m.nanos >= 1_000_000_000 && days < 0 {
        Moment { secs: m.secs + 1 + days * 86_400, nanos: m.nanos - 1_000_000_000 }
    } else {
        Moment { secs: m.secs + days * 86_400, nanos: m.nanos }
    }
}

/// The text that `chrono` writes for a moment in UTC: the date, the time of
/// day and `UTC`.
pub uninterp spec fn utc_text(secs: int, nanos: int) -> Seq<char>;

/// The day of the week of a moment, as `chrono` has it:
/// `DateTime::from_timestamp`, then `weekday` and `num_days_from_monday`.
///
/// Believed of `chrono`: for every second of the years it has dates for, the
/// result is the number of days since the last Monday, 0 on a Monday, by the
/// calendar in which 1970-01-01 is a Thursday.
#[verifier::external_body]
fn chrono_days_from_monday(secs: i64) -> (days: Option<u32>)
    ensures
        representable(secs as int) ==> days == Some(weekday_from_monday(secs as int) as u32),
{
    match chrono::DateTime::from_timestamp(secs, 0) {
        Some(moment) => Some(moment.weekday().num_days_from_monday()),
        None => None,
    }
}

/// A moment some days on, as `chrono` has it: `DateTime::from_timestamp`,
/// `checked_add_signed` with `TimeDelta::try_days`, then `timestamp` and
/// `timestamp_subsec_nanos`.
///
/// Believed of `chrono`: where the moment is valid and the day that comes out
/// is one it has a date for, the result is `plus_days_moment`: the seconds
/// move by whole days, and a leap second is left as `chrono` leaves it.
#[verifier::external_body]
fn chrono_plus_days(secs: i64, nanos: u32, days: i32) -> (r: Option<(i64, u32)>)
    ensures
        ({
            let to = plus_days_moment(Moment { secs: secs as int, nanos: nanos as int }, days as int);
            valid_moment(secs as int, nanos as int) && representable(to.secs) ==> r == Some(
                (to.secs as i64, to.nanos as u32),
            )
        }),
{
    let moment = chrono::DateTime::from_timestamp(secs, nanos)?;
    let shifted = moment.checked_add_signed(chrono::TimeDelta::try_days(days as i64)?)?;
    Some((shifted.timestamp(), shifted.timestamp_subsec_nanos()))
}

/// A moment as text, as `chrono` writes it: `DateTime::from_timestamp`, then
/// the `Display` of `DateTime<Utc>` through `to_string`.
///
/// Believed of `chrono`: it has a date and a time for every valid moment, and
/// the text it writes depends on the moment alone.
#[verifier::external_body]
fn chrono_utc_text(secs: i64, nanos: u32) -> (text: Option<String>)
    ensures
        valid_moment(secs as int, nanos as int) ==> text is Some && text->Some_0@ == utc_text(
            secs as int,
            nanos as int,
        ),
{
    match chrono::DateTime::from_timestamp(secs, nanos) {
        Some(moment) => Some(moment.to_string()),
        None => None,
    }
}

impl View for Timestamp {
    type V = Moment;

    closed spec fn view(&self) -> Moment {
        Moment { secs: self.secs as int, nanos: self.nanos as int }
    }
}

impl Timestamp {
    #[verifier::type_invariant]
    spec fn valid(&self) -> bool {
        valid_moment(self.secs as int, self.nanos as int)
    }

    /// The moment `secs` seconds and `nanos` nanoseconds after the start of
    /// 1970, where that is a valid moment.
    pub fn new(secs: i64, nanos: u32) -> (r: Option<Timestamp>)
        ensures
            match r {
                Some(t) => valid_moment(secs as int, nanos as int) && t@ == (Moment {
                    secs: secs as int,
                    nanos: nanos as int,
                }),
                None => !valid_moment(secs as int, nanos as int),
            },
    {
        if secs < MIN_SECONDS || secs > MAX_SECONDS || nanos >= 2_000_000_000 {
            return None;
        }
        // The first second is the first of a minute: counted from there,
        // nothing is negative.
        let in_minute: u64 = ((secs - MIN_SECONDS) as u64) % 60;
        assert(in_minute == (secs as int) % 60);
        if nanos >= 1_000_000_000 && in_minute != 59 {
            return None;
        }
        Some(Timestamp { secs, nanos })
    }

    /// The whole seconds since the start of 1970.
    pub fn secs(&self) -> (secs: i64)
        ensures
            secs == self@.secs,
            valid_moment(self@.secs, self@.nanos),
    {
        proof {
            use_type_invariant(self);
        }
        self.secs
    }

    /// The nanoseconds since the last whole second.
    pub fn nanos(&self) -> (nanos: u32)
        ensures
            nanos == self@.nanos,
            valid_moment(self@.secs, self@.nanos),
    {
        proof {
            use_type_invariant(self);
        }
        self.nanos
    }

    /// The day of the week, counted from Monday as 0 to Sunday as 6.
    pub fn days_from_monday(&self) -> (days: u32)
        ensures
            days == weekday_from_monday(self@.secs),
            days < 7,
    {
        proof {
            use_type_invariant(self);
        }
        match chrono_days_from_monday(self.secs) {
            Some(days) => days,
            None => vstd::pervasive::unreached(),
        }
    }

    /// The moment `days` days later, or earlier where `days` is negative,
    /// as `chrono` adds days. The day that comes out must be one that
    /// `chrono` has a date for.
    pub fn plus_days(&self, days: i32) -> (r: Timestamp)
        requires
            representable(plus_days_moment(self@, days as int).secs),
        ensures
            r@ == plus_days_moment(self@, days as int),
    {
        proof {
            use_type_invariant(self);
        }
        match chrono_plus_days(self.secs, self.nanos, days) {
            Some((secs, nanos)) => Timestamp { secs, nanos },
            None => vstd::pervasive::unreached(),
        }
    }

    /// The moment as text: the date, the time of day and `UTC`, the way
    /// `chrono` writes them.
    pub fn to_string(&self) -> (text: String)
        ensures
            text@ == utc_text(self@.secs, self@.nanos),
    {
        proof {
            use_type_invariant(self);
        }
        match chrono_utc_text(self.secs, self.nanos) {
            Some(text) => text,
            None => vstd::pervasive::unreached(),
        }
    }
}

} // verus!
