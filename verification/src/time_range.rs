//! The time-of-day window condition.
use vstd::prelude::*;

verus! {

/// A time of day, as the clock crate reports it.
#[derive(Clone, Copy, Debug, PartialEq, Eq, Structural)]
pub struct TimeOfDay {
    pub hour: u8,
    pub minute: u8,
    pub second: u8,
    pub nanosecond: u32,
}

impl TimeOfDay {
    /// Every field lies in its range: hour below 24, minute and second below 60,
    /// nanosecond below one billion.
    pub open spec fn valid(self) -> bool {
        &&& self.hour < 24
        &&& self.minute < 60
        &&& self.second < 60
        &&& self.nanosecond < 1_000_000_000
    }

    /// `self` comes strictly before `other` on the same day.
    pub open spec fn earlier(self, other: TimeOfDay) -> bool {
        ||| self.hour < other.hour
        ||| (self.hour == other.hour && self.minute < other.minute)
        ||| (self.hour == other.hour && self.minute == other.minute && self.second < other.second)
        ||| (self.hour == other.hour && self.minute == other.minute && self.second == other.second
            && self.nanosecond < other.nanosecond)
    }

    /// `self` comes no later than `other` on the same day.
    pub open spec fn not_later(self, other: TimeOfDay) -> bool {
        self == other || self.earlier(other)
    }

    /// Compares two times of day, by hour, then minute, then second, then nanosecond.
    pub fn is_earlier_than(&self, other: &TimeOfDay) -> (r: bool)
        ensures
            r == self.earlier(*other),
    {
        if self.hour != other.hour {
            self.hour < other.hour
        } else if self.minute != other.minute {
            self.minute < other.minute
        } else if self.second != other.second {
            self.second < other.second
        } else {
            self.nanosecond < other.nanosecond
        }
    }
}

/// The hours and minutes of a configured time.
#[derive(Clone, Copy, Debug, PartialEq, Eq, Structural)]
pub struct TimeDesc {
    pub hours: u8,
    pub minutes: u8,
}

/// A configured time window, as written in the configuration.
#[derive(Clone, Copy, Debug, PartialEq, Eq, Structural)]
pub struct TimeRangeDesc {
    pub start: TimeDesc,
    pub end: TimeDesc,
}

/// An end of a time window.
#[derive(Clone, Copy, Debug, PartialEq, Eq, Structural)]
pub enum TimeEnd {
    Start,
    End,
}

/// Why a configured time window could not be made, with the clock crate's
/// account of the part that was out of range.
#[derive(Clone, Copy, Debug, PartialEq, Eq)]
pub enum TimeRangeError {
    /// The start is not a time of day (hours from 24, or minutes from 60).
    InvalidStart(time::error::ComponentRange),
    /// The start is one, the end is not.
    InvalidEnd(time::error::ComponentRange),
}

impl TimeRangeError {
    /// The end of the window that is not a time of day.
    pub open spec fn failed_end(self) -> TimeEnd {
        match self {
            TimeRangeError::InvalidStart(_) => TimeEnd::Start,
            TimeRangeError::InvalidEnd(_) => TimeEnd::End,
        }
    }
}

/// What making a window gave, with an error reduced to the end that failed.
pub open spec fn window_outcome(r: Result<TimeRange, TimeRangeError>) -> Result<TimeRange, TimeEnd> {
    match r {
        Ok(t) => Ok(t),
        Err(e) => Err(e.failed_end()),
    }
}

/// The time of day at the given hours and minutes, when they name one.
pub open spec fn configured_time(t: TimeDesc) -> Option<TimeOfDay> {
    if t.hours < 24 && t.minutes < 60 {
        Some(TimeOfDay { hour: t.hours, minute: t.minutes, second: 0, nanosecond: 0 })
    } else {
        None
    }
}

/// A condition that holds while the clock stands between two times of the day.
#[derive(Clone, Copy, Debug, PartialEq, Eq, Structural)]
pub struct TimeRange {
    pub start: TimeOfDay,
    pub end: TimeOfDay,
}

/// What making a window of a configured description gives: the window, or
/// the first end (the start is checked first) that is not a time of day.
pub open spec fn time_range_of(desc: TimeRangeDesc) -> Result<TimeRange, TimeEnd> {
    match configured_time(desc.start) {
        None => Err(TimeEnd::Start),
        Some(start) => match configured_time(desc.end) {
            None => Err(TimeEnd::End),
            Some(end) => Ok(TimeRange { start, end }),
        },
    }
}

impl TimeRange {
    /// The window holds at `now`: `now` lies from `start` (included) to `end`
    /// (excluded), or from `end` (included) to `start` (excluded).
    pub open spec fn holds_at(self, now: TimeOfDay) -> bool {
        ||| (self.start.not_later(now) && now.earlier(self.end))
        ||| (self.end.not_later(now) && now.earlier(self.start))
    }

    /// Whether the window holds at the given time of day.
    pub fn is_met_at(&self, now: TimeOfDay) -> (r: bool)
        ensures
            r == self.holds_at(now),
    {
        let inside = !now.is_earlier_than(&self.start) && now.is_earlier_than(&self.end);
        let outside = !now.is_earlier_than(&self.end) && now.is_earlier_than(&self.start);
        inside || outside
    }

    /// Whether the window holds now, by the local clock. Fails where the local
    /// offset of the clock cannot be determined.
    pub fn is_met(&self) -> (r: Result<bool, time::error::IndeterminateOffset>)
        ensures
            r matches Ok(met) ==> exists|now: TimeOfDay| now.valid() && met == self.holds_at(now),
    {
        match local_time_of_day() {
            Ok(now) => Ok(self.is_met_at(now)),
            Err(e) => Err(e),
        }
    }

    /// Makes the window that a configuration describes; the start is checked
    /// first. The error carries the clock crate's account of the part that
    /// was out of range.
    pub fn from_desc(desc: TimeRangeDesc) -> (r: Result<TimeRange, TimeRangeError>)
        ensures
            window_outcome(r) == time_range_of(desc),
    {
        let start = match time_of_day_from_hms(desc.start.hours, desc.start.minutes, 0) {
            Ok(t) => t,
            Err(e) => return Err(TimeRangeError::InvalidStart(e)),
        };
        let end = match time_of_day_from_hms(desc.end.hours, desc.end.minutes, 0) {
            Ok(t) => t,
            Err(e) => return Err(TimeRangeError::InvalidEnd(e)),
        };
        Ok(TimeRange { start, end })
    }
}

impl TryFrom<TimeRangeDesc> for TimeRange {
    type Error = TimeRangeError;

    /// Makes the window that a configuration describes; the start is checked first.
    fn try_from(desc: TimeRangeDesc) -> (r: Result<TimeRange, TimeRangeError>)
        ensures
            window_outcome(r) == time_range_of(desc),
    {
        TimeRange::from_desc(desc)
    }
}

/// The error of `try_from` carries the clock crate's opaque account of the
/// failed part, so no whole result can be written here; `try_from`'s own
/// `ensures` states the result, error reduced to the end that failed.
impl vstd::std_specs::convert::TryFromSpecImpl<TimeRangeDesc> for TimeRange {
    open spec fn obeys_try_from_spec() -> bool {
        false
    }

    open spec fn try_from_spec(desc: TimeRangeDesc) -> Result<TimeRange, TimeRangeError> {
        vstd::pervasive::arbitrary()
    }
}

/// The window holds at a time exactly when the window with its ends swapped does.
pub proof fn lemma_time_range_symmetric(range: TimeRange, now: TimeOfDay)
    ensures
        range.holds_at(now) == (TimeRange { start: range.end, end: range.start }).holds_at(now),
{
}

/// A window whose ends are the same time never holds.
pub proof fn lemma_time_range_empty(t: TimeOfDay, now: TimeOfDay)
    ensures
        !(TimeRange { start: t, end: t }).holds_at(now),
{
}

/// A window from an earlier to a later time holds exactly between them, the
/// start included and the end excluded.
pub proof fn lemma_time_range_forward(range: TimeRange, now: TimeOfDay)
    requires
        range.start.earlier(range.end),
    ensures
        range.holds_at(now) == (range.start.not_later(now) && now.earlier(range.end)),
{
}

/// A window whose start comes after its end (such as 22:00 to 06:00) holds from
/// the end to the start, not across midnight.
pub proof fn lemma_time_range_backward(range: TimeRange, now: TimeOfDay)
    requires
        range.end.earlier(range.start),
    ensures
        range.holds_at(now) == (range.end.not_later(now) && now.earlier(range.start)),
{
}

/// The nanoseconds since midnight of a time of day.
pub open spec fn nanos_of_day(t: TimeOfDay) -> int {
    t.hour * 3_600_000_000_000 + t.minute * 60_000_000_000 + t.second * 1_000_000_000
        + t.nanosecond
}

/// The order of times of day is the order of the clock: of two valid times,
/// one comes earlier exactly when fewer nanoseconds have passed since midnight.
pub proof fn lemma_earlier_is_chronological(a: TimeOfDay, b: TimeOfDay)
    requires
        a.valid(),
        b.valid(),
    ensures
        a.earlier(b) <==> nanos_of_day(a) < nanos_of_day(b),
        a.not_later(b) <==> nanos_of_day(a) <= nanos_of_day(b),
{
}

/// A window holds at a valid time exactly when the time lies, by the clock,
/// from the start (included) to the end (excluded), or from the end
/// (included) to the start (excluded).
pub proof fn lemma_holds_at_by_clock(range: TimeRange, now: TimeOfDay)
    requires
        range.start.valid(),
        range.end.valid(),
        now.valid(),
    ensures
        range.holds_at(now) <==> ((nanos_of_day(range.start) <= nanos_of_day(now) && nanos_of_day(
            now,
        ) < nanos_of_day(range.end)) || (nanos_of_day(range.end) <= nanos_of_day(now)
            && nanos_of_day(now) < nanos_of_day(range.start))),
{
    lemma_earlier_is_chronological(range.start, now);
    lemma_earlier_is_chronological(now, range.end);
    lemma_earlier_is_chronological(range.end, now);
    lemma_earlier_is_chronological(now, range.start);
}

/// `time::Time::from_hms(hour, minute, second)`, read back as a time of day.
/// Its source checks each part against its range (hour below 24, minute and
/// second below 60) and fails with `ComponentRange` where one lies outside;
/// else the time has those parts and nanosecond 0. The contract says so.
#[verifier::external_body]
fn time_of_day_from_hms(hour: u8, minute: u8, second: u8) -> (r: Result<
    TimeOfDay,
    time::error::ComponentRange,
>)
    ensures
        r is Ok <==> (hour < 24 && minute < 60 && second < 60),
        r matches Ok(t) ==> t == (TimeOfDay { hour, minute, second, nanosecond: 0 }),
{
    match time::Time::from_hms(hour, minute, second) {
        Ok(t) => Ok(TimeOfDay {
            hour: t.hour(),
            minute: t.minute(),
            second: t.second(),
            nanosecond: t.nanosecond(),
        }),
        Err(e) => Err(e),
    }
}

/// `time::OffsetDateTime::now_local()`, reduced to its time of day. It fails
/// where the local offset cannot be determined. What time it gives depends on
/// the clock: the contract states only that the parts of a time lie in their
/// ranges, as the crate documents for `hour`, `minute`, `second` and `nanosecond`.
#[verifier::external_body]
fn local_time_of_day() -> (r: Result<TimeOfDay, time::error::IndeterminateOffset>)
    ensures
        r matches Ok(t) ==> t.valid(),
{
    match time::OffsetDateTime::now_local() {
        Ok(dt) => {
            let t = dt.time();
            Ok(TimeOfDay {
                hour: t.hour(),
                minute: t.minute(),
                second: t.second(),
                nanosecond: t.nanosecond(),
            })
        },
        Err(e) => Err(e),
    }
}

#[verifier::external_type_specification]
#[verifier::external_body]
pub struct ExComponentRange(time::error::ComponentRange);

#[verifier::external_type_specification]
#[verifier::external_body]
pub struct ExIndeterminateOffset(time::error::IndeterminateOffset);

} // verus!
