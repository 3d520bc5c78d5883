//! Slots of the weekly rhythm: 24 hours, on working days and at weekends, and
//! one more that stands for any time.

use vstd::prelude::*;

use chrono::{Datelike, Timelike};

verus! {

/// A slot. Numbers below 48 stand for an hour on working days (even) or at
/// weekends (odd); 48 stands for any time.
#[derive(Debug, Clone, Copy, PartialEq, Eq, Hash, PartialOrd, Ord, Structural)]
pub struct Slot(pub u8);

/// The last second, counted from the epoch, that has a calendar date.
pub const LAST_SECOND: u64 = 8_210_266_876_799;

/// The slot of an hour.
pub open spec fn slot_of(hour: int, is_weekend: bool) -> Slot {
    Slot((hour % 24 * 2 + if is_weekend { 1int } else { 0int }) as u8)
}

/// The slot of a local time, given by its hour and its day of the week, counted
/// from Monday.
pub open spec fn slot_of_local(local: Option<(u32, u32)>) -> Slot {
    match local {
        Some((hour, weekday)) => slot_of(hour as int, weekday >= 5),
        None => Slot(Slot::ANY),
    }
}

/// The hour of a time, in seconds since the epoch, on a clock that is `offset` seconds
/// ahead of UTC.
pub open spec fn hour_at(seconds: int, offset: int) -> int {
    (seconds + offset) % 86_400 / 3_600
}

/// The day of the week, counted from Monday, on such a clock. The epoch was a
/// Thursday.
pub open spec fn weekday_at(seconds: int, offset: int) -> int {
    ((seconds + offset) / 86_400 + 3) % 7
}

/// Whether a clock that is `offset` seconds ahead of UTC shows an hour and a day of
/// the week. No clock is a day away from UTC.
pub open spec fn is_local_time(seconds: int, offset: int, hour: u32, weekday: u32) -> bool {
    &&& -86_400 < offset < 86_400
    &&& hour == hour_at(seconds, offset)
    &&& weekday == weekday_at(seconds, offset)
}

/// Whether a clock that is `offset` seconds ahead of UTC puts a time into a slot.
pub open spec fn is_slot_at(seconds: int, offset: int, slot: u8) -> bool {
    &&& -86_400 < offset < 86_400
    &&& slot == slot_of(hour_at(seconds, offset), weekday_at(seconds, offset) >= 5).0
}

/// Whether a slot can be that of a time, in microseconds since the epoch. If the time
/// has a calendar date, it is the one into which some clock puts that time; how far
/// that clock is from UTC depends on the time zone of the machine. Otherwise it is the
/// one that stands for any time.
pub open spec fn can_be_slot_of(timestamp_us: u64, slot: u8) -> bool {
    let seconds = timestamp_us / 1_000_000;
    if seconds <= LAST_SECOND {
        slot < Slot::COUNT && exists|offset: int| #[trigger] is_slot_at(seconds as int, offset, slot)
    } else {
        slot == Slot::ANY
    }
}

/// `DateTime::from_timestamp` and `DateTime::with_timezone` for the time zone of
/// the machine: the hour, and the day of the week counted from Monday. There is
/// none only for times beyond the calendar. It is the given time on a clock less than
/// a day away from UTC, as every `FixedOffset` is; how far it is away depends on the
/// machine, so nothing more is said of that. Time zone data that cannot be read
/// counts as UTC. The call fails only where the time zone of the machine is a day
/// or more away from UTC, which no argument can bring about.
#[verifier::external_body]
fn local_time(seconds: i64, nanoseconds: u32) -> (local: Option<(u32, u32)>)
    requires
        seconds >= 0,
        nanoseconds < 1_000_000_000,
    ensures
        local is Some <==> seconds <= LAST_SECOND,
        local matches Some((hour, weekday)) ==> exists|offset: int| #[trigger]
            is_local_time(seconds as int, offset, hour, weekday),
{
    chrono::DateTime::<chrono::Utc>::from_timestamp(seconds, nanoseconds).map(
        |utc|
            {
                let local = utc.with_timezone(&chrono::Local);
                (local.hour(), local.weekday().num_days_from_monday())
            },
    )
}

impl Slot {
    /// How many slots stand for an hour.
    pub const COUNT: u8 = 48;

    /// The number of the slot that stands for any time.
    pub const ANY: u8 = 48;

    /// The slot that stands for any time.
    pub fn any() -> (slot: Slot)
        ensures
            slot == Slot(Slot::ANY),
    {
        Slot(Slot::ANY)
    }

    /// The slot of a time, in microseconds since the epoch, in the time zone of the
    /// machine. A time beyond the calendar has the slot that stands for any time.
    pub fn from_timestamp_us(timestamp_us: u64) -> (slot: Slot)
        ensures
            can_be_slot_of(timestamp_us, slot.0),
    {
        let seconds: u64 = timestamp_us / 1_000_000;
        let nanoseconds: u32 = (timestamp_us % 1_000_000) as u32 * 1_000;
        let local = local_time(seconds as i64, nanoseconds);
        let slot = Slot::from_local_time(local);
        proof {
            if let Some((hour, weekday)) = local {
                let offset = choose|offset: int| #[trigger]
                    is_local_time(seconds as int, offset, hour, weekday);
                assert(is_slot_at(seconds as int, offset, slot.0));
            }
        }
        slot
    }

    /// The slot of a local time, given by its hour and its day of the week, counted
    /// from Monday.
    pub fn from_local_time(local: Option<(u32, u32)>) -> (slot: Slot)
        ensures
            slot == slot_of_local(local),
    {
        match local {
            Some((hour, weekday)) => slot_from_hour_and_weekend(hour, weekday >= 5),
            None => Slot::any(),
        }
    }

    /// Whether the slot stands for an hour.
    pub fn is_regular(&self) -> (regular: bool)
        ensures
            regular == (self.0 < Slot::COUNT),
    {
        self.0 < Slot::COUNT
    }

    /// The hour of the slot, if it stands for one.
    pub fn hour(&self) -> (hour: Option<u8>)
        ensures
            hour == if self.0 < Slot::COUNT {
                Some((self.0 / 2) as u8)
            } else {
                None
            },
    {
        if self.is_regular() {
            Some(self.0 / 2)
        } else {
            None
        }
    }

    /// Whether the slot stands for an hour at weekends, if it stands for one.
    pub fn is_weekend(&self) -> (weekend: Option<bool>)
        ensures
            weekend == if self.0 < Slot::COUNT {
                Some(self.0 % 2 == 1)
            } else {
                None
            },
    {
        if self.is_regular() {
            Some(self.0 % 2 == 1)
        } else {
            None
        }
    }
}

impl Default for Slot {
    fn default() -> (slot: Slot)
        ensures
            slot == Slot(Slot::ANY),
    {
        Slot::any()
    }
}

/// The slot of an hour; hours beyond the day start again.
pub fn slot_from_hour_and_weekend(hour: u32, is_weekend: bool) -> (slot: Slot)
    ensures
        slot == slot_of(hour as int, is_weekend),
{
    let hour: u8 = (hour % 24) as u8;
    let odd: u8 = if is_weekend {
        1
    } else {
        0
    };
    Slot(hour * 2 + odd)
}

/// Hour and weekend can be read off the slot that was made from them, and no two
/// of them share a slot.
pub proof fn slot_tells_hour_and_weekend(hour: int, is_weekend: bool)
    requires
        0 <= hour < 24,
    ensures
        slot_of(hour, is_weekend).0 < Slot::COUNT,
        slot_of(hour, is_weekend).0 / 2 == hour,
        (slot_of(hour, is_weekend).0 % 2 == 1) == is_weekend,
{
}

/// The week repeats: on a clock that is not set anew, a time seven days later has the
/// same slot, and one an hour later has the next hour.
pub proof fn slots_follow_the_week(seconds: int, offset: int)
    ensures
        hour_at(seconds + 604_800, offset) == hour_at(seconds, offset),
        weekday_at(seconds + 604_800, offset) == weekday_at(seconds, offset),
        hour_at(seconds + 3_600, offset) == (hour_at(seconds, offset) + 1) % 24,
{
}

/// A clock that is put an hour ahead shows the next hour for the same time.
pub proof fn a_clock_put_ahead_shows_the_next_hour(seconds: int, offset: int)
    ensures
        hour_at(seconds, offset + 3_600) == (hour_at(seconds, offset) + 1) % 24,
        hour_at(seconds, offset + 3_600) == hour_at(seconds + 3_600, offset),
        weekday_at(seconds, offset + 3_600) == weekday_at(seconds + 3_600, offset),
{
}

/// A time falls into the slot of its hour, on a working day or at a weekend: `day` days
/// after the first of January 1970, which was a Thursday, `hour` hours and `rest` seconds
/// on the clock. `week` is how many whole weeks that is, and `weekday` how many days
/// more: Saturday and Sunday are two and three days after a Thursday.
pub proof fn times_fall_into_the_slot_of_their_hour(
    seconds: int,
    offset: int,
    week: int,
    weekday: int,
    hour: int,
    rest: int,
    slot: u8,
)
    requires
        seconds + offset == (week * 7 + weekday) * 86_400 + hour * 3_600 + rest,
        0 <= weekday < 7,
        0 <= hour < 24,
        0 <= rest < 3_600,
        is_slot_at(seconds, offset, slot),
    ensures
        slot == 2 * hour + if weekday == 2 || weekday == 3 {
            1int
        } else {
            0int
        },
        hour_at(seconds, offset) == hour,
        -86_400 < offset < 86_400,
{
    let days = week * 7 + weekday;
    assert((seconds + offset) / 86_400 == days && (seconds + offset) % 86_400 == hour * 3_600 + rest)
        by (nonlinear_arith)
        requires
            seconds + offset == days * 86_400 + hour * 3_600 + rest,
            0 <= hour < 24,
            0 <= rest < 3_600,
    ;
    assert((hour * 3_600 + rest) / 3_600 == hour) by (nonlinear_arith)
        requires
            0 <= rest < 3_600,
    ;
    assert((days + 3) % 7 == (weekday + 3) % 7) by (nonlinear_arith)
        requires
            days == week * 7 + weekday,
    ;
}

/// There are 48 slots for the hours; the one that stands for any time comes after them,
/// and only a time beyond the calendar, which ends with the year 262142, has it.
pub proof fn only_times_beyond_the_calendar_have_no_hour(timestamp_us: u64, slot: u8)
    requires
        can_be_slot_of(timestamp_us, slot),
    ensures
        slot <= 48,
        slot == 48 <==> timestamp_us >= 8_210_266_876_800_000_000,
        slot_of_local(None) == Slot(48),
        Slot::COUNT == 48,
        Slot::ANY == 48,
{
}

/// A local time falls into the slot of its hour; Saturday and Sunday are the weekend,
/// counted from Monday as zero.
pub proof fn local_times_fall_into_their_slots(hour: u32, weekday: u32)
    requires
        hour < 24,
        weekday < 7,
    ensures
        slot_of_local(Some((hour, weekday))).0 == 2 * hour + if weekday == 5 || weekday == 6 {
            1int
        } else {
            0int
        },
{
}

/// Hour and weekend are read off a slot as they were put in, and a slot for any time has
/// neither.
pub proof fn a_slot_tells_what_it_was_made_of(
    hour: u32,
    weekend: bool,
    slot: Slot,
    regular: bool,
    read_hour: Option<u8>,
    read_weekend: Option<bool>,
    any: Slot,
    any_regular: bool,
    any_hour: Option<u8>,
    any_weekend: Option<bool>,
)
    requires
        hour < 24,
        call_ensures(slot_from_hour_and_weekend, (hour, weekend), slot),
        call_ensures(Slot::is_regular, (&slot,), regular),
        call_ensures(Slot::hour, (&slot,), read_hour),
        call_ensures(Slot::is_weekend, (&slot,), read_weekend),
        call_ensures(Slot::any, (), any),
        call_ensures(Slot::is_regular, (&any,), any_regular),
        call_ensures(Slot::hour, (&any,), any_hour),
        call_ensures(Slot::is_weekend, (&any,), any_weekend),
    ensures
        regular,
        read_hour == Some(hour as u8),
        read_weekend == Some(weekend),
        any.0 == 48,
        !any_regular,
        any_hour is None,
        any_weekend is None,
{
}

/// The slot of a time is one in which it can be, and that of a local time is the one of its
/// hour.
pub proof fn slots_are_those_of_their_times(
    timestamp_us: u64,
    slot: Slot,
    hour: u32,
    weekday: u32,
    local: Slot,
    none: Slot,
)
    requires
        hour < 24,
        weekday < 7,
        call_ensures(Slot::from_timestamp_us, (timestamp_us,), slot),
        call_ensures(Slot::from_local_time, (Some((hour, weekday)),), local),
        call_ensures(Slot::from_local_time, (None,), none),
    ensures
        can_be_slot_of(timestamp_us, slot.0),
        local.0 == 2 * hour + if weekday == 5 || weekday == 6 {
            1int
        } else {
            0int
        },
        none.0 == 48,
{
}

/// The slot of a time within the calendar is the one into which a clock puts just that
/// second.
pub proof fn a_clock_puts_every_time_into_its_slot(timestamp_us: u64, slot: u8) -> (offset: int)
    requires
        can_be_slot_of(timestamp_us, slot),
        timestamp_us < 8_210_266_876_800_000_000,
    ensures
        -86_400 < offset < 86_400,
        is_slot_at((timestamp_us / 1_000_000) as int, offset, slot),
{
    let seconds = (timestamp_us / 1_000_000) as int;
    choose|offset: int| #[trigger] is_slot_at(seconds, offset, slot)
}

} // verus!
