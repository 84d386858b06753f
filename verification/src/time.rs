//! The calendar side of the pipeline: which imagery timestamp is the latest
//! that the provider has published, and which hour it is at the satellite.

use chrono::{Datelike, Timelike};
use vstd::prelude::*;

verus! {

/// Seconds between the moment an image is taken and the moment it can be fetched.
pub const PUBLICATION_LATENCY_SECONDS: i64 = 1800;

/// The provider publishes one image every this many minutes.
pub const CADENCE_MINUTES: u32 = 10;

/// Offset of the reference clock (UTC+9) from UTC, in seconds.
pub const REFERENCE_OFFSET_SECONDS: i64 = 32400;

/// A minute of the UTC calendar.
#[derive(Clone, Copy, Debug, PartialEq, Eq, Structural)]
pub struct CivilTime {
    pub year: i32,
    pub month: u32,
    pub day: u32,
    pub hour: u32,
    pub minute: u32,
}

impl CivilTime {
    /// Month, day, hour and minute are such as a calendar shows.
    pub open spec fn in_range(self) -> bool {
        &&& 1 <= self.month <= 12
        &&& 1 <= self.day <= 31
        &&& self.hour < 24
        &&& self.minute < 60
    }

    /// `self` is the same minute as `other` or an earlier one.
    pub open spec fn not_later_than(self, other: CivilTime) -> bool {
        self.year < other.year || (self.year == other.year && (self.month < other.month || (
        self.month == other.month && (self.day < other.day || (self.day == other.day && (self.hour
            < other.hour || (self.hour == other.hour && self.minute <= other.minute)))))))
    }

    /// This minute moved back to the start of its publication slot.
    pub open spec fn quantized(self) -> CivilTime {
        CivilTime { minute: (self.minute / CADENCE_MINUTES * CADENCE_MINUTES) as u32, ..self }
    }

    /// The two minutes lie in the same publication slot.
    pub open spec fn same_slot(self, other: CivilTime) -> bool {
        &&& self.year == other.year
        &&& self.month == other.month
        &&& self.day == other.day
        &&& self.hour == other.hour
        &&& self.minute / CADENCE_MINUTES == other.minute / CADENCE_MINUTES
    }
}

/// The day on which a UNIX timestamp falls, counted from 1 January 1970.
pub open spec fn day_number(unix_seconds: int) -> int {
    unix_seconds / 86400
}

/// The second of its day on which a UNIX timestamp falls.
pub open spec fn second_of_day(unix_seconds: int) -> int {
    unix_seconds % 86400
}

/// Year, month and day of the proleptic Gregorian calendar on the given day
/// after 1 January 1970, as chrono's `DateTime::from_timestamp` computes
/// them; `None` for a day that chrono cannot represent.
pub uninterp spec fn utc_date(day_number: int) -> Option<(i32, u32, u32)>;

/// The UTC calendar minute on which a UNIX timestamp falls.
pub open spec fn civil_at(unix_seconds: int) -> Option<CivilTime> {
    match utc_date(day_number(unix_seconds)) {
        Some((year, month, day)) => Some(
            CivilTime {
                year,
                month,
                day,
                hour: (second_of_day(unix_seconds) / 3600) as u32,
                minute: (second_of_day(unix_seconds) / 60 % 60) as u32,
            },
        ),
        None => None,
    }
}

/// Calls chrono's `DateTime::from_timestamp` with no nanoseconds and reads
/// the result back through `Datelike` and `Timelike`.
///
/// Trusted: chrono splits the timestamp into a day number and a second of the
/// day by Euclidean division by 86400, takes the date from the day number
/// alone, the hour as the second of the day over 3600 and the minute as the
/// minute of the day modulo 60; it fails exactly when it has no date for the
/// day; months run from 1 to 12 and days from 1 to 31.
#[verifier::external_body]
pub(crate) fn calendar_of(unix_seconds: i64) -> (res: Option<CivilTime>)
    ensures
        res is Some <==> utc_date(day_number(unix_seconds as int)) is Some,
        res == civil_at(unix_seconds as int),
        res matches Some(c) ==> c.in_range(),
{
    match chrono::DateTime::from_timestamp(unix_seconds, 0) {
        Some(t) => Some(
            CivilTime {
                year: t.year(),
                month: t.month(),
                day: t.day(),
                hour: t.hour(),
                minute: t.minute(),
            },
        ),
        None => None,
    }
}

/// The timestamp of an image of the provider: a calendar minute at the start
/// of a publication slot.
#[derive(Clone, Copy, Debug, PartialEq, Eq)]
pub struct ImageryTimestamp {
    year: i32,
    month: u32,
    day: u32,
    hour: u32,
    minute: u32,
}

impl View for ImageryTimestamp {
    type V = CivilTime;

    closed spec fn view(&self) -> CivilTime {
        CivilTime {
            year: self.year,
            month: self.month,
            day: self.day,
            hour: self.hour,
            minute: self.minute,
        }
    }
}

impl ImageryTimestamp {
    #[verifier::type_invariant]
    spec fn inv(self) -> bool {
        self@.in_range() && self.minute % CADENCE_MINUTES == 0
    }

    /// The start of the publication slot in which `minute` lies; `None` for
    /// what is no minute of the calendar.
    pub fn quantize(minute: CivilTime) -> (res: Option<ImageryTimestamp>)
        ensures
            res is Some <==> minute.in_range(),
            res matches Some(ts) ==> {
                &&& ts@ == minute.quantized()
                &&& ts@.minute % CADENCE_MINUTES == 0
                &&& ts@.not_later_than(minute)
                &&& minute.minute - ts@.minute < CADENCE_MINUTES
                &&& ts@.in_range()
            },
    {
        if minute.month < 1 || minute.month > 12 || minute.day < 1 || minute.day > 31
            || minute.hour >= 24 || minute.minute >= 60 {
            return None;
        }
        Some(
            ImageryTimestamp {
                year: minute.year,
                month: minute.month,
                day: minute.day,
                hour: minute.hour,
                minute: minute.minute / CADENCE_MINUTES * CADENCE_MINUTES,
            },
        )
    }

    pub fn year(&self) -> (y: i32)
        ensures
            y == self@.year,
    {
        self.year
    }

    pub fn month(&self) -> (m: u32)
        ensures
            m == self@.month,
            1 <= m <= 12,
    {
        proof {
            use_type_invariant(self);
        }
        self.month
    }

    pub fn day(&self) -> (d: u32)
        ensures
            d == self@.day,
            1 <= d <= 31,
    {
        proof {
            use_type_invariant(self);
        }
        self.day
    }

    pub fn hour(&self) -> (h: u32)
        ensures
            h == self@.hour,
            h < 24,
    {
        proof {
            use_type_invariant(self);
        }
        self.hour
    }

    pub fn minute(&self) -> (m: u32)
        ensures
            m == self@.minute,
            m < 60,
            m % CADENCE_MINUTES == 0,
    {
        proof {
            use_type_invariant(self);
        }
        self.minute
    }
}

/// The imagery timestamp to ask for at the instant `now`: the slot in which
/// the instant lay one publication latency ago.
pub open spec fn imagery_time(now: int) -> Option<CivilTime> {
    match civil_at(now - PUBLICATION_LATENCY_SECONDS) {
        Some(minute) => Some(minute.quantized()),
        None => None,
    }
}

/// The latest imagery timestamp that is published at the UNIX timestamp
/// `now`; `None` where the calendar does not reach.
pub fn imagery_timestamp_at(now: i64) -> (res: Option<ImageryTimestamp>)
    ensures
        match res {
            Some(ts) => imagery_time(now as int) == Some(ts@) && ts@.in_range() && ts@.minute
                % CADENCE_MINUTES == 0 && ts@.not_later_than(
                civil_at(now - PUBLICATION_LATENCY_SECONDS).unwrap(),
            ),
            None => imagery_time(now as int) is None || now - PUBLICATION_LATENCY_SECONDS
                < i64::MIN,
        },
{
    match now.checked_sub(PUBLICATION_LATENCY_SECONDS) {
        Some(then) => match calendar_of(then) {
            Some(minute) => ImageryTimestamp::quantize(minute),
            None => None,
        },
        None => None,
    }
}

/// The hour that the reference clock (UTC+9) shows at the instant `now`:
/// the hour of the calendar minute nine hours later. There is none where
/// that minute lies behind the last UNIX timestamp or where the calendar
/// does not reach.
pub open spec fn reference_hour_of(now: int) -> Option<u32> {
    if now + REFERENCE_OFFSET_SECONDS > i64::MAX {
        None
    } else {
        match civil_at(now + REFERENCE_OFFSET_SECONDS) {
            Some(minute) => Some(minute.hour),
            None => None,
        }
    }
}

/// The hour that the reference clock (UTC+9) shows at the UNIX timestamp
/// `now`; `None` where the calendar does not reach.
pub fn reference_hour_at(now: i64) -> (res: Option<u32>)
    ensures
        res == reference_hour_of(now as int),
        res matches Some(hour) ==> hour == second_of_day(now + REFERENCE_OFFSET_SECONDS) / 3600
            && hour < 24,
{
    match now.checked_add(REFERENCE_OFFSET_SECONDS) {
        Some(shifted) => match calendar_of(shifted) {
            Some(minute) => Some(minute.hour),
            None => None,
        },
        None => None,
    }
}

/// The imagery timestamp is the start of a ten-minute slot and never later
/// than the minute it was computed from.
pub proof fn lemma_quantized_not_later(minute: CivilTime)
    requires
        minute.in_range(),
    ensures
        minute.quantized().minute % CADENCE_MINUTES == 0,
        minute.quantized().not_later_than(minute),
        minute.quantized().in_range(),
        minute.quantized().same_slot(minute),
{
}

/// Two minutes of one publication slot give the same imagery timestamp.
pub proof fn lemma_same_slot_same_timestamp(a: CivilTime, b: CivilTime)
    requires
        a.same_slot(b),
    ensures
        a.quantized() == b.quantized(),
{
}

/// Two instants of one publication slot give the same imagery timestamp:
/// within a slot every refresh asks for the same image.
pub proof fn lemma_same_bucket_same_timestamp(now1: int, now2: int)
    requires
        (now1 - PUBLICATION_LATENCY_SECONDS) / 600 == (now2 - PUBLICATION_LATENCY_SECONDS) / 600,
    ensures
        imagery_time(now1) == imagery_time(now2),
{
    let a = now1 - PUBLICATION_LATENCY_SECONDS;
    let b = now2 - PUBLICATION_LATENCY_SECONDS;
    lemma_slot_parts(a);
    lemma_slot_parts(b);
}

/// Day, hour and ten-minute slot of an instant depend on its 600-second bucket alone.
proof fn lemma_slot_parts(t: int)
    ensures
        day_number(t) == (t / 600) / 144,
        second_of_day(t) / 3600 == ((t / 600) % 144) / 6,
        (second_of_day(t) / 60 % 60) / 10 == ((t / 600) % 144) % 6,
{
    let q = t / 600;
    let r = t % 600;
    assert(t == 600 * q + r);
    let d = q / 144;
    let s = q % 144;
    assert(q == 144 * d + s);
    assert(t == 86400 * d + (600 * s + r));
    assert(0 <= 600 * s + r < 86400);
    assert(t / 86400 == d && t % 86400 == 600 * s + r) by {
        vstd::arithmetic::div_mod::lemma_fundamental_div_mod_converse(t, 86400, d, 600 * s + r);
    }
    let sod = 600 * s + r;
    let h = s / 6;
    let m10 = s % 6;
    assert(s == 6 * h + m10);
    assert(sod == 3600 * h + (600 * m10 + r));
    assert(sod / 3600 == h) by {
        vstd::arithmetic::div_mod::lemma_fundamental_div_mod_converse(sod, 3600, h, 600 * m10 + r);
    }
    let mins = sod / 60;
    let rs = r / 60;
    let rr = r % 60;
    assert(sod == 60 * (60 * h + 10 * m10 + rs) + rr);
    assert(mins == 60 * h + 10 * m10 + rs) by {
        vstd::arithmetic::div_mod::lemma_fundamental_div_mod_converse(
            sod,
            60,
            60 * h + 10 * m10 + rs,
            rr,
        );
    }
    assert(mins % 60 == 10 * m10 + rs) by {
        vstd::arithmetic::div_mod::lemma_fundamental_div_mod_converse(mins, 60, h, 10 * m10 + rs);
    }
    assert((10 * m10 + rs) / 10 == m10) by {
        vstd::arithmetic::div_mod::lemma_fundamental_div_mod_converse(10 * m10 + rs, 10, m10, rs);
    }
}

} // verus!
