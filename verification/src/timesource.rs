use vstd::prelude::*;
use chrono::Datelike;
use chrono::Timelike;
use crate::time::{TimeOfDay, Date, ZoneTime};

verus! {

/// The instant a tick samples, carried opaquely between the two chrono calls;
/// chrono's `DateTime` is generic over its `TimeZone` trait, which keeps the
/// type itself from being declared to the verifier.
#[verifier::external_body]
struct Instant {
    inner: chrono::DateTime<chrono::Utc>,
}

/// chrono-tz's named zone rule.
#[verifier::external_type_specification]
#[verifier::external_body]
pub struct ExTz(chrono_tz::Tz);

/// One displayed clock: a label and the zone rule its time is rendered in.
pub struct Clock {
    pub name: String,
    pub tz: chrono_tz::Tz,
}

/// Relies on chrono::Local::now and the Timelike accessors: hour is 0..=23,
/// minute and second 0..=59.
#[verifier::external_body]
fn local_now() -> (r: TimeOfDay)
    ensures
        r.wf(),
{
    let t = chrono::Local::now().time();
    TimeOfDay { hour: t.hour() as u8, minute: t.minute() as u8, second: t.second() as u8 }
}

/// Relies on chrono::Utc::now: the current instant. It is sampled once per
/// tick so that every clock reflects the same instant.
#[verifier::external_body]
fn utc_now() -> Instant {
    Instant { inner: chrono::Utc::now() }
}

/// Relies on chrono::DateTime::with_timezone and the Datelike/Timelike
/// accessors: hour is 0..=23, minute and second 0..=59, month 1..=12, day
/// 1..=31, and the year within chrono's calendar range.
#[verifier::external_body]
fn zone_time(instant: &Instant, tz: &chrono_tz::Tz) -> (r: ZoneTime)
    ensures
        r.wf(),
{
    let t = instant.inner.with_timezone(tz);
    ZoneTime {
        time: TimeOfDay {
            hour: t.hour() as u8,
            minute: t.minute() as u8,
            second: t.second() as u8,
        },
        date: Date { year: t.year(), month: t.month() as u8, day: t.day() as u8 },
    }
}

/// Sample the local time and, from one shared instant, every clock's zone
/// time and date.
pub fn sample_now(clocks: &Vec<Clock>) -> (r: (TimeOfDay, Vec<ZoneTime>))
    ensures
        r.0.wf(),
        r.1@.len() == clocks@.len(),
        forall|i: int| 0 <= i < clocks@.len() ==> (#[trigger] r.1@[i]).wf(),
{
    let local = local_now();
    let instant = utc_now();
    let mut zts: Vec<ZoneTime> = Vec::new();
    let mut k: usize = 0;
    while k < clocks.len()
        invariant
            0 <= k <= clocks@.len(),
            zts@.len() == k,
            forall|i: int| 0 <= i < k ==> (#[trigger] zts@[i]).wf(),
        decreases clocks@.len() - k,
    {
        let zt = zone_time(&instant, &clocks[k].tz);
        zts.push(zt);
        k = k + 1;
    }
    (local, zts)
}

} // verus!
