//! What the service takes from its surroundings: the system clock, a
//! monotonic timer and random identifiers.
use std::time::{Duration, Instant, SystemTime, UNIX_EPOCH};
use vstd::prelude::*;

use crate::types::{Timestamp, MAX_CLOCK_SECS, NANOS_PER_SEC};

verus! {

#[verifier::external_type_specification]
#[verifier::external_body]
pub struct ExInstant(Instant);

#[verifier::external_type_specification]
#[verifier::external_body]
pub struct ExSystemTime(SystemTime);

/// A reading of the system clock, `std::time::SystemTime::now`; nothing is
/// said of which time it reads.
#[verifier::external_body]
fn system_now() -> SystemTime {
    SystemTime::now()
}

/// The time from the Unix epoch to `t`,
/// `std::time::SystemTime::duration_since(UNIX_EPOCH)`; `None` where that
/// call reports an error, which it does when `t` is before the epoch.
#[verifier::external_body]
fn since_unix_epoch(t: &SystemTime) -> Option<Duration> {
    match t.duration_since(UNIX_EPOCH) {
        Ok(d) => Some(d),
        Err(_) => None,
    }
}

/// Whole seconds in `d`, `std::time::Duration::as_secs`.
#[verifier::external_body]
fn duration_secs(d: &Duration) -> u64 {
    d.as_secs()
}

/// The part of `d` below a whole second, in nanoseconds,
/// `std::time::Duration::subsec_nanos`; documented to be less than one
/// billion.
#[verifier::external_body]
fn duration_subsec_nanos(d: &Duration) -> (n: u32)
    ensures
        n < NANOS_PER_SEC,
{
    d.subsec_nanos()
}

/// The UTC date-time `secs` seconds and `nanos` nanoseconds after the Unix
/// epoch, through `chrono::DateTime::<Utc>::from_timestamp`, read back by
/// its `timestamp` and `timestamp_subsec_nanos`.
///
/// chrono gives `None` for a time past the end of its calendar (the last
/// second of the year 262142, `MAX_CLOCK_SECS`) and otherwise the date-time,
/// which reads back as the same seconds and nanoseconds (chrono documents
/// the round trip). Only times from the epoch on, with fewer than a second
/// of nanoseconds, are admitted.
#[verifier::external_body]
fn utc_from_timestamp(secs: i64, nanos: u32) -> (r: Option<Timestamp>)
    requires
        0 <= secs,
        nanos < NANOS_PER_SEC,
    ensures
        r is Some <==> secs <= MAX_CLOCK_SECS,
        r matches Some(t) ==> t.secs == secs && t.nanos == nanos,
{
    match chrono::DateTime::<chrono::Utc>::from_timestamp(secs, nanos) {
        Some(d) => Some(Timestamp { secs: d.timestamp(), nanos: d.timestamp_subsec_nanos() }),
        None => None,
    }
}

/// The current UTC time, or `None` when the system clock reads a time
/// before the Unix epoch or past the end of chrono's calendar. Which time is
/// read is not stated, only that it is one the clock can report.
pub(crate) fn utc_now() -> (t: Option<Timestamp>)
    ensures
        t matches Some(t) ==> t.in_clock_range(),
{
    let now = system_now();
    match since_unix_epoch(&now) {
        Some(d) => {
            let secs = duration_secs(&d);
            let nanos = duration_subsec_nanos(&d);
            if secs <= i64::MAX as u64 {
                utc_from_timestamp(secs as i64, nanos)
            } else {
                None
            }
        },
        None => None,
    }
}

pub open spec fn is_lower_hex_digit(c: char) -> bool {
    ('0' <= c && c <= '9') || ('a' <= c && c <= 'f')
}

/// The hyphenated text of a random (version 4) UUID: 36 characters, hyphens
/// at positions 8, 13, 18 and 23, lower-case hexadecimal digits elsewhere,
/// the version digit `4` and a variant digit among `8`, `9`, `a`, `b`.
pub open spec fn is_random_uuid_text(s: Seq<char>) -> bool {
    &&& s.len() == 36
    &&& forall|i: int|
        0 <= i < 36 ==> if i == 8 || i == 13 || i == 18 || i == 23 {
            #[trigger] s[i] == '-'
        } else {
            is_lower_hex_digit(s[i])
        }
    &&& s[14] == '4'
    &&& (s[19] == '8' || s[19] == '9' || s[19] == 'a' || s[19] == 'b')
}

/// A fresh random identifier: `uuid::Uuid::new_v4`, written out by its
/// `Display` impl.
///
/// The uuid crate masks the random bits to version 4 and the RFC variant
/// and displays the value hyphenated in lower case; that shape is what the
/// contract states. Which identifier comes out is left open.
#[verifier::external_body]
pub(crate) fn random_uuid_text() -> (s: String)
    ensures
        is_random_uuid_text(s@),
{
    uuid::Uuid::new_v4().to_string()
}

/// `zdns_` followed by the text of a random UUID: the shape of node and
/// transaction identifiers.
pub open spec fn is_zdns_id(s: Seq<char>) -> bool {
    &&& s.len() == 41
    &&& s.subrange(0, 5) == "zdns_"@
    &&& is_random_uuid_text(s.subrange(5, 41))
}

/// A fresh identifier: `zdns_` followed by a random UUID.
pub fn new_zdns_id() -> (s: String)
    ensures
        is_zdns_id(s@),
{
    let uuid = random_uuid_text();
    let mut id = "zdns_".to_owned();
    id.append(uuid.as_str());
    proof {
        reveal_strlit("zdns_");
        assert(id@.subrange(0, 5) =~= "zdns_"@);
        assert(id@.subrange(5, 41) =~= uuid@);
    }
    id
}

/// A reading of the monotonic clock, `std::time::Instant::now`.
#[verifier::external_body]
pub(crate) fn start_timer() -> Instant {
    Instant::now()
}

/// The time since `start`, `std::time::Instant::elapsed`; no bound is stated.
#[verifier::external_body]
fn elapsed_since(start: &Instant) -> Duration {
    start.elapsed()
}

/// Whole milliseconds in `d`, `std::time::Duration::as_millis`; no bound is
/// stated.
#[verifier::external_body]
fn duration_millis(d: &Duration) -> u128 {
    d.as_millis()
}

/// Whole milliseconds since `start`, cut to 64 bits. The value is a reading
/// of the monotonic clock, so no clause bounds or names it.
pub(crate) fn millis_since(start: &Instant) -> u64 {
    let d = elapsed_since(start);
    let ms = duration_millis(&d);
    ms as u64
}

} // verus!
