//! Wall-clock readings: the time stamps of the event log and the short
//! time-derived suffix that ends a subdomain when every numbered one is taken.
use vstd::prelude::*;

use std::time::{Duration, SystemTime, SystemTimeError};

use crate::text::{hex, hex_string, push_char, two_digit_string, two_digits};

verus! {

#[verifier::external_type_specification]
#[verifier::external_body]
pub struct ExSystemTime(SystemTime);

#[verifier::external_type_specification]
#[verifier::external_body]
pub struct ExSystemTimeError(SystemTimeError);

/// Calls `SystemTime::now`. Nothing is claimed of the result: it is the clock.
#[verifier::external_body]
fn system_now() -> SystemTime {
    SystemTime::now()
}

/// Calls `SystemTime::duration_since` with `UNIX_EPOCH`; it fails for a clock
/// set before 1970. Nothing is claimed of the result.
#[verifier::external_body]
fn since_unix_epoch(t: &SystemTime) -> Result<Duration, SystemTimeError> {
    t.duration_since(std::time::UNIX_EPOCH)
}

/// Calls `Duration::as_secs`. Nothing is claimed of the result.
#[verifier::external_body]
fn whole_seconds(d: &Duration) -> u64 {
    d.as_secs()
}

/// Calls `Duration::as_millis`. Nothing is claimed of the result.
#[verifier::external_body]
fn whole_millis(d: &Duration) -> u128 {
    d.as_millis()
}

/// `HH:MM:SS` (UTC time of day) of `secs` seconds since the Unix epoch.
pub open spec fn clock_text(secs: nat) -> Seq<char> {
    two_digits((secs % 86400) / 3600) + seq![':'] + two_digits((secs % 3600) / 60) + seq![':']
        + two_digits(secs % 60)
}

/// Formats the UTC time of day of `secs` seconds since the Unix epoch as `HH:MM:SS`.
pub fn format_clock(secs: u64) -> (r: String)
    ensures
        r@ == clock_text(secs as nat),
{
    let hours = (secs % 86400) / 3600;
    let mins = (secs % 3600) / 60;
    let s = secs % 60;
    let mut r = two_digit_string(hours);
    push_char(&mut r, ':');
    let m = two_digit_string(mins);
    r.append(m.as_str());
    push_char(&mut r, ':');
    let t = two_digit_string(s);
    r.append(t.as_str());
    assert(r@ =~= clock_text(secs as nat));
    r
}

/// The current UTC time of day as `HH:MM:SS` (`00:00:00` for a clock set
/// before 1970).
pub fn chrono_now() -> (r: String)
    ensures
        exists|secs: nat| r@ == clock_text(secs),
{
    let now = system_now();
    let secs: u64 = match since_unix_epoch(&now) {
        Ok(d) => whole_seconds(&d),
        Err(_) => 0,
    };
    format_clock(secs)
}

/// Milliseconds since the Unix epoch on the system clock (zero for a clock
/// set before 1970).
fn epoch_millis() -> u128 {
    let now = system_now();
    match since_unix_epoch(&now) {
        Ok(d) => whole_millis(&d),
        Err(_) => 0,
    }
}

/// The short identifier made from a millisecond count: the lower-case
/// hexadecimal rendering of its low 16 bits.
pub open spec fn short_id_spec(ms: u128) -> Seq<char> {
    hex((ms % 0x10000) as nat)
}

/// The lower-case hexadecimal rendering of the low 16 bits of `ms`.
pub fn short_id(ms: u128) -> (r: String)
    ensures
        r@ == short_id_spec(ms),
{
    let low = ms & 0xFFFF;
    assert(ms & 0xFFFF == ms % 0x10000) by (bit_vector);
    hex_string(low as u64)
}

/// A short lower-case hexadecimal string taken from the low 16 bits of the
/// current time in milliseconds.
pub fn uuid_short() -> (r: String)
    ensures
        exists|ms: u128| #[trigger] short_id_spec(ms) == r@,
{
    short_id(epoch_millis())
}

} // verus!
