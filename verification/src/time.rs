//! Spans of time and how they are shown.

use vstd::prelude::*;
use crate::decimal::{one_place, one_place_string, tenths, tenths_of_seconds};
use crate::number::{dec, dec2, dec2_string, dec_string};

verus! {

/// A span of time, counted in nanoseconds.
#[derive(Debug, Clone, Copy, PartialEq, Eq, Structural)]
pub struct Duration {
    pub nanos: u128,
}

impl Duration {
    /// No time at all.
    pub fn zero() -> (r: Duration)
        ensures
            r.nanos == 0,
    {
        Duration { nanos: 0 }
    }

    /// `secs` seconds.
    pub fn from_secs(secs: u64) -> (r: Duration)
        ensures
            r.nanos == secs * 1_000_000_000,
    {
        Duration { nanos: secs as u128 * 1_000_000_000 }
    }

    /// `ms` milliseconds.
    pub fn from_millis(ms: u64) -> (r: Duration)
        ensures
            r.nanos == ms * 1_000_000,
    {
        Duration { nanos: ms as u128 * 1_000_000 }
    }

    /// The whole milliseconds of the span.
    pub fn as_millis(&self) -> (r: u128)
        ensures
            r == self.nanos / 1_000_000,
    {
        self.nanos / 1_000_000
    }

    /// The whole seconds of the span.
    pub fn as_secs(&self) -> (r: u128)
        ensures
            r == self.nanos / 1_000_000_000,
    {
        self.nanos / 1_000_000_000
    }

    /// Whether the span is empty.
    pub fn is_zero(&self) -> (r: bool)
        ensures
            r == (self.nanos == 0),
    {
        self.nanos == 0
    }

    /// The time from `earlier` to this point, none when it lies ahead.
    pub fn since(&self, earlier: Duration) -> (r: Duration)
        ensures
            r.nanos == (if self.nanos >= earlier.nanos {
                self.nanos - earlier.nanos
            } else {
                0
            }),
    {
        Duration { nanos: self.nanos.saturating_sub(earlier.nanos) }
    }
}

/// How a span of `ms` milliseconds reads: milliseconds below a second, seconds
/// with one decimal below a minute, whole minutes and seconds from there on.
pub open spec fn duration_text(ms: nat) -> Seq<char> {
    if ms < 1000 {
        dec(ms) + "ms"@
    } else if ms < 60_000 {
        one_place(tenths_of_seconds(ms)) + "s"@
    } else {
        dec(ms / 1000 / 60) + "m"@ + dec(ms / 1000 % 60) + "s"@
    }
}

/// The span as text.
pub fn format_dur(d: Duration) -> (r: String)
    ensures
        r@ == duration_text((d.nanos / 1_000_000) as nat),
{
    let ms: u128 = d.as_millis();
    if ms < 1000 {
        let mut r = dec_string(ms);
        r.append("ms");
        r
    } else if ms < 60_000 {
        let mut r = one_place_string(tenths(ms));
        r.append("s");
        r
    } else {
        let secs: u128 = ms / 1000;
        let mut r = dec_string(secs / 60);
        r.append("m");
        let rest = dec_string(secs % 60);
        r.append(rest.as_str());
        r.append("s");
        r
    }
}

/// A span of `ms` milliseconds as text.
pub fn format_ms(ms: u64) -> (r: String)
    ensures
        r@ == duration_text(ms as nat),
{
    format_dur(Duration::from_millis(ms))
}

/// How the duration of a recorded run reads: unknown when it is zero, and
/// otherwise like a span, with the seconds past a minute two digits wide.
pub open spec fn recorded_duration_text(ms: nat) -> Seq<char> {
    if ms == 0 {
        "?"@
    } else if ms < 60_000 {
        duration_text(ms)
    } else {
        dec(ms / 60_000) + "m"@ + dec2(ms % 60_000 / 1000) + "s"@
    }
}

/// The duration of a recorded run as text.
pub fn format_duration_ms(ms: u64) -> (r: String)
    ensures
        r@ == recorded_duration_text(ms as nat),
{
    if ms == 0 {
        return "?".to_owned();
    }
    if ms < 60_000 {
        format_ms(ms)
    } else {
        let mut r = dec_string((ms / 60_000) as u128);
        r.append("m");
        let rest = dec2_string((ms % 60_000 / 1000) as u128);
        r.append(rest.as_str());
        r.append("s");
        r
    }
}

/// The largest unit of time that `secs` seconds fill, and how often they do:
/// seconds, minutes, hours or days.
pub open spec fn age_text(secs: nat) -> Seq<char> {
    if secs < 60 {
        dec(secs) + "s"@
    } else if secs < 3600 {
        dec(secs / 60) + "m"@
    } else if secs < 86_400 {
        dec(secs / 3600) + "h"@
    } else {
        dec(secs / 86_400) + "d"@
    }
}

/// The largest unit of time that `secs` seconds fill, and how often they do.
fn age_string(secs: u128) -> (r: String)
    ensures
        r@ == age_text(secs as nat),
{
    let (count, unit): (u128, &str) = if secs < 60 {
        (secs, "s")
    } else if secs < 3600 {
        (secs / 60, "m")
    } else if secs < 86_400 {
        (secs / 3600, "h")
    } else {
        (secs / 86_400, "d")
    };
    let mut r = dec_string(count);
    r.append(unit);
    r
}

/// How long ago something was, as text; a negative age counts as none.
pub fn format_ago(secs: i64) -> (r: String)
    ensures
        r@ == age_text(if secs < 0 { 0 } else { secs as nat }),
{
    age_string(if secs < 0 { 0 } else { secs as u128 })
}

/// The age of something that happened `elapsed` ago, as text.
pub fn format_relative(elapsed: Duration) -> (r: String)
    ensures
        r@ == age_text((elapsed.nanos / 1_000_000_000) as nat) + " ago"@,
{
    let mut r = age_string(elapsed.as_secs());
    r.append(" ago");
    r
}

/// How the time stamp of a run reads at the time `now`, both counted from the
/// epoch: its age, or the stamp itself when it lies ahead of the clock.
pub open spec fn stamp_text(unix_secs: int, now: Duration) -> Seq<char> {
    if unix_secs <= 0 {
        "?"@
    } else if now.nanos < unix_secs * 1_000_000_000 {
        "ts:"@ + dec(unix_secs as nat)
    } else {
        age_text(((now.nanos - unix_secs * 1_000_000_000) / 1_000_000_000) as nat) + " ago"@
    }
}

/// The time stamp of a run as text.
pub fn format_unix_ts(unix_secs: i64, now: Duration) -> (r: String)
    ensures
        r@ == stamp_text(unix_secs as int, now),
{
    if unix_secs <= 0 {
        return "?".to_owned();
    }
    let when = Duration::from_secs(unix_secs as u64);
    if now.nanos < when.nanos {
        let mut r = "ts:".to_owned();
        let n = dec_string(unix_secs as u128);
        r.append(n.as_str());
        r
    } else {
        format_relative(now.since(when))
    }
}

/// A point in time of the system's clock.
#[verifier::external_type_specification]
#[verifier::external_body]
pub struct ExSystemTime(std::time::SystemTime);

/// The error for a point in time that lies before another one.
#[verifier::external_type_specification]
#[verifier::external_body]
pub struct ExSystemTimeError(std::time::SystemTimeError);

/// `SystemTime::now` reads the clock. Nothing is claimed of what it shows.
pub assume_specification[ std::time::SystemTime::now ]() -> (r: std::time::SystemTime);

/// `SystemTime::duration_since` with `UNIX_EPOCH`: the time since the epoch.
/// Nothing is claimed of it.
#[verifier::external_body]
fn since_epoch(t: std::time::SystemTime) -> (r: Result<
    std::time::Duration,
    std::time::SystemTimeError,
>) {
    t.duration_since(std::time::UNIX_EPOCH)
}

/// `Duration::as_secs`: the whole seconds. Nothing is claimed of them.
pub assume_specification[ std::time::Duration::as_secs ](d: &std::time::Duration) -> (r: u64);

/// The time stamp for a number of seconds since the epoch; a clock that is set
/// before the epoch gives zero.
pub open spec fn stamp(seconds: Option<u64>) -> i64 {
    match seconds {
        Some(s) => s as i64,
        None => 0,
    }
}

/// The time stamp for a number of seconds since the epoch.
pub fn timestamp(seconds: Option<u64>) -> (r: i64)
    ensures
        r == stamp(seconds),
{
    match seconds {
        Some(s) => s as i64,
        None => 0,
    }
}

/// Whether the clock may have shown this many seconds since the epoch: `now` is
/// read, and the time from the epoch to it is taken; there is none when it lies
/// before the epoch.
pub closed spec fn may_show(seconds: Option<u64>) -> bool {
    exists|
        now: std::time::SystemTime,
        since: Result<std::time::Duration, std::time::SystemTimeError>,
    | #[trigger]
        is_reading(now, since) && match since {
            Ok(d) => exists|s: u64| #[trigger]
                call_ensures(std::time::Duration::as_secs, (&d,), s) && seconds == Some(s),
            Err(_) => seconds is None,
        }
}

/// Whether the clock may have shown `now`, so long after the epoch.
spec fn is_reading(
    now: std::time::SystemTime,
    since: Result<std::time::Duration, std::time::SystemTimeError>,
) -> bool {
    &&& call_ensures(std::time::SystemTime::now, (), now)
    &&& call_ensures(since_epoch, (now,), since)
}

/// The time stamp of now, in seconds since the epoch, as the clock shows it.
pub fn unix_timestamp_secs() -> (r: i64)
    ensures
        exists|seconds: Option<u64>| #[trigger] may_show(seconds) && r == stamp(seconds),
{
    let now = std::time::SystemTime::now();
    let since = since_epoch(now);
    assert(is_reading(now, since));
    let seconds = match &since {
        Ok(d) => Some(d.as_secs()),
        Err(_) => None,
    };
    assert(may_show(seconds));
    timestamp(seconds)
}

/// A span below a second reads in milliseconds; one of at least a minute in whole minutes and
/// the whole seconds that are left, what is below a second dropped.
pub proof fn law_spans_are_told_in_their_units(ms: nat, minutes: nat, secs: nat, rest: nat)
    requires
        ms < 1000,
        1 <= minutes,
        secs < 60,
        rest < 1000,
    ensures
        duration_text(ms) == dec(ms) + "ms"@,
        duration_text(minutes * 60_000 + secs * 1000 + rest) == dec(minutes) + "m"@ + dec(secs) + "s"@,
        recorded_duration_text(minutes * 60_000 + secs * 1000 + rest) == dec(minutes) + "m"@ + dec2(secs)
            + "s"@,
        ms > 0 ==> recorded_duration_text(ms) == dec(ms) + "ms"@,
        recorded_duration_text(0) == "?"@,
{
    let all = minutes * 60_000 + secs * 1000 + rest;
    assert(all / 1000 == minutes * 60 + secs);
    assert(all / 1000 / 60 == minutes);
    assert(all / 1000 % 60 == secs);
    assert(all / 60_000 == minutes);
    assert(all % 60_000 == secs * 1000 + rest);
    assert((secs * 1000 + rest) / 1000 == secs);
}

/// Between a second and a minute a span reads in tenths of a second, to the nearest one.
pub proof fn law_seconds_are_told_in_tenths(ms: nat)
    requires
        1000 <= ms < 60_000,
    ensures
        exists|n: nat| #[trigger]
            one_place(n) + "s"@ == duration_text(ms) && 100 * n <= ms + 50 && ms <= 100 * n + 50,
        recorded_duration_text(ms) == duration_text(ms),
{
    crate::decimal::law_tenths_are_nearest(ms);
    let n = tenths_of_seconds(ms);
    assert(one_place(n) + "s"@ == duration_text(ms));
}

/// An age reads in the largest unit that it fills: seconds below a minute, then whole
/// minutes, hours and days.
pub proof fn law_ages_are_told_in_their_largest_unit(s: nat, m: nat, h: nat, d: nat, rest: nat)
    requires
        s < 60,
        1 <= m < 60,
        1 <= h < 24,
        1 <= d,
        rest < 86_400,
    ensures
        age_text(s) == dec(s) + "s"@,
        age_text(m * 60 + s) == dec(m) + "m"@,
        age_text(h * 3600 + m * 60 + s) == dec(h) + "h"@,
        age_text(d * 86_400 + rest) == dec(d) + "d"@,
{
    assert((m * 60 + s) / 60 == m);
    assert((h * 3600 + m * 60 + s) / 3600 == h);
    assert((d * 86_400 + rest) / 86_400 == d);
}

/// A time stamp that lies back reads as its age, in whole seconds; one ahead of the clock
/// reads as itself, and none as unknown.
pub proof fn law_stamps_are_told_as_ages(stamp: nat, now: Duration, secs: nat)
    requires
        stamp > 0,
    ensures
        (stamp + secs) * 1_000_000_000 <= now.nanos < (stamp + secs + 1) * 1_000_000_000 ==> stamp_text(
            stamp as int,
            now,
        ) == age_text(secs) + " ago"@,
        now.nanos < stamp * 1_000_000_000 ==> stamp_text(stamp as int, now) == "ts:"@ + dec(stamp),
        forall|none: int| none <= 0 ==> #[trigger] stamp_text(none, now) == "?"@,
{
    if (stamp + secs) * 1_000_000_000 <= now.nanos < (stamp + secs + 1) * 1_000_000_000 {
        assert((now.nanos - stamp * 1_000_000_000) / 1_000_000_000 == secs);
    }
}

/// The texts that are handed out are those of the spans, ages and stamps that were asked
/// about; an age below zero counts as none.
pub proof fn law_what_is_told_of_time(
    d: Duration,
    ms: u64,
    secs: i64,
    now: Duration,
    span: String,
    short: String,
    recorded: String,
    ago: String,
    since: String,
    stamp: String,
)
    requires
        call_ensures(format_dur, (d,), span),
        call_ensures(format_ms, (ms,), short),
        call_ensures(format_duration_ms, (ms,), recorded),
        call_ensures(format_ago, (secs,), ago),
        call_ensures(format_relative, (d,), since),
        call_ensures(format_unix_ts, (secs, now), stamp),
    ensures
        span@ == duration_text((d.nanos / 1_000_000) as nat),
        short@ == duration_text(ms as nat),
        recorded@ == recorded_duration_text(ms as nat),
        secs >= 0 ==> ago@ == age_text(secs as nat),
        secs < 0 ==> ago@ == age_text(0),
        since@ == age_text((d.nanos / 1_000_000_000) as nat) + " ago"@,
        stamp@ == stamp_text(secs as int, now),
{
}

/// A second has a thousand milliseconds and a millisecond a million nanoseconds, whichever
/// way a span is counted.
pub proof fn law_units_of_time(
    secs: u64,
    ms: u64,
    a: Duration,
    b: Duration,
    d: Duration,
    whole_ms: u128,
    whole_secs: u128,
    none: bool,
    zero: Duration,
)
    requires
        call_ensures(Duration::from_secs, (secs,), a),
        call_ensures(Duration::from_millis, (ms,), b),
        call_ensures(Duration::as_millis, (&d,), whole_ms),
        call_ensures(Duration::as_secs, (&d,), whole_secs),
        call_ensures(Duration::is_zero, (&d,), none),
        call_ensures(Duration::zero, (), zero),
    ensures
        a.nanos == secs * 1_000_000_000,
        b.nanos == ms * 1_000_000,
        d == a ==> whole_secs == secs && whole_ms == secs * 1000,
        d == b ==> whole_ms == ms,
        whole_ms * 1_000_000 <= d.nanos < (whole_ms + 1) * 1_000_000,
        whole_secs * 1_000_000_000 <= d.nanos < (whole_secs + 1) * 1_000_000_000,
        none <==> d.nanos == 0,
        zero.nanos == 0,
{
}

/// The time from one point to a later one, added to the earlier, gives the later; there is
/// none to an earlier one.
pub proof fn law_time_between_points(now: Duration, earlier: Duration, r: Duration)
    requires
        call_ensures(Duration::since, (&now, earlier), r),
    ensures
        earlier.nanos <= now.nanos ==> earlier.nanos + r.nanos == now.nanos,
        now.nanos < earlier.nanos ==> r.nanos == 0,
{
}

/// The time stamp is the number of seconds since the epoch, and zero where the clock is set
/// before it.
pub proof fn law_stamp_counts_seconds(seconds: u64)
    ensures
        seconds <= i64::MAX ==> stamp(Some(seconds)) == seconds,
        stamp(None) == 0,
{
}

/// The time stamp that is handed out is the number of seconds that the clock shows.
pub proof fn law_stamp_is_what_the_clock_shows(seconds: Option<u64>, r: i64)
    requires
        call_ensures(timestamp, (seconds,), r),
    ensures
        seconds is None ==> r == 0,
        seconds matches Some(s) ==> s <= i64::MAX ==> r == s,
{
}

} // verus!
