//! Time: a monotonic counter read in nanoseconds, and wall-clock instants as
//! dates, hours and days of the week.
//!
//! Everything downstream is inter-event intervals, so what matters of the
//! counter is resolution and monotonicity, not absolute accuracy.

use vstd::prelude::*;

use crate::calendar::{civil_date, Date};
use crate::text::{push_padded_signed, push_zero_padded};
use crate::utf16::decode_until_zero;

verus! {

// ---- the counter ------------------------------------------------------------------

/// Converts readings of a performance counter.
#[derive(Clone, Copy)]
pub struct Clock {
    freq: i64,
    origin: i64,
    /// Wall-clock time corresponding to nanosecond 0.
    ///
    /// Event timestamps are relative to this clock, which is created once per
    /// process, not per session. Without this anchor there is no way to map an
    /// event back to a wall-clock instant.
    origin_unix_ms: u64,
}

/// Ticks from `origin` to `counter`, and none where the counter ran backwards.
pub open spec fn ticks_between(origin: i64, counter: i64) -> int {
    let d = vstd::wrapping::i64_specs::wrapping_sub(counter, origin);
    if d < 0 {
        0
    } else {
        d as int
    }
}

/// So many ticks in nanoseconds, rounded down.
pub open spec fn ticks_in_ns(ticks: int, freq: int) -> int {
    ticks * 1_000_000_000 / freq
}

impl Clock {
    pub closed spec fn freq_spec(&self) -> i64 {
        self.freq
    }

    pub closed spec fn origin_spec(&self) -> i64 {
        self.origin
    }

    pub closed spec fn origin_unix_ms_spec(&self) -> u64 {
        self.origin_unix_ms
    }

    /// A counter ticks.
    pub open spec fn wf(&self) -> bool {
        self.freq_spec() > 0
    }

    /// Nanoseconds from the origin to the reading.
    pub open spec fn elapsed_ns(&self, counter: i64) -> int {
        ticks_in_ns(ticks_between(self.origin_spec(), counter), self.freq_spec() as int)
    }

    /// The clock that starts now, given the counter's ticks per second, its reading
    /// and the wall-clock time.
    pub fn new(freq: i64, origin: i64, origin_unix_ms: u64) -> (c: Self)
        requires
            freq > 0,
        ensures
            c.wf(),
            c.freq_spec() == freq,
            c.origin_spec() == origin,
            c.origin_unix_ms_spec() == origin_unix_ms,
            c.elapsed_ns(origin) == 0,
    {
        let c = Clock { freq, origin, origin_unix_ms };
        proof {
            vstd::arithmetic::div_mod::lemma_div_basics(freq as int);
        }
        c
    }

    /// Wall-clock milliseconds at nanosecond 0.
    pub fn origin_unix_ms(&self) -> (ms: u64)
        ensures
            ms == self.origin_unix_ms_spec(),
    {
        self.origin_unix_ms
    }

    /// Nanoseconds from the start of this clock to the reading.
    ///
    /// Split into whole seconds and remainder before scaling, so that long spans
    /// do not overflow.
    pub fn now_ns(&self, counter: i64) -> (ns: u64)
        requires
            self.wf(),
            self.elapsed_ns(counter) <= u64::MAX,
        ensures
            ns == self.elapsed_ns(counter),
    {
        let d: i64 = counter.wrapping_sub(self.origin);
        let ticks: u64 = if d < 0 {
            0
        } else {
            d as u64
        };
        let freq: u64 = self.freq as u64;
        let secs: u64 = ticks / freq;
        let rem: u64 = ticks % freq;
        proof {
            lemma_split_scale(ticks as int, freq as int);
            lemma_part_bound(rem as int, freq as int);
        }
        let part: u64 = (rem as u128 * 1_000_000_000 / freq as u128) as u64;
        secs * 1_000_000_000 + part
    }

    /// The counter's ticks per second.
    pub fn freq(&self) -> (f: i64)
        ensures
            f == self.freq_spec(),
    {
        self.freq
    }
}

/// Less than a second is less than so many nanoseconds.
proof fn lemma_part_bound(rem: int, freq: int)
    by (nonlinear_arith)
    requires
        0 <= rem < freq,
    ensures
        0 <= rem * 1_000_000_000 / freq < 1_000_000_000,
{
}

/// Scaling whole seconds and the remainder apart gives the same as scaling all.
proof fn lemma_split_scale(ticks: int, freq: int)
    requires
        freq > 0,
        ticks >= 0,
    ensures
        ticks_in_ns(ticks, freq) == ticks / freq * 1_000_000_000 + ticks % freq * 1_000_000_000
            / freq,
{
    let q = ticks / freq;
    let r = ticks % freq;
    vstd::arithmetic::div_mod::lemma_fundamental_div_mod(ticks, freq);
    assert(ticks * 1_000_000_000 == freq * (q * 1_000_000_000) + r * 1_000_000_000)
        by (nonlinear_arith)
        requires
            ticks == freq * q + r,
    ;
    vstd::arithmetic::div_mod::lemma_hoist_over_denominator(
        r * 1_000_000_000,
        q * 1_000_000_000,
        freq as nat,
    );
    assert(freq * (q * 1_000_000_000) == (q * 1_000_000_000) * freq) by (nonlinear_arith);
}

/// Readings that do not run backwards give nanoseconds that do not either.
pub proof fn law_elapsed_time_is_monotonic(clock: Clock, earlier: i64, later: i64)
    requires
        clock.wf(),
        clock.origin_spec() <= earlier <= later,
        later - clock.origin_spec() <= i64::MAX,
    ensures
        clock.elapsed_ns(earlier) <= clock.elapsed_ns(later),
{
    let a = ticks_between(clock.origin_spec(), earlier);
    let b = ticks_between(clock.origin_spec(), later);
    assert(a * 1_000_000_000 <= b * 1_000_000_000);
    vstd::arithmetic::div_mod::lemma_div_is_ordered(
        a * 1_000_000_000,
        b * 1_000_000_000,
        clock.freq_spec() as int,
    );
}

// ---- the wall clock -----------------------------------------------------------------

/// `std::time::SystemTime`, carried through opaquely.
#[verifier::external_type_specification]
#[verifier::external_body]
pub struct ExSystemTime(std::time::SystemTime);

/// `std::time::SystemTimeError`, carried through opaquely.
#[verifier::external_type_specification]
#[verifier::external_body]
pub struct ExSystemTimeError(std::time::SystemTimeError);

/// `SystemTime::now`: whatever the machine's clock says.
#[verifier::external_body]
fn system_time_now() -> std::time::SystemTime {
    std::time::SystemTime::now()
}

/// `SystemTime::duration_since` from the Unix epoch: nothing is said of the
/// result, which is an error where the time lies before the epoch.
#[verifier::external_body]
fn since_epoch(t: std::time::SystemTime) -> Result<
    std::time::Duration,
    std::time::SystemTimeError,
> {
    t.duration_since(std::time::UNIX_EPOCH)
}

/// `Duration::as_millis`: the whole milliseconds; nothing is said of the result.
#[verifier::external_body]
fn duration_millis(d: std::time::Duration) -> u128 {
    d.as_millis()
}

/// The elapsed milliseconds as far as 64 bits hold them, and 0 for a time before
/// the epoch.
pub fn unix_millis_of(elapsed: Option<u128>) -> (ms: u64)
    ensures
        ms == match elapsed {
            Some(n) => n as int % 0x1_0000_0000_0000_0000,
            None => 0,
        },
{
    match elapsed {
        Some(n) => (n % 0x1_0000_0000_0000_0000) as u64,
        None => 0,
    }
}

/// Wall-clock milliseconds since the Unix epoch. Session metadata only: never
/// used for anything that needs monotonicity. What the machine's clock says is
/// not known here; `unix_millis_of` says what is made of it.
pub fn unix_millis() -> u64 {
    match since_epoch(system_time_now()) {
        Ok(d) => unix_millis_of(Some(duration_millis(d))),
        Err(_) => unix_millis_of(None),
    }
}

// ---- the time zone ------------------------------------------------------------------

/// What `rc` is while daylight saving time is in force.
pub const TZ_ID_DAYLIGHT: u32 = 2;

/// What `rc` is where the zone could not be read.
pub const TZ_ID_INVALID: u32 = 0xFFFF_FFFF;

/// The machine's time zone as Windows reports it.
pub struct ZoneReading {
    /// What the call returned.
    pub rc: u32,
    pub bias: i32,
    pub standard_bias: i32,
    pub daylight_bias: i32,
    /// Both names are cut at their first zero.
    pub standard_name: Vec<u16>,
    pub daylight_name: Vec<u16>,
}

impl ZoneReading {
    /// Minutes to add to UTC to get local time.
    pub open spec fn offset_spec(&self) -> int {
        if self.rc == TZ_ID_INVALID {
            0
        } else if self.rc == TZ_ID_DAYLIGHT {
            -(self.bias + self.daylight_bias)
        } else {
            -(self.bias + self.standard_bias)
        }
    }

    /// The offset in force stays in range.
    pub open spec fn offset_fits_spec(&self) -> bool {
        self.rc == TZ_ID_INVALID || i32::MIN < -self.offset_spec() <= i32::MAX
    }

    /// Whether the offset in force stays in range.
    pub fn offset_fits(&self) -> (r: bool)
        ensures
            r == self.offset_fits_spec(),
    {
        if self.rc == TZ_ID_INVALID {
            return true;
        }
        let extra: i32 = if self.rc == TZ_ID_DAYLIGHT {
            self.daylight_bias
        } else {
            self.standard_bias
        };
        let sum: i64 = self.bias as i64 + extra as i64;
        sum > i32::MIN as i64 && sum <= i32::MAX as i64
    }

    /// The name in force.
    pub open spec fn name_spec(&self) -> Seq<char> {
        if self.rc == TZ_ID_INVALID {
            seq![]
        } else if self.rc == TZ_ID_DAYLIGHT {
            crate::utf16::decoded(crate::utf16::until_zero(self.daylight_name@))
        } else {
            crate::utf16::decoded(crate::utf16::until_zero(self.standard_name@))
        }
    }
}

/// Minutes to add to UTC to get local time.
///
/// Every timestamp is UTC, and the whole point of dating a session is to ask
/// whether someone moves differently at 2am. Without the offset that question is
/// answered in the wrong time zone.
pub fn local_offset_minutes(tz: &ZoneReading) -> (minutes: i32)
    requires
        tz.offset_fits_spec(),
    ensures
        minutes == tz.offset_spec(),
{
    if tz.rc == TZ_ID_INVALID {
        return 0;
    }
    // UTC = local + bias, so local = UTC - bias.
    let extra: i32 = if tz.rc == TZ_ID_DAYLIGHT {
        tz.daylight_bias
    } else {
        tz.standard_bias
    };
    -(tz.bias + extra)
}

/// Current time zone name, e.g. "Eastern Daylight Time".
pub fn local_timezone_name(tz: &ZoneReading) -> (name: String)
    ensures
        name@ == tz.name_spec(),
{
    if tz.rc == TZ_ID_INVALID {
        return String::new();
    }
    if tz.rc == TZ_ID_DAYLIGHT {
        decode_until_zero(tz.daylight_name.as_slice())
    } else {
        decode_until_zero(tz.standard_name.as_slice())
    }
}

// ---- days and hours -----------------------------------------------------------------

/// Days since 1970-01-01 at that instant.
pub open spec fn day_of(unix_ms: int) -> int {
    unix_ms / 86_400_000
}

/// The day of the week so many days after 1970-01-01, a Thursday. 0 is Sunday.
pub open spec fn weekday_of_day(days: int) -> int {
    (days + 4) % 7
}

/// The instant shifted to local time, in milliseconds. Early in 1970 that can lie before
/// it, west of Greenwich.
pub open spec fn local_ms(unix_ms: u64, offset_minutes: i32) -> int {
    unix_ms + offset_minutes * 60_000
}

/// Day of the week for a Unix millisecond timestamp. 0 is Sunday.
pub fn weekday(unix_ms: u64) -> (w: u8)
    ensures
        w == weekday_of_day(day_of(unix_ms as int)),
        w < 7,
{
    let days: u64 = unix_ms / 1000 / 86_400;
    assert(days == day_of(unix_ms as int));
    ((days + 4) % 7) as u8
}

pub const WEEKDAY_NAMES: [&'static str; 7] = [
    "Sunday",
    "Monday",
    "Tuesday",
    "Wednesday",
    "Thursday",
    "Friday",
    "Saturday",
];

/// The day since 1970-01-01, and the millisecond of that day.
fn day_and_time(ms: i128) -> (r: (i64, u64))
    requires
        -1_000_000_000_000_000 <= ms <= 0x2_0000_0000_0000_0000,
    ensures
        r.0 == day_of(ms as int),
        r.1 == ms as int % 86_400_000,
{
    // Shifted by whole days, so that it lies behind 1970.
    let up: u128 = (ms + 86_400_000 * 100_000_000) as u128;
    let days: i64 = (up / 86_400_000) as i64 - 100_000_000;
    (days, (up % 86_400_000) as u64)
}

/// Shifts an instant to local time.
fn shifted_ms(unix_ms: u64, offset_minutes: i32) -> (ms: i128)
    ensures
        ms == local_ms(unix_ms, offset_minutes),
        -1_000_000_000_000_000 <= ms <= 0x2_0000_0000_0000_0000,
{
    unix_ms as i128 + offset_minutes as i128 * 60_000
}

/// Day of the week in local time. 0 is Sunday.
///
/// Taking the weekday of a UTC timestamp is wrong for anyone west of Greenwich,
/// and silently gives tomorrow's day for every evening session.
pub fn local_weekday(unix_ms: u64, offset_minutes: i32) -> (w: u8)
    ensures
        w == weekday_of_day(day_of(local_ms(unix_ms, offset_minutes))),
        w < 7,
{
    let (days, _) = day_and_time(shifted_ms(unix_ms, offset_minutes));
    // 700,000,000 is a multiple of 7.
    ((days + 700_000_004) as u64 % 7) as u8
}

/// Local weekday as a name.
pub fn local_weekday_name(unix_ms: u64, offset_minutes: i32) -> (name: &'static str)
    ensures
        name@ == WEEKDAY_NAMES@[weekday_of_day(day_of(local_ms(unix_ms, offset_minutes)))]@,
{
    WEEKDAY_NAMES[local_weekday(unix_ms, offset_minutes) as usize]
}

/// Seconds since 1970 in local time.
pub open spec fn local_second(unix_ms: u64, offset_minutes: i32) -> int {
    unix_ms as int / 1000 + offset_minutes * 60
}

/// Hour of the day, 0 to 23, in local time.
pub fn local_hour(unix_ms: u64, offset_minutes: i32) -> (h: u8)
    ensures
        h == local_second(unix_ms, offset_minutes) % 86_400 / 3600,
        h < 24,
{
    let local: i64 = (unix_ms / 1000) as i64 + offset_minutes as i64 * 60;
    assert(local == local_second(unix_ms, offset_minutes));
    let second: u64 = if local >= 0 {
        local as u64 % 86_400
    } else {
        let back: u64 = (-local) as u64 % 86_400;
        if back == 0 {
            0
        } else {
            86_400 - back
        }
    };
    proof {
        if local < 0 {
            lemma_second_before(-(local as int));
        }
    }
    (second / 3600) as u8
}

/// The second of the day that lies `n` seconds before midnight.
proof fn lemma_second_before(n: int)
    requires
        n > 0,
    ensures
        (-n) % 86_400 == if n % 86_400 == 0 {
            0
        } else {
            86_400 - n % 86_400
        },
{
}

/// A coarse label for time-of-day analysis.
pub open spec fn day_part_spec(hour: u8) -> Seq<char> {
    if 5 <= hour <= 11 {
        "morning"@
    } else if 12 <= hour <= 16 {
        "afternoon"@
    } else if 17 <= hour <= 21 {
        "evening"@
    } else if 22 <= hour <= 23 {
        "night"@
    } else {
        "late_night"@
    }
}

/// A coarse label for time-of-day analysis.
pub fn day_part(hour: u8) -> (s: &'static str)
    ensures
        s@ == day_part_spec(hour),
{
    match hour {
        5..=11 => "morning",
        12..=16 => "afternoon",
        17..=21 => "evening",
        22..=23 => "night",
        _ => "late_night",
    }
}

// ---- timestamps as text -------------------------------------------------------------

/// `2026-09-20` for that date.
pub open spec fn date_text(date: Date) -> Seq<char> {
    crate::text::padded_signed(date.year as int, 4) + seq!['-'] + crate::text::zero_padded(
        date.month as nat,
        2,
    ) + seq!['-'] + crate::text::zero_padded(date.day as nat, 2)
}

/// `20:07:59.457` for that millisecond of the day.
pub open spec fn time_text(ms_of_day: int) -> Seq<char> {
    crate::text::zero_padded((ms_of_day / 3_600_000) as nat, 2) + seq![':']
        + crate::text::zero_padded((ms_of_day / 60_000 % 60) as nat, 2) + seq![':']
        + crate::text::zero_padded((ms_of_day / 1000 % 60) as nat, 2) + seq!['.']
        + crate::text::zero_padded((ms_of_day % 1000) as nat, 3)
}

/// Date and time of day of an instant.
pub open spec fn civil_text(unix_ms: int) -> Seq<char> {
    date_text(crate::calendar::date_of(day_of(unix_ms))) + seq!['T'] + time_text(
        unix_ms % 86_400_000,
    )
}

/// The instant in UTC, as ISO 8601 writes it.
pub open spec fn iso_utc(unix_ms: int) -> Seq<char> {
    civil_text(unix_ms).push('Z')
}

/// The offset from UTC, as ISO 8601 writes it.
pub open spec fn offset_text(offset_minutes: int) -> Seq<char> {
    let a = if offset_minutes < 0 {
        -offset_minutes
    } else {
        offset_minutes
    };
    seq![
        if offset_minutes < 0 {
            '-'
        } else {
            '+'
        },
    ] + crate::text::zero_padded((a / 60) as nat, 2) + seq![':'] + crate::text::zero_padded(
        (a % 60) as nat,
        2,
    )
}

/// The date, appended to `s`.
fn push_date(s: &mut String, date: Date)
    ensures
        final(s)@ == old(s)@ + date_text(date),
{
    push_padded_signed(s, date.year, 4);
    s.push('-');
    push_zero_padded(s, date.month, 2);
    s.push('-');
    push_zero_padded(s, date.day, 2);
    assert(s@ =~= old(s)@ + date_text(date));
}

/// The time of day, appended to `s`.
fn push_time(s: &mut String, tod: u64)
    ensures
        final(s)@ == old(s)@ + time_text(tod as int),
{
    push_zero_padded(s, tod / 3_600_000, 2);
    s.push(':');
    push_zero_padded(s, tod / 60_000 % 60, 2);
    s.push(':');
    push_zero_padded(s, tod / 1000 % 60, 2);
    s.push('.');
    push_zero_padded(s, tod % 1000, 3);
    assert(s@ =~= old(s)@ + time_text(tod as int));
}

/// Date and time of day, appended to `s`.
fn push_civil(s: &mut String, unix_ms: i128)
    requires
        -1_000_000_000_000_000 <= unix_ms <= 0x2_0000_0000_0000_0000,
    ensures
        final(s)@ == old(s)@ + civil_text(unix_ms as int),
{
    let (days, tod) = day_and_time(unix_ms);
    push_date(s, civil_date(days));
    s.push('T');
    push_time(s, tod);
    assert(s@ =~= old(s)@ + civil_text(unix_ms as int));
}

/// ISO-8601 local time with the offset spelled out, e.g.
/// `2026-09-20T16:07:59.457-04:00`.
pub fn iso8601_local(unix_ms: u64, offset_minutes: i32) -> (s: String)
    ensures
        s@ == civil_text(local_ms(unix_ms, offset_minutes)) + offset_text(offset_minutes as int),
{
    let mut s = String::new();
    push_civil(&mut s, shifted_ms(unix_ms, offset_minutes));
    s.push(
        if offset_minutes < 0 {
            '-'
        } else {
            '+'
        },
    );
    let a: u64 = if offset_minutes < 0 {
        (-(offset_minutes as i64)) as u64
    } else {
        offset_minutes as u64
    };
    push_zero_padded(&mut s, a / 60, 2);
    s.push(':');
    push_zero_padded(&mut s, a % 60, 2);
    assert(s@ =~= civil_text(local_ms(unix_ms, offset_minutes)) + offset_text(
        offset_minutes as int,
    ));
    s
}

/// ISO-8601 UTC, for human-readable session headers.
pub fn iso8601_utc(unix_ms: u64) -> (s: String)
    ensures
        s@ == iso_utc(unix_ms as int),
{
    let mut s = String::new();
    push_civil(&mut s, unix_ms as i128);
    s.push('Z');
    assert(s@ =~= iso_utc(unix_ms as int));
    s
}

// ---- laws -------------------------------------------------------------------------

/// The milliseconds in a clock's nanoseconds are those that the counter has ticked.
pub proof fn law_nanoseconds_hold_the_milliseconds(clock: Clock, counter: i64)
    requires
        clock.wf(),
    ensures
        clock.elapsed_ns(counter) / 1_000_000 == ticks_between(clock.origin_spec(), counter) * 1000
            / clock.freq_spec() as int,
{
    let ticks = ticks_between(clock.origin_spec(), counter);
    let freq = clock.freq_spec() as int;
    let ms = ticks * 1000;
    assert(ticks * 1_000_000_000 == 1_000_000 * ms);
    assert(0 <= ms);
    vstd::arithmetic::div_mod::lemma_div_denominator(1_000_000 * ms, freq, 1_000_000);
    vstd::arithmetic::div_mod::lemma_div_denominator(1_000_000 * ms, 1_000_000, freq);
    assert(1_000_000 * ms / 1_000_000 == ms);
    assert(freq * 1_000_000 == 1_000_000 * freq);
}

/// The origin makes timestamps absolute: where the wall clock has gone on as far as the
/// counter, give or take `skew` milliseconds, the origin and the milliseconds of the
/// timestamp together are the wall-clock time, give or take as much.
pub proof fn law_origin_maps_timestamps_to_the_wall_clock(
    clock: Clock,
    counter: i64,
    unix_ms: int,
    skew: int,
)
    requires
        clock.wf(),
        -skew <= (unix_ms - clock.origin_unix_ms_spec()) - ticks_between(
            clock.origin_spec(),
            counter,
        ) * 1000 / clock.freq_spec() as int <= skew,
    ensures
        -skew <= unix_ms - (clock.origin_unix_ms_spec() + clock.elapsed_ns(counter) / 1_000_000)
            <= skew,
{
    law_nanoseconds_hold_the_milliseconds(clock, counter);
}

/// One day later it is the next day of the week, and the seventh such step comes
/// back to the same one.
pub proof fn law_weekdays_step_daily(unix_ms: int)
    ensures
        weekday_of_day(day_of(unix_ms + 86_400_000)) == (weekday_of_day(day_of(unix_ms)) + 1) % 7,
        weekday_of_day(day_of(unix_ms + 7 * 86_400_000)) == weekday_of_day(day_of(unix_ms)),
{
}

/// Every hour of the day has a label.
pub proof fn law_day_part_covers_every_hour(hour: u8)
    ensures
        day_part_spec(hour).len() > 0,
{
    reveal_strlit("morning");
    reveal_strlit("afternoon");
    reveal_strlit("evening");
    reveal_strlit("night");
    reveal_strlit("late_night");
}

/// Local time is the instant moved by the offset: by a minute for each of its minutes,
/// and where there is none not at all. Seconds and milliseconds agree.
pub proof fn law_local_time_is_off_by_the_offset(unix_ms: u64, offset_minutes: i32)
    ensures
        local_ms(unix_ms, offset_minutes) - unix_ms == 60_000 * offset_minutes,
        local_second(unix_ms, offset_minutes) == local_ms(unix_ms, offset_minutes) / 1000,
{
}

/// The local hour of the day is the one on the local clock: an hour later it is the next
/// one, it starts again at midnight, and an offset of an hour is as good as an hour.
pub proof fn law_hours_follow_one_another(unix_ms: u64, offset_minutes: i32)
    requires
        unix_ms + 3_600_000 <= u64::MAX,
        offset_minutes + 60 <= i32::MAX,
    ensures
        ({
            let hour = local_second(unix_ms, offset_minutes) % 86_400 / 3600;
            let later = local_second((unix_ms + 3_600_000) as u64, offset_minutes) % 86_400 / 3600;
            let east = local_second(unix_ms, (offset_minutes + 60) as i32) % 86_400 / 3600;
            &&& 0 <= hour < 24
            &&& later == (hour + 1) % 24
            &&& east == later
            &&& hour == local_ms(unix_ms, offset_minutes) / 3_600_000 % 24
        }),
{
    let l = local_second(unix_ms, offset_minutes);
    let m = local_ms(unix_ms, offset_minutes);
    assert((unix_ms + 3_600_000) / 1000 == unix_ms as int / 1000 + 3600);
    lemma_next_hour(l);
    lemma_hour_of_ms(m);
    assert(l == m / 1000);
}

proof fn lemma_next_hour(l: int)
    ensures
        0 <= l % 86_400 / 3600 < 24,
        (l + 3600) % 86_400 / 3600 == (l % 86_400 / 3600 + 1) % 24,
{
    let s = l % 86_400;
    if s < 82_800 {
        assert((l + 3600) % 86_400 == s + 3600);
    } else {
        assert((l + 3600) % 86_400 == s - 82_800);
    }
}

/// The hour of the day, from seconds and from milliseconds.
pub proof fn lemma_hour_of_ms(m: int)
    ensures
        m / 1000 % 86_400 / 3600 == m / 3_600_000 % 24,
{
    let day = m / 86_400_000;
    let rest = m % 86_400_000;
    assert(m / 1000 == day * 86_400 + rest / 1000);
    assert(m / 1000 % 86_400 == rest / 1000);
    assert(m / 3_600_000 == day * 24 + rest / 3_600_000);
    assert(m / 3_600_000 % 24 == rest / 3_600_000);
    assert(rest / 1000 / 3600 == rest / 3_600_000);
}

/// What Windows calls the bias is what is missing from local time to UTC: the offset and
/// the bias in force, with that of standard or of daylight time, cancel out.
pub proof fn law_offset_and_bias_cancel_out(z: ZoneReading)
    ensures
        z.rc == 2 ==> z.offset_spec() + z.bias + z.daylight_bias == 0,
        z.rc != 2 && z.rc != 0xFFFF_FFFF ==> z.offset_spec() + z.bias + z.standard_bias == 0,
        z.rc == 0xFFFF_FFFF ==> z.offset_spec() == 0 && z.name_spec().len() == 0,
        z.rc == 2 ==> z.name_spec() == crate::utf16::decoded(
            crate::utf16::until_zero(z.daylight_name@),
        ),
        z.rc != 2 && z.rc != 0xFFFF_FFFF ==> z.name_spec() == crate::utf16::decoded(
            crate::utf16::until_zero(z.standard_name@),
        ),
{
}

/// The parts of the day: morning from 5, afternoon from 12, evening from 17, night from
/// 22, and late at night from midnight on.
pub proof fn law_parts_of_the_day(hour: u8)
    requires
        hour < 24,
    ensures
        day_part_spec(hour) == "morning"@ <==> 5 <= hour && hour < 12,
        day_part_spec(hour) == "afternoon"@ <==> 12 <= hour && hour < 17,
        day_part_spec(hour) == "evening"@ <==> 17 <= hour && hour < 22,
        day_part_spec(hour) == "night"@ <==> hour >= 22,
        day_part_spec(hour) == "late_night"@ <==> hour < 5,
{
    reveal_strlit("morning");
    reveal_strlit("afternoon");
    reveal_strlit("evening");
    reveal_strlit("night");
    reveal_strlit("late_night");
    assert("morning"@[0] != "evening"@[0]);
    assert("morning"@.len() == 7 && "evening"@.len() == 7);
    assert("afternoon"@.len() == 9 && "night"@.len() == 5 && "late_night"@.len() == 10);
}

/// 1970 began on a Thursday, and the names of the days are in order from Sunday on.
pub proof fn law_days_of_the_week_have_their_names()
    ensures
        weekday_of_day(0) == 4,
        WEEKDAY_NAMES@[0]@ == "Sunday"@,
        WEEKDAY_NAMES@[1]@ == "Monday"@,
        WEEKDAY_NAMES@[2]@ == "Tuesday"@,
        WEEKDAY_NAMES@[3]@ == "Wednesday"@,
        WEEKDAY_NAMES@[4]@ == "Thursday"@,
        WEEKDAY_NAMES@[5]@ == "Friday"@,
        WEEKDAY_NAMES@[6]@ == "Saturday"@,
{
}

/// A day lasts 86400 seconds, and a new one starts at midnight.
pub proof fn law_days_last_a_day(unix_ms: int)
    ensures
        86_400_000 * day_of(unix_ms) <= unix_ms < 86_400_000 * (day_of(unix_ms) + 1),
        day_of(unix_ms + 86_400_000) == day_of(unix_ms) + 1,
{
}

/// A written offset reads back: a sign, and hours and minutes that make it up.
pub proof fn law_written_offset_reads_back(offset: int)
    requires
        -6000 < offset < 6000,
    ensures
        ({
            let t = offset_text(offset);
            let minutes = 60 * crate::text::digits_value(t.subrange(1, 3))
                + crate::text::digits_value(t.subrange(4, 6));
            &&& t.len() == 6
            &&& t[3] == ':'
            &&& t[0] == '-' <==> offset < 0
            &&& t[0] == '+' <==> offset >= 0
            &&& offset == if t[0] == '-' {
                -(minutes as int)
            } else {
                minutes as int
            }
        }),
{
    let a = if offset < 0 {
        -offset
    } else {
        offset
    };
    let t = offset_text(offset);
    let h = crate::text::zero_padded((a / 60) as nat, 2);
    let m = crate::text::zero_padded((a % 60) as nat, 2);
    assert(crate::text::power_of_ten(2) == 100) by {
        reveal_with_fuel(crate::text::power_of_ten, 3);
    }
    crate::text::lemma_padded((a / 60) as nat, 2);
    crate::text::lemma_padded((a % 60) as nat, 2);
    assert(t.subrange(1, 3) =~= h);
    assert(t.subrange(4, 6) =~= m);
}

/// Between two readings lie as many ticks as the second is ahead; one that is behind is
/// no time at all. A clock that starts at a reading measures from there.
pub proof fn law_ticks_are_counted_from_the_origin(origin: i64, counter: i64)
    ensures
        origin <= counter && counter - origin <= i64::MAX ==> origin + ticks_between(
            origin,
            counter,
        ) == counter,
        counter <= origin && origin - counter <= i64::MAX ==> ticks_between(origin, counter) == 0,
        ticks_between(origin, counter) >= 0,
{
}

/// The nanoseconds are those of the ticks, rounded down: at the counter's frequency they
/// make up no more ticks than there were, and one nanosecond more would.
pub proof fn law_nanoseconds_make_up_the_ticks(clock: Clock, counter: i64)
    requires
        clock.wf(),
    ensures
        ({
            let ns = clock.elapsed_ns(counter);
            let ticks = ticks_between(clock.origin_spec(), counter);
            let freq = clock.freq_spec() as int;
            &&& ns * freq <= ticks * 1_000_000_000
            &&& ticks * 1_000_000_000 < (ns + 1) * freq
        }),
{
    let ns = clock.elapsed_ns(counter);
    let n = ticks_between(clock.origin_spec(), counter) * 1_000_000_000;
    let freq = clock.freq_spec() as int;
    vstd::arithmetic::div_mod::lemma_fundamental_div_mod(n, freq);
    vstd::arithmetic::div_mod::lemma_mod_bound(n, freq);
    assert(ns * freq == freq * ns && (ns + 1) * freq == freq * ns + freq) by (nonlinear_arith);
}

} // verus!
