//! The counter, the wall clock and the calendar.

use mouse_profiler::calendar::{civil_date, Date};
use mouse_profiler::clock::{
    day_part, iso8601_local, iso8601_utc, local_hour, local_offset_minutes, local_timezone_name,
    local_weekday, local_weekday_name, unix_millis, unix_millis_of, weekday, Clock, ZoneReading,
    WEEKDAY_NAMES,
};

#[test]
fn weekday_matches_known_dates() {
    // 1970-01-01 was a Thursday.
    assert_eq!(WEEKDAY_NAMES[weekday(0) as usize], "Thursday");
    // 2000-01-01 was a Saturday. 946_684_800 s since epoch.
    assert_eq!(WEEKDAY_NAMES[weekday(946_684_800_000) as usize], "Saturday");
    // 2026-09-20 was a Sunday: 20716 days since the epoch.
    assert_eq!(WEEKDAY_NAMES[weekday(20_716 * 86_400_000) as usize], "Sunday");
    // ...and the day before it a Saturday, so the sequence steps correctly.
    assert_eq!(WEEKDAY_NAMES[weekday(20_715 * 86_400_000) as usize], "Saturday");
}

#[test]
fn local_weekday_uses_local_time_not_utc() {
    // 2026-09-23T04:40Z is a Wednesday in UTC, but 23:40 Tuesday at UTC-5.
    let ms = 20_719 * 86_400_000u64 + (4 * 3600 + 40 * 60) * 1000;
    assert_eq!(WEEKDAY_NAMES[weekday(ms) as usize], "Wednesday", "utc sanity");
    assert_eq!(local_weekday_name(ms, -300), "Tuesday");
    assert_eq!(local_hour(ms, -300), 23);
    // East of Greenwich the shift can go the other way.
    assert_eq!(local_weekday_name(ms, 600), "Wednesday");
}

#[test]
fn local_hour_applies_the_offset_and_wraps() {
    // 1970-01-01T00:30Z
    let t = 30 * 60 * 1000;
    assert_eq!(local_hour(t, 0), 0);
    // UTC-5 pushes it to the previous day, 19:30 local.
    assert_eq!(local_hour(t, -5 * 60), 19);
    // UTC+5:30 gives 06:00 local.
    assert_eq!(local_hour(t, 330), 6);
}

#[test]
fn day_part_covers_every_hour() {
    for h in 0..24u8 {
        assert!(!day_part(h).is_empty(), "hour {h} unlabelled");
    }
    assert_eq!(day_part(2), "late_night");
    assert_eq!(day_part(9), "morning");
    assert_eq!(day_part(14), "afternoon");
    assert_eq!(day_part(19), "evening");
    assert_eq!(day_part(23), "night");
}

#[test]
fn iso_local_carries_the_offset() {
    // 2026-09-20T20:07:59.457Z at UTC-4 is 16:07 local.
    let ms = 1_789_070_879_457u64;
    let utc = iso8601_utc(ms);
    assert!(utc.ends_with('Z'), "{utc}");
    let local = iso8601_local(ms, -240);
    assert!(local.ends_with("-04:00"), "{local}");
    assert!(!local.contains('Z'), "{local}");
    // And a positive offset formats with a plus.
    assert!(iso8601_local(ms, 330).ends_with("+05:30"));
}

#[test]
fn iso_utc_writes_known_instants() {
    assert_eq!(iso8601_utc(0), "1970-01-01T00:00:00.000Z");
    assert_eq!(iso8601_utc(946_684_800_000), "2000-01-01T00:00:00.000Z");
    assert_eq!(iso8601_utc(951_827_696_789), "2000-02-29T12:34:56.789Z");
    assert_eq!(iso8601_utc(4_107_542_400_000), "2100-03-01T00:00:00.000Z");
    assert_eq!(iso8601_utc(20_716 * 86_400_000), "2026-09-20T00:00:00.000Z");
    assert_eq!(iso8601_local(0, -60), "1969-12-31T23:00:00.000-01:00");
    assert_eq!(iso8601_local(1_800_000, -300), "1969-12-31T19:30:00.000-05:00");
    assert_eq!(iso8601_local(20_716 * 86_400_000, -240), "2026-09-19T20:00:00.000-04:00");
}

#[test]
fn dates_follow_the_calendar_day_by_day() {
    let mut date = Date { year: 1970, month: 1, day: 1 };
    for day in 0..60_000i64 {
        assert_eq!(civil_date(day), date);
        let leap = date.year % 4 == 0 && (date.year % 100 != 0 || date.year % 400 == 0);
        let last = match date.month {
            2 => 28 + leap as u64,
            4 | 6 | 9 | 11 => 30,
            _ => 31,
        };
        if date.day < last {
            date.day += 1;
        } else if date.month < 12 {
            date.day = 1;
            date.month += 1;
        } else {
            date = Date { year: date.year + 1, month: 1, day: 1 };
        }
    }
}

#[test]
fn written_instants_sort_as_they_follow() {
    let mut instants: Vec<u64> = (0..2_000u64).map(|k| k * 126_701_150_399 + k * k % 86_400_001).collect();
    instants.extend([0, 1, 999, 59_999, 86_399_999, 86_400_000, 253_402_300_799_999]);
    instants.retain(|ms| *ms < 253_402_300_800_000);
    instants.sort();
    instants.dedup();
    let texts: Vec<String> = instants.iter().map(|ms| iso8601_utc(*ms)).collect();
    assert!(texts.iter().all(|t| t.len() == 24));
    assert!(texts.windows(2).all(|w| w[0].as_bytes() < w[1].as_bytes()));
    assert_eq!(texts.last().unwrap(), "9999-12-31T23:59:59.999Z");
}

#[test]
fn dates_before_1970_follow_the_calendar_too() {
    assert_eq!(civil_date(-1), Date { year: 1969, month: 12, day: 31 });
    assert_eq!(civil_date(-719_528), Date { year: 0, month: 1, day: 1 });
    assert_eq!(civil_date(-719_529), Date { year: -1, month: 12, day: 31 });
}

#[test]
fn weekdays_step_and_start_at_sunday() {
    for day in 0..30u64 {
        let today = weekday(day * 86_400_000 + 5);
        assert_eq!(weekday((day + 1) * 86_400_000), (today + 1) % 7);
    }
    // Half past midnight on the first day of 1970 is still Wednesday at UTC-5.
    assert_eq!(local_weekday(1_800_000, -300), 3);
    assert_eq!(local_weekday_name(0, -600), "Wednesday");
}

#[test]
fn counter_readings_become_nanoseconds() {
    let c = Clock::new(10_000_000, 1_000, 77);
    assert_eq!(c.freq(), 10_000_000);
    assert_eq!(c.origin_unix_ms(), 77);
    assert_eq!(c.now_ns(1_000), 0);
    assert_eq!(c.now_ns(1_001), 100);
    assert_eq!(c.now_ns(10_001_000), 1_000_000_000);
    // A counter that ran backwards reads as no time at all.
    assert_eq!(c.now_ns(500), 0);
    // Rounded down, and without overflow a century in.
    let odd = Clock::new(3, 0, 0);
    assert_eq!(odd.now_ns(1), 333_333_333);
    let century = 100 * 365 * 86_400i64;
    assert_eq!(c.now_ns(century * 10_000_000 + 1_000), century as u64 * 1_000_000_000);
}

/// The anchor that makes process-relative event timestamps absolute.
#[test]
fn clock_origin_maps_t_ns_back_to_wall_clock() {
    let started = std::time::Instant::now();
    let c = Clock::new(1_000_000_000, 0, unix_millis());
    let origin = c.origin_unix_ms();
    let before = unix_millis();
    assert!(origin > 1_700_000_000_000, "origin looks unset: {origin}");
    assert!(origin <= before + 50, "origin is in the future");

    // Let a little real time pass, then check the documented mapping:
    //   wall_unix_ms = clock_origin_unix_ms + t_ns / 1_000_000
    while started.elapsed() < std::time::Duration::from_millis(60) {}
    let t_ns = c.now_ns(started.elapsed().as_nanos() as i64);
    let mapped = origin + t_ns / 1_000_000;
    let now = unix_millis();
    let skew = (mapped as i64 - now as i64).abs();
    assert!(skew < 250, "mapping drifted {skew} ms (mapped {mapped}, now {now})");
    assert!(t_ns >= 50_000_000, "clock barely advanced: {t_ns} ns");
}

#[test]
fn nanoseconds_hold_the_milliseconds_of_the_counter() {
    for freq in [1, 3, 1_000, 2_441_406, 10_000_000, 1_000_000_000, 4_294_967_291i64] {
        let c = Clock::new(freq, 17, 1_789_933_540_092);
        for k in 0..2_000i64 {
            let ticks = k * k * 997;
            let ms = (ticks as i128 * 1_000 / freq as i128) as u64;
            assert_eq!(c.now_ns(17 + ticks) / 1_000_000, ms);
            assert_eq!(c.origin_unix_ms() + c.now_ns(17 + ticks) / 1_000_000, 1_789_933_540_092 + ms);
        }
    }
}

#[test]
fn elapsed_time_never_runs_backwards() {
    let c = Clock::new(2_441_406, 5, 0);
    let mut last = 0;
    for k in 0..5_000i64 {
        let now = c.now_ns(5 + k * 37);
        assert!(now >= last);
        last = now;
    }
}

#[test]
fn wall_clock_is_read_in_milliseconds() {
    let ms = unix_millis();
    assert!(ms > 1_600_000_000_000, "clock looks unset: {ms}");
    assert!(ms < 10_000_000_000_000, "not milliseconds: {ms}");
    assert_eq!(unix_millis_of(Some(12_345)), 12_345);
    assert_eq!(unix_millis_of(None), 0);
    assert_eq!(unix_millis_of(Some((1u128 << 64) + 9)), 9);
}

fn zone(rc: u32) -> ZoneReading {
    let mut standard: Vec<u16> = "Eastern Standard Time".encode_utf16().collect();
    standard.extend([0, 65, 66]);
    ZoneReading {
        rc,
        bias: 300,
        standard_bias: 0,
        daylight_bias: -60,
        standard_name: standard,
        daylight_name: "Eastern Daylight Time".encode_utf16().collect(),
    }
}

#[test]
fn zone_offset_and_name_follow_daylight_saving() {
    assert_eq!(local_offset_minutes(&zone(1)), -300);
    assert_eq!(local_offset_minutes(&zone(2)), -240);
    assert_eq!(local_offset_minutes(&zone(0)), -300);
    assert_eq!(local_offset_minutes(&zone(0xFFFF_FFFF)), 0);
    assert_eq!(local_timezone_name(&zone(1)), "Eastern Standard Time");
    assert_eq!(local_timezone_name(&zone(2)), "Eastern Daylight Time");
    assert_eq!(local_timezone_name(&zone(0xFFFF_FFFF)), "");
}

#[test]
fn only_the_bias_in_force_has_to_fit() {
    let mut z = zone(2);
    assert!(z.offset_fits());
    // The standard bias is out of range, and not in force.
    z.bias = i32::MAX;
    z.standard_bias = 1;
    assert!(z.offset_fits());
    assert_eq!(local_offset_minutes(&z), -(i32::MAX - 60));
    z.rc = 1;
    assert!(!z.offset_fits());
    // A zone that could not be read has no offset, whatever its biases.
    z.rc = 0xFFFF_FFFF;
    assert!(z.offset_fits());
    assert_eq!(local_offset_minutes(&z), 0);
    // The smallest sum has no opposite.
    (z.rc, z.bias, z.standard_bias) = (1, i32::MIN, 0);
    assert!(!z.offset_fits());
    z.bias = i32::MIN + 1;
    assert!(z.offset_fits());
    assert_eq!(local_offset_minutes(&z), i32::MAX);
}
