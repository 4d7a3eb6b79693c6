//! Export, audit and statistics.

use mouse_profiler::event::{
    Event, B_LEFT, B_RIGHT, B_X1, EV_BUTTON, EV_MOVE, EV_SYNC, EV_WHEEL, F_DOWN, M_CTRL, M_WIN,
};
use mouse_profiler::clock::ZoneReading;
use mouse_profiler::export::{
    audit, read_all, segment_names, session_to_csv, verify_session, SessionEvents,
};
use mouse_profiler::input::devices::DeviceInfo;
use mouse_profiler::order::{add_text, is_before, median, sort_numbers, sort_texts};
use mouse_profiler::report::{commas, count_bin, human_bytes, report, ReportTexts, BINS};
use mouse_profiler::stats::{collect, readable_events, SessionFiles, Stats};
use mouse_profiler::storage::segment::{SegmentError, SegmentWriter};
use mouse_profiler::storage::session::{OsInfo, Session, SessionHeader, StartReading};
use mouse_profiler::text::{parse_u32, parse_u64, replace};

fn header() -> SessionHeader {
    let r = StartReading {
        now_ms: 1_789_933_540_092,
        process_id: 1,
        zone: ZoneReading {
            rc: 1,
            bias: 0,
            standard_bias: 0,
            daylight_bias: 0,
            standard_name: Vec::new(),
            daylight_name: Vec::new(),
        },
        os: OsInfo::default(),
        app_version: "0.2.0".to_string(),
        taken: Vec::new(),
        separator: '/',
    };
    Session::create("d", r, "test", 1).header
}

fn segment(batches: &[&[Event]]) -> Vec<u8> {
    let (mut w, mut file) = SegmentWriter::create("x".to_string());
    for b in batches {
        file.extend(w.write_frame(b).unwrap());
        w.commit(true);
    }
    file
}

fn mv(ms: u64, x: i32, y: i32, bstate: u8) -> Event {
    Event { t_ns: ms * 1_000_000, kind: EV_MOVE, x, y, bstate, btn: 0xFF, ..Default::default() }
}

fn btn(ms: u64, b: u8, down: bool) -> Event {
    Event {
        t_ns: ms * 1_000_000,
        kind: EV_BUTTON,
        btn: b,
        flags: if down { F_DOWN } else { 0 },
        ..Default::default()
    }
}

fn wheel(ms: u64) -> Event {
    Event { t_ns: ms * 1_000_000, kind: EV_WHEEL, wheel: -120, ..Default::default() }
}

// ---- export -----------------------------------------------------------------------------

#[test]
fn a_table_has_a_line_for_each_event() {
    let press = Event { dx: -3, mods: M_CTRL | M_WIN, bstate: 1, x: 7, y: -8, dev: 2, ..btn(5, B_LEFT, true) };
    let odd = Event { kind: 77, ..Default::default() };
    let file = segment(&[&[press, wheel(6)], &[odd]]);
    let (table, stats) = session_to_csv(&vec![file]).unwrap();
    let lines: Vec<&str> = table.split('\n').collect();
    assert_eq!(
        lines[0],
        "t_ns,kind,device,raw_dx,raw_dy,cursor_x,cursor_y,button,pressed,wheel,\
         mods_ctrl,mods_shift,mods_alt,mods_win,buttons_held,flags"
    );
    assert_eq!(lines[1], "5000000,button,2,-3,0,7,-8,left,1,0,1,0,0,1,1,1");
    assert_eq!(lines[2], "6000000,wheel,0,0,0,0,0,,,-120,0,0,0,0,0,0");
    assert_eq!(lines[3], "0,unknown,0,0,0,0,0,,,0,0,0,0,0,0,0");
    assert_eq!(lines.len(), 5);
    assert_eq!((stats.events, stats.segments, stats.truncated_segments), (3, 1, 0));
}

#[test]
fn one_foreign_segment_fails_an_export() {
    let good = segment(&[&[mv(1, 0, 0, 0)]]);
    let mut torn = good.clone();
    torn.pop();
    let (_, stats) = session_to_csv(&vec![good.clone(), torn]).unwrap();
    assert_eq!((stats.events, stats.segments, stats.truncated_segments), (1, 2, 1));
    let e = session_to_csv(&vec![good.clone(), b"nope".to_vec()]).unwrap_err();
    assert_eq!(e, SegmentError::NotASegment);
    assert!(read_all(&vec![good]).is_ok());
}

#[test]
fn segments_are_listed_or_found() {
    let v = |names: &[&str]| names.iter().map(|s| s.to_string()).collect::<Vec<String>>();
    assert_eq!(segment_names(&v(&["b", "a"]), v(&["z.mpseg"])), ["b", "a"]);
    let found = v(&["events-0002.mpseg", "context.jsonl", "events-0000.mpseg", "x.mpseg.tmp", "events-0001.mpseg"]);
    assert_eq!(
        segment_names(&Vec::new(), found),
        ["events-0000.mpseg", "events-0001.mpseg", "events-0002.mpseg"]
    );
}

#[test]
fn an_audit_compares_disk_and_header() {
    let mut h = header();
    h.events_written = 9;
    h.events_dropped = 2;
    h.clean_shutdown = true;
    let file = segment(&[&[mv(10, 0, 0, 0), mv(30, 0, 0, 0)], &[mv(20, 0, 0, 0), mv(25, 0, 0, 0)]]);
    let r = verify_session(&h, &vec![file]).unwrap();
    assert_eq!(r.session_id, h.session_id);
    assert_eq!((r.events_found, r.events_claimed, r.dropped_claimed), (4, 9, 2));
    assert_eq!(r.monotonic_violations, 1);
    assert_eq!(r.duration_ns, 15_000_000);
    assert!(r.clean_shutdown && !r.interrupted);
    assert!(verify_session(&h, &vec![vec![1, 2, 3]]).is_err());

    let backwards = SessionEvents { events: vec![mv(9, 0, 0, 0), mv(3, 0, 0, 0)], segments: 1, truncated_segments: 1 };
    let r = audit(&h, &backwards);
    assert_eq!((r.duration_ns, r.truncated_segments, r.monotonic_violations), (0, 1, 1));
    let r = verify_session(&h, &Vec::new()).unwrap();
    assert_eq!((r.events_found, r.duration_ns), (0, 0));
}

// ---- statistics -------------------------------------------------------------------------

#[test]
fn movements_split_at_long_pauses() {
    let mut s = Stats::new();
    s.add_events(&vec![
        mv(0, 0, 0, 0),
        mv(10, 3, 4, 0),
        mv(130, 3, 4, 0), // exactly 120 ms: the same movement
        mv(251, 10, 10, 0),
        mv(252, 10, 11, 0),
    ]);
    assert_eq!(s.movements, 2);
    assert_eq!(s.distances, [25, 1]);
    assert_eq!(s.gaps, [10_000_000, 1_000_000]);
    assert_eq!(s.kinds.get(&EV_MOVE), Some(&5));
    assert_eq!((s.seen, s.active_ns, s.asleep_ns), (5, 252_000_000, 0));
}

#[test]
fn drags_are_stretches_with_a_button_held() {
    let mut s = Stats::new();
    s.add_events(&vec![
        mv(0, 0, 0, 1),
        mv(1, 0, 0, 1),
        mv(2, 0, 0, 0),
        mv(3, 0, 0, 2),
        mv(500, 0, 0, 2), // a pause ends the drag
    ]);
    assert_eq!(s.drags, 3);
}

#[test]
fn clicks_pair_a_press_with_its_release() {
    let mut s = Stats::new();
    s.add_events(&vec![
        btn(0, B_LEFT, true),
        btn(5, B_RIGHT, true),
        btn(80, B_LEFT, false),
        btn(90, B_LEFT, false),    // no press left
        btn(5_005, B_RIGHT, false), // held too long
        btn(6_000, B_X1, true),
        btn(6_010, B_X1, true), // the later press counts
        btn(6_015, B_X1, false),
    ]);
    assert_eq!(s.clicks, 2);
    assert_eq!(s.holds, [80_000_000, 5_000_000]);
    assert_eq!(s.button_presses.get(&B_X1), Some(&2));
    assert_eq!(s.button_presses.get(&B_LEFT), Some(&1));
    assert_eq!(s.hold_median_ns(), 80_000_000);
}

#[test]
fn scrolls_come_in_bursts_and_sleep_is_not_recording() {
    let mut s = Stats::new();
    let night = 11 * 60 * 1000;
    s.add_events(&vec![wheel(0), wheel(400), wheel(801), wheel(801 + night)]);
    assert_eq!(s.scroll_bursts, 3);
    assert_eq!(s.active_ns, 801_000_000);
    assert_eq!(s.asleep_ns, night * 1_000_000);
    // Time that runs backwards is none.
    s.add_events(&vec![wheel(50), wheel(10)]);
    assert_eq!(s.active_ns, 801_000_000);
}

#[test]
fn a_gap_of_exactly_ten_minutes_is_recording() {
    let mut s = Stats::new();
    s.add_events(&vec![wheel(0), wheel(600_000)]);
    assert_eq!((s.active_ns, s.asleep_ns), (600_000_000_000, 0));
    let mut s = Stats::new();
    s.add_events(&vec![wheel(0), wheel(600_001)]);
    assert_eq!((s.active_ns, s.asleep_ns), (0, 600_001_000_000));
}

#[test]
fn sessions_are_collected_one_after_another() {
    let mut s = Stats::default();
    let mut h = header();
    h.events_written = 10;
    h.peak_queue_depth = 4;
    h.os.computer_name = "PC".to_string();
    h.devices = vec![
        DeviceInfo { synthetic: true, ..Default::default() },
        DeviceInfo { vendor_id: Some(0x46D), product_id: Some(0xC52B), ..Default::default() },
        DeviceInfo::default(),
    ];
    let f = SessionFiles {
        header: h,
        sizes: vec![100, 28],
        segments: vec![segment(&[&[mv(1, 0, 0, 0)]]), b"junk".to_vec(), segment(&[&[mv(2, 0, 0, 0)]])],
    };
    assert!(collect(&mut s, &f, 0));
    assert_eq!((s.sessions, s.clean, s.interrupted, s.in_progress), (1, 0, 0, 1));
    assert_eq!((s.bytes, s.seen, s.events_written, s.peak_queue), (128, 2, 10, 4));
    assert_eq!(s.first_session, "2026-09-20T19:45:40.092+00:00");
    assert_eq!(s.machines, ["PC"]);
    assert_eq!(s.devices, ["046D:C52B", "HID"]);
    assert_eq!(s.day_parts, [("evening".to_string(), 1)]);
    assert_eq!(s.weekdays, ["Sunday"]);
    assert!(s.hours.contains(&19));

    // A header that predates the local fields is placed by its start.
    let mut old = header();
    old.start_day_part = String::new();
    old.start_wall_local = "later".to_string();
    old.interrupted = true;
    assert!(collect(&mut s, &SessionFiles { header: old, sizes: Vec::new(), segments: Vec::new() }, -20 * 60));
    assert_eq!((s.sessions, s.interrupted), (2, 1));
    assert_eq!(s.weekdays, ["Saturday", "Sunday"]);
    assert_eq!(s.day_parts.len(), 2);
    assert_eq!((s.first_session.as_str(), s.last_session.as_str()), ("2026-09-20T19:45:40.092+00:00", "later"));

    // A total that would overflow changes nothing.
    let mut huge = header();
    huge.reports_received = u64::MAX;
    assert!(collect(&mut s, &SessionFiles { header: huge, sizes: Vec::new(), segments: Vec::new() }, 0));
    let mut more = header();
    more.reports_received = 1;
    assert!(!collect(&mut s, &SessionFiles { header: more, sizes: Vec::new(), segments: Vec::new() }, 0));
    assert_eq!(s.sessions, 3);
    assert_eq!(readable_events(&vec![b"junk".to_vec()]), []);
}

// ---- order ------------------------------------------------------------------------------

#[test]
fn numbers_and_texts_are_put_in_order() {
    let mut v: Vec<u64> = (0..1000).map(|i| i * 7919 % 1009).collect();
    let sorted = sort_numbers(&v);
    v.sort();
    assert_eq!(sorted, v);
    assert_eq!(median(&vec![]), 0);
    assert_eq!(median(&vec![5, 1, 9]), 5);
    assert_eq!(median(&vec![4, 1, 3, 2]), 3);
    let names: Vec<String> = ["b", "a", "ab", "", "\u{e9}", "b"].iter().map(|s| s.to_string()).collect();
    let mut expected = names.clone();
    expected.sort();
    assert_eq!(sort_texts(names), expected);
    assert!(is_before("a", "ab") && !is_before("ab", "a") && !is_before("a", "a"));
    let mut list = Vec::new();
    for s in ["m", "c", "m", "z", "a", "c"] {
        add_text(&mut list, s.to_string());
    }
    assert_eq!(list, ["a", "c", "m", "z"]);
}

#[test]
fn decimal_numbers_are_parsed_as_the_standard_library_does() {
    for s in ["", "+", "-", "+1", "-1", "0", "007", "4294967295", "4294967296", "12a", " 1", "99999999999999999999"] {
        assert_eq!(parse_u32(s), s.parse::<u32>().ok(), "{s}");
        assert_eq!(parse_u64(s), s.parse::<u64>().ok(), "{s}");
    }
    for (t, f, r) in [("aaa", "aa", "b"), ("Windows 10 Windows 10", "Windows 10", "W"), ("", "x", "y"), ("abc", "d", "e")] {
        assert_eq!(replace(t, f, r), t.replace(f, r));
    }
}

// ---- the report -------------------------------------------------------------------------

#[test]
fn numbers_are_grouped_by_thousands() {
    assert_eq!(commas(0), "0");
    assert_eq!(commas(999), "999");
    assert_eq!(commas(1000), "1,000");
    assert_eq!(commas(1_002_003), "1,002,003");
    assert_eq!(commas(u64::MAX), "18,446,744,073,709,551,615");
}

/// Sizes as floating point rounds them.
fn float_bytes(b: u64) -> String {
    const U: [&str; 4] = ["B", "KB", "MB", "GB"];
    let mut v = b as f64;
    let mut i = 0;
    while v >= 1024.0 && i < U.len() - 1 {
        v /= 1024.0;
        i += 1;
    }
    format!("{v:.1} {}", U[i])
}

#[test]
fn sizes_round_as_floating_point_does() {
    for b in [0, 1, 1023, 1024, 1075, 1076, 1100, 1_048_575, 1_048_576, 72_351_744, 5_000_000_000, 1 << 40] {
        assert_eq!(human_bytes(b), float_bytes(b));
    }
    for k in 0..5_000u64 {
        let b = k * 977 + k * k;
        assert_eq!(human_bytes(b), float_bytes(b));
    }
    // Beyond 53 significant bits only those count.
    for k in 0..2_000u64 {
        for b in [u64::MAX - k, (1 << 53) + k, (1 << 60) + k * k, u64::MAX / 3 + k * 53_687_091] {
            assert_eq!(human_bytes(b), float_bytes(b));
        }
    }
    // Ties go to the even tenth.
    for k in 0..40u64 {
        let b = 1024 + 1024 * k / 20;
        assert_eq!(human_bytes(b), float_bytes(b));
    }
}

#[test]
fn distances_fall_into_one_bin_each() {
    let d: Vec<u128> = vec![0, 624, 625, 5_624, 5_625, 22_500, 90_000, 360_000, 1_439_999, 1_440_000, 1 << 65];
    let counts: Vec<u64> = BINS.iter().map(|(lo, hi, _)| count_bin(&d, *lo, *hi)).collect();
    assert_eq!(counts, [2, 2, 1, 1, 1, 2, 2]);
    assert_eq!(counts.iter().sum::<u64>(), d.len() as u64);
}

#[test]
fn the_report_shows_loss_and_gaps() {
    let mut s = Stats::new();
    let mut h = header();
    h.events_dropped = 1234;
    s.add_header(&h, 0);
    s.add_events(&vec![mv(0, 0, 0, 0), mv(1, 30, 0, 0), btn(2, B_LEFT, true), btn(30, B_LEFT, false)]);
    let t = ReportTexts {
        hours: "0.0 h".to_string(),
        asleep: "0.0".to_string(),
        kind_shares: vec!["50.0".to_string(), "0.0".to_string(), "50.0".to_string(), "0.0".to_string()],
        hold: "28.0 ms".to_string(),
        rate: "1000 Hz".to_string(),
        gap: "1.00".to_string(),
        distance_shares: vec!["x".to_string(); 7],
        weekdays: "{\"Sunday\"}".to_string(),
        machines: "{}".to_string(),
        devices: "{}".to_string(),
    };
    let lines = report(&s, &t);
    let has = |l: &str| assert!(lines.iter().any(|x| x == l), "missing {l:?} in {lines:#?}");
    has("  sessions                       1   (0 clean, 0 interrupted, 1 in progress)");
    has("  first               2026-09-20T19:45:40");
    has("  on disk                    0.0 B");
    has("  recording time             0.0 h   (excludes 0.0 h asleep/off)");
    has("  events dropped             1,234   <-- DATA LOSS");
    has("  peak queue depth               0 / 65536");
    has("  move                           2   50.0%");
    has("    left                         1  presses");
    has("  click hold median        28.0 ms");
    has("  report rate              1000 Hz   (median gap 1.00 ms)");
    has("  25-75      px         1      x%  ########################################  thin");
    has("  0-25       px         0      x%  ");
    has("  morning         0    <-- NO DATA");
    has("  evening         1  #");
    has("  hours of day         1 / 24");
    has("  weekdays             1 / 7    {\"Sunday\"}");
    has("  mice seen           {}");
    assert_eq!(lines[0], "DATASET");
    assert!(!lines.iter().any(|l| l.contains("right")));
    let sync = Event { kind: EV_SYNC, ..Default::default() };
    s.add_events(&vec![sync]);
    assert_eq!(s.kinds.get(&EV_SYNC), Some(&1));
}

#[test]
fn instants_in_the_report_are_cut_at_whole_characters() {
    let line = |first: &str| {
        let mut s = Stats::new();
        s.first_session = first.to_string();
        s.last_session = first.to_string();
        let t = ReportTexts {
            hours: String::new(),
            asleep: String::new(),
            kind_shares: vec![String::new(); 4],
            hold: String::new(),
            rate: String::new(),
            gap: String::new(),
            distance_shares: vec![String::new(); 7],
            weekdays: String::new(),
            machines: String::new(),
            devices: String::new(),
        };
        report(&s, &t)[2].clone()
    };
    for s in ["2026-09-20T19:45:40.092+00:00", "short", "exactly nineteen ch", "\u{e9}\u{e9}\u{e9}\u{e9}\u{e9}\u{e9}\u{e9}\u{e9}\u{e9}x tail", "\u{e9}\u{e9}\u{e9}\u{e9}\u{e9}\u{e9}\u{e9}\u{e9}\u{e9}\u{e9} tail"] {
        let cut = s.get(..19).unwrap_or(s);
        assert_eq!(line(s), format!("  first               {cut:>12}"));
    }
}
