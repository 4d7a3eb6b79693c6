//! Session headers, recovery and the storing side.

use mouse_profiler::cli::problems;
use mouse_profiler::clock::{Clock, ZoneReading};
use mouse_profiler::context::ContextRecord;
use mouse_profiler::event::Event;
use mouse_profiler::export::verify_session;
use mouse_profiler::input::ballistics::Ballistics;
use mouse_profiler::input::devices::DeviceInfo;
use mouse_profiler::ring::Ring;
use mouse_profiler::storage::run::{Action, Answer, Run, Turn};
use mouse_profiler::storage::segment::{read_segment, HEADER_LEN};
use mouse_profiler::storage::session::{
    session_dir, session_id, start_time_fits, Environment, OsInfo, OsReading, RecoveryReport,
    Session, StartReading,
};
use mouse_profiler::storage::writer::{
    with_resolution, Active, Counters, FrameOutcome, SharedStatus, Writer, WriterCmd,
    WriterConfig, RECENT_CAPACITY,
};

fn start(now_ms: u64) -> StartReading {
    StartReading {
        now_ms,
        process_id: 0x1_55E8,
        zone: ZoneReading {
            rc: 2,
            bias: 300,
            standard_bias: 0,
            daylight_bias: -60,
            standard_name: Vec::new(),
            daylight_name: "EDT".encode_utf16().collect(),
        },
        os: OsInfo::default(),
        app_version: "0.2.0".to_string(),
        taken: Vec::new(),
        separator: '/',
    }
}

const NOW: u64 = 1_789_933_540_092; // 2026-09-20T19:45:40.092Z

fn session(reason: &str) -> Session {
    Session::create("root", start(NOW), reason, 10_000_000)
}

#[test]
fn session_names_can_name_directories() {
    let none = Vec::new();
    assert_eq!(session_id(NOW, 0x1_55E8, &none), "2026-09-20T19-45-40-092_55e8");
    assert_eq!(session_id(0, 7, &none), "1970-01-01T00-00-00-000_0007");
}

#[test]
fn sessions_that_start_in_one_millisecond_do_not_collide() {
    let mut taken: Vec<String> = Vec::new();
    let mut dirs: Vec<String> = Vec::new();
    for _ in 0..12 {
        let mut r = start(NOW);
        r.taken = taken.clone();
        let s = Session::create_at("root", r, "again", 10_000_000, 0, 0);
        assert!(!taken.contains(&s.header.session_id));
        assert!(!dirs.contains(&s.dir));
        taken.push(s.header.session_id);
        dirs.push(s.dir);
    }
    assert_eq!(taken[0], "2026-09-20T19-45-40-092_55e8");
    assert_eq!(taken[1], "2026-09-20T19-45-40-092_55e8-1");
    assert_eq!(taken[11], "2026-09-20T19-45-40-092_55e8-11");
    assert_eq!(dirs[1], "root/sessions/2026-09-20T19-45-40-092_55e8-1");
}

#[test]
fn a_session_takes_the_first_name_that_is_free() {
    let names = |list: &[&str]| list.iter().map(|s| s.to_string()).collect::<Vec<String>>();
    let id = |list: &[&str]| session_id(0, 7, &names(list));
    assert_eq!(id(&["1970-01-01T00-00-00-000_0007-1"]), "1970-01-01T00-00-00-000_0007");
    assert_eq!(id(&["1970-01-01T00-00-00-000_0007", "other"]), "1970-01-01T00-00-00-000_0007-1");
    assert_eq!(
        id(&[
            "1970-01-01T00-00-00-000_0007-2",
            "1970-01-01T00-00-00-000_0007",
            "1970-01-01T00-00-00-000_0007",
        ]),
        "1970-01-01T00-00-00-000_0007-1"
    );
}

#[test]
fn sessions_live_below_the_root() {
    assert_eq!(session_dir("root", '/', "x"), "root/sessions/x");
    assert_eq!(session_dir("root/", '/', "x"), "root/sessions/x");
    assert_eq!(session_dir("C:\\data", '\\', "x"), "C:\\data\\sessions\\x");
    assert_eq!(session_dir("C:\\", '\\', "x"), "C:\\sessions\\x");
    assert_eq!(session_dir("C:/data/", '\\', "x"), "C:/data/sessions\\x");
    assert_eq!(session_dir("", '/', "x"), "sessions/x");
}

#[test]
fn a_new_header_tells_when_and_where_it_started() {
    let h = session("test").header;
    assert_eq!(h.session_id, "2026-09-20T19-45-40-092_55e8");
    assert_eq!(h.app_version, "0.2.0");
    assert_eq!(h.format_version, 1);
    assert_eq!(h.start_wall_utc, "2026-09-20T19:45:40.092Z");
    assert_eq!(h.start_wall_local, "2026-09-20T15:45:40.092-04:00");
    assert_eq!(h.utc_offset_minutes, -240);
    assert_eq!(h.timezone, "EDT");
    assert_eq!((h.start_weekday.as_str(), h.start_local_hour), ("Sunday", 15));
    assert_eq!(h.start_day_part, "afternoon");
    assert_eq!(h.start_reason, "test");
    assert_eq!(h.qpc_frequency, 10_000_000);
    assert!(h.devices.is_empty() && h.segments.is_empty());
}

#[test]
fn a_new_session_is_unclean_until_it_says_otherwise() {
    let mut s = session("test");
    assert!(!s.header.clean_shutdown, "header must be written unclean up front");

    s.finish(NOW + 5);
    assert!(s.header.clean_shutdown);
    assert!(s.header.end_unix_ms.is_some());
    assert_eq!(s.header.end_wall_utc.as_deref(), Some("2026-09-20T19:45:40.097Z"));
    assert_eq!(s.header.end_wall_local.as_deref(), Some("2026-09-20T15:45:40.097-04:00"));
}

#[test]
fn recovery_marks_a_crashed_session_and_leaves_a_clean_one_alone() {
    // One crashed (never finished), one clean.
    let crashed = session("crash");
    let crashed_id = crashed.header.session_id.clone();
    let mut ok = Session::create("root", start(NOW + 2), "ok", 10_000_000);
    ok.finish(NOW + 3);

    let mut rep = RecoveryReport::default();
    let marked = rep.scan(Some(crashed.header)).expect("crashed session must be marked");
    assert!(marked.interrupted && !marked.clean_shutdown);
    rep.saved(marked.session_id.clone(), true);
    assert!(rep.scan(Some(ok.header)).is_none(), "a clean session must never be marked interrupted");
    assert_eq!(rep.scanned, 2);
    assert_eq!(rep.newly_marked_interrupted, vec![crashed_id]);

    // And it is idempotent -- a second run marks nothing new.
    let mut rep2 = RecoveryReport::default();
    assert!(rep2.scan(Some(marked)).is_none());
    assert!(rep2.newly_marked_interrupted.is_empty());
}

#[test]
fn a_second_recovery_changes_nothing() {
    let on_disk = || {
        let mut clean = session("clean");
        clean.finish(NOW + 1);
        vec![Some(session("a").header), None, Some(clean.header), Some(session("b").header)]
    };
    let mut first = RecoveryReport::default();
    let mut after = on_disk();
    for (i, h) in on_disk().into_iter().enumerate() {
        if let Some(marked) = first.scan(h) {
            first.saved(marked.session_id.clone(), true);
            after[i] = Some(marked);
        }
    }
    assert_eq!((first.scanned, first.newly_marked_interrupted.len()), (4, 2));
    assert!(after.iter().flatten().all(|h| h.clean_shutdown != h.interrupted));
    let mut second = RecoveryReport::default();
    assert!(after.into_iter().all(|h| second.scan(h).is_none()));
    assert_eq!(second.scanned, first.scanned);
}

#[test]
fn an_unreadable_header_is_left_for_a_human() {
    let mut rep = RecoveryReport::default();
    // Nothing could be made of it, and nothing is written back.
    assert!(rep.scan(None).is_none());
    assert!(rep.newly_marked_interrupted.is_empty());
    assert_eq!(rep.scanned, 1);
    // A mark that could not be written back is not reported.
    rep.saved("x".to_string(), false);
    assert!(rep.newly_marked_interrupted.is_empty());
}

fn reg(s: &str) -> Option<(u32, Vec<u8>)> {
    Some((1, s.encode_utf16().chain([0]).flat_map(|u| u.to_le_bytes()).collect()))
}

#[test]
fn windows_11_is_told_by_its_build() {
    let probe = |product: Option<(u32, Vec<u8>)>, build: &str, ubr: Option<u32>| {
        OsInfo::probe(OsReading {
            product_name: product,
            display_version: reg("23H2"),
            current_build: reg(build),
            ubr: ubr.map(|u| (4, u.to_le_bytes().to_vec())),
            machine_guid: reg("guid"),
            computer_name: Some("RYZEN-964".to_string()),
            user_name: None,
        })
    };
    let info = probe(reg("Windows 10 Pro"), "22631", Some(3447));
    assert_eq!(info.version, "Windows 11 Pro 23H2 (build 22631.3447)");
    assert_eq!(info.computer_name, "RYZEN-964");
    assert_eq!(info.user_name, "");
    assert_eq!(info.machine_guid, "guid");
    assert_eq!(probe(reg("Windows 10 Pro"), "19045", None).version, "Windows 10 Pro 23H2 (build 19045)");
    assert_eq!(probe(reg("Windows 10 Pro"), "abc", None).version, "Windows 10 Pro 23H2 (build abc)");
    assert_eq!(probe(None, "", Some(1)).version, "Windows 23H2");
    assert_eq!(probe(reg("Windows 10"), "99999999999", None).version, "Windows 10 23H2 (build 99999999999)");
    assert_eq!(probe(reg("Windows 10"), "+22000", None).version, "Windows 11 23H2 (build +22000)");
}

#[test]
fn populated_sessions_carry_their_surroundings_and_anchor() {
    let clock = Clock::new(10_000_000, 0, 1234);
    let env = Environment {
        ballistics: Ballistics { pointer_speed: 7, ..Default::default() },
        monitors: Vec::new(),
        devices: vec![DeviceInfo::default()],
    };
    let s = Session::create_populated("d", start(NOW), "startup", &clock, 50, env);
    assert_eq!(s.dir, "d/sessions/2026-09-20T19-45-40-092_55e8");
    assert_eq!(s.header.qpc_frequency, 10_000_000);
    assert_eq!(s.header.clock_origin_unix_ms, 1234);
    assert_eq!(s.header.session_start_t_ns, 5_000);
    assert_eq!(s.header.ballistics.pointer_speed, 7);
    assert_eq!(s.header.devices.len(), 1);
    assert_eq!(s.segment_path(3), "events-0003.mpseg");
    assert_eq!(s.segment_path(12_345), "events-12345.mpseg");
    assert_eq!(s.context_path(), "context.jsonl");
}

#[test]
fn implausible_zones_are_told_beforehand() {
    assert!(start_time_fits(&start(NOW)));
    let mut r = start(NOW);
    r.zone.bias = i32::MAX;
    r.zone.standard_bias = 1;
    assert!(start_time_fits(&r), "the standard bias is not in force");
    r.zone.rc = 1;
    assert!(!start_time_fits(&r));
    r.zone.rc = u32::MAX;
    assert!(start_time_fits(&r), "no bias counts where the zone could not be read");
}

// ---- the storing side -------------------------------------------------------------------

const SEC: u64 = 1_000_000_000;

fn ev(t: u64, dev: u8) -> Event {
    Event { t_ns: t, dev, ..Default::default() }
}

fn writer() -> (Writer, Vec<u8>) {
    let (active, header) = Active::open(session("startup"), 3, 4);
    (Writer::new(active, 100, 15), header)
}

#[test]
fn titles_are_off_by_default() {
    assert!(!WriterConfig::default().capture_window_titles);
}

#[test]
fn opening_names_the_first_segment() {
    let (w, header) = writer();
    assert_eq!(header.len(), HEADER_LEN);
    assert_eq!(w.active.session.header.segments, ["events-0000.mpseg"]);
    assert_eq!(w.active.events_written(), 0);
}

#[test]
fn events_travel_from_the_queue_to_a_frame() {
    let (mut w, mut file) = writer();
    let mut status = SharedStatus::default();
    let mut ring = Ring::new();
    let mut scratch = vec![Event::default(); 8192];
    for i in 0..10_000 {
        ring.push(ev(i, (i % 20) as u8));
    }
    w.absorb(&mut ring, &mut scratch);
    assert_eq!(w.pending.len(), 10_000);
    assert_eq!(ring.depth(), 0);
    assert!(w.frame_due(100, false), "enough events are due at once");

    let frame = w.frame().unwrap();
    file.extend(frame);
    assert!(!w.frame_done(&mut status, FrameOutcome::Written, 50, 200));
    assert_eq!(w.active.events_written(), 10_000);
    assert!(w.pending.is_empty());
    assert_eq!((w.last_frame, w.max_latency_us), (200, 50));
    assert_eq!(status.last_batch_size, 10_000);
    assert_eq!(status.per_device, vec![500; 16], "devices beyond the slots are not counted");
    assert_eq!(status.recent.len(), RECENT_CAPACITY);
    assert_eq!(status.recent[0].t_ns, 8_000);
    assert_eq!(read_segment(&file).unwrap().events.len(), 10_000);
    assert!(w.finished(true, 0) && !w.finished(false, 0) && !w.finished(true, 1));
}

#[test]
fn a_turn_stops_when_enough_is_pending() {
    let (mut w, _) = writer();
    let mut ring = Ring::new();
    let mut scratch = vec![Event::default(); 8192];
    for i in 0..60_000 {
        ring.push(ev(i, 0));
    }
    w.absorb(&mut ring, &mut scratch);
    assert_eq!(w.pending.len(), 32_768);
    assert_eq!(ring.depth(), 60_000 - 32_768);
}

#[test]
fn few_events_wait_a_second_for_their_frame() {
    let (mut w, _) = writer();
    assert!(!w.frame_due(100 + SEC, true), "nothing pending is never due");
    w.pending.push(ev(1, 0));
    assert!(!w.frame_due(99 + SEC, false));
    assert!(w.frame_due(100 + SEC, false));
    assert!(w.frame_due(100, true));
}

#[test]
fn failed_writes_count_as_errors_and_their_events_do_not() {
    let (mut w, _) = writer();
    let mut status = SharedStatus::default();
    w.pending.push(ev(1, 0));
    w.frame().unwrap();
    w.frame_done(&mut status, FrameOutcome::WriteFailed, 1, 1);
    assert_eq!(w.active.events_written(), 0);
    assert_eq!(w.active.session.header.writer_errors, 1);
    w.pending.push(ev(2, 0));
    w.frame().unwrap();
    w.frame_done(&mut status, FrameOutcome::FlushFailed, 1, 1);
    assert_eq!(w.active.events_written(), 1);
    assert_eq!(w.active.session.header.writer_errors, 2);
    w.synced(false, 9);
    assert_eq!((w.active.session.header.writer_errors, w.last_sync), (3, 9));
    w.synced(true, 10);
    assert_eq!(w.active.session.header.writer_errors, 3);
    assert!(w.sync_due(10 + 60 * SEC) && !w.sync_due(9 + 60 * SEC));
}

#[test]
fn rollovers_spare_young_sessions_unless_the_user_asks() {
    let (mut w, _) = writer();
    let old = 100 + 30 * SEC;
    assert_eq!(w.rotation(None, false, 15, old), None);
    assert_eq!(w.rotation(Some("user_requested".to_string()), false, 15, 101).as_deref(), Some("user_requested"));
    // Too young: dropped, and the hour is taken over.
    assert_eq!(w.rotation(None, false, 16, old - 1), None);
    assert_eq!(w.session_hour, 16);
    assert_eq!(w.rotation(None, false, 16, old), None);
    assert_eq!(w.rotation(None, false, 17, old).as_deref(), Some("hourly_rollover"));
    assert_eq!(w.rotation(None, true, 17, old).as_deref(), Some("resume_from_sleep"));
    assert_eq!(w.rotation(None, true, 17, old - 1), None);
}

#[test]
fn a_rollover_flushes_pending_events_into_the_old_session() {
    let (mut w, mut file) = writer();
    w.pending.push(ev(5, 0));
    w.max_latency_us = 9;
    let frame = w.last_frame_of_session().expect("pending events make a frame");
    file.extend(frame);
    w.active.seg.commit(true);
    assert_eq!(w.active.events_written(), 1);
    assert_eq!(read_segment(&file).unwrap().events, [ev(5, 0)]);
    assert!(w.last_frame_of_session().is_none());
    let (next, _) = Active::open(session("hourly_rollover"), 10, 20);
    let (old, between) = w.retire();
    assert_eq!(old.events_written(), 1);
    let mut w = between.resume(next, 777, 16);
    assert_eq!((w.last_sync, w.session_start, w.session_hour), (777, 777, 16));
    assert_eq!((w.max_latency_us, w.last_frame), (0, 100));
    assert_eq!(w.active.base_dropped, 20);
    w.health_done(false, 888);
    assert_eq!((w.last_health, w.active.session.header.writer_errors), (888, 1));
    w.health_done(true, 889);
    assert_eq!((w.last_health, w.active.session.header.writer_errors), (889, 1));
}

#[test]
fn closing_writes_the_totals_of_this_session_alone() {
    let (w, _) = writer();
    let counters = Counters { reports: 13, dropped: 9, peak: 21, drop_range: Some((1, 2)) };
    let s = w.active.close(false, counters, 44, NOW + 10);
    let h = s.header;
    assert_eq!((h.reports_received, h.events_dropped), (10, 5));
    assert_eq!((h.first_drop_t_ns, h.last_drop_t_ns), (Some(1), Some(2)));
    assert_eq!((h.peak_queue_depth, h.max_write_latency_us, h.writer_errors), (21, 44, 1));
    assert!(h.clean_shutdown);
    assert_eq!(h.end_unix_ms, Some(NOW + 10));
}

#[test]
fn health_is_sampled_into_header_timeline_and_status() {
    let (mut w, _) = writer();
    assert!(w.health_due(100 + 30 * SEC, false) && !w.health_due(99 + 30 * SEC, false));
    assert!(w.health_due(100, true));
    let c = Counters { reports: 2, dropped: 9, peak: 21, drop_range: Some((7, 8)) };
    match w.active.health_record(5, c, 3, 44) {
        ContextRecord::Health { t_ns, reports, written, dropped, queue_depth, peak_queue_depth, write_latency_us } => {
            assert_eq!((t_ns, reports, written, dropped), (5, 2, 0, 9));
            assert_eq!((queue_depth, peak_queue_depth, write_latency_us), (3, 21, 44));
        }
        _ => panic!("not a health record"),
    }
    w.active.note_health(c, 44);
    assert_eq!(w.active.session.header.reports_received, 0, "never below zero");
    assert_eq!(w.active.session.header.events_dropped, 5);
    w.active.note_health(Counters { drop_range: None, ..c }, 44);
    assert_eq!(w.active.session.header.first_drop_t_ns, Some(7), "a loss once noted stays");
    let mut status = SharedStatus::default();
    w.active.publish(&mut status, 9);
    assert_eq!((status.events_written, status.events_dropped, status.writer_errors), (0, 5, 0));
}

#[test]
fn segments_rotate_and_carry_their_events() {
    let (mut w, _) = writer();
    let mut status = SharedStatus::default();
    w.pending.push(ev(1, 0));
    w.frame().unwrap();
    w.frame_done(&mut status, FrameOutcome::Written, 1, 1);
    let (name, header) = w.active.next_segment();
    assert_eq!((name.as_str(), header.len()), ("events-0001.mpseg", HEADER_LEN));
    w.active.rotate_segment(false);
    assert_eq!((w.active.seg_index, w.active.session.header.writer_errors), (0, 1));
    w.active.rotate_segment(true);
    assert_eq!(w.active.seg_index, 1);
    assert_eq!(w.active.events_written(), 1);
    assert_eq!(w.active.seg.events_written(), 0);
    assert_eq!(w.active.session.header.segments, ["events-0000.mpseg", "events-0001.mpseg"]);
}

#[test]
fn the_header_follows_the_context() {
    let (mut w, _) = writer();
    let dev = ContextRecord::DeviceChange { t_ns: 1, devices: vec![DeviceInfo::default()] };
    assert!(!w.active.note_context(&dev));
    assert_eq!(w.active.session.header.devices.len(), 1);
    let power = |e: &str| ContextRecord::Power { t_ns: 1, event: e.to_string() };
    assert!(w.active.note_context(&power("resume_automatic")));
    assert!(w.active.note_context(&power("resume_user")));
    assert!(!w.active.note_context(&power("suspend")));
    let fg = ContextRecord::unresolved(4, 9);
    match with_resolution(fg, (Some(1), Some("a.exe".to_string()), None)) {
        ContextRecord::Foreground { t_ns: 4, hwnd: 9, pid: Some(1), exe: Some(e), title: None } => {
            assert_eq!(e, "a.exe")
        }
        _ => panic!("resolution lost"),
    }
}

#[test]
fn the_status_adopts_a_session() {
    let mut status = SharedStatus::default();
    status.adopt(&session("x"));
    assert_eq!(status.session_id(), "2026-09-20T19-45-40-092_55e8");
    assert_eq!(status.session_dir(), "root/sessions/2026-09-20T19-45-40-092_55e8");
    assert_eq!((status.session_start_unix_ms, status.sessions_started), (NOW, 1));
}

#[test]
fn a_closed_session_passes_its_audit() {
    let (mut w, mut first) = writer();
    let mut status = SharedStatus::default();
    let mut ring = Ring::new();
    let mut scratch = vec![Event::default(); 8192];
    let mut offered: u64 = 0;
    while ring.dropped() < 3 {
        ring.push(ev(offered, 0));
        offered += 1;
    }
    let mut second = Vec::new();
    while ring.depth() > 0 {
        w.absorb(&mut ring, &mut scratch);
        let frame = w.frame().unwrap();
        if second.is_empty() {
            first.extend(frame);
        } else {
            second.extend(frame);
        }
        w.frame_done(&mut status, FrameOutcome::Written, 1, 200);
        if second.is_empty() {
            second = w.active.next_segment().1;
            w.active.rotate_segment(true);
        }
    }
    let written = w.active.events_written();
    assert_eq!(written + 3, offered, "what was offered is stored or counted");
    let counters = Counters { reports: offered, dropped: 3, peak: 1, drop_range: None };
    let header = w.active.close(true, counters, 1, NOW + 10).header;
    assert_eq!(header.events_written, written);

    let files = vec![first, second];
    let v = verify_session(&header, &files).unwrap();
    assert_eq!((v.events_found, v.events_claimed, v.truncated_segments), (written, written, 0));
    assert!(v.clean_shutdown);
    assert!(problems(&v).is_empty());

    let stored: Vec<u64> = files
        .iter()
        .flat_map(|f| read_segment(f).unwrap().events)
        .map(|e| e.t_ns)
        .collect();
    assert_eq!(stored, (0..written).collect::<Vec<u64>>(), "in the order offered");
}

// ---- the loop ---------------------------------------------------------------------------

/// A disk in memory, and what was done to it.
#[derive(Default)]
struct Disk {
    done: Vec<&'static str>,
    files: Vec<Vec<u8>>,
    timeline: Vec<ContextRecord>,
    context: Vec<ContextRecord>,
    cmds: Vec<WriterCmd>,
    closed: Vec<Session>,
    hour: u8,
    fail: Option<&'static str>,
}

impl Disk {
    /// Does what the loop asks for, until it asks for the next turn or ends.
    fn run(&mut self, mut state: Run, mut action: Action, status: &mut SharedStatus, now: u64) -> Run {
        loop {
            let (what, answer) = match action {
                Action::Turn { .. } => return state,
                Action::Stop => {
                    self.done.push("stop");
                    return state;
                }
                Action::Finish(s) => {
                    self.done.push("finish");
                    self.closed.push(s);
                    return state;
                }
                Action::Open { name, header, timeline } => {
                    assert_eq!((name.as_str(), timeline), ("events-0000.mpseg", "context.jsonl"));
                    self.files.push(header);
                    ("open", Answer::Opened { ok: self.fail != Some("open"), hour: self.hour })
                }
                Action::Append(f) => {
                    let outcome = if self.fail == Some("append") {
                        FrameOutcome::WriteFailed
                    } else if self.fail == Some("tear") {
                        let f = f.unwrap();
                        self.files.last_mut().unwrap().extend(&f[..f.len() / 2]);
                        FrameOutcome::WriteFailed
                    } else {
                        self.files.last_mut().unwrap().extend(f.unwrap());
                        FrameOutcome::Written
                    };
                    ("append", Answer::Appended { outcome, latency_us: 7 })
                }
                Action::Create { name, header } => {
                    assert_eq!(name, "events-0001.mpseg");
                    self.files.push(header);
                    ("create", Answer::Created(true))
                }
                Action::Receive => {
                    let rec = if self.context.is_empty() { None } else { Some(self.context.remove(0)) };
                    ("receive", Answer::Received(rec))
                }
                Action::Resolve(hwnd) => {
                    assert_eq!(hwnd, 9);
                    ("resolve", Answer::Resolved(Some(1), Some("a.exe".to_string()), None))
                }
                Action::Note(rec) => {
                    self.timeline.push(rec);
                    ("note", Answer::Noted(self.fail != Some("note")))
                }
                Action::Sync => ("sync", Answer::Synced(true)),
                Action::Ask => {
                    ("ask", Answer::Asked { cmds: self.cmds.drain(..).collect(), hour: self.hour })
                }
                Action::AppendLast(f) => {
                    self.files.last_mut().unwrap().extend(f);
                    ("append last", Answer::LastAppended(true))
                }
                Action::Close => {
                    let counters = Counters { reports: 0, dropped: 0, peak: 0, drop_range: None };
                    ("close", Answer::Closing { synced: true, counters, now_ms: NOW + 10 })
                }
                Action::Replace { closed, reason } => {
                    self.closed.push(closed);
                    let counters = Counters { reports: 5, dropped: 6, peak: 0, drop_range: None };
                    let next = if self.fail == Some("replace") { None } else { Some(session(&reason)) };
                    ("replace", Answer::Next(next, counters))
                }
                Action::Sample => {
                    let counters = Counters { reports: 1, dropped: 2, peak: 3, drop_range: None };
                    ("sample", Answer::Sampled { t_ns: 4, counters, depth: 5 })
                }
                Action::Save => ("save", Answer::Saved(true)),
                Action::Totals => ("totals", Answer::Totals { dropped: 2, depth: 0 }),
            };
            self.done.push(what);
            assert!(state.accepts(&answer, now));
            (state, action) = state.step(status, answer, now);
        }
    }

    /// Runs one turn on these events.
    fn turn(&mut self, state: Run, events: &[Event], status: &mut SharedStatus, finishing: bool, now: u64) -> Run {
        let mut ring = Ring::new();
        let mut scratch = vec![Event::default(); 8192];
        for e in events {
            ring.push(*e);
        }
        assert!(state.at_turn());
        let state = state.take(&mut ring, &mut scratch, finishing);
        assert_eq!(ring.depth(), 0);
        self.done.clear();
        assert!(state.has_taken(now));
        let (state, action) = state.begin(now);
        self.run(state, action, status, now)
    }
}

fn started(disk: &mut Disk, status: &mut SharedStatus) -> Run {
    disk.hour = 15;
    let (state, action) = Run::start(session("startup"));
    disk.run(state, action, status, 0)
}

#[test]
fn a_quiet_turn_only_looks_around() {
    let (mut disk, mut status) = (Disk::default(), SharedStatus::default());
    let state = started(&mut disk, &mut status);
    assert_eq!(disk.done, ["open"]);
    assert_eq!(status.sessions_started, 1);
    let state = disk.turn(state, &[], &mut status, false, 1);
    assert_eq!(disk.done, ["receive", "ask", "totals"]);
    assert!(state.at_turn() && !state.has_taken(1));
}

#[test]
fn a_turn_keeps_its_order() {
    let (mut disk, mut status) = (Disk::default(), SharedStatus::default());
    let state = started(&mut disk, &mut status);
    disk.context = vec![ContextRecord::unresolved(4, 9), ContextRecord::Power { t_ns: 5, event: "suspend".to_string() }];
    disk.turn(state, &[ev(1, 0)], &mut status, false, 60 * SEC);
    assert_eq!(
        disk.done,
        [
            "append", "receive", "resolve", "note", "receive", "note", "receive", "sync", "ask", "sample",
            "note", "save", "totals"
        ]
    );
    assert_eq!((status.events_written, status.last_write_latency_us), (1, 7));
    assert!(matches!(&disk.timeline[0], ContextRecord::Foreground { pid: Some(1), .. }));
    assert!(matches!(&disk.timeline[2], ContextRecord::Health { written: 1, reports: 1, queue_depth: 5, .. }));
}

#[test]
fn a_rollover_goes_on_with_the_turn_in_the_next_session() {
    let (mut disk, mut status) = (Disk::default(), SharedStatus::default());
    let state = started(&mut disk, &mut status);
    disk.cmds = vec![
        WriterCmd::NewSession("first".to_string()),
        WriterCmd::NewSession("user_requested".to_string()),
    ];
    // Too few for a frame of their own: they go into the last one of the session.
    let state = disk.turn(state, &[ev(1, 0), ev(2, 0)], &mut status, false, 1);
    assert_eq!(disk.done, ["receive", "ask", "append last", "close", "replace", "open", "totals"]);
    assert_eq!(disk.closed[0].header.events_written, 2);
    assert!(disk.closed[0].header.clean_shutdown);
    assert_eq!(read_segment(&disk.files[0]).unwrap().events, [ev(1, 0), ev(2, 0)]);
    assert_eq!(status.sessions_started, 2);
    match state {
        Run::Running(r) => {
            assert_eq!(r.w.active.session.header.start_reason, "user_requested");
            assert_eq!((r.w.active.base_reports, r.w.active.base_dropped), (5, 6));
            assert!(r.w.pending.is_empty());
        }
        _ => panic!("the loop ended"),
    }
}

#[test]
fn the_loop_ends_once_everything_is_stored() {
    let (mut disk, mut status) = (Disk::default(), SharedStatus::default());
    let state = started(&mut disk, &mut status);
    disk.cmds = vec![WriterCmd::NewSession("too late".to_string())];
    let state = disk.turn(state, &[ev(1, 0)], &mut status, true, 1);
    assert_eq!(disk.done, ["append", "receive", "ask", "sample", "note", "save", "totals", "close", "finish"]);
    assert!(matches!(state, Run::Ended));
    assert_eq!(disk.closed[0].header.events_written, 1);
    let v = verify_session(&disk.closed[0].header, &disk.files).unwrap();
    assert!(problems(&v).is_empty());
}

#[test]
fn failures_are_counted_and_end_the_loop_only_without_a_session() {
    let (mut disk, mut status) = (Disk::default(), SharedStatus::default());
    let state = started(&mut disk, &mut status);
    disk.fail = Some("append");
    let state = disk.turn(state, &[ev(1, 0)], &mut status, false, SEC);
    assert_eq!((status.writer_errors, status.events_written), (1, 0));
    disk.fail = Some("note");
    disk.context = vec![ContextRecord::Power { t_ns: 5, event: "suspend".to_string() }];
    let state = disk.turn(state, &[], &mut status, false, SEC);
    assert_eq!(status.writer_errors, 2);
    disk.fail = Some("replace");
    disk.cmds = vec![WriterCmd::NewSession("x".to_string())];
    let state = disk.turn(state, &[], &mut status, false, SEC);
    assert_eq!(disk.done, ["receive", "ask", "close", "replace", "stop"]);
    assert!(matches!(state, Run::Ended));

    let mut disk = Disk { fail: Some("open"), ..Default::default() };
    assert!(matches!(started(&mut disk, &mut status), Run::Ended));
    assert!(!Run::Ended.accepts(&Answer::Saved(true), 1));
}

#[test]
fn a_segment_reads_back_up_to_a_failed_append() {
    let (mut disk, mut status) = (Disk::default(), SharedStatus::default());
    let mut state = started(&mut disk, &mut status);
    let batches: Vec<Vec<Event>> =
        (0..4u64).map(|b| (0..50).map(|k| ev(b * 1_000 + k * k % 97, b as u8)).collect()).collect();
    for (b, fail) in [None, None, Some("tear"), None].into_iter().enumerate() {
        disk.fail = fail;
        state = disk.turn(state, &batches[b], &mut status, b == 3, (b as u64 + 1) * SEC);
    }
    assert!(matches!(state, Run::Ended));
    // What was appended counts, in front of the piece and behind it.
    assert_eq!((status.writer_errors, disk.closed[0].header.events_written), (1, 150));
    let front: Vec<Event> = batches[..2].concat();
    assert_eq!(read_segment(&disk.files[0]).unwrap().events, front);
    let v = verify_session(&disk.closed[0].header, &disk.files).unwrap();
    assert_eq!((v.events_claimed, v.events_found, v.truncated_segments), (150, 100, 1));
    assert!(!problems(&v).is_empty());
}

#[test]
fn a_new_segment_carries_on_with_the_turn() {
    let (mut disk, mut status) = (Disk::default(), SharedStatus::default());
    let state = started(&mut disk, &mut status);
    let Run::Running(mut r) = disk.turn(state, &[ev(1, 0)], &mut status, false, SEC) else {
        panic!("not running")
    };
    r.at = Turn::Segment;
    let (state, action) = Run::Running(r).step(&mut status, Answer::Created(true), SEC);
    assert!(matches!(action, Action::Receive));
    let Run::Running(mut r) = state else { panic!("not running") };
    assert_eq!((r.w.active.seg_index, r.w.active.seg.events_written()), (1, 0));
    assert_eq!((r.w.active.events_written(), r.w.active.session.header.segments.len()), (1, 2));
    r.at = Turn::Segment;
    let (state, _) = Run::Running(r).step(&mut status, Answer::Created(false), SEC);
    let Run::Running(r) = state else { panic!("not running") };
    assert_eq!((r.w.active.seg_index, r.w.active.session.header.writer_errors), (1, 1));
}

#[test]
fn no_event_is_lost_or_moved_across_rollovers() {
    let (mut disk, mut status) = (Disk::default(), SharedStatus::default());
    let mut state = started(&mut disk, &mut status);
    let mut offered = Vec::new();
    for turn in 0..12u64 {
        let events: Vec<Event> = (0..turn * 700).map(|k| ev(turn * 100_000 + k, 0)).collect();
        if turn % 3 == 1 {
            disk.cmds = vec![WriterCmd::NewSession("again".to_string())];
        }
        offered.extend(events.iter().copied());
        state = disk.turn(state, &events, &mut status, turn == 11, turn * SEC / 2);
    }
    assert!(matches!(state, Run::Ended));
    assert_eq!(disk.closed.len(), 5);
    let stored: Vec<Event> = disk.files.iter().flat_map(|f| read_segment(f).unwrap().events).collect();
    assert_eq!(stored, offered);
    for (s, f) in disk.closed.iter().zip(&disk.files) {
        assert!(s.header.clean_shutdown);
        assert_eq!(s.header.events_written, read_segment(f).unwrap().events.len() as u64);
    }
}
