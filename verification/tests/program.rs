//! The command line, startup and the dashboard.

use std::collections::VecDeque;

use mouse_profiler::cli::{
    ballistics_lines, command_of, data_root, device_lines, duration_secs, export_lines, flag_value,
    has_flag, help_text, list_header, list_line, monitor_line, needs_console, pick_session,
    positional, problems, startup_command, state_label, unreadable_line, verdict, verify_lines,
    Command, DataRoot, SessionPick, StartupCommand,
};
use mouse_profiler::console::usable;
use mouse_profiler::context::monitors::MonitorInfo;
use mouse_profiler::event::{Event, B_NONE, B_RIGHT, EV_BUTTON, EV_MOVE, EV_SYNC, EV_WHEEL, F_DOWN, F_HWHEEL};
use mouse_profiler::export::{ExportStats, VerifyReport};
use mouse_profiler::input::ballistics::Ballistics;
use mouse_profiler::input::devices::DeviceInfo;
use mouse_profiler::ui::theme::{rgb, ACCENT, BG, BTN_TEXT};
use mouse_profiler::ui::tray::{make_icon, needs_redraw, tip_units, TrayState};
use mouse_profiler::ui::window::{
    action_of, button_controls, client_size, command_of as ui_command, device_line, elapsed_text,
    export_message, heading_control, is_shown, note_control, raw_dump, refresh, reply_to,
    row_controls, shown_events, startup_message, tray_menu, tray_state, ControlKind,
    DashboardReading, MenuEntry, UiCommand, WindowAction,
};
use mouse_profiler::windows::startup::{
    after_run_value, after_task, create_task_args, disable, enable, is_enabled, launch_command,
    run_key_closed, run_key_delete, run_key_get, run_key_set, run_value_bytes, status, toggle,
    toggled_off, EnableStep, Method, RemoveOutcome, TaskOutcome, Toggle,
};

fn args(list: &[&str]) -> Vec<String> {
    list.iter().map(|s| s.to_string()).collect()
}

// ---- the command line -------------------------------------------------------------------

#[test]
fn commands_are_told_by_the_first_argument() {
    assert!(matches!(command_of(&args(&[])), Command::Record));
    assert!(matches!(command_of(&args(&["record", "list"])), Command::Record));
    assert!(matches!(command_of(&args(&[""])), Command::Record));
    assert!(matches!(command_of(&args(&["list"])), Command::List));
    assert!(matches!(command_of(&args(&["verify"])), Command::Verify));
    assert!(matches!(command_of(&args(&["export"])), Command::Export));
    assert!(matches!(command_of(&args(&["info"])), Command::Info));
    assert!(matches!(command_of(&args(&["stats"])), Command::Stats));
    assert!(matches!(command_of(&args(&["startup"])), Command::Startup));
    for h in ["-h", "--help", "help"] {
        assert!(matches!(command_of(&args(&[h])), Command::Help));
    }
    assert!(matches!(command_of(&args(&["List"])), Command::Unknown(s) if s == "List"));
    assert!(needs_console(&Command::List) && !needs_console(&Command::Record));
}

#[test]
fn flags_and_their_values_are_found() {
    let a = args(&["record", "--data", "D:/x", "--titles", "--duration", "15", "--out"]);
    assert_eq!(flag_value(&a, "--data").as_deref(), Some("D:/x"));
    assert_eq!(flag_value(&a, "--out"), None);
    assert_eq!(flag_value(&a, "--none"), None);
    assert!(has_flag(&a, "--titles") && !has_flag(&a, "--tray"));
    assert_eq!(duration_secs(&a), Some(15));
    assert_eq!(duration_secs(&args(&["record", "--duration", "1x"])), None);
    assert_eq!(duration_secs(&args(&["record"])), None);
}

#[test]
fn a_positional_argument_is_not_the_value_of_a_flag() {
    assert_eq!(positional(&args(&["verify", "--data", "D:/x", "--titles", "id"])).as_deref(), Some("id"));
    assert_eq!(positional(&args(&["verify", "", "id"])).as_deref(), Some("id"));
    assert_eq!(positional(&args(&["verify", "--out"])), None);
    assert_eq!(positional(&args(&["verify", "--out", "f"])), None);
    assert_eq!(positional(&args(&[])), None);
    assert_eq!(positional(&args(&["verify", "-x"])).as_deref(), Some("-x"));
    assert_eq!(startup_command(&args(&["startup", "on"])), StartupCommand::On);
    assert_eq!(startup_command(&args(&["startup", "off"])), StartupCommand::Off);
    assert_eq!(startup_command(&args(&["startup"])), StartupCommand::Show);
    assert_eq!(startup_command(&args(&["startup", "maybe"])), StartupCommand::Show);
}

#[test]
fn data_is_kept_where_it_was_asked_for() {
    let t = || "temp".to_string();
    assert!(matches!(data_root(&args(&["x", "--data", "D"]), None, t()), DataRoot::Exactly(d) if d == "D"));
    assert!(matches!(data_root(&args(&["x"]), Some("L".to_string()), t()), DataRoot::Below(d) if d == "L"));
    assert!(matches!(data_root(&args(&["x"]), None, t()), DataRoot::Below(d) if d == "temp"));
}

#[test]
fn sessions_are_picked_by_path_name_or_latest() {
    let names = args(&["a", "b", "c"]);
    let n = |s: &str| Some(s.to_string());
    assert!(matches!(pick_session(n("p"), true, &names), Ok(SessionPick::Named(p)) if p == "p"));
    assert!(matches!(pick_session(n("b"), false, &names), Ok(SessionPick::Listed(1))));
    assert_eq!(pick_session(n("x"), false, &names).unwrap_err(), "no session matching x");
    assert!(matches!(pick_session(None, false, &names), Ok(SessionPick::Listed(2))));
    assert_eq!(pick_session(None, false, &Vec::new()).unwrap_err(), "no sessions recorded yet");
}

fn found() -> VerifyReport {
    VerifyReport {
        session_id: "id".to_string(),
        events_found: 5,
        events_claimed: 5,
        dropped_claimed: 1,
        truncated_segments: 0,
        clean_shutdown: true,
        interrupted: false,
        monotonic_violations: 0,
        duration_ns: 0,
    }
}

#[test]
fn only_sound_sessions_pass_the_audit() {
    let r = found();
    assert!(problems(&r).is_empty());
    assert_eq!(verdict(&problems(&r)), "OK");
    let bad = VerifyReport { events_found: 4, truncated_segments: 1, monotonic_violations: 2, ..found() };
    let p = problems(&bad);
    assert_eq!(
        p,
        [
            "FAIL: 2 timestamp regressions",
            "FAIL: header claims 5 events, disk holds 4",
            "FAIL: clean session must not have truncated segments"
        ]
    );
    assert_eq!(verdict(&p), "PROBLEMS FOUND");
    // A crashed session legitimately differs from its header.
    let crashed = VerifyReport { events_found: 9, truncated_segments: 1, clean_shutdown: false, ..found() };
    assert!(problems(&crashed).is_empty());
}

#[test]
fn an_audit_is_printed_line_by_line() {
    let v = verify_lines(&found(), "1.5");
    assert_eq!(v.len(), 9);
    assert_eq!(v[0], "session           : id");
    assert_eq!(v[4], "duration          : 1.5 s");
    assert_eq!(v[6], "clean shutdown    : true");
    assert_eq!(v[8], "timestamp order   : monotonic");
    assert_eq!(verify_lines(&VerifyReport { monotonic_violations: 1, ..found() }, "")[8], "timestamp order   : VIOLATED");
}

#[test]
fn sessions_are_listed_in_columns() {
    assert_eq!(
        list_header(),
        format!("{:<34} {:>12} {:>9} {:>10}  state", "session", "events", "dropped", "duration")
    );
    assert_eq!(list_line(&found(), "7"), format!("{:<34} {:>12} {:>9} {:>9}s  clean", "id", 5, 1, 7));
    assert_eq!(state_label(&VerifyReport { interrupted: true, ..found() }), "INTERRUPTED");
    assert_eq!(state_label(&VerifyReport { clean_shutdown: false, ..found() }), "in progress");
    assert_eq!(unreadable_line("x", "why"), format!("{:<34} <unreadable: why>", "x"));
    let s = ExportStats { events: 3, segments: 1, truncated_segments: 0 };
    assert_eq!(export_lines(&s, "p"), ["exported 3 events from 1 segment(s)", "-> p"]);
    let s = ExportStats { truncated_segments: 2, ..s };
    assert_eq!(export_lines(&s, "p")[1], "note: 2 segment(s) had a truncated tail (interrupted session)");
}

#[test]
fn the_machine_is_described() {
    assert_eq!(device_lines(&[]), ["  (none detected)"]);
    let d = DeviceInfo {
        index: 1,
        name: "path".to_string(),
        vendor_id: Some(0x46D),
        buttons: 5,
        reported_sample_rate: 125,
        ..Default::default()
    };
    let synthetic = DeviceInfo { synthetic: true, ..Default::default() };
    assert_eq!(
        device_lines(&[synthetic, d]),
        ["  [1] path", "       vid=046D pid=- buttons=5 reported_rate=125Hz hwheel=false"]
    );
    let m = MonitorInfo {
        index: 0,
        device: "D1".to_string(),
        left: -1920,
        top: 0,
        right: 0,
        bottom: 1080,
        work_left: 0,
        work_top: 0,
        work_right: 0,
        work_bottom: 0,
        dpi_x: 144,
        dpi_y: 144,
        primary: true,
    };
    assert_eq!(monitor_line(&m, "1.50"), "  [0] D1 1920x1080 @ (-1920,0)  dpi=144 scale=1.50  [primary]");
    let b = Ballistics { pointer_speed: 10, mouse_threshold1: 6, mouse_threshold2: 10, ..Default::default() };
    let lines = ballistics_lines(&b, "[]", "[]");
    assert_eq!(lines.len(), 5);
    assert_eq!(lines[0], "  pointer speed (1-20)     : 10");
    assert_eq!(lines[1], "  enhance pointer precision: off");
    assert_eq!(lines[2], "  thresholds               : 6 / 10");
    let on = Ballistics { enhance_pointer_precision: 1, ..b };
    assert_eq!(ballistics_lines(&on, "x", "y").len(), 8);
    let help = help_text("0.2.0");
    assert!(help.starts_with("HumanTelemetry 0.2.0 -- RecordMouseFULL-HumanTelemetry-AIO\n\nUSAGE:"));
    assert!(help.contains("%LOCALAPPDATA%\\RecordMouseFULL"));
}

#[test]
fn redirected_handles_are_left_alone() {
    assert!(usable(0x1234));
    assert!(!usable(0) && !usable(-1));
}

// ---- startup ----------------------------------------------------------------------------

#[test]
fn status_is_consistent_with_is_enabled() {
    for task in [false, true] {
        for run in [None, Some("cmd".to_string())] {
            assert_eq!(is_enabled(task, &run), status(task, &run) != Method::Off);
        }
    }
    assert_eq!(status(true, &Some("x".to_string())), Method::Task);
    assert_eq!(status(false, &Some("x".to_string())), Method::RunKey);
    assert_eq!(status(false, &None), Method::Off);
}

#[test]
fn run_key_roundtrips_without_elevation() {
    let bytes = run_value_bytes("\"C:\\nonexistent\\mp.exe\" record --tray");
    assert_eq!(bytes.len() % 2, 0);
    assert_eq!(&bytes[bytes.len() - 2..], &[0, 0]);
    let got = run_key_get(&Some((1, bytes))).expect("read back");
    assert!(got.contains("mp.exe"), "unexpected value: {got}");
    assert_eq!(got, "\"C:\\nonexistent\\mp.exe\" record --tray");
    run_key_delete(0).expect("delete");
    assert!(run_key_get(&None).is_none(), "value should be gone");
    // Deleting twice must not be an error.
    run_key_delete(2).expect("idempotent delete");
    assert_eq!(run_key_delete(5).unwrap_err(), "could not delete HKCU Run value (error 5)");
    assert!(run_key_set(0).is_ok());
    assert_eq!(run_key_set(5).unwrap_err(), "could not write HKCU Run value (error 5)");
    assert_eq!(run_key_closed(), "cannot open HKCU Run key for writing");
}

#[test]
fn methods_have_labels() {
    assert_eq!(Method::Off.label(), "off");
    assert_eq!(Method::Task.label(), "on (scheduled task)");
    assert_eq!(Method::RunKey.label(), "on (registry Run)");
}

#[test]
fn enabling_prefers_the_task_and_falls_back() {
    let exe = Ok("C:\\a.exe".to_string());
    assert_eq!(launch_command(&exe).unwrap(), "\"C:\\a.exe\" record --tray");
    assert!(matches!(enable(&exe), EnableStep::CreateTask(c) if c == "\"C:\\a.exe\" record --tray"));
    assert!(matches!(enable(&Err("gone".to_string())), EnableStep::Done(Err(e)) if e == "cannot locate own exe: gone"));
    let a = create_task_args("cmd");
    assert_eq!(a, ["/create", "/tn", "HumanTelemetry", "/tr", "cmd", "/sc", "onlogon", "/rl", "limited", "/f"]);
    let c = || "cmd".to_string();
    assert!(matches!(after_task(c(), TaskOutcome::Succeeded), EnableStep::Done(Ok(Method::Task))));
    assert!(matches!(after_task(c(), TaskOutcome::Refused), EnableStep::WriteRunValue(x) if x == "cmd"));
    assert!(matches!(after_task(c(), TaskOutcome::NotRun("no".to_string())), EnableStep::Done(Err(e)) if e == "could not run schtasks: no"));
    assert_eq!(after_run_value(Ok(())), Ok(Method::RunKey));
    assert_eq!(after_run_value(Err("e".to_string())), Err("e".to_string()));
}

#[test]
fn two_switches_leave_startup_as_it_was() {
    let exe = Ok("C:\\r.exe".to_string());
    for (task, run) in [(false, None), (true, None), (false, Some("c".to_string())), (true, Some("c".to_string()))] {
        let was = is_enabled(task, &run);
        let (mut task, mut run) = (task, run);
        for _ in 0..2 {
            let on = is_enabled(task, &run);
            let result = match toggle(on) {
                Toggle::Disable => {
                    let r = disable(
                        if task { Some(RemoveOutcome::Succeeded) } else { None },
                        run.as_ref().map(|_| Ok(())),
                    );
                    (task, run) = (false, None);
                    toggled_off(r)
                }
                Toggle::Enable => {
                    let EnableStep::CreateTask(c) = enable(&exe) else { panic!("no task") };
                    match after_task(c, TaskOutcome::Refused) {
                        EnableStep::WriteRunValue(c) => {
                            run = Some(c);
                            after_run_value(Ok(()))
                        }
                        _ => panic!("no run value"),
                    }
                }
            };
            assert_eq!(result, Ok(status(task, &run)));
            assert_eq!(is_enabled(task, &run), !on);
        }
        assert_eq!(is_enabled(task, &run), was);
    }
}

#[test]
fn disabling_clears_both_and_reports_every_error() {
    assert_eq!(disable(None, None), Ok(()));
    assert_eq!(disable(Some(RemoveOutcome::Succeeded), Some(Ok(()))), Ok(()));
    let e = disable(
        Some(RemoveOutcome::Refused("out".to_string(), "err".to_string())),
        Some(Err("run".to_string())),
    );
    assert_eq!(e.unwrap_err(), "scheduled task: outerr; run");
    assert_eq!(disable(Some(RemoveOutcome::NotRun("x".to_string())), None).unwrap_err(), "schtasks: x");
    assert_eq!(toggle(true), Toggle::Disable);
    assert_eq!(toggle(false), Toggle::Enable);
    assert_eq!(toggled_off(Ok(())), Ok(Method::Off));
    assert_eq!(toggled_off(Err("e".to_string())), Err("e".to_string()));
}

// ---- the dashboard ----------------------------------------------------------------------

fn reading() -> DashboardReading {
    DashboardReading {
        paused: false,
        reports: 12,
        dropped: 0,
        errors: 0,
        events: 34,
        elapsed_secs: 3_725,
        queue_depth: 1,
        queue_peak: 9,
        session_id: "id".to_string(),
        session_dir: "dir".to_string(),
        rate_now: "125".to_string(),
        rate_peak: "1000".to_string(),
        rate_mean: "500".to_string(),
    }
}

#[test]
fn the_dashboard_shows_what_was_read() {
    let d = refresh(&reading());
    assert_eq!(d.state, TrayState::Recording);
    assert_eq!((d.status.as_str(), d.elapsed.as_str()), ("RECORDING", "01:02:05"));
    assert_eq!((d.reports.as_str(), d.events.as_str(), d.dropped.as_str()), ("12", "34", "0"));
    assert_eq!(d.queue, "1 / 65536   (peak 9)");
    assert_eq!(d.rate, "125 Hz now    peak 1000 Hz    avg while moving 500 Hz");
    assert_eq!((d.session.as_str(), d.folder.as_str(), d.pause_button.as_str()), ("id", "dir", "Pause"));
    let d = refresh(&DashboardReading { paused: true, dropped: 5, ..reading() });
    assert_eq!((d.status.as_str(), d.rate.as_str(), d.pause_button.as_str()), ("PAUSED", "-", "Resume"));
    assert_eq!(d.dropped, "5  -- DATA LOSS");
    let d = refresh(&DashboardReading { paused: true, errors: 2, ..reading() });
    assert_eq!(d.status, "RECORDING (writer errors - see below)");
    assert_eq!(d.events, "34    (2 writer error(s))");
    assert_eq!(elapsed_text(360_000), "100:00:00");
    assert_eq!(tray_state(1, true), TrayState::Error);
}

#[test]
fn unchanged_text_is_not_painted_again() {
    let units = |s: &str| s.encode_utf16().chain([0]).collect::<Vec<u16>>();
    assert!(is_shown(&units("abc"), "abc"));
    assert!(is_shown(&units(""), ""));
    assert!(is_shown(&Vec::new(), ""));
    assert!(!is_shown(&units("abc"), "abd"));
    assert!(!is_shown(&units("abc"), "ab"));
    assert!(!is_shown(&Vec::new(), "a"));
}

#[test]
fn the_busiest_mouse_leads() {
    let d = |index: u8, vendor_id: Option<u16>| DeviceInfo {
        index,
        vendor_id,
        product_id: vendor_id,
        buttons: 3,
        ..Default::default()
    };
    let synthetic = DeviceInfo { synthetic: true, ..Default::default() };
    let counts = vec![99, 5, 50, 5];
    assert_eq!(device_line(&vec![], &counts), "none detected");
    assert_eq!(device_line(&vec![synthetic.clone()], &counts), "none detected");
    assert_eq!(
        device_line(&vec![synthetic, d(1, Some(0x46D)), d(2, None), d(3, None), d(200, None)], &counts),
        "#2 HID 3btn 50ev   |   #1 046D:046D 3btn 5ev   |   #3 HID 3btn 5ev   |   #200 HID 3btn 0ev"
    );
}

#[test]
fn raw_events_are_shown_as_stored() {
    let e = Event { kind: EV_MOVE, dev: 1, dx: 3, dy: -4, x: 100, y: 200, ..Default::default() };
    let time = |e: &Event| format!("{:.6}", e.t_ns as f64 / 1e9);
    let events = vec![
        e,
        Event { kind: EV_WHEEL, wheel: 120, flags: F_HWHEEL, ..e },
        Event { kind: EV_WHEEL, wheel: -120, ..e },
        Event { kind: EV_SYNC, t_ns: 1_500_000_000, ..e },
        Event { kind: EV_BUTTON, btn: B_RIGHT, flags: F_DOWN, ..e },
        Event { kind: EV_BUTTON, btn: B_NONE, ..e },
        Event { kind: 0, ..e },
    ];
    let times: Vec<String> = events.iter().map(time).collect();
    let dump = raw_dump(&events, &times);
    let lines: Vec<&str> = dump.split("\r\n").collect();
    assert_eq!(lines[0], "      t (s)   dev     dx     dy       x      y   event");
    let whats = ["MOVE", "HWHEEL +120", "VWHEEL -120", "SYNC", "RIGHT_DOWN", "NONE_UP", "?"];
    for (i, what) in whats.iter().enumerate() {
        let t = events[i].t_ns as f64 / 1e9;
        let expected = format!("{t:>12.6}   #{:<3} {:>6} {:>6}   {:>5}  {:>5}   {what}", 1, 3, -4, 100, 200);
        assert_eq!(lines[2 + i], expected);
    }
    assert_eq!(lines.len(), 10);
}

#[test]
fn only_the_last_two_hundred_events_are_shown() {
    let mut q: VecDeque<Event> = VecDeque::new();
    for t in 0..300 {
        q.push_back(Event { t_ns: t, ..Default::default() });
    }
    let shown = shown_events(&q);
    assert_eq!(shown.len(), 200);
    assert_eq!((shown[0].t_ns, shown[199].t_ns), (100, 299));
    q.truncate(5);
    assert_eq!(shown_events(&q).len(), 5);
}

#[test]
fn buttons_and_menu_entries_agree() {
    assert_eq!(ui_command(1001), UiCommand::TogglePause);
    assert_eq!(ui_command(2002), UiCommand::TogglePause);
    assert_eq!(ui_command(0x7_0000 + 1004), UiCommand::Export);
    assert_eq!(ui_command(1006), UiCommand::Hide);
    assert_eq!(ui_command(2001), UiCommand::Show);
    assert_eq!(ui_command(2099), UiCommand::Exit);
    assert_eq!(ui_command(5), UiCommand::Nothing);
    let ids: Vec<usize> = button_controls().iter().map(|c| c.id).collect();
    assert!(ids.iter().all(|id| ui_command(*id) != UiCommand::Nothing));
    let menu = tray_menu(true, true);
    assert_eq!(menu.len(), 9);
    for entry in &menu {
        match entry {
            MenuEntry::Item(id, text) => {
                assert!(!text.is_empty());
                assert_ne!(ui_command(*id), UiCommand::Nothing);
            }
            MenuEntry::Check(id, _, on) => {
                assert_eq!(ui_command(*id), UiCommand::ToggleStartup);
                assert!(*on);
            }
            MenuEntry::Separator => {}
        }
    }
    assert!(matches!(menu[1], MenuEntry::Item(_, "Resume Recording")));
}

#[test]
fn closing_hides_and_only_exit_stops() {
    assert_eq!(action_of(0x0010, 0, 0, true), WindowAction::Hide);
    assert_eq!(action_of(0x0111, 2099, 0, true), WindowAction::Command(UiCommand::Exit));
    assert_eq!(action_of(0x0113, 1, 0, true), WindowAction::Refresh);
    assert_eq!(action_of(0x0113, 1, 0, false), WindowAction::Nothing);
    assert_eq!(action_of(0x0113, 2, 0, true), WindowAction::Default);
    assert_eq!(action_of(0x8001, 0, 0x0205, true), WindowAction::ShowTrayMenu);
    assert_eq!(action_of(0x8001, 0, 0x0203, false), WindowAction::Show);
    assert_eq!(action_of(0x8001, 0, 0, false), WindowAction::Nothing);
    assert_eq!(action_of(0x0011, 0, 0, true), WindowAction::AllowEnd);
    assert_eq!(action_of(0x0016, 1, 0, true), WindowAction::Flush);
    assert_eq!(action_of(0x0016, 0, 0, true), WindowAction::Nothing);
    assert_eq!(action_of(0x0002, 0, 0, true), WindowAction::Quit);
    assert_eq!(reply_to(WindowAction::AllowEnd), Some(1));
    assert_eq!(reply_to(WindowAction::Default), None);
    assert_eq!(reply_to(WindowAction::Hide), Some(0));
    assert_eq!(client_size(0x0004_0003), (3, 4));
}

#[test]
fn the_layout_is_fixed() {
    let h = heading_control();
    assert_eq!((h.kind, h.text, h.y), (ControlKind::Heading, "starting...", 12));
    let rows = row_controls();
    assert_eq!(rows.len(), 9);
    assert_eq!((rows[0].0.text, rows[0].0.y, rows[0].1.x), ("Session", 52, 132));
    assert_eq!((rows[8].0.text, rows[8].1.y), ("Data folder", 244));
    let b = button_controls();
    assert_eq!((b[0].text, b[0].x, b[0].y, b[0].w), ("Pause", 16, 282, 108));
    assert_eq!(b[4].kind, ControlKind::Checkbox);
    assert_eq!(note_control().y, 360);
}

#[test]
fn messages_say_which_mechanism_took_effect() {
    assert_eq!(startup_message(Method::Off), None);
    assert!(startup_message(Method::Task).unwrap().ends_with("Registered as a scheduled task."));
    assert!(startup_message(Method::RunKey).unwrap().contains("registry Run key"));
    assert!(export_message(3, "p").starts_with("Exported 3 events to\np\n\nNote: "));
}

/// The icon as floating point draws it.
fn float_icon((r, g, b): (u8, u8, u8)) -> Vec<u8> {
    const N: usize = 16;
    let mut xor = vec![0u8; N * N * 4];
    let put = |buf: &mut [u8], x: usize, y: usize, c: (u8, u8, u8)| {
        let i = (y * N + x) * 4;
        buf[i] = c.2;
        buf[i + 1] = c.1;
        buf[i + 2] = c.0;
        buf[i + 3] = 255;
    };
    let edge = (20u8, 24u8, 28u8);
    let cx = (N as f32 - 1.0) / 2.0;
    let cy = (N as f32 - 1.0) / 2.0;
    let rx = N as f32 * 0.30;
    let ry = N as f32 * 0.44;
    let split = cy - N as f32 * 0.10;
    for y in 0..N {
        for x in 0..N {
            let nx = (x as f32 - cx) / rx;
            let ny = (y as f32 - cy) / ry;
            let d = nx * nx + ny * ny;
            if d <= 1.0 {
                put(&mut xor, x, y, if d > 0.62 { edge } else { (r, g, b) });
            }
        }
    }
    let sy = split.round() as usize;
    let vx = cx.round() as usize;
    for x in 0..N {
        let nx = (x as f32 - cx) / rx;
        let ny = (sy as f32 - cy) / ry;
        if nx * nx + ny * ny <= 1.0 {
            put(&mut xor, x, sy, edge);
        }
    }
    for y in 0..sy {
        let nx = (vx as f32 - cx) / rx;
        let ny = (y as f32 - cy) / ry;
        if nx * nx + ny * ny <= 1.0 {
            put(&mut xor, vx, y, edge);
        }
    }
    let wy0 = (cy - N as f32 * 0.30).round() as usize;
    let wy1 = (cy - N as f32 * 0.16).round() as usize;
    for y in wy0..=wy1.min(N - 1) {
        put(&mut xor, vx, y, (255, 255, 255));
    }
    xor
}

#[test]
fn the_icon_is_drawn_as_floating_point_draws_it() {
    for s in [TrayState::Recording, TrayState::Paused, TrayState::Error] {
        assert_eq!(make_icon(s), float_icon(s.rgb()));
    }
}

#[test]
fn tray_states_have_colours_and_tips() {
    assert_eq!(TrayState::Recording.rgb(), (0, 200, 0));
    assert_eq!(TrayState::Error.tip(), "HumanTelemetry - Error (see window)");
    assert!(needs_redraw(TrayState::Paused, TrayState::Error));
    assert!(!needs_redraw(TrayState::Paused, TrayState::Paused));
    let tip: Vec<u16> = "HumanTelemetry - Paused".encode_utf16().collect();
    assert_eq!(tip_units(TrayState::Paused, 128), tip);
    assert_eq!(tip_units(TrayState::Paused, 6), tip[..5]);
    assert_eq!(rgb(24, 24, 27), BG);
    assert_eq!(rgb(96, 165, 250), ACCENT);
    assert_eq!(rgb(228, 230, 235), BTN_TEXT);
}
