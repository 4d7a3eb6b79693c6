//! Devices, pointer settings, reports and context.

use mouse_profiler::context::foreground::{executable_name, is_foreground_change, Ask, Resolution};
use mouse_profiler::context::monitors::{enumerate, MonitorReading, Rect};
use mouse_profiler::context::{initial_records, ContextRecord};
use mouse_profiler::event::{
    Event, B_LEFT, B_NONE, B_RIGHT, B_X2, EV_BUTTON, EV_MOVE, EV_SYNC, EV_WHEEL, F_ABSOLUTE, F_DOWN,
    F_HWHEEL, F_NOCOALESCE, F_POS_STALE, F_VIRTUALDESK, M_ALT, M_CTRL, M_SHIFT, M_WIN,
};
use mouse_profiler::input::ballistics::{
    decode_curve, text_from_bytes, value_read, value_room, Ballistics, BallisticsReading,
};
use mouse_profiler::input::devices::{
    describe_mice, device_name_room, parse_vid_pid, DeviceInfo, DeviceReading, DeviceTable,
    UNKNOWN_DEVICE,
};
use mouse_profiler::input::raw_input::{
    message_of, modifier_mask, needs_modifiers, power_record, reply_to, Capture, CaptureMessage,
    CaptureState, Report, RI_BTN5_UP, RI_HWHEEL, RI_LEFT_DOWN, RI_LEFT_UP, RI_RIGHT_DOWN, RI_WHEEL,
};
use mouse_profiler::ring::Ring;
use mouse_profiler::utf16::{decode, decode_until_zero, wide};

#[test]
fn parses_usb_ids_from_a_real_device_path() {
    let p = r"\\?\HID#VID_046D&PID_C52B&MI_01&Col01#7&1f2a3b4c&0&0000#{378de44c}";
    assert_eq!(parse_vid_pid(p), (Some(0x046D), Some(0xC52B)));
}

#[test]
fn handles_devices_with_no_usb_ids() {
    assert_eq!(parse_vid_pid(r"\\?\ACPI#PNP0F03#4&1234#{378de44c}"), (None, None));
}

#[test]
fn is_case_insensitive() {
    assert_eq!(parse_vid_pid(r"\\?\hid#vid_1532&pid_0084#6&abc"), (Some(0x1532), Some(0x0084)));
}

#[test]
fn ids_need_four_hexadecimal_digits_behind_the_first_key() {
    assert_eq!(parse_vid_pid("VID_12G4 VID_1234"), (None, None));
    assert_eq!(parse_vid_pid("VID_123"), (None, None));
    assert_eq!(parse_vid_pid("PID_BEEFCAFE"), (None, Some(0xBEEF)));
    assert_eq!(parse_vid_pid(""), (None, None));
}

#[test]
fn unknown_device_always_resolves() {
    // A table that has never seen a handle must still attribute events
    // somewhere rather than dropping them.
    let t = DeviceTable::new(Vec::new());
    assert_eq!(t.index_of(0x1234), UNKNOWN_DEVICE);
    assert_eq!(DeviceTable::default().index_of(0x1234), UNKNOWN_DEVICE);
}

fn mouse(name: &str) -> DeviceInfo {
    DeviceInfo { name: name.to_string(), ..Default::default() }
}

#[test]
fn replugged_devices_keep_their_index() {
    let mut t = DeviceTable::new(vec![(10, mouse("a")), (11, mouse("b"))]);
    assert_eq!((t.index_of(10), t.index_of(11)), (1, 2));
    // b comes back under another handle, a is gone.
    assert!(!t.refresh(vec![(99, mouse("b"))]));
    assert_eq!(t.index_of(99), 2);
    assert_eq!(t.index_of(10), UNKNOWN_DEVICE);
    // A new one is a change.
    assert!(t.refresh(vec![(99, mouse("b")), (12, mouse("c")), (13, mouse("a"))]));
    assert_eq!((t.index_of(99), t.index_of(12), t.index_of(13)), (2, 3, 1));
    let names: Vec<&str> = t.devices().iter().map(|d| d.name.as_str()).collect();
    assert_eq!(names, ["<unknown>", "a", "b", "c"]);
    assert!(t.devices().iter().enumerate().all(|(i, d)| d.index as usize == i));
    assert!(t.devices()[0].synthetic);
}

#[test]
fn a_device_table_stays_orderly() {
    let mut t = DeviceTable::new(vec![(1, mouse("a")), (2, mouse("b")), (3, mouse("a"))]);
    t.refresh(vec![(2, mouse("c")), (4, mouse("b"))]);
    let devices = t.devices();
    assert_eq!(devices.iter().map(|d| d.name.as_str()).collect::<Vec<_>>(), ["<unknown>", "a", "b", "c"]);
    assert!(devices.iter().enumerate().all(|(i, d)| d.index as usize == i && d.synthetic == (i == 0)));
    assert_eq!((t.index_of(2), t.index_of(4)), (3, 2));
    // Handles of an earlier list mean nothing.
    assert_eq!((t.index_of(1), t.index_of(3)), (0, 0));
}

#[test]
fn a_full_table_refuses_rather_than_wraps() {
    let found: Vec<(isize, DeviceInfo)> =
        (0..300).map(|i| (i as isize + 1, mouse(&format!("m{i}")))).collect();
    let t = DeviceTable::new(found);
    assert_eq!(t.devices().len(), 255);
    assert_eq!(t.index_of(254), 254);
    assert_eq!(t.index_of(255), UNKNOWN_DEVICE);
}

#[test]
fn a_device_called_unknown_is_not_taken_for_the_synthetic_one() {
    let t = DeviceTable::new(vec![(5, mouse("<unknown>"))]);
    assert_eq!(t.index_of(5), 1);
}

#[test]
fn only_mice_are_described() {
    let units = |s: &str| Some(s.encode_utf16().chain([0, 7]).collect::<Vec<u16>>());
    let list = vec![
        DeviceReading { handle: 1, kind: 1, name: units("keyboard"), caps: None },
        DeviceReading { handle: 2, kind: 0, name: units("VID_046D&PID_C52B"), caps: Some((5, 125, true)) },
        DeviceReading { handle: 3, kind: 0, name: None, caps: None },
    ];
    let mice = describe_mice(&list);
    assert_eq!(mice.len(), 2);
    assert_eq!(mice[0].0, 2);
    assert_eq!(mice[0].1.name, "VID_046D&PID_C52B");
    assert_eq!(mice[0].1.vendor_id, Some(0x046D));
    assert_eq!((mice[0].1.buttons, mice[0].1.reported_sample_rate), (5, 125));
    assert!(mice[0].1.has_horizontal_wheel);
    assert_eq!(mice[1].0, 3);
    assert_eq!(mice[1].1.name, "");
    assert_eq!(device_name_room(0), None);
    assert_eq!(device_name_room(4096), Some(4096));
    assert_eq!(device_name_room(4097), None);
}

// ---- pointer settings -------------------------------------------------------------------

#[test]
fn decodes_the_windows_default_x_curve() {
    // The stock SmoothMouseXCurve shipped by Windows.
    let raw: [u8; 40] = [
        0x00, 0x00, 0x00, 0x00, 0x00, 0x00, 0x00, 0x00, //  0.0
        0x15, 0x6E, 0x00, 0x00, 0x00, 0x00, 0x00, 0x00, //  0.43
        0x00, 0x40, 0x01, 0x00, 0x00, 0x00, 0x00, 0x00, //  1.25
        0x29, 0xDC, 0x03, 0x00, 0x00, 0x00, 0x00, 0x00, //  3.86
        0x00, 0x00, 0x28, 0x00, 0x00, 0x00, 0x00, 0x00, // 40.0
    ];
    let c: Vec<f64> = decode_curve(&raw).into_iter().map(|p| p as f64 / 65_536.0).collect();
    assert_eq!(c.len(), 5);
    assert_eq!(c[0], 0.0);
    assert!((c[4] - 40.0).abs() < 1e-9, "got {}", c[4]);
    // Curve must be monotonically non-decreasing to be a sane transform.
    for w in c.windows(2) {
        assert!(w[1] >= w[0]);
    }
    assert_eq!(c[2], 1.25);
}

#[test]
fn tolerates_a_missing_or_truncated_curve() {
    assert!(decode_curve(&[]).is_empty());
    assert_eq!(decode_curve(&[1, 2, 3]).len(), 0); // partial entry ignored
}

#[test]
fn a_curve_point_is_fraction_then_whole_part() {
    assert_eq!(decode_curve(&[1, 0, 0, 0, 2, 0, 0, 0]), [2 * 65_536 + 1]);
}

fn text_value(s: &str) -> Option<(u32, Vec<u8>)> {
    Some((1, s.encode_utf16().chain([0]).flat_map(|u| u.to_le_bytes()).collect()))
}

#[test]
fn snapshot_takes_the_readings_over() {
    let b = Ballistics::snapshot(BallisticsReading {
        pointer_speed: 7,
        mouse: [6, 10, 1],
        x_curve: Some((3, vec![0, 0, 1, 0, 0, 0, 0, 0])),
        y_curve: None,
        sensitivity: text_value("10"),
        speed: None,
        threshold1: text_value("6"),
        threshold2: text_value(""),
    });
    assert_eq!((b.pointer_speed, b.mouse_threshold1, b.mouse_threshold2), (7, 6, 10));
    assert!(!b.is_linear());
    assert_eq!(b.smooth_mouse_x_curve.len(), 8);
    assert_eq!(b.curve_x, [65_536]);
    assert!(b.curve_y.is_empty());
    assert_eq!(b.reg_sensitivity.as_deref(), Some("10"));
    assert_eq!(b.reg_speed, None);
    assert_eq!(b.reg_threshold2.as_deref(), Some(""));
    assert!(Ballistics::default().is_linear());
}

#[test]
fn registry_values_are_sized_then_read() {
    assert_eq!(value_room(0, 40, 65_536), Some(40));
    assert_eq!(value_room(2, 40, 65_536), None);
    assert_eq!(value_room(0, 0, 65_536), None);
    assert_eq!(value_room(0, 65_537, 65_536), None);
    assert_eq!(value_read(0, 1, vec![1, 2, 3, 4], 2), Some((1, vec![1, 2])));
    assert_eq!(value_read(5, 1, vec![1, 2], 2), None);
    assert_eq!(text_from_bytes(&[65, 0, 0, 0, 66, 0]), "A");
}

// ---- text in 16-bit units ---------------------------------------------------------------

#[test]
fn utf16_agrees_with_the_standard_library() {
    for s in ["", "plain", "\u{e9}\u{4e2d}\u{ffff}", "\u{1f600} mixed \u{10ffff}"] {
        let units: Vec<u16> = s.encode_utf16().collect();
        assert_eq!(decode(&units), s);
        let mut z = units.clone();
        z.push(0);
        assert_eq!(wide(s), z);
        assert_eq!(decode_until_zero(&z), s);
    }
    for units in [
        vec![0xD800u16],
        vec![0xDC00, 0x41],
        vec![0xD83D, 0x41, 0xDE00],
        vec![0xD83D, 0xD83D, 0xDE00],
        vec![0xDFFF, 0xD800, 0xDBFF],
    ] {
        assert_eq!(decode(&units), String::from_utf16_lossy(&units));
    }
    assert_eq!(decode_until_zero(&[72, 105, 0, 33]), "Hi");
}

// ---- reports ----------------------------------------------------------------------------

fn report() -> Report {
    Report { handle: 10, flags: 0, button_flags: 0, button_data: 0, dx: 0, dy: 0 }
}

fn decoded(c: &mut Capture, r: Report, cursor: Option<(i32, i32)>, mods: u8) -> Vec<Event> {
    let mut ring = Ring::new();
    c.on_input(&mut ring, 777, &r, cursor, mods);
    let mut out = vec![Event::default(); 64];
    let n = ring.drain(&mut out);
    out.truncate(n);
    out
}

fn capture() -> Capture {
    Capture::new(DeviceTable::new(vec![(10, mouse("a"))]))
}

#[test]
fn a_move_is_one_event_with_the_stamp_of_its_report() {
    let mut c = capture();
    let evs = decoded(&mut c, Report { dx: 3, dy: -4, ..report() }, Some((100, 200)), 0);
    assert_eq!(
        evs,
        [Event {
            t_ns: 777,
            kind: EV_MOVE,
            dev: 1,
            btn: B_NONE,
            dx: 3,
            dy: -4,
            x: 100,
            y: 200,
            ..Default::default()
        }]
    );
    // A report without motion or transitions leaves nothing behind.
    assert!(decoded(&mut c, report(), Some((1, 1)), 0).is_empty());
    // Unless it is absolute.
    let evs = decoded(&mut c, Report { flags: 0x0B, ..report() }, None, 0);
    assert_eq!(evs.len(), 1);
    assert_eq!(evs[0].flags, F_ABSOLUTE | F_VIRTUALDESK | F_NOCOALESCE | F_POS_STALE);
    // Where the cursor cannot be read, it is where it last was.
    assert_eq!((evs[0].x, evs[0].y), (1, 1));
}

#[test]
fn one_report_yields_motion_then_transitions_then_wheel() {
    let mut c = capture();
    let r = Report {
        button_flags: RI_LEFT_DOWN | RI_RIGHT_DOWN | RI_WHEEL,
        button_data: (-120i16) as u16,
        dx: 1,
        ..report()
    };
    assert!(needs_modifiers(&r));
    let evs = decoded(&mut c, r, Some((5, 6)), M_CTRL);
    let kinds: Vec<u8> = evs.iter().map(|e| e.kind).collect();
    assert_eq!(kinds, [EV_MOVE, EV_BUTTON, EV_BUTTON, EV_WHEEL]);
    assert_eq!(evs[0].bstate, 0);
    assert_eq!((evs[1].btn, evs[1].flags, evs[1].bstate), (B_LEFT, F_DOWN, 1));
    assert_eq!((evs[2].btn, evs[2].bstate), (B_RIGHT, 3));
    assert_eq!((evs[3].wheel, evs[3].flags, evs[3].bstate), (-120, 0, 3));
    assert_eq!((evs[0].mods, evs[1].mods, evs[3].mods), (0, M_CTRL, M_CTRL));
    assert!(evs.iter().all(|e| e.t_ns == 777 && e.dev == 1 && (e.x, e.y) == (5, 6)));

    let up = decoded(&mut c, Report { button_flags: RI_LEFT_UP, ..report() }, Some((5, 6)), 0);
    assert_eq!((up[0].btn, up[0].flags, up[0].bstate), (B_LEFT, 0, 2));
    let x2 = decoded(&mut c, Report { button_flags: RI_BTN5_UP | RI_HWHEEL, ..report() }, None, 0);
    assert_eq!((x2[0].btn, x2[0].flags), (B_X2, F_POS_STALE));
    assert_eq!(x2[1].flags, F_POS_STALE | F_HWHEEL);
    assert_eq!(c.held, 2);
}

#[test]
fn reports_from_an_unknown_device_are_kept() {
    let mut c = capture();
    let evs = decoded(&mut c, Report { handle: 12, dx: 1, ..report() }, Some((0, 0)), 0);
    assert_eq!(evs[0].dev, UNKNOWN_DEVICE);
    assert!(!needs_modifiers(&Report { dx: 1, ..report() }));
}

#[test]
fn paused_reports_count_and_unreadable_ones_do_not() {
    let mut s = CaptureState::new();
    assert!(s.accept(48, 0));
    assert!(!s.accept(0, 0));
    assert!(!s.accept(u32::MAX, 0));
    assert!(!s.accept(48, 1));
    assert_eq!(s.reports, 1);
    s.set_paused(true);
    assert!(!s.accept(48, 0));
    assert_eq!(s.reports, 2);
    assert_eq!(CaptureState::default().reports, 0);
}

#[test]
fn anchors_stop_while_paused() {
    let mut c = capture();
    let mut ring = Ring::new();
    c.on_sync(&mut ring, true, 5, Some((1, 2)));
    assert_eq!(ring.depth(), 0);
    c.on_sync(&mut ring, false, 5, Some((1, 2)));
    c.on_sync(&mut ring, false, 6, None);
    let mut out = vec![Event::default(); 2];
    assert_eq!(ring.drain(&mut out), 2);
    assert_eq!((out[0].kind, out[0].flags, out[0].x, out[0].y), (EV_SYNC, 0, 1, 2));
    assert_eq!((out[1].flags, out[1].x, out[1].t_ns), (F_POS_STALE, 1, 6));
}

#[test]
fn modifiers_come_from_the_high_bits() {
    assert_eq!(modifier_mask(0, 0, 0, 0, 0), 0);
    assert_eq!(modifier_mask(-1, 1, -32768, 0, 0), M_CTRL | M_ALT);
    assert_eq!(modifier_mask(0, -1, 0, 0, -1), M_SHIFT | M_WIN);
    assert_eq!(modifier_mask(0, 0, 0, -1, -1), M_WIN);
}

#[test]
fn a_device_change_is_sent_only_for_a_new_device() {
    let mut c = capture();
    assert!(c.on_device_change(vec![(20, mouse("a"))], 9).is_none());
    match c.on_device_change(vec![(20, mouse("a")), (21, mouse("b"))], 9) {
        Some(ContextRecord::DeviceChange { t_ns, devices }) => {
            assert_eq!(t_ns, 9);
            assert_eq!(devices.len(), 3);
            assert_eq!(devices[2].name, "b");
        }
        _ => panic!("a new device must be recorded"),
    }
}

#[test]
fn messages_are_told_apart() {
    assert_eq!(message_of(0x00FF, 0), CaptureMessage::Input);
    assert_eq!(message_of(0x00FE, 0), CaptureMessage::DeviceChange);
    assert_eq!(message_of(0x007E, 0), CaptureMessage::DisplayChange);
    assert_eq!(message_of(0x0218, 0), CaptureMessage::Power);
    assert_eq!(message_of(0x0113, 1), CaptureMessage::Sync);
    assert_eq!(message_of(0x0113, 2), CaptureMessage::Other);
    assert_eq!(message_of(0x0010, 0), CaptureMessage::Close);
    assert_eq!(message_of(0x0002, 0), CaptureMessage::Destroy);
    assert_eq!(reply_to(CaptureMessage::Input), None);
    assert_eq!(reply_to(CaptureMessage::Power), Some(1));
    assert_eq!(reply_to(CaptureMessage::Sync), Some(0));
}

#[test]
fn power_events_are_named() {
    let name = |code| match power_record(code, 3) {
        Some(ContextRecord::Power { t_ns: 3, event }) => Some(event),
        None => None,
        _ => panic!("not a power record"),
    };
    assert_eq!(name(4).as_deref(), Some("suspend"));
    assert_eq!(name(0x12).as_deref(), Some("resume_automatic"));
    assert_eq!(name(7).as_deref(), Some("resume_user"));
    assert_eq!(name(0x8013).as_deref(), Some("display_state_change"));
    assert_eq!(name(0x0A), None);
}

// ---- context ----------------------------------------------------------------------------

#[test]
fn resolving_a_null_window_yields_nothing_rather_than_panicking() {
    let r = Resolution::start(0, true);
    assert_eq!(r.next(), Ask::Done);
    assert_eq!(r.resolve().0, None);
}

#[test]
fn title_capture_can_be_refused() {
    // With want_title = false no title is produced even for a real window.
    let mut r = Resolution::start(0x5678, false);
    assert_eq!(r.next(), Ask::Pid);
    r.on_pid(42);
    assert_eq!(r.next(), Ask::Image(42));
    r.on_image(Some(r"C:\Windows\explorer.exe".encode_utf16().collect()));
    assert_eq!(r.next(), Ask::Done);
    assert_eq!(r.resolve().2, None);
}

#[test]
fn a_window_resolves_to_process_name_and_title() {
    let mut r = Resolution::start(1, true);
    r.on_pid(42);
    r.on_image(Some(r"C:\Users\me/tool.exe".encode_utf16().collect()));
    assert_eq!(r.next(), Ask::TitleLen);
    r.on_title_len(2);
    assert_eq!(r.next(), Ask::Title(3));
    r.on_title(2, &vec![72, 105, 0]);
    assert_eq!(r.next(), Ask::Done);
    assert_eq!(r.resolve(), (Some(42), Some("tool.exe".to_string()), Some("Hi".to_string())));

    // No process is no image; an empty title is none.
    let mut r = Resolution::start(1, true);
    r.on_pid(0);
    assert_eq!(r.next(), Ask::TitleLen);
    r.on_title_len(0);
    assert_eq!(r.next(), Ask::Done);
    assert_eq!(r.resolve(), (None, None, None));

    let mut r = Resolution::start(1, true);
    r.on_pid(7);
    r.on_image(None);
    r.on_title_len(4);
    r.on_title(0, &vec![0; 5]);
    assert_eq!(r.resolve(), (Some(7), None, None));
}

#[test]
fn executable_names_are_stripped_of_directories() {
    assert_eq!(executable_name(r"C:\a\b.exe"), "b.exe");
    assert_eq!(executable_name("b.exe"), "b.exe");
    assert_eq!(executable_name("a/b\\"), "");
    assert_eq!(executable_name(""), "");
    assert!(is_foreground_change(3, 1, 0, 0));
    assert!(!is_foreground_change(3, 0, 0, 0));
    assert!(!is_foreground_change(3, 1, -4, 0));
    assert!(!is_foreground_change(3, 1, 0, 1));
    assert!(!is_foreground_change(4, 1, 0, 0));
}

#[test]
fn monitors_are_numbered_as_they_come() {
    let read = |name: &str, left: i32, flags: u32| MonitorReading {
        device: name.encode_utf16().chain([0, 0]).collect(),
        monitor: Rect { left, top: 0, right: left + 1920, bottom: 1080 },
        work: Rect { left, top: 0, right: left + 1920, bottom: 1040 },
        flags,
        dpi_x: 144,
        dpi_y: 144,
    };
    let ms = enumerate(&vec![read(r"\\.\DISPLAY1", 0, 1), read(r"\\.\DISPLAY2", -1920, 2)]);
    assert_eq!(ms.len(), 2);
    assert_eq!((ms[0].index, ms[1].index), (0, 1));
    assert_eq!(ms[0].device, r"\\.\DISPLAY1");
    assert!(ms[0].primary && !ms[1].primary);
    assert_eq!((ms[1].width(), ms[1].height()), (1920, 1080));
    assert!(ms[1].contains(-1, 0) && !ms[1].contains(0, 0) && !ms[1].contains(-1, 1080));
    assert_eq!(ms[0].work_bottom, 1040);
}

#[test]
fn a_timeline_starts_with_devices_monitors_and_window() {
    let recs = initial_records(8, &[mouse("a")], Vec::new(), 77);
    assert_eq!(recs.len(), 3);
    assert!(recs.iter().all(|r| r.t_ns() == 8));
    assert!(matches!(&recs[0], ContextRecord::DeviceChange { devices, .. } if devices.len() == 1));
    assert!(matches!(&recs[1], ContextRecord::DisplayChange { .. }));
    assert!(matches!(&recs[2], ContextRecord::Foreground { hwnd: 77, title: None, .. }));
}
