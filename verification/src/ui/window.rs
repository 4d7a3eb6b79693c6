//! The dashboard: what it shows, and what its buttons do.
//!
//! Closing the window hides it to the tray; only Exit on the tray menu ends
//! recording. That stops an accidental click from silently ending a long capture.

use vstd::prelude::*;

use crate::event::{
    Event, EV_BUTTON, EV_MOVE, EV_SYNC, EV_WHEEL, F_DOWN, F_HWHEEL,
};
use crate::input::devices::DeviceInfo;
use crate::ring::CAP;
use crate::storage::writer::RECENT_SHOWN;
use crate::text::{
    decimal_text, join, push_decimal, push_hex4, push_left_aligned, push_right_aligned,
    push_signed, push_zero_padded, signed_text,
};
use crate::ui::tray::TrayState;
use crate::utf16::wide;
use crate::windows::startup::Method;

verus! {

// ---- ids --------------------------------------------------------------------------------
pub const ID_PAUSE: usize = 1001;

pub const ID_NEWSESSION: usize = 1002;

pub const ID_FOLDER: usize = 1003;

pub const ID_EXPORT: usize = 1004;

pub const ID_STARTUP: usize = 1005;

pub const ID_HIDE: usize = 1006;

pub const ID_RAW: usize = 1007;

pub const MENU_SHOW: usize = 2001;

pub const MENU_PAUSE: usize = 2002;

pub const MENU_NEWSESSION: usize = 2003;

pub const MENU_FOLDER: usize = 2004;

pub const MENU_STARTUP: usize = 2005;

pub const MENU_RAW: usize = 2006;

pub const MENU_EXIT: usize = 2099;

pub const TIMER_REFRESH: usize = 1;

pub const REFRESH_MS: u32 = 500;

pub const RAW_REFRESH_MS: u32 = 750;

// ---- what the buttons do ----------------------------------------------------------------

/// What a button or a menu entry asks for.
#[derive(Clone, Copy, PartialEq, Eq, Debug, Structural)]
pub enum UiCommand {
    TogglePause,
    NewSession,
    OpenFolder,
    Export,
    ToggleStartup,
    OpenRaw,
    Hide,
    Show,
    Exit,
    Nothing,
}

/// What an id asks for. A button and the menu entry of the same name ask for the
/// same.
pub open spec fn command_spec(id: usize) -> UiCommand {
    if id == ID_PAUSE || id == MENU_PAUSE {
        UiCommand::TogglePause
    } else if id == ID_NEWSESSION || id == MENU_NEWSESSION {
        UiCommand::NewSession
    } else if id == ID_FOLDER || id == MENU_FOLDER {
        UiCommand::OpenFolder
    } else if id == ID_EXPORT {
        UiCommand::Export
    } else if id == ID_STARTUP || id == MENU_STARTUP {
        UiCommand::ToggleStartup
    } else if id == ID_RAW || id == MENU_RAW {
        UiCommand::OpenRaw
    } else if id == ID_HIDE {
        UiCommand::Hide
    } else if id == MENU_SHOW {
        UiCommand::Show
    } else if id == MENU_EXIT {
        UiCommand::Exit
    } else {
        UiCommand::Nothing
    }
}

/// What a command message asks for: its id stands in the low 16 bits.
pub fn command_of(wparam: usize) -> (c: UiCommand)
    ensures
        c == command_spec((wparam as int % 0x1_0000) as usize),
{
    let id: usize = wparam % 0x1_0000;
    if id == ID_PAUSE || id == MENU_PAUSE {
        UiCommand::TogglePause
    } else if id == ID_NEWSESSION || id == MENU_NEWSESSION {
        UiCommand::NewSession
    } else if id == ID_FOLDER || id == MENU_FOLDER {
        UiCommand::OpenFolder
    } else if id == ID_EXPORT {
        UiCommand::Export
    } else if id == ID_STARTUP || id == MENU_STARTUP {
        UiCommand::ToggleStartup
    } else if id == ID_RAW || id == MENU_RAW {
        UiCommand::OpenRaw
    } else if id == ID_HIDE {
        UiCommand::Hide
    } else if id == MENU_SHOW {
        UiCommand::Show
    } else if id == MENU_EXIT {
        UiCommand::Exit
    } else {
        UiCommand::Nothing
    }
}

// ---- window messages --------------------------------------------------------------------
pub const WM_DESTROY: u32 = 0x0002;

pub const WM_CLOSE: u32 = 0x0010;

pub const WM_QUERYENDSESSION: u32 = 0x0011;

pub const WM_ENDSESSION: u32 = 0x0016;

pub const WM_COMMAND: u32 = 0x0111;

pub const WM_TIMER: u32 = 0x0113;

pub const WM_LBUTTONDBLCLK: u32 = 0x0203;

pub const WM_RBUTTONUP: u32 = 0x0205;

/// What the tray icon sends.
pub const WM_TRAY: u32 = 0x8001;

/// What the dashboard does on a message.
#[derive(Clone, Copy, PartialEq, Eq, Debug, Structural)]
pub enum WindowAction {
    Refresh,
    ShowTrayMenu,
    Command(UiCommand),
    Show,
    Hide,
    /// Agree to the end of the Windows session.
    AllowEnd,
    /// Flush, because the Windows session ends.
    Flush,
    Quit,
    /// Taken note of, and nothing to do.
    Nothing,
    /// Left to the system.
    Default,
}

/// What the dashboard does on a message. While it is hidden there is nothing to
/// refresh; closing it hides it.
pub open spec fn action_spec(msg: u32, wparam: usize, lparam: u32, visible: bool) -> WindowAction {
    if msg == WM_TIMER && wparam == TIMER_REFRESH {
        if visible {
            WindowAction::Refresh
        } else {
            WindowAction::Nothing
        }
    } else if msg == WM_TRAY {
        if lparam == WM_RBUTTONUP {
            WindowAction::ShowTrayMenu
        } else if lparam == WM_LBUTTONDBLCLK {
            WindowAction::Show
        } else {
            WindowAction::Nothing
        }
    } else if msg == WM_COMMAND {
        WindowAction::Command(command_spec((wparam as int % 0x1_0000) as usize))
    } else if msg == WM_CLOSE {
        WindowAction::Hide
    } else if msg == WM_QUERYENDSESSION {
        WindowAction::AllowEnd
    } else if msg == WM_ENDSESSION {
        if wparam != 0 {
            WindowAction::Flush
        } else {
            WindowAction::Nothing
        }
    } else if msg == WM_DESTROY {
        WindowAction::Quit
    } else {
        WindowAction::Default
    }
}

/// What the dashboard does on a message.
pub fn action_of(msg: u32, wparam: usize, lparam: u32, visible: bool) -> (a: WindowAction)
    ensures
        a == action_spec(msg, wparam, lparam, visible),
{
    if msg == WM_TIMER && wparam == TIMER_REFRESH {
        if visible {
            WindowAction::Refresh
        } else {
            WindowAction::Nothing
        }
    } else if msg == WM_TRAY {
        if lparam == WM_RBUTTONUP {
            WindowAction::ShowTrayMenu
        } else if lparam == WM_LBUTTONDBLCLK {
            WindowAction::Show
        } else {
            WindowAction::Nothing
        }
    } else if msg == WM_COMMAND {
        WindowAction::Command(command_of(wparam))
    } else if msg == WM_CLOSE {
        WindowAction::Hide
    } else if msg == WM_QUERYENDSESSION {
        WindowAction::AllowEnd
    } else if msg == WM_ENDSESSION {
        if wparam != 0 {
            WindowAction::Flush
        } else {
            WindowAction::Nothing
        }
    } else if msg == WM_DESTROY {
        WindowAction::Quit
    } else {
        WindowAction::Default
    }
}

/// What to answer, and nothing where the system answers.
pub fn reply_to(a: WindowAction) -> (r: Option<isize>)
    ensures
        r == match a {
            WindowAction::Default => None,
            WindowAction::AllowEnd => Some(1isize),
            _ => Some(0isize),
        },
{
    match a {
        WindowAction::Default => None,
        WindowAction::AllowEnd => Some(1),
        _ => Some(0),
    }
}

/// Width and height in a size message.
pub fn client_size(lparam: u32) -> (s: (i32, i32))
    ensures
        s.0 == lparam as int % 0x1_0000,
        s.1 == lparam as int / 0x1_0000,
{
    ((lparam % 0x1_0000) as i32, (lparam / 0x1_0000) as i32)
}

// ---- the values -------------------------------------------------------------------------

/// What is read for the dashboard. The rates are rounded outside.
pub struct DashboardReading {
    pub paused: bool,
    pub reports: u64,
    pub dropped: u64,
    pub errors: u64,
    pub events: u64,
    pub elapsed_secs: u64,
    pub queue_depth: u64,
    pub queue_peak: u64,
    pub session_id: String,
    pub session_dir: String,
    pub rate_now: String,
    pub rate_peak: String,
    pub rate_mean: String,
}

/// What the dashboard shows.
pub struct Dashboard {
    pub state: TrayState,
    pub status: String,
    pub session: String,
    pub elapsed: String,
    pub reports: String,
    pub events: String,
    pub dropped: String,
    pub queue: String,
    pub rate: String,
    pub folder: String,
    pub pause_button: String,
}

/// What the recorder is doing. Errors come before anything else.
pub open spec fn state_spec(errors: u64, paused: bool) -> TrayState {
    if errors > 0 {
        TrayState::Error
    } else if paused {
        TrayState::Paused
    } else {
        TrayState::Recording
    }
}

/// What the recorder is doing.
pub fn tray_state(errors: u64, paused: bool) -> (s: TrayState)
    ensures
        s == state_spec(errors, paused),
{
    if errors > 0 {
        TrayState::Error
    } else if paused {
        TrayState::Paused
    } else {
        TrayState::Recording
    }
}

/// What the recorder is doing, in words.
pub open spec fn status_spec(s: TrayState) -> Seq<char> {
    match s {
        TrayState::Recording => "RECORDING"@,
        TrayState::Paused => "PAUSED"@,
        TrayState::Error => "RECORDING (writer errors - see below)"@,
    }
}

/// Hours, minutes and seconds.
pub open spec fn elapsed_spec(secs: nat) -> Seq<char> {
    crate::text::zero_padded(secs / 3600, 2) + ":"@ + crate::text::zero_padded(secs / 60 % 60, 2)
        + ":"@ + crate::text::zero_padded(secs % 60, 2)
}

/// Hours, minutes and seconds.
pub fn elapsed_text(secs: u64) -> (s: String)
    ensures
        s@ == elapsed_spec(secs as nat),
{
    let mut s = String::new();
    push_zero_padded(&mut s, secs / 3600, 2);
    assert(s@ =~= crate::text::zero_padded(secs as nat / 3600, 2));
    s.append(":");
    push_zero_padded(&mut s, secs / 60 % 60, 2);
    s.append(":");
    push_zero_padded(&mut s, secs % 60, 2);
    s
}

/// Events written, and how many errors there were.
pub open spec fn events_spec(events: u64, errors: u64) -> Seq<char> {
    if errors > 0 {
        crate::text::decimal(events as nat) + "    ("@ + crate::text::decimal(errors as nat)
            + " writer error(s))"@
    } else {
        crate::text::decimal(events as nat)
    }
}

/// Events dropped. A loss is never hidden.
pub open spec fn dropped_spec(dropped: u64) -> Seq<char> {
    if dropped > 0 {
        crate::text::decimal(dropped as nat) + "  -- DATA LOSS"@
    } else {
        "0"@
    }
}

/// How full the queue is.
pub open spec fn queue_spec(depth: u64, peak: u64) -> Seq<char> {
    crate::text::decimal(depth as nat) + " / "@ + crate::text::decimal(CAP as nat) + "   (peak "@
        + crate::text::decimal(peak as nat) + ")"@
}

/// How often the device reports.
pub open spec fn rate_spec(r: DashboardReading) -> Seq<char> {
    if r.paused {
        "-"@
    } else {
        r.rate_now@ + " Hz now    peak "@ + r.rate_peak@ + " Hz    avg while moving "@ + r.rate_mean@
            + " Hz"@
    }
}

/// `d` shows what was read.
pub open spec fn shows(d: Dashboard, r: DashboardReading) -> bool {
    &&& d.state == state_spec(r.errors, r.paused)
    &&& d.status@ == status_spec(state_spec(r.errors, r.paused))
    &&& d.session@ == r.session_id@
    &&& d.elapsed@ == elapsed_spec(r.elapsed_secs as nat)
    &&& d.reports@ == crate::text::decimal(r.reports as nat)
    &&& d.events@ == events_spec(r.events, r.errors)
    &&& d.dropped@ == dropped_spec(r.dropped)
    &&& d.queue@ == queue_spec(r.queue_depth, r.queue_peak)
    &&& d.rate@ == rate_spec(r)
    &&& d.folder@ == r.session_dir@
    &&& d.pause_button@ == if r.paused {
        "Resume"@
    } else {
        "Pause"@
    }
}

/// What the dashboard shows of what was read.
pub fn refresh(r: &DashboardReading) -> (d: Dashboard)
    ensures
        shows(d, *r),
{
    let state = tray_state(r.errors, r.paused);
    let status = match state {
        TrayState::Recording => "RECORDING",
        TrayState::Paused => "PAUSED",
        TrayState::Error => "RECORDING (writer errors - see below)",
    };
    let mut events = decimal_text(r.events);
    if r.errors > 0 {
        events.append("    (");
        push_decimal(&mut events, r.errors);
        events.append(" writer error(s))");
    }
    let dropped = if r.dropped > 0 {
        let mut s = decimal_text(r.dropped);
        s.append("  -- DATA LOSS");
        s
    } else {
        "0".to_owned()
    };
    let mut queue = decimal_text(r.queue_depth);
    queue.append(" / ");
    push_decimal(&mut queue, CAP as u64);
    queue.append("   (peak ");
    push_decimal(&mut queue, r.queue_peak);
    queue.append(")");
    let rate = if r.paused {
        "-".to_owned()
    } else {
        let mut s = r.rate_now.clone();
        s.append(" Hz now    peak ");
        s.append(r.rate_peak.as_str());
        s.append(" Hz    avg while moving ");
        s.append(r.rate_mean.as_str());
        s.append(" Hz");
        s
    };
    let pause_button = if r.paused {
        "Resume"
    } else {
        "Pause"
    };
    Dashboard {
        state,
        status: status.to_owned(),
        session: r.session_id.clone(),
        elapsed: elapsed_text(r.elapsed_secs),
        reports: decimal_text(r.reports),
        events,
        dropped,
        queue,
        rate,
        folder: r.session_dir.clone(),
        pause_button: pause_button.to_owned(),
    }
}

/// Whether a control already shows the text, given the units that it holds with the
/// zero behind them. It is then left alone, to spare a repaint.
pub fn is_shown(current: &Vec<u16>, text: &str) -> (r: bool)
    ensures
        r == (current@.len() > 0 && current@.drop_last() == crate::utf16::encoded(text@) || (
        current@.len() == 0 && crate::utf16::encoded(text@).len() == 0)),
{
    let new = wide(text);
    let n: usize = new.len() - 1;
    let have: usize = if current.len() == 0 {
        0
    } else {
        current.len() - 1
    };
    assert(new@.drop_last() =~= crate::utf16::encoded(text@));
    if have != n {
        return false;
    }
    let mut i: usize = 0;
    while i < n
        invariant
            i <= n == have,
            n + 1 == new@.len(),
            have <= current@.len(),
            have == if current@.len() == 0 {
                0
            } else {
                current@.len() - 1
            },
            new@.drop_last() == crate::utf16::encoded(text@),
            forall|k: int| 0 <= k < i ==> current@[k] == new@[k],
        decreases n - i,
    {
        if current[i] != new[i] {
            proof {
                if current@.len() > 0 {
                    assert(current@.drop_last()[i as int] != new@.drop_last()[i as int]);
                }
            }
            return false;
        }
        i = i + 1;
    }
    proof {
        if current@.len() > 0 {
            assert(current@.drop_last() =~= new@.drop_last());
        }
    }
    true
}

// ---- which mouse ------------------------------------------------------------------------

/// Events counted for a device.
pub open spec fn device_events(counts: Seq<u64>, index: u8) -> u64 {
    if (index as int) < counts.len() {
        counts[index as int]
    } else {
        0
    }
}

/// What the dashboard says of a mouse.
pub open spec fn device_text(d: DeviceInfo, n: u64) -> Seq<char> {
    "#"@ + crate::text::decimal(d.index as nat) + " "@ + crate::stats::mouse_label(
        d.vendor_id,
        d.product_id,
    ) + " "@ + crate::text::decimal(d.buttons as nat) + "btn "@ + crate::text::decimal(n as nat)
        + "ev"@
}

/// The real mice.
pub open spec fn real_devices(devices: Seq<DeviceInfo>) -> Seq<DeviceInfo> {
    devices.filter(|d: DeviceInfo| !d.synthetic)
}

/// `d` put into the list behind all that have as many events or more.
pub open spec fn placed(list: Seq<DeviceInfo>, d: DeviceInfo, counts: Seq<u64>) -> Seq<DeviceInfo>
    decreases list.len(),
{
    if list.len() == 0 || device_events(counts, list.last().index) >= device_events(
        counts,
        d.index,
    ) {
        list.push(d)
    } else {
        placed(list.drop_last(), d, counts).push(list.last())
    }
}

/// The busiest first; those as busy in the order in which they were.
pub open spec fn busiest_first(list: Seq<DeviceInfo>, counts: Seq<u64>) -> Seq<DeviceInfo>
    decreases list.len(),
{
    if list.len() == 0 {
        seq![]
    } else {
        placed(busiest_first(list.drop_last(), counts), list.last(), counts)
    }
}

/// What the dashboard says of each of them.
pub open spec fn device_texts(list: Seq<DeviceInfo>, counts: Seq<u64>) -> Seq<Seq<char>> {
    Seq::new(
        list.len(),
        |i: int| device_text(list[i], device_events(counts, list[i].index)),
    )
}

/// What the dashboard says of the mice: the busiest, which is the one in the hand,
/// leads.
pub open spec fn device_line_spec(devices: Seq<DeviceInfo>, counts: Seq<u64>) -> Seq<char> {
    let mice = real_devices(devices);
    if mice.len() == 0 {
        "none detected"@
    } else {
        crate::text::joined(device_texts(busiest_first(mice, counts), counts), "   |   "@)
    }
}

fn count_for(counts: &Vec<u64>, index: u8) -> (n: u64)
    ensures
        n == device_events(counts@, index),
{
    if (index as usize) < counts.len() {
        counts[index as usize]
    } else {
        0
    }
}

fn describe_device(d: &DeviceInfo, n: u64) -> (s: String)
    ensures
        s@ == device_text(*d, n),
{
    let mut s = "#".to_owned();
    push_decimal(&mut s, d.index as u64);
    s.append(" ");
    match (d.vendor_id, d.product_id) {
        (Some(v), Some(p)) => {
            let ghost before = s@;
            push_hex4(&mut s, v, true);
            s.push(':');
            push_hex4(&mut s, p, true);
            assert(s@ =~= before + crate::stats::mouse_label(d.vendor_id, d.product_id));
        },
        _ => s.append("HID"),
    }
    s.append(" ");
    push_decimal(&mut s, d.buttons as u64);
    s.append("btn ");
    push_decimal(&mut s, n);
    s.append("ev");
    s
}

/// Puts `d` into the list behind all that have as many events or more.
fn place(list: &mut Vec<DeviceInfo>, d: DeviceInfo, counts: &Vec<u64>)
    ensures
        final(list)@ == placed(old(list)@, d, counts@),
{
    let n: u64 = count_for(counts, d.index);
    let mut p: usize = list.len();
    let ghost all = list@;
    assert(all.take(p as int) =~= all);
    assert(all.skip(p as int) =~= seq![]);
    assert(placed(all.take(p as int), d, counts@) + all.skip(p as int) =~= placed(all, d, counts@));
    while p > 0 && count_for(counts, list[p - 1].index) < n
        invariant
            p <= list@.len(),
            list@ == all,
            n == device_events(counts@, d.index),
            placed(all.take(p as int), d, counts@) + all.skip(p as int) == placed(all, d, counts@),
        decreases p,
    {
        proof {
            let t = all.take(p as int);
            assert(t.last() == all[p - 1]);
            assert(t.drop_last() =~= all.take(p - 1));
            assert(all.skip(p - 1) =~= seq![all[p - 1]] + all.skip(p as int));
            assert(placed(all.take(p - 1), d, counts@).push(all[p - 1]) + all.skip(p as int)
                =~= placed(all.take(p - 1), d, counts@) + all.skip(p - 1));
        }
        p = p - 1;
    }
    proof {
        let t = all.take(p as int);
        if p > 0 {
            assert(t.last() == all[p - 1]);
        }
        assert(placed(t, d, counts@) == t.push(d));
        assert(all.insert(p as int, d) =~= t.push(d) + all.skip(p as int));
    }
    list.insert(p, d);
}

/// Which mice there are, and which are actually producing events.
///
/// A machine reports several pointers (a keyboard's media keys, a wireless dongle) and
/// only one of them is the mouse in the hand. Event counts settle it.
pub fn device_line(devices: &Vec<DeviceInfo>, counts: &Vec<u64>) -> (s: String)
    ensures
        s@ == device_line_spec(devices@, counts@),
{
    let mut sorted: Vec<DeviceInfo> = Vec::new();
    let mut i: usize = 0;
    assert(real_devices(devices@.take(0)) =~= seq![]) by {
        assert(devices@.take(0) =~= seq![]);
        reveal(Seq::filter);
    }
    while i < devices.len()
        invariant
            i <= devices@.len(),
            sorted@ == busiest_first(real_devices(devices@.take(i as int)), counts@),
            sorted@.len() == real_devices(devices@.take(i as int)).len(),
        decreases devices@.len() - i,
    {
        let d = &devices[i];
        proof {
            let now = devices@.take(i as int);
            let next = devices@.take(i + 1);
            assert(next.drop_last() =~= now);
            assert(next.last() == *d);
            reveal(Seq::filter);
            if !d.synthetic {
                assert(real_devices(next) =~= real_devices(now).push(*d));
                assert(real_devices(next).drop_last() =~= real_devices(now));
            } else {
                assert(real_devices(next) =~= real_devices(now));
            }
            lemma_placed_len(sorted@, *d, counts@);
        }
        if !d.synthetic {
            place(&mut sorted, d.copy(), counts);
        }
        i = i + 1;
    }
    assert(devices@.take(i as int) =~= devices@);
    if sorted.len() == 0 {
        return "none detected".to_owned();
    }
    let mut parts: Vec<String> = Vec::new();
    let ghost texts = device_texts(sorted@, counts@);
    let mut k: usize = 0;
    while k < sorted.len()
        invariant
            k <= sorted@.len(),
            texts == device_texts(sorted@, counts@),
            crate::text::views(parts@) == texts.take(k as int),
        decreases sorted@.len() - k,
    {
        let n: u64 = count_for(counts, sorted[k].index);
        let text = describe_device(&sorted[k], n);
        let ghost before = crate::text::views(parts@);
        parts.push(text);
        assert(text@ == texts[k as int]);
        assert(crate::text::views(parts@) =~= before.push(text@));
        assert(texts.take(k + 1) =~= texts.take(k as int).push(texts[k as int]));
        k = k + 1;
    }
    assert(crate::text::views(parts@) =~= texts);
    join(&parts, "   |   ")
}

proof fn lemma_placed_len(list: Seq<DeviceInfo>, d: DeviceInfo, counts: Seq<u64>)
    ensures
        placed(list, d, counts).len() == list.len() + 1,
    decreases list.len(),
{
    if list.len() > 0 {
        lemma_placed_len(list.drop_last(), d, counts);
    }
}

// ---- raw events -------------------------------------------------------------------------

/// A wheel's turn with its sign.
pub open spec fn turn_spec(n: int) -> Seq<char> {
    if n < 0 {
        crate::text::signed_decimal(n)
    } else {
        "+"@ + crate::text::signed_decimal(n)
    }
}

/// The name of a button in capitals.
pub open spec fn button_caps(b: u8) -> Seq<char> {
    if b == crate::event::B_LEFT {
        "LEFT"@
    } else if b == crate::event::B_RIGHT {
        "RIGHT"@
    } else if b == crate::event::B_MIDDLE {
        "MIDDLE"@
    } else if b == crate::event::B_X1 {
        "X1"@
    } else if b == crate::event::B_X2 {
        "X2"@
    } else {
        "NONE"@
    }
}

/// What an event is, in words.
pub open spec fn event_text(e: Event) -> Seq<char> {
    if e.kind == EV_MOVE {
        "MOVE"@
    } else if e.kind == EV_WHEEL {
        (if e.flags & F_HWHEEL != 0 {
            "H"@
        } else {
            "V"@
        }) + "WHEEL "@ + turn_spec(e.wheel as int)
    } else if e.kind == EV_SYNC {
        "SYNC"@
    } else if e.kind == EV_BUTTON {
        button_caps(e.btn) + "_"@ + if e.flags & F_DOWN != 0 {
            "DOWN"@
        } else {
            "UP"@
        }
    } else {
        "?"@
    }
}

fn caps_of(b: u8) -> (s: &'static str)
    ensures
        s@ == button_caps(b),
{
    if b == crate::event::B_LEFT {
        "LEFT"
    } else if b == crate::event::B_RIGHT {
        "RIGHT"
    } else if b == crate::event::B_MIDDLE {
        "MIDDLE"
    } else if b == crate::event::B_X1 {
        "X1"
    } else if b == crate::event::B_X2 {
        "X2"
    } else {
        "NONE"
    }
}

fn describe_event(e: &Event) -> (s: String)
    ensures
        s@ == event_text(*e),
{
    if e.kind == EV_MOVE {
        "MOVE".to_owned()
    } else if e.kind == EV_WHEEL {
        let mut s = (if e.flags & F_HWHEEL != 0 {
            "H"
        } else {
            "V"
        }).to_owned();
        s.append("WHEEL ");
        let turn = if e.wheel < 0 {
            signed_text(e.wheel as i64)
        } else {
            let mut t = "+".to_owned();
            push_signed(&mut t, e.wheel as i64);
            t
        };
        s.append(turn.as_str());
        s
    } else if e.kind == EV_SYNC {
        "SYNC".to_owned()
    } else if e.kind == EV_BUTTON {
        let mut s = caps_of(e.btn).to_owned();
        s.append("_");
        s.append(
            if e.flags & F_DOWN != 0 {
                "DOWN"
            } else {
                "UP"
            },
        );
        s
    } else {
        "?".to_owned()
    }
}

/// An event's row, given its time in seconds as text.
pub open spec fn raw_row(e: Event, time: Seq<char>) -> Seq<char> {
    crate::text::right_aligned(time, 12) + "   #"@ + crate::text::left_aligned(
        crate::text::decimal(e.dev as nat),
        3,
    ) + " "@ + crate::text::right_aligned(crate::text::signed_decimal(e.dx as int), 6) + " "@
        + crate::text::right_aligned(crate::text::signed_decimal(e.dy as int), 6) + "   "@
        + crate::text::right_aligned(crate::text::signed_decimal(e.x as int), 5) + "  "@
        + crate::text::right_aligned(crate::text::signed_decimal(e.y as int), 5) + "   "@
        + event_text(e) + "\r\n"@
}

fn make_raw_row(e: &Event, time: &str) -> (s: String)
    ensures
        s@ == raw_row(*e, time@),
{
    let mut s = String::new();
    push_right_aligned(&mut s, time, 12);
    assert(s@ =~= crate::text::right_aligned(time@, 12));
    s.append("   #");
    let dev = decimal_text(e.dev as u64);
    push_left_aligned(&mut s, dev.as_str(), 3);
    s.append(" ");
    let dx = signed_text(e.dx as i64);
    push_right_aligned(&mut s, dx.as_str(), 6);
    s.append(" ");
    let dy = signed_text(e.dy as i64);
    push_right_aligned(&mut s, dy.as_str(), 6);
    s.append("   ");
    let x = signed_text(e.x as i64);
    push_right_aligned(&mut s, x.as_str(), 5);
    s.append("  ");
    let y = signed_text(e.y as i64);
    push_right_aligned(&mut s, y.as_str(), 5);
    s.append("   ");
    let what = describe_event(e);
    s.append(what.as_str());
    s.append("\r\n");
    s
}

/// The head of the raw-events view.
pub open spec fn raw_head() -> Seq<char> {
    "      t (s)   dev     dx     dy       x      y   event\r\n"@
        + "--------------------------------------------------------------\r\n"@
}

/// The rows of the events.
pub open spec fn raw_rows(events: Seq<Event>, times: Seq<Seq<char>>) -> Seq<char>
    decreases events.len(),
{
    if events.len() == 0 {
        seq![]
    } else {
        raw_rows(events.drop_last(), times) + raw_row(
            events.last(),
            times[events.len() - 1],
        )
    }
}

/// The last of the recent events that the raw-events view shows.
pub fn shown_events(recent: &std::collections::VecDeque<Event>) -> (v: Vec<Event>)
    ensures
        v@ == crate::storage::writer::last_of(recent@, RECENT_SHOWN as nat),
{
    let len: usize = recent.len();
    let start: usize = if len <= RECENT_SHOWN {
        0
    } else {
        len - RECENT_SHOWN
    };
    let mut v: Vec<Event> = Vec::new();
    let mut i: usize = start;
    while i < len
        invariant
            start <= i <= len == recent@.len(),
            v@ == recent@.subrange(start as int, i as int),
        decreases len - i,
    {
        v.push(recent[i]);
        i = i + 1;
        assert(v@ =~= recent@.subrange(start as int, i as int));
    }
    assert(v@ =~= crate::storage::writer::last_of(recent@, RECENT_SHOWN as nat));
    v
}

/// The tail of the event stream exactly as it was stored, given the time of each
/// event in seconds as text.
///
/// This answers one question that a summary cannot: is the recorder really capturing
/// full-resolution per-report data?
pub fn raw_dump(events: &Vec<Event>, times: &Vec<String>) -> (s: String)
    requires
        events@.len() == times@.len(),
    ensures
        s@ == raw_head() + raw_rows(events@, crate::text::views(times@)),
{
    let mut s = "      t (s)   dev     dx     dy       x      y   event\r\n".to_owned();
    s.append("--------------------------------------------------------------\r\n");
    let ghost texts = crate::text::views(times@);
    let mut i: usize = 0;
    assert(events@.take(0) =~= seq![]);
    assert(s@ =~= raw_head() + raw_rows(events@.take(0), texts));
    while i < events.len()
        invariant
            i <= events@.len() == times@.len(),
            texts == crate::text::views(times@),
            s@ == raw_head() + raw_rows(events@.take(i as int), texts),
        decreases events@.len() - i,
    {
        let row = make_raw_row(&events[i], times[i].as_str());
        s.append(row.as_str());
        proof {
            let next = events@.take(i + 1);
            assert(next.drop_last() =~= events@.take(i as int));
            assert(next.last() == events@[i as int]);
            assert(texts[i as int] == times@[i as int]@);
            assert(s@ =~= raw_head() + raw_rows(next, texts));
        }
        i = i + 1;
    }
    assert(events@.take(i as int) =~= events@);
    s
}

// ---- the layout -------------------------------------------------------------------------

/// What a control is.
#[derive(Clone, Copy, PartialEq, Eq, Debug, Structural)]
pub enum ControlKind {
    Label,
    /// In the large font.
    Heading,
    Button,
    Checkbox,
}

/// A control of the dashboard. A label has no id.
pub struct Control {
    pub kind: ControlKind,
    pub text: &'static str,
    pub id: usize,
    pub x: i32,
    pub y: i32,
    pub w: i32,
    pub h: i32,
}

/// The names of the rows, from the top.
pub const ROWS: [&'static str; 9] = [
    "Session",
    "Recording for",
    "Input reports",
    "Events written",
    "Dropped",
    "Queue depth",
    "Report rate",
    "Active device",
    "Data folder",
];

/// The name of a row.
pub open spec fn row_label(i: int) -> Control {
    Control {
        kind: ControlKind::Label,
        text: ROWS@[i],
        id: 0,
        x: 16,
        y: (52 + 24 * i) as i32,
        w: 110,
        h: 20,
    }
}

/// The value of a row.
pub open spec fn row_value(i: int) -> Control {
    Control {
        kind: ControlKind::Label,
        text: "-",
        id: 0,
        x: 132,
        y: (52 + 24 * i) as i32,
        w: 424,
        h: 20,
    }
}

/// The name and the value of each row, from the top.
pub fn row_controls() -> (v: Vec<(Control, Control)>)
    ensures
        v@.len() == 9,
        forall|i: int| 0 <= i < 9 ==> #[trigger] v@[i] == (row_label(i), row_value(i)),
{
    let mut v: Vec<(Control, Control)> = Vec::new();
    let mut i: usize = 0;
    while i < 9
        invariant
            i <= 9,
            v@.len() == i,
            forall|k: int| 0 <= k < i ==> #[trigger] v@[k] == (row_label(k), row_value(k)),
        decreases 9 - i,
    {
        let y: i32 = 52 + 24 * (i as i32);
        let label = Control {
            kind: ControlKind::Label,
            text: ROWS[i],
            id: 0,
            x: 16,
            y,
            w: 110,
            h: 20,
        };
        let value = Control { kind: ControlKind::Label, text: "-", id: 0, x: 132, y, w: 424, h: 20 };
        v.push((label, value));
        i = i + 1;
    }
    v
}

/// The line over all: what the recorder is doing.
pub fn heading_control() -> (c: Control)
    ensures
        c == (Control {
            kind: ControlKind::Heading,
            text: "starting...",
            id: 0,
            x: 16,
            y: 12,
            w: 540,
            h: 28,
        }),
{
    Control { kind: ControlKind::Heading, text: "starting...", id: 0, x: 16, y: 12, w: 540, h: 28 }
}

/// A button.
pub open spec fn button(text: &'static str, id: usize, x: i32, y: i32, w: i32) -> Control {
    Control { kind: ControlKind::Button, text, id, x, y, w, h: 30 }
}

fn make_button(text: &'static str, id: usize, x: i32, y: i32, w: i32) -> (c: Control)
    ensures
        c == button(text, id, x, y, w),
{
    Control { kind: ControlKind::Button, text, id, x, y, w, h: 30 }
}

/// The buttons.
pub fn button_controls() -> (v: Vec<Control>)
    ensures
        v@ == seq![
            button("Pause", ID_PAUSE, 16, 282, 108),
            button("Save + New Session", ID_NEWSESSION, 132, 282, 160),
            button("Open Data Folder", ID_FOLDER, 300, 282, 140),
            button("Export CSV", ID_EXPORT, 448, 282, 108),
            (Control {
                kind: ControlKind::Checkbox,
                text: "Start when I sign in to Windows",
                id: ID_STARTUP,
                x: 16,
                y: 322,
                w: 260,
                h: 30,
            }),
            button("View Raw Events", ID_RAW, 292, 322, 144),
            button("Hide to Tray", ID_HIDE, 448, 322, 108),
        ],
{
    let mut v: Vec<Control> = Vec::new();
    v.push(make_button("Pause", ID_PAUSE, 16, 282, 108));
    v.push(make_button("Save + New Session", ID_NEWSESSION, 132, 282, 160));
    v.push(make_button("Open Data Folder", ID_FOLDER, 300, 282, 140));
    v.push(make_button("Export CSV", ID_EXPORT, 448, 282, 108));
    v.push(
        Control {
            kind: ControlKind::Checkbox,
            text: "Start when I sign in to Windows",
            id: ID_STARTUP,
            x: 16,
            y: 322,
            w: 260,
            h: 30,
        },
    );
    v.push(make_button("View Raw Events", ID_RAW, 292, 322, 144));
    v.push(make_button("Hide to Tray", ID_HIDE, 448, 322, 108));
    v
}

/// The note at the foot.
pub fn note_control() -> (c: Control)
    ensures
        c == (Control {
            kind: ControlKind::Label,
            text: "Recording is continuous and saved as it happens. Closing this window keeps\nrecording in the tray; use Exit on the tray menu to stop.",
            id: 0,
            x: 16,
            y: 360,
            w: 540,
            h: 36,
        }),
{
    Control {
        kind: ControlKind::Label,
        text: "Recording is continuous and saved as it happens. Closing this window keeps\nrecording in the tray; use Exit on the tray menu to stop.",
        id: 0,
        x: 16,
        y: 360,
        w: 540,
        h: 36,
    }
}

/// An entry of the tray menu.
pub enum MenuEntry {
    /// With its id and its text.
    Item(usize, &'static str),
    /// The same, with a tick where it is on.
    Check(usize, &'static str, bool),
    Separator,
}

/// An entry says so, and asks for that.
pub open spec fn offers(entry: MenuEntry, text: &'static str, command: UiCommand) -> bool {
    match entry {
        MenuEntry::Item(id, t) => t == text && command_spec(id) == command,
        MenuEntry::Check(id, t, _) => t == text && command_spec(id) == command,
        MenuEntry::Separator => false,
    }
}

/// The tray menu.
pub fn tray_menu(paused: bool, startup_enabled: bool) -> (v: Vec<MenuEntry>)
    ensures
        paused ==> offers(v@[1], "Resume Recording", UiCommand::TogglePause),
        !paused ==> offers(v@[1], "Pause Recording", UiCommand::TogglePause),
        offers(v@[0], "Open Dashboard", UiCommand::Show),
        offers(v@[2], "Save + New Session", UiCommand::NewSession),
        offers(v@[3], "Open Data Folder", UiCommand::OpenFolder),
        offers(v@[4], "View Raw Events", UiCommand::OpenRaw),
        offers(v@[6], "Start with Windows", UiCommand::ToggleStartup),
        offers(v@[8], "Exit", UiCommand::Exit),
        forall|i: int|
            0 <= i < v@.len() ==> (#[trigger] v@[i] matches MenuEntry::Check(_, _, on) ==> on
                == startup_enabled),
        v@ == seq![
            MenuEntry::Item(MENU_SHOW, "Open Dashboard"),
            MenuEntry::Item(
                MENU_PAUSE,
                if paused {
                    "Resume Recording"
                } else {
                    "Pause Recording"
                },
            ),
            MenuEntry::Item(MENU_NEWSESSION, "Save + New Session"),
            MenuEntry::Item(MENU_FOLDER, "Open Data Folder"),
            MenuEntry::Item(MENU_RAW, "View Raw Events"),
            MenuEntry::Separator,
            MenuEntry::Check(MENU_STARTUP, "Start with Windows", startup_enabled),
            MenuEntry::Separator,
            MenuEntry::Item(MENU_EXIT, "Exit"),
        ],
{
    let mut v: Vec<MenuEntry> = Vec::new();
    v.push(MenuEntry::Item(MENU_SHOW, "Open Dashboard"));
    v.push(
        MenuEntry::Item(
            MENU_PAUSE,
            if paused {
                "Resume Recording"
            } else {
                "Pause Recording"
            },
        ),
    );
    v.push(MenuEntry::Item(MENU_NEWSESSION, "Save + New Session"));
    v.push(MenuEntry::Item(MENU_FOLDER, "Open Data Folder"));
    v.push(MenuEntry::Item(MENU_RAW, "View Raw Events"));
    v.push(MenuEntry::Separator);
    v.push(MenuEntry::Check(MENU_STARTUP, "Start with Windows", startup_enabled));
    v.push(MenuEntry::Separator);
    v.push(MenuEntry::Item(MENU_EXIT, "Exit"));
    v
}

// ---- messages ---------------------------------------------------------------------------

/// What is said when startup was switched, if anything is: which mechanism took
/// effect. The scheduled task needs elevation and quietly falls back to the Run value,
/// and the user is entitled to know which one is in force.
pub open spec fn startup_message_spec(m: Method) -> Option<Seq<char>> {
    match m {
        Method::Off => None,
        Method::RunKey => Some(
            "HumanTelemetry will start when you sign in."@
                + "\n\nRegistered via the registry Run key. (The scheduled-task                      route needs administrator rights; the Run key does not, but it                      cannot restart the recorder if it ever crashes.)"@,
        ),
        Method::Task => Some(
            "HumanTelemetry will start when you sign in."@
                + "\n\nRegistered as a scheduled task."@,
        ),
    }
}

/// What is said when startup was switched, if anything is.
pub fn startup_message(m: Method) -> (s: Option<String>)
    ensures
        crate::context::foreground::text_of(s) == startup_message_spec(m),
{
    match m {
        Method::Off => None,
        Method::RunKey => {
            let mut s = "HumanTelemetry will start when you sign in.".to_owned();
            s.append(
                "\n\nRegistered via the registry Run key. (The scheduled-task                      route needs administrator rights; the Run key does not, but it                      cannot restart the recorder if it ever crashes.)",
            );
            Some(s)
        },
        Method::Task => {
            let mut s = "HumanTelemetry will start when you sign in.".to_owned();
            s.append("\n\nRegistered as a scheduled task.");
            Some(s)
        },
    }
}

/// What is said when an export is done.
pub fn export_message(events: u64, path: &str) -> (s: String)
    ensures
        s@ == "Exported "@ + crate::text::decimal(events as nat) + " events to\n"@ + path@
            + "\n\nNote: this exports what has been flushed to disk so far. The newest second or so is still buffered."@,
{
    let mut s = "Exported ".to_owned();
    push_decimal(&mut s, events);
    s.append(" events to\n");
    s.append(path);
    s.append(
        "\n\nNote: this exports what has been flushed to disk so far. The newest second or so is still buffered.",
    );
    s
}

// ---- laws -----------------------------------------------------------------------------

/// Closing the dashboard never ends recording, and only the menu's Exit does so from a
/// button or a menu.
pub proof fn law_only_exit_ends_recording(id: usize, wparam: usize, lparam: u32, visible: bool)
    ensures
        command_spec(id) == UiCommand::Exit <==> id == MENU_EXIT,
        action_spec(WM_CLOSE, wparam, lparam, visible) == WindowAction::Hide,
{
}

/// Data loss and writer errors always show.
pub proof fn law_loss_is_never_hidden(d: Dashboard, r: DashboardReading)
    requires
        shows(d, r),
    ensures
        r.errors > 0 ==> d.state == TrayState::Error,
        r.dropped > 0 ==> crate::text::ends_with_spec(d.dropped@, "  -- DATA LOSS"@),
{
    let tail = "  -- DATA LOSS"@;
    if r.dropped > 0 {
        assert(d.dropped@.skip(d.dropped@.len() - tail.len()) =~= tail);
    }
}

/// No mouse is left out of the line, and none leads one that is busier.
pub proof fn law_busiest_mouse_leads(list: Seq<DeviceInfo>, counts: Seq<u64>)
    ensures
        busiest_first(list, counts).len() == list.len(),
        busiest_first(list, counts).to_multiset() == list.to_multiset(),
        descending(busiest_first(list, counts), counts),
    decreases list.len(),
{
    broadcast use vstd::seq_lib::group_to_multiset_ensures;

    if list.len() > 0 {
        let rest = list.drop_last();
        law_busiest_mouse_leads(rest, counts);
        lemma_placed(busiest_first(rest, counts), list.last(), counts);
        assert(list =~= rest.push(list.last()));
    } else {
        assert(list =~= seq![]);
    }
}

/// None leads one that is busier.
pub open spec fn descending(list: Seq<DeviceInfo>, counts: Seq<u64>) -> bool {
    forall|i: int, j: int|
        0 <= i < j < list.len() ==> device_events(counts, (#[trigger] list[i]).index)
            >= device_events(counts, (#[trigger] list[j]).index)
}

proof fn lemma_placed(list: Seq<DeviceInfo>, d: DeviceInfo, counts: Seq<u64>)
    requires
        descending(list, counts),
    ensures
        placed(list, d, counts).len() == list.len() + 1,
        placed(list, d, counts).to_multiset() == list.to_multiset().insert(d),
        descending(placed(list, d, counts), counts),
    decreases list.len(),
{
    broadcast use vstd::seq_lib::group_to_multiset_ensures;

    let out = placed(list, d, counts);
    if list.len() == 0 || device_events(counts, list.last().index) >= device_events(
        counts,
        d.index,
    ) {
        assert forall|i: int, j: int| 0 <= i < j < out.len() implies device_events(
            counts,
            (#[trigger] out[i]).index,
        ) >= device_events(counts, (#[trigger] out[j]).index) by {
            if j == list.len() {
                assert(out[i] == list[i]);
                assert(list.last() == list[list.len() - 1]);
                assert(i < list.len() - 1 ==> device_events(counts, list[i].index)
                    >= device_events(counts, list[list.len() - 1].index));
            }
        }
    } else {
        let rest = list.drop_last();
        assert forall|i: int, j: int| 0 <= i < j < rest.len() implies device_events(
            counts,
            (#[trigger] rest[i]).index,
        ) >= device_events(counts, (#[trigger] rest[j]).index) by {
            assert(rest[i] == list[i] && rest[j] == list[j]);
        }
        lemma_placed(rest, d, counts);
        let inner = placed(rest, d, counts);
        assert(list =~= rest.push(list.last()));
        assert(out.to_multiset() =~= list.to_multiset().insert(d));
        assert forall|i: int, j: int| 0 <= i < j < out.len() implies device_events(
            counts,
            (#[trigger] out[i]).index,
        ) >= device_events(counts, (#[trigger] out[j]).index) by {
            if j == inner.len() {
                assert(inner.contains(inner[i]));
                assert(inner.to_multiset().count(inner[i]) > 0);
                if inner[i] != d {
                    assert(rest.to_multiset().count(inner[i]) > 0);
                    assert(rest.contains(inner[i]));
                    let k = choose|k: int| 0 <= k < rest.len() && rest[k] == inner[i];
                    assert(rest[k] == list[k]);
                    assert(list.last() == list[list.len() - 1]);
                }
            }
        }
    }
}

/// Every button and every entry of the menu asks for what it says, and nothing else asks
/// for anything.
pub proof fn law_buttons_and_menu_ask_for_what_they_say(id: usize)
    ensures
        command_spec(id) is TogglePause <==> id == 1001 || id == 2002,
        command_spec(id) is NewSession <==> id == 1002 || id == 2003,
        command_spec(id) is OpenFolder <==> id == 1003 || id == 2004,
        command_spec(id) is Export <==> id == 1004,
        command_spec(id) is ToggleStartup <==> id == 1005 || id == 2005,
        command_spec(id) is OpenRaw <==> id == 1007 || id == 2006,
        command_spec(id) is Hide <==> id == 1006,
        command_spec(id) is Show <==> id == 2001,
        command_spec(id) is Exit <==> id == 2099,
{
}

/// Each message has one meaning: the window is only refreshed while it can be seen, the
/// end of the Windows session is agreed to and only then flushed, and closing hides.
pub proof fn law_window_messages_are_told_apart(
    msg: u32,
    wparam: usize,
    lparam: u32,
    visible: bool,
)
    ensures
        ({
            let a = action_spec(msg, wparam, lparam, visible);
            &&& a is Refresh <==> msg == 0x113 && wparam == 1 && visible
            &&& a is ShowTrayMenu <==> msg == 0x8001 && lparam == 0x205
            &&& a is Show <==> msg == 0x8001 && lparam == 0x203
            &&& a is Hide <==> msg == 0x10
            &&& a is AllowEnd <==> msg == 0x11
            &&& a is Flush <==> msg == 0x16 && wparam != 0
            &&& a is Quit <==> msg == 0x02
            &&& a is Command <==> msg == 0x111
            &&& a is Default <==> msg != 0x02 && msg != 0x10 && msg != 0x11 && msg != 0x16 && msg
                != 0x111 && msg != 0x8001 && (msg != 0x113 || wparam != 1)
        }),
{
}

/// Errors come before anything else; without any the window says whether it is paused.
pub proof fn law_state_follows_errors_then_pause(errors: u64, paused: bool)
    ensures
        state_spec(errors, paused) is Error <==> errors != 0,
        state_spec(errors, paused) is Paused <==> errors == 0 && paused,
        state_spec(errors, paused) is Recording <==> errors == 0 && !paused,
        status_spec(TrayState::Paused) == "PAUSED"@,
        status_spec(TrayState::Recording) == "RECORDING"@,
        status_spec(TrayState::Error) == "RECORDING (writer errors - see below)"@,
{
}

/// The elapsed time reads back: hours, minutes and seconds make up the seconds, and
/// neither minutes nor seconds reach sixty.
pub proof fn law_elapsed_time_reads_back(secs: nat)
    requires
        secs < 360_000,
    ensures
        ({
            let t = elapsed_spec(secs);
            let h = crate::text::digits_value(t.subrange(0, 2));
            let m = crate::text::digits_value(t.subrange(3, 5));
            let s = crate::text::digits_value(t.subrange(6, 8));
            &&& t.len() == 8 && t[2] == ':' && t[5] == ':'
            &&& m < 60 && s < 60
            &&& 3600 * h + 60 * m + s == secs
        }),
{
    reveal_strlit(":");
    let t = elapsed_spec(secs);
    let h = crate::text::zero_padded(secs / 3600, 2);
    let m = crate::text::zero_padded(secs / 60 % 60, 2);
    let s = crate::text::zero_padded(secs % 60, 2);
    assert(crate::text::power_of_ten(2) == 100) by {
        reveal_with_fuel(crate::text::power_of_ten, 3);
    }
    crate::text::lemma_padded(secs / 3600, 2);
    crate::text::lemma_padded(secs / 60 % 60, 2);
    crate::text::lemma_padded(secs % 60, 2);
    assert(t.subrange(0, 2) =~= h);
    assert(t.subrange(3, 5) =~= m);
    assert(t.subrange(6, 8) =~= s);
}

/// From 100 hours on, the hours take as many digits as they need.
pub proof fn law_long_recordings_keep_all_their_hours(secs: nat)
    requires
        secs >= 360_000,
    ensures
        ({
            let t = elapsed_spec(secs);
            let n = t.len() - 6;
            &&& crate::text::digits_value(t.take(n)) == secs / 3600
            &&& 60 * crate::text::digits_value(t.subrange(n + 1, n + 3)) + crate::text::digits_value(
                t.subrange(n + 4, n + 6),
            ) == secs % 3600
        }),
{
    reveal_strlit(":");
    let t = elapsed_spec(secs);
    let n = t.len() - 6;
    let hours = crate::text::decimal(secs / 3600);
    let m = crate::text::zero_padded(secs / 60 % 60, 2);
    let s = crate::text::zero_padded(secs % 60, 2);
    assert(crate::text::power_of_ten(2) == 100) by {
        reveal_with_fuel(crate::text::power_of_ten, 3);
    }
    crate::text::lemma_padded(secs / 60 % 60, 2);
    crate::text::lemma_padded(secs % 60, 2);
    crate::text::lemma_decimal_value(secs / 3600);
    lemma_three_digits(secs / 3600);
    assert(crate::text::zero_padded(secs / 3600, 2) =~= hours);
    assert(t.take(n) =~= hours);
    assert(t.subrange(n + 1, n + 3) =~= m);
    assert(t.subrange(n + 4, n + 6) =~= s);
    assert(secs % 3600 == 60 * (secs / 60 % 60) + secs % 60);
}

proof fn lemma_three_digits(n: nat)
    requires
        n >= 100,
    ensures
        crate::text::decimal(n).len() >= 2,
{
    assert(crate::text::decimal(n / 10).len() >= 1) by {
        if n / 10 >= 10 {
            assert(crate::text::decimal(n / 10) == crate::text::decimal(n / 10 / 10).push(
                crate::text::digit_char((n / 10 % 10) as int),
            ));
        }
    }
}

/// What the dashboard shows reads back as what was read.
pub proof fn law_the_dashboard_reads_back(d: Dashboard, r: DashboardReading)
    requires
        shows(d, r),
    ensures
        crate::text::digits_value(d.reports@) == r.reports,
        r.errors == 0 ==> crate::text::digits_value(d.events@) == r.events,
        r.errors > 0 ==> d.events@ == crate::text::decimal(r.events as nat) + "    ("@
            + crate::text::decimal(r.errors as nat) + " writer error(s))"@,
        r.dropped == 0 ==> d.dropped@ == "0"@,
        r.dropped > 0 ==> d.dropped@ == crate::text::decimal(r.dropped as nat)
            + "  -- DATA LOSS"@,
        d.queue@ == crate::text::decimal(r.queue_depth as nat) + " / "@ + crate::text::decimal(
            65536,
        ) + "   (peak "@ + crate::text::decimal(r.queue_peak as nat) + ")"@,
        d.session@ == r.session_id@,
        d.folder@ == r.session_dir@,
        d.elapsed@ == elapsed_spec(r.elapsed_secs as nat),
        r.paused ==> d.pause_button@ == "Resume"@ && d.rate@ == "-"@,
        !r.paused ==> d.pause_button@ == "Pause"@,
{
    crate::text::lemma_decimal_value(r.reports as nat);
    crate::text::lemma_decimal_value(r.events as nat);
}

/// The mice on the dashboard are the real ones, and only those.
pub proof fn law_only_real_mice_are_on_the_dashboard(devices: Seq<DeviceInfo>, d: DeviceInfo)
    ensures
        d.synthetic ==> real_devices(devices.push(d)) == real_devices(devices),
        !d.synthetic ==> real_devices(devices.push(d)) == real_devices(devices).push(d),
{
    reveal(Seq::filter);
    assert(devices.push(d).drop_last() =~= devices);
}

/// Each mouse is shown with the events that were counted for its own place in the table,
/// and with none where nothing counts for it.
pub proof fn law_mice_are_shown_with_their_own_events(
    list: Seq<DeviceInfo>,
    counts: Seq<u64>,
    i: int,
)
    requires
        0 <= i < list.len(),
    ensures
        (list[i].index as int) < counts.len() ==> device_texts(list, counts)[i] == device_text(
            list[i],
            counts[list[i].index as int],
        ),
        list[i].index as int >= counts.len() ==> device_texts(list, counts)[i] == device_text(
            list[i],
            0,
        ),
        device_texts(list, counts).len() == list.len(),
{
}

/// Every event is called what it is: motion and anchors by their kind, a detent by its
/// wheel and its signed turn, a transition by its button and whether it went down or up.
pub proof fn law_raw_events_are_called_what_they_are(e: Event)
    ensures
        e.kind == 1 ==> event_text(e) == "MOVE"@,
        e.kind == 4 ==> event_text(e) == "SYNC"@,
        e.kind == 2 && e.flags % 2 == 1 ==> event_text(e) == button_caps(e.btn) + "_"@ + "DOWN"@,
        e.kind == 2 && e.flags % 2 == 0 ==> event_text(e) == button_caps(e.btn) + "_"@ + "UP"@,
        e.kind == 3 && e.flags / 8 % 2 == 1 ==> event_text(e) == "H"@ + "WHEEL "@ + turn_spec(
            e.wheel as int,
        ),
        e.kind == 3 && e.flags / 8 % 2 == 0 ==> event_text(e) == "V"@ + "WHEEL "@ + turn_spec(
            e.wheel as int,
        ),
        button_caps(0) == "LEFT"@,
        button_caps(1) == "RIGHT"@,
        button_caps(2) == "MIDDLE"@,
        button_caps(3) == "X1"@,
        button_caps(4) == "X2"@,
        e.wheel < 0 ==> turn_spec(e.wheel as int) == seq!['-'] + crate::text::decimal(
            (-e.wheel) as nat,
        ),
        e.wheel >= 0 ==> turn_spec(e.wheel as int) == "+"@ + crate::text::decimal(e.wheel as nat),
{
    let f = e.flags;
    assert((f & 1 != 0) == (f % 2 == 1)) by (bit_vector);
    assert((f & 8 != 0) == (f / 8 % 2 == 1)) by (bit_vector);
}

/// The rows of the raw events come one after another, each of its own event and time.
pub proof fn law_raw_rows_follow_the_events(
    events: Seq<Event>,
    times: Seq<Seq<char>>,
    e: Event,
)
    ensures
        raw_rows(events.push(e), times) == raw_rows(events, times) + raw_row(
            e,
            times[events.len() as int],
        ),
        events.len() == 0 ==> raw_rows(events, times).len() == 0,
{
    assert(events.push(e).drop_last() =~= events);
}

/// The rows of the dashboard stand one below the other without touching, each with its
/// value to the right of its name.
pub proof fn law_rows_do_not_overlap(i: int, j: int)
    requires
        0 <= i < j < 9,
    ensures
        row_label(i).y + row_label(i).h <= row_label(j).y,
        row_value(i).y == row_label(i).y,
        row_label(i).x + row_label(i).w <= row_value(i).x,
        row_label(i).text@ == ROWS@[i]@,
{
}

/// Switching startup on is told with the mechanism that took effect, switching it off is
/// not told at all.
pub proof fn law_startup_messages_tell_the_mechanism(m: Method)
    ensures
        startup_message_spec(m) is None <==> m is Off,
        startup_message_spec(Method::Task) != startup_message_spec(Method::RunKey),
{
    reveal_strlit("HumanTelemetry will start when you sign in.");
    reveal_strlit("\n\nRegistered as a scheduled task.");
    reveal_strlit(
        "\n\nRegistered via the registry Run key. (The scheduled-task                      route needs administrator rights; the Run key does not, but it                      cannot restart the recorder if it ever crashes.)",
    );
    assert(startup_message_spec(Method::Task)->0.len() != startup_message_spec(
        Method::RunKey,
    )->0.len());
}

/// Mice that are as busy as each other stay in the order in which they were found; one
/// that is busier than all before it comes to the front.
pub proof fn law_equally_busy_mice_keep_their_order(
    list: Seq<DeviceInfo>,
    d: DeviceInfo,
    counts: Seq<u64>,
)
    ensures
        (forall|i: int|
            0 <= i < list.len() ==> device_events(counts, (#[trigger] list[i]).index)
                >= device_events(counts, d.index)) ==> placed(list, d, counts) == list.push(d),
        (forall|i: int|
            0 <= i < list.len() ==> device_events(counts, (#[trigger] list[i]).index)
                < device_events(counts, d.index)) ==> placed(list, d, counts) == seq![d] + list,
    decreases list.len(),
{
    if list.len() > 0 {
        let rest = list.drop_last();
        assert(list[list.len() - 1] == list.last());
        law_equally_busy_mice_keep_their_order(rest, d, counts);
        if forall|i: int|
            0 <= i < list.len() ==> device_events(counts, (#[trigger] list[i]).index)
                < device_events(counts, d.index) {
            assert forall|i: int| 0 <= i < rest.len() implies device_events(
                counts,
                (#[trigger] rest[i]).index,
            ) < device_events(counts, d.index) by {
                assert(rest[i] == list[i]);
            }
            assert((seq![d] + rest).push(list.last()) =~= seq![d] + list);
        }
    } else {
        assert(list.push(d) =~= seq![d] + list);
    }
}

/// Without a real mouse the dashboard says so; the only one is shown by itself; and one
/// that is less busy than all others is shown behind them.
pub proof fn law_the_dashboard_names_every_mouse(
    devices: Seq<DeviceInfo>,
    counts: Seq<u64>,
    d: DeviceInfo,
)
    requires
        !d.synthetic,
        forall|i: int|
            0 <= i < real_devices(devices).len() ==> device_events(
                counts,
                (#[trigger] real_devices(devices)[i]).index,
            ) > device_events(counts, d.index),
    ensures
        real_devices(devices).len() == 0 ==> device_line_spec(devices, counts) == "none detected"@,
        real_devices(devices).len() == 0 ==> device_line_spec(devices.push(d), counts)
            == device_text(d, device_events(counts, d.index)),
        real_devices(devices).len() > 0 ==> device_line_spec(devices.push(d), counts)
            == device_line_spec(devices, counts) + "   |   "@ + device_text(
            d,
            device_events(counts, d.index),
        ),
{
    law_only_real_mice_are_on_the_dashboard(devices, d);
    let mice = real_devices(devices);
    let sorted = busiest_first(mice, counts);
    lemma_all_are_busier(mice, counts, device_events(counts, d.index) as int);
    assert(mice.push(d).drop_last() =~= mice);
    assert(busiest_first(mice.push(d), counts) == sorted.push(d));
    let texts = device_texts(sorted, counts);
    let more = device_texts(sorted.push(d), counts);
    assert(more.drop_last() =~= texts);
    assert(more.last() == device_text(d, device_events(counts, d.index)));
}

/// Sorting keeps how busy they all are at least.
proof fn lemma_all_are_busier(list: Seq<DeviceInfo>, counts: Seq<u64>, n: int)
    requires
        forall|i: int|
            0 <= i < list.len() ==> device_events(counts, (#[trigger] list[i]).index) > n,
    ensures
        busiest_first(list, counts).len() == list.len(),
        forall|i: int|
            0 <= i < list.len() ==> device_events(
                counts,
                (#[trigger] busiest_first(list, counts)[i]).index,
            ) > n,
    decreases list.len(),
{
    if list.len() > 0 {
        assert forall|i: int| 0 <= i < list.drop_last().len() implies device_events(
            counts,
            (#[trigger] list.drop_last()[i]).index,
        ) > n by {
            assert(list.drop_last()[i] == list[i]);
        }
        lemma_all_are_busier(list.drop_last(), counts, n);
        assert(list.last() == list[list.len() - 1]);
        lemma_placing_keeps_busier(busiest_first(list.drop_last(), counts), list.last(), counts, n);
    }
}

proof fn lemma_placing_keeps_busier(
    list: Seq<DeviceInfo>,
    d: DeviceInfo,
    counts: Seq<u64>,
    n: int,
)
    requires
        forall|i: int|
            0 <= i < list.len() ==> device_events(counts, (#[trigger] list[i]).index) > n,
        device_events(counts, d.index) > n,
    ensures
        placed(list, d, counts).len() == list.len() + 1,
        forall|i: int|
            0 <= i < list.len() + 1 ==> device_events(
                counts,
                (#[trigger] placed(list, d, counts)[i]).index,
            ) > n,
    decreases list.len(),
{
    if list.len() > 0 && device_events(counts, list.last().index) < device_events(
        counts,
        d.index,
    ) {
        assert forall|i: int| 0 <= i < list.drop_last().len() implies device_events(
            counts,
            (#[trigger] list.drop_last()[i]).index,
        ) > n by {
            assert(list.drop_last()[i] == list[i]);
        }
        lemma_placing_keeps_busier(list.drop_last(), d, counts, n);
        assert(list.last() == list[list.len() - 1]);
    }
}

/// What the dashboard says of a mouse begins with its place in the table and its name, and
/// ends with its buttons and its events.
pub proof fn law_a_mouse_is_shown_with_its_numbers(d: DeviceInfo, n: u64)
    ensures
        ({
            let name = "#"@ + crate::text::decimal(d.index as nat) + " "@
                + crate::stats::mouse_label(d.vendor_id, d.product_id) + " "@;
            let rest = device_text(d, n).skip(name.len() as int);
            let buttons = crate::text::decimal(d.buttons as nat);
            let tail = rest.skip(buttons.len() as int);
            &&& crate::text::starts_with_spec(device_text(d, n), name)
            &&& crate::text::starts_with_spec(rest, buttons)
            &&& crate::text::digits_value(buttons) == d.buttons
            &&& tail == "btn "@ + crate::text::decimal(n as nat) + "ev"@
        }),
{
    let name = "#"@ + crate::text::decimal(d.index as nat) + " "@ + crate::stats::mouse_label(
        d.vendor_id,
        d.product_id,
    ) + " "@;
    let text = device_text(d, n);
    let rest = text.skip(name.len() as int);
    let buttons = crate::text::decimal(d.buttons as nat);
    let end = "btn "@ + crate::text::decimal(n as nat) + "ev"@;
    crate::text::lemma_decimal_value(d.buttons as nat);
    assert(text =~= name + buttons + end);
    assert(text.take(name.len() as int) =~= name);
    assert(rest =~= buttons + end);
    assert(rest.take(buttons.len() as int) =~= buttons);
    assert(rest.skip(buttons.len() as int) =~= end);
}

} // verus!
