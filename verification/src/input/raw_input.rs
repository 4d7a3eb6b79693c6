//! Decoding device reports into events.
//!
//! One report can yield several events: a move, any number of button transitions
//! and a wheel detent all arrive together. All of them carry the stamp that was
//! taken when the report arrived.

use vstd::prelude::*;

use crate::context::monitors::MonitorInfo;
use crate::context::ContextRecord;
use crate::event::{
    Event, B_LEFT, B_MIDDLE, B_NONE, B_RIGHT, B_X1, B_X2, EV_BUTTON, EV_MOVE, EV_SYNC, EV_WHEEL,
    F_ABSOLUTE, F_ATTRCHANGED, F_DOWN, F_HWHEEL, F_NOCOALESCE, F_POS_STALE, F_VIRTUALDESK, M_ALT,
    M_CTRL, M_SHIFT, M_WIN,
};
use crate::input::devices::{copy_devices, DeviceInfo, DeviceTable, TYPE_MOUSE};
use crate::le::to_signed16;
use crate::ring::{Ring, RingState};

verus! {

/// The timer that asks for an absolute-position anchor, and how often it does.
pub const SYNC_TIMER_ID: usize = 1;

pub const SYNC_INTERVAL_MS: u32 = 200;

// ---- the bits of a report -----------------------------------------------------------
pub const RI_LEFT_DOWN: u16 = 0x0001;

pub const RI_LEFT_UP: u16 = 0x0002;

pub const RI_RIGHT_DOWN: u16 = 0x0004;

pub const RI_RIGHT_UP: u16 = 0x0008;

pub const RI_MIDDLE_DOWN: u16 = 0x0010;

pub const RI_MIDDLE_UP: u16 = 0x0020;

pub const RI_BTN4_DOWN: u16 = 0x0040;

pub const RI_BTN4_UP: u16 = 0x0080;

pub const RI_BTN5_DOWN: u16 = 0x0100;

pub const RI_BTN5_UP: u16 = 0x0200;

pub const RI_WHEEL: u16 = 0x0400;

pub const RI_HWHEEL: u16 = 0x0800;

pub const MOUSE_MOVE_ABSOLUTE_F: u16 = 0x01;

pub const MOUSE_VIRTUAL_DESKTOP_F: u16 = 0x02;

pub const MOUSE_ATTRIBUTES_CHANGED_F: u16 = 0x04;

pub const MOUSE_MOVE_NOCOALESCE_F: u16 = 0x08;

/// A transition: its flag, its button, and whether it is a press.
pub const TRANSITIONS: [(u16, u8, bool); 10] = [
    (0x0001, 0, true),
    (0x0002, 0, false),
    (0x0004, 1, true),
    (0x0008, 1, false),
    (0x0010, 2, true),
    (0x0020, 2, false),
    (0x0040, 3, true),
    (0x0080, 3, false),
    (0x0100, 4, true),
    (0x0200, 4, false),
];

/// The table names the flags and buttons as they are named above.
pub proof fn law_transitions_name_their_flags()
    ensures
        TRANSITIONS@ == seq![
            (RI_LEFT_DOWN, B_LEFT, true),
            (RI_LEFT_UP, B_LEFT, false),
            (RI_RIGHT_DOWN, B_RIGHT, true),
            (RI_RIGHT_UP, B_RIGHT, false),
            (RI_MIDDLE_DOWN, B_MIDDLE, true),
            (RI_MIDDLE_UP, B_MIDDLE, false),
            (RI_BTN4_DOWN, B_X1, true),
            (RI_BTN4_UP, B_X1, false),
            (RI_BTN5_DOWN, B_X2, true),
            (RI_BTN5_UP, B_X2, false),
        ],
{
    assert(TRANSITIONS@ =~= seq![
        (RI_LEFT_DOWN, B_LEFT, true),
        (RI_LEFT_UP, B_LEFT, false),
        (RI_RIGHT_DOWN, B_RIGHT, true),
        (RI_RIGHT_UP, B_RIGHT, false),
        (RI_MIDDLE_DOWN, B_MIDDLE, true),
        (RI_MIDDLE_UP, B_MIDDLE, false),
        (RI_BTN4_DOWN, B_X1, true),
        (RI_BTN4_UP, B_X1, false),
        (RI_BTN5_DOWN, B_X2, true),
        (RI_BTN5_UP, B_X2, false),
    ]);
}

/// A mouse report.
#[derive(Clone, Copy, Debug, PartialEq, Eq, Structural)]
pub struct Report {
    /// The device that sent it.
    pub handle: isize,
    pub flags: u16,
    pub button_flags: u16,
    pub button_data: u16,
    pub dx: i32,
    pub dy: i32,
}

// ---- models -------------------------------------------------------------------------

/// `bit` where `set`.
pub open spec fn bit_if(set: bool, bit: u8) -> int {
    if set {
        bit as int
    } else {
        0
    }
}

/// The flags that every event of a report carries. Each stands for a bit of its
/// own, so that adding them up sets each.
pub open spec fn base_flags_spec(flags: u16, stale: bool) -> u8 {
    (bit_if(stale, F_POS_STALE) + bit_if(flags & MOUSE_MOVE_ABSOLUTE_F != 0, F_ABSOLUTE) + bit_if(
        flags & MOUSE_VIRTUAL_DESKTOP_F != 0,
        F_VIRTUALDESK,
    ) + bit_if(flags & MOUSE_ATTRIBUTES_CHANGED_F != 0, F_ATTRCHANGED) + bit_if(
        flags & MOUSE_MOVE_NOCOALESCE_F != 0,
        F_NOCOALESCE,
    )) as u8
}

/// The held buttons after a transition.
pub open spec fn held_after(held: u8, btn: u8, down: bool) -> u8 {
    if down {
        held | (1u8 << btn)
    } else {
        held & !(1u8 << btn)
    }
}

/// What the events of one report have in common.
pub struct Stamp {
    pub t_ns: u64,
    pub dev: u8,
    /// The flags of every event.
    pub flags: u8,
    pub x: i32,
    pub y: i32,
    /// Modifiers, for button and wheel events.
    pub mods: u8,
}

/// Whether the report tells of motion. One without displacement, transitions or
/// absolute coordinates still happens (some devices poll idle); leaving it out
/// keeps the log honest about real motion.
pub open spec fn moves(r: Report) -> bool {
    r.dx != 0 || r.dy != 0 || r.flags & MOUSE_MOVE_ABSOLUTE_F != 0
}

/// The motion that the report tells of.
pub open spec fn move_events(r: Report, s: Stamp, held: u8) -> Seq<Event> {
    if moves(r) {
        seq![
            Event {
                t_ns: s.t_ns,
                kind: EV_MOVE,
                flags: s.flags,
                dev: s.dev,
                btn: B_NONE,
                dx: r.dx,
                dy: r.dy,
                x: s.x,
                y: s.y,
                wheel: 0,
                mods: 0,
                bstate: held,
            },
        ]
    } else {
        seq![]
    }
}

/// One transition.
pub open spec fn button_event(s: Stamp, btn: u8, down: bool, held: u8) -> Event {
    Event {
        t_ns: s.t_ns,
        kind: EV_BUTTON,
        flags: (s.flags + bit_if(down, F_DOWN)) as u8,
        dev: s.dev,
        btn,
        dx: 0,
        dy: 0,
        x: s.x,
        y: s.y,
        wheel: 0,
        mods: s.mods,
        bstate: held,
    }
}

/// The transitions among the first `n` of the table that the report tells of, in
/// the order of the table, and the buttons held behind them.
pub open spec fn button_events(r: Report, s: Stamp, held: u8, n: int) -> (Seq<Event>, u8)
    decreases n,
{
    if n <= 0 {
        (seq![], held)
    } else {
        let (events, before) = button_events(r, s, held, n - 1);
        let (bit, btn, down) = TRANSITIONS@[n - 1];
        if r.button_flags & bit == 0 {
            (events, before)
        } else {
            let after = held_after(before, btn, down);
            (events.push(button_event(s, btn, down, after)), after)
        }
    }
}

/// The wheel detent that the report tells of.
pub open spec fn wheel_events(r: Report, s: Stamp, held: u8) -> Seq<Event> {
    if r.button_flags & 0x0C00 != 0 {
        seq![
            Event {
                t_ns: s.t_ns,
                kind: EV_WHEEL,
                flags: (s.flags + bit_if(r.button_flags & RI_HWHEEL != 0, F_HWHEEL)) as u8,
                dev: s.dev,
                btn: B_NONE,
                dx: 0,
                dy: 0,
                x: s.x,
                y: s.y,
                wheel: crate::le::signed16(r.button_data),
                mods: s.mods,
                bstate: held,
            },
        ]
    } else {
        seq![]
    }
}

/// The events of a report, in order: motion, transitions, wheel.
pub open spec fn report_events(r: Report, s: Stamp, held: u8) -> Seq<Event> {
    let (buttons, after) = button_events(r, s, held, 10);
    move_events(r, s, held) + buttons + wheel_events(r, s, after)
}

/// The anchor event.
pub open spec fn sync_event(t_ns: u64, stale: bool, x: i32, y: i32, held: u8) -> Event {
    Event {
        t_ns,
        kind: EV_SYNC,
        flags: bit_if(stale, F_POS_STALE) as u8,
        dev: 0,
        btn: B_NONE,
        dx: 0,
        dy: 0,
        x,
        y,
        wheel: 0,
        mods: 0,
        bstate: held,
    }
}

/// Where the cursor is: where it was read, or where it last was.
pub open spec fn cursor_or(cursor: Option<(i32, i32)>, last: (i32, i32)) -> (i32, i32) {
    match cursor {
        Some(p) => p,
        None => last,
    }
}

// ---- the capturing side ---------------------------------------------------------------

/// Observable state of the capturing side.
#[derive(Debug)]
pub struct CaptureState {
    pub paused: bool,
    /// Device reports received.
    ///
    /// Deliberately not called events: one report can yield several events, and
    /// anchors are events with no report behind them at all.
    pub reports: u64,
}

/// So much was read of a report of that kind that it is one of a mouse.
pub open spec fn is_mouse_report(bytes: u32, kind: u32) -> bool {
    bytes != 0 && bytes != u32::MAX && kind == TYPE_MOUSE
}

impl CaptureState {
    pub fn new() -> (s: Self)
        ensures
            s == (CaptureState { paused: false, reports: 0 }),
    {
        CaptureState { paused: false, reports: 0 }
    }

    pub fn set_paused(&mut self, paused: bool)
        ensures
            *final(self) == (CaptureState { paused, ..*old(self) }),
    {
        self.paused = paused;
    }

    /// Takes note of a report, given how many bytes were read of it and of which
    /// kind of device. Returns whether it is to be decoded: one that could not be
    /// read, or not from a mouse, does not count at all; one that came while
    /// recording is paused counts, and is not decoded.
    pub fn accept(&mut self, bytes: u32, kind: u32) -> (decode: bool)
        ensures
            ({
                let counts = bytes != 0 && bytes != u32::MAX && kind == TYPE_MOUSE;
                &&& final(self).paused == old(self).paused
                &&& final(self).reports == if counts {
                    crate::ring::counted(old(self).reports)
                } else {
                    old(self).reports
                }
                &&& decode == (counts && !old(self).paused)
            }),
            decode <==> is_mouse_report(bytes, kind) && !old(self).paused,
            final(self).reports != old(self).reports <==> is_mouse_report(bytes, kind),
    {
        if bytes == u32::MAX || bytes == 0 {
            return false;
        }
        if kind != TYPE_MOUSE {
            return false;
        }
        self.reports = if self.reports == u64::MAX {
            0
        } else {
            self.reports + 1
        };
        !self.paused
    }
}

impl Default for CaptureState {
    fn default() -> (s: Self)
        ensures
            s == (CaptureState { paused: false, reports: 0 }),
    {
        Self::new()
    }
}

/// What the capturing side keeps from report to report.
pub struct Capture {
    pub devices: DeviceTable,
    /// Bitmask of the buttons held.
    pub held: u8,
    /// Last known cursor position, used where it cannot be read.
    pub last_pos: (i32, i32),
}

/// Whether decoding the report needs the modifiers. They are sampled at most once
/// per report, and only when a button or the wheel was moved.
pub open spec fn needs_modifiers_spec(button_flags: u16) -> bool {
    button_flags & 0x0FFF != 0
}

/// Whether decoding the report needs the modifiers.
pub fn needs_modifiers(r: &Report) -> (needed: bool)
    ensures
        needed == needs_modifiers_spec(r.button_flags),
{
    r.button_flags & 0x0FFF != 0
}

/// The flags that every event of a report carries.
fn base_flags(flags: u16, stale: bool) -> (b: u8)
    ensures
        b == base_flags_spec(flags, stale),
        b <= 118,
        b % 2 == 0,
        b % 16 < 8,
{
    let mut b: u8 = 0;
    if stale {
        b = b + F_POS_STALE;
    }
    if flags & MOUSE_MOVE_ABSOLUTE_F != 0 {
        b = b + F_ABSOLUTE;
    }
    if flags & MOUSE_VIRTUAL_DESKTOP_F != 0 {
        b = b + F_VIRTUALDESK;
    }
    if flags & MOUSE_ATTRIBUTES_CHANGED_F != 0 {
        b = b + F_ATTRCHANGED;
    }
    if flags & MOUSE_MOVE_NOCOALESCE_F != 0 {
        b = b + F_NOCOALESCE;
    }
    b
}

impl Capture {
    pub fn new(devices: DeviceTable) -> (c: Self)
        ensures
            c.devices == devices,
            c.held == 0,
            c.last_pos == (0i32, 0i32),
    {
        Capture { devices, held: 0, last_pos: (0, 0) }
    }

    /// The stamp of a report's events.
    pub open spec fn stamp(
        &self,
        t_ns: u64,
        r: Report,
        cursor: Option<(i32, i32)>,
        mods: u8,
    ) -> Stamp {
        let pos = cursor_or(cursor, self.last_pos);
        Stamp {
            t_ns,
            dev: if self.devices@.by_handle.contains_key(r.handle) {
                self.devices@.by_handle[r.handle]
            } else {
                crate::input::devices::UNKNOWN_DEVICE
            },
            flags: base_flags_spec(r.flags, cursor is None),
            x: pos.0,
            y: pos.1,
            mods,
        }
    }

    /// Decodes a report and offers its events to the queue, given when it arrived,
    /// where the cursor was read to be, and the modifiers (only looked at where
    /// `needs_modifiers` says so).
    pub fn on_input(
        &mut self,
        ring: &mut Ring,
        t_ns: u64,
        r: &Report,
        cursor: Option<(i32, i32)>,
        mods: u8,
    )
        requires
            old(ring).wf(),
        ensures
            final(ring).wf(),
            final(ring)@ == old(ring)@.pushed_all(
                report_events(*r, old(self).stamp(t_ns, *r, cursor, mods), old(self).held),
            ),
            final(self).devices == old(self).devices,
            final(self).held == button_events(
                *r,
                old(self).stamp(t_ns, *r, cursor, mods),
                old(self).held,
                10,
            ).1,
            final(self).last_pos == cursor_or(cursor, old(self).last_pos),
            ({
                let was = old(ring)@.queue;
                let is = final(ring)@.queue;
                let still = r.dx == 0 && r.dy == 0 && r.flags % 2 == 0;
                // What waits stays, and motion is queued once and first.
                &&& was.is_prefix_of(is)
                &&& !still && was.len() < 65536 ==> is.len() > was.len() && is[was.len() as int].kind
                    == 1 && is[was.len() as int].dx == r.dx && is[was.len() as int].dy == r.dy
                &&& forall|j: int|
                    was.len() <= j < is.len() && (#[trigger] is[j]).kind == 1 ==> j == was.len()
                        && !still
                // Everything new is stamped with this report.
                &&& forall|j: int|
                    was.len() <= j < is.len() ==> {
                        let e = #[trigger] is[j];
                        &&& e.t_ns == t_ns
                        &&& cursor matches Some(p) ==> e.x == p.0 && e.y == p.1 && e.flags < 64
                        &&& cursor is None ==> e.x == old(self).last_pos.0 && e.y == old(
                            self,
                        ).last_pos.1 && 64 <= e.flags < 128
                        &&& old(self).devices@.by_handle.contains_key(r.handle) ==> e.dev == old(
                            self,
                        ).devices@.by_handle[r.handle]
                        &&& !old(self).devices@.by_handle.contains_key(r.handle) ==> e.dev == 0
                    }
            }),
    {
        let dev: u8 = self.devices.index_of(r.handle);
        // One cursor position, shared by every event of the report.
        if let Some(p) = cursor {
            self.last_pos = p;
        }
        let (x, y): (i32, i32) = self.last_pos;
        let flags: u8 = base_flags(r.flags, cursor.is_none());
        let ghost s = old(self).stamp(t_ns, *r, cursor, mods);
        let ghost mut sent: Seq<Event> = seq![];

        if r.dx != 0 || r.dy != 0 || r.flags & MOUSE_MOVE_ABSOLUTE_F != 0 {
            let ev = Event {
                t_ns,
                kind: EV_MOVE,
                flags,
                dev,
                btn: B_NONE,
                dx: r.dx,
                dy: r.dy,
                x,
                y,
                wheel: 0,
                mods: 0,
                bstate: self.held,
            };
            ring.push(ev);
            proof {
                sent = sent.push(ev);
                assert(sent.drop_last() =~= seq![]);
                assert(old(ring)@.pushed_all(sent.drop_last()) == old(ring)@);
            }
        }
        let ghost moved = sent;
        assert(moved =~= move_events(*r, s, old(self).held));

        let mut i: usize = 0;
        assert(sent =~= moved + button_events(*r, s, old(self).held, 0).0);
        while i < 10
            invariant
                i <= 10,
                ring.wf(),
                ring@ == old(ring)@.pushed_all(sent),
                sent == moved + button_events(*r, s, old(self).held, i as int).0,
                self.held == button_events(*r, s, old(self).held, i as int).1,
                self.devices == old(self).devices,
                self.last_pos == (x, y),
                s == (Stamp { t_ns, dev, flags, x, y, mods }),
                flags <= 118,
                moved == move_events(*r, s, old(self).held),
            decreases 10 - i,
        {
            let (bit, btn, down) = TRANSITIONS[i];
            if r.button_flags & bit != 0 {
                proof {
                    lemma_button_ids(i as int);
                }
                self.held = if down {
                    self.held | (1u8 << btn)
                } else {
                    self.held & !(1u8 << btn)
                };
                let ev = Event {
                    t_ns,
                    kind: EV_BUTTON,
                    flags: if down {
                        flags + F_DOWN
                    } else {
                        flags
                    },
                    dev,
                    btn,
                    dx: 0,
                    dy: 0,
                    x,
                    y,
                    wheel: 0,
                    mods,
                    bstate: self.held,
                };
                ring.push(ev);
                proof {
                    let before = sent;
                    sent = sent.push(ev);
                    assert(sent.drop_last() =~= before);
                }
            }
            i = i + 1;
            assert(sent =~= moved + button_events(*r, s, old(self).held, i as int).0);
        }
        let ghost pressed = sent;
        if r.button_flags & 0x0C00 != 0 {
            let horizontal = r.button_flags & RI_HWHEEL != 0;
            let ev = Event {
                t_ns,
                kind: EV_WHEEL,
                flags: if horizontal {
                    flags + F_HWHEEL
                } else {
                    flags
                },
                dev,
                btn: B_NONE,
                dx: 0,
                dy: 0,
                x,
                y,
                wheel: to_signed16(r.button_data),
                mods,
                bstate: self.held,
            };
            ring.push(ev);
            proof {
                sent = sent.push(ev);
                assert(sent.drop_last() =~= pressed);
            }
        }
        assert(sent =~= report_events(*r, s, old(self).held));
        proof {
            crate::ring::law_queue_is_bounded(old(ring));
            lemma_report_is_queued(old(ring)@, *old(self), t_ns, *r, cursor, mods);
        }
    }

    /// Offers an absolute anchor to the queue, so that integrated deltas can be
    /// re-registered against the true position. Nothing while recording is paused.
    pub fn on_sync(
        &mut self,
        ring: &mut Ring,
        paused: bool,
        t_ns: u64,
        cursor: Option<(i32, i32)>,
    )
        requires
            old(ring).wf(),
        ensures
            final(ring).wf(),
            final(self).devices == old(self).devices,
            final(self).held == old(self).held,
            paused ==> final(ring)@ == old(ring)@ && final(self).last_pos == old(self).last_pos,
            !paused ==> {
                let pos = cursor_or(cursor, old(self).last_pos);
                &&& final(self).last_pos == pos
                &&& final(ring)@ == old(ring)@.pushed(
                    sync_event(t_ns, cursor is None, pos.0, pos.1, old(self).held),
                )
            },
    {
        if paused {
            return ;
        }
        if let Some(p) = cursor {
            self.last_pos = p;
        }
        let (x, y): (i32, i32) = self.last_pos;
        ring.push(
            Event {
                t_ns,
                kind: EV_SYNC,
                flags: if cursor.is_none() {
                    F_POS_STALE
                } else {
                    0
                },
                dev: 0,
                btn: B_NONE,
                dx: 0,
                dy: 0,
                x,
                y,
                wheel: 0,
                mods: 0,
                bstate: self.held,
            },
        );
    }

    /// Takes in what is plugged in now. The record to send, where a new device came
    /// up: the whole table.
    pub fn on_device_change(&mut self, found: Vec<(isize, DeviceInfo)>, t_ns: u64) -> (rec: Option<
        ContextRecord,
    >)
        requires
            old(self).devices@.wf(),
        ensures
            final(self).devices@.wf(),
            final(self).devices@ == old(self).devices@.refreshed(found@),
            final(self).held == old(self).held,
            final(self).last_pos == old(self).last_pos,
            match rec {
                Some(ContextRecord::DeviceChange { t_ns: t, devices }) => {
                    &&& t == t_ns
                    &&& devices@ == final(self).devices@.devices
                    &&& final(self).devices@.devices.len() > old(self).devices@.devices.len()
                },
                Some(_) => false,
                None => final(self).devices@.devices.len() == old(self).devices@.devices.len(),
            },
    {
        proof {
            crate::input::devices::law_refresh_keeps_known_devices(self.devices@, found@);
        }
        if self.devices.refresh(found) {
            Some(ContextRecord::DeviceChange { t_ns, devices: copy_devices(self.devices.devices()) })
        } else {
            None
        }
    }
}

proof fn lemma_button_ids(i: int)
    requires
        0 <= i < 10,
    ensures
        TRANSITIONS@[i].1 < 8,
{
}

/// The modifiers that are down.
pub open spec fn modifiers_spec(ctrl: bool, shift: bool, alt: bool, win: bool) -> u8 {
    (bit_if(ctrl, M_CTRL) + bit_if(shift, M_SHIFT) + bit_if(alt, M_ALT) + bit_if(win, M_WIN)) as u8
}

/// The modifiers, from the state of the keys: the high bit tells that one is down.
///
/// This reads modifier state, never key identity: no keystroke is observed, logged
/// or inferred.
pub fn modifier_mask(ctrl: i16, shift: i16, alt: i16, left_win: i16, right_win: i16) -> (m: u8)
    ensures
        m == bit_if(ctrl < 0, M_CTRL) + bit_if(shift < 0, M_SHIFT) + bit_if(alt < 0, M_ALT)
            + bit_if(left_win < 0 || right_win < 0, M_WIN),
        m == modifiers_spec(ctrl < 0, shift < 0, alt < 0, left_win < 0 || right_win < 0),
{
    let mut m: u8 = 0;
    if ctrl < 0 {
        m = m + M_CTRL;
    }
    if shift < 0 {
        m = m + M_SHIFT;
    }
    if alt < 0 {
        m = m + M_ALT;
    }
    if left_win < 0 || right_win < 0 {
        m = m + M_WIN;
    }
    m
}

// ---- window messages --------------------------------------------------------------------
pub const WM_DESTROY: u32 = 0x0002;

pub const WM_CLOSE: u32 = 0x0010;

pub const WM_DISPLAYCHANGE: u32 = 0x007E;

pub const WM_INPUT_DEVICE_CHANGE: u32 = 0x00FE;

pub const WM_INPUT: u32 = 0x00FF;

pub const WM_TIMER: u32 = 0x0113;

pub const WM_POWERBROADCAST: u32 = 0x0218;

pub const PBT_APMSUSPEND: u32 = 0x0004;

pub const PBT_APMRESUMESUSPEND: u32 = 0x0007;

pub const PBT_APMRESUMEAUTOMATIC: u32 = 0x0012;

pub const PBT_POWERSETTINGCHANGE: u32 = 0x8013;

/// What the hidden window of the capturing side is told.
#[derive(Clone, Copy, Debug, PartialEq, Eq, Structural)]
pub enum CaptureMessage {
    Input,
    DeviceChange,
    DisplayChange,
    Power,
    Sync,
    Close,
    Destroy,
    Other,
}

/// What a message says.
pub open spec fn message_spec(msg: u32, wparam: usize) -> CaptureMessage {
    if msg == WM_INPUT {
        CaptureMessage::Input
    } else if msg == WM_INPUT_DEVICE_CHANGE {
        CaptureMessage::DeviceChange
    } else if msg == WM_DISPLAYCHANGE {
        CaptureMessage::DisplayChange
    } else if msg == WM_POWERBROADCAST {
        CaptureMessage::Power
    } else if msg == WM_TIMER && wparam == SYNC_TIMER_ID {
        CaptureMessage::Sync
    } else if msg == WM_CLOSE {
        CaptureMessage::Close
    } else if msg == WM_DESTROY {
        CaptureMessage::Destroy
    } else {
        CaptureMessage::Other
    }
}

/// What a message says.
pub fn message_of(msg: u32, wparam: usize) -> (m: CaptureMessage)
    ensures
        m == message_spec(msg, wparam),
{
    if msg == WM_INPUT {
        CaptureMessage::Input
    } else if msg == WM_INPUT_DEVICE_CHANGE {
        CaptureMessage::DeviceChange
    } else if msg == WM_DISPLAYCHANGE {
        CaptureMessage::DisplayChange
    } else if msg == WM_POWERBROADCAST {
        CaptureMessage::Power
    } else if msg == WM_TIMER && wparam == SYNC_TIMER_ID {
        CaptureMessage::Sync
    } else if msg == WM_CLOSE {
        CaptureMessage::Close
    } else if msg == WM_DESTROY {
        CaptureMessage::Destroy
    } else {
        CaptureMessage::Other
    }
}

/// What to answer, and nothing where the system's own handling answers. A report
/// is handed on, because the system has to release its buffer; a power request is
/// granted.
pub fn reply_to(m: CaptureMessage) -> (r: Option<isize>)
    ensures
        r == match m {
            CaptureMessage::Input => None,
            CaptureMessage::Other => None,
            CaptureMessage::Power => Some(1isize),
            _ => Some(0isize),
        },
{
    match m {
        CaptureMessage::Input => None,
        CaptureMessage::Other => None,
        CaptureMessage::Power => Some(1),
        _ => Some(0),
    }
}

/// The name under which a power event is recorded, if it is.
pub open spec fn power_event_spec(code: u32) -> Option<Seq<char>> {
    if code == PBT_APMSUSPEND {
        Some("suspend"@)
    } else if code == PBT_APMRESUMEAUTOMATIC {
        Some("resume_automatic"@)
    } else if code == PBT_APMRESUMESUSPEND {
        Some("resume_user"@)
    } else if code == PBT_POWERSETTINGCHANGE {
        Some("display_state_change"@)
    } else {
        None
    }
}

/// The record of a power event, if it is recorded.
pub fn power_record(code: u32, t_ns: u64) -> (rec: Option<ContextRecord>)
    ensures
        match rec {
            Some(ContextRecord::Power { t_ns: t, event }) => t == t_ns && power_event_spec(code)
                == Some(event@),
            Some(_) => false,
            None => power_event_spec(code) is None,
        },
{
    let name = if code == PBT_APMSUSPEND {
        "suspend"
    } else if code == PBT_APMRESUMEAUTOMATIC {
        "resume_automatic"
    } else if code == PBT_APMRESUMESUSPEND {
        "resume_user"
    } else if code == PBT_POWERSETTINGCHANGE {
        "display_state_change"
    } else {
        return None;
    };
    Some(ContextRecord::Power { t_ns, event: name.to_owned() })
}

/// The record of a display change: the whole layout.
pub fn display_record(monitors: Vec<MonitorInfo>, t_ns: u64) -> (rec: ContextRecord)
    ensures
        rec == (ContextRecord::DisplayChange { t_ns, monitors }),
{
    ContextRecord::DisplayChange { t_ns, monitors }
}

// ---- laws -----------------------------------------------------------------------------

/// A transition changes the bit of its own button and no other.
pub proof fn law_transition_changes_one_button(held: u8, btn: u8, down: bool, other: u8)
    requires
        btn < 8,
        other < 8,
    ensures
        (held_after(held, btn, down) & (1u8 << btn) != 0) == down,
        other != btn ==> (held_after(held, btn, down) & (1u8 << other) != 0) == (held & (1u8
            << other) != 0),
{
    assert((held | (1u8 << btn)) & (1u8 << btn) != 0) by (bit_vector)
        requires
            btn < 8,
    ;
    assert((held & !(1u8 << btn)) & (1u8 << btn) == 0) by (bit_vector);
    if other != btn {
        assert(((held | (1u8 << btn)) & (1u8 << other) != 0) == (held & (1u8 << other) != 0))
            by (bit_vector)
            requires
                btn < 8,
                other < 8,
                other != btn,
        ;
        assert(((held & !(1u8 << btn)) & (1u8 << other) != 0) == (held & (1u8 << other) != 0))
            by (bit_vector)
            requires
                btn < 8,
                other < 8,
                other != btn,
        ;
    }
}

/// A report that moves no button and no wheel needs no modifiers, and none of its
/// events carries any.
pub proof fn law_modifiers_matter_only_where_needed(r: Report, a: Stamp, b: Stamp, held: u8)
    requires
        !needs_modifiers_spec(r.button_flags),
        a == (Stamp { mods: a.mods, ..b }),
    ensures
        report_events(r, a, held) == report_events(r, b, held),
        report_events(r, a, held) == move_events(r, a, held),
{
    let f = r.button_flags;
    assert(f & 0x0FFF == 0 ==> f & 0x0C00 == 0) by (bit_vector);
    lemma_no_transitions(r, a, held, 10);
    lemma_no_transitions(r, b, held, 10);
    assert(report_events(r, a, held) =~= move_events(r, a, held));
    assert(report_events(r, b, held) =~= move_events(r, b, held));
    assert(move_events(r, a, held) =~= move_events(r, b, held));
}

proof fn lemma_no_transitions(r: Report, s: Stamp, held: u8, n: int)
    requires
        r.button_flags & 0x0FFF == 0,
        n <= 10,
    ensures
        button_events(r, s, held, n).0.len() == 0,
        button_events(r, s, held, n).1 == held,
    decreases n,
{
    if n > 0 {
        lemma_no_transitions(r, s, held, n - 1);
        let f = r.button_flags;
        let bit = TRANSITIONS@[n - 1].0;
        assert(bit == 0x0001 || bit == 0x0002 || bit == 0x0004 || bit == 0x0008 || bit == 0x0010
            || bit == 0x0020 || bit == 0x0040 || bit == 0x0080 || bit == 0x0100 || bit == 0x0200);
        assert(f & bit == 0) by (bit_vector)
            requires
                f & 0x0FFF == 0,
                bit == 0x0001 || bit == 0x0002 || bit == 0x0004 || bit == 0x0008 || bit == 0x0010
                    || bit == 0x0020 || bit == 0x0040 || bit == 0x0080 || bit == 0x0100 || bit
                    == 0x0200,
        ;
    }
}

/// Every event of a report carries the stamp that was taken when it arrived, the
/// device that sent it and the one cursor position read for it.
pub proof fn law_events_of_a_report_share_its_stamp(r: Report, s: Stamp, held: u8)
    ensures
        forall|i: int|
            0 <= i < report_events(r, s, held).len() ==> {
                let e = #[trigger] report_events(r, s, held)[i];
                e.t_ns == s.t_ns && e.dev == s.dev && e.x == s.x && e.y == s.y
            },
{
    lemma_buttons_share_stamp(r, s, held, 10);
    let (buttons, after) = button_events(r, s, held, 10);
    let a = move_events(r, s, held);
    let c = wheel_events(r, s, after);
    assert forall|i: int| 0 <= i < report_events(r, s, held).len() implies ({
        let e = #[trigger] report_events(r, s, held)[i];
        e.t_ns == s.t_ns && e.dev == s.dev && e.x == s.x && e.y == s.y
    }) by {
        if a.len() <= i < a.len() + buttons.len() {
            assert(report_events(r, s, held)[i] == buttons[i - a.len()]);
        }
    }
}

proof fn lemma_buttons_share_stamp(r: Report, s: Stamp, held: u8, n: int)
    ensures
        forall|i: int|
            0 <= i < button_events(r, s, held, n).0.len() ==> {
                let e = #[trigger] button_events(r, s, held, n).0[i];
                e.t_ns == s.t_ns && e.dev == s.dev && e.x == s.x && e.y == s.y
            },
    decreases n,
{
    if n > 0 {
        lemma_buttons_share_stamp(r, s, held, n - 1);
        let earlier = button_events(r, s, held, n - 1).0;
        let all = button_events(r, s, held, n).0;
        assert forall|i: int| 0 <= i < all.len() implies ({
            let e = #[trigger] all[i];
            e.t_ns == s.t_ns && e.dev == s.dev && e.x == s.x && e.y == s.y
        }) by {
            if i < earlier.len() {
                assert(all[i] == earlier[i]);
            }
        }
    }
}

/// The flag of the transition with that number is set: even numbers press, odd ones
/// release, two for each button.
pub open spec fn tells_of(r: Report, k: u16) -> bool {
    (r.button_flags >> k) & 1 == 1
}

/// How many of the events are such transitions of that button.
pub open spec fn transitions_of(events: Seq<Event>, btn: int, down: bool) -> nat
    decreases events.len(),
{
    if events.len() == 0 {
        0
    } else {
        let e = events.last();
        transitions_of(events.drop_last(), btn, down) + if e.kind == 2 && e.btn == btn && (e.flags
            % 2 == 1) == down {
            1nat
        } else {
            0
        }
    }
}

proof fn lemma_transitions_add(a: Seq<Event>, b: Seq<Event>, btn: int, down: bool)
    ensures
        transitions_of(a + b, btn, down) == transitions_of(a, btn, down) + transitions_of(
            b,
            btn,
            down,
        ),
    decreases b.len(),
{
    if b.len() == 0 {
        assert(a + b =~= a);
    } else {
        assert((a + b).drop_last() =~= a + b.drop_last());
        lemma_transitions_add(a, b.drop_last(), btn, down);
    }
}

/// The table by number.
proof fn lemma_table(f: u16, i: int)
    requires
        0 <= i < 10,
    ensures
        TRANSITIONS@[i].1 == i / 2,
        TRANSITIONS@[i].2 == (i % 2 == 0),
        (f & TRANSITIONS@[i].0 != 0) == ((f >> (i as u16)) & 1 == 1),
{
    let k = i as u16;
    let bit = TRANSITIONS@[i].0;
    assert((f & bit != 0) == ((f >> k) & 1 == 1)) by (bit_vector)
        requires
            (k == 0 && bit == 0x0001) || (k == 1 && bit == 0x0002) || (k == 2 && bit == 0x0004) || (
            k == 3 && bit == 0x0008) || (k == 4 && bit == 0x0010) || (k == 5 && bit == 0x0020) || (k
                == 6 && bit == 0x0040) || (k == 7 && bit == 0x0080) || (k == 8 && bit == 0x0100)
                || (k == 9 && bit == 0x0200),
    ;
}

/// The flag in the report's flags that tells of absolute coordinates is the lowest.
proof fn lemma_absolute(f: u16)
    ensures
        (f & MOUSE_MOVE_ABSOLUTE_F != 0) == (f % 2 == 1),
{
    assert((f & 1 != 0) == (f % 2 == 1)) by (bit_vector);
}

/// What the parts of a report's events are.
proof fn lemma_parts(r: Report, s: Stamp, held: u8)
    requires
        s.flags % 2 == 0,
        s.flags <= 118,
    ensures
        ({
            let a = move_events(r, s, held);
            let (b, after) = button_events(r, s, held, 10);
            let c = wheel_events(r, s, after);
            &&& report_events(r, s, held) == a + b + c
            &&& a.len() <= 1 && c.len() <= 1
            &&& a.len() == 1 ==> a[0].kind == 1
            &&& c.len() == 1 ==> c[0].kind == 3
            &&& forall|i: int| 0 <= i < b.len() ==> (#[trigger] b[i]).kind == 2
        }),
{
    lemma_buttons_are_buttons(r, s, held, 10);
}

proof fn lemma_buttons_are_buttons(r: Report, s: Stamp, held: u8, n: int)
    requires
        s.flags % 2 == 0,
        s.flags <= 118,
        n <= 10,
    ensures
        forall|i: int|
            0 <= i < button_events(r, s, held, n).0.len() ==> {
                let e = #[trigger] button_events(r, s, held, n).0[i];
                &&& e.kind == 2
                &&& e.dx == 0 && e.dy == 0 && e.wheel == 0 && e.mods == s.mods
                &&& e.flags == s.flags || e.flags == s.flags + 1
            },
    decreases n,
{
    if n > 0 {
        lemma_buttons_are_buttons(r, s, held, n - 1);
        let earlier = button_events(r, s, held, n - 1).0;
        let all = button_events(r, s, held, n).0;
        assert forall|i: int| 0 <= i < all.len() implies ({
            let e = #[trigger] all[i];
            &&& e.kind == 2
            &&& e.dx == 0 && e.dy == 0 && e.wheel == 0 && e.mods == s.mods
            &&& e.flags == s.flags || e.flags == s.flags + 1
        }) by {
            if i < earlier.len() {
                assert(all[i] == earlier[i]);
            }
        }
    }
}

proof fn lemma_flags_stay_apart(r: Report, s: Stamp, held: u8)
    requires
        s.flags % 2 == 0,
        s.flags % 16 < 8,
        s.flags <= 118,
    ensures
        forall|i: int|
            0 <= i < report_events(r, s, held).len() ==> {
                let e = #[trigger] report_events(r, s, held)[i];
                e.flags / 64 == s.flags / 64
            },
{
    let events = report_events(r, s, held);
    let a = move_events(r, s, held);
    let (b, after) = button_events(r, s, held, 10);
    lemma_parts(r, s, held);
    lemma_buttons_are_buttons(r, s, held, 10);
    assert forall|i: int| 0 <= i < events.len() implies ({
        let e = #[trigger] events[i];
        e.flags / 64 == s.flags / 64
    }) by {
        if a.len() <= i < a.len() + b.len() {
            assert(events[i] == b[i - a.len()]);
        }
    }
}

/// What a report adds to the queue.
proof fn lemma_report_is_queued(
    before: RingState,
    c: Capture,
    t_ns: u64,
    r: Report,
    cursor: Option<(i32, i32)>,
    mods: u8,
)
    requires
        before.queue.len() <= 65536,
    ensures
        ({
            let was = before.queue;
            let is = before.pushed_all(
                report_events(r, c.stamp(t_ns, r, cursor, mods), c.held),
            ).queue;
            let still = r.dx == 0 && r.dy == 0 && r.flags % 2 == 0;
            &&& was.is_prefix_of(is)
            &&& !still && was.len() < 65536 ==> is.len() > was.len() && is[was.len() as int].kind
                == 1 && is[was.len() as int].dx == r.dx && is[was.len() as int].dy == r.dy
            &&& forall|j: int|
                was.len() <= j < is.len() && (#[trigger] is[j]).kind == 1 ==> j == was.len()
                    && !still
            &&& forall|j: int|
                was.len() <= j < is.len() ==> {
                    let e = #[trigger] is[j];
                    &&& e.t_ns == t_ns
                    &&& cursor matches Some(p) ==> e.x == p.0 && e.y == p.1 && e.flags < 64
                    &&& cursor is None ==> e.x == c.last_pos.0 && e.y == c.last_pos.1 && 64
                        <= e.flags < 128
                    &&& c.devices@.by_handle.contains_key(r.handle) ==> e.dev
                        == c.devices@.by_handle[r.handle]
                    &&& !c.devices@.by_handle.contains_key(r.handle) ==> e.dev == 0
                }
        }),
{
    let s = c.stamp(t_ns, r, cursor, mods);
    let sent = report_events(r, s, c.held);
    let was = before.queue;
    let is = before.pushed_all(sent).queue;
    crate::ring::law_offered_events_queue_up(before, sent);
    law_flags_tell_how_a_report_came(r.flags, cursor is None);
    law_every_displacement_is_recorded_once(r, s, c.held);
    law_events_of_a_report_share_its_stamp(r, s, c.held);
    lemma_flags_stay_apart(r, s, c.held);
    assert forall|j: int| was.len() <= j < is.len() implies #[trigger] is[j] == sent[j
        - was.len()] by {}
}

/// Any displacement is recorded, on whichever axis, and so is every report with absolute
/// coordinates: by exactly one motion event, the first of the report, with the report's
/// own displacement and the buttons held before. No other report yields a motion event.
pub proof fn law_every_displacement_is_recorded_once(r: Report, s: Stamp, held: u8)
    requires
        s.flags % 2 == 0,
        s.flags <= 118,
    ensures
        ({
            let events = report_events(r, s, held);
            let still = r.dx == 0 && r.dy == 0 && r.flags % 2 == 0;
            &&& !still ==> events.len() > 0 && events[0].kind == 1 && events[0].dx == r.dx
                && events[0].dy == r.dy && events[0].bstate == held && events[0].flags == s.flags
            &&& forall|i: int|
                0 <= i < events.len() && (#[trigger] events[i]).kind == 1 ==> i == 0 && !still
            &&& forall|i: int|
                0 <= i < events.len() && (#[trigger] events[i]).kind != 1 ==> events[i].dx == 0
                    && events[i].dy == 0
        }),
{
    let events = report_events(r, s, held);
    let a = move_events(r, s, held);
    let (b, after) = button_events(r, s, held, 10);
    lemma_absolute(r.flags);
    lemma_parts(r, s, held);
    lemma_buttons_are_buttons(r, s, held, 10);
    assert forall|i: int| 0 <= i < events.len() implies ({
        let e = #[trigger] events[i];
        &&& e.kind == 1 <==> i < a.len()
        &&& e.kind != 1 ==> e.dx == 0 && e.dy == 0
    }) by {
        if a.len() <= i < a.len() + b.len() {
            assert(events[i] == b[i - a.len()]);
        }
    }
}

/// Every press and every release that a report tells of is recorded by exactly one event,
/// under its own button, and none that it does not tell of.
pub proof fn law_every_transition_is_recorded_once(r: Report, s: Stamp, held: u8, k: u16)
    requires
        s.flags % 2 == 0,
        s.flags <= 118,
        k < 10,
    ensures
        transitions_of(report_events(r, s, held), k as int / 2, k % 2 == 0) == if tells_of(r, k) {
            1nat
        } else {
            0
        },
{
    let (btn, down) = (k as int / 2, k % 2 == 0);
    let a = move_events(r, s, held);
    let (b, after) = button_events(r, s, held, 10);
    let c = wheel_events(r, s, after);
    lemma_parts(r, s, held);
    lemma_transitions_add(a + b, c, btn, down);
    lemma_transitions_add(a, b, btn, down);
    lemma_count_of_transition(r, s, held, k, 10);
    reveal_with_fuel(transitions_of, 2);
}

proof fn lemma_count_of_transition(r: Report, s: Stamp, held: u8, k: u16, n: int)
    requires
        s.flags % 2 == 0,
        s.flags <= 118,
        k < 10,
        0 <= n <= 10,
    ensures
        transitions_of(button_events(r, s, held, n).0, k as int / 2, k % 2 == 0) == if k < n
            && tells_of(r, k) {
            1nat
        } else {
            0
        },
    decreases n,
{
    if n > 0 {
        lemma_count_of_transition(r, s, held, k, n - 1);
        lemma_table(r.button_flags, n - 1);
        let earlier = button_events(r, s, held, n - 1).0;
        let all = button_events(r, s, held, n).0;
        if all.len() > earlier.len() {
            assert(all.drop_last() =~= earlier);
        }
    }
}

/// Behind a report the buttons are held that it pressed and did not release, and those
/// held before that it does not tell of. No other bit changes.
pub proof fn law_held_buttons_follow_the_transitions(r: Report, s: Stamp, held: u8, b: u8)
    requires
        b < 8,
    ensures
        ({
            let after = button_events(r, s, held, 10).1;
            let pressed = b < 5 && tells_of(r, (2 * b) as u16);
            let released = b < 5 && tells_of(r, (2 * b + 1) as u16);
            (after & (1u8 << b) != 0) == (!released && (pressed || held & (1u8 << b) != 0))
        }),
{
    lemma_held_bit(r, s, held, b, 10);
}

proof fn lemma_held_bit(r: Report, s: Stamp, held: u8, b: u8, n: int)
    requires
        b < 8,
        0 <= n <= 10,
    ensures
        ({
            let after = button_events(r, s, held, n).1;
            let pressed = b < 5 && 2 * b < n && tells_of(r, (2 * b) as u16);
            let released = b < 5 && 2 * b + 1 < n && tells_of(r, (2 * b + 1) as u16);
            (after & (1u8 << b) != 0) == (!released && (pressed || held & (1u8 << b) != 0))
        }),
    decreases n,
{
    if n > 0 {
        lemma_held_bit(r, s, held, b, n - 1);
        lemma_table(r.button_flags, n - 1);
        let before = button_events(r, s, held, n - 1).1;
        let (_, btn, down) = TRANSITIONS@[n - 1];
        law_transition_changes_one_button(before, btn, down, b);
    }
}

/// The event at that place of a report's events, and the buttons held before it.
proof fn lemma_held_at(r: Report, s: Stamp, held: u8, i: int)
    requires
        s.flags % 2 == 0,
        s.flags <= 118,
        0 <= i < report_events(r, s, held).len(),
    ensures
        ({
            let events = report_events(r, s, held);
            let e = events[i];
            let before = if i == 0 {
                held
            } else {
                events[i - 1].bstate
            };
            &&& e.kind == 2 ==> e.btn < 5 && e.bstate == held_after(before, e.btn, e.flags % 2 == 1)
            &&& e.kind != 2 ==> e.bstate == before
        }),
{
    let events = report_events(r, s, held);
    let a = move_events(r, s, held);
    let (buttons, after) = button_events(r, s, held, 10);
    lemma_parts(r, s, held);
    lemma_bstates(r, s, held, 10);
    if a.len() <= i < a.len() + buttons.len() {
        let j = i - a.len();
        assert(goes_on_from(buttons, held, j));
        assert(events[i] == buttons[j]);
        if j > 0 {
            assert(events[i - 1] == buttons[j - 1]);
        }
    } else if i >= a.len() + buttons.len() && buttons.len() > 0 {
        assert(events[i - 1] == buttons[buttons.len() - 1]);
    }
}

/// The buttons that an event says are held are those behind it: a transition changes the
/// bit of its own button, motion and wheel none.
pub proof fn law_events_tell_the_buttons_held(r: Report, s: Stamp, held: u8, i: int, b: u8)
    requires
        s.flags % 2 == 0,
        s.flags <= 118,
        b < 8,
        0 <= i < report_events(r, s, held).len(),
    ensures
        ({
            let events = report_events(r, s, held);
            let e = events[i];
            let before = if i == 0 {
                held
            } else {
                events[i - 1].bstate
            };
            (e.bstate & (1u8 << b) != 0) == if e.kind == 2 && e.btn == b {
                e.flags % 2 == 1
            } else {
                before & (1u8 << b) != 0
            }
        }),
{
    let events = report_events(r, s, held);
    let e = events[i];
    let before = if i == 0 {
        held
    } else {
        events[i - 1].bstate
    };
    lemma_held_at(r, s, held, i);
    if e.kind == 2 {
        law_transition_changes_one_button(before, e.btn, e.flags % 2 == 1, b);
    }
}

/// The last event of a report says which buttons are held from then on.
pub proof fn law_last_event_tells_what_stays_held(r: Report, s: Stamp, held: u8)
    requires
        s.flags % 2 == 0,
        s.flags <= 118,
        report_events(r, s, held).len() > 0,
    ensures
        report_events(r, s, held).last().bstate == button_events(r, s, held, 10).1,
{
    let events = report_events(r, s, held);
    let a = move_events(r, s, held);
    let (buttons, after) = button_events(r, s, held, 10);
    lemma_parts(r, s, held);
    lemma_bstates(r, s, held, 10);
    if events.len() == a.len() + buttons.len() && buttons.len() > 0 {
        assert(events.last() == buttons.last());
    }
}

/// The transition at that place says which buttons are held behind it.
spec fn goes_on_from(events: Seq<Event>, held: u8, j: int) -> bool {
    let before = if j == 0 {
        held
    } else {
        events[j - 1].bstate
    };
    &&& events[j].btn < 5
    &&& events[j].bstate == held_after(before, events[j].btn, events[j].flags % 2 == 1)
}

proof fn lemma_bstates(r: Report, s: Stamp, held: u8, n: int)
    requires
        s.flags % 2 == 0,
        s.flags <= 118,
        0 <= n <= 10,
    ensures
        ({
            let (events, after) = button_events(r, s, held, n);
            &&& events.len() == 0 ==> after == held
            &&& events.len() > 0 ==> after == events.last().bstate
            &&& forall|j: int| 0 <= j < events.len() ==> #[trigger] goes_on_from(events, held, j)
        }),
    decreases n,
{
    if n > 0 {
        lemma_bstates(r, s, held, n - 1);
        lemma_table(r.button_flags, n - 1);
        let (earlier, before) = button_events(r, s, held, n - 1);
        let (all, after) = button_events(r, s, held, n);
        assert forall|j: int| 0 <= j < all.len() implies #[trigger] goes_on_from(all, held, j) by {
            if j < earlier.len() {
                assert(goes_on_from(earlier, held, j));
                assert(all[j] == earlier[j]);
                if j > 0 {
                    assert(all[j - 1] == earlier[j - 1]);
                }
            } else if j > 0 {
                assert(all[j - 1] == earlier.last());
            }
        }
    }
}

/// A wheel detent, upright or sideways, is recorded by exactly one event, the last of the
/// report, with the signed amount that the report holds and marked where it is sideways.
/// No other report yields a wheel event, and no other event an amount.
pub proof fn law_every_detent_is_recorded_once(r: Report, s: Stamp, held: u8)
    requires
        s.flags % 2 == 0,
        s.flags % 16 < 8,
        s.flags <= 118,
    ensures
        ({
            let events = report_events(r, s, held);
            let upright = (r.button_flags >> 10) & 1 == 1;
            let sideways = (r.button_flags >> 11) & 1 == 1;
            &&& upright || sideways ==> events.len() > 0 && events.last().kind == 3 && (
            events.last().wheel - r.button_data) % 65536 == 0 && events.last().mods == s.mods
                && events.last().flags == s.flags + if sideways {
                8int
            } else {
                0
            }
            &&& forall|i: int|
                0 <= i < events.len() && (#[trigger] events[i]).kind == 3 ==> i == events.len() - 1
                    && (upright || sideways)
            &&& forall|i: int|
                0 <= i < events.len() && (#[trigger] events[i]).kind != 3 ==> events[i].wheel == 0
        }),
{
    let events = report_events(r, s, held);
    let a = move_events(r, s, held);
    let (b, after) = button_events(r, s, held, 10);
    let f = r.button_flags;
    assert((f & 0x0C00 != 0) == ((f >> 10) & 1 == 1 || (f >> 11) & 1 == 1)) by (bit_vector);
    assert((f & 0x0800 != 0) == ((f >> 11) & 1 == 1)) by (bit_vector);
    lemma_parts(r, s, held);
    lemma_buttons_are_buttons(r, s, held, 10);
    assert forall|i: int| 0 <= i < events.len() implies ({
        let e = #[trigger] events[i];
        &&& e.kind == 3 <==> i >= a.len() + b.len()
        &&& e.kind != 3 ==> e.wheel == 0
    }) by {
        if a.len() <= i < a.len() + b.len() {
            assert(events[i] == b[i - a.len()]);
        }
    }
}

/// The events of a report come in order: motion, transitions, wheel. Motion carries no
/// modifiers; transitions and the wheel carry those that were read.
pub proof fn law_events_of_a_report_come_in_order(r: Report, s: Stamp, held: u8)
    requires
        s.flags % 2 == 0,
        s.flags <= 118,
    ensures
        ({
            let events = report_events(r, s, held);
            &&& forall|i: int, j: int|
                0 <= i < j < events.len() ==> (#[trigger] events[i]).kind <= (
                #[trigger] events[j]).kind
            &&& forall|i: int|
                0 <= i < events.len() ==> 1 <= (#[trigger] events[i]).kind <= 3 && events[i].mods
                    == if events[i].kind == 1 {
                    0
                } else {
                    s.mods
                }
            &&& forall|i: int|
                0 <= i < events.len() ==> ((#[trigger] events[i]).kind == 2 <==> events[i].btn
                    != 0xFF)
        }),
{
    let events = report_events(r, s, held);
    let a = move_events(r, s, held);
    let (b, after) = button_events(r, s, held, 10);
    lemma_parts(r, s, held);
    lemma_buttons_are_buttons(r, s, held, 10);
    lemma_bstates(r, s, held, 10);
    assert forall|i: int| 0 <= i < events.len() implies ({
        let e = #[trigger] events[i];
        &&& e.kind == 1 <==> i < a.len()
        &&& e.kind == 3 <==> i >= a.len() + b.len()
        &&& 1 <= e.kind <= 3
        &&& e.mods == if e.kind == 1 {
            0
        } else {
            s.mods
        }
        &&& e.kind == 2 <==> e.btn != 0xFF
    }) by {
        if a.len() <= i < a.len() + b.len() {
            assert(goes_on_from(b, held, i - a.len()));
            assert(events[i] == b[i - a.len()]);
        }
    }
}

/// What a report says of its coordinates, and whether the cursor could be read, shows in
/// the flags that its events share, each in a bit of its own.
pub proof fn law_flags_tell_how_a_report_came(flags: u16, stale: bool)
    ensures
        ({
            let b = base_flags_spec(flags, stale);
            &&& b <= 118 && b % 2 == 0 && b % 16 < 8
            &&& (b / 2 % 2 == 1) == (flags % 2 == 1)
            &&& (b / 4 % 2 == 1) == (flags / 2 % 2 == 1)
            &&& (b / 16 % 2 == 1) == (flags / 4 % 2 == 1)
            &&& (b / 32 % 2 == 1) == (flags / 8 % 2 == 1)
            &&& (b / 64 % 2 == 1) == stale
        }),
{
    assert((flags & 1 != 0) == (flags % 2 == 1)) by (bit_vector);
    assert((flags & 2 != 0) == (flags / 2 % 2 == 1)) by (bit_vector);
    assert((flags & 4 != 0) == (flags / 4 % 2 == 1)) by (bit_vector);
    assert((flags & 8 != 0) == (flags / 8 % 2 == 1)) by (bit_vector);
}

/// Modifiers are asked for exactly where a transition or a detent is told of.
pub proof fn law_modifiers_are_read_for_buttons_and_wheel(r: Report)
    ensures
        needs_modifiers_spec(r.button_flags) <==> exists|k: u16| k < 12 && #[trigger] tells_of(r, k),
{
    let f = r.button_flags;
    assert(f & 0x0FFF != 0 ==> (f >> 0u16) & 1 == 1 || (f >> 1u16) & 1 == 1 || (f >> 2u16) & 1 == 1
        || (f >> 3u16) & 1 == 1 || (f >> 4u16) & 1 == 1 || (f >> 5u16) & 1 == 1 || (f >> 6u16) & 1
        == 1 || (f >> 7u16) & 1 == 1 || (f >> 8u16) & 1 == 1 || (f >> 9u16) & 1 == 1 || (f >> 10u16)
        & 1 == 1 || (f >> 11u16) & 1 == 1) by (bit_vector);
    assert forall|k: u16| k < 12 && #[trigger] tells_of(r, k) implies f & 0x0FFF != 0 by {
        assert(k < 12 && (f >> k) & 1 == 1 ==> f & 0x0FFF != 0) by (bit_vector);
    }
    if (f >> 0u16) & 1 == 1 {
        assert(tells_of(r, 0));
    }
    if (f >> 1u16) & 1 == 1 {
        assert(tells_of(r, 1));
    }
    if (f >> 2u16) & 1 == 1 {
        assert(tells_of(r, 2));
    }
    if (f >> 3u16) & 1 == 1 {
        assert(tells_of(r, 3));
    }
    if (f >> 4u16) & 1 == 1 {
        assert(tells_of(r, 4));
    }
    if (f >> 5u16) & 1 == 1 {
        assert(tells_of(r, 5));
    }
    if (f >> 6u16) & 1 == 1 {
        assert(tells_of(r, 6));
    }
    if (f >> 7u16) & 1 == 1 {
        assert(tells_of(r, 7));
    }
    if (f >> 8u16) & 1 == 1 {
        assert(tells_of(r, 8));
    }
    if (f >> 9u16) & 1 == 1 {
        assert(tells_of(r, 9));
    }
    if (f >> 10u16) & 1 == 1 {
        assert(tells_of(r, 10));
    }
    if (f >> 11u16) & 1 == 1 {
        assert(tells_of(r, 11));
    }
}

/// An anchor is an event of its own kind that moves nothing: it says where the cursor is
/// and which buttons are held, and is marked where the position is an old one.
pub proof fn law_anchors_tell_the_position(t_ns: u64, stale: bool, x: i32, y: i32, held: u8)
    ensures
        ({
            let e = sync_event(t_ns, stale, x, y, held);
            &&& e.kind == 4 && e.t_ns == t_ns && e.x == x && e.y == y && e.bstate == held
            &&& e.dx == 0 && e.dy == 0 && e.wheel == 0 && e.btn == 0xFF
            &&& (e.flags / 64 % 2 == 1) == stale && e.flags % 64 == 0
        }),
{
}

/// The position is what was read now, and only where nothing was the one known before.
pub proof fn law_a_fresh_position_counts(x: i32, y: i32, last: (i32, i32))
    ensures
        cursor_or(Some((x, y)), last) == (x, y),
        cursor_or(None, last) == last,
{
}

/// Each message that the capturing window hears means one thing.
pub proof fn law_messages_are_told_apart(msg: u32, wparam: usize)
    ensures
        message_spec(msg, wparam) is Input <==> msg == 0xFF,
        message_spec(msg, wparam) is DeviceChange <==> msg == 0xFE,
        message_spec(msg, wparam) is DisplayChange <==> msg == 0x7E,
        message_spec(msg, wparam) is Power <==> msg == 0x218,
        message_spec(msg, wparam) is Sync <==> msg == 0x113 && wparam == 1,
        message_spec(msg, wparam) is Close <==> msg == 0x10,
        message_spec(msg, wparam) is Destroy <==> msg == 0x02,
{
}

/// Going to sleep, both ways of waking up and a change of the display's power are
/// recorded under names of their own, and nothing else is.
pub proof fn law_power_events_are_told_apart(code: u32)
    ensures
        power_event_spec(code) == Some("suspend"@) <==> code == 4,
        power_event_spec(code) == Some("resume_user"@) <==> code == 7,
        power_event_spec(code) == Some("resume_automatic"@) <==> code == 18,
        power_event_spec(code) == Some("display_state_change"@) <==> code == 0x8013,
        power_event_spec(code) is None <==> code != 4 && code != 7 && code != 18 && code != 0x8013,
        crate::text::starts_with_spec(
            match power_event_spec(code) {
                Some(name) => name,
                None => seq![],
            },
            "resume"@,
        ) <==> code == 7 || code == 18,
{
    reveal_strlit("suspend");
    reveal_strlit("resume_user");
    reveal_strlit("resume_automatic");
    reveal_strlit("display_state_change");
    reveal_strlit("resume");
    assert("resume_user"@.take(6) =~= "resume"@);
    assert("resume_automatic"@.take(6) =~= "resume"@);
    assert("suspend"@.take(6)[0] != "resume"@[0]);
    assert("display_state_change"@.take(6)[0] != "resume"@[0]);
    assert("suspend"@[0] != "resume_user"@[0]);
    assert("resume_user"@.len() != "resume_automatic"@.len());
    assert("suspend"@.len() != "resume_automatic"@.len());
    assert("display_state_change"@.len() != "resume_automatic"@.len());
    assert("display_state_change"@.len() != "suspend"@.len());
    assert("display_state_change"@.len() != "resume_user"@.len());
}

/// A report is one of a mouse where something was read of it, reading it did not fail, and
/// the device is a mouse.
pub proof fn law_only_mice_that_could_be_read_report(bytes: u32, kind: u32)
    ensures
        is_mouse_report(bytes, kind) <==> 1 <= bytes && bytes < 0xFFFF_FFFF && kind == 0,
{
}

/// Each modifier that is down shows in a bit of its own, and no other bit is set.
pub proof fn law_each_modifier_has_its_bit(ctrl: bool, shift: bool, alt: bool, win: bool)
    ensures
        ({
            let m = modifiers_spec(ctrl, shift, alt, win);
            &&& (m % 2 == 1) == ctrl
            &&& (m / 2 % 2 == 1) == shift
            &&& (m / 4 % 2 == 1) == alt
            &&& (m / 8 % 2 == 1) == win
            &&& m < 16
        }),
{
}

} // verus!
