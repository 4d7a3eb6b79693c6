//! The capture record.
//!
//! Fixed-size and `Copy`, so that the capture path can copy one into the ring
//! with no allocation and no branching on length.
//!
//! Foreground process, window title, monitor and modifier state are not in here
//! event by event: they are recorded as sideband context on the same timeline
//! whenever they change, and joined to events by timestamp during analysis.

use vstd::prelude::*;

use crate::le::{read16, read32, read64, to_bits16, to_bits32, to_signed16, to_signed32};

verus! {

/// Relative pointer motion reported by the device.
pub const EV_MOVE: u8 = 1;

/// Button transition (down or up, see `F_DOWN`).
pub const EV_BUTTON: u8 = 2;

/// Wheel detent (vertical, or horizontal when `F_HWHEEL` is set).
pub const EV_WHEEL: u8 = 3;

/// Periodic absolute-position sample, so that integrated raw deltas can be
/// anchored against the true cursor position. Not a device event.
pub const EV_SYNC: u8 = 4;

// ---- flags ------------------------------------------------------------------
/// Button transition direction: set for a press, clear for a release.
pub const F_DOWN: u8 = 1;

/// The device reported absolute coordinates rather than relative deltas.
pub const F_ABSOLUTE: u8 = 2;

/// Absolute coordinates are relative to the whole virtual desktop.
pub const F_VIRTUALDESK: u8 = 4;

/// Horizontal wheel rather than vertical.
pub const F_HWHEEL: u8 = 8;

/// Device attributes changed mid-stream.
pub const F_ATTRCHANGED: u8 = 16;

/// The device asked not to coalesce this movement.
pub const F_NOCOALESCE: u8 = 32;

/// The cursor position could not be read for this event; x and y are stale.
pub const F_POS_STALE: u8 = 64;

// ---- button ids ---------------------------------------------------------------
pub const B_LEFT: u8 = 0;

pub const B_RIGHT: u8 = 1;

pub const B_MIDDLE: u8 = 2;

pub const B_X1: u8 = 3;

pub const B_X2: u8 = 4;

pub const B_NONE: u8 = 0xFF;

// ---- modifier bitmask (sampled on button and wheel events only) ---------------
pub const M_CTRL: u8 = 1;

pub const M_SHIFT: u8 = 2;

pub const M_ALT: u8 = 4;

pub const M_WIN: u8 = 8;

/// Bytes that one event takes.
pub const EVENT_SIZE: usize = 32;

/// One captured event, 32 bytes when stored.
///
/// `dx` and `dy` are `i32` on purpose: a fast flick of a high-resolution sensor
/// reports more counts than an `i16` can hold.
#[derive(Clone, Copy, Debug, PartialEq, Eq, Structural)]
pub struct Event {
    /// Nanoseconds on the process clock, taken when the report arrived.
    pub t_ns: u64,
    pub kind: u8,
    pub flags: u8,
    /// Index into the session's device table.
    pub dev: u8,
    /// Button id for `EV_BUTTON`, else `B_NONE`.
    pub btn: u8,
    /// Raw device delta in mouse counts, before pointer ballistics.
    pub dx: i32,
    pub dy: i32,
    /// Cursor position in virtual-desktop pixels, read when the report was
    /// handled: an approximation of where it was when the report arrived.
    pub x: i32,
    pub y: i32,
    /// Wheel detents times 120, signed. `EV_WHEEL` only.
    pub wheel: i16,
    /// Modifier bitmask. Sampled only on `EV_BUTTON` and `EV_WHEEL`.
    pub mods: u8,
    /// Bitmask of the buttons held, by `B_*` bit position.
    pub bstate: u8,
}

impl Default for Event {
    fn default() -> (e: Self)
        ensures
            e == Event::blank(),
    {
        Event {
            t_ns: 0,
            kind: 0,
            flags: 0,
            dev: 0,
            btn: 0,
            dx: 0,
            dy: 0,
            x: 0,
            y: 0,
            wheel: 0,
            mods: 0,
            bstate: 0,
        }
    }
}

impl Event {
    /// The event with every field zero.
    pub open spec fn blank() -> Event {
        Event {
            t_ns: 0,
            kind: 0,
            flags: 0,
            dev: 0,
            btn: 0,
            dx: 0,
            dy: 0,
            x: 0,
            y: 0,
            wheel: 0,
            mods: 0,
            bstate: 0,
        }
    }

    /// The stored form: the fields in declaration order, each little-endian.
    pub open spec fn encoded(self) -> Seq<u8> {
        crate::le::le64(self.t_ns) + seq![self.kind, self.flags, self.dev, self.btn]
            + crate::le::le32(crate::le::bits32(self.dx)) + crate::le::le32(
            crate::le::bits32(self.dy),
        ) + crate::le::le32(crate::le::bits32(self.x)) + crate::le::le32(
            crate::le::bits32(self.y),
        ) + crate::le::le16(crate::le::bits16(self.wheel)) + seq![self.mods, self.bstate]
    }

    /// The event whose stored form begins at `at` in `b`.
    pub open spec fn decoded(b: Seq<u8>, at: int) -> Event {
        Event {
            t_ns: crate::le::value64(b, at),
            kind: b[at + 8],
            flags: b[at + 9],
            dev: b[at + 10],
            btn: b[at + 11],
            dx: crate::le::signed32(crate::le::value32(b, at + 12)),
            dy: crate::le::signed32(crate::le::value32(b, at + 16)),
            x: crate::le::signed32(crate::le::value32(b, at + 20)),
            y: crate::le::signed32(crate::le::value32(b, at + 24)),
            wheel: crate::le::signed16(crate::le::value16(b, at + 28)),
            mods: b[at + 30],
            bstate: b[at + 31],
        }
    }

    /// The name of the event's kind.
    pub open spec fn kind_name_spec(kind: u8) -> Seq<char> {
        if kind == EV_MOVE {
            "move"@
        } else if kind == EV_BUTTON {
            "button"@
        } else if kind == EV_WHEEL {
            "wheel"@
        } else if kind == EV_SYNC {
            "sync"@
        } else {
            "?"@
        }
    }

    /// The 32 bytes that store this event.
    pub fn to_bytes(&self) -> (b: [u8; EVENT_SIZE])
        ensures
            b@ == self.encoded(),
    {
        let mut b: [u8; EVENT_SIZE] = [0u8; EVENT_SIZE];
        let t = self.t_ns;
        put32(&mut b, 0, (t % 0x1_0000_0000) as u32);
        put32(&mut b, 4, (t / 0x1_0000_0000) as u32);
        b[8] = self.kind;
        b[9] = self.flags;
        b[10] = self.dev;
        b[11] = self.btn;
        put32(&mut b, 12, to_bits32(self.dx));
        put32(&mut b, 16, to_bits32(self.dy));
        put32(&mut b, 20, to_bits32(self.x));
        put32(&mut b, 24, to_bits32(self.y));
        let w = to_bits16(self.wheel);
        b[28] = (w % 256) as u8;
        b[29] = (w / 256) as u8;
        b[30] = self.mods;
        b[31] = self.bstate;
        assert(b@ =~= self.encoded());
        b
    }

    /// The event that 32 bytes store. What follows them is ignored.
    pub fn from_bytes(b: &[u8]) -> (e: Self)
        requires
            b@.len() >= EVENT_SIZE,
        ensures
            e == Event::decoded(b@, 0),
    {
        Self::from_bytes_at(b, 0)
    }

    /// The event whose stored form begins at `at`.
    pub fn from_bytes_at(b: &[u8], at: usize) -> (e: Self)
        requires
            at + EVENT_SIZE <= b@.len(),
        ensures
            e == Event::decoded(b@, at as int),
    {
        assert(b@.len() == b.len());
        Event {
            t_ns: read64(b, at),
            kind: b[at + 8],
            flags: b[at + 9],
            dev: b[at + 10],
            btn: b[at + 11],
            dx: to_signed32(read32(b, at + 12)),
            dy: to_signed32(read32(b, at + 16)),
            x: to_signed32(read32(b, at + 20)),
            y: to_signed32(read32(b, at + 24)),
            wheel: to_signed16(read16(b, at + 28)),
            mods: b[at + 30],
            bstate: b[at + 31],
        }
    }

    /// The name of the event's kind.
    pub fn kind_name(&self) -> (s: &'static str)
        ensures
            s@ == Event::kind_name_spec(self.kind),
    {
        if self.kind == EV_MOVE {
            "move"
        } else if self.kind == EV_BUTTON {
            "button"
        } else if self.kind == EV_WHEEL {
            "wheel"
        } else if self.kind == EV_SYNC {
            "sync"
        } else {
            "?"
        }
    }
}

fn put32(b: &mut [u8; EVENT_SIZE], at: usize, n: u32)
    requires
        at + 4 <= EVENT_SIZE,
    ensures
        forall|i: int|
            #![trigger final(b)@[i]]
            0 <= i < EVENT_SIZE ==> final(b)@[i] == if at <= i < at + 4 {
                crate::le::le32(n)[i - at]
            } else {
                old(b)@[i]
            },
{
    let lo = (n % 0x1_0000) as u16;
    let hi = (n / 0x1_0000) as u16;
    b[at] = (lo % 256) as u8;
    b[at + 1] = (lo / 256) as u8;
    b[at + 2] = (hi % 256) as u8;
    b[at + 3] = (hi / 256) as u8;
}

/// The name of a button.
pub open spec fn button_name_spec(b: u8) -> Seq<char> {
    if b == B_LEFT {
        "left"@
    } else if b == B_RIGHT {
        "right"@
    } else if b == B_MIDDLE {
        "middle"@
    } else if b == B_X1 {
        "x1"@
    } else if b == B_X2 {
        "x2"@
    } else {
        "none"@
    }
}

/// The name of a button.
pub fn button_name(b: u8) -> (s: &'static str)
    ensures
        s@ == button_name_spec(b),
{
    if b == B_LEFT {
        "left"
    } else if b == B_RIGHT {
        "right"
    } else if b == B_MIDDLE {
        "middle"
    } else if b == B_X1 {
        "x1"
    } else if b == B_X2 {
        "x2"
    } else {
        "none"
    }
}

// ---- laws ---------------------------------------------------------------------

/// Storing an event and reading it back preserves every field, wherever in a
/// byte sequence the stored form stands.
pub proof fn law_stored_event_reads_back(e: Event, b: Seq<u8>, at: int)
    requires
        0 <= at,
        at + EVENT_SIZE <= b.len(),
        b.subrange(at, at + EVENT_SIZE) == e.encoded(),
    ensures
        Event::decoded(b, at) == e,
        e.encoded().len() == EVENT_SIZE,
{
    let s = b.subrange(at, at + EVENT_SIZE);
    assert(forall|i: int| 0 <= i < EVENT_SIZE ==> s[i] == b[at + i]);
    assert(b.subrange(at, at + 8) =~= s.subrange(0, 8));
    assert(s.subrange(0, 8) =~= crate::le::le64(e.t_ns));
    crate::le::lemma_le64(b, at, e.t_ns);
    assert(b.subrange(at + 12, at + 16) =~= crate::le::le32(crate::le::bits32(e.dx))) by {
        assert(b.subrange(at + 12, at + 16) =~= s.subrange(12, 16));
    }
    crate::le::lemma_le32(b, at + 12, crate::le::bits32(e.dx));
    assert(b.subrange(at + 16, at + 20) =~= crate::le::le32(crate::le::bits32(e.dy))) by {
        assert(b.subrange(at + 16, at + 20) =~= s.subrange(16, 20));
    }
    crate::le::lemma_le32(b, at + 16, crate::le::bits32(e.dy));
    assert(b.subrange(at + 20, at + 24) =~= crate::le::le32(crate::le::bits32(e.x))) by {
        assert(b.subrange(at + 20, at + 24) =~= s.subrange(20, 24));
    }
    crate::le::lemma_le32(b, at + 20, crate::le::bits32(e.x));
    assert(b.subrange(at + 24, at + 28) =~= crate::le::le32(crate::le::bits32(e.y))) by {
        assert(b.subrange(at + 24, at + 28) =~= s.subrange(24, 28));
    }
    crate::le::lemma_le32(b, at + 24, crate::le::bits32(e.y));
    assert(b.subrange(at + 28, at + 30) =~= crate::le::le16(crate::le::bits16(e.wheel))) by {
        assert(b.subrange(at + 28, at + 30) =~= s.subrange(28, 30));
    }
    crate::le::lemma_le16(b, at + 28, crate::le::bits16(e.wheel));
    assert(b[at + 8] == s[8] && b[at + 9] == s[9] && b[at + 10] == s[10] && b[at + 11] == s[11]);
    assert(b[at + 30] == s[30] && b[at + 31] == s[31]);
}

/// Any 32 bytes are the stored form of exactly the event they decode to: the
/// format has no byte that carries nothing.
pub proof fn law_decoded_event_stores_the_same_bytes(b: Seq<u8>)
    requires
        b.len() == EVENT_SIZE,
    ensures
        Event::decoded(b, 0).encoded() == b,
{
    let e = Event::decoded(b, 0);
    crate::le::lemma_le64(b, 0, e.t_ns);
    crate::le::lemma_le32(b, 12, crate::le::bits32(e.dx));
    crate::le::lemma_le32(b, 16, crate::le::bits32(e.dy));
    crate::le::lemma_le32(b, 20, crate::le::bits32(e.x));
    crate::le::lemma_le32(b, 24, crate::le::bits32(e.y));
    crate::le::lemma_le16(b, 28, crate::le::bits16(e.wheel));
    assert(b =~= b.subrange(0, 8) + seq![e.kind, e.flags, e.dev, e.btn] + b.subrange(12, 16)
        + b.subrange(16, 20) + b.subrange(20, 24) + b.subrange(24, 28) + b.subrange(28, 30)
        + seq![e.mods, e.bstate]);
}

/// Kinds and buttons go by their own names.
pub proof fn law_kinds_and_buttons_have_their_names()
    ensures
        Event::kind_name_spec(1) == "move"@,
        Event::kind_name_spec(2) == "button"@,
        Event::kind_name_spec(3) == "wheel"@,
        Event::kind_name_spec(4) == "sync"@,
        button_name_spec(0) == "left"@,
        button_name_spec(1) == "right"@,
        button_name_spec(2) == "middle"@,
        button_name_spec(3) == "x1"@,
        button_name_spec(4) == "x2"@,
{
}

/// Each flag and each modifier has a bit of its own, and so have the buttons held.
pub proof fn law_flags_have_bits_of_their_own()
    ensures
        F_DOWN == 1,
        F_ABSOLUTE == 2 * F_DOWN,
        F_VIRTUALDESK == 2 * F_ABSOLUTE,
        F_HWHEEL == 2 * F_VIRTUALDESK,
        F_ATTRCHANGED == 2 * F_HWHEEL,
        F_NOCOALESCE == 2 * F_ATTRCHANGED,
        F_POS_STALE == 2 * F_NOCOALESCE,
        M_CTRL == 1,
        M_SHIFT == 2 * M_CTRL,
        M_ALT == 2 * M_SHIFT,
        M_WIN == 2 * M_ALT,
        B_LEFT == 0 && B_RIGHT == 1 && B_MIDDLE == 2 && B_X1 == 3 && B_X2 == 4 && B_NONE == 255,
{
}

/// The single bytes of the stored form stand where they always stood.
pub proof fn law_stored_form_keeps_its_places(e: Event)
    ensures
        e.encoded().len() == 32,
        e.encoded()[8] == e.kind,
        e.encoded()[9] == e.flags,
        e.encoded()[10] == e.dev,
        e.encoded()[11] == e.btn,
        e.encoded()[30] == e.mods,
        e.encoded()[31] == e.bstate,
        e.encoded().subrange(0, 8) == crate::le::le64(e.t_ns),
        e.encoded().subrange(12, 16) == crate::le::le32(crate::le::bits32(e.dx)),
        e.encoded().subrange(16, 20) == crate::le::le32(crate::le::bits32(e.dy)),
        e.encoded().subrange(20, 24) == crate::le::le32(crate::le::bits32(e.x)),
        e.encoded().subrange(24, 28) == crate::le::le32(crate::le::bits32(e.y)),
        e.encoded().subrange(28, 30) == crate::le::le16(crate::le::bits16(e.wheel)),
{
    let b = e.encoded();
    assert(b.subrange(0, 8) =~= crate::le::le64(e.t_ns));
    assert(b.subrange(12, 16) =~= crate::le::le32(crate::le::bits32(e.dx)));
    assert(b.subrange(16, 20) =~= crate::le::le32(crate::le::bits32(e.dy)));
    assert(b.subrange(20, 24) =~= crate::le::le32(crate::le::bits32(e.x)));
    assert(b.subrange(24, 28) =~= crate::le::le32(crate::le::bits32(e.y)));
    assert(b.subrange(28, 30) =~= crate::le::le16(crate::le::bits16(e.wheel)));
}

}
