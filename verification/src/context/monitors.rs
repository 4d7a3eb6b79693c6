//! Monitor topology and DPI.
//!
//! Every event stores virtual-desktop coordinates. Turning those back into "which
//! screen, how far from which edge" needs the layout as it was at the time, which
//! is why a fresh snapshot is recorded on every display change.

use vstd::prelude::*;

use crate::utf16::decode_until_zero;

verus! {

/// Set in the flags of the primary monitor.
pub const MONITORINFOF_PRIMARY: u32 = 0x0000_0001;

/// One monitor. Its scaling is `dpi_x` over 96.
#[derive(Debug)]
pub struct MonitorInfo {
    /// Index in enumeration order. Use `device` for identity.
    pub index: u32,
    /// Device name, e.g. `\\.\DISPLAY1`.
    pub device: String,
    /// Full monitor rectangle in virtual-desktop coordinates.
    pub left: i32,
    pub top: i32,
    pub right: i32,
    pub bottom: i32,
    /// Work area: the monitor rectangle minus taskbar and other bars. The cursor
    /// stops at the taskbar, not at the screen edge.
    pub work_left: i32,
    pub work_top: i32,
    pub work_right: i32,
    pub work_bottom: i32,
    pub dpi_x: u32,
    pub dpi_y: u32,
    pub primary: bool,
}

impl MonitorInfo {
    pub fn width(&self) -> (w: i32)
        requires
            i32::MIN <= self.right - self.left <= i32::MAX,
        ensures
            w == self.right - self.left,
    {
        self.right - self.left
    }

    pub fn height(&self) -> (h: i32)
        requires
            i32::MIN <= self.bottom - self.top <= i32::MAX,
        ensures
            h == self.bottom - self.top,
    {
        self.bottom - self.top
    }

    /// The point lies on the monitor.
    pub open spec fn contains_spec(&self, x: i32, y: i32) -> bool {
        self.left <= x < self.right && self.top <= y < self.bottom
    }

    /// The point lies on the monitor.
    pub fn contains(&self, x: i32, y: i32) -> (r: bool)
        ensures
            r == self.contains_spec(x, y),
    {
        x >= self.left && x < self.right && y >= self.top && y < self.bottom
    }

    /// The same monitor.
    pub fn copy(&self) -> (m: MonitorInfo)
        ensures
            m == *self,
    {
        MonitorInfo {
            index: self.index,
            device: self.device.clone(),
            left: self.left,
            top: self.top,
            right: self.right,
            bottom: self.bottom,
            work_left: self.work_left,
            work_top: self.work_top,
            work_right: self.work_right,
            work_bottom: self.work_bottom,
            dpi_x: self.dpi_x,
            dpi_y: self.dpi_y,
            primary: self.primary,
        }
    }
}

impl Clone for MonitorInfo {
    fn clone(&self) -> (m: Self)
        ensures
            m == *self,
    {
        self.copy()
    }
}

/// A rectangle as Windows reports it.
#[derive(Clone, Copy)]
pub struct Rect {
    pub left: i32,
    pub top: i32,
    pub right: i32,
    pub bottom: i32,
}

/// One monitor as Windows reports it.
pub struct MonitorReading {
    /// The device name in 16-bit units, cut at its first zero.
    pub device: Vec<u16>,
    pub monitor: Rect,
    pub work: Rect,
    pub flags: u32,
    /// Whatever was read, over a preset of 96: a failed reading leaves 96 rather
    /// than a bogus scale.
    pub dpi_x: u32,
    pub dpi_y: u32,
}

/// `m` is the monitor read, with that index.
pub open spec fn shows(m: MonitorInfo, r: MonitorReading, index: int) -> bool {
    &&& m.index == index
    &&& m.device@ == crate::utf16::decoded(crate::utf16::until_zero(r.device@))
    &&& (Rect { left: m.left, top: m.top, right: m.right, bottom: m.bottom }) == r.monitor
    &&& (Rect {
        left: m.work_left,
        top: m.work_top,
        right: m.work_right,
        bottom: m.work_bottom,
    }) == r.work
    &&& m.dpi_x == r.dpi_x
    &&& m.dpi_y == r.dpi_y
    &&& m.primary == (r.flags & MONITORINFOF_PRIMARY != 0)
}

/// The monitor layout, numbered in the order in which it was read.
pub fn enumerate(readings: &Vec<MonitorReading>) -> (out: Vec<MonitorInfo>)
    requires
        readings@.len() <= u32::MAX,
    ensures
        out@.len() == readings@.len(),
        forall|i: int| 0 <= i < out@.len() ==> shows(#[trigger] out@[i], readings@[i], i),
{
    let mut out: Vec<MonitorInfo> = Vec::new();
    let mut i: usize = 0;
    while i < readings.len()
        invariant
            i <= readings@.len() <= u32::MAX,
            out@.len() == i,
            forall|k: int| 0 <= k < i ==> shows(#[trigger] out@[k], readings@[k], k),
        decreases readings@.len() - i,
    {
        let r = &readings[i];
        out.push(
            MonitorInfo {
                index: i as u32,
                device: decode_until_zero(r.device.as_slice()),
                left: r.monitor.left,
                top: r.monitor.top,
                right: r.monitor.right,
                bottom: r.monitor.bottom,
                work_left: r.work.left,
                work_top: r.work.top,
                work_right: r.work.right,
                work_bottom: r.work.bottom,
                dpi_x: r.dpi_x,
                dpi_y: r.dpi_y,
                primary: r.flags & MONITORINFOF_PRIMARY != 0,
            },
        );
        i = i + 1;
    }
    out
}

/// A point lies on a monitor from its left and top edge on, up to its right and bottom
/// edge: of two monitors side by side it lies on one.
pub proof fn law_a_point_lies_on_one_of_two_neighbours(a: MonitorInfo, b: MonitorInfo, x: i32, y: i32)
    requires
        a.right == b.left,
        a.left <= a.right <= b.right,
        a.top == b.top && a.bottom == b.bottom,
    ensures
        !(a.contains_spec(x, y) && b.contains_spec(x, y)),
        a.contains_spec(x, y) || b.contains_spec(x, y) <==> a.left <= x && x < b.right && a.top <= y
            && y < a.bottom,
        a.left < a.right && a.top < a.bottom ==> a.contains_spec(a.left, a.top)
            && !a.contains_spec(a.right, a.top) && !a.contains_spec(a.left, a.bottom),
{
}

/// A monitor is known by what was read of it: its place, its work area, its resolution,
/// and whether it is the main one.
pub proof fn law_a_monitor_is_known_by_its_reading(m: MonitorInfo, r: MonitorReading, index: int)
    requires
        shows(m, r, index),
    ensures
        m.index == index,
        m.left == r.monitor.left && m.top == r.monitor.top && m.right == r.monitor.right && m.bottom
            == r.monitor.bottom,
        m.work_left == r.work.left && m.work_top == r.work.top && m.work_right == r.work.right
            && m.work_bottom == r.work.bottom,
        m.dpi_x == r.dpi_x && m.dpi_y == r.dpi_y,
        m.primary <==> r.flags % 2 == 1,
{
    let f = r.flags;
    assert((f & 1 != 0) == (f % 2 == 1)) by (bit_vector);
}

} // verus!
