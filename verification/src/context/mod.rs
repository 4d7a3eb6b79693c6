//! Sideband context, recorded on the same timeline as events.
//!
//! Foreground process, window title, monitors and devices are recorded once, when
//! they change, with the clock that the events use. Analysis reconstructs the
//! context of each event with an interval join.

pub mod foreground;
pub mod monitors;

use vstd::prelude::*;

use crate::context::monitors::MonitorInfo;
use crate::input::devices::{copy_devices, DeviceInfo};

verus! {

/// One thing that changed, and when.
///
/// A window is recorded by its handle and resolved later, by the storing side:
/// asking a hung application for its title blocks, and the capturing side must
/// never block. The timestamp is still exact.
#[derive(Debug)]
pub enum ContextRecord {
    Foreground {
        t_ns: u64,
        hwnd: isize,
        /// Filled in by the storing side.
        pid: Option<u32>,
        exe: Option<String>,
        /// Absent when title capture is disabled in settings.
        title: Option<String>,
    },
    DeviceChange { t_ns: u64, devices: Vec<DeviceInfo> },
    DisplayChange { t_ns: u64, monitors: Vec<MonitorInfo> },
    Power { t_ns: u64, event: String },
    RecordingState { t_ns: u64, state: String },
    /// Periodic health sample, so that data loss is visible in the timeline itself
    /// rather than only in a summary at the end.
    Health {
        t_ns: u64,
        /// Device reports seen.
        reports: u64,
        written: u64,
        dropped: u64,
        queue_depth: u64,
        peak_queue_depth: u64,
        write_latency_us: u64,
    },
}

impl ContextRecord {
    /// When it changed.
    pub open spec fn t_ns_spec(&self) -> u64 {
        match *self {
            ContextRecord::Foreground { t_ns, .. } => t_ns,
            ContextRecord::DeviceChange { t_ns, .. } => t_ns,
            ContextRecord::DisplayChange { t_ns, .. } => t_ns,
            ContextRecord::Power { t_ns, .. } => t_ns,
            ContextRecord::RecordingState { t_ns, .. } => t_ns,
            ContextRecord::Health { t_ns, .. } => t_ns,
        }
    }

    /// When it changed.
    pub fn t_ns(&self) -> (t: u64)
        ensures
            t == self.t_ns_spec(),
    {
        match self {
            ContextRecord::Foreground { t_ns, .. } => *t_ns,
            ContextRecord::DeviceChange { t_ns, .. } => *t_ns,
            ContextRecord::DisplayChange { t_ns, .. } => *t_ns,
            ContextRecord::Power { t_ns, .. } => *t_ns,
            ContextRecord::RecordingState { t_ns, .. } => *t_ns,
            ContextRecord::Health { t_ns, .. } => *t_ns,
        }
    }

    /// A window came to the front, and is not resolved yet.
    pub fn unresolved(t_ns: u64, hwnd: isize) -> (r: ContextRecord)
        ensures
            r == (ContextRecord::Foreground { t_ns, hwnd, pid: None, exe: None, title: None }),
    {
        ContextRecord::Foreground { t_ns, hwnd, pid: None, exe: None, title: None }
    }
}

/// What a timeline starts with, so that the context is known from its beginning:
/// the devices, the monitors and the window in front.
pub fn initial_records(
    t_ns: u64,
    devices: &[DeviceInfo],
    monitors: Vec<MonitorInfo>,
    hwnd: isize,
) -> (v: Vec<ContextRecord>)
    ensures
        v@.len() == 3,
        v@[0] matches ContextRecord::DeviceChange { t_ns: t, devices: d } && t == t_ns && d@
            == devices@,
        v@[1] == (ContextRecord::DisplayChange { t_ns, monitors }),
        v@[2] == (ContextRecord::Foreground { t_ns, hwnd, pid: None, exe: None, title: None }),
{
    let mut v: Vec<ContextRecord> = Vec::new();
    v.push(ContextRecord::DeviceChange { t_ns, devices: copy_devices(devices) });
    v.push(ContextRecord::DisplayChange { t_ns, monitors });
    v.push(ContextRecord::unresolved(t_ns, hwnd));
    v
}

/// Every record of the timeline tells the moment that it was made with.
pub proof fn law_every_record_tells_its_moment(r: ContextRecord, t: u64)
    ensures
        r is Foreground ==> (r.t_ns_spec() == t <==> r->Foreground_t_ns == t),
        r is DeviceChange ==> (r.t_ns_spec() == t <==> r->DeviceChange_t_ns == t),
        r is DisplayChange ==> (r.t_ns_spec() == t <==> r->DisplayChange_t_ns == t),
        r is Power ==> (r.t_ns_spec() == t <==> r->Power_t_ns == t),
        r is RecordingState ==> (r.t_ns_spec() == t <==> r->RecordingState_t_ns == t),
        r is Health ==> (r.t_ns_spec() == t <==> r->Health_t_ns == t),
{
}

} // verus!
