//! The storing side: queue to compressed segments, context to a timeline.
//!
//! Everything slow happens here. The storing side also owns session lifecycle,
//! because sessions roll over during a run, and health accounting: dropped counts
//! go into the session header and are sampled into the timeline, so that a loss
//! shows up where it happened rather than only as a number at the end.
//!
//! One turn of its loop is a sequence of the steps below, which `run` puts in order.
//! Each says what is to be done outside, or takes note of what came of it. Times are
//! nanoseconds on a clock that does not run backwards.

use vstd::prelude::*;

use std::collections::VecDeque;

use crate::context::monitors::MonitorInfo;
use crate::context::ContextRecord;
use crate::event::Event;
use crate::input::devices::copy_devices;
use crate::ring::Ring;
use crate::storage::segment::{
    segment_header, SegmentError, SegmentWriter, FRAME_EVENTS, FRAME_INTERVAL_MS,
};
use crate::storage::session::{Session, SessionHeader};
use crate::text::starts_with;

verus! {

/// Poll interval. This is latency to disk, not a risk of loss.
pub const POLL_MS: u64 = 20;

/// How often health is sampled into the timeline and the header saved.
pub const HEALTH_INTERVAL_NS: u64 = 30_000_000_000;

/// How often buffered data is forced all the way onto the physical disk.
///
/// Flushing protects against the process dying. It does not protect against the
/// machine dying: an abrupt power cut loses whatever the system had not written
/// back yet. Syncing once a minute bounds that loss.
pub const SYNC_INTERVAL_NS: u64 = 60_000_000_000;

/// How old a session must be before an automatic rollover may replace it.
///
/// Waking from sleep trips both the hourly and the resume trigger; without this
/// the second would leave a session of a second behind. A rollover that the user
/// asked for ignores this.
pub const MIN_SESSION_LIFETIME_NS: u64 = 30_000_000_000;

/// Roll to a new segment past this size, so that no single file grows unbounded.
pub const ROTATE_BYTES: u64 = 268_435_456;

/// Nanoseconds after which pending events are written, however few.
pub const FRAME_INTERVAL_NS: u64 = 1_000_000_000;

/// How many events are taken from the queue at a time.
pub const DRAIN_EVENTS: usize = 8192;

/// How many pending events are enough for one turn.
pub const PENDING_ENOUGH: usize = 32768;

/// How many of the most recent events are kept for diagnostics: enough for a
/// median of the report rate that holds still.
pub const RECENT_CAPACITY: usize = 2000;

/// How many of those the raw-events window displays.
pub const RECENT_SHOWN: usize = 200;

/// Upper bound on distinct device slots tracked for attribution.
pub const MAX_DEVICES: usize = 16;

/// The constants say the same as the segment's own.
pub proof fn law_writer_bounds_follow_the_frame_bounds()
    ensures
        FRAME_INTERVAL_NS == FRAME_INTERVAL_MS * 1_000_000,
        PENDING_ENOUGH == 4 * FRAME_EVENTS,
        RECENT_SHOWN <= RECENT_CAPACITY,
{
}

/// Settings of the storing side.
#[derive(Clone, Copy, Debug, PartialEq, Eq, Structural)]
pub struct WriterConfig {
    /// Window titles are the most sensitive thing that this program can see, so
    /// capturing them is opt-in, and the switch is honoured at the point of
    /// collection: not read and then discarded.
    pub capture_window_titles: bool,
}

impl Default for WriterConfig {
    fn default() -> (c: Self)
        ensures
            !c.capture_window_titles,
    {
        WriterConfig { capture_window_titles: false }
    }
}

/// Asked of the storing side.
#[derive(Debug)]
pub enum WriterCmd {
    /// Close the current session cleanly and start a fresh one, for that reason.
    NewSession(String),
}

// ---- what others see ----------------------------------------------------------------

/// The last `n` of them.
pub open spec fn last_of<A>(s: Seq<A>, n: nat) -> Seq<A> {
    if s.len() <= n {
        s
    } else {
        s.skip(s.len() - n)
    }
}

/// The counts after each of the events was counted for its device. Devices beyond
/// the last slot are not counted.
pub open spec fn attributed(counts: Seq<u64>, events: Seq<Event>) -> Seq<u64>
    decreases events.len(),
{
    if events.len() == 0 {
        counts
    } else {
        let before = attributed(counts, events.drop_last());
        let dev = events.last().dev as int;
        if dev < before.len() {
            before.update(dev, crate::ring::counted(before[dev]))
        } else {
            before
        }
    }
}

/// Live state, for the tray and the status window to read.
#[derive(Debug)]
pub struct SharedStatus {
    pub id: String,
    pub dir: String,
    pub events_written: u64,
    pub events_dropped: u64,
    pub writer_errors: u64,
    pub session_start_unix_ms: u64,
    pub sessions_started: u64,
    pub last_write_latency_us: u64,
    pub last_batch_size: u64,
    /// Events attributed to each device-table index, so that one can see which
    /// physical mouse is producing data rather than merely which ones there are.
    pub per_device: Vec<u64>,
    /// Tail of the event stream, for the raw-events window.
    pub recent: VecDeque<Event>,
}

impl SharedStatus {
    /// One count per slot, and no more recent events than there is room for.
    pub open spec fn wf(&self) -> bool {
        &&& self.per_device@.len() == MAX_DEVICES
        &&& self.recent@.len() <= RECENT_CAPACITY
    }

    /// Shows the session as the current one.
    pub fn adopt(&mut self, s: &Session)
        ensures
            *final(self) == adopting(*old(self), *s),
    {
        self.id = s.header.session_id.clone();
        self.dir = s.dir.clone();
        self.session_start_unix_ms = s.header.start_unix_ms;
        self.sessions_started = if self.sessions_started == u64::MAX {
            0
        } else {
            self.sessions_started + 1
        };
    }

    pub fn session_id(&self) -> (s: String)
        ensures
            s == self.id,
    {
        self.id.clone()
    }

    pub fn session_dir(&self) -> (s: String)
        ensures
            s == self.dir,
    {
        self.dir.clone()
    }

    /// Takes in a batch that was handed to the disk: attribution, and the tail of
    /// the stream.
    pub fn on_batch(&mut self, batch: &Vec<Event>, latency_us: u64)
        requires
            old(self).wf(),
        ensures
            final(self).wf(),
            batch_shown(*old(self), *final(self), batch@, latency_us),
    {
        self.last_write_latency_us = latency_us;
        self.last_batch_size = batch.len() as u64;
        let mut i: usize = 0;
        let ghost counts = self.per_device@;
        let ghost tail = self.recent@;
        let ghost base = *self;
        assert(batch@.take(0) =~= seq![]);
        assert(last_of(tail + batch@.take(0), RECENT_CAPACITY as nat) =~= tail);
        while i < batch.len()
            invariant
                i <= batch@.len(),
                self.wf(),
                tail.len() <= RECENT_CAPACITY,
                self.per_device@ == attributed(counts, batch@.take(i as int)),
                self.recent@ == last_of(tail + batch@.take(i as int), RECENT_CAPACITY as nat),
                *self == (SharedStatus {
                    per_device: self.per_device,
                    recent: self.recent,
                    ..base
                }),
            decreases batch@.len() - i,
        {
            let e: Event = batch[i];
            let ghost next = batch@.take(i + 1);
            assert(next.drop_last() =~= batch@.take(i as int));
            assert(next.last() == e);
            let dev: usize = e.dev as usize;
            if dev < self.per_device.len() {
                let n: u64 = self.per_device[dev];
                self.per_device.set(
                    dev,
                    if n == u64::MAX {
                        0
                    } else {
                        n + 1
                    },
                );
            }
            if self.recent.len() == RECENT_CAPACITY {
                self.recent.pop_front();
            }
            self.recent.push_back(e);
            assert(tail + next =~= (tail + batch@.take(i as int)).push(e));
            assert(self.recent@ =~= last_of(tail + next, RECENT_CAPACITY as nat));
            i = i + 1;
        }
        assert(batch@.take(i as int) =~= batch@);
    }
}

impl Default for SharedStatus {
    fn default() -> (s: Self)
        ensures
            s.wf(),
            s.id@.len() == 0,
            s.dir@.len() == 0,
            s.events_written == 0,
            s.events_dropped == 0,
            s.writer_errors == 0,
            s.session_start_unix_ms == 0,
            s.sessions_started == 0,
            s.last_write_latency_us == 0,
            s.last_batch_size == 0,
            forall|i: int| 0 <= i < MAX_DEVICES ==> s.per_device@[i] == 0,
            s.recent@.len() == 0,
    {
        let mut per_device: Vec<u64> = Vec::new();
        let mut i: usize = 0;
        while i < MAX_DEVICES
            invariant
                i <= MAX_DEVICES,
                per_device@.len() == i,
                forall|k: int| 0 <= k < i ==> per_device@[k] == 0,
            decreases MAX_DEVICES - i,
        {
            per_device.push(0);
            i = i + 1;
        }
        SharedStatus {
            id: String::new(),
            dir: String::new(),
            events_written: 0,
            events_dropped: 0,
            writer_errors: 0,
            session_start_unix_ms: 0,
            sessions_started: 0,
            last_write_latency_us: 0,
            last_batch_size: 0,
            per_device,
            recent: VecDeque::new(),
        }
    }
}

// ---- one session ----------------------------------------------------------------------

/// How far `a` is above `b`, and 0 where it is not.
pub open spec fn above(a: u64, b: u64) -> u64 {
    if a > b {
        (a - b) as u64
    } else {
        0
    }
}

fn saturating_difference(a: u64, b: u64) -> (d: u64)
    ensures
        d == above(a, b),
{
    if a > b {
        a - b
    } else {
        0
    }
}

/// What the capturing side has counted so far, over all sessions of the run.
#[derive(Clone, Copy, Debug)]
pub struct Counters {
    pub reports: u64,
    pub dropped: u64,
    pub peak: u64,
    pub drop_range: Option<(u64, u64)>,
}

/// One session's running totals.
pub struct Active {
    pub session: Session,
    pub seg: SegmentWriter,
    pub seg_index: u32,
    /// Events committed to segments already rotated away.
    pub carried_events: u64,
    /// Counter values when this session began, so that per-session totals are
    /// differences rather than the running count of the process.
    pub base_reports: u64,
    pub base_dropped: u64,
}

impl Active {
    /// All events written in this session.
    pub open spec fn written_spec(&self) -> int {
        self.carried_events + self.seg.events_spec()
    }

    /// A session with its first segment. The second result is the header to write to
    /// the segment's file, which `seg` names.
    pub fn open(session: Session, base_reports: u64, base_dropped: u64) -> (r: (Self, Vec<u8>))
        ensures
            r.1@ == crate::storage::segment::header_bytes(),
            opens(r.0, session, base_reports, base_dropped),
    {
        let name = session.segment_path(0);
        let (seg, header) = SegmentWriter::create(name.clone());
        let mut session = session;
        let ghost before = session.header.segments@;
        session.header.segments.push(name);
        assert(session.header.segments@.drop_last() =~= before);
        (
            Active { session, seg, seg_index: 0, carried_events: 0, base_reports, base_dropped },
            header,
        )
    }

    /// All events written in this session.
    pub fn events_written(&self) -> (n: u64)
        requires
            self.written_spec() <= u64::MAX,
        ensures
            n == self.written_spec(),
    {
        self.carried_events + self.seg.events_written()
    }

    /// Takes note of an error.
    pub fn count_error(&mut self)
        requires
            old(self).session.header.writer_errors < u64::MAX,
        ensures
            *final(self) == with_errors(*old(self), 1),
    {
        self.session.header.writer_errors = self.session.header.writer_errors + 1;
    }

    /// Closes the session: the totals go into its header, and then its clean end,
    /// at `now_ms`. `synced` tells whether its segment reached the disk.
    pub fn close(
        self,
        synced: bool,
        counters: Counters,
        max_latency_us: u64,
        now_ms: u64,
    ) -> (s: Session)
        requires
            self.written_spec() <= u64::MAX,
            !synced ==> self.session.header.writer_errors < u64::MAX,
        ensures
            s.dir == self.session.dir,
            crate::storage::session::ended(
                s.header,
                closing_header(self, synced, counters, max_latency_us),
                now_ms,
            ),
    {
        let written: u64 = self.events_written();
        let mut session = self.session;
        if !synced {
            session.header.writer_errors = session.header.writer_errors + 1;
        }
        session.header.reports_received = saturating_difference(
            counters.reports,
            self.base_reports,
        );
        session.header.events_written = written;
        session.header.events_dropped = saturating_difference(counters.dropped, self.base_dropped);
        session.header.first_drop_t_ns = match counters.drop_range {
            Some((f, _)) => Some(f),
            None => None,
        };
        session.header.last_drop_t_ns = match counters.drop_range {
            Some((_, l)) => Some(l),
            None => None,
        };
        session.header.peak_queue_depth = counters.peak;
        session.header.max_write_latency_us = max_latency_us;
        session.finish(now_ms);
        session
    }

    /// The name of the segment to roll over to, and the header to write to its file.
    pub fn next_segment(&self) -> (r: (String, Vec<u8>))
        requires
            self.seg_index < u32::MAX,
        ensures
            r.0@ == crate::storage::session::segment_name_spec((self.seg_index + 1) as u32),
            r.1@ == crate::storage::segment::header_bytes(),
    {
        (self.session.segment_path(self.seg_index + 1), segment_header())
    }

    /// Whether the totals have room for the frame that waits.
    pub fn has_room(&self) -> (r: bool)
        ensures
            r == committable(*self),
    {
        self.seg.has_room(self.carried_events)
    }

    /// Rolls over to the next segment, if its file could be created; otherwise stays
    /// with the current one and counts an error.
    pub fn rotate_segment(&mut self, created: bool)
        requires
            old(self).seg_index < u32::MAX,
            created ==> old(self).written_spec() <= u64::MAX,
            !created ==> old(self).session.header.writer_errors < u64::MAX,
        ensures
            !created ==> *final(self) == with_errors(*old(self), 1),
            created ==> rolled_over(*old(self), *final(self)),
            final(self).written_spec() == old(self).written_spec(),
    {
        if !created {
            self.count_error();
            return;
        }
        let (name, _) = self.next_segment();
        let (seg, _) = SegmentWriter::create(name.clone());
        self.carried_events = self.events_written();
        let ghost before = self.session.header.segments@;
        self.session.header.segments.push(name);
        assert(self.session.header.segments@.drop_last() =~= before);
        self.seg = seg;
        self.seg_index = self.seg_index + 1;
    }

    /// Takes in a change of context: the header follows the devices and monitors.
    /// Returns whether the machine woke up.
    pub fn note_context(&mut self, rec: &ContextRecord) -> (woke: bool)
        ensures
            woke == wakes(*rec),
            final(self).session.dir == old(self).session.dir,
            follows(final(self).session.header, old(self).session.header, *rec),
            *final(self) == (Active { session: final(self).session, ..*old(self) }),
    {
        match rec {
            ContextRecord::DeviceChange { devices, .. } => {
                self.session.header.devices = copy_devices(devices.as_slice());
                false
            },
            ContextRecord::DisplayChange { monitors, .. } => {
                self.session.header.monitors = copy_monitors(monitors);
                false
            },
            ContextRecord::Power { event, .. } => starts_with(event.as_str(), "resume"),
            _ => false,
        }
    }

    /// The health of the session now, for the timeline.
    pub fn health_record(
        &self,
        t_ns: u64,
        counters: Counters,
        depth: u64,
        max_latency_us: u64,
    ) -> (rec: ContextRecord)
        requires
            self.written_spec() <= u64::MAX,
        ensures
            rec == (ContextRecord::Health {
                t_ns,
                reports: counters.reports,
                written: self.written_spec() as u64,
                dropped: counters.dropped,
                queue_depth: depth,
                peak_queue_depth: counters.peak,
                write_latency_us: max_latency_us,
            }),
    {
        ContextRecord::Health {
            t_ns,
            reports: counters.reports,
            written: self.events_written(),
            dropped: counters.dropped,
            queue_depth: depth,
            peak_queue_depth: counters.peak,
            write_latency_us: max_latency_us,
        }
    }

    /// Brings the header up to date with the health of the session.
    pub fn note_health(&mut self, counters: Counters, max_latency_us: u64)
        requires
            old(self).written_spec() <= u64::MAX,
        ensures
            *final(self) == (Active {
                session: Session {
                    header: healthy_header(*old(self), counters, max_latency_us),
                    dir: old(self).session.dir,
                },
                ..*old(self)
            }),
    {
        let written: u64 = self.events_written();
        self.session.header.reports_received = saturating_difference(
            counters.reports,
            self.base_reports,
        );
        self.session.header.events_written = written;
        self.session.header.events_dropped = saturating_difference(
            counters.dropped,
            self.base_dropped,
        );
        if let Some((f, l)) = counters.drop_range {
            self.session.header.first_drop_t_ns = Some(f);
            self.session.header.last_drop_t_ns = Some(l);
        }
        self.session.header.peak_queue_depth = counters.peak;
        self.session.header.max_write_latency_us = max_latency_us;
    }

    /// Publishes the session's totals.
    pub fn publish(&self, status: &mut SharedStatus, dropped: u64)
        requires
            self.written_spec() <= u64::MAX,
        ensures
            *final(status) == (SharedStatus {
                events_written: self.written_spec() as u64,
                events_dropped: above(dropped, self.base_dropped),
                writer_errors: self.session.header.writer_errors,
                ..*old(status)
            }),
    {
        status.events_written = self.events_written();
        status.events_dropped = saturating_difference(dropped, self.base_dropped);
        status.writer_errors = self.session.header.writer_errors;
    }
}

/// `a` is that session at the start of its first segment.
pub open spec fn opens(a: Active, session: Session, base_reports: u64, base_dropped: u64) -> bool {
    &&& a.seg.path_spec() == crate::storage::session::segment_name_spec(0)
    &&& a.seg.events_spec() == 0
    &&& a.seg.frames_spec() == 0
    &&& a.seg.bytes_spec() == crate::storage::segment::HEADER_LEN
    &&& a.seg.staged_spec() is None
    &&& a.seg_index == 0
    &&& a.carried_events == 0
    &&& a.base_reports == base_reports
    &&& a.base_dropped == base_dropped
    &&& a.session.dir == session.dir
    &&& names_segment(a.session.header, session.header, 0)
}

/// `after` is `before` at the start of its next segment.
pub open spec fn rolled_over(before: Active, after: Active) -> bool {
    let index = (before.seg_index + 1) as u32;
    &&& after.seg_index == index
    &&& after.carried_events == before.written_spec()
    &&& after.seg.events_spec() == 0
    &&& after.seg.frames_spec() == 0
    &&& after.seg.bytes_spec() == crate::storage::segment::HEADER_LEN
    &&& after.seg.staged_spec() is None
    &&& after.seg.path_spec() == crate::storage::session::segment_name_spec(index)
    &&& after.base_reports == before.base_reports
    &&& after.base_dropped == before.base_dropped
    &&& after.session.dir == before.session.dir
    &&& names_segment(after.session.header, before.session.header, index)
}

/// `h` is `before` with one more segment, that with this number.
pub open spec fn names_segment(h: SessionHeader, before: SessionHeader, index: u32) -> bool {
    &&& h == (SessionHeader { segments: h.segments, ..before })
    &&& h.segments@.len() == before.segments@.len() + 1
    &&& h.segments@.drop_last() == before.segments@
    &&& h.segments@.last()@ == crate::storage::session::segment_name_spec(index)
}

/// The same session with so many more errors.
pub open spec fn with_errors(a: Active, n: int) -> Active {
    Active {
        session: Session {
            header: SessionHeader {
                writer_errors: (a.session.header.writer_errors + n) as u64,
                ..a.session.header
            },
            dir: a.session.dir,
        },
        ..a
    }
}

/// The header with the totals that a session closes with.
pub open spec fn closing_header(
    a: Active,
    synced: bool,
    counters: Counters,
    max_latency_us: u64,
) -> SessionHeader {
    SessionHeader {
        writer_errors: if synced {
            a.session.header.writer_errors
        } else {
            (a.session.header.writer_errors + 1) as u64
        },
        reports_received: above(counters.reports, a.base_reports),
        events_written: a.written_spec() as u64,
        events_dropped: above(counters.dropped, a.base_dropped),
        first_drop_t_ns: match counters.drop_range {
            Some((f, _)) => Some(f),
            None => None,
        },
        last_drop_t_ns: match counters.drop_range {
            Some((_, l)) => Some(l),
            None => None,
        },
        peak_queue_depth: counters.peak,
        max_write_latency_us: max_latency_us,
        ..a.session.header
    }
}

/// The header brought up to date while the session runs. A loss once noted stays.
pub open spec fn healthy_header(a: Active, counters: Counters, max_latency_us: u64) -> SessionHeader {
    SessionHeader {
        reports_received: above(counters.reports, a.base_reports),
        events_written: a.written_spec() as u64,
        events_dropped: above(counters.dropped, a.base_dropped),
        first_drop_t_ns: match counters.drop_range {
            Some((f, _)) => Some(f),
            None => a.session.header.first_drop_t_ns,
        },
        last_drop_t_ns: match counters.drop_range {
            Some((_, l)) => Some(l),
            None => a.session.header.last_drop_t_ns,
        },
        peak_queue_depth: counters.peak,
        max_write_latency_us: max_latency_us,
        ..a.session.header
    }
}

/// The record tells that the machine woke up.
pub open spec fn wakes(rec: ContextRecord) -> bool {
    rec matches ContextRecord::Power { event, .. } && crate::text::starts_with_spec(
        event@,
        "resume"@,
    )
}

/// `h` is `before` after that change of context.
pub open spec fn follows(h: SessionHeader, before: SessionHeader, rec: ContextRecord) -> bool {
    match rec {
        ContextRecord::DeviceChange { devices, .. } => {
            &&& h == (SessionHeader { devices: h.devices, ..before })
            &&& h.devices@ == devices@
        },
        ContextRecord::DisplayChange { monitors, .. } => {
            &&& h == (SessionHeader { monitors: h.monitors, ..before })
            &&& h.monitors@ == monitors@
        },
        _ => h == before,
    }
}

/// A copy of the list.
fn copy_monitors(list: &Vec<MonitorInfo>) -> (v: Vec<MonitorInfo>)
    ensures
        v@ == list@,
{
    let mut v: Vec<MonitorInfo> = Vec::new();
    let mut i: usize = 0;
    while i < list.len()
        invariant
            i <= list@.len(),
            v@ == list@.take(i as int),
        decreases list@.len() - i,
    {
        v.push(list[i].copy());
        i = i + 1;
        assert(v@ =~= list@.take(i as int));
    }
    assert(list@.take(i as int) =~= list@);
    v
}

/// The record with the window resolved, where it is of a window.
pub fn with_resolution(
    rec: ContextRecord,
    resolved: (Option<u32>, Option<String>, Option<String>),
) -> (r: ContextRecord)
    ensures
        r == match rec {
            ContextRecord::Foreground { t_ns, hwnd, .. } => ContextRecord::Foreground {
                t_ns,
                hwnd,
                pid: resolved.0,
                exe: resolved.1,
                title: resolved.2,
            },
            other => other,
        },
{
    match rec {
        ContextRecord::Foreground { t_ns, hwnd, .. } => ContextRecord::Foreground {
            t_ns,
            hwnd,
            pid: resolved.0,
            exe: resolved.1,
            title: resolved.2,
        },
        other => other,
    }
}

// ---- the loop -------------------------------------------------------------------------

/// What came of writing a frame.
#[derive(Clone, Copy, Debug, PartialEq, Eq, Structural)]
pub enum FrameOutcome {
    Written,
    /// Written, but not flushed.
    FlushFailed,
    /// Not written.
    WriteFailed,
}

/// The state of the loop.
pub struct Writer {
    pub active: Active,
    /// Events taken from the queue and not yet written.
    pub pending: Vec<Event>,
    pub last_frame: u64,
    pub last_health: u64,
    pub last_sync: u64,
    /// When the session started.
    pub session_start: u64,
    pub max_latency_us: u64,
    /// The local hour that the session belongs to.
    pub session_hour: u8,
}

/// The loop between two sessions.
#[derive(Clone, Copy, Debug, PartialEq, Eq, Structural)]
pub struct Between {
    pub last_frame: u64,
    pub last_health: u64,
}

impl Between {
    /// Goes on with the next session, which starts now and belongs to this hour.
    pub fn resume(self, next: Active, now: u64, now_hour: u8) -> (w: Writer)
        ensures
            w.active == next,
            w.pending@.len() == 0,
            w.last_frame == self.last_frame,
            w.last_health == self.last_health,
            w.last_sync == now,
            w.session_start == now,
            w.max_latency_us == 0,
            w.session_hour == now_hour,
    {
        Writer {
            active: next,
            pending: Vec::new(),
            last_frame: self.last_frame,
            last_health: self.last_health,
            last_sync: now,
            session_start: now,
            max_latency_us: 0,
            session_hour: now_hour,
        }
    }
}

/// How many events one turn takes from a queue of `queued`, with `pending` pending.
pub open spec fn taken_in_a_turn(pending: nat, queued: nat) -> nat
    decreases queued,
{
    let n = if queued <= DRAIN_EVENTS {
        queued
    } else {
        DRAIN_EVENTS as nat
    };
    if n == 0 {
        0
    } else if pending + n >= PENDING_ENOUGH {
        n
    } else {
        n + taken_in_a_turn(pending + n, (queued - n) as nat)
    }
}

/// A turn takes events that are there, and not many more than are enough.
proof fn lemma_taken(pending: nat, queued: nat)
    requires
        pending < PENDING_ENOUGH,
    ensures
        taken_in_a_turn(pending, queued) <= queued,
        pending + taken_in_a_turn(pending, queued) < PENDING_ENOUGH + DRAIN_EVENTS,
        taken_in_a_turn(pending, queued) == queued || pending + taken_in_a_turn(pending, queued)
            >= PENDING_ENOUGH,
    decreases queued,
{
    let n = if queued <= DRAIN_EVENTS {
        queued
    } else {
        DRAIN_EVENTS as nat
    };
    if n > 0 && pending + n < PENDING_ENOUGH {
        lemma_taken(pending + n, (queued - n) as nat);
    }
}

/// Why the session is to be replaced of its own accord, if it is. Waking up comes
/// before the hour.
pub open spec fn automatic_reason(woke: bool, now_hour: u8, session_hour: u8) -> Option<Seq<char>> {
    if woke {
        Some("resume_from_sleep"@)
    } else if now_hour != session_hour {
        Some("hourly_rollover"@)
    } else {
        None
    }
}

impl Writer {
    /// The pending events fit into one frame.
    pub open spec fn wf(&self) -> bool {
        &&& self.pending@.len() < PENDING_ENOUGH + DRAIN_EVENTS
        &&& self.active.written_spec() <= u64::MAX
    }

    /// The loop as it starts.
    pub fn new(active: Active, now: u64, hour: u8) -> (w: Self)
        ensures
            w.active == active,
            w.pending@.len() == 0,
            w.last_frame == now,
            w.last_health == now,
            w.last_sync == now,
            w.session_start == now,
            w.max_latency_us == 0,
            w.session_hour == hour,
    {
        Writer {
            active,
            pending: Vec::new(),
            last_frame: now,
            last_health: now,
            last_sync: now,
            session_start: now,
            max_latency_us: 0,
            session_hour: hour,
        }
    }

    /// Takes events from the queue until it is empty or enough are pending. No event
    /// is lost or reordered on the way.
    pub fn absorb(&mut self, ring: &mut Ring, scratch: &mut Vec<Event>)
        requires
            old(ring).wf(),
            old(self).wf(),
            old(self).pending@.len() < PENDING_ENOUGH,
            old(scratch)@.len() == DRAIN_EVENTS,
        ensures
            final(ring).wf(),
            final(self).wf(),
            final(scratch)@.len() == DRAIN_EVENTS,
            ({
                let n = taken_in_a_turn(old(self).pending@.len(), old(ring)@.queue.len()) as int;
                &&& n <= old(ring)@.queue.len()
                &&& final(self).pending@ == old(self).pending@ + old(ring)@.queue.take(n)
                &&& final(ring)@ == (crate::ring::RingState {
                    queue: old(ring)@.queue.skip(n),
                    ..old(ring)@
                })
                &&& final(self).pending@ + final(ring)@.queue == old(self).pending@
                    + old(ring)@.queue
            }),
            *final(self) == (Writer { pending: final(self).pending, ..*old(self) }),
    {
        let ghost queue = ring@.queue;
        let ghost start = self.pending@;
        let ghost mut done: int = 0;
        let ghost total = taken_in_a_turn(start.len(), queue.len()) as int;
        proof {
            lemma_taken(start.len(), queue.len());
            assert(queue.skip(0) =~= queue);
            assert(start + queue.take(0) =~= start);
        }
        let mut more = true;
        while more
            invariant
                ring.wf(),
                scratch@.len() == DRAIN_EVENTS,
                0 <= done <= queue.len(),
                ring@ == (crate::ring::RingState { queue: queue.skip(done), ..old(ring)@ }),
                self.pending@ == start + queue.take(done),
                *self == (Writer { pending: self.pending, ..*old(self) }),
                more ==> start.len() + done < PENDING_ENOUGH,
                more ==> done + taken_in_a_turn(
                    (start.len() + done) as nat,
                    (queue.len() - done) as nat,
                ) == total,
                !more ==> done == total,
                start.len() + total < PENDING_ENOUGH + DRAIN_EVENTS,
                total <= queue.len(),
            decreases
                    queue.len() - done,
                    if more {
                        1nat
                    } else {
                        0
                    },
        {
            let n: usize = ring.drain(scratch.as_mut_slice());
            if n == 0 {
                more = false;
            } else {
                let ghost from = self.pending@;
                let mut i: usize = 0;
                while i < n
                    invariant
                        i <= n <= scratch@.len(),
                        n <= queue.len() - done,
                        0 <= done <= queue.len(),
                        scratch@.take(n as int) == queue.skip(done).take(n as int),
                        self.pending@ == from + queue.skip(done).take(i as int),
                        *self == (Writer { pending: self.pending, ..*old(self) }),
                    decreases n - i,
                {
                    assert(scratch@[i as int] == scratch@.take(n as int)[i as int]);
                    self.pending.push(scratch[i]);
                    i = i + 1;
                    assert(self.pending@ =~= from + queue.skip(done).take(i as int));
                }
                proof {
                    assert(queue.take(done) + queue.skip(done).take(n as int) =~= queue.take(
                        done + n,
                    ));
                    assert(self.pending@ =~= start + queue.take(done + n));
                    assert(queue.skip(done).skip(n as int) =~= queue.skip(done + n));
                    done = done + n;
                }
                if self.pending.len() >= PENDING_ENOUGH {
                    more = false;
                }
            }
        }
        assert(queue.take(done) + queue.skip(done) =~= queue);
        assert(self.pending@ + ring@.queue =~= start + queue);
    }

    /// A frame is to be written: something is pending, and it is enough, or it has
    /// been a while, or the loop is about to end.
    pub open spec fn frame_due_spec(&self, now: u64, finishing: bool) -> bool {
        &&& self.pending@.len() > 0
        &&& self.pending@.len() >= FRAME_EVENTS || now - self.last_frame >= FRAME_INTERVAL_NS
            || finishing
    }

    /// Whether a frame is to be written.
    pub fn frame_due(&self, now: u64, finishing: bool) -> (due: bool)
        requires
            self.last_frame <= now,
        ensures
            due == self.frame_due_spec(now, finishing),
    {
        self.pending.len() > 0 && (self.pending.len() >= FRAME_EVENTS || now - self.last_frame
            >= FRAME_INTERVAL_NS || finishing)
    }

    /// The frame that stores all that is pending, to be appended to the segment.
    pub fn frame(&mut self) -> (r: Result<Vec<u8>, SegmentError>)
        requires
            old(self).wf(),
        ensures
            final(self).wf(),
            stages(
                old(self).active.seg,
                final(self).active.seg,
                old(self).pending@,
                r,
            ),
            *final(self) == (Writer {
                active: Active { seg: final(self).active.seg, ..old(self).active },
                ..*old(self)
            }),
    {
        self.active.seg.write_frame(self.pending.as_slice())
    }

    /// Takes note of what came of the frame that `frame` gave, and of how long that
    /// took. Returns whether the segment is full.
    pub fn frame_done(
        &mut self,
        status: &mut SharedStatus,
        outcome: FrameOutcome,
        latency_us: u64,
        now: u64,
    ) -> (full: bool)
        requires
            old(self).wf(),
            old(status).wf(),
            committable(old(self).active),
            outcome != FrameOutcome::Written ==> old(self).active.session.header.writer_errors
                < u64::MAX,
        ensures
            final(self).wf(),
            frame_noted(*old(self), *final(self), outcome, latency_us, now),
            final(status).wf(),
            batch_shown(*old(status), *final(status), old(self).pending@, latency_us),
            full == (final(self).active.seg.bytes_spec() >= ROTATE_BYTES),
            full <==> final(self).active.seg.bytes_spec() >= 268_435_456,
    {
        self.active.seg.commit(outcome != FrameOutcome::WriteFailed);
        if outcome != FrameOutcome::Written {
            self.active.session.header.writer_errors = self.active.session.header.writer_errors + 1;
        }
        if latency_us > self.max_latency_us {
            self.max_latency_us = latency_us;
        }
        status.on_batch(&self.pending, latency_us);
        self.pending = Vec::new();
        self.last_frame = now;
        self.active.seg.bytes_written() >= ROTATE_BYTES
    }

    /// Whether buffered data is to be forced onto the disk.
    pub fn sync_due(&self, now: u64) -> (due: bool)
        requires
            self.last_sync <= now,
        ensures
            due == (now - self.last_sync >= SYNC_INTERVAL_NS),
            due <==> now >= self.last_sync + 60_000_000_000,
    {
        now - self.last_sync >= SYNC_INTERVAL_NS
    }

    /// Takes note of whether that worked.
    pub fn synced(&mut self, ok: bool, now: u64)
        requires
            !ok ==> old(self).active.session.header.writer_errors < u64::MAX,
        ensures
            *final(self) == (Writer {
                active: with_errors(
                    old(self).active,
                    if ok {
                        0
                    } else {
                        1
                    },
                ),
                last_sync: now,
                ..*old(self)
            }),
    {
        if !ok {
            self.active.count_error();
        }
        self.last_sync = now;
    }

    /// Why the session is to be replaced now, if it is.
    pub open spec fn rotation_spec(
        &self,
        asked: Option<String>,
        woke: bool,
        now_hour: u8,
        now: u64,
    ) -> Option<Seq<char>> {
        match asked {
            Some(reason) => Some(reason@),
            None => if now - self.session_start >= MIN_SESSION_LIFETIME_NS {
                automatic_reason(woke, now_hour, self.session_hour)
            } else {
                None
            },
        }
    }

    /// The same loop with that decided. An hour that trips a session too young to be
    /// replaced is taken over.
    pub open spec fn past_rotation(
        self,
        asked: bool,
        woke: bool,
        now_hour: u8,
        now: u64,
    ) -> Writer {
        let tripped = !asked && automatic_reason(woke, now_hour, self.session_hour) is Some;
        Writer {
            session_hour: if tripped && now - self.session_start < MIN_SESSION_LIFETIME_NS {
                now_hour
            } else {
                self.session_hour
            },
            ..self
        }
    }

    /// Decides whether the session is to be replaced, and why.
    ///
    /// A user request always wins; it is an explicit instruction. An automatic one is
    /// dropped while the session is too young to be worth keeping; the hour is then
    /// taken over, so that it does not trip again on every turn until the next hour.
    pub fn rotation(
        &mut self,
        asked: Option<String>,
        woke: bool,
        now_hour: u8,
        now: u64,
    ) -> (reason: Option<String>)
        requires
            old(self).session_start <= now,
        ensures
            crate::context::foreground::text_of(reason) == old(self).rotation_spec(
                asked,
                woke,
                now_hour,
                now,
            ),
            *final(self) == old(self).past_rotation(asked is Some, woke, now_hour, now),
            asked is None && !woke && now >= old(self).session_start + 30_000_000_000 ==> {
                &&& reason is Some <==> now_hour != old(self).session_hour
                &&& reason matches Some(text) ==> text@ == "hourly_rollover"@
            },
            asked is None && woke && now >= old(self).session_start + 30_000_000_000 ==> (
            reason matches Some(text) && text@ == "resume_from_sleep"@),
            asked is None && now < old(self).session_start + 30_000_000_000 ==> reason is None,
            asked is Some ==> reason == asked,
    {
        if asked.is_some() {
            return asked;
        }
        let automatic = if woke {
            "resume_from_sleep"
        } else if now_hour != self.session_hour {
            "hourly_rollover"
        } else {
            return None;
        };
        if now - self.session_start >= MIN_SESSION_LIFETIME_NS {
            Some(automatic.to_owned())
        } else {
            self.session_hour = now_hour;
            None
        }
    }

    /// The last frame of a session that is to be replaced: what is pending belongs to
    /// it. Nothing where nothing is pending.
    pub fn last_frame_of_session(&mut self) -> (r: Option<Vec<u8>>)
        requires
            old(self).wf(),
        ensures
            final(self).wf(),
            last_frame_taken(*old(self), *final(self), r),
    {
        let frame = self.active.seg.write_frame(self.pending.as_slice());
        let empty = self.pending.len() == 0;
        self.pending = Vec::new();
        match frame {
            Ok(f) => if empty {
                None
            } else {
                Some(f)
            },
            Err(_) => None,
        }
    }

    /// Takes the session out of the loop, to be closed. What is pending went into its
    /// last frame, so that no event lands in the wrong session.
    pub fn retire(self) -> (r: (Active, Between))
        requires
            self.pending@.len() == 0,
        ensures
            r.0 == self.active,
            r.1 == (Between { last_frame: self.last_frame, last_health: self.last_health }),
    {
        (
            self.active,
            Between { last_frame: self.last_frame, last_health: self.last_health },
        )
    }

    /// Whether health is to be sampled.
    pub fn health_due(&self, now: u64, finishing: bool) -> (due: bool)
        requires
            self.last_health <= now,
        ensures
            due == (now - self.last_health >= HEALTH_INTERVAL_NS || finishing),
            !due <==> !finishing && now < self.last_health + 30_000_000_000,
    {
        now - self.last_health >= HEALTH_INTERVAL_NS || finishing
    }

    /// Takes note that health was sampled, and of whether the header was saved.
    pub fn health_done(&mut self, saved: bool, now: u64)
        requires
            !saved ==> old(self).active.session.header.writer_errors < u64::MAX,
        ensures
            *final(self) == (Writer {
                active: with_errors(
                    old(self).active,
                    if saved {
                        0
                    } else {
                        1
                    },
                ),
                last_health: now,
                ..*old(self)
            }),
    {
        if !saved {
            self.active.count_error();
        }
        self.last_health = now;
    }

    /// Whether the loop is to end: it was told to, and everything is stored.
    pub fn finished(&self, finishing: bool, depth: u64) -> (r: bool)
        ensures
            r == (finishing && self.pending@.len() == 0 && depth == 0),
    {
        finishing && self.pending.len() == 0 && depth == 0
    }
}

/// `after` is `before` with what came of its frame noted.
pub open spec fn frame_noted(
    before: Writer,
    after: Writer,
    outcome: FrameOutcome,
    latency_us: u64,
    now: u64,
) -> bool {
    &&& after.pending@.len() == 0
    &&& commits(before.active.seg, after.active.seg, outcome != FrameOutcome::WriteFailed)
    &&& after == (Writer {
        active: Active {
            seg: after.active.seg,
            ..with_errors(
                before.active,
                if outcome == FrameOutcome::Written {
                    0
                } else {
                    1
                },
            )
        },
        pending: after.pending,
        last_frame: now,
        max_latency_us: if latency_us > before.max_latency_us {
            latency_us
        } else {
            before.max_latency_us
        },
        ..before
    })
}

/// The same with that session as the current one.
pub open spec fn adopting(status: SharedStatus, s: Session) -> SharedStatus {
    SharedStatus {
        id: s.header.session_id,
        dir: s.dir,
        session_start_unix_ms: s.header.start_unix_ms,
        sessions_started: crate::ring::counted(status.sessions_started),
        ..status
    }
}

/// `after` is `before` with that batch taken in.
pub open spec fn batch_shown(
    before: SharedStatus,
    after: SharedStatus,
    batch: Seq<Event>,
    latency_us: u64,
) -> bool {
    &&& after.per_device@ == attributed(before.per_device@, batch)
    &&& after.recent@ == last_of(before.recent@ + batch, RECENT_CAPACITY as nat)
    &&& after == (SharedStatus {
        last_write_latency_us: latency_us,
        last_batch_size: batch.len() as u64,
        per_device: after.per_device,
        recent: after.recent,
        ..before
    })
}

/// `r` is the last frame of the session of `before`, if it has one, and `after` waits
/// to hear of it.
pub open spec fn last_frame_taken(before: Writer, after: Writer, r: Option<Vec<u8>>) -> bool {
    &&& match r {
        Some(f) => {
            &&& before.pending@.len() > 0
            &&& f@ == crate::storage::segment::frame_of(before.pending@)
            &&& crate::storage::segment::stores(f@, before.pending@)
            &&& after.active.seg.staged_spec() == Some((before.pending@.len(), f@.len()))
        },
        None => after.active.seg.staged_spec() is None,
    }
    &&& r is Some <==> before.pending@.len() > 0 && crate::storage::segment::compresses(
        before.pending@,
    )
    &&& after.pending@.len() == 0
    &&& same_totals(before.active.seg, after.active.seg)
    &&& after == (Writer {
        active: Active { seg: after.active.seg, ..before.active },
        pending: after.pending,
        ..before
    })
}

/// The totals of both are the same.
pub open spec fn same_totals(a: SegmentWriter, b: SegmentWriter) -> bool {
    &&& a.path_spec() == b.path_spec()
    &&& a.events_spec() == b.events_spec()
    &&& a.bytes_spec() == b.bytes_spec()
    &&& a.frames_spec() == b.frames_spec()
}

/// `r` is the frame for these events, and `after` waits to hear of it.
pub open spec fn stages(
    before: SegmentWriter,
    after: SegmentWriter,
    events: Seq<Event>,
    r: Result<Vec<u8>, SegmentError>,
) -> bool {
    &&& same_totals(before, after)
    &&& r is Ok <==> events.len() == 0 || crate::storage::segment::compresses(events)
    &&& match r {
        Ok(f) if events.len() > 0 => {
            &&& f@ == crate::storage::segment::frame_of(events)
            &&& crate::storage::segment::stores(f@, events)
            &&& after.staged_spec() == Some((events.len(), f@.len()))
        },
        Ok(f) => f@.len() == 0 && after.staged_spec() is None,
        Err(e) => e == SegmentError::Compression && after.staged_spec() is None,
    }
}

/// The totals have room for the frame that waits.
pub open spec fn committable(a: Active) -> bool {
    a.seg.staged_spec() matches Some((events, bytes)) ==> {
        &&& a.written_spec() + events <= u64::MAX
        &&& a.seg.bytes_spec() + bytes <= u64::MAX
        &&& a.seg.frames_spec() + 1 <= u64::MAX
    }
}

/// `after` counts the frame that waited, if it was written.
pub open spec fn commits(before: SegmentWriter, after: SegmentWriter, written: bool) -> bool {
    &&& after.path_spec() == before.path_spec()
    &&& after.staged_spec() is None
    &&& match before.staged_spec() {
        Some((events, bytes)) if written => {
            &&& after.events_spec() == before.events_spec() + events
            &&& after.bytes_spec() == before.bytes_spec() + bytes
            &&& after.frames_spec() == before.frames_spec() + 1
        },
        _ => {
            &&& after.events_spec() == before.events_spec()
            &&& after.bytes_spec() == before.bytes_spec()
            &&& after.frames_spec() == before.frames_spec()
        },
    }
}

// ---- laws -----------------------------------------------------------------------------

/// Waking up replaces a session once: right behind it, neither the hour nor another
/// notice of the same wake-up does so again.
pub proof fn law_no_second_rollover_on_a_young_session(
    w: Writer,
    woke: bool,
    now_hour: u8,
    now: u64,
)
    requires
        w.session_start <= now,
        now - w.session_start < MIN_SESSION_LIFETIME_NS,
    ensures
        w.rotation_spec(None, woke, now_hour, now) is None,
{
}

/// What the user asks for is done, however young the session is.
pub proof fn law_a_user_request_always_rolls_over(
    w: Writer,
    reason: String,
    woke: bool,
    now_hour: u8,
    now: u64,
)
    ensures
        w.rotation_spec(Some(reason), woke, now_hour, now) == Some(reason@),
{
}

/// A queue that a turn leaves events in has left enough of them pending for a frame.
pub proof fn law_a_turn_takes_all_or_enough(pending: nat, queued: nat)
    requires
        pending < PENDING_ENOUGH,
    ensures
        taken_in_a_turn(pending, queued) == queued || pending + taken_in_a_turn(pending, queued)
            >= PENDING_ENOUGH,
{
    lemma_taken(pending, queued);
}

/// A session that has lived for half a minute is replaced as soon as the local hour is
/// another one, later in the day or earlier, as from 23 to 0; and in its own hour never.
pub proof fn law_every_other_hour_rolls_over(w: Writer, now_hour: u8, now: u64)
    requires
        w.session_start + 30_000_000_000 <= now,
    ensures
        now_hour != w.session_hour ==> w.rotation_spec(None, false, now_hour, now) == Some(
            "hourly_rollover"@,
        ),
        now_hour == w.session_hour ==> w.rotation_spec(None, false, now_hour, now) is None,
{
}

/// It does not matter which of two hours comes first: the change between them rolls over
/// both ways, or neither way.
pub proof fn law_rollover_is_the_same_both_ways(a: Writer, b: Writer, now: u64)
    requires
        a.session_start == b.session_start,
    ensures
        a.rotation_spec(None, false, b.session_hour, now) == b.rotation_spec(
            None,
            false,
            a.session_hour,
            now,
        ),
{
}

/// Over a day of hours, one after another, a session is replaced in each of them: the hour
/// that follows another one is never the same.
pub proof fn law_the_next_hour_rolls_over(w: Writer, now: u64)
    requires
        w.session_hour < 24,
        w.session_start + 30_000_000_000 <= now,
    ensures
        w.rotation_spec(None, false, ((w.session_hour + 1) % 24) as u8, now) == Some(
            "hourly_rollover"@,
        ),
{
}

/// Waking up replaces a session that has lived for half a minute, whatever the hour, and
/// is told apart from the hour.
pub proof fn law_waking_up_rolls_over(w: Writer, now_hour: u8, now: u64)
    requires
        w.session_start + 30_000_000_000 <= now,
    ensures
        w.rotation_spec(None, true, now_hour, now) == Some("resume_from_sleep"@),
        "resume_from_sleep"@ != "hourly_rollover"@,
{
    reveal_strlit("resume_from_sleep");
    reveal_strlit("hourly_rollover");
    assert("resume_from_sleep"@.len() != "hourly_rollover"@.len());
}

/// An hour that came too early for a young session does not come up again: from then on
/// the session counts as one of that hour. Otherwise it stays with the hour it has.
pub proof fn law_an_hour_that_came_too_early_is_taken_over(
    w: Writer,
    woke: bool,
    now_hour: u8,
    now: u64,
    later: u64,
)
    requires
        w.session_start <= now <= later,
    ensures
        ({
            let next = w.past_rotation(false, woke, now_hour, now);
            &&& now < w.session_start + 30_000_000_000 ==> next.session_hour == now_hour
                && next.rotation_spec(None, false, now_hour, later) is None
            &&& now >= w.session_start + 30_000_000_000 ==> next.session_hour == w.session_hour
            &&& w.past_rotation(true, woke, now_hour, now) == w
            &&& next == (Writer { session_hour: next.session_hour, ..w })
        }),
{
}

/// Nothing that is pending waits for its frame longer than a second, or once 8192 events
/// have gathered, or when the loop is told to end; and no frame is made of nothing.
pub proof fn law_pending_events_are_written_in_time(w: Writer, now: u64, finishing: bool)
    requires
        w.last_frame <= now,
    ensures
        w.pending@.len() == 0 ==> !w.frame_due_spec(now, finishing),
        w.pending@.len() > 0 && finishing ==> w.frame_due_spec(now, finishing),
        w.pending@.len() >= 8192 ==> w.frame_due_spec(now, finishing),
        w.pending@.len() > 0 && now >= w.last_frame + 1_000_000_000 ==> w.frame_due_spec(
            now,
            finishing,
        ),
        w.pending@.len() < 8192 && now < w.last_frame + 1_000_000_000 && !finishing
            ==> !w.frame_due_spec(now, finishing),
{
}

/// How many of the events are of that device.
pub open spec fn events_from(events: Seq<Event>, dev: int) -> nat
    decreases events.len(),
{
    if events.len() == 0 {
        0
    } else {
        events_from(events.drop_last(), dev) + if events.last().dev == dev {
            1nat
        } else {
            0
        }
    }
}

/// Each device is credited with its own events and with no others.
pub proof fn law_each_device_is_credited_with_its_own_events(
    counts: Seq<u64>,
    events: Seq<Event>,
    dev: int,
)
    requires
        0 <= dev < counts.len(),
        counts[dev] + events.len() <= u64::MAX,
    ensures
        attributed(counts, events).len() == counts.len(),
        attributed(counts, events)[dev] == counts[dev] + events_from(events, dev),
        events_from(events, dev) <= events.len(),
    decreases events.len(),
{
    if events.len() > 0 {
        law_each_device_is_credited_with_its_own_events(counts, events.drop_last(), dev);
    }
}

/// The tail of the stream ends with the newest events, in order, and holds 2000 of them
/// as soon as there were so many.
pub proof fn law_the_tail_ends_with_the_newest(before: Seq<Event>, batch: Seq<Event>, i: int)
    requires
        before.len() <= 2000,
    ensures
        ({
            let all = before + batch;
            let tail = last_of(all, RECENT_CAPACITY as nat);
            &&& tail.len() == if all.len() <= 2000 {
                all.len()
            } else {
                2000
            }
            &&& 0 <= i < tail.len() ==> tail[tail.len() - 1 - i] == all[all.len() - 1 - i]
        }),
{
}

/// What a session claims is what was counted since it began: together with what was
/// counted before, it gives the counts of the whole run. A loss that was noted is known
/// by its first and last timestamp.
pub proof fn law_totals_of_sessions_add_up(
    a: Active,
    synced: bool,
    counters: Counters,
    max_latency_us: u64,
)
    requires
        a.base_reports <= counters.reports,
        a.base_dropped <= counters.dropped,
        a.written_spec() <= u64::MAX,
        a.session.header.writer_errors < u64::MAX,
    ensures
        ({
            let closing = closing_header(a, synced, counters, max_latency_us);
            let healthy = healthy_header(a, counters, max_latency_us);
            &&& a.base_reports + closing.reports_received == counters.reports
            &&& a.base_dropped + closing.events_dropped == counters.dropped
            &&& closing.events_written == a.carried_events + a.seg.events_spec()
            &&& a.base_reports + healthy.reports_received == counters.reports
            &&& a.base_dropped + healthy.events_dropped == counters.dropped
            &&& healthy.events_written == closing.events_written
            &&& counters.drop_range matches Some((first, last)) ==> {
                &&& closing.first_drop_t_ns == Some(first) && closing.last_drop_t_ns == Some(last)
                &&& healthy.first_drop_t_ns == Some(first) && healthy.last_drop_t_ns == Some(last)
            }
            &&& closing.peak_queue_depth == counters.peak
            &&& healthy.peak_queue_depth == counters.peak
            &&& closing.max_write_latency_us == max_latency_us
            &&& healthy.max_write_latency_us == max_latency_us
            &&& closing.writer_errors - a.session.header.writer_errors == if synced {
                0int
            } else {
                1
            }
            &&& healthy.writer_errors == a.session.header.writer_errors
            &&& closing.session_id == a.session.header.session_id
            &&& healthy.session_id == a.session.header.session_id
            &&& closing.segments == a.session.header.segments
            &&& closing.clean_shutdown == a.session.header.clean_shutdown
        }),
{
}

/// Counting an error leaves everything else as it is.
pub proof fn law_an_error_is_only_counted(a: Active)
    requires
        a.session.header.writer_errors < u64::MAX,
    ensures
        ({
            let b = with_errors(a, 1);
            &&& b.session.header.writer_errors == a.session.header.writer_errors + 1
            &&& with_errors(a, 0) == a
            &&& b.seg == a.seg && b.carried_events == a.carried_events
            &&& b.session.header.events_written == a.session.header.events_written
            &&& b.session.dir == a.session.dir
        }),
{
}

/// The machine woke up exactly where a power event says that it resumed.
pub proof fn law_only_resuming_wakes(rec: ContextRecord)
    ensures
        wakes(rec) ==> rec is Power,
        rec matches ContextRecord::Power { event, .. } ==> (wakes(rec) <==> exists|rest: Seq<char>|
            #![auto]
            event@ == "resume"@ + rest),
{
    if let ContextRecord::Power { event, .. } = rec {
        reveal_strlit("resume");
        if wakes(rec) {
            assert(event@ =~= "resume"@ + event@.skip(6));
        }
        assert forall|rest: Seq<char>| event@ == #[trigger] ("resume"@ + rest) implies wakes(rec) by {
            assert(event@.take(6) =~= "resume"@);
        }
    }
}

/// A turn of the loop takes all that is queued where it makes no more than 32768 events
/// with those pending.
pub proof fn law_a_turn_takes_a_queue_that_fits(pending: nat, queued: nat)
    requires
        pending + queued <= 32768,
        pending < 32768,
    ensures
        taken_in_a_turn(pending, queued) == queued,
    decreases queued,
{
    let n = if queued <= 8192 {
        queued
    } else {
        8192
    };
    if n > 0 && pending + n < 32768 {
        law_a_turn_takes_a_queue_that_fits(pending + n, (queued - n) as nat);
    }
}

/// The bounds of the loop, as they are.
pub proof fn law_bounds_of_the_loop()
    ensures
        POLL_MS == 20,
        HEALTH_INTERVAL_NS == 30_000_000_000,
        SYNC_INTERVAL_NS == 2 * HEALTH_INTERVAL_NS,
        MIN_SESSION_LIFETIME_NS == 30_000_000_000,
        ROTATE_BYTES == 256 * 1024 * 1024,
        DRAIN_EVENTS == FRAME_EVENTS,
        RECENT_CAPACITY == 2000,
        RECENT_SHOWN == 200,
        MAX_DEVICES == 16,
{
}

} // verus!
