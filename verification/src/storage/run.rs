//! The loop of the storing side.
//!
//! The loop never touches a file itself. It says what is to be done next (`Action`),
//! and the program around the library does it and tells what came of it (`Answer`).
//! Each turn stores what the queue holds, follows the context, forces data onto the
//! disk once in a while, replaces the session where that is due, samples health and
//! publishes the totals, in this order. The loop ends when it was told to and
//! everything is stored, or when a session cannot be opened.

use vstd::prelude::*;

use crate::context::ContextRecord;
use crate::event::Event;
use crate::ring::Ring;
use crate::storage::segment::SegmentError;
use crate::storage::session::Session;
use crate::storage::writer::{
    with_resolution, Active, Between, Counters, FrameOutcome, SharedStatus, Writer, WriterCmd,
};

verus! {

/// Why a session is replaced, and in which local hour.
#[derive(Debug)]
pub struct Rollover {
    pub reason: String,
    pub hour: u8,
}

/// What a running session waits to hear of.
#[derive(Debug)]
pub enum Turn {
    /// The next turn.
    Begin,
    /// Nothing: the turn took its events, and is to go on.
    Taken,
    /// The frame of all that is pending.
    Frame,
    /// The file of the next segment.
    Segment,
    /// The next change of context.
    Context,
    /// What this window is.
    Resolve(ContextRecord),
    /// The record for the timeline. A sample of health comes with its counters.
    Note(Option<Counters>),
    /// Whether data reached the disk.
    Sync,
    /// What was asked of the storing side, and the hour.
    Commands,
    /// The last frame of a session that is replaced.
    LastFrame(Rollover),
    /// The end of the session: it is replaced, or the loop ends.
    Close(Option<Rollover>),
    /// A sample of health.
    Sample,
    /// The header with that sample.
    Save,
    /// The totals of the queue.
    Totals,
}

/// A running session, in the middle of a turn.
pub struct Running {
    pub w: Writer,
    pub at: Turn,
    /// The loop was told to end.
    pub finishing: bool,
    /// The machine woke up in this turn.
    pub woke: bool,
}

/// The loop.
pub enum Run {
    /// The files of a session are being opened. A session that replaces another goes
    /// on with its clocks, in the hour of the rollover.
    Opening(Active, Option<(Between, u8)>),
    Running(Running),
    /// A session was closed, and the next one is to be created.
    Replacing(Between, u8),
    Ended,
}

/// What is to be done next.
#[derive(Debug)]
pub enum Action {
    /// Create the file of that name with that header, and open the timeline.
    Open { name: String, header: Vec<u8>, timeline: &'static str },
    /// Begin the next turn, after a pause or at once.
    Turn { pause: bool },
    /// Append the frame to the segment and flush it.
    Append(Result<Vec<u8>, SegmentError>),
    /// Force the segment onto the disk, and create the file of the next one.
    Create { name: String, header: Vec<u8> },
    /// Receive a change of context, if there is one.
    Receive,
    /// Find out what that window is.
    Resolve(isize),
    /// Write the record to the timeline.
    Note(ContextRecord),
    /// Force the segment and the timeline onto the disk.
    Sync,
    /// Find out what was asked, and the hour.
    Ask,
    /// Append the last frame of the session to its segment.
    AppendLast(Vec<u8>),
    /// Force the files of the session onto the disk, and close them.
    Close,
    /// Save the header of the session that was closed, and create the next one.
    Replace { closed: Session, reason: String },
    /// Sample the counters of the capturing side.
    Sample,
    /// Flush the timeline and save the header of the session.
    Save,
    /// Find out the totals of the queue.
    Totals,
    /// Save the header of the session that was closed, and end.
    Finish(Session),
    /// End.
    Stop,
}

/// What came of it.
#[derive(Debug)]
pub enum Answer {
    Opened { ok: bool, hour: u8 },
    Appended { outcome: FrameOutcome, latency_us: u64 },
    Created(bool),
    Received(Option<ContextRecord>),
    Resolved(Option<u32>, Option<String>, Option<String>),
    Noted(bool),
    Synced(bool),
    Asked { cmds: Vec<WriterCmd>, hour: u8 },
    LastAppended(bool),
    Closing { synced: bool, counters: Counters, now_ms: u64 },
    Next(Option<Session>, Counters),
    Sampled { t_ns: u64, counters: Counters, depth: u64 },
    Saved(bool),
    Totals { dropped: u64, depth: u64 },
}

impl Answer {
    /// It tells of an error that is to be counted.
    pub open spec fn is_error_spec(&self) -> bool {
        match *self {
            Answer::Appended { outcome, .. } => outcome != FrameOutcome::Written,
            Answer::Created(ok) => !ok,
            Answer::Noted(ok) => !ok,
            Answer::Synced(ok) => !ok,
            Answer::Closing { synced, .. } => !synced,
            Answer::Saved(ok) => !ok,
            _ => false,
        }
    }

    /// Whether it tells of an error that is to be counted.
    pub fn is_error(&self) -> (r: bool)
        ensures
            r == self.is_error_spec(),
    {
        match self {
            Answer::Appended { outcome, .. } => *outcome != FrameOutcome::Written,
            Answer::Created(ok) => !*ok,
            Answer::Noted(ok) => !*ok,
            Answer::Synced(ok) => !*ok,
            Answer::Closing { synced, .. } => !*synced,
            Answer::Saved(ok) => !*ok,
            _ => false,
        }
    }
}

/// What was asked last, if anything was.
pub open spec fn last_asked_spec(cmds: Seq<WriterCmd>) -> Option<String> {
    if cmds.len() == 0 {
        None
    } else {
        match cmds.last() {
            WriterCmd::NewSession(reason) => Some(reason),
        }
    }
}

/// What was asked last, if anything was.
pub fn last_asked(cmds: Vec<WriterCmd>) -> (r: Option<String>)
    ensures
        r == last_asked_spec(cmds@),
{
    let mut cmds = cmds;
    match cmds.pop() {
        Some(WriterCmd::NewSession(reason)) => Some(reason),
        None => None,
    }
}

// ---- where a turn goes on -------------------------------------------------------------

impl Running {
    /// Few events wait between the steps of a turn, and none for a session that closes or
    /// a loop that ends, but for those just taken or in a frame being written. A frame that was
    /// handed out is heard of before anything else.
    pub open spec fn wf(&self) -> bool {
        &&& self.w.wf()
        &&& self.w.active.seg.staged_spec() is Some ==> self.at is Frame || self.at is LastFrame
        &&& self.finishing && !(self.at is Taken || self.at is Frame) ==> self.w.pending@.len()
            == 0
        &&& match self.at {
            Turn::Taken => true,
            Turn::Frame => self.w.pending@.len() > 0,
            Turn::LastFrame(_) => self.w.pending@.len() == 0,
            Turn::Close(why) => self.w.pending@.len() == 0 && (why is None ==> self.finishing),
            Turn::Resolve(rec) => self.w.pending@.len() < crate::storage::segment::FRAME_EVENTS
                && rec is Foreground,
            _ => self.w.pending@.len() < crate::storage::segment::FRAME_EVENTS,
        }
    }

    /// The clocks of the loop do not run ahead.
    pub open spec fn in_time(&self, now: u64) -> bool {
        &&& self.w.last_frame <= now
        &&& self.w.last_health <= now
        &&& self.w.last_sync <= now
        &&& self.w.session_start <= now
    }

    fn is_in_time(&self, now: u64) -> (r: bool)
        ensures
            r == self.in_time(now),
    {
        self.w.last_frame <= now && self.w.last_health <= now && self.w.last_sync <= now
            && self.w.session_start <= now
    }

    /// The turn goes on with the context.
    pub open spec fn to_context_spec(self) -> (Running, Action) {
        (Running { at: Turn::Context, ..self }, Action::Receive)
    }

    fn to_context(self) -> (r: (Running, Action))
        ensures
            r == self.to_context_spec(),
    {
        (Running { at: Turn::Context, ..self }, Action::Receive)
    }

    /// The turn goes on with the commands.
    pub open spec fn to_commands_spec(self) -> (Running, Action) {
        (Running { at: Turn::Commands, ..self }, Action::Ask)
    }

    fn to_commands(self) -> (r: (Running, Action))
        ensures
            r == self.to_commands_spec(),
    {
        (Running { at: Turn::Commands, ..self }, Action::Ask)
    }

    /// The turn goes on with forcing data onto the disk, where that is due.
    pub open spec fn to_sync_spec(self, now: u64) -> (Running, Action) {
        if now - self.w.last_sync >= crate::storage::writer::SYNC_INTERVAL_NS {
            (Running { at: Turn::Sync, ..self }, Action::Sync)
        } else {
            self.to_commands_spec()
        }
    }

    fn to_sync(self, now: u64) -> (r: (Running, Action))
        requires
            self.in_time(now),
        ensures
            r == self.to_sync_spec(now),
    {
        if self.w.sync_due(now) {
            (Running { at: Turn::Sync, ..self }, Action::Sync)
        } else {
            self.to_commands()
        }
    }

    /// The turn goes on with the totals.
    pub open spec fn to_totals_spec(self) -> (Running, Action) {
        (Running { at: Turn::Totals, ..self }, Action::Totals)
    }

    fn to_totals(self) -> (r: (Running, Action))
        ensures
            r == self.to_totals_spec(),
    {
        (Running { at: Turn::Totals, ..self }, Action::Totals)
    }

    /// The turn goes on with health, where that is due.
    pub open spec fn to_health_spec(self, now: u64) -> (Running, Action) {
        if now - self.w.last_health >= crate::storage::writer::HEALTH_INTERVAL_NS
            || self.finishing {
            (Running { at: Turn::Sample, ..self }, Action::Sample)
        } else {
            self.to_totals_spec()
        }
    }

    fn to_health(self, now: u64) -> (r: (Running, Action))
        requires
            self.w.last_health <= now,
        ensures
            r == self.to_health_spec(now),
    {
        if self.w.health_due(now, self.finishing) {
            (Running { at: Turn::Sample, ..self }, Action::Sample)
        } else {
            self.to_totals()
        }
    }
}

// ---- events -----------------------------------------------------------------------------

/// A turn took events from the queue, as many as a turn takes.
pub open spec fn taken(
    before: Running,
    queue: Seq<Event>,
    finishing: bool,
    after: Running,
    left: Seq<Event>,
) -> bool {
    let n = crate::storage::writer::taken_in_a_turn(before.w.pending@.len(), queue.len()) as int;
    &&& n <= queue.len()
    &&& after.w.pending@ == before.w.pending@ + queue.take(n)
    &&& left == queue.skip(n)
    &&& after == (Running {
        w: Writer { pending: after.w.pending, ..before.w },
        at: Turn::Taken,
        finishing,
        woke: false,
    })
}

/// All that is pending is handed out as a frame where that is due.
pub open spec fn begun(before: Running, now: u64, after: Running, action: Action) -> bool {
    if before.w.frame_due_spec(now, before.finishing) {
        &&& after == (Running {
            w: Writer {
                active: Active { seg: after.w.active.seg, ..before.w.active },
                ..before.w
            },
            at: Turn::Frame,
            ..before
        })
        &&& action matches Action::Append(frame) && crate::storage::writer::stages(
            before.w.active.seg,
            after.w.active.seg,
            before.w.pending@,
            frame,
        )
    } else {
        (after, action) == before.to_context_spec()
    }
}

/// The frame was handed to the disk. Where the segment is full, the next one follows.
pub open spec fn appended(
    before: Running,
    status: SharedStatus,
    outcome: FrameOutcome,
    latency_us: u64,
    now: u64,
    after: Running,
    shown: SharedStatus,
    action: Action,
) -> bool {
    let noted = Running { w: after.w, ..before };
    &&& crate::storage::writer::frame_noted(before.w, after.w, outcome, latency_us, now)
    &&& crate::storage::writer::batch_shown(status, shown, before.w.pending@, latency_us)
    &&& if after.w.active.seg.bytes_spec() >= crate::storage::writer::ROTATE_BYTES {
        &&& after == (Running { at: Turn::Segment, ..noted })
        &&& action matches Action::Create { name, header } && {
            &&& name@ == crate::storage::session::segment_name_spec(
                (before.w.active.seg_index + 1) as u32,
            )
            &&& header@ == crate::storage::segment::header_bytes()
        }
    } else {
        (after, action) == noted.to_context_spec()
    }
}

/// The next segment was created, or the session stays with the one it has.
pub open spec fn created(before: Running, ok: bool, after: Running, action: Action) -> bool {
    &&& if ok {
        &&& crate::storage::writer::rolled_over(before.w.active, after.w.active)
        &&& after.w == (Writer { active: after.w.active, ..before.w })
    } else {
        after.w == (Writer {
            active: crate::storage::writer::with_errors(before.w.active, 1),
            ..before.w
        })
    }
    &&& (after, action) == (Running { w: after.w, ..before }).to_context_spec()
}

// ---- context ----------------------------------------------------------------------------

/// The header follows the change of context, which then goes to the timeline.
pub open spec fn followed(
    before: Running,
    rec: ContextRecord,
    after: Running,
    action: Action,
) -> bool {
    &&& action == Action::Note(rec)
    &&& crate::storage::writer::follows(
        after.w.active.session.header,
        before.w.active.session.header,
        rec,
    )
    &&& after.w.active.session.dir == before.w.active.session.dir
    &&& after == (Running {
        w: Writer {
            active: Active { session: after.w.active.session, ..before.w.active },
            ..before.w
        },
        at: Turn::Note(None),
        woke: before.woke || crate::storage::writer::wakes(rec),
        ..before
    })
}

/// A change of context was received. A window has to be resolved first.
pub open spec fn received(
    before: Running,
    rec: Option<ContextRecord>,
    now: u64,
    after: Running,
    action: Action,
) -> bool {
    match rec {
        None => (after, action) == before.to_sync_spec(now),
        Some(rec) => match rec {
            ContextRecord::Foreground { hwnd, .. } => {
                &&& after == (Running { at: Turn::Resolve(rec), ..before })
                &&& action == Action::Resolve(hwnd)
            },
            _ => followed(before, rec, after, action),
        },
    }
}

/// A window was resolved.
pub open spec fn resolved(
    before: Running,
    what: (Option<u32>, Option<String>, Option<String>),
    after: Running,
    action: Action,
) -> bool {
    before.at matches Turn::Resolve(ContextRecord::Foreground { t_ns, hwnd, .. }) && followed(
        before,
        ContextRecord::Foreground { t_ns, hwnd, pid: what.0, exe: what.1, title: what.2 },
        after,
        action,
    )
}

/// The record went to the timeline, or an error is counted. A sample of health then
/// goes into the header; behind anything else comes the next change of context.
pub open spec fn noted(before: Running, ok: bool, after: Running, action: Action) -> bool {
    let counted = Running {
        w: Writer {
            active: crate::storage::writer::with_errors(
                before.w.active,
                if ok {
                    0
                } else {
                    1
                },
            ),
            ..before.w
        },
        ..before
    };
    match before.at {
        Turn::Note(Some(counters)) => {
            &&& after == (Running {
                w: Writer {
                    active: Active {
                        session: Session {
                            header: crate::storage::writer::healthy_header(
                                counted.w.active,
                                counters,
                                before.w.max_latency_us,
                            ),
                            dir: before.w.active.session.dir,
                        },
                        ..before.w.active
                    },
                    ..before.w
                },
                at: Turn::Save,
                ..before
            })
            &&& action == Action::Save
        },
        _ => (after, action) == counted.to_context_spec(),
    }
}

// ---- durability and rollover --------------------------------------------------------------

/// Data reached the disk, or an error is counted.
pub open spec fn synced(before: Running, ok: bool, now: u64, after: Running, action: Action) -> bool {
    (after, action) == (Running {
        w: Writer {
            active: crate::storage::writer::with_errors(
                before.w.active,
                if ok {
                    0
                } else {
                    1
                },
            ),
            last_sync: now,
            ..before.w
        },
        ..before
    }).to_commands_spec()
}

/// It was decided whether the session is replaced. One that is hands out what is
/// pending as its last frame, and is closed. A loop that is about to end replaces
/// nothing.
pub open spec fn asked(
    before: Running,
    cmds: Seq<WriterCmd>,
    hour: u8,
    now: u64,
    after: Running,
    action: Action,
) -> bool {
    let asked = last_asked_spec(cmds);
    let decided = Running {
        w: before.w.past_rotation(asked is Some, before.woke, hour, now),
        ..before
    };
    match before.w.rotation_spec(asked, before.woke, hour, now) {
        Some(reason) if !before.finishing => {
            &&& after == (Running { w: after.w, at: after.at, ..before })
            &&& match action {
                Action::AppendLast(f) => {
                    &&& crate::storage::writer::last_frame_taken(decided.w, after.w, Some(f))
                    &&& after.at matches Turn::LastFrame(why) && why.reason@ == reason && why.hour
                        == hour
                },
                Action::Close => {
                    &&& crate::storage::writer::last_frame_taken(decided.w, after.w, None)
                    &&& after.at matches Turn::Close(Some(why)) && why.reason@ == reason && why.hour
                        == hour
                },
                _ => false,
            }
        },
        _ => (after, action) == decided.to_health_spec(now),
    }
}

/// The last frame of the session was written, or is lost.
pub open spec fn last_appended(before: Running, ok: bool, after: Running, action: Action) -> bool {
    &&& action == Action::Close
    &&& crate::storage::writer::commits(before.w.active.seg, after.w.active.seg, ok)
    &&& before.at matches Turn::LastFrame(why) && after == (Running {
        w: Writer {
            active: Active { seg: after.w.active.seg, ..before.w.active },
            ..before.w
        },
        at: Turn::Close(Some(why)),
        ..before
    })
}

/// The session was closed, with its totals. It is replaced, or the loop ends.
pub open spec fn closed(
    before: Running,
    synced: bool,
    counters: Counters,
    now_ms: u64,
    after: Run,
    action: Action,
) -> bool {
    let header = crate::storage::writer::closing_header(
        before.w.active,
        synced,
        counters,
        before.w.max_latency_us,
    );
    match before.at {
        Turn::Close(Some(why)) => {
            &&& after == Run::Replacing(
                Between { last_frame: before.w.last_frame, last_health: before.w.last_health },
                why.hour,
            )
            &&& action matches Action::Replace { closed, reason } && {
                &&& reason == why.reason
                &&& closed.dir == before.w.active.session.dir
                &&& crate::storage::session::ended(closed.header, header, now_ms)
            }
        },
        _ => {
            &&& after == Run::Ended
            &&& action matches Action::Finish(closed) && {
                &&& closed.dir == before.w.active.session.dir
                &&& crate::storage::session::ended(closed.header, header, now_ms)
            }
        },
    }
}

/// The next session was created, and its files are to be opened; or it could not be,
/// and the loop ends.
pub open spec fn replaced(
    between: Between,
    hour: u8,
    next: Option<Session>,
    counters: Counters,
    after: Run,
    action: Action,
) -> bool {
    match next {
        None => after == Run::Ended && action == Action::Stop,
        Some(session) => {
            &&& after matches Run::Opening(active, Some((b, h))) && {
                &&& b == between
                &&& h == hour
                &&& crate::storage::writer::opens(
                    active,
                    session,
                    counters.reports,
                    counters.dropped,
                )
            }
            &&& opens_files(action)
        },
    }
}

/// The files of a session are to be opened.
pub open spec fn opens_files(action: Action) -> bool {
    action matches Action::Open { name, header, timeline } && {
        &&& name@ == crate::storage::session::segment_name_spec(0)
        &&& header@ == crate::storage::segment::header_bytes()
        &&& timeline@ == "context.jsonl"@
    }
}

/// The files were opened. The first session of a run starts with a turn of its own; one
/// that replaces another goes on with the turn. Without its files the loop ends.
pub open spec fn opened(
    active: Active,
    replaces: Option<(Between, u8)>,
    status: SharedStatus,
    ok: bool,
    hour: u8,
    now: u64,
    after: Run,
    shown: SharedStatus,
    action: Action,
) -> bool {
    if !ok {
        &&& after == Run::Ended
        &&& action == Action::Stop
        &&& shown == status
    } else {
        &&& shown == crate::storage::writer::adopting(status, active.session)
        &&& after matches Run::Running(r) && r.w.pending@.len() == 0 && match replaces {
            None => {
                &&& r == (Running {
                    w: Writer {
                        active,
                        pending: r.w.pending,
                        last_frame: now,
                        last_health: now,
                        last_sync: now,
                        session_start: now,
                        max_latency_us: 0,
                        session_hour: hour,
                    },
                    at: Turn::Begin,
                    finishing: false,
                    woke: false,
                })
                &&& action == Action::Turn { pause: false }
            },
            Some((b, rolled)) => (r, action) == (Running {
                w: Writer {
                    active,
                    pending: r.w.pending,
                    last_frame: b.last_frame,
                    last_health: b.last_health,
                    last_sync: now,
                    session_start: now,
                    max_latency_us: 0,
                    session_hour: rolled,
                },
                at: r.at,
                finishing: false,
                woke: false,
            }).to_health_spec(now),
        }
    }
}

// ---- health and totals ----------------------------------------------------------------

/// Health was sampled, and goes to the timeline.
pub open spec fn sampled(
    before: Running,
    t_ns: u64,
    counters: Counters,
    depth: u64,
    after: Running,
    action: Action,
) -> bool {
    &&& after == (Running { at: Turn::Note(Some(counters)), ..before })
    &&& action == Action::Note(
        ContextRecord::Health {
            t_ns,
            reports: counters.reports,
            written: before.w.active.written_spec() as u64,
            dropped: counters.dropped,
            queue_depth: depth,
            peak_queue_depth: counters.peak,
            write_latency_us: before.w.max_latency_us,
        },
    )
}

/// The header was saved, or an error is counted.
pub open spec fn saved(before: Running, ok: bool, now: u64, after: Running, action: Action) -> bool {
    (after, action) == (Running {
        w: Writer {
            active: crate::storage::writer::with_errors(
                before.w.active,
                if ok {
                    0
                } else {
                    1
                },
            ),
            last_health: now,
            ..before.w
        },
        ..before
    }).to_totals_spec()
}

/// The totals are published. The loop ends where it was told to and everything is
/// stored; otherwise the next turn begins.
pub open spec fn totalled(
    before: Running,
    status: SharedStatus,
    dropped: u64,
    depth: u64,
    after: Running,
    shown: SharedStatus,
    action: Action,
) -> bool {
    &&& shown == (SharedStatus {
        events_written: before.w.active.written_spec() as u64,
        events_dropped: crate::storage::writer::above(dropped, before.w.active.base_dropped),
        writer_errors: before.w.active.session.header.writer_errors,
        ..status
    })
    &&& if before.finishing && before.w.pending@.len() == 0 && depth == 0 {
        &&& after == (Running { at: Turn::Close(None), ..before })
        &&& action == Action::Close
    } else {
        &&& after == (Running { at: Turn::Begin, ..before })
        &&& action == (Action::Turn { pause: !before.finishing })
    }
}

// ---- the steps ------------------------------------------------------------------------

impl Running {
    /// Takes events from the queue.
    fn take(self, ring: &mut Ring, scratch: &mut Vec<Event>, finishing: bool) -> (r: Running)
        requires
            self.wf(),
            self.at is Begin,
            old(ring).wf(),
            old(scratch)@.len() == crate::storage::writer::DRAIN_EVENTS,
        ensures
            r.wf(),
            taken(self, old(ring)@.queue, finishing, r, final(ring)@.queue),
            final(ring).wf(),
            final(ring)@ == (crate::ring::RingState { queue: final(ring)@.queue, ..old(ring)@ }),
            final(scratch)@.len() == crate::storage::writer::DRAIN_EVENTS,
    {
        let mut next = Running { w: self.w, at: Turn::Taken, finishing, woke: false };
        next.w.absorb(ring, scratch);
        next
    }

    /// Hands out a frame where that is due.
    fn begin(self, now: u64) -> (r: (Running, Action))
        requires
            self.wf(),
            self.at is Taken,
            self.in_time(now),
        ensures
            r.0.wf(),
            begun(self, now, r.0, r.1),
    {
        let mut next = self;
        if next.w.frame_due(now, next.finishing) {
            let frame = next.w.frame();
            next.at = Turn::Frame;
            (next, Action::Append(frame))
        } else {
            next.to_context()
        }
    }

    /// Takes note of what came of the frame.
    fn append(
        self,
        status: &mut SharedStatus,
        outcome: FrameOutcome,
        latency_us: u64,
        now: u64,
    ) -> (r: (Running, Action))
        requires
            self.wf(),
            self.at is Frame,
            old(status).wf(),
            crate::storage::writer::committable(self.w.active),
            outcome != FrameOutcome::Written ==> self.w.active.session.header.writer_errors
                < u64::MAX,
            self.w.active.seg_index < u32::MAX,
        ensures
            r.0.wf(),
            final(status).wf(),
            appended(self, *old(status), outcome, latency_us, now, r.0, *final(status), r.1),
    {
        let mut next = self;
        if next.w.frame_done(status, outcome, latency_us, now) {
            let (name, header) = next.w.active.next_segment();
            next.at = Turn::Segment;
            (next, Action::Create { name, header })
        } else {
            next.to_context()
        }
    }

    /// Takes note of whether the next segment could be created.
    fn create(self, ok: bool) -> (r: (Running, Action))
        requires
            self.wf(),
            self.at is Segment,
            self.w.active.seg_index < u32::MAX,
            !ok ==> self.w.active.session.header.writer_errors < u64::MAX,
        ensures
            r.0.wf(),
            created(self, ok, r.0, r.1),
    {
        let mut next = self;
        next.w.active.rotate_segment(ok);
        next.to_context()
    }

    /// Takes in a change of context.
    fn follow(self, rec: ContextRecord) -> (r: (Running, Action))
        requires
            self.wf(),
            self.at is Context,
        ensures
            r.0.wf(),
            followed(self, rec, r.0, r.1),
    {
        let mut next = self;
        let woke = next.w.active.note_context(&rec);
        next.woke = next.woke || woke;
        next.at = Turn::Note(None);
        (next, Action::Note(rec))
    }

    /// Takes in what was received.
    fn receive(self, rec: Option<ContextRecord>, now: u64) -> (r: (Running, Action))
        requires
            self.wf(),
            self.at is Context,
            self.in_time(now),
        ensures
            r.0.wf(),
            received(self, rec, now, r.0, r.1),
    {
        match rec {
            None => self.to_sync(now),
            Some(rec) => {
                if let ContextRecord::Foreground { hwnd, .. } = &rec {
                    let hwnd: isize = *hwnd;
                    (Running { at: Turn::Resolve(rec), ..self }, Action::Resolve(hwnd))
                } else {
                    self.follow(rec)
                }
            },
        }
    }

    /// Takes in what a window is.
    fn resolve(
        self,
        what: (Option<u32>, Option<String>, Option<String>),
    ) -> (r: (Running, Action))
        requires
            self.wf(),
            self.at is Resolve,
        ensures
            r.0.wf(),
            resolved(self, what, r.0, r.1),
    {
        let Running { w, at, finishing, woke } = self;
        match at {
            Turn::Resolve(rec) => {
                let rec = with_resolution(rec, what);
                (Running { w, at: Turn::Context, finishing, woke }).follow(rec)
            },
            other => (Running { w, at: other, finishing, woke }).to_context(),
        }
    }

    /// Takes note of whether the record went to the timeline.
    fn note(self, ok: bool) -> (r: (Running, Action))
        requires
            self.wf(),
            self.at is Note,
            !ok ==> self.w.active.session.header.writer_errors < u64::MAX,
        ensures
            r.0.wf(),
            noted(self, ok, r.0, r.1),
    {
        let mut next = self;
        if !ok {
            next.w.active.count_error();
        }
        match &next.at {
            Turn::Note(Some(counters)) => {
                let counters: Counters = *counters;
                let max_latency_us: u64 = next.w.max_latency_us;
                next.w.active.note_health(counters, max_latency_us);
                next.at = Turn::Save;
                (next, Action::Save)
            },
            _ => next.to_context(),
        }
    }

    /// Takes note of whether data reached the disk.
    fn sync(self, ok: bool, now: u64) -> (r: (Running, Action))
        requires
            self.wf(),
            self.at is Sync,
            !ok ==> self.w.active.session.header.writer_errors < u64::MAX,
        ensures
            r.0.wf(),
            synced(self, ok, now, r.0, r.1),
    {
        let mut next = self;
        next.w.synced(ok, now);
        next.to_commands()
    }

    /// Decides whether the session is to be replaced.
    fn decide(self, cmds: Vec<WriterCmd>, hour: u8, now: u64) -> (r: (Running, Action))
        requires
            self.wf(),
            self.at is Commands,
            self.in_time(now),
        ensures
            r.0.wf(),
            asked(self, cmds@, hour, now, r.0, r.1),
    {
        let mut next = self;
        let reason = next.w.rotation(last_asked(cmds), next.woke, hour, now);
        match reason {
            Some(reason) if !next.finishing => {
                let why = Rollover { reason, hour };
                match next.w.last_frame_of_session() {
                    Some(f) => {
                        next.at = Turn::LastFrame(why);
                        (next, Action::AppendLast(f))
                    },
                    None => {
                        next.at = Turn::Close(Some(why));
                        (next, Action::Close)
                    },
                }
            },
            _ => next.to_health(now),
        }
    }

    /// Takes note of whether the last frame of the session was written.
    fn append_last(self, ok: bool) -> (r: (Running, Action))
        requires
            self.wf(),
            self.at is LastFrame,
            crate::storage::writer::committable(self.w.active),
        ensures
            r.0.wf(),
            last_appended(self, ok, r.0, r.1),
    {
        let Running { w, at, finishing, woke } = self;
        let mut w = w;
        w.active.seg.commit(ok);
        let at = match at {
            Turn::LastFrame(why) => Turn::Close(Some(why)),
            other => other,
        };
        (Running { w, at, finishing, woke }, Action::Close)
    }

    /// Closes the session.
    fn close(self, synced: bool, counters: Counters, now_ms: u64) -> (r: (Run, Action))
        requires
            self.wf(),
            self.at is Close,
            !synced ==> self.w.active.session.header.writer_errors < u64::MAX,
        ensures
            r.0.wf(),
            closed(self, synced, counters, now_ms, r.0, r.1),
    {
        let max_latency_us: u64 = self.w.max_latency_us;
        let at = self.at;
        let (active, between) = self.w.retire();
        let session = active.close(synced, counters, max_latency_us, now_ms);
        match at {
            Turn::Close(Some(why)) => (
                Run::Replacing(between, why.hour),
                Action::Replace { closed: session, reason: why.reason },
            ),
            _ => (Run::Ended, Action::Finish(session)),
        }
    }

    /// Takes in a sample of health.
    fn sample(self, t_ns: u64, counters: Counters, depth: u64) -> (r: (Running, Action))
        requires
            self.wf(),
            self.at is Sample,
        ensures
            r.0.wf(),
            sampled(self, t_ns, counters, depth, r.0, r.1),
    {
        let rec = self.w.active.health_record(t_ns, counters, depth, self.w.max_latency_us);
        (Running { at: Turn::Note(Some(counters)), ..self }, Action::Note(rec))
    }

    /// Takes note of whether the header was saved.
    fn save(self, ok: bool, now: u64) -> (r: (Running, Action))
        requires
            self.wf(),
            self.at is Save,
            !ok ==> self.w.active.session.header.writer_errors < u64::MAX,
        ensures
            r.0.wf(),
            saved(self, ok, now, r.0, r.1),
    {
        let mut next = self;
        next.w.health_done(ok, now);
        next.to_totals()
    }

    /// Publishes the totals.
    fn total(self, status: &mut SharedStatus, dropped: u64, depth: u64) -> (r: (Running, Action))
        requires
            self.wf(),
            self.at is Totals,
            old(status).wf(),
        ensures
            r.0.wf(),
            final(status).wf(),
            totalled(self, *old(status), dropped, depth, r.0, *final(status), r.1),
    {
        self.w.active.publish(status, dropped);
        if self.w.finished(self.finishing, depth) {
            (Running { at: Turn::Close(None), ..self }, Action::Close)
        } else {
            let pause = !self.finishing;
            (Running { at: Turn::Begin, ..self }, Action::Turn { pause })
        }
    }
}

// ---- the loop ---------------------------------------------------------------------------

impl Run {
    /// A session that is opened is at its start.
    pub open spec fn wf(&self) -> bool {
        match *self {
            Run::Opening(active, _) => {
                &&& active.written_spec() <= u64::MAX
                &&& active.seg.staged_spec() is None
            },
            Run::Running(r) => r.wf(),
            _ => true,
        }
    }

    /// The answer is to what was asked for last, and can be counted.
    pub open spec fn accepts_spec(&self, answer: Answer, now: u64) -> bool {
        match *self {
            Run::Opening(_, replaces) => {
                &&& answer is Opened
                &&& replaces matches Some((between, _)) ==> between.last_health <= now
            },
            Run::Replacing(_, _) => answer is Next,
            Run::Ended => false,
            Run::Running(r) => {
                &&& r.in_time(now)
                &&& answer.is_error_spec() ==> r.w.active.session.header.writer_errors < u64::MAX
                &&& crate::storage::writer::committable(r.w.active)
                &&& match r.at {
                    Turn::Begin => false,
                    Turn::Taken => false,
                    Turn::Frame => answer is Appended && r.w.active.seg_index < u32::MAX,
                    Turn::Segment => answer is Created && r.w.active.seg_index < u32::MAX,
                    Turn::Context => answer is Received,
                    Turn::Resolve(_) => answer is Resolved,
                    Turn::Note(_) => answer is Noted,
                    Turn::Sync => answer is Synced,
                    Turn::Commands => answer is Asked,
                    Turn::LastFrame(_) => answer is LastAppended,
                    Turn::Close(_) => answer is Closing,
                    Turn::Sample => answer is Sampled,
                    Turn::Save => answer is Saved,
                    Turn::Totals => answer is Totals,
                }
            },
        }
    }

    /// Starts on the first session of a run.
    pub fn start(first: Session) -> (r: (Run, Action))
        ensures
            r.0.wf(),
            r.0 matches Run::Opening(active, None) && crate::storage::writer::opens(
                active,
                first,
                0,
                0,
            ),
            opens_files(r.1),
    {
        let (active, header) = Active::open(first, 0, 0);
        let name = active.session.segment_path(0);
        let timeline = active.session.context_path();
        (Run::Opening(active, None), Action::Open { name, header, timeline })
    }

    /// The loop waits for its next turn.
    pub open spec fn at_turn_spec(&self) -> bool {
        *self matches Run::Running(r) && r.at is Begin
    }

    /// Whether the loop waits for its next turn.
    pub fn at_turn(&self) -> (r: bool)
        ensures
            r == self.at_turn_spec(),
    {
        match self {
            Run::Running(r) => matches!(r.at, Turn::Begin),
            _ => false,
        }
    }

    /// The turn has taken its events, and can go on.
    pub open spec fn has_taken_spec(&self, now: u64) -> bool {
        *self matches Run::Running(r) && r.at is Taken && r.in_time(now)
    }

    /// Whether the turn has taken its events, and can go on.
    pub fn has_taken(&self, now: u64) -> (r: bool)
        ensures
            r == self.has_taken_spec(now),
    {
        match self {
            Run::Running(r) => matches!(r.at, Turn::Taken) && r.is_in_time(now),
            _ => false,
        }
    }

    /// Starts a turn: takes events from the queue. `finishing` tells whether the loop is
    /// to end. The queue is not needed for the rest of the turn.
    pub fn take(self, ring: &mut Ring, scratch: &mut Vec<Event>, finishing: bool) -> (r: Run)
        requires
            self.wf(),
            self.at_turn_spec(),
            old(ring).wf(),
            old(scratch)@.len() == crate::storage::writer::DRAIN_EVENTS,
        ensures
            r.wf(),
            self matches Run::Running(before) && r matches Run::Running(after) && taken(
                before,
                old(ring)@.queue,
                finishing,
                after,
                final(ring)@.queue,
            ),
            final(ring).wf(),
            final(ring)@ == (crate::ring::RingState { queue: final(ring)@.queue, ..old(ring)@ }),
            final(scratch)@.len() == crate::storage::writer::DRAIN_EVENTS,
    {
        match self {
            Run::Running(running) => Run::Running(running.take(ring, scratch, finishing)),
            other => other,
        }
    }

    /// Goes on with the turn.
    pub fn begin(self, now: u64) -> (r: (Run, Action))
        requires
            self.wf(),
            self.has_taken_spec(now),
        ensures
            r.0.wf(),
            self matches Run::Running(before) && r.0 matches Run::Running(after) && begun(
                before,
                now,
                after,
                r.1,
            ),
    {
        match self {
            Run::Running(running) => {
                let (next, action) = running.begin(now);
                (Run::Running(next), action)
            },
            other => (other, Action::Stop),
        }
    }

    /// Whether the answer is to what was asked for last, and can be counted.
    pub fn accepts(&self, answer: &Answer, now: u64) -> (ok: bool)
        ensures
            ok == self.accepts_spec(*answer, now),
    {
        match self {
            Run::Opening(_, replaces) => matches!(answer, Answer::Opened { .. })
                && match replaces {
                Some((between, _)) => between.last_health <= now,
                None => true,
            },
            Run::Replacing(_, _) => matches!(answer, Answer::Next(_, _)),
            Run::Ended => false,
            Run::Running(r) => {
                let header = &r.w.active.session.header;
                if !r.is_in_time(now) || (answer.is_error() && header.writer_errors == u64::MAX)
                    || !r.w.active.has_room() {
                    return false;
                }
                match (&r.at, answer) {
                    (Turn::Frame, Answer::Appended { .. }) => r.w.active.seg_index < u32::MAX,
                    (Turn::Segment, Answer::Created(_)) => r.w.active.seg_index < u32::MAX,
                    (Turn::Context, Answer::Received(_)) => true,
                    (Turn::Resolve(_), Answer::Resolved(_, _, _)) => true,
                    (Turn::Note(_), Answer::Noted(_)) => true,
                    (Turn::Sync, Answer::Synced(_)) => true,
                    (Turn::Commands, Answer::Asked { .. }) => true,
                    (Turn::LastFrame(_), Answer::LastAppended(_)) => true,
                    (Turn::Close(_), Answer::Closing { .. }) => true,
                    (Turn::Sample, Answer::Sampled { .. }) => true,
                    (Turn::Save, Answer::Saved(_)) => true,
                    (Turn::Totals, Answer::Totals { .. }) => true,
                    _ => false,
                }
            },
        }
    }

    /// Takes in an answer, and says what is to be done next.
    pub fn step(self, status: &mut SharedStatus, answer: Answer, now: u64) -> (r: (Run, Action))
        requires
            self.wf(),
            self.accepts_spec(answer, now),
            old(status).wf(),
        ensures
            r.0.wf(),
            final(status).wf(),
            stepped(self, *old(status), answer, now, r.0, *final(status), r.1),
    {
        match self {
            Run::Opening(active, replaces) => match answer {
                Answer::Opened { ok, hour } => Self::open(
                    active,
                    replaces,
                    status,
                    ok,
                    hour,
                    now,
                ),
                _ => (Run::Ended, Action::Stop),
            },
            Run::Replacing(between, hour) => match answer {
                Answer::Next(Some(session), counters) => {
                    let (active, header) = Active::open(
                        session,
                        counters.reports,
                        counters.dropped,
                    );
                    let name = active.session.segment_path(0);
                    let timeline = active.session.context_path();
                    (
                        Run::Opening(active, Some((between, hour))),
                        Action::Open { name, header, timeline },
                    )
                },
                _ => (Run::Ended, Action::Stop),
            },
            Run::Running(r) => {
                let (next, action) = match answer {
                    Answer::Appended { outcome, latency_us } => r.append(
                        status,
                        outcome,
                        latency_us,
                        now,
                    ),
                    Answer::Created(ok) => r.create(ok),
                    Answer::Received(rec) => r.receive(rec, now),
                    Answer::Resolved(pid, exe, title) => r.resolve((pid, exe, title)),
                    Answer::Noted(ok) => r.note(ok),
                    Answer::Synced(ok) => r.sync(ok, now),
                    Answer::Asked { cmds, hour } => r.decide(cmds, hour, now),
                    Answer::LastAppended(ok) => r.append_last(ok),
                    Answer::Closing { synced, counters, now_ms } => {
                        return r.close(synced, counters, now_ms);
                    },
                    Answer::Sampled { t_ns, counters, depth } => r.sample(t_ns, counters, depth),
                    Answer::Saved(ok) => r.save(ok, now),
                    Answer::Totals { dropped, depth } => r.total(status, dropped, depth),
                    _ => r.to_context(),
                };
                (Run::Running(next), action)
            },
            Run::Ended => (Run::Ended, Action::Stop),
        }
    }

    /// Takes note of whether the files of a session were opened.
    fn open(
        active: Active,
        replaces: Option<(Between, u8)>,
        status: &mut SharedStatus,
        ok: bool,
        hour: u8,
        now: u64,
    ) -> (r: (Run, Action))
        requires
            active.written_spec() <= u64::MAX,
            active.seg.staged_spec() is None,
            replaces matches Some((between, _)) ==> between.last_health <= now,
            old(status).wf(),
        ensures
            r.0.wf(),
            final(status).wf(),
            opened(
                active,
                replaces,
                *old(status),
                ok,
                hour,
                now,
                r.0,
                *final(status),
                r.1,
            ),
    {
        if !ok {
            return (Run::Ended, Action::Stop);
        }
        status.adopt(&active.session);
        match replaces {
            None => {
                let w = Writer::new(active, now, hour);
                let first = Running { w, at: Turn::Begin, finishing: false, woke: false };
                (Run::Running(first), Action::Turn { pause: false })
            },
            Some((between, rolled)) => {
                let w = between.resume(active, now, rolled);
                let next = Running { w, at: Turn::Commands, finishing: false, woke: false };
                let (next, action) = next.to_health(now);
                (Run::Running(next), action)
            },
        }
    }
}

/// What follows from an answer: where the loop goes on, what is shown of it, and what is
/// to be done next.
pub open spec fn stepped(
    before: Run,
    status: SharedStatus,
    answer: Answer,
    now: u64,
    after: Run,
    shown: SharedStatus,
    action: Action,
) -> bool {
    match (before, answer) {
        (Run::Opening(active, replaces), Answer::Opened { ok, hour }) => opened(
            active,
            replaces,
            status,
            ok,
            hour,
            now,
            after,
            shown,
            action,
        ),
        (Run::Replacing(between, hour), Answer::Next(next, counters)) => {
            &&& shown == status
            &&& replaced(between, hour, next, counters, after, action)
        },
        (Run::Running(r), Answer::Closing { synced, counters, now_ms }) => {
            &&& shown == status
            &&& closed(r, synced, counters, now_ms, after, action)
        },
        (Run::Running(r), _) => after matches Run::Running(n) && match answer {
            Answer::Appended { outcome, latency_us } => appended(
                r,
                status,
                outcome,
                latency_us,
                now,
                n,
                shown,
                action,
            ),
            Answer::Totals { dropped, depth } => totalled(
                r,
                status,
                dropped,
                depth,
                n,
                shown,
                action,
            ),
            _ => shown == status && match answer {
                Answer::Created(ok) => created(r, ok, n, action),
                Answer::Received(rec) => received(r, rec, now, n, action),
                Answer::Resolved(pid, exe, title) => resolved(r, (pid, exe, title), n, action),
                Answer::Noted(ok) => noted(r, ok, n, action),
                Answer::Synced(ok) => synced(r, ok, now, n, action),
                Answer::Asked { cmds, hour } => asked(r, cmds@, hour, now, n, action),
                Answer::LastAppended(ok) => last_appended(r, ok, n, action),
                Answer::Sampled { t_ns, counters, depth } => sampled(
                    r,
                    t_ns,
                    counters,
                    depth,
                    n,
                    action,
                ),
                Answer::Saved(ok) => saved(r, ok, now, n, action),
                _ => false,
            },
        },
        _ => false,
    }
}

// ---- laws -----------------------------------------------------------------------------

/// The loop waits to hear of that.
pub open spec fn awaits(run: Run, action: Action) -> bool {
    match run {
        Run::Opening(_, _) => action is Open,
        Run::Replacing(_, _) => action is Replace,
        Run::Ended => action is Finish || action is Stop,
        Run::Running(r) => match r.at {
            Turn::Begin => action is Turn,
            Turn::Taken => false,
            Turn::Frame => action is Append,
            Turn::Segment => action is Create,
            Turn::Context => action is Receive,
            Turn::Resolve(_) => action is Resolve,
            Turn::Note(_) => action is Note,
            Turn::Sync => action is Sync,
            Turn::Commands => action is Ask,
            Turn::LastFrame(_) => action is AppendLast,
            Turn::Close(_) => action is Close,
            Turn::Sample => action is Sample,
            Turn::Save => action is Save,
            Turn::Totals => action is Totals,
        },
    }
}

/// Whatever came of an action, the loop goes on to wait for what it asks next.
pub proof fn law_the_loop_waits_for_what_it_asks(
    before: Run,
    status: SharedStatus,
    answer: Answer,
    now: u64,
    after: Run,
    shown: SharedStatus,
    action: Action,
)
    requires
        stepped(before, status, answer, now, after, shown, action),
    ensures
        awaits(after, action),
{
}

/// A loop that was told to end does so at the end of its turn, unless the queue has
/// filled up again, and by then everything taken from the queue is stored. One that was
/// not told goes on.
pub proof fn law_the_loop_ends_when_everything_is_stored(
    before: Running,
    status: SharedStatus,
    dropped: u64,
    depth: u64,
    after: Running,
    shown: SharedStatus,
    action: Action,
)
    requires
        before.wf(),
        before.at is Totals,
        totalled(before, status, dropped, depth, after, shown, action),
    ensures
        action is Close <==> before.finishing && depth == 0,
        action is Close ==> after.w.pending@.len() == 0,
{
}

/// The events that are taken from the queue and not yet handed out.
pub open spec fn pending_of(run: Run) -> Seq<Event> {
    match run {
        Run::Running(r) => r.w.pending@,
        _ => seq![],
    }
}

/// Events wait until their frame was handed to the disk, or their session is replaced:
/// its last frame then holds all of them, so that none lands in the wrong session. They
/// go without a frame only where the compressor fails on them. No other step touches
/// them.
pub proof fn law_events_wait_for_their_frame(
    before: Run,
    status: SharedStatus,
    answer: Answer,
    now: u64,
    after: Run,
    shown: SharedStatus,
    action: Action,
)
    requires
        before.wf(),
        before.accepts_spec(answer, now),
        stepped(before, status, answer, now, after, shown, action),
    ensures
        pending_of(after) == pending_of(before) || pending_of(after).len() == 0 && match action {
            Action::AppendLast(f) => f@ == crate::storage::segment::frame_of(pending_of(before)),
            Action::Close => answer is Asked && !crate::storage::segment::compresses(
                pending_of(before),
            ),
            _ => answer is Appended,
        },
        action is Close || action is AppendLast ==> pending_of(after).len() == 0,
{
    assert(pending_of(before).len() == 0 && pending_of(after).len() == 0 ==> pending_of(before)
        =~= pending_of(after));
}

/// In a new local hour a session that has lived for half a minute is closed, and one in
/// its own hour goes on, as long as nobody asks, the machine did not wake up and the loop
/// is not about to end.
pub proof fn law_a_new_hour_closes_the_session(
    before: Running,
    hour: u8,
    now: u64,
    after: Running,
    action: Action,
)
    requires
        asked(before, seq![], hour, now, after, action),
        !before.finishing,
        !before.woke,
        before.w.session_start + 30_000_000_000 <= now,
    ensures
        hour != before.w.session_hour <==> action is AppendLast || action is Close,
        hour == before.w.session_hour ==> after.w == before.w,
{
    crate::storage::writer::law_every_other_hour_rolls_over(before.w, hour, now);
}

/// What the user asks for closes the session, whatever the hour and however young it is.
pub proof fn law_what_was_asked_closes_the_session(
    before: Running,
    cmds: Seq<WriterCmd>,
    hour: u8,
    now: u64,
    after: Running,
    action: Action,
)
    requires
        asked(before, cmds, hour, now, after, action),
        cmds.len() > 0,
        !before.finishing,
    ensures
        action is AppendLast || action is Close,
        cmds.last() matches WriterCmd::NewSession(reason) && match after.at {
            Turn::LastFrame(why) => why.reason@ == reason@ && why.hour == hour,
            Turn::Close(Some(why)) => why.reason@ == reason@ && why.hour == hour,
            _ => false,
        },
{
}

/// A loop that is about to end replaces no session.
pub proof fn law_an_ending_loop_replaces_nothing(
    before: Running,
    cmds: Seq<WriterCmd>,
    hour: u8,
    now: u64,
    after: Running,
    action: Action,
)
    requires
        asked(before, cmds, hour, now, after, action),
        before.finishing,
    ensures
        !(action is AppendLast || action is Close),
        action is Sample,
{
}

/// Data is forced onto the disk once a minute has passed, and health is sampled once half
/// a minute has or when the loop is about to end.
pub proof fn law_disk_and_health_come_in_time(r: Running, now: u64)
    requires
        r.w.last_sync <= now,
        r.w.last_health <= now,
    ensures
        r.to_sync_spec(now).1 is Sync <==> now >= r.w.last_sync + 60_000_000_000,
        r.to_health_spec(now).1 is Sample <==> r.finishing || now >= r.w.last_health
            + 30_000_000_000,
        !(r.to_sync_spec(now).1 is Sync) ==> r.to_sync_spec(now).1 is Ask,
        !(r.to_health_spec(now).1 is Sample) ==> r.to_health_spec(now).1 is Totals,
        r.to_sync_spec(now).0.w == r.w,
        r.to_health_spec(now).0.w == r.w,
{
}

/// A new segment is started as soon as the one at hand holds 256 MiB, and not before.
pub proof fn law_full_segments_are_followed_by_another(
    before: Running,
    status: SharedStatus,
    outcome: FrameOutcome,
    latency_us: u64,
    now: u64,
    after: Running,
    shown: SharedStatus,
    action: Action,
)
    requires
        appended(before, status, outcome, latency_us, now, after, shown, action),
    ensures
        action is Create <==> after.w.active.seg.bytes_spec() >= 256 * 1024 * 1024,
        !(action is Create) ==> action is Receive,
        after.w.pending@.len() == 0,
        after.w.last_frame == now,
        after.w.max_latency_us >= latency_us && after.w.max_latency_us >= before.w.max_latency_us,
        after.w.max_latency_us == latency_us || after.w.max_latency_us == before.w.max_latency_us,
        shown.last_write_latency_us == latency_us,
        shown.last_batch_size == before.w.pending@.len() as u64,
{
}

/// Whatever fails is counted once, and what works is not: the errors of the session grow
/// by one with each answer that tells of one.
pub proof fn law_every_error_is_counted_once(
    before: Running,
    status: SharedStatus,
    answer: Answer,
    now: u64,
    after: Running,
    shown: SharedStatus,
    action: Action,
)
    requires
        Run::Running(before).wf(),
        Run::Running(before).accepts_spec(answer, now),
        stepped(Run::Running(before), status, answer, now, Run::Running(after), shown, action),
    ensures
        after.w.active.session.header.writer_errors - before.w.active.session.header.writer_errors
            == match answer {
            Answer::Appended { outcome, .. } => if outcome == FrameOutcome::Written {
                0int
            } else {
                1
            },
            Answer::Created(ok) => if ok {
                0int
            } else {
                1
            },
            Answer::Noted(ok) => if ok {
                0int
            } else {
                1
            },
            Answer::Synced(ok) => if ok {
                0int
            } else {
                1
            },
            Answer::Saved(ok) => if ok {
                0int
            } else {
                1
            },
            _ => 0,
        },
{
}

/// The totals that others see are those of the session: what it has written, what was
/// dropped since it began, and its errors.
pub proof fn law_totals_that_others_see_are_the_sessions(
    before: Running,
    status: SharedStatus,
    dropped: u64,
    depth: u64,
    after: Running,
    shown: SharedStatus,
    action: Action,
)
    requires
        totalled(before, status, dropped, depth, after, shown, action),
        before.w.active.written_spec() <= u64::MAX,
        before.w.active.base_dropped <= dropped,
    ensures
        shown.events_written == before.w.active.carried_events
            + before.w.active.seg.events_spec(),
        shown.events_dropped + before.w.active.base_dropped == dropped,
        shown.writer_errors == before.w.active.session.header.writer_errors,
        shown.id == status.id && shown.per_device == status.per_device && shown.recent
            == status.recent,
{
}

/// Of several requests the last one counts.
pub proof fn law_the_last_request_counts(cmds: Seq<WriterCmd>, reason: String)
    ensures
        last_asked_spec(cmds.push(WriterCmd::NewSession(reason))) == Some(reason),
        cmds.len() == 0 ==> last_asked_spec(cmds) is None,
{
}

/// A session starts out in the hour in which it was opened or, where it replaces another,
/// in the hour of that rollover; it starts now, with nothing pending, and is shown as the
/// current one. Without its files there is no session.
pub proof fn law_a_session_starts_in_its_hour(
    active: Active,
    replaces: Option<(Between, u8)>,
    status: SharedStatus,
    ok: bool,
    hour: u8,
    now: u64,
    after: Run,
    shown: SharedStatus,
    action: Action,
)
    requires
        opened(active, replaces, status, ok, hour, now, after, shown, action),
    ensures
        ok ==> (after matches Run::Running(r) && {
            &&& r.w.session_hour == match replaces {
                Some((_, rolled)) => rolled,
                None => hour,
            }
            &&& r.w.session_start == now && r.w.last_sync == now
            &&& r.w.pending@.len() == 0 && r.w.max_latency_us == 0
            &&& r.w.active == active
            &&& replaces is None ==> r.w.last_frame == now && r.w.last_health == now
            &&& replaces matches Some((b, _)) ==> r.w.last_frame == b.last_frame && r.w.last_health
                == b.last_health
        }),
        ok ==> shown.id == active.session.header.session_id && shown.dir == active.session.dir
            && shown.session_start_unix_ms == active.session.header.start_unix_ms,
        ok && status.sessions_started < u64::MAX ==> shown.sessions_started
            == status.sessions_started + 1,
        !ok ==> after == Run::Ended && action is Stop && shown == status,
{
}

/// A session that replaces another counts from there on: its totals start from the counts
/// of the run at that moment, and its first segment is empty. Without a next session the
/// loop ends.
pub proof fn law_the_next_session_counts_from_there_on(
    between: Between,
    hour: u8,
    next: Option<Session>,
    counters: Counters,
    after: Run,
    action: Action,
)
    requires
        replaced(between, hour, next, counters, after, action),
    ensures
        next is None ==> after == Run::Ended && action is Stop,
        next is Some ==> action is Open && (after matches Run::Opening(a, Some((b, h))) && {
            &&& a.base_reports == counters.reports && a.base_dropped == counters.dropped
            &&& a.written_spec() == 0
            &&& a.seg_index == 0
            &&& b == between && h == hour
        }),
{
}

/// A session is closed with its own totals, as clean and at that time. One that is replaced
/// hands over its hour and its reason; otherwise the loop has ended.
pub proof fn law_a_session_is_closed_with_its_totals(
    before: Running,
    synced: bool,
    counters: Counters,
    now_ms: u64,
    after: Run,
    action: Action,
)
    requires
        closed(before, synced, counters, now_ms, after, action),
        before.w.active.written_spec() <= u64::MAX,
    ensures
        before.at matches Turn::Close(Some(why)) ==> (action matches Action::Replace {
            closed: s,
            reason,
        } && reason == why.reason && s.header.clean_shutdown && s.header.end_unix_ms == Some(now_ms)
            && s.header.events_written == before.w.active.written_spec() && s.dir
            == before.w.active.session.dir && (after matches Run::Replacing(_, h) && h == why.hour)),
        !(before.at matches Turn::Close(Some(_))) ==> after == Run::Ended && (
        action matches Action::Finish(s) && s.header.clean_shutdown && s.header.end_unix_ms == Some(
            now_ms,
        ) && s.header.events_written == before.w.active.written_spec()),
{
}

/// A sample of health holds the counts of the run, what the session has written, and how
/// full the queue is.
pub proof fn law_a_sample_holds_what_was_counted(
    before: Running,
    t_ns: u64,
    counters: Counters,
    depth: u64,
    after: Running,
    action: Action,
)
    requires
        sampled(before, t_ns, counters, depth, after, action),
        before.w.active.written_spec() <= u64::MAX,
    ensures
        action matches Action::Note(ContextRecord::Health {
            t_ns: t,
            reports,
            written,
            dropped,
            queue_depth,
            peak_queue_depth,
            write_latency_us,
        }) && t == t_ns && reports == counters.reports && written
            == before.w.active.written_spec() && dropped == counters.dropped && queue_depth == depth
            && peak_queue_depth == counters.peak && write_latency_us == before.w.max_latency_us,
        after.w == before.w,
{
}

/// A change of devices or of screens shows in the header, nothing else does; every change
/// goes to the timeline as it is, and only resuming wakes.
pub proof fn law_the_header_follows_the_context(
    before: Running,
    rec: ContextRecord,
    after: Running,
    action: Action,
)
    requires
        followed(before, rec, after, action),
    ensures
        action == Action::Note(rec),
        ({
            let was = before.w.active.session.header;
            let is = after.w.active.session.header;
            &&& rec matches ContextRecord::DeviceChange { devices, .. } ==> is.devices@ == devices@
                && is.monitors == was.monitors
            &&& rec matches ContextRecord::DisplayChange { monitors, .. } ==> is.monitors@
                == monitors@ && is.devices == was.devices
            &&& !(rec is DeviceChange || rec is DisplayChange) ==> is == was
            &&& is.events_written == was.events_written && is.session_id == was.session_id
        }),
        after.w.pending == before.w.pending,
        before.woke ==> after.woke,
        !(rec is Power) ==> after.woke == before.woke,
{
}

/// The window in the record is the one that was asked about, with what was found out.
pub proof fn law_a_window_is_recorded_as_it_was_resolved(
    before: Running,
    what: (Option<u32>, Option<String>, Option<String>),
    after: Running,
    action: Action,
)
    requires
        resolved(before, what, after, action),
    ensures
        action matches Action::Note(ContextRecord::Foreground { t_ns, hwnd, pid, exe, title }) && pid
            == what.0 && exe == what.1 && title == what.2 && (before.at matches Turn::Resolve(
            ContextRecord::Foreground { t_ns: t, hwnd: w, .. },
        ) && t_ns == t && hwnd == w),
{
}

} // verus!
