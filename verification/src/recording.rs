//! What the parts of the recorder promise together: every event that was offered is
//! found again on disk, unless the queue refused and counted it, its frame could not be
//! written, or an append that failed left a piece of a frame in front of it; and what a
//! session claims of itself is what was appended to its files.

use vstd::prelude::*;

use crate::event::Event;
use crate::export::VerifyReport;
use crate::ring::RingStep;
use crate::storage::run::{Action, Answer, Run, Running, Turn};
use crate::storage::segment::SegmentWriter;
use crate::storage::session::{Session, SessionHeader};
use crate::storage::writer::{Active, Counters, FrameOutcome, SharedStatus};

verus! {

// ---- one segment ------------------------------------------------------------------------

/// What was written to one segment. An append that failed can leave a piece of its frame
/// in the file; what is appended later lands behind that piece.
///
/// An append that did not fail is taken to be in the file, all of it, even where flushing
/// or syncing the file failed afterwards.
#[verifier::ext_equal]
pub struct SegmentLog {
    /// The frames in front of the first such piece.
    pub frames: Seq<Seq<u8>>,
    /// The batch that each of them stores.
    pub batches: Seq<Seq<Event>>,
    /// The file from the first such piece on.
    pub tail: Seq<u8>,
    /// The batches whose frames were appended behind it.
    pub behind: Seq<Seq<Event>>,
    /// How many bytes failed appends left.
    pub torn: nat,
}

impl SegmentLog {
    /// Nothing written yet.
    pub open spec fn empty() -> SegmentLog {
        SegmentLog { frames: seq![], batches: seq![], tail: seq![], behind: seq![], torn: 0 }
    }

    /// After one more frame.
    pub open spec fn with(self, frame: Seq<u8>, batch: Seq<Event>) -> SegmentLog {
        if self.is_whole() {
            SegmentLog {
                frames: self.frames.push(frame),
                batches: self.batches.push(batch),
                ..self
            }
        } else {
            SegmentLog { tail: self.tail + frame, behind: self.behind.push(batch), ..self }
        }
    }

    /// After an append that failed and left those bytes.
    pub open spec fn torn_by(self, left: Seq<u8>) -> SegmentLog {
        SegmentLog { tail: self.tail + left, torn: self.torn + left.len(), ..self }
    }

    /// No failed append left anything.
    pub open spec fn is_whole(self) -> bool {
        self.tail.len() == 0
    }

    /// Each frame stores its batch, and nothing lies behind a piece that is not there.
    pub open spec fn wf(self) -> bool {
        &&& crate::storage::segment::all_store(self.frames, self.batches)
        &&& self.is_whole() ==> self.behind.len() == 0 && self.torn == 0
    }

    /// The events of all batches that were appended.
    pub open spec fn events(self) -> Seq<Event> {
        self.front() + crate::storage::segment::concatenated(self.behind)
    }

    /// The events in front of the first piece of a frame.
    pub open spec fn front(self) -> Seq<Event> {
        crate::storage::segment::concatenated(self.batches)
    }

    /// The segment's file.
    pub open spec fn file(self) -> Seq<u8> {
        crate::storage::segment::file_of(self.frames) + self.tail
    }
}

/// The totals of the segment are those of what was appended to its file.
pub open spec fn accounts_for(seg: SegmentWriter, log: SegmentLog) -> bool {
    &&& log.wf()
    &&& seg.events_spec() == log.events().len()
    &&& seg.bytes_spec() + log.torn == log.file().len()
    &&& seg.frames_spec() == log.frames.len() + log.behind.len()
}

proof fn lemma_concatenated_push<A>(parts: Seq<Seq<A>>, more: Seq<A>)
    ensures
        crate::storage::segment::concatenated(parts.push(more))
            == crate::storage::segment::concatenated(parts) + more,
    decreases parts.len(),
{
    let all = parts.push(more);
    if parts.len() == 0 {
        assert(all.skip(1) =~= seq![]);
        assert(crate::storage::segment::concatenated(all.skip(1)) =~= seq![]);
        assert(crate::storage::segment::concatenated(all) =~= more);
        assert(crate::storage::segment::concatenated(parts) + more =~= more);
    } else {
        lemma_concatenated_push(parts.skip(1), more);
        assert(all.skip(1) =~= parts.skip(1).push(more));
        assert(parts[0] + (crate::storage::segment::concatenated(parts.skip(1)) + more) =~= (
        parts[0] + crate::storage::segment::concatenated(parts.skip(1))) + more);
    }
}

/// A segment that was just started accounts for a file without frames.
pub proof fn law_new_segment_accounts_for_an_empty_file(seg: SegmentWriter)
    requires
        seg.events_spec() == 0,
        seg.frames_spec() == 0,
        seg.bytes_spec() == crate::storage::segment::HEADER_LEN,
    ensures
        accounts_for(seg, SegmentLog::empty()),
{
    assert(crate::storage::segment::header_bytes().len() == crate::storage::segment::HEADER_LEN);
    assert(SegmentLog::empty().events() =~= seq![]);
}

/// The frame that waits, if one does, stores that batch.
pub open spec fn waits_with(seg: SegmentWriter, batch: Seq<Event>) -> bool {
    seg.staged_spec() matches Some((events, bytes)) ==> {
        let frame = crate::storage::segment::frame_of(batch);
        &&& events == batch.len()
        &&& bytes == frame.len()
        &&& crate::storage::segment::stores(frame, batch)
    }
}

/// What was written to a segment once it heard of the frame that waits, of which an append
/// that failed left those bytes.
pub open spec fn log_after(
    seg: SegmentWriter,
    log: SegmentLog,
    batch: Seq<Event>,
    written: bool,
    left: Seq<u8>,
) -> SegmentLog {
    if seg.staged_spec() is None {
        log
    } else if written {
        log.with(crate::storage::segment::frame_of(batch), batch)
    } else {
        log.torn_by(left)
    }
}

proof fn lemma_one_more_frame(log: SegmentLog, frame: Seq<u8>, batch: Seq<Event>)
    requires
        log.wf(),
        crate::storage::segment::stores(frame, batch),
    ensures
        log.with(frame, batch).wf(),
        log.with(frame, batch).events() == log.events() + batch,
        log.with(frame, batch).file() == log.file() + frame,
{
    let next = log.with(frame, batch);
    if log.is_whole() {
        lemma_concatenated_push(log.frames, frame);
        lemma_concatenated_push(log.batches, batch);
        assert forall|i: int| 0 <= i < next.frames.len() implies #[trigger]
            crate::storage::segment::stores(next.frames[i], next.batches[i]) by {
            if i < log.frames.len() {
                assert(crate::storage::segment::stores(log.frames[i], log.batches[i]));
            }
        }
        assert(crate::storage::segment::concatenated(log.behind) =~= seq![]);
    } else {
        lemma_concatenated_push(log.behind, batch);
    }
    assert(next.events() =~= log.events() + batch);
    assert(next.file() =~= log.file() + frame);
}

/// The totals of a segment follow its file: a frame that was appended counts with its
/// events and its bytes, one that was not does not count at all, whatever it left.
pub proof fn law_segment_totals_follow_its_file(
    before: SegmentWriter,
    after: SegmentWriter,
    log: SegmentLog,
    batch: Seq<Event>,
    written: bool,
    left: Seq<u8>,
)
    requires
        accounts_for(before, log),
        waits_with(before, batch),
        crate::storage::writer::commits(before, after, written),
    ensures
        accounts_for(after, log_after(before, log, batch, written, left)),
{
    if before.staged_spec() is Some {
        if written {
            lemma_one_more_frame(log, crate::storage::segment::frame_of(batch), batch);
        } else {
            assert(log.torn_by(left).file() =~= log.file() + left);
        }
    }
}

/// A segment reads back up to the first piece that a failed append left: it is still a
/// segment, and what was appended in front of that piece is read first. Where there is no
/// such piece, all of it is read and nothing else.
pub proof fn law_segment_reads_back_up_to_a_failed_append(log: SegmentLog)
    requires
        log.wf(),
    ensures
        crate::storage::segment::is_segment(log.file()),
        log.front().is_prefix_of(crate::export::events_of(log.file())),
        log.is_whole() ==> crate::export::events_of(log.file()) == log.events(),
        log.is_whole() ==> !crate::export::is_torn(log.file()),
{
    crate::storage::segment::law_damage_behind_frames_leaves_them_readable(
        log.frames,
        log.batches,
        log.tail,
    );
    if log.is_whole() {
        crate::storage::segment::law_written_segment_reads_back(log.frames, log.batches);
        assert(log.file() =~= crate::storage::segment::file_of(log.frames));
        assert(crate::storage::segment::concatenated(log.behind) =~= seq![]);
        assert(log.events() =~= log.front());
    }
}

// ---- one session ------------------------------------------------------------------------

/// The events of all segments.
pub open spec fn logged_events(logs: Seq<SegmentLog>) -> Seq<Event>
    decreases logs.len(),
{
    if logs.len() == 0 {
        seq![]
    } else {
        logged_events(logs.drop_last()) + logs.last().events()
    }
}

/// The files of all segments.
pub open spec fn logged_files(logs: Seq<SegmentLog>) -> Seq<Seq<u8>> {
    Seq::new(logs.len(), |i: int| logs[i].file())
}

/// The totals of the session are those of its segments, of which the last is open.
pub open spec fn session_accounts_for(a: Active, logs: Seq<SegmentLog>) -> bool {
    &&& logs.len() > 0
    &&& forall|i: int| 0 <= i < logs.len() ==> (#[trigger] logs[i]).wf()
    &&& accounts_for(a.seg, logs.last())
    &&& a.carried_events == logged_events(logs.drop_last()).len()
}

/// What is known of the files of the session that the loop is about: what was written to
/// its segments, and the batch of the frame that waits.
#[verifier::ext_equal]
pub struct Account {
    pub logs: Seq<SegmentLog>,
    pub batch: Seq<Event>,
}

/// The totals of the loop's session are those of its files.
pub open spec fn keeps(run: Run, account: Account) -> bool {
    match run {
        Run::Opening(active, _) => session_accounts_for(active, account.logs),
        Run::Running(r) => {
            &&& session_accounts_for(r.w.active, account.logs)
            &&& waits_with(r.w.active.seg, account.batch)
        },
        _ => true,
    }
}

/// The account once the loop heard of that. A frame that was written is in the file of the
/// open segment, one that was not left those bytes there, a segment that was created has a
/// file of its own, and so has a session.
pub open spec fn account_after(
    before: Run,
    answer: Answer,
    left: Seq<u8>,
    account: Account,
) -> Account {
    let logs = account.logs;
    let batch = account.batch;
    match before {
        Run::Running(r) => Account {
            logs: match answer {
                Answer::Appended { outcome, .. } => logs.drop_last().push(
                    log_after(
                        r.w.active.seg,
                        logs.last(),
                        batch,
                        outcome != FrameOutcome::WriteFailed,
                        left,
                    ),
                ),
                Answer::LastAppended(ok) => logs.drop_last().push(
                    log_after(r.w.active.seg, logs.last(), batch, ok, left),
                ),
                Answer::Created(true) => logs.push(SegmentLog::empty()),
                _ => logs,
            },
            batch: if answer is Asked {
                r.w.pending@
            } else {
                batch
            },
        },
        Run::Replacing(_, _) => Account { logs: seq![SegmentLog::empty()], batch },
        _ => account,
    }
}

proof fn lemma_open_segment(before: Active, after: Active, logs: Seq<SegmentLog>, log: SegmentLog)
    requires
        session_accounts_for(before, logs),
        accounts_for(after.seg, log),
        after.carried_events == before.carried_events,
    ensures
        session_accounts_for(after, logs.drop_last().push(log)),
{
    let next = logs.drop_last().push(log);
    assert(next.drop_last() =~= logs.drop_last());
    assert forall|i: int| 0 <= i < next.len() implies (#[trigger] next[i]).wf() by {
        if i < logs.len() - 1 {
            assert(next[i] == logs[i]);
        }
    }
}

proof fn lemma_next_segment(before: Active, after: Active, logs: Seq<SegmentLog>)
    requires
        session_accounts_for(before, logs),
        crate::storage::writer::rolled_over(before, after),
    ensures
        session_accounts_for(after, logs.push(SegmentLog::empty())),
{
    let next = logs.push(SegmentLog::empty());
    law_new_segment_accounts_for_an_empty_file(after.seg);
    assert(next.drop_last() =~= logs);
    assert forall|i: int| 0 <= i < next.len() implies (#[trigger] next[i]).wf() by {
        if i < logs.len() {
            assert(next[i] == logs[i]);
        }
    }
}

/// A session that was just opened accounts for one segment without frames.
pub proof fn law_new_session_accounts_for_an_empty_segment(
    a: Active,
    session: Session,
    base_reports: u64,
    base_dropped: u64,
)
    requires
        crate::storage::writer::opens(a, session, base_reports, base_dropped),
    ensures
        session_accounts_for(a, seq![SegmentLog::empty()]),
{
    let logs = seq![SegmentLog::empty()];
    law_new_segment_accounts_for_an_empty_file(a.seg);
    assert(logs.drop_last() =~= seq![]);
    assert(logged_events(logs.drop_last()).len() == 0);
}

/// Beginning a turn keeps the account: the frame that is handed out stores all that is
/// pending, and does not count yet.
pub proof fn law_beginning_a_turn_keeps_the_account(
    before: Running,
    now: u64,
    after: Running,
    action: Action,
    account: Account,
)
    requires
        before.wf(),
        before.at is Taken,
        keeps(Run::Running(before), account),
        crate::storage::run::begun(before, now, after, action),
    ensures
        keeps(Run::Running(after), Account { logs: account.logs, batch: before.w.pending@ }),
{
}

/// Taking events from the queue keeps the account, and no event is lost or reordered on
/// the way.
pub proof fn law_taking_events_keeps_the_account(
    before: Running,
    queue: Seq<Event>,
    finishing: bool,
    after: Running,
    left: Seq<Event>,
    account: Account,
)
    requires
        before.wf(),
        before.at is Begin,
        keeps(Run::Running(before), account),
        crate::storage::run::taken(before, queue, finishing, after, left),
    ensures
        keeps(Run::Running(after), account),
        after.w.pending@ + left == before.w.pending@ + queue,
{
    let n = crate::storage::writer::taken_in_a_turn(before.w.pending@.len(), queue.len()) as int;
    assert(queue.take(n) + queue.skip(n) =~= queue);
    assert(after.w.pending@ + left =~= before.w.pending@ + (queue.take(n) + queue.skip(n)));
}

/// Every step keeps the account, whatever came of what was done outside.
pub proof fn law_every_step_keeps_the_account(
    before: Run,
    status: SharedStatus,
    answer: Answer,
    now: u64,
    after: Run,
    shown: SharedStatus,
    action: Action,
    left: Seq<u8>,
    account: Account,
)
    requires
        before.wf(),
        before.accepts_spec(answer, now),
        crate::storage::run::stepped(before, status, answer, now, after, shown, action),
        keeps(before, account),
    ensures
        keeps(after, account_after(before, answer, left, account)),
{
    let logs = account.logs;
    match before {
        Run::Running(r) => {
            if let Run::Running(n) = after {
                let (was, is) = (r.w.active, n.w.active);
                match answer {
                    Answer::Appended { outcome, .. } => {
                        let written = outcome != FrameOutcome::WriteFailed;
                        law_segment_totals_follow_its_file(
                            was.seg,
                            is.seg,
                            logs.last(),
                            account.batch,
                            written,
                            left,
                        );
                        lemma_open_segment(
                            was,
                            is,
                            logs,
                            log_after(was.seg, logs.last(), account.batch, written, left),
                        );
                    },
                    Answer::LastAppended(ok) => {
                        law_segment_totals_follow_its_file(
                            was.seg,
                            is.seg,
                            logs.last(),
                            account.batch,
                            ok,
                            left,
                        );
                        lemma_open_segment(
                            was,
                            is,
                            logs,
                            log_after(was.seg, logs.last(), account.batch, ok, left),
                        );
                    },
                    Answer::Created(true) => {
                        lemma_next_segment(was, is, logs);
                    },
                    _ => {},
                }
            }
        },
        Run::Replacing(_, _) => {
            if let Answer::Next(Some(session), counters) = answer {
                if let Run::Opening(active, _) = after {
                    law_new_session_accounts_for_an_empty_segment(
                        active,
                        session,
                        counters.reports,
                        counters.dropped,
                    );
                }
            }
        },
        _ => {},
    }
}

/// In no segment did a failed append leave anything.
pub open spec fn all_whole(logs: Seq<SegmentLog>) -> bool {
    forall|i: int| 0 <= i < logs.len() ==> (#[trigger] logs[i]).is_whole()
}

/// Reading back the segments of a session, in none of which a failed append left anything,
/// gives every event that was written to it, in order, and reports nothing lost.
pub proof fn law_written_session_reads_back(logs: Seq<SegmentLog>)
    requires
        forall|i: int| 0 <= i < logs.len() ==> (#[trigger] logs[i]).wf(),
        all_whole(logs),
    ensures
        crate::export::all_segments(logged_files(logs)),
        crate::export::all_events(logged_files(logs)) == logged_events(logs),
        crate::export::torn_count(logged_files(logs)) == 0,
    decreases logs.len(),
{
    let files = logged_files(logs);
    if logs.len() > 0 {
        let earlier = logs.drop_last();
        let last = logs.last();
        assert forall|i: int| 0 <= i < earlier.len() implies (#[trigger] earlier[i]).wf()
            && earlier[i].is_whole() by {
            assert(earlier[i] == logs[i]);
        }
        law_written_session_reads_back(earlier);
        assert(last == logs[logs.len() - 1]);
        law_segment_reads_back_up_to_a_failed_append(last);
        assert(files.drop_last() =~= logged_files(earlier));
        assert(files.last() == last.file());
        assert forall|i: int| 0 <= i < files.len() implies crate::storage::segment::is_segment(
            #[trigger] files[i],
        ) by {
            if i < earlier.len() {
                assert(files[i] == logged_files(earlier)[i]);
            }
        }
    } else {
        assert(files =~= seq![]);
        assert(logged_events(logs) =~= seq![]);
    }
}

/// What a session that was closed claims of itself is what its files hold, where no failed
/// append left anything in them: its audit finds as many events as claimed and no torn
/// segment, and no problem at all where the timestamps are in order.
pub proof fn law_closed_session_passes_its_audit(
    a: Active,
    logs: Seq<SegmentLog>,
    synced: bool,
    counters: Counters,
    max_latency_us: u64,
    now_ms: u64,
    header: SessionHeader,
    v: VerifyReport,
)
    requires
        session_accounts_for(a, logs),
        all_whole(logs),
        a.written_spec() <= u64::MAX,
        crate::storage::session::ended(
            header,
            crate::storage::writer::closing_header(a, synced, counters, max_latency_us),
            now_ms,
        ),
        crate::export::reports(
            v,
            header,
            crate::export::all_events(logged_files(logs)),
            crate::export::torn_count(logged_files(logs)),
        ),
    ensures
        v.clean_shutdown,
        v.events_found == v.events_claimed,
        v.truncated_segments == 0,
        crate::export::regressions(logged_events(logs)) == 0
            ==> crate::cli::problems_spec(v).len() == 0,
{
    law_written_session_reads_back(logs);
    assert(logged_events(logs).len() == a.written_spec());
    crate::cli::law_audit_passes_only_sound_sessions(v);
}

// ---- from the queue to the disk -----------------------------------------------------------

/// What became of a batch that was taken from the queue.
#[verifier::ext_equal]
pub struct Fate {
    pub batch: Seq<Event>,
    /// Its frame was written. Otherwise the compressor failed on it, or the disk did.
    pub written: bool,
}

/// The events of all batches, in order.
pub open spec fn batched(fates: Seq<Fate>) -> Seq<Event>
    decreases fates.len(),
{
    if fates.len() == 0 {
        seq![]
    } else {
        batched(fates.drop_last()) + fates.last().batch
    }
}

/// The events of the batches that were written, in order.
pub open spec fn written(fates: Seq<Fate>) -> Seq<Event>
    decreases fates.len(),
{
    if fates.len() == 0 {
        seq![]
    } else if fates.last().written {
        written(fates.drop_last()) + fates.last().batch
    } else {
        written(fates.drop_last())
    }
}

/// A session that was closed: what was written to its segments, and its header as it is
/// to be saved.
#[verifier::ext_equal]
pub struct Closed {
    pub logs: Seq<SegmentLog>,
    pub header: SessionHeader,
}

/// The header claims what was appended to the files.
pub open spec fn is_sound(c: Closed) -> bool {
    &&& forall|i: int| 0 <= i < c.logs.len() ==> (#[trigger] c.logs[i]).wf()
    &&& c.header.clean_shutdown
    &&& c.header.events_written == logged_events(c.logs).len()
}

/// The events of all sessions that were closed, session by session.
pub open spec fn closed_events(closed: Seq<Closed>) -> Seq<Event>
    decreases closed.len(),
{
    if closed.len() == 0 {
        seq![]
    } else {
        closed_events(closed.drop_last()) + logged_events(closed.last().logs)
    }
}

/// The recorder with its history: the queue, the loop and the files.
pub struct World {
    /// What happened to the queue.
    pub steps: Seq<RingStep>,
    pub run: Run,
    /// The files of the current session.
    pub account: Account,
    /// The sessions before it.
    pub closed: Seq<Closed>,
    /// What became of each batch.
    pub fates: Seq<Fate>,
    /// Nothing was offered since the loop was last told how long the queue is.
    pub quiet: bool,
    /// The loop ended, having been told to.
    pub finished: bool,
}

/// What can happen.
pub enum Move {
    /// The capturing side offers an event.
    Offer(Event),
    /// The loop takes events from the queue.
    Take { finishing: bool, after: Running },
    /// The loop goes on with its turn.
    Begin { now: u64, after: Running, action: Action },
    /// The loop takes in an answer. Where an append failed, it left those bytes.
    Step {
        status: SharedStatus,
        answer: Answer,
        left: Seq<u8>,
        now: u64,
        next: Run,
        shown: SharedStatus,
        action: Action,
    },
}

/// How many events the loop takes from the queue in one turn.
pub open spec fn taken_now(before: Running, steps: Seq<RingStep>) -> nat {
    crate::storage::writer::taken_in_a_turn(
        before.w.pending@.len(),
        crate::ring::ring_run(steps).now.queue.len(),
    )
}

/// It can happen now. The loop is told the truth about the queue.
pub open spec fn can_happen(w: World, m: Move) -> bool {
    let queue = crate::ring::ring_run(w.steps).now.queue;
    match m {
        Move::Offer(_) => true,
        Move::Take { finishing, after } => {
            &&& w.run matches Run::Running(before)
            &&& before.at is Begin
            &&& after.wf()
            &&& crate::storage::run::taken(
                before,
                queue,
                finishing,
                after,
                queue.skip(taken_now(before, w.steps) as int),
            )
        },
        Move::Begin { now, after, action } => {
            &&& w.run matches Run::Running(before)
            &&& before.at is Taken
            &&& after.wf()
            &&& crate::storage::run::begun(before, now, after, action)
        },
        Move::Step { status, answer, left, now, next, shown, action } => {
            &&& w.run.accepts_spec(answer, now)
            &&& next.wf()
            &&& crate::storage::run::stepped(w.run, status, answer, now, next, shown, action)
            &&& answer matches Answer::Totals { depth, .. } ==> depth == queue.len()
        },
    }
}

/// What became of the batch that the loop heard of, or of the one that it gave up.
pub open spec fn fates_after(w: World, answer: Answer, action: Action) -> Seq<Fate> {
    match w.run {
        Run::Running(r) => match answer {
            Answer::Appended { outcome, .. } => w.fates.push(
                Fate {
                    batch: r.w.pending@,
                    written: crate::storage::segment::compresses(r.w.pending@) && outcome
                        != FrameOutcome::WriteFailed,
                },
            ),
            Answer::LastAppended(ok) => w.fates.push(
                Fate { batch: w.account.batch, written: ok },
            ),
            Answer::Asked { .. } => if action is Close && r.w.pending@.len() > 0 {
                w.fates.push(Fate { batch: r.w.pending@, written: false })
            } else {
                w.fates
            },
            _ => w.fates,
        },
        _ => w.fates,
    }
}

/// The sessions that were closed by then.
pub open spec fn closed_after(w: World, action: Action) -> Seq<Closed> {
    match action {
        Action::Replace { closed, .. } => w.closed.push(
            Closed { logs: w.account.logs, header: closed.header },
        ),
        Action::Finish(closed) => w.closed.push(
            Closed { logs: w.account.logs, header: closed.header },
        ),
        _ => w.closed,
    }
}

/// The recorder after it happened.
pub open spec fn moved(w: World, m: Move) -> World {
    match m {
        Move::Offer(ev) => World { steps: w.steps.push(RingStep::Push(ev)), quiet: false, ..w },
        Move::Take { after, .. } => match w.run {
            Run::Running(before) => World {
                steps: w.steps.push(RingStep::Drain(taken_now(before, w.steps))),
                run: Run::Running(after),
                ..w
            },
            _ => w,
        },
        Move::Begin { after, .. } => World {
            run: Run::Running(after),
            account: Account { logs: w.account.logs, batch: after.w.pending@ },
            ..w
        },
        Move::Step { answer, left, next, action, .. } => World {
            steps: w.steps,
            run: next,
            account: account_after(w.run, answer, left, w.account),
            closed: closed_after(w, action),
            fates: fates_after(w, answer, action),
            quiet: w.quiet || answer is Totals,
            finished: w.finished || action is Finish,
        },
    }
}

/// The recorder as it starts on its first session.
pub open spec fn first_world(active: Active) -> World {
    World {
        steps: seq![],
        run: Run::Opening(active, None),
        account: Account { logs: seq![SegmentLog::empty()], batch: seq![] },
        closed: seq![],
        fates: seq![],
        quiet: false,
        finished: false,
    }
}

/// The recorder after all of that happened.
pub open spec fn world_after(active: Active, moves: Seq<Move>) -> World
    decreases moves.len(),
{
    if moves.len() == 0 {
        first_world(active)
    } else {
        moved(world_after(active, moves.drop_last()), moves.last())
    }
}

/// Each of the moves could happen when it did.
pub open spec fn is_history(active: Active, moves: Seq<Move>) -> bool
    decreases moves.len(),
{
    moves.len() == 0 || {
        &&& is_history(active, moves.drop_last())
        &&& can_happen(world_after(active, moves.drop_last()), moves.last())
    }
}

/// The events taken from the queue that nothing was heard of yet.
pub open spec fn waiting(w: World) -> Seq<Event> {
    match w.run {
        Run::Running(r) => if r.at is LastFrame {
            w.account.batch
        } else {
            r.w.pending@
        },
        _ => seq![],
    }
}

/// The events in the files of all sessions, session by session.
pub open spec fn stored(w: World) -> Seq<Event> {
    closed_events(w.closed) + match w.run {
        Run::Opening(_, _) => logged_events(w.account.logs),
        Run::Running(_) => logged_events(w.account.logs),
        _ => seq![],
    }
}

/// What holds at any time.
pub open spec fn holds(w: World) -> bool {
    let ring = crate::ring::ring_run(w.steps);
    &&& w.run.wf()
    &&& keeps(w.run, w.account)
    &&& match w.run {
        Run::Opening(_, _) => w.account.logs == seq![SegmentLog::empty()],
        Run::Running(r) => {
            &&& r.at is Frame ==> {
                &&& w.account.batch == r.w.pending@
                &&& r.w.active.seg.staged_spec() is Some <==> crate::storage::segment::compresses(
                    r.w.pending@,
                )
            }
            &&& r.at is LastFrame ==> r.w.active.seg.staged_spec() is Some
            &&& r.at matches Turn::Close(None) ==> w.quiet ==> ring.now.queue.len() == 0
        },
        _ => true,
    }
    &&& ring.taken == batched(w.fates) + waiting(w)
    &&& stored(w) == written(w.fates)
    &&& forall|i: int| 0 <= i < w.closed.len() ==> is_sound(#[trigger] w.closed[i])
    &&& w.finished ==> w.run is Ended && (w.quiet ==> ring.now.queue.len() == 0)
}

proof fn lemma_empty_segment()
    ensures
        logged_events(seq![SegmentLog::empty()]) == Seq::<Event>::empty(),
{
    let logs = seq![SegmentLog::empty()];
    assert(logs.drop_last() =~= seq![]);
    assert(logged_events(logs.drop_last()) =~= seq![]);
    assert(logged_events(logs) =~= seq![]);
}

proof fn lemma_ring_step(steps: Seq<RingStep>, step: RingStep)
    ensures
        steps.push(step).drop_last() == steps,
        steps.push(step).last() == step,
{
    assert(steps.push(step).drop_last() =~= steps);
}

/// The events of the logs with more of them in the last.
proof fn lemma_logged_in_last(logs: Seq<SegmentLog>, log: SegmentLog, more: Seq<Event>)
    requires
        logs.len() > 0,
        log.events() == logs.last().events() + more,
    ensures
        logged_events(logs.drop_last().push(log)) == logged_events(logs) + more,
{
    let next = logs.drop_last().push(log);
    assert(next.drop_last() =~= logs.drop_last());
    assert(logged_events(next) =~= logged_events(logs) + more);
}

proof fn lemma_logged_in_next(logs: Seq<SegmentLog>)
    ensures
        logged_events(logs.push(SegmentLog::empty())) == logged_events(logs),
{
    let next = logs.push(SegmentLog::empty());
    assert(next.drop_last() =~= logs);
    assert(SegmentLog::empty().events() =~= seq![]);
    assert(logged_events(next) =~= logged_events(logs));
}

/// The logs of the session once the loop heard of the frame that waits.
proof fn lemma_heard(w: World, r: Running, answer: Answer, left: Seq<u8>, is_written: bool)
    requires
        w.run == Run::Running(r),
        session_accounts_for(r.w.active, w.account.logs),
        waits_with(r.w.active.seg, w.account.batch),
        match answer {
            Answer::Appended { outcome, .. } => is_written == (outcome != FrameOutcome::WriteFailed),
            Answer::LastAppended(ok) => is_written == ok,
            _ => false,
        },
    ensures
        logged_events(account_after(w.run, answer, left, w.account).logs) == logged_events(
            w.account.logs,
        ) + if is_written && r.w.active.seg.staged_spec() is Some {
            w.account.batch
        } else {
            seq![]
        },
{
    let logs = w.account.logs;
    let batch = w.account.batch;
    let seg = r.w.active.seg;
    let log = log_after(seg, logs.last(), batch, is_written, left);
    if is_written && seg.staged_spec() is Some {
        lemma_one_more_frame(logs.last(), crate::storage::segment::frame_of(batch), batch);
        lemma_logged_in_last(logs, log, batch);
    } else {
        assert(log.events() =~= logs.last().events() + seq![]);
        lemma_logged_in_last(logs, log, seq![]);
    }
}

/// What holds goes on to hold when the loop hears of a frame.
proof fn lemma_heard_holds(
    w: World,
    status: SharedStatus,
    answer: Answer,
    left: Seq<u8>,
    now: u64,
    next: Run,
    shown: SharedStatus,
    action: Action,
)
    requires
        holds(w),
        can_happen(w, Move::Step { status, answer, left, now, next, shown, action }),
        w.run is Running,
        answer is Appended || answer is LastAppended,
    ensures
        holds(moved(w, Move::Step { status, answer, left, now, next, shown, action })),
{
    let to = moved(w, Move::Step { status, answer, left, now, next, shown, action });
    law_every_step_keeps_the_account(
        w.run,
        status,
        answer,
        now,
        next,
        shown,
        action,
        left,
        w.account,
    );
    let taken = crate::ring::ring_run(w.steps).taken;
    if let Run::Running(r) = w.run {
        let is_written = match answer {
            Answer::Appended { outcome, .. } => outcome != FrameOutcome::WriteFailed,
            Answer::LastAppended(ok) => ok,
            _ => false,
        };
        lemma_heard(w, r, answer, left, is_written);
        assert(to.fates.drop_last() =~= w.fates);
        assert(batched(to.fates) + waiting(to) =~= taken);
        assert(stored(to) =~= written(to.fates));
    }
}

/// What holds goes on to hold when it is decided whether the session is replaced.
proof fn lemma_asked_holds(
    w: World,
    status: SharedStatus,
    answer: Answer,
    left: Seq<u8>,
    now: u64,
    next: Run,
    shown: SharedStatus,
    action: Action,
)
    requires
        holds(w),
        can_happen(w, Move::Step { status, answer, left, now, next, shown, action }),
        w.run is Running,
        answer is Asked,
    ensures
        holds(moved(w, Move::Step { status, answer, left, now, next, shown, action })),
{
    let to = moved(w, Move::Step { status, answer, left, now, next, shown, action });
    law_every_step_keeps_the_account(
        w.run,
        status,
        answer,
        now,
        next,
        shown,
        action,
        left,
        w.account,
    );
    let taken = crate::ring::ring_run(w.steps).taken;
    if let Run::Running(r) = w.run {
        if action is Close {
            if r.w.pending@.len() > 0 {
                assert(to.fates.drop_last() =~= w.fates);
            }
            assert(batched(to.fates) + waiting(to) =~= taken);
            assert(stored(to) =~= written(to.fates));
        }
    }
}

/// What holds goes on to hold when a session is closed.
proof fn lemma_closing_holds(
    w: World,
    status: SharedStatus,
    answer: Answer,
    left: Seq<u8>,
    now: u64,
    next: Run,
    shown: SharedStatus,
    action: Action,
)
    requires
        holds(w),
        can_happen(w, Move::Step { status, answer, left, now, next, shown, action }),
        w.run is Running,
        answer is Closing,
    ensures
        holds(moved(w, Move::Step { status, answer, left, now, next, shown, action })),
{
    let to = moved(w, Move::Step { status, answer, left, now, next, shown, action });
    law_every_step_keeps_the_account(
        w.run,
        status,
        answer,
        now,
        next,
        shown,
        action,
        left,
        w.account,
    );
    let taken = crate::ring::ring_run(w.steps).taken;
    if let Run::Running(r) = w.run {
        lemma_total(r.w.active, w.account.logs);
        assert(to.closed.drop_last() =~= w.closed);
        assert(stored(to) =~= stored(w));
        assert(waiting(to) =~= waiting(w));
        assert forall|i: int| 0 <= i < to.closed.len() implies is_sound(
            #[trigger] to.closed[i],
        ) by {
            if i < w.closed.len() {
                assert(to.closed[i] == w.closed[i]);
            }
        }
    }
}

/// What holds goes on to hold in the other steps of a turn.
proof fn lemma_other_holds(
    w: World,
    status: SharedStatus,
    answer: Answer,
    left: Seq<u8>,
    now: u64,
    next: Run,
    shown: SharedStatus,
    action: Action,
)
    requires
        holds(w),
        can_happen(w, Move::Step { status, answer, left, now, next, shown, action }),
        w.run is Running,
        !(answer is Appended || answer is LastAppended || answer is Asked || answer is Closing),
    ensures
        holds(moved(w, Move::Step { status, answer, left, now, next, shown, action })),
{
    let to = moved(w, Move::Step { status, answer, left, now, next, shown, action });
    law_every_step_keeps_the_account(
        w.run,
        status,
        answer,
        now,
        next,
        shown,
        action,
        left,
        w.account,
    );
    let taken = crate::ring::ring_run(w.steps).taken;
    if answer is Created {
        lemma_logged_in_next(w.account.logs);
    }
    assert(stored(to) =~= stored(w));
    assert(waiting(to) =~= waiting(w));
    assert(taken =~= batched(to.fates) + waiting(to));
}

/// What holds goes on to hold between two sessions.
proof fn lemma_between_holds(
    w: World,
    status: SharedStatus,
    answer: Answer,
    left: Seq<u8>,
    now: u64,
    next: Run,
    shown: SharedStatus,
    action: Action,
)
    requires
        holds(w),
        can_happen(w, Move::Step { status, answer, left, now, next, shown, action }),
        !(w.run is Running),
    ensures
        holds(moved(w, Move::Step { status, answer, left, now, next, shown, action })),
{
    let to = moved(w, Move::Step { status, answer, left, now, next, shown, action });
    law_every_step_keeps_the_account(
        w.run,
        status,
        answer,
        now,
        next,
        shown,
        action,
        left,
        w.account,
    );
    let taken = crate::ring::ring_run(w.steps).taken;
    lemma_empty_segment();
    assert(stored(to) =~= stored(w));
    assert(waiting(to) =~= waiting(w));
    assert(taken =~= batched(to.fates) + waiting(to));
}

proof fn lemma_step_holds(
    w: World,
    status: SharedStatus,
    answer: Answer,
    left: Seq<u8>,
    now: u64,
    next: Run,
    shown: SharedStatus,
    action: Action,
)
    requires
        holds(w),
        can_happen(w, Move::Step { status, answer, left, now, next, shown, action }),
    ensures
        holds(moved(w, Move::Step { status, answer, left, now, next, shown, action })),
{
    if !(w.run is Running) {
        lemma_between_holds(w, status, answer, left, now, next, shown, action);
    } else if answer is Appended || answer is LastAppended {
        lemma_heard_holds(w, status, answer, left, now, next, shown, action);
    } else if answer is Asked {
        lemma_asked_holds(w, status, answer, left, now, next, shown, action);
    } else if answer is Closing {
        lemma_closing_holds(w, status, answer, left, now, next, shown, action);
    } else {
        lemma_other_holds(w, status, answer, left, now, next, shown, action);
    }
}

/// The session has written as many events as its files hold.
proof fn lemma_total(a: Active, logs: Seq<SegmentLog>)
    requires
        session_accounts_for(a, logs),
    ensures
        a.written_spec() == logged_events(logs).len(),
{
}

proof fn lemma_move_holds(w: World, m: Move)
    requires
        holds(w),
        can_happen(w, m),
    ensures
        holds(moved(w, m)),
{
    let next = moved(w, m);
    let ring = crate::ring::ring_run(w.steps);
    match m {
        Move::Offer(ev) => {
            lemma_ring_step(w.steps, RingStep::Push(ev));
        },
        Move::Take { finishing, after } => {
            if let Run::Running(before) = w.run {
                let n = taken_now(before, w.steps);
                lemma_ring_step(w.steps, RingStep::Drain(n));
                law_taking_events_keeps_the_account(
                    before,
                    ring.now.queue,
                    finishing,
                    after,
                    ring.now.queue.skip(n as int),
                    w.account,
                );
                assert(ring.taken + ring.now.queue.take(n as int) =~= batched(w.fates) + waiting(
                    next,
                ));
            }
        },
        Move::Begin { now, after, action } => {
            if let Run::Running(before) = w.run {
                law_beginning_a_turn_keeps_the_account(before, now, after, action, w.account);
            }
        },
        Move::Step { status, answer, left, now, next, shown, action } => {
            lemma_step_holds(w, status, answer, left, now, next, shown, action);
        },
    }
}

proof fn lemma_history_holds(active: Active, first: Session, moves: Seq<Move>)
    requires
        crate::storage::writer::opens(active, first, 0, 0),
        is_history(active, moves),
    ensures
        holds(world_after(active, moves)),
    decreases moves.len(),
{
    if moves.len() == 0 {
        law_new_session_accounts_for_an_empty_segment(active, first, 0, 0);
        lemma_empty_segment();
        let w = first_world(active);
        assert(batched(w.fates) + waiting(w) =~= seq![]);
        assert(stored(w) =~= seq![]);
    } else {
        lemma_history_holds(active, first, moves.drop_last());
        lemma_move_holds(world_after(active, moves.drop_last()), moves.last());
    }
}

/// The events read back from the files of sessions that were closed, session by session.
pub open spec fn closed_read_back(closed: Seq<Closed>) -> Seq<Event>
    decreases closed.len(),
{
    if closed.len() == 0 {
        seq![]
    } else {
        closed_read_back(closed.drop_last()) + crate::export::all_events(
            logged_files(closed.last().logs),
        )
    }
}

/// The events read back from all files, session by session.
pub open spec fn read_back(w: World) -> Seq<Event> {
    closed_read_back(w.closed) + match w.run {
        Run::Opening(_, _) => crate::export::all_events(logged_files(w.account.logs)),
        Run::Running(_) => crate::export::all_events(logged_files(w.account.logs)),
        _ => seq![],
    }
}

/// The session ended cleanly, its files are whole, and it claims as many events as are
/// read back from them.
pub open spec fn claims_its_files(c: Closed) -> bool {
    let files = logged_files(c.logs);
    &&& c.header.clean_shutdown
    &&& crate::export::all_segments(files)
    &&& crate::export::torn_count(files) == 0
    &&& c.header.events_written == crate::export::all_events(files).len()
}

/// Every batch was written.
pub open spec fn all_written(fates: Seq<Fate>) -> bool {
    forall|i: int| 0 <= i < fates.len() ==> (#[trigger] fates[i]).written
}

/// A segment reads back up to the first piece that a failed append left, and whole where
/// there is none.
pub open spec fn reads_back(log: SegmentLog) -> bool {
    let found = crate::export::events_of(log.file());
    &&& crate::storage::segment::is_segment(log.file())
    &&& log.front().is_prefix_of(found)
    &&& log.is_whole() ==> found == log.events() && !crate::export::is_torn(log.file())
}

/// Every segment of the session reads back so.
pub open spec fn all_read_back(logs: Seq<SegmentLog>) -> bool {
    forall|i: int| 0 <= i < logs.len() ==> reads_back(#[trigger] logs[i])
}

/// No failed append left anything in any file.
pub open spec fn is_whole(w: World) -> bool {
    &&& forall|i: int| 0 <= i < w.closed.len() ==> all_whole((#[trigger] w.closed[i]).logs)
    &&& all_whole(w.account.logs)
}

/// No append that failed left anything behind.
pub open spec fn left_nothing(moves: Seq<Move>) -> bool {
    forall|i: int|
        0 <= i < moves.len() ==> (#[trigger] moves[i] matches Move::Step { left, .. } ==> left.len()
            == 0)
}

proof fn lemma_all_read_back(logs: Seq<SegmentLog>)
    requires
        forall|i: int| 0 <= i < logs.len() ==> (#[trigger] logs[i]).wf(),
    ensures
        all_read_back(logs),
{
    assert forall|i: int| 0 <= i < logs.len() implies reads_back(#[trigger] logs[i]) by {
        law_segment_reads_back_up_to_a_failed_append(logs[i]);
    }
}

proof fn lemma_closed_read_back(closed: Seq<Closed>)
    requires
        forall|i: int| 0 <= i < closed.len() ==> is_sound(#[trigger] closed[i]),
        forall|i: int| 0 <= i < closed.len() ==> all_whole((#[trigger] closed[i]).logs),
    ensures
        closed_read_back(closed) == closed_events(closed),
    decreases closed.len(),
{
    if closed.len() > 0 {
        let earlier = closed.drop_last();
        assert forall|i: int| 0 <= i < earlier.len() implies is_sound(#[trigger] earlier[i])
            && all_whole(earlier[i].logs) by {
            assert(earlier[i] == closed[i]);
        }
        lemma_closed_read_back(earlier);
        assert(is_sound(closed[closed.len() - 1]));
        law_written_session_reads_back(closed.last().logs);
    }
}

/// A file stays whole where no frame of it goes unwritten, or leaves nothing.
proof fn lemma_stays_whole(w: World, m: Move)
    requires
        holds(w),
        is_whole(w),
        can_happen(w, m),
        (m matches Move::Step { left, .. } ==> left.len() == 0) || all_written(moved(w, m).fates),
    ensures
        is_whole(moved(w, m)),
{
    if let Move::Step { status, answer, left, now, next, shown, action } = m {
        let to = moved(w, m);
        if let Run::Running(r) = w.run {
            let heard = answer is Appended || answer is LastAppended;
            if heard && left.len() > 0 {
                assert(to.fates[to.fates.len() - 1].written);
            }
            let logs = w.account.logs;
            assert(logs[logs.len() - 1].is_whole());
            assert forall|i: int| 0 <= i < to.account.logs.len() implies (
            #[trigger] to.account.logs[i]).is_whole() by {
                if i < logs.len() - 1 {
                    assert(to.account.logs[i] == logs[i]);
                }
            }
        }
        assert(all_whole(to.account.logs));
        assert forall|i: int| 0 <= i < to.closed.len() implies all_whole(
            (#[trigger] to.closed[i]).logs,
        ) by {
            if i < w.closed.len() {
                assert(to.closed[i] == w.closed[i]);
            }
        }
    }
}

proof fn lemma_stays_written(w: World, m: Move)
    requires
        all_written(moved(w, m).fates),
    ensures
        all_written(w.fates),
{
    let to = moved(w, m);
    assert forall|i: int| 0 <= i < w.fates.len() implies (#[trigger] w.fates[i]).written by {
        assert(to.fates[i] == w.fates[i]);
    }
}

/// The files are whole where every batch was written, or nothing was left of those that
/// were not.
proof fn lemma_history_is_whole(active: Active, first: Session, moves: Seq<Move>)
    requires
        crate::storage::writer::opens(active, first, 0, 0),
        is_history(active, moves),
        left_nothing(moves) || all_written(world_after(active, moves).fates),
    ensures
        is_whole(world_after(active, moves)),
    decreases moves.len(),
{
    if moves.len() > 0 {
        let earlier = moves.drop_last();
        let w = world_after(active, earlier);
        if left_nothing(moves) {
            assert forall|i: int| 0 <= i < earlier.len() implies (
            #[trigger] earlier[i] matches Move::Step { left, .. } ==> left.len() == 0) by {
                assert(earlier[i] == moves[i]);
            }
            assert(moves[moves.len() - 1] == moves.last());
        } else {
            lemma_stays_written(w, moves.last());
        }
        lemma_history_is_whole(active, first, earlier);
        lemma_history_holds(active, first, earlier);
        lemma_stays_whole(w, moves.last());
    }
}

/// What is read back from the files.
proof fn lemma_files(w: World)
    requires
        holds(w),
    ensures
        w.run is Opening || w.run is Running ==> all_read_back(w.account.logs),
        forall|i: int| 0 <= i < w.closed.len() ==> all_read_back((#[trigger] w.closed[i]).logs),
        forall|i: int|
            0 <= i < w.closed.len() && all_whole((#[trigger] w.closed[i]).logs)
                ==> claims_its_files(w.closed[i]),
        is_whole(w) ==> read_back(w) == written(w.fates),
{
    match w.run {
        Run::Opening(_, _) => lemma_all_read_back(w.account.logs),
        Run::Running(_) => lemma_all_read_back(w.account.logs),
        _ => {},
    }
    assert forall|i: int| 0 <= i < w.closed.len() implies all_read_back(
        (#[trigger] w.closed[i]).logs,
    ) && (all_whole(w.closed[i].logs) ==> claims_its_files(w.closed[i])) by {
        assert(is_sound(w.closed[i]));
        lemma_all_read_back(w.closed[i].logs);
        if all_whole(w.closed[i].logs) {
            law_written_session_reads_back(w.closed[i].logs);
        }
    }
    if is_whole(w) {
        lemma_closed_read_back(w.closed);
        match w.run {
            Run::Opening(_, _) => law_written_session_reads_back(w.account.logs),
            Run::Running(_) => law_written_session_reads_back(w.account.logs),
            _ => {},
        }
    }
}

proof fn lemma_all_written(fates: Seq<Fate>)
    requires
        all_written(fates),
    ensures
        written(fates) == batched(fates),
    decreases fates.len(),
{
    if fates.len() > 0 {
        let earlier = fates.drop_last();
        assert forall|i: int| 0 <= i < earlier.len() implies (#[trigger] earlier[i]).written by {
            assert(earlier[i] == fates[i]);
        }
        lemma_all_written(earlier);
        assert(fates[fates.len() - 1].written);
    }
}

/// Whatever was offered to the queue, and however the turns of the loop, its rollovers and
/// what came of its actions fell in between:
///
/// - Every event offered was refused, and then counted, or is in one batch, or waits for
///   its batch to be heard of, or is still queued, in the order in which it was offered.
/// - Appended to the files of all sessions are exactly the batches that were written, in
///   order. A batch is not written only where the compressor or the disk failed on it.
/// - Every session that was closed says so, and claims as many events as were appended to
///   its own files.
/// - Every segment reads back up to the first piece that a failed append left in it.
/// - Where no failed append left anything, and so where every batch was written, exactly
///   the batches that were written are read back, and each session that was closed claims
///   as many events as are read back from its own files.
/// - A loop that ended because it was told to leaves nothing waiting, and nothing queued
///   where nothing was offered behind its last look at the queue.
pub proof fn law_every_event_is_stored_or_counted(active: Active, first: Session, moves: Seq<Move>)
    requires
        crate::storage::writer::opens(active, first, 0, 0),
        is_history(active, moves),
    ensures
        ({
            let w = world_after(active, moves);
            let ring = crate::ring::ring_run(w.steps);
            let left = waiting(w) + ring.now.queue;
            &&& crate::ring::merge_of(ring.offered, batched(w.fates) + left, ring.refused)
            &&& ring.refused.len() <= u64::MAX ==> ring.now.dropped == ring.refused.len()
            &&& stored(w) == written(w.fates)
            &&& forall|i: int| 0 <= i < w.closed.len() ==> is_sound(#[trigger] w.closed[i])
            &&& forall|i: int|
                0 <= i < w.closed.len() ==> all_read_back((#[trigger] w.closed[i]).logs)
            &&& w.run is Opening || w.run is Running ==> all_read_back(w.account.logs)
            &&& left_nothing(moves) ==> is_whole(w)
            &&& is_whole(w) ==> read_back(w) == written(w.fates)
            &&& forall|i: int|
                0 <= i < w.closed.len() && all_whole((#[trigger] w.closed[i]).logs)
                    ==> claims_its_files(w.closed[i])
            &&& all_written(w.fates) ==> {
                &&& is_whole(w)
                &&& read_back(w) + waiting(w) == ring.taken
                &&& crate::ring::merge_of(ring.offered, read_back(w) + left, ring.refused)
            }
            &&& w.finished ==> w.run is Ended && waiting(w).len() == 0
            &&& w.finished && w.quiet ==> ring.now.queue.len() == 0
        }),
{
    let w = world_after(active, moves);
    let ring = crate::ring::ring_run(w.steps);
    lemma_history_holds(active, first, moves);
    crate::ring::law_every_event_is_delivered_in_order_or_counted(w.steps);
    assert(ring.taken + ring.now.queue =~= batched(w.fates) + (waiting(w) + ring.now.queue));
    lemma_files(w);
    if left_nothing(moves) || all_written(w.fates) {
        lemma_history_is_whole(active, first, moves);
    }
    if all_written(w.fates) {
        lemma_all_written(w.fates);
    }
}

} // verus!
