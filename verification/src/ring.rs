//! The queue between capture and storage.
//!
//! The capturing side must never wait for the storing side: when the queue is
//! full it refuses the new event and counts it. What was queued before stays
//! untouched, and comes out in the order in which it went in.

use vstd::prelude::*;

use crate::event::Event;

verus! {

/// 65536 events: about 65 s of headroom at 1 kHz. A power of two, so that
/// positions may run past the end of their counter.
pub const CAP: usize = 65536;

/// A bounded first-in first-out queue of events that counts what it refuses.
pub struct Ring {
    buf: Vec<Event>,
    /// Events ever accepted, as far as the counter holds them.
    head: u64,
    /// Events ever handed out, as far as the counter holds them.
    tail: u64,
    dropped: u64,
    /// Timestamps of the first and last event ever refused.
    ///
    /// A bare count tells that events vanished, but not which stretch of the
    /// recording to distrust.
    drop_range: Option<(u64, u64)>,
    /// High-water mark of occupancy, for the health report.
    peak: u64,
}

/// One more, as a 64-bit counter counts.
pub open spec fn counted(n: u64) -> u64 {
    if n == u64::MAX {
        0
    } else {
        (n + 1) as u64
    }
}

/// How far the counter `head` is ahead of the counter `tail`.
pub open spec fn ahead(head: u64, tail: u64) -> int {
    if head >= tail {
        head - tail
    } else {
        head - tail + 0x1_0000_0000_0000_0000
    }
}

/// What a queue holds and remembers.
#[verifier::ext_equal]
pub struct RingState {
    /// The events queued, oldest first.
    pub queue: Seq<Event>,
    /// How many events were refused.
    pub dropped: u64,
    /// The timestamps of the first and the last of them, if any was.
    pub drop_range: Option<(u64, u64)>,
    /// The most events that were ever queued.
    pub peak: u64,
}

impl RingState {
    /// A queue as it is before the first event.
    pub open spec fn fresh() -> RingState {
        RingState { queue: seq![], dropped: 0, drop_range: None, peak: 0 }
    }

    /// After an event was offered. A full queue refuses the new event, it does not
    /// overwrite an old one.
    pub open spec fn pushed(self, ev: Event) -> RingState {
        if self.queue.len() < CAP {
            RingState {
                queue: self.queue.push(ev),
                peak: if self.queue.len() + 1 > self.peak {
                    (self.queue.len() + 1) as u64
                } else {
                    self.peak
                },
                ..self
            }
        } else {
            RingState {
                dropped: counted(self.dropped),
                drop_range: match self.drop_range {
                    Some((first, _)) => Some((first, ev.t_ns)),
                    None => Some((ev.t_ns, ev.t_ns)),
                },
                ..self
            }
        }
    }

    /// After these events were offered, one after another.
    pub open spec fn pushed_all(self, events: Seq<Event>) -> RingState
        decreases events.len(),
    {
        if events.len() == 0 {
            self
        } else {
            self.pushed_all(events.drop_last()).pushed(events.last())
        }
    }
}

impl View for Ring {
    type V = RingState;

    closed spec fn view(&self) -> RingState {
        RingState {
            queue: self.queued(),
            dropped: self.dropped,
            drop_range: self.drop_range,
            peak: self.peak,
        }
    }
}

/// A position wraps before or after it is moved on.
proof fn lemma_slot(position: int, by: int)
    ensures
        (position % CAP as int + by) % CAP as int == (position + by) % CAP as int,
{
}

impl Ring {
    spec fn queued(&self) -> Seq<Event> {
        Seq::new(
            ahead(self.head, self.tail) as nat,
            |i: int| self.buf@[(self.tail + i) % CAP as int],
        )
    }

    /// The queue is never longer than its buffer.
    pub closed spec fn wf(&self) -> bool {
        &&& self.buf@.len() == CAP
        &&& ahead(self.head, self.tail) <= CAP
    }

    pub fn new() -> (r: Self)
        ensures
            r.wf(),
            r@ == RingState::fresh(),
    {
        let mut buf: Vec<Event> = Vec::new();
        let mut i: usize = 0;
        while i < CAP
            invariant
                i <= CAP,
                buf@.len() == i,
            decreases CAP - i,
        {
            buf.push(Event::default());
            i = i + 1;
        }
        let r = Ring {
            buf,
            head: 0,
            tail: 0,
            dropped: 0,
            drop_range: None,
            peak: 0,
        };
        assert(r@ =~= RingState::fresh());
        r
    }

    /// Appends an event. When the queue is full the event is refused instead, and
    /// counted, so that the session header can report honestly rather than
    /// pretend that the data is complete.
    pub fn push(&mut self, ev: Event)
        requires
            old(self).wf(),
        ensures
            final(self).wf(),
            final(self)@ == old(self)@.pushed(ev),
    {
        let used: u64 = self.depth();
        if used >= CAP as u64 {
            self.dropped = if self.dropped == u64::MAX {
                0
            } else {
                self.dropped + 1
            };
            // When, not just how many.
            self.drop_range = match self.drop_range {
                Some((first, _)) => Some((first, ev.t_ns)),
                None => Some((ev.t_ns, ev.t_ns)),
            };
            assert(self.queued() =~= old(self).queued());
            return ;
        }
        if used + 1 > self.peak {
            self.peak = used + 1;
        }
        let slot: usize = (self.head % CAP as u64) as usize;
        self.buf.set(slot, ev);
        self.head = if self.head == u64::MAX {
            0
        } else {
            self.head + 1
        };
        proof {
            let n = old(self).queued().len() as int;
            let t = old(self).tail as int;
            assert(ahead(self.head, self.tail) == n + 1);
            assert((t + n) % CAP as int == slot);
            assert forall|i: int| 0 <= i < n implies self.queued()[i] == old(self).queued()[i] by {
                assert((t + i) % CAP as int != (t + n) % CAP as int);
            }
            assert(self.queued() =~= old(self).queued().push(ev));
        }
    }

    /// Moves as many events as `out` has room for, oldest first, to the front of
    /// `out`, and returns how many those were.
    pub fn drain(&mut self, out: &mut [Event]) -> (n: usize)
        requires
            old(self).wf(),
        ensures
            final(self).wf(),
            n == if old(self)@.queue.len() <= old(out)@.len() {
                old(self)@.queue.len() as int
            } else {
                old(out)@.len() as int
            },
            final(out)@ == old(self)@.queue.take(n as int) + old(out)@.skip(n as int),
            final(self)@ == (RingState { queue: old(self)@.queue.skip(n as int), ..old(self)@ }),
    {
        let used: u64 = self.depth();
        let room: usize = out.len();
        let avail: usize = if used <= room as u64 {
            used as usize
        } else {
            room
        };
        let ghost given = out@;
        let mut i: usize = 0;
        assert(out@ =~= self.queued().take(0) + given.skip(0));
        while i < avail
            invariant
                *self == *old(self),
                self.wf(),
                i <= avail <= self.queued().len(),
                avail <= given.len(),
                out@ == self.queued().take(i as int) + given.skip(i as int),
            decreases avail - i,
        {
            let slot: usize = ((self.tail % CAP as u64 + i as u64) % CAP as u64) as usize;
            proof {
                lemma_slot(self.tail as int, i as int);
            }
            out[i] = self.buf[slot];
            i = i + 1;
            assert(out@ =~= self.queued().take(i as int) + given.skip(i as int));
        }
        let rest: u64 = u64::MAX - self.tail;
        self.tail = if avail as u64 <= rest {
            self.tail + avail as u64
        } else {
            avail as u64 - rest - 1
        };
        proof {
            let n = avail as int;
            let t = old(self).tail as int;
            assert(ahead(self.head, self.tail) == old(self).queued().len() - n);
            assert forall|i: int| 0 <= i < self.queued().len() implies self.queued()[i]
                == old(self).queued()[n + i] by {
                assert((self.tail + i) % CAP as int == (t + n + i) % CAP as int);
            }
            assert(self.queued() =~= old(self).queued().skip(n));
        }
        avail
    }

    pub fn dropped(&self) -> (n: u64)
        ensures
            n == self@.dropped,
    {
        self.dropped
    }

    /// Timestamp range over which events were lost, if any.
    pub fn drop_range(&self) -> (r: Option<(u64, u64)>)
        ensures
            r == self@.drop_range,
    {
        self.drop_range
    }

    /// The most events that were ever queued.
    pub fn peak_depth(&self) -> (n: u64)
        ensures
            n == self@.peak,
    {
        self.peak
    }

    /// How many events are queued.
    pub fn depth(&self) -> (n: u64)
        requires
            self.wf(),
        ensures
            n == self@.queue.len(),
            n <= CAP,
    {
        if self.head >= self.tail {
            self.head - self.tail
        } else {
            u64::MAX - self.tail + self.head + 1
        }
    }
}

impl Default for Ring {
    fn default() -> (r: Self)
        ensures
            r.wf(),
            r@ == RingState::fresh(),
    {
        Self::new()
    }
}

// ---- laws -------------------------------------------------------------------------

/// What can happen to a queue.
pub enum RingStep {
    Push(Event),
    /// A drain into a buffer of this length.
    Drain(nat),
}

/// A queue and its history.
#[verifier::ext_equal]
pub struct RingRun {
    pub now: RingState,
    /// Every event offered, in order.
    pub offered: Seq<Event>,
    /// Every event handed out, in order.
    pub taken: Seq<Event>,
    /// Every event refused, in order.
    pub refused: Seq<Event>,
}

/// The queue behind these steps.
pub open spec fn ring_run(steps: Seq<RingStep>) -> RingRun
    decreases steps.len(),
{
    if steps.len() == 0 {
        RingRun { now: RingState::fresh(), offered: seq![], taken: seq![], refused: seq![] }
    } else {
        let before = ring_run(steps.drop_last());
        match steps.last() {
            RingStep::Push(ev) => RingRun {
                now: before.now.pushed(ev),
                offered: before.offered.push(ev),
                refused: if before.now.queue.len() < CAP {
                    before.refused
                } else {
                    before.refused.push(ev)
                },
                ..before
            },
            RingStep::Drain(room) => {
                let n = if before.now.queue.len() <= room {
                    before.now.queue.len() as int
                } else {
                    room as int
                };
                RingRun {
                    now: RingState { queue: before.now.queue.skip(n), ..before.now },
                    taken: before.taken + before.now.queue.take(n),
                    ..before
                }
            },
        }
    }
}

/// `whole` is `a` and `b` merged, both in their own order.
pub open spec fn merge_of(whole: Seq<Event>, a: Seq<Event>, b: Seq<Event>) -> bool
    decreases whole.len(),
{
    if whole.len() == 0 {
        a.len() == 0 && b.len() == 0
    } else {
        ||| (a.len() > 0 && a.last() == whole.last() && merge_of(
            whole.drop_last(),
            a.drop_last(),
            b,
        ))
        ||| (b.len() > 0 && b.last() == whole.last() && merge_of(
            whole.drop_last(),
            a,
            b.drop_last(),
        ))
    }
}

/// Whatever was offered and taken, in whatever order: every event offered was
/// either refused, and then counted, or it was taken or is still queued. The
/// events accepted come out in the order in which they were offered, and none
/// comes out twice.
pub proof fn law_every_event_is_delivered_in_order_or_counted(steps: Seq<RingStep>)
    ensures
        ({
            let run = ring_run(steps);
            &&& merge_of(run.offered, run.taken + run.now.queue, run.refused)
            &&& run.offered.len() == run.taken.len() + run.now.queue.len() + run.refused.len()
            &&& run.now.queue.len() <= CAP
            &&& run.refused.len() <= u64::MAX ==> run.now.dropped == run.refused.len()
        }),
    decreases steps.len(),
{
    if steps.len() > 0 {
        law_every_event_is_delivered_in_order_or_counted(steps.drop_last());
        let before = ring_run(steps.drop_last());
        let run = ring_run(steps);
        let kept = before.taken + before.now.queue;
        match steps.last() {
            RingStep::Push(ev) => {
                assert(run.offered.drop_last() =~= before.offered);
                if before.now.queue.len() < CAP {
                    assert((run.taken + run.now.queue).drop_last() =~= kept);
                    assert((run.taken + run.now.queue).last() == ev);
                } else {
                    assert(run.refused.drop_last() =~= before.refused);
                }
            },
            RingStep::Drain(room) => {
                assert(run.taken + run.now.queue =~= kept);
            },
        }
    }
}

/// A queue that never refused an event reports no range, and one that did reports when
/// the first and the last were refused.
pub proof fn law_drop_range_bounds_the_loss(steps: Seq<RingStep>)
    ensures
        ({
            let run = ring_run(steps);
            run.now.drop_range == if run.refused.len() == 0 {
                None
            } else {
                Some((run.refused[0].t_ns, run.refused.last().t_ns))
            }
        }),
    decreases steps.len(),
{
    if steps.len() > 0 {
        law_drop_range_bounds_the_loss(steps.drop_last());
    }
}

/// The peak is the high-water mark: the queue has been as long as that, and never longer.
pub proof fn law_peak_is_the_high_water_mark(steps: Seq<RingStep>)
    ensures
        forall|n: int|
            0 <= n <= steps.len() ==> (#[trigger] ring_run(steps.take(n))).now.queue.len()
                <= ring_run(steps).now.peak,
        exists|n: int|
            0 <= n <= steps.len() && (#[trigger] ring_run(steps.take(n))).now.queue.len()
                == ring_run(steps).now.peak,
    decreases steps.len(),
{
    let run = ring_run(steps);
    assert(steps.take(steps.len() as int) =~= steps);
    if steps.len() > 0 {
        let earlier = steps.drop_last();
        let before = ring_run(earlier);
        law_peak_is_the_high_water_mark(earlier);
        law_every_event_is_delivered_in_order_or_counted(earlier);
        assert(earlier.take(earlier.len() as int) =~= earlier);
        assert(before.now.queue.len() <= before.now.peak);
        assert forall|n: int| 0 <= n <= steps.len() implies (#[trigger] ring_run(
            steps.take(n),
        )).now.queue.len() <= run.now.peak by {
            if n < steps.len() {
                assert(steps.take(n) =~= earlier.take(n));
                assert(ring_run(earlier.take(n)).now.queue.len() <= before.now.peak);
            }
        }
        if run.now.peak == before.now.peak {
            let n = choose|n: int|
                0 <= n <= earlier.len() && (#[trigger] ring_run(earlier.take(n))).now.queue.len()
                    == before.now.peak;
            assert(steps.take(n) =~= earlier.take(n));
            assert(ring_run(steps.take(n)).now.queue.len() == run.now.peak);
        } else {
            assert(ring_run(steps.take(steps.len() as int)).now.queue.len() == run.now.peak);
        }
    } else {
        assert(ring_run(steps.take(0)).now.queue.len() == run.now.peak);
    }
}

/// Events that are offered one after another queue up behind those that wait, in their
/// order, as long as there is room for 65536; none of those that wait is touched.
pub proof fn law_offered_events_queue_up(s: RingState, events: Seq<Event>)
    requires
        s.queue.len() <= 65536,
    ensures
        s.pushed_all(events).queue == s.queue + events.take(
            if events.len() <= 65536 - s.queue.len() {
                events.len() as int
            } else {
                65536 - s.queue.len()
            },
        ),
    decreases events.len(),
{
    if events.len() > 0 {
        let before = events.drop_last();
        law_offered_events_queue_up(s, before);
        if events.len() <= 65536 - s.queue.len() {
            assert(before.take(before.len() as int) =~= before);
            assert(events.take(events.len() as int) =~= before.push(events.last()));
        } else {
            assert(before.take(65536 - s.queue.len()) =~= events.take(65536 - s.queue.len()));
        }
    }
    assert(s.pushed_all(events).queue =~= s.queue + events.take(
        if events.len() <= 65536 - s.queue.len() {
            events.len() as int
        } else {
            65536 - s.queue.len()
        },
    ));
}

/// No more than 65536 events ever wait.
pub proof fn law_queue_is_bounded(ring: &Ring)
    requires
        ring.wf(),
    ensures
        ring@.queue.len() <= 65536,
{
}

} // verus!
