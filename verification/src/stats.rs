//! Dataset audit: how much has been collected, and is it any good?
//!
//! Everything here is derived from the stored events. Nothing is read from a
//! precomputed field, because there are none: the recorder stores raw reports and
//! nothing else.

use vstd::prelude::*;

use std::collections::{HashMap, HashSet};

use crate::clock::{day_part, local_hour, local_weekday_name};
use crate::event::{Event, EV_BUTTON, EV_MOVE, EV_WHEEL, F_DOWN};
use crate::export::append_events;
use crate::order::{add_text, median};
use crate::storage::segment::read_segment;
use crate::storage::session::SessionHeader;
use crate::text::{is_blank, push_hex4};

verus! {

/// A pause longer than this ends a movement.
pub const SEG_GAP_NS: u64 = 120_000_000;

/// A gap longer than this means that the machine was asleep or off, not idle.
/// Counting it as recording time would overstate the dataset by whole days.
pub const SLEEP_GAP_NS: u64 = 600_000_000_000;

/// Wheel events further apart than this belong to separate scroll bursts.
pub const SCROLL_GAP_NS: u64 = 400_000_000;

/// Reports as far apart as this say nothing of the polling rate.
pub const MAX_REPORT_GAP_NS: u64 = 100_000_000;

/// A button held as long as this was not clicked.
pub const MAX_HOLD_NS: u64 = 5_000_000_000;

/// What a dataset holds.
pub struct Stats {
    pub sessions: usize,
    pub clean: usize,
    pub interrupted: usize,
    pub in_progress: usize,
    pub bytes: u64,
    pub reports_received: u64,
    pub events_written: u64,
    pub dropped: u64,
    pub writer_errors: u64,
    pub peak_queue: u64,
    /// Events seen, of whatever kind.
    pub seen: u64,
    pub kinds: HashMap<u8, u64>,
    pub active_ns: u64,
    pub asleep_ns: u64,
    pub movements: u64,
    pub clicks: u64,
    pub drags: u64,
    pub scroll_bursts: u64,
    pub button_presses: HashMap<u8, u64>,
    /// How long clicks held the button, for a median.
    pub holds: Vec<u64>,
    /// Gaps between reports, for the measured polling rate.
    pub gaps: Vec<u64>,
    /// Squares of the straight-line distances of movements, in pixels.
    pub distances: Vec<u128>,
    /// Sessions that started in each part of the day.
    pub day_parts: Vec<(String, u64)>,
    pub hours: HashSet<u8>,
    pub weekdays: Vec<String>,
    pub machines: Vec<String>,
    pub devices: Vec<String>,
    pub first_session: String,
    pub last_session: String,
}

// ---- tallies --------------------------------------------------------------------------

/// The count for a key; none is 0.
pub open spec fn count_of(m: Map<u8, u64>, k: u8) -> int {
    if m.contains_key(k) {
        m[k] as int
    } else {
        0
    }
}

/// The counts after each of the keys was counted once more.
pub open spec fn tallied(m: Map<u8, u64>, keys: Seq<u8>) -> Map<u8, u64>
    decreases keys.len(),
{
    if keys.len() == 0 {
        m
    } else {
        let before = tallied(m, keys.drop_last());
        before.insert(keys.last(), (count_of(before, keys.last()) + 1) as u64)
    }
}

/// No count is above `most`.
pub open spec fn counts_within(m: Map<u8, u64>, most: int) -> bool {
    forall|k: u8| #[trigger] m.contains_key(k) ==> m[k] <= most
}

/// Counts each of the keys once more.
fn tally(m: &mut HashMap<u8, u64>, keys: &Vec<u8>, most: u64)
    requires
        counts_within(old(m)@, most as int),
        most + keys@.len() <= u64::MAX,
    ensures
        final(m)@ == tallied(old(m)@, keys@),
        counts_within(final(m)@, most + keys@.len()),
{
    let mut i: usize = 0;
    assert(keys@.take(0) =~= seq![]);
    while i < keys.len()
        invariant
            i <= keys@.len(),
            most + keys@.len() <= u64::MAX,
            m@ == tallied(old(m)@, keys@.take(i as int)),
            counts_within(m@, most + i),
        decreases keys@.len() - i,
    {
        let k: u8 = keys[i];
        let n: u64 = match m.get(&k) {
            Some(v) => *v,
            None => 0,
        };
        assert(n == count_of(m@, k));
        proof {
            let next = keys@.take(i + 1);
            assert(next.drop_last() =~= keys@.take(i as int));
            assert(next.last() == k);
        }
        m.insert(k, n + 1);
        i = i + 1;
    }
    assert(keys@.take(i as int) =~= keys@);
}

// ---- the events of a session ------------------------------------------------------------

/// The events of one kind, in order.
pub open spec fn of_kind(events: Seq<Event>, kind: u8) -> Seq<Event> {
    events.filter(|e: Event| e.kind == kind)
}

/// The kinds of the events, one by one.
pub open spec fn kinds_of(events: Seq<Event>) -> Seq<u8> {
    events.map_values(|e: Event| e.kind)
}

/// Nanoseconds from one event to the next, and none where the clock ran backwards.
pub open spec fn step_ns(a: Event, b: Event) -> int {
    if b.t_ns > a.t_ns {
        b.t_ns - a.t_ns
    } else {
        0
    }
}

/// Nanoseconds between events that lie close enough together to count as recording.
pub open spec fn awake_ns(events: Seq<Event>) -> int
    decreases events.len(),
{
    if events.len() < 2 {
        0
    } else {
        let d = step_ns(events[events.len() - 2], events.last());
        awake_ns(events.drop_last()) + if d <= SLEEP_GAP_NS {
            d
        } else {
            0
        }
    }
}

/// Nanoseconds between events that lie further apart.
pub open spec fn slept_ns(events: Seq<Event>) -> int
    decreases events.len(),
{
    if events.len() < 2 {
        0
    } else {
        let d = step_ns(events[events.len() - 2], events.last());
        slept_ns(events.drop_last()) + if d <= SLEEP_GAP_NS {
            0
        } else {
            d
        }
    }
}

/// The last move is the first of a movement: there is none before it, or a long
/// pause.
pub open spec fn starts_movement(moves: Seq<Event>) -> bool {
    moves.len() == 1 || (moves.len() > 1 && moves.last().t_ns - moves[moves.len() - 2].t_ns
        > SEG_GAP_NS)
}

/// How many movements the moves make.
pub open spec fn movement_count(moves: Seq<Event>) -> nat
    decreases moves.len(),
{
    if moves.len() == 0 {
        0
    } else {
        movement_count(moves.drop_last()) + if starts_movement(moves) {
            1nat
        } else {
            0
        }
    }
}

/// The first move of the last movement.
pub open spec fn movement_start(moves: Seq<Event>) -> Event
    decreases moves.len(),
{
    if moves.len() <= 1 || starts_movement(moves) {
        moves.last()
    } else {
        movement_start(moves.drop_last())
    }
}

/// The square of the distance between two events' cursor positions.
pub open spec fn distance_squared(a: Event, b: Event) -> u128 {
    ((b.x - a.x) * (b.x - a.x) + (b.y - a.y) * (b.y - a.y)) as u128
}

/// Squared distances of the movements that ended before the last move's.
pub open spec fn closed_distances(moves: Seq<Event>) -> Seq<u128>
    decreases moves.len(),
{
    if moves.len() <= 1 {
        seq![]
    } else {
        let before = moves.drop_last();
        if starts_movement(moves) {
            closed_distances(before).push(distance_squared(movement_start(before), before.last()))
        } else {
            closed_distances(before)
        }
    }
}

/// Squared distances of the movements, from the first to the last move of each.
pub open spec fn movement_distances(moves: Seq<Event>) -> Seq<u128> {
    if moves.len() == 0 {
        seq![]
    } else {
        closed_distances(moves).push(distance_squared(movement_start(moves), moves.last()))
    }
}

/// The gaps between moves that tell of the polling rate.
pub open spec fn report_gaps(moves: Seq<Event>) -> Seq<u64>
    decreases moves.len(),
{
    if moves.len() <= 1 {
        seq![]
    } else {
        let gap = moves.last().t_ns - moves[moves.len() - 2].t_ns;
        if 0 < gap < MAX_REPORT_GAP_NS {
            report_gaps(moves.drop_last()).push(gap as u64)
        } else {
            report_gaps(moves.drop_last())
        }
    }
}

/// How many drags the moves make: stretches of a movement with a button held.
pub open spec fn drag_count(moves: Seq<Event>) -> nat
    decreases moves.len(),
{
    if moves.len() == 0 {
        0
    } else {
        let goes_on = moves.len() > 1 && !starts_movement(moves) && moves[moves.len() - 2].bstate
            != 0;
        drag_count(moves.drop_last()) + if moves.last().bstate != 0 && !goes_on {
            1nat
        } else {
            0
        }
    }
}

/// How many bursts the wheel events make.
pub open spec fn burst_count(wheels: Seq<Event>) -> nat
    decreases wheels.len(),
{
    if wheels.len() == 0 {
        0
    } else {
        burst_count(wheels.drop_last()) + if wheels.len() == 1 || wheels.last().t_ns
            - wheels[wheels.len() - 2].t_ns > SCROLL_GAP_NS {
            1nat
        } else {
            0
        }
    }
}

/// The event is a press.
pub open spec fn is_press(e: Event) -> bool {
    e.flags & F_DOWN != 0
}

/// The buttons pressed, one by one.
pub open spec fn pressed(buttons: Seq<Event>) -> Seq<u8> {
    buttons.filter(|e: Event| is_press(e)).map_values(|e: Event| e.btn)
}

/// The last transition of a button.
pub open spec fn latest(buttons: Seq<Event>, btn: u8) -> Option<Event>
    decreases buttons.len(),
{
    if buttons.len() == 0 {
        None
    } else if buttons.last().btn == btn {
        Some(buttons.last())
    } else {
        latest(buttons.drop_last(), btn)
    }
}

/// How long each click held its button: from a press to the release that follows
/// it on the same button, where that was soon enough.
pub open spec fn click_holds(buttons: Seq<Event>) -> Seq<u64>
    decreases buttons.len(),
{
    if buttons.len() == 0 {
        seq![]
    } else {
        let before = buttons.drop_last();
        let e = buttons.last();
        match latest(before, e.btn) {
            Some(d) if !is_press(e) && is_press(d) && 0 < e.t_ns - d.t_ns < MAX_HOLD_NS =>
                click_holds(before).push((e.t_ns - d.t_ns) as u64),
            _ => click_holds(before),
        }
    }
}

/// The events of one kind, in order.
fn pick_kind(events: &Vec<Event>, kind: u8) -> (v: Vec<Event>)
    ensures
        v@ == of_kind(events@, kind),
        v@.len() <= events@.len(),
{
    let mut v: Vec<Event> = Vec::new();
    let mut i: usize = 0;
    assert(of_kind(events@.take(0), kind) =~= seq![]) by {
        assert(events@.take(0) =~= seq![]);
        reveal(Seq::filter);
    }
    while i < events.len()
        invariant
            i <= events@.len(),
            v@ == of_kind(events@.take(i as int), kind),
            v@.len() <= i,
        decreases events@.len() - i,
    {
        proof {
            let next = events@.take(i + 1);
            assert(next.drop_last() =~= events@.take(i as int));
            assert(next.last() == events@[i as int]);
            reveal(Seq::filter);
        }
        if events[i].kind == kind {
            v.push(events[i]);
        }
        i = i + 1;
    }
    assert(events@.take(i as int) =~= events@);
    v
}

/// The kinds of the events, one by one.
fn list_kinds(events: &Vec<Event>) -> (v: Vec<u8>)
    ensures
        v@ == kinds_of(events@),
{
    let mut v: Vec<u8> = Vec::new();
    let mut i: usize = 0;
    while i < events.len()
        invariant
            i <= events@.len(),
            v@ == kinds_of(events@).take(i as int),
        decreases events@.len() - i,
    {
        v.push(events[i].kind);
        i = i + 1;
        assert(v@ =~= kinds_of(events@).take(i as int));
    }
    assert(v@ =~= kinds_of(events@));
    v
}

/// The buttons pressed, one by one.
fn list_presses(buttons: &Vec<Event>) -> (v: Vec<u8>)
    ensures
        v@ == pressed(buttons@),
        v@.len() <= buttons@.len(),
{
    let mut v: Vec<u8> = Vec::new();
    let mut i: usize = 0;
    assert(pressed(buttons@.take(0)) =~= seq![]) by {
        assert(buttons@.take(0) =~= seq![]);
        reveal(Seq::filter);
    }
    while i < buttons.len()
        invariant
            i <= buttons@.len(),
            v@ == pressed(buttons@.take(i as int)),
            v@.len() <= i,
        decreases buttons@.len() - i,
    {
        let e: Event = buttons[i];
        proof {
            let now = buttons@.take(i as int);
            let next = buttons@.take(i + 1);
            assert(next.drop_last() =~= now);
            assert(next.last() == e);
            let f = |e: Event| is_press(e);
            reveal(Seq::filter);
            if is_press(e) {
                assert(next.filter(f) == now.filter(f).push(e));
                assert(pressed(next) =~= pressed(now).push(e.btn));
            } else {
                assert(next.filter(f) == now.filter(f));
            }
        }
        if e.flags & F_DOWN != 0 {
            v.push(e.btn);
        }
        i = i + 1;
    }
    assert(buttons@.take(i as int) =~= buttons@);
    v
}

/// Nanoseconds awake and asleep.
fn measure_time(events: &Vec<Event>) -> (t: (u128, u128))
    ensures
        t.0 == awake_ns(events@),
        t.1 == slept_ns(events@),
{
    let mut awake: u128 = 0;
    let mut slept: u128 = 0;
    let mut i: usize = 0;
    while i < events.len()
        invariant
            i <= events@.len(),
            awake == awake_ns(events@.take(i as int)),
            slept == slept_ns(events@.take(i as int)),
            awake <= i * 0x1_0000_0000_0000_0000,
            slept <= i * 0x1_0000_0000_0000_0000,
        decreases events@.len() - i,
    {
        proof {
            let next = events@.take(i + 1);
            assert(next.drop_last() =~= events@.take(i as int));
            assert(next.last() == events@[i as int]);
            if i > 0 {
                assert(next[next.len() - 2] == events@[i - 1]);
            }
            assert(i <= u64::MAX);
        }
        if i > 0 {
            let a: u64 = events[i - 1].t_ns;
            let b: u64 = events[i].t_ns;
            let d: u64 = if b > a {
                b - a
            } else {
                0
            };
            if d <= SLEEP_GAP_NS {
                awake = awake + d as u128;
            } else {
                slept = slept + d as u128;
            }
        }
        i = i + 1;
    }
    assert(events@.take(i as int) =~= events@);
    (awake, slept)
}

/// What the moves of a session make.
struct MoveStats {
    movements: u64,
    drags: u64,
    gaps: Vec<u64>,
    distances: Vec<u128>,
}

/// The square of the distance between two events' cursor positions.
fn squared(a: &Event, b: &Event) -> (d: u128)
    ensures
        d == distance_squared(*a, *b),
{
    let dx: i128 = b.x as i128 - a.x as i128;
    let dy: i128 = b.y as i128 - a.y as i128;
    proof {
        lemma_square(dx as int);
        lemma_square(dy as int);
        assert((dx as int) == b.x - a.x);
    }
    (dx * dx + dy * dy) as u128
}

proof fn lemma_square(d: int)
    by (nonlinear_arith)
    requires
        -0x1_0000_0000 <= d <= 0x1_0000_0000,
    ensures
        0 <= d * d <= 0x1_0000_0000_0000_0000,
{
}

/// Movements, drags, gaps and distances of the moves.
fn measure_moves(moves: &Vec<Event>) -> (m: MoveStats)
    ensures
        m.movements == movement_count(moves@),
        m.movements <= moves@.len(),
        m.drags == drag_count(moves@),
        m.drags <= moves@.len(),
        m.gaps@ == report_gaps(moves@),
        m.distances@ == movement_distances(moves@),
{
    let mut movements: u64 = 0;
    let mut drags: u64 = 0;
    let mut gaps: Vec<u64> = Vec::new();
    let mut distances: Vec<u128> = Vec::new();
    let mut start: Event = Event::default();
    let mut i: usize = 0;
    while i < moves.len()
        invariant
            i <= moves@.len(),
            movements == movement_count(moves@.take(i as int)),
            movements <= i,
            drags == drag_count(moves@.take(i as int)),
            drags <= i,
            gaps@ == report_gaps(moves@.take(i as int)),
            distances@ == closed_distances(moves@.take(i as int)),
            i > 0 ==> start == movement_start(moves@.take(i as int)),
        decreases moves@.len() - i,
    {
        let e: Event = moves[i];
        let ghost now = moves@.take(i as int);
        let ghost next = moves@.take(i + 1);
        proof {
            assert(next.drop_last() =~= now);
            assert(next.last() == e);
            if i > 0 {
                assert(next[next.len() - 2] == moves@[i - 1]);
                assert(now.last() == moves@[i - 1]);
            }
        }
        let mut begins = i == 0;
        let mut held_before = false;
        if i > 0 {
            let p: Event = moves[i - 1];
            held_before = p.bstate != 0;
            if e.t_ns > p.t_ns {
                let gap: u64 = e.t_ns - p.t_ns;
                if gap < MAX_REPORT_GAP_NS {
                    gaps.push(gap);
                }
                if gap > SEG_GAP_NS {
                    begins = true;
                    distances.push(squared(&start, &p));
                }
            }
        }
        assert(begins == starts_movement(next));
        if begins {
            movements = movements + 1;
            start = e;
        }
        if e.bstate != 0 && !(held_before && !begins) {
            drags = drags + 1;
        }
        i = i + 1;
    }
    assert(moves@.take(i as int) =~= moves@);
    if moves.len() > 0 {
        distances.push(squared(&start, &moves[moves.len() - 1]));
    }
    MoveStats { movements, drags, gaps, distances }
}

/// How many bursts the wheel events make.
fn count_bursts(wheels: &Vec<Event>) -> (n: u64)
    ensures
        n == burst_count(wheels@),
        n <= wheels@.len(),
{
    let mut n: u64 = 0;
    let mut i: usize = 0;
    while i < wheels.len()
        invariant
            i <= wheels@.len(),
            n == burst_count(wheels@.take(i as int)),
            n <= i,
        decreases wheels@.len() - i,
    {
        proof {
            let next = wheels@.take(i + 1);
            assert(next.drop_last() =~= wheels@.take(i as int));
            assert(next.last() == wheels@[i as int]);
            if i > 0 {
                assert(next[next.len() - 2] == wheels@[i - 1]);
            }
        }
        let t: u64 = wheels[i].t_ns;
        if i == 0 || (t > wheels[i - 1].t_ns && t - wheels[i - 1].t_ns > SCROLL_GAP_NS) {
            n = n + 1;
        }
        i = i + 1;
    }
    assert(wheels@.take(i as int) =~= wheels@);
    n
}

/// `down` holds the presses that no release has followed yet.
spec fn tracks(down: Map<u8, u64>, buttons: Seq<Event>) -> bool {
    forall|b: u8|
        match latest(buttons, b) {
            Some(e) if is_press(e) => #[trigger] down.contains_key(b) && down[b] == e.t_ns,
            _ => !down.contains_key(b),
        }
}

/// How long each click held its button.
fn measure_holds(buttons: &Vec<Event>) -> (holds: Vec<u64>)
    ensures
        holds@ == click_holds(buttons@),
        holds@.len() <= buttons@.len(),
{
    let mut holds: Vec<u64> = Vec::new();
    let mut down: HashMap<u8, u64> = HashMap::new();
    let mut i: usize = 0;
    while i < buttons.len()
        invariant
            i <= buttons@.len(),
            holds@ == click_holds(buttons@.take(i as int)),
            holds@.len() <= i,
            tracks(down@, buttons@.take(i as int)),
        decreases buttons@.len() - i,
    {
        let e: Event = buttons[i];
        let ghost now = buttons@.take(i as int);
        let ghost next = buttons@.take(i + 1);
        let ghost before = down@;
        proof {
            assert(next.drop_last() =~= now);
            assert(next.last() == e);
            assert(before.contains_key(e.btn) || !before.contains_key(e.btn));
        }
        if e.flags & F_DOWN != 0 {
            down.insert(e.btn, e.t_ns);
        } else {
            let since: Option<u64> = match down.get(&e.btn) {
                Some(t) => Some(*t),
                None => None,
            };
            if let Some(t) = since {
                down.remove(&e.btn);
                if e.t_ns > t && e.t_ns - t < MAX_HOLD_NS {
                    holds.push(e.t_ns - t);
                }
            }
        }
        assert forall|b: u8|
            match latest(next, b) {
                Some(d) if is_press(d) => #[trigger] down@.contains_key(b) && down@[b] == d.t_ns,
                _ => !down@.contains_key(b),
            } by {
            assert(before.contains_key(b) || !before.contains_key(b));
            if b != e.btn {
                assert(latest(next, b) == latest(now, b));
            }
        }
        i = i + 1;
    }
    assert(buttons@.take(i as int) =~= buttons@);
    holds
}

/// `after` is `before` with the events of one session taken in.
pub open spec fn events_taken_in(before: Stats, after: Stats, events: Seq<Event>) -> bool {
    let moves = of_kind(events, EV_MOVE);
    let buttons = of_kind(events, EV_BUTTON);
    let wheels = of_kind(events, EV_WHEEL);
    &&& after.seen == before.seen + events.len()
    &&& after.kinds@ == tallied(before.kinds@, kinds_of(events))
    &&& after.active_ns == before.active_ns + awake_ns(events)
    &&& after.asleep_ns == before.asleep_ns + slept_ns(events)
    &&& after.movements == before.movements + movement_count(moves)
    &&& after.drags == before.drags + drag_count(moves)
    &&& after.gaps@ == before.gaps@ + report_gaps(moves)
    &&& after.distances@ == before.distances@ + movement_distances(moves)
    &&& after.scroll_bursts == before.scroll_bursts + burst_count(wheels)
    &&& after.button_presses@ == tallied(
        before.button_presses@,
        pressed(buttons),
    )
    &&& after.holds@ == before.holds@ + click_holds(buttons)
    &&& after.clicks == before.clicks + click_holds(buttons).len()
    &&& after == (Stats {
        seen: after.seen,
        kinds: after.kinds,
        active_ns: after.active_ns,
        asleep_ns: after.asleep_ns,
        movements: after.movements,
        clicks: after.clicks,
        drags: after.drags,
        scroll_bursts: after.scroll_bursts,
        button_presses: after.button_presses,
        holds: after.holds,
        gaps: after.gaps,
        distances: after.distances,
        ..before
    })
}

/// `after` is `before` with the header of one session taken in.
pub open spec fn header_taken_in(before: Stats, after: Stats, h: SessionHeader, offset: i32) -> bool {
    &&& after.sessions == before.sessions + 1
    &&& after.interrupted == before.interrupted + if h.interrupted {
        1int
    } else {
        0
    }
    &&& after.clean == before.clean + if !h.interrupted && h.clean_shutdown {
        1int
    } else {
        0
    }
    &&& after.in_progress == before.in_progress + if !h.interrupted
        && !h.clean_shutdown {
        1int
    } else {
        0
    }
    &&& after.first_session == if before.first_session@.len() == 0 {
        h.start_wall_local
    } else {
        before.first_session
    }
    &&& after.last_session == h.start_wall_local
    &&& after.reports_received == before.reports_received + h.reports_received
    &&& after.events_written == before.events_written + h.events_written
    &&& after.dropped == before.dropped + h.events_dropped
    &&& after.writer_errors == before.writer_errors + h.writer_errors
    &&& after.peak_queue == if h.peak_queue_depth > before.peak_queue {
        h.peak_queue_depth
    } else {
        before.peak_queue
    }
    &&& forall|t: Seq<char>| #[trigger]
        crate::order::listed(after.machines@, t) <==> crate::order::listed(
            before.machines@,
            t,
        ) || (t == h.os.computer_name@ && t.len() > 0)
    &&& forall|t: Seq<char>| #[trigger]
        crate::order::listed(after.devices@, t) <==> crate::order::listed(
            before.devices@,
            t,
        ) || has_mouse(h, t)
    &&& match time_of_day(h, offset) {
        Some((part, hour, day)) => {
            &&& after.hours@ == before.hours@.insert(hour)
            &&& forall|t: Seq<char>| #[trigger]
                text_count(after.day_parts@, t) == text_count(before.day_parts@, t)
                    + if t == part {
                    1int
                } else {
                    0
                }
            &&& forall|t: Seq<char>| #[trigger]
                crate::order::listed(after.weekdays@, t) <==> crate::order::listed(
                    before.weekdays@,
                    t,
                ) || t == day
        },
        None => {
            &&& after.hours@ == before.hours@
            &&& after.day_parts@ == before.day_parts@
            &&& after.weekdays@ == before.weekdays@
        },
    }
    &&& after == (Stats {
        sessions: after.sessions,
        clean: after.clean,
        interrupted: after.interrupted,
        in_progress: after.in_progress,
        first_session: after.first_session,
        last_session: after.last_session,
        reports_received: after.reports_received,
        events_written: after.events_written,
        dropped: after.dropped,
        writer_errors: after.writer_errors,
        peak_queue: after.peak_queue,
        machines: after.machines,
        devices: after.devices,
        hours: after.hours,
        day_parts: after.day_parts,
        weekdays: after.weekdays,
        ..before
    })
}

impl Stats {
    /// No count of events is above the number of events seen, no count of sessions
    /// above that of sessions, and each name is listed once, in order.
    pub open spec fn wf(&self) -> bool {
        &&& counts_within(self.kinds@, self.seen as int)
        &&& counts_within(self.button_presses@, self.seen as int)
        &&& self.movements <= self.seen
        &&& self.clicks <= self.seen
        &&& self.drags <= self.seen
        &&& self.scroll_bursts <= self.seen
        &&& self.sessions == self.clean + self.interrupted + self.in_progress
        &&& forall|i: int|
            0 <= i < self.day_parts@.len() ==> (#[trigger] self.day_parts@[i]).1 <= self.sessions
        &&& crate::order::texts_ascending(self.weekdays@)
        &&& crate::order::texts_ascending(self.machines@)
        &&& crate::order::texts_ascending(self.devices@)
    }

    /// The events of a session can be taken in without overflow.
    pub open spec fn has_room_for(&self, events: Seq<Event>) -> bool {
        &&& self.seen + events.len() <= u64::MAX
        &&& self.active_ns + awake_ns(events) <= u64::MAX
        &&& self.asleep_ns + slept_ns(events) <= u64::MAX
    }

    /// Whether the events of a session can be taken in without overflow.
    pub fn fits(&self, events: &Vec<Event>) -> (r: bool)
        ensures
            r == self.has_room_for(events@),
    {
        let (awake, slept) = measure_time(events);
        u64::MAX - self.seen >= events.len() as u64 && (u64::MAX - self.active_ns) as u128 >= awake
            && (u64::MAX - self.asleep_ns) as u128 >= slept
    }

    /// Takes in the events of one session.
    pub fn add_events(&mut self, events: &Vec<Event>)
        requires
            old(self).wf(),
            old(self).has_room_for(events@),
        ensures
            final(self).wf(),
            events_taken_in(*old(self), *final(self), events@),
    {
        let seen: u64 = self.seen;
        let kinds = list_kinds(events);
        tally(&mut self.kinds, &kinds, seen);
        let (awake, slept) = measure_time(events);
        self.active_ns = self.active_ns + awake as u64;
        self.asleep_ns = self.asleep_ns + slept as u64;

        let moves = pick_kind(events, EV_MOVE);
        let m = measure_moves(&moves);
        self.movements = self.movements + m.movements;
        self.drags = self.drags + m.drags;
        append(&mut self.gaps, &m.gaps);
        append_wide(&mut self.distances, &m.distances);

        let wheels = pick_kind(events, EV_WHEEL);
        self.scroll_bursts = self.scroll_bursts + count_bursts(&wheels);

        let buttons = pick_kind(events, EV_BUTTON);
        let presses = list_presses(&buttons);
        tally(&mut self.button_presses, &presses, seen);
        let holds = measure_holds(&buttons);
        append(&mut self.holds, &holds);
        self.clicks = self.clicks + holds.len() as u64;

        self.seen = seen + events.len() as u64;
    }
}

fn append(v: &mut Vec<u64>, more: &Vec<u64>)
    ensures
        final(v)@ == old(v)@ + more@,
{
    let mut i: usize = 0;
    assert(v@ =~= old(v)@ + more@.take(0));
    while i < more.len()
        invariant
            i <= more@.len(),
            v@ == old(v)@ + more@.take(i as int),
        decreases more@.len() - i,
    {
        v.push(more[i]);
        i = i + 1;
        assert(v@ =~= old(v)@ + more@.take(i as int));
    }
    assert(more@.take(i as int) =~= more@);
}

fn append_wide(v: &mut Vec<u128>, more: &Vec<u128>)
    ensures
        final(v)@ == old(v)@ + more@,
{
    let mut i: usize = 0;
    assert(v@ =~= old(v)@ + more@.take(0));
    while i < more.len()
        invariant
            i <= more@.len(),
            v@ == old(v)@ + more@.take(i as int),
        decreases more@.len() - i,
    {
        v.push(more[i]);
        i = i + 1;
        assert(v@ =~= old(v)@ + more@.take(i as int));
    }
    assert(more@.take(i as int) =~= more@);
}

/// The events of the files that are segments, one after another. A file that is none
/// is passed over.
pub open spec fn readable_events_spec(files: Seq<Seq<u8>>) -> Seq<Event>
    decreases files.len(),
{
    if files.len() == 0 {
        seq![]
    } else if crate::storage::segment::is_segment(files.last()) {
        readable_events_spec(files.drop_last()) + crate::export::events_of(files.last())
    } else {
        readable_events_spec(files.drop_last())
    }
}

/// The events of the files that are segments, one after another.
pub fn readable_events(files: &Vec<Vec<u8>>) -> (events: Vec<Event>)
    ensures
        events@ == readable_events_spec(crate::export::contents(files@)),
{
    let mut events: Vec<Event> = Vec::new();
    let mut i: usize = 0;
    let ghost all = crate::export::contents(files@);
    assert(all.take(0) =~= seq![]);
    while i < files.len()
        invariant
            i <= files@.len(),
            all == crate::export::contents(files@),
            events@ == readable_events_spec(all.take(i as int)),
        decreases files@.len() - i,
    {
        proof {
            let next = all.take(i + 1);
            assert(next.drop_last() =~= all.take(i as int));
            assert(next.last() == files@[i as int]@);
        }
        if let Ok(seg) = read_segment(files[i].as_slice()) {
            append_events(&mut events, &seg);
        }
        i = i + 1;
    }
    assert(all.take(i as int) =~= all);
    events
}

// ---- the header of a session ------------------------------------------------------------

/// How often a text is counted in a list of counts: by its first entry.
pub open spec fn text_count(list: Seq<(String, u64)>, text: Seq<char>) -> int
    decreases list.len(),
{
    if list.len() == 0 {
        0
    } else if list[0].0@ == text {
        list[0].1 as int
    } else {
        text_count(list.skip(1), text)
    }
}

/// Counts a text once more.
fn count_text(list: &mut Vec<(String, u64)>, x: String, most: usize)
    requires
        forall|i: int| 0 <= i < old(list)@.len() ==> (#[trigger] old(list)@[i]).1 <= most,
        most < usize::MAX,
    ensures
        forall|i: int| 0 <= i < final(list)@.len() ==> (#[trigger] final(list)@[i]).1 <= most + 1,
        forall|t: Seq<char>| #[trigger]
            text_count(final(list)@, t) == text_count(old(list)@, t) + if t == x@ {
                1int
            } else {
                0
            },
{
    let ghost before = list@;
    let mut i: usize = 0;
    while i < list.len() && list[i].0 != x
        invariant
            i <= list@.len(),
            list@ == before,
            forall|k: int| 0 <= k < i ==> (#[trigger] before[k]).0@ != x@,
        decreases list@.len() - i,
    {
        i = i + 1;
    }
    if i < list.len() {
        let n: u64 = list[i].1;
        let name = list[i].0.clone();
        list.set(i, (name, n + 1));
        proof {
            lemma_count_set(before, i as int, x@, (n + 1) as u64, name);
            assert(list@ =~= before.update(i as int, (name, (n + 1) as u64)));
        }
    } else {
        let ghost name = x;
        list.push((x, 1));
        proof {
            lemma_count_push(before, name);
        }
    }
}

proof fn lemma_count_set(list: Seq<(String, u64)>, i: int, text: Seq<char>, n: u64, name: String)
    requires
        0 <= i < list.len(),
        name@ == text,
        list[i].0@ == text,
        forall|k: int| 0 <= k < i ==> (#[trigger] list[k]).0@ != text,
    ensures
        forall|t: Seq<char>| #[trigger]
            text_count(list.update(i, (name, n)), t) == if t == text {
                n as int
            } else {
                text_count(list, t)
            },
        text_count(list, text) == list[i].1,
    decreases list.len(),
{
    let changed = list.update(i, (name, n));
    if i > 0 {
        let rest = list.skip(1);
        assert forall|k: int| 0 <= k < i - 1 implies (#[trigger] rest[k]).0@ != text by {
            assert(rest[k] == list[k + 1]);
        }
        lemma_count_set(rest, i - 1, text, n, name);
        assert(changed.skip(1) =~= rest.update(i - 1, (name, n)));
        assert(list[0].0@ != text);
        assert forall|t: Seq<char>| #[trigger]
            text_count(changed, t) == if t == text {
                n as int
            } else {
                text_count(list, t)
            } by {
            assert(text_count(changed.skip(1), t) == text_count(rest.update(i - 1, (name, n)), t));
        }
    } else {
        assert(changed.skip(1) =~= list.skip(1));
    }
}

proof fn lemma_count_push(list: Seq<(String, u64)>, name: String)
    requires
        forall|k: int| 0 <= k < list.len() ==> (#[trigger] list[k]).0@ != name@,
    ensures
        forall|t: Seq<char>| #[trigger]
            text_count(list.push((name, 1)), t) == text_count(list, t) + if t == name@ {
                1int
            } else {
                0
            },
    decreases list.len(),
{
    let longer = list.push((name, 1u64));
    if list.len() > 0 {
        let rest = list.skip(1);
        assert forall|k: int| 0 <= k < rest.len() implies (#[trigger] rest[k]).0@ != name@ by {
            assert(rest[k] == list[k + 1]);
        }
        lemma_count_push(rest, name);
        assert(longer.skip(1) =~= rest.push((name, 1u64)));
        assert(list[0].0@ != name@);
        assert forall|t: Seq<char>| #[trigger]
            text_count(longer, t) == text_count(list, t) + if t == name@ {
                1int
            } else {
                0
            } by {
            assert(text_count(longer.skip(1), t) == text_count(rest.push((name, 1u64)), t));
        }
    } else {
        assert forall|t: Seq<char>| #[trigger]
            text_count(longer, t) == text_count(list, t) + if t == name@ {
                1int
            } else {
                0
            } by {
            assert(longer.skip(1) =~= seq![]);
            assert(text_count(longer.skip(1), t) == 0);
        }
    }
}

/// Part of the day, hour and day of the week at which a session started: as its
/// header says, or from its start where the header does not say so yet.
pub open spec fn time_of_day(h: SessionHeader, offset: i32) -> Option<(Seq<char>, u8, Seq<char>)> {
    if h.start_day_part@.len() > 0 {
        Some((h.start_day_part@, h.start_local_hour, h.start_weekday@))
    } else if h.start_unix_ms > 0 {
        let hour = (crate::clock::local_second(h.start_unix_ms, offset) % 86_400 / 3600) as u8;
        Some(
            (
                crate::clock::day_part_spec(hour),
                hour,
                crate::clock::WEEKDAY_NAMES@[crate::clock::weekday_of_day(
                    crate::clock::day_of(crate::clock::local_ms(h.start_unix_ms, offset)),
                )]@,
            ),
        )
    } else {
        None
    }
}

/// What a mouse is listed as: its USB ids, where it has both.
pub open spec fn mouse_label(vendor: Option<u16>, product: Option<u16>) -> Seq<char> {
    match (vendor, product) {
        (Some(v), Some(p)) => crate::text::hex4(v, true) + seq![':'] + crate::text::hex4(p, true),
        _ => "HID"@,
    }
}

/// The label is that of a real mouse of the session.
pub open spec fn has_mouse(h: SessionHeader, label: Seq<char>) -> bool {
    exists|i: int|
        0 <= i < h.devices@.len() && !(#[trigger] h.devices@[i]).synthetic && label == mouse_label(
            h.devices@[i].vendor_id,
            h.devices@[i].product_id,
        )
}

/// The label of a mouse.
fn label_mouse(vendor: Option<u16>, product: Option<u16>) -> (s: String)
    ensures
        s@ == mouse_label(vendor, product),
{
    match (vendor, product) {
        (Some(v), Some(p)) => {
            let mut s = String::new();
            push_hex4(&mut s, v, true);
            s.push(':');
            push_hex4(&mut s, p, true);
            assert(s@ =~= mouse_label(vendor, product));
            s
        },
        _ => "HID".to_owned(),
    }
}

impl Stats {
    /// Nothing collected.
    pub fn new() -> (s: Self)
        ensures
            s.wf(),
            s.is_empty_spec(),
    {
        Stats {
            sessions: 0,
            clean: 0,
            interrupted: 0,
            in_progress: 0,
            bytes: 0,
            reports_received: 0,
            events_written: 0,
            dropped: 0,
            writer_errors: 0,
            peak_queue: 0,
            seen: 0,
            kinds: HashMap::new(),
            active_ns: 0,
            asleep_ns: 0,
            movements: 0,
            clicks: 0,
            drags: 0,
            scroll_bursts: 0,
            button_presses: HashMap::new(),
            holds: Vec::new(),
            gaps: Vec::new(),
            distances: Vec::new(),
            day_parts: Vec::new(),
            hours: HashSet::new(),
            weekdays: Vec::new(),
            machines: Vec::new(),
            devices: Vec::new(),
            first_session: String::new(),
            last_session: String::new(),
        }
    }

    /// Nothing collected.
    pub open spec fn is_empty_spec(&self) -> bool {
        &&& self.sessions == 0
        &&& self.clean == 0
        &&& self.interrupted == 0
        &&& self.in_progress == 0
        &&& self.bytes == 0
        &&& self.reports_received == 0
        &&& self.events_written == 0
        &&& self.dropped == 0
        &&& self.writer_errors == 0
        &&& self.peak_queue == 0
        &&& self.seen == 0
        &&& self.kinds@ == Map::<u8, u64>::empty()
        &&& self.active_ns == 0
        &&& self.asleep_ns == 0
        &&& self.movements == 0
        &&& self.clicks == 0
        &&& self.drags == 0
        &&& self.scroll_bursts == 0
        &&& self.button_presses@ == Map::<u8, u64>::empty()
        &&& self.holds@.len() == 0
        &&& self.gaps@.len() == 0
        &&& self.distances@.len() == 0
        &&& self.day_parts@.len() == 0
        &&& self.hours@ == Set::<u8>::empty()
        &&& self.weekdays@.len() == 0
        &&& self.machines@.len() == 0
        &&& self.devices@.len() == 0
        &&& self.first_session@.len() == 0
        &&& self.last_session@.len() == 0
    }

    /// The header's totals can be added without overflow.
    pub open spec fn has_room_for_header(&self, h: SessionHeader) -> bool {
        &&& self.sessions < usize::MAX
        &&& self.reports_received + h.reports_received <= u64::MAX
        &&& self.events_written + h.events_written <= u64::MAX
        &&& self.dropped + h.events_dropped <= u64::MAX
        &&& self.writer_errors + h.writer_errors <= u64::MAX
    }

    /// Takes in the header of one session, given the machine's offset from UTC now.
    pub fn add_header(&mut self, h: &SessionHeader, offset: i32)
        requires
            old(self).wf(),
            old(self).has_room_for_header(*h),
        ensures
            final(self).wf(),
            header_taken_in(*old(self), *final(self), *h, offset),
    {
        let most: usize = self.sessions;
        self.sessions = most + 1;
        if h.interrupted {
            self.interrupted = self.interrupted + 1;
        } else if h.clean_shutdown {
            self.clean = self.clean + 1;
        } else {
            self.in_progress = self.in_progress + 1;
        }
        if is_blank(self.first_session.as_str()) {
            self.first_session = h.start_wall_local.clone();
        }
        self.last_session = h.start_wall_local.clone();
        self.reports_received = self.reports_received + h.reports_received;
        self.events_written = self.events_written + h.events_written;
        self.dropped = self.dropped + h.events_dropped;
        self.writer_errors = self.writer_errors + h.writer_errors;
        if h.peak_queue_depth > self.peak_queue {
            self.peak_queue = h.peak_queue_depth;
        }
        if !is_blank(h.os.computer_name.as_str()) {
            add_text(&mut self.machines, h.os.computer_name.clone());
        }
        add_mice(&mut self.devices, h);
        if !is_blank(h.start_day_part.as_str()) {
            count_text(&mut self.day_parts, h.start_day_part.clone(), most);
            self.hours.insert(h.start_local_hour);
            add_text(&mut self.weekdays, h.start_weekday.clone());
        } else if h.start_unix_ms > 0 {
            let hour: u8 = local_hour(h.start_unix_ms, offset);
            count_text(&mut self.day_parts, day_part(hour).to_owned(), most);
            self.hours.insert(hour);
            add_text(
                &mut self.weekdays,
                local_weekday_name(h.start_unix_ms, offset).to_owned(),
            );
        }
    }

    /// How long clicks hold the button, in the middle of them.
    pub fn hold_median_ns(&self) -> (m: u64)
        ensures
            m == crate::order::median_of(self.holds@),
            self.holds@.len() > 0 ==> crate::order::is_median(self.holds@, m),
    {
        median(&self.holds)
    }

    /// How far apart reports are, in the middle of them.
    pub fn gap_median_ns(&self) -> (m: u64)
        ensures
            m == crate::order::median_of(self.gaps@),
            self.gaps@.len() > 0 ==> crate::order::is_median(self.gaps@, m),
    {
        median(&self.gaps)
    }
}

impl Default for Stats {
    fn default() -> (s: Self)
        ensures
            s.wf(),
            s.is_empty_spec(),
    {
        Self::new()
    }
}

/// Lists the real mice of a session.
fn add_mice(list: &mut Vec<String>, h: &SessionHeader)
    requires
        crate::order::texts_ascending(old(list)@),
    ensures
        crate::order::texts_ascending(final(list)@),
        forall|t: Seq<char>| #[trigger]
            crate::order::listed(final(list)@, t) <==> crate::order::listed(old(list)@, t)
                || has_mouse(*h, t),
{
    let mut i: usize = 0;
    while i < h.devices.len()
        invariant
            i <= h.devices@.len(),
            crate::order::texts_ascending(list@),
            forall|t: Seq<char>| #[trigger]
                crate::order::listed(list@, t) <==> crate::order::listed(old(list)@, t) || exists|
                    k: int,
                |
                    0 <= k < i && !(#[trigger] h.devices@[k]).synthetic && t == mouse_label(
                        h.devices@[k].vendor_id,
                        h.devices@[k].product_id,
                    ),
        decreases h.devices@.len() - i,
    {
        let d = &h.devices[i];
        let ghost before = list@;
        if !d.synthetic {
            add_text(list, label_mouse(d.vendor_id, d.product_id));
        }
        assert forall|t: Seq<char>| #[trigger]
            crate::order::listed(list@, t) <==> crate::order::listed(old(list)@, t) || exists|
                k: int,
            |
                0 <= k < i + 1 && !(#[trigger] h.devices@[k]).synthetic && t == mouse_label(
                    h.devices@[k].vendor_id,
                    h.devices@[k].product_id,
                ) by {
            assert(crate::order::listed(before, t) || !crate::order::listed(before, t));
            assert(h.devices@[i as int] == *d);
        }
        i = i + 1;
    }
    assert forall|t: Seq<char>| #[trigger]
        crate::order::listed(list@, t) <==> crate::order::listed(old(list)@, t) || has_mouse(*h, t) by {
    }
}

// ---- one session after another ------------------------------------------------------------

/// What is read of one session.
pub struct SessionFiles {
    pub header: SessionHeader,
    /// Sizes of all files in its directory.
    pub sizes: Vec<u64>,
    /// What its segment files hold, in order.
    pub segments: Vec<Vec<u8>>,
}

/// The numbers added up.
pub open spec fn sum(numbers: Seq<u64>) -> nat
    decreases numbers.len(),
{
    if numbers.len() == 0 {
        0
    } else {
        sum(numbers.drop_last()) + numbers.last() as nat
    }
}

/// Adds a size to each of them: they and `start`, as far as 64 bits hold the sum.
fn add_up(start: u64, numbers: &Vec<u64>) -> (r: Option<u64>)
    ensures
        match r {
            Some(n) => n == start + sum(numbers@),
            None => start + sum(numbers@) > u64::MAX,
        },
{
    let mut n: u64 = start;
    let mut i: usize = 0;
    assert(numbers@.take(0) =~= seq![]);
    while i < numbers.len()
        invariant
            i <= numbers@.len(),
            n == start + sum(numbers@.take(i as int)),
        decreases numbers@.len() - i,
    {
        proof {
            let next = numbers@.take(i + 1);
            assert(next.drop_last() =~= numbers@.take(i as int));
            assert(next.last() == numbers@[i as int]);
        }
        if u64::MAX - n < numbers[i] {
            proof {
                lemma_sum_grows(numbers@, i + 1);
            }
            return None;
        }
        n = n + numbers[i];
        i = i + 1;
    }
    assert(numbers@.take(i as int) =~= numbers@);
    Some(n)
}

proof fn lemma_sum_grows(numbers: Seq<u64>, k: int)
    requires
        0 <= k <= numbers.len(),
    ensures
        sum(numbers.take(k)) <= sum(numbers),
    decreases numbers.len() - k,
{
    if k < numbers.len() {
        lemma_sum_grows(numbers, k + 1);
        assert(numbers.take(k + 1).drop_last() =~= numbers.take(k));
    } else {
        assert(numbers.take(k) =~= numbers);
    }
}

/// The session can be taken in without overflow.
pub open spec fn has_room(s: Stats, f: SessionFiles) -> bool {
    &&& s.has_room_for_header(f.header)
    &&& s.bytes + sum(f.sizes@) <= u64::MAX
    &&& s.has_room_for(readable_events_spec(crate::export::contents(f.segments@)))
}

/// Whether the header can be taken in without overflow.
fn header_fits(s: &Stats, h: &SessionHeader) -> (r: bool)
    ensures
        r == s.has_room_for_header(*h),
{
    s.sessions < usize::MAX && u64::MAX - s.reports_received >= h.reports_received && u64::MAX
        - s.events_written >= h.events_written && u64::MAX - s.dropped >= h.events_dropped
        && u64::MAX - s.writer_errors >= h.writer_errors
}

/// Takes one session in: its header, the sizes of its files and the events of those
/// of its segments that can be read. Where a total would overflow, nothing changes
/// and the result says so.
pub fn collect(s: &mut Stats, f: &SessionFiles, offset: i32) -> (ok: bool)
    requires
        old(s).wf(),
    ensures
        final(s).wf(),
        ok == has_room(*old(s), *f),
        !ok ==> *final(s) == *old(s),
        ok ==> exists|a: Stats, b: Stats|
            #![trigger header_taken_in(*old(s), a, f.header, offset), events_taken_in(
                b,
                *final(s),
                readable_events_spec(crate::export::contents(f.segments@)),
            )]
            {
                &&& header_taken_in(*old(s), a, f.header, offset)
                &&& b == (Stats { bytes: (a.bytes + sum(f.sizes@)) as u64, ..a })
                &&& events_taken_in(
                    b,
                    *final(s),
                    readable_events_spec(crate::export::contents(f.segments@)),
                )
            },
{
    let events = readable_events(&f.segments);
    if !header_fits(s, &f.header) || !s.fits(&events) {
        return false;
    }
    let bytes: u64 = match add_up(s.bytes, &f.sizes) {
        Some(n) => n,
        None => {
            return false;
        },
    };
    s.add_header(&f.header, offset);
    let ghost a = *s;
    s.bytes = bytes;
    let ghost b = *s;
    s.add_events(&events);
    assert(header_taken_in(*old(s), a, f.header, offset));
    assert(b == (Stats { bytes: (a.bytes + sum(f.sizes@)) as u64, ..a }));
    true
}

// ---- laws -----------------------------------------------------------------------------

/// All time between the first event and the last is counted once: as recording or
/// as sleep, as long as the clock does not run backwards.
pub proof fn law_time_is_awake_or_asleep(events: Seq<Event>)
    requires
        events.len() > 0,
        forall|i: int, j: int|
            0 <= i <= j < events.len() ==> (#[trigger] events[i]).t_ns <= (
            #[trigger] events[j]).t_ns,
    ensures
        awake_ns(events) + slept_ns(events) == events.last().t_ns - events[0].t_ns,
    decreases events.len(),
{
    if events.len() > 1 {
        let before = events.drop_last();
        assert forall|i: int, j: int| 0 <= i <= j < before.len() implies (
        #[trigger] before[i]).t_ns <= (#[trigger] before[j]).t_ns by {
            assert(before[i] == events[i] && before[j] == events[j]);
        }
        law_time_is_awake_or_asleep(before);
        assert(before.last() == events[events.len() - 2]);
        assert(events[events.len() - 2].t_ns <= events[events.len() - 1].t_ns);
    }
}

/// Each movement has one distance.
pub proof fn law_every_movement_has_a_distance(moves: Seq<Event>)
    ensures
        movement_distances(moves).len() == movement_count(moves),
    decreases moves.len(),
{
    if moves.len() == 1 {
        assert(moves.drop_last().len() == 0);
        assert(movement_count(moves.drop_last()) == 0);
    } else if moves.len() > 1 {
        law_every_movement_has_a_distance(moves.drop_last());
    }
}

/// There are no more clicks than presses.
pub proof fn law_no_click_without_a_press(buttons: Seq<Event>)
    ensures
        click_holds(buttons).len() + pending_presses(buttons).len() <= pressed(buttons).len(),
        pending_presses(buttons).finite(),
    decreases buttons.len(),
{
    reveal(Seq::filter);
    let f = |e: Event| is_press(e);
    if buttons.len() == 0 {
        assert(pending_presses(buttons) =~= Set::empty());
    } else {
        let before = buttons.drop_last();
        let e = buttons.last();
        law_no_click_without_a_press(before);
        let was = pending_presses(before);
        let now = pending_presses(buttons);
        if is_press(e) {
            assert(now =~= was.insert(e.btn));
            assert(buttons.filter(f) == before.filter(f).push(e));
            assert(pressed(buttons).len() == pressed(before).len() + 1);
        } else {
            assert(now =~= was.remove(e.btn));
            assert(buttons.filter(f) == before.filter(f));
            if was.contains(e.btn) {
                assert(now.len() == was.len() - 1);
            }
        }
    }
}

/// The buttons pressed and not released yet.
pub open spec fn pending_presses(buttons: Seq<Event>) -> Set<u8> {
    Set::new(|b: u8| latest(buttons, b) matches Some(e) && is_press(e))
}

/// How many of the moves were made with a button held.
pub open spec fn held_moves(moves: Seq<Event>) -> nat
    decreases moves.len(),
{
    if moves.len() == 0 {
        0
    } else {
        held_moves(moves.drop_last()) + if moves.last().bstate == 0 {
            0nat
        } else {
            1
        }
    }
}

/// There are no more drags than moves with a button held, and so none where no button was.
/// A move without a button held never makes a drag.
pub proof fn law_no_drag_without_a_button(moves: Seq<Event>, e: Event)
    ensures
        drag_count(moves) <= held_moves(moves),
        (forall|i: int| 0 <= i < moves.len() ==> (#[trigger] moves[i]).bstate == 0) ==> drag_count(
            moves,
        ) == 0,
        e.bstate == 0 ==> drag_count(moves.push(e)) == drag_count(moves),
    decreases moves.len(),
{
    assert(moves.push(e).drop_last() =~= moves);
    if moves.len() > 0 {
        law_no_drag_without_a_button(moves.drop_last(), e);
        if forall|i: int| 0 <= i < moves.len() ==> (#[trigger] moves[i]).bstate == 0 {
            assert(moves[moves.len() - 1].bstate == 0);
            assert forall|i: int| 0 <= i < moves.drop_last().len() implies (
            #[trigger] moves.drop_last()[i]).bstate == 0 by {
                assert(moves.drop_last()[i] == moves[i]);
            }
        }
    }
}

/// A move with a button held starts a drag, unless it goes on with one: the move before
/// it was made with a button held too, at most 120 ms earlier.
pub proof fn law_a_drag_starts_where_a_button_is_first_held(moves: Seq<Event>, e: Event)
    requires
        e.bstate != 0,
    ensures
        ({
            let before = drag_count(moves);
            let after = drag_count(moves.push(e));
            &&& moves.len() == 0 ==> after == before + 1
            &&& moves.len() > 0 && moves.last().bstate == 0 ==> after == before + 1
            &&& moves.len() > 0 && e.t_ns > moves.last().t_ns + 120_000_000 ==> after == before + 1
            &&& moves.len() > 0 && moves.last().bstate != 0 && e.t_ns <= moves.last().t_ns
                + 120_000_000 ==> after == before
        }),
{
    let all = moves.push(e);
    assert(all.drop_last() =~= moves);
    if moves.len() > 0 {
        assert(all[all.len() - 2] == moves.last());
    }
}

/// A movement ends where the next move comes more than 120 ms later, and only there.
pub proof fn law_a_pause_ends_a_movement(moves: Seq<Event>, e: Event)
    ensures
        moves.len() == 0 ==> movement_count(moves.push(e)) == 1,
        moves.len() > 0 && e.t_ns > moves.last().t_ns + 120_000_000 ==> movement_count(
            moves.push(e),
        ) == movement_count(moves) + 1,
        moves.len() > 0 && e.t_ns <= moves.last().t_ns + 120_000_000 ==> movement_count(
            moves.push(e),
        ) == movement_count(moves),
        moves.len() == 0 ==> movement_count(moves) == 0,
{
    let all = moves.push(e);
    assert(all.drop_last() =~= moves);
    if moves.len() > 0 {
        assert(all[all.len() - 2] == moves.last());
    }
}

/// No move of the stretch comes more than 120 ms behind the one before.
pub open spec fn is_one_movement(moves: Seq<Event>) -> bool {
    forall|i: int|
        0 < i < moves.len() ==> (#[trigger] moves[i]).t_ns <= moves[i - 1].t_ns + 120_000_000
}

proof fn lemma_one_movement(moves: Seq<Event>)
    requires
        moves.len() > 0,
        is_one_movement(moves),
    ensures
        movement_start(moves) == moves[0],
        closed_distances(moves).len() == 0,
        movement_count(moves) == 1,
    decreases moves.len(),
{
    if moves.len() > 1 {
        let before = moves.drop_last();
        assert forall|i: int| 0 < i < before.len() implies (#[trigger] before[i]).t_ns <= before[i
            - 1].t_ns + 120_000_000 by {
            assert(moves[i].t_ns <= moves[i - 1].t_ns + 120_000_000);
        }
        lemma_one_movement(before);
        assert(moves[moves.len() - 1].t_ns <= moves[moves.len() - 2].t_ns + 120_000_000);
    } else {
        assert(movement_count(moves.drop_last()) == 0);
    }
}

/// A movement is as long as the straight line from where it began to where it ended,
/// whatever lies in between.
pub proof fn law_a_movement_is_measured_end_to_end(moves: Seq<Event>)
    requires
        moves.len() > 0,
        is_one_movement(moves),
    ensures
        ({
            let dx = moves.last().x - moves[0].x;
            let dy = moves.last().y - moves[0].y;
            &&& movement_distances(moves).len() == 1
            &&& movement_distances(moves)[0] == dx * dx + dy * dy
        }),
{
    lemma_one_movement(moves);
    let dx = moves.last().x - moves[0].x;
    let dy = moves.last().y - moves[0].y;
    lemma_square(dx);
    lemma_square(dy);
}

/// Movements with a pause between them are measured each for itself.
pub proof fn law_movements_are_measured_one_by_one(a: Seq<Event>, b: Seq<Event>)
    requires
        a.len() > 0,
        b.len() > 0,
        b[0].t_ns > a.last().t_ns + 120_000_000,
    ensures
        movement_distances(a + b) == movement_distances(a) + movement_distances(b),
        movement_count(a + b) == movement_count(a) + movement_count(b),
        drag_count(a + b) == drag_count(a) + drag_count(b),
    decreases b.len(),
{
    lemma_movements_add(a, b);
    assert(movement_distances(a + b) =~= movement_distances(a) + movement_distances(b));
}

proof fn lemma_movements_add(a: Seq<Event>, b: Seq<Event>)
    requires
        a.len() > 0,
        b.len() > 0,
        b[0].t_ns > a.last().t_ns + 120_000_000,
    ensures
        closed_distances(a + b) == movement_distances(a) + closed_distances(b),
        movement_start(a + b) == movement_start(b),
        movement_count(a + b) == movement_count(a) + movement_count(b),
        drag_count(a + b) == drag_count(a) + drag_count(b),
        (a + b).last() == b.last(),
    decreases b.len(),
{
    let all = a + b;
    let shorter = b.drop_last();
    assert(all.drop_last() =~= a + shorter);
    if b.len() == 1 {
        assert(a + shorter =~= a);
        assert(all[all.len() - 2] == a.last());
        assert(shorter.len() == 0);
        assert(movement_count(shorter) == 0 && drag_count(shorter) == 0);
        assert(closed_distances(all) =~= movement_distances(a) + closed_distances(b));
    } else {
        assert(shorter[0] == b[0]);
        lemma_movements_add(a, shorter);
        assert(all[all.len() - 2] == b[b.len() - 2]);
        assert(closed_distances(all) =~= movement_distances(a) + closed_distances(b));
    }
}

/// The polling rate is told by the steps forward between moves of less than 100 ms: each
/// of them counts with its own length, and no other.
pub proof fn law_short_steps_tell_the_polling_rate(moves: Seq<Event>, e: Event)
    ensures
        moves.len() == 0 ==> report_gaps(moves.push(e)).len() == 0,
        moves.len() > 0 && moves.last().t_ns < e.t_ns && e.t_ns < moves.last().t_ns + 100_000_000
            ==> report_gaps(moves.push(e)).len() == report_gaps(moves).len() + 1 && report_gaps(
            moves.push(e),
        ).drop_last() == report_gaps(moves) && moves.last().t_ns + report_gaps(moves.push(e)).last()
            == e.t_ns,
        moves.len() > 0 && (e.t_ns <= moves.last().t_ns || e.t_ns >= moves.last().t_ns
            + 100_000_000) ==> report_gaps(moves.push(e)) == report_gaps(moves),
{
    let all = moves.push(e);
    assert(all.drop_last() =~= moves);
    if moves.len() > 0 {
        assert(all[all.len() - 2] == moves.last());
        assert(report_gaps(all).drop_last() =~= report_gaps(moves) || report_gaps(all)
            == report_gaps(moves));
    }
}

/// A scroll burst ends where the next detent comes more than 400 ms later, and only there.
pub proof fn law_a_pause_ends_a_burst(wheels: Seq<Event>, e: Event)
    ensures
        wheels.len() == 0 ==> burst_count(wheels) == 0 && burst_count(wheels.push(e)) == 1,
        wheels.len() > 0 && e.t_ns > wheels.last().t_ns + 400_000_000 ==> burst_count(
            wheels.push(e),
        ) == burst_count(wheels) + 1,
        wheels.len() > 0 && e.t_ns <= wheels.last().t_ns + 400_000_000 ==> burst_count(
            wheels.push(e),
        ) == burst_count(wheels),
{
    let all = wheels.push(e);
    assert(all.drop_last() =~= wheels);
    if wheels.len() > 0 {
        assert(all[all.len() - 2] == wheels.last());
    }
}

/// None of the events is of that button.
pub open spec fn leaves_alone(events: Seq<Event>, btn: u8) -> bool {
    forall|i: int| 0 <= i < events.len() ==> (#[trigger] events[i]).btn != btn
}

proof fn lemma_latest_behind(a: Seq<Event>, d: Event, between: Seq<Event>)
    requires
        leaves_alone(between, d.btn),
    ensures
        latest(a.push(d) + between, d.btn) == Some(d),
    decreases between.len(),
{
    let all = a.push(d) + between;
    if between.len() == 0 {
        assert(all =~= a.push(d));
    } else {
        let shorter = between.drop_last();
        assert(leaves_alone(shorter, d.btn)) by {
            assert forall|i: int| 0 <= i < shorter.len() implies (#[trigger] shorter[i]).btn
                != d.btn by {
                assert(shorter[i] == between[i]);
            }
        }
        lemma_latest_behind(a, d, shorter);
        assert(all.drop_last() =~= a.push(d) + shorter);
        assert(between[between.len() - 1].btn != d.btn);
    }
}

proof fn lemma_never_touched(events: Seq<Event>, btn: u8)
    requires
        leaves_alone(events, btn),
    ensures
        latest(events, btn) is None,
    decreases events.len(),
{
    if events.len() > 0 {
        let shorter = events.drop_last();
        assert(events[events.len() - 1].btn != btn);
        assert(leaves_alone(shorter, btn)) by {
            assert forall|i: int| 0 <= i < shorter.len() implies (#[trigger] shorter[i]).btn
                != btn by {
                assert(shorter[i] == events[i]);
            }
        }
        lemma_never_touched(shorter, btn);
    }
}

/// A button pressed and released within five seconds is a click, which held the button for
/// as long as lies between, whatever other buttons did meanwhile. One held for five seconds
/// or longer, or released no later than it was pressed, is not.
pub proof fn law_a_press_and_its_release_make_a_click(
    a: Seq<Event>,
    press: Event,
    between: Seq<Event>,
    release: Event,
)
    requires
        press.flags % 2 == 1,
        release.flags % 2 == 0,
        release.btn == press.btn,
        leaves_alone(between, press.btn),
    ensures
        ({
            let before = a.push(press) + between;
            let holds = click_holds(before.push(release));
            let soon = press.t_ns < release.t_ns && release.t_ns < press.t_ns + 5_000_000_000;
            &&& soon ==> holds.len() == click_holds(before).len() + 1 && holds.drop_last()
                == click_holds(before) && press.t_ns + holds.last() == release.t_ns
            &&& !soon ==> holds == click_holds(before)
        }),
{
    let before = a.push(press) + between;
    let all = before.push(release);
    assert(all.drop_last() =~= before);
    lemma_latest_behind(a, press, between);
    lemma_press_bit(press);
    lemma_press_bit(release);
    assert(click_holds(all).drop_last() =~= click_holds(before) || click_holds(all) == click_holds(
        before,
    ));
}

/// The lowest flag of a transition tells a press from a release.
proof fn lemma_press_bit(e: Event)
    ensures
        is_press(e) == (e.flags % 2 == 1),
{
    let f = e.flags;
    assert((f & 1 != 0) == (f % 2 == 1)) by (bit_vector);
}

/// A press is no click yet, and a release is none where its button was not pressed, or was
/// released already.
pub proof fn law_a_release_alone_is_no_click(
    a: Seq<Event>,
    earlier: Event,
    between: Seq<Event>,
    e: Event,
)
    ensures
        e.flags % 2 == 1 ==> click_holds(a.push(e)) == click_holds(a),
        e.flags % 2 == 0 && leaves_alone(a, e.btn) ==> click_holds(a.push(e)) == click_holds(a),
        e.flags % 2 == 0 && earlier.flags % 2 == 0 && earlier.btn == e.btn && leaves_alone(
            between,
            e.btn,
        ) ==> click_holds((a.push(earlier) + between).push(e)) == click_holds(
            a.push(earlier) + between,
        ),
{
    lemma_press_bit(e);
    lemma_press_bit(earlier);
    assert(a.push(e).drop_last() =~= a);
    if leaves_alone(a, e.btn) {
        lemma_never_touched(a, e.btn);
    }
    let before = a.push(earlier) + between;
    assert(before.push(e).drop_last() =~= before);
    if earlier.btn == e.btn && leaves_alone(between, e.btn) {
        lemma_latest_behind(a, earlier, between);
    }
}

/// A step of up to ten minutes counts as recording, all of it; a longer one as sleep, all
/// of it. A clock that runs backwards adds nothing.
pub proof fn law_a_step_is_recording_or_sleep(events: Seq<Event>, e: Event)
    ensures
        events.len() == 0 ==> awake_ns(events.push(e)) == 0 && slept_ns(events.push(e)) == 0,
        events.len() > 0 ==> {
            let last = events.last().t_ns;
            let awake = awake_ns(events.push(e)) - awake_ns(events);
            let slept = slept_ns(events.push(e)) - slept_ns(events);
            &&& e.t_ns <= last ==> awake == 0 && slept == 0
            &&& last <= e.t_ns <= last + 600_000_000_000 ==> last + awake == e.t_ns && slept == 0
            &&& e.t_ns > last + 600_000_000_000 ==> awake == 0 && last + slept == e.t_ns
        },
{
    let all = events.push(e);
    assert(all.drop_last() =~= events);
    if events.len() > 0 {
        assert(all[all.len() - 2] == events.last());
    }
}

/// How often the key occurs.
pub open spec fn occurrences(keys: Seq<u8>, key: u8) -> nat
    decreases keys.len(),
{
    if keys.len() == 0 {
        0
    } else {
        occurrences(keys.drop_last(), key) + if keys.last() == key {
            1nat
        } else {
            0
        }
    }
}

/// Each key is counted as often as it occurs, and no other is.
pub proof fn law_each_key_is_counted_as_it_occurs(m: Map<u8, u64>, keys: Seq<u8>, key: u8)
    requires
        counts_within(m, u64::MAX - keys.len()),
        keys.len() <= u64::MAX,
    ensures
        count_of(tallied(m, keys), key) == count_of(m, key) + occurrences(keys, key),
        occurrences(keys, key) <= keys.len(),
    decreases keys.len(),
{
    if keys.len() > 0 {
        let before = keys.drop_last();
        assert(m.contains_key(key) || !m.contains_key(key));
        assert(m.contains_key(keys.last()) || !m.contains_key(keys.last()));
        law_each_key_is_counted_as_it_occurs(m, before, key);
        law_each_key_is_counted_as_it_occurs(m, before, keys.last());
        assert(count_of(tallied(m, before), keys.last()) + 1 <= u64::MAX);
        assert(tallied(m, keys).contains_key(keys.last()));
    }
}

/// The moves, transitions and detents of a session are those of its events that are of
/// that kind, in order: one more event adds itself to its own kind and to no other.
pub proof fn law_events_are_told_apart_by_kind(events: Seq<Event>, e: Event, kind: u8)
    ensures
        e.kind == kind ==> of_kind(events.push(e), kind) == of_kind(events, kind).push(e),
        e.kind != kind ==> of_kind(events.push(e), kind) == of_kind(events, kind),
        kinds_of(events.push(e)) == kinds_of(events).push(e.kind),
        EV_MOVE == 1 && EV_BUTTON == 2 && EV_WHEEL == 3,
{
    reveal(Seq::filter);
    assert(events.push(e).drop_last() =~= events);
    assert(kinds_of(events.push(e)) =~= kinds_of(events).push(e.kind));
}

/// A press is listed under its own button, and a release is not.
pub proof fn law_presses_are_listed_by_button(buttons: Seq<Event>, e: Event)
    ensures
        e.flags % 2 == 1 ==> pressed(buttons.push(e)) == pressed(buttons).push(e.btn),
        e.flags % 2 == 0 ==> pressed(buttons.push(e)) == pressed(buttons),
{
    reveal(Seq::filter);
    lemma_press_bit(e);
    let f = |e: Event| is_press(e);
    assert(buttons.push(e).drop_last() =~= buttons);
    if is_press(e) {
        assert(buttons.push(e).filter(f) == buttons.filter(f).push(e));
        assert(pressed(buttons.push(e)) =~= pressed(buttons).push(e.btn));
    }
}

/// Sessions, events and totals only add up: what one session adds does not depend on what
/// was there before.
pub proof fn law_sessions_add_up(before: Stats, after: Stats, events: Seq<Event>)
    requires
        events_taken_in(before, after, events),
    ensures
        after.seen - before.seen == events.len(),
        after.active_ns - before.active_ns == awake_ns(events),
        after.asleep_ns - before.asleep_ns == slept_ns(events),
        after.movements - before.movements == movement_count(of_kind(events, 1)),
        after.drags - before.drags == drag_count(of_kind(events, 1)),
        after.scroll_bursts - before.scroll_bursts == burst_count(of_kind(events, 3)),
        after.clicks - before.clicks == click_holds(of_kind(events, 2)).len(),
        after.holds@ == before.holds@ + click_holds(of_kind(events, 2)),
        after.distances@ == before.distances@ + movement_distances(of_kind(events, 1)),
        after.gaps@ == before.gaps@ + report_gaps(of_kind(events, 1)),
        after.sessions == before.sessions,
        after.bytes == before.bytes,
{
}

/// A session is counted once: as interrupted, else as clean, else as still running. Its
/// own totals are added, and the deepest queue is the deepest of all.
pub proof fn law_a_header_is_counted_once(
    before: Stats,
    after: Stats,
    h: SessionHeader,
    offset: i32,
)
    requires
        header_taken_in(before, after, h, offset),
    ensures
        after.sessions == before.sessions + 1,
        h.interrupted ==> after.interrupted == before.interrupted + 1 && after.clean == before.clean
            && after.in_progress == before.in_progress,
        !h.interrupted && h.clean_shutdown ==> after.interrupted == before.interrupted
            && after.clean == before.clean + 1 && after.in_progress == before.in_progress,
        !h.interrupted && !h.clean_shutdown ==> after.interrupted == before.interrupted
            && after.clean == before.clean && after.in_progress == before.in_progress + 1,
        after.reports_received - before.reports_received == h.reports_received,
        after.events_written - before.events_written == h.events_written,
        after.dropped - before.dropped == h.events_dropped,
        after.writer_errors - before.writer_errors == h.writer_errors,
        after.peak_queue >= before.peak_queue,
        after.peak_queue >= h.peak_queue_depth,
        after.peak_queue == before.peak_queue || after.peak_queue == h.peak_queue_depth,
        after.last_session == h.start_wall_local,
        before.first_session@.len() > 0 ==> after.first_session == before.first_session,
        before.first_session@.len() == 0 ==> after.first_session == h.start_wall_local,
        h.os.computer_name@.len() > 0 ==> crate::order::listed(after.machines@, h.os.computer_name@),
        h.start_day_part@.len() > 0 ==> after.hours@.contains(h.start_local_hour)
            && crate::order::listed(after.weekdays@, h.start_weekday@) && text_count(
            after.day_parts@,
            h.start_day_part@,
        ) == text_count(before.day_parts@, h.start_day_part@) + 1,
        after.movements == before.movements && after.clicks == before.clicks && after.drags
            == before.drags && after.active_ns == before.active_ns && after.bytes == before.bytes,
{
}

/// The mice of a session are listed by their USB ids, the synthetic device never is.
pub proof fn law_real_mice_are_listed(h: SessionHeader, i: int)
    requires
        0 <= i < h.devices@.len(),
        !h.devices@[i].synthetic,
    ensures
        h.devices@[i].vendor_id matches Some(v) ==> (h.devices@[i].product_id matches Some(p)
            ==> has_mouse(h, crate::text::hex4(v, true) + seq![':'] + crate::text::hex4(p, true))),
        h.devices@[i].vendor_id is None || h.devices@[i].product_id is None ==> has_mouse(
            h,
            "HID"@,
        ),
{
    let d = h.devices@[i];
    assert(has_mouse(h, mouse_label(d.vendor_id, d.product_id)));
}

/// Two lists of sizes add up to the sum of both.
pub proof fn law_sizes_add_up(a: Seq<u64>, b: Seq<u64>)
    ensures
        sum(a + b) == sum(a) + sum(b),
        b.len() == 1 ==> sum(b) == b[0],
    decreases b.len(),
{
    if b.len() == 0 {
        assert(a + b =~= a);
    } else {
        assert((a + b).drop_last() =~= a + b.drop_last());
        law_sizes_add_up(a, b.drop_last());
        if b.len() == 1 {
            assert(sum(b.drop_last()) == 0);
        }
    }
}

/// A file that is no segment is passed over; every other one gives its events, behind
/// those of the files before it.
pub proof fn law_only_segments_are_read(files: Seq<Seq<u8>>, file: Seq<u8>)
    ensures
        crate::storage::segment::is_segment(file) ==> readable_events_spec(files.push(file))
            == readable_events_spec(files) + crate::export::events_of(file),
        !crate::storage::segment::is_segment(file) ==> readable_events_spec(files.push(file))
            == readable_events_spec(files),
        crate::export::all_segments(files) ==> readable_events_spec(files)
            == crate::export::all_events(files),
    decreases files.len(),
{
    assert(files.push(file).drop_last() =~= files);
    if files.len() > 0 && crate::export::all_segments(files) {
        assert(crate::storage::segment::is_segment(files[files.len() - 1]));
        assert(crate::export::all_segments(files.drop_last())) by {
            assert forall|i: int| 0 <= i < files.drop_last().len() implies
                crate::storage::segment::is_segment(#[trigger] files.drop_last()[i]) by {
                assert(files.drop_last()[i] == files[i]);
            }
        }
        law_only_segments_are_read(files.drop_last(), file);
    }
}

/// When a session started in the day is as its header says; only where the header does not
/// say so is it worked out from its start, in the local time of now; and where there is no
/// start it is not known.
pub proof fn law_the_header_comes_first_in_telling_the_time(h: SessionHeader, offset: i32)
    ensures
        h.start_day_part@.len() > 0 ==> time_of_day(h, offset) == Some(
            (h.start_day_part@, h.start_local_hour, h.start_weekday@),
        ),
        h.start_day_part@.len() == 0 && h.start_unix_ms > 0 ==> (time_of_day(h, offset) matches Some(
            (part, hour, day),
        ) && hour == (h.start_unix_ms + 60_000 * offset) / 3_600_000 % 24 && part
            == crate::clock::day_part_spec(hour)),
        h.start_day_part@.len() == 0 && h.start_unix_ms == 0 ==> time_of_day(h, offset) is None,
{
    crate::clock::law_local_time_is_off_by_the_offset(h.start_unix_ms, offset);
    crate::clock::lemma_hour_of_ms(crate::clock::local_ms(h.start_unix_ms, offset));
}

/// The thresholds by which behaviour is told apart, in nanoseconds.
pub proof fn law_thresholds_of_behaviour()
    ensures
        SEG_GAP_NS == 120 * 1_000_000,
        SCROLL_GAP_NS == 400 * 1_000_000,
        MAX_REPORT_GAP_NS == 100 * 1_000_000,
        MAX_HOLD_NS == 5 * 1_000_000_000,
        SLEEP_GAP_NS == 600 * 1_000_000_000,
{
}

/// A mouse is called by its vendor and then by its product, four digits each, where both
/// are known, and by nothing more than its kind where one is not.
pub proof fn law_a_mouse_is_called_by_vendor_and_product(vendor: u16, product: u16)
    ensures
        ({
            let label = mouse_label(Some(vendor), Some(product));
            &&& label.len() == 9
            &&& label.take(4) == crate::text::hex4(vendor, true)
            &&& label[4] == ':'
            &&& label.skip(5) == crate::text::hex4(product, true)
            &&& mouse_label(Some(vendor), None) == "HID"@
            &&& mouse_label(None, Some(product)) == "HID"@
            &&& mouse_label(None, None) == "HID"@
        }),
{
    let label = mouse_label(Some(vendor), Some(product));
    assert(label.take(4) =~= crate::text::hex4(vendor, true));
    assert(label.skip(5) =~= crate::text::hex4(product, true));
}

} // verus!
