//! Dataset export and audit of one session.
//!
//! The stored format is compressed and binary because it has to be. Analysis
//! happens on tables, so a session can be flattened into one. The table carries the
//! motor signal before pointer ballistics, not only cursor pixels.

use vstd::prelude::*;

use crate::event::{
    button_name, Event, EV_BUTTON, EV_MOVE, EV_SYNC, EV_WHEEL, F_DOWN, M_ALT, M_CTRL, M_SHIFT,
    M_WIN,
};
use crate::order::sort_texts;
use crate::storage::segment::{read_segment, SegmentError, SegmentReader};
use crate::storage::session::SessionHeader;
use crate::text::{decimal_text, ends_with, join, signed_text};

verus! {

broadcast use vstd::seq_lib::group_to_multiset_ensures;

/// What an export wrote.
#[derive(Clone, Copy, Debug, PartialEq, Eq, Structural)]
pub struct ExportStats {
    pub events: u64,
    pub segments: u32,
    pub truncated_segments: u32,
}

// ---- which segments ---------------------------------------------------------------------

/// The names that are of segment files.
pub open spec fn segment_files(names: Seq<String>) -> Seq<String> {
    names.filter(|n: String| crate::text::ends_with_spec(n@, ".mpseg"@))
}

/// `r` names a session's segments in chronological order: those that its header
/// lists or, where it lists none, those found beside it.
pub open spec fn is_segment_order(r: Seq<String>, listed: Seq<String>, found: Seq<String>) -> bool {
    if listed.len() > 0 {
        r == listed
    } else {
        &&& crate::order::texts_sorted(r)
        &&& r.to_multiset() == segment_files(found).to_multiset()
    }
}

/// The session's segments, in the order in which they were created. Scanning is for
/// a header that never got its final save.
pub fn segment_names(listed: &Vec<String>, found: Vec<String>) -> (r: Vec<String>)
    ensures
        is_segment_order(r@, listed@, found@),
{
    if listed.len() > 0 {
        let mut r: Vec<String> = Vec::new();
        let mut i: usize = 0;
        while i < listed.len()
            invariant
                i <= listed@.len(),
                r@ == listed@.take(i as int),
            decreases listed@.len() - i,
        {
            r.push(listed[i].clone());
            i = i + 1;
            assert(r@ =~= listed@.take(i as int));
        }
        assert(listed@.take(i as int) =~= listed@);
        return r;
    }
    let mut files: Vec<String> = Vec::new();
    let mut i: usize = 0;
    assert(segment_files(found@.take(0)) =~= seq![]) by {
        assert(found@.take(0) =~= seq![]);
        reveal(Seq::filter);
    }
    while i < found.len()
        invariant
            i <= found@.len(),
            files@ == segment_files(found@.take(i as int)),
        decreases found@.len() - i,
    {
        proof {
            let next = found@.take(i + 1);
            assert(next.drop_last() =~= found@.take(i as int));
            assert(next.last() == found@[i as int]);
            reveal(Seq::filter);
        }
        if ends_with(found[i].as_str(), ".mpseg") {
            files.push(found[i].clone());
        }
        i = i + 1;
    }
    assert(found@.take(i as int) =~= found@);
    sort_texts(files)
}

// ---- their events -----------------------------------------------------------------------

/// The views of the files.
pub open spec fn contents(files: Seq<Vec<u8>>) -> Seq<Seq<u8>> {
    files.map_values(|f: Vec<u8>| f@)
}

/// All of them are segments.
pub open spec fn all_segments(files: Seq<Seq<u8>>) -> bool {
    forall|i: int| 0 <= i < files.len() ==> crate::storage::segment::is_segment(#[trigger] files[i])
}

/// The events of a segment file.
pub open spec fn events_of(file: Seq<u8>) -> Seq<Event> {
    crate::storage::segment::read_frames(file, crate::storage::segment::HEADER_LEN as int).events
}

/// The file ends in the middle of a frame.
pub open spec fn is_torn(file: Seq<u8>) -> bool {
    crate::storage::segment::read_frames(file, crate::storage::segment::HEADER_LEN as int).end
        < file.len()
}

/// The events of the files, one after another.
pub open spec fn all_events(files: Seq<Seq<u8>>) -> Seq<Event>
    decreases files.len(),
{
    if files.len() == 0 {
        seq![]
    } else {
        all_events(files.drop_last()) + events_of(files.last())
    }
}

/// How many of the files are torn.
pub open spec fn torn_count(files: Seq<Seq<u8>>) -> nat
    decreases files.len(),
{
    if files.len() == 0 {
        0
    } else {
        torn_count(files.drop_last()) + if is_torn(files.last()) {
            1nat
        } else {
            0
        }
    }
}

/// `e` is what the first file that is no segment is refused for.
pub open spec fn first_refusal(files: Seq<Seq<u8>>, e: SegmentError) -> bool {
    exists|i: int|
        0 <= i < files.len() && all_segments(files.take(i)) && #[trigger] refused_for(files[i], e)
}

/// The file is refused for that.
pub open spec fn refused_for(file: Seq<u8>, e: SegmentError) -> bool {
    match e {
        SegmentError::NotASegment => !crate::storage::segment::has_magic(file),
        SegmentError::EventSize(n) => {
            &&& crate::storage::segment::has_magic(file)
            &&& n == crate::le::value32(file, 12)
            &&& n != crate::event::EVENT_SIZE
        },
        SegmentError::Compression => false,
    }
}

/// A session's events, read from its segment files.
pub struct SessionEvents {
    pub events: Vec<Event>,
    pub segments: u32,
    pub truncated_segments: u32,
}

proof fn lemma_torn_count(files: Seq<Seq<u8>>)
    ensures
        torn_count(files) <= files.len(),
    decreases files.len(),
{
    if files.len() > 0 {
        lemma_torn_count(files.drop_last());
    }
}

/// Reads all segment files of a session. One that is no segment fails the whole.
pub fn read_all(files: &Vec<Vec<u8>>) -> (r: Result<SessionEvents, SegmentError>)
    requires
        files@.len() <= u32::MAX,
    ensures
        match r {
            Ok(s) => {
                &&& all_segments(contents(files@))
                &&& s.events@ == all_events(contents(files@))
                &&& s.segments == files@.len()
                &&& s.truncated_segments == torn_count(contents(files@))
            },
            Err(e) => !all_segments(contents(files@)) && first_refusal(contents(files@), e),
        },
{
    let mut events: Vec<Event> = Vec::new();
    let mut truncated: u32 = 0;
    let mut i: usize = 0;
    let ghost all = contents(files@);
    assert(all.take(0) =~= seq![]);
    while i < files.len()
        invariant
            i <= files@.len() <= u32::MAX,
            all == contents(files@),
            all_segments(all.take(i as int)),
            events@ == all_events(all.take(i as int)),
            truncated == torn_count(all.take(i as int)),
        decreases files@.len() - i,
    {
        let ghost next = all.take(i + 1);
        assert(next.drop_last() =~= all.take(i as int));
        assert(next.last() == files@[i as int]@);
        proof {
            lemma_torn_count(all.take(i as int));
        }
        match read_segment(files[i].as_slice()) {
            Ok(seg) => {
                append_events(&mut events, &seg);
                if seg.truncated {
                    truncated = truncated + 1;
                }
                assert forall|k: int| 0 <= k < next.len() implies
                    crate::storage::segment::is_segment(#[trigger] next[k]) by {
                    if k < i {
                        assert(next[k] == all.take(i as int)[k]);
                    }
                }
            },
            Err(e) => {
                assert(refused_for(all[i as int], e));
                assert(!crate::storage::segment::is_segment(all[i as int]));
                return Err(e);
            },
        }
        i = i + 1;
    }
    assert(all.take(i as int) =~= all);
    Ok(SessionEvents { events, segments: files.len() as u32, truncated_segments: truncated })
}

/// Appends the events of a segment.
pub fn append_events(events: &mut Vec<Event>, seg: &SegmentReader)
    ensures
        final(events)@ == old(events)@ + seg.events@,
{
    let mut i: usize = 0;
    assert(events@ =~= old(events)@ + seg.events@.take(0));
    while i < seg.events.len()
        invariant
            i <= seg.events@.len(),
            events@ == old(events)@ + seg.events@.take(i as int),
        decreases seg.events@.len() - i,
    {
        events.push(seg.events[i]);
        i = i + 1;
        assert(events@ =~= old(events)@ + seg.events@.take(i as int));
    }
    assert(seg.events@.take(i as int) =~= seg.events@);
}

// ---- the table ----------------------------------------------------------------------------

/// The first line of the table.
pub open spec fn csv_header() -> Seq<char> {
    "t_ns,kind,device,raw_dx,raw_dy,cursor_x,cursor_y,button,pressed,wheel,mods_ctrl,mods_shift,mods_alt,mods_win,buttons_held,flags\n"@
}

/// What the table calls a kind of event.
pub open spec fn csv_kind(kind: u8) -> Seq<char> {
    if kind == EV_MOVE {
        "move"@
    } else if kind == EV_BUTTON {
        "button"@
    } else if kind == EV_WHEEL {
        "wheel"@
    } else if kind == EV_SYNC {
        "sync"@
    } else {
        "unknown"@
    }
}

/// 1 or 0.
pub open spec fn csv_bit(set: bool) -> Seq<char> {
    if set {
        "1"@
    } else {
        "0"@
    }
}

/// The columns of an event's line.
pub open spec fn csv_fields(e: Event) -> Seq<Seq<char>> {
    seq![
        crate::text::decimal(e.t_ns as nat),
        csv_kind(e.kind),
        crate::text::decimal(e.dev as nat),
        crate::text::signed_decimal(e.dx as int),
        crate::text::signed_decimal(e.dy as int),
        crate::text::signed_decimal(e.x as int),
        crate::text::signed_decimal(e.y as int),
        if e.kind == EV_BUTTON {
            crate::event::button_name_spec(e.btn)
        } else {
            ""@
        },
        if e.kind == EV_BUTTON {
            csv_bit(e.flags & F_DOWN != 0)
        } else {
            ""@
        },
        crate::text::signed_decimal(e.wheel as int),
        csv_bit(e.mods & M_CTRL != 0),
        csv_bit(e.mods & M_SHIFT != 0),
        csv_bit(e.mods & M_ALT != 0),
        csv_bit(e.mods & M_WIN != 0),
        crate::text::decimal(e.bstate as nat),
        crate::text::decimal(e.flags as nat),
    ]
}

/// An event's line.
pub open spec fn csv_row(e: Event) -> Seq<char> {
    crate::text::joined(csv_fields(e), ","@).push('\n')
}

/// The lines of the events.
pub open spec fn csv_rows(events: Seq<Event>) -> Seq<char>
    decreases events.len(),
{
    if events.len() == 0 {
        seq![]
    } else {
        csv_rows(events.drop_last()) + csv_row(events.last())
    }
}

fn bit_text(set: bool) -> (s: String)
    ensures
        s@ == csv_bit(set),
{
    if set {
        "1".to_owned()
    } else {
        "0".to_owned()
    }
}

/// Appends an event's line.
fn write_row(out: &mut String, e: &Event)
    ensures
        final(out)@ == old(out)@ + csv_row(*e),
{
    let kind = match e.kind {
        EV_MOVE => "move",
        EV_BUTTON => "button",
        EV_WHEEL => "wheel",
        EV_SYNC => "sync",
        _ => "unknown",
    };
    let mut parts: Vec<String> = Vec::new();
    parts.push(decimal_text(e.t_ns));
    parts.push(kind.to_owned());
    parts.push(decimal_text(e.dev as u64));
    parts.push(signed_text(e.dx as i64));
    parts.push(signed_text(e.dy as i64));
    parts.push(signed_text(e.x as i64));
    parts.push(signed_text(e.y as i64));
    if e.kind == EV_BUTTON {
        parts.push(button_name(e.btn).to_owned());
        parts.push(bit_text(e.flags & F_DOWN != 0));
    } else {
        parts.push("".to_owned());
        parts.push("".to_owned());
    }
    parts.push(signed_text(e.wheel as i64));
    parts.push(bit_text(e.mods & M_CTRL != 0));
    parts.push(bit_text(e.mods & M_SHIFT != 0));
    parts.push(bit_text(e.mods & M_ALT != 0));
    parts.push(bit_text(e.mods & M_WIN != 0));
    parts.push(decimal_text(e.bstate as u64));
    parts.push(decimal_text(e.flags as u64));
    assert(crate::text::views(parts@) =~= csv_fields(*e));
    let line = join(&parts, ",");
    out.append(line.as_str());
    out.push('\n');
    assert(out@ =~= old(out)@ + csv_row(*e));
}

/// Flattens the segment files of a session into one table.
pub fn session_to_csv(files: &Vec<Vec<u8>>) -> (r: Result<(String, ExportStats), SegmentError>)
    requires
        files@.len() <= u32::MAX,
    ensures
        match r {
            Ok((table, stats)) => {
                let events = all_events(contents(files@));
                &&& all_segments(contents(files@))
                &&& table@ == csv_header() + csv_rows(events)
                &&& stats.events == events.len()
                &&& stats.segments == files@.len()
                &&& stats.truncated_segments == torn_count(contents(files@))
            },
            Err(e) => !all_segments(contents(files@)) && first_refusal(contents(files@), e),
        },
{
    let read = match read_all(files) {
        Ok(s) => s,
        Err(e) => {
            return Err(e);
        },
    };
    let table = events_to_csv(&read.events);
    let stats = ExportStats {
        events: read.events.len() as u64,
        segments: read.segments,
        truncated_segments: read.truncated_segments,
    };
    Ok((table, stats))
}

/// The table of these events.
pub fn events_to_csv(events: &Vec<Event>) -> (table: String)
    ensures
        table@ == csv_header() + csv_rows(events@),
{
    let mut table =
        "t_ns,kind,device,raw_dx,raw_dy,cursor_x,cursor_y,button,pressed,wheel,mods_ctrl,mods_shift,mods_alt,mods_win,buttons_held,flags\n".to_owned();
    let mut i: usize = 0;
    assert(events@.take(0) =~= seq![]);
    assert(table@ =~= csv_header() + csv_rows(events@.take(0)));
    while i < events.len()
        invariant
            i <= events@.len(),
            table@ == csv_header() + csv_rows(events@.take(i as int)),
        decreases events@.len() - i,
    {
        write_row(&mut table, &events[i]);
        proof {
            let next = events@.take(i + 1);
            assert(next.drop_last() =~= events@.take(i as int));
            assert(next.last() == events@[i as int]);
            assert(table@ =~= csv_header() + csv_rows(next));
        }
        i = i + 1;
    }
    assert(events@.take(i as int) =~= events@);
    table
}

// ---- the audit ----------------------------------------------------------------------------

/// What is actually there in a session, beside what its header claims.
///
/// This is the acceptance check, not a convenience: it shows that the bytes on disk
/// decode, and a count that differs from what the header claims is loud rather than
/// silent.
#[derive(Debug)]
pub struct VerifyReport {
    pub session_id: String,
    pub events_found: u64,
    pub events_claimed: u64,
    pub dropped_claimed: u64,
    pub truncated_segments: u32,
    pub clean_shutdown: bool,
    pub interrupted: bool,
    pub monotonic_violations: u64,
    /// From the first event to the last.
    pub duration_ns: u64,
}

/// How often an event is stamped earlier than the one before it.
pub open spec fn regressions(events: Seq<Event>) -> nat
    decreases events.len(),
{
    if events.len() < 2 {
        0
    } else {
        regressions(events.drop_last()) + if events.last().t_ns < events[events.len() - 2].t_ns {
            1nat
        } else {
            0
        }
    }
}

/// Nanoseconds from the first event to the last, where it is the later one.
pub open spec fn span_ns(events: Seq<Event>) -> u64 {
    if events.len() > 0 && events.last().t_ns > events[0].t_ns {
        (events.last().t_ns - events[0].t_ns) as u64
    } else {
        0
    }
}

/// `v` reports these events beside what the header claims.
pub open spec fn reports(
    v: VerifyReport,
    h: SessionHeader,
    events: Seq<Event>,
    torn: nat,
) -> bool {
    &&& v.session_id == h.session_id
    &&& v.events_found == events.len()
    &&& v.events_claimed == h.events_written
    &&& v.dropped_claimed == h.events_dropped
    &&& v.truncated_segments == torn
    &&& v.clean_shutdown == h.clean_shutdown
    &&& v.interrupted == h.interrupted
    &&& v.monotonic_violations == regressions(events)
    &&& v.duration_ns == span_ns(events)
}

/// Reads back every segment file of a session and reports what is actually there.
pub fn verify_session(header: &SessionHeader, files: &Vec<Vec<u8>>) -> (r: Result<
    VerifyReport,
    SegmentError,
>)
    requires
        files@.len() <= u32::MAX,
    ensures
        match r {
            Ok(v) => all_segments(contents(files@)) && reports(
                v,
                *header,
                all_events(contents(files@)),
                torn_count(contents(files@)),
            ),
            Err(e) => !all_segments(contents(files@)) && first_refusal(contents(files@), e),
        },
{
    let read = match read_all(files) {
        Ok(s) => s,
        Err(e) => {
            return Err(e);
        },
    };
    Ok(audit(header, &read))
}

/// What is there, beside what the header claims.
pub fn audit(header: &SessionHeader, read: &SessionEvents) -> (v: VerifyReport)
    ensures
        reports(v, *header, read.events@, read.truncated_segments as nat),
        v.events_found == read.events@.len(),
        read.events@.len() > 0 && read.events@[0].t_ns <= read.events@.last().t_ns
            ==> read.events@[0].t_ns + v.duration_ns == read.events@.last().t_ns,
        v.monotonic_violations == 0 <==> forall|i: int, j: int|
            0 <= i <= j < read.events@.len() ==> (#[trigger] read.events@[i]).t_ns <= (
            #[trigger] read.events@[j]).t_ns,
{
    proof {
        law_no_step_back_means_in_order(read.events@);
    }
    let events = &read.events;
    let n: usize = events.len();
    let mut violations: u64 = 0;
    let mut i: usize = 0;
    assert(regressions(events@.take(0)) == 0);
    while i < n
        invariant
            i <= n == events@.len(),
            violations == regressions(events@.take(i as int)),
            violations <= i,
        decreases n - i,
    {
        proof {
            let next = events@.take(i + 1);
            assert(next.drop_last() =~= events@.take(i as int));
            assert(next.last() == events@[i as int]);
        }
        // The clock is monotonic; a regression means a bug in the capturing side.
        if i > 0 && events[i].t_ns < events[i - 1].t_ns {
            violations = violations + 1;
        }
        i = i + 1;
    }
    assert(events@.take(i as int) =~= events@);
    let duration_ns: u64 = if n > 0 && events[n - 1].t_ns > events[0].t_ns {
        events[n - 1].t_ns - events[0].t_ns
    } else {
        0
    };
    VerifyReport {
        session_id: header.session_id.clone(),
        events_found: n as u64,
        events_claimed: header.events_written,
        dropped_claimed: header.events_dropped,
        truncated_segments: read.truncated_segments,
        clean_shutdown: header.clean_shutdown,
        interrupted: header.interrupted,
        monotonic_violations: violations,
        duration_ns,
    }
}

// ---- laws -----------------------------------------------------------------------------

/// Below its first line a table has a line for each event.
pub proof fn law_one_row_per_event(events: Seq<Event>)
    ensures
        newlines(csv_rows(events)) == events.len(),
    decreases events.len(),
{
    if events.len() > 0 {
        law_one_row_per_event(events.drop_last());
        lemma_row_has_one_newline(events.last());
        lemma_newlines_add(csv_rows(events.drop_last()), csv_row(events.last()));
    }
}

/// How many line ends there are.
pub open spec fn newlines(text: Seq<char>) -> nat
    decreases text.len(),
{
    if text.len() == 0 {
        0
    } else {
        newlines(text.drop_last()) + if text.last() == '\n' {
            1nat
        } else {
            0
        }
    }
}

proof fn lemma_newlines_add(a: Seq<char>, b: Seq<char>)
    ensures
        newlines(a + b) == newlines(a) + newlines(b),
    decreases b.len(),
{
    if b.len() == 0 {
        assert(a + b =~= a);
    } else {
        assert((a + b).drop_last() =~= a + b.drop_last());
        lemma_newlines_add(a, b.drop_last());
    }
}

spec fn plain(text: Seq<char>) -> bool {
    forall|i: int| 0 <= i < text.len() ==> #[trigger] text[i] != '\n'
}

proof fn lemma_plain(text: Seq<char>)
    requires
        plain(text),
    ensures
        newlines(text) == 0,
    decreases text.len(),
{
    if text.len() > 0 {
        assert(text.last() == text[text.len() - 1]);
        assert forall|i: int| 0 <= i < text.drop_last().len() implies #[trigger] text.drop_last()[i]
            != '\n' by {
            assert(text.drop_last()[i] == text[i]);
        }
        lemma_plain(text.drop_last());
    }
}

proof fn lemma_decimal_plain(n: nat)
    ensures
        plain(crate::text::decimal(n)),
    decreases n,
{
    if n >= 10 {
        lemma_decimal_plain(n / 10);
    }
}

proof fn lemma_joined_plain(parts: Seq<Seq<char>>)
    requires
        forall|i: int| 0 <= i < parts.len() ==> plain(#[trigger] parts[i]),
    ensures
        plain(crate::text::joined(parts, ","@)),
    decreases parts.len(),
{
    reveal_strlit(",");
    if parts.len() == 1 {
        assert(plain(parts[0]));
    } else if parts.len() > 1 {
        let rest = parts.drop_last();
        assert forall|i: int| 0 <= i < rest.len() implies plain(#[trigger] rest[i]) by {
            assert(rest[i] == parts[i]);
        }
        lemma_joined_plain(rest);
        assert(plain(parts[parts.len() - 1]));
        let a = crate::text::joined(rest, ","@);
        let all = crate::text::joined(parts, ","@);
        let l = parts.last();
        assert forall|i: int| 0 <= i < all.len() implies #[trigger] all[i] != '\n' by {
            if i < a.len() {
                assert(all[i] == a[i]);
            } else if i == a.len() {
                assert(all[i] == ","@[0]);
            } else {
                assert(all[i] == l[i - a.len() - 1]);
            }
        }
    }
}

proof fn lemma_row_has_one_newline(e: Event)
    ensures
        newlines(csv_row(e)) == 1,
{
    reveal_strlit("move");
    reveal_strlit("button");
    reveal_strlit("wheel");
    reveal_strlit("sync");
    reveal_strlit("unknown");
    reveal_strlit("1");
    reveal_strlit("0");
    reveal_strlit("");
    reveal_strlit("left");
    reveal_strlit("right");
    reveal_strlit("middle");
    reveal_strlit("x1");
    reveal_strlit("x2");
    reveal_strlit("none");
    let f = csv_fields(e);
    lemma_decimal_plain(e.t_ns as nat);
    lemma_decimal_plain(e.dev as nat);
    lemma_decimal_plain(e.bstate as nat);
    lemma_decimal_plain(e.flags as nat);
    lemma_signed_plain(e.dx as int);
    lemma_signed_plain(e.dy as int);
    lemma_signed_plain(e.x as int);
    lemma_signed_plain(e.y as int);
    lemma_signed_plain(e.wheel as int);
    assert(plain(csv_kind(e.kind)));
    assert(plain(crate::event::button_name_spec(e.btn)));
    assert(plain(f[7]) && plain(f[8]));
    assert(plain(f[10]) && plain(f[11]) && plain(f[12]) && plain(f[13]));
    assert forall|i: int| 0 <= i < f.len() implies plain(#[trigger] f[i]) by {
        assert(i == 0 || i == 1 || i == 2 || i == 3 || i == 4 || i == 5 || i == 6 || i == 7 || i
            == 8 || i == 9 || i == 10 || i == 11 || i == 12 || i == 13 || i == 14 || i == 15);
    }
    lemma_joined_plain(f);
    let line = crate::text::joined(f, ","@);
    lemma_plain(line);
    assert(csv_row(e).drop_last() =~= line);
}

proof fn lemma_signed_plain(n: int)
    ensures
        plain(crate::text::signed_decimal(n)),
{
    if n < 0 {
        lemma_decimal_plain((-n) as nat);
        let d = crate::text::decimal((-n) as nat);
        let s = crate::text::signed_decimal(n);
        assert forall|i: int| 0 <= i < s.len() implies #[trigger] s[i] != '\n' by {
            if i > 0 {
                assert(s[i] == d[i - 1]);
            }
        }
    } else {
        lemma_decimal_plain(n as nat);
    }
}

/// The columns of a line: what stands between its commas.
pub open spec fn columns(line: Seq<char>) -> Seq<Seq<char>>
    decreases line.len(),
{
    if line.len() == 0 {
        seq![seq![]]
    } else {
        let before = columns(line.drop_last());
        if line.last() == ',' {
            before.push(seq![])
        } else {
            before.drop_last().push(before.last().push(line.last()))
        }
    }
}

/// The number that a column gives.
pub open spec fn number(text: Seq<char>) -> int {
    if text.len() > 0 && text[0] == '-' {
        -(crate::text::digits_value(text.skip(1)) as int)
    } else {
        crate::text::digits_value(text) as int
    }
}

spec fn unbroken(text: Seq<char>) -> bool {
    forall|i: int| 0 <= i < text.len() ==> #[trigger] text[i] != ','
}

proof fn lemma_column_goes_on(line: Seq<char>, text: Seq<char>)
    requires
        unbroken(text),
    ensures
        columns(line).len() > 0,
        columns(line + text) == columns(line).drop_last().push(columns(line).last() + text),
    decreases line.len() + text.len(),
{
    if line.len() > 0 {
        lemma_column_goes_on(line.drop_last(), seq![]);
    }
    if text.len() == 0 {
        assert(line + text =~= line);
        assert(columns(line).last() + text =~= columns(line).last());
        assert(columns(line) =~= columns(line).drop_last().push(columns(line).last()));
    } else {
        let shorter = text.drop_last();
        assert(unbroken(shorter)) by {
            assert forall|i: int| 0 <= i < shorter.len() implies #[trigger] shorter[i] != ',' by {
                assert(shorter[i] == text[i]);
            }
        }
        lemma_column_goes_on(line, shorter);
        assert((line + text).drop_last() =~= line + shorter);
        assert(text.last() == text[text.len() - 1]);
        let before = columns(line + shorter);
        assert(before.drop_last() =~= columns(line).drop_last());
        assert((columns(line).last() + shorter).push(text.last()) =~= columns(line).last() + text);
    }
}

proof fn lemma_columns_of_joined(parts: Seq<Seq<char>>)
    requires
        parts.len() > 0,
        forall|i: int| 0 <= i < parts.len() ==> unbroken(#[trigger] parts[i]),
    ensures
        columns(crate::text::joined(parts, ","@)) == parts,
    decreases parts.len(),
{
    reveal_strlit(",");
    assert(unbroken(parts[parts.len() - 1]));
    if parts.len() == 1 {
        lemma_column_goes_on(seq![], parts[0]);
        assert(seq![] + parts[0] =~= parts[0]);
        assert(columns(seq![]) =~= seq![Seq::<char>::empty()]);
        assert(columns(parts[0]) =~= parts);
    } else {
        let rest = parts.drop_last();
        assert forall|i: int| 0 <= i < rest.len() implies unbroken(#[trigger] rest[i]) by {
            assert(rest[i] == parts[i]);
        }
        lemma_columns_of_joined(rest);
        let line = crate::text::joined(rest, ","@) + ","@;
        assert(line.drop_last() =~= crate::text::joined(rest, ","@));
        assert(line.last() == ',');
        assert(columns(line) == rest.push(seq![]));
        lemma_column_goes_on(line, parts.last());
        assert(columns(line).drop_last() =~= rest);
        assert(columns(line).last() + parts.last() =~= parts.last());
        assert(rest.push(parts.last()) =~= parts);
    }
}

proof fn lemma_decimal_unbroken(n: nat)
    ensures
        unbroken(crate::text::decimal(n)),
        crate::text::decimal(n).len() > 0,
        crate::text::decimal(n)[0] != '-',
        number(crate::text::decimal(n)) == n,
    decreases n,
{
    crate::text::lemma_decimal_value(n);
    if n >= 10 {
        lemma_decimal_unbroken(n / 10);
    }
}

proof fn lemma_signed_unbroken(n: int)
    ensures
        unbroken(crate::text::signed_decimal(n)),
        number(crate::text::signed_decimal(n)) == n,
{
    if n < 0 {
        lemma_decimal_unbroken((-n) as nat);
        crate::text::lemma_decimal_value((-n) as nat);
        let d = crate::text::decimal((-n) as nat);
        let s = crate::text::signed_decimal(n);
        assert(s.skip(1) =~= d);
        assert forall|i: int| 0 <= i < s.len() implies #[trigger] s[i] != ',' by {
            if i > 0 {
                assert(s[i] == d[i - 1]);
            }
        }
    } else {
        lemma_decimal_unbroken(n as nat);
    }
}

/// The words of the table hold no comma.
proof fn lemma_words_unbroken(e: Event)
    ensures
        unbroken(csv_fields(e)[1]),
        unbroken(csv_fields(e)[7]),
        unbroken(csv_fields(e)[8]),
        unbroken(csv_fields(e)[10]),
        unbroken(csv_fields(e)[11]),
        unbroken(csv_fields(e)[12]),
        unbroken(csv_fields(e)[13]),
{
    reveal_strlit("move");
    reveal_strlit("button");
    reveal_strlit("wheel");
    reveal_strlit("sync");
    reveal_strlit("unknown");
    reveal_strlit("1");
    reveal_strlit("0");
    reveal_strlit("");
    reveal_strlit("left");
    reveal_strlit("right");
    reveal_strlit("middle");
    reveal_strlit("x1");
    reveal_strlit("x2");
    reveal_strlit("none");
}

/// A line falls into the columns that it was made of.
proof fn lemma_row_columns(e: Event)
    ensures
        csv_row(e).len() > 0,
        csv_row(e).last() == '\n',
        columns(csv_row(e).drop_last()) == csv_fields(e),
{
    let f = csv_fields(e);
    lemma_words_unbroken(e);
    lemma_decimal_unbroken(e.t_ns as nat);
    lemma_decimal_unbroken(e.dev as nat);
    lemma_decimal_unbroken(e.bstate as nat);
    lemma_decimal_unbroken(e.flags as nat);
    lemma_signed_unbroken(e.dx as int);
    lemma_signed_unbroken(e.dy as int);
    lemma_signed_unbroken(e.x as int);
    lemma_signed_unbroken(e.y as int);
    lemma_signed_unbroken(e.wheel as int);
    assert forall|i: int| 0 <= i < f.len() implies unbroken(#[trigger] f[i]) by {
        assert(i == 0 || i == 1 || i == 2 || i == 3 || i == 4 || i == 5 || i == 6 || i == 7 || i
            == 8 || i == 9 || i == 10 || i == 11 || i == 12 || i == 13 || i == 14 || i == 15);
    }
    lemma_columns_of_joined(f);
    assert(csv_row(e).drop_last() =~= crate::text::joined(f, ","@));
}

/// A line has sixteen columns, and its numbers read back as those of the event: when it
/// was, from which device, how far it moved, where the cursor was, by how much the wheel
/// turned, which buttons were held and which flags were set.
pub proof fn law_numbers_of_a_row_read_back(e: Event)
    ensures
        csv_row(e).len() > 0,
        csv_row(e).last() == '\n',
        ({
            let c = columns(csv_row(e).drop_last());
            &&& c.len() == 16
            &&& number(c[0]) == e.t_ns
            &&& number(c[2]) == e.dev
            &&& number(c[3]) == e.dx
            &&& number(c[4]) == e.dy
            &&& number(c[5]) == e.x
            &&& number(c[6]) == e.y
            &&& number(c[9]) == e.wheel
            &&& number(c[14]) == e.bstate
            &&& number(c[15]) == e.flags
        }),
{
    lemma_row_columns(e);
    lemma_decimal_unbroken(e.t_ns as nat);
    lemma_decimal_unbroken(e.dev as nat);
    lemma_decimal_unbroken(e.bstate as nat);
    lemma_decimal_unbroken(e.flags as nat);
    lemma_signed_unbroken(e.dx as int);
    lemma_signed_unbroken(e.dy as int);
    lemma_signed_unbroken(e.x as int);
    lemma_signed_unbroken(e.y as int);
    lemma_signed_unbroken(e.wheel as int);
}

/// The second column tells the kind of the event, each kind by its own word, the one that
/// the event itself goes by.
pub proof fn law_the_kind_in_a_row_reads_back(e: Event)
    ensures
        ({
            let c = columns(csv_row(e).drop_last());
            &&& c[1] == "move"@ <==> e.kind == 1
            &&& c[1] == "button"@ <==> e.kind == 2
            &&& c[1] == "wheel"@ <==> e.kind == 3
            &&& c[1] == "sync"@ <==> e.kind == 4
            &&& 1 <= e.kind <= 4 ==> c[1] == Event::kind_name_spec(e.kind)
            &&& !(1 <= e.kind <= 4) ==> c[1] == "unknown"@
        }),
{
    lemma_row_columns(e);
    reveal_strlit("move");
    reveal_strlit("button");
    reveal_strlit("wheel");
    reveal_strlit("sync");
    reveal_strlit("unknown");
    assert("move"@[0] != "sync"@[0]);
    assert("move"@.len() != "button"@.len());
    assert("move"@.len() != "wheel"@.len());
    assert("button"@.len() != "wheel"@.len());
    assert("button"@.len() != "sync"@.len());
    assert("wheel"@.len() != "sync"@.len());
    assert("unknown"@.len() == 7);
}

/// Only a transition names a button, its own, and says whether it was pressed or released.
pub proof fn law_the_button_in_a_row_reads_back(e: Event)
    ensures
        ({
            let c = columns(csv_row(e).drop_last());
            &&& e.kind == 2 && e.btn == 0 ==> c[7] == "left"@
            &&& e.kind == 2 && e.btn == 1 ==> c[7] == "right"@
            &&& e.kind == 2 && e.btn == 2 ==> c[7] == "middle"@
            &&& e.kind == 2 && e.btn == 3 ==> c[7] == "x1"@
            &&& e.kind == 2 && e.btn == 4 ==> c[7] == "x2"@
            &&& e.kind == 2 && e.btn > 4 ==> c[7] == "none"@
            &&& e.kind != 2 ==> c[7].len() == 0 && c[8].len() == 0
            &&& e.kind == 2 ==> c[8].len() == 1 && number(c[8]) == e.flags as int % 2
        }),
{
    lemma_row_columns(e);
    reveal_strlit("");
    lemma_bit_column(e.flags & F_DOWN != 0);
    let f = e.flags;
    assert((f & 1 != 0) == (f % 2 == 1)) by (bit_vector);
}

proof fn lemma_bit_column(set: bool)
    ensures
        csv_bit(set).len() == 1,
        number(csv_bit(set)) == if set {
            1int
        } else {
            0
        },
{
    reveal_strlit("1");
    reveal_strlit("0");
    let t = csv_bit(set);
    assert(t.drop_last() =~= seq![]);
    assert(crate::text::digits_value(t.drop_last()) == 0);
}

/// The modifiers have a column each: control, shift, alt and the system key, 1 where it
/// was down and 0 where it was not.
pub proof fn law_the_modifiers_in_a_row_read_back(e: Event)
    ensures
        ({
            let c = columns(csv_row(e).drop_last());
            &&& c[10].len() == 1 && c[11].len() == 1 && c[12].len() == 1 && c[13].len() == 1
            &&& number(c[10]) == e.mods as int % 2
            &&& number(c[11]) == e.mods as int / 2 % 2
            &&& number(c[12]) == e.mods as int / 4 % 2
            &&& number(c[13]) == e.mods as int / 8 % 2
        }),
{
    lemma_row_columns(e);
    let m = e.mods;
    lemma_bit_column(m & M_CTRL != 0);
    lemma_bit_column(m & M_SHIFT != 0);
    lemma_bit_column(m & M_ALT != 0);
    lemma_bit_column(m & M_WIN != 0);
    assert((m & 1 != 0) == (m % 2 == 1)) by (bit_vector);
    assert((m & 2 != 0) == (m / 2 % 2 == 1)) by (bit_vector);
    assert((m & 4 != 0) == (m / 4 % 2 == 1)) by (bit_vector);
    assert((m & 8 != 0) == (m / 8 % 2 == 1)) by (bit_vector);
}

/// The tables of two stretches of events, one behind the other, are the table of both.
pub proof fn law_rows_follow_the_events(a: Seq<Event>, b: Seq<Event>)
    ensures
        csv_rows(a + b) == csv_rows(a) + csv_rows(b),
        b.len() == 1 ==> csv_rows(b) == csv_row(b[0]),
    decreases b.len(),
{
    if b.len() == 0 {
        assert(a + b =~= a);
        assert(csv_rows(a) + csv_rows(b) =~= csv_rows(a));
    } else {
        law_rows_follow_the_events(a, b.drop_last());
        assert((a + b).drop_last() =~= a + b.drop_last());
        assert(csv_rows(a + b) =~= csv_rows(a) + csv_rows(b));
        if b.len() == 1 {
            assert(b.drop_last() =~= seq![]);
            assert(csv_rows(b) =~= csv_row(b[0]));
        }
    }
}

/// The duration reaches from the first event to the last: added to the one it gives the
/// other. Where the last one is stamped earlier, there is none.
pub proof fn law_the_duration_reaches_the_last_event(events: Seq<Event>)
    requires
        events.len() > 0,
    ensures
        events[0].t_ns <= events.last().t_ns ==> events[0].t_ns + span_ns(events)
            == events.last().t_ns,
        events[0].t_ns > events.last().t_ns ==> span_ns(events) == 0,
{
}

/// The duration grows by exactly as much as another event comes later.
pub proof fn law_the_duration_grows_with_the_events(events: Seq<Event>, e: Event)
    requires
        events.len() > 0,
        events[0].t_ns <= events.last().t_ns <= e.t_ns,
    ensures
        span_ns(events.push(e)) - span_ns(events) == e.t_ns - events.last().t_ns,
{
}

/// Each step back in time is counted once, and nothing else: two stretches of events have
/// between them the steps back of each, and one more where the second starts earlier than
/// the first ends.
pub proof fn law_each_step_back_is_counted_once(a: Seq<Event>, b: Seq<Event>)
    requires
        a.len() > 0,
        b.len() > 0,
    ensures
        regressions(a + b) == regressions(a) + regressions(b) + if b[0].t_ns < a.last().t_ns {
            1nat
        } else {
            0
        },
        a.len() == 1 ==> regressions(a) == 0,
    decreases b.len(),
{
    let all = a + b;
    let shorter = b.drop_last();
    assert(all.drop_last() =~= a + shorter);
    assert(all.last() == b.last());
    if b.len() == 1 {
        assert(a + shorter =~= a);
        assert(all[all.len() - 2] == a.last());
    } else {
        law_each_step_back_is_counted_once(a, shorter);
        assert(all[all.len() - 2] == b[b.len() - 2]);
        assert(shorter[0] == b[0]);
    }
}

/// There are no steps back exactly where the events are in the order of their stamps.
pub proof fn law_no_step_back_means_in_order(events: Seq<Event>)
    ensures
        regressions(events) == 0 <==> forall|i: int, j: int|
            0 <= i <= j < events.len() ==> (#[trigger] events[i]).t_ns <= (
            #[trigger] events[j]).t_ns,
    decreases events.len(),
{
    if events.len() >= 2 {
        let before = events.drop_last();
        let n = events.len();
        law_no_step_back_means_in_order(before);
        assert(before.last() == events[n - 2]);
        if regressions(events) == 0 {
            assert forall|i: int, j: int| 0 <= i <= j < events.len() implies (
            #[trigger] events[i]).t_ns <= (#[trigger] events[j]).t_ns by {
                if i < n - 1 {
                    assert(before[i].t_ns <= before[n - 2].t_ns);
                    if j < n - 1 {
                        assert(before[i].t_ns <= before[j].t_ns);
                    }
                }
            }
        }
        if forall|i: int, j: int|
            0 <= i <= j < events.len() ==> (#[trigger] events[i]).t_ns <= (
            #[trigger] events[j]).t_ns {
            assert forall|i: int, j: int| 0 <= i <= j < before.len() implies (
            #[trigger] before[i]).t_ns <= (#[trigger] before[j]).t_ns by {
                assert(events[i].t_ns <= events[j].t_ns);
            }
            assert(events[n - 2].t_ns <= events[n - 1].t_ns);
        }
    }
}

/// Reading two lists of files one after the other gives the events of both, and the torn
/// files of both.
pub proof fn law_files_are_read_one_after_another(a: Seq<Seq<u8>>, b: Seq<Seq<u8>>)
    ensures
        all_events(a + b) == all_events(a) + all_events(b),
        torn_count(a + b) == torn_count(a) + torn_count(b),
        b.len() == 1 ==> all_events(b) == events_of(b[0]),
        b.len() == 1 ==> (torn_count(b) == 1 <==> is_torn(b[0])),
    decreases b.len(),
{
    if b.len() == 0 {
        assert(a + b =~= a);
        assert(all_events(a) + all_events(b) =~= all_events(a));
    } else {
        law_files_are_read_one_after_another(a, b.drop_last());
        assert((a + b).drop_last() =~= a + b.drop_last());
        assert(all_events(a + b) =~= all_events(a) + all_events(b));
        if b.len() == 1 {
            assert(b.drop_last() =~= seq![]);
            assert(all_events(b) =~= events_of(b[0]));
        }
    }
}

/// A segment that the header does not list is looked for by its name: files that do not
/// end in `.mpseg` are left out, those that do are all there, in the order of their names.
pub proof fn law_found_segments_are_the_segment_files(
    r: Seq<String>,
    found: Seq<String>,
    name: String,
)
    requires
        is_segment_order(r, seq![], found),
    ensures
        r.contains(name) <==> found.contains(name) && exists|stem: Seq<char>|
            #![auto]
            name@ == stem + ".mpseg"@,
        crate::order::texts_sorted(r),
{
    let keep = |n: String| crate::text::ends_with_spec(n@, ".mpseg"@);
    reveal_strlit(".mpseg");
    assert(r.to_multiset().count(name) > 0 <==> r.contains(name));
    assert(segment_files(found).to_multiset().count(name) > 0 <==> segment_files(found).contains(
        name,
    ));
    broadcast use vstd::seq_lib::group_filter_ensures;

    if segment_files(found).contains(name) {
        let i = choose|i: int| 0 <= i < segment_files(found).len() && segment_files(found)[i] == name;
        assert(keep(segment_files(found)[i]));
        found.lemma_filter_contains_rev(keep, name);
        assert(name@ =~= name@.take(name@.len() - 6) + ".mpseg"@);
    }
    if found.contains(name) {
        assert forall|stem: Seq<char>| name@ == #[trigger] (stem + ".mpseg"@) implies keep(name) by {
            assert(name@.skip(name@.len() - 6) =~= ".mpseg"@);
        }
    }
}

/// The report holds what the header claims beside what is there, each under its own name.
pub proof fn law_the_audit_repeats_the_claims(
    v: VerifyReport,
    h: SessionHeader,
    events: Seq<Event>,
    torn: nat,
)
    requires
        reports(v, h, events, torn),
    ensures
        v.session_id == h.session_id,
        v.events_found == events.len(),
        v.events_claimed == h.events_written,
        v.dropped_claimed == h.events_dropped,
        v.truncated_segments == torn,
        v.clean_shutdown == h.clean_shutdown,
        v.interrupted == h.interrupted,
{
}

/// The segments that the header lists are taken as they are listed.
pub proof fn law_listed_segments_are_taken_as_listed(
    r: Seq<String>,
    listed: Seq<String>,
    found: Seq<String>,
)
    requires
        is_segment_order(r, listed, found),
        listed.len() > 0,
    ensures
        r == listed,
{
}

/// A file is refused for what is wrong with it: one that does not start as a segment is
/// none, and one with events of another size is refused with that size.
pub proof fn law_files_are_refused_for_what_is_wrong(file: Seq<u8>, e: SegmentError)
    requires
        refused_for(file, e),
    ensures
        !crate::storage::segment::is_segment(file),
        e is NotASegment <==> !crate::storage::segment::has_magic(file),
        e matches SegmentError::EventSize(n) ==> n == crate::le::value32(file, 12) && n != 32,
{
}

/// Where a session cannot be read, the first file that is no segment says why, whatever
/// comes behind it.
pub proof fn law_the_first_bad_file_says_why(
    good: Seq<Seq<u8>>,
    bad: Seq<u8>,
    rest: Seq<Seq<u8>>,
    e: SegmentError,
)
    requires
        all_segments(good),
        !crate::storage::segment::is_segment(bad),
    ensures
        first_refusal(good + seq![bad] + rest, e) <==> refused_for(bad, e),
        !all_segments(good + seq![bad] + rest),
{
    let files = good + seq![bad] + rest;
    let n = good.len() as int;
    assert(files.take(n) =~= good);
    assert(files[n] == bad);
    if first_refusal(files, e) {
        let i = choose|i: int|
            0 <= i < files.len() && all_segments(files.take(i)) && #[trigger] refused_for(
                files[i],
                e,
            );
        if i < n {
            assert(good[i] == files[i]);
            assert(crate::storage::segment::is_segment(good[i]));
        } else if i > n {
            assert(files.take(i)[n] == bad);
        }
    }
}

} // verus!
