//! Events, segments and the queue in front of them.

use mouse_profiler::event::{
    button_name, Event, B_LEFT, B_NONE, B_X2, EVENT_SIZE, EV_BUTTON, EV_MOVE, EV_SYNC, EV_WHEEL,
    F_DOWN, F_NOCOALESCE, M_CTRL, M_SHIFT,
};
use mouse_profiler::ring::{Ring, CAP};
use mouse_profiler::storage::segment::{
    read_segment, SegmentError, SegmentWriter, FRAME_EVENTS, HEADER_LEN,
};

#[test]
fn roundtrip_preserves_every_field() {
    let e = Event {
        t_ns: 0x0123_4567_89AB_CDEF,
        kind: EV_BUTTON,
        flags: F_DOWN | F_NOCOALESCE,
        dev: 3,
        btn: B_X2,
        dx: -40_000,
        dy: 40_000,
        x: -1920,
        y: 2160,
        wheel: -240,
        mods: M_CTRL | M_SHIFT,
        bstate: 0b0000_0101,
    };
    assert_eq!(Event::from_bytes(&e.to_bytes()), e);
}

#[test]
fn dx_holds_a_high_dpi_flick_that_would_overflow_i16() {
    // 25600 DPI, ~5 m/s, 125 Hz poll -> ~40k counts in one report.
    let e = Event { dx: 40_315, dy: -40_315, ..Default::default() };
    assert_eq!(Event::from_bytes(&e.to_bytes()).dx, 40_315);
}

#[test]
fn stored_form_is_little_endian_in_field_order() {
    let e = Event { t_ns: 0x0102, kind: EV_MOVE, dx: -1, wheel: 0x0304, bstate: 9, ..Default::default() };
    let b = e.to_bytes();
    assert_eq!(b.len(), EVENT_SIZE);
    assert_eq!(&b[0..3], &[0x02, 0x01, 0x00]);
    assert_eq!(b[8], EV_MOVE);
    assert_eq!(&b[12..16], &[0xFF, 0xFF, 0xFF, 0xFF]);
    assert_eq!(&b[28..32], &[0x04, 0x03, 0x00, 0x09]);
}

#[test]
fn kinds_and_buttons_have_names() {
    let name = |kind: u8| Event { kind, ..Default::default() }.kind_name();
    assert_eq!(name(EV_MOVE), "move");
    assert_eq!(name(EV_SYNC), "sync");
    assert_eq!(name(EV_WHEEL), "wheel");
    assert_eq!(button_name(B_LEFT), "left");
    assert_eq!(button_name(B_X2), "x2");
    assert_eq!(button_name(B_NONE), "none");
}

fn sample(n: u64) -> Vec<Event> {
    (0..n)
        .map(|i| Event {
            t_ns: i * 1_000_000,
            kind: if i % 100 == 0 { EV_SYNC } else { EV_MOVE },
            dx: (i as i32 % 17) - 8,
            dy: (i as i32 % 11) - 5,
            x: 500 + i as i32,
            y: 400,
            ..Default::default()
        })
        .collect()
}

/// The file that a writer makes of the events, and the writer.
fn written(events: &[Event]) -> (Vec<u8>, SegmentWriter) {
    let (mut w, mut file) = SegmentWriter::create("events-0000.mpseg".to_string());
    for chunk in events.chunks(FRAME_EVENTS) {
        file.extend(w.write_frame(chunk).unwrap());
        w.commit(true);
    }
    (file, w)
}

#[test]
fn roundtrips_every_event_through_compression() {
    let evs = sample(20_000);
    let (file, w) = written(&evs);
    assert_eq!(w.events_written(), 20_000);
    assert_eq!(w.bytes_written(), file.len() as u64);
    assert_eq!(w.frames(), 3);
    assert_eq!(w.path(), "events-0000.mpseg");

    let r = read_segment(&file).unwrap();
    assert!(!r.truncated);
    assert_eq!(r.events.len(), 20_000);
    assert_eq!(r.events, evs);
    assert_eq!(r.frames, 3);
}

#[test]
fn a_torn_tail_costs_one_frame_not_the_file() {
    let evs = sample(20_000);
    let (mut file, _) = written(&evs);
    // Simulate a power cut mid-frame.
    let full = file.len();
    file.truncate(full - 64);

    let r = read_segment(&file).unwrap();
    assert!(r.truncated, "truncation must be reported, never hidden");
    // Everything before the torn frame survives.
    assert!(r.events.len() >= 16_384, "lost too much: {}", r.events.len());
    assert_eq!(r.events[..r.events.len()], evs[..r.events.len()]);
}

#[test]
fn rejects_a_foreign_file() {
    let r = read_segment(b"this is not a segment file at all, not even close");
    assert!(r.is_err());
    assert_eq!(r.unwrap_err(), SegmentError::NotASegment);
    assert!(read_segment(b"").is_err());
}

#[test]
fn compresses_real_looking_motion_substantially() {
    let evs = sample(50_000);
    let (file, _) = written(&evs);
    let on_disk = file.len() as u64;
    let uncompressed = (evs.len() * EVENT_SIZE) as u64;
    assert!(
        on_disk * 3 < uncompressed,
        "expected >3x compression, got {uncompressed} -> {on_disk}"
    );
}

#[test]
fn every_cut_keeps_the_frames_before_it() {
    let evs = sample(300);
    let (mut w, mut file) = SegmentWriter::create("x".to_string());
    let mut ends = vec![file.len()];
    for chunk in evs.chunks(100) {
        file.extend(w.write_frame(chunk).unwrap());
        w.commit(true);
        ends.push(file.len());
    }
    for cut in HEADER_LEN..=file.len() {
        let whole = ends.iter().filter(|e| **e <= cut).count() - 1;
        let r = read_segment(&file[..cut]).unwrap();
        assert_eq!(r.frames, whole as u64);
        assert_eq!(r.events, evs[..100 * whole]);
        assert_eq!(r.truncated, cut > ends[whole]);
    }
}

#[test]
fn damage_behind_a_frame_leaves_it_readable() {
    let evs = sample(50);
    let (mut file, _) = written(&evs);
    file.extend([9, 0, 0, 0, 3, 0, 0, 0, 1, 2, 3]);
    let r = read_segment(&file).unwrap();
    assert_eq!(r.events, evs);
    assert!(r.truncated);
}

#[test]
fn a_frame_is_read_into_the_room_that_its_prefix_names() {
    let evs = sample(20);
    let (file, _) = written(&evs);
    let with_room = |room: u32| {
        let mut f = file.clone();
        f[HEADER_LEN..HEADER_LEN + 4].copy_from_slice(&room.to_le_bytes());
        read_segment(&f).unwrap()
    };
    assert_eq!(with_room(640).events, evs);
    assert_eq!(with_room(641).events, evs);
    let r = with_room(639);
    assert_eq!((r.events.len(), r.frames, r.truncated), (0, 0, true));
}

#[test]
fn a_block_of_an_old_format_wants_room_to_spare() {
    // Eight bytes of content, of which the decoder makes nothing in a buffer of eight.
    let block: [u8; 23] = [
        0x27, 0xB5, 0x2F, 0xFD, 0x00, 0x00, 0x00, 0x00, 0x0B, 0x84, 0x41, 0x42, 0x43, 0x44, 0x01,
        0x54, 0x04, 0x00, 0x01, 0x01, 0xC0, 0x00, 0x00,
    ];
    let (_, header) = SegmentWriter::create("x".to_string());
    let frame = |room: u8| {
        let mut f = vec![room, 0, 0, 0, block.len() as u8, 0, 0, 0];
        f.extend(block);
        f
    };
    let file = [header, frame(16), frame(8)].concat();
    let r = read_segment(&file).unwrap();
    assert_eq!((r.frames, r.truncated), (1, true));
}

#[test]
fn refuses_events_of_another_size() {
    let (mut file, _) = written(&sample(1));
    file[12] = 40;
    let e = read_segment(&file).unwrap_err();
    assert_eq!(e, SegmentError::EventSize(40));
    assert_eq!(e.message(), "segment uses 40-byte events, this build expects 32");
    assert_eq!(SegmentError::NotASegment.message(), "not a MouseProfiler segment");
    assert_eq!(SegmentError::Compression.message(), "could not compress a frame");
}

#[test]
fn an_empty_batch_writes_nothing_and_an_unwritten_frame_does_not_count() {
    let (mut w, header) = SegmentWriter::create("x".to_string());
    assert_eq!(header.len(), HEADER_LEN);
    assert_eq!(&header[0..5], b"MPSEG");
    assert_eq!(w.bytes_written(), HEADER_LEN as u64);
    assert!(w.write_frame(&[]).unwrap().is_empty());
    w.commit(true);
    assert_eq!(w.frames(), 0);
    let frame = w.write_frame(&sample(10)).unwrap();
    assert!(frame.len() > 8);
    assert_eq!(&frame[0..4], &320u32.to_le_bytes());
    assert_eq!(&frame[4..8], &(frame.len() as u32 - 8).to_le_bytes());
    w.commit(false);
    assert_eq!(w.events_written(), 0);
    assert_eq!(w.bytes_written(), HEADER_LEN as u64);
}

#[test]
fn empty_batches_leave_no_trace() {
    let (mut w, mut file) = SegmentWriter::create("x".to_string());
    let batches = [sample(3), Vec::new(), sample(5), Vec::new()];
    for b in &batches {
        file.extend(w.write_frame(b).unwrap());
        w.commit(true);
    }
    let r = read_segment(&file).unwrap();
    assert_eq!(r.events, batches.concat());
    assert_eq!((r.frames, w.frames(), r.truncated), (2, 2, false));
    assert_eq!(w.events_written(), 8);
}

#[test]
fn a_block_gets_its_lengths_in_front() {
    let (mut w, _) = SegmentWriter::create("x".to_string());
    let frame = w.stage(2, Some(vec![9, 8, 7])).unwrap();
    assert_eq!(frame, [64, 0, 0, 0, 3, 0, 0, 0, 9, 8, 7]);
    w.commit(true);
    assert_eq!((w.events_written(), w.bytes_written(), w.frames()), (2, 32 + 11, 1));
    assert_eq!(w.stage(2, None), Err(SegmentError::Compression));
    w.commit(true);
    assert_eq!(w.frames(), 1, "nothing to count");
}

#[test]
fn frames_are_what_the_compressor_makes_of_the_stored_events() {
    let evs = sample(64);
    let (mut w, _) = SegmentWriter::create("x".to_string());
    let frame = w.write_frame(&evs).unwrap();
    let raw = zstd::bulk::decompress(&frame[8..], 64 * EVENT_SIZE).unwrap();
    assert_eq!(raw.len(), 64 * EVENT_SIZE);
    for (i, e) in evs.iter().enumerate() {
        assert_eq!(&raw[i * EVENT_SIZE..(i + 1) * EVENT_SIZE], &e.to_bytes()[..]);
    }
    assert_ne!(&frame[8..], &raw[..]);
}

// ---- the queue ------------------------------------------------------------------------

fn ev(t: u64) -> Event {
    Event { t_ns: t, ..Default::default() }
}

#[test]
fn a_ring_that_never_drops_reports_no_range() {
    let mut r = Ring::new();
    for i in 0..100 {
        r.push(ev(i));
    }
    assert_eq!(r.dropped(), 0);
    assert!(r.drop_range().is_none());
}

#[test]
fn drains_in_order() {
    let mut r = Ring::new();
    for i in 0..100 {
        r.push(ev(i));
    }
    let mut out = vec![Event::default(); 256];
    assert_eq!(r.drain(&mut out), 100);
    for i in 0..100u64 {
        assert_eq!(out[i as usize].t_ns, i);
    }
    assert_eq!(r.dropped(), 0);
}

#[test]
fn counts_drops_instead_of_blocking_or_corrupting() {
    let mut r = Ring::new();
    for i in 0..(CAP as u64 + 500) {
        r.push(ev(i));
    }
    assert_eq!(r.dropped(), 500);

    // And records *when* the loss happened, not merely that it did.
    let (first, last) = r.drop_range().expect("a drop range must be recorded");
    assert_eq!(first, CAP as u64, "first dropped event is the one after the ring filled");
    assert_eq!(last, CAP as u64 + 499);

    // The events that did survive must still be the first CAP, in order --
    // a full ring drops new events, it does not overwrite old ones.
    let mut out = vec![Event::default(); CAP];
    assert_eq!(r.drain(&mut out), CAP);
    assert_eq!(out[0].t_ns, 0);
    assert_eq!(out[CAP - 1].t_ns, CAP as u64 - 1);
}

#[test]
fn wraps_past_the_mask_boundary() {
    let mut r = Ring::new();
    let mut out = vec![Event::default(); 64];
    // Push/drain far enough to cross the power-of-two wrap several times.
    for round in 0..(CAP / 32 + 10) as u64 {
        for i in 0..32u64 {
            r.push(ev(round * 32 + i));
        }
        assert_eq!(r.drain(&mut out), 32);
        assert_eq!(out[0].t_ns, round * 32);
    }
    assert_eq!(r.dropped(), 0);
}

#[test]
fn every_event_is_taken_queued_or_counted() {
    let mut r = Ring::default();
    let mut out = vec![Event::default(); 1000];
    let mut taken = Vec::new();
    let mut offered = 0u64;
    for round in 0..40u64 {
        for _ in 0..(round * 97 % 5_000) {
            offered += 1;
            r.push(ev(offered));
        }
        let n = r.drain(&mut out);
        taken.extend(out[..n].iter().map(|e| e.t_ns));
        assert_eq!(offered, taken.len() as u64 + r.depth() + r.dropped());
    }
    assert!(taken.windows(2).all(|w| w[0] < w[1]));
    assert!(r.peak_depth() <= CAP as u64);
}

#[test]
fn depth_and_peak_follow_the_queue() {
    let mut r = Ring::new();
    assert_eq!(r.depth(), 0);
    for i in 0..10 {
        r.push(ev(i));
    }
    assert_eq!(r.depth(), 10);
    assert_eq!(r.peak_depth(), 10, "the high-water mark");
    let mut out = vec![Event::default(); 4];
    assert_eq!(r.drain(&mut out), 4);
    assert_eq!(r.depth(), 6);
    assert_eq!(r.peak_depth(), 10);
}

#[test]
fn a_loss_at_time_zero_has_a_range_too() {
    let mut r = Ring::new();
    for _ in 0..CAP {
        r.push(ev(1));
    }
    assert_eq!((r.drop_range(), r.peak_depth()), (None, CAP as u64));
    r.push(ev(0));
    assert_eq!((r.dropped(), r.drop_range()), (1, Some((0, 0))));
    r.push(ev(7));
    assert_eq!(r.drop_range(), Some((0, 7)));
}
