//! Append-only, independently framed event log.
//!
//! Each frame is a self-contained compressed blob with its own length prefix, so
//! a torn tail costs at most one batch and every frame before it still decodes.

use vstd::prelude::*;

use crate::event::{Event, EVENT_SIZE};
use crate::le::{push32, read32};
use crate::text::push_decimal;

verus! {

// ---- the compressor -------------------------------------------------------------

/// `std::io::Error`, carried through opaquely.
#[verifier::external_type_specification]
#[verifier::external_body]
pub struct ExIoError(std::io::Error);

/// What `zstd::bulk::compress` makes of `data` at `level`: nothing, where it fails.
pub uninterp spec fn zstd_compressed(data: Seq<u8>, level: i32) -> Option<Seq<u8>>;

/// `zstd::bulk::compress` succeeds on `data` at `level`.
pub open spec fn zstd_compresses(data: Seq<u8>, level: i32) -> bool {
    zstd_compressed(data, level) is Some
}

/// What `zstd::bulk::decompress` makes of `data` in a buffer of `room` bytes: nothing,
/// where it fails.
pub uninterp spec fn zstd_decompressed(data: Seq<u8>, room: nat) -> Option<Seq<u8>>;

/// The most bytes that compressing `len` bytes can need.
pub open spec fn compress_bound(len: nat) -> nat {
    len + len / 256 + 64
}

/// `zstd::bulk::compress`: whether it succeeds, and the compressed block, depend on the
/// data and on the level alone, as long as there is memory to work with. Decompressing
/// the block into a buffer of the data's length gives back the data, and the block is no
/// longer than the compressor's bound for the worst case. Which data it fails on is not said. It reserves a buffer of the
/// size of that bound, which a vector must be able to hold.
pub assume_specification[ zstd::bulk::compress ](data: &[u8], level: i32) -> (r: std::io::Result<
    Vec<u8>,
>)
    requires
        compress_bound(data@.len()) <= isize::MAX,
    ensures
        r is Ok <==> zstd_compresses(data@, level),
        r matches Ok(c) ==> zstd_compressed(data@, level) == Some(c@),
        r matches Ok(c) ==> zstd_decompressed(c@, data@.len()) == Some(data@),
        r matches Ok(c) ==> c@.len() <= compress_bound(data@.len()),
;

/// `zstd::bulk::decompress`: whether it succeeds, and the content, depend on the data
/// and on the capacity alone, as long as there is memory to work with; the content is no
/// longer than the capacity. Which data it fails on is not said, nor that more room gives
/// the same: the decoders of old formats want room to spare. It reserves `capacity`
/// bytes, which a vector must be able to hold, and decompresses into what it got: this
/// rests on `Vec::with_capacity` giving exactly as many bytes as were asked for, where
/// its documentation says at least as many.
pub assume_specification[ zstd::bulk::decompress ](data: &[u8], capacity: usize) -> (r:
    std::io::Result<Vec<u8>>)
    requires
        capacity <= isize::MAX,
    ensures
        r is Ok <==> zstd_decompressed(data@, capacity as nat) is Some,
        r matches Ok(v) ==> zstd_decompressed(data@, capacity as nat) == Some(v@)
            && v@.len() <= capacity,
;

// ---- the format -------------------------------------------------------------------

/// The first bytes of every segment.
pub const MAGIC: [u8; 8] = [0x4D, 0x50, 0x53, 0x45, 0x47, 0x00, 0x00, 0x01];

pub const FORMAT_VERSION: u32 = 1;

pub const HEADER_LEN: usize = 32;

pub const ZSTD_LEVEL: i32 = 3;

/// Frames are flushed when either bound is hit, whichever comes first.
pub const FRAME_EVENTS: usize = 8192;

pub const FRAME_INTERVAL_MS: u64 = 1000;

/// The header that every segment starts with.
pub open spec fn header_bytes() -> Seq<u8> {
    MAGIC@ + crate::le::le32(FORMAT_VERSION) + crate::le::le32(EVENT_SIZE as u32) + Seq::new(
        16,
        |i: int| 0u8,
    )
}

/// The events, each in its stored form, one after another.
pub open spec fn encode_events(events: Seq<Event>) -> Seq<u8> {
    Seq::new(
        events.len() * EVENT_SIZE as nat,
        |i: int| events[i / EVENT_SIZE as int].encoded()[i % EVENT_SIZE as int],
    )
}

/// The events stored in `raw`; bytes at its end that make no whole event are
/// ignored.
pub open spec fn decode_events(raw: Seq<u8>) -> Seq<Event> {
    Seq::new(
        raw.len() / EVENT_SIZE as nat,
        |i: int| Event::decoded(raw, i * EVENT_SIZE),
    )
}

/// `n` as far as 32 bits hold it.
pub open spec fn low32(n: nat) -> u32 {
    (n % 0x1_0000_0000) as u32
}

/// A frame: the length of the content, the length of the block, the block.
pub open spec fn frame_bytes(raw_len: nat, block: Seq<u8>) -> Seq<u8> {
    crate::le::le32(low32(raw_len)) + crate::le::le32(low32(block.len())) + block
}

/// The compressor succeeds on a batch of events.
pub open spec fn compresses(events: Seq<Event>) -> bool {
    zstd_compresses(encode_events(events), ZSTD_LEVEL)
}

/// The frame that stores a batch of events on which the compressor succeeds.
pub open spec fn frame_of(events: Seq<Event>) -> Seq<u8> {
    frame_bytes(
        events.len() * EVENT_SIZE as nat,
        zstd_compressed(encode_events(events), ZSTD_LEVEL)->0,
    )
}

/// `frame` holds `events` behind prefixes that are true to size.
pub open spec fn stores(frame: Seq<u8>, events: Seq<Event>) -> bool {
    let raw = encode_events(events);
    let block = frame.skip(8);
    &&& 8 <= frame.len()
    &&& frame == frame_bytes(raw.len(), block)
    &&& raw.len() < 0x1_0000_0000
    &&& raw.len() <= isize::MAX
    &&& block.len() < 0x1_0000_0000
    &&& zstd_decompressed(block, raw.len()) == Some(raw)
}

/// How much content a reader makes room for: what the prefix says, as far as a
/// buffer can be that long.
pub open spec fn content_limit(raw_len: u32) -> nat {
    if raw_len > isize::MAX {
        isize::MAX as nat
    } else {
        raw_len as nat
    }
}

/// The frame that starts at `pos`, if a whole and sound one does: its events,
/// and where the next frame starts.
pub open spec fn frame_at(buf: Seq<u8>, pos: int) -> Option<(Seq<Event>, int)> {
    if pos + 8 > buf.len() {
        None
    } else {
        let raw_len = crate::le::value32(buf, pos);
        let block_len = crate::le::value32(buf, pos + 4);
        let next = pos + 8 + block_len;
        if next > buf.len() {
            None
        } else {
            match zstd_decompressed(buf.subrange(pos + 8, next), content_limit(raw_len)) {
                Some(raw) => Some((decode_events(raw), next)),
                None => None,
            }
        }
    }
}

/// What reading frame after frame yields.
#[verifier::ext_equal]
pub struct FramesRead {
    /// The events of every frame read, in order.
    pub events: Seq<Event>,
    /// How many frames were read.
    pub frames: nat,
    /// Where reading stopped: behind the last sound frame.
    pub end: int,
}

/// Reads frames from `pos` on, up to the first that is torn or unsound.
pub open spec fn read_frames(buf: Seq<u8>, pos: int) -> FramesRead
    decreases buf.len() - pos,
{
    match frame_at(buf, pos) {
        None => FramesRead { events: seq![], frames: 0, end: pos },
        Some((events, next)) => {
            let rest = read_frames(buf, next);
            FramesRead { events: events + rest.events, frames: 1 + rest.frames, end: rest.end }
        },
    }
}

/// `buf` starts as a segment does.
pub open spec fn has_magic(buf: Seq<u8>) -> bool {
    HEADER_LEN <= buf.len() && buf.take(8) == MAGIC@
}

/// `buf` is a segment whose events have the size that this library stores.
pub open spec fn is_segment(buf: Seq<u8>) -> bool {
    has_magic(buf) && crate::le::value32(buf, 12) == EVENT_SIZE
}

// ---- errors -------------------------------------------------------------------------

/// Why bytes could not be read as a segment, or events not be stored in one.
#[derive(Clone, Copy, Debug, PartialEq, Eq, Structural)]
pub enum SegmentError {
    /// The bytes do not start as a segment does.
    NotASegment,
    /// The segment stores events of another size.
    EventSize(u32),
    /// The compressor failed.
    Compression,
}

impl SegmentError {
    /// The error in words.
    pub open spec fn message_spec(self) -> Seq<char> {
        match self {
            SegmentError::NotASegment => "not a MouseProfiler segment"@,
            SegmentError::EventSize(n) => "segment uses "@ + crate::text::decimal(n as nat)
                + "-byte events, this build expects "@ + crate::text::decimal(EVENT_SIZE as nat),
            SegmentError::Compression => "could not compress a frame"@,
        }
    }

    /// The error in words.
    pub fn message(&self) -> (s: String)
        ensures
            s@ == self.message_spec(),
    {
        match self {
            SegmentError::NotASegment => "not a MouseProfiler segment".to_owned(),
            SegmentError::EventSize(n) => {
                let mut s = "segment uses ".to_owned();
                push_decimal(&mut s, *n as u64);
                s.append("-byte events, this build expects ");
                push_decimal(&mut s, EVENT_SIZE as u64);
                s
            },
            SegmentError::Compression => "could not compress a frame".to_owned(),
        }
    }
}

// ---- writing --------------------------------------------------------------------------

/// One batch of events in its stored form, not yet known to be on disk.
struct Staged {
    events: u64,
    bytes: u64,
}

/// The state of a segment being written.
///
/// The bytes themselves go to disk outside: `create` and `write_frame` say which
/// bytes to append, `commit` takes note of whether they were.
pub struct SegmentWriter {
    path: String,
    events_written: u64,
    bytes_written: u64,
    frames: u64,
    staged: Option<Staged>,
}

/// The header that a segment's file starts with.
pub fn segment_header() -> (hdr: Vec<u8>)
    ensures
        hdr@ == header_bytes(),
{
    let mut hdr: Vec<u8> = Vec::new();
    let mut i: usize = 0;
    while i < 8
        invariant
            i <= 8,
            hdr@ == MAGIC@.take(i as int),
        decreases 8 - i,
    {
        hdr.push(MAGIC[i]);
        i = i + 1;
        assert(hdr@ =~= MAGIC@.take(i as int));
    }
    assert(MAGIC@.take(8) =~= MAGIC@);
    push32(&mut hdr, FORMAT_VERSION);
    push32(&mut hdr, EVENT_SIZE as u32);
    let ghost start = hdr@;
    let mut k: usize = 0;
    while k < 16
        invariant
            k <= 16,
            hdr@ == start + Seq::new(k as nat, |i: int| 0u8),
        decreases 16 - k,
    {
        hdr.push(0);
        k = k + 1;
        assert(hdr@ =~= start + Seq::new(k as nat, |i: int| 0u8));
    }
    assert(hdr@ =~= header_bytes());
    hdr
}

impl SegmentWriter {
    pub closed spec fn path_spec(&self) -> Seq<char> {
        self.path@
    }

    /// Events in the frames committed.
    pub closed spec fn events_spec(&self) -> nat {
        self.events_written as nat
    }

    /// Bytes in the header and in the frames committed.
    pub closed spec fn bytes_spec(&self) -> nat {
        self.bytes_written as nat
    }

    /// Frames committed.
    pub closed spec fn frames_spec(&self) -> nat {
        self.frames as nat
    }

    /// Events and bytes of the frame handed out and not yet committed.
    pub closed spec fn staged_spec(&self) -> Option<(nat, nat)> {
        match self.staged {
            Some(s) => Some((s.events as nat, s.bytes as nat)),
            None => None,
        }
    }

    /// Starts a segment. The second result is the header to write to the file.
    pub fn create(path: String) -> (r: (Self, Vec<u8>))
        ensures
            r.0.path_spec() == path@,
            r.0.events_spec() == 0,
            r.0.bytes_spec() == HEADER_LEN,
            r.0.frames_spec() == 0,
            r.0.staged_spec() is None,
            r.1@ == header_bytes(),
    {
        let header = segment_header();
        let w = SegmentWriter {
            path,
            events_written: 0,
            bytes_written: HEADER_LEN as u64,
            frames: 0,
            staged: None,
        };
        (w, header)
    }

    /// Compresses one batch. The result is the frame to append to the file; it is
    /// empty for an empty batch, and counts only once it is committed.
    pub fn write_frame(&mut self, events: &[Event]) -> (r: Result<Vec<u8>, SegmentError>)
        requires
            compress_bound(events@.len() * EVENT_SIZE as nat) <= isize::MAX,
        ensures
            final(self).path_spec() == old(self).path_spec(),
            final(self).events_spec() == old(self).events_spec(),
            final(self).bytes_spec() == old(self).bytes_spec(),
            final(self).frames_spec() == old(self).frames_spec(),
            r is Ok <==> events@.len() == 0 || compresses(events@),
            match r {
                Ok(frame) => if events@.len() == 0 {
                    &&& frame@.len() == 0
                    &&& final(self).staged_spec() is None
                } else {
                    let raw_len = events@.len() * EVENT_SIZE as nat;
                    &&& frame@ == frame_of(events@)
                    &&& raw_len < 0x1_0000_0000 && frame@.len() - 8 < 0x1_0000_0000 ==> stores(
                        frame@,
                        events@,
                    )
                    &&& frame@.len() <= 8 + compress_bound(raw_len)
                    &&& final(self).staged_spec() == Some((events@.len(), frame@.len()))
                },
                Err(e) => e == SegmentError::Compression && final(self).staged_spec() is None,
            },
    {
        if events.len() == 0 {
            self.staged = None;
            return Ok(Vec::new());
        }
        let raw = encode(events);
        let block = match zstd::bulk::compress(raw.as_slice(), ZSTD_LEVEL) {
            Ok(c) => Some(c),
            Err(_) => None,
        };
        let ghost made = block;
        let r = self.stage(events.len(), block);
        assert(made matches Some(b) ==> r->Ok_0@.skip(8) =~= b@);
        r
    }

    /// Puts the lengths in front of the compressed block of so many events, if the
    /// compressor made one. The result is the frame to append to the file.
    pub fn stage(&mut self, events: usize, block: Option<Vec<u8>>) -> (r: Result<
        Vec<u8>,
        SegmentError,
    >)
        requires
            events * EVENT_SIZE <= usize::MAX,
        ensures
            final(self).path_spec() == old(self).path_spec(),
            final(self).events_spec() == old(self).events_spec(),
            final(self).bytes_spec() == old(self).bytes_spec(),
            final(self).frames_spec() == old(self).frames_spec(),
            match block {
                Some(b) => {
                    &&& r matches Ok(frame) && frame@ == frame_bytes(
                        events as nat * EVENT_SIZE as nat,
                        b@,
                    )
                    &&& final(self).staged_spec() == Some((events as nat, 8 + b@.len()))
                },
                None => {
                    &&& r == Err::<Vec<u8>, SegmentError>(SegmentError::Compression)
                    &&& final(self).staged_spec() is None
                },
            },
    {
        self.staged = None;
        let block = match block {
            Some(b) => b,
            None => {
                return Err(SegmentError::Compression);
            },
        };
        let mut frame: Vec<u8> = Vec::new();
        let raw_len: usize = events * EVENT_SIZE;
        let block_len: usize = block.len();
        push32(&mut frame, (raw_len as u64 % 0x1_0000_0000) as u32);
        push32(&mut frame, (block_len as u64 % 0x1_0000_0000) as u32);
        let ghost prefix = frame@;
        let mut i: usize = 0;
        while i < block_len
            invariant
                i <= block_len == block@.len(),
                frame@ == prefix + block@.take(i as int),
            decreases block_len - i,
        {
            frame.push(block[i]);
            i = i + 1;
            assert(frame@ =~= prefix + block@.take(i as int));
        }
        assert(block@.take(block_len as int) =~= block@);
        assert(frame@ =~= frame_bytes(events as nat * EVENT_SIZE as nat, block@));
        self.staged = Some(Staged { events: events as u64, bytes: frame.len() as u64 });
        Ok(frame)
    }

    /// Whether the totals have room for the frame handed out, with so many events
    /// counted elsewhere.
    pub fn has_room(&self, carried: u64) -> (r: bool)
        ensures
            r == (self.staged_spec() matches Some((events, bytes)) ==> {
                &&& carried + self.events_spec() + events <= u64::MAX
                &&& self.bytes_spec() + bytes <= u64::MAX
                &&& self.frames_spec() + 1 <= u64::MAX
            }),
    {
        match &self.staged {
            None => true,
            Some(s) => {
                let events: u128 = carried as u128 + self.events_written as u128 + s.events as u128;
                let bytes: u128 = self.bytes_written as u128 + s.bytes as u128;
                events <= u64::MAX as u128 && bytes <= u64::MAX as u128 && self.frames < u64::MAX
            },
        }
    }

    /// Takes note of whether the frame last handed out was appended to the file.
    /// Only a frame that was written counts.
    pub fn commit(&mut self, written: bool)
        requires
            old(self).staged_spec() matches Some((events, bytes)) ==> {
                &&& old(self).events_spec() + events <= u64::MAX
                &&& old(self).bytes_spec() + bytes <= u64::MAX
                &&& old(self).frames_spec() + 1 <= u64::MAX
            },
        ensures
            final(self).path_spec() == old(self).path_spec(),
            final(self).staged_spec() is None,
            match old(self).staged_spec() {
                Some((events, bytes)) if written => {
                    &&& final(self).events_spec() == old(self).events_spec() + events
                    &&& final(self).bytes_spec() == old(self).bytes_spec() + bytes
                    &&& final(self).frames_spec() == old(self).frames_spec() + 1
                },
                _ => {
                    &&& final(self).events_spec() == old(self).events_spec()
                    &&& final(self).bytes_spec() == old(self).bytes_spec()
                    &&& final(self).frames_spec() == old(self).frames_spec()
                },
            },
    {
        let staged = self.staged.take();
        if let Some(s) = staged {
            if written {
                self.events_written = self.events_written + s.events;
                self.bytes_written = self.bytes_written + s.bytes;
                self.frames = self.frames + 1;
            }
        }
    }

    pub fn events_written(&self) -> (n: u64)
        ensures
            n == self.events_spec(),
    {
        self.events_written
    }

    pub fn bytes_written(&self) -> (n: u64)
        ensures
            n == self.bytes_spec(),
    {
        self.bytes_written
    }

    pub fn frames(&self) -> (n: u64)
        ensures
            n == self.frames_spec(),
    {
        self.frames
    }

    pub fn path(&self) -> (p: &str)
        ensures
            p@ == self.path_spec(),
    {
        self.path.as_str()
    }
}

/// The events, each in its stored form, one after another.
fn encode(events: &[Event]) -> (raw: Vec<u8>)
    ensures
        raw@ == encode_events(events@),
{
    let mut raw: Vec<u8> = Vec::new();
    let mut i: usize = 0;
    assert(raw@ =~= encode_events(events@.take(0)));
    while i < events.len()
        invariant
            i <= events@.len(),
            raw@ == encode_events(events@.take(i as int)),
        decreases events@.len() - i,
    {
        let b = events[i].to_bytes();
        let ghost before = raw@;
        let mut k: usize = 0;
        while k < EVENT_SIZE
            invariant
                k <= EVENT_SIZE,
                b@.len() == EVENT_SIZE,
                raw@ == before + b@.take(k as int),
            decreases EVENT_SIZE - k,
        {
            raw.push(b[k]);
            k = k + 1;
            assert(raw@ =~= before + b@.take(k as int));
        }
        proof {
            lemma_encode_push(events@.take(i as int), events@[i as int]);
            assert(events@.take(i as int).push(events@[i as int]) =~= events@.take(i + 1));
            assert(b@.take(EVENT_SIZE as int) =~= b@);
        }
        i = i + 1;
    }
    assert(events@.take(events@.len() as int) =~= events@);
    raw
}

proof fn lemma_encode_push(events: Seq<Event>, e: Event)
    ensures
        encode_events(events.push(e)) == encode_events(events) + e.encoded(),
        e.encoded().len() == EVENT_SIZE,
{
    let a = encode_events(events.push(e));
    let b = encode_events(events) + e.encoded();
    let n = events.len() * EVENT_SIZE;
    assert(a.len() == b.len());
    assert forall|i: int| 0 <= i < a.len() implies a[i] == b[i] by {
        if i >= n {
            assert(i / EVENT_SIZE as int == events.len());
            assert(i % EVENT_SIZE as int == i - n);
        }
    }
    assert(a =~= b);
}

// ---- reading --------------------------------------------------------------------------

/// What a segment holds.
///
/// Reading stops cleanly at the first torn frame, because a truncated tail is the
/// expected shape of a segment from a session that ended in a crash. `truncated`
/// says whether that happened, so that partial data is never mistaken for
/// complete data.
#[derive(Debug)]
pub struct SegmentReader {
    pub events: Vec<Event>,
    pub truncated: bool,
    pub frames: u64,
}

/// Reads the bytes of a segment file.
pub fn read_segment(buf: &[u8]) -> (r: Result<SegmentReader, SegmentError>)
    ensures
        match r {
            Ok(s) => {
                let read = read_frames(buf@, HEADER_LEN as int);
                &&& is_segment(buf@)
                &&& s.events@ == read.events
                &&& s.frames == read.frames
                &&& s.truncated == (read.end < buf@.len())
            },
            Err(SegmentError::NotASegment) => !has_magic(buf@),
            Err(SegmentError::EventSize(n)) => {
                &&& has_magic(buf@)
                &&& n == crate::le::value32(buf@, 12)
                &&& n != EVENT_SIZE
            },
            Err(SegmentError::Compression) => false,
        },
{
    if buf.len() < HEADER_LEN {
        return Err(SegmentError::NotASegment);
    }
    let mut k: usize = 0;
    while k < 8
        invariant
            k <= 8,
            HEADER_LEN <= buf@.len(),
            forall|j: int| 0 <= j < k ==> buf@[j] == MAGIC@[j],
        decreases 8 - k,
    {
        if buf[k] != MAGIC[k] {
            assert(buf@.take(8)[k as int] != MAGIC@[k as int]);
            return Err(SegmentError::NotASegment);
        }
        k = k + 1;
    }
    assert(buf@.take(8) =~= MAGIC@);
    let event_size: u32 = read32(buf, 12);
    if event_size != EVENT_SIZE as u32 {
        return Err(SegmentError::EventSize(event_size));
    }
    let mut events: Vec<Event> = Vec::new();
    let mut pos: usize = HEADER_LEN;
    let mut frames: u64 = 0;
    let mut whole = true;
    let len: usize = buf.len();
    assert(events@ + read_frames(buf@, pos as int).events =~= read_frames(
        buf@,
        pos as int,
    ).events);
    while whole && len - pos >= 8
        invariant
            HEADER_LEN <= pos <= len == buf@.len(),
            8 * frames <= pos,
            events@ + read_frames(buf@, pos as int).events == read_frames(
                buf@,
                HEADER_LEN as int,
            ).events,
            frames + read_frames(buf@, pos as int).frames == read_frames(
                buf@,
                HEADER_LEN as int,
            ).frames,
            read_frames(buf@, pos as int).end == read_frames(buf@, HEADER_LEN as int).end,
            !whole ==> frame_at(buf@, pos as int) is None && pos + 8 <= len,
        decreases len - pos,
            if whole {
                1nat
            } else {
                0
            },
    {
        let raw_len: u32 = read32(buf, pos);
        let block_len: u32 = read32(buf, pos + 4);
        if block_len as usize > len - pos - 8 {
            whole = false;
        } else {
            let next: usize = pos + 8 + block_len as usize;
            let limit: usize = if raw_len as u64 > isize::MAX as u64 {
                isize::MAX as usize
            } else {
                raw_len as usize
            };
            match zstd::bulk::decompress(&buf[pos + 8..next], limit) {
                Ok(raw) => {
                    assert(frame_at(buf@, pos as int) == Some(
                        (decode_events(raw@), next as int),
                    ));
                    let ghost before = events@;
                    decode_into(&mut events, raw.as_slice());
                    assert(events@ + read_frames(buf@, next as int).events =~= before
                        + read_frames(buf@, pos as int).events);
                    pos = next;
                    frames = frames + 1;
                },
                Err(_) => {
                    whole = false;
                },
            }
        }
    }
    assert(events@ =~= read_frames(buf@, HEADER_LEN as int).events);
    let truncated = pos < len;
    Ok(SegmentReader { events, truncated, frames })
}

/// Appends the events stored in `raw`.
fn decode_into(events: &mut Vec<Event>, raw: &[u8])
    ensures
        final(events)@ == old(events)@ + decode_events(raw@),
{
    let mut pos: usize = 0;
    let ghost mut n: int = 0;
    let len: usize = raw.len();
    while len - pos >= EVENT_SIZE
        invariant
            len == raw@.len(),
            0 <= pos <= len,
            0 <= n,
            pos == n * EVENT_SIZE,
            events@ == old(events)@ + decode_events(raw@).take(n),
            n <= raw@.len() / EVENT_SIZE as nat,
        decreases len - pos,
    {
        events.push(Event::from_bytes_at(raw, pos));
        pos = pos + EVENT_SIZE;
        proof {
            n = n + 1;
            assert(events@ =~= old(events)@ + decode_events(raw@).take(n));
        }
    }
    assert(decode_events(raw@).take(n) =~= decode_events(raw@));
}

// ---- laws -----------------------------------------------------------------------------

/// The sequences one after another.
pub open spec fn concatenated<A>(parts: Seq<Seq<A>>) -> Seq<A>
    decreases parts.len(),
{
    if parts.len() == 0 {
        seq![]
    } else {
        parts[0] + concatenated(parts.skip(1))
    }
}

/// The file that holds these frames.
pub open spec fn file_of(frames: Seq<Seq<u8>>) -> Seq<u8> {
    header_bytes() + concatenated(frames)
}

/// Where in the file the first `k` frames end.
pub open spec fn boundary(frames: Seq<Seq<u8>>, k: int) -> int {
    HEADER_LEN + concatenated(frames.take(k)).len()
}

/// Frame by frame, `frames` store `batches`.
pub open spec fn all_store(frames: Seq<Seq<u8>>, batches: Seq<Seq<Event>>) -> bool {
    &&& frames.len() == batches.len()
    &&& forall|i: int| 0 <= i < frames.len() ==> #[trigger] stores(frames[i], batches[i])
}

/// Events come back from their stored form unchanged and in order.
pub proof fn law_stored_events_read_back(events: Seq<Event>)
    ensures
        decode_events(encode_events(events)) == events,
{
    let raw = encode_events(events);
    let back = decode_events(raw);
    assert(back.len() == events.len());
    assert forall|i: int| 0 <= i < events.len() implies back[i] == events[i] by {
        let at = i * EVENT_SIZE;
        assert(events[i].encoded().len() == EVENT_SIZE);
        assert forall|j: int| 0 <= j < EVENT_SIZE implies raw[at + j] == events[i].encoded()[j] by {
            assert((at + j) / EVENT_SIZE as int == i);
            assert((at + j) % EVENT_SIZE as int == j);
        }
        assert(raw.subrange(at, at + EVENT_SIZE) =~= events[i].encoded());
        crate::event::law_stored_event_reads_back(events[i], raw, at);
    }
    assert(back =~= events);
}

/// The two prefixes of a frame are read as the lengths that they give.
proof fn lemma_prefixes(buf: Seq<u8>, pos: int, raw_len: nat, block: Seq<u8>)
    requires
        0 <= pos,
        pos + 8 <= buf.len(),
        buf.subrange(pos, pos + 8) == frame_bytes(raw_len, block).take(8),
    ensures
        crate::le::value32(buf, pos) == low32(raw_len),
        crate::le::value32(buf, pos + 4) == low32(block.len()),
{
    let a = crate::le::le32(low32(raw_len));
    let b = crate::le::le32(low32(block.len()));
    let head = buf.subrange(pos, pos + 8);
    assert(a.len() == 4 && b.len() == 4);
    assert(head =~= a + b);
    assert(buf.subrange(pos, pos + 4) =~= head.take(4));
    assert(head.take(4) =~= a);
    assert(buf.subrange(pos + 4, pos + 8) =~= head.skip(4));
    assert(head.skip(4) =~= b);
    crate::le::lemma_le32(buf, pos, low32(raw_len));
    crate::le::lemma_le32(buf, pos + 4, low32(block.len()));
}

/// A stored frame is read as the batch that it stores.
#[verifier::spinoff_prover]
#[verifier::rlimit(30)]
proof fn lemma_stored_frame(buf: Seq<u8>, pos: int, frame: Seq<u8>, events: Seq<Event>)
    requires
        0 <= pos,
        pos + frame.len() <= buf.len(),
        buf.subrange(pos, pos + frame.len()) == frame,
        stores(frame, events),
    ensures
        frame_at(buf, pos) == Some((events, pos + frame.len())),
        frame.len() >= 8,
{
    let raw = encode_events(events);
    let block = frame.skip(8);
    assert(crate::le::value32(buf, pos) == raw.len() && crate::le::value32(buf, pos + 4)
        == block.len()) by {
        let whole = buf.subrange(pos, pos + frame.len());
        assert(buf.subrange(pos, pos + 8) =~= whole.take(8));
        lemma_prefixes(buf, pos, raw.len(), block);
    }
    assert(buf.subrange(pos + 8, pos + 8 + block.len()) == block) by {
        let whole = buf.subrange(pos, pos + frame.len());
        assert(buf.subrange(pos + 8, pos + 8 + block.len()) =~= whole.skip(8));
    }
    assert(decode_events(raw) == events) by {
        law_stored_events_read_back(events);
    }
}

/// A stored frame that was cut short is not read at all.
proof fn lemma_cut_frame(buf: Seq<u8>, pos: int, frame: Seq<u8>, events: Seq<Event>)
    requires
        0 <= pos <= buf.len() < pos + frame.len(),
        buf.skip(pos) == frame.take(buf.len() - pos),
        stores(frame, events),
    ensures
        frame_at(buf, pos) is None,
{
    if pos + 8 <= buf.len() {
        let block = frame.skip(8);
        assert(buf.subrange(pos, pos + 8) =~= buf.skip(pos).take(8));
        assert(frame.take(buf.len() - pos).take(8) =~= frame.take(8));
        lemma_prefixes(buf, pos, encode_events(events).len(), block);
    }
}

/// Reading stored frames that stand one after another yields their batches, and
/// then whatever reading on from behind them yields.
proof fn lemma_frames_read(
    buf: Seq<u8>,
    pos: int,
    frames: Seq<Seq<u8>>,
    batches: Seq<Seq<Event>>,
    tail: Seq<u8>,
)
    requires
        0 <= pos <= buf.len(),
        buf.skip(pos) == concatenated(frames) + tail,
        all_store(frames, batches),
    ensures
        ({
            let rest = read_frames(buf, pos + concatenated(frames).len());
            read_frames(buf, pos) == (FramesRead {
                events: concatenated(batches) + rest.events,
                frames: frames.len() + rest.frames,
                end: rest.end,
            })
        }),
        pos + concatenated(frames).len() + tail.len() == buf.len(),
        buf.skip(pos + concatenated(frames).len()) == tail,
    decreases frames.len(),
{
    assert(buf.skip(pos).len() == buf.len() - pos);
    if frames.len() == 0 {
        let rest = read_frames(buf, pos);
        assert(concatenated(batches) + rest.events =~= rest.events);
        assert(buf.skip(pos) =~= tail);
    } else {
        let first = frames[0];
        assert(stores(frames[0], batches[0]));
        let next = pos + first.len();
        assert(buf.skip(pos).take(first.len() as int) =~= first);
        assert(buf.subrange(pos, next) =~= buf.skip(pos).take(first.len() as int));
        lemma_stored_frame(buf, pos, first, batches[0]);
        assert(buf.skip(next) =~= buf.skip(pos).skip(first.len() as int));
        assert(buf.skip(next) =~= concatenated(frames.skip(1)) + tail);
        assert forall|i: int| 0 <= i < frames.skip(1).len() implies #[trigger] stores(
            frames.skip(1)[i],
            batches.skip(1)[i],
        ) by {
            assert(stores(frames[i + 1], batches[i + 1]));
        }
        lemma_frames_read(buf, next, frames.skip(1), batches.skip(1), tail);
        let rest = read_frames(buf, pos + concatenated(frames).len());
        assert(concatenated(batches) + rest.events =~= batches[0] + (concatenated(batches.skip(1))
            + rest.events));
    }
}

/// Bytes that start with the header are a segment.
proof fn lemma_header(buf: Seq<u8>)
    requires
        buf.len() >= HEADER_LEN,
        buf.take(HEADER_LEN as int) == header_bytes(),
    ensures
        is_segment(buf),
{
    let h = header_bytes();
    assert(MAGIC@.len() == 8);
    assert(h.len() == HEADER_LEN);
    assert(buf.take(8) =~= h.take(8));
    assert(h.take(8) =~= MAGIC@);
    assert(buf.subrange(12, 16) =~= h.subrange(12, 16));
    assert(h.subrange(12, 16) =~= crate::le::le32(EVENT_SIZE as u32));
    crate::le::lemma_le32(buf, 12, EVENT_SIZE as u32);
}

/// Reading a segment gives back every event that was written to it, in order,
/// and reports nothing lost.
pub proof fn law_written_segment_reads_back(frames: Seq<Seq<u8>>, batches: Seq<Seq<Event>>)
    requires
        all_store(frames, batches),
    ensures
        is_segment(file_of(frames)),
        read_frames(file_of(frames), HEADER_LEN as int) == (FramesRead {
            events: concatenated(batches),
            frames: frames.len(),
            end: file_of(frames).len() as int,
        }),
{
    let buf = file_of(frames);
    assert(header_bytes().len() == HEADER_LEN);
    assert(buf.take(HEADER_LEN as int) =~= header_bytes());
    lemma_header(buf);
    assert(buf.skip(HEADER_LEN as int) =~= concatenated(frames) + Seq::<u8>::empty());
    lemma_frames_read(buf, HEADER_LEN as int, frames, batches, seq![]);
    assert(frame_at(buf, buf.len() as int) is None);
    assert(concatenated(batches) + Seq::<Event>::empty() =~= concatenated(batches));
}

/// Whatever a crash leaves behind the frames that were written, those frames
/// still decode: damage never reaches backwards.
pub proof fn law_damage_behind_frames_leaves_them_readable(
    frames: Seq<Seq<u8>>,
    batches: Seq<Seq<Event>>,
    tail: Seq<u8>,
)
    requires
        all_store(frames, batches),
    ensures
        is_segment(file_of(frames) + tail),
        ({
            let read = read_frames(file_of(frames) + tail, HEADER_LEN as int);
            &&& concatenated(batches).is_prefix_of(read.events)
            &&& read.frames >= frames.len()
        }),
{
    let buf = file_of(frames) + tail;
    assert(header_bytes().len() == HEADER_LEN);
    assert(buf.take(HEADER_LEN as int) =~= header_bytes());
    lemma_header(buf);
    assert(buf.skip(HEADER_LEN as int) =~= concatenated(frames) + tail);
    lemma_frames_read(buf, HEADER_LEN as int, frames, batches, tail);
}

/// Taking one frame more moves the boundary by the length of that frame.
proof fn lemma_concatenated_take<A>(parts: Seq<Seq<A>>, k: int)
    requires
        0 <= k < parts.len(),
    ensures
        concatenated(parts.take(k + 1)) == concatenated(parts.take(k)) + parts[k],
    decreases k,
{
    if k == 0 {
        let one = parts.take(1);
        assert(one.skip(1) =~= seq![]);
        assert(concatenated(one.skip(1)) =~= seq![]);
        assert(concatenated(one) =~= one[0]);
        assert(concatenated(parts.take(0)) + parts[0] =~= parts[0]);
    } else {
        let rest = parts.skip(1);
        lemma_concatenated_take(rest, k - 1);
        assert(parts.take(k + 1).skip(1) =~= rest.take(k));
        assert(parts.take(k).skip(1) =~= rest.take(k - 1));
        assert(parts[0] + (concatenated(rest.take(k - 1)) + rest[k - 1]) =~= (parts[0]
            + concatenated(rest.take(k - 1))) + rest[k - 1]);
    }
}

/// The frames before the `k`-th, that frame, and those behind it make the whole.
proof fn lemma_concatenated_prefix<A>(parts: Seq<Seq<A>>, k: int)
    requires
        0 <= k <= parts.len(),
    ensures
        concatenated(parts.take(k)).len() <= concatenated(parts).len(),
        concatenated(parts.take(k)) == concatenated(parts).take(
            concatenated(parts.take(k)).len() as int,
        ),
    decreases parts.len() - k,
{
    if k == parts.len() {
        assert(parts.take(k) =~= parts);
        assert(concatenated(parts).take(concatenated(parts).len() as int) =~= concatenated(parts));
    } else {
        lemma_concatenated_take(parts, k);
        lemma_concatenated_prefix(parts, k + 1);
        let c = concatenated(parts.take(k));
        assert(concatenated(parts).take(c.len() as int) =~= concatenated(parts.take(k + 1)).take(
            c.len() as int,
        ));
        assert(c =~= concatenated(parts.take(k + 1)).take(c.len() as int));
    }
}

/// A position behind the header lies in exactly one frame, or at the very end.
proof fn lemma_frame_of_position(frames: Seq<Seq<u8>>, cut: int, upto: int) -> (k: int)
    requires
        0 <= upto <= frames.len(),
        HEADER_LEN <= cut <= boundary(frames, upto),
    ensures
        0 <= k <= upto,
        boundary(frames, k) <= cut,
        k < upto ==> cut < boundary(frames, k + 1),
    decreases upto,
{
    if upto == 0 {
        assert(frames.take(0) =~= seq![]);
        0
    } else if cut >= boundary(frames, upto - 1) {
        if cut == boundary(frames, upto) {
            upto
        } else {
            upto - 1
        }
    } else {
        lemma_frame_of_position(frames, cut, upto - 1)
    }
}

/// A torn tail costs one frame, not the file. Cut a segment anywhere behind its
/// header: the frames that lie wholly before the cut are read back exactly, no
/// event is made up, and the loss is reported unless the cut falls between two
/// frames.
pub proof fn law_torn_tail_costs_one_frame(
    frames: Seq<Seq<u8>>,
    batches: Seq<Seq<Event>>,
    cut: int,
)
    requires
        all_store(frames, batches),
        HEADER_LEN <= cut <= file_of(frames).len(),
    ensures
        is_segment(file_of(frames).take(cut)),
        exists|k: int|
            #![trigger boundary(frames, k)]
            {
                &&& 0 <= k <= frames.len()
                &&& boundary(frames, k) <= cut
                &&& k < frames.len() ==> cut < boundary(frames, k + 1)
                &&& read_frames(file_of(frames).take(cut), HEADER_LEN as int) == (FramesRead {
                    events: concatenated(batches.take(k)),
                    frames: k as nat,
                    end: boundary(frames, k),
                })
            },
{
    assert(frames.take(frames.len() as int) =~= frames);
    assert(header_bytes().len() == HEADER_LEN);
    let whole = file_of(frames);
    let k = lemma_frame_of_position(frames, cut, frames.len() as int);
    let buf = whole.take(cut);
    let kept = frames.take(k);
    let tail = buf.skip(boundary(frames, k));
    lemma_concatenated_prefix(frames, k);
    assert(buf.take(HEADER_LEN as int) =~= header_bytes());
    lemma_header(buf);
    assert(buf.skip(HEADER_LEN as int) =~= concatenated(kept) + tail);
    assert(all_store(kept, batches.take(k))) by {
        assert forall|i: int| 0 <= i < kept.len() implies #[trigger] stores(
            kept[i],
            batches.take(k)[i],
        ) by {
            assert(stores(frames[i], batches[i]));
        }
    }
    lemma_frames_read(buf, HEADER_LEN as int, kept, batches.take(k), tail);
    let at = boundary(frames, k);
    assert(frame_at(buf, at) is None) by {
        if k < frames.len() {
            let frame = frames[k];
            assert(stores(frames[k], batches[k]));
            lemma_concatenated_take(frames, k);
            lemma_concatenated_prefix(frames, k + 1);
            let upto = concatenated(frames.take(k + 1));
            assert forall|i: int| 0 <= i < buf.len() - at implies buf.skip(at)[i] == frame.take(
                buf.len() - at,
            )[i] by {
                assert(concatenated(frames)[at - HEADER_LEN + i] == upto[at - HEADER_LEN + i]);
            }
            assert(buf.skip(at) =~= frame.take(buf.len() - at));
            lemma_cut_frame(buf, at, frame, batches[k]);
        }
    }
    assert(concatenated(batches.take(k)) + Seq::<Event>::empty() =~= concatenated(
        batches.take(k),
    ));
}

/// Those of the sequences that are not empty.
pub open spec fn nonempty<A>(parts: Seq<Seq<A>>) -> Seq<Seq<A>>
    decreases parts.len(),
{
    if parts.len() == 0 {
        seq![]
    } else if parts.last().len() == 0 {
        nonempty(parts.drop_last())
    } else {
        nonempty(parts.drop_last()).push(parts.last())
    }
}

/// Batch by batch, `frames` is what was appended to the file: a frame that stores the
/// batch, or nothing for an empty one.
pub open spec fn all_appended(frames: Seq<Seq<u8>>, batches: Seq<Seq<Event>>) -> bool {
    &&& frames.len() == batches.len()
    &&& forall|i: int|
        0 <= i < frames.len() ==> if (#[trigger] batches[i]).len() == 0 {
            frames[i].len() == 0
        } else {
            stores(frames[i], batches[i])
        }
}

proof fn lemma_nonempty_concatenated<A>(parts: Seq<Seq<A>>)
    ensures
        concatenated(nonempty(parts)) == concatenated(parts),
    decreases parts.len(),
{
    if parts.len() > 0 {
        let n = parts.len() - 1;
        let earlier = parts.drop_last();
        lemma_nonempty_concatenated(earlier);
        lemma_concatenated_take(parts, n);
        assert(parts.take(n) =~= earlier);
        assert(parts.take(n + 1) =~= parts);
        if parts.last().len() == 0 {
            assert(concatenated(parts) =~= concatenated(earlier));
        } else {
            let kept = nonempty(earlier);
            let all = nonempty(parts);
            lemma_concatenated_take(all, kept.len() as int);
            assert(all.take(kept.len() as int) =~= kept);
            assert(all.take(all.len() as int) =~= all);
        }
    }
}

/// Empty batches leave no trace in a file: it is that of the other batches alone, whose
/// frames it holds.
pub proof fn law_empty_batches_write_nothing(frames: Seq<Seq<u8>>, batches: Seq<Seq<Event>>)
    requires
        all_appended(frames, batches),
    ensures
        all_store(nonempty(frames), nonempty(batches)),
        file_of(nonempty(frames)) == file_of(frames),
        concatenated(nonempty(batches)) == concatenated(batches),
    decreases frames.len(),
{
    lemma_nonempty_concatenated(frames);
    lemma_nonempty_concatenated(batches);
    if frames.len() > 0 {
        let f = frames.drop_last();
        let b = batches.drop_last();
        assert forall|i: int| 0 <= i < f.len() implies if (#[trigger] b[i]).len() == 0 {
            f[i].len() == 0
        } else {
            stores(f[i], b[i])
        } by {
            assert(batches[i] == b[i]);
        }
        law_empty_batches_write_nothing(f, b);
        assert(batches.last() == batches[batches.len() - 1]);
        if batches.last().len() > 0 {
            assert(frames.last().len() >= 8);
            let x = nonempty(frames);
            let y = nonempty(batches);
            assert forall|i: int| 0 <= i < x.len() implies #[trigger] stores(x[i], y[i]) by {
                if i < nonempty(f).len() {
                    assert(stores(nonempty(f)[i], nonempty(b)[i]));
                }
            }
        }
    }
}

/// Reading a segment gives back the events of all batches that were written to it, empty
/// ones among them, in order, as many frames as batches that were not empty, and reports
/// nothing lost.
pub proof fn law_written_batches_read_back(frames: Seq<Seq<u8>>, batches: Seq<Seq<Event>>)
    requires
        all_appended(frames, batches),
    ensures
        is_segment(file_of(frames)),
        read_frames(file_of(frames), HEADER_LEN as int) == (FramesRead {
            events: concatenated(batches),
            frames: nonempty(batches).len(),
            end: file_of(frames).len() as int,
        }),
{
    law_empty_batches_write_nothing(frames, batches);
    law_written_segment_reads_back(nonempty(frames), nonempty(batches));
}

/// A segment starts with eight bytes that tell it apart, the version of the format and the
/// size of an event, 32 bytes in all.
pub proof fn law_a_segment_tells_what_it_is()
    ensures
        header_bytes().len() == 32,
        header_bytes().take(8) == seq![0x4Du8, 0x50u8, 0x53u8, 0x45u8, 0x47u8, 0u8, 0u8, 1u8],
        crate::le::value32(header_bytes(), 8) == 1,
        crate::le::value32(header_bytes(), 12) == 32,
        is_segment(header_bytes()),
{
    let b = header_bytes();
    assert(b.take(8) =~= seq![0x4Du8, 0x50u8, 0x53u8, 0x45u8, 0x47u8, 0u8, 0u8, 1u8]);
    assert(b.take(8) =~= MAGIC@);
    assert(b.subrange(8, 12) =~= crate::le::le32(1));
    assert(b.subrange(12, 16) =~= crate::le::le32(32));
    crate::le::lemma_le32(b, 8, 1);
    crate::le::lemma_le32(b, 12, 32);
}

/// A frame starts with the size of its content and the size of its block, and the block
/// follows.
pub proof fn law_a_frame_tells_its_sizes(raw_len: nat, block: Seq<u8>)
    requires
        raw_len < 0x1_0000_0000,
        block.len() < 0x1_0000_0000,
    ensures
        frame_bytes(raw_len, block).len() == 8 + block.len(),
        crate::le::value32(frame_bytes(raw_len, block), 0) == raw_len,
        crate::le::value32(frame_bytes(raw_len, block), 4) == block.len(),
        frame_bytes(raw_len, block).skip(8) == block,
{
    let f = frame_bytes(raw_len, block);
    assert(f.subrange(0, 4) =~= crate::le::le32(raw_len as u32));
    assert(f.subrange(4, 8) =~= crate::le::le32(block.len() as u32));
    crate::le::lemma_le32(f, 0, raw_len as u32);
    crate::le::lemma_le32(f, 4, block.len() as u32);
    assert(f.skip(8) =~= block);
}

/// Every event takes 32 bytes, and reading stored bytes gives one event for each 32 of
/// them, the one that stands there.
pub proof fn law_events_are_stored_one_after_another(events: Seq<Event>, raw: Seq<u8>, i: int)
    ensures
        encode_events(events).len() == 32 * events.len(),
        decode_events(raw).len() == raw.len() / 32,
        0 <= i < raw.len() / 32 ==> decode_events(raw)[i] == Event::decoded(raw, 32 * i),
        0 <= i < events.len() ==> encode_events(events).subrange(32 * i, 32 * i + 32)
            == events[i].encoded(),
{
    if 0 <= i < events.len() {
        let e = encode_events(events);
        let part = e.subrange(32 * i, 32 * i + 32);
        assert forall|k: int| 0 <= k < 32 implies part[k] == #[trigger] events[i].encoded()[k] by {
            assert((32 * i + k) / 32 == i && (32 * i + k) % 32 == k);
        }
        assert(events[i].encoded().len() == 32);
        assert(part =~= events[i].encoded());
    }
}

/// A file is a segment just where it has room for a header, starts with the eight bytes
/// that tell it apart, and stores events of 32 bytes.
pub proof fn law_a_segment_is_told_by_its_header(buf: Seq<u8>)
    ensures
        has_magic(buf) <==> buf.len() >= 32 && buf.take(8) == seq![
            0x4Du8,
            0x50u8,
            0x53u8,
            0x45u8,
            0x47u8,
            0u8,
            0u8,
            1u8,
        ],
        is_segment(buf) <==> has_magic(buf) && crate::le::value32(buf, 12) == 32,
{
    assert(MAGIC@ =~= seq![0x4Du8, 0x50u8, 0x53u8, 0x45u8, 0x47u8, 0u8, 0u8, 1u8]);
}

/// Reading stops where no whole frame stands, and goes on behind one that does: its events
/// come first, then those of the rest.
pub proof fn law_frames_are_read_one_by_one(buf: Seq<u8>, pos: int)
    requires
        0 <= pos,
    ensures
        pos + 8 > buf.len() ==> read_frames(buf, pos).frames == 0 && read_frames(buf, pos).end
            == pos,
        frame_at(buf, pos) is None ==> read_frames(buf, pos).events.len() == 0 && read_frames(
            buf,
            pos,
        ).end == pos,
        frame_at(buf, pos) matches Some((events, next)) ==> {
            &&& pos + 8 <= next <= buf.len()
            &&& next == pos + 8 + crate::le::value32(buf, pos + 4)
            &&& read_frames(buf, pos).events == events + read_frames(buf, next).events
            &&& read_frames(buf, pos).frames == 1 + read_frames(buf, next).frames
            &&& read_frames(buf, pos).end == read_frames(buf, next).end
        },
{
}

} // verus!
