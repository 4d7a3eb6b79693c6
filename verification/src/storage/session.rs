//! Session lifecycle, metadata and crash recovery.
//!
//! One session is one directory. Everything needed to interpret the events in it
//! lives beside them: which mouse, which monitors, which pointer-ballistics
//! settings, which build of the program.
//!
//! A previous session that never wrote a clean shutdown is marked interrupted. It
//! is never repaired, truncated, merged or deleted: raw data is immutable even
//! when it is damaged.

use vstd::prelude::*;

use crate::clock::{
    day_part, iso8601_local, iso8601_utc, local_hour, local_offset_minutes, local_timezone_name,
    local_weekday_name, Clock, ZoneReading,
};
use crate::context::monitors::MonitorInfo;
use crate::input::ballistics::{text_from_bytes, Ballistics};
use crate::input::devices::DeviceInfo;
use crate::le::read32;
use crate::storage::segment::FORMAT_VERSION;
use crate::text::{
    chars_of, is_blank, parse_u32, push_decimal, push_hex4, push_zero_padded, replace,
};

verus! {

// ---- the machine ------------------------------------------------------------------------

/// Which machine, and which account on it, produced the data.
///
/// The same person behaves differently on a desktop with a gaming mouse and on a
/// laptop trackpad, so that a dataset that pools them without a machine label is
/// not analysable. `machine_guid` is the stable identity.
#[derive(Debug)]
pub struct OsInfo {
    pub version: String,
    pub computer_name: String,
    pub user_name: String,
    pub machine_guid: String,
}

/// What is read from the machine. A registry value is its type and its bytes,
/// where it could be read; a name is missing where the environment has none.
pub struct OsReading {
    pub product_name: Option<(u32, Vec<u8>)>,
    pub display_version: Option<(u32, Vec<u8>)>,
    pub current_build: Option<(u32, Vec<u8>)>,
    pub ubr: Option<(u32, Vec<u8>)>,
    pub machine_guid: Option<(u32, Vec<u8>)>,
    pub computer_name: Option<String>,
    pub user_name: Option<String>,
}

/// The most bytes read of a value that describes the machine.
pub const MAX_MACHINE_VALUE_BYTES: u32 = 4096;

/// The text of a value, and none where it could not be read.
pub open spec fn reg_text(value: Option<(u32, Vec<u8>)>) -> Seq<char> {
    match value {
        Some((_, b)) => crate::input::ballistics::text_of_bytes(b@),
        None => seq![],
    }
}

/// The number in a value of at least four bytes.
pub open spec fn reg_number(value: Option<(u32, Vec<u8>)>) -> Option<u32> {
    match value {
        Some((_, b)) if b@.len() >= 4 => Some(crate::le::value32(b@, 0)),
        _ => None,
    }
}

/// The characters, or none.
pub open spec fn or_empty(s: Option<String>) -> Seq<char> {
    match s {
        Some(t) => t@,
        None => seq![],
    }
}

/// The product's name. From build 22000 on, what calls itself Windows 10 is
/// Windows 11.
pub open spec fn product_spec(product: Seq<char>, build: Seq<char>) -> Seq<char> {
    if product.len() == 0 {
        "Windows"@
    } else if crate::text::parsed_u32(build) matches Some(b) && b >= 22_000 {
        crate::text::replaced(product, "Windows 10"@, "Windows 11"@)
    } else {
        product
    }
}

/// The version in words: name, release, and build with its revision, as far as
/// they are known.
pub open spec fn version_spec(
    product: Seq<char>,
    display: Seq<char>,
    build: Seq<char>,
    ubr: Option<u32>,
) -> Seq<char> {
    let release = if display.len() == 0 {
        seq![]
    } else {
        seq![' '] + display
    };
    let revision = match ubr {
        Some(u) => seq!['.'] + crate::text::decimal(u as nat),
        None => seq![],
    };
    let number = if build.len() == 0 {
        seq![]
    } else {
        " (build "@ + build + revision + seq![')']
    };
    product_spec(product, build) + release + number
}

impl OsInfo {
    /// What the readings say of the machine.
    pub fn probe(r: OsReading) -> (info: Self)
        ensures
            info.version@ == version_spec(
                reg_text(r.product_name),
                reg_text(r.display_version),
                reg_text(r.current_build),
                reg_number(r.ubr),
            ),
            info.computer_name@ == or_empty(r.computer_name),
            info.user_name@ == or_empty(r.user_name),
            info.machine_guid@ == reg_text(r.machine_guid),
    {
        let product = reg_sz(&r.product_name);
        let display = reg_sz(&r.display_version);
        let build = reg_sz(&r.current_build);
        let version = os_version_string(&product, &display, &build, reg_dword(&r.ubr));
        OsInfo {
            version,
            computer_name: match r.computer_name {
                Some(s) => s,
                None => String::new(),
            },
            user_name: match r.user_name {
                Some(s) => s,
                None => String::new(),
            },
            machine_guid: reg_sz(&r.machine_guid),
        }
    }
}

impl Default for OsInfo {
    fn default() -> (info: Self)
        ensures
            info.version@.len() == 0,
            info.computer_name@.len() == 0,
            info.user_name@.len() == 0,
            info.machine_guid@.len() == 0,
    {
        OsInfo {
            version: String::new(),
            computer_name: String::new(),
            user_name: String::new(),
            machine_guid: String::new(),
        }
    }
}

/// The version in words.
pub fn os_version_string(
    product: &String,
    display: &String,
    build: &String,
    ubr: Option<u32>,
) -> (out: String)
    ensures
        out@ == version_spec(product@, display@, build@, ubr),
{
    let mut out = if is_blank(product.as_str()) {
        "Windows".to_owned()
    } else {
        match parse_u32(build.as_str()) {
            Some(b) if b >= 22_000 => replace(product.as_str(), "Windows 10", "Windows 11"),
            _ => product.clone(),
        }
    };
    if !is_blank(display.as_str()) {
        out.push(' ');
        out.append(display.as_str());
    }
    if !is_blank(build.as_str()) {
        out.append(" (build ");
        out.append(build.as_str());
        if let Some(u) = ubr {
            out.push('.');
            push_decimal(&mut out, u as u64);
        }
        out.push(')');
    }
    assert(out@ =~= version_spec(product@, display@, build@, ubr));
    out
}

/// The text of a value, and none where it could not be read.
fn reg_sz(value: &Option<(u32, Vec<u8>)>) -> (s: String)
    ensures
        s@ == reg_text(*value),
{
    match value {
        Some((_, b)) => text_from_bytes(b.as_slice()),
        None => String::new(),
    }
}

/// The number in a value of at least four bytes.
fn reg_dword(value: &Option<(u32, Vec<u8>)>) -> (n: Option<u32>)
    ensures
        n == reg_number(*value),
{
    match value {
        Some((_, b)) => {
            if b.len() < 4 {
                None
            } else {
                Some(read32(b.as_slice(), 0))
            }
        },
        None => None,
    }
}

// ---- the header -------------------------------------------------------------------------

/// What a session says of itself.
#[derive(Debug)]
pub struct SessionHeader {
    pub session_id: String,
    pub app_version: String,
    pub format_version: u32,
    pub start_wall_utc: String,
    pub start_unix_ms: u64,
    /// Local wall clock with offset, e.g. `2026-09-20T16:07:59.457-04:00`.
    pub start_wall_local: String,
    pub utc_offset_minutes: i32,
    pub timezone: String,
    pub start_weekday: String,
    pub start_local_hour: u8,
    /// morning, afternoon, evening, night or late_night
    pub start_day_part: String,
    pub end_wall_utc: Option<String>,
    pub end_wall_local: Option<String>,
    pub end_unix_ms: Option<u64>,
    /// Ticks per second of the performance counter.
    pub qpc_frequency: i64,
    /// Wall-clock milliseconds corresponding to `t_ns == 0`. Event timestamps are
    /// relative to the process, so this is the anchor that makes them absolute:
    /// `wall_unix_ms = clock_origin_unix_ms + t_ns / 1_000_000`.
    pub clock_origin_unix_ms: u64,
    /// The `t_ns` at which this session began.
    pub session_start_t_ns: u64,
    pub devices: Vec<DeviceInfo>,
    pub monitors: Vec<MonitorInfo>,
    pub ballistics: Ballistics,
    pub os: OsInfo,
    /// Device reports received. One report can produce several events, so
    /// `events_written` is legitimately larger than this.
    pub reports_received: u64,
    pub events_written: u64,
    pub events_dropped: u64,
    /// When loss happened, not just how much.
    pub first_drop_t_ns: Option<u64>,
    pub last_drop_t_ns: Option<u64>,
    pub peak_queue_depth: u64,
    pub max_write_latency_us: u64,
    pub writer_errors: u64,
    /// False until the program has flushed everything and said so explicitly.
    pub clean_shutdown: bool,
    /// Set by a later run that found this session unclean.
    pub interrupted: bool,
    /// Why a new session was started.
    pub start_reason: String,
    pub segments: Vec<String>,
}

/// What is read from the machine when a session starts.
pub struct StartReading {
    pub now_ms: u64,
    pub process_id: u32,
    pub zone: ZoneReading,
    pub os: OsInfo,
    /// The version of the program.
    pub app_version: String,
    /// The names of the sessions that there are.
    pub taken: Vec<String>,
    /// What stands between the names in a path.
    pub separator: char,
}

impl StartReading {
    /// Local time can be told: the offset from UTC stays in range.
    pub open spec fn local_time_fits(&self) -> bool {
        self.zone.offset_fits_spec()
    }
}

/// The instant with every `:` and `.` made a `-`, so that it can name a directory.
pub open spec fn stamp_spec(unix_ms: u64) -> Seq<char> {
    crate::clock::civil_text(unix_ms as int).map_values(
        |c: char|
            if c == ':' || c == '.' {
                '-'
            } else {
                c
            },
    )
}

/// The name of a session that starts then in that process, where it is free.
pub open spec fn session_id_spec(unix_ms: u64, process_id: u32) -> Seq<char> {
    stamp_spec(unix_ms) + seq!['_'] + crate::text::hex4((process_id % 0x1_0000) as u16, false)
}

/// The name with a number behind it; the first goes without.
pub open spec fn numbered(name: Seq<char>, n: nat) -> Seq<char> {
    if n == 0 {
        name
    } else {
        name + seq!['-'] + crate::text::decimal(n)
    }
}

/// The name is one of those.
pub open spec fn is_taken(taken: Seq<String>, name: Seq<char>) -> bool {
    exists|i: int| 0 <= i < taken.len() && #[trigger] taken[i]@ == name
}

/// `id` is the first name that is free.
pub open spec fn names_session(
    id: Seq<char>,
    unix_ms: u64,
    process_id: u32,
    taken: Seq<String>,
) -> bool {
    let name = session_id_spec(unix_ms, process_id);
    &&& !is_taken(taken, id)
    &&& exists|n: nat| #[trigger] numbered(name, n) == id && all_taken(taken, name, n)
}

/// The first `n` names are taken.
pub open spec fn all_taken(taken: Seq<String>, name: Seq<char>, n: nat) -> bool {
    forall|m: nat| m < n ==> is_taken(taken, #[trigger] numbered(name, m))
}

/// Different numbers make different names.
proof fn lemma_numbers_differ(name: Seq<char>, a: nat, b: nat)
    requires
        a != b,
    ensures
        numbered(name, a) != numbered(name, b),
{
    crate::text::lemma_decimal_value(a);
    crate::text::lemma_decimal_value(b);
    let x = numbered(name, a);
    let y = numbered(name, b);
    if a > 0 {
        assert(x.skip(name.len() as int + 1) =~= crate::text::decimal(a));
    }
    if b > 0 {
        assert(y.skip(name.len() as int + 1) =~= crate::text::decimal(b));
    }
}

/// The name is one of those.
fn has_name(taken: &Vec<String>, name: &String) -> (r: bool)
    ensures
        r == is_taken(taken@, name@),
{
    let mut i: usize = 0;
    while i < taken.len()
        invariant
            i <= taken@.len(),
            forall|k: int| 0 <= k < i ==> #[trigger] taken@[k]@ != name@,
        decreases taken@.len() - i,
    {
        if taken[i] == *name {
            return true;
        }
        i = i + 1;
    }
    false
}

/// The name of a session: when it started, in a form that can name a directory, and a
/// short suffix, so that two that start in the same millisecond do not collide: one whose
/// name is among those taken gets a number behind it.
pub fn session_id(unix_ms: u64, process_id: u32, taken: &Vec<String>) -> (id: String)
    ensures
        names_session(id@, unix_ms, process_id, taken@),
        !is_taken(taken@, session_id_spec(unix_ms, process_id)) ==> id@ == session_id_spec(
            unix_ms,
            process_id,
        ),
{
    let name = first_name(unix_ms, process_id);
    if !has_name(taken, &name) {
        assert(numbered(name@, 0) == name@);
        assert(all_taken(taken@, name@, 0));
        return name;
    }
    let ghost all = crate::text::views(taken@);
    let ghost mut tried: Set<Seq<char>> = Set::empty().insert(name@);
    let total: usize = taken.len();
    let mut n: usize = 1;
    proof {
        all.lemma_cardinality_of_set();
        lemma_taken_name(taken@, name@);
        vstd::set_lib::lemma_len_subset(tried, all.to_set());
        assert(numbered(name@, 0) == name@);
    }
    loop
        invariant
            1 <= n <= total == taken@.len(),
            name@ == session_id_spec(unix_ms, process_id),
            is_taken(taken@, name@),
            all == crate::text::views(taken@),
            all.to_set().finite(),
            all.to_set().len() <= taken@.len(),
            tried.finite(),
            tried.len() == n,
            tried.subset_of(all.to_set()),
            forall|t: Seq<char>| #[trigger]
                tried.contains(t) ==> exists|m: nat| m < n && t == #[trigger] numbered(name@, m),
            all_taken(taken@, name@, n as nat),
        decreases taken@.len() - n,
    {
        let mut id = name.clone();
        id.push('-');
        push_decimal(&mut id, n as u64);
        assert(id@ =~= numbered(name@, n as nat));
        if !has_name(taken, &id) {
            return id;
        }
        proof {
            if tried.contains(id@) {
                let m = choose|m: nat| m < n && id@ == #[trigger] numbered(name@, m);
                lemma_numbers_differ(name@, m, n as nat);
            }
            lemma_taken_name(taken@, id@);
            let before = tried;
            tried = before.insert(id@);
            vstd::set_lib::lemma_len_subset(tried, all.to_set());
            assert forall|t: Seq<char>| #[trigger] tried.contains(t) implies exists|m: nat|
                m < n + 1 && t == #[trigger] numbered(name@, m) by {
                if t == id@ {
                    assert(t == numbered(name@, n as nat));
                } else {
                    assert(before.contains(t));
                }
            }
        }
        n = n + 1;
    }
}

proof fn lemma_taken_name(taken: Seq<String>, name: Seq<char>)
    requires
        is_taken(taken, name),
    ensures
        crate::text::views(taken).to_set().contains(name),
{
    let i = choose|i: int| 0 <= i < taken.len() && #[trigger] taken[i]@ == name;
    assert(crate::text::views(taken)[i] == name);
}

/// The name of a session where it is free.
fn first_name(unix_ms: u64, process_id: u32) -> (id: String)
    ensures
        id@ == session_id_spec(unix_ms, process_id),
{
    let iso = iso8601_utc(unix_ms);
    let chars = chars_of(iso.as_str());
    let ghost civil = crate::clock::civil_text(unix_ms as int);
    let mut id = String::new();
    let n: usize = chars.len() - 1;
    assert(chars@ == civil.push('Z'));
    let mut i: usize = 0;
    while i < n
        invariant
            i <= n == civil.len(),
            chars@ == civil.push('Z'),
            id@ == stamp_spec(unix_ms).take(i as int),
            civil == crate::clock::civil_text(unix_ms as int),
        decreases n - i,
    {
        let c: char = chars[i];
        assert(c == civil[i as int]);
        id.push(
            if c == ':' || c == '.' {
                '-'
            } else {
                c
            },
        );
        i = i + 1;
        assert(id@ =~= stamp_spec(unix_ms).take(i as int));
    }
    assert(stamp_spec(unix_ms).take(n as int) =~= stamp_spec(unix_ms));
    id.push('_');
    push_hex4(&mut id, (process_id % 0x1_0000) as u16, false);
    assert(id@ =~= session_id_spec(unix_ms, process_id));
    id
}

/// The path of `name` below `path`.
pub open spec fn joined(path: Seq<char>, separator: char, name: Seq<char>) -> Seq<char> {
    if path.len() == 0 || path.last() == separator || path.last() == '/' {
        path + name
    } else {
        path + seq![separator] + name
    }
}

/// The directory of the session with that name.
pub open spec fn session_dir_spec(root: Seq<char>, separator: char, id: Seq<char>) -> Seq<char> {
    joined(joined(root, separator, "sessions"@), separator, id)
}

/// The path of `name` below `path`.
fn join(path: &str, separator: char, name: &str) -> (r: String)
    ensures
        r@ == joined(path@, separator, name@),
{
    let chars = chars_of(path);
    let mut r = path.to_owned();
    let n: usize = chars.len();
    if n > 0 && chars[n - 1] != separator && chars[n - 1] != '/' {
        r.push(separator);
    }
    r.append(name);
    assert(r@ =~= joined(path@, separator, name@));
    r
}

/// The directory of the session with that name.
pub fn session_dir(root: &str, separator: char, id: &str) -> (dir: String)
    ensures
        dir@ == session_dir_spec(root@, separator, id@),
{
    let sessions = join(root, separator, "sessions");
    join(sessions.as_str(), separator, id)
}

/// The name of a session's segment file.
pub open spec fn segment_name_spec(index: u32) -> Seq<char> {
    "events-"@ + crate::text::zero_padded(index as nat, 4) + ".mpseg"@
}

/// The surroundings of a session: pointer settings, screens and mice.
pub struct Environment {
    pub ballistics: Ballistics,
    pub monitors: Vec<MonitorInfo>,
    pub devices: Vec<DeviceInfo>,
}

/// A session and the directory it lives in.
#[derive(Debug)]
pub struct Session {
    pub header: SessionHeader,
    pub dir: String,
}

impl Session {
    /// `h` is the header of a session that starts now, for that reason, on that
    /// clock: unclean, and empty so far.
    #[verifier::opaque]
    pub open spec fn starts(
        h: SessionHeader,
        r: StartReading,
        reason: Seq<char>,
        qpc_frequency: i64,
        clock_origin_unix_ms: u64,
        session_start_t_ns: u64,
    ) -> bool {
        let offset = r.zone.offset_spec() as i32;
        let hour = crate::clock::local_second(r.now_ms, offset) % 86_400 / 3600;
        let local = crate::clock::local_ms(r.now_ms, offset);
        &&& names_session(h.session_id@, r.now_ms, r.process_id, r.taken@)
        &&& h.app_version@ == r.app_version@
        &&& h.format_version == FORMAT_VERSION
        &&& h.start_wall_utc@ == crate::clock::iso_utc(r.now_ms as int)
        &&& h.start_unix_ms == r.now_ms
        &&& h.start_wall_local@ == crate::clock::civil_text(local) + crate::clock::offset_text(
            offset as int,
        )
        &&& h.utc_offset_minutes == offset
        &&& h.timezone@ == r.zone.name_spec()
        &&& h.start_weekday@ == crate::clock::WEEKDAY_NAMES@[crate::clock::weekday_of_day(
            crate::clock::day_of(local),
        )]@
        &&& h.start_local_hour == hour
        &&& h.start_day_part@ == crate::clock::day_part_spec(hour as u8)
        &&& h.end_wall_utc is None
        &&& h.end_wall_local is None
        &&& h.end_unix_ms is None
        &&& h.qpc_frequency == qpc_frequency
        &&& h.clock_origin_unix_ms == clock_origin_unix_ms
        &&& h.session_start_t_ns == session_start_t_ns
        &&& h.devices@.len() == 0
        &&& h.monitors@.len() == 0
        &&& h.ballistics.is_blank()
        &&& h.os == r.os
        &&& h.reports_received == 0
        &&& h.events_written == 0
        &&& h.events_dropped == 0
        &&& h.first_drop_t_ns is None
        &&& h.last_drop_t_ns is None
        &&& h.peak_queue_depth == 0
        &&& h.max_write_latency_us == 0
        &&& h.writer_errors == 0
        &&& !h.clean_shutdown
        &&& !h.interrupted
        &&& h.start_reason@ == reason
        &&& h.segments@.len() == 0
    }

    /// A session that starts now, not anchored to a clock.
    pub fn create(root: &str, r: StartReading, reason: &str, qpc_frequency: i64) -> (s: Self)
        requires
            r.local_time_fits(),
        ensures
            Session::starts(s.header, r, reason@, qpc_frequency, 0, 0),
            names_session(s.header.session_id@, r.now_ms, r.process_id, r.taken@),
            s.dir@ == session_dir_spec(root@, r.separator, s.header.session_id@),
    {
        Self::create_at(root, r, reason, qpc_frequency, 0, 0)
    }

    /// A session that starts now, in a directory of its own below `root`. Its header
    /// says so at once that it is unclean: if the program dies in the next second,
    /// the next run must still find evidence that this session existed.
    pub fn create_at(
        root: &str,
        r: StartReading,
        reason: &str,
        qpc_frequency: i64,
        clock_origin_unix_ms: u64,
        session_start_t_ns: u64,
    ) -> (s: Self)
        requires
            r.local_time_fits(),
        ensures
            Session::starts(
                s.header,
                r,
                reason@,
                qpc_frequency,
                clock_origin_unix_ms,
                session_start_t_ns,
            ),
            names_session(s.header.session_id@, r.now_ms, r.process_id, r.taken@),
            s.dir@ == session_dir_spec(root@, r.separator, s.header.session_id@),
    {
        let now_ms: u64 = r.now_ms;
        let offset: i32 = local_offset_minutes(&r.zone);
        let hour: u8 = local_hour(now_ms, offset);
        let timezone = local_timezone_name(&r.zone);
        let id = session_id(now_ms, r.process_id, &r.taken);
        let dir = session_dir(root, r.separator, id.as_str());
        let header = SessionHeader {
            session_id: id,
            app_version: r.app_version,
            format_version: FORMAT_VERSION,
            start_wall_utc: iso8601_utc(now_ms),
            start_unix_ms: now_ms,
            start_wall_local: iso8601_local(now_ms, offset),
            utc_offset_minutes: offset,
            timezone,
            start_weekday: local_weekday_name(now_ms, offset).to_owned(),
            start_local_hour: hour,
            start_day_part: day_part(hour).to_owned(),
            end_wall_utc: None,
            end_wall_local: None,
            end_unix_ms: None,
            qpc_frequency,
            clock_origin_unix_ms,
            session_start_t_ns,
            devices: Vec::new(),
            monitors: Vec::new(),
            ballistics: Ballistics::default(),
            os: r.os,
            reports_received: 0,
            events_written: 0,
            events_dropped: 0,
            first_drop_t_ns: None,
            last_drop_t_ns: None,
            peak_queue_depth: 0,
            max_write_latency_us: 0,
            writer_errors: 0,
            clean_shutdown: false,
            interrupted: false,
            start_reason: reason.to_owned(),
            segments: Vec::new(),
        };
        proof {
            reveal(Session::starts);
        }
        Session { header, dir }
    }

    /// A session that starts now, anchored to the clock at that reading of its
    /// counter, with device, monitor and ballistics metadata filled in.
    ///
    /// Sessions roll over mid-run, and each new one must capture the environment as
    /// it is now: the monitor layout or the pointer-speed slider may well be why the
    /// rollover happened.
    pub fn create_populated(
        root: &str,
        r: StartReading,
        reason: &str,
        clock: &Clock,
        counter: i64,
        environment: Environment,
    ) -> (s: Self)
        requires
            r.local_time_fits(),
            clock.wf(),
            clock.elapsed_ns(counter) <= u64::MAX,
        ensures
            names_session(s.header.session_id@, r.now_ms, r.process_id, r.taken@),
            s.dir@ == session_dir_spec(root@, r.separator, s.header.session_id@),
            exists|start: SessionHeader| #[trigger]
                Session::starts(
                    start,
                    r,
                    reason@,
                    clock.freq_spec(),
                    clock.origin_unix_ms_spec(),
                    clock.elapsed_ns(counter) as u64,
                ) && s.header == (SessionHeader {
                    ballistics: environment.ballistics,
                    monitors: environment.monitors,
                    devices: environment.devices,
                    ..start
                }),
    {
        let start_ns: u64 = clock.now_ns(counter);
        let mut s = Self::create_at(
            root,
            r,
            reason,
            clock.freq(),
            clock.origin_unix_ms(),
            start_ns,
        );
        let ghost start = s.header;
        assert(start_ns == clock.elapsed_ns(counter) as u64);
        assert(Session::starts(
            start,
            r,
            reason@,
            clock.freq_spec(),
            clock.origin_unix_ms_spec(),
            start_ns,
        ));
        s.header.ballistics = environment.ballistics;
        s.header.monitors = environment.monitors;
        s.header.devices = environment.devices;
        assert(s.header == (SessionHeader {
            ballistics: environment.ballistics,
            monitors: environment.monitors,
            devices: environment.devices,
            ..start
        }));
        s
    }

    /// The name, in the session's directory, of its segment with that number.
    pub fn segment_path(&self, index: u32) -> (name: String)
        ensures
            name@ == segment_name_spec(index),
    {
        let mut name = "events-".to_owned();
        push_zero_padded(&mut name, index as u64, 4);
        name.append(".mpseg");
        name
    }

    /// The name, in the session's directory, of its context timeline.
    pub fn context_path(&self) -> (name: &'static str)
        ensures
            name@ == "context.jsonl"@,
    {
        "context.jsonl"
    }

    /// Takes note that the session ended, cleanly, at `ms`.
    pub fn finish(&mut self, ms: u64)
        ensures
            final(self).dir == old(self).dir,
            ended(final(self).header, old(self).header, ms),
    {
        self.header.end_unix_ms = Some(ms);
        self.header.end_wall_utc = Some(iso8601_utc(ms));
        self.header.end_wall_local = Some(iso8601_local(ms, self.header.utc_offset_minutes));
        self.header.clean_shutdown = true;
    }
}

/// `h` is `before` with its clean end at `ms` noted.
pub open spec fn ended(h: SessionHeader, before: SessionHeader, ms: u64) -> bool {
    let offset = before.utc_offset_minutes;
    &&& h == (SessionHeader {
        end_unix_ms: Some(ms),
        end_wall_utc: h.end_wall_utc,
        end_wall_local: h.end_wall_local,
        clean_shutdown: true,
        ..before
    })
    &&& h.end_wall_utc matches Some(s) && s@ == crate::clock::iso_utc(ms as int)
    &&& h.end_wall_local matches Some(s) && s@ == crate::clock::civil_text(
        crate::clock::local_ms(ms, offset),
    ) + crate::clock::offset_text(offset as int)
}

/// Whether local time can be told at the start.
pub fn start_time_fits(r: &StartReading) -> (fits: bool)
    ensures
        fits == r.local_time_fits(),
{
    r.zone.offset_fits()
}

// ---- recovery -----------------------------------------------------------------------------

/// Outcome of the scan at startup.
#[derive(Debug)]
pub struct RecoveryReport {
    /// Headers that could be read.
    pub scanned: usize,
    pub newly_marked_interrupted: Vec<String>,
}

impl Default for RecoveryReport {
    fn default() -> (r: Self)
        ensures
            r.scanned == 0,
            r.newly_marked_interrupted@.len() == 0,
    {
        RecoveryReport { scanned: 0, newly_marked_interrupted: Vec::new() }
    }
}

/// The header is to be marked: it tells of no clean end, and is not marked yet.
pub open spec fn needs_mark(h: SessionHeader) -> bool {
    !h.clean_shutdown && !h.interrupted
}

/// The header as a later run leaves it.
pub open spec fn recovered(h: SessionHeader) -> SessionHeader {
    if needs_mark(h) {
        SessionHeader { interrupted: true, ..h }
    } else {
        h
    }
}

impl RecoveryReport {
    /// Takes in a header that could be read, and that could be understood or not.
    /// One that could not is left for a human to look at. The result is the header
    /// to write back, where it is to be marked.
    ///
    /// Deliberately conservative: `interrupted` is set on a header that is unclean,
    /// and nothing else is ever changed.
    pub fn scan(&mut self, header: Option<SessionHeader>) -> (save: Option<SessionHeader>)
        requires
            old(self).scanned < usize::MAX,
        ensures
            final(self).scanned == old(self).scanned + 1,
            final(self).newly_marked_interrupted == old(self).newly_marked_interrupted,
            save == match header {
                Some(h) if needs_mark(h) => Some(recovered(h)),
                _ => None,
            },
    {
        self.scanned = self.scanned + 1;
        match header {
            Some(h) => {
                if h.clean_shutdown || h.interrupted {
                    return None;
                }
                let mut marked = h;
                marked.interrupted = true;
                Some(marked)
            },
            None => None,
        }
    }

    /// Takes note of whether a marked header was written back.
    pub fn saved(&mut self, id: String, written: bool)
        ensures
            final(self).scanned == old(self).scanned,
            final(self).newly_marked_interrupted@ == if written {
                old(self).newly_marked_interrupted@.push(id)
            } else {
                old(self).newly_marked_interrupted@
            },
    {
        if written {
            self.newly_marked_interrupted.push(id);
        }
    }
}

// ---- laws -----------------------------------------------------------------------------

/// Recovery marks a crashed session and leaves a clean one alone, changes nothing
/// else, and a second run finds nothing more to mark.
pub proof fn law_recovery_only_marks_and_only_once(h: SessionHeader)
    ensures
        h.clean_shutdown ==> recovered(h) == h,
        !h.clean_shutdown ==> recovered(h).interrupted,
        recovered(h) == (SessionHeader { interrupted: recovered(h).interrupted, ..h }),
        !needs_mark(recovered(h)),
        recovered(recovered(h)) == recovered(h),
{
}

/// A session is unclean until it says otherwise: a run that finds it as it started
/// marks it, one that finds it as it ended does not.
pub proof fn law_new_session_is_unclean_until_it_ends(
    h: SessionHeader,
    r: StartReading,
    reason: Seq<char>,
    freq: i64,
    origin: u64,
    start: u64,
    end: SessionHeader,
    ms: u64,
)
    requires
        Session::starts(h, r, reason, freq, origin, start),
        ended(end, h, ms),
    ensures
        needs_mark(h),
        !needs_mark(end),
        end.end_unix_ms is Some,
{
    reveal(Session::starts);
}

/// The stamp in a session's name holds no colon and no full stop.
pub proof fn law_session_stamp_can_name_a_directory(unix_ms: u64, i: int)
    requires
        0 <= i < stamp_spec(unix_ms).len(),
    ensures
        stamp_spec(unix_ms)[i] != ':',
        stamp_spec(unix_ms)[i] != '.',
{
}

/// A new session does not collide with one whose name is taken: it has another name and,
/// below the same root, another directory, whenever and in whatever process either
/// started.
pub proof fn law_new_session_collides_with_none(
    id: Seq<char>,
    unix_ms: u64,
    process_id: u32,
    taken: Seq<String>,
    other: Seq<char>,
    root: Seq<char>,
    separator: char,
)
    requires
        names_session(id, unix_ms, process_id, taken),
        is_taken(taken, other),
    ensures
        id != other,
        session_dir_spec(root, separator, id) != session_dir_spec(root, separator, other),
{
    let path = joined(root, separator, "sessions"@);
    let start = joined(path, separator, seq![]);
    assert(joined(path, separator, id) =~= start + id);
    assert(joined(path, separator, other) =~= start + other);
    assert((start + id).skip(start.len() as int) =~= id);
    assert((start + other).skip(start.len() as int) =~= other);
}

/// The sessions were started one after the other, each with the names of those before
/// among the taken ones.
pub open spec fn started_in_turn(
    sessions: Seq<SessionHeader>,
    readings: Seq<StartReading>,
) -> bool {
    &&& sessions.len() == readings.len()
    &&& forall|i: int|
        0 <= i < sessions.len() ==> names_session(
            (#[trigger] sessions[i]).session_id@,
            readings[i].now_ms,
            readings[i].process_id,
            readings[i].taken@,
        )
    &&& forall|i: int, j: int|
        0 <= i < j < sessions.len() ==> is_taken(
            #[trigger] readings[j].taken@,
            (#[trigger] sessions[i]).session_id@,
        )
}

/// Of sessions started one after the other no two have the same name, even where all of
/// them start in one process and in the same millisecond.
pub proof fn law_no_two_sessions_share_a_name(
    sessions: Seq<SessionHeader>,
    readings: Seq<StartReading>,
)
    requires
        started_in_turn(sessions, readings),
    ensures
        forall|i: int, j: int|
            0 <= i < j < sessions.len() ==> (#[trigger] sessions[i]).session_id@ != (
            #[trigger] sessions[j]).session_id@,
{
    assert forall|i: int, j: int| 0 <= i < j < sessions.len() implies (
    #[trigger] sessions[i]).session_id@ != (#[trigger] sessions[j]).session_id@ by {
        assert(is_taken(readings[j].taken@, sessions[i].session_id@));
    }
}

/// The headers of a directory after a later run went over them, one by one. What could
/// not be understood stays as it is.
pub open spec fn recovered_all(headers: Seq<Option<SessionHeader>>) -> Seq<Option<SessionHeader>> {
    Seq::new(
        headers.len(),
        |i: int|
            match headers[i] {
                Some(h) => Some(recovered(h)),
                None => None,
            },
    )
}

/// How many of the headers are to be marked.
pub open spec fn marks(headers: Seq<Option<SessionHeader>>) -> nat
    decreases headers.len(),
{
    if headers.len() == 0 {
        0
    } else {
        marks(headers.drop_last()) + if headers.last() matches Some(h) && needs_mark(h) {
            1nat
        } else {
            0
        }
    }
}

/// A second run over the same headers finds as many of them, marks none and changes
/// nothing; and no run makes a clean session interrupted.
pub proof fn law_second_recovery_changes_nothing(headers: Seq<Option<SessionHeader>>)
    ensures
        recovered_all(headers).len() == headers.len(),
        marks(recovered_all(headers)) == 0,
        recovered_all(recovered_all(headers)) == recovered_all(headers),
        forall|i: int|
            0 <= i < headers.len() && (#[trigger] headers[i] matches Some(h) && h.clean_shutdown)
                ==> recovered_all(headers)[i] == headers[i],
    decreases headers.len(),
{
    let after = recovered_all(headers);
    if headers.len() > 0 {
        law_second_recovery_changes_nothing(headers.drop_last());
        assert(after.drop_last() =~= recovered_all(headers.drop_last()));
    }
    assert(recovered_all(after) =~= after);
}

/// The name of a segment holds its number, of at least four digits, and so no two segments
/// of a session have the same name.
pub proof fn law_segment_names_hold_their_number(index: u32)
    ensures
        ({
            let name = segment_name_spec(index);
            &&& name.len() >= 17
            &&& name.take(7) == "events-"@
            &&& name.skip(name.len() - 6) == ".mpseg"@
            &&& crate::text::digits_value(name.subrange(7, name.len() - 6)) == index
        }),
{
    reveal_strlit("events-");
    reveal_strlit(".mpseg");
    let name = segment_name_spec(index);
    let digits = crate::text::zero_padded(index as nat, 4);
    assert(name.take(7) =~= "events-"@);
    assert(name.skip(name.len() - 6) =~= ".mpseg"@);
    assert(name.subrange(7, name.len() - 6) =~= digits);
    lemma_padded_value(index as nat, 4);
}

/// Zeros in front of a number do not change it.
proof fn lemma_padded_value(n: nat, width: nat)
    ensures
        crate::text::zero_padded(n, width).len() >= width,
        crate::text::digits_value(crate::text::zero_padded(n, width)) == n,
{
    let zeros = crate::text::repeated('0', width - crate::text::decimal(n).len());
    lemma_zeros_in_front(zeros, crate::text::decimal(n));
    crate::text::lemma_decimal_value(n);
}

proof fn lemma_zeros_in_front(zeros: Seq<char>, text: Seq<char>)
    requires
        forall|i: int| 0 <= i < zeros.len() ==> #[trigger] zeros[i] == '0',
    ensures
        crate::text::digits_value(zeros + text) == crate::text::digits_value(text),
    decreases zeros.len() + text.len(),
{
    if text.len() > 0 {
        lemma_zeros_in_front(zeros, text.drop_last());
        assert((zeros + text).drop_last() =~= zeros + text.drop_last());
    } else if zeros.len() > 0 {
        let fewer = zeros.drop_last();
        assert forall|i: int| 0 <= i < fewer.len() implies #[trigger] fewer[i] == '0' by {
            assert(fewer[i] == zeros[i]);
        }
        lemma_zeros_in_front(fewer, text);
        assert(zeros + text =~= zeros);
        assert(fewer + text =~= fewer);
        assert(zeros[zeros.len() - 1] == '0');
    }
}

/// A new header says when and why the session started, on which clock and on which
/// machine, in local time as well; it is not clean, and claims nothing yet.
pub proof fn law_a_new_header_tells_when_it_started(
    h: SessionHeader,
    r: StartReading,
    reason: Seq<char>,
    freq: i64,
    origin: u64,
    start_ns: u64,
)
    requires
        Session::starts(h, r, reason, freq, origin, start_ns),
        r.local_time_fits(),
    ensures
        h.start_unix_ms == r.now_ms,
        h.start_wall_utc@ == crate::clock::iso_utc(r.now_ms as int),
        h.utc_offset_minutes == r.zone.offset_spec(),
        h.start_local_hour == (r.now_ms + 60_000 * h.utc_offset_minutes) / 3_600_000 % 24,
        h.start_day_part@ == crate::clock::day_part_spec(h.start_local_hour),
        h.qpc_frequency == freq && h.clock_origin_unix_ms == origin && h.session_start_t_ns
            == start_ns,
        h.start_reason@ == reason,
        h.app_version@ == r.app_version@,
        h.os == r.os,
        h.format_version == 1,
        h.reports_received == 0 && h.events_written == 0 && h.events_dropped == 0
            && h.writer_errors == 0 && h.peak_queue_depth == 0,
        !h.clean_shutdown && !h.interrupted,
        h.end_unix_ms is None && h.first_drop_t_ns is None && h.last_drop_t_ns is None,
        h.segments@.len() == 0,
{
    reveal(Session::starts);
    let offset = r.zone.offset_spec() as i32;
    let l = crate::clock::local_second(r.now_ms, offset);
    crate::clock::law_local_time_is_off_by_the_offset(r.now_ms, offset);
    crate::clock::lemma_hour_of_ms(crate::clock::local_ms(r.now_ms, offset));
}

/// A session that ends says when, in the offset that it started with, and that it ended
/// cleanly; everything else stays as it was.
pub proof fn law_an_ended_header_tells_when_it_ended(
    h: SessionHeader,
    before: SessionHeader,
    ms: u64,
)
    requires
        ended(h, before, ms),
    ensures
        h.clean_shutdown,
        h.end_unix_ms == Some(ms),
        h.end_wall_utc matches Some(s) && s@ == crate::clock::iso_utc(ms as int),
        h.events_written == before.events_written,
        h.events_dropped == before.events_dropped,
        h.interrupted == before.interrupted,
        h.session_id == before.session_id,
        h.start_unix_ms == before.start_unix_ms,
        h.segments == before.segments,
{
}

/// A build from 22000 on is Windows 11, whatever it calls itself; an older one, or one
/// without a number, goes by its own name.
pub proof fn law_windows_11_is_told_by_its_build(product: Seq<char>, build: Seq<char>)
    requires
        product.len() > 0,
    ensures
        crate::text::parsed_u32(build) matches Some(b) && b >= 22000 ==> product_spec(
            product,
            build,
        ) == crate::text::replaced(product, "Windows 10"@, "Windows 11"@),
        crate::text::parsed_u32(build) matches Some(b) && b < 22000 ==> product_spec(product, build)
            == product,
        crate::text::parsed_u32(build) is None ==> product_spec(product, build) == product,
        product_spec(seq![], build) == "Windows"@,
{
}

/// A session is marked as interrupted just where it ended without saying so and is not
/// marked yet.
pub proof fn law_only_unclean_sessions_are_marked(h: SessionHeader)
    ensures
        recovered(h).interrupted <==> h.interrupted || !h.clean_shutdown,
        recovered(h).clean_shutdown == h.clean_shutdown,
        recovered(h).events_written == h.events_written,
        recovered(h).session_id == h.session_id,
        needs_mark(h) <==> recovered(h) != h,
{
}

/// Two processes that start a session in the same millisecond are told apart by their
/// numbers, as far as the last sixteen bits of these differ.
pub proof fn law_processes_are_told_apart(unix_ms: u64, a: u32, b: u32)
    requires
        a % 65536 != b % 65536,
    ensures
        session_id_spec(unix_ms, a) != session_id_spec(unix_ms, b),
{
    let x = session_id_spec(unix_ms, a);
    let y = session_id_spec(unix_ms, b);
    let n = stamp_spec(unix_ms).len() as int + 1;
    crate::text::law_hexadecimal_digits_tell_numbers_apart(
        (a % 0x1_0000) as u16,
        (b % 0x1_0000) as u16,
        false,
    );
    assert(x.skip(n) =~= crate::text::hex4((a % 0x1_0000) as u16, false));
    assert(y.skip(n) =~= crate::text::hex4((b % 0x1_0000) as u16, false));
}

/// The stamp of a session is the instant of its start, letter by letter, but for colons and
/// full stops, which a directory cannot have.
pub proof fn law_the_stamp_is_the_instant(unix_ms: u64, i: int)
    requires
        0 <= i < stamp_spec(unix_ms).len(),
    ensures
        ({
            let c = crate::clock::iso_utc(unix_ms as int)[i];
            &&& stamp_spec(unix_ms).len() + 1 == crate::clock::iso_utc(unix_ms as int).len()
            &&& c != ':' && c != '.' ==> stamp_spec(unix_ms)[i] == c
            &&& c == ':' || c == '.' ==> stamp_spec(unix_ms)[i] == '-'
        }),
{
}

/// The version names what is known and nothing else: a release stands behind the name, a
/// build in brackets behind both, and a revision only behind a build.
pub proof fn law_the_version_tells_what_is_known(
    product: Seq<char>,
    display: Seq<char>,
    build: Seq<char>,
    ubr: u32,
)
    requires
        display.len() > 0,
        build.len() > 0,
    ensures
        ({
            let name = product_spec(product, build);
            let bare: Seq<char> = seq![];
            &&& version_spec(product, bare, bare, Some(ubr)) == product_spec(product, bare)
            &&& version_spec(product, bare, bare, None) == product_spec(product, bare)
            &&& version_spec(product, display, bare, Some(ubr)) == product_spec(product, bare)
                + " "@ + display
            &&& version_spec(product, bare, build, None) == name + " (build "@ + build + ")"@
            &&& version_spec(product, display, build, None) == name + " "@ + display + " (build "@
                + build + ")"@
            &&& version_spec(product, display, build, Some(ubr)) == name + " "@ + display
                + " (build "@ + build + "."@ + crate::text::decimal(ubr as nat) + ")"@
        }),
{
    let name = product_spec(product, build);
    let bare: Seq<char> = seq![];
    reveal_strlit(" ");
    reveal_strlit(")");
    reveal_strlit(".");
    assert(" "@ =~= seq![' ']);
    assert(")"@ =~= seq![')']);
    assert("."@ =~= seq!['.']);
    assert(version_spec(product, bare, bare, Some(ubr)) =~= product_spec(product, bare));
    assert(version_spec(product, bare, bare, None) =~= product_spec(product, bare));
    assert(version_spec(product, display, bare, Some(ubr)) =~= product_spec(product, bare) + " "@
        + display);
    assert(version_spec(product, bare, build, None) =~= name + " (build "@ + build + ")"@);
    assert(version_spec(product, display, build, None) =~= name + " "@ + display + " (build "@
        + build + ")"@);
    assert(version_spec(product, display, build, Some(ubr)) =~= name + " "@ + display
        + " (build "@ + build + "."@ + crate::text::decimal(ubr as nat) + ")"@);
}

/// A number is read from the first four bytes of a value, and none from fewer or from a
/// value that could not be read.
pub proof fn law_numbers_are_read_from_four_bytes(t: u32, b: Vec<u8>, n: u32)
    ensures
        b@.len() < 4 ==> reg_number(Some((t, b))) is None,
        b@.len() >= 4 && b@.take(4) == crate::le::le32(n) ==> reg_number(Some((t, b))) == Some(n),
        reg_number(None) is None,
        reg_text(None).len() == 0,
{
    if b@.len() >= 4 && b@.take(4) == crate::le::le32(n) {
        assert(b@.subrange(0, 4) =~= b@.take(4));
        crate::le::lemma_le32(b@, 0, n);
    }
}

} // verus!
