//! The command line: what was asked for, and what is printed.

use vstd::prelude::*;

use crate::context::monitors::MonitorInfo;
use crate::export::{ExportStats, VerifyReport};
use crate::input::ballistics::Ballistics;
use crate::input::devices::DeviceInfo;
use crate::text::{
    decimal_text, is_blank, parse_u64, push_decimal, push_hex4, push_left_aligned,
    push_right_aligned, push_signed, same_text, starts_with,
};

verus! {

// ---- arguments ----------------------------------------------------------------------------

/// What the program is asked to do.
#[derive(Debug)]
pub enum Command {
    Record,
    List,
    Verify,
    Export,
    Info,
    Stats,
    Startup,
    Help,
    Unknown(String),
}

/// `command` is what the first argument asks for; without one, recording.
pub open spec fn is_command(command: Command, args: Seq<String>) -> bool {
    let first = if args.len() > 0 {
        args[0]@
    } else {
        "record"@
    };
    match command {
        Command::Record => first == "record"@ || first == ""@,
        Command::List => first == "list"@,
        Command::Verify => first == "verify"@,
        Command::Export => first == "export"@,
        Command::Info => first == "info"@,
        Command::Stats => first == "stats"@,
        Command::Startup => first == "startup"@,
        Command::Help => first == "-h"@ || first == "--help"@ || first == "help"@,
        Command::Unknown(s) => s@ == first && first != "record"@ && first != ""@ && first
            != "list"@ && first != "verify"@ && first != "export"@ && first != "info"@ && first
            != "stats"@ && first != "startup"@ && first != "-h"@ && first != "--help"@ && first
            != "help"@,
    }
}

/// What the first argument asks for.
pub fn command_of(args: &Vec<String>) -> (c: Command)
    ensures
        is_command(c, args@),
{
    if args.len() == 0 {
        return Command::Record;
    }
    let a = args[0].as_str();
    if same_text(a, "record") || same_text(a, "") {
        Command::Record
    } else if same_text(a, "list") {
        Command::List
    } else if same_text(a, "verify") {
        Command::Verify
    } else if same_text(a, "export") {
        Command::Export
    } else if same_text(a, "info") {
        Command::Info
    } else if same_text(a, "stats") {
        Command::Stats
    } else if same_text(a, "startup") {
        Command::Startup
    } else if same_text(a, "-h") || same_text(a, "--help") || same_text(a, "help") {
        Command::Help
    } else {
        Command::Unknown(args[0].clone())
    }
}

/// Whether the command writes to a terminal, and so needs the console that the user
/// launched it from. Only the recorder does not.
pub fn needs_console(c: &Command) -> (r: bool)
    ensures
        r == !(c is Record),
{
    !matches!(c, Command::Record)
}

/// Where `name` first stands among the arguments, from `from` on.
pub open spec fn place_of_flag(args: Seq<String>, name: Seq<char>, from: int) -> Option<int>
    decreases args.len() - from,
{
    if from < 0 || from >= args.len() {
        None
    } else if args[from]@ == name {
        Some(from)
    } else {
        place_of_flag(args, name, from + 1)
    }
}

/// Where `name` first stands among the arguments.
fn find_flag(args: &Vec<String>, name: &str) -> (p: Option<usize>)
    ensures
        match p {
            Some(i) => place_of_flag(args@, name@, 0) == Some(i as int) && i < args@.len(),
            None => place_of_flag(args@, name@, 0) is None,
        },
{
    let mut i: usize = 0;
    while i < args.len()
        invariant
            i <= args@.len(),
            place_of_flag(args@, name@, 0) == place_of_flag(args@, name@, i as int),
        decreases args@.len() - i,
    {
        if same_text(args[i].as_str(), name) {
            return Some(i);
        }
        i = i + 1;
    }
    None
}

/// The argument behind the first `name`, if there is one.
pub open spec fn flag_value_spec(args: Seq<String>, name: Seq<char>) -> Option<Seq<char>> {
    match place_of_flag(args, name, 0) {
        Some(i) if i + 1 < args.len() => Some(args[i + 1]@),
        _ => None,
    }
}

/// The argument behind the first `name`, if there is one.
pub fn flag_value(args: &Vec<String>, name: &str) -> (v: Option<String>)
    ensures
        crate::context::foreground::text_of(v) == flag_value_spec(args@, name@),
{
    match find_flag(args, name) {
        Some(i) => if i < args.len() - 1 {
            Some(args[i + 1].clone())
        } else {
            None
        },
        None => None,
    }
}

/// Whether `name` is among the arguments.
pub fn has_flag(args: &Vec<String>, name: &str) -> (r: bool)
    ensures
        r == (exists|i: int| 0 <= i < args@.len() && #[trigger] args@[i]@ == name@),
{
    let p = find_flag(args, name);
    proof {
        lemma_place_of_flag(args@, name@, 0);
    }
    p.is_some()
}

proof fn lemma_place_of_flag(args: Seq<String>, name: Seq<char>, from: int)
    requires
        0 <= from,
    ensures
        match place_of_flag(args, name, from) {
            Some(p) => from <= p < args.len() && args[p]@ == name,
            None => forall|i: int| from <= i < args.len() ==> #[trigger] args[i]@ != name,
        },
    decreases args.len() - from,
{
    if from < args.len() && args[from]@ != name {
        lemma_place_of_flag(args, name, from + 1);
    }
}

/// The argument is a flag that takes the argument behind it, which is then not taken
/// for a session.
pub open spec fn takes_value(a: Seq<char>) -> bool {
    a == "--data"@ || a == "--out"@ || a == "--duration"@
}

/// The first argument from `from` on that is neither a flag nor the value of one,
/// nor empty.
pub open spec fn positional_from(args: Seq<String>, from: int) -> Option<int>
    decreases args.len() + 1 - from,
{
    if from < 0 || from >= args.len() {
        None
    } else if takes_value(args[from]@) {
        positional_from(args, from + 2)
    } else if crate::text::starts_with_spec(args[from]@, "--"@) {
        positional_from(args, from + 1)
    } else if args[from]@.len() > 0 {
        Some(from)
    } else {
        positional_from(args, from + 1)
    }
}

/// The first positional argument behind the command, ignoring flags and their values.
pub fn positional(args: &Vec<String>) -> (v: Option<String>)
    ensures
        crate::context::foreground::text_of(v) == match positional_from(args@, 1) {
            Some(i) => Some(args@[i]@),
            None => None,
        },
{
    let mut i: usize = 1;
    while i < args.len()
        invariant
            1 <= i,
            positional_from(args@, 1) == positional_from(args@, i as int),
        decreases args@.len() - i,
    {
        let a = args[i].as_str();
        if same_text(a, "--data") || same_text(a, "--out") || same_text(a, "--duration") {
            if i >= args.len() - 1 {
                assert(positional_from(args@, i + 2) is None);
                return None;
            }
            i = i + 2;
        } else if starts_with(a, "--") {
            i = i + 1;
        } else if !is_blank(a) {
            return Some(args[i].clone());
        } else {
            i = i + 1;
        }
    }
    None
}

/// How long to record without a window, where that was asked for.
pub fn duration_secs(args: &Vec<String>) -> (n: Option<u64>)
    ensures
        n == match flag_value_spec(args@, "--duration"@) {
            Some(s) => crate::text::parsed_u64(s),
            None => None,
        },
{
    match flag_value(args, "--duration") {
        Some(s) => parse_u64(s.as_str()),
        None => None,
    }
}

/// The directory below which data is kept by default.
pub const DATA_DIR_NAME: &'static str = "RecordMouseFULL-HumanTelemetry-AIO";

/// Where data is kept.
#[derive(Debug)]
pub enum DataRoot {
    /// In that directory.
    Exactly(String),
    /// In the default directory below that one.
    Below(String),
}

/// Where data is kept: where the arguments say, else below the user's local data, or
/// below the temporary directory where that is not known.
pub fn data_root(args: &Vec<String>, local_data: Option<String>, temp: String) -> (r: DataRoot)
    ensures
        match flag_value_spec(args@, "--data"@) {
            Some(d) => r matches DataRoot::Exactly(s) && s@ == d,
            None => r == DataRoot::Below(
                match local_data {
                    Some(d) => d,
                    None => temp,
                },
            ),
        },
{
    match flag_value(args, "--data") {
        Some(d) => DataRoot::Exactly(d),
        None => DataRoot::Below(
            match local_data {
                Some(d) => d,
                None => temp,
            },
        ),
    }
}

/// Which session is meant.
#[derive(Debug)]
pub enum SessionPick {
    /// The directory that was named.
    Named(String),
    /// The one with that place in the list.
    Listed(usize),
}

/// Resolves a session argument: a path to a session, the name of one, or nothing,
/// which means the latest. `is_session` tells whether the argument is a path to one;
/// `names` are those recorded, in order.
pub fn pick_session(named: Option<String>, is_session: bool, names: &Vec<String>) -> (r: Result<
    SessionPick,
    String,
>)
    ensures
        match named {
            Some(n) => if is_session {
                r == Ok::<SessionPick, String>(SessionPick::Named(n))
            } else {
                match place_of_flag(names@, n@, 0) {
                    Some(i) => r == Ok::<SessionPick, String>(SessionPick::Listed(i as usize)) && i
                        < names@.len(),
                    None => r matches Err(e) && e@ == "no session matching "@ + n@,
                }
            },
            None => if names@.len() > 0 {
                r == Ok::<SessionPick, String>(SessionPick::Listed((names@.len() - 1) as usize))
            } else {
                r matches Err(e) && e@ == "no sessions recorded yet"@
            },
        },
{
    match named {
        Some(n) => {
            if is_session {
                return Ok(SessionPick::Named(n));
            }
            match find_flag(names, n.as_str()) {
                Some(i) => Ok(SessionPick::Listed(i)),
                None => {
                    let mut e = "no session matching ".to_owned();
                    e.append(n.as_str());
                    Err(e)
                },
            }
        },
        None => {
            if names.len() > 0 {
                Ok(SessionPick::Listed(names.len() - 1))
            } else {
                Err("no sessions recorded yet".to_owned())
            }
        },
    }
}

/// What the startup command is asked to do.
#[derive(Clone, Copy, PartialEq, Eq, Debug, Structural)]
pub enum StartupCommand {
    On,
    Off,
    Show,
}

/// What the startup command is asked to do.
pub fn startup_command(args: &Vec<String>) -> (c: StartupCommand)
    ensures
        ({
            let word = match positional_from(args@, 1) {
                Some(i) => args@[i]@,
                None => ""@,
            };
            c == if positional_from(args@, 1) is Some && word == "on"@ {
                StartupCommand::On
            } else if positional_from(args@, 1) is Some && word == "off"@ {
                StartupCommand::Off
            } else {
                StartupCommand::Show
            }
        }),
{
    match positional(args) {
        Some(w) => {
            if same_text(w.as_str(), "on") {
                StartupCommand::On
            } else if same_text(w.as_str(), "off") {
                StartupCommand::Off
            } else {
                StartupCommand::Show
            }
        },
        None => StartupCommand::Show,
    }
}

/// How the program is used.
pub fn help_text(version: &str) -> (s: String)
    ensures
        s@ == "HumanTelemetry "@ + version@
            + " -- RecordMouseFULL-HumanTelemetry-AIO\n\nUSAGE:\n    HumanTelemetry.exe [COMMAND] [OPTIONS]\n\n    With no command it opens the recorder window and starts recording.\n\nCOMMANDS:\n    record              Open the recorder (default)\n    list                List recorded sessions\n    verify [SESSION]    Read every segment back and check it against the header\n    export [SESSION]    Write a session out as CSV\n    info                Show devices, monitors and pointer-ballistics settings\n    startup on|off      Enable/disable starting at Windows sign-in\n\nOPTIONS:\n    --data <DIR>        Data root (default:\n                        %LOCALAPPDATA%\\RecordMouseFULL-HumanTelemetry-AIO)\n    --titles            Also record foreground window titles (off by default)\n    --duration <SECS>   Stop after N seconds (headless; no window)\n    --tray              Start hidden in the tray\n    --out <FILE>        Output path for `export`\n\nNOTES:\n    Data defaults to local disk, never the project folder. At 1 kHz this writes\n    continuously and a cloud-synced directory would re-upload it all day.\n"@,
{
    let mut s = "HumanTelemetry ".to_owned();
    s.append(version);
    s.append(
        " -- RecordMouseFULL-HumanTelemetry-AIO\n\nUSAGE:\n    HumanTelemetry.exe [COMMAND] [OPTIONS]\n\n    With no command it opens the recorder window and starts recording.\n\nCOMMANDS:\n    record              Open the recorder (default)\n    list                List recorded sessions\n    verify [SESSION]    Read every segment back and check it against the header\n    export [SESSION]    Write a session out as CSV\n    info                Show devices, monitors and pointer-ballistics settings\n    startup on|off      Enable/disable starting at Windows sign-in\n\nOPTIONS:\n    --data <DIR>        Data root (default:\n                        %LOCALAPPDATA%\\RecordMouseFULL-HumanTelemetry-AIO)\n    --titles            Also record foreground window titles (off by default)\n    --duration <SECS>   Stop after N seconds (headless; no window)\n    --tray              Start hidden in the tray\n    --out <FILE>        Output path for `export`\n\nNOTES:\n    Data defaults to local disk, never the project folder. At 1 kHz this writes\n    continuously and a cloud-synced directory would re-upload it all day.\n",
    );
    s
}

// ---- list -----------------------------------------------------------------------------------

/// The state of a session in a word. One that was interrupted is called so whatever
/// else its header says.
pub open spec fn state_spec(r: VerifyReport) -> Seq<char> {
    if r.interrupted {
        "INTERRUPTED"@
    } else if r.clean_shutdown {
        "clean"@
    } else {
        "in progress"@
    }
}

/// The state of a session in a word.
pub fn state_label(r: &VerifyReport) -> (s: &'static str)
    ensures
        s@ == state_spec(*r),
{
    if r.interrupted {
        "INTERRUPTED"
    } else if r.clean_shutdown {
        "clean"
    } else {
        "in progress"
    }
}

/// The line over a list of sessions.
pub open spec fn list_header_spec() -> Seq<char> {
    crate::text::left_aligned("session"@, 34).push(' ') + crate::text::right_aligned(
        "events"@,
        12,
    ) + " "@ + crate::text::right_aligned("dropped"@, 9) + " "@ + crate::text::right_aligned(
        "duration"@,
        10,
    ) + "  state"@
}

/// The line over a list of sessions.
pub fn list_header() -> (s: String)
    ensures
        s@ == list_header_spec(),
{
    let mut s = String::new();
    push_left_aligned(&mut s, "session", 34);
    assert(s@ =~= crate::text::left_aligned("session"@, 34));
    s.push(' ');
    push_right_aligned(&mut s, "events", 12);
    s.append(" ");
    push_right_aligned(&mut s, "dropped", 9);
    s.append(" ");
    push_right_aligned(&mut s, "duration", 10);
    s.append("  state");
    s
}

/// A session's line in a list, given its duration in whole seconds as text.
pub open spec fn list_line_spec(r: VerifyReport, seconds: Seq<char>) -> Seq<char> {
    crate::text::left_aligned(r.session_id@, 34).push(' ') + crate::text::right_aligned(
        crate::text::decimal(r.events_found as nat),
        12,
    ) + " "@ + crate::text::right_aligned(crate::text::decimal(r.dropped_claimed as nat), 9) + " "@
        + crate::text::right_aligned(seconds, 9) + "s  "@ + state_spec(r)
}

/// A session's line in a list, given its duration in whole seconds as text.
pub fn list_line(r: &VerifyReport, seconds: &str) -> (s: String)
    ensures
        s@ == list_line_spec(*r, seconds@),
{
    let mut s = String::new();
    push_left_aligned(&mut s, r.session_id.as_str(), 34);
    assert(s@ =~= crate::text::left_aligned(r.session_id@, 34));
    s.push(' ');
    let events = decimal_text(r.events_found);
    push_right_aligned(&mut s, events.as_str(), 12);
    s.append(" ");
    let dropped = decimal_text(r.dropped_claimed);
    push_right_aligned(&mut s, dropped.as_str(), 9);
    s.append(" ");
    push_right_aligned(&mut s, seconds, 9);
    s.append("s  ");
    s.append(state_label(r));
    s
}

/// The line of a session that cannot be read.
pub fn unreadable_line(name: &str, why: &str) -> (s: String)
    ensures
        s@ == crate::text::left_aligned(name@, 34) + " <unreadable: "@ + why@ + ">"@,
{
    let mut s = String::new();
    push_left_aligned(&mut s, name, 34);
    assert(s@ =~= crate::text::left_aligned(name@, 34));
    s.append(" <unreadable: ");
    s.append(why);
    s.append(">");
    s
}

// ---- verify ---------------------------------------------------------------------------------

/// What an audit finds wrong, in words. A session still in progress, or one that
/// crashed, legitimately has fewer events in its header than on disk; only a clean
/// one must agree.
pub open spec fn problems_spec(r: VerifyReport) -> Seq<Seq<char>> {
    let order = if r.monotonic_violations > 0 {
        seq![
            "FAIL: "@ + crate::text::decimal(r.monotonic_violations as nat)
                + " timestamp regressions"@,
        ]
    } else {
        seq![]
    };
    let count = if r.clean_shutdown && r.events_found != r.events_claimed {
        seq![
            "FAIL: header claims "@ + crate::text::decimal(r.events_claimed as nat)
                + " events, disk holds "@ + crate::text::decimal(r.events_found as nat),
        ]
    } else {
        seq![]
    };
    let torn = if r.truncated_segments > 0 && r.clean_shutdown {
        seq!["FAIL: clean session must not have truncated segments"@]
    } else {
        seq![]
    };
    order + count + torn
}

/// What an audit finds wrong, in words; nothing where it finds nothing.
pub fn problems(r: &VerifyReport) -> (v: Vec<String>)
    ensures
        crate::text::views(v@) == problems_spec(*r),
{
    let mut v: Vec<String> = Vec::new();
    if r.monotonic_violations > 0 {
        let mut s = "FAIL: ".to_owned();
        push_decimal(&mut s, r.monotonic_violations);
        s.append(" timestamp regressions");
        v.push(s);
    }
    if r.clean_shutdown && r.events_found != r.events_claimed {
        let mut s = "FAIL: header claims ".to_owned();
        push_decimal(&mut s, r.events_claimed);
        s.append(" events, disk holds ");
        push_decimal(&mut s, r.events_found);
        v.push(s);
    }
    if r.truncated_segments > 0 && r.clean_shutdown {
        v.push("FAIL: clean session must not have truncated segments".to_owned());
    }
    assert(crate::text::views(v@) =~= problems_spec(*r));
    v
}

/// yes or no, as the audit writes it.
pub open spec fn bool_spec(b: bool) -> Seq<char> {
    if b {
        "true"@
    } else {
        "false"@
    }
}

fn bool_text(b: bool) -> (s: &'static str)
    ensures
        s@ == bool_spec(b),
{
    if b {
        "true"
    } else {
        "false"
    }
}

/// A labelled line.
fn labelled(label: &str, value: &str) -> (s: String)
    ensures
        s@ == label@ + value@,
{
    let mut s = label.to_owned();
    s.append(value);
    s
}

/// A labelled number.
fn labelled_number(label: &str, n: u64) -> (s: String)
    ensures
        s@ == label@ + crate::text::decimal(n as nat),
{
    let mut s = label.to_owned();
    push_decimal(&mut s, n);
    s
}

/// What an audit prints, given the duration in seconds as text.
pub open spec fn verify_lines_spec(r: VerifyReport, seconds: Seq<char>) -> Seq<Seq<char>> {
    seq![
        "session           : "@ + r.session_id@,
        "events on disk    : "@ + crate::text::decimal(r.events_found as nat),
        "events in header  : "@ + crate::text::decimal(r.events_claimed as nat),
        "dropped (reported): "@ + crate::text::decimal(r.dropped_claimed as nat),
        "duration          : "@ + seconds + " s"@,
        "truncated segments: "@ + crate::text::decimal(r.truncated_segments as nat),
        "clean shutdown    : "@ + bool_spec(r.clean_shutdown),
        "interrupted       : "@ + bool_spec(r.interrupted),
        "timestamp order   : "@ + if r.monotonic_violations == 0 {
            "monotonic"@
        } else {
            "VIOLATED"@
        },
    ]
}

/// What an audit prints, given the duration in seconds as text.
pub fn verify_lines(r: &VerifyReport, seconds: &str) -> (v: Vec<String>)
    ensures
        crate::text::views(v@) == verify_lines_spec(*r, seconds@),
{
    let mut v: Vec<String> = Vec::new();
    v.push(labelled("session           : ", r.session_id.as_str()));
    v.push(labelled_number("events on disk    : ", r.events_found));
    v.push(labelled_number("events in header  : ", r.events_claimed));
    v.push(labelled_number("dropped (reported): ", r.dropped_claimed));
    let mut duration = labelled("duration          : ", seconds);
    duration.append(" s");
    v.push(duration);
    v.push(labelled_number("truncated segments: ", r.truncated_segments as u64));
    v.push(labelled("clean shutdown    : ", bool_text(r.clean_shutdown)));
    v.push(labelled("interrupted       : ", bool_text(r.interrupted)));
    v.push(
        labelled(
            "timestamp order   : ",
            if r.monotonic_violations == 0 {
                "monotonic"
            } else {
                "VIOLATED"
            },
        ),
    );
    assert(crate::text::views(v@) =~= verify_lines_spec(*r, seconds@));
    v
}

/// The verdict of an audit, in a word.
pub fn verdict(problems: &Vec<String>) -> (s: &'static str)
    ensures
        s@ == if problems@.len() == 0 {
            "OK"@
        } else {
            "PROBLEMS FOUND"@
        },
{
    if problems.len() == 0 {
        "OK"
    } else {
        "PROBLEMS FOUND"
    }
}

// ---- export -----------------------------------------------------------------------------------

/// What an export prints.
pub open spec fn export_lines_spec(stats: ExportStats, path: Seq<char>) -> Seq<Seq<char>> {
    let what = seq![
        "exported "@ + crate::text::decimal(stats.events as nat) + " events from "@
            + crate::text::decimal(stats.segments as nat) + " segment(s)"@,
    ];
    let note = if stats.truncated_segments > 0 {
        seq![
            "note: "@ + crate::text::decimal(stats.truncated_segments as nat)
                + " segment(s) had a truncated tail (interrupted session)"@,
        ]
    } else {
        seq![]
    };
    what + note + seq!["-> "@ + path]
}

/// What an export prints.
pub fn export_lines(stats: &ExportStats, path: &str) -> (v: Vec<String>)
    ensures
        crate::text::views(v@) == export_lines_spec(*stats, path@),
{
    let mut v: Vec<String> = Vec::new();
    let mut what = labelled_number("exported ", stats.events);
    what.append(" events from ");
    push_decimal(&mut what, stats.segments as u64);
    what.append(" segment(s)");
    v.push(what);
    if stats.truncated_segments > 0 {
        let mut note = labelled_number("note: ", stats.truncated_segments as u64);
        note.append(" segment(s) had a truncated tail (interrupted session)");
        v.push(note);
    }
    v.push(labelled("-> ", path));
    assert(crate::text::views(v@) =~= export_lines_spec(*stats, path@));
    v
}

// ---- info -------------------------------------------------------------------------------------

/// A USB id, or a dash where there is none.
pub open spec fn id_text(id: Option<u16>) -> Seq<char> {
    match id {
        Some(v) => crate::text::hex4(v, true),
        None => "-"@,
    }
}

fn push_id(s: &mut String, id: Option<u16>)
    ensures
        final(s)@ == old(s)@ + id_text(id),
{
    match id {
        Some(v) => push_hex4(s, v, true),
        None => s.append("-"),
    }
}

/// The two lines of a mouse.
pub open spec fn mouse_lines_spec(d: DeviceInfo) -> Seq<Seq<char>> {
    seq![
        "  ["@ + crate::text::decimal(d.index as nat) + "] "@ + d.name@,
        "       vid="@ + id_text(d.vendor_id) + " pid="@ + id_text(d.product_id) + " buttons="@
            + crate::text::decimal(d.buttons as nat) + " reported_rate="@ + crate::text::decimal(
            d.reported_sample_rate as nat,
        ) + "Hz hwheel="@ + bool_spec(d.has_horizontal_wheel),
    ]
}

/// The lines of the mice that are real, in order.
pub open spec fn mice_lines(devices: Seq<DeviceInfo>) -> Seq<Seq<char>>
    decreases devices.len(),
{
    if devices.len() == 0 {
        seq![]
    } else if devices.last().synthetic {
        mice_lines(devices.drop_last())
    } else {
        mice_lines(devices.drop_last()) + mouse_lines_spec(devices.last())
    }
}

/// What is printed of the mice: two lines each, or that there are none.
pub fn device_lines(devices: &[DeviceInfo]) -> (v: Vec<String>)
    ensures
        crate::text::views(v@) == if mice_lines(devices@).len() == 0 {
            seq!["  (none detected)"@]
        } else {
            mice_lines(devices@)
        },
{
    let mut v: Vec<String> = Vec::new();
    let mut i: usize = 0;
    assert(devices@.take(0) =~= seq![]);
    assert(crate::text::views(v@) =~= seq![]);
    while i < devices.len()
        invariant
            i <= devices@.len(),
            crate::text::views(v@) == mice_lines(devices@.take(i as int)),
        decreases devices@.len() - i,
    {
        let d = &devices[i];
        let ghost before = crate::text::views(v@);
        proof {
            let next = devices@.take(i + 1);
            assert(next.drop_last() =~= devices@.take(i as int));
            assert(next.last() == *d);
        }
        if !d.synthetic {
            let mut a = labelled_number("  [", d.index as u64);
            a.append("] ");
            a.append(d.name.as_str());
            let mut b = "       vid=".to_owned();
            push_id(&mut b, d.vendor_id);
            b.append(" pid=");
            push_id(&mut b, d.product_id);
            b.append(" buttons=");
            push_decimal(&mut b, d.buttons as u64);
            b.append(" reported_rate=");
            push_decimal(&mut b, d.reported_sample_rate as u64);
            b.append("Hz hwheel=");
            b.append(bool_text(d.has_horizontal_wheel));
            v.push(a);
            v.push(b);
            assert(crate::text::views(v@) =~= before + mouse_lines_spec(*d));
        }
        i = i + 1;
    }
    assert(devices@.take(i as int) =~= devices@);
    if v.len() == 0 {
        v.push("  (none detected)".to_owned());
        assert(crate::text::views(v@) =~= seq!["  (none detected)"@]);
    }
    v
}

/// A monitor's line, given its scaling as text.
pub open spec fn monitor_line_spec(m: MonitorInfo, scale: Seq<char>) -> Seq<char> {
    "  ["@ + crate::text::decimal(m.index as nat) + "] "@ + m.device@ + " "@
        + crate::text::signed_decimal(m.right - m.left) + "x"@ + crate::text::signed_decimal(
        m.bottom - m.top,
    ) + " @ ("@ + crate::text::signed_decimal(m.left as int) + ","@ + crate::text::signed_decimal(
        m.top as int,
    ) + ")  dpi="@ + crate::text::decimal(m.dpi_x as nat) + " scale="@ + scale + if m.primary {
        "  [primary]"@
    } else {
        ""@
    }
}

/// A monitor's line, given its scaling as text.
pub fn monitor_line(m: &MonitorInfo, scale: &str) -> (s: String)
    requires
        i32::MIN <= m.right - m.left <= i32::MAX,
        i32::MIN <= m.bottom - m.top <= i32::MAX,
    ensures
        s@ == monitor_line_spec(*m, scale@),
{
    let mut s = labelled_number("  [", m.index as u64);
    s.append("] ");
    s.append(m.device.as_str());
    s.append(" ");
    push_signed(&mut s, m.width() as i64);
    s.append("x");
    push_signed(&mut s, m.height() as i64);
    s.append(" @ (");
    push_signed(&mut s, m.left as i64);
    s.append(",");
    push_signed(&mut s, m.top as i64);
    s.append(")  dpi=");
    push_decimal(&mut s, m.dpi_x as u64);
    s.append(" scale=");
    s.append(scale);
    s.append(
        if m.primary {
            "  [primary]"
        } else {
            ""
        },
    );
    s
}

/// What is printed of the pointer settings, given the curves as text.
pub open spec fn ballistics_lines_spec(b: Ballistics, x: Seq<char>, y: Seq<char>) -> Seq<Seq<char>> {
    let settings = seq![
        "  pointer speed (1-20)     : "@ + crate::text::signed_decimal(b.pointer_speed as int),
        "  enhance pointer precision: "@ + if b.enhance_pointer_precision == 0 {
            "off"@
        } else {
            "ON"@
        },
        "  thresholds               : "@ + crate::text::signed_decimal(b.mouse_threshold1 as int)
            + " / "@ + crate::text::signed_decimal(b.mouse_threshold2 as int),
        "  SmoothMouseXCurve        : "@ + x,
        "  SmoothMouseYCurve        : "@ + y,
    ];
    if b.enhance_pointer_precision == 0 {
        settings
    } else {
        settings + seq![
            ""@,
            "  Acceleration is ON, so raw->cursor is non-linear. The curve above is"@,
            "  recorded with every session, which is what makes it invertible later."@,
        ]
    }
}

/// What is printed of the pointer settings, given the curves as text.
pub fn ballistics_lines(b: &Ballistics, x: &str, y: &str) -> (v: Vec<String>)
    ensures
        crate::text::views(v@) == ballistics_lines_spec(*b, x@, y@),
{
    let mut v: Vec<String> = Vec::new();
    let mut speed = "  pointer speed (1-20)     : ".to_owned();
    push_signed(&mut speed, b.pointer_speed as i64);
    v.push(speed);
    v.push(
        labelled(
            "  enhance pointer precision: ",
            if b.is_linear() {
                "off"
            } else {
                "ON"
            },
        ),
    );
    let mut thresholds = "  thresholds               : ".to_owned();
    push_signed(&mut thresholds, b.mouse_threshold1 as i64);
    thresholds.append(" / ");
    push_signed(&mut thresholds, b.mouse_threshold2 as i64);
    v.push(thresholds);
    v.push(labelled("  SmoothMouseXCurve        : ", x));
    v.push(labelled("  SmoothMouseYCurve        : ", y));
    if !b.is_linear() {
        v.push("".to_owned());
        v.push("  Acceleration is ON, so raw->cursor is non-linear. The curve above is".to_owned());
        v.push(
            "  recorded with every session, which is what makes it invertible later.".to_owned(),
        );
    }
    assert(crate::text::views(v@) =~= ballistics_lines_spec(*b, x@, y@));
    v
}

// ---- laws -----------------------------------------------------------------------------

/// An audit finds no problem just when the timestamps are in order and, of a clean
/// session, the count agrees with the header and no segment is torn.
pub proof fn law_audit_passes_only_sound_sessions(r: VerifyReport)
    ensures
        problems_spec(r).len() == 0 <==> {
            &&& r.monotonic_violations == 0
            &&& r.clean_shutdown ==> r.events_found == r.events_claimed && r.truncated_segments
                == 0
        },
{
}

/// A positional argument is neither empty nor a flag.
pub proof fn law_positional_argument_is_no_flag(args: Seq<String>, from: int)
    requires
        0 <= from,
    ensures
        positional_from(args, from) matches Some(i) ==> {
            &&& from <= i < args.len()
            &&& args[i]@.len() > 0
            &&& !takes_value(args[i]@)
            &&& !crate::text::starts_with_spec(args[i]@, "--"@)
        },
    decreases args.len() + 1 - from,
{
    if from < args.len() {
        if takes_value(args[from]@) {
            law_positional_argument_is_no_flag(args, from + 2);
        } else {
            law_positional_argument_is_no_flag(args, from + 1);
        }
    }
}

/// A session that a later run found unclean is called interrupted, one that ended well
/// clean, and any other is still in progress; and the three are told apart.
pub proof fn law_state_is_told_in_a_word(r: VerifyReport)
    ensures
        state_spec(r) == "INTERRUPTED"@ <==> r.interrupted,
        state_spec(r) == "clean"@ <==> !r.interrupted && r.clean_shutdown,
        state_spec(r) == "in progress"@ <==> !r.interrupted && !r.clean_shutdown,
{
    reveal_strlit("INTERRUPTED");
    reveal_strlit("clean");
    reveal_strlit("in progress");
    assert("INTERRUPTED"@[0] != "in progress"@[0]);
    assert("INTERRUPTED"@.len() != "clean"@.len());
    assert("in progress"@.len() != "clean"@.len());
}

/// The line is the label and then the number.
pub open spec fn says(line: Seq<char>, label: Seq<char>, n: int) -> bool {
    &&& label.len() <= line.len()
    &&& line.take(label.len() as int) == label
    &&& crate::text::digits_value(line.skip(label.len() as int)) == n
}

proof fn lemma_says(label: Seq<char>, n: nat)
    ensures
        says(label + crate::text::decimal(n), label, n as int),
{
    let line = label + crate::text::decimal(n);
    crate::text::lemma_decimal_value(n);
    assert(line.take(label.len() as int) =~= label);
    assert(line.skip(label.len() as int) =~= crate::text::decimal(n));
}

/// What an audit prints reads back as what it found: each number stands behind its own
/// label, and the timestamps are called monotonic just where none runs backwards.
pub proof fn law_what_an_audit_prints_reads_back(r: VerifyReport, seconds: Seq<char>)
    ensures
        ({
            let lines = verify_lines_spec(r, seconds);
            &&& lines.len() == 9
            &&& lines[0] == "session           : "@ + r.session_id@
            &&& says(lines[1], "events on disk    : "@, r.events_found as int)
            &&& says(lines[2], "events in header  : "@, r.events_claimed as int)
            &&& says(lines[3], "dropped (reported): "@, r.dropped_claimed as int)
            &&& lines[4] == "duration          : "@ + seconds + " s"@
            &&& says(lines[5], "truncated segments: "@, r.truncated_segments as int)
            &&& lines[6] == "clean shutdown    : "@ + if r.clean_shutdown {
                "true"@
            } else {
                "false"@
            }
            &&& lines[7] == "interrupted       : "@ + if r.interrupted {
                "true"@
            } else {
                "false"@
            }
            &&& lines[8] == "timestamp order   : monotonic"@ <==> r.monotonic_violations == 0
        }),
{
    lemma_says("events on disk    : "@, r.events_found as nat);
    lemma_says("events in header  : "@, r.events_claimed as nat);
    lemma_says("dropped (reported): "@, r.dropped_claimed as nat);
    lemma_says("truncated segments: "@, r.truncated_segments as nat);
    reveal_strlit("timestamp order   : ");
    reveal_strlit("timestamp order   : monotonic");
    reveal_strlit("monotonic");
    reveal_strlit("VIOLATED");
    assert("timestamp order   : "@ + "monotonic"@ =~= "timestamp order   : monotonic"@);
    assert(("timestamp order   : "@ + "VIOLATED"@).len() != "timestamp order   : monotonic"@.len());
}

/// Every problem of its own is told in a line of its own.
pub proof fn law_every_problem_is_told(r: VerifyReport)
    ensures
        problems_spec(r).len() == (if r.monotonic_violations == 0 {
            0int
        } else {
            1
        }) + (if r.clean_shutdown && r.events_found != r.events_claimed {
            1int
        } else {
            0
        }) + (if r.clean_shutdown && r.truncated_segments != 0 {
            1int
        } else {
            0
        }),
{
}

/// The value of a flag is the argument behind the first place where the flag stands.
pub proof fn law_a_flag_is_followed_by_its_value(args: Seq<String>, name: Seq<char>, i: int)
    requires
        0 <= i < args.len(),
        args[i]@ == name,
        forall|k: int| 0 <= k < i ==> #[trigger] args[k]@ != name,
    ensures
        place_of_flag(args, name, 0) == Some(i),
        i + 1 < args.len() ==> flag_value_spec(args, name) == Some(args[i + 1]@),
        i + 1 == args.len() ==> flag_value_spec(args, name) is None,
{
    lemma_first_place(args, name, 0, i);
}

proof fn lemma_first_place(args: Seq<String>, name: Seq<char>, from: int, i: int)
    requires
        0 <= from <= i < args.len(),
        args[i]@ == name,
        forall|k: int| 0 <= k < i ==> #[trigger] args[k]@ != name,
    ensures
        place_of_flag(args, name, from) == Some(i),
    decreases i - from,
{
    if from < i {
        assert(args[from]@ != name);
        lemma_first_place(args, name, from + 1, i);
    }
}

/// A flag that does not stand among the arguments has no place there and no value.
pub proof fn law_a_flag_that_is_not_there_has_no_value(args: Seq<String>, name: Seq<char>)
    requires
        forall|k: int| 0 <= k < args.len() ==> #[trigger] args[k]@ != name,
    ensures
        place_of_flag(args, name, 0) is None,
        flag_value_spec(args, name) is None,
{
    lemma_place_of_flag(args, name, 0);
}

/// The flags with a value are passed over together with it, the others alone; the first
/// argument that is neither, and not empty, is the one that is meant.
pub proof fn law_flags_and_their_values_are_passed_over(args: Seq<String>, from: int)
    requires
        0 <= from < args.len(),
    ensures
        ({
            let a = args[from]@;
            let valued = a == "--data"@ || a == "--out"@ || a == "--duration"@;
            let dashed = a.len() >= 2 && a[0] == '-' && a[1] == '-';
            &&& valued ==> positional_from(args, from) == positional_from(args, from + 2)
            &&& !valued && (dashed || a.len() == 0) ==> positional_from(args, from)
                == positional_from(args, from + 1)
            &&& !valued && !dashed && a.len() > 0 ==> positional_from(args, from) == Some(from)
        }),
{
    let a = args[from]@;
    reveal_strlit("--");
    reveal_strlit("--data");
    reveal_strlit("--out");
    reveal_strlit("--duration");
    if a.len() >= 2 {
        assert(a.take(2)[0] == a[0] && a.take(2)[1] == a[1]);
        if a[0] == '-' && a[1] == '-' {
            assert(a.take(2) =~= "--"@);
        }
    }
}

/// Every command goes by its own word.
pub proof fn law_commands_go_by_their_words(a: Command, b: Command, args: Seq<String>)
    requires
        is_command(a, args),
        is_command(b, args),
        args.len() > 0,
    ensures
        args[0]@ == "list"@ ==> a is List,
        args[0]@ == "verify"@ ==> a is Verify,
        args[0]@ == "export"@ ==> a is Export,
        args[0]@ == "info"@ ==> a is Info,
        args[0]@ == "stats"@ ==> a is Stats,
        args[0]@ == "startup"@ ==> a is Startup,
        args[0]@ == "record"@ ==> a is Record,
        args[0]@ == "help"@ || args[0]@ == "-h"@ || args[0]@ == "--help"@ ==> a is Help,
        a is Unknown <==> b is Unknown,
{
    lemma_words_differ();
}

/// No two words of the command line are the same.
proof fn lemma_words_differ()
    ensures
        ""@ != "list"@,
        ""@ != "verify"@,
        ""@ != "export"@,
        ""@ != "info"@,
        ""@ != "stats"@,
        ""@ != "startup"@,
        ""@ != "record"@,
        ""@ != "help"@,
        ""@ != "-h"@,
        ""@ != "--help"@,
        "list"@ != "verify"@,
        "list"@ != "export"@,
        "list"@ != "info"@,
        "list"@ != "stats"@,
        "list"@ != "startup"@,
        "list"@ != "record"@,
        "list"@ != "help"@,
        "list"@ != "-h"@,
        "list"@ != "--help"@,
        "verify"@ != "export"@,
        "verify"@ != "info"@,
        "verify"@ != "stats"@,
        "verify"@ != "startup"@,
        "verify"@ != "record"@,
        "verify"@ != "help"@,
        "verify"@ != "-h"@,
        "verify"@ != "--help"@,
        "export"@ != "info"@,
        "export"@ != "stats"@,
        "export"@ != "startup"@,
        "export"@ != "record"@,
        "export"@ != "help"@,
        "export"@ != "-h"@,
        "export"@ != "--help"@,
        "info"@ != "stats"@,
        "info"@ != "startup"@,
        "info"@ != "record"@,
        "info"@ != "help"@,
        "info"@ != "-h"@,
        "info"@ != "--help"@,
        "stats"@ != "startup"@,
        "stats"@ != "record"@,
        "stats"@ != "help"@,
        "stats"@ != "-h"@,
        "stats"@ != "--help"@,
        "startup"@ != "record"@,
        "startup"@ != "help"@,
        "startup"@ != "-h"@,
        "startup"@ != "--help"@,
        "record"@ != "help"@,
        "record"@ != "-h"@,
        "record"@ != "--help"@,
        "help"@ != "-h"@,
        "help"@ != "--help"@,
        "-h"@ != "--help"@,
{
    reveal_strlit("");
    reveal_strlit("list");
    reveal_strlit("verify");
    reveal_strlit("export");
    reveal_strlit("info");
    reveal_strlit("stats");
    reveal_strlit("startup");
    reveal_strlit("record");
    reveal_strlit("help");
    reveal_strlit("-h");
    reveal_strlit("--help");
    assert(""@.len() != "list"@.len());
    assert(""@.len() != "verify"@.len());
    assert(""@.len() != "export"@.len());
    assert(""@.len() != "info"@.len());
    assert(""@.len() != "stats"@.len());
    assert(""@.len() != "startup"@.len());
    assert(""@.len() != "record"@.len());
    assert(""@.len() != "help"@.len());
    assert(""@.len() != "-h"@.len());
    assert(""@.len() != "--help"@.len());
    assert("list"@.len() != "verify"@.len());
    assert("list"@.len() != "export"@.len());
    assert("list"@[0] != "info"@[0]);
    assert("list"@.len() != "stats"@.len());
    assert("list"@.len() != "startup"@.len());
    assert("list"@.len() != "record"@.len());
    assert("list"@[0] != "help"@[0]);
    assert("list"@.len() != "-h"@.len());
    assert("list"@.len() != "--help"@.len());
    assert("verify"@[0] != "export"@[0]);
    assert("verify"@.len() != "info"@.len());
    assert("verify"@.len() != "stats"@.len());
    assert("verify"@.len() != "startup"@.len());
    assert("verify"@[0] != "record"@[0]);
    assert("verify"@.len() != "help"@.len());
    assert("verify"@.len() != "-h"@.len());
    assert("verify"@[0] != "--help"@[0]);
    assert("export"@.len() != "info"@.len());
    assert("export"@.len() != "stats"@.len());
    assert("export"@.len() != "startup"@.len());
    assert("export"@[0] != "record"@[0]);
    assert("export"@.len() != "help"@.len());
    assert("export"@.len() != "-h"@.len());
    assert("export"@[0] != "--help"@[0]);
    assert("info"@.len() != "stats"@.len());
    assert("info"@.len() != "startup"@.len());
    assert("info"@.len() != "record"@.len());
    assert("info"@[0] != "help"@[0]);
    assert("info"@.len() != "-h"@.len());
    assert("info"@.len() != "--help"@.len());
    assert("stats"@.len() != "startup"@.len());
    assert("stats"@.len() != "record"@.len());
    assert("stats"@.len() != "help"@.len());
    assert("stats"@.len() != "-h"@.len());
    assert("stats"@.len() != "--help"@.len());
    assert("startup"@.len() != "record"@.len());
    assert("startup"@.len() != "help"@.len());
    assert("startup"@.len() != "-h"@.len());
    assert("startup"@.len() != "--help"@.len());
    assert("record"@.len() != "help"@.len());
    assert("record"@.len() != "-h"@.len());
    assert("record"@[0] != "--help"@[0]);
    assert("help"@.len() != "-h"@.len());
    assert("help"@.len() != "--help"@.len());
    assert("-h"@.len() != "--help"@.len());
}

/// The synthetic device is never shown, every real mouse is, with two lines of its own.
pub proof fn law_real_mice_are_shown(devices: Seq<DeviceInfo>, d: DeviceInfo)
    ensures
        d.synthetic ==> mice_lines(devices.push(d)) == mice_lines(devices),
        !d.synthetic ==> mice_lines(devices.push(d)).len() == mice_lines(devices).len() + 2
            && mice_lines(devices.push(d)) == mice_lines(devices) + mouse_lines_spec(d),
{
    assert(devices.push(d).drop_last() =~= devices);
}

/// An export says how much it wrote, and does not pass over torn segments in silence.
pub proof fn law_an_export_tells_of_torn_segments(stats: ExportStats, path: Seq<char>)
    ensures
        export_lines_spec(stats, path).len() == if stats.truncated_segments == 0 {
            2int
        } else {
            3
        },
        export_lines_spec(stats, path).last() == "-> "@ + path,
        export_lines_spec(stats, path)[0] == "exported "@ + crate::text::decimal(
            stats.events as nat,
        ) + " events from "@ + crate::text::decimal(stats.segments as nat) + " segment(s)"@,
{
}

/// The text without its blanks.
pub open spec fn without_blanks(text: Seq<char>) -> Seq<char>
    decreases text.len(),
{
    if text.len() == 0 {
        seq![]
    } else if text.last() == ' ' {
        without_blanks(text.drop_last())
    } else {
        without_blanks(text.drop_last()).push(text.last())
    }
}

proof fn lemma_without_blanks(blanks: Seq<char>, text: Seq<char>)
    requires
        forall|i: int| 0 <= i < blanks.len() ==> #[trigger] blanks[i] == ' ',
        forall|i: int| 0 <= i < text.len() ==> #[trigger] text[i] != ' ',
    ensures
        without_blanks(blanks + text) == text,
    decreases blanks.len() + text.len(),
{
    let all = blanks + text;
    if text.len() > 0 {
        let shorter = text.drop_last();
        assert forall|i: int| 0 <= i < shorter.len() implies #[trigger] shorter[i] != ' ' by {
            assert(shorter[i] == text[i]);
        }
        lemma_without_blanks(blanks, shorter);
        assert(all.drop_last() =~= blanks + shorter);
        assert(text[text.len() - 1] != ' ');
        assert(shorter.push(text.last()) =~= text);
    } else if blanks.len() > 0 {
        let fewer = blanks.drop_last();
        assert forall|i: int| 0 <= i < fewer.len() implies #[trigger] fewer[i] == ' ' by {
            assert(fewer[i] == blanks[i]);
        }
        lemma_without_blanks(fewer, text);
        assert(all =~= blanks);
        assert(fewer + text =~= fewer);
        assert(blanks[blanks.len() - 1] == ' ');
    } else {
        assert(without_blanks(all) =~= text);
    }
}

proof fn lemma_column_reads_back(n: nat, width: nat)
    ensures
        crate::text::digits_value(
            without_blanks(crate::text::right_aligned(crate::text::decimal(n), width)),
        ) == n,
{
    let d = crate::text::decimal(n);
    lemma_decimal_not_blank(n);
    lemma_without_blanks(crate::text::repeated(' ', width - d.len()), d);
    crate::text::lemma_decimal_value(n);
}

proof fn lemma_decimal_not_blank(n: nat)
    ensures
        forall|i: int|
            0 <= i < crate::text::decimal(n).len() ==> #[trigger] crate::text::decimal(n)[i] != ' ',
    decreases n,
{
    let d = crate::text::decimal(n);
    if n >= 10 {
        let head = crate::text::decimal(n / 10);
        lemma_decimal_not_blank(n / 10);
        assert forall|i: int| 0 <= i < d.len() implies #[trigger] d[i] != ' ' by {
            if i < head.len() {
                assert(d[i] == head[i]);
            } else {
                assert(d[i] == crate::text::digit_char((n % 10) as int));
            }
        }
    } else {
        assert(d[0] == crate::text::digit_char(n as int));
    }
}

/// A session's line in the list reads back column by column: its name, its events, what
/// was dropped and its state.
pub proof fn law_a_line_of_the_list_reads_back(r: VerifyReport, seconds: Seq<char>)
    requires
        r.session_id@.len() <= 34,
        crate::text::decimal(r.events_found as nat).len() <= 12,
        crate::text::decimal(r.dropped_claimed as nat).len() <= 9,
        seconds.len() <= 9,
    ensures
        ({
            let line = list_line_spec(r, seconds);
            &&& line.take(r.session_id@.len() as int) == r.session_id@
            &&& crate::text::digits_value(without_blanks(line.subrange(35, 47))) == r.events_found
            &&& crate::text::digits_value(without_blanks(line.subrange(48, 57)))
                == r.dropped_claimed
            &&& line.subrange(67 - seconds.len(), 67) == seconds
            &&& line.skip(70) == state_spec(r)
        }),
{
    reveal_strlit(" ");
    reveal_strlit("s  ");
    let line = list_line_spec(r, seconds);
    let events = crate::text::right_aligned(crate::text::decimal(r.events_found as nat), 12);
    let dropped = crate::text::right_aligned(crate::text::decimal(r.dropped_claimed as nat), 9);
    crate::text::law_aligned_text_fills_its_column(r.session_id@, 34);
    crate::text::law_aligned_text_fills_its_column(crate::text::decimal(r.events_found as nat), 12);
    crate::text::law_aligned_text_fills_its_column(
        crate::text::decimal(r.dropped_claimed as nat),
        9,
    );
    crate::text::law_aligned_text_fills_its_column(seconds, 9);
    lemma_column_reads_back(r.events_found as nat, 12);
    lemma_column_reads_back(r.dropped_claimed as nat, 9);
    assert(line.take(r.session_id@.len() as int) =~= r.session_id@);
    assert(line.subrange(35, 47) =~= events);
    assert(line.subrange(48, 57) =~= dropped);
    assert(line.subrange(67 - seconds.len(), 67) =~= seconds);
    assert(line.skip(70) =~= state_spec(r));
}

/// The pointer settings are printed each in its own line, and acceleration is called on
/// just where it is.
pub proof fn law_pointer_settings_are_printed_as_they_are(b: Ballistics, x: Seq<char>, y: Seq<char>)
    ensures
        ({
            let lines = ballistics_lines_spec(b, x, y);
            &&& lines[0] == "  pointer speed (1-20)     : "@ + crate::text::signed_decimal(
                b.pointer_speed as int,
            )
            &&& b.enhance_pointer_precision == 0 ==> lines.len() == 5 && lines[1]
                == "  enhance pointer precision: "@ + "off"@
            &&& b.enhance_pointer_precision != 0 ==> lines.len() == 8 && lines[1]
                == "  enhance pointer precision: "@ + "ON"@
            &&& lines[3] == "  SmoothMouseXCurve        : "@ + x
            &&& lines[4] == "  SmoothMouseYCurve        : "@ + y
        }),
{
}

/// A monitor's line tells where it stands and how large it is: its width and height are
/// the same wherever it is moved to, and only the first one is called so.
pub proof fn law_a_monitor_is_told_by_size_and_place(
    m: MonitorInfo,
    width: int,
    height: int,
    scale: Seq<char>,
)
    requires
        m.right == m.left + width,
        m.bottom == m.top + height,
    ensures
        ({
            let size = " "@ + crate::text::signed_decimal(width) + "x"@
                + crate::text::signed_decimal(height);
            let place = " @ ("@ + crate::text::signed_decimal(m.left as int) + ","@
                + crate::text::signed_decimal(m.top as int) + ")"@;
            let name = "  ["@ + crate::text::decimal(m.index as nat) + "] "@ + m.device@;
            let plain = MonitorInfo { primary: false, ..m };
            &&& crate::text::starts_with_spec(monitor_line_spec(m, scale), name + size + place)
            &&& m.primary ==> monitor_line_spec(m, scale) == monitor_line_spec(plain, scale)
                + "  [primary]"@
            &&& !m.primary ==> monitor_line_spec(m, scale) == name + size + place + "  dpi="@
                + crate::text::decimal(m.dpi_x as nat) + " scale="@ + scale
        }),
{
    let size = " "@ + crate::text::signed_decimal(width) + "x"@ + crate::text::signed_decimal(
        height,
    );
    let place = " @ ("@ + crate::text::signed_decimal(m.left as int) + ","@
        + crate::text::signed_decimal(m.top as int) + ")"@;
    let name = "  ["@ + crate::text::decimal(m.index as nat) + "] "@ + m.device@;
    let rest = "  dpi="@ + crate::text::decimal(m.dpi_x as nat) + " scale="@ + scale;
    let plain = MonitorInfo { primary: false, ..m };
    reveal_strlit("");
    reveal_strlit(")");
    reveal_strlit(")  dpi=");
    reveal_strlit("  dpi=");
    assert(")  dpi="@ =~= ")"@ + "  dpi="@);
    assert(monitor_line_spec(plain, scale) =~= name + size + place + rest);
    assert(name + size + place + rest =~= name + size + place + "  dpi="@ + crate::text::decimal(
        m.dpi_x as nat,
    ) + " scale="@ + scale);
    if m.primary {
        assert(monitor_line_spec(m, scale) =~= monitor_line_spec(plain, scale) + "  [primary]"@);
    }
    let head = name + size + place;
    assert(monitor_line_spec(m, scale).take(head.len() as int) =~= head);
}

} // verus!
