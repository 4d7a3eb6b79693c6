//! Start-with-Windows registration.
//!
//! There are two mechanisms, because neither works everywhere. A scheduled task can
//! restart the program if it dies, but registering one mostly needs elevation. The
//! Run value of the current user needs none, and cannot restart a crashed process.
//! Enabling tries the task first and falls back to the Run value; what is shown is
//! which of them is in force, not what was last attempted.

use vstd::prelude::*;

use crate::input::ballistics::text_from_bytes;
use crate::text::{join, push_decimal};
use crate::utf16::wide;

verus! {

pub const TASK_NAME: &'static str = "HumanTelemetry";

pub const RUN_KEY: &'static str = "Software\\Microsoft\\Windows\\CurrentVersion\\Run";

pub const RUN_VALUE: &'static str = "HumanTelemetry";

/// The most bytes read of the Run value.
pub const MAX_RUN_BYTES: u32 = 8192;

/// How the program is started at sign-in.
#[derive(Clone, Copy, PartialEq, Eq, Debug, Structural)]
pub enum Method {
    Off,
    /// Scheduled task at logon. Survives a crash.
    Task,
    /// Run value of the current user. No elevation needed, no restart.
    RunKey,
}

impl Method {
    pub open spec fn label_spec(self) -> Seq<char> {
        match self {
            Method::Off => "off"@,
            Method::Task => "on (scheduled task)"@,
            Method::RunKey => "on (registry Run)"@,
        }
    }

    pub fn label(self) -> (s: &'static str)
        ensures
            s@ == self.label_spec(),
    {
        match self {
            Method::Off => "off",
            Method::Task => "on (scheduled task)",
            Method::RunKey => "on (registry Run)",
        }
    }
}

// ---- which is in force --------------------------------------------------------------------

/// Which mechanism is in force: the task where there is one, else the Run value.
pub open spec fn status_spec(task_exists: bool, run_value: Option<Seq<char>>) -> Method {
    if task_exists {
        Method::Task
    } else if run_value is Some {
        Method::RunKey
    } else {
        Method::Off
    }
}

/// Which mechanism is in force, given whether the task exists and what the Run
/// value says.
pub fn status(task_exists: bool, run_value: &Option<String>) -> (m: Method)
    ensures
        m == status_spec(task_exists, crate::context::foreground::text_of(*run_value)),
{
    if task_exists {
        Method::Task
    } else if run_value.is_some() {
        Method::RunKey
    } else {
        Method::Off
    }
}

/// Whether one of them is in force.
pub fn is_enabled(task_exists: bool, run_value: &Option<String>) -> (r: bool)
    ensures
        r == (status_spec(task_exists, crate::context::foreground::text_of(*run_value))
            != Method::Off),
{
    status(task_exists, run_value) != Method::Off
}

// ---- enabling ---------------------------------------------------------------------------

/// What came of running the task scheduler.
pub enum TaskOutcome {
    Succeeded,
    /// It ran and said no; typically for want of rights.
    Refused,
    /// It could not be run, for that reason.
    NotRun(String),
}

/// What is to be done next to enable startup.
pub enum EnableStep {
    /// Register a task that runs this command line.
    CreateTask(String),
    /// Write this command line to the Run value.
    WriteRunValue(String),
    Done(Result<Method, String>),
}

/// The command line that startup launches: recording, straight to the tray, so that
/// signing in does not throw a window in the user's face.
pub open spec fn launch_command_spec(exe: Seq<char>) -> Seq<char> {
    "\""@ + exe + "\" record --tray"@
}

/// The command line that startup launches, given the path of the program.
pub fn launch_command(exe: &Result<String, String>) -> (r: Result<String, String>)
    ensures
        match (exe, r) {
            (Ok(path), Ok(c)) => c@ == launch_command_spec(path@),
            (Err(why), Err(e)) => e@ == "cannot locate own exe: "@ + why@,
            _ => false,
        },
{
    match exe {
        Ok(path) => {
            let mut c = "\"".to_owned();
            c.append(path.as_str());
            c.append("\" record --tray");
            Ok(c)
        },
        Err(why) => {
            let mut e = "cannot locate own exe: ".to_owned();
            e.append(why.as_str());
            Err(e)
        },
    }
}

/// The arguments that have the scheduler register the command at logon, at the
/// user's normal integrity level. Deliberately not elevated: the program has no need
/// of that.
pub fn create_task_args(command: &str) -> (args: Vec<String>)
    ensures
        crate::text::views(args@) == seq![
            "/create"@,
            "/tn"@,
            TASK_NAME@,
            "/tr"@,
            command@,
            "/sc"@,
            "onlogon"@,
            "/rl"@,
            "limited"@,
            "/f"@,
        ],
{
    let mut args: Vec<String> = Vec::new();
    args.push("/create".to_owned());
    args.push("/tn".to_owned());
    args.push(TASK_NAME.to_owned());
    args.push("/tr".to_owned());
    args.push(command.to_owned());
    args.push("/sc".to_owned());
    args.push("onlogon".to_owned());
    args.push("/rl".to_owned());
    args.push("limited".to_owned());
    args.push("/f".to_owned());
    assert(crate::text::views(args@) =~= seq![
        "/create"@,
        "/tn"@,
        TASK_NAME@,
        "/tr"@,
        command@,
        "/sc"@,
        "onlogon"@,
        "/rl"@,
        "limited"@,
        "/f"@,
    ]);
    args
}

/// The first step is to register the task, where the program knows its own path.
pub open spec fn enables(exe: Result<String, String>, step: EnableStep) -> bool {
    match exe {
        Ok(path) => step matches EnableStep::CreateTask(c) && c@ == launch_command_spec(path@),
        Err(why) => step matches EnableStep::Done(Err(e)) && e@ == "cannot locate own exe: "@
            + why@,
    }
}

/// The step that follows the task: none, or the Run value where that needs rights that
/// are missing.
pub open spec fn follows_task(command: String, outcome: TaskOutcome, step: EnableStep) -> bool {
    match outcome {
        TaskOutcome::Succeeded => step == EnableStep::Done(Ok(Method::Task)),
        TaskOutcome::Refused => step == EnableStep::WriteRunValue(command),
        TaskOutcome::NotRun(why) => step matches EnableStep::Done(Err(e)) && e@
            == "could not run schtasks: "@ + why@,
    }
}

/// What enabling comes to where the Run value was tried.
pub open spec fn follows_run_value(written: Result<(), String>) -> Result<Method, String> {
    match written {
        Ok(_) => Ok(Method::RunKey),
        Err(e) => Err(e),
    }
}

/// The first step: register the task, where the program knows its own path.
pub fn enable(exe: &Result<String, String>) -> (step: EnableStep)
    ensures
        enables(*exe, step),
{
    match launch_command(exe) {
        Ok(c) => EnableStep::CreateTask(c),
        Err(e) => EnableStep::Done(Err(e)),
    }
}

/// After the task was tried: done, or the Run value where that needs rights that are
/// missing.
pub fn after_task(command: String, outcome: TaskOutcome) -> (step: EnableStep)
    ensures
        follows_task(command, outcome, step),
{
    match outcome {
        TaskOutcome::Succeeded => EnableStep::Done(Ok(Method::Task)),
        TaskOutcome::Refused => EnableStep::WriteRunValue(command),
        TaskOutcome::NotRun(why) => {
            let mut e = "could not run schtasks: ".to_owned();
            e.append(why.as_str());
            EnableStep::Done(Err(e))
        },
    }
}

/// After the Run value was tried.
pub fn after_run_value(written: Result<(), String>) -> (r: Result<Method, String>)
    ensures
        r == follows_run_value(written),
{
    match written {
        Ok(_) => Ok(Method::RunKey),
        Err(e) => Err(e),
    }
}

// ---- disabling --------------------------------------------------------------------------

/// What came of removing the task.
pub enum RemoveOutcome {
    Succeeded,
    /// The scheduler said no; what it wrote, without the blanks around it.
    Refused(String, String),
    /// It could not be run, for that reason.
    NotRun(String),
}

/// What went wrong in removing the task.
pub open spec fn task_error(task: Option<RemoveOutcome>) -> Seq<Seq<char>> {
    match task {
        Some(RemoveOutcome::Refused(out, err)) => seq!["scheduled task: "@ + out@ + err@],
        Some(RemoveOutcome::NotRun(why)) => seq!["schtasks: "@ + why@],
        _ => seq![],
    }
}

/// What went wrong in removing the Run value.
pub open spec fn run_error(run: Option<Result<(), String>>) -> Seq<Seq<char>> {
    match run {
        Some(Err(e)) => seq![e@],
        _ => seq![],
    }
}

/// `r` is what came of removing startup: all that went wrong.
pub open spec fn disables(
    task: Option<RemoveOutcome>,
    run: Option<Result<(), String>>,
    r: Result<(), String>,
) -> bool {
    let errors = task_error(task) + run_error(run);
    match r {
        Ok(_) => errors.len() == 0,
        Err(e) => errors.len() > 0 && e@ == crate::text::joined(errors, "; "@),
    }
}

/// What came of removing startup, by whichever mechanism installed it; where one
/// was not there, nothing came of it. Both are cleared, so that a machine that once
/// had the task and later the Run value cannot end up with two copies launching.
pub fn disable(task: Option<RemoveOutcome>, run: Option<Result<(), String>>) -> (r: Result<
    (),
    String,
>)
    ensures
        disables(task, run, r),
{
    let mut errors: Vec<String> = Vec::new();
    if let Some(outcome) = &task {
        match outcome {
            RemoveOutcome::Succeeded => {},
            RemoveOutcome::Refused(out, err) => {
                let mut e = "scheduled task: ".to_owned();
                e.append(out.as_str());
                e.append(err.as_str());
                errors.push(e);
            },
            RemoveOutcome::NotRun(why) => {
                let mut e = "schtasks: ".to_owned();
                e.append(why.as_str());
                errors.push(e);
            },
        }
    }
    assert(crate::text::views(errors@) =~= task_error(task));
    if let Some(Err(e)) = &run {
        errors.push(e.clone());
    }
    assert(crate::text::views(errors@) =~= task_error(task) + run_error(run));
    if errors.len() == 0 {
        Ok(())
    } else {
        Err(join(&errors, "; "))
    }
}

// ---- toggling ---------------------------------------------------------------------------

/// What a switch does.
#[derive(Clone, Copy, PartialEq, Eq, Debug, Structural)]
pub enum Toggle {
    Disable,
    Enable,
}

/// What a switch does: the opposite of what is in force.
pub open spec fn toggle_spec(enabled: bool) -> Toggle {
    if enabled {
        Toggle::Disable
    } else {
        Toggle::Enable
    }
}

/// What a switch that disabled leaves in force, if it worked.
pub open spec fn toggled_off_spec(disabled: Result<(), String>) -> Result<Method, String> {
    match disabled {
        Ok(_) => Ok(Method::Off),
        Err(e) => Err(e),
    }
}

/// What a switch does: the opposite of what is in force.
pub fn toggle(enabled: bool) -> (t: Toggle)
    ensures
        t == toggle_spec(enabled),
{
    if enabled {
        Toggle::Disable
    } else {
        Toggle::Enable
    }
}

/// What a switch that disabled leaves in force.
pub fn toggled_off(disabled: Result<(), String>) -> (r: Result<Method, String>)
    ensures
        r == toggled_off_spec(disabled),
{
    match disabled {
        Ok(_) => Ok(Method::Off),
        Err(e) => Err(e),
    }
}

// ---- the Run value ----------------------------------------------------------------------

/// The bytes that 16-bit units make, little-endian.
pub open spec fn bytes_of_units(units: Seq<u16>) -> Seq<u8>
    decreases units.len(),
{
    if units.len() == 0 {
        seq![]
    } else {
        bytes_of_units(units.drop_last()) + crate::le::le16(units.last())
    }
}

/// What is written to the Run value: the command line with the zero behind it.
pub fn run_value_bytes(command: &str) -> (b: Vec<u8>)
    ensures
        b@ == bytes_of_units(crate::utf16::encoded(command@).push(0)),
{
    let units = wide(command);
    let mut b: Vec<u8> = Vec::new();
    let mut i: usize = 0;
    assert(units@.take(0) =~= seq![]);
    while i < units.len()
        invariant
            i <= units@.len(),
            b@ == bytes_of_units(units@.take(i as int)),
        decreases units@.len() - i,
    {
        crate::le::push16(&mut b, units[i]);
        proof {
            let next = units@.take(i + 1);
            assert(next.drop_last() =~= units@.take(i as int));
            assert(next.last() == units@[i as int]);
        }
        i = i + 1;
    }
    assert(units@.take(i as int) =~= units@);
    b
}

/// What the Run value says, where it could be read.
pub fn run_key_get(value: &Option<(u32, Vec<u8>)>) -> (s: Option<String>)
    ensures
        crate::input::ballistics::string_of_value(s, *value),
{
    match value {
        Some((_, b)) => Some(text_from_bytes(b.as_slice())),
        None => None,
    }
}

/// What the key that holds the Run value could not be opened for.
pub fn run_key_closed() -> (e: String)
    ensures
        e@ == "cannot open HKCU Run key for writing"@,
{
    "cannot open HKCU Run key for writing".to_owned()
}

/// What came of writing the Run value, from what the call returned.
pub fn run_key_set(rc: u32) -> (r: Result<(), String>)
    ensures
        match r {
            Ok(_) => rc == 0,
            Err(e) => rc != 0 && e@ == "could not write HKCU Run value (error "@
                + crate::text::decimal(rc as nat) + ")"@,
        },
{
    if rc == 0 {
        return Ok(());
    }
    let mut e = "could not write HKCU Run value (error ".to_owned();
    push_decimal(&mut e, rc as u64);
    e.append(")");
    Err(e)
}

/// What deleting a value returns where there is none.
pub const ERROR_FILE_NOT_FOUND: u32 = 2;

/// What came of deleting the Run value, from what the call returned. One that is
/// already gone is as desired.
pub fn run_key_delete(rc: u32) -> (r: Result<(), String>)
    ensures
        match r {
            Ok(_) => rc == 0 || rc == ERROR_FILE_NOT_FOUND,
            Err(e) => rc != 0 && rc != ERROR_FILE_NOT_FOUND && e@
                == "could not delete HKCU Run value (error "@ + crate::text::decimal(rc as nat)
                + ")"@,
        },
{
    if rc == 0 || rc == ERROR_FILE_NOT_FOUND {
        return Ok(());
    }
    let mut e = "could not delete HKCU Run value (error ".to_owned();
    push_decimal(&mut e, rc as u64);
    e.append(")");
    Err(e)
}

// ---- laws -----------------------------------------------------------------------------

proof fn lemma_bytes_of_units(units: Seq<u16>)
    ensures
        bytes_of_units(units).len() == 2 * units.len(),
        crate::input::ballistics::units_of_bytes(bytes_of_units(units)) == units,
    decreases units.len(),
{
    let b = bytes_of_units(units);
    if units.len() > 0 {
        let rest = units.drop_last();
        lemma_bytes_of_units(rest);
        let r = bytes_of_units(rest);
        let back = crate::input::ballistics::units_of_bytes(b);
        assert(b.len() == 2 * units.len());
        assert forall|i: int| 0 <= i < units.len() implies back[i] == units[i] by {
            if i < rest.len() {
                assert(crate::input::ballistics::units_of_bytes(r)[i] == rest[i]);
                assert(b[2 * i] == r[2 * i] && b[2 * i + 1] == r[2 * i + 1]);
            } else {
                assert(b.subrange(2 * i, 2 * i + 2) =~= crate::le::le16(units.last()));
                crate::le::lemma_le16(b, 2 * i, units.last());
            }
        }
        assert(back =~= units);
    } else {
        assert(crate::input::ballistics::units_of_bytes(b) =~= units);
    }
}

/// What was written to the Run value is read back unchanged, as long as no zero
/// stands in it.
pub proof fn law_run_value_reads_back(command: Seq<char>)
    requires
        forall|i: int| 0 <= i < command.len() ==> command[i] != '\0',
    ensures
        crate::input::ballistics::text_of_bytes(
            bytes_of_units(crate::utf16::encoded(command).push(0)),
        ) == command,
{
    lemma_bytes_of_units(crate::utf16::encoded(command).push(0));
    crate::utf16::law_wide_text_reads_back(command);
}

/// The program is shown as enabled just when some mechanism is in force.
pub proof fn law_status_agrees_with_enabled(task_exists: bool, run_value: Option<Seq<char>>)
    ensures
        (status_spec(task_exists, run_value) != Method::Off) == (task_exists || run_value is Some),
{
}

/// What is registered.
#[verifier::ext_equal]
pub struct Registered {
    pub task: bool,
    pub run_value: Option<Seq<char>>,
}

impl Registered {
    /// Some mechanism is in force.
    pub open spec fn is_on(self) -> bool {
        status_spec(self.task, self.run_value) != Method::Off
    }

    /// What is registered after the task was tried: the task, where that worked.
    pub open spec fn after_task(self, outcome: TaskOutcome) -> Registered {
        Registered { task: self.task || outcome is Succeeded, ..self }
    }

    /// What is registered after the Run value was tried.
    pub open spec fn after_run_value(
        self,
        command: Seq<char>,
        written: Result<(), String>,
    ) -> Registered {
        if written is Ok {
            Registered { run_value: Some(command), ..self }
        } else {
            self
        }
    }

    /// What is registered after both were removed, as far as that worked.
    pub open spec fn after_removal(
        self,
        task: Option<RemoveOutcome>,
        run: Option<Result<(), String>>,
    ) -> Registered {
        Registered {
            task: self.task && !(task matches Some(RemoveOutcome::Succeeded)),
            run_value: if run matches Some(Ok(_)) {
                None
            } else {
                self.run_value
            },
        }
    }
}

/// What the outside did while a switch was at work.
pub struct Outside {
    pub exe: Result<String, String>,
    pub task: TaskOutcome,
    pub written: Result<(), String>,
    pub removed_task: Option<RemoveOutcome>,
    pub removed_run: Option<Result<(), String>>,
}

/// Enabling came to `r` and left `after` registered.
pub open spec fn enabled_by(
    before: Registered,
    o: Outside,
    r: Result<Method, String>,
    after: Registered,
) -> bool {
    exists|first: EnableStep, second: EnableStep|
        #![trigger enables(o.exe, first), came_to(before, o, first, second, r, after)]
        enables(o.exe, first) && came_to(before, o, first, second, r, after)
}

/// The steps of enabling came to that.
pub open spec fn came_to(
    before: Registered,
    o: Outside,
    first: EnableStep,
    second: EnableStep,
    r: Result<Method, String>,
    after: Registered,
) -> bool {
    match first {
        EnableStep::Done(x) => r == x && after == before,
        EnableStep::WriteRunValue(_) => false,
        EnableStep::CreateTask(command) => {
            let tried = before.after_task(o.task);
            &&& follows_task(command, o.task, second)
            &&& match second {
                EnableStep::Done(x) => r == x && after == tried,
                EnableStep::WriteRunValue(c) => r == follows_run_value(o.written) && after
                    == tried.after_run_value(c@, o.written),
                EnableStep::CreateTask(_) => false,
            }
        },
    }
}

/// Disabling came to `r` and left `after` registered. Only what is there is removed.
pub open spec fn disabled_by(
    before: Registered,
    o: Outside,
    r: Result<(), String>,
    after: Registered,
) -> bool {
    &&& o.removed_task is Some == before.task
    &&& o.removed_run is Some == before.run_value is Some
    &&& disables(o.removed_task, o.removed_run, r)
    &&& after == before.after_removal(o.removed_task, o.removed_run)
}

/// A switch came to `r` and left `after` registered.
pub open spec fn toggled_by(
    before: Registered,
    o: Outside,
    r: Result<Method, String>,
    after: Registered,
) -> bool {
    match toggle_spec(before.is_on()) {
        Toggle::Enable => enabled_by(before, o, r, after),
        Toggle::Disable => exists|d: Result<(), String>| #[trigger]
            disabled_by(before, o, d, after) && r == toggled_off_spec(d),
    }
}

/// A switch that worked turns startup over, and says `Off` just where it was on; a second
/// one that worked brings it back.
pub proof fn law_toggling_turns_startup_over(
    before: Registered,
    o: Outside,
    r: Result<Method, String>,
    after: Registered,
)
    requires
        toggled_by(before, o, r, after),
    ensures
        r is Ok ==> after.is_on() == !before.is_on(),
        r == Ok::<Method, String>(Method::Off) <==> before.is_on() && r is Ok,
        r matches Ok(m) ==> m == status_spec(after.task, after.run_value),
        before.is_on() && (r is Ok) ==> task_error(o.removed_task) + run_error(o.removed_run)
            == Seq::<Seq<char>>::empty(),
{
    if before.is_on() {
        let d = choose|d: Result<(), String>| #[trigger]
            disabled_by(before, o, d, after) && r == toggled_off_spec(d);
        let errors = task_error(o.removed_task) + run_error(o.removed_run);
        assert(d is Ok ==> errors.len() == 0);
        assert(errors.len() == task_error(o.removed_task).len() + run_error(o.removed_run).len());
        if d is Ok {
            assert(errors =~= seq![]);
        }
    } else {
        let (first, second) = choose|first: EnableStep, second: EnableStep|
            #![trigger enables(o.exe, first), came_to(before, o, first, second, r, after)]
            enables(o.exe, first) && came_to(before, o, first, second, r, after);
        assert(enables(o.exe, first) && came_to(before, o, first, second, r, after));
    }
}

/// Two switches that both worked leave startup as it was.
pub proof fn law_two_switches_cancel(
    before: Registered,
    a: Outside,
    r: Result<Method, String>,
    between: Registered,
    b: Outside,
    s: Result<Method, String>,
    after: Registered,
)
    requires
        toggled_by(before, a, r, between),
        toggled_by(between, b, s, after),
        r is Ok,
        s is Ok,
    ensures
        after.is_on() == before.is_on(),
{
    law_toggling_turns_startup_over(before, a, r, between);
    law_toggling_turns_startup_over(between, b, s, after);
}

/// The task comes before the Run value, and startup is off just where neither is there.
pub proof fn law_the_task_comes_before_the_run_value(task_exists: bool, run_value: Option<Seq<char>>)
    ensures
        status_spec(task_exists, run_value) is Task <==> task_exists,
        status_spec(task_exists, run_value) is RunKey <==> !task_exists && run_value is Some,
        status_spec(task_exists, run_value) is Off <==> !task_exists && run_value is None,
{
}

/// What startup launches is this program, whatever blanks its path holds, recording
/// straight to the tray.
pub proof fn law_startup_launches_the_recorder_into_the_tray(exe: Seq<char>)
    ensures
        ({
            let c = launch_command_spec(exe);
            &&& c.len() == exe.len() + 16
            &&& c[0] == '"'
            &&& c.subrange(1, exe.len() as int + 1) == exe
            &&& c[exe.len() as int + 1] == '"'
            &&& c.skip(exe.len() as int + 2) == " record --tray"@
        }),
{
    reveal_strlit("\"");
    reveal_strlit("\" record --tray");
    reveal_strlit(" record --tray");
    let c = launch_command_spec(exe);
    assert(c.subrange(1, exe.len() as int + 1) =~= exe);
    assert(c.skip(exe.len() as int + 2) =~= " record --tray"@);
}

/// A task that the scheduler refuses falls back to the Run value with the same command;
/// one that it takes is all there is to do; and where it could not be run nothing else is
/// tried. What then holds is what was written.
pub proof fn law_a_refused_task_falls_back(
    command: String,
    outcome: TaskOutcome,
    step: EnableStep,
    written: Result<(), String>,
)
    requires
        follows_task(command, outcome, step),
    ensures
        outcome is Refused ==> step == EnableStep::WriteRunValue(command),
        outcome is Succeeded ==> step == EnableStep::Done(Ok(Method::Task)),
        outcome is NotRun ==> (step matches EnableStep::Done(Err(_))),
        follows_run_value(written) is Ok <==> written is Ok,
        follows_run_value(written) matches Ok(m) ==> m == Method::RunKey,
{
}

/// Removing startup fails just where one of the two could not be removed, and then tells
/// of each that could not.
pub proof fn law_removal_fails_where_something_stays(
    task: Option<RemoveOutcome>,
    run: Option<Result<(), String>>,
    r: Result<(), String>,
)
    requires
        disables(task, run, r),
    ensures
        r is Ok <==> (task is None || task == Some(RemoveOutcome::Succeeded)) && (run matches Some(
            done,
        ) ==> done is Ok),
{
}

/// What is said of startup tells whether it is on, and by what.
pub proof fn law_labels_tell_the_mechanism(m: Method)
    ensures
        m.label_spec() == "off"@ <==> m is Off,
        m.label_spec() == "on (scheduled task)"@ <==> m is Task,
        m.label_spec() == "on (registry Run)"@ <==> m is RunKey,
{
    reveal_strlit("off");
    reveal_strlit("on (scheduled task)");
    reveal_strlit("on (registry Run)");
    assert("off"@.len() == 3);
    assert("on (scheduled task)"@.len() == 19);
    assert("on (registry Run)"@.len() == 17);
}

} // verus!
