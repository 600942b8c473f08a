//! Running a script, step by step: what is done next, given what came of the last thing done.
//!
//! A script runs in a directory of its own. A run that passes its bound is left running with its
//! directory, out of which its answer is read later; every other run gives its directory up.
use vstd::prelude::*;

use crate::command;
use crate::command::{wait_step, Look, WaitStep};
use crate::script::{run_as_step, RunAsStep};

verus! {

/// How a run under the client's own identity ended.
#[derive(Clone, Copy)]
pub enum DirectEnd {
    /// The job's directory could not be made.
    NoDir,
    /// The script could not be written.
    NoScript,
    /// The file for its output could not be opened.
    NoOutput,
    /// The file for its errors could not be opened.
    NoErrors,
    /// PowerShell could not be started.
    NoStart,
    /// It passed its bound and was left running.
    OverTime,
    /// Its process ended: its output is the answer.
    Answered { encoded: bool, code: Option<i32> },
}

/// What is done next for a run under the client's own identity.
#[derive(Clone, Copy)]
pub enum DirectStage {
    /// Make the directory.
    MakeDir,
    /// Write the script.
    WriteScript,
    /// Open the files for its output and its errors.
    OpenFiles,
    /// Ask whether unsigned script files are refused.
    AskPolicy,
    /// Start PowerShell, on the script or on its encoded source.
    Start { encoded: bool },
    /// Look at the process, which is given so many milliseconds where it is going.
    Look { encoded: bool, pause: u64 },
    /// Pause for so many milliseconds.
    Sleep { encoded: bool, pause: u64, next: u64 },
    /// Nothing more.
    Ended(DirectEnd),
}

/// What came of opening the files of a run.
#[derive(Clone, Copy)]
pub enum Opened {
    Both,
    NoOutput,
    NoErrors,
}

/// What came of the last thing done.
#[derive(Clone, Copy)]
pub enum DirectEvent {
    MadeDir(bool),
    WroteScript(bool),
    OpenedFiles(Opened),
    Refused(bool),
    Started(bool),
    Looked(Look),
    Slept,
}

/// The first pause before a process is looked at again, in milliseconds.
pub const FIRST_PAUSE: u64 = 2;

/// The stage after an event. An event that does not belong to the stage changes nothing.
pub open spec fn direct_after(s: DirectStage, e: DirectEvent) -> DirectStage {
    match (s, e) {
        (DirectStage::MakeDir, DirectEvent::MadeDir(true)) => DirectStage::WriteScript,
        (DirectStage::MakeDir, DirectEvent::MadeDir(false)) => DirectStage::Ended(DirectEnd::NoDir),
        (DirectStage::WriteScript, DirectEvent::WroteScript(true)) => DirectStage::OpenFiles,
        (DirectStage::WriteScript, DirectEvent::WroteScript(false)) => DirectStage::Ended(
            DirectEnd::NoScript,
        ),
        (DirectStage::OpenFiles, DirectEvent::OpenedFiles(Opened::Both)) => DirectStage::AskPolicy,
        (DirectStage::OpenFiles, DirectEvent::OpenedFiles(Opened::NoOutput)) => DirectStage::Ended(
            DirectEnd::NoOutput,
        ),
        (DirectStage::OpenFiles, DirectEvent::OpenedFiles(Opened::NoErrors)) => DirectStage::Ended(
            DirectEnd::NoErrors,
        ),
        (DirectStage::AskPolicy, DirectEvent::Refused(encoded)) => DirectStage::Start { encoded },
        (DirectStage::Start { encoded }, DirectEvent::Started(true)) => DirectStage::Look {
            encoded,
            pause: FIRST_PAUSE,
        },
        (DirectStage::Start { encoded }, DirectEvent::Started(false)) => DirectStage::Ended(
            DirectEnd::NoStart,
        ),
        (DirectStage::Look { encoded, pause }, DirectEvent::Looked(look)) => match command::wait_v(
            look,
            pause as int,
        ) {
            WaitStep::Finished(code) => DirectStage::Ended(DirectEnd::Answered { encoded, code }),
            WaitStep::Unfinished => DirectStage::Ended(DirectEnd::OverTime),
            WaitStep::Sleep { pause, next } => DirectStage::Sleep { encoded, pause, next },
        },
        (DirectStage::Sleep { encoded, pause, next }, DirectEvent::Slept) => DirectStage::Look {
            encoded,
            pause: next,
        },
        _ => s,
    }
}

/// The stage after an event.
pub fn direct_step(s: DirectStage, e: DirectEvent) -> (r: DirectStage)
    ensures
        r == direct_after(s, e),
{
    match (s, e) {
        (DirectStage::MakeDir, DirectEvent::MadeDir(ok)) => if ok {
            DirectStage::WriteScript
        } else {
            DirectStage::Ended(DirectEnd::NoDir)
        },
        (DirectStage::WriteScript, DirectEvent::WroteScript(ok)) => if ok {
            DirectStage::OpenFiles
        } else {
            DirectStage::Ended(DirectEnd::NoScript)
        },
        (DirectStage::OpenFiles, DirectEvent::OpenedFiles(o)) => match o {
            Opened::Both => DirectStage::AskPolicy,
            Opened::NoOutput => DirectStage::Ended(DirectEnd::NoOutput),
            Opened::NoErrors => DirectStage::Ended(DirectEnd::NoErrors),
        },
        (DirectStage::AskPolicy, DirectEvent::Refused(encoded)) => DirectStage::Start { encoded },
        (DirectStage::Start { encoded }, DirectEvent::Started(ok)) => if ok {
            DirectStage::Look { encoded, pause: FIRST_PAUSE }
        } else {
            DirectStage::Ended(DirectEnd::NoStart)
        },
        (DirectStage::Look { encoded, pause }, DirectEvent::Looked(look)) => match wait_step(
            look,
            pause,
        ) {
            WaitStep::Finished(code) => DirectStage::Ended(DirectEnd::Answered { encoded, code }),
            WaitStep::Unfinished => DirectStage::Ended(DirectEnd::OverTime),
            WaitStep::Sleep { pause, next } => DirectStage::Sleep { encoded, pause, next },
        },
        (DirectStage::Sleep { encoded, pause: _, next }, DirectEvent::Slept) => DirectStage::Look {
            encoded,
            pause: next,
        },
        (s, _) => s,
    }
}

/// The stage after events, from a stage on.
pub open spec fn direct_run(s: DirectStage, es: Seq<DirectEvent>) -> DirectStage
    decreases es.len(),
{
    if es.len() == 0 {
        s
    } else {
        direct_after(direct_run(s, es.drop_last()), es.last())
    }
}

/// A run that ended so gives its directory up: there is one, and nothing is left running in it.
pub open spec fn direct_gives_up(end: DirectEnd) -> bool {
    !(end is NoDir || end is OverTime)
}

/// Whether a run that ended so gives its directory up.
pub fn direct_discards(end: DirectEnd) -> (r: bool)
    ensures
        r == direct_gives_up(end),
{
    match end {
        DirectEnd::NoDir | DirectEnd::OverTime => false,
        _ => true,
    }
}

/// The output of a script is taken for its answer only after its process was seen to end, and
/// with the exit code that was seen then.
pub proof fn only_an_ended_script_is_answered_for(es: Seq<DirectEvent>)
    ensures
        direct_run(DirectStage::MakeDir, es) matches DirectStage::Ended(
            DirectEnd::Answered { encoded, code },
        ) ==> exists|i: int|
            0 <= i < es.len() && #[trigger] es[i] == DirectEvent::Looked(Look::Ended(code)),
    decreases es.len(),
{
    if es.len() > 0 {
        let t = es.drop_last();
        only_an_ended_script_is_answered_for(t);
        let s = direct_run(DirectStage::MakeDir, t);
        if let DirectStage::Ended(DirectEnd::Answered { encoded, code }) = direct_run(
            DirectStage::MakeDir,
            es,
        ) {
            if s is Ended {
                assert(direct_run(DirectStage::MakeDir, es) == s);
                let i = choose|i: int|
                    0 <= i < t.len() && #[trigger] t[i] == DirectEvent::Looked(Look::Ended(code));
                assert(es[i] == t[i]);
            } else {
                assert(es[es.len() - 1] == DirectEvent::Looked(Look::Ended(code)));
            }
        }
    }
}

/// A script that is going when its time is up is left running, and its directory stays.
pub proof fn a_script_over_time_is_left_running(encoded: bool, pause: u64)
    ensures
        direct_after(
            DirectStage::Look { encoded, pause },
            DirectEvent::Looked(Look::Going { time_up: true }),
        ) matches DirectStage::Ended(end) && end is OverTime && !direct_gives_up(end),
{
}

/// How a run under another identity ended.
#[derive(Clone, Copy)]
pub enum RunAsEnd {
    /// The job's directory could not be made.
    NoDir,
    /// The script could not be written.
    NoScript,
    /// The wrapper could not be written.
    NoWrapper,
    /// The identity could not be given access to the directory.
    NoAccess,
    /// The wrapper could not be launched.
    NoLaunch,
    /// The wrapper was launched and never started.
    NeverStarted,
    /// It passed its bound and was left running.
    OverTime,
    /// It marked its end: its output is the answer.
    Answered { encoded: bool },
}

/// What is done next for a run under another identity.
#[derive(Clone, Copy)]
pub enum RunAsStage {
    /// Make the directory.
    MakeDir,
    /// Write the script.
    WriteScript,
    /// Ask whether unsigned script files are refused.
    AskPolicy,
    /// Write the wrapper.
    WriteWrapper { encoded: bool },
    /// Give the identity access to the directory.
    Grant { encoded: bool },
    /// Launch the wrapper.
    Launch { encoded: bool },
    /// Watch for its end; its process is still to be noted where `adopted` is not set.
    Watch { encoded: bool, adopted: bool, deadline: i64, launch_deadline: i64 },
    /// Nothing more.
    Ended(RunAsEnd),
}

/// What came of the last thing done.
#[derive(Clone, Copy)]
pub enum RunAsEvent {
    MadeDir(bool),
    WroteScript(bool),
    Refused(bool),
    WroteWrapper(bool),
    Granted(bool),
    /// The wrapper was launched; the run is waited for until `deadline`, its start until
    /// `launch_deadline`.
    Launched { deadline: i64, launch_deadline: i64 },
    NotLaunched,
    /// The directory was looked at: whether it holds the mark of the end and the process id, and
    /// whether the process was noted just now.
    Watched { now: i64, flag: bool, pidfile: bool, noted: bool },
}

/// The stage after an event. An event that does not belong to the stage changes nothing.
pub open spec fn run_as_after(s: RunAsStage, e: RunAsEvent) -> RunAsStage {
    match (s, e) {
        (RunAsStage::MakeDir, RunAsEvent::MadeDir(true)) => RunAsStage::WriteScript,
        (RunAsStage::MakeDir, RunAsEvent::MadeDir(false)) => RunAsStage::Ended(RunAsEnd::NoDir),
        (RunAsStage::WriteScript, RunAsEvent::WroteScript(true)) => RunAsStage::AskPolicy,
        (RunAsStage::WriteScript, RunAsEvent::WroteScript(false)) => RunAsStage::Ended(
            RunAsEnd::NoScript,
        ),
        (RunAsStage::AskPolicy, RunAsEvent::Refused(encoded)) => RunAsStage::WriteWrapper {
            encoded,
        },
        (RunAsStage::WriteWrapper { encoded }, RunAsEvent::WroteWrapper(true)) => RunAsStage::Grant {
            encoded,
        },
        (RunAsStage::WriteWrapper { encoded }, RunAsEvent::WroteWrapper(false)) => RunAsStage::Ended(
            RunAsEnd::NoWrapper,
        ),
        (RunAsStage::Grant { encoded }, RunAsEvent::Granted(true)) => RunAsStage::Launch {
            encoded,
        },
        (RunAsStage::Grant { encoded }, RunAsEvent::Granted(false)) => RunAsStage::Ended(
            RunAsEnd::NoAccess,
        ),
        (
            RunAsStage::Launch { encoded },
            RunAsEvent::Launched { deadline, launch_deadline },
        ) => RunAsStage::Watch { encoded, adopted: false, deadline, launch_deadline },
        (RunAsStage::Launch { encoded }, RunAsEvent::NotLaunched) => RunAsStage::Ended(
            RunAsEnd::NoLaunch,
        ),
        (
            RunAsStage::Watch { encoded, adopted, deadline, launch_deadline },
            RunAsEvent::Watched { now, flag, pidfile, noted },
        ) => if flag {
            RunAsStage::Ended(RunAsEnd::Answered { encoded })
        } else if now >= deadline {
            RunAsStage::Ended(RunAsEnd::OverTime)
        } else if !pidfile && now > launch_deadline {
            RunAsStage::Ended(RunAsEnd::NeverStarted)
        } else {
            RunAsStage::Watch { encoded, adopted: adopted || noted, deadline, launch_deadline }
        },
        _ => s,
    }
}

/// The stage after an event.
pub fn run_as_next(s: RunAsStage, e: RunAsEvent) -> (r: RunAsStage)
    ensures
        r == run_as_after(s, e),
{
    match (s, e) {
        (RunAsStage::MakeDir, RunAsEvent::MadeDir(ok)) => if ok {
            RunAsStage::WriteScript
        } else {
            RunAsStage::Ended(RunAsEnd::NoDir)
        },
        (RunAsStage::WriteScript, RunAsEvent::WroteScript(ok)) => if ok {
            RunAsStage::AskPolicy
        } else {
            RunAsStage::Ended(RunAsEnd::NoScript)
        },
        (RunAsStage::AskPolicy, RunAsEvent::Refused(encoded)) => RunAsStage::WriteWrapper {
            encoded,
        },
        (RunAsStage::WriteWrapper { encoded }, RunAsEvent::WroteWrapper(ok)) => if ok {
            RunAsStage::Grant { encoded }
        } else {
            RunAsStage::Ended(RunAsEnd::NoWrapper)
        },
        (RunAsStage::Grant { encoded }, RunAsEvent::Granted(ok)) => if ok {
            RunAsStage::Launch { encoded }
        } else {
            RunAsStage::Ended(RunAsEnd::NoAccess)
        },
        (
            RunAsStage::Launch { encoded },
            RunAsEvent::Launched { deadline, launch_deadline },
        ) => RunAsStage::Watch { encoded, adopted: false, deadline, launch_deadline },
        (RunAsStage::Launch { encoded: _ }, RunAsEvent::NotLaunched) => RunAsStage::Ended(
            RunAsEnd::NoLaunch,
        ),
        (
            RunAsStage::Watch { encoded, adopted, deadline, launch_deadline },
            RunAsEvent::Watched { now, flag, pidfile, noted },
        ) => match run_as_step(now, deadline, launch_deadline, flag, pidfile) {
            RunAsStep::Finished => RunAsStage::Ended(RunAsEnd::Answered { encoded }),
            RunAsStep::OverTime => RunAsStage::Ended(RunAsEnd::OverTime),
            RunAsStep::NeverStarted => RunAsStage::Ended(RunAsEnd::NeverStarted),
            RunAsStep::Wait => RunAsStage::Watch {
                encoded,
                adopted: adopted || noted,
                deadline,
                launch_deadline,
            },
        },
        (s, _) => s,
    }
}

/// The stage after events, from a stage on.
pub open spec fn run_as_run(s: RunAsStage, es: Seq<RunAsEvent>) -> RunAsStage
    decreases es.len(),
{
    if es.len() == 0 {
        s
    } else {
        run_as_after(run_as_run(s, es.drop_last()), es.last())
    }
}

/// A run that ended so gives its directory up: there is one, and nothing is left running in it.
pub open spec fn run_as_gives_up(end: RunAsEnd) -> bool {
    !(end is NoDir || end is OverTime)
}

/// Whether a run that ended so gives its directory up.
pub fn run_as_discards(end: RunAsEnd) -> (r: bool)
    ensures
        r == run_as_gives_up(end),
{
    match end {
        RunAsEnd::NoDir | RunAsEnd::OverTime => false,
        _ => true,
    }
}

/// The output of a script under another identity is taken for its answer only after it marked
/// its end.
pub proof fn only_a_marked_end_is_an_answer(es: Seq<RunAsEvent>)
    ensures
        run_as_run(RunAsStage::MakeDir, es) matches RunAsStage::Ended(
            RunAsEnd::Answered { encoded },
        ) ==> exists|i: int|
            0 <= i < es.len() && (#[trigger] es[i] matches RunAsEvent::Watched {
                now,
                flag,
                pidfile,
                noted,
            } && flag),
    decreases es.len(),
{
    if es.len() > 0 {
        let t = es.drop_last();
        only_a_marked_end_is_an_answer(t);
        let s = run_as_run(RunAsStage::MakeDir, t);
        if let RunAsStage::Ended(RunAsEnd::Answered { encoded }) = run_as_run(
            RunAsStage::MakeDir,
            es,
        ) {
            if s is Ended {
                assert(run_as_run(RunAsStage::MakeDir, es) == s);
                let i = choose|i: int|
                    0 <= i < t.len() && (#[trigger] t[i] matches RunAsEvent::Watched {
                        now,
                        flag,
                        pidfile,
                        noted,
                    } && flag);
                assert(es[i] == t[i]);
            } else {
                assert(es[es.len() - 1] == es.last());
            }
        }
    }
}

/// A run under another identity is waited for no longer than its bound.
pub proof fn a_watch_ends_at_its_bound(s: RunAsStage, now: i64, flag: bool, pidfile: bool, noted: bool)
    requires
        s matches RunAsStage::Watch { encoded, adopted, deadline, launch_deadline } && now
            >= deadline,
    ensures
        run_as_after(s, RunAsEvent::Watched { now, flag, pidfile, noted }) is Ended,
{
}

/// A script that the client runs itself goes through its steps in turn, and each that fails
/// ends it for its own reason.
pub proof fn a_direct_run_takes_its_steps(encoded: bool, pause: u64, next: u64)
    ensures
        direct_after(DirectStage::MakeDir, DirectEvent::MadeDir(true)) is WriteScript,
        direct_after(DirectStage::WriteScript, DirectEvent::WroteScript(true)) is OpenFiles,
        direct_after(DirectStage::OpenFiles, DirectEvent::OpenedFiles(Opened::Both)) is AskPolicy,
        direct_after(DirectStage::AskPolicy, DirectEvent::Refused(encoded)) == (
        DirectStage::Start { encoded }),
        direct_after(DirectStage::Start { encoded }, DirectEvent::Started(true))
            matches DirectStage::Look { encoded: e, pause: p } && e == encoded && p == 2,
        direct_after(DirectStage::Sleep { encoded, pause, next }, DirectEvent::Slept) == (
        DirectStage::Look { encoded, pause: next }),
        direct_after(DirectStage::MakeDir, DirectEvent::MadeDir(false)) == DirectStage::Ended(
            DirectEnd::NoDir,
        ),
        direct_after(DirectStage::WriteScript, DirectEvent::WroteScript(false))
            == DirectStage::Ended(DirectEnd::NoScript),
        direct_after(DirectStage::OpenFiles, DirectEvent::OpenedFiles(Opened::NoOutput))
            == DirectStage::Ended(DirectEnd::NoOutput),
        direct_after(DirectStage::OpenFiles, DirectEvent::OpenedFiles(Opened::NoErrors))
            == DirectStage::Ended(DirectEnd::NoErrors),
        direct_after(DirectStage::Start { encoded }, DirectEvent::Started(false))
            == DirectStage::Ended(DirectEnd::NoStart),
{
}

/// A script whose process ended is answered for with its exit code; one that is going is looked
/// at again; one whose time is up is left running.
pub proof fn a_look_decides_on_a_direct_run(encoded: bool, pause: u64, code: Option<i32>)
    requires
        pause <= 1000,
    ensures
        direct_after(
            DirectStage::Look { encoded, pause },
            DirectEvent::Looked(Look::Ended(code)),
        ) == DirectStage::Ended(DirectEnd::Answered { encoded, code }),
        direct_after(
            DirectStage::Look { encoded, pause },
            DirectEvent::Looked(Look::Going { time_up: true }),
        ) == DirectStage::Ended(DirectEnd::OverTime),
        direct_after(
            DirectStage::Look { encoded, pause },
            DirectEvent::Looked(Look::Going { time_up: false }),
        ) matches DirectStage::Sleep { encoded: e, pause: p, next: _ } && e == encoded && p == pause,
{
}

/// A script that runs under another identity goes through its steps in turn, and each that fails
/// ends it for its own reason.
pub proof fn a_run_under_an_identity_takes_its_steps(
    encoded: bool,
    deadline: i64,
    launch_deadline: i64,
)
    ensures
        run_as_after(RunAsStage::MakeDir, RunAsEvent::MadeDir(true)) is WriteScript,
        run_as_after(RunAsStage::WriteScript, RunAsEvent::WroteScript(true)) is AskPolicy,
        run_as_after(RunAsStage::AskPolicy, RunAsEvent::Refused(encoded)) == (
        RunAsStage::WriteWrapper { encoded }),
        run_as_after(RunAsStage::WriteWrapper { encoded }, RunAsEvent::WroteWrapper(true)) == (
        RunAsStage::Grant { encoded }),
        run_as_after(RunAsStage::Grant { encoded }, RunAsEvent::Granted(true)) == (
        RunAsStage::Launch { encoded }),
        run_as_after(
            RunAsStage::Launch { encoded },
            RunAsEvent::Launched { deadline, launch_deadline },
        ) == (RunAsStage::Watch { encoded, adopted: false, deadline, launch_deadline }),
        run_as_after(RunAsStage::MakeDir, RunAsEvent::MadeDir(false)) == RunAsStage::Ended(
            RunAsEnd::NoDir,
        ),
        run_as_after(RunAsStage::WriteScript, RunAsEvent::WroteScript(false)) == RunAsStage::Ended(
            RunAsEnd::NoScript,
        ),
        run_as_after(RunAsStage::WriteWrapper { encoded }, RunAsEvent::WroteWrapper(false))
            == RunAsStage::Ended(RunAsEnd::NoWrapper),
        run_as_after(RunAsStage::Grant { encoded }, RunAsEvent::Granted(false))
            == RunAsStage::Ended(RunAsEnd::NoAccess),
        run_as_after(RunAsStage::Launch { encoded }, RunAsEvent::NotLaunched)
            == RunAsStage::Ended(RunAsEnd::NoLaunch),
{
}

/// A watched run is answered for as soon as it marked its end; it is left running at its bound;
/// it is given up where it has not started in time; else it is watched on, and once its process
/// was noted that stays so.
pub proof fn a_watched_run_is_followed(
    encoded: bool,
    adopted: bool,
    deadline: i64,
    launch_deadline: i64,
    now: i64,
    flag: bool,
    pidfile: bool,
    noted: bool,
)
    ensures
        ({
            let n = run_as_after(
                RunAsStage::Watch { encoded, adopted, deadline, launch_deadline },
                RunAsEvent::Watched { now, flag, pidfile, noted },
            );
            &&& flag ==> n == RunAsStage::Ended(RunAsEnd::Answered { encoded })
            &&& !flag && now >= deadline ==> n == RunAsStage::Ended(RunAsEnd::OverTime)
            &&& !flag && now < deadline && !pidfile && now > launch_deadline
                ==> n == RunAsStage::Ended(RunAsEnd::NeverStarted)
            &&& !flag && now < deadline && (pidfile || now <= launch_deadline) ==> n == (
            RunAsStage::Watch { encoded, adopted: adopted || noted, deadline, launch_deadline })
        }),
{
}

/// The directory of a run is given up at every end but two: where there is none, and where the
/// run goes on.
pub proof fn a_directory_outlives_only_a_running_script(d: DirectEnd, r: RunAsEnd)
    ensures
        direct_gives_up(d) <==> d != DirectEnd::NoDir && d != DirectEnd::OverTime,
        run_as_gives_up(r) <==> r != RunAsEnd::NoDir && r != RunAsEnd::OverTime,
{
}

} // verus!
