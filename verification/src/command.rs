//! Commands of hosted jobs: how long they are waited for, and what their output is answered with.
use vstd::prelude::*;

use crate::argv;
use crate::hosted;
use crate::json;
use crate::keyset;
use crate::naming;
use crate::num;
use crate::text;
use crate::argv::split_argv;
use crate::hosted::read_ask;
use crate::json::{from_text, read_text, Json, JsonV};
use crate::keyset::keyset_error;
use crate::naming::is_separator;
use crate::num::{dec_i64, dec_u64};
use crate::text::{cat, cat3, chars_of, from_utf8_lossy, is_blank, lines, take_chars, trim};

verus! {

/// The variable that hands a PowerShell command its parameters.
pub const JOB_PARAMS_ENV: &'static str = "SULLTEC_JOB_PARAMS";

/// How long the output of a process that ended is waited for, in seconds.
pub const PS_DRAIN_GRACE_SECS: u64 = 30;

/// What every hosted PowerShell command starts with: errors are kept, and checked on demand.
pub const PS_GUARD: &'static str =
    "$ErrorActionPreference='SilentlyContinue'; $Error.Clear(); function Stop-OnError { param([string]$What='',[string[]]$Ignore=@()) $real=@($Error | Where-Object { $i=[string]$_.FullyQualifiedErrorId; -not (@($Ignore | Where-Object { $i -like ($_ + '*') }).Count) }); if ($real.Count -gt 0) { $m=[string]$real[0].Exception.Message; if ($What) { $m=$What + ': ' + $m }; [Console]::Error.WriteLine($m); exit 1 }; $Error.Clear() }; ";

/// The helpers that put a value into a row only where there is one.
pub const PS_ADD_FNS: &'static str =
    "function Add-S { param($H,[string]$K,$V) if ($null -ne $V) { $s=[string]$V; if ($s.Trim() -ne '') { $H[$K]=$s } } }; function Add-N { param($H,[string]$K,$V) if ($null -ne $V) { $n=$V -as [long]; if ($null -ne $n) { $H[$K]=$n } } }; function Add-D { param($H,[string]$K,$V) if ($null -ne $V) { try { $d=[datetime]$V; if ($d -ge [datetime]'2000-01-01') { $H[$K]=$d.ToString('yyyy-MM-dd HH:mm:ss') } } catch { } } }; function Add-B { param($H,[string]$K,$V) if ($null -ne $V) { $H[$K]=[bool]$V } }; ";

/// What hands a command its parameters, and keeps them from what it starts.
pub const PS_PARAMS_BIND: &'static str =
    "$Params=$null; if($env:SULLTEC_JOB_PARAMS){ $Params=ConvertFrom-Json $env:SULLTEC_JOB_PARAMS }; $env:SULLTEC_JOB_PARAMS=$null; $Error.Clear(); ";

/// What happens to a command that takes too long.
#[derive(Clone, Copy, PartialEq, Eq, Structural)]
pub enum Bound {
    /// It is one page of a set: it is ended, and that is answered.
    Page,
    /// It is a run of its own: it is left running, and answered for when it ends.
    Run,
}

/// What a look at a process gave.
#[derive(Clone, Copy, PartialEq, Eq, Structural)]
pub enum Look {
    /// It ended, with its exit code where it has one.
    Ended(Option<i32>),
    /// It could not be looked at.
    Failed,
    /// It is going; whether its time is up.
    Going { time_up: bool },
}

/// What waiting for a process comes to.
#[derive(Clone, Copy, PartialEq, Eq, Structural)]
pub enum WaitStep {
    /// It ended.
    Finished(Option<i32>),
    /// It is not waited for any longer.
    Unfinished,
    /// It is looked at again after so many milliseconds, with the next pause so long.
    Sleep { pause: u64, next: u64 },
}

/// The pause after a pause: twice as long, a quarter of a second at most.
pub open spec fn next_pause(pause: int) -> int {
    if pause * 2 <= 250 {
        pause * 2
    } else {
        250
    }
}

/// What waiting for a process comes to after a look at it.
pub open spec fn wait_v(look: Look, pause: int) -> WaitStep {
    match look {
        Look::Ended(c) => WaitStep::Finished(c),
        Look::Failed => WaitStep::Unfinished,
        Look::Going { time_up } => if time_up {
            WaitStep::Unfinished
        } else {
            WaitStep::Sleep { pause: pause as u64, next: next_pause(pause) as u64 }
        },
    }
}

/// What waiting for a process comes to after a look at it.
pub fn wait_step(look: Look, pause: u64) -> (r: WaitStep)
    ensures
        r == wait_v(look, pause as int),
{
    match look {
        Look::Ended(c) => WaitStep::Finished(c),
        Look::Failed => WaitStep::Unfinished,
        Look::Going { time_up } => if time_up {
            WaitStep::Unfinished
        } else {
            let next: u64 = if pause <= 125 {
                pause * 2
            } else {
                250
            };
            WaitStep::Sleep { pause, next }
        },
    }
}

/// The pauses between looks at a process grow, and never past a quarter of a second.
pub proof fn pauses_stay_short(pause: int)
    requires
        0 < pause <= 250,
    ensures
        pause <= next_pause(pause) <= 250,
{
}

/// What is done with a process that is not waited for any longer.
#[derive(Clone, Copy, PartialEq, Eq, Structural)]
pub enum OverTime {
    /// It is ended.
    Kill,
    /// It is held on to, its bound is noted, and it is left running.
    Hold,
}

/// What is done with a process that is not waited for any longer.
pub fn over_time(bound: Bound) -> (r: OverTime)
    ensures
        r == (match bound {
            Bound::Page => OverTime::Kill,
            Bound::Run => OverTime::Hold,
        }),
{
    match bound {
        Bound::Page => OverTime::Kill,
        Bound::Run => OverTime::Hold,
    }
}

/// How a command line that runs by itself ended.
pub enum NativeRun {
    /// It was not waited for any longer.
    OverTime { killed: bool },
    /// It ended.
    Done { code: i32, stdout: String, stderr: String, drained: bool },
}

/// How a command line ended whose output was read, where it could be read in time.
pub fn native_done(code: Option<i32>, out: &Option<Vec<u8>>, err: &Option<Vec<u8>>) -> (r:
    NativeRun)
    ensures
        r is Done,
        r->code == (match code {
            Some(c) => c,
            None => -1i32,
        }),
        r->drained == (out is Some && err is Some),
        out is Some && err is Some ==> r->stdout@ == text::lossy(out->0@) && r->stderr@ == text::lossy(
            err->0@,
        ),
        !(out is Some && err is Some) ==> r->stdout@.len() == 0 && r->stderr@
            == "a descendant kept its output pipe open after the process exited"@,
{
    let c: i32 = match code {
        Some(c) => c,
        None => -1,
    };
    match (out, err) {
        (Some(o), Some(e)) => NativeRun::Done {
            code: c,
            stdout: from_utf8_lossy(o.as_slice()),
            stderr: from_utf8_lossy(e.as_slice()),
            drained: true,
        },
        _ => NativeRun::Done {
            code: c,
            stdout: String::new(),
            stderr: "a descendant kept its output pipe open after the process exited".to_owned(),
            drained: false,
        },
    }
}

/// The first line of a text that is not blank, cut after 256 characters.
pub open spec fn first_line_v(ls: Seq<Seq<char>>) -> Option<Seq<char>>
    decreases ls.len(),
{
    if ls.len() == 0 {
        None
    } else if !text::blank(ls[0]) {
        Some(text::first_chars(text::trim_v(ls[0]), 256))
    } else {
        first_line_v(ls.drop_first())
    }
}

/// The first line of a text that is not blank.
pub fn first_line(s: &str) -> (r: Option<String>)
    ensures
        text::opt_text(r) == first_line_v(text::lines_v(s@)),
{
    let ls = lines(s);
    let ghost all = text::texts(ls@);
    let mut i: usize = 0;
    assert(all.skip(0) == all);
    while i < ls.len()
        invariant
            i <= ls@.len(),
            all == text::texts(ls@),
            all == text::lines_v(s@),
            first_line_v(all) == first_line_v(all.skip(i as int)),
        decreases ls@.len() - i,
    {
        assert(all.skip(i as int)[0] == ls@[i as int]@);
        assert(all.skip(i as int).drop_first() == all.skip(i + 1));
        let t = trim(ls[i].as_str());
        if !t.as_str().is_empty() {
            return Some(take_chars(t.as_str(), 256));
        }
        i = i + 1;
    }
    None
}

/// Why a command gave no rows.
pub enum ExecEnd {
    /// The job is answered with this.
    Refused(Json),
    /// The command is still running.
    OverTime,
}

/// The program and the arguments of a command line that runs by itself.
pub open spec fn native_error(command: Seq<char>, ask: JsonV) -> Option<Seq<char>> {
    match argv::argv_v(command, ask) {
        Err(e) => Some(e),
        Ok(args) => if args.len() == 0 {
            Some("the hosted command is empty"@)
        } else {
            None
        },
    }
}

/// What a command line comes to: the program and its arguments, the program first, or the answer
/// that it is refused with.
pub open spec fn native_argv_v(
    command: Seq<char>,
    ask: JsonV,
    r: Result<Vec<String>, Json>,
) -> bool {
    match r {
        Ok(v) => native_error(command, ask) is None && argv::argv_v(command, ask) == Ok::<
            Seq<Seq<char>>,
            Seq<char>,
        >(text::texts(v@)) && v@.len() > 0,
        Err(j) => native_error(command, ask) is Some && j@ == keyset::error_v(
            native_error(command, ask)->0,
        ),
    }
}

/// The program and the arguments of a command line, given the text of what is asked. A text that
/// holds no value asks for nothing.
pub fn native_command(command: &str, ask: &str) -> (r: Result<Vec<String>, Json>)
    ensures
        native_argv_v(command@, hosted::ask_of(Some(ask@)), r),
{
    let values = read_ask(Some(ask));
    native_argv(command, &values)
}

/// The program and the arguments of a command line, the program first.
pub fn native_argv(command: &str, ask: &Json) -> (r: Result<Vec<String>, Json>)
    ensures
        native_argv_v(command@, ask@, r),
{
    match split_argv(command, ask) {
        Ok(v) => {
            assert(text::texts(v@).len() == v@.len());
            if v.len() == 0 {
                Err(keyset_error("the hosted command is empty"))
            } else {
                Ok(v)
            }
        },
        Err(j) => Err(j),
    }
}

/// What a command line that runs by itself is answered with.
pub open spec fn native_v(
    program: Seq<char>,
    timeout_s: nat,
    run: Option<NativeRun>,
    r: Result<Vec<Json>, ExecEnd>,
) -> bool {
    match run {
        None => r is Err && r->Err_0 is Refused && r->Err_0->Refused_0@ == keyset::error_v(
            "'"@ + program + "' could not be started"@,
        ),
        Some(NativeRun::OverTime { killed }) => if killed {
            r is Err && r->Err_0 is Refused && r->Err_0->Refused_0@ == keyset::error_v(
                "'"@ + program + "' timed out after "@ + num::dec(timeout_s)
                    + "s and was killed on the device"@,
            ).with("timed_out"@, JsonV::Bool(true))
        } else {
            r is Err && r->Err_0 is OverTime
        },
        Some(NativeRun::Done { code, stdout, stderr, drained }) => if code != 0 {
            let why = match first_line_v(text::lines_v(stderr@)) {
                Some(l) => l,
                None => match first_line_v(text::lines_v(stdout@)) {
                    Some(l) => l,
                    None => seq![],
                },
            };
            r is Err && r->Err_0 is Refused && r->Err_0->Refused_0@ == keyset::error_v(
                "'"@ + program + "' exited "@ + num::dec_int(code as int) + ": "@ + why,
            ).with("exit_code"@, JsonV::Int(code as int))
        } else if !drained {
            r is Err && r->Err_0 is Refused && r->Err_0->Refused_0@ == keyset::error_v(
                "'"@ + program + "' exited "@ + num::dec_int(code as int)
                    + " but its output could not be read: a descendant kept the pipe open after it exited, so nothing it wrote is the command's answer"@,
            ).with("exit_code"@, JsonV::Int(code as int))
        } else {
            r is Ok && json::models(r->Ok_0@) == seq![
                JsonV::empty().with("exit_code"@, JsonV::Int(code as int)).with(
                    "output"@,
                    JsonV::Str(text::trim_v(stdout@)),
                ),
            ]
        },
    }
}

/// What a command line that runs by itself is answered with.
pub fn exec_native(program: &str, timeout_s: u64, run: Option<NativeRun>) -> (r: Result<
    Vec<Json>,
    ExecEnd,
>)
    ensures
        native_v(program@, timeout_s as nat, run, r),
{
    match run {
        None => Err(
            ExecEnd::Refused(
                keyset_error(cat3("'", program, "' could not be started").as_str()),
            ),
        ),
        Some(NativeRun::OverTime { killed }) => if killed {
            let why = "'".to_owned().concat(program).concat("' timed out after ").concat(
                dec_u64(timeout_s).as_str(),
            ).concat("s and was killed on the device");
            Err(
                ExecEnd::Refused(
                    keyset_error(why.as_str()).with("timed_out", Json::Bool(true)),
                ),
            )
        } else {
            Err(ExecEnd::OverTime)
        },
        Some(NativeRun::Done { code, stdout, stderr, drained }) => {
            let head = "'".to_owned().concat(program).concat("' exited ").concat(
                dec_i64(code as i64).as_str(),
            );
            if code != 0 {
                let line = match first_line(stderr.as_str()) {
                    Some(l) => l,
                    None => match first_line(stdout.as_str()) {
                        Some(l) => l,
                        None => String::new(),
                    },
                };
                assert(line@.len() == 0 ==> line@ =~= seq![]);
                let why = head.concat(": ").concat(line.as_str());
                Err(
                    ExecEnd::Refused(
                        keyset_error(why.as_str()).with("exit_code", Json::Int(code as i64)),
                    ),
                )
            } else if !drained {
                let why = head.concat(
                    " but its output could not be read: a descendant kept the pipe open after it exited, so nothing it wrote is the command's answer",
                );
                Err(
                    ExecEnd::Refused(
                        keyset_error(why.as_str()).with("exit_code", Json::Int(code as i64)),
                    ),
                )
            } else {
                let row = Json::object().with("exit_code", Json::Int(code as i64)).with(
                    "output",
                    Json::Str(trim(stdout.as_str())),
                );
                let ghost rv = row@;
                let mut rows: Vec<Json> = Vec::new();
                rows.push(row);
                assert(json::models(rows@) =~= seq![rv]);
                Ok(rows)
            }
        },
    }
}

/// The script that runs a hosted PowerShell command.
pub fn powershell_script(command: &str) -> (r: String)
    ensures
        r@ == PS_GUARD@ + PS_ADD_FNS@ + PS_PARAMS_BIND@ + command@,
{
    PS_GUARD.to_owned().concat(PS_ADD_FNS).concat(PS_PARAMS_BIND).concat(command)
}

/// The output of a process that ended.
pub struct Output {
    pub success: bool,
    pub code: Option<i32>,
    pub stdout: Vec<u8>,
    pub stderr: Vec<u8>,
}

/// What a PowerShell run that did not complete counts as.
pub open spec fn unfinished_text(why: Seq<char>) -> Seq<char> {
    "the PowerShell run did not complete: "@ + why
        + ". Whatever it had written is discarded rather than reported as the answer"@
}

/// What a PowerShell run that did not complete counts as: a failure that says so.
pub fn ps_run_unfinished(why: &str) -> (r: Output)
    ensures
        !r.success,
        r.code == Some(1i32),
        r.stdout@.len() == 0,
        r.stderr@ == vstd::utf8::encode_utf8(unfinished_text(why@)),
{
    let text = cat3(
        "the PowerShell run did not complete: ",
        why,
        ". Whatever it had written is discarded rather than reported as the answer",
    );
    let b = text.as_str().as_bytes();
    let mut err: Vec<u8> = Vec::new();
    let mut i: usize = 0;
    while i < b.len()
        invariant
            i <= b@.len(),
            err@ == b@.take(i as int),
        decreases b@.len() - i,
    {
        err.push(b[i]);
        i = i + 1;
        assert(err@ =~= b@.take(i as int));
    }
    assert(b@.take(i as int) == b@);
    Output { success: false, code: Some(1), stdout: Vec::new(), stderr: err }
}

/// What a command failed with: it wrote nothing, and either wrote an error or did not succeed.
pub open spec fn guard_v(out: Output, what: Seq<char>) -> Option<Seq<char>> {
    let err = text::trim_v(text::lossy(out.stderr@));
    if !text::blank(text::lossy(out.stdout@)) || (err.len() == 0 && out.success) {
        None
    } else {
        let detail = if err.len() == 0 {
            "exited "@ + num::dec_int(
                match out.code {
                    Some(c) => c as int,
                    None => -1,
                },
            )
        } else {
            text::first_chars(err, 2000)
        };
        Some(what + " failed: "@ + detail)
    }
}

/// What a command failed with, where it failed.
pub fn guard_failure(out: &Output, what: &str) -> (r: Option<Json>)
    ensures
        json::opt_model(r) == (match guard_v(*out, what@) {
            Some(e) => Some(keyset::error_v(e)),
            None => None,
        }),
{
    if !is_blank(from_utf8_lossy(out.stdout.as_slice()).as_str()) {
        return None;
    }
    let err = trim(from_utf8_lossy(out.stderr.as_slice()).as_str());
    let none = err.as_str().is_empty();
    if none && out.success {
        return None;
    }
    let detail = if none {
        let code: i64 = match out.code {
            Some(c) => c as i64,
            None => -1,
        };
        cat("exited ", dec_i64(code).as_str())
    } else {
        take_chars(err.as_str(), 2000)
    };
    Some(keyset_error(cat3(what, " failed: ", detail.as_str()).as_str()))
}

/// The rows that the output of a PowerShell command holds, or what it failed with: a list is
/// its elements, null none, anything else one row.
pub open spec fn ps_rows_v(out: Output, what: Seq<char>) -> Result<Seq<JsonV>, Seq<char>> {
    match guard_v(out, what) {
        Some(e) => Err(e),
        None => {
            let text = text::trim_v(text::lossy(out.stdout@));
            if text.len() == 0 {
                Ok(seq![])
            } else {
                match json::reading(text) {
                    Ok(JsonV::Arr(s)) => Ok(s),
                    Ok(JsonV::Null) => Ok(seq![]),
                    Ok(other) => Ok(seq![other]),
                    Err(e) => Err(what + " returned unreadable output: "@ + e),
                }
            }
        },
    }
}

/// The rows that a value holds: a list is its elements, null none, anything else one row.
pub fn rows_of_value(j: Json) -> (r: Vec<Json>)
    ensures
        json::models(r@) == (match j@ {
            JsonV::Arr(s) => s,
            JsonV::Null => seq![],
            _ => seq![j@],
        }),
{
    match j {
        Json::Arr(v) => {
            assert(json::model(j)->Arr_0 =~= json::models(v@));
            v
        },
        Json::Null => {
            let none: Vec<Json> = Vec::new();
            assert(json::models(none@) =~= Seq::<JsonV>::empty());
            none
        },
        other => {
            let mut one: Vec<Json> = Vec::new();
            let ghost ov = other@;
            one.push(other);
            assert(json::models(one@) =~= seq![ov]);
            one
        },
    }
}

/// The rows that the output of a PowerShell command holds.
pub fn ps_rows_of(out: &Output, what: &str) -> (r: Result<Vec<Json>, Json>)
    ensures
        match r {
            Ok(rows) => ps_rows_v(*out, what@) == Ok::<Seq<JsonV>, Seq<char>>(json::models(rows@)),
            Err(j) => ps_rows_v(*out, what@) is Err && j@ == keyset::error_v(
                ps_rows_v(*out, what@)->Err_0,
            ),
        },
{
    if let Some(e) = guard_failure(out, what) {
        return Err(e);
    }
    let text = trim(from_utf8_lossy(out.stdout.as_slice()).as_str());
    if text.as_str().is_empty() {
        let none: Vec<Json> = Vec::new();
        assert(json::models(none@) =~= Seq::<JsonV>::empty());
        return Ok(none);
    }
    match read_text(text.as_str()) {
        Ok(j) => Ok(rows_of_value(j)),
        Err(e) => Err(
            keyset_error(cat3(what, " returned unreadable output: ", e.as_str()).as_str()),
        ),
    }
}

/// How a PowerShell command ended.
pub enum PsRun {
    /// It was not waited for any longer.
    OverTime { killed: bool },
    /// It ended.
    Done(Output),
}

/// How a PowerShell command ended whose output was read, where it could be read in time: a
/// process that it left behind can keep its output open after it ended.
pub fn ps_done(success: bool, code: Option<i32>, out: Option<Vec<u8>>, err: Option<Vec<u8>>) -> (r:
    PsRun)
    ensures
        r is Done,
        out is Some && err is Some ==> r->Done_0 == (Output {
            success,
            code,
            stdout: out->0,
            stderr: err->0,
        }),
        !(out is Some && err is Some) ==> !r->Done_0.success && r->Done_0.code == Some(1i32)
            && r->Done_0.stdout@.len() == 0 && r->Done_0.stderr@ == vstd::utf8::encode_utf8(
            unfinished_text("a descendant kept its output pipe open after the process exited"@),
        ),
{
    match (out, err) {
        (Some(stdout), Some(stderr)) => PsRun::Done(Output { success, code, stdout, stderr }),
        _ => PsRun::Done(
            ps_run_unfinished("a descendant kept its output pipe open after the process exited"),
        ),
    }
}

/// What a hosted PowerShell command is answered with.
pub open spec fn powershell_v(
    timeout_s: nat,
    run: Option<PsRun>,
    r: Result<Vec<Json>, ExecEnd>,
) -> bool {
    match run {
        None => r is Err && r->Err_0 is Refused && r->Err_0->Refused_0@ == keyset::error_v(
            "the collector command failed: PowerShell could not be started"@,
        ),
        Some(PsRun::OverTime { killed }) => if killed {
            r is Err && r->Err_0 is Refused && r->Err_0->Refused_0@ == keyset::error_v(
                "timed out after "@ + num::dec(timeout_s)
                    + "s — PowerShell was killed on the device; anything it handed to a Windows service may still be running, so do not re-dispatch without checking"@,
            ).with("timed_out"@, JsonV::Bool(true))
        } else {
            r is Err && r->Err_0 is OverTime
        },
        Some(PsRun::Done(out)) => match ps_rows_v(out, "the collector command"@) {
            Ok(rows) => r is Ok && json::models(r->Ok_0@) == rows,
            Err(e) => r is Err && r->Err_0 is Refused && r->Err_0->Refused_0@ == keyset::error_v(e),
        },
    }
}

/// What a hosted PowerShell command is answered with.
pub fn exec_powershell(timeout_s: u64, run: Option<PsRun>) -> (r: Result<Vec<Json>, ExecEnd>)
    ensures
        powershell_v(timeout_s as nat, run, r),
{
    match run {
        None => Err(
            ExecEnd::Refused(
                keyset_error("the collector command failed: PowerShell could not be started"),
            ),
        ),
        Some(PsRun::OverTime { killed }) => if killed {
            let why = cat3(
                "timed out after ",
                dec_u64(timeout_s).as_str(),
                "s — PowerShell was killed on the device; anything it handed to a Windows service may still be running, so do not re-dispatch without checking",
            );
            Err(
                ExecEnd::Refused(
                    keyset_error(why.as_str()).with("timed_out", Json::Bool(true)),
                ),
            )
        } else {
            Err(ExecEnd::OverTime)
        },
        Some(PsRun::Done(out)) => match ps_rows_of(&out, "the collector command") {
            Ok(rows) => Ok(rows),
            Err(e) => Err(ExecEnd::Refused(e)),
        },
    }
}

/// A value that a reader may pass on: null counts as nothing read.
pub fn ps_json_or_none(v: Json) -> (r: Option<Json>)
    ensures
        json::opt_model(r) == (if v@ is Null {
            None
        } else {
            Some(v@)
        }),
{
    if v.is_null() {
        None
    } else {
        Some(v)
    }
}

/// What the output of a PowerShell reader holds; nothing where it holds no value.
pub fn ps_json(stdout: &[u8]) -> (r: Option<Json>)
    ensures
        json::opt_model(r) == (match json::parsed(text::trim_v(text::lossy(stdout@))) {
            Some(j) => if j is Null {
                None
            } else {
                Some(j)
            },
            None => None,
        }),
{
    match from_text(trim(from_utf8_lossy(stdout).as_str()).as_str()) {
        Some(j) => ps_json_or_none(j),
        None => None,
    }
}

/// Where the system is, where that is not known.
pub const SYSTEM_DIR: &'static str = "C:\\Windows";

/// Where PowerShell is below the system's directory.
pub const POWERSHELL_BELOW: &'static str =
    "\\System32\\WindowsPowerShell\\v1.0\\powershell.exe";

/// A path that depends on no current directory: it begins with a drive and a separator, or with
/// two separators.
pub open spec fn absolute(path: Seq<char>) -> bool {
    ||| naming::on_drive(path) && path.len() >= 3 && naming::separator(path[2])
    ||| path.len() >= 2 && naming::separator(path[0]) && naming::separator(path[1])
}

fn is_absolute(path: &str) -> (r: bool)
    ensures
        r == absolute(path@),
{
    let v = chars_of(path);
    if v.len() >= 2 && is_separator(v[0]) && is_separator(v[1]) {
        return true;
    }
    v.len() >= 3 && (('A' <= v[0] && v[0] <= 'Z') || ('a' <= v[0] && v[0] <= 'z')) && v[1] == ':'
        && is_separator(v[2])
}

/// The path of PowerShell, below the system's directory.
pub open spec fn powershell_path(system_root: Option<Seq<char>>) -> Seq<char> {
    match system_root {
        Some(root) => if absolute(root) {
            root + POWERSHELL_BELOW@
        } else {
            SYSTEM_DIR@ + POWERSHELL_BELOW@
        },
        None => SYSTEM_DIR@ + POWERSHELL_BELOW@,
    }
}

/// The path of PowerShell: the system's own, below the directory that is given as the system's,
/// or below the usual one where none is given or what is given is no absolute path.
pub fn powershell_exe(system_root: Option<&str>) -> (r: String)
    ensures
        r@ == powershell_path(text::opt_str(system_root)),
{
    if let Some(root) = system_root {
        if is_absolute(root) {
            return cat(root, POWERSHELL_BELOW);
        }
    }
    cat(SYSTEM_DIR, POWERSHELL_BELOW)
}

/// PowerShell is always started by an absolute path to the system's own program, so no other
/// program is looked up in its place.
pub proof fn powershell_is_the_systems_own(system_root: Option<Seq<char>>)
    ensures
        absolute(powershell_path(system_root)),
        text::suffixed(powershell_path(system_root), POWERSHELL_BELOW@),
{
    reveal_strlit("C:\\Windows");
    let tail = POWERSHELL_BELOW@;
    let root = match system_root {
        Some(root) => if absolute(root) {
            root
        } else {
            SYSTEM_DIR@
        },
        None => SYSTEM_DIR@,
    };
    let r = powershell_path(system_root);
    assert(absolute(root));
    assert(r == root + tail);
    assert(r.skip(r.len() - tail.len()) =~= tail);
    assert(r[0] == root[0] && r[1] == root[1]);
    if root.len() >= 3 {
        assert(r[2] == root[2]);
    }
}

/// What a wait does: it ends with the process, with the exit code; it ends without where the
/// process cannot be looked at or its time is up; else it sleeps as long as was said, and twice
/// as long the next time, up to a quarter of a second.
pub proof fn a_wait_follows_its_process(code: Option<i32>, pause: u64)
    requires
        pause <= 250,
    ensures
        wait_v(Look::Ended(code), pause as int) == WaitStep::Finished(code),
        wait_v(Look::Failed, pause as int) is Unfinished,
        wait_v(Look::Going { time_up: true }, pause as int) is Unfinished,
        wait_v(Look::Going { time_up: false }, pause as int) matches WaitStep::Sleep {
            pause: p,
            next: n,
        } && p == pause && n == (if pause <= 125 {
            2 * pause
        } else {
            250
        }),
{
}

/// The first line that is told of a text is the first that is not blank, trimmed, and no longer
/// than 256 characters.
pub proof fn the_first_line_that_says_something(ls: Seq<Seq<char>>, i: int)
    requires
        0 <= i < ls.len(),
        forall|k: int| 0 <= k < i ==> text::trim_v(#[trigger] ls[k]).len() == 0,
    ensures
        text::trim_v(ls[i]).len() > 0 ==> (first_line_v(ls) matches Some(t) && t.is_prefix_of(
            text::trim_v(ls[i]),
        ) && t.len() == (if text::trim_v(ls[i]).len() < 256 {
            text::trim_v(ls[i]).len() as int
        } else {
            256
        })),
        i == ls.len() - 1 && text::trim_v(ls[i]).len() == 0 ==> first_line_v(ls) is None,
    decreases ls.len(),
{
    if i > 0 {
        let t = ls.drop_first();
        assert(text::trim_v(ls[0]).len() == 0);
        assert forall|k: int| 0 <= k < i - 1 implies text::trim_v(#[trigger] t[k]).len() == 0 by {
            assert(t[k] == ls[k + 1]);
        }
        the_first_line_that_says_something(t, i - 1);
        assert(t[i - 1] == ls[i]);
    } else if ls.len() == 1 {
        assert(first_line_v(ls.drop_first()) is None);
    }
}

/// A command of its own that ended well and whose output was read is answered with one row: its
/// exit code and its output. Any other end is no answer: it is refused, or still going.
pub proof fn only_a_good_end_is_an_answer(
    program: Seq<char>,
    timeout_s: nat,
    run: Option<NativeRun>,
    r: Result<Vec<Json>, ExecEnd>,
)
    requires
        native_v(program, timeout_s, run, r),
    ensures
        r is Ok <==> (run matches Some(NativeRun::Done { code, stdout: _, stderr: _, drained })
            && code == 0 && drained),
        r is Ok ==> r->Ok_0@.len() == 1 && r->Ok_0@[0]@.member("exit_code"@) == Some(JsonV::Int(0))
            && r->Ok_0@[0]@.member("output"@) == Some(
            JsonV::Str(text::trim_v(run->0->stdout@)),
        ),
        r matches Err(ExecEnd::OverTime) <==> (run matches Some(NativeRun::OverTime { killed })
            && !killed),
        r matches Err(ExecEnd::Refused(j)) ==> j@.member("ok"@) == Some(JsonV::Bool(false)),
        run matches Some(NativeRun::Done { code, stdout: _, stderr: _, drained: _ }) ==> code != 0 ==> (
        r matches Err(ExecEnd::Refused(j)) && j@.member("exit_code"@) == Some(
            JsonV::Int(code as int),
        )),
        run matches Some(NativeRun::OverTime { killed }) && killed ==> (r matches Err(
            ExecEnd::Refused(j),
        ) && j@.member("timed_out"@) == Some(JsonV::Bool(true))),
{
    reveal_strlit("ok");
    reveal_strlit("error");
    reveal_strlit("exit_code");
    reveal_strlit("output");
    reveal_strlit("timed_out");
    assert("ok"@.len() == 2 && "error"@.len() == 5 && "exit_code"@.len() == 9 && "output"@.len()
        == 6);
    assert("timed_out"@.len() == 9 && "timed_out"@[0] == 't' && "exit_code"@[0] == 'e');
    if let Ok(rows) = r {
        let one = json::models(rows@);
        assert(one.len() == rows@.len());
        assert(one[0] == rows@[0]@);
    }
}

/// The rows of a PowerShell run are the elements of the list that it printed, or the one value,
/// or none where it printed nothing; and there are none to trust where it printed nothing and
/// complained or failed.
pub proof fn printed_values_are_rows(out: Output, what: Seq<char>, v: JsonV)
    ensures
        ({
            let said = text::trim_v(text::lossy(out.stdout@));
            let complained = text::trim_v(text::lossy(out.stderr@)).len() > 0;
            &&& said.len() == 0 && (complained || !out.success) ==> ps_rows_v(out, what) is Err
            &&& said.len() == 0 && !complained && out.success ==> ps_rows_v(out, what) == Ok::<
                Seq<JsonV>,
                Seq<char>,
            >(seq![])
            &&& said.len() > 0 && json::reading(said) == Ok::<JsonV, Seq<char>>(v) ==> ps_rows_v(
                out,
                what,
            ) == Ok::<Seq<JsonV>, Seq<char>>(
                match v {
                    JsonV::Arr(s) => s,
                    JsonV::Null => seq![],
                    _ => seq![v],
                },
            )
            &&& said.len() > 0 && json::reading(said) is Err ==> ps_rows_v(out, what) is Err
        }),
{
}

/// A PowerShell run that ended gives its rows or the reason why there are none; one that was
/// ended for its time is refused and says so; one that was not is still going.
pub proof fn a_powershell_run_is_answered_by_its_end(
    timeout_s: nat,
    run: Option<PsRun>,
    r: Result<Vec<Json>, ExecEnd>,
)
    requires
        powershell_v(timeout_s, run, r),
    ensures
        run is None ==> r matches Err(ExecEnd::Refused(_)),
        run matches Some(PsRun::OverTime { killed }) && !killed ==> r matches Err(ExecEnd::OverTime),
        run matches Some(PsRun::OverTime { killed }) && killed ==> (r matches Err(
            ExecEnd::Refused(j),
        ) && j@.member("timed_out"@) == Some(JsonV::Bool(true))),
        run matches Some(PsRun::Done(out)) ==> match ps_rows_v(out, "the collector command"@) {
            Ok(rows) => r is Ok && json::models(r->Ok_0@) == rows,
            Err(_) => r matches Err(ExecEnd::Refused(j)) && j@.member("ok"@) == Some(
                JsonV::Bool(false),
            ),
        },
{
    reveal_strlit("ok");
    reveal_strlit("error");
    reveal_strlit("timed_out");
    assert("ok"@.len() == 2 && "error"@.len() == 5 && "timed_out"@.len() == 9);
}

/// A command that wrote something, or ended well without an error, did not fail; any other failed
/// with the error that it wrote, or with its code.
pub proof fn a_command_fails_with_what_it_wrote(out: Output, what: Seq<char>, code: i32)
    ensures
        ({
            let wrote = text::trim_v(text::lossy(out.stdout@)).len() > 0;
            let err = text::trim_v(text::lossy(out.stderr@));
            &&& wrote ==> guard_v(out, what) is None
            &&& err.len() == 0 && out.success ==> guard_v(out, what) is None
            &&& !wrote && 0 < err.len() <= 2000 ==> guard_v(out, what) == Some(
                what + " failed: "@ + err,
            )
            &&& !wrote && err.len() > 2000 ==> guard_v(out, what) == Some(
                what + " failed: "@ + err.take(2000),
            )
            &&& !wrote && err.len() == 0 && !out.success && out.code == Some(code) ==> guard_v(
                out,
                what,
            ) == Some(what + " failed: "@ + ("exited "@ + num::dec_int(code as int)))
            &&& !wrote && err.len() == 0 && !out.success && out.code is None ==> guard_v(out, what)
                == Some(what + " failed: "@ + ("exited "@ + num::dec_int(-1)))
        }),
{
}

/// A command line is refused where it cannot be read or is empty, and runs its words where it
/// can.
pub proof fn a_command_line_is_run_or_refused(
    command: Seq<char>,
    ask: JsonV,
    r: Result<Vec<String>, Json>,
)
    requires
        native_argv_v(command, ask, r),
    ensures
        r is Ok <==> argv::argv_v(command, ask) is Ok && (argv::argv_v(command, ask)->Ok_0).len() > 0,
        r matches Ok(v) ==> text::texts(v@) == argv::argv_v(command, ask)->Ok_0,
        r matches Err(j) ==> j@.member("ok"@) == Some(JsonV::Bool(false)),
        r matches Err(j) ==> argv::argv_v(command, ask) matches Err(e) ==> j@.member("error"@)
            == Some(JsonV::Str(e)),
        r matches Err(j) ==> argv::argv_v(command, ask) is Ok ==> j@.member("error"@) == Some(
            JsonV::Str("the hosted command is empty"@),
        ),
{
    reveal_strlit("ok");
    reveal_strlit("error");
    assert("ok"@.len() == 2);
    assert("error"@.len() == 5);
}

/// A run that did not complete is answered with why, and with no output.
pub proof fn an_unfinished_run_says_why(why: Seq<char>)
    ensures
        text::prefixed(unfinished_text(why), "the PowerShell run did not complete: "@ + why),
{
    let head = "the PowerShell run did not complete: "@ + why;
    assert(unfinished_text(why).take(head.len() as int) =~= head);
}

} // verus!
