//! Scripts that the console sends: how they are wrapped and launched, and what is answered for
//! them, also where they outlived the client.
use vstd::prelude::*;

use crate::crypto;
use crate::files;
use crate::json;
use crate::num;
use crate::seen;
use crate::settle;
use crate::text;
use crate::crypto::b64_encode;
use crate::files::failed;
use crate::json::{from_text, to_text, Json, JsonV};
use crate::num::{dec_i64, dec_u64, parse_u32};
use crate::seen::{seen_flag, seen_job_dir, SEEN_KILLED, SEEN_OVER_TIME, SeenMap};
use crate::settle::RESULT_KILLED;
use crate::text::{
    cat, cat3, chars_of, code_of, from_utf8_lossy, has_name, same, starts_with, take_chars,
    to_ascii_lower, to_lowercase, trim,
};

verus! {

/// What is told where the device refuses unsigned script files.
pub const EXECUTOR_ENCODED: &'static str =
    "this device's execution policy refuses unsigned script files, so the source was handed to PowerShell as an encoded command rather than run as a .ps1. The exit code is the script's own, but this path renders the error and warning streams differently: an uncaught terminating error arrives as a CLIXML block instead of the plain text a normal run shows, a non-terminating error carries the loader's own line beside it, and output that a native command sent to stderr can land out of order.";

/// The file that marks a run whose source was handed over encoded.
pub const ENCODED_MARKER: &'static str = "encoded.flag";

/// How long a wrapper may take to start, in seconds.
pub const LAUNCH_GRACE_SECS: i64 = 30;

/// The most characters of output that are answered.
pub const OUTPUT_CHARS: usize = 60_000;

/// How old a left-over directory is swept, in nanoseconds: an hour past the longest run.
pub const JOB_DIR_SWEEP_AGE_NANOS: u128 = 25_200_000_000_000;

/// The UTF-16 code units of a character.
pub open spec fn char_units(c: char) -> Seq<u16> {
    let n = c as int;
    if n < 0x10000 {
        seq![n as u16]
    } else {
        seq![
            (0xd800 + (n - 0x10000) / 0x400) as u16,
            (0xdc00 + (n - 0x10000) % 0x400) as u16,
        ]
    }
}

/// The UTF-16 code units of a text.
pub open spec fn utf16(s: Seq<char>) -> Seq<u16>
    decreases s.len(),
{
    if s.len() == 0 {
        seq![]
    } else {
        utf16(s.drop_last()) + char_units(s.last())
    }
}

/// Code units as bytes, the lower byte first.
pub open spec fn le_bytes(u: Seq<u16>) -> Seq<u8> {
    Seq::new(
        2 * u.len(),
        |i: int|
            if i % 2 == 0 {
                (u[i / 2] % 256) as u8
            } else {
                (u[i / 2] / 256) as u8
            },
    )
}

proof fn lemma_le_push(u: Seq<u16>, x: u16)
    ensures
        le_bytes(u.push(x)) == le_bytes(u).push((x % 256) as u8).push((x / 256) as u8),
{
    let a = le_bytes(u.push(x));
    let b = le_bytes(u).push((x % 256) as u8).push((x / 256) as u8);
    assert forall|i: int| 0 <= i < a.len() implies a[i] == b[i] by {
        if i < 2 * u.len() {
            assert(u.push(x)[i / 2] == u[i / 2]);
        } else {
            assert(i / 2 == u.len());
        }
    }
    assert(a =~= b);
}

fn push_unit(out: &mut Vec<u8>, x: u16)
    ensures
        final(out)@ == old(out)@.push((x % 256) as u8).push((x / 256) as u8),
{
    out.push((x % 256) as u8);
    out.push((x / 256) as u8);
}

/// The bytes of a text in UTF-16, the lower byte of each unit first.
pub fn utf16_le(s: &str) -> (r: Vec<u8>)
    ensures
        r@ == le_bytes(utf16(s@)),
{
    let v = chars_of(s);
    let mut out: Vec<u8> = Vec::new();
    let mut i: usize = 0;
    assert(out@ =~= le_bytes(utf16(v@.take(0))));
    while i < v.len()
        invariant
            i <= v@.len(),
            out@ == le_bytes(utf16(v@.take(i as int))),
        decreases v@.len() - i,
    {
        let ghost u = utf16(v@.take(i as int));
        assert(v@.take(i + 1).drop_last() == v@.take(i as int));
        let c: char = v[i];
        let n: u32 = code_of(c);
        assert(v@.take(i + 1).last() == c);
        if n < 0x10000 {
            let x: u16 = n as u16;
            push_unit(&mut out, x);
            proof {
                lemma_le_push(u, x);
                assert(utf16(v@.take(i + 1)) =~= u.push(x));
            }
        } else {
            let hi: u16 = (0xd800 + (n - 0x10000) / 0x400) as u16;
            let lo: u16 = (0xdc00 + (n - 0x10000) % 0x400) as u16;
            push_unit(&mut out, hi);
            push_unit(&mut out, lo);
            proof {
                lemma_le_push(u, hi);
                lemma_le_push(u.push(hi), lo);
                assert(utf16(v@.take(i + 1)) =~= u.push(hi).push(lo));
            }
        }
        i = i + 1;
    }
    assert(v@.take(i as int) == v@);
    out
}

/// The text that PowerShell takes as an encoded command.
pub fn encoded_command(body: &str) -> (r: String)
    ensures
        r@ == crypto::b64_encoded(le_bytes(utf16(body@))),
{
    b64_encode(utf16_le(body).as_slice())
}

/// What `String::from_utf16_lossy` returns: the text of code units, with what is no UTF-16
/// replaced.
pub uninterp spec fn utf16_lossy(units: Seq<u16>) -> Seq<char>;

/// `String::from_utf16_lossy`: the text of code units; the units of a text give that text.
#[verifier::external_body]
fn from_utf16_lossy(units: &[u16]) -> (r: String)
    ensures
        r@ == utf16_lossy(units@),
        forall|s: Seq<char>| #[trigger] utf16(s) == units@ ==> r@ == s,
{
    String::from_utf16_lossy(units)
}

/// The code units of bytes, pair by pair.
pub open spec fn units_of(b: Seq<u8>, little: bool) -> Seq<u16> {
    Seq::new(
        (b.len() / 2) as nat,
        |i: int|
            if little {
                (b[2 * i] + 256 * b[2 * i + 1]) as u16
            } else {
                (256 * b[2 * i] + b[2 * i + 1]) as u16
            },
    )
}

fn read_units(b: &[u8], from: usize, little: bool) -> (r: Vec<u16>)
    requires
        from <= b@.len(),
    ensures
        r@ == units_of(b@.skip(from as int), little),
{
    let ghost rest = b@.skip(from as int);
    let n: usize = (b.len() - from) / 2;
    let mut out: Vec<u16> = Vec::new();
    let mut i: usize = 0;
    while i < n
        invariant
            i <= n,
            n == (b@.len() - from) / 2,
            from <= b@.len(),
            b@.len() <= usize::MAX,
            rest == b@.skip(from as int),
            out@ == units_of(rest, little).take(i as int),
        decreases n - i,
    {
        let x: u8 = b[from + 2 * i];
        let y: u8 = b[from + 2 * i + 1];
        assert(rest[2 * i as int] == x && rest[2 * i as int + 1] == y);
        let u: u16 = if little {
            x as u16 + 256 * (y as u16)
        } else {
            256 * (x as u16) + y as u16
        };
        out.push(u);
        i = i + 1;
        assert(out@ =~= units_of(rest, little).take(i as int));
    }
    assert(out@ =~= units_of(rest, little));
    out
}

/// The text of what PowerShell wrote: UTF-16 or UTF-8 where the bytes say so, else UTF-8.
pub open spec fn ps_text(b: Seq<u8>) -> Seq<char> {
    if b.len() >= 2 && b[0] == 0xff && b[1] == 0xfe {
        utf16_lossy(units_of(b.skip(2), true))
    } else if b.len() >= 2 && b[0] == 0xfe && b[1] == 0xff {
        utf16_lossy(units_of(b.skip(2), false))
    } else if b.len() >= 3 && b[0] == 0xef && b[1] == 0xbb && b[2] == 0xbf {
        text::lossy(b.skip(3))
    } else {
        text::lossy(b)
    }
}

/// The text of what PowerShell wrote.
pub fn decode_ps_bytes(b: &[u8]) -> (r: String)
    ensures
        r@ == ps_text(b@),
{
    if b.len() >= 2 && b[0] == 0xff && b[1] == 0xfe {
        return from_utf16_lossy(read_units(b, 2, true).as_slice());
    }
    if b.len() >= 2 && b[0] == 0xfe && b[1] == 0xff {
        return from_utf16_lossy(read_units(b, 2, false).as_slice());
    }
    if b.len() >= 3 && b[0] == 0xef && b[1] == 0xbb && b[2] == 0xbf {
        let mut rest: Vec<u8> = Vec::new();
        let mut i: usize = 3;
        while i < b.len()
            invariant
                3 <= i <= b@.len(),
                rest@ == b@.subrange(3, i as int),
            decreases b@.len() - i,
        {
            rest.push(b[i]);
            i = i + 1;
            assert(rest@ =~= b@.subrange(3, i as int));
        }
        assert(rest@ =~= b@.skip(3));
        return from_utf8_lossy(rest.as_slice());
    }
    from_utf8_lossy(b)
}

/// Whether the execution policy that PowerShell reports refuses unsigned script files.
pub fn unsigned_file_refused(stdout: &[u8]) -> (r: bool)
    ensures
        ({
            let p = text::ascii_lower(text::trim_v(ps_text(stdout@)));
            r == (p == "allsigned"@ || p == "restricted"@)
        }),
{
    let p = to_ascii_lower(trim(decode_ps_bytes(stdout).as_str()).as_str());
    same(p.as_str(), "allsigned") || same(p.as_str(), "restricted")
}

/// The process id that a wrapper wrote down.
pub fn read_pid_file(bytes: &[u8]) -> (r: Option<u32>)
    ensures
        match r {
            Some(p) => num::parse_uint(text::trim_v(ps_text(bytes@)), u32::MAX as nat) == Some(p as nat),
            None => num::parse_uint(text::trim_v(ps_text(bytes@)), u32::MAX as nat) is None,
        },
{
    parse_u32(trim(decode_ps_bytes(bytes).as_str()).as_str())
}

/// A script and whom it is run as.
pub struct ScriptParams {
    pub script: String,
    pub run_as: String,
    pub username: String,
    pub password: String,
}

/// The model of a script and whom it is run as.
pub struct ScriptParamsV {
    pub script: Seq<char>,
    pub run_as: Seq<char>,
    pub username: Seq<char>,
    pub password: Seq<char>,
}

impl View for ScriptParams {
    type V = ScriptParamsV;

    open spec fn view(&self) -> ScriptParamsV {
        ScriptParamsV {
            script: self.script@,
            run_as: self.run_as@,
            username: self.username@,
            password: self.password@,
        }
    }
}

/// The script that an ask brings: the member `script` of an object, or the ask as it came.
pub open spec fn script_params_v(raw: Seq<char>, ask: Option<JsonV>) -> ScriptParamsV {
    let bare = ScriptParamsV {
        script: raw,
        run_as: "system"@,
        username: seq![],
        password: seq![],
    };
    if raw.len() > 0 && raw[0] == '{' {
        match ask {
            Some(j) => match j.member_text("script"@) {
                Some(s) => ScriptParamsV {
                    script: s,
                    run_as: match j.member_text("run_as"@) {
                        Some(r) => r,
                        None => "system"@,
                    },
                    username: j.member_or_empty("username"@),
                    password: j.member_or_empty("password"@),
                },
                None => bare,
            },
            None => bare,
        }
    } else {
        bare
    }
}

/// The script that an ask brings, given what it holds as JSON.
pub fn pick_script(raw: &str, ask: &Option<Json>) -> (r: ScriptParams)
    ensures
        r@ == script_params_v(raw@, json::opt_model(*ask)),
{
    let v = chars_of(raw);
    if v.len() > 0 && v[0] == '{' {
        if let Some(j) = ask {
            if let Some(s) = j.get_str("script") {
                let run_as = match j.get_str("run_as") {
                    Some(r) => r.to_owned(),
                    None => "system".to_owned(),
                };
                return ScriptParams {
                    script: s.to_owned(),
                    run_as,
                    username: j.get_str_or_empty("username"),
                    password: j.get_str_or_empty("password"),
                };
            }
        }
    }
    let r = ScriptParams {
        script: raw.to_owned(),
        run_as: "system".to_owned(),
        username: String::new(),
        password: String::new(),
    };
    assert(r@.username =~= seq![] && r@.password =~= seq![]);
    r
}

/// The script that an ask brings.
pub fn parse_script_params(raw: &str) -> (r: ScriptParams)
    ensures
        r@ == script_params_v(raw@, json::parsed(raw@)),
{
    let ask = from_text(raw);
    pick_script(raw, &ask)
}

/// What an ask to run a script comes to.
pub enum ScriptPlan {
    /// It is answered with an error.
    Refuse(Json),
    /// The script is run by the client itself.
    Direct(String),
    /// The script is run in the user's session.
    AsUser(String),
    /// The script is run under a name and a password.
    AsCredential { script: String, username: String, password: String },
}

/// What a script comes to by whom it is run as.
pub open spec fn identity_plan(p: ScriptParamsV, r: ScriptPlan) -> bool {
    if p.run_as == "user"@ {
        r is AsUser && r->AsUser_0@ == p.script
    } else if p.run_as == "credential"@ {
        if p.username.len() == 0 || p.password.len() == 0 {
            r is Refuse && r->Refuse_0@ == files::failed_v(
                "run-as credential needs a username and password"@,
            )
        } else {
            &&& r is AsCredential
            &&& r->script@ == p.script
            &&& r->username@ == p.username
            &&& r->password@ == p.password
        }
    } else {
        r is Direct && r->Direct_0@ == p.script
    }
}

/// What an ask to run a script comes to.
pub open spec fn script_plan_v(raw: Seq<char>, p: ScriptParamsV, r: ScriptPlan) -> bool {
    if raw.len() == 0 {
        r is Refuse && r->Refuse_0@ == files::failed_v("no script provided"@)
    } else {
        identity_plan(p, r)
    }
}

/// What an ask to run a script comes to.
pub fn run_script(params: Option<&str>) -> (r: ScriptPlan)
    ensures
        ({
            let raw = text::trim_v(
                match params {
                    Some(p) => p@,
                    None => seq![],
                },
            );
            script_plan_v(raw, script_params_v(raw, json::parsed(raw)), r)
        }),
{
    let given: String = match params {
        Some(p) => p.to_owned(),
        None => String::new(),
    };
    let raw = trim(given.as_str());
    if raw.as_str().is_empty() {
        return ScriptPlan::Refuse(failed("no script provided"));
    }
    let p = parse_script_params(raw.as_str());
    run_script_as(p)
}

/// What a script comes to by whom it is run as.
pub fn run_script_as(p: ScriptParams) -> (r: ScriptPlan)
    ensures
        identity_plan(p@, r),
{
    if same(p.run_as.as_str(), "user") {
        return ScriptPlan::AsUser(p.script);
    }
    if same(p.run_as.as_str(), "credential") {
        proof {
            reveal_strlit("user");
            reveal_strlit("credential");
            assert("user"@.len() != "credential"@.len());
        }
        if p.username.as_str().is_empty() || p.password.as_str().is_empty() {
            return ScriptPlan::Refuse(
                failed("run-as credential needs a username and password"),
            );
        }
        return ScriptPlan::AsCredential {
            script: p.script,
            username: p.username,
            password: p.password,
        };
    }
    ScriptPlan::Direct(p.script)
}

/// The name of a job's directory.
pub fn job_dir_name(pid: u32, nonce: &str) -> (r: String)
    ensures
        r@ == "sulltec-job-"@ + num::dec(pid as nat) + "-"@ + nonce@,
{
    "sulltec-job-".to_owned().concat(dec_u64(pid as u64).as_str()).concat("-").concat(nonce)
}

/// The expression that runs a script from its source.
pub open spec fn load_v(path: Seq<char>) -> Seq<char> {
    "& ([scriptblock]::Create([IO.File]::ReadAllText('"@ + path + "',[Text.Encoding]::UTF8)))"@
}

/// The expression that runs a script from its source.
pub fn load_script_expr(path: &str) -> (r: String)
    ensures
        r@ == load_v(path@),
{
    cat3(
        "& ([scriptblock]::Create([IO.File]::ReadAllText('",
        path,
        "',[Text.Encoding]::UTF8)))",
    )
}

/// The encoded command that runs a script where unsigned files are refused.
pub fn encoded_run(ps1: &str) -> (r: String)
    ensures
        r@ == crypto::b64_encoded(
            le_bytes(
                utf16(
                    "$ProgressPreference='SilentlyContinue'\r\n"@ + load_v(ps1@)
                        + " *>&1 | Out-String -Stream -Width 512 | Write-Output\r\nexit 0\r\n"@,
                ),
            ),
        ),
{
    let body = cat3(
        "$ProgressPreference='SilentlyContinue'\r\n",
        load_script_expr(ps1).as_str(),
        " *>&1 | Out-String -Stream -Width 512 | Write-Output\r\nexit 0\r\n",
    );
    encoded_command(body.as_str())
}

/// How a wrapper calls the script.
pub open spec fn invoke_v(inner: Seq<char>, encoded: bool) -> Seq<char> {
    if encoded {
        load_v(inner)
    } else {
        "& '"@ + inner + "'"@
    }
}

/// The wrapper that runs a script under another identity: it writes down its process id, sends
/// every stream to a file, and marks its end.
pub open spec fn wrapper_v(
    inner: Seq<char>,
    pidfile: Seq<char>,
    out: Seq<char>,
    flag: Seq<char>,
    encoded: bool,
) -> Seq<char> {
    "$ErrorActionPreference='Continue'\r\nSet-Content -LiteralPath '"@ + pidfile
        + "' -Value $PID\r\ntry { "@ + invoke_v(inner, encoded) + " *> '"@ + out
        + "' } catch { \"$_\" | Out-File -LiteralPath '"@ + out
        + "' -Append } finally { Set-Content -LiteralPath '"@ + flag + "' -Value 'done' }\r\n"@
}

/// The wrapper that runs a script under another identity.
pub fn wrapper_script(inner: &str, pidfile: &str, out: &str, flag: &str, encoded: bool) -> (r:
    String)
    ensures
        r@ == wrapper_v(inner@, pidfile@, out@, flag@, encoded),
{
    let invoke = if encoded {
        load_script_expr(inner)
    } else {
        cat3("& '", inner, "'")
    };
    "$ErrorActionPreference='Continue'\r\nSet-Content -LiteralPath '".to_owned().concat(
        pidfile,
    ).concat("' -Value $PID\r\ntry { ").concat(invoke.as_str()).concat(" *> '").concat(out).concat(
        "' } catch { \"$_\" | Out-File -LiteralPath '",
    ).concat(out).concat("' -Append } finally { Set-Content -LiteralPath '").concat(flag).concat(
        "' -Value 'done' }\r\n",
    )
}

/// The arguments that PowerShell is launched with.
pub fn launch_args(encoded: bool, payload: &str) -> (r: String)
    ensures
        r@ == (if encoded {
            "-NoProfile -EncodedCommand "@ + payload@
        } else {
            "-ExecutionPolicy Bypass -NoProfile -File \""@ + payload@ + "\""@
        }),
{
    if encoded {
        cat("-NoProfile -EncodedCommand ", payload)
    } else {
        cat3("-ExecutionPolicy Bypass -NoProfile -File \"", payload, "\"")
    }
}

/// Who is granted access to a job's directory: the named user, or whoever is logged on.
pub fn grant_argument(credential: bool, username: &str) -> (r: String)
    ensures
        r@ == (if credential && username@.len() > 0 {
            username@
        } else {
            "*S-1-5-4"@
        }) + ":(OI)(CI)M"@,
{
    if credential && !username.is_empty() {
        cat(username, ":(OI)(CI)M")
    } else {
        cat("*S-1-5-4", ":(OI)(CI)M")
    }
}

/// The moments until which a run and its start are waited for.
pub fn run_as_deadlines(now: i64, ceiling_secs: u64) -> (r: (i64, i64))
    requires
        now + ceiling_secs <= i64::MAX,
        ceiling_secs <= i64::MAX,
    ensures
        r.0 == now + ceiling_secs,
        r.1 == now + (if ceiling_secs < LAUNCH_GRACE_SECS {
            ceiling_secs as int
        } else {
            LAUNCH_GRACE_SECS as int
        }),
{
    let c: i64 = ceiling_secs as i64;
    let g: i64 = if c < LAUNCH_GRACE_SECS {
        c
    } else {
        LAUNCH_GRACE_SECS
    };
    (now + c, now + g)
}

/// What waiting for a run under another identity comes to.
#[derive(Clone, Copy, PartialEq, Eq, Structural)]
pub enum RunAsStep {
    /// It marked its end.
    Finished,
    /// Its time is up: it is held on to and left running.
    OverTime,
    /// Its wrapper never started.
    NeverStarted,
    /// It is looked at again.
    Wait,
}

/// What waiting for a run comes to: its mark ends the wait at any time, its bound ends it
/// without, and a wrapper that wrote no process id in time never started.
pub fn run_as_step(
    now: i64,
    deadline: i64,
    launch_deadline: i64,
    flag: bool,
    pidfile: bool,
) -> (r: RunAsStep)
    ensures
        r == (if flag {
            RunAsStep::Finished
        } else if now >= deadline {
            RunAsStep::OverTime
        } else if !pidfile && now > launch_deadline {
            RunAsStep::NeverStarted
        } else {
            RunAsStep::Wait
        }),
{
    if flag {
        RunAsStep::Finished
    } else if now >= deadline {
        RunAsStep::OverTime
    } else if !pidfile && now > launch_deadline {
        RunAsStep::NeverStarted
    } else {
        RunAsStep::Wait
    }
}

/// Why a run under the client's own identity could not be made.
pub enum DirectFailure {
    /// The job's directory could not be made.
    NoDir,
    /// The script could not be written.
    NoScript,
    /// The file for the run's output could not be opened.
    NoOutput,
    /// The file for the run's errors could not be opened.
    NoErrors,
    /// PowerShell could not be started.
    NoStart(String),
}

/// What is answered for a run under the client's own identity that could not be made.
pub open spec fn direct_error(f: DirectFailure) -> Seq<char> {
    match f {
        DirectFailure::NoDir => "failed to create job temp dir"@,
        DirectFailure::NoScript => "failed to write script"@,
        DirectFailure::NoOutput => "failed to open the job output file"@,
        DirectFailure::NoErrors => "failed to open the job error file"@,
        DirectFailure::NoStart(e) => e@,
    }
}

/// What is answered for a run under the client's own identity that could not be made.
pub fn direct_failed(f: &DirectFailure) -> (r: Json)
    ensures
        r@ == files::failed_v(direct_error(*f)),
{
    match f {
        DirectFailure::NoDir => failed("failed to create job temp dir"),
        DirectFailure::NoScript => failed("failed to write script"),
        DirectFailure::NoOutput => failed("failed to open the job output file"),
        DirectFailure::NoErrors => failed("failed to open the job error file"),
        DirectFailure::NoStart(e) => failed(e.as_str()),
    }
}

/// Why a run under another identity could not be made.
pub enum RunAsFailure {
    /// The job's directory could not be made.
    NoDir,
    /// The script could not be written.
    NoScript,
    /// The wrapper could not be written.
    NoWrapper,
    /// The identity could not be given access to the directory.
    NoAccess,
    /// The wrapper could not be launched.
    NoLaunch(String),
    /// The wrapper never started.
    NeverStarted,
}

/// What is answered for a run under another identity that could not be made.
pub open spec fn run_as_error(mode: Seq<char>, f: RunAsFailure) -> Seq<char> {
    match f {
        RunAsFailure::NoDir => "failed to create job temp dir"@,
        RunAsFailure::NoScript => "failed to write script"@,
        RunAsFailure::NoWrapper => "failed to write wrapper"@,
        RunAsFailure::NoAccess => "run-as ("@ + mode
            + "): could not grant the launching identity read/write access to the job directory"@,
        RunAsFailure::NoLaunch(e) => "launch failed ("@ + mode + "): "@ + e@,
        RunAsFailure::NeverStarted => "run-as ("@ + mode
            + "): the wrapper was launched but never started - no pid file after "@ + num::dec_int(
            LAUNCH_GRACE_SECS as int,
        ) + "s"@,
    }
}

/// What is answered for a run under another identity that could not be made.
pub fn run_as_failed(mode: &str, f: &RunAsFailure) -> (r: Json)
    ensures
        r@ == files::failed_v(run_as_error(mode@, *f)),
{
    match f {
        RunAsFailure::NoDir => failed("failed to create job temp dir"),
        RunAsFailure::NoScript => failed("failed to write script"),
        RunAsFailure::NoWrapper => failed("failed to write wrapper"),
        RunAsFailure::NoAccess => failed(
            cat3(
                "run-as (",
                mode,
                "): could not grant the launching identity read/write access to the job directory",
            ).as_str(),
        ),
        RunAsFailure::NoLaunch(e) => failed(
            cat3("launch failed (", mode, "): ").concat(e.as_str()).as_str(),
        ),
        RunAsFailure::NeverStarted => failed(
            cat3(
                "run-as (",
                mode,
                "): the wrapper was launched but never started - no pid file after ",
            ).concat(dec_i64(LAUNCH_GRACE_SECS).as_str()).concat("s").as_str(),
        ),
    }
}

/// An answer with what it says of the executor and of its end.
pub open spec fn annotated(answer: JsonV, encoded: bool, killed: bool) -> JsonV {
    let a = if encoded {
        answer.with("executor"@, JsonV::Str(EXECUTOR_ENCODED@))
    } else {
        answer
    };
    if killed {
        a.with("killed"@, JsonV::Str(RESULT_KILLED@))
    } else {
        a
    }
}

fn annotate(answer: Json, encoded: bool, killed: bool) -> (r: Json)
    ensures
        r@ == annotated(answer@, encoded, killed),
{
    let a = if encoded {
        answer.with("executor", Json::text(EXECUTOR_ENCODED))
    } else {
        answer
    };
    if killed {
        a.with("killed", Json::text(RESULT_KILLED))
    } else {
        a
    }
}

/// The output of a script, or what is said where it cannot be read.
pub open spec fn output_text(captured: Result<Seq<u8>, Seq<char>>, said: Seq<char>) -> Seq<char> {
    text::first_chars(
        match captured {
            Ok(b) => ps_text(b),
            Err(e) => said + e + "]"@,
        },
        OUTPUT_CHARS as int,
    )
}

/// The bytes of a script's output, or why they cannot be read.
pub open spec fn captured_v(c: Result<Vec<u8>, String>) -> Result<Seq<u8>, Seq<char>> {
    match c {
        Ok(b) => Ok(b@),
        Err(e) => Err(e@),
    }
}

fn read_output(captured: &Result<Vec<u8>, String>, said: &str) -> (r: String)
    ensures
        r@ == output_text(captured_v(*captured), said@),
{
    let text = match captured {
        Ok(b) => decode_ps_bytes(b.as_slice()),
        Err(e) => cat3(said, e.as_str(), "]"),
    };
    take_chars(text.as_str(), OUTPUT_CHARS)
}

/// The answer of a script that was waited for.
pub fn script_answer(
    success: bool,
    code: Option<i32>,
    captured: &Result<Vec<u8>, String>,
    encoded: bool,
    killed: bool,
) -> (r: Json)
    ensures
        r@ == annotated(
            JsonV::empty().with("ok"@, JsonV::Bool(success)).with(
                "exit"@,
                match code {
                    Some(c) => JsonV::Int(c as int),
                    None => JsonV::Null,
                },
            ).with(
                "output"@,
                JsonV::Str(
                    output_text(
                        captured_v(*captured),
                        "[console: the script ran but its captured output could not be read: "@,
                    ),
                ),
            ),
            encoded,
            killed,
        ),
{
    let exit = match code {
        Some(c) => Json::Int(c as i64),
        None => Json::Null,
    };
    let out = read_output(
        captured,
        "[console: the script ran but its captured output could not be read: ",
    );
    annotate(
        Json::object().with("ok", Json::Bool(success)).with("exit", exit).with(
            "output",
            Json::Str(out),
        ),
        encoded,
        killed,
    )
}

/// The answer of a script that ran under another identity.
pub fn run_as_answer(mode: &str, captured: &Result<Vec<u8>, String>, encoded: bool) -> (r: Json)
    ensures
        r@ == annotated(
            JsonV::empty().with("ok"@, JsonV::Bool(true)).with(
                "output"@,
                JsonV::Str(
                    output_text(
                        captured_v(*captured),
                        "[console: the script's captured output could not be read: "@,
                    ),
                ),
            ).with("run_as"@, JsonV::Str(mode@)),
            encoded,
            false,
        ),
{
    let out = read_output(
        captured,
        "[console: the script's captured output could not be read: ",
    );
    annotate(
        Json::object().with("ok", Json::Bool(true)).with("output", Json::Str(out)).with(
            "run_as",
            Json::text(mode),
        ),
        encoded,
        false,
    )
}

/// What is found in the directory of a run.
pub struct JobDir {
    pub is_dir: bool,
    /// The run is under another identity.
    pub wrapper: bool,
    /// The run marked its end.
    pub done: bool,
    /// The source was handed over encoded.
    pub encoded: bool,
    pub output: Result<Vec<u8>, String>,
}

/// A run can be answered for from its directory: one under another identity where it marked its
/// end, any other where its exit code is known.
pub open spec fn settles(has_dir: bool, d: JobDir, code: Option<u32>) -> bool {
    has_dir && d.is_dir && (if d.wrapper {
        d.done
    } else {
        code is Some
    })
}

/// How a run came to be answered for from its directory.
pub open spec fn began_v(killed: bool, over_time: bool) -> Seq<char> {
    if killed {
        "this device ended this script's process on request while it was running"@
    } else if over_time {
        "this script passed the bound it was given and this device stopped waiting for it without killing it"@
    } else {
        "the client that started this script stopped while it was running"@
    }
}

/// What is told of an answer that was recovered.
pub open spec fn recovered_text(killed: bool, over_time: bool, code: Option<u32>) -> Seq<char> {
    if code is Some {
        began_v(killed, over_time)
            + ". This device kept a handle on the PowerShell process it had launched, watched it exit, and read the run's output back off the file that process had been writing — so the output and the exit code here are this run's own. What this device cannot tell you is whether that process ended on its own or was cut off, so output that stops mid-line is a truncation and not the script's last word."@
    } else {
        began_v(killed, over_time)
            + ". The script ran under a different identity, outlived the wait, and recorded its own completion; the output here was read back off the file it wrote. There is NO exit code for this run — this executor never produces one — so `ok` means the script reached its end, not that the work it did succeeded."@
    }
}

/// The answer that was recovered for a run.
pub open spec fn recovered_v(
    killed: bool,
    over_time: bool,
    code: Option<u32>,
    output: Seq<char>,
) -> JsonV {
    let a = JsonV::empty().with("ok"@, JsonV::Bool(!(code is Some && code->0 != 0))).with(
        "output"@,
        JsonV::Str(output),
    ).with("recovered"@, JsonV::Str(recovered_text(killed, over_time, code)));
    match code {
        Some(c) => a.with("exit"@, JsonV::Int(settle::signed_code(c))),
        None => a,
    }
}

/// The answer that was recovered for a run.
pub fn recovered_answer(seen: &SeenMap, id: &str, code: Option<u32>, output: &str) -> (r: Json)
    requires
        seen.wf(),
    ensures
        r@ == recovered_v(
            seen::flag_of(seen@, id@, SEEN_KILLED@) is Some,
            seen::flag_of(seen@, id@, SEEN_OVER_TIME@) is Some,
            code,
            output@,
        ),
{
    let began = if seen_flag(seen, id, SEEN_KILLED).is_some() {
        "this device ended this script's process on request while it was running"
    } else if seen_flag(seen, id, SEEN_OVER_TIME).is_some() {
        "this script passed the bound it was given and this device stopped waiting for it without killing it"
    } else {
        "the client that started this script stopped while it was running"
    };
    let tail = if code.is_some() {
        ". This device kept a handle on the PowerShell process it had launched, watched it exit, and read the run's output back off the file that process had been writing — so the output and the exit code here are this run's own. What this device cannot tell you is whether that process ended on its own or was cut off, so output that stops mid-line is a truncation and not the script's last word."
    } else {
        ". The script ran under a different identity, outlived the wait, and recorded its own completion; the output here was read back off the file it wrote. There is NO exit code for this run — this executor never produces one — so `ok` means the script reached its end, not that the work it did succeeded."
    };
    let ok = match code {
        Some(c) => c == 0,
        None => true,
    };
    let a = Json::object().with("ok", Json::Bool(ok)).with("output", Json::text(output)).with(
        "recovered",
        Json::Str(cat(began, tail)),
    );
    match code {
        Some(c) => {
            let n: i64 = if c < 0x8000_0000 {
                c as i64
            } else {
                c as i64 - 0x1_0000_0000
            };
            a.with("exit", Json::Int(n))
        },
        None => a,
    }
}

/// The answer of a script that is settled from its directory. The exit code of a run under
/// another identity is that of its wrapper and says nothing.
pub fn settle_script(seen: &SeenMap, id: &str, d: &JobDir, code: Option<u32>) -> (r: Option<
    (String, String),
>)
    requires
        seen.wf(),
    ensures
        match r {
            Some((status, answer)) => {
                let c = if d.wrapper {
                    None
                } else {
                    code
                };
                &&& settles(seen::dir_of(seen@, id@) is Some, *d, code)
                &&& status@ == "done"@
                &&& answer@ == json::compact(
                    annotated(
                        recovered_v(
                            seen::flag_of(seen@, id@, SEEN_KILLED@) is Some,
                            seen::flag_of(seen@, id@, SEEN_OVER_TIME@) is Some,
                            c,
                            output_text(
                                captured_v(d.output),
                                "[console: the script ran but its captured output could not be read: "@,
                            ),
                        ),
                        d.encoded,
                        false,
                    ),
                )
            },
            None => !settles(seen::dir_of(seen@, id@) is Some, *d, code),
        },
{
    if seen_job_dir(seen, id).is_none() || !d.is_dir {
        return None;
    }
    let c: Option<u32> = if d.wrapper {
        None
    } else {
        code
    };
    let finished = if d.wrapper {
        d.done
    } else {
        c.is_some()
    };
    if !finished {
        return None;
    }
    let out = read_output(
        &d.output,
        "[console: the script ran but its captured output could not be read: ",
    );
    let answer = annotate(recovered_answer(seen, id, c, out.as_str()), d.encoded, false);
    Some(("done".to_owned(), to_text(&answer)))
}

/// Whether a run under another identity is still going: it has not marked its end, and its
/// process is going as far as it is known.
pub fn still_running(has_dir: bool, is_dir: bool, wrapper: bool, done: bool, alive: Option<bool>) -> (r:
    bool)
    ensures
        r == (has_dir && is_dir && wrapper && !done && alive != Some(false)),
{
    if !has_dir || !is_dir || !wrapper || done {
        return false;
    }
    match alive {
        Some(a) => a,
        None => true,
    }
}

/// The directories of runs that a record still speaks of, in small letters.
pub open spec fn kept_dirs(s: Seq<(String, Json)>) -> Seq<Seq<char>>
    decreases s.len(),
{
    if s.len() == 0 {
        seq![]
    } else {
        match s.last().1@.member_text("x"@) {
            Some(x) => kept_dirs(s.drop_last()).push(text::lowercase(x)),
            None => kept_dirs(s.drop_last()),
        }
    }
}

/// The directories of runs that a record still speaks of.
pub fn dirs_to_keep(seen: &SeenMap) -> (r: Vec<String>)
    ensures
        text::texts(r@) == kept_dirs(seen.entries@),
{
    let ghost s = seen.entries@;
    let mut out: Vec<String> = Vec::new();
    let mut i: usize = 0;
    assert(text::texts(out@) =~= kept_dirs(s.take(0)));
    while i < seen.entries.len()
        invariant
            i <= s.len(),
            s == seen.entries@,
            text::texts(out@) == kept_dirs(s.take(i as int)),
        decreases s.len() - i,
    {
        assert(s.take(i + 1).drop_last() == s.take(i as int));
        if let Some(x) = seen.entries[i].1.get_str("x") {
            let ghost o = out@;
            let l = to_lowercase(x);
            let ghost lv = l@;
            out.push(l);
            assert(text::texts(out@) =~= text::texts(o).push(lv));
        }
        i = i + 1;
    }
    assert(s.take(i as int) == s);
    out
}

/// Whether a left-over directory is to be swept: it is one of a job of another process, no
/// record speaks of it, and it is old enough.
pub fn sweep_job_dirs(
    name: &str,
    path: &str,
    own_pid: u32,
    keep: &Vec<String>,
    age_nanos: Option<u128>,
) -> (r: bool)
    ensures
        r == (text::prefixed(name@, "sulltec-job-"@) && !text::prefixed(
            name@,
            "sulltec-job-"@ + num::dec(own_pid as nat) + "-"@,
        ) && !text::texts(keep@).contains(text::lowercase(path@)) && age_nanos is Some && age_nanos->0
            > JOB_DIR_SWEEP_AGE_NANOS),
{
    let mine = "sulltec-job-".to_owned().concat(dec_u64(own_pid as u64).as_str()).concat("-");
    if !starts_with(name, "sulltec-job-") || starts_with(name, mine.as_str()) {
        return false;
    }
    if has_name(keep, to_lowercase(path).as_str()) {
        return false;
    }
    match age_nanos {
        Some(a) => a > JOB_DIR_SWEEP_AGE_NANOS,
        None => false,
    }
}

/// The ask of a script: an object with a text under `script`.
pub open spec fn brings_script(raw: Seq<char>, ask: JsonV, script: Seq<char>) -> bool {
    raw.len() > 0 && raw[0] == '{' && ask.member("script"@) == Some(JsonV::Str(script))
}

/// An ask for a run under a credential is run under the name, with the password and of the
/// script that it gives, each the text of the member of its own name. Without a name or a
/// password it is refused.
pub proof fn a_credential_is_used_as_given(
    raw: Seq<char>,
    ask: JsonV,
    script: Seq<char>,
    username: Seq<char>,
    password: Seq<char>,
    r: ScriptPlan,
)
    requires
        brings_script(raw, ask, script),
        ask.member("run_as"@) == Some(JsonV::Str("credential"@)),
        ask.member("username"@) == Some(JsonV::Str(username)),
        ask.member("password"@) == Some(JsonV::Str(password)),
        script_plan_v(raw, script_params_v(raw, Some(ask)), r),
    ensures
        username.len() > 0 && password.len() > 0 ==> (r matches ScriptPlan::AsCredential {
            script: s,
            username: u,
            password: p,
        } && s@ == script && u@ == username && p@ == password),
        username.len() == 0 || password.len() == 0 ==> r is Refuse,
{
    reveal_strlit("user");
    reveal_strlit("credential");
    assert("user"@.len() != "credential"@.len());
}

/// An ask for a run in the user's session is run there; one that names no identity, or another
/// one, is run by the client itself; each of the script that it gives.
pub proof fn a_script_runs_as_it_asks(
    raw: Seq<char>,
    ask: JsonV,
    script: Seq<char>,
    r: ScriptPlan,
)
    requires
        brings_script(raw, ask, script),
        script_plan_v(raw, script_params_v(raw, Some(ask)), r),
    ensures
        ask.member("run_as"@) == Some(JsonV::Str("user"@)) ==> (r matches ScriptPlan::AsUser(s)
            && s@ == script),
        (ask.member("run_as"@) matches Some(JsonV::Str(m)) ==> m != "user"@ && m != "credential"@)
            ==> (r matches ScriptPlan::Direct(s) && s@ == script),
{
    reveal_strlit("user");
    reveal_strlit("credential");
    reveal_strlit("system");
    assert("user"@.len() == 4 && "credential"@.len() == 10 && "system"@.len() == 6);
    match ask.member("run_as"@) {
        Some(JsonV::Str(m)) => {},
        _ => {},
    }
}

/// What is no object with a script is the script itself, and is run by the client. An empty one
/// is refused.
pub proof fn a_bare_script_runs_as_it_stands(raw: Seq<char>, ask: Option<JsonV>, r: ScriptPlan)
    requires
        script_plan_v(raw, script_params_v(raw, ask), r),
        raw.len() > 0 ==> raw[0] != '{' || ask is None || ask->0.member_text("script"@) is None,
    ensures
        raw.len() == 0 ==> r is Refuse,
        raw.len() > 0 ==> (r matches ScriptPlan::Direct(s) && s@ == raw),
{
    reveal_strlit("user");
    reveal_strlit("credential");
    reveal_strlit("system");
    assert("user"@.len() == 4 && "credential"@.len() == 10 && "system"@.len() == 6);
}

/// A character is one code unit where it fits, and else two that give it back.
pub proof fn a_character_is_one_unit_or_a_pair(c: char)
    ensures
        (c as int) < 0x10000 ==> char_units(c).len() == 1 && char_units(c)[0] as int == c as int,
        (c as int) >= 0x10000 ==> {
            let u = char_units(c);
            &&& u.len() == 2
            &&& 0xd800 <= u[0] < 0xdc00 && 0xdc00 <= u[1] < 0xe000
            &&& 0x10000 + (u[0] - 0xd800) * 0x400 + (u[1] - 0xdc00) == c as int
        },
{
}

/// The code units of a text are those of its parts behind each other.
pub proof fn texts_are_encoded_piece_by_piece(a: Seq<char>, b: Seq<char>)
    ensures
        utf16(a + b) == utf16(a) + utf16(b),
    decreases b.len(),
{
    if b.len() == 0 {
        assert(a + b =~= a);
        assert(utf16(a) + utf16(b) =~= utf16(a));
    } else {
        texts_are_encoded_piece_by_piece(a, b.drop_last());
        assert((a + b).drop_last() =~= a + b.drop_last());
        assert(utf16(a + b) =~= utf16(a) + utf16(b));
    }
}

/// Code units written low byte first are read back from those bytes; what begins with a mark of
/// the byte order is read in that order, and without its mark.
pub proof fn code_units_are_read_back(u: Seq<u16>, b: Seq<u8>)
    ensures
        units_of(le_bytes(u), true) == u,
        ps_text(seq![0xffu8, 0xfeu8] + le_bytes(u)) == utf16_lossy(u),
        ps_text(seq![0xfeu8, 0xffu8] + b) == utf16_lossy(units_of(b, false)),
        ps_text(seq![0xefu8, 0xbbu8, 0xbfu8] + b) == text::lossy(b),
        b.len() == 0 || (b[0] != 0xff && b[0] != 0xfe && b[0] != 0xef) ==> ps_text(b)
            == text::lossy(b),
{
    let v = le_bytes(u);
    assert forall|i: int| 0 <= i < u.len() implies units_of(v, true)[i] == u[i] by {
        assert((2 * i) / 2 == i && (2 * i) % 2 == 0);
        assert((2 * i + 1) / 2 == i && (2 * i + 1) % 2 == 1);
        let x = u[i];
        assert(v[2 * i] == (x % 256) as u8);
        assert(v[2 * i + 1] == (x / 256) as u8);
    }
    assert(v.len() / 2 == u.len());
    assert(units_of(v, true) =~= u);
    let p = seq![0xffu8, 0xfeu8] + v;
    assert(p.skip(2) =~= v);
    let q = seq![0xfeu8, 0xffu8] + b;
    assert(q.skip(2) =~= b);
    let w = seq![0xefu8, 0xbbu8, 0xbfu8] + b;
    assert(w.skip(3) =~= b);
}

/// High byte first, the first byte of a pair is the high one.
pub proof fn the_other_byte_order_is_the_other_way_round(b: Seq<u8>, i: int)
    requires
        0 <= i,
        2 * i + 1 < b.len(),
    ensures
        units_of(b, false)[i] as int == 256 * b[2 * i] + b[2 * i + 1],
        units_of(b, true)[i] as int == b[2 * i] + 256 * b[2 * i + 1],
{
}

/// The wrapper of a run under another identity writes its process id to the one file, sends the
/// output of the script to the other, and marks its end in the third, whatever the script did.
pub proof fn a_wrapper_reports_on_its_run(
    inner: Seq<char>,
    pidfile: Seq<char>,
    out: Seq<char>,
    flag: Seq<char>,
    encoded: bool,
)
    ensures
        ({
            let w = wrapper_v(inner, pidfile, out, flag, encoded);
            let call = if encoded {
                "& ([scriptblock]::Create([IO.File]::ReadAllText('"@ + inner
                    + "',[Text.Encoding]::UTF8)))"@
            } else {
                "& '"@ + inner + "'"@
            };
            &&& text::occurs(w, pidfile + "' -Value $PID\r\ntry { "@ + call + " *> '"@ + out)
            &&& text::occurs(
                w,
                "' -Append } finally { Set-Content -LiteralPath '"@ + flag + "' -Value 'done' }\r\n"@,
            )
        }),
{
    let w = wrapper_v(inner, pidfile, out, flag, encoded);
    let call = invoke_v(inner, encoded);
    let head = "$ErrorActionPreference='Continue'\r\nSet-Content -LiteralPath '"@;
    let mid = pidfile + "' -Value $PID\r\ntry { "@ + call + " *> '"@ + out;
    let catch = "' } catch { \"$_\" | Out-File -LiteralPath '"@ + out;
    let tail = "' -Append } finally { Set-Content -LiteralPath '"@ + flag + "' -Value 'done' }\r\n"@;
    assert(w =~= head + mid + (catch + tail));
    crate::text::lemma_stands_in(head, mid, catch + tail);
    assert(w =~= (head + mid + catch) + tail + Seq::<char>::empty());
    crate::text::lemma_stands_in(head + mid + catch, tail, Seq::<char>::empty());
}

/// What a run wrote is told from its start, up to 60000 characters; where it cannot be read that
/// is told, with the reason.
pub proof fn output_is_told_from_its_start(bytes: Seq<u8>, reason: Seq<char>, said: Seq<char>)
    ensures
        output_text(Ok(bytes), said).is_prefix_of(ps_text(bytes)),
        output_text(Ok(bytes), said).len() <= 60_000,
        ps_text(bytes).len() <= 60_000 ==> output_text(Ok(bytes), said) == ps_text(bytes),
        (said + reason + "]"@).len() <= 60_000 ==> output_text(Err(reason), said) == said + reason
            + "]"@,
{
}

/// An answer says that its script was handed over encoded, and that its process was ended, only
/// where that is so, and is otherwise as it was.
pub proof fn an_answer_tells_how_it_came_about(
    answer: JsonV,
    encoded: bool,
    killed: bool,
    k: Seq<char>,
)
    requires
        answer is Obj,
        answer.member("executor"@) is None,
        answer.member("killed"@) is None,
    ensures
        annotated(answer, encoded, killed).member("executor"@) == (if encoded {
            Some(JsonV::Str(EXECUTOR_ENCODED@))
        } else {
            None
        }),
        annotated(answer, encoded, killed).member("killed"@) == (if killed {
            Some(JsonV::Str(RESULT_KILLED@))
        } else {
            None
        }),
        k != "executor"@ && k != "killed"@ ==> annotated(answer, encoded, killed).member(k)
            == answer.member(k),
{
    reveal_strlit("executor");
    reveal_strlit("killed");
    assert("executor"@.len() == 8 && "killed"@.len() == 6);
}

/// A recovered answer is good where the exit code is zero or there is none, and carries the exit
/// code as the signed number that it is, the output, and how it was recovered.
pub proof fn a_recovered_answer_says_what_is_known(
    killed: bool,
    over_time: bool,
    code: u32,
    output: Seq<char>,
)
    ensures
        ({
            let v = recovered_v(killed, over_time, Some(code), output);
            &&& v.member("ok"@) == Some(JsonV::Bool(code == 0))
            &&& v.member("output"@) == Some(JsonV::Str(output))
            &&& v.member("exit"@) == Some(
                JsonV::Int(
                    if code >= 0x8000_0000 {
                        code - 0x1_0000_0000
                    } else {
                        code as int
                    },
                ),
            )
            &&& v.member("recovered"@) == Some(
                JsonV::Str(recovered_text(killed, over_time, Some(code))),
            )
        }),
        ({
            let v = recovered_v(killed, over_time, None, output);
            &&& v.member("ok"@) == Some(JsonV::Bool(true))
            &&& v.member("output"@) == Some(JsonV::Str(output))
            &&& v.member("exit"@) is None
        }),
{
    reveal_strlit("ok");
    reveal_strlit("output");
    reveal_strlit("exit");
    reveal_strlit("recovered");
    assert("ok"@.len() == 2 && "output"@.len() == 6 && "exit"@.len() == 4 && "recovered"@.len()
        == 9);
}

/// A recovered answer begins with how the run came to outlive its wait: it was ended on request,
/// it passed its bound, or the client stopped.
pub proof fn a_recovered_answer_begins_with_its_cause(
    killed: bool,
    over_time: bool,
    code: Option<u32>,
)
    ensures
        recovered_text(true, over_time, code).take(
            "this device ended this script's process on request while it was running"@.len() as int,
        ) == "this device ended this script's process on request while it was running"@,
        recovered_text(false, true, code).take(
            "this script passed the bound it was given and this device stopped waiting for it without killing it"@.len() as int,
        )
            == "this script passed the bound it was given and this device stopped waiting for it without killing it"@,
        recovered_text(false, false, code).take(
            "the client that started this script stopped while it was running"@.len() as int,
        ) == "the client that started this script stopped while it was running"@,
{
    let a = "this device ended this script's process on request while it was running"@;
    let b = "this script passed the bound it was given and this device stopped waiting for it without killing it"@;
    let c = "the client that started this script stopped while it was running"@;
    assert(recovered_text(true, over_time, code).take(a.len() as int) =~= a);
    assert(recovered_text(false, true, code).take(b.len() as int) =~= b);
    assert(recovered_text(false, false, code).take(c.len() as int) =~= c);
}

/// A run is answered for from its directory where it marked its end, if it ran under another
/// identity, and where its exit code is known, if it did not.
pub proof fn a_directory_settles_its_run(d: JobDir, code: Option<u32>)
    ensures
        !settles(false, d, code),
        !d.is_dir ==> !settles(true, d, code),
        d.is_dir && d.wrapper ==> (settles(true, d, code) <==> d.done),
        d.is_dir && !d.wrapper ==> (settles(true, d, code) <==> code is Some),
{
}

/// Every directory that the record speaks of is kept, in small letters.
pub proof fn recorded_directories_are_kept(s: Seq<(String, Json)>, i: int)
    requires
        0 <= i < s.len(),
    ensures
        s[i].1@.member_text("x"@) matches Some(x) ==> kept_dirs(s).contains(text::lowercase(x)),
    decreases s.len(),
{
    let t = s.drop_last();
    let k = kept_dirs(s);
    if i < t.len() {
        recorded_directories_are_kept(t, i);
        assert(t[i] == s[i]);
        if let Some(x) = s[i].1@.member_text("x"@) {
            let n = choose|n: int| 0 <= n < kept_dirs(t).len() && kept_dirs(t)[n] == text::lowercase(x);
            assert(k[n] == text::lowercase(x));
        }
    } else if let Some(x) = s[i].1@.member_text("x"@) {
        assert(k[k.len() - 1] == text::lowercase(x));
    }
}

/// Each way in which a run cannot be made is told by its own words, and a start that failed by
/// its own error; a run under another identity names that identity.
pub proof fn a_failed_run_says_what_failed(mode: Seq<char>, e: String)
    ensures
        direct_error(DirectFailure::NoStart(e)) == e@,
        run_as_error(mode, RunAsFailure::NoLaunch(e)) == "launch failed ("@ + mode + "): "@ + e@,
        direct_error(DirectFailure::NoDir) == run_as_error(mode, RunAsFailure::NoDir),
        direct_error(DirectFailure::NoScript) == run_as_error(mode, RunAsFailure::NoScript),
        text::prefixed(direct_error(DirectFailure::NoDir), "failed to create"@),
        text::prefixed(direct_error(DirectFailure::NoScript), "failed to write script"@),
        text::suffixed(direct_error(DirectFailure::NoOutput), "output file"@),
        text::suffixed(direct_error(DirectFailure::NoErrors), "error file"@),
        text::suffixed(run_as_error(mode, RunAsFailure::NoWrapper), "wrapper"@),
        text::prefixed(run_as_error(mode, RunAsFailure::NoAccess), "run-as ("@ + mode + "): "@),
        text::prefixed(run_as_error(mode, RunAsFailure::NeverStarted), "run-as ("@ + mode + "): "@),
{
    reveal_strlit("failed to create job temp dir");
    reveal_strlit("failed to create");
    assert("failed to create job temp dir"@.take(16) =~= "failed to create"@);
    let t = "failed to write script"@;
    assert(t.take(t.len() as int) =~= t);
    reveal_strlit("failed to open the job output file");
    reveal_strlit("output file");
    assert("failed to open the job output file"@.skip(23) =~= "output file"@);
    reveal_strlit("failed to open the job error file");
    reveal_strlit("error file");
    assert("failed to open the job error file"@.skip(23) =~= "error file"@);
    reveal_strlit("failed to write wrapper");
    reveal_strlit("wrapper");
    assert("failed to write wrapper"@.skip(16) =~= "wrapper"@);
    reveal_strlit("): ");
    reveal_strlit("): could not grant the launching identity read/write access to the job directory");
    reveal_strlit("): the wrapper was launched but never started - no pid file after ");
    let head = "run-as ("@ + mode + "): "@;
    let a = run_as_error(mode, RunAsFailure::NoAccess);
    assert(a.take(head.len() as int) =~= head);
    let b = run_as_error(mode, RunAsFailure::NeverStarted);
    assert(b.take(head.len() as int) =~= head);
}

} // verus!
