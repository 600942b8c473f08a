//! Runs that outlived what was waiting for them: the processes that a device holds on to, and
//! what the console is told of a job that it still waits for.
use vstd::prelude::*;

use crate::json;
use crate::num;
use crate::seen;
use crate::text;
use crate::dispatch::{any_job_in_flight, InFlight};
use crate::json::{Json, JsonV};
use crate::num::dec_i64;
use crate::seen::{
    mark_job_child, seen_flag, seen_job_dir, seen_state, SEEN_KILLED, SEEN_OVER_TIME, SeenMap,
};
use crate::text::same;

verus! {

/// The most processes that a device holds on to.
pub const ADOPTED_MAX: usize = 32;

/// What is told of a job that ran to completion and whose result was lost.
pub const RESULT_LOST: &'static str =
    "this job already ran to completion on this device; its result was lost when the client restarted before it could be posted. It was NOT run a second time. Dispatch it again if the work needs repeating.";

/// What is told of a job that was taken up and never answered.
pub const RESULT_ABANDONED: &'static str =
    "this device took this job up and cannot say how it ended: the client stopped between starting the work and reporting on it, so no result was ever produced. How far it got is unknown — it may have completed, made a partial change, or done nothing. It was NOT re-run. Check the machine before dispatching it again.";

/// What is told of a job that was ended on request.
pub const RESULT_KILLED: &'static str =
    "this run was ended on this device at an operator's request while it was going. It did not finish, and what it had already changed on this machine stands — a kill ends the process, not the work it had already done. ⚠ Only the process this device started was ended; anything IT had launched is still running.";

/// A process that is held on to. Its handle is what its exit code is read by.
pub struct Adopted {
    pub job_id: String,
    pub handle: i64,
    pub exited: Option<u32>,
}

/// The model of a held process.
pub struct AdoptedV {
    pub job_id: Seq<char>,
    pub handle: i64,
    pub exited: Option<u32>,
}

impl View for Adopted {
    type V = AdoptedV;

    open spec fn view(&self) -> AdoptedV {
        AdoptedV { job_id: self.job_id@, handle: self.handle, exited: self.exited }
    }
}

/// The processes that are held on to, in the order in which they were taken.
pub struct AdoptedTable {
    pub entries: Vec<Adopted>,
}

impl View for AdoptedTable {
    type V = Seq<AdoptedV>;

    open spec fn view(&self) -> Seq<AdoptedV> {
        Seq::new(self.entries@.len(), |i: int| self.entries@[i]@)
    }
}

impl AdoptedTable {
    /// Each job has one process at most, and the table is no larger than it may be.
    pub open spec fn wf(self) -> bool {
        &&& self.entries@.len() <= ADOPTED_MAX
        &&& forall|i: int, j: int|
            0 <= i < j < self.entries@.len() ==> (#[trigger] self.entries@[i]).job_id@ != (
            #[trigger] self.entries@[j]).job_id@
    }
}

/// The position of a job's process, or the table's length.
pub open spec fn held_at(s: Seq<AdoptedV>, id: Seq<char>) -> int
    decreases s.len(),
{
    if s.len() == 0 || s[0].job_id == id {
        0
    } else {
        1 + held_at(s.drop_first(), id)
    }
}

/// What `held_at` finds.
pub proof fn lemma_held_at(s: Seq<AdoptedV>, id: Seq<char>)
    ensures
        0 <= held_at(s, id) <= s.len(),
        held_at(s, id) < s.len() ==> s[held_at(s, id)].job_id == id,
        forall|i: int| 0 <= i < held_at(s, id) ==> (#[trigger] s[i]).job_id != id,
    decreases s.len(),
{
    if s.len() > 0 && s[0].job_id != id {
        let t = s.drop_first();
        lemma_held_at(t, id);
        assert forall|i: int| 0 <= i < held_at(s, id) implies (#[trigger] s[i]).job_id != id by {
            if i > 0 {
                assert(t[i - 1] == s[i]);
            }
        }
    }
}

fn find_held(table: &AdoptedTable, id: &str) -> (r: usize)
    ensures
        r == held_at(table@, id@),
        r <= table.entries@.len(),
{
    let ghost s = table@;
    let mut i: usize = 0;
    assert(s.skip(0) == s);
    while i < table.entries.len()
        invariant
            i <= table.entries@.len(),
            s == table@,
            held_at(s, id@) == i + held_at(s.skip(i as int), id@),
        decreases table.entries@.len() - i,
    {
        assert(s.skip(i as int)[0] == table.entries@[i as int]@);
        assert(s.skip(i as int).drop_first() == s.skip(i + 1));
        if same(table.entries[i].job_id.as_str(), id) {
            return i;
        }
        i = i + 1;
    }
    i
}

/// Whether a held process is still going, as far as is known.
pub fn any_adopted(table: &AdoptedTable) -> (r: bool)
    ensures
        r == exists|i: int| 0 <= i < table@.len() && (#[trigger] table@[i]).exited is None,
{
    let mut i: usize = 0;
    while i < table.entries.len()
        invariant
            i <= table.entries@.len(),
            forall|k: int| 0 <= k < i ==> (#[trigger] table@[k]).exited is Some,
        decreases table.entries@.len() - i,
    {
        if table.entries[i].exited.is_none() {
            assert(table@[i as int].exited is None);
            return true;
        }
        i = i + 1;
    }
    false
}

/// Whether any work is going on: a job that is being worked on, or a held process.
pub fn any_run_in_progress(ids: &InFlight, table: &AdoptedTable) -> (r: bool)
    ensures
        r == (ids@ != Set::<Seq<char>>::empty() || exists|i: int|
            0 <= i < table@.len() && (#[trigger] table@[i]).exited is None),
{
    any_job_in_flight(ids) || any_adopted(table)
}

/// The table after a process was taken: the oldest goes where the table is full.
pub open spec fn adopted(s: Seq<AdoptedV>, id: Seq<char>, handle: i64) -> Seq<AdoptedV> {
    let kept = if s.len() >= ADOPTED_MAX {
        s.drop_first()
    } else {
        s
    };
    kept.push(AdoptedV { job_id: id, handle, exited: None })
}

/// Takes hold of a job's process. Where the table is full the oldest goes, and its handle is
/// to be closed.
pub fn adopt(table: &mut AdoptedTable, id: &str, handle: i64) -> (r: Option<i64>)
    requires
        old(table).wf(),
        held_at(old(table)@, id@) == old(table)@.len(),
    ensures
        final(table).wf(),
        final(table)@ == adopted(old(table)@, id@, handle),
        r == (if old(table)@.len() >= ADOPTED_MAX {
            Some(old(table)@[0].handle)
        } else {
            None
        }),
{
    let ghost s = table@;
    let ghost e0 = table.entries@;
    proof {
        lemma_held_at(s, id@);
        assert forall|i: int| 0 <= i < e0.len() implies (#[trigger] e0[i]).job_id@ != id@ by {
            assert(s[i].job_id != id@);
        }
    }
    let mut out: Option<i64> = None;
    if table.entries.len() >= ADOPTED_MAX {
        let old_one = table.entries.remove(0);
        out = Some(old_one.handle);
        assert(table@ =~= s.drop_first());
    }
    let ghost mid = table@;
    let ghost e1 = table.entries@;
    table.entries.push(Adopted { job_id: id.to_owned(), handle, exited: None });
    assert(table@ =~= mid.push(AdoptedV { job_id: id@, handle, exited: None }));
    out
}

/// How to go on with settling a job's process.
pub enum SettleStart {
    /// It is known to have exited.
    Exited(u32),
    /// It is held: its handle is to be waited on.
    Wait(i64),
    /// It is not held: it is to be opened, where the record names it.
    Open,
}

/// How to go on with settling a job's process.
pub fn settle_begin(table: &AdoptedTable, id: &str) -> (r: SettleStart)
    ensures
        ({
            let p = held_at(table@, id@);
            match r {
                SettleStart::Exited(c) => p < table@.len() && table@[p].exited == Some(c),
                SettleStart::Wait(h) => p < table@.len() && table@[p].exited is None
                    && table@[p].handle == h,
                SettleStart::Open => p >= table@.len(),
            }
        }),
{
    let p: usize = find_held(table, id);
    if p < table.entries.len() {
        assert(table@[p as int] == table.entries@[p as int]@);
        match table.entries[p].exited {
            Some(c) => SettleStart::Exited(c),
            None => SettleStart::Wait(table.entries[p].handle),
        }
    } else {
        SettleStart::Open
    }
}

/// What is known of a job's process.
#[derive(Clone, Copy, PartialEq, Eq, Structural)]
pub enum ChildVerdict {
    Running,
    Exited(u32),
    /// Nothing is known of it.
    Unknown,
}

/// What waiting on a handle gave.
#[derive(Clone, Copy, PartialEq, Eq, Structural)]
pub enum WaitResult {
    /// The process is going.
    Timeout,
    /// The process ended.
    Signalled,
    /// The wait failed.
    Failed,
}

/// The verdict on a process that was waited on and whose exit code was read, where it could.
pub open spec fn wait_verdict(waited: WaitResult, code: Option<u32>) -> ChildVerdict {
    match waited {
        WaitResult::Timeout => ChildVerdict::Running,
        WaitResult::Signalled => match code {
            Some(c) => ChildVerdict::Exited(c),
            None => ChildVerdict::Unknown,
        },
        WaitResult::Failed => ChildVerdict::Unknown,
    }
}

/// The table after a process was waited on: an exit code is kept, a process that cannot be
/// read is let go.
pub open spec fn waited_table(s: Seq<AdoptedV>, id: Seq<char>, v: ChildVerdict) -> Seq<AdoptedV> {
    let p = held_at(s, id);
    if p >= s.len() {
        s
    } else {
        match v {
            ChildVerdict::Running => s,
            ChildVerdict::Exited(c) => s.update(p, AdoptedV { exited: Some(c), ..s[p] }),
            ChildVerdict::Unknown => s.remove(p),
        }
    }
}

/// Notes what waiting on a job's process gave.
pub fn settle_child(
    table: &mut AdoptedTable,
    id: &str,
    waited: WaitResult,
    code: Option<u32>,
) -> (r: ChildVerdict)
    requires
        old(table).wf(),
    ensures
        final(table).wf(),
        r == wait_verdict(waited, code),
        final(table)@ == waited_table(old(table)@, id@, r),
{
    let v = match waited {
        WaitResult::Timeout => ChildVerdict::Running,
        WaitResult::Signalled => match code {
            Some(c) => ChildVerdict::Exited(c),
            None => ChildVerdict::Unknown,
        },
        WaitResult::Failed => ChildVerdict::Unknown,
    };
    let ghost s = table@;
    let ghost e0 = table.entries@;
    let p: usize = find_held(table, id);
    if p < table.entries.len() {
        assert(s[p as int] == e0[p as int]@);
        match v {
            ChildVerdict::Running => {},
            ChildVerdict::Exited(c) => {
                let name = table.entries[p].job_id.clone();
                let handle: i64 = table.entries[p].handle;
                table.entries.set(p, Adopted { job_id: name, handle, exited: Some(c) });
                assert(table@ =~= s.update(p as int, AdoptedV { exited: Some(c), ..s[p as int] }));
                assert(table.wf()) by {
                    assert forall|i: int, j: int|
                        0 <= i < j < table.entries@.len() implies (
                    #[trigger] table.entries@[i]).job_id@ != (#[trigger] table.entries@[j]).job_id@ by {
                        assert(e0[i].job_id@ != e0[j].job_id@);
                    }
                }
            },
            ChildVerdict::Unknown => {
                table.entries.remove(p);
                assert(table@ =~= s.remove(p as int));
                assert(table.wf()) by {
                    assert forall|i: int, j: int|
                        0 <= i < j < table.entries@.len() implies (
                    #[trigger] table.entries@[i]).job_id@ != (#[trigger] table.entries@[j]).job_id@ by {
                        let i0 = if i < p { i } else { i + 1 };
                        let j0 = if j < p { j } else { j + 1 };
                        assert(table.entries@[i] == e0[i0] && table.entries@[j] == e0[j0]);
                    }
                }
            },
        }
    }
    v
}

/// An exit code that was read once is read again the same way, without waiting.
pub proof fn an_exit_code_is_kept(s: Seq<AdoptedV>, id: Seq<char>, code: u32)
    requires
        held_at(s, id) < s.len(),
    ensures
        ({
            let t = waited_table(s, id, ChildVerdict::Exited(code));
            held_at(t, id) == held_at(s, id) && t[held_at(t, id)].exited == Some(code)
        }),
    decreases s.len(),
{
    lemma_held_at(s, id);
    let p = held_at(s, id);
    let t = waited_table(s, id, ChildVerdict::Exited(code));
    lemma_held_at(t, id);
    if held_at(t, id) < p {
        assert(t[held_at(t, id)] == s[held_at(t, id)]);
    }
    if held_at(t, id) > p {
        assert(t[p].job_id == id);
    }
}

/// The time of a process's creation, in seconds since 1970, from its count of ticks of 100
/// nanoseconds since 1601.
pub fn unix_of_token(created: u64) -> (r: i64)
    ensures
        r == created as int / 10_000_000 - 11_644_473_600,
{
    (created / 10_000_000) as i64 - 11_644_473_600
}

/// An exit code as a signed number.
pub open spec fn signed_code(code: u32) -> int {
    if code < 0x8000_0000 {
        code as int
    } else {
        code as int - 0x1_0000_0000
    }
}

/// What is told of a process that exited without leaving its output.
pub open spec fn exit_text(killed: bool, over_time: bool, has_dir: bool, code: u32) -> Seq<char> {
    let how = if killed {
        "this device ended this job's process on request and watched it exit. The exit code below is the one termination gave it, not one the run chose"@
    } else if over_time {
        "this job's process passed the bound it was given. This device stopped WAITING for it without killing it, kept a handle on it, and watched it exit"@
    } else {
        "this job's process outlived the client that started it: the client stopped mid-run, this device re-attached to the process it had launched and watched it exit"@
    };
    let lost = if has_dir {
        "its output was written to a file this device can no longer read"@
    } else {
        "the job's output went to pipes nothing was reading by then"@
    };
    how + ". Its exit code was "@ + num::dec_int(signed_code(code))
        + ". THAT EXIT CODE IS ALL THAT SURVIVED — "@ + lost
        + " — so this is NOT the job's answer, and an exit code of 0 here is not a reported success. What it changed on this machine is unknown. Dispatch it again if the answer is needed."@
}

/// What is told of a process that exited without leaving its output.
pub fn adopted_exit_result(seen: &SeenMap, id: &str, code: u32) -> (r: String)
    requires
        seen.wf(),
    ensures
        r@ == exit_text(
            seen::flag_of(seen@, id@, SEEN_KILLED@) is Some,
            seen::flag_of(seen@, id@, SEEN_OVER_TIME@) is Some,
            seen::dir_of(seen@, id@) is Some,
            code,
        ),
{
    let n: i64 = if code < 0x8000_0000 {
        code as i64
    } else {
        code as i64 - 0x1_0000_0000
    };
    let how = if seen_flag(seen, id, SEEN_KILLED).is_some() {
        "this device ended this job's process on request and watched it exit. The exit code below is the one termination gave it, not one the run chose"
    } else if seen_flag(seen, id, SEEN_OVER_TIME).is_some() {
        "this job's process passed the bound it was given. This device stopped WAITING for it without killing it, kept a handle on it, and watched it exit"
    } else {
        "this job's process outlived the client that started it: the client stopped mid-run, this device re-attached to the process it had launched and watched it exit"
    };
    let lost = if seen_job_dir(seen, id).is_some() {
        "its output was written to a file this device can no longer read"
    } else {
        "the job's output went to pipes nothing was reading by then"
    };
    how.to_owned().concat(". Its exit code was ").concat(dec_i64(n).as_str()).concat(
        ". THAT EXIT CODE IS ALL THAT SURVIVED — ",
    ).concat(lost).concat(
        " — so this is NOT the job's answer, and an exit code of 0 here is not a reported success. What it changed on this machine is unknown. Dispatch it again if the answer is needed.",
    )
}

/// The jobs that the console says it still waits for.
pub open spec fn started_v(s: Seq<JsonV>) -> Seq<Seq<char>>
    decreases s.len(),
{
    if s.len() == 0 {
        seq![]
    } else {
        match s.last().text() {
            Some(id) => if id.len() > 0 {
                started_v(s.drop_last()).push(id)
            } else {
                started_v(s.drop_last())
            },
            None => started_v(s.drop_last()),
        }
    }
}

/// The jobs that the console says it still waits for.
pub fn started_ids(started: Option<&Json>) -> (r: Vec<String>)
    ensures
        text::texts(r@) == (match json::opt_ref(started) {
            Some(JsonV::Arr(s)) => started_v(s),
            _ => seq![],
        }),
{
    let mut out: Vec<String> = Vec::new();
    assert(text::texts(out@) =~= Seq::<Seq<char>>::empty());
    let ids = match started {
        Some(j) => match j.as_array() {
            Some(v) => v,
            None => {
                return out;
            },
        },
        None => {
            return out;
        },
    };
    let ghost all = json::models(ids@);
    let mut i: usize = 0;
    assert(text::texts(out@) =~= started_v(all.take(0)));
    while i < ids.len()
        invariant
            i <= ids@.len(),
            all == json::models(ids@),
            text::texts(out@) == started_v(all.take(i as int)),
        decreases ids@.len() - i,
    {
        assert(all.take(i + 1).drop_last() == all.take(i as int));
        assert(all.take(i + 1).last() == ids@[i as int]@);
        if let Some(id) = ids[i].as_str() {
            if !id.is_empty() {
                let ghost o = out@;
                out.push(id.to_owned());
                assert(text::texts(out@) =~= text::texts(o).push(id@));
            }
        }
        i = i + 1;
    }
    assert(all.take(i as int) == all);
    out
}

/// What is found out about a job that the console still waits for.
pub struct SettleFacts {
    /// What is known of its process.
    pub child: ChildVerdict,
    /// The status and answer that its script left on disk.
    pub script: Option<(String, String)>,
    /// Its script is still running.
    pub script_running: bool,
    /// Its process is still running.
    pub live: bool,
}

/// What the console is told of a job that it still waits for.
pub enum SettleAction {
    /// Nothing: the job may still be going.
    Leave,
    /// The answer that the script left; the job is done, and what it left may be discarded once
    /// the answer is stored.
    Recovered { status: String, answer: String },
    /// How the process ended; the job is done.
    Exited { text: String },
    /// That there is no answer, and why.
    Lost { reason: &'static str },
}

/// What the console is told of a job that it still waits for: nothing of one that may be going,
/// what a script left where it left something, how a process ended where that is known, and
/// else that there is no answer.
pub open spec fn settled(
    facts: SettleFacts,
    seen: Map<Seq<char>, JsonV>,
    id: Seq<char>,
    r: SettleAction,
) -> bool {
    match (facts.child, facts.script) {
        (ChildVerdict::Running, _) => r is Leave,
        (_, Some((status, answer))) => r == SettleAction::Recovered { status, answer },
        (ChildVerdict::Exited(code), None) => r is Exited && r->text@ == exit_text(
            seen::flag_of(seen, id, SEEN_KILLED@) is Some,
            seen::flag_of(seen, id, SEEN_OVER_TIME@) is Some,
            seen::dir_of(seen, id) is Some,
            code,
        ),
        (ChildVerdict::Unknown, None) => if facts.script_running || facts.live {
            r is Leave
        } else {
            r is Lost && r->reason@ == (if seen::flag_of(seen, id, SEEN_KILLED@) is Some {
                RESULT_KILLED@
            } else if seen::state_of(seen, id) is Some && (seen::state_of(seen, id)->0).1 {
                RESULT_LOST@
            } else {
                RESULT_ABANDONED@
            })
        },
    }
}

/// What the console is told of a job that it still waits for.
pub fn settle_started(facts: SettleFacts, seen: &SeenMap, id: &str) -> (r: SettleAction)
    requires
        seen.wf(),
    ensures
        settled(facts, seen@, id@, r),
{
    match facts.child {
        ChildVerdict::Running => SettleAction::Leave,
        ChildVerdict::Exited(code) => match facts.script {
            Some((status, answer)) => SettleAction::Recovered { status, answer },
            None => SettleAction::Exited { text: adopted_exit_result(seen, id, code) },
        },
        ChildVerdict::Unknown => match facts.script {
            Some((status, answer)) => SettleAction::Recovered { status, answer },
            None => {
                if facts.script_running || facts.live {
                    return SettleAction::Leave;
                }
                if seen_flag(seen, id, SEEN_KILLED).is_some() {
                    return SettleAction::Lost { reason: RESULT_KILLED };
                }
                if let Some((_, done, _)) = seen_state(seen, id) {
                    if done {
                        return SettleAction::Lost { reason: RESULT_LOST };
                    }
                }
                SettleAction::Lost { reason: RESULT_ABANDONED }
            },
        },
    }
}

/// A job whose process is running is never settled.
pub proof fn a_running_job_is_never_settled(
    facts: SettleFacts,
    seen: Map<Seq<char>, JsonV>,
    id: Seq<char>,
    r: SettleAction,
)
    requires
        settled(facts, seen, id, r),
        facts.child == ChildVerdict::Running || (facts.child == ChildVerdict::Unknown && facts.script
            is None && (facts.script_running || facts.live)),
    ensures
        r is Leave,
{
}

/// What is noted of a run that was started, and whether its process can be told apart: the
/// process where its creation time is known, the directory where it has one.
pub fn record_run(
    seen: &mut SeenMap,
    id: &str,
    pid: u32,
    created: Option<u64>,
    dir: Option<&str>,
) -> (r: bool)
    requires
        old(seen).wf(),
    ensures
        final(seen).wf(),
        id@.len() == 0 || (created is None && dir is None) ==> !r && final(seen)@ == old(seen)@,
        id@.len() > 0 && (created is Some || dir is Some) ==> r == (created is Some) && final(seen)@ == seen::changed(
            old(seen)@,
            id@,
            |e: JsonV|
                seen::child_entry(
                    e,
                    match created {
                        Some(_) => Some(pid),
                        None => None,
                    },
                    created,
                    text::opt_str(dir),
                ),
        ),
{
    if id.is_empty() || (created.is_none() && dir.is_none()) {
        return false;
    }
    let p: Option<u32> = match created {
        Some(_) => Some(pid),
        None => None,
    };
    mark_job_child(seen, id, p, created, dir);
    proof {
        let f = |e: JsonV| seen::child_entry(e, p, created, text::opt_str(dir));
        let g = |e: JsonV|
            seen::child_entry(
                e,
                match created {
                    Some(_) => Some(pid),
                    None => None,
                },
                created,
                text::opt_str(dir),
            );
        assert(f =~= g);
    }
    created.is_some()
}

/// A job that is not answered for is left alone exactly while its process or its script may be
/// going.
pub proof fn a_started_job_is_settled_by_what_is_known(
    facts: SettleFacts,
    seen: Map<Seq<char>, JsonV>,
    id: Seq<char>,
    r: SettleAction,
)
    requires
        settled(facts, seen, id, r),
    ensures
        r is Leave <==> facts.child is Running || (facts.child is Unknown && facts.script is None
            && (facts.script_running || facts.live)),
        r is Recovered <==> !(facts.child is Running) && facts.script is Some,
        r is Recovered ==> r->status == (facts.script->0).0 && r->answer == (facts.script->0).1,
        r is Exited <==> facts.child is Exited && facts.script is None,
        r is Lost <==> facts.child is Unknown && facts.script is None && !facts.script_running
            && !facts.live,
{
}

/// The reason that is told for a lost answer: that the run was ended on request, where it was;
/// that it ran to its end, where the record says so; else that nobody knows.
pub proof fn a_lost_answer_is_explained(
    facts: SettleFacts,
    seen: Map<Seq<char>, JsonV>,
    id: Seq<char>,
    r: SettleAction,
)
    requires
        settled(facts, seen, id, r),
        r is Lost,
    ensures
        seen.contains_key(id) && seen[id].member_int("k"@) is Some ==> r->reason@ == RESULT_KILLED@,
        seen.contains_key(id) && seen[id].member_int("k"@) is None && seen[id].member_int("t"@)
            is Some && seen[id].member("d"@) == Some(JsonV::Bool(true)) ==> r->reason@
            == RESULT_LOST@,
        seen.contains_key(id) && seen[id].member_int("k"@) is None && seen[id].member("d"@) != Some(
            JsonV::Bool(true),
        ) ==> r->reason@ == RESULT_ABANDONED@,
        !seen.contains_key(id) ==> r->reason@ == RESULT_ABANDONED@,
{
}

/// An exit code is told as the signed number that it is, behind how the process came to its
/// end.
pub proof fn an_exit_is_told_with_its_code(killed: bool, over_time: bool, has_dir: bool, code: u32)
    ensures
        text::occurs(
            exit_text(killed, over_time, has_dir, code),
            ". Its exit code was "@ + num::dec_int(
                if code >= 0x8000_0000 {
                    code - 0x1_0000_0000
                } else {
                    code as int
                },
            ) + ". "@,
        ),
        text::prefixed(
            exit_text(killed, over_time, has_dir, code),
            if killed {
                "this device ended this job's process on request and watched it exit"@
            } else if over_time {
                "this job's process passed the bound it was given"@
            } else {
                "this job's process outlived the client that started it"@
            },
        ),
{
    let how = if killed {
        "this device ended this job's process on request and watched it exit. The exit code below is the one termination gave it, not one the run chose"@
    } else if over_time {
        "this job's process passed the bound it was given. This device stopped WAITING for it without killing it, kept a handle on it, and watched it exit"@
    } else {
        "this job's process outlived the client that started it: the client stopped mid-run, this device re-attached to the process it had launched and watched it exit"@
    };
    let s = exit_text(killed, over_time, has_dir, code);
    let n = num::dec_int(
        if code >= 0x8000_0000 {
            code - 0x1_0000_0000
        } else {
            code as int
        },
    );
    reveal_strlit(". Its exit code was ");
    reveal_strlit(". ");
    reveal_strlit(". THAT EXIT CODE IS ALL THAT SURVIVED — ");
    let w = ". Its exit code was "@ + n + ". "@;
    let at = how.len() as int;
    assert(s.skip(at).take(w.len() as int) =~= w);
    assert(text::prefixed(s.skip(at), w));
    assert(s.take(at) =~= how);
    if killed {
        reveal_strlit("this device ended this job's process on request and watched it exit. The exit code below is the one termination gave it, not one the run chose");
        reveal_strlit("this device ended this job's process on request and watched it exit");
        let h = "this device ended this job's process on request and watched it exit"@;
        assert(how.take(h.len() as int) =~= h);
        assert(s.take(h.len() as int) =~= how.take(h.len() as int));
    } else if over_time {
        reveal_strlit("this job's process passed the bound it was given. This device stopped WAITING for it without killing it, kept a handle on it, and watched it exit");
        reveal_strlit("this job's process passed the bound it was given");
        let h = "this job's process passed the bound it was given"@;
        assert(how.take(h.len() as int) =~= h);
        assert(s.take(h.len() as int) =~= how.take(h.len() as int));
    } else {
        reveal_strlit("this job's process outlived the client that started it: the client stopped mid-run, this device re-attached to the process it had launched and watched it exit");
        reveal_strlit("this job's process outlived the client that started it");
        let h = "this job's process outlived the client that started it"@;
        assert(how.take(h.len() as int) =~= h);
        assert(s.take(h.len() as int) =~= how.take(h.len() as int));
    }
}

/// What a wait says of a process: that it is going, where the wait ran out; its exit code, where
/// it ended and the code can be read; else nothing.
pub proof fn a_wait_tells_of_the_process(waited: WaitResult, code: Option<u32>, c: u32)
    ensures
        wait_verdict(waited, code) is Running <==> waited is Timeout,
        wait_verdict(waited, code) == ChildVerdict::Exited(c) <==> waited is Signalled && code
            == Some(c),
        wait_verdict(waited, code) is Unknown <==> waited is Failed || (waited is Signalled && code
            is None),
{
}

/// A process that is adopted is held, last; the others stay held in their order, but for the
/// oldest where there is no room.
pub proof fn an_adopted_process_is_held(s: Seq<AdoptedV>, id: Seq<char>, handle: i64)
    requires
        s.len() <= 32,
    ensures
        adopted(s, id, handle).len() <= 32,
        adopted(s, id, handle).last() == (AdoptedV { job_id: id, handle, exited: None }),
        adopted(s, id, handle).drop_last() == (if s.len() == 32 {
            s.skip(1)
        } else {
            s
        }),
{
    assert(s.skip(1) =~= s.drop_first());
    assert(adopted(s, id, handle).drop_last() =~= (if s.len() == 32 {
        s.skip(1)
    } else {
        s
    }));
}

/// What a wait changes of the processes that are held: nothing while the process is going; its
/// exit code where it ended; it is let go of where nothing is known of it. No other is touched.
pub proof fn a_wait_concerns_one_process(s: Seq<AdoptedV>, id: Seq<char>, v: ChildVerdict, p: int)
    requires
        0 <= p < s.len(),
        s[p].job_id == id,
        forall|i: int| 0 <= i < p ==> (#[trigger] s[i]).job_id != id,
    ensures
        v is Running ==> waited_table(s, id, v) == s,
        v matches ChildVerdict::Exited(c) ==> waited_table(s, id, v) == s.update(
            p,
            AdoptedV { job_id: id, handle: s[p].handle, exited: Some(c) },
        ),
        v is Unknown ==> waited_table(s, id, v) == s.take(p) + s.skip(p + 1),
{
    lemma_held_at(s, id);
    assert(held_at(s, id) == p);
    assert(s.remove(p) =~= s.take(p) + s.skip(p + 1));
}

/// The runs that the console asks after are the texts of its list that are not empty, in their
/// order.
pub proof fn every_asked_run_is_answered_for(s: Seq<JsonV>)
    ensures
        started_v(s) == s.filter(|j: JsonV| j matches JsonV::Str(t) && t.len() > 0).map_values(
            |j: JsonV| j->Str_0,
        ),
    decreases s.len(),
{
    let g = |j: JsonV| j matches JsonV::Str(t) && t.len() > 0;
    let h = |j: JsonV| j->Str_0;
    reveal(Seq::filter);
    if s.len() > 0 {
        every_asked_run_is_answered_for(s.drop_last());
        if g(s.last()) {
            assert(s.filter(g) == s.drop_last().filter(g).push(s.last()));
            assert(s.filter(g).map_values(h) =~= s.drop_last().filter(g).map_values(h).push(
                h(s.last()),
            ));
        }
    }
    assert(started_v(s) =~= s.filter(g).map_values(h));
}

/// An exit code is read as the signed number with the same thirty-two bits.
pub proof fn a_code_is_read_with_its_sign(code: u32)
    ensures
        -0x8000_0000 <= signed_code(code) < 0x8000_0000,
        signed_code(code) == code || signed_code(code) + 0x1_0000_0000 == code,
{
}

} // verus!
