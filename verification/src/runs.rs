//! The runs that are going on a device, and ending one of them.
use vstd::prelude::*;

use crate::files;
use crate::json;
use crate::seen;
use crate::text;
use crate::dispatch::InFlight;
use crate::files::{failed, json_field_or_raw};
use crate::json::{Json, JsonV};
use crate::seen::{
    child_of, mark_job_stamp, seen_child, seen_entry, seen_state, SEEN_KILLED, SEEN_OVER_TIME,
    SeenMap,
};
use crate::settle::unix_of_token;
use crate::text::{same, trim};

verus! {

/// What is told where no job of that id is known.
pub const KILL_UNKNOWN: &'static str =
    "this device has no record of that job: it was never handed here, or its record has already lapsed. Nothing was killed.";

/// What is told where the job is done.
pub const KILL_FINISHED: &'static str =
    "that job already ran to completion on this device. There is no process to end — whatever the recorded pid answers to now is not this run's.";

/// What is told where the job has no process.
pub const KILL_NO_PROCESS: &'static str =
    "that job is a run with no process of its own: this device took it up and started no child for it — a procedure that runs inside the client, or a run-as script whose wrapper never reported a pid. Nothing was killed, and nothing here could kill it.";

/// What is told where the process id belongs to another process now.
pub const KILL_REUSED: &'static str =
    "the recorded pid answers to a DIFFERENT process than the one this job started — Windows reused it. Nothing was killed. This device will not end a process on a pid alone.";

/// What is told where the process ended by itself.
pub const KILL_GONE: &'static str =
    "that job's process has already ended. Nothing was killed; its answer settles on the next poll.";

/// What is told where the process may not be ended.
pub const KILL_REFUSED: &'static str =
    "that job's process is still running and this device was refused permission to end it.";

/// What is told where the process was ended.
pub const KILL_DONE: &'static str =
    "the process this job started was terminated. ⚠ ONE PROCESS: anything it had itself launched is still running, and it was given no chance to clean up or to write a completion marker. What it had already changed on this machine stands — a kill ends the process, not the work it had already done. The job's own row settles on this device's next poll: with whatever its own executor can still report where this client was waiting on it, and as a run that was ended where nothing was. ⚠ A RUN-AS script is the exception: nothing here holds a handle on that wrapper, and ending it is what stops it writing the completion marker this device is polling for — so that row settles as ended-on-request only once the run's own bound elapses.";

/// What was found out about the run of an entry.
pub struct RunFacts {
    pub job_id: String,
    /// Its process is going.
    pub alive: bool,
    /// Its script is going, without a process that can be told apart.
    pub script_running: bool,
}

/// The facts about a job's run.
pub open spec fn facts_of(facts: Seq<RunFacts>, id: Seq<char>) -> (bool, bool)
    decreases facts.len(),
{
    if facts.len() == 0 {
        (false, false)
    } else if facts[0].job_id@ == id {
        (facts[0].alive, facts[0].script_running)
    } else {
        facts_of(facts.drop_first(), id)
    }
}

fn find_facts(facts: &Vec<RunFacts>, id: &str) -> (r: (bool, bool))
    ensures
        r == facts_of(facts@, id@),
{
    let mut i: usize = 0;
    assert(facts@.skip(0) == facts@);
    while i < facts.len()
        invariant
            i <= facts@.len(),
            facts_of(facts@, id@) == facts_of(facts@.skip(i as int), id@),
        decreases facts@.len() - i,
    {
        assert(facts@.skip(i as int)[0] == facts@[i as int]);
        assert(facts@.skip(i as int).drop_first() == facts@.skip(i + 1));
        if same(facts[i].job_id.as_str(), id) {
            return (facts[i].alive, facts[i].script_running);
        }
        i = i + 1;
    }
    (false, false)
}

/// The job is done.
pub open spec fn is_done(v: JsonV) -> bool {
    seen::stamp(v) is Some && (seen::stamp(v)->0).1
}

/// The start of a process, from its creation time.
pub open spec fn started_at(created: int) -> int {
    created / 10_000_000 - 11_644_473_600
}

/// A run that is going, whose process can be told apart.
pub open spec fn shown(v: JsonV, alive: bool) -> bool {
    !is_done(v) && seen::child_v(v) is Some && alive
}

/// A run that is going, and whose process cannot be told apart.
pub open spec fn unprovable(v: JsonV, script_running: bool) -> bool {
    !is_done(v) && seen::child_v(v) is None && v.member("x"@) is Some && script_running
}

/// The row of a run that is going.
pub open spec fn run_row(id: Seq<char>, v: JsonV, now: int, in_flight: bool) -> JsonV {
    let (pid, created) = seen::child_v(v)->0;
    let over = v.member_int(SEEN_OVER_TIME@);
    let elapsed = now - started_at(created);
    let row = JsonV::empty().with("job_id"@, JsonV::Str(id)).with("pid"@, JsonV::Int(pid)).with(
        "started_at"@,
        JsonV::Int(started_at(created)),
    ).with(
        "elapsed_s"@,
        JsonV::Int(
            if elapsed < 0 {
                0
            } else {
                elapsed
            },
        ),
    ).with(
        "state"@,
        JsonV::Str(
            if over is Some {
                "over_time"@
            } else {
                "running"@
            },
        ),
    ).with("in_flight"@, JsonV::Bool(in_flight));
    match over {
        Some(o) => row.with("over_time_at"@, JsonV::Int(o)),
        None => row,
    }
}

/// A row with the start that it is ordered by.
pub struct RunRowV {
    pub started: int,
    pub row: JsonV,
}

/// A row put into its place: behind every row that did not start later.
pub open spec fn insert_run(s: Seq<RunRowV>, x: RunRowV) -> Seq<RunRowV>
    decreases s.len(),
{
    if s.len() == 0 || s.last().started <= x.started {
        s.push(x)
    } else {
        insert_run(s.drop_last(), x).push(s.last())
    }
}

/// The rows of the runs that are going, the oldest first.
pub open spec fn run_rows(
    entries: Seq<(String, Json)>,
    facts: Seq<RunFacts>,
    in_flight: Set<Seq<char>>,
    now: int,
) -> Seq<RunRowV>
    decreases entries.len(),
{
    if entries.len() == 0 {
        seq![]
    } else {
        let before = run_rows(entries.drop_last(), facts, in_flight, now);
        let id = entries.last().0@;
        let v = entries.last().1@;
        if shown(v, facts_of(facts, id).0) {
            insert_run(
                before,
                RunRowV {
                    started: started_at((seen::child_v(v)->0).1),
                    row: run_row(id, v, now, in_flight.contains(id)),
                },
            )
        } else {
            before
        }
    }
}

/// How many runs are going whose processes cannot be told apart.
pub open spec fn unprovable_count(entries: Seq<(String, Json)>, facts: Seq<RunFacts>) -> nat
    decreases entries.len(),
{
    if entries.len() == 0 {
        0
    } else {
        let before = unprovable_count(entries.drop_last(), facts);
        if unprovable(entries.last().1@, facts_of(facts, entries.last().0@).1) {
            before + 1
        } else {
            before
        }
    }
}

/// The rows themselves.
pub open spec fn rows_only(s: Seq<RunRowV>) -> Seq<JsonV> {
    Seq::new(s.len(), |i: int| s[i].row)
}

/// Rows stand by their starts.
spec fn by_start(s: Seq<RunRowV>) -> bool {
    forall|i: int, j: int|
        0 <= i < j < s.len() ==> (#[trigger] s[i]).started <= (#[trigger] s[j]).started
}

proof fn lemma_insert_run(s: Seq<RunRowV>, x: RunRowV, p: int)
    requires
        0 <= p <= s.len(),
        forall|i: int| 0 <= i < p ==> (#[trigger] s[i]).started <= x.started,
        forall|i: int| p <= i < s.len() ==> (#[trigger] s[i]).started > x.started,
    ensures
        insert_run(s, x) == s.insert(p, x),
    decreases s.len(),
{
    if s.len() == 0 || p == s.len() {
        if s.len() > 0 {
            assert(s[s.len() - 1].started <= x.started);
        }
        assert(s.insert(p, x) =~= s.push(x));
    } else {
        assert(s[s.len() - 1].started > x.started);
        let t = s.drop_last();
        assert forall|i: int| 0 <= i < t.len() implies #[trigger] t[i] == s[i] by {}
        lemma_insert_run(t, x, p);
        assert(t.insert(p, x).push(s.last()) =~= s.insert(p, x));
    }
}

spec fn paired(starts: Seq<i64>, rows: Seq<Json>) -> Seq<RunRowV> {
    Seq::new(starts.len(), |i: int| RunRowV { started: starts[i] as int, row: rows[i]@ })
}

fn add_run(starts: &mut Vec<i64>, rows: &mut Vec<Json>, started: i64, row: Json)
    requires
        old(starts)@.len() == old(rows)@.len(),
        by_start(paired(old(starts)@, old(rows)@)),
    ensures
        final(starts)@.len() == final(rows)@.len(),
        paired(final(starts)@, final(rows)@) == insert_run(
            paired(old(starts)@, old(rows)@),
            RunRowV { started: started as int, row: row@ },
        ),
        by_start(paired(final(starts)@, final(rows)@)),
{
    let ghost s = paired(starts@, rows@);
    let mut p: usize = starts.len();
    while p > 0 && starts[p - 1] > started
        invariant
            p <= starts@.len(),
            starts@.len() == rows@.len(),
            s == paired(starts@, rows@),
            forall|i: int| p <= i < s.len() ==> (#[trigger] s[i]).started > started,
        decreases p,
    {
        assert(s[p - 1].started == starts@[p - 1]);
        p = p - 1;
    }
    let ghost x = RunRowV { started: started as int, row: row@ };
    proof {
        assert forall|i: int| 0 <= i < p implies (#[trigger] s[i]).started <= started by {
            assert(s[p - 1].started == starts@[p - 1]);
            if i < p - 1 {
                assert(s[i].started <= s[p - 1].started);
            }
        }
        lemma_insert_run(s, x, p as int);
    }
    starts.insert(p, started);
    rows.insert(p, row);
    let ghost t = paired(starts@, rows@);
    proof {
        assert(t =~= s.insert(p as int, x));
        assert forall|i: int, j: int| 0 <= i < j < t.len() implies (#[trigger] t[i]).started <= (
        #[trigger] t[j]).started by {
            let i0 = if i < p { i } else { i - 1 };
            let j0 = if j < p { j } else { j - 1 };
            if i != p {
                assert(t[i] == s[i0]);
            }
            if j != p {
                assert(t[j] == s[j0]);
            }
        }
    }
}

/// The answer that lists the runs that are going.
pub open spec fn job_runs_v(
    entries: Seq<(String, Json)>,
    facts: Seq<RunFacts>,
    in_flight: Set<Seq<char>>,
    now: int,
) -> JsonV {
    let rows = rows_only(run_rows(entries, facts, in_flight, now));
    JsonV::empty().with("ok"@, JsonV::Bool(true)).with("count"@, JsonV::Int(rows.len() as int)).with(
        "unprovable"@,
        JsonV::Int(unprovable_count(entries, facts) as int),
    ).with("collected_at"@, JsonV::Int(now)).with("items"@, JsonV::Arr(rows))
}

/// The answer that lists the runs that are going, the oldest first.
pub fn job_runs(seen: &SeenMap, facts: &Vec<RunFacts>, in_flight: &InFlight, now: i64) -> (r: Json)
    requires
        now <= i64::MAX - 11_644_473_600,
    ensures
        r@ == job_runs_v(seen.entries@, facts@, in_flight@, now as int),
{
    let ghost s = seen.entries@;
    let mut starts: Vec<i64> = Vec::new();
    let mut rows: Vec<Json> = Vec::new();
    let mut open: u64 = 0;
    let mut i: usize = 0;
    assert(paired(starts@, rows@) =~= run_rows(s.take(0), facts@, in_flight@, now as int));
    while i < seen.entries.len()
        invariant
            i <= s.len(),
            s == seen.entries@,
            s.len() == seen.entries.len(),
            now <= i64::MAX - 11_644_473_600,
            starts@.len() == rows@.len(),
            by_start(paired(starts@, rows@)),
            paired(starts@, rows@) == run_rows(s.take(i as int), facts@, in_flight@, now as int),
            open == unprovable_count(s.take(i as int), facts@),
            open <= i,
        decreases s.len() - i,
    {
        assert(s.take(i + 1).drop_last() == s.take(i as int));
        assert(s.take(i + 1).last() == s[i as int]);
        let id = seen.entries[i].0.as_str();
        let v = &seen.entries[i].1;
        let done = match seen_entry(v) {
            Some((_, d, _)) => d,
            None => false,
        };
        if !done {
            let (alive, script_running) = find_facts(facts, id);
            match child_of(v) {
                Some((pid, created)) => {
                    if alive {
                        let started: i64 = unix_of_token(created);
                        let over: Option<i64> = v.get_i64(SEEN_OVER_TIME);
                        let elapsed: i64 = if now < started {
                            0
                        } else {
                            now - started
                        };
                        let state = if over.is_some() {
                            "over_time"
                        } else {
                            "running"
                        };
                        let row = Json::object().with("job_id", Json::text(id)).with(
                            "pid",
                            Json::UInt(pid as u64),
                        ).with("started_at", Json::Int(started)).with(
                            "elapsed_s",
                            Json::Int(elapsed),
                        ).with("state", Json::text(state)).with(
                            "in_flight",
                            Json::Bool(in_flight.holds(id)),
                        );
                        let row = match over {
                            Some(o) => row.with("over_time_at", Json::Int(o)),
                            None => row,
                        };
                        add_run(&mut starts, &mut rows, started, row);
                    }
                },
                None => {
                    if v.get("x").is_some() && script_running {
                        open = open + 1;
                    }
                },
            }
        }
        i = i + 1;
    }
    assert(s.take(i as int) == s);
    let count: u64 = rows.len() as u64;
    assert(json::models(rows@) =~= rows_only(paired(starts@, rows@)));
    Json::object().with("ok", Json::Bool(true)).with("count", Json::UInt(count)).with(
        "unprovable",
        Json::UInt(open),
    ).with("collected_at", Json::Int(now)).with("items", Json::array(rows))
}

/// What an ask to end a run comes to.
pub enum KillPlan {
    /// It is answered with an error.
    Refuse(Json),
    /// The process with this id and creation time is to be ended.
    Terminate { job_id: String, pid: u32, created: u64 },
}

/// The error that an ask to end a run is answered with, where it is.
pub open spec fn kill_error(m: Map<Seq<char>, JsonV>, id: Seq<char>) -> Option<Seq<char>> {
    if id.len() == 0 {
        Some("job-kill needs a job id"@)
    } else {
        match seen::state_of(m, id) {
            None => Some(KILL_UNKNOWN@),
            Some((_, done, _)) => if done {
                Some(KILL_FINISHED@)
            } else if seen::entry_in(m, id) is None || seen::child_v(seen::entry_in(m, id)->0) is None {
                Some(KILL_NO_PROCESS@)
            } else {
                None
            },
        }
    }
}

/// What an ask to end a run comes to, given the job that it names.
pub fn kill_plan(seen: &SeenMap, named: &str) -> (r: KillPlan)
    requires
        seen.wf(),
    ensures
        ({
            let id = text::trim_v(named@);
            match r {
                KillPlan::Refuse(j) => kill_error(seen@, id) is Some && j@ == files::failed_v(
                    kill_error(seen@, id)->0,
                ),
                KillPlan::Terminate { job_id, pid, created } => {
                    &&& kill_error(seen@, id) is None
                    &&& job_id@ == id
                    &&& seen::child_v(seen::entry_in(seen@, id)->0) == Some((pid as int, created as int))
                },
            }
        }),
{
    let id = trim(named);
    if id.as_str().is_empty() {
        return KillPlan::Refuse(failed("job-kill needs a job id"));
    }
    match seen_state(seen, id.as_str()) {
        None => KillPlan::Refuse(failed(KILL_UNKNOWN)),
        Some((_, done, _)) => {
            if done {
                return KillPlan::Refuse(failed(KILL_FINISHED));
            }
            match seen_child(seen, id.as_str()) {
                Some((pid, created)) => KillPlan::Terminate { job_id: id, pid, created },
                None => KillPlan::Refuse(failed(KILL_NO_PROCESS)),
            }
        },
    }
}

/// What an ask to end a run comes to.
pub fn job_kill(seen: &SeenMap, params: Option<&str>) -> (r: KillPlan)
    requires
        seen.wf(),
    ensures
        ({
            let raw = text::trim_v(
                match params {
                    Some(p) => p@,
                    None => seq![],
                },
            );
            let id = text::trim_v(
                files::field_or_raw_v(raw, json::parsed(raw), seq!["job"@, "job_id"@, "id"@]),
            );
            match r {
                KillPlan::Refuse(j) => kill_error(seen@, id) is Some && j@ == files::failed_v(
                    kill_error(seen@, id)->0,
                ),
                KillPlan::Terminate { job_id, pid, created } => {
                    &&& kill_error(seen@, id) is None
                    &&& job_id@ == id
                    &&& seen::child_v(seen::entry_in(seen@, id)->0) == Some((pid as int, created as int))
                },
            }
        }),
{
    let given: String = match params {
        Some(p) => p.to_owned(),
        None => String::new(),
    };
    let keys: [&str; 3] = ["job", "job_id", "id"];
    let named = json_field_or_raw(given.as_str(), keys.as_slice());
    assert(files::names_v(keys@) =~= seq!["job"@, "job_id"@, "id"@]);
    kill_plan(seen, named.as_str())
}

/// What ending a process came to.
#[derive(Clone, Copy, PartialEq, Eq, Structural)]
pub enum KillVerdict {
    Terminated,
    Reused,
    Gone,
    Refused,
}

/// What is found of a process that is to be ended.
pub struct KillFacts {
    /// It could be opened.
    pub opened: bool,
    /// It is the one that the record names.
    pub same_process: bool,
    /// It is going.
    pub going: bool,
    /// It was ended.
    pub ended: bool,
}

/// What ending a process comes to: one that cannot be opened is gone, one that is another
/// process is left alone, and one that ended is gone.
pub fn terminate(f: &KillFacts) -> (r: KillVerdict)
    ensures
        r == (if !f.opened {
            KillVerdict::Gone
        } else if !f.same_process {
            KillVerdict::Reused
        } else if !f.going {
            KillVerdict::Gone
        } else if f.ended {
            KillVerdict::Terminated
        } else {
            KillVerdict::Refused
        }),
{
    if !f.opened {
        KillVerdict::Gone
    } else if !f.same_process {
        KillVerdict::Reused
    } else if !f.going {
        KillVerdict::Gone
    } else if f.ended {
        KillVerdict::Terminated
    } else {
        KillVerdict::Refused
    }
}

/// The answer after a process was to be ended. One that was ended is noted in the record.
pub fn killed(seen: &mut SeenMap, id: &str, pid: u32, verdict: KillVerdict, now: i64) -> (r: Json)
    requires
        old(seen).wf(),
    ensures
        final(seen).wf(),
        verdict == KillVerdict::Terminated ==> final(seen)@ == seen::changed(
            old(seen)@,
            id@,
            |e: JsonV| e.with(SEEN_KILLED@, JsonV::Int(now as int)),
        ) && r@ == JsonV::empty().with("ok"@, JsonV::Bool(true)).with(
            "pid"@,
            JsonV::Int(pid as int),
        ).with("killed"@, JsonV::Str(KILL_DONE@)),
        verdict != KillVerdict::Terminated ==> final(seen)@ == old(seen)@ && r@
            == JsonV::empty().with("ok"@, JsonV::Bool(false)).with(
            "pid"@,
            JsonV::Int(pid as int),
        ).with(
            "error"@,
            JsonV::Str(
                match verdict {
                    KillVerdict::Reused => KILL_REUSED@,
                    KillVerdict::Gone => KILL_GONE@,
                    _ => KILL_REFUSED@,
                },
            ),
        ),
{
    if verdict == KillVerdict::Terminated {
        mark_job_stamp(seen, id, SEEN_KILLED, now);
        return Json::object().with("ok", Json::Bool(true)).with("pid", Json::UInt(pid as u64)).with(
            "killed",
            Json::text(KILL_DONE),
        );
    }
    let why = match verdict {
        KillVerdict::Reused => KILL_REUSED,
        KillVerdict::Gone => KILL_GONE,
        _ => KILL_REFUSED,
    };
    Json::object().with("ok", Json::Bool(false)).with("pid", Json::UInt(pid as u64)).with(
        "error",
        Json::text(why),
    )
}

/// A process is ended only where it is the one that the record names and it is going.
pub proof fn only_the_recorded_process_is_ended(f: KillFacts, v: KillVerdict)
    requires
        v == (if !f.opened {
            KillVerdict::Gone
        } else if !f.same_process {
            KillVerdict::Reused
        } else if !f.going {
            KillVerdict::Gone
        } else if f.ended {
            KillVerdict::Terminated
        } else {
            KillVerdict::Refused
        }),
        v == KillVerdict::Terminated,
    ensures
        f.opened && f.same_process && f.going,
{
}

/// What is known of a run's process is what was found for its job first; nothing is known of a
/// job that was not looked at.
pub proof fn a_run_goes_by_what_was_found(facts: Seq<RunFacts>, id: Seq<char>, i: int)
    requires
        0 <= i <= facts.len(),
        forall|k: int| 0 <= k < i ==> (#[trigger] facts[k]).job_id@ != id,
        i < facts.len() ==> facts[i].job_id@ == id,
    ensures
        i < facts.len() ==> facts_of(facts, id) == (facts[i].alive, facts[i].script_running),
        i == facts.len() ==> facts_of(facts, id) == (false, false),
    decreases facts.len(),
{
    if i > 0 {
        let t = facts.drop_first();
        assert(facts[0].job_id@ != id);
        assert forall|k: int| 0 <= k < i - 1 implies (#[trigger] t[k]).job_id@ != id by {
            assert(t[k] == facts[k + 1]);
        }
        if i < facts.len() {
            assert(t[i - 1] == facts[i]);
        }
        a_run_goes_by_what_was_found(t, id, i - 1);
    }
}

/// The row of a run: its job, its process, when it began and how long ago, whether it passed its
/// bound and when, and whether the client is working on it.
pub proof fn a_row_describes_its_run(
    id: Seq<char>,
    v: JsonV,
    now: int,
    in_flight: bool,
    pid: int,
    created: int,
    over: int,
)
    requires
        seen::child_v(v) == Some((pid, created)),
    ensures
        ({
            let r = run_row(id, v, now, in_flight);
            let began = created / 10_000_000 - 11_644_473_600;
            &&& r.member("job_id"@) == Some(JsonV::Str(id))
            &&& r.member("pid"@) == Some(JsonV::Int(pid))
            &&& r.member("started_at"@) == Some(JsonV::Int(began))
            &&& r.member("elapsed_s"@) == Some(
                JsonV::Int(
                    if now > began {
                        now - began
                    } else {
                        0
                    },
                ),
            )
            &&& r.member("in_flight"@) == Some(JsonV::Bool(in_flight))
            &&& v.member_int("o"@) is None ==> r.member("state"@) == Some(JsonV::Str("running"@))
                && r.member("over_time_at"@) is None
            &&& v.member_int("o"@) == Some(over) ==> r.member("state"@) == Some(
                JsonV::Str("over_time"@),
            ) && r.member("over_time_at"@) == Some(JsonV::Int(over))
        }),
{
    reveal_strlit("job_id");
    reveal_strlit("pid");
    reveal_strlit("started_at");
    reveal_strlit("elapsed_s");
    reveal_strlit("state");
    reveal_strlit("in_flight");
    reveal_strlit("over_time_at");
    assert("job_id"@.len() == 6 && "pid"@.len() == 3 && "started_at"@.len() == 10);
    assert("elapsed_s"@.len() == 9 && "in_flight"@.len() == 9 && "elapsed_s"@[0] == 'e'
        && "in_flight"@[0] == 'i');
    assert("state"@.len() == 5 && "over_time_at"@.len() == 12);
}

proof fn lemma_run_placed(s: Seq<RunRowV>, x: RunRowV)
    ensures
        insert_run(s, x).to_multiset() == s.to_multiset().insert(x),
        insert_run(s, x).len() == s.len() + 1,
    decreases s.len(),
{
    broadcast use vstd::seq_lib::group_to_multiset_ensures;

    if s.len() == 0 || s.last().started <= x.started {
        assert(s.push(x).to_multiset() =~= s.to_multiset().insert(x));
    } else {
        let t = s.drop_last();
        lemma_run_placed(t, x);
        assert(t.push(s.last()) =~= s);
        assert(insert_run(s, x).to_multiset() =~= s.to_multiset().insert(x));
    }
}

proof fn lemma_runs_in_order(s: Seq<RunRowV>, x: RunRowV)
    requires
        forall|i: int, j: int|
            0 <= i < j < s.len() ==> (#[trigger] s[i]).started <= (#[trigger] s[j]).started,
    ensures
        forall|i: int, j: int|
            0 <= i < j < insert_run(s, x).len() ==> (#[trigger] insert_run(s, x)[i]).started <= (
            #[trigger] insert_run(s, x)[j]).started,
        s.len() > 0 && s.last().started > x.started ==> insert_run(s, x).last() == s.last(),
        forall|i: int|
            0 <= i < insert_run(s, x).len() ==> (#[trigger] insert_run(s, x)[i]) == x || (s.len()
                > 0 && insert_run(s, x)[i].started <= s.last().started),
    decreases s.len(),
{
    let r = insert_run(s, x);
    if s.len() == 0 || s.last().started <= x.started {
        assert forall|i: int, j: int| 0 <= i < j < r.len() implies (#[trigger] r[i]).started <= (
        #[trigger] r[j]).started by {
            if j == s.len() {
                assert(r[i] == s[i]);
                assert(s[i].started <= s[s.len() - 1].started);
            }
        }
        assert forall|i: int| 0 <= i < r.len() implies (#[trigger] r[i]) == x || (s.len() > 0
            && r[i].started <= s.last().started) by {
            if i < s.len() {
                assert(r[i] == s[i]);
                assert(s[i].started <= s[s.len() - 1].started);
            }
        }
    } else {
        let t = s.drop_last();
        assert forall|i: int| 0 <= i < t.len() implies #[trigger] t[i] == s[i] by {}
        lemma_runs_in_order(t, x);
        let u = insert_run(t, x);
        assert forall|i: int| 0 <= i < u.len() implies (#[trigger] u[i]).started <= s.last().started by {
            if u[i] != x {
                assert(t.last() == s[s.len() - 2]);
                assert(s[s.len() - 2].started <= s[s.len() - 1].started);
            }
        }
        assert forall|i: int, j: int| 0 <= i < j < r.len() implies (#[trigger] r[i]).started <= (
        #[trigger] r[j]).started by {
            assert(r[i] == u[i]);
            if j < u.len() {
                assert(r[j] == u[j]);
            }
        }
        assert forall|i: int| 0 <= i < r.len() implies (#[trigger] r[i]) == x || (s.len() > 0
            && r[i].started <= s.last().started) by {
            if i < u.len() {
                assert(r[i] == u[i]);
            }
        }
    }
}

/// The runs that are listed stand by when they began, the oldest first.
pub proof fn runs_stand_by_their_start(
    entries: Seq<(String, Json)>,
    facts: Seq<RunFacts>,
    in_flight: Set<Seq<char>>,
    now: int,
)
    ensures
        forall|i: int, j: int|
            0 <= i < j < run_rows(entries, facts, in_flight, now).len() ==> (
            #[trigger] run_rows(entries, facts, in_flight, now)[i]).started <= (
            #[trigger] run_rows(entries, facts, in_flight, now)[j]).started,
    decreases entries.len(),
{
    if entries.len() > 0 {
        let before = run_rows(entries.drop_last(), facts, in_flight, now);
        runs_stand_by_their_start(entries.drop_last(), facts, in_flight, now);
        let id = entries.last().0@;
        let v = entries.last().1@;
        lemma_runs_in_order(
            before,
            RunRowV {
                started: started_at((seen::child_v(v)->0).1),
                row: run_row(id, v, now, in_flight.contains(id)),
            },
        );
    }
}

/// A run is listed where the record names its process, it is not done, and its process is going;
/// each such run has one row, and nothing else has one.
pub proof fn every_going_run_is_listed(
    entries: Seq<(String, Json)>,
    facts: Seq<RunFacts>,
    in_flight: Set<Seq<char>>,
    now: int,
)
    ensures
        run_rows(entries, facts, in_flight, now).to_multiset() == entries.filter(
            |e: (String, Json)|
                !is_done(e.1@) && seen::child_v(e.1@) is Some && facts_of(facts, e.0@).0,
        ).map_values(
            |e: (String, Json)|
                RunRowV {
                    started: (seen::child_v(e.1@)->0).1 / 10_000_000 - 11_644_473_600,
                    row: run_row(e.0@, e.1@, now, in_flight.contains(e.0@)),
                },
        ).to_multiset(),
    decreases entries.len(),
{
    broadcast use vstd::seq_lib::group_to_multiset_ensures;

    let g = |e: (String, Json)|
        !is_done(e.1@) && seen::child_v(e.1@) is Some && facts_of(facts, e.0@).0;
    let h = |e: (String, Json)|
        RunRowV {
            started: (seen::child_v(e.1@)->0).1 / 10_000_000 - 11_644_473_600,
            row: run_row(e.0@, e.1@, now, in_flight.contains(e.0@)),
        };
    reveal(Seq::filter);
    if entries.len() > 0 {
        let t = entries.drop_last();
        every_going_run_is_listed(t, facts, in_flight, now);
        if g(entries.last()) {
            lemma_run_placed(run_rows(t, facts, in_flight, now), h(entries.last()));
            assert(entries.filter(g) == t.filter(g).push(entries.last()));
            assert(entries.filter(g).map_values(h) =~= t.filter(g).map_values(h).push(
                h(entries.last()),
            ));
        }
    } else {
        assert(entries.filter(g).map_values(h) =~= Seq::<RunRowV>::empty());
    }
}

/// How many runs cannot be told apart: those with a directory and no process in the record,
/// which are not done and whose script is going.
pub proof fn runs_without_a_process_are_counted(
    entries: Seq<(String, Json)>,
    facts: Seq<RunFacts>,
)
    ensures
        unprovable_count(entries, facts) == entries.filter(
            |e: (String, Json)|
                !is_done(e.1@) && seen::child_v(e.1@) is None && e.1@.member("x"@) is Some
                    && facts_of(facts, e.0@).1,
        ).len(),
    decreases entries.len(),
{
    reveal(Seq::filter);
    if entries.len() > 0 {
        runs_without_a_process_are_counted(entries.drop_last(), facts);
    }
}

/// A kill is refused without a job, for a job that is not known, that is done, or that has no
/// process of its own; and for no other.
pub proof fn a_known_going_process_may_be_ended(m: Map<Seq<char>, JsonV>, id: Seq<char>)
    ensures
        kill_error(m, id) is None <==> id.len() > 0 && m.contains_key(id) && seen::stamp(m[id])
            is Some && !(seen::stamp(m[id])->0).1 && seen::child_v(m[id]) is Some,
        id.len() > 0 && !m.contains_key(id) ==> kill_error(m, id) == Some(KILL_UNKNOWN@),
        id.len() > 0 && m.contains_key(id) && seen::stamp(m[id]) is Some && (seen::stamp(m[id])->0).1
            ==> kill_error(m, id) == Some(KILL_FINISHED@),
{
}

/// A run is shown where its job is not done and its process is known and alive; one without a
/// known process, whose script still runs, is counted.
pub proof fn a_run_is_shown_while_it_goes(v: JsonV, alive: bool, running: bool)
    ensures
        shown(v, alive) <==> alive && !is_done(v) && seen::child_v(v) is Some,
        unprovable(v, running) <==> running && !is_done(v) && seen::child_v(v) is None && v.member(
            "x"@,
        ) is Some,
        !(shown(v, alive) && unprovable(v, running)),
{
}

/// What the answer about the runs says.
pub proof fn the_answer_lists_the_runs(
    entries: Seq<(String, Json)>,
    facts: Seq<RunFacts>,
    in_flight: Set<Seq<char>>,
    now: int,
)
    ensures
        ({
            let v = job_runs_v(entries, facts, in_flight, now);
            let rows = run_rows(entries, facts, in_flight, now);
            &&& v.member("ok"@) == Some(JsonV::Bool(true))
            &&& v.member("count"@) == Some(JsonV::Int(rows.len() as int))
            &&& v.member("unprovable"@) == Some(
                JsonV::Int(unprovable_count(entries, facts) as int),
            )
            &&& v.member("collected_at"@) == Some(JsonV::Int(now))
            &&& v.member("items"@) == Some(JsonV::Arr(rows.map_values(|r: RunRowV| r.row)))
        }),
{
    reveal_strlit("ok");
    reveal_strlit("count");
    reveal_strlit("unprovable");
    reveal_strlit("collected_at");
    reveal_strlit("items");
    assert("ok"@.len() == 2);
    assert("count"@.len() == 5);
    assert("items"@.len() == 5);
    assert("count"@[0] == 'c');
    assert("items"@[0] == 'i');
    assert("unprovable"@.len() == 10);
    assert("collected_at"@.len() == 12);
    let rows = run_rows(entries, facts, in_flight, now);
    assert(rows_only(rows) =~= rows.map_values(|r: RunRowV| r.row));
}

} // verus!
