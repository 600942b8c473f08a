//! The job channel: what the console dispatches, what the device takes up, and what it answers.
use vstd::prelude::*;

use crate::crypto;
use crate::json;
use crate::num;
use crate::policy;
use crate::seen;
use crate::settle;
use crate::text;
use crate::trust;
use crate::crypto::{b64_encode, recover, sign_detached};
use crate::json::{from_text, json_eq, to_text, Json, JsonV};
use crate::num::{dec_i64, parse_i64};
use crate::policy::cut_at_line;
use crate::seen::{mark_job_seen, within, JobGate, SeenMap};
use crate::settle::started_ids;
use crate::text::{cut_before, from_utf8, has_name, replace, same, trim, trim_end_char};

verus! {

/// How far the clocks of the console and the device may be apart, in seconds.
pub const JOBS_FRESH_SECS: i64 = 300;

/// The longest dispatch message, in bytes.
pub const MAX_DISPATCH: usize = 262_144;

/// How often a claim is tried.
pub const JOB_CLAIM_ATTEMPTS: u32 = 3;

/// The job ids that are being worked on.
pub struct InFlight {
    ids: Vec<String>,
}

impl View for InFlight {
    type V = Set<Seq<char>>;

    closed spec fn view(&self) -> Set<Seq<char>> {
        text::texts(self.ids@).to_set()
    }
}

impl InFlight {
    /// Each id is held once.
    pub closed spec fn wf(self) -> bool {
        text::texts(self.ids@).no_duplicates()
    }

    /// Nothing is being worked on.
    pub fn new() -> (r: InFlight)
        ensures
            r.wf(),
            r@ == Set::<Seq<char>>::empty(),
    {
        let r = InFlight { ids: Vec::new() };
        assert(text::texts(r.ids@) =~= Seq::<Seq<char>>::empty());
        assert(r@ =~= Set::<Seq<char>>::empty());
        r
    }

    /// Takes up an id, unless it is being worked on.
    pub fn acquire(&mut self, id: &str) -> (r: bool)
        requires
            old(self).wf(),
        ensures
            final(self).wf(),
            r == !old(self)@.contains(id@),
            final(self)@ == old(self)@.insert(id@),
    {
        if has_name(&self.ids, id) {
            assert(self@ =~= old(self)@.insert(id@));
            return false;
        }
        let ghost o = text::texts(self.ids@);
        self.ids.push(id.to_owned());
        proof {
            let t = text::texts(self.ids@);
            assert(t =~= o.push(id@));
            assert forall|i: int, j: int| 0 <= i < j < t.len() implies t[i] != t[j] by {
                if j == o.len() {
                    assert(o[i] == t[i]);
                    assert(o.contains(o[i]));
                } else {
                    assert(o[i] == t[i] && o[j] == t[j]);
                }
            }
            assert forall|x: Seq<char>| t.to_set().contains(x) <==> o.to_set().insert(
                id@,
            ).contains(x) by {
                if t.contains(x) {
                    let i = choose|i: int| 0 <= i < t.len() && t[i] == x;
                    if i < o.len() {
                        assert(o[i] == x);
                    }
                }
                if o.contains(x) {
                    let i = choose|i: int| 0 <= i < o.len() && o[i] == x;
                    assert(t[i] == x);
                }
                assert(t[o.len() as int] == id@);
            }
            assert(t.to_set() =~= o.to_set().insert(id@));
        }
        true
    }

    /// Lets go of an id.
    pub fn release(&mut self, id: &str)
        requires
            old(self).wf(),
        ensures
            final(self).wf(),
            final(self)@ == old(self)@.remove(id@),
    {
        let mut out: Vec<String> = Vec::new();
        let ghost all = text::texts(self.ids@);
        let mut i: usize = 0;
        while i < self.ids.len()
            invariant
                i <= self.ids@.len(),
                all == text::texts(self.ids@),
                self.ids@ == old(self).ids@,
                all.no_duplicates(),
                text::texts(out@).no_duplicates(),
                forall|x: Seq<char>|
                    text::texts(out@).contains(x) <==> all.take(i as int).contains(x) && x != id@,
            decreases self.ids@.len() - i,
        {
            let ghost o = text::texts(out@);
            let ghost x0 = all[i as int];
            proof {
                assert forall|x: Seq<char>| all.take(i + 1).contains(x) <==> all.take(
                    i as int,
                ).contains(x) || x == x0 by {
                    let a = all.take(i as int);
                    let b = all.take(i + 1);
                    if b.contains(x) {
                        let k = choose|k: int| 0 <= k < b.len() && b[k] == x;
                        if k < i {
                            assert(a[k] == x);
                        }
                    }
                    if a.contains(x) {
                        let k = choose|k: int| 0 <= k < a.len() && a[k] == x;
                        assert(b[k] == x);
                    }
                    assert(b[i as int] == x0);
                }
                assert(!all.take(i as int).contains(x0)) by {
                    let a = all.take(i as int);
                    if a.contains(x0) {
                        let k = choose|k: int| 0 <= k < a.len() && a[k] == x0;
                        assert(all[k] == all[i as int]);
                    }
                }
            }
            if !same(self.ids[i].as_str(), id) {
                out.push(self.ids[i].clone());
                proof {
                    let t = text::texts(out@);
                    assert(t =~= o.push(x0));
                    assert forall|a: int, b: int| 0 <= a < b < t.len() implies t[a] != t[b] by {
                        assert(t[a] == o[a]);
                        assert(o.contains(o[a]));
                        if b < o.len() {
                            assert(t[b] == o[b]);
                        }
                    }
                    assert forall|x: Seq<char>| t.contains(x) <==> o.contains(x) || x == x0 by {
                        if t.contains(x) {
                            let k = choose|k: int| 0 <= k < t.len() && t[k] == x;
                            if k < o.len() {
                                assert(o[k] == x);
                            }
                        }
                        if o.contains(x) {
                            let k = choose|k: int| 0 <= k < o.len() && o[k] == x;
                            assert(t[k] == x);
                        }
                        assert(t[o.len() as int] == x0);
                    }
                }
            }
            i = i + 1;
        }
        assert(all.take(i as int) == all);
        self.ids = out;
        assert(self@ =~= old(self)@.remove(id@));
    }

    /// Whether an id is being worked on.
    pub fn holds(&self, id: &str) -> (r: bool)
        ensures
            r == self@.contains(id@),
    {
        has_name(&self.ids, id)
    }
}

/// Whether anything is being worked on.
pub fn any_job_in_flight(ids: &InFlight) -> (r: bool)
    ensures
        r == (ids@ != Set::<Seq<char>>::empty()),
{
    proof {
        let t = text::texts(ids.ids@);
        if t.len() > 0 {
            assert(t.contains(t[0]));
            assert(ids@.contains(t[0]));
        } else {
            assert(ids@ =~= Set::<Seq<char>>::empty());
        }
    }
    ids.ids.len() > 0
}

/// What a signed dispatch says.
pub struct DispatchV {
    pub ts: int,
    pub enforce: bool,
    pub doc: Seq<char>,
}

/// The dispatch that a message holds for a device: it names a dispatch, the device, a time,
/// whether signatures are enforced, and the jobs.
pub open spec fn dispatch_of(message: Seq<char>, id: Seq<char>) -> Option<DispatchV> {
    match policy::cut_line(message) {
        (tag, Some(r1)) => match policy::cut_line(r1) {
            (who, Some(r2)) => match policy::cut_line(r2) {
                (ts, Some(r3)) => match policy::cut_line(r3) {
                    (flag, Some(doc)) => match num::parse_sint(ts, i64::MIN as int, i64::MAX as nat) {
                        Some(t) => if tag == "CONSOLE-JOBS"@ && who == id {
                            Some(DispatchV { ts: t, enforce: flag == "1"@, doc })
                        } else {
                            None
                        },
                        None => None,
                    },
                    _ => None,
                },
                _ => None,
            },
            _ => None,
        },
        _ => None,
    }
}

/// What a signed dispatch says.
pub struct Dispatch {
    pub ts: i64,
    pub enforce: bool,
    pub doc: String,
}

/// Reads the dispatch that a message holds for a device.
pub fn read_dispatch(message: &str, id: &str) -> (r: Option<Dispatch>)
    ensures
        match r {
            Some(d) => dispatch_of(message@, id@) == Some(
                DispatchV { ts: d.ts as int, enforce: d.enforce, doc: d.doc@ },
            ),
            None => dispatch_of(message@, id@) is None,
        },
{
    if let (tag, Some(r1)) = cut_at_line(message) {
        if let (who, Some(r2)) = cut_at_line(r1.as_str()) {
            if let (ts, Some(r3)) = cut_at_line(r2.as_str()) {
                if let (flag, Some(doc)) = cut_at_line(r3.as_str()) {
                    if let Some(t) = parse_i64(ts.as_str()) {
                        if same(tag.as_str(), "CONSOLE-JOBS") && same(who.as_str(), id) {
                            return Some(
                                Dispatch { ts: t, enforce: same(flag.as_str(), "1"), doc },
                            );
                        }
                    }
                }
            }
        }
    }
    None
}

/// What the signature of a dispatch is worth.
pub enum JobsVerdict {
    /// The jobs are signed for this device and fresh.
    Valid { enforce: bool, jobs: Vec<Json> },
    /// There is a signature and it does not hold.
    Invalid,
    /// There is no signature.
    Absent,
}

/// The jobs that a recovered message signs, where it holds: it is a dispatch for this device,
/// fresh, of the announced time, and its jobs are those that came over the wire.
pub open spec fn signed_jobs(
    message: Option<Seq<u8>>,
    wire: Seq<JsonV>,
    ts: Option<JsonV>,
    id: Seq<char>,
    now: int,
) -> Option<(bool, Seq<JsonV>)> {
    match message {
        Some(b) => if vstd::utf8::valid_utf8(b) {
            match dispatch_of(vstd::utf8::decode_utf8(b), id) {
                Some(d) => {
                    let announced = match ts {
                        Some(v) => v.int64(),
                        None => None,
                    };
                    if seen::apart(now, d.ts) <= JOBS_FRESH_SECS && (announced is Some ==> announced
                        == Some(d.ts)) {
                        match json::parsed(d.doc) {
                            Some(JsonV::Arr(s)) => if json::same_value(
                                JsonV::Arr(s),
                                JsonV::Arr(wire),
                            ) {
                                Some((d.enforce, s))
                            } else {
                                None
                            },
                            _ => None,
                        }
                    } else {
                        None
                    }
                },
                None => None,
            }
        } else {
            None
        },
        None => None,
    }
}

/// Holds a recovered message against the jobs that came over the wire.
pub fn check_dispatch(
    message: Option<Vec<u8>>,
    wire: &Json,
    ts: Option<&Json>,
    id: &str,
    now: i64,
) -> (r: Option<(bool, Vec<Json>)>)
    requires
        wire@ is Arr,
    ensures
        match r {
            Some((e, jobs)) => signed_jobs(
                text::opt_bytes(message),
                wire@->Arr_0,
                json::opt_ref(ts),
                id@,
                now as int,
            ) == Some((e, json::models(jobs@))),
            None => signed_jobs(
                text::opt_bytes(message),
                wire@->Arr_0,
                json::opt_ref(ts),
                id@,
                now as int,
            ) is None,
        },
{
    let text = match message {
        Some(b) => match from_utf8(b) {
            Some(t) => t,
            None => {
                return None;
            },
        },
        None => {
            return None;
        },
    };
    let d = match read_dispatch(text.as_str(), id) {
        Some(d) => d,
        None => {
            return None;
        },
    };
    if !within(now, d.ts, JOBS_FRESH_SECS) {
        return None;
    }
    if let Some(v) = ts {
        if let Some(adv) = v.as_i64() {
            if adv != d.ts {
                return None;
            }
        }
    }
    match from_text(d.doc.as_str()) {
        Some(j) => {
            if j.as_array().is_none() || !json_eq(&j, wire) {
                return None;
            }
            match j {
                Json::Arr(jobs) => {
                    assert(json::model(j)->Arr_0 =~= json::models(jobs@));
                    Some((d.enforce, jobs))
                },
                _ => None,
            }
        },
        None => None,
    }
}

/// The signature that came with a dispatch; nothing where it is no text or an empty one.
pub open spec fn signature_of(sig: Option<JsonV>) -> Option<Seq<char>> {
    match sig {
        Some(v) => match v.text() {
            Some(s) => if s.len() > 0 {
                Some(s)
            } else {
                None
            },
            None => None,
        },
        None => None,
    }
}

/// The verdict on a dispatch.
pub open spec fn verdict_ok(
    r: JobsVerdict,
    wire: Seq<JsonV>,
    sig: Option<JsonV>,
    ts: Option<JsonV>,
    key: Seq<char>,
    id: Seq<char>,
    now: int,
) -> bool {
    match signature_of(sig) {
        None => r is Absent,
        Some(s) => if key.len() == 0 {
            r is Invalid
        } else {
            match signed_jobs(crypto::recovered(key, s, MAX_DISPATCH as nat), wire, ts, id, now) {
                Some((e, jobs)) => {
                    &&& r is Valid
                    &&& r->enforce == e
                    &&& json::models(r->jobs@) == jobs
                },
                None => r is Invalid,
            }
        },
    }
}

/// Holds the signature of a dispatch against the jobs that came over the wire.
pub fn verify_jobs(
    wire: &Json,
    sig: Option<&Json>,
    ts: Option<&Json>,
    key: &str,
    id: &str,
    now: i64,
) -> (r: JobsVerdict)
    requires
        wire@ is Arr,
    ensures
        verdict_ok(r, wire@->Arr_0, json::opt_ref(sig), json::opt_ref(ts), key@, id@, now as int),
{
    let s: String = match sig {
        Some(v) => match v.as_str() {
            Some(s) => s.to_owned(),
            None => String::new(),
        },
        None => String::new(),
    };
    if s.as_str().is_empty() {
        return JobsVerdict::Absent;
    }
    if key.is_empty() {
        return JobsVerdict::Invalid;
    }
    match check_dispatch(recover(key, s.as_str(), MAX_DISPATCH), wire, ts, id, now) {
        Some((enforce, jobs)) => JobsVerdict::Valid { enforce, jobs },
        None => JobsVerdict::Invalid,
    }
}

/// One job of a dispatch.
pub struct Job {
    pub id: String,
    pub op: String,
    pub params: Option<String>,
}

/// The model of a job.
pub struct JobV {
    pub id: Seq<char>,
    pub op: Seq<char>,
    pub params: Option<Seq<char>>,
}

impl View for Job {
    type V = JobV;

    open spec fn view(&self) -> JobV {
        JobV { id: self.id@, op: self.op@, params: text::opt_text(self.params) }
    }
}

/// The models of a list of jobs.
pub open spec fn jobs_v(s: Seq<Job>) -> Seq<JobV> {
    Seq::new(s.len(), |i: int| s[i]@)
}

/// The job that a value describes.
pub open spec fn job_of(j: JsonV) -> JobV {
    JobV {
        id: j.member_or_empty("id"@),
        op: j.member_or_empty("op"@),
        params: j.member_text("params"@),
    }
}

/// The jobs that values describe, without those that have no id.
pub open spec fn named_jobs(s: Seq<JsonV>) -> Seq<JobV>
    decreases s.len(),
{
    if s.len() == 0 {
        seq![]
    } else if job_of(s.last()).id.len() > 0 {
        named_jobs(s.drop_last()).push(job_of(s.last()))
    } else {
        named_jobs(s.drop_last())
    }
}

/// The jobs that values describe.
pub fn list_jobs(values: &Vec<Json>) -> (r: Vec<Job>)
    ensures
        jobs_v(r@) == named_jobs(json::models(values@)),
{
    let ghost all = json::models(values@);
    let mut out: Vec<Job> = Vec::new();
    let mut i: usize = 0;
    assert(jobs_v(out@) =~= named_jobs(all.take(0)));
    while i < values.len()
        invariant
            i <= values@.len(),
            all == json::models(values@),
            jobs_v(out@) == named_jobs(all.take(i as int)),
        decreases values@.len() - i,
    {
        assert(all.take(i + 1).drop_last() == all.take(i as int));
        assert(all.take(i + 1).last() == values@[i as int]@);
        let id = values[i].get_str_or_empty("id");
        if !id.as_str().is_empty() {
            let op = values[i].get_str_or_empty("op");
            let params: Option<String> = match values[i].get_str("params") {
                Some(p) => Some(p.to_owned()),
                None => None,
            };
            let ghost o = out@;
            let job = Job { id, op, params };
            let ghost jv = job@;
            out.push(job);
            assert(jobs_v(out@) =~= jobs_v(o).push(jv));
        }
        i = i + 1;
    }
    assert(all.take(i as int) == all);
    out
}

/// The jobs of a dispatch that may be run, and whether signatures are enforced from now on.
/// A valid signature decides both; without one the jobs that came over the wire are run as
/// long as signatures are not enforced.
pub open spec fn runnable(
    wire: Seq<JsonV>,
    sig: Option<JsonV>,
    ts: Option<JsonV>,
    key: Seq<char>,
    id: Seq<char>,
    now: int,
    enforce: bool,
) -> (bool, Seq<JobV>) {
    if wire.len() == 0 {
        (enforce, seq![])
    } else {
        let signed = match signature_of(sig) {
            Some(s) => if key.len() == 0 {
                None
            } else {
                signed_jobs(crypto::recovered(key, s, MAX_DISPATCH as nat), wire, ts, id, now)
            },
            None => None,
        };
        match signed {
            Some((e, jobs)) => (e, named_jobs(jobs)),
            None => if enforce {
                (enforce, seq![])
            } else {
                (enforce, named_jobs(wire))
            },
        }
    }
}

/// The jobs of a dispatch that may be run.
pub fn run(
    jobs: &Json,
    sig: Option<&Json>,
    ts: Option<&Json>,
    key: &str,
    id: &str,
    now: i64,
    enforce: &mut bool,
) -> (r: Vec<Job>)
    ensures
        jobs@ is Arr ==> (*final(enforce), jobs_v(r@)) == runnable(
            jobs@->Arr_0,
            json::opt_ref(sig),
            json::opt_ref(ts),
            key@,
            id@,
            now as int,
            *old(enforce),
        ),
        !(jobs@ is Arr) ==> *final(enforce) == *old(enforce) && r@.len() == 0,
{
    let none: Vec<Job> = Vec::new();
    assert(jobs_v(none@) =~= Seq::<JobV>::empty());
    let wire = match jobs.as_array() {
        Some(w) => w,
        None => {
            return none;
        },
    };
    assert(json::models(wire@).len() == wire@.len());
    if wire.len() == 0 {
        return none;
    }
    match verify_jobs(jobs, sig, ts, key, id, now) {
        JobsVerdict::Valid { enforce: e, jobs: signed } => {
            *enforce = e;
            list_jobs(&signed)
        },
        JobsVerdict::Invalid => if *enforce {
            none
        } else {
            list_jobs(wire)
        },
        JobsVerdict::Absent => if *enforce {
            none
        } else {
            list_jobs(wire)
        },
    }
}

/// While signatures are enforced, every job that may be run stands in a dispatch that the
/// trusted key signed for this device.
pub proof fn enforcement_runs_signed_jobs_only(
    wire: Seq<JsonV>,
    sig: Option<JsonV>,
    ts: Option<JsonV>,
    key: Seq<char>,
    id: Seq<char>,
    now: int,
)
    ensures
        ({
            let (_, jobs) = runnable(wire, sig, ts, key, id, now, true);
            jobs.len() > 0 ==> {
                &&& signature_of(sig) is Some
                &&& signed_jobs(
                    crypto::recovered(key, signature_of(sig)->0, MAX_DISPATCH as nat),
                    wire,
                    ts,
                    id,
                    now,
                ) is Some
                &&& jobs == named_jobs(
                    (signed_jobs(
                        crypto::recovered(key, signature_of(sig)->0, MAX_DISPATCH as nat),
                        wire,
                        ts,
                        id,
                        now,
                    )->0).1,
                )
            }
        }),
{
}

/// What is done with a job of a dispatch.
#[derive(Clone, Copy, PartialEq, Eq, Structural)]
pub enum TakeUp {
    /// It is being worked on, or was taken up before.
    Leave,
    /// It is to be run.
    Run,
    /// It ran before and its result was lost: that is to be reported.
    ReportLost,
}

/// Takes up a job: one that is being worked on is left alone and leaves no trace in the
/// record; else the record decides. A job that is taken up stays among those being worked on.
pub fn take_up(
    id: &str,
    in_flight: &mut InFlight,
    seen: &mut SeenMap,
    now: i64,
    live: &Vec<String>,
) -> (r: TakeUp)
    requires
        old(in_flight).wf(),
        old(seen).wf(),
    ensures
        final(in_flight).wf(),
        final(seen).wf(),
        old(in_flight)@.contains(id@) ==> r == TakeUp::Leave && final(seen)@ == old(seen)@
            && final(in_flight)@ == old(in_flight)@,
        !old(in_flight)@.contains(id@) ==> {
            let gate = seen::gate_of(seen::entry_in(seen::retained(old(seen)@, now as int), id@), now as int);
            &&& seen::trimmed(seen::dispatched(old(seen)@, id@, now as int), final(seen)@, id@, text::texts(live@))
            &&& r == (match gate {
                JobGate::Run => TakeUp::Run,
                JobGate::Skip => TakeUp::Leave,
                JobGate::AlreadyRan => TakeUp::ReportLost,
            })
            &&& final(in_flight)@ == (if gate == JobGate::Skip {
                old(in_flight)@
            } else {
                old(in_flight)@.insert(id@)
            })
        },
{
    let ghost before = in_flight@;
    if !in_flight.acquire(id) {
        assert(before.insert(id@) =~= before);
        return TakeUp::Leave;
    }
    match mark_job_seen(seen, id, now, live) {
        JobGate::Run => TakeUp::Run,
        JobGate::Skip => {
            in_flight.release(id);
            assert(before.insert(id@).remove(id@) =~= before);
            TakeUp::Leave
        },
        JobGate::AlreadyRan => TakeUp::ReportLost,
    }
}

/// The origin of the console: the address before its interface, without closing slashes.
pub open spec fn origin_v(url: Seq<char>) -> Seq<char> {
    match text::text_before(url, "/api/"@) {
        Some(o) => o,
        None => text::trim_end_char_v(url, '/'),
    }
}

/// The origin of the console.
pub fn origin_of(heartbeat_url: &str) -> (r: String)
    ensures
        r@ == origin_v(heartbeat_url@),
{
    match cut_before(heartbeat_url, "/api/") {
        Some(o) => o,
        None => trim_end_char(heartbeat_url, '/'),
    }
}

/// A request to the console: where it goes and what it says.
pub struct Request {
    pub url: String,
    pub body: String,
}

/// The text that a device signs to read its queue.
pub open spec fn list_message(device: Seq<char>, ts: int) -> Seq<char> {
    "CONSOLE-DEVICE-JOBS\n"@ + device + "\n"@ + num::dec_int(ts)
}

/// The text that a device signs to claim a job.
pub open spec fn claim_message(device: Seq<char>, job: Seq<char>, ts: int) -> Seq<char> {
    "CONSOLE-DEVICE-JOB-CLAIM\n"@ + device + "\n"@ + job + "\n"@ + num::dec_int(ts)
}

/// What a device signs to read its queue is never what it signs to claim a job: a signature for
/// the one cannot be used for the other.
pub proof fn a_reading_is_no_claim(
    device: Seq<char>,
    ts: int,
    claimer: Seq<char>,
    job: Seq<char>,
    at: int,
)
    ensures
        list_message(device, ts) != claim_message(claimer, job, at),
{
    reveal_strlit("CONSOLE-DEVICE-JOBS\n");
    reveal_strlit("CONSOLE-DEVICE-JOB-CLAIM\n");
    assert(list_message(device, ts)[18] == 'S');
    assert(claim_message(claimer, job, at)[18] == '-');
}

/// The text that a device signs to answer a job.
pub open spec fn result_message(
    device: Seq<char>,
    job: Seq<char>,
    status: Seq<char>,
    result: Seq<char>,
) -> Seq<char> {
    device + "\n"@ + job + "\n"@ + status + "\n"@ + result
}

/// A signed statement of a device.
pub open spec fn signed_body(device: Seq<char>, ts: int, sig: Seq<char>) -> JsonV {
    JsonV::empty().with("device_id"@, JsonV::Str(device)).with("ts"@, JsonV::Int(ts)).with(
        "sig"@,
        JsonV::Str(sig),
    )
}

/// The signature of a text under the device's key.
pub fn sign_device_msg(msg: &str, sk: &[u8]) -> (r: String)
    requires
        sk@.len() == 64,
    ensures
        r@ == trust::signed_b64(msg@, sk@),
{
    b64_encode(sign_detached(msg.as_bytes(), sk).as_slice())
}

/// The request that reads the queue of a device.
pub fn list_request(heartbeat_url: &str, device: &str, ts: i64, sk: &[u8]) -> (r: Request)
    requires
        sk@.len() == 64,
    ensures
        r.url@ == origin_v(heartbeat_url@) + "/api/device/jobs/list"@,
        r.body@ == json::compact(
            signed_body(device@, ts as int, trust::signed_b64(list_message(device@, ts as int), sk@)),
        ),
{
    let msg = "CONSOLE-DEVICE-JOBS\n".to_owned().concat(device).concat("\n").concat(
        dec_i64(ts).as_str(),
    );
    let sig = sign_device_msg(msg.as_str(), sk);
    let body = Json::object().with("device_id", Json::text(device)).with("ts", Json::Int(ts)).with(
        "sig",
        Json::Str(sig),
    );
    Request {
        url: origin_of(heartbeat_url).concat("/api/device/jobs/list"),
        body: to_text(&body),
    }
}

/// The request that claims a job.
pub fn claim_request(
    heartbeat_url: &str,
    device: &str,
    job: &str,
    ts: i64,
    sk: &[u8],
) -> (r: Request)
    requires
        sk@.len() == 64,
    ensures
        r.url@ == origin_v(heartbeat_url@) + "/api/device/jobs/"@ + job@ + "/claim"@,
        r.body@ == json::compact(
            signed_body(
                device@,
                ts as int,
                trust::signed_b64(claim_message(device@, job@, ts as int), sk@),
            ),
        ),
{
    let msg = "CONSOLE-DEVICE-JOB-CLAIM\n".to_owned().concat(device).concat("\n").concat(
        job,
    ).concat("\n").concat(dec_i64(ts).as_str());
    let sig = sign_device_msg(msg.as_str(), sk);
    let body = Json::object().with("device_id", Json::text(device)).with("ts", Json::Int(ts)).with(
        "sig",
        Json::Str(sig),
    );
    Request {
        url: origin_of(heartbeat_url).concat("/api/device/jobs/").concat(job).concat("/claim"),
        body: to_text(&body),
    }
}

/// The body of an answer.
pub open spec fn result_body(status: Seq<char>, result: Seq<char>, sig: Seq<char>) -> JsonV {
    JsonV::empty().with("status"@, JsonV::Str(status)).with("result"@, JsonV::Str(result)).with(
        "sig"@,
        JsonV::Str(sig),
    )
}

/// The request that answers a job.
pub fn result_request(
    heartbeat_url: &str,
    device: &str,
    job: &str,
    status: &str,
    result: &str,
    sk: &[u8],
) -> (r: Request)
    requires
        sk@.len() == 64,
    ensures
        r.url@ == text::replace_v(heartbeat_url@, "heartbeat"@, "client/jobs"@) + "/"@ + job@
            + "/result"@,
        r.body@ == json::compact(
            result_body(
                status@,
                result@,
                trust::signed_b64(result_message(device@, job@, status@, result@), sk@),
            ),
        ),
{
    let msg = device.to_owned().concat("\n").concat(job).concat("\n").concat(status).concat(
        "\n",
    ).concat(result);
    let sig = sign_device_msg(msg.as_str(), sk);
    let body = Json::object().with("status", Json::text(status)).with(
        "result",
        Json::text(result),
    ).with("sig", Json::Str(sig));
    proof {
        reveal_strlit("heartbeat");
    }
    Request {
        url: replace(heartbeat_url, "heartbeat", "client/jobs").concat("/").concat(job).concat(
            "/result",
        ),
        body: to_text(&body),
    }
}

/// What a claim comes to.
#[derive(Clone, Copy, PartialEq, Eq, Structural)]
pub enum ClaimStep {
    /// The console recorded the start: the job is to be run.
    Granted,
    /// The console refused: the job is not to be run.
    Refused,
    /// The console was not reached: to be tried again, with so many tries left.
    Retry(u32),
    /// The console was not reached and no tries are left: the job is not to be run.
    GiveUp,
}

/// What a claim comes to after a reply, or after none came, with `left` tries left before it.
pub open spec fn claim_v(reply: Option<Seq<char>>, left: int) -> ClaimStep {
    match reply {
        Some(r) => if text::trim_v(r) == "JOB_CLAIMED"@ {
            ClaimStep::Granted
        } else {
            ClaimStep::Refused
        },
        None => if left > 1 {
            ClaimStep::Retry((left - 1) as u32)
        } else {
            ClaimStep::GiveUp
        },
    }
}

/// What a claim comes to after a reply.
pub fn claim_job(reply: Option<&str>, left: u32) -> (r: ClaimStep)
    ensures
        r == claim_v(text::opt_str(reply), left as int),
{
    match reply {
        Some(t) => if same(trim(t).as_str(), "JOB_CLAIMED") {
            ClaimStep::Granted
        } else {
            ClaimStep::Refused
        },
        None => if left > 1 {
            ClaimStep::Retry(left - 1)
        } else {
            ClaimStep::GiveUp
        },
    }
}

/// What became of a claim whose replies were these, one per try: nothing where more replies
/// are awaited.
pub open spec fn claim_after(replies: Seq<Option<Seq<char>>>, left: int) -> Option<bool>
    decreases replies.len(),
{
    if replies.len() == 0 {
        None
    } else {
        match claim_v(replies[0], left) {
            ClaimStep::Granted => Some(true),
            ClaimStep::Refused => Some(false),
            ClaimStep::GiveUp => Some(false),
            ClaimStep::Retry(n) => claim_after(replies.drop_first(), n as int),
        }
    }
}

/// A claim is tried at most so often as tries are left, and granted only by the console's word.
pub proof fn a_claim_ends(replies: Seq<Option<Seq<char>>>, left: int)
    requires
        0 < left <= u32::MAX,
        replies.len() >= left,
    ensures
        claim_after(replies, left) is Some,
        claim_after(replies, left) == Some(true) ==> exists|i: int|
            0 <= i < left && (#[trigger] replies[i]) is Some && text::trim_v(replies[i]->0)
                == "JOB_CLAIMED"@,
    decreases left,
{
    match claim_v(replies[0], left) {
        ClaimStep::Retry(n) => {
            let t = replies.drop_first();
            a_claim_ends(t, n as int);
            if claim_after(replies, left) == Some(true) {
                let i = choose|i: int|
                    0 <= i < n && (#[trigger] t[i]) is Some && text::trim_v(t[i]->0) == "JOB_CLAIMED"@;
                assert(replies[i + 1] == t[i]);
            }
        },
        _ => {
            assert(replies[0] == replies[0]);
        },
    }
}

/// What came of posting a result.
pub struct PostOutcome {
    /// The console stored the answer.
    pub stored: bool,
    /// The console was told: the job has nothing left to report.
    pub reported: bool,
}

/// What came of posting a result: any reply means that the console was told, one reply that it
/// stored the answer.
pub fn post_result(reply: Option<&str>) -> (r: PostOutcome)
    ensures
        r.reported == (reply is Some),
        r.stored == (reply is Some && text::trim_v(reply->0@) == "JOB_SETTLED"@),
{
    match reply {
        Some(t) => PostOutcome { stored: same(trim(t).as_str(), "JOB_SETTLED"), reported: true },
        None => PostOutcome { stored: false, reported: false },
    }
}

/// The reply of the console to a device that enrols its key.
pub enum Enrolment {
    /// The key is the one that the console pinned.
    Pinned,
    /// The console answered, and another key is pinned.
    NotPinned,
    /// The console did not take the key.
    Failed,
}

/// What the value of a reply to an enrolment says; one that holds none says that it failed.
pub open spec fn enrolment_v(v: Option<JsonV>) -> Enrolment {
    let ok = v is Some && v->0.member_truth("ok"@) == Some(true);
    let pinned = v is Some && v->0.member_truth("pinned"@) == Some(true);
    if ok && pinned {
        Enrolment::Pinned
    } else if ok {
        Enrolment::NotPinned
    } else {
        Enrolment::Failed
    }
}

/// What the reply to an enrolment says.
pub fn enrolment_reply(reply: &str) -> (r: Enrolment)
    ensures
        r == enrolment_v(json::parsed(reply@)),
{
    let v = from_text(reply);
    enrolment_of(&v)
}

/// What the value of a reply to an enrolment says.
pub fn enrolment_of(v: &Option<Json>) -> (r: Enrolment)
    ensures
        r == enrolment_v(json::opt_model(*v)),
{
    match v {
        Some(j) => {
            let ok = match j.get_bool("ok") {
                Some(b) => b,
                None => false,
            };
            let pinned = match j.get_bool("pinned") {
                Some(b) => b,
                None => false,
            };
            if ok && pinned {
                Enrolment::Pinned
            } else if ok {
                Enrolment::NotPinned
            } else {
                Enrolment::Failed
            }
        },
        None => Enrolment::Failed,
    }
}

/// The request that enrols a device's key.
pub fn enroll_request(heartbeat_url: &str, id: &str, pk: &[u8]) -> (r: Request)
    ensures
        r.url@ == text::replace_v(heartbeat_url@, "heartbeat"@, "client/enroll"@),
        r.body@ == json::compact(
            JsonV::empty().with("id"@, JsonV::Str(id@)).with(
                "pubkey"@,
                JsonV::Str(crypto::b64_encoded(pk@)),
            ),
        ),
{
    proof {
        reveal_strlit("heartbeat");
    }
    let body = Json::object().with("id", Json::text(id)).with("pubkey", Json::Str(b64_encode(pk)));
    Request {
        url: replace(heartbeat_url, "heartbeat", "client/enroll"),
        body: to_text(&body),
    }
}

/// Whether the device's key is pinned on the console, and whether it was told that another is.
pub struct Enrolled {
    pub pinned: bool,
    pub warned: bool,
}

/// Whether the device asks for its key to be pinned: until it is, and not without a name.
pub fn ensure_enrolled(state: &Enrolled, id: &str) -> (r: bool)
    ensures
        r == (!state.pinned && id@.len() > 0),
{
    !state.pinned && !id.is_empty()
}

/// Takes the console's answer on a key, and says whether to warn that another is pinned: once.
pub fn enrolment_answered(state: &mut Enrolled, outcome: Enrolment) -> (warn: bool)
    ensures
        final(state).pinned == (old(state).pinned || outcome is Pinned),
        final(state).warned == (old(state).warned || outcome is NotPinned),
        warn == (outcome is NotPinned && !old(state).warned),
{
    match outcome {
        Enrolment::Pinned => {
            state.pinned = true;
            false
        },
        Enrolment::NotPinned => {
            let warn = !state.warned;
            state.warned = true;
            warn
        },
        _ => false,
    }
}

/// What the console says of a device's jobs.
pub struct Poll {
    /// The runs that it asks after.
    pub started: Vec<String>,
    /// The jobs that are offered, where there are any.
    pub items: Option<Json>,
    pub sig: Option<Json>,
    pub ts: Option<Json>,
    /// Whether a job is to be claimed before it is run.
    pub claims: bool,
}

/// The value of a reply says this of the jobs.
pub open spec fn says(rsp: JsonV, p: Poll) -> bool {
    &&& text::texts(p.started@) == (match rsp.member("started"@) {
        Some(JsonV::Arr(s)) => settle::started_v(s),
        _ => seq![],
    })
    &&& json::opt_model(p.items) == rsp.member("items"@)
    &&& json::opt_model(p.sig) == rsp.member("jobs_sig"@)
    &&& json::opt_model(p.ts) == rsp.member("jobs_ts"@)
    &&& p.claims == (rsp.member_truth("claims"@) == Some(true))
}

/// Reads the reply of the console to a poll: nothing where it holds no value.
pub fn poll_reply(reply: &str) -> (r: Option<Poll>)
    ensures
        match r {
            Some(p) => json::parsed(reply@) is Some && says(json::parsed(reply@)->0, p),
            None => json::parsed(reply@) is None,
        },
{
    match from_text(reply) {
        Some(rsp) => Some(poll(&rsp)),
        None => None,
    }
}

fn member_copy(rsp: &Json, key: &str) -> (r: Option<Json>)
    ensures
        json::opt_model(r) == rsp@.member(key@),
{
    match rsp.get(key) {
        Some(j) => Some(j.copy()),
        None => None,
    }
}

/// Reads what the console says of a device's jobs. The runs that it asks after are there whether
/// or not it offers jobs, and a job is claimed only where the console says that it can be.
pub fn poll(rsp: &Json) -> (r: Poll)
    ensures
        says(rsp@, r),
{
    let claims = match rsp.get_bool("claims") {
        Some(b) => b,
        None => false,
    };
    Poll {
        started: started_ids(rsp.get("started")),
        items: member_copy(rsp, "items"),
        sig: member_copy(rsp, "jobs_sig"),
        ts: member_copy(rsp, "jobs_ts"),
        claims,
    }
}

/// A value of a dispatch has an id: a text that is not empty.
pub open spec fn has_id(j: JsonV) -> bool {
    match j.member("id"@) {
        Some(JsonV::Str(t)) => t.len() > 0,
        _ => false,
    }
}

/// A job is that of a value: each field is the text of the member of its own name.
pub open spec fn is_job_of(job: JobV, j: JsonV) -> bool {
    &&& j.member("id"@) == Some(JsonV::Str(job.id))
    &&& match j.member("op"@) {
        Some(JsonV::Str(t)) => job.op == t,
        _ => job.op.len() == 0,
    }
    &&& match j.member("params"@) {
        Some(JsonV::Str(t)) => job.params == Some(t),
        _ => job.params is None,
    }
}

/// How many values of a dispatch have an id.
pub open spec fn ids_in(s: Seq<JsonV>) -> nat {
    s.filter(|j: JsonV| has_id(j)).len()
}

proof fn lemma_ids_in(s: Seq<JsonV>)
    requires
        s.len() > 0,
    ensures
        ids_in(s) == ids_in(s.drop_last()) + (if has_id(s.last()) {
            1nat
        } else {
            0
        }),
{
    let f = |j: JsonV| has_id(j);
    reveal(Seq::filter);
    assert(s.filter(f) == if f(s.last()) {
        s.drop_last().filter(f).push(s.last())
    } else {
        s.drop_last().filter(f)
    });
}

proof fn lemma_is_job(j: JsonV)
    ensures
        has_id(j) <==> job_of(j).id.len() > 0,
        has_id(j) ==> is_job_of(job_of(j), j),
{
}

/// Every value of a dispatch that has an id stands among the jobs to run, with its own fields
/// and in the order of the dispatch, and nothing else does: there are as many jobs as such
/// values, and a value's job stands behind those of the values before it.
pub proof fn every_named_job_is_listed(s: Seq<JsonV>)
    ensures
        named_jobs(s).len() == ids_in(s),
        forall|i: int|
            0 <= i < s.len() && has_id(#[trigger] s[i]) ==> ids_in(s.take(i)) < named_jobs(s).len()
                && is_job_of(named_jobs(s)[ids_in(s.take(i)) as int], s[i]),
    decreases s.len(),
{
    if s.len() > 0 {
        let t = s.drop_last();
        every_named_job_is_listed(t);
        lemma_ids_in(s);
        lemma_is_job(s.last());
        assert forall|i: int| 0 <= i < s.len() && has_id(#[trigger] s[i]) implies ids_in(s.take(i))
            < named_jobs(s).len() && is_job_of(named_jobs(s)[ids_in(s.take(i)) as int], s[i]) by {
            if i < t.len() {
                assert(t[i] == s[i]);
                assert(t.take(i) =~= s.take(i));
            } else {
                assert(s.take(i) =~= t);
            }
        }
    } else {
        reveal(Seq::filter);
    }
}

/// What is run of a list that came without a signature, while none is enforced, is every named
/// job of it, and enforcement stays off. While signatures are enforced it is nothing.
pub proof fn an_unsigned_dispatch_runs_whole(
    wire: Seq<JsonV>,
    ts: Option<JsonV>,
    key: Seq<char>,
    id: Seq<char>,
    now: int,
)
    ensures
        runnable(wire, None, ts, key, id, now, false).1.len() == ids_in(wire),
        forall|i: int|
            0 <= i < wire.len() && has_id(#[trigger] wire[i]) ==> is_job_of(
                runnable(wire, None, ts, key, id, now, false).1[ids_in(wire.take(i)) as int],
                wire[i],
            ),
        !runnable(wire, None, ts, key, id, now, false).0,
        runnable(wire, None, ts, key, id, now, true).0,
        runnable(wire, None, ts, key, id, now, true).1.len() == 0,
{
    every_named_job_is_listed(wire);
    if wire.len() == 0 {
        reveal(Seq::filter);
    }
}

/// What is run of a dispatch whose signature holds is every named job of the signed list, and
/// the signed flag decides on enforcement, whatever held before.
pub proof fn a_signed_dispatch_runs_whole(
    wire: Seq<JsonV>,
    sig: Seq<char>,
    ts: Option<JsonV>,
    key: Seq<char>,
    id: Seq<char>,
    now: int,
    enforced: bool,
    flag: bool,
    signed: Seq<JsonV>,
)
    requires
        wire.len() > 0,
        sig.len() > 0,
        key.len() > 0,
        signed_jobs(crypto::recovered(key, sig, MAX_DISPATCH as nat), wire, ts, id, now) == Some(
            (flag, signed),
        ),
    ensures
        ({
            let r = runnable(wire, Some(JsonV::Str(sig)), ts, key, id, now, enforced);
            &&& r.0 == flag
            &&& r.1.len() == ids_in(signed)
            &&& forall|i: int|
                0 <= i < signed.len() && has_id(#[trigger] signed[i]) ==> is_job_of(
                    r.1[ids_in(signed.take(i)) as int],
                    signed[i],
                )
        }),
{
    every_named_job_is_listed(signed);
}

/// The text of a dispatch as the console signs it.
pub open spec fn dispatch_text(id: Seq<char>, ts: int, flag: Seq<char>, doc: Seq<char>) -> Seq<char> {
    "CONSOLE-JOBS"@ + seq!['\n'] + (id + seq!['\n'] + (num::dec_int(ts) + seq!['\n'] + (flag + seq![
        '\n',
    ] + doc)))
}

proof fn lemma_no_line(n: int)
    ensures
        !num::dec_int(n).contains('\n'),
{
    crate::num::signed_decimal_round_trip(n, n, if n < 0 {
        0
    } else {
        n as nat
    });
    let s = num::dec_int(n);
    if s.contains('\n') {
        let i = choose|i: int| 0 <= i < s.len() && s[i] == '\n';
        if s[0] == '-' {
            let t = s.drop_first();
            assert(num::all_digits(t));
            assert(i > 0);
            assert(t[i - 1] == s[i]);
            assert(num::is_digit(t[i - 1]));
        } else if s[0] == '+' {
            let t = s.drop_first();
            assert(num::all_digits(t));
            assert(i > 0);
            assert(t[i - 1] == s[i]);
            assert(num::is_digit(t[i - 1]));
        } else {
            assert(num::all_digits(s));
            assert(num::is_digit(s[i]));
        }
    }
}

/// A dispatch that was signed for a device is read as what it says: its time, whether signatures
/// are enforced, and its jobs. For any other device it is none.
pub proof fn a_dispatch_is_read_back(
    id: Seq<char>,
    ts: int,
    flag: Seq<char>,
    doc: Seq<char>,
    other: Seq<char>,
)
    requires
        i64::MIN <= ts <= i64::MAX,
        !id.contains('\n'),
        !flag.contains('\n'),
    ensures
        dispatch_of(dispatch_text(id, ts, flag, doc), id) == Some(
            DispatchV { ts, enforce: flag == "1"@, doc },
        ),
        other != id ==> dispatch_of(dispatch_text(id, ts, flag, doc), other) is None,
{
    let tag = "CONSOLE-JOBS"@;
    reveal_strlit("CONSOLE-JOBS");
    assert(!tag.contains('\n')) by {
        if tag.contains('\n') {
            let i = choose|i: int| 0 <= i < tag.len() && tag[i] == '\n';
            assert(false);
        }
    }
    lemma_no_line(ts);
    let r3 = flag + seq!['\n'] + doc;
    let r2 = num::dec_int(ts) + seq!['\n'] + r3;
    let r1 = id + seq!['\n'] + r2;
    crate::policy::a_line_is_cut_off(tag, r1);
    crate::policy::a_line_is_cut_off(id, r2);
    crate::policy::a_line_is_cut_off(num::dec_int(ts), r3);
    crate::policy::a_line_is_cut_off(flag, doc);
    crate::num::signed_decimal_round_trip(ts, i64::MIN as int, i64::MAX as nat);
}

/// The jobs of a signed dispatch hold for its device, within five minutes of its time, where the
/// announced time is that of the dispatch and the jobs that came are those that were signed; and
/// nowhere else.
pub proof fn a_fresh_dispatch_holds_for_its_device(
    id: Seq<char>,
    ts: int,
    flag: Seq<char>,
    doc: Seq<char>,
    s: Seq<JsonV>,
    wire: Seq<JsonV>,
    announced: Option<JsonV>,
    device: Seq<char>,
    now: int,
)
    requires
        i64::MIN <= ts <= i64::MAX,
        !id.contains('\n'),
        !flag.contains('\n'),
        json::parsed(doc) == Some(JsonV::Arr(s)),
    ensures
        ({
            let message = Some(vstd::utf8::encode_utf8(dispatch_text(id, ts, flag, doc)));
            let held = signed_jobs(message, wire, announced, device, now);
            let owed = device == id && -300 <= now - ts <= 300 && (announced matches Some(
                JsonV::Int(a),
            ) ==> a == ts || a < i64::MIN || a > i64::MAX) && json::same_value(JsonV::Arr(s), JsonV::Arr(wire));
            &&& owed ==> held == Some((flag == "1"@, s))
            &&& !owed ==> held is None
        }),
{
    let t = dispatch_text(id, ts, flag, doc);
    vstd::utf8::encode_utf8_decode_utf8(t);
    vstd::utf8::encode_utf8_valid_utf8(t);
    a_dispatch_is_read_back(id, ts, flag, doc, device);
}

/// Without a message that was signed nothing holds.
pub proof fn an_unsigned_dispatch_holds_nowhere(
    wire: Seq<JsonV>,
    ts: Option<JsonV>,
    id: Seq<char>,
    now: int,
)
    ensures
        signed_jobs(None, wire, ts, id, now) is None,
{
}

/// A job is run only where the console says that it is claimed. A console that is not reached is
/// asked again as long as tries are left.
pub proof fn a_claim_is_decided_by_the_reply(reply: Seq<char>, left: u32)
    ensures
        claim_v(Some(reply), left as int) == (if text::trim_v(reply) == "JOB_CLAIMED"@ {
            ClaimStep::Granted
        } else {
            ClaimStep::Refused
        }),
        left > 1 ==> claim_v(None, left as int) == ClaimStep::Retry((left - 1) as u32),
        left <= 1 ==> claim_v(None, left as int) == ClaimStep::GiveUp,
{
}

/// The origin of the console is what stands before its interface.
pub proof fn the_origin_stands_before_the_interface(origin: Seq<char>, rest: Seq<char>)
    requires
        forall|i: int|
            0 <= i < origin.len() ==> !text::prefixed(
                #[trigger] (origin + "/api/"@ + rest).skip(i),
                "/api/"@,
            ),
    ensures
        origin_v(origin + "/api/"@ + rest) == origin,
{
    crate::text::the_first_occurrence_is_found(origin, "/api/"@, rest);
}

/// What is signed names the device, the job and the moment, each on its line, behind what it is
/// for; and what is sent carries the same with the signature.
pub proof fn what_is_sent_is_what_is_signed(
    device: Seq<char>,
    job: Seq<char>,
    ts: int,
    sig: Seq<char>,
    status: Seq<char>,
    result: Seq<char>,
)
    ensures
        list_message(device, ts) == "CONSOLE-DEVICE-JOBS\n"@ + device + "\n"@ + num::dec_int(ts),
        claim_message(device, job, ts) == "CONSOLE-DEVICE-JOB-CLAIM\n"@ + device + "\n"@ + job
            + "\n"@ + num::dec_int(ts),
        result_message(device, job, status, result) == device + "\n"@ + job + "\n"@ + status + "\n"@
            + result,
        signed_body(device, ts, sig).member("device_id"@) == Some(JsonV::Str(device)),
        signed_body(device, ts, sig).member("ts"@) == Some(JsonV::Int(ts)),
        signed_body(device, ts, sig).member("sig"@) == Some(JsonV::Str(sig)),
        result_body(status, result, sig).member("status"@) == Some(JsonV::Str(status)),
        result_body(status, result, sig).member("result"@) == Some(JsonV::Str(result)),
        result_body(status, result, sig).member("sig"@) == Some(JsonV::Str(sig)),
{
    reveal_strlit("device_id");
    reveal_strlit("ts");
    reveal_strlit("sig");
    reveal_strlit("status");
    reveal_strlit("result");
    assert("device_id"@.len() == 9 && "ts"@.len() == 2 && "sig"@.len() == 3);
    assert("status"@.len() == 6 && "result"@.len() == 6 && "status"@[0] == 's' && "result"@[0]
        == 'r');
}

/// An enrolment has pinned the key only where the console says both that it took it and that it
/// is the pinned one.
pub proof fn a_key_is_pinned_where_the_console_says_so(v: JsonV)
    ensures
        enrolment_v(Some(v)) is Pinned <==> v.member("ok"@) == Some(JsonV::Bool(true)) && v.member(
            "pinned"@,
        ) == Some(JsonV::Bool(true)),
        enrolment_v(Some(v)) is Failed <==> v.member("ok"@) != Some(JsonV::Bool(true)),
        enrolment_v(None) is Failed,
{
}

/// A dispatch without a signature counts as unsigned; one with a signature is valid exactly where
/// there is a key and what it signed holds, and brings the jobs that were signed.
pub proof fn a_verdict_goes_by_the_signature(
    r: JobsVerdict,
    wire: Seq<JsonV>,
    sig: Option<JsonV>,
    ts: Option<JsonV>,
    key: Seq<char>,
    id: Seq<char>,
    now: int,
    s: Seq<char>,
)
    requires
        verdict_ok(r, wire, sig, ts, key, id, now),
    ensures
        sig is None ==> r is Absent,
        sig == Some(JsonV::Str(s)) && s.len() == 0 ==> r is Absent,
        sig == Some(JsonV::Str(s)) && s.len() > 0 ==> !(r is Absent),
        sig == Some(JsonV::Str(s)) && s.len() > 0 && key.len() == 0 ==> r is Invalid,
        sig == Some(JsonV::Str(s)) && s.len() > 0 && key.len() > 0 ==> ({
            let held = signed_jobs(crypto::recovered(key, s, 262_144), wire, ts, id, now);
            &&& r is Valid <==> held is Some
            &&& r is Valid ==> r->enforce == (held->0).0 && json::models(r->jobs@) == (held->0).1
        }),
{
}

/// A job is what its value says.
pub proof fn a_job_is_what_its_value_says(j: JsonV, id: Seq<char>, op: Seq<char>, params: Seq<char>)
    requires
        j.member("id"@) == Some(JsonV::Str(id)),
        j.member("op"@) == Some(JsonV::Str(op)),
    ensures
        job_of(j).id == id,
        job_of(j).op == op,
        j.member("params"@) == Some(JsonV::Str(params)) ==> job_of(j).params == Some(params),
        j.member("params"@) is None ==> job_of(j).params is None,
{
}

/// A reply says of the jobs what its members say.
pub proof fn a_reply_says_what_its_members_say(rsp: JsonV, p: Poll)
    requires
        says(rsp, p),
    ensures
        p.claims <==> rsp.member("claims"@) == Some(JsonV::Bool(true)),
        json::opt_model(p.items) == rsp.member("items"@),
        json::opt_model(p.sig) == rsp.member("jobs_sig"@),
        json::opt_model(p.ts) == rsp.member("jobs_ts"@),
        rsp.member("started"@) is None ==> p.started@.len() == 0,
{
    if rsp.member("started"@) is None {
        assert(text::texts(p.started@).len() == 0);
    }
}

} // verus!
