//! The record of the jobs that a device has taken up.
//!
//! Each job has an entry with the time it was taken up (`t`), whether it is done (`d`) and
//! whether its result reached the console (`r`); a run that was started leaves its process
//! (`p`, `c`), its directory (`x`), the moment it passed its bound (`o`) and the moment it was
//! ended on request (`k`).
use vstd::prelude::*;

use crate::json;
use crate::num;
use crate::text;
use crate::json::{from_text, insert_member, sorted_members, to_text, Json, JsonV};
use crate::num::{dec_u64, parse_u64};
use crate::text::{has_name, same};

verus! {

/// How long a job that was taken up is not taken up again, in seconds.
pub const JOBS_SEEN_TTL_SECS: i64 = 300;

/// How long a finished job that was reported is remembered, in seconds.
pub const JOB_POISON_TTL_SECS: i64 = 604_800;

/// The most entries that the record keeps.
pub const JOBS_SEEN_MAX: usize = 256;

/// The stamp of a run that passed its bound.
pub const SEEN_OVER_TIME: &'static str = "o";

/// The stamp of a run that was ended on request.
pub const SEEN_KILLED: &'static str = "k";

/// The record, in the order of the job ids.
pub struct SeenMap {
    pub entries: Vec<(String, Json)>,
}

impl View for SeenMap {
    type V = Map<Seq<char>, JsonV>;

    open spec fn view(&self) -> Map<Seq<char>, JsonV> {
        json::members(self.entries@)
    }
}

impl SeenMap {
    /// The entries stand in the order of the job ids, each id once.
    pub open spec fn wf(self) -> bool {
        json::ordered(self.entries@)
    }
}

/// The record that a stored text holds; none where it holds no object.
pub open spec fn stored_seen(stored: Seq<char>) -> Map<Seq<char>, JsonV> {
    match json::parsed(stored) {
        Some(JsonV::Obj(m)) => m,
        _ => Map::empty(),
    }
}

/// Reads the stored record.
pub fn read_seen(stored: &str) -> (r: SeenMap)
    ensures
        r.wf(),
        r@ == stored_seen(stored@),
{
    match from_text(stored) {
        Some(j) => SeenMap { entries: sorted_members(&j) },
        None => {
            let r = SeenMap { entries: Vec::new() };
            assert(r@ =~= Map::<Seq<char>, JsonV>::empty());
            r
        },
    }
}

/// Writes the record as text. A record of texts, integers and truth values reads back as it is.
pub fn write_seen(map: SeenMap) -> (r: String)
    ensures
        r@ == json::compact(JsonV::Obj(map@)),
        json::plain(JsonV::Obj(map@), 64) ==> stored_seen(r@) == map@,
{
    let j = Json::Obj(map.entries);
    to_text(&j)
}

/// The time, completion and acknowledgement of an entry. A bare number is a time alone.
pub open spec fn stamp(v: JsonV) -> Option<(int, bool, bool)> {
    match v.int64() {
        Some(t) => Some((t, false, false)),
        None => match v.member_int("t"@) {
            Some(t) => Some(
                (t, v.member_truth("d"@) == Some(true), v.member_truth("r"@) == Some(true)),
            ),
            None => None,
        },
    }
}

/// The time, completion and acknowledgement of an entry.
pub fn seen_entry(v: &Json) -> (r: Option<(i64, bool, bool)>)
    ensures
        match r {
            Some((t, d, p)) => stamp(v@) == Some((t as int, d, p)),
            None => stamp(v@) is None,
        },
{
    if let Some(t) = v.as_i64() {
        return Some((t, false, false));
    }
    match v.get_i64("t") {
        Some(t) => {
            let d = match v.get_bool("d") {
                Some(b) => b,
                None => false,
            };
            let p = match v.get_bool("r") {
                Some(b) => b,
                None => false,
            };
            Some((t, d, p))
        },
        None => None,
    }
}

/// An entry speaks of a run that was started: its process, its directory or its bound.
pub open spec fn run_recorded(v: JsonV) -> bool {
    v.member("p"@) is Some || v.member("x"@) is Some || v.member(SEEN_OVER_TIME@) is Some
}

/// Whether an entry speaks of a run that was started.
pub fn records_a_run(v: &Json) -> (r: bool)
    ensures
        r == run_recorded(v@),
{
    v.get("p").is_some() || v.get("x").is_some() || v.get(SEEN_OVER_TIME).is_some()
}

/// The distance of two times.
pub open spec fn apart(a: int, b: int) -> int {
    if a >= b {
        a - b
    } else {
        b - a
    }
}

/// Whether two times are at most so many seconds apart.
pub fn within(a: i64, b: i64, secs: i64) -> (r: bool)
    ensures
        r == (apart(a as int, b as int) <= secs),
{
    let d: i128 = a as i128 - b as i128;
    let e: i128 = if d >= 0 {
        d
    } else {
        -d
    };
    e <= secs as i128
}

/// An entry stays in the record: a run or a result that the console has not been told of stays
/// at any age, anything else for its time.
pub open spec fn kept(v: JsonV, now: int) -> bool {
    match stamp(v) {
        Some((t, done, reported)) => if !reported && (done || run_recorded(v)) {
            true
        } else {
            apart(now, t) <= (if done {
                JOB_POISON_TTL_SECS
            } else {
                JOBS_SEEN_TTL_SECS
            })
        },
        None => false,
    }
}

fn is_kept(v: &Json, now: i64) -> (r: bool)
    ensures
        r == kept(v@, now as int),
{
    match seen_entry(v) {
        Some((t, done, reported)) => if !reported && (done || records_a_run(v)) {
            true
        } else {
            within(
                now,
                t,
                if done {
                    JOB_POISON_TTL_SECS
                } else {
                    JOBS_SEEN_TTL_SECS
                },
            )
        },
        None => false,
    }
}

/// The record without what has aged out.
pub open spec fn retained(m: Map<Seq<char>, JsonV>, now: int) -> Map<Seq<char>, JsonV> {
    m.restrict(Set::new(|k: Seq<char>| m.contains_key(k) && kept(m[k], now)))
}

/// What a dispatch of a job does.
#[derive(Clone, Copy, PartialEq, Eq, Structural)]
pub enum JobGate {
    /// The job is to be run.
    Run,
    /// The job is going on, or was taken up a moment ago.
    Skip,
    /// The job ran to completion here.
    AlreadyRan,
}

/// What is done with a job, given what the record holds of it.
pub open spec fn gate_of(entry: Option<JsonV>, now: int) -> JobGate {
    match entry {
        Some(v) => match stamp(v) {
            Some((t, done, _)) => if done {
                JobGate::AlreadyRan
            } else if apart(now, t) <= JOBS_SEEN_TTL_SECS || run_recorded(v) {
                JobGate::Skip
            } else {
                JobGate::Run
            },
            None => if run_recorded(v) {
                JobGate::Skip
            } else {
                JobGate::Run
            },
        },
        None => JobGate::Run,
    }
}

/// What is done with a job, given its entry.
pub fn gate(entry: Option<&Json>, now: i64) -> (r: JobGate)
    ensures
        r == gate_of(json::opt_ref(entry), now as int),
{
    match entry {
        Some(v) => {
            if let Some((t, done, _)) = seen_entry(v) {
                if done {
                    return JobGate::AlreadyRan;
                }
                if within(now, t, JOBS_SEEN_TTL_SECS) {
                    return JobGate::Skip;
                }
            }
            if records_a_run(v) {
                JobGate::Skip
            } else {
                JobGate::Run
            }
        },
        None => JobGate::Run,
    }
}

/// The entry of a job in a record.
pub open spec fn entry_in(m: Map<Seq<char>, JsonV>, id: Seq<char>) -> Option<JsonV> {
    if m.contains_key(id) {
        Some(m[id])
    } else {
        None
    }
}

/// The entry of a job that is taken up now.
pub open spec fn fresh(now: int) -> JsonV {
    JsonV::empty().with("t"@, JsonV::Int(now))
}

/// The record after a dispatch, before its size is held.
pub open spec fn dispatched(m: Map<Seq<char>, JsonV>, id: Seq<char>, now: int) -> Map<
    Seq<char>,
    JsonV,
> {
    let left = retained(m, now);
    if gate_of(entry_in(left, id), now) == JobGate::Run {
        left.insert(id, fresh(now))
    } else {
        left
    }
}

/// How dear an entry is when the record is full: reported entries and bare stamps go first,
/// then finished work, then runs that have ended, then runs that are going.
pub open spec fn rank(v: JsonV, live: bool) -> int {
    let (reported, done) = match stamp(v) {
        Some((_, d, r)) => (r, d),
        None => (false, false),
    };
    if reported {
        0
    } else if done {
        1
    } else if run_recorded(v) {
        if live {
            3
        } else {
            2
        }
    } else {
        0
    }
}

/// The time of an entry, for its age.
pub open spec fn entry_time(v: JsonV) -> int {
    match stamp(v) {
        Some((t, _, _)) => t,
        None => 0,
    }
}

/// One entry goes before another when the record is full: by rank, then by age, then by id.
pub open spec fn goes_first(
    m: Map<Seq<char>, JsonV>,
    live: Seq<Seq<char>>,
    a: Seq<char>,
    b: Seq<char>,
) -> bool {
    let ra = rank(m[a], live.contains(a));
    let rb = rank(m[b], live.contains(b));
    let ta = entry_time(m[a]);
    let tb = entry_time(m[b]);
    ra < rb || (ra == rb && (ta < tb || (ta == tb && text::before(a, b))))
}

/// A record held to its size: nothing changes in a record that fits; of a larger one exactly
/// as many entries are left as fit, the job dispatched now among them, and those that went
/// were the first to go.
pub open spec fn trimmed(
    m: Map<Seq<char>, JsonV>,
    r: Map<Seq<char>, JsonV>,
    id: Seq<char>,
    live: Seq<Seq<char>>,
) -> bool {
    if m.dom().len() <= JOBS_SEEN_MAX {
        r == m
    } else {
        &&& r.dom().len() == JOBS_SEEN_MAX
        &&& r.submap_of(m)
        &&& m.contains_key(id) ==> r.contains_key(id)
        &&& forall|a: Seq<char>, b: Seq<char>|
            #![trigger m.contains_key(a), r.contains_key(b)]
            m.contains_key(a) && !r.contains_key(a) && r.contains_key(b) && b != id ==> goes_first(
                m,
                live,
                a,
                b,
            )
    }
}

impl SeenMap {
    /// The entry of a job.
    pub fn get(&self, id: &str) -> (r: Option<&Json>)
        requires
            self.wf(),
        ensures
            json::opt_ref(r) == entry_in(self@, id@),
    {
        proof {
            json::lemma_ordered_distinct(self.entries@);
            json::lemma_members_distinct(self.entries@);
        }
        let mut i: usize = 0;
        while i < self.entries.len()
            invariant
                i <= self.entries@.len(),
                forall|k: int| 0 <= k < i ==> (#[trigger] self.entries@[k]).0@ != id@,
                forall|k: int|
                    0 <= k < self.entries@.len() ==> self@.contains_key(
                        (#[trigger] self.entries@[k]).0@,
                    ) && self@[self.entries@[k].0@] == self.entries@[k].1@,
            decreases self.entries@.len() - i,
        {
            if same(self.entries[i].0.as_str(), id) {
                assert(self@.contains_key(self.entries@[i as int].0@));
                return Some(&self.entries[i].1);
            }
            i = i + 1;
        }
        proof {
            if self@.contains_key(id@) {
                let k = choose|k: int|
                    0 <= k < self.entries@.len() && (#[trigger] self.entries@[k]).0@ == id@;
                assert(self.entries@[k].0@ != id@);
            }
        }
        None
    }

    /// Sets the entry of a job.
    pub fn put(&mut self, id: &str, v: Json)
        requires
            old(self).wf(),
        ensures
            final(self).wf(),
            final(self)@ == old(self)@.insert(id@, v@),
    {
        insert_member(&mut self.entries, id.to_owned(), v);
    }

    /// Drops what has aged out.
    fn retain(&mut self, now: i64)
        requires
            old(self).wf(),
        ensures
            final(self).wf(),
            final(self)@ == retained(old(self)@, now as int),
    {
        let ghost s = self.entries@;
        let mut out: Vec<(String, Json)> = Vec::new();
        let mut i: usize = 0;
        proof {
            json::lemma_ordered_distinct(s);
            assert(json::members(s.take(0)) =~= Map::<Seq<char>, JsonV>::empty());
            assert(json::members(out@) =~= retained(json::members(s.take(0)), now as int));
        }
        while i < self.entries.len()
            invariant
                i <= s.len(),
                s == self.entries@,
                self.entries@ == old(self).entries@,
                json::ordered(s),
                forall|a: int, b: int|
                    0 <= a < b < s.len() ==> (#[trigger] s[a]).0@ != (#[trigger] s[b]).0@,
                json::ordered(out@),
                forall|a: int, b: int|
                    0 <= a < out@.len() && i <= b < s.len() ==> text::before(
                        (#[trigger] out@[a]).0@,
                        (#[trigger] s[b]).0@,
                    ),
                json::members(out@) == retained(json::members(s.take(i as int)), now as int),
            decreases s.len() - i,
        {
            let ghost m = json::members(s.take(i as int));
            let ghost o = out@;
            let ghost k = s[i as int].0@;
            let ghost v = s[i as int].1@;
            proof {
                assert(s.take(i + 1).drop_last() == s.take(i as int));
                assert(json::members(s.take(i + 1)) == m.insert(k, v));
                let t = s.take(i as int);
                assert forall|a: int, b: int| 0 <= a < b < t.len() implies (#[trigger] t[a]).0@
                    != (#[trigger] t[b]).0@ by {
                    assert(t[a] == s[a] && t[b] == s[b]);
                }
                json::lemma_members_distinct(t);
                if m.contains_key(k) {
                    let a = choose|a: int| 0 <= a < t.len() && (#[trigger] t[a]).0@ == k;
                    assert(s[a].0@ == k);
                }
            }
            if is_kept(&self.entries[i].1, now) {
                out.push((self.entries[i].0.clone(), self.entries[i].1.copy()));
                assert(out@.drop_last() == o);
                assert(json::members(out@) == json::members(o).insert(k, v));
                assert(json::members(out@) =~= retained(json::members(s.take(i + 1)), now as int));
            } else {
                assert(json::members(out@) =~= retained(json::members(s.take(i + 1)), now as int));
            }
            i = i + 1;
        }
        assert(s.take(i as int) == s);
        self.entries = out;
    }
}

/// The rank of an entry.
fn rank_of(v: &Json, live: bool) -> (r: u8)
    ensures
        r == rank(v@, live),
{
    let (done, reported) = match seen_entry(v) {
        Some((_, d, r)) => (d, r),
        None => (false, false),
    };
    if reported {
        0
    } else if done {
        1
    } else if records_a_run(v) {
        if live {
            3
        } else {
            2
        }
    } else {
        0
    }
}

fn time_of(v: &Json) -> (r: i64)
    ensures
        r == entry_time(v@),
{
    match seen_entry(v) {
        Some((t, _, _)) => t,
        None => 0,
    }
}

/// The entry that goes first when the record is full; never the job dispatched now.
fn first_to_go(map: &SeenMap, id: &str, live: &Vec<String>) -> (r: usize)
    requires
        map.wf(),
        map.entries@.len() >= 2,
    ensures
        r < map.entries@.len(),
        map.entries@[r as int].0@ != id@,
        forall|j: int|
            0 <= j < map.entries@.len() && j != r && (#[trigger] map.entries@[j]).0@ != id@
                ==> goes_first(map@, text::texts(live@), map.entries@[r as int].0@, map.entries@[j].0@),
{
    let ghost s = map.entries@;
    let ghost m = map@;
    let ghost l = text::texts(live@);
    proof {
        json::lemma_ordered_distinct(s);
        json::lemma_members_distinct(s);
    }
    let mut best: Option<(usize, u8, i64)> = None;
    let mut i: usize = 0;
    while i < map.entries.len()
        invariant
            i <= s.len(),
            s == map.entries@,
            m == map@,
            l == text::texts(live@),
            s.len() >= 2,
            json::ordered(s),
            forall|a: int, b: int|
                0 <= a < b < s.len() ==> (#[trigger] s[a]).0@ != (#[trigger] s[b]).0@,
            forall|k: int|
                0 <= k < s.len() ==> m.contains_key((#[trigger] s[k]).0@) && m[s[k].0@] == s[k].1@,
            match best {
                Some((b, rb, tb)) => {
                    &&& b < i
                    &&& s[b as int].0@ != id@
                    &&& rb == rank(s[b as int].1@, l.contains(s[b as int].0@))
                    &&& tb == entry_time(s[b as int].1@)
                    &&& forall|j: int|
                        0 <= j < i && j != b && (#[trigger] s[j]).0@ != id@ ==> goes_first(
                            m,
                            l,
                            s[b as int].0@,
                            s[j].0@,
                        )
                },
                None => forall|j: int| 0 <= j < i ==> (#[trigger] s[j]).0@ == id@,
            },
        decreases s.len() - i,
    {
        if !same(map.entries[i].0.as_str(), id) {
            let live_now = has_name(live, map.entries[i].0.as_str());
            let ri: u8 = rank_of(&map.entries[i].1, live_now);
            let ti: i64 = time_of(&map.entries[i].1);
            proof {
                assert(m[s[i as int].0@] == s[i as int].1@);
            }
            match best {
                None => {
                    best = Some((i, ri, ti));
                },
                Some((b, rb, tb)) => {
                    proof {
                        assert(text::before(s[b as int].0@, s[i as int].0@));
                        assert(m[s[b as int].0@] == s[b as int].1@);
                    }
                    if ri < rb || (ri == rb && ti < tb) {
                        best = Some((i, ri, ti));
                    }
                },
            }
        }
        i = i + 1;
    }
    match best {
        Some((b, _, _)) => b,
        None => {
            proof {
                assert(s[0].0@ == id@ && s[1].0@ == id@);
            }
            0
        },
    }
}

proof fn lemma_remove_entry(s: Seq<(String, Json)>, p: int)
    requires
        json::ordered(s),
        0 <= p < s.len(),
    ensures
        json::ordered(s.remove(p)),
        json::members(s.remove(p)) == json::members(s).remove(s[p].0@),
{
    let t = s.remove(p);
    assert forall|a: int, b: int| 0 <= a < b < t.len() implies text::before(
        (#[trigger] t[a]).0@,
        (#[trigger] t[b]).0@,
    ) by {
        let a0 = if a < p { a } else { a + 1 };
        let b0 = if b < p { b } else { b + 1 };
        assert(t[a] == s[a0] && t[b] == s[b0]);
    }
    json::lemma_ordered_distinct(s);
    json::lemma_ordered_distinct(t);
    json::lemma_members_distinct(s);
    json::lemma_members_distinct(t);
    let ms = json::members(s);
    let mt = json::members(t);
    let k0 = s[p].0@;
    assert forall|k: Seq<char>| mt.contains_key(k) <==> ms.remove(k0).contains_key(k) by {
        if mt.contains_key(k) {
            let a = choose|a: int| 0 <= a < t.len() && (#[trigger] t[a]).0@ == k;
            let a0 = if a < p { a } else { a + 1 };
            assert(s[a0] == t[a]);
            assert(s[a0].0@ != s[p].0@);
        }
        if ms.remove(k0).contains_key(k) {
            let a = choose|a: int| 0 <= a < s.len() && (#[trigger] s[a]).0@ == k;
            let a1 = if a < p { a } else { a - 1 };
            assert(t[a1] == s[a]);
        }
    }
    assert forall|k: Seq<char>| mt.contains_key(k) implies mt[k] == ms.remove(k0)[k] by {
        let a = choose|a: int| 0 <= a < t.len() && (#[trigger] t[a]).0@ == k;
        let a0 = if a < p { a } else { a + 1 };
        assert(s[a0] == t[a]);
    }
    assert(mt =~= ms.remove(k0));
}

/// Holds a record to its size.
fn trim_record(map: &mut SeenMap, id: &str, live: &Vec<String>)
    requires
        old(map).wf(),
    ensures
        final(map).wf(),
        trimmed(old(map)@, final(map)@, id@, text::texts(live@)),
{
    let ghost m = map@;
    let ghost l = text::texts(live@);
    let ghost n = map.entries@.len();
    proof {
        json::lemma_ordered_distinct(map.entries@);
        json::lemma_members_len(map.entries@);
    }
    while map.entries.len() > JOBS_SEEN_MAX
        invariant
            map.wf(),
            l == text::texts(live@),
            m.dom().finite(),
            m.dom().len() == n,
            map@.submap_of(m),
            m.contains_key(id@) ==> map@.contains_key(id@),
            map.entries@.len() == n || map.entries@.len() >= JOBS_SEEN_MAX,
            map.entries@.len() <= n,
            map.entries@.len() == n ==> map@ == m,
            forall|a: Seq<char>, b: Seq<char>|
                #![trigger m.contains_key(a), map@.contains_key(b)]
                m.contains_key(a) && !map@.contains_key(a) && map@.contains_key(b) && b != id@
                    ==> goes_first(m, l, a, b),
        decreases map.entries@.len(),
    {
        let ghost s = map.entries@;
        let ghost c = map@;
        let p: usize = first_to_go(map, id, live);
        proof {
            lemma_remove_entry(s, p as int);
            json::lemma_ordered_distinct(s);
            json::lemma_members_distinct(s);
        }
        let ghost gone = s[p as int].0@;
        map.entries.remove(p);
        proof {
            assert(map@ == c.remove(gone));
            assert forall|k: Seq<char>| #[trigger]
                c.contains_key(k) implies m.contains_key(k) && m[k] == c[k] by {
                assert(c.dom().contains(k));
            }
            assert(map@.submap_of(m)) by {
                assert forall|k: Seq<char>| map@.dom().contains(k) implies #[trigger]
                    m.dom().contains(k) && map@[k] == m[k] by {
                    assert(c.contains_key(k));
                }
            }
            assert forall|a: Seq<char>, b: Seq<char>|
                #![trigger m.contains_key(a), map@.contains_key(b)]
                m.contains_key(a) && !map@.contains_key(a) && map@.contains_key(b) && b != id@
                implies goes_first(m, l, a, b) by {
                assert(c.contains_key(b));
                if a == gone {
                    let j = choose|j: int| 0 <= j < s.len() && (#[trigger] s[j]).0@ == b;
                    assert(goes_first(c, l, gone, s[j].0@));
                    assert(c.contains_key(gone));
                    assert(m[gone] == c[gone] && m[b] == c[b]);
                }
            }
        }
    }
    proof {
        json::lemma_ordered_distinct(map.entries@);
        json::lemma_members_len(map.entries@);
    }
}

/// Takes up a job or turns it away, and brings the record up to date: what has aged out goes,
/// a job to be run is entered, and the record is held to its size. `live` names the jobs whose
/// runs are going.
pub fn mark_job_seen(map: &mut SeenMap, id: &str, now: i64, live: &Vec<String>) -> (r: JobGate)
    requires
        old(map).wf(),
    ensures
        final(map).wf(),
        r == gate_of(entry_in(retained(old(map)@, now as int), id@), now as int),
        trimmed(dispatched(old(map)@, id@, now as int), final(map)@, id@, text::texts(live@)),
{
    map.retain(now);
    let run = gate(map.get(id), now);
    if run == JobGate::Run {
        map.put(id, Json::object().with("t", Json::Int(now)));
    }
    trim_record(map, id, live);
    run
}

/// The entry of a job with its time, completion and acknowledgement written out, and all else
/// as it was. A job without an entry gets one only where it is asked for.
pub open spec fn merge_base(entry: Option<JsonV>, create: bool, now: int) -> Option<JsonV> {
    let known = match entry {
        Some(v) => stamp(v),
        None => None,
    };
    let state = match known {
        Some(s) => Some(s),
        None => if create {
            Some((now, false, false))
        } else {
            None
        },
    };
    match state {
        Some((t, d, r)) => {
            let base = match entry {
                Some(JsonV::Obj(m)) => JsonV::Obj(m),
                _ => JsonV::empty(),
            };
            Some(
                base.with("t"@, JsonV::Int(t)).with("d"@, JsonV::Bool(d)).with(
                    "r"@,
                    JsonV::Bool(r),
                ),
            )
        },
        None => None,
    }
}

fn merged_entry(entry: Option<&Json>, create: bool, now: i64) -> (r: Option<Json>)
    ensures
        json::opt_model(r) == merge_base(json::opt_ref(entry), create, now as int),
{
    let known: Option<(i64, bool, bool)> = match entry {
        Some(v) => seen_entry(v),
        None => None,
    };
    let state: Option<(i64, bool, bool)> = match known {
        Some(s) => Some(s),
        None => if create {
            Some((now, false, false))
        } else {
            None
        },
    };
    match state {
        Some((t, d, p)) => {
            let base = match entry {
                Some(v) => if v.is_object() {
                    v.copy()
                } else {
                    Json::object()
                },
                None => Json::object(),
            };
            Some(
                base.with("t", Json::Int(t)).with("d", Json::Bool(d)).with("r", Json::Bool(p)),
            )
        },
        None => None,
    }
}

/// What becomes of the record of a run once the job is done.
#[derive(Clone, Copy, PartialEq, Eq, Structural)]
pub enum RunRecord {
    /// The run was answered for: its process and directory are forgotten.
    Spent,
    /// The answer is still to be fetched from what the run left behind.
    Kept,
}

/// An entry after its job was done.
pub open spec fn done_entry(base: JsonV, record: RunRecord) -> JsonV {
    let done = base.with("d"@, JsonV::Bool(true));
    if record == RunRecord::Spent {
        done.without("p"@).without("c"@).without("x"@)
    } else {
        done
    }
}

/// Notes that a job is done; a job whose entry is gone gets a new one.
pub fn mark_job_done(map: &mut SeenMap, id: &str, now: i64, record: RunRecord)
    requires
        old(map).wf(),
    ensures
        final(map).wf(),
        final(map)@ == old(map)@.insert(
            id@,
            done_entry(merge_base(entry_in(old(map)@, id@), true, now as int)->0, record),
        ),
{
    let base = merged_entry(map.get(id), true, now);
    if let Some(e) = base {
        let done = e.with("d", Json::Bool(true));
        let entry = if record == RunRecord::Spent {
            done.without("p").without("c").without("x")
        } else {
            done
        };
        map.put(id, entry);
    }
}

/// The record with the entry of a job changed by `f`, where the job has one.
pub open spec fn changed(
    m: Map<Seq<char>, JsonV>,
    id: Seq<char>,
    f: spec_fn(JsonV) -> JsonV,
) -> Map<Seq<char>, JsonV> {
    match merge_base(entry_in(m, id), false, 0) {
        Some(base) => m.insert(id, f(base)),
        None => m,
    }
}

/// Notes that the result of a job reached the console.
pub fn mark_job_reported(map: &mut SeenMap, id: &str)
    requires
        old(map).wf(),
    ensures
        final(map).wf(),
        final(map)@ == changed(
            old(map)@,
            id@,
            |e: JsonV| e.with("r"@, JsonV::Bool(true)),
        ),
{
    if let Some(e) = merged_entry(map.get(id), false, 0) {
        map.put(id, e.with("r", Json::Bool(true)));
    }
}

/// An entry with what is known of the process and the directory of its run.
pub open spec fn child_entry(
    base: JsonV,
    pid: Option<u32>,
    created: Option<u64>,
    dir: Option<Seq<char>>,
) -> JsonV {
    let a = match pid {
        Some(p) => base.with("p"@, JsonV::Int(p as int)),
        None => base,
    };
    let b = match created {
        Some(c) => a.with("c"@, JsonV::Str(num::dec(c as nat))),
        None => a,
    };
    match dir {
        Some(x) => b.with("x"@, JsonV::Str(x)),
        None => b,
    }
}

/// Notes the process and the directory of a job's run.
pub fn mark_job_child(
    map: &mut SeenMap,
    id: &str,
    pid: Option<u32>,
    created: Option<u64>,
    dir: Option<&str>,
)
    requires
        old(map).wf(),
    ensures
        final(map).wf(),
        final(map)@ == changed(
            old(map)@,
            id@,
            |e: JsonV| child_entry(e, pid, created, text::opt_str(dir)),
        ),
{
    if let Some(e) = merged_entry(map.get(id), false, 0) {
        let a = match pid {
            Some(p) => e.with("p", Json::UInt(p as u64)),
            None => e,
        };
        let b = match created {
            Some(c) => a.with("c", Json::Str(dec_u64(c))),
            None => a,
        };
        let c = match dir {
            Some(x) => b.with("x", Json::text(x)),
            None => b,
        };
        map.put(id, c);
    }
}

/// Notes the moment at which something happened to a job's run.
pub fn mark_job_stamp(map: &mut SeenMap, id: &str, key: &str, now: i64)
    requires
        old(map).wf(),
    ensures
        final(map).wf(),
        final(map)@ == changed(
            old(map)@,
            id@,
            |e: JsonV| e.with(key@, JsonV::Int(now as int)),
        ),
{
    if let Some(e) = merged_entry(map.get(id), false, 0) {
        map.put(id, e.with(key, Json::Int(now)));
    }
}

/// The moment that a stamp of a job notes.
pub open spec fn flag_of(m: Map<Seq<char>, JsonV>, id: Seq<char>, key: Seq<char>) -> Option<int> {
    match entry_in(m, id) {
        Some(v) => v.member_int(key),
        None => None,
    }
}

/// The moment that a stamp of a job notes.
pub fn seen_flag(map: &SeenMap, id: &str, key: &str) -> (r: Option<i64>)
    requires
        map.wf(),
    ensures
        match r {
            Some(t) => flag_of(map@, id@, key@) == Some(t as int),
            None => flag_of(map@, id@, key@) is None,
        },
{
    match map.get(id) {
        Some(v) => v.get_i64(key),
        None => None,
    }
}

/// The process of a run, where an entry names it and when it was created.
pub open spec fn child_v(v: JsonV) -> Option<(int, int)> {
    match (v.member_uint("p"@), v.member_text("c"@)) {
        (Some(p), Some(c)) => match num::parse_uint(c, u64::MAX as nat) {
            Some(t) => if p <= u32::MAX {
                Some((p, t as int))
            } else {
                None
            },
            None => None,
        },
        _ => None,
    }
}

/// The process of a run: its id and its creation time.
pub fn child_of(entry: &Json) -> (r: Option<(u32, u64)>)
    ensures
        match r {
            Some((p, c)) => child_v(entry@) == Some((p as int, c as int)),
            None => child_v(entry@) is None,
        },
{
    match (entry.get_u64("p"), entry.get_str("c")) {
        (Some(p), Some(c)) => match parse_u64(c) {
            Some(t) => if p <= u32::MAX as u64 {
                Some((p as u32, t))
            } else {
                None
            },
            None => None,
        },
        _ => None,
    }
}

/// The process of a job's run.
pub fn seen_child(map: &SeenMap, id: &str) -> (r: Option<(u32, u64)>)
    requires
        map.wf(),
    ensures
        ({
            let known = match entry_in(map@, id@) {
                Some(v) => child_v(v),
                None => None,
            };
            match r {
                Some((p, c)) => known == Some((p as int, c as int)),
                None => known is None,
            }
        }),
{
    match map.get(id) {
        Some(v) => child_of(v),
        None => None,
    }
}

/// The directory of a job's run.
pub open spec fn dir_of(m: Map<Seq<char>, JsonV>, id: Seq<char>) -> Option<Seq<char>> {
    match entry_in(m, id) {
        Some(v) => v.member_text("x"@),
        None => None,
    }
}

/// The directory of a job's run.
pub fn seen_job_dir(map: &SeenMap, id: &str) -> (r: Option<String>)
    requires
        map.wf(),
    ensures
        text::opt_text(r) == dir_of(map@, id@),
{
    match map.get(id) {
        Some(v) => match v.get_str("x") {
            Some(x) => Some(x.to_owned()),
            None => None,
        },
        None => None,
    }
}

/// The time, completion and acknowledgement of a job.
pub open spec fn state_of(m: Map<Seq<char>, JsonV>, id: Seq<char>) -> Option<(int, bool, bool)> {
    match entry_in(m, id) {
        Some(v) => stamp(v),
        None => None,
    }
}

/// The time, completion and acknowledgement of a job.
pub fn seen_state(map: &SeenMap, id: &str) -> (r: Option<(i64, bool, bool)>)
    requires
        map.wf(),
    ensures
        match r {
            Some((t, d, p)) => state_of(map@, id@) == Some((t as int, d, p)),
            None => state_of(map@, id@) is None,
        },
{
    match map.get(id) {
        Some(v) => seen_entry(v),
        None => None,
    }
}

/// How to find out whether a run is going.
pub enum LiveCheck {
    /// Its process is to be looked up by id and creation time.
    Process(u32, u64),
    /// Its directory is to be looked at.
    Directory,
    /// Nothing is known that could be going.
    Ended,
}

/// How to find out whether the run of an entry is going.
pub fn run_is_live(entry: &Json) -> (r: LiveCheck)
    ensures
        match r {
            LiveCheck::Process(p, c) => child_v(entry@) == Some((p as int, c as int)),
            LiveCheck::Directory => child_v(entry@) is None && entry@.member("x"@) is Some,
            LiveCheck::Ended => child_v(entry@) is None && entry@.member("x"@) is None,
        },
{
    match child_of(entry) {
        Some((p, c)) => LiveCheck::Process(p, c),
        None => if entry.get("x").is_some() {
            LiveCheck::Directory
        } else {
            LiveCheck::Ended
        },
    }
}

/// An entry whose rank depends on whether its run is going.
pub open spec fn rank_asks(v: JsonV) -> bool {
    rank(v, false) != rank(v, true)
}

/// The jobs, in order, whose entries meet a condition.
pub open spec fn selected(s: Seq<(String, Json)>, f: spec_fn(Seq<char>, JsonV) -> bool) -> Seq<
    Seq<char>,
>
    decreases s.len(),
{
    if s.len() == 0 {
        seq![]
    } else if f(s.last().0@, s.last().1@) {
        selected(s.drop_last(), f).push(s.last().0@)
    } else {
        selected(s.drop_last(), f)
    }
}

/// The jobs whose runs are to be looked up before the record is held to its size.
pub fn jobs_to_probe(map: &SeenMap, id: &str) -> (r: Vec<String>)
    ensures
        text::texts(r@) == selected(
            map.entries@,
            |k: Seq<char>, v: JsonV| k != id@ && rank_asks(v),
        ),
{
    let ghost f = |k: Seq<char>, v: JsonV| k != id@ && rank_asks(v);
    let ghost s = map.entries@;
    let mut out: Vec<String> = Vec::new();
    let mut i: usize = 0;
    while i < map.entries.len()
        invariant
            i <= s.len(),
            s == map.entries@,
            f == (|k: Seq<char>, v: JsonV| k != id@ && rank_asks(v)),
            text::texts(out@) == selected(s.take(i as int), f),
        decreases s.len() - i,
    {
        assert(s.take(i + 1).drop_last() == s.take(i as int));
        let asks = rank_of(&map.entries[i].1, false) != rank_of(&map.entries[i].1, true);
        if !same(map.entries[i].0.as_str(), id) && asks {
            let ghost o = out@;
            out.push(map.entries[i].0.clone());
            assert(text::texts(out@) =~= text::texts(o).push(s[i as int].0@));
        }
        i = i + 1;
    }
    assert(s.take(i as int) == s);
    out
}

/// A finished job whose result never reached the console.
pub open spec fn orphaned(v: JsonV) -> bool {
    stamp(v) matches Some((_, d, r)) && d && !r
}

/// The finished jobs whose results never reached the console.
pub fn orphaned_results(map: &SeenMap) -> (r: Vec<String>)
    ensures
        text::texts(r@) == selected(map.entries@, |k: Seq<char>, v: JsonV| orphaned(v)),
{
    let ghost f = |k: Seq<char>, v: JsonV| orphaned(v);
    let ghost s = map.entries@;
    let mut out: Vec<String> = Vec::new();
    let mut i: usize = 0;
    while i < map.entries.len()
        invariant
            i <= s.len(),
            s == map.entries@,
            f == (|k: Seq<char>, v: JsonV| orphaned(v)),
            text::texts(out@) == selected(s.take(i as int), f),
        decreases s.len() - i,
    {
        assert(s.take(i + 1).drop_last() == s.take(i as int));
        if let Some((_, d, p)) = seen_entry(&map.entries[i].1) {
            if d && !p {
                let ghost o = out@;
                out.push(map.entries[i].0.clone());
                assert(text::texts(out@) =~= text::texts(o).push(s[i as int].0@));
            }
        }
        i = i + 1;
    }
    assert(s.take(i as int) == s);
    out
}

/// The names of an entry's members are different names.
proof fn lemma_names()
    ensures
        "t"@ != "d"@,
        "t"@ != "r"@,
        "t"@ != "p"@,
        "t"@ != "c"@,
        "t"@ != "x"@,
        "t"@ != SEEN_OVER_TIME@,
        "d"@ != "r"@,
        "d"@ != "p"@,
        "d"@ != "c"@,
        "d"@ != "x"@,
        "d"@ != SEEN_OVER_TIME@,
        "r"@ != "p"@,
        "r"@ != "c"@,
        "r"@ != "x"@,
        "r"@ != SEEN_OVER_TIME@,
        "p"@ != "c"@,
        "p"@ != "x"@,
        "c"@ != "x"@,
{
    reveal_strlit("t");
    reveal_strlit("d");
    reveal_strlit("r");
    reveal_strlit("p");
    reveal_strlit("c");
    reveal_strlit("x");
    reveal_strlit("o");
    assert("t"@[0] == 't' && "d"@[0] == 'd' && "r"@[0] == 'r' && "p"@[0] == 'p' && "c"@[0] == 'c'
        && "x"@[0] == 'x' && "o"@[0] == 'o');
}

/// The entry of a job that was known keeps its state and every other member when it is merged.
pub proof fn merging_keeps_the_entry(v: JsonV, create: bool, now: int, k: Seq<char>)
    requires
        stamp(v) is Some,
        v is Obj,
    ensures
        merge_base(Some(v), create, now) is Some,
        stamp(merge_base(Some(v), create, now)->0) == stamp(v),
        k != "t"@ && k != "d"@ && k != "r"@ ==> merge_base(Some(v), create, now)->0.member(k)
            == v.member(k),
{
    lemma_names();
}

/// A run or a result that the console has not been told of never ages out.
pub proof fn untold_work_never_ages_out(v: JsonV, now: int)
    requires
        stamp(v) is Some,
        !(stamp(v)->0).2,
        (stamp(v)->0).1 || run_recorded(v),
    ensures
        kept(v, now),
{
}

/// A job that was done, and whose result has not reached the console, is never run again: at
/// whatever time it is dispatched, the record says that it already ran.
pub proof fn a_finished_job_is_never_run_again(
    m: Map<Seq<char>, JsonV>,
    id: Seq<char>,
    done_at: int,
    record: RunRecord,
    now: int,
)
    requires
        i64::MIN <= done_at <= i64::MAX,
        state_of(m, id) is Some ==> !(state_of(m, id)->0).2,
    ensures
        ({
            let after = m.insert(
                id,
                done_entry(merge_base(entry_in(m, id), true, done_at)->0, record),
            );
            gate_of(entry_in(retained(after, now), id), now) == JobGate::AlreadyRan
        }),
{
    lemma_names();
    let base = merge_base(entry_in(m, id), true, done_at)->0;
    let e = done_entry(base, record);
    assert(e is Obj);
    assert(e.member("d"@) == Some(JsonV::Bool(true)));
    assert(e.member("r"@) == Some(JsonV::Bool(false)));
    assert(e.member("t"@) == base.member("t"@));
    let after = m.insert(id, e);
    assert(kept(after[id], now));
    assert(retained(after, now).contains_key(id));
}

/// A run that was started, and of which the console has not been told, is never started again.
pub proof fn a_started_run_is_never_started_again(
    m: Map<Seq<char>, JsonV>,
    id: Seq<char>,
    pid: Option<u32>,
    created: Option<u64>,
    dir: Option<Seq<char>>,
    now: int,
)
    requires
        state_of(m, id) is Some,
        !(state_of(m, id)->0).2,
        pid is Some || dir is Some,
    ensures
        ({
            let after = changed(m, id, |e: JsonV| child_entry(e, pid, created, dir));
            gate_of(entry_in(retained(after, now), id), now) != JobGate::Run
        }),
{
    lemma_names();
    let base = merge_base(entry_in(m, id), false, 0)->0;
    let e = child_entry(base, pid, created, dir);
    let after = changed(m, id, |x: JsonV| child_entry(x, pid, created, dir));
    assert(after[id] == e);
    assert(e.member("r"@) == Some(JsonV::Bool(false)));
    assert(e.member("t"@) == base.member("t"@));
    assert(run_recorded(e));
    assert(kept(after[id], now));
    assert(retained(after, now).contains_key(id));
}

/// The record never grows past its size, and a job that is to be run is in it.
pub proof fn a_job_to_run_is_remembered(
    m: Map<Seq<char>, JsonV>,
    r: Map<Seq<char>, JsonV>,
    id: Seq<char>,
    now: int,
    live: Seq<Seq<char>>,
)
    requires
        trimmed(dispatched(m, id, now), r, id, live),
    ensures
        r.dom().len() <= JOBS_SEEN_MAX,
        gate_of(entry_in(retained(m, now), id), now) == JobGate::Run ==> entry_in(r, id) == Some(
            fresh(now),
        ),
{
    let d = dispatched(m, id, now);
    if gate_of(entry_in(retained(m, now), id), now) == JobGate::Run {
        assert(d.contains_key(id) && d[id] == fresh(now));
        assert(r.contains_key(id));
        assert(d.dom().contains(id) && r.dom().contains(id));
    }
}

/// A job that was taken up is not taken up again within its time.
pub proof fn a_second_dispatch_is_skipped(
    m: Map<Seq<char>, JsonV>,
    id: Seq<char>,
    taken: int,
    now: int,
)
    requires
        i64::MIN <= taken <= i64::MAX,
        entry_in(m, id) == Some(fresh(taken)),
        apart(now, taken) <= JOBS_SEEN_TTL_SECS,
    ensures
        gate_of(entry_in(retained(m, now), id), now) == JobGate::Skip,
{
    lemma_names();
    assert(stamp(fresh(taken)) == Some((taken, false, false)));
    assert(kept(m[id], now));
    assert(retained(m, now).contains_key(id));
}

/// An entry as the record writes it: its time, whether its job is done, and whether its result
/// was reported.
pub open spec fn entry_says(v: JsonV, t: int, done: bool, reported: bool) -> bool {
    &&& i64::MIN <= t <= i64::MAX
    &&& v.member("t"@) == Some(JsonV::Int(t))
    &&& done <==> v.member("d"@) == Some(JsonV::Bool(true))
    &&& reported <==> v.member("r"@) == Some(JsonV::Bool(true))
}

/// An entry holds a run: a process, a directory, or that it passed its bound.
pub open spec fn holds_run(v: JsonV) -> bool {
    v.member("p"@) is Some || v.member("x"@) is Some || v.member("o"@) is Some
}

/// What becomes of a dispatched job: one that is done is not run again and is said to have run;
/// one whose run is recorded, or that was taken up within five minutes, is passed over; any
/// other is run.
pub proof fn a_dispatched_job_is_run_once(v: JsonV, t: int, done: bool, reported: bool, now: int)
    requires
        entry_says(v, t, done, reported),
    ensures
        gate_of(Some(v), now) == JobGate::AlreadyRan <==> done,
        gate_of(Some(v), now) == JobGate::Skip <==> !done && (-300 <= now - t <= 300 || holds_run(
            v,
        )),
        gate_of(Some(v), now) == JobGate::Run <==> !done && !(-300 <= now - t <= 300)
            && !holds_run(v),
        gate_of(None, now) == JobGate::Run,
{
}

/// How long an entry is kept: for ever, where its work was not reported; a week, where it is
/// done and reported; five minutes, where it is no more than a dispatch.
pub proof fn entries_age_out(v: JsonV, t: int, done: bool, reported: bool, now: int)
    requires
        entry_says(v, t, done, reported),
    ensures
        !reported && (done || holds_run(v)) ==> kept(v, now),
        reported && done ==> (kept(v, now) <==> -604_800 <= now - t <= 604_800),
        !done && (reported || !holds_run(v)) ==> (kept(v, now) <==> -300 <= now - t <= 300),
{
}

/// An entry without a time is dropped; the others stay as they are as long as they are kept.
pub proof fn the_record_keeps_what_is_kept(m: Map<Seq<char>, JsonV>, id: Seq<char>, now: int)
    ensures
        retained(m, now).contains_key(id) <==> m.contains_key(id) && kept(m[id], now),
        retained(m, now).contains_key(id) ==> retained(m, now)[id] == m[id],
        m.contains_key(id) && stamp(m[id]) is None ==> !retained(m, now).contains_key(id),
{
}

/// A job that is to be run gets an entry of its time; no other entry changes.
pub proof fn a_dispatch_is_entered(m: Map<Seq<char>, JsonV>, id: Seq<char>, other: Seq<char>, now: int)
    requires
        i64::MIN <= now <= i64::MAX,
    ensures
        gate_of(entry_in(retained(m, now), id), now) == JobGate::Run ==> dispatched(
            m,
            id,
            now,
        ).contains_key(id) && entry_says(dispatched(m, id, now)[id], now, false, false)
            && !holds_run(dispatched(m, id, now)[id]),
        gate_of(entry_in(retained(m, now), id), now) != JobGate::Run ==> dispatched(m, id, now)
            == retained(m, now),
        other != id ==> entry_in(dispatched(m, id, now), other) == entry_in(
            retained(m, now),
            other,
        ),
{
    lemma_names();
}

/// The run that is written down for a job is the run that is read back, and the state of the
/// job stays what it was.
pub proof fn a_written_run_is_read_back(
    v: JsonV,
    t: int,
    done: bool,
    reported: bool,
    pid: u32,
    created: u64,
    dir: Seq<char>,
)
    requires
        v is Obj,
        entry_says(v, t, done, reported),
    ensures
        ({
            let e = child_entry(merge_base(Some(v), false, 0)->0, Some(pid), Some(created), Some(dir));
            &&& child_v(e) == Some((pid as int, created as int))
            &&& e.member_text("x"@) == Some(dir)
            &&& entry_says(e, t, done, reported)
        }),
        ({
            let e = child_entry(merge_base(Some(v), false, 0)->0, None, None, Some(dir));
            &&& e.member("p"@) == v.member("p"@)
            &&& e.member("c"@) == v.member("c"@)
            &&& e.member_text("x"@) == Some(dir)
        }),
{
    lemma_names();
    crate::num::decimal_round_trip(created as nat, u64::MAX as nat);
}

/// A job that is done is so written, whether or not it was known, and keeps its time and
/// whether it was reported. Its run is forgotten only where it was answered for.
pub proof fn a_done_job_is_written_down(
    v: JsonV,
    t: int,
    done: bool,
    reported: bool,
    now: int,
)
    requires
        v is Obj,
        entry_says(v, t, done, reported),
        i64::MIN <= now <= i64::MAX,
    ensures
        entry_says(
            done_entry(merge_base(Some(v), true, now)->0, RunRecord::Kept),
            t,
            true,
            reported,
        ),
        entry_says(
            done_entry(merge_base(Some(v), true, now)->0, RunRecord::Spent),
            t,
            true,
            reported,
        ),
        entry_says(done_entry(merge_base(None, true, now)->0, RunRecord::Spent), now, true, false),
        child_v(done_entry(merge_base(Some(v), true, now)->0, RunRecord::Kept)) == child_v(v),
        done_entry(merge_base(Some(v), true, now)->0, RunRecord::Kept).member("x"@) == v.member(
            "x"@,
        ),
        child_v(done_entry(merge_base(Some(v), true, now)->0, RunRecord::Spent)) is None,
        done_entry(merge_base(Some(v), true, now)->0, RunRecord::Spent).member("x"@) is None,
{
    lemma_names();
}

/// A change of a known job leaves the other jobs alone; a change of an unknown one changes
/// nothing.
pub proof fn a_change_concerns_one_job(
    m: Map<Seq<char>, JsonV>,
    id: Seq<char>,
    other: Seq<char>,
    f: spec_fn(JsonV) -> JsonV,
)
    ensures
        other != id ==> entry_in(changed(m, id, f), other) == entry_in(m, other),
        state_of(m, id) is None ==> changed(m, id, f) == m,
        state_of(m, id) is Some ==> changed(m, id, f).contains_key(id),
{
}

/// A job whose result was reported is so written and keeps the rest of its state.
pub proof fn a_reported_job_is_written_down(
    m: Map<Seq<char>, JsonV>,
    id: Seq<char>,
    t: int,
    done: bool,
    reported: bool,
)
    requires
        m.contains_key(id),
        m[id] is Obj,
        entry_says(m[id], t, done, reported),
    ensures
        entry_says(
            changed(m, id, |e: JsonV| e.with("r"@, JsonV::Bool(true)))[id],
            t,
            done,
            true,
        ),
{
    lemma_names();
}

/// Who is let go first where the record is too long: what was reported or is no more than a
/// dispatch, then what is done, then a run that is over, and last a run that is going; among
/// equals the oldest.
pub proof fn what_is_worth_least_goes_first(
    m: Map<Seq<char>, JsonV>,
    live: Seq<Seq<char>>,
    a: Seq<char>,
    b: Seq<char>,
    ta: int,
    tb: int,
    done: bool,
    done_b: bool,
    reported: bool,
    reported_b: bool,
)
    requires
        entry_says(m[a], ta, done, reported),
        entry_says(m[b], tb, done_b, reported_b),
    ensures
        (reported || (!done && !holds_run(m[a]))) && !reported_b && (done_b || holds_run(m[b]))
            ==> goes_first(m, live, a, b),
        !reported && done && !reported_b && !done_b && holds_run(m[b]) ==> goes_first(
            m,
            live,
            a,
            b,
        ),
        !reported && !done && holds_run(m[a]) && !live.contains(a) && !reported_b && !done_b
            && holds_run(m[b]) && live.contains(b) ==> goes_first(m, live, a, b),
        done == done_b && reported == reported_b && holds_run(m[a]) == holds_run(m[b])
            && live.contains(a) == live.contains(b) && ta < tb ==> goes_first(m, live, a, b),
        goes_first(m, live, a, b) ==> !goes_first(m, live, b, a),
{
    crate::text::lemma_before_total(a, b);
}

/// A process is asked after only where the answer matters: for a run that is neither done nor
/// reported.
pub proof fn only_open_runs_are_probed(v: JsonV, t: int, done: bool, reported: bool)
    requires
        entry_says(v, t, done, reported),
    ensures
        rank_asks(v) <==> !done && !reported && holds_run(v),
        orphaned(v) <==> done && !reported,
{
}

/// What is selected of the record is every entry that meets what is asked, in its order.
pub proof fn every_wanted_entry_is_selected(
    s: Seq<(String, Json)>,
    f: spec_fn(Seq<char>, JsonV) -> bool,
)
    ensures
        selected(s, f) == s.filter(|e: (String, Json)| f(e.0@, e.1@)).map_values(
            |e: (String, Json)| e.0@,
        ),
    decreases s.len(),
{
    let g = |e: (String, Json)| f(e.0@, e.1@);
    let h = |e: (String, Json)| e.0@;
    reveal(Seq::filter);
    if s.len() > 0 {
        every_wanted_entry_is_selected(s.drop_last(), f);
        if g(s.last()) {
            assert(s.filter(g) == s.drop_last().filter(g).push(s.last()));
            assert(s.filter(g).map_values(h) =~= s.drop_last().filter(g).map_values(h).push(
                h(s.last()),
            ));
        }
    }
    assert(selected(s, f) =~= s.filter(g).map_values(h));
}

/// The record is what its text holds, and nothing where that is no object; what is noted of a job
/// is what its entry says.
pub proof fn the_record_is_read_from_its_text(
    t: Seq<char>,
    m: Map<Seq<char>, JsonV>,
    id: Seq<char>,
    key: Seq<char>,
    dir: Seq<char>,
    n: int,
)
    requires
        i64::MIN <= n <= i64::MAX,
    ensures
        json::parsed(t) == Some(JsonV::Obj(m)) ==> stored_seen(t) == m,
        json::parsed(t) is None ==> stored_seen(t).dom().is_empty(),
        m.contains_key(id) && m[id].member(key) == Some(JsonV::Int(n)) ==> flag_of(m, id, key)
            == Some(n),
        m.contains_key(id) && m[id].member("x"@) == Some(JsonV::Str(dir)) ==> dir_of(m, id) == Some(
            dir,
        ),
        !m.contains_key(id) ==> flag_of(m, id, key) is None && dir_of(m, id) is None,
{
}

/// An entry without a readable time counts as the oldest there can be.
pub proof fn an_entry_without_a_time_is_the_oldest(v: JsonV, t: int)
    ensures
        stamp(v) is None ==> entry_time(v) == 0,
        stamp(v) matches Some(s) ==> entry_time(v) == s.0,
{
}

} // verus!
