//! Snapshots of a running machine: its processes, its services, and what its security and its
//! policies look like. They are collected only while somebody looks at them.
use vstd::prelude::*;

use crate::json;
use crate::num;
use crate::services;
use crate::text;
use crate::trust;
use crate::json::{to_text, Json, JsonV};
use crate::num::dec_u64;
use crate::policy::Overrides;
use crate::services::{
    cap_rows, service_list, PROCESS_CAP, PROCESS_ORDER, SERVICE_CAP, SERVICE_ORDER, Service,
};
use crate::text::{replace, same};
use crate::trust::sign_header;

verus! {

/// What a snapshot is of.
#[derive(PartialEq, Eq, Structural, Clone, Copy, Debug)]
pub enum SnapshotKind {
    Processes,
    Services,
    Defender,
    WinUpdate,
    Policy,
}

/// What a snapshot is of, by its name.
pub open spec fn kind_named(kind: Seq<char>) -> Option<SnapshotKind> {
    if kind == "processes"@ {
        Some(SnapshotKind::Processes)
    } else if kind == "services"@ {
        Some(SnapshotKind::Services)
    } else if kind == "defender"@ {
        Some(SnapshotKind::Defender)
    } else if kind == "winupdate"@ {
        Some(SnapshotKind::WinUpdate)
    } else if kind == "policy"@ {
        Some(SnapshotKind::Policy)
    } else {
        None
    }
}

/// What is to be collected for a name; nothing for a name that is not known.
pub fn collect(kind: &str) -> (r: Option<SnapshotKind>)
    ensures
        r == kind_named(kind@),
{
    if same(kind, "processes") {
        Some(SnapshotKind::Processes)
    } else if same(kind, "services") {
        Some(SnapshotKind::Services)
    } else if same(kind, "defender") {
        Some(SnapshotKind::Defender)
    } else if same(kind, "winupdate") {
        Some(SnapshotKind::WinUpdate)
    } else if same(kind, "policy") {
        Some(SnapshotKind::Policy)
    } else {
        None
    }
}

/// The snapshot where Windows says nothing of its updates.
pub open spec fn no_updates() -> JsonV {
    JsonV::empty().with("schema"@, JsonV::Int(2)).with("available"@, JsonV::Arr(seq![])).with(
        "installed"@,
        JsonV::Arr(seq![]),
    ).with("pending_reboot"@, JsonV::Bool(false))
}

/// The snapshot of the updates: what the script printed, or one without updates.
pub fn winupdate(printed: Option<Json>) -> (r: Json)
    ensures
        r@ == (match json::opt_model(printed) {
            Some(v) => v,
            None => no_updates(),
        }),
{
    match printed {
        Some(v) => v,
        None => {
            let none: Vec<Json> = Vec::new();
            let also: Vec<Json> = Vec::new();
            assert(json::models(none@) =~= Seq::<JsonV>::empty());
            assert(json::models(also@) =~= Seq::<JsonV>::empty());
            Json::object().with("schema", Json::UInt(2)).with("available", Json::array(none)).with(
                "installed",
                Json::array(also),
            ).with("pending_reboot", Json::Bool(false))
        },
    }
}

/// The snapshot of the machine's defence: what the script printed, or that there is none.
pub fn defender(printed: Option<Json>) -> (r: Json)
    ensures
        r@ == (match json::opt_model(printed) {
            Some(v) => v,
            None => JsonV::empty().with("available"@, JsonV::Bool(false)),
        }),
{
    match printed {
        Some(v) => v,
        None => Json::object().with("available", Json::Bool(false)),
    }
}

/// A member, or a value in its stead.
pub open spec fn member_or(v: JsonV, key: Seq<char>, other: JsonV) -> JsonV {
    match v.member(key) {
        Some(j) => j,
        None => other,
    }
}

fn get_or(v: &Json, key: &str, other: Json) -> (r: Json)
    ensures
        r@ == member_or(v@, key@, other@),
{
    match v.get(key) {
        Some(j) => j.copy(),
        None => other,
    }
}

/// The number of elements of a member; none where it is no list.
pub open spec fn count_of(v: JsonV, key: Seq<char>) -> JsonV {
    JsonV::Int(
        match v.member(key) {
            Some(j) => match j.elements() {
                Some(s) => s.len() as int,
                None => 0,
            },
            None => 0,
        },
    )
}

fn count(v: &Json, key: &str) -> (r: Json)
    ensures
        r@ == count_of(v@, key@),
{
    match v.get(key) {
        Some(j) => match j.as_array() {
            Some(a) => {
                assert(json::models(a@).len() == a@.len());
                Json::UInt(a.len() as u64)
            },
            None => Json::UInt(0),
        },
        None => Json::UInt(0),
    }
}

/// What applies to the machine.
pub open spec fn computer_policy(comp: JsonV) -> JsonV {
    JsonV::empty().with(
        "refresh_age_hours"@,
        member_or(comp, "refresh_age_hours"@, JsonV::Int(-1)),
    ).with("last_refresh"@, member_or(comp, "last_refresh"@, JsonV::Str(""@))).with(
        "applied_count"@,
        count_of(comp, "applied_gpos"@),
    ).with("denied_count"@, count_of(comp, "denied_gpos"@))
}

/// What applies to a user.
pub open spec fn user_policy(u: JsonV) -> JsonV {
    JsonV::empty().with("user"@, member_or(u, "user"@, JsonV::Str(""@))).with(
        "refresh_age_hours"@,
        member_or(u, "refresh_age_hours"@, JsonV::Int(-1)),
    ).with("applied_count"@, count_of(u, "applied_gpos"@)).with(
        "denied_count"@,
        count_of(u, "denied_gpos"@),
    )
}

/// What applies to the users.
pub open spec fn users_policy(core: JsonV) -> JsonV {
    let list = match core.member("users"@) {
        Some(j) => match j.elements() {
            Some(s) => s,
            None => seq![],
        },
        None => seq![],
    };
    JsonV::Arr(Seq::new(list.len(), |i: int| user_policy(list[i])))
}

/// The reason for a policy that could not be read.
pub const POLICY_UNREAD: &'static str = "resultant set of policy could not be read";

/// The snapshot of the policies that apply. A read that failed is told as such, and never as a
/// machine without policies.
pub open spec fn policy_v(core: Option<JsonV>) -> JsonV {
    let off = JsonV::empty().with("available"@, JsonV::Bool(false));
    match core {
        None => off,
        Some(c) => if c.member_truth("ok"@) == Some(false) {
            off.with(
                "error"@,
                JsonV::Str(
                    match c.member_text("error"@) {
                        Some(e) => e,
                        None => POLICY_UNREAD@,
                    },
                ),
            )
        } else {
            JsonV::empty().with("available"@, JsonV::Bool(true)).with(
                "part_of_domain"@,
                member_or(c, "part_of_domain"@, JsonV::Bool(false)),
            ).with("domain"@, member_or(c, "domain"@, JsonV::Str(""@))).with(
                "loopback"@,
                member_or(c, "loopback"@, JsonV::Str("NotConfigured"@)),
            ).with("error_count"@, member_or(c, "error_count"@, JsonV::Int(0))).with(
                "computer"@,
                computer_policy(member_or(c, "computer"@, JsonV::empty())),
            ).with("users"@, users_policy(c)).with(
                "security"@,
                member_or(c, "security"@, JsonV::Null),
            )
        },
    }
}

fn users_of(core: &Json) -> (r: Json)
    ensures
        r@ == users_policy(core@),
{
    let mut out: Vec<Json> = Vec::new();
    let list = match core.get("users") {
        Some(j) => match j.as_array() {
            Some(a) => a,
            None => {
                assert(json::models(out@) =~= Seq::new(0, |i: int| user_policy(Seq::<JsonV>::empty()[i])));
                return Json::array(out);
            },
        },
        None => {
            assert(json::models(out@) =~= Seq::new(0, |i: int| user_policy(Seq::<JsonV>::empty()[i])));
            return Json::array(out);
        },
    };
    let ghost all = json::models(list@);
    let mut i: usize = 0;
    while i < list.len()
        invariant
            i <= list@.len(),
            all == json::models(list@),
            out@.len() == i,
            forall|k: int| 0 <= k < i ==> (#[trigger] out@[k])@ == user_policy(all[k]),
        decreases list@.len() - i,
    {
        let u = &list[i];
        assert(all[i as int] == u@);
        let row = Json::object().with("user", get_or(u, "user", Json::text(""))).with(
            "refresh_age_hours",
            get_or(u, "refresh_age_hours", Json::Int(-1)),
        ).with("applied_count", count(u, "applied_gpos")).with(
            "denied_count",
            count(u, "denied_gpos"),
        );
        out.push(row);
        i = i + 1;
    }
    assert(json::models(out@) =~= Seq::new(all.len(), |i: int| user_policy(all[i])));
    Json::array(out)
}

/// The snapshot of the policies that apply, from what was read of them.
pub fn policy(core: &Option<Json>) -> (r: Json)
    ensures
        r@ == policy_v(json::opt_model(*core)),
{
    match core {
        None => Json::object().with("available", Json::Bool(false)),
        Some(c) => {
            if let Some(ok) = c.get_bool("ok") {
                if !ok {
                    let reason = match c.get_str("error") {
                        Some(e) => e,
                        None => POLICY_UNREAD,
                    };
                    return Json::object().with("available", Json::Bool(false)).with(
                        "error",
                        Json::text(reason),
                    );
                }
            }
            let comp = get_or(c, "computer", Json::object());
            let computer = Json::object().with(
                "refresh_age_hours",
                get_or(&comp, "refresh_age_hours", Json::Int(-1)),
            ).with("last_refresh", get_or(&comp, "last_refresh", Json::text(""))).with(
                "applied_count",
                count(&comp, "applied_gpos"),
            ).with("denied_count", count(&comp, "denied_gpos"));
            Json::object().with("available", Json::Bool(true)).with(
                "part_of_domain",
                get_or(c, "part_of_domain", Json::Bool(false)),
            ).with("domain", get_or(c, "domain", Json::text(""))).with(
                "loopback",
                get_or(c, "loopback", Json::text("NotConfigured")),
            ).with("error_count", get_or(c, "error_count", Json::UInt(0))).with(
                "computer",
                computer,
            ).with("users", users_of(c)).with("security", get_or(c, "security", Json::Null))
        },
    }
}

/// A read of the policies that failed is never told as one that found none.
pub proof fn an_unread_policy_is_not_available(core: JsonV)
    requires
        core.member_truth("ok"@) == Some(false),
    ensures
        policy_v(Some(core)).member("available"@) == Some(JsonV::Bool(false)),
        policy_v(Some(core)).member("error"@) is Some,
{
    reveal_strlit("available");
    reveal_strlit("error");
    assert("available"@.len() != "error"@.len());
}

/// A running process. `cpu` is the text of its share of the machine in percent.
pub struct ProcessInfo {
    pub pid: u32,
    pub name: String,
    pub cpu: String,
    /// The bytes that it holds.
    pub memory: u64,
}

/// The model of a [`ProcessInfo`].
pub struct ProcessV {
    pub pid: u32,
    pub name: Seq<char>,
    pub cpu: Seq<char>,
    pub memory: u64,
}

impl View for ProcessInfo {
    type V = ProcessV;

    open spec fn view(&self) -> ProcessV {
        ProcessV { pid: self.pid, name: self.name@, cpu: self.cpu@, memory: self.memory }
    }
}

/// The models of a list of processes.
pub open spec fn processes_v(s: Seq<ProcessInfo>) -> Seq<ProcessV> {
    Seq::new(s.len(), |i: int| s[i]@)
}

/// The tenths of a mebibyte that are nearest to a number of bytes; a half counts up.
pub open spec fn tenths(bytes: u64) -> int {
    (bytes * 10 + 524_288) / 1_048_576
}

/// The tenths of a mebibyte that are nearest to a number of bytes.
pub fn mem_tenths(bytes: u64) -> (r: u64)
    ensures
        r == tenths(bytes),
{
    let scaled: u128 = (bytes as u128 * 10 + 524_288) / 1_048_576;
    scaled as u64
}

/// The decimal text of a number of tenths.
pub open spec fn tenths_text(n: int) -> Seq<char> {
    num::dec((n / 10) as nat) + "."@ + num::dec((n % 10) as nat)
}

/// Writes a number of tenths.
pub fn write_tenths(n: u64) -> (r: String)
    ensures
        r@ == tenths_text(n as int),
{
    dec_u64(n / 10).concat(".").concat(dec_u64(n % 10).as_str())
}

/// The row of a process.
pub open spec fn process_row(p: ProcessV) -> JsonV {
    JsonV::empty().with("pid"@, JsonV::Int(p.pid as int)).with("name"@, JsonV::Str(p.name)).with(
        "cpu"@,
        JsonV::Real(p.cpu),
    ).with("mem_mb"@, JsonV::Real(tenths_text(tenths(p.memory))))
}

/// A process put into its place: behind those that hold more.
pub open spec fn insert_process(s: Seq<ProcessV>, x: ProcessV) -> Seq<ProcessV>
    decreases s.len(),
{
    if s.len() == 0 || !(tenths(s[0].memory) > tenths(x.memory)) {
        seq![x] + s
    } else {
        seq![s[0]] + insert_process(s.drop_first(), x)
    }
}

/// Processes by the memory that they hold, the largest first; equal ones as they came.
pub open spec fn by_memory(s: Seq<ProcessV>) -> Seq<ProcessV>
    decreases s.len(),
{
    if s.len() == 0 {
        s
    } else {
        insert_process(by_memory(s.drop_first()), s[0])
    }
}

/// The rows of processes.
pub open spec fn process_rows(s: Seq<ProcessV>) -> Seq<JsonV> {
    Seq::new(s.len(), |i: int| process_row(s[i]))
}

proof fn lemma_insert_process(s: Seq<ProcessV>, x: ProcessV, p: int)
    requires
        0 <= p <= s.len(),
        forall|i: int| 0 <= i < p ==> tenths((#[trigger] s[i]).memory) > tenths(x.memory),
        p < s.len() ==> !(tenths(s[p].memory) > tenths(x.memory)),
    ensures
        insert_process(s, x) == s.insert(p, x),
    decreases s.len(),
{
    if p == 0 {
        assert(s.insert(p, x) =~= seq![x] + s);
    } else {
        assert(tenths(s[0].memory) > tenths(x.memory));
        let t = s.drop_first();
        assert forall|i: int| 0 <= i < t.len() implies #[trigger] t[i] == s[i + 1] by {}
        lemma_insert_process(t, x, p - 1);
        assert(seq![s[0]] + t.insert(p - 1, x) =~= s.insert(p, x));
    }
}

/// Where the sorted list holds each process, with what it is ordered by.
spec fn placed(order: Seq<(usize, u64)>, list: Seq<ProcessV>, sorted: Seq<ProcessV>) -> bool {
    &&& order.len() == sorted.len()
    &&& forall|i: int|
        0 <= i < order.len() ==> (#[trigger] order[i]).0 < list.len() && sorted[i]
            == list[order[i].0 as int] && order[i].1 == tenths(sorted[i].memory)
}

/// The processes, the largest first, held to their cap.
pub fn processes(list: &Vec<ProcessInfo>) -> (r: Vec<Json>)
    ensures
        json::models(r@) == services::capped_rows(
            process_rows(by_memory(processes_v(list@))),
            PROCESS_CAP as nat,
            PROCESS_ORDER@,
            "processes"@,
            "lowest-memory"@,
        ),
{
    let ghost all = processes_v(list@);
    let mut order: Vec<(usize, u64)> = Vec::new();
    let mut n: usize = list.len();
    assert(all.skip(n as int) =~= Seq::<ProcessV>::empty());
    while n > 0
        invariant
            n <= list@.len(),
            all == processes_v(list@),
            placed(order@, all, by_memory(all.skip(n as int))),
        decreases n,
    {
        let ghost sorted = by_memory(all.skip(n as int));
        let k: usize = n - 1;
        let ghost x = all[k as int];
        assert(all.skip(k as int).drop_first() =~= all.skip(n as int));
        assert(all.skip(k as int)[0] == x);
        let weight: u64 = mem_tenths(list[k].memory);
        let mut p: usize = 0;
        while p < order.len() && order[p].1 > weight
            invariant
                p <= order@.len(),
                weight == tenths(x.memory),
                placed(order@, all, sorted),
                forall|i: int| 0 <= i < p ==> tenths((#[trigger] sorted[i]).memory) > weight,
            decreases order@.len() - p,
        {
            assert(order@[p as int].1 == tenths(sorted[p as int].memory));
            p = p + 1;
        }
        proof {
            if p < order@.len() {
                assert(order@[p as int].1 == tenths(sorted[p as int].memory));
            }
            lemma_insert_process(sorted, x, p as int);
        }
        let ghost o = order@;
        order.insert(p, (k, weight));
        assert(placed(order@, all, by_memory(all.skip(k as int)))) by {
            let t = by_memory(all.skip(k as int));
            assert forall|i: int| 0 <= i < order@.len() implies (#[trigger] order@[i]).0 < all.len()
                && t[i] == all[order@[i].0 as int] && order@[i].1 == tenths(t[i].memory) by {
                if i < p {
                    assert(order@[i] == o[i] && t[i] == sorted[i]);
                } else if i > p {
                    assert(order@[i] == o[i - 1] && t[i] == sorted[i - 1]);
                }
            }
        }
        n = k;
    }
    assert(all.skip(0) =~= all);
    let mut rows: Vec<Json> = Vec::new();
    let mut i: usize = 0;
    while i < order.len()
        invariant
            i <= order@.len(),
            all == processes_v(list@),
            placed(order@, all, by_memory(all)),
            rows@.len() == i,
            forall|k: int| 0 <= k < i ==> (#[trigger] rows@[k])@ == process_row(by_memory(all)[k]),
        decreases order@.len() - i,
    {
        assert(order@[i as int].0 < all.len());
        let p = &list[order[i].0];
        assert(p@ == by_memory(all)[i as int]);
        let mem = write_tenths(mem_tenths(p.memory));
        let row = Json::object().with("pid", Json::UInt(p.pid as u64)).with(
            "name",
            Json::text(p.name.as_str()),
        ).with("cpu", Json::Real(p.cpu.clone())).with("mem_mb", Json::Real(mem));
        rows.push(row);
        i = i + 1;
    }
    assert(json::models(rows@) =~= process_rows(by_memory(all)));
    cap_rows(rows, PROCESS_CAP, PROCESS_ORDER, "processes", "lowest-memory")
}

proof fn lemma_insert_sorted(s: Seq<ProcessV>, x: ProcessV)
    requires
        forall|i: int, j: int|
            0 <= i < j < s.len() ==> tenths((#[trigger] s[i]).memory) >= tenths(
                (#[trigger] s[j]).memory,
            ),
    ensures
        forall|i: int, j: int|
            0 <= i < j < insert_process(s, x).len() ==> tenths(
                (#[trigger] insert_process(s, x)[i]).memory,
            ) >= tenths((#[trigger] insert_process(s, x)[j]).memory),
        insert_process(s, x).to_multiset() == s.to_multiset().insert(x),
        forall|i: int|
            0 <= i < insert_process(s, x).len() ==> (#[trigger] insert_process(s, x)[i]) == x
                || s.contains(insert_process(s, x)[i]),
    decreases s.len(),
{
    broadcast use vstd::seq_lib::group_to_multiset_ensures;

    if s.len() == 0 || !(tenths(s[0].memory) > tenths(x.memory)) {
        let r = seq![x] + s;
        assert(r =~= s.insert(0, x));
        assert forall|i: int, j: int| 0 <= i < j < r.len() implies tenths((#[trigger] r[i]).memory)
            >= tenths((#[trigger] r[j]).memory) by {
            assert(r[j] == s[j - 1]);
            if i == 0 {
                if j - 1 > 0 {
                    assert(tenths(s[0].memory) >= tenths(s[j - 1].memory));
                }
            } else {
                assert(r[i] == s[i - 1]);
            }
        }
        assert forall|i: int| 0 <= i < r.len() implies (#[trigger] r[i]) == x || s.contains(r[i]) by {
            if i > 0 {
                assert(r[i] == s[i - 1]);
            }
        }
    } else {
        let t = s.drop_first();
        assert forall|i: int, j: int| 0 <= i < j < t.len() implies tenths((#[trigger] t[i]).memory)
            >= tenths((#[trigger] t[j]).memory) by {
            assert(t[i] == s[i + 1] && t[j] == s[j + 1]);
        }
        lemma_insert_sorted(t, x);
        let it = insert_process(t, x);
        let r = seq![s[0]] + it;
        assert forall|i: int| 0 <= i < r.len() implies (#[trigger] r[i]) == x || s.contains(r[i]) by {
            if i == 0 {
                assert(r[0] == s[0]);
            } else {
                assert(r[i] == it[i - 1]);
                if r[i] != x {
                    let k = choose|k: int| 0 <= k < t.len() && t[k] == r[i];
                    assert(s[k + 1] == r[i]);
                }
            }
        }
        assert forall|i: int, j: int| 0 <= i < j < r.len() implies tenths((#[trigger] r[i]).memory)
            >= tenths((#[trigger] r[j]).memory) by {
            assert(r[j] == it[j - 1]);
            if i == 0 {
                if r[j] != x {
                    let k = choose|k: int| 0 <= k < t.len() && t[k] == r[j];
                    assert(s[k + 1] == r[j]);
                    assert(tenths(s[0].memory) >= tenths(s[k + 1].memory));
                }
            } else {
                assert(r[i] == it[i - 1]);
            }
        }
        assert(r =~= it.insert(0, s[0]));
        assert(s =~= t.insert(0, s[0]));
    }
}

/// The list of processes holds each once, and no process stands behind one that holds less.
pub proof fn processes_are_in_order(s: Seq<ProcessV>)
    ensures
        by_memory(s).to_multiset() == s.to_multiset(),
        forall|i: int, j: int|
            0 <= i < j < by_memory(s).len() ==> tenths((#[trigger] by_memory(s)[i]).memory)
                >= tenths((#[trigger] by_memory(s)[j]).memory),
    decreases s.len(),
{
    broadcast use vstd::seq_lib::group_to_multiset_ensures;

    if s.len() > 0 {
        processes_are_in_order(s.drop_first());
        lemma_insert_sorted(by_memory(s.drop_first()), s[0]);
        assert(s =~= s.drop_first().insert(0, s[0]));
    }
}

/// The list of services as the service manager gives it: by display name, held to its cap.
pub fn services_snapshot(scm: &Vec<Service>, starts: &Overrides) -> (r: Vec<Json>)
    ensures
        json::models(r@) == services::capped_rows(
            services::service_rows(services::sort_services(services::services_v(scm@)), starts@),
            SERVICE_CAP as nat,
            SERVICE_ORDER@,
            "services"@,
            "last-alphabetically"@,
        ),
{
    cap_rows(
        service_list(scm, starts),
        SERVICE_CAP,
        SERVICE_ORDER,
        "services",
        "last-alphabetically",
    )
}

/// A request whose body is signed in a header.
pub struct SignedRequest {
    pub url: String,
    pub body: String,
    pub header: String,
}

/// The body of a snapshot.
pub open spec fn snapshot_body(id: Seq<char>, uuid: Seq<char>, kind: Seq<char>, data: JsonV) -> JsonV {
    JsonV::empty().with("id"@, JsonV::Str(id)).with("uuid"@, JsonV::Str(uuid)).with(
        "kind"@,
        JsonV::Str(kind),
    ).with("data"@, data)
}

/// The upload of a snapshot. The bytes that are signed are those that are sent.
pub fn snapshot_request(
    heartbeat_url: &str,
    id: &str,
    uuid: &str,
    kind: &str,
    data: &Json,
    sk: &[u8],
) -> (r: SignedRequest)
    requires
        sk@.len() == 64,
    ensures
        r.url@ == text::replace_v(heartbeat_url@, "heartbeat"@, "snapshot"@),
        r.body@ == json::compact(snapshot_body(id@, uuid@, kind@, data@)),
        r.header@ == "X-ST-Sig: "@ + trust::signed_b64(r.body@, sk@),
{
    proof {
        reveal_strlit("heartbeat");
    }
    let v = Json::object().with("id", Json::text(id)).with("uuid", Json::text(uuid)).with(
        "kind",
        Json::text(kind),
    ).with("data", data.copy());
    let body = to_text(&v);
    let header = sign_header(body.as_str(), sk);
    SignedRequest { url: replace(heartbeat_url, "heartbeat", "snapshot"), body, header }
}

/// The upload of an inventory. The bytes that are signed are those that are sent.
pub fn inventory_request(
    heartbeat_url: &str,
    id: &str,
    uuid: &str,
    inventory: Json,
    sk: &[u8],
) -> (r: SignedRequest)
    requires
        inventory@ is Obj || inventory@ is Null,
        sk@.len() == 64,
    ensures
        r.url@ == text::replace_v(heartbeat_url@, "heartbeat"@, "inventory"@),
        r.body@ == json::compact(
            inventory@.with("id"@, JsonV::Str(id@)).with("uuid"@, JsonV::Str(uuid@)),
        ),
        r.header@ == "X-ST-Sig: "@ + trust::signed_b64(r.body@, sk@),
{
    proof {
        reveal_strlit("heartbeat");
    }
    let v = inventory.with("id", Json::text(id)).with("uuid", Json::text(uuid));
    let body = to_text(&v);
    let header = sign_header(body.as_str(), sk);
    SignedRequest { url: replace(heartbeat_url, "heartbeat", "inventory"), body, header }
}

/// Each kind of snapshot goes by its own name, and no other name is one.
pub proof fn snapshots_go_by_their_names(kind: Seq<char>)
    ensures
        kind_named("processes"@) == Some(SnapshotKind::Processes),
        kind_named("services"@) == Some(SnapshotKind::Services),
        kind_named("defender"@) == Some(SnapshotKind::Defender),
        kind_named("winupdate"@) == Some(SnapshotKind::WinUpdate),
        kind_named("policy"@) == Some(SnapshotKind::Policy),
        kind_named(kind) is Some ==> kind == "processes"@ || kind == "services"@ || kind
            == "defender"@ || kind == "winupdate"@ || kind == "policy"@,
{
    reveal_strlit("processes");
    reveal_strlit("services");
    reveal_strlit("defender");
    reveal_strlit("winupdate");
    reveal_strlit("policy");
    assert("policy"@.len() == 6);
    assert("services"@.len() == 8);
    assert("defender"@.len() == 8);
    assert("defender"@[0] == 'd');
    assert("services"@[0] == 's');
    assert("processes"@.len() == 9);
    assert("winupdate"@.len() == 9);
    assert("processes"@[0] == 'p');
    assert("winupdate"@[0] == 'w');
}

/// Memory is told in tenths of a mebibyte, to the nearest.
pub proof fn memory_is_told_to_the_nearest_tenth(bytes: u64)
    ensures
        2 * (10 * bytes - 1_048_576 * tenths(bytes)) < 1_048_576,
        2 * (10 * bytes - 1_048_576 * tenths(bytes)) >= -1_048_576,
{
    let n = bytes * 10 + 524_288;
    assert(n == 1_048_576 * (n / 1_048_576) + n % 1_048_576);
}

/// A process is told by its number, its name, its load and its memory; processes that hold the
/// same amount keep their order.
pub proof fn a_process_is_told(p: ProcessV)
    ensures
        process_row(p).member("pid"@) == Some(JsonV::Int(p.pid as int)),
        process_row(p).member("name"@) == Some(JsonV::Str(p.name)),
        process_row(p).member("cpu"@) == Some(JsonV::Real(p.cpu)),
        process_row(p).member("mem_mb"@) == Some(
            JsonV::Real(
                num::dec((tenths(p.memory) / 10) as nat) + "."@ + num::dec(
                    (tenths(p.memory) % 10) as nat,
                ),
            ),
        ),
{
    reveal_strlit("pid");
    reveal_strlit("name");
    reveal_strlit("cpu");
    reveal_strlit("mem_mb");
    assert("pid"@.len() == 3);
    assert("cpu"@.len() == 3);
    assert("cpu"@[0] == 'c');
    assert("pid"@[0] == 'p');
    assert("name"@.len() == 4);
    assert("mem_mb"@.len() == 6);
}

/// Processes that hold equally much stay in the order in which they were found.
pub proof fn equal_processes_keep_their_order(s: Seq<ProcessV>, n: int)
    ensures
        by_memory(s).filter(|p: ProcessV| tenths(p.memory) == n) == s.filter(
            |p: ProcessV| tenths(p.memory) == n,
        ),
    decreases s.len(),
{
    let g = |p: ProcessV| tenths(p.memory) == n;
    if s.len() > 0 {
        let t = s.drop_first();
        equal_processes_keep_their_order(t, n);
        processes_are_in_order(t);
        lemma_placed_before_equals(by_memory(t), s[0], n);
        assert(s =~= seq![s[0]] + t);
        lemma_filter_front(s[0], t, g);
    }
}

proof fn lemma_filter_front(x: ProcessV, t: Seq<ProcessV>, g: spec_fn(ProcessV) -> bool)
    ensures
        (seq![x] + t).filter(g) == (if g(x) {
            seq![x] + t.filter(g)
        } else {
            t.filter(g)
        }),
    decreases t.len(),
{
    reveal(Seq::filter);
    let s = seq![x] + t;
    if t.len() == 0 {
        assert(s.drop_last() =~= Seq::<ProcessV>::empty());
        assert(s.last() == x);
        assert(s.drop_last().filter(g) =~= Seq::<ProcessV>::empty());
        assert(t.filter(g) =~= Seq::<ProcessV>::empty());
        assert(s.filter(g) =~= if g(x) {
            seq![x] + t.filter(g)
        } else {
            t.filter(g)
        });
    } else {
        lemma_filter_front(x, t.drop_last(), g);
        assert(s.drop_last() =~= seq![x] + t.drop_last());
        assert(s.last() == t.last());
        assert(s.filter(g) =~= if g(x) {
            seq![x] + t.filter(g)
        } else {
            t.filter(g)
        });
    }
}

proof fn lemma_placed_before_equals(s: Seq<ProcessV>, x: ProcessV, n: int)
    ensures
        insert_process(s, x).filter(|p: ProcessV| tenths(p.memory) == n) == (if tenths(x.memory)
            == n {
            seq![x] + s.filter(|p: ProcessV| tenths(p.memory) == n)
        } else {
            s.filter(|p: ProcessV| tenths(p.memory) == n)
        }),
    decreases s.len(),
{
    let g = |p: ProcessV| tenths(p.memory) == n;
    if s.len() == 0 || !(tenths(s[0].memory) > tenths(x.memory)) {
        lemma_filter_front(x, s, g);
    } else {
        let t = s.drop_first();
        lemma_placed_before_equals(t, x, n);
        lemma_filter_front(s[0], insert_process(t, x), g);
        lemma_filter_front(s[0], t, g);
        assert(s =~= seq![s[0]] + t);
    }
}

/// What a snapshot's message says.
pub proof fn a_snapshot_says_whose_it_is(id: Seq<char>, uuid: Seq<char>, kind: Seq<char>, data: JsonV)
    ensures
        ({
            let v = snapshot_body(id, uuid, kind, data);
            &&& v.member("id"@) == Some(JsonV::Str(id))
            &&& v.member("uuid"@) == Some(JsonV::Str(uuid))
            &&& v.member("kind"@) == Some(JsonV::Str(kind))
            &&& v.member("data"@) == Some(data)
        }),
{
    reveal_strlit("id");
    reveal_strlit("uuid");
    reveal_strlit("kind");
    reveal_strlit("data");
    assert("id"@.len() == 2);
    assert("uuid"@.len() == 4);
    assert("kind"@.len() == 4);
    assert("data"@.len() == 4);
    assert("data"@[0] == 'd');
    assert("kind"@[0] == 'k');
    assert("uuid"@[0] == 'u');
}

/// What a policy that was read says: each member as it was read, or its default where it is
/// missing, and how many policies apply and are denied.
pub proof fn a_read_policy_is_told(c: JsonV)
    requires
        c.member_truth("ok"@) != Some(false),
    ensures
        ({
            let v = policy_v(Some(c));
            &&& v.member("available"@) == Some(JsonV::Bool(true))
            &&& c.member("part_of_domain"@) is Some ==> v.member("part_of_domain"@) == c.member(
                "part_of_domain"@,
            )
            &&& c.member("part_of_domain"@) is None ==> v.member("part_of_domain"@) == Some(
                JsonV::Bool(false),
            )
            &&& c.member("domain"@) is Some ==> v.member("domain"@) == c.member("domain"@)
            &&& c.member("domain"@) is None ==> v.member("domain"@) == Some(JsonV::Str(""@))
            &&& c.member("loopback"@) is Some ==> v.member("loopback"@) == c.member("loopback"@)
            &&& c.member("loopback"@) is None ==> v.member("loopback"@) == Some(
                JsonV::Str("NotConfigured"@),
            )
            &&& c.member("error_count"@) is Some ==> v.member("error_count"@) == c.member(
                "error_count"@,
            )
            &&& c.member("error_count"@) is None ==> v.member("error_count"@) == Some(JsonV::Int(0))
            &&& c.member("security"@) is Some ==> v.member("security"@) == c.member("security"@)
            &&& c.member("security"@) is None ==> v.member("security"@) == Some(JsonV::Null)
            &&& c.member("computer"@) matches Some(p) ==> v.member("computer"@) == Some(
                computer_policy(p),
            )
            &&& c.member("users"@) matches Some(JsonV::Arr(u)) ==> v.member("users"@) == Some(
                JsonV::Arr(u.map_values(|x: JsonV| user_policy(x))),
            )
        }),
{
    reveal_strlit("available");
    reveal_strlit("part_of_domain");
    reveal_strlit("domain");
    reveal_strlit("loopback");
    reveal_strlit("error_count");
    reveal_strlit("computer");
    reveal_strlit("users");
    reveal_strlit("security");
    assert("users"@.len() == 5);
    assert("domain"@.len() == 6);
    assert("loopback"@.len() == 8);
    assert("computer"@.len() == 8);
    assert("security"@.len() == 8);
    assert("computer"@[0] == 'c');
    assert("loopback"@[0] == 'l');
    assert("security"@[0] == 's');
    assert("available"@.len() == 9);
    assert("error_count"@.len() == 11);
    assert("part_of_domain"@.len() == 14);
    if let Some(JsonV::Arr(u)) = c.member("users"@) {
        assert(Seq::new(u.len(), |i: int| user_policy(u[i])) =~= u.map_values(
            |x: JsonV| user_policy(x),
        ));
    }
}

/// What is told of the policies of a machine and of a user.
pub proof fn policies_are_counted(p: JsonV, applied: Seq<JsonV>, denied: Seq<JsonV>)
    requires
        p.member("applied_gpos"@) == Some(JsonV::Arr(applied)),
        p.member("denied_gpos"@) == Some(JsonV::Arr(denied)),
    ensures
        computer_policy(p).member("applied_count"@) == Some(JsonV::Int(applied.len() as int)),
        computer_policy(p).member("denied_count"@) == Some(JsonV::Int(denied.len() as int)),
        user_policy(p).member("applied_count"@) == Some(JsonV::Int(applied.len() as int)),
        user_policy(p).member("denied_count"@) == Some(JsonV::Int(denied.len() as int)),
        p.member("refresh_age_hours"@) is Some ==> computer_policy(p).member("refresh_age_hours"@)
            == p.member("refresh_age_hours"@) && user_policy(p).member("refresh_age_hours"@)
            == p.member("refresh_age_hours"@),
        p.member("refresh_age_hours"@) is None ==> computer_policy(p).member("refresh_age_hours"@)
            == Some(JsonV::Int(-1)) && user_policy(p).member("refresh_age_hours"@) == Some(
            JsonV::Int(-1),
        ),
        p.member("user"@) is Some ==> user_policy(p).member("user"@) == p.member("user"@),
        p.member("last_refresh"@) is Some ==> computer_policy(p).member("last_refresh"@)
            == p.member("last_refresh"@),
{
    reveal_strlit("refresh_age_hours");
    reveal_strlit("last_refresh");
    reveal_strlit("applied_count");
    reveal_strlit("denied_count");
    reveal_strlit("user");
    assert("user"@.len() == 4);
    assert("last_refresh"@.len() == 12);
    assert("denied_count"@.len() == 12);
    assert("denied_count"@[0] == 'd');
    assert("last_refresh"@[0] == 'l');
    assert("applied_count"@.len() == 13);
    assert("refresh_age_hours"@.len() == 17);
}

/// Policies that are not listed, or not as a list, count as none.
pub proof fn unlisted_policies_count_as_none(p: JsonV, key: Seq<char>, t: Seq<char>)
    ensures
        p.member(key) is None ==> count_of(p, key) == JsonV::Int(0),
        p.member(key) == Some(JsonV::Str(t)) ==> count_of(p, key) == JsonV::Int(0),
        p.member(key) == Some(JsonV::Null) ==> count_of(p, key) == JsonV::Int(0),
{
}

} // verus!
