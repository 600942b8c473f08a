//! A short sample of a machine's load, with the processes that use most of it.
use vstd::prelude::*;

use crate::hosted;
use crate::json;
use crate::snapshot;
use crate::text;
use crate::hosted::read_ask;
use crate::json::{Json, JsonV};
use crate::snapshot::{mem_tenths, write_tenths, ProcessV};

verus! {

/// The number of processes that are listed where none is asked for.
pub const TOP_DEFAULT: u64 = 10;

/// The most processes that are listed.
pub const TOP_MAX: u64 = 50;

/// The number of processes that an ask wants.
pub open spec fn top_of(ask: JsonV) -> int {
    match ask.member_uint("top_n"@) {
        Some(n) => if n < 1 {
            1
        } else if n > TOP_MAX {
            TOP_MAX as int
        } else {
            n
        },
        None => TOP_DEFAULT as int,
    }
}

/// The number of processes that an ask wants.
pub fn top_n(ask: &Json) -> (r: usize)
    ensures
        r == top_of(ask@),
{
    match ask.get_u64("top_n") {
        Some(n) => if n < 1 {
            1
        } else if n > TOP_MAX {
            50
        } else {
            n as usize
        },
        None => 10,
    }
}

/// A running process. `cpu` is the text of its share of the machine in percent, and `cpu_tenths`
/// that share in tenths of a percent.
pub struct Sample {
    pub pid: u32,
    pub name: String,
    pub cpu: String,
    pub cpu_tenths: i64,
    /// The bytes that it holds.
    pub memory: u64,
}

/// The row of a process.
pub open spec fn sample_row(p: Sample) -> JsonV {
    snapshot::process_row(ProcessV { pid: p.pid, name: p.name@, cpu: p.cpu@, memory: p.memory })
}

/// What processes are ordered by.
pub open spec fn weight(p: Sample, memory: bool) -> int {
    if memory {
        snapshot::tenths(p.memory)
    } else {
        p.cpu_tenths as int
    }
}

/// A process put into its place: behind those that use more.
pub open spec fn insert_sample(s: Seq<Sample>, x: Sample, memory: bool) -> Seq<Sample>
    decreases s.len(),
{
    if s.len() == 0 || !(weight(s[0], memory) > weight(x, memory)) {
        seq![x] + s
    } else {
        seq![s[0]] + insert_sample(s.drop_first(), x, memory)
    }
}

/// Processes by what they use, the largest first; equal ones as they came.
pub open spec fn heaviest(s: Seq<Sample>, memory: bool) -> Seq<Sample>
    decreases s.len(),
{
    if s.len() == 0 {
        s
    } else {
        insert_sample(heaviest(s.drop_first(), memory), s[0], memory)
    }
}

/// The rows of the first processes.
pub open spec fn top_rows(s: Seq<Sample>, memory: bool, top: int) -> Seq<JsonV> {
    let all = heaviest(s, memory);
    Seq::new(
        if all.len() <= top {
            all.len()
        } else {
            top as nat
        },
        |i: int| sample_row(all[i]),
    )
}

proof fn lemma_insert_sample(s: Seq<Sample>, x: Sample, memory: bool, p: int)
    requires
        0 <= p <= s.len(),
        forall|i: int| 0 <= i < p ==> weight(#[trigger] s[i], memory) > weight(x, memory),
        p < s.len() ==> !(weight(s[p], memory) > weight(x, memory)),
    ensures
        insert_sample(s, x, memory) == s.insert(p, x),
    decreases s.len(),
{
    if p == 0 {
        assert(s.insert(p, x) =~= seq![x] + s);
    } else {
        assert(weight(s[0], memory) > weight(x, memory));
        let t = s.drop_first();
        assert forall|i: int| 0 <= i < t.len() implies #[trigger] t[i] == s[i + 1] by {}
        lemma_insert_sample(t, x, memory, p - 1);
        assert(seq![s[0]] + t.insert(p - 1, x) =~= s.insert(p, x));
    }
}

/// Where the sorted list holds each process, with what it is ordered by.
spec fn placed(order: Seq<(usize, i128)>, list: Seq<Sample>, sorted: Seq<Sample>, memory: bool) -> bool {
    &&& order.len() == sorted.len()
    &&& forall|i: int|
        0 <= i < order.len() ==> (#[trigger] order[i]).0 < list.len() && sorted[i]
            == list[order[i].0 as int] && order[i].1 == weight(sorted[i], memory)
}

/// The rows of the processes that use most, by memory or by processor.
pub fn top_processes(list: &Vec<Sample>, memory: bool, top: usize) -> (r: Vec<Json>)
    ensures
        json::models(r@) == top_rows(list@, memory, top as int),
{
    let ghost all = list@;
    let mut order: Vec<(usize, i128)> = Vec::new();
    let mut n: usize = list.len();
    assert(all.skip(n as int) =~= Seq::<Sample>::empty());
    while n > 0
        invariant
            n <= list@.len(),
            all == list@,
            placed(order@, all, heaviest(all.skip(n as int), memory), memory),
        decreases n,
    {
        let ghost sorted = heaviest(all.skip(n as int), memory);
        let k: usize = n - 1;
        let ghost x = all[k as int];
        assert(all.skip(k as int).drop_first() =~= all.skip(n as int));
        assert(all.skip(k as int)[0] == x);
        let w: i128 = if memory {
            mem_tenths(list[k].memory) as i128
        } else {
            list[k].cpu_tenths as i128
        };
        let mut p: usize = 0;
        while p < order.len() && order[p].1 > w
            invariant
                p <= order@.len(),
                w == weight(x, memory),
                placed(order@, all, sorted, memory),
                forall|i: int| 0 <= i < p ==> weight(#[trigger] sorted[i], memory) > w,
            decreases order@.len() - p,
        {
            assert(order@[p as int].1 == weight(sorted[p as int], memory));
            p = p + 1;
        }
        proof {
            if p < order@.len() {
                assert(order@[p as int].1 == weight(sorted[p as int], memory));
            }
            lemma_insert_sample(sorted, x, memory, p as int);
        }
        let ghost o = order@;
        order.insert(p, (k, w));
        assert(placed(order@, all, heaviest(all.skip(k as int), memory), memory)) by {
            let t = heaviest(all.skip(k as int), memory);
            assert forall|i: int| 0 <= i < order@.len() implies (#[trigger] order@[i]).0 < all.len()
                && t[i] == all[order@[i].0 as int] && order@[i].1 == weight(t[i], memory) by {
                if i < p {
                    assert(order@[i] == o[i] && t[i] == sorted[i]);
                } else if i > p {
                    assert(order@[i] == o[i - 1] && t[i] == sorted[i - 1]);
                }
            }
        }
        n = k;
    }
    assert(all.skip(0) =~= all);
    let mut rows: Vec<Json> = Vec::new();
    let mut i: usize = 0;
    while i < order.len() && i < top
        invariant
            i <= order@.len(),
            i <= top,
            all == list@,
            placed(order@, all, heaviest(all, memory), memory),
            rows@.len() == i,
            forall|k: int|
                0 <= k < i ==> (#[trigger] rows@[k])@ == sample_row(heaviest(all, memory)[k]),
        decreases order@.len() - i,
    {
        assert(order@[i as int].0 < all.len());
        let p = &list[order[i].0];
        assert(*p == heaviest(all, memory)[i as int]);
        let row = Json::object().with("pid", Json::UInt(p.pid as u64)).with(
            "name",
            Json::text(p.name.as_str()),
        ).with("cpu", Json::Real(p.cpu.clone())).with(
            "mem_mb",
            Json::Real(write_tenths(mem_tenths(p.memory))),
        );
        rows.push(row);
        i = i + 1;
    }
    assert(json::models(rows@) =~= top_rows(all, memory, top as int));
    rows
}

/// What was measured of a machine. The shares are the texts of numbers.
pub struct Load {
    pub cpu_pct: String,
    pub mem_total: u64,
    pub mem_used: u64,
    pub mem_pct: String,
    pub processes: Vec<Sample>,
}

/// A sample of a machine's load.
pub open spec fn perf_v(ask: JsonV, l: Load) -> JsonV {
    JsonV::empty().with("cpu_pct"@, JsonV::Real(l.cpu_pct@)).with(
        "mem_total_mb"@,
        JsonV::Real(snapshot::tenths_text(snapshot::tenths(l.mem_total))),
    ).with("mem_used_mb"@, JsonV::Real(snapshot::tenths_text(snapshot::tenths(l.mem_used)))).with(
        "mem_pct"@,
        JsonV::Real(l.mem_pct@),
    ).with("top_cpu"@, JsonV::Arr(top_rows(l.processes@, false, top_of(ask)))).with(
        "top_mem"@,
        JsonV::Arr(top_rows(l.processes@, true, top_of(ask))),
    )
}

/// A sample of a machine's load, for an ask that was read.
pub fn load_sample(ask: &Json, l: &Load) -> (r: Json)
    ensures
        r@ == perf_v(ask@, *l),
{
    let top: usize = top_n(ask);
    Json::object().with("cpu_pct", Json::Real(l.cpu_pct.clone())).with(
        "mem_total_mb",
        Json::Real(write_tenths(mem_tenths(l.mem_total))),
    ).with("mem_used_mb", Json::Real(write_tenths(mem_tenths(l.mem_used)))).with(
        "mem_pct",
        Json::Real(l.mem_pct.clone()),
    ).with("top_cpu", Json::array(top_processes(&l.processes, false, top))).with(
        "top_mem",
        Json::array(top_processes(&l.processes, true, top)),
    )
}

/// A sample of a machine's load.
pub fn perf(params: Option<&str>, l: &Load) -> (r: Json)
    ensures
        r@ == perf_v(hosted::ask_of(text::opt_str(params)), *l),
{
    load_sample(&read_ask(params), l)
}

/// Never more processes are listed than the most.
pub proof fn the_sample_is_short(s: Seq<Sample>, memory: bool, ask: JsonV)
    ensures
        1 <= top_of(ask) <= TOP_MAX,
        top_rows(s, memory, top_of(ask)).len() <= TOP_MAX,
{
}

/// How many processes are listed: as many as are asked for, from one to fifty, and ten where
/// nothing is asked.
pub proof fn as_many_are_listed_as_are_asked_for(ask: JsonV, n: int)
    requires
        0 <= n <= u64::MAX,
    ensures
        ask.member("top_n"@) is None ==> top_of(ask) == 10,
        ask.member("top_n"@) == Some(JsonV::Int(n)) ==> (1 <= n <= 50 ==> top_of(ask) == n) && (n
            > 50 ==> top_of(ask) == 50) && (n == 0 ==> top_of(ask) == 1),
{
}

/// The list holds the heaviest: each process once, and none behind a lighter one.
pub proof fn the_heaviest_come_first(s: Seq<Sample>, memory: bool)
    ensures
        heaviest(s, memory).to_multiset() == s.to_multiset(),
        heaviest(s, memory).len() == s.len(),
        forall|i: int, j: int|
            0 <= i < j < heaviest(s, memory).len() ==> weight(
                #[trigger] heaviest(s, memory)[i],
                memory,
            ) >= weight(#[trigger] heaviest(s, memory)[j], memory),
    decreases s.len(),
{
    broadcast use vstd::seq_lib::group_to_multiset_ensures;

    if s.len() > 0 {
        let t = s.drop_first();
        the_heaviest_come_first(t, memory);
        lemma_sample_placed(heaviest(t, memory), s[0], memory);
        assert(s =~= t.insert(0, s[0]));
    }
}

proof fn lemma_sample_placed(s: Seq<Sample>, x: Sample, memory: bool)
    requires
        forall|i: int, j: int|
            0 <= i < j < s.len() ==> weight(#[trigger] s[i], memory) >= weight(
                #[trigger] s[j],
                memory,
            ),
    ensures
        insert_sample(s, x, memory).len() == s.len() + 1,
        insert_sample(s, x, memory).to_multiset() == s.to_multiset().insert(x),
        forall|i: int|
            0 <= i < insert_sample(s, x, memory).len() ==> (#[trigger] insert_sample(
                s,
                x,
                memory,
            )[i]) == x || s.contains(insert_sample(s, x, memory)[i]),
        forall|i: int, j: int|
            0 <= i < j < insert_sample(s, x, memory).len() ==> weight(
                #[trigger] insert_sample(s, x, memory)[i],
                memory,
            ) >= weight(#[trigger] insert_sample(s, x, memory)[j], memory),
    decreases s.len(),
{
    broadcast use vstd::seq_lib::group_to_multiset_ensures;

    let r = insert_sample(s, x, memory);
    if s.len() == 0 || !(weight(s[0], memory) > weight(x, memory)) {
        assert(r =~= s.insert(0, x));
        assert forall|i: int| 0 <= i < r.len() implies (#[trigger] r[i]) == x || s.contains(
            r[i],
        ) by {
            if i > 0 {
                assert(r[i] == s[i - 1]);
            }
        }
        assert forall|i: int, j: int| 0 <= i < j < r.len() implies weight(
            #[trigger] r[i],
            memory,
        ) >= weight(#[trigger] r[j], memory) by {
            assert(r[j] == s[j - 1]);
            if i > 0 {
                assert(r[i] == s[i - 1]);
            } else if j > 1 {
                assert(weight(s[0], memory) >= weight(s[j - 1], memory));
            }
        }
    } else {
        let t = s.drop_first();
        assert forall|i: int, j: int| 0 <= i < j < t.len() implies weight(
            #[trigger] t[i],
            memory,
        ) >= weight(#[trigger] t[j], memory) by {
            assert(t[i] == s[i + 1] && t[j] == s[j + 1]);
        }
        lemma_sample_placed(t, x, memory);
        let it = insert_sample(t, x, memory);
        assert(r =~= it.insert(0, s[0]));
        assert(s =~= t.insert(0, s[0]));
        assert(r.to_multiset() =~= s.to_multiset().insert(x));
        assert forall|i: int| 0 <= i < r.len() implies (#[trigger] r[i]) == x || s.contains(
            r[i],
        ) by {
            if i == 0 {
                assert(r[0] == s[0]);
            } else {
                assert(r[i] == it[i - 1]);
                if it[i - 1] != x {
                    let k = choose|k: int| 0 <= k < t.len() && t[k] == it[i - 1];
                    assert(s[k + 1] == r[i]);
                }
            }
        }
        assert forall|i: int, j: int| 0 <= i < j < r.len() implies weight(
            #[trigger] r[i],
            memory,
        ) >= weight(#[trigger] r[j], memory) by {
            assert(r[j] == it[j - 1]);
            if i == 0 {
                if r[j] != x {
                    let k = choose|k: int| 0 <= k < t.len() && t[k] == r[j];
                    assert(s[k + 1] == r[j]);
                    assert(weight(s[0], memory) >= weight(s[k + 1], memory));
                }
            } else {
                assert(r[i] == it[i - 1]);
            }
        }
    }
}

/// What a sample says of the machine's load, and of which processes it consists: memory in
/// tenths of a mebibyte, the load in tenths of a percent.
pub proof fn a_sample_says_what_was_measured(ask: JsonV, l: Load)
    ensures
        ({
            let v = perf_v(ask, l);
            &&& v.member("cpu_pct"@) == Some(JsonV::Real(l.cpu_pct@))
            &&& v.member("mem_pct"@) == Some(JsonV::Real(l.mem_pct@))
            &&& v.member("mem_total_mb"@) == Some(
                JsonV::Real(snapshot::tenths_text(snapshot::tenths(l.mem_total))),
            )
            &&& v.member("mem_used_mb"@) == Some(
                JsonV::Real(snapshot::tenths_text(snapshot::tenths(l.mem_used))),
            )
            &&& v.member("top_cpu"@) == Some(
                JsonV::Arr(top_rows(l.processes@, false, top_of(ask))),
            )
            &&& v.member("top_mem"@) == Some(
                JsonV::Arr(top_rows(l.processes@, true, top_of(ask))),
            )
        }),
{
    reveal_strlit("cpu_pct");
    reveal_strlit("mem_pct");
    reveal_strlit("mem_total_mb");
    reveal_strlit("mem_used_mb");
    reveal_strlit("top_cpu");
    reveal_strlit("top_mem");
    assert("cpu_pct"@.len() == 7);
    assert("mem_pct"@.len() == 7);
    assert("top_cpu"@.len() == 7);
    assert("top_mem"@.len() == 7);
    assert("cpu_pct"@[0] == 'c');
    assert("mem_pct"@[0] == 'm');
    assert("top_cpu"@[0] == 't');
    assert("top_cpu"@[4] == 'c');
    assert("top_mem"@[0] == 't');
    assert("top_mem"@[4] == 'm');
    assert("mem_used_mb"@.len() == 11);
    assert("mem_total_mb"@.len() == 12);
}

/// A row of the list tells the process in its place, and the list is as long as it can be.
pub proof fn a_row_tells_its_process(s: Seq<Sample>, memory: bool, top: int, i: int)
    requires
        0 <= i < top,
        i < s.len(),
    ensures
        ({
            let p = heaviest(s, memory)[i];
            let row = top_rows(s, memory, top)[i];
            &&& top_rows(s, memory, top).len() == (if s.len() <= top {
                s.len() as int
            } else {
                top
            })
            &&& row.member("pid"@) == Some(JsonV::Int(p.pid as int))
            &&& row.member("name"@) == Some(JsonV::Str(p.name@))
            &&& row.member("cpu"@) == Some(JsonV::Real(p.cpu@))
            &&& weight(p, true) == snapshot::tenths(p.memory)
            &&& weight(p, false) == p.cpu_tenths
        }),
{
    the_heaviest_come_first(s, memory);
    let p = heaviest(s, memory)[i];
    crate::snapshot::a_process_is_told(
        ProcessV { pid: p.pid, name: p.name@, cpu: p.cpu@, memory: p.memory },
    );
}

} // verus!
