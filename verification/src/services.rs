//! Windows services: their rows, their start types, and lists that are held to a cap.
use vstd::prelude::*;

use crate::files;
use crate::json;
use crate::num;
use crate::text;
use crate::files::failed;
use crate::json::{Json, JsonV};
use crate::num::dec_u64;
use crate::policy::Overrides;
use crate::text::{less, to_lowercase};

verus! {

/// The most services that are listed.
pub const SERVICE_CAP: usize = 3000;

/// The order in which services are listed.
pub const SERVICE_ORDER: &'static str = "display asc";

/// The most processes that are listed.
pub const PROCESS_CAP: usize = 2000;

/// The order in which processes are listed.
pub const PROCESS_ORDER: &'static str = "mem_mb desc";

/// The row that says how much of a list is missing.
pub open spec fn marker(total: nat, cap: nat, order: Seq<char>, noun: Seq<char>, lost: Seq<char>) -> JsonV {
    JsonV::empty().with("truncated"@, JsonV::Bool(true)).with(
        "total"@,
        JsonV::Int(total as int),
    ).with("returned"@, JsonV::Int(cap as int)).with("order"@, JsonV::Str(order)).with(
        "name"@,
        JsonV::Str(
            "!truncated \u{2014} "@ + num::dec(total) + " "@ + noun + " present, "@ + num::dec(cap)
                + " shown (ordered by "@ + order + "); the "@ + num::dec((total - cap) as nat) + " "@
                + lost + " rows are NOT in this list"@,
        ),
    )
}

/// A list held to a cap: one that fits as it is, a longer one cut and marked at its end.
pub open spec fn capped_rows(
    list: Seq<JsonV>,
    cap: nat,
    order: Seq<char>,
    noun: Seq<char>,
    lost: Seq<char>,
) -> Seq<JsonV> {
    if list.len() <= cap {
        list
    } else {
        list.take(cap as int).push(marker(list.len(), cap, order, noun, lost))
    }
}

/// Holds a list to a cap.
pub fn cap_rows(list: Vec<Json>, cap: usize, order: &str, noun: &str, lost: &str) -> (r: Vec<Json>)
    ensures
        json::models(r@) == capped_rows(json::models(list@), cap as nat, order@, noun@, lost@),
{
    let total: usize = list.len();
    let ghost all = json::models(list@);
    if total <= cap {
        return list;
    }
    let dropped: usize = total - cap;
    let mut out = list;
    out.truncate(cap);
    assert(json::models(out@) =~= all.take(cap as int));
    let name = "!truncated \u{2014} ".to_owned().concat(dec_u64(total as u64).as_str()).concat(
        " ",
    ).concat(noun).concat(" present, ").concat(dec_u64(cap as u64).as_str()).concat(
        " shown (ordered by ",
    ).concat(order).concat("); the ").concat(dec_u64(dropped as u64).as_str()).concat(" ").concat(
        lost,
    ).concat(" rows are NOT in this list");
    let row = Json::object().with("truncated", Json::Bool(true)).with(
        "total",
        Json::UInt(total as u64),
    ).with("returned", Json::UInt(cap as u64)).with("order", Json::text(order)).with(
        "name",
        Json::Str(name),
    );
    let ghost o = out@;
    let ghost rv = row@;
    out.push(row);
    assert(json::models(out@) =~= json::models(o).push(rv));
    out
}

/// A list that fits is not touched; of a longer one the first rows stay as they are, and the
/// mark is the last row.
pub proof fn a_capped_list_keeps_its_head(
    list: Seq<JsonV>,
    cap: nat,
    order: Seq<char>,
    noun: Seq<char>,
    lost: Seq<char>,
    i: int,
)
    requires
        0 <= i < list.len(),
    ensures
        list.len() <= cap ==> capped_rows(list, cap, order, noun, lost) == list,
        list.len() > cap ==> capped_rows(list, cap, order, noun, lost).len() == cap + 1,
        i < cap ==> capped_rows(list, cap, order, noun, lost)[i] == list[i],
{
}

/// The label of a start type.
pub open spec fn start_label_v(start: u32, delayed: bool, triggered: bool) -> Seq<char> {
    if start == 0 {
        "boot"@
    } else if start == 1 {
        "system"@
    } else if start == 2 {
        if delayed && triggered {
            "automatic (delayed, trigger start)"@
        } else if delayed {
            "automatic (delayed)"@
        } else if triggered {
            "automatic (trigger start)"@
        } else {
            "automatic"@
        }
    } else if start == 3 {
        "manual"@
    } else if start == 4 {
        "disabled"@
    } else {
        ""@
    }
}

/// The label of a start type; empty for one that is not known.
pub fn start_label(start: u32, delayed: bool, triggered: bool) -> (r: &'static str)
    ensures
        r@ == start_label_v(start, delayed, triggered),
{
    if start == 0 {
        "boot"
    } else if start == 1 {
        "system"
    } else if start == 2 {
        if delayed && triggered {
            "automatic (delayed, trigger start)"
        } else if delayed {
            "automatic (delayed)"
        } else if triggered {
            "automatic (trigger start)"
        } else {
            "automatic"
        }
    } else if start == 3 {
        "manual"
    } else if start == 4 {
        "disabled"
    } else {
        ""
    }
}

/// What the registry says of a service's start.
pub struct StartFacts {
    pub name: String,
    pub start: u32,
    pub delayed: bool,
    pub triggered: bool,
}

/// The start types of services, by their names in small letters.
pub open spec fn starts_v(s: Seq<StartFacts>) -> Map<Seq<char>, Seq<char>>
    decreases s.len(),
{
    if s.len() == 0 {
        Map::empty()
    } else {
        let before = starts_v(s.drop_last());
        let f = s.last();
        let label = start_label_v(f.start, f.delayed, f.triggered);
        if label.len() > 0 {
            before.insert(text::lowercase(f.name@), label)
        } else {
            before
        }
    }
}

/// The start types of services, by their names in small letters.
pub fn service_start_types(s: &Vec<StartFacts>) -> (r: Overrides)
    ensures
        r@ == starts_v(s@),
{
    let mut map = Overrides::new();
    let mut i: usize = 0;
    while i < s.len()
        invariant
            i <= s@.len(),
            map@ == starts_v(s@.take(i as int)),
        decreases s@.len() - i,
    {
        assert(s@.take(i + 1).drop_last() == s@.take(i as int));
        let label = start_label(s[i].start, s[i].delayed, s[i].triggered);
        if !label.is_empty() {
            map.insert(to_lowercase(s[i].name.as_str()).as_str(), label);
        }
        i = i + 1;
    }
    assert(s@.take(i as int) == s@);
    map
}

/// The label of a state.
pub fn state_label(state: u32) -> (r: &'static str)
    ensures
        r@ == state_text(state),
{
    if state == 4 {
        "running"
    } else if state == 1 {
        "stopped"
    } else if state == 7 {
        "paused"
    } else {
        "transitioning"
    }
}

/// A service: its name, its display name and its state.
pub struct Service {
    pub name: String,
    pub display: String,
    pub state: String,
}

/// The model of a service.
pub struct ServiceV {
    pub name: Seq<char>,
    pub display: Seq<char>,
    pub state: Seq<char>,
}

impl View for Service {
    type V = ServiceV;

    open spec fn view(&self) -> ServiceV {
        ServiceV { name: self.name@, display: self.display@, state: self.state@ }
    }
}

/// The models of a list of services.
pub open spec fn services_v(s: Seq<Service>) -> Seq<ServiceV> {
    Seq::new(s.len(), |i: int| s[i]@)
}

/// A service as the service manager lists it: its name, its display name and the number of its
/// state.
pub struct ListedService {
    pub name: String,
    pub display: String,
    pub state: u32,
}

/// The label of a state.
pub open spec fn state_text(state: u32) -> Seq<char> {
    if state == 4 {
        "running"@
    } else if state == 1 {
        "stopped"@
    } else if state == 7 {
        "paused"@
    } else {
        "transitioning"@
    }
}

/// The services that the service manager lists, without those that have no name.
pub open spec fn listed_services(s: Seq<ListedService>) -> Seq<ServiceV>
    decreases s.len(),
{
    if s.len() == 0 {
        seq![]
    } else {
        let before = listed_services(s.drop_last());
        let e = s.last();
        if e.name@.len() > 0 {
            before.push(
                ServiceV { name: e.name@, display: e.display@, state: state_text(e.state) },
            )
        } else {
            before
        }
    }
}

/// The services that the service manager lists.
pub fn enum_services(list: &Vec<ListedService>) -> (r: Vec<Service>)
    ensures
        services_v(r@) == listed_services(list@),
{
    let mut out: Vec<Service> = Vec::new();
    let mut i: usize = 0;
    assert(services_v(out@) =~= listed_services(list@.take(0)));
    while i < list.len()
        invariant
            i <= list@.len(),
            services_v(out@) == listed_services(list@.take(i as int)),
        decreases list@.len() - i,
    {
        assert(list@.take(i + 1).drop_last() == list@.take(i as int));
        if !list[i].name.as_str().is_empty() {
            let s = Service {
                name: list[i].name.clone(),
                display: list[i].display.clone(),
                state: state_label(list[i].state).to_owned(),
            };
            let ghost o = out@;
            let ghost sv = s@;
            out.push(s);
            assert(services_v(out@) =~= services_v(o).push(sv));
        }
        i = i + 1;
    }
    assert(list@.take(i as int) == list@);
    out
}

/// The services that a list of rows names.
pub open spec fn wmi_services(rows: Seq<JsonV>) -> Seq<ServiceV>
    decreases rows.len(),
{
    if rows.len() == 0 {
        seq![]
    } else {
        let before = wmi_services(rows.drop_last());
        let r = rows.last();
        if r.member_or_empty("n"@).len() > 0 {
            before.push(
                ServiceV {
                    name: r.member_or_empty("n"@),
                    display: r.member_or_empty("d"@),
                    state: r.member_or_empty("s"@),
                },
            )
        } else {
            before
        }
    }
}

/// The services that the answer of the fallback names: a list of rows, or one row.
pub fn enum_services_wmi(v: &Option<Json>) -> (r: Vec<Service>)
    ensures
        services_v(r@) == (match json::opt_model(*v) {
            Some(JsonV::Arr(rows)) => wmi_services(rows),
            Some(JsonV::Obj(m)) => wmi_services(seq![JsonV::Obj(m)]),
            _ => seq![],
        }),
{
    let none: Vec<Service> = Vec::new();
    assert(services_v(none@) =~= Seq::<ServiceV>::empty());
    match v {
        Some(j) => {
            if let Some(rows) = j.as_array() {
                return list_services(rows);
            }
            if j.is_object() {
                let mut one: Vec<Json> = Vec::new();
                one.push(j.copy());
                assert(json::models(one@) =~= seq![j@]);
                return list_services(&one);
            }
            none
        },
        None => none,
    }
}

fn list_services(rows: &Vec<Json>) -> (r: Vec<Service>)
    ensures
        services_v(r@) == wmi_services(json::models(rows@)),
{
    let ghost all = json::models(rows@);
    let mut out: Vec<Service> = Vec::new();
    let mut i: usize = 0;
    assert(services_v(out@) =~= wmi_services(all.take(0)));
    while i < rows.len()
        invariant
            i <= rows@.len(),
            all == json::models(rows@),
            services_v(out@) == wmi_services(all.take(i as int)),
        decreases rows@.len() - i,
    {
        assert(all.take(i + 1).drop_last() == all.take(i as int));
        assert(all.take(i + 1).last() == rows@[i as int]@);
        let name = rows[i].get_str_or_empty("n");
        if !name.as_str().is_empty() {
            let s = Service {
                name,
                display: rows[i].get_str_or_empty("d"),
                state: rows[i].get_str_or_empty("s"),
            };
            let ghost o = out@;
            let ghost sv = s@;
            out.push(s);
            assert(services_v(out@) =~= services_v(o).push(sv));
        }
        i = i + 1;
    }
    assert(all.take(i as int) == all);
    out
}

/// The row of a service.
pub open spec fn service_row(s: ServiceV, starts: Map<Seq<char>, Seq<char>>) -> JsonV {
    let key = text::lowercase(s.name);
    JsonV::empty().with("name"@, JsonV::Str(s.name)).with("display"@, JsonV::Str(s.display)).with(
        "state"@,
        JsonV::Str(s.state),
    ).with(
        "start"@,
        JsonV::Str(
            if starts.contains_key(key) {
                starts[key]
            } else {
                seq![]
            },
        ),
    )
}

/// A row put into its place by its display name: behind every row that is before it.
pub open spec fn insert_service(s: Seq<ServiceV>, x: ServiceV) -> Seq<ServiceV>
    decreases s.len(),
{
    if s.len() == 0 || !text::before(text::lowercase(s[0].display), text::lowercase(x.display)) {
        seq![x] + s
    } else {
        seq![s[0]] + insert_service(s.drop_first(), x)
    }
}

/// Services by their display names, without regard to case; equal ones as they came.
pub open spec fn sort_services(s: Seq<ServiceV>) -> Seq<ServiceV>
    decreases s.len(),
{
    if s.len() == 0 {
        s
    } else {
        insert_service(sort_services(s.drop_first()), s[0])
    }
}

/// The rows of services, in their order.
pub open spec fn service_rows(s: Seq<ServiceV>, starts: Map<Seq<char>, Seq<char>>) -> Seq<JsonV> {
    Seq::new(s.len(), |i: int| service_row(s[i], starts))
}

/// What is told where no services are found.
pub const NO_SERVICES: &'static str =
    "service enumeration returned no rows through either the SCM or WMI — impossible on a running Windows host, so this is a failed read rather than an empty result";

/// What is told where the fallback answered.
pub const DEGRADED: &'static str =
    "the SCM service enumeration returned nothing and WMI answered instead. The rows are complete, but a host where those two disagree is itself the finding: Windows stops enumerating through the SCM once the machine carries roughly 2,200+ service registrations.";

/// The row that says that the fallback answered.
pub open spec fn degraded_row() -> JsonV {
    JsonV::empty().with("enumeration_degraded"@, JsonV::Bool(true)).with(
        "source"@,
        JsonV::Str("wmi"@),
    ).with("detail"@, JsonV::Str(DEGRADED@))
}

/// The list of the services: by display name, held to its cap; from the fallback where the first
/// enumeration gave nothing, which is then told; and a failure where both gave nothing.
pub open spec fn services_answer(
    scm: Seq<ServiceV>,
    wmi: Seq<ServiceV>,
    starts: Map<Seq<char>, Seq<char>>,
) -> JsonV {
    let list = if scm.len() > 0 {
        scm
    } else {
        wmi
    };
    if list.len() == 0 {
        files::failed_v(NO_SERVICES@)
    } else {
        let rows = capped_rows(
            service_rows(sort_services(list), starts),
            SERVICE_CAP as nat,
            SERVICE_ORDER@,
            "services"@,
            "last-alphabetically"@,
        );
        JsonV::Arr(
            if scm.len() > 0 {
                rows
            } else {
                rows.push(degraded_row())
            },
        )
    }
}

/// The rows of services with the keys that they are ordered by.
spec fn keys_match(keyed: Seq<(String, Json)>, s: Seq<ServiceV>, starts: Map<Seq<char>, Seq<char>>) -> bool {
    &&& keyed.len() == s.len()
    &&& forall|i: int|
        0 <= i < s.len() ==> (#[trigger] keyed[i]).0@ == text::lowercase(s[i].display) && keyed[i].1@
            == service_row(s[i], starts)
}

proof fn lemma_insert_service(s: Seq<ServiceV>, x: ServiceV, p: int)
    requires
        0 <= p <= s.len(),
        forall|i: int|
            0 <= i < p ==> text::before(text::lowercase((#[trigger] s[i]).display), text::lowercase(x.display)),
        p < s.len() ==> !text::before(text::lowercase(s[p].display), text::lowercase(x.display)),
    ensures
        insert_service(s, x) == s.insert(p, x),
    decreases s.len(),
{
    if p == 0 {
        assert(s.insert(p, x) =~= seq![x] + s);
    } else {
        assert(text::before(text::lowercase(s[0].display), text::lowercase(x.display)));
        let t = s.drop_first();
        assert forall|i: int| 0 <= i < t.len() implies #[trigger] t[i] == s[i + 1] by {}
        lemma_insert_service(t, x, p - 1);
        assert(seq![s[0]] + t.insert(p - 1, x) =~= s.insert(p, x));
    }
}

/// The rows of services by display name.
pub fn service_list(list: &Vec<Service>, starts: &Overrides) -> (r: Vec<Json>)
    ensures
        json::models(r@) == service_rows(sort_services(services_v(list@)), starts@),
{
    let ghost all = services_v(list@);
    let mut keyed: Vec<(String, Json)> = Vec::new();
    let mut n: usize = list.len();
    assert(all.skip(n as int) =~= Seq::<ServiceV>::empty());
    while n > 0
        invariant
            n <= list@.len(),
            all == services_v(list@),
            keys_match(keyed@, sort_services(all.skip(n as int)), starts@),
        decreases n,
    {
        let ghost sorted = sort_services(all.skip(n as int));
        let k: usize = n - 1;
        let ghost x = all[k as int];
        assert(all.skip(k as int).drop_first() =~= all.skip(n as int));
        assert(all.skip(k as int)[0] == x);
        let key = to_lowercase(list[k].display.as_str());
        let start = match starts.get(to_lowercase(list[k].name.as_str()).as_str()) {
            Some(l) => l,
            None => String::new(),
        };
        let row = Json::object().with("name", Json::text(list[k].name.as_str())).with(
            "display",
            Json::text(list[k].display.as_str()),
        ).with("state", Json::text(list[k].state.as_str())).with("start", Json::Str(start));
        assert(start@.len() == 0 ==> start@ =~= seq![]);
        assert(row@ == service_row(x, starts@));
        let mut p: usize = 0;
        while p < keyed.len() && less(keyed[p].0.as_str(), key.as_str())
            invariant
                p <= keyed@.len(),
                key@ == text::lowercase(x.display),
                keys_match(keyed@, sorted, starts@),
                forall|i: int|
                    0 <= i < p ==> text::before(
                        text::lowercase((#[trigger] sorted[i]).display),
                        text::lowercase(x.display),
                    ),
            decreases keyed@.len() - p,
        {
            assert(keyed@[p as int].0@ == text::lowercase(sorted[p as int].display));
            p = p + 1;
        }
        proof {
            if p < keyed@.len() {
                assert(keyed@[p as int].0@ == text::lowercase(sorted[p as int].display));
            }
            lemma_insert_service(sorted, x, p as int);
        }
        let ghost before_insert = keyed@;
        keyed.insert(p, (key, row));
        assert(keys_match(keyed@, sort_services(all.skip(k as int)), starts@)) by {
            let t = sort_services(all.skip(k as int));
            assert forall|i: int| 0 <= i < t.len() implies (#[trigger] keyed@[i]).0@ == text::lowercase(
                t[i].display,
            ) && keyed@[i].1@ == service_row(t[i], starts@) by {
                if i < p {
                    assert(keyed@[i] == before_insert[i] && t[i] == sorted[i]);
                } else if i > p {
                    assert(keyed@[i] == before_insert[i - 1] && t[i] == sorted[i - 1]);
                }
            }
        }
        n = k;
    }
    assert(all.skip(0) =~= all);
    let mut out: Vec<Json> = Vec::new();
    let mut i: usize = 0;
    while i < keyed.len()
        invariant
            i <= keyed@.len(),
            out@.len() == i,
            keys_match(keyed@, sort_services(all), starts@),
            forall|k: int| 0 <= k < i ==> (#[trigger] out@[k])@ == keyed@[k].1@,
        decreases keyed@.len() - i,
    {
        out.push(keyed[i].1.copy());
        i = i + 1;
    }
    assert(json::models(out@) =~= service_rows(sort_services(all), starts@));
    out
}

/// The list of the services.
pub fn services(scm: &Vec<Service>, wmi: &Vec<Service>, starts: &Overrides) -> (r: Json)
    ensures
        r@ == services_answer(services_v(scm@), services_v(wmi@), starts@),
{
    let degraded = scm.len() == 0;
    assert(services_v(scm@).len() == scm@.len() && services_v(wmi@).len() == wmi@.len());
    if degraded && wmi.len() == 0 {
        return failed(NO_SERVICES);
    }
    let rows = if degraded {
        service_list(wmi, starts)
    } else {
        service_list(scm, starts)
    };
    let mut capped = cap_rows(
        rows,
        SERVICE_CAP,
        SERVICE_ORDER,
        "services",
        "last-alphabetically",
    );
    if degraded {
        let note = Json::object().with("enumeration_degraded", Json::Bool(true)).with(
            "source",
            Json::text("wmi"),
        ).with("detail", Json::text(DEGRADED));
        let ghost o = capped@;
        let ghost nv = note@;
        capped.push(note);
        assert(json::models(capped@) =~= json::models(o).push(nv));
    }
    Json::array(capped)
}

/// The way in which a service starts is told by its kind, and of one that starts by itself
/// whether late or on a trigger.
pub proof fn starts_are_told_by_kind(delayed: bool, triggered: bool, other: u32)
    ensures
        start_label_v(0, delayed, triggered) == "boot"@,
        start_label_v(1, delayed, triggered) == "system"@,
        start_label_v(2, false, false) == "automatic"@,
        start_label_v(2, true, false) == "automatic (delayed)"@,
        start_label_v(2, false, true) == "automatic (trigger start)"@,
        start_label_v(2, true, true) == "automatic (delayed, trigger start)"@,
        start_label_v(3, delayed, triggered) == "manual"@,
        start_label_v(4, delayed, triggered) == "disabled"@,
        other > 4 ==> start_label_v(other, delayed, triggered) == ""@,
        state_text(4) == "running"@,
        state_text(1) == "stopped"@,
        state_text(7) == "paused"@,
        other != 4 && other != 1 && other != 7 ==> state_text(other) == "transitioning"@,
{
}

/// A service's start is the last one that is known under its name, whatever the case of its
/// letters.
pub proof fn the_last_known_start_counts(s: Seq<StartFacts>, i: int)
    requires
        0 <= i < s.len(),
        s[i].start <= 4,
        forall|k: int|
            i < k < s.len() ==> text::lowercase((#[trigger] s[k]).name@) != text::lowercase(
                s[i].name@,
            ) || s[k].start > 4,
    ensures
        starts_v(s).contains_key(text::lowercase(s[i].name@)),
        starts_v(s)[text::lowercase(s[i].name@)] == start_label_v(
            s[i].start,
            s[i].delayed,
            s[i].triggered,
        ),
    decreases s.len(),
{
    lemma_label(s[i].start, s[i].delayed, s[i].triggered);
    if i < s.len() - 1 {
        let t = s.drop_last();
        assert forall|k: int| i < k < t.len() implies text::lowercase((#[trigger] t[k]).name@)
            != text::lowercase(t[i].name@) || t[k].start > 4 by {
            assert(t[k] == s[k]);
        }
        the_last_known_start_counts(t, i);
        assert(s[s.len() - 1] == s.last());
        lemma_label(s.last().start, s.last().delayed, s.last().triggered);
    }
}

proof fn lemma_label(start: u32, delayed: bool, triggered: bool)
    ensures
        start_label_v(start, delayed, triggered).len() > 0 <==> start <= 4,
{
    reveal_strlit("boot");
    reveal_strlit("system");
    reveal_strlit("automatic");
    reveal_strlit("automatic (delayed)");
    reveal_strlit("automatic (trigger start)");
    reveal_strlit("automatic (delayed, trigger start)");
    reveal_strlit("manual");
    reveal_strlit("disabled");
    reveal_strlit("");
}

/// Every service with a name is listed, in the order in which it came, with its own display name
/// and state.
pub proof fn every_named_service_is_listed(s: Seq<ListedService>)
    ensures
        listed_services(s) == s.filter(|e: ListedService| e.name@.len() > 0).map_values(
            |e: ListedService|
                ServiceV { name: e.name@, display: e.display@, state: state_text(e.state) },
        ),
    decreases s.len(),
{
    let g = |e: ListedService| e.name@.len() > 0;
    let h = |e: ListedService|
        ServiceV { name: e.name@, display: e.display@, state: state_text(e.state) };
    reveal(Seq::filter);
    if s.len() > 0 {
        every_named_service_is_listed(s.drop_last());
        if g(s.last()) {
            assert(s.filter(g) == s.drop_last().filter(g).push(s.last()));
            assert(s.filter(g).map_values(h) =~= s.drop_last().filter(g).map_values(h).push(
                h(s.last()),
            ));
        }
    }
    assert(listed_services(s) =~= s.filter(g).map_values(h));
}

/// The same of the rows that a script printed.
pub proof fn every_printed_service_is_listed(s: Seq<JsonV>)
    ensures
        wmi_services(s) == s.filter(|r: JsonV| r.member_or_empty("n"@).len() > 0).map_values(
            |r: JsonV|
                ServiceV {
                    name: r.member_or_empty("n"@),
                    display: r.member_or_empty("d"@),
                    state: r.member_or_empty("s"@),
                },
        ),
    decreases s.len(),
{
    let g = |r: JsonV| r.member_or_empty("n"@).len() > 0;
    let h = |r: JsonV|
        ServiceV {
            name: r.member_or_empty("n"@),
            display: r.member_or_empty("d"@),
            state: r.member_or_empty("s"@),
        };
    reveal(Seq::filter);
    if s.len() > 0 {
        every_printed_service_is_listed(s.drop_last());
        if g(s.last()) {
            assert(s.filter(g) == s.drop_last().filter(g).push(s.last()));
            assert(s.filter(g).map_values(h) =~= s.drop_last().filter(g).map_values(h).push(
                h(s.last()),
            ));
        }
    }
    assert(wmi_services(s) =~= s.filter(g).map_values(h));
}

proof fn lemma_service_placed(s: Seq<ServiceV>, x: ServiceV)
    requires
        forall|i: int, j: int|
            0 <= i < j < s.len() ==> !text::before(
                text::lowercase((#[trigger] s[j]).display),
                text::lowercase((#[trigger] s[i]).display),
            ),
    ensures
        ({
            let r = insert_service(s, x);
            &&& r.to_multiset() == s.to_multiset().insert(x)
            &&& r.len() == s.len() + 1
            &&& forall|i: int|
                0 <= i < r.len() ==> (#[trigger] r[i]) == x || s.contains(r[i])
            &&& forall|i: int, j: int|
                0 <= i < j < r.len() ==> !text::before(
                    text::lowercase((#[trigger] r[j]).display),
                    text::lowercase((#[trigger] r[i]).display),
                )
        }),
    decreases s.len(),
{
    broadcast use vstd::seq_lib::group_to_multiset_ensures;

    let r = insert_service(s, x);
    let k = text::lowercase(x.display);
    if s.len() == 0 || !text::before(text::lowercase(s[0].display), k) {
        assert(seq![x] + s =~= s.insert(0, x));
        vstd::seq_lib::to_multiset_insert(s, 0, x);
        assert forall|i: int| 0 <= i < r.len() implies (#[trigger] r[i]) == x || s.contains(r[i]) by {
            if i > 0 {
                assert(r[i] == s[i - 1]);
            }
        }
        assert forall|i: int, j: int| 0 <= i < j < r.len() implies !text::before(
            text::lowercase((#[trigger] r[j]).display),
            text::lowercase((#[trigger] r[i]).display),
        ) by {
            assert(r[j] == s[j - 1]);
            if i == 0 {
                let (a, b) = (text::lowercase(s[j - 1].display), text::lowercase(s[0].display));
                crate::text::lemma_before_total(a, b);
                crate::text::lemma_before_total(b, k);
                crate::text::lemma_before_total(a, k);
                if text::before(a, k) {
                    if j - 1 > 0 {
                        assert(!text::before(a, b));
                        if a == b {
                        } else {
                            crate::text::lemma_before_trans(b, a, k);
                        }
                    }
                }
            } else {
                assert(r[i] == s[i - 1]);
            }
        }
    } else {
        let t = s.drop_first();
        assert forall|i: int| 0 <= i < t.len() implies #[trigger] t[i] == s[i + 1] by {}
        lemma_service_placed(t, x);
        let u = insert_service(t, x);
        assert(seq![s[0]] + u =~= u.insert(0, s[0]));
        assert(s =~= t.insert(0, s[0]));
        vstd::seq_lib::to_multiset_insert(u, 0, s[0]);
        vstd::seq_lib::to_multiset_insert(t, 0, s[0]);
        assert(r.to_multiset() =~= s.to_multiset().insert(x));
        assert forall|i: int| 0 <= i < r.len() implies (#[trigger] r[i]) == x || s.contains(r[i]) by {
            if i > 0 {
                assert(r[i] == u[i - 1]);
                if u[i - 1] != x {
                    let n = choose|n: int| 0 <= n < t.len() && t[n] == u[i - 1];
                    assert(s[n + 1] == r[i]);
                }
            } else {
                assert(r[0] == s[0]);
            }
        }
        assert forall|i: int, j: int| 0 <= i < j < r.len() implies !text::before(
            text::lowercase((#[trigger] r[j]).display),
            text::lowercase((#[trigger] r[i]).display),
        ) by {
            assert(r[j] == u[j - 1]);
            if i == 0 {
                if u[j - 1] == x {
                    crate::text::lemma_before_total(text::lowercase(s[0].display), k);
                } else {
                    let n = choose|n: int| 0 <= n < t.len() && t[n] == u[j - 1];
                    assert(s[n + 1] == u[j - 1]);
                }
            } else {
                assert(r[i] == u[i - 1]);
            }
        }
    }
}

/// The services are listed by their display names, whatever the case of the letters, and each as
/// often as it was found.
pub proof fn services_stand_by_display_name(s: Seq<ServiceV>)
    ensures
        sort_services(s).to_multiset() == s.to_multiset(),
        sort_services(s).len() == s.len(),
        forall|i: int, j: int|
            0 <= i < j < s.len() ==> !text::before(
                text::lowercase((#[trigger] sort_services(s)[j]).display),
                text::lowercase((#[trigger] sort_services(s)[i]).display),
            ),
    decreases s.len(),
{
    if s.len() > 0 {
        let t = s.drop_first();
        services_stand_by_display_name(t);
        lemma_service_placed(sort_services(t), s[0]);
        assert(s =~= t.insert(0, s[0]));
        vstd::seq_lib::to_multiset_insert(t, 0, s[0]);
    }
}

/// The row of a service says its name, its display name, its state and how it starts, where that
/// is known.
pub proof fn a_row_describes_its_service(s: ServiceV, starts: Map<Seq<char>, Seq<char>>)
    ensures
        service_row(s, starts).member("name"@) == Some(JsonV::Str(s.name)),
        service_row(s, starts).member("display"@) == Some(JsonV::Str(s.display)),
        service_row(s, starts).member("state"@) == Some(JsonV::Str(s.state)),
        starts.contains_key(text::lowercase(s.name)) ==> service_row(s, starts).member("start"@)
            == Some(JsonV::Str(starts[text::lowercase(s.name)])),
        !starts.contains_key(text::lowercase(s.name)) ==> (service_row(s, starts).member("start"@)
            matches Some(JsonV::Str(t)) && t.len() == 0),
{
    reveal_strlit("name");
    reveal_strlit("display");
    reveal_strlit("state");
    reveal_strlit("start");
    assert("name"@.len() == 4 && "display"@.len() == 7 && "state"@.len() == 5 && "start"@.len()
        == 5);
    assert("state"@[4] == 'e' && "start"@[4] == 't');
}

/// The services are those of the service manager, where it tells of any; else those that a
/// script printed, and then the list says so in a last row. Where neither tells of any it is an
/// error.
pub proof fn services_come_from_the_manager_first(
    scm: Seq<ServiceV>,
    wmi: Seq<ServiceV>,
    starts: Map<Seq<char>, Seq<char>>,
)
    requires
        scm.len() <= 3000,
        wmi.len() <= 3000,
    ensures
        scm.len() > 0 ==> services_answer(scm, wmi, starts) == JsonV::Arr(
            Seq::new(scm.len(), |i: int| service_row(sort_services(scm)[i], starts)),
        ),
        scm.len() == 0 && wmi.len() > 0 ==> services_answer(scm, wmi, starts) == JsonV::Arr(
            Seq::new(wmi.len(), |i: int| service_row(sort_services(wmi)[i], starts)).push(
                degraded_row(),
            ),
        ),
        scm.len() == 0 && wmi.len() == 0 ==> services_answer(scm, wmi, starts).member("ok"@)
            == Some(JsonV::Bool(false)),
{
    services_stand_by_display_name(scm);
    services_stand_by_display_name(wmi);
    reveal_strlit("ok");
    reveal_strlit("error");
    assert("ok"@.len() == 2 && "error"@.len() == 5);
    assert(service_rows(sort_services(scm), starts) =~= Seq::new(
        scm.len(),
        |i: int| service_row(sort_services(scm)[i], starts),
    ));
    assert(service_rows(sort_services(wmi), starts) =~= Seq::new(
        wmi.len(),
        |i: int| service_row(sort_services(wmi)[i], starts),
    ));
}

/// The row at the end of a list that was cut says how much is missing.
pub proof fn a_cut_list_says_so(
    list: Seq<JsonV>,
    cap: nat,
    order: Seq<char>,
    noun: Seq<char>,
    lost: Seq<char>,
)
    requires
        list.len() > cap,
    ensures
        ({
            let v = capped_rows(list, cap, order, noun, lost).last();
            &&& v.member("truncated"@) == Some(JsonV::Bool(true))
            &&& v.member("total"@) == Some(JsonV::Int(list.len() as int))
            &&& v.member("returned"@) == Some(JsonV::Int(cap as int))
            &&& v.member("order"@) == Some(JsonV::Str(order))
        }),
        capped_rows(list, cap, order, noun, lost).drop_last() == list.take(cap as int),
{
    reveal_strlit("truncated");
    reveal_strlit("total");
    reveal_strlit("returned");
    reveal_strlit("order");
    reveal_strlit("name");
    assert("name"@.len() == 4);
    assert("total"@.len() == 5);
    assert("order"@.len() == 5);
    assert("order"@[0] == 'o');
    assert("total"@[0] == 't');
    assert("returned"@.len() == 8);
    assert("truncated"@.len() == 9);
    assert(capped_rows(list, cap, order, noun, lost).drop_last() =~= list.take(cap as int));
}

/// The lists of services and of processes are held to these lengths.
pub proof fn lists_are_held_to_a_length()
    ensures
        SERVICE_CAP == 3000,
        PROCESS_CAP == 2000,
{
}

/// The row of a list that the fallback answered says so, and which source it was.
pub proof fn a_fallback_says_so()
    ensures
        degraded_row().member("enumeration_degraded"@) == Some(JsonV::Bool(true)),
        degraded_row().member("source"@) == Some(JsonV::Str("wmi"@)),
        degraded_row().member("detail"@) is Some,
{
    reveal_strlit("enumeration_degraded");
    reveal_strlit("source");
    reveal_strlit("detail");
    assert("source"@.len() == 6);
    assert("detail"@.len() == 6);
    assert("detail"@[0] == 'd');
    assert("source"@[0] == 's');
    assert("enumeration_degraded"@.len() == 20);
}

} // verus!
