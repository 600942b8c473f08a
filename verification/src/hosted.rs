//! Jobs whose command comes from the console: what is asked, how it is run, and what its result
//! is answered with.
use vstd::prelude::*;

use crate::json;
use crate::keyset;
use crate::num;
use crate::text;
use crate::json::{from_text, to_text, Json, JsonV};
use crate::keyset::{key_text, keyset_error, keyset_page, page_within_budget};
use crate::num::parse_i64;
use crate::text::{cat3, is_blank, same, trim};

verus! {

/// How long a command may take where the ask does not say, in seconds.
pub const PS_RUN_DEFAULT_SECS: u64 = 3600;

/// How long a command may take at most, in seconds.
pub const PS_RUN_HARD_MAX_SECS: u64 = 21600;

/// The value that a text holds; null where it holds none, or where there is no text.
pub open spec fn ask_of(params: Option<Seq<char>>) -> JsonV {
    match params {
        Some(s) => match json::parsed(s) {
            Some(j) => j,
            None => JsonV::Null,
        },
        None => JsonV::Null,
    }
}

/// Reads the parameters of a job.
pub fn read_ask(params: Option<&str>) -> (r: Json)
    ensures
        r@ == ask_of(text::opt_str(params)),
{
    match params {
        Some(s) => match from_text(s) {
            Some(j) => j,
            None => Json::Null,
        },
        None => Json::Null,
    }
}

/// An ask names an executor.
pub open spec fn hosted(p: JsonV) -> bool {
    match p.member_text("exec"@) {
        Some(e) => !text::blank(e),
        None => false,
    }
}

/// Whether an ask names an executor.
pub fn is_hosted(p: &Json) -> (r: bool)
    ensures
        r == hosted(p@),
{
    match p.get_str("exec") {
        Some(e) => !is_blank(e),
        None => false,
    }
}

/// Whether the parameters of a job bring a command with them.
pub fn keyset_requested(params: Option<&str>) -> (r: bool)
    ensures
        r == hosted(ask_of(text::opt_str(params))),
{
    let p = read_ask(params);
    is_hosted(&p)
}

/// An ask without the fields that belong to the transport.
pub open spec fn hosted_ask_v(p: JsonV) -> JsonV {
    let o = match p {
        JsonV::Obj(m) => p,
        _ => JsonV::empty(),
    };
    o.without("exec"@).without("command"@).without("key"@).without("limit"@).without(
        "timeout_s"@,
    ).without("after"@)
}

/// An ask without the fields that belong to the transport.
pub fn selectors(p: &Json) -> (r: Json)
    ensures
        r@ == hosted_ask_v(p@),
{
    let o = if p.is_object() {
        p.copy()
    } else {
        Json::object()
    };
    o.without("exec").without("command").without("key").without("limit").without(
        "timeout_s",
    ).without("after")
}

/// The text of an ask that a command is handed.
pub fn hosted_ask(p: &Json) -> (r: String)
    ensures
        r@ == json::compact(hosted_ask_v(p@)),
{
    to_text(&selectors(p))
}

/// A number that may be spelled as one or as a text.
pub open spec fn loose_int(v: JsonV) -> Option<int> {
    match v.int64() {
        Some(n) => Some(n),
        None => match v.text() {
            Some(s) => num::parse_sint(text::trim_v(s), i64::MIN as int, i64::MAX as nat),
            None => None,
        },
    }
}

/// A number that may be spelled as one or as a text.
pub fn as_i64_loose(v: &Json) -> (r: Option<i64>)
    ensures
        match r {
            Some(n) => loose_int(v@) == Some(n as int),
            None => loose_int(v@) is None,
        },
{
    match v.as_i64() {
        Some(n) => Some(n),
        None => match v.as_str() {
            Some(s) => parse_i64(trim(s).as_str()),
            None => None,
        },
    }
}

/// A positive number under a name.
pub open spec fn positive_member(p: JsonV, key: Seq<char>) -> Option<int> {
    match p.member(key) {
        Some(v) => match loose_int(v) {
            Some(n) => if n > 0 {
                Some(n)
            } else {
                None
            },
            None => None,
        },
        None => None,
    }
}

fn get_positive(p: &Json, key: &str) -> (r: Option<u64>)
    ensures
        match r {
            Some(n) => positive_member(p@, key@) == Some(n as int) && n <= i64::MAX,
            None => positive_member(p@, key@) is None,
        },
{
    match p.get(key) {
        Some(v) => match as_i64_loose(v) {
            Some(n) => if n > 0 {
                Some(n as u64)
            } else {
                None
            },
            None => None,
        },
        None => None,
    }
}

/// How long a command may take.
pub open spec fn timeout_of(p: JsonV) -> int {
    match positive_member(p, "timeout_s"@) {
        Some(n) => if n <= PS_RUN_HARD_MAX_SECS {
            n
        } else {
            PS_RUN_HARD_MAX_SECS as int
        },
        None => PS_RUN_DEFAULT_SECS as int,
    }
}

/// The answer of a read that is not paged: as many rows as the budget admits, and how many
/// there were where it cut some off.
pub open spec fn bounded_v(rows: Seq<JsonV>, collected_at: int) -> JsonV {
    let items = keyset::page_of(rows, u64::MAX as int);
    let out = JsonV::empty().with("ok"@, JsonV::Bool(true)).with("items"@, JsonV::Arr(items)).with(
        "count"@,
        JsonV::Int(items.len() as int),
    ).with("collected_at"@, JsonV::Int(collected_at));
    if items.len() < rows.len() {
        out.with("truncated"@, JsonV::Bool(true)).with("total"@, JsonV::Int(rows.len() as int))
    } else {
        out
    }
}

/// The answer of a read that is not paged.
pub fn bounded_answer(rows: &Vec<Json>, collected_at: i64) -> (r: Json)
    ensures
        r@ == bounded_v(json::models(rows@), collected_at as int),
{
    let total: usize = rows.len();
    let items = page_within_budget(rows, u64::MAX);
    let count: usize = items.len();
    proof {
        assert(json::models(items@).len() == count);
    }
    let out = Json::object().with("ok", Json::Bool(true)).with("items", Json::array(items)).with(
        "count",
        Json::UInt(count as u64),
    ).with("collected_at", Json::Int(collected_at));
    if count < total {
        out.with("truncated", Json::Bool(true)).with("total", Json::UInt(total as u64))
    } else {
        out
    }
}

/// What runs a command.
#[derive(Clone, Copy, PartialEq, Eq, Structural)]
pub enum Executor {
    Builtin,
    PowerShell,
    Native,
}

/// How the rows of a command are answered.
pub enum Shape {
    /// As one page of a set in the order of a key.
    Page { key: String, after: Option<String>, limit: u64 },
    /// As one bounded list.
    Bounded,
}

/// What is to be done with an ask.
pub enum KeysetPlan {
    /// The ask is answered with an error.
    Refuse(Json),
    /// A command is to be run and its rows answered.
    Run { executor: Executor, command: String, timeout_s: u64, ask: String, shape: Shape },
}

/// The key that an ask pages by.
pub open spec fn ask_key(p: JsonV) -> Seq<char> {
    text::trim_v(p.member_or_empty("key"@))
}

/// The cursor of an ask.
pub open spec fn ask_after(p: JsonV) -> Option<Seq<char>> {
    match p.member("after"@) {
        Some(v) => keyset::key_text_v(v),
        None => None,
    }
}

/// The error that an ask is refused with, where it is refused.
pub open spec fn refusal(p: JsonV) -> Option<Seq<char>> {
    let exec = text::trim_v(p.member_or_empty("exec"@));
    if text::blank(p.member_or_empty("command"@)) {
        Some("a backend-hosted collector needs a command to run"@)
    } else if ask_key(p).len() == 0 && (ask_after(p) is Some || p.member("limit"@) is Some) {
        Some(
            "a paged collector needs the key field that identifies a row; an ask with a cursor or a page limit and no key is neither a cycle nor a bounded read"@,
        )
    } else if exec != "builtin"@ && exec != "powershell"@ && exec != "native"@ {
        Some("this client has no '"@ + exec + "' executor"@)
    } else {
        None
    }
}

/// The executor that an ask names.
pub open spec fn executor_v(p: JsonV) -> Executor {
    let exec = text::trim_v(p.member_or_empty("exec"@));
    if exec == "builtin"@ {
        Executor::Builtin
    } else if exec == "powershell"@ {
        Executor::PowerShell
    } else {
        Executor::Native
    }
}

/// The shape of the answer that an ask wants.
pub open spec fn shape_ok(p: JsonV, shape: Shape) -> bool {
    if ask_key(p).len() == 0 {
        shape is Bounded
    } else {
        &&& shape is Page
        &&& shape->key@ == ask_key(p)
        &&& text::opt_text(shape->after) == ask_after(p)
        &&& shape->limit == (match positive_member(p, "limit"@) {
            Some(n) => n,
            None => u64::MAX as int,
        })
    }
}

/// The plan is the one for an ask: it is refused, or its command is run and its rows answered in
/// the shape that the ask wants.
pub open spec fn plan_of(r: KeysetPlan, p: JsonV) -> bool {
    match r {
        KeysetPlan::Refuse(j) => refusal(p) is Some && j@ == keyset::error_v(refusal(p)->0),
        KeysetPlan::Run { executor, command, timeout_s, ask, shape } => {
            &&& refusal(p) is None
            &&& executor == executor_v(p)
            &&& command@ == p.member_or_empty("command"@)
            &&& timeout_s == timeout_of(p)
            &&& ask@ == json::compact(hosted_ask_v(p))
            &&& shape_ok(p, shape)
        },
    }
}

/// Plans an ask: it is refused, or its command is run and its rows answered in the shape that
/// the ask wants.
pub fn keyset_plan(p: &Json) -> (r: KeysetPlan)
    ensures
        plan_of(r, p@),
{
    let exec = trim(p.get_str_or_empty("exec").as_str());
    let command = p.get_str_or_empty("command");
    let key = trim(p.get_str_or_empty("key").as_str());
    if is_blank(command.as_str()) {
        return KeysetPlan::Refuse(
            keyset_error("a backend-hosted collector needs a command to run"),
        );
    }
    let after: Option<String> = match p.get("after") {
        Some(v) => key_text(v),
        None => None,
    };
    let limit: u64 = match get_positive(p, "limit") {
        Some(n) => n,
        None => u64::MAX,
    };
    let paged = !key.as_str().is_empty();
    if !paged && (after.is_some() || p.get("limit").is_some()) {
        return KeysetPlan::Refuse(
            keyset_error(
                "a paged collector needs the key field that identifies a row; an ask with a cursor or a page limit and no key is neither a cycle nor a bounded read",
            ),
        );
    }
    let timeout_s: u64 = match get_positive(p, "timeout_s") {
        Some(n) => if n <= PS_RUN_HARD_MAX_SECS {
            n
        } else {
            PS_RUN_HARD_MAX_SECS
        },
        None => PS_RUN_DEFAULT_SECS,
    };
    let builtin = same(exec.as_str(), "builtin");
    let powershell = same(exec.as_str(), "powershell");
    let native = same(exec.as_str(), "native");
    if !builtin && !powershell && !native {
        return KeysetPlan::Refuse(
            keyset_error(cat3("this client has no '", exec.as_str(), "' executor").as_str()),
        );
    }
    let executor = if builtin {
        Executor::Builtin
    } else if powershell {
        Executor::PowerShell
    } else {
        Executor::Native
    };
    let ask = hosted_ask(p);
    let shape = if paged {
        Shape::Page { key, after, limit }
    } else {
        Shape::Bounded
    };
    KeysetPlan::Run { executor, command, timeout_s, ask, shape }
}

/// The answer that rows are shaped into.
pub open spec fn shaped(rows: Seq<JsonV>, shape: Shape, collected_at: int) -> JsonV {
    match shape {
        Shape::Page { key, after, limit } => keyset::keyset_page_v(
            rows,
            key@,
            text::opt_text(after),
            limit as int,
            collected_at,
        ),
        Shape::Bounded => bounded_v(rows, collected_at),
    }
}

/// Answers an ask with the rows that its command produced.
pub fn keyset_answer(rows: Vec<Json>, shape: Shape, collected_at: i64) -> (r: Json)
    ensures
        r@ == shaped(json::models(rows@), shape, collected_at as int),
{
    match shape {
        Shape::Page { key, after, limit } => match after {
            Some(a) => keyset_page(rows, key.as_str(), Some(a.as_str()), limit, collected_at),
            None => keyset_page(rows, key.as_str(), None, limit, collected_at),
        },
        Shape::Bounded => bounded_answer(&rows, collected_at),
    }
}

/// The status and the text that a job is answered with.
pub open spec fn answer_v(value: Option<JsonV>) -> (Seq<char>, Seq<char>) {
    match value {
        Some(v) => if v is Null {
            (
                "error"@,
                "the job produced no result (the command failed, or this client cannot run it)"@,
            )
        } else {
            ("done"@, json::compact(v))
        },
        None => (
            "error"@,
            "the job produced no result (the command failed, or this client cannot run it)"@,
        ),
    }
}

/// The status and the text that a job is answered with: its value as text, or that there was
/// none.
pub fn job_answer(value: Option<Json>) -> (r: (&'static str, String))
    ensures
        (r.0@, r.1@) == answer_v(json::opt_model(value)),
{
    match value {
        Some(v) => if v.is_null() {
            (
                "error",
                "the job produced no result (the command failed, or this client cannot run it)".to_owned(),
            )
        } else {
            ("done", to_text(&v))
        },
        None => (
            "error",
            "the job produced no result (the command failed, or this client cannot run it)".to_owned(),
        ),
    }
}

/// What is to be done with the parameters of a job.
pub fn keyset_exec(params: Option<&str>) -> (r: KeysetPlan)
    ensures
        plan_of(r, ask_of(text::opt_str(params))),
{
    keyset_plan(&read_ask(params))
}

/// What is answered to a job that brings no command.
pub const NO_COMMAND: &'static str =
    "this job carried no command to run: the client runs what the dispatch brings with it, so an ask arriving without one has not been hosted by the backend yet";

/// The answer to a job that brings no command; none where it brings one, which is then run.
pub fn run_job(p: &Json) -> (r: Option<(&'static str, String)>)
    ensures
        match r {
            Some(a) => !hosted(p@) && a.0@ == "error"@ && a.1@ == NO_COMMAND@,
            None => hosted(p@),
        },
{
    if is_hosted(p) {
        None
    } else {
        Some(("error", NO_COMMAND.to_owned()))
    }
}

/// What a hosted command is asked is the ask without what selects and frames the command, and
/// with everything else.
pub proof fn a_command_is_asked_the_rest(m: Map<Seq<char>, JsonV>, k: Seq<char>)
    ensures
        ({
            let frame = k == "exec"@ || k == "command"@ || k == "key"@ || k == "limit"@ || k
                == "timeout_s"@ || k == "after"@;
            &&& frame ==> hosted_ask_v(JsonV::Obj(m)).member(k) is None
            &&& !frame ==> hosted_ask_v(JsonV::Obj(m)).member(k) == JsonV::Obj(m).member(k)
        }),
{
}

/// A number is taken as it is or from its text; no other value is one.
pub proof fn numbers_come_loose(n: int, s: Seq<char>)
    ensures
        i64::MIN <= n <= i64::MAX ==> loose_int(JsonV::Int(n)) == Some(n),
        loose_int(JsonV::Str(s)) == num::parse_sint(
            text::trim_v(s),
            i64::MIN as int,
            i64::MAX as nat,
        ),
        loose_int(JsonV::Null) is None,
        loose_int(JsonV::Bool(true)) is None,
{
}

/// A command is waited for as long as is asked, for an hour where nothing is asked, and never
/// longer than six hours.
pub proof fn a_wait_is_bounded(p: JsonV, n: int)
    requires
        i64::MIN <= n <= i64::MAX,
    ensures
        p.member("timeout_s"@) == Some(JsonV::Int(n)) ==> timeout_of(p) == (if n <= 0 {
            3600
        } else if n <= 21600 {
            n
        } else {
            21600
        }),
        p.member("timeout_s"@) is None ==> timeout_of(p) == 3600,
{
}

/// What a hosted ask is planned as: it runs its command with the executor that it names, for the
/// time that it asks, and is answered as a page where it gives a key. It is refused where it has
/// no command, names no executor of this client, or asks for a page without a key.
pub proof fn a_hosted_ask_is_planned_as_it_says(p: JsonV, r: KeysetPlan)
    requires
        plan_of(r, p),
    ensures
        ({
            let exec = text::trim_v(p.member_or_empty("exec"@));
            let key = text::trim_v(p.member_or_empty("key"@));
            let cursor = p.member("after"@) matches Some(v) && (v is Str || v is Int || v is Real);
            &&& r is Refuse <==> {
                ||| text::trim_v(p.member_or_empty("command"@)).len() == 0
                ||| key.len() == 0 && (cursor || p.member("limit"@) is Some)
                ||| exec != "builtin"@ && exec != "powershell"@ && exec != "native"@
            }
            &&& r matches KeysetPlan::Run { executor, command, timeout_s, ask: _, shape } ==> {
                &&& executor == Executor::Builtin <==> exec == "builtin"@
                &&& executor == Executor::PowerShell <==> exec == "powershell"@
                &&& executor == Executor::Native <==> exec == "native"@
                &&& command@ == p.member_or_empty("command"@)
                &&& timeout_s == timeout_of(p)
                &&& shape is Bounded <==> key.len() == 0
                &&& shape matches Shape::Page { key: k, after, limit: _ } ==> k@ == key && (after is Some <==> cursor)
            }
        }),
{
    reveal_strlit("builtin");
    reveal_strlit("powershell");
    reveal_strlit("native");
    assert("builtin"@.len() == 7 && "powershell"@.len() == 10 && "native"@.len() == 6);
}

/// The cursor and the limit of a page are those of the ask; without a limit above zero there is
/// none.
pub proof fn a_page_is_asked_for(p: JsonV, shape: Shape, after: Seq<char>, n: int)
    requires
        shape_ok(p, shape),
        shape is Page,
        0 < n <= i64::MAX,
    ensures
        p.member("after"@) == Some(JsonV::Str(after)) ==> shape->after is Some && shape->after->0@
            == after,
        p.member("limit"@) == Some(JsonV::Int(n)) ==> shape->limit == n,
        p.member("limit"@) is None ==> shape->limit == u64::MAX,
{
}

/// A job with a result is done, with the text of the result; one without is an error.
pub proof fn a_job_with_a_result_is_done(v: JsonV)
    ensures
        !(v is Null) ==> answer_v(Some(v)) == ("done"@, json::compact(v)),
        answer_v(None).0 == "error"@,
        answer_v(Some(JsonV::Null)).0 == "error"@,
{
}

/// A bounded answer holds the first rows, as many as fit, and says how many there were where it
/// does not hold them all.
pub proof fn a_bounded_answer_says_what_it_holds(rows: Seq<JsonV>, collected_at: int)
    requires
        rows.len() <= u64::MAX,
    ensures
        ({
            let v = bounded_v(rows, collected_at);
            let items = v.member("items"@)->0->Arr_0;
            &&& v.member("items"@) matches Some(JsonV::Arr(_))
            &&& items.is_prefix_of(rows)
            &&& v.member("ok"@) == Some(JsonV::Bool(true))
            &&& v.member("count"@) == Some(JsonV::Int(items.len() as int))
            &&& v.member("collected_at"@) == Some(JsonV::Int(collected_at))
            &&& items.len() == rows.len() ==> v.member("truncated"@) is None
            &&& items.len() < rows.len() ==> v.member("truncated"@) == Some(JsonV::Bool(true))
                && v.member("total"@) == Some(JsonV::Int(rows.len() as int))
        }),
{
    crate::keyset::a_page_is_as_full_as_it_may_be(rows, u64::MAX as int);
    reveal_strlit("ok");
    reveal_strlit("items");
    reveal_strlit("count");
    reveal_strlit("collected_at");
    reveal_strlit("truncated");
    reveal_strlit("total");
    assert("ok"@.len() == 2 && "items"@.len() == 5 && "count"@.len() == 5 && "total"@.len() == 5);
    assert("items"@[0] == 'i' && "count"@[0] == 'c' && "total"@[0] == 't');
    assert("collected_at"@.len() == 12 && "truncated"@.len() == 9);
}

/// An ask is read from its text; where there is none, or it holds no value, nothing is asked.
pub proof fn an_ask_is_read_from_its_text(t: Seq<char>, v: JsonV)
    ensures
        json::parsed(t) == Some(v) ==> ask_of(Some(t)) == v,
        json::parsed(t) is None ==> ask_of(Some(t)) == JsonV::Null,
        ask_of(None) == JsonV::Null,
        hosted(v) <==> v.member("exec"@) is Some && v.member("exec"@)->0 is Str && text::trim_v(
            (v.member("exec"@)->0)->Str_0,
        ).len() > 0,
{
}

/// Why an ask is refused: it has no command, it pages without a key, or it names no executor that
/// there is. The three executors go by their names.
pub proof fn an_ask_is_refused_for_a_reason(p: JsonV, exec: Seq<char>, command: Seq<char>)
    requires
        p.member("exec"@) == Some(JsonV::Str(exec)),
        text::trim_v(exec) == exec,
    ensures
        p.member("command"@) is None ==> refusal(p) == Some(
            "a backend-hosted collector needs a command to run"@,
        ),
        p.member("command"@) == Some(JsonV::Str(command)) && text::trim_v(command).len() > 0 ==> ({
            let unpaged = p.member("after"@) is None && p.member("limit"@) is None;
            let keyed = text::trim_v(p.member_or_empty("key"@)).len() > 0;
            let known = exec == "builtin"@ || exec == "powershell"@ || exec == "native"@;
            &&& known && (keyed || unpaged) ==> refusal(p) is None
            &&& !known && (keyed || unpaged) ==> refusal(p) == Some(
                "this client has no '"@ + exec + "' executor"@,
            )
            &&& !keyed && p.member("limit"@) is Some ==> refusal(p) is Some
        }),
        exec == "builtin"@ ==> executor_v(p) == Executor::Builtin,
        exec == "powershell"@ ==> executor_v(p) == Executor::PowerShell,
        exec == "native"@ ==> executor_v(p) == Executor::Native,
{
    reveal_strlit("builtin");
    reveal_strlit("powershell");
    reveal_strlit("native");
    assert("native"@.len() == 6);
    assert("builtin"@.len() == 7);
    assert("powershell"@.len() == 10);
}

/// A positive number counts, and no other.
pub proof fn a_positive_number_counts(p: JsonV, key: Seq<char>, n: int)
    requires
        p.member(key) == Some(JsonV::Int(n)),
        i64::MIN <= n <= i64::MAX,
    ensures
        n > 0 ==> positive_member(p, key) == Some(n),
        n <= 0 ==> positive_member(p, key) is None,
{
}

} // verus!
