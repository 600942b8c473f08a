use sulltec_remote::command::ps_json_or_none;
use sulltec_remote::hosted::{
    bounded_answer, job_answer, keyset_answer, keyset_exec, keyset_requested, read_ask, run_job,
    Executor, KeysetPlan, Shape, NO_COMMAND,
};
use sulltec_remote::json::{from_text, json_eq, text_size, to_text, Json};
use sulltec_remote::keyset::{key_text, keyset_page, PAGE_BUDGET};

fn j(text: &str) -> Json {
    from_text(text).expect("a value")
}

fn rows(pids: &[i64]) -> Vec<Json> {
    pids.iter().map(|p| j(&format!("{{\"pid\":{p},\"name\":\"p{p}\"}}"))).collect()
}

fn items(page: &Json) -> &Vec<Json> {
    page.get("items").expect("items").as_array().expect("a list")
}

fn keys(page: &Json) -> Vec<i64> {
    items(page).iter().map(|r| r.get_i64("pid").expect("pid")).collect()
}

fn wide() -> Vec<Json> {
    (1..=200)
        .map(|p| Json::object().with("pid", Json::Int(p)).with("blob", Json::text(&"x".repeat(2000))))
        .collect()
}

#[test]
fn a_numeric_key_sorts_and_resumes_numerically() {
    let page = keyset_page(rows(&[10, 9, 100, 2]), "pid", None, 10, 0);
    assert_eq!(keys(&page), vec![2, 9, 10, 100], "sorted numerically: {page:?}");
    assert_eq!(page.get_str("last"), Some("100"), "last is the final key, rendered: {page:?}");
    let after_9 = keyset_page(rows(&[10, 9, 100, 2]), "pid", Some("9"), 10, 0);
    assert_eq!(keys(&after_9), vec![10, 100], "after is exclusive AND numeric: {after_9:?}");
}

#[test]
fn a_text_key_sorts_and_resumes_lexically() {
    let set = || -> Vec<Json> {
        ["spooler", "audiosrv", "bits"]
            .iter()
            .map(|n| Json::object().with("name", Json::text(n)))
            .collect()
    };
    let page = keyset_page(set(), "name", None, 10, 0);
    let got: Vec<&str> = items(&page).iter().map(|r| r.get_str("name").unwrap()).collect();
    assert_eq!(got, vec!["audiosrv", "bits", "spooler"], "{page:?}");
    let next = keyset_page(set(), "name", Some("bits"), 10, 0);
    assert_eq!(next.get_u64("count"), Some(1), "{next:?}");
    assert_eq!(items(&next)[0].get_str("name"), Some("spooler"), "{next:?}");
}

#[test]
fn more_survives_a_page_the_byte_budget_cut_short() {
    let page = keyset_page(wide(), "pid", None, 200, 0);
    let count = page.get_u64("count").expect("count");
    assert!(count < 200, "the budget must have cut this page short: {count}");
    assert!(count > 0, "a budget-cut page still carries rows");
    assert_eq!(page.get_bool("more"), Some(true), "rows remain, so more is true even though count < limit");
    assert_eq!(page.get_u64("total"), Some(200), "total is the WHOLE set, not the page");
    assert!(text_size(page.get("items").unwrap()) < PAGE_BUDGET + 4096);
}

#[test]
fn paging_the_whole_set_by_last_loses_and_repeats_nothing() {
    let all: Vec<i64> = (1..=25).collect();
    let mut seen: Vec<i64> = Vec::new();
    let mut after: Option<String> = None;
    loop {
        let page = keyset_page(rows(&all), "pid", after.as_deref(), 7, 0);
        seen.extend(keys(&page));
        if page.get_bool("more") != Some(true) {
            break;
        }
        after = Some(page.get_str("last").expect("more implies last").to_owned());
    }
    assert_eq!(seen, all, "every row exactly once, in key order");
}

#[test]
fn the_set_hash_ignores_the_order_of_rows() {
    let hash = |page: &Json| page.get_str("set_hash").expect("set_hash").to_owned();
    let a = keyset_page(rows(&[10, 9, 100, 2]), "pid", None, 10, 0);
    let b = keyset_page(rows(&[2, 100, 10, 9]), "pid", Some("9"), 1, 7);
    assert_eq!(hash(&a), hash(&b));
    let texts = |names: &[&str]| -> Vec<Json> {
        names.iter().map(|n| Json::object().with("k", Json::text(n))).collect()
    };
    let c = keyset_page(texts(&["b", "a", "10"]), "k", None, 10, 0);
    let d = keyset_page(texts(&["10", "b", "a"]), "k", Some("a"), 2, 0);
    assert_eq!(hash(&c), hash(&d));
}

#[test]
fn the_set_hash_covers_keys_only() {
    let a = keyset_page(vec![j("{\"pid\":1,\"cpu\":11}"), j("{\"pid\":2,\"cpu\":4}")], "pid", None, 10, 0);
    let b = keyset_page(vec![j("{\"pid\":1,\"cpu\":93}"), j("{\"pid\":2,\"cpu\":0}")], "pid", None, 10, 0);
    assert_eq!(a.get_str("set_hash"), b.get_str("set_hash"), "same membership, moved readings — same hash");
    let c = keyset_page(vec![j("{\"pid\":1,\"cpu\":11}"), j("{\"pid\":3,\"cpu\":4}")], "pid", None, 10, 0);
    assert_ne!(a.get_str("set_hash"), c.get_str("set_hash"), "membership changed — the hash must say so");
    let h = a.get_str("set_hash").expect("set_hash");
    assert_eq!(h.len(), 64, "sha-256, lowercase hex: {h}");
    assert!(h.chars().all(|c| c.is_ascii_hexdigit() && !c.is_ascii_uppercase()), "{h}");
}

#[test]
fn a_row_without_the_key_fails_the_page_rather_than_vanishing() {
    let page = keyset_page(vec![j("{\"pid\":1}"), j("{\"name\":\"orphan\"}")], "pid", None, 10, 0);
    assert_eq!(page.get_bool("ok"), Some(false), "{page:?}");
    assert!(page.get_str("error").is_some_and(|e| e.contains("pid")), "and it names the key: {page:?}");
}

#[test]
fn an_empty_set_is_ok_and_complete() {
    let page = keyset_page(Vec::new(), "pid", None, 10, 0);
    assert_eq!(page.get_bool("ok"), Some(true), "{page:?}");
    assert_eq!(page.get_u64("count"), Some(0), "{page:?}");
    assert_eq!(page.get_u64("total"), Some(0), "{page:?}");
    assert_eq!(page.get_bool("more"), Some(false), "{page:?}");
    assert!(page.get("last").is_none(), "nothing to resume from: {page:?}");
}

#[test]
fn only_a_non_empty_exec_selects_the_hosted_path() {
    assert!(!keyset_requested(None));
    assert!(!keyset_requested(Some("{}")));
    assert!(!keyset_requested(Some(r#"{"limit":500}"#)), "the old params must still fall through");
    assert!(!keyset_requested(Some(r#"{"exec":"  "}"#)));
    assert!(!keyset_requested(Some("not json")));
    assert!(keyset_requested(Some(r#"{"exec":"powershell","command":"x","key":"pid"}"#)));
}

#[test]
fn an_unknown_executor_and_a_missing_param_both_refuse() {
    let KeysetPlan::Refuse(v) = keyset_exec(Some(r#"{"exec":"wmi","command":"select * from x","key":"id"}"#)) else {
        panic!("a result")
    };
    assert_eq!(v.get_bool("ok"), Some(false), "{v:?}");
    assert!(v.get_str("error").is_some_and(|e| e.contains("wmi")), "{v:?}");
    let KeysetPlan::Refuse(no_cmd) = keyset_exec(Some(r#"{"exec":"powershell","key":"pid"}"#)) else {
        panic!("a result")
    };
    assert_eq!(no_cmd.get_bool("ok"), Some(false), "{no_cmd:?}");
    for contradiction in [
        r#"{"exec":"powershell","command":"x","after":"9"}"#,
        r#"{"exec":"powershell","command":"x","limit":10}"#,
    ] {
        let KeysetPlan::Refuse(v) = keyset_exec(Some(contradiction)) else {
            panic!("a result")
        };
        assert_eq!(v.get_bool("ok"), Some(false), "{v:?}");
        assert!(v.get_str("error").is_some_and(|e| e.contains("key")), "{v:?}");
    }
}

#[test]
fn a_bounded_ask_answers_whole_and_offers_no_continuation() {
    let page = bounded_answer(&rows(&[900]), 1234);
    assert_eq!(page.get_bool("ok"), Some(true), "{page:?}");
    assert_eq!(keys(&page), vec![900], "{page:?}");
    assert_eq!(page.get_u64("count"), Some(1), "{page:?}");
    assert_eq!(page.get_i64("collected_at"), Some(1234), "{page:?}");
    for absent in ["more", "last", "set_hash", "total", "truncated"] {
        assert!(page.get(absent).is_none(), "a bounded answer states no `{absent}`: {page:?}");
    }
    let cut = bounded_answer(&wide(), 0);
    assert_eq!(cut.get_bool("truncated"), Some(true));
    assert_eq!(cut.get_u64("total"), Some(200));
    assert!(cut.get_u64("count").is_some_and(|n| n > 0 && n < 200));
}

#[test]
fn a_key_renders_the_way_the_cursor_spells_it() {
    assert_eq!(key_text(&Json::Int(1234)), Some("1234".to_owned()));
    assert_eq!(key_text(&Json::text("spooler")), Some("spooler".to_owned()));
    assert_eq!(key_text(&Json::Null), None, "null is not an identity");
    assert_eq!(key_text(&j("[1]")), None, "nor is a list");
}

#[test]
fn json_null_is_not_a_value() {
    assert!(ps_json_or_none(Json::Null).is_none());
}

#[test]
fn every_other_shape_survives() {
    for text in ["{}", "[]", "{\"ok\":false,\"error\":\"x\"}", "0", "false", "\"\""] {
        let v = j(text);
        let kept = ps_json_or_none(v.copy()).expect("a value");
        assert!(json_eq(&kept, &v), "{text} must not be swallowed");
    }
}

#[test]
fn a_page_has_these_members() {
    let page = keyset_page(rows(&[2, 1]), "pid", None, 1, 77);
    assert_eq!(page.get_u64("total"), Some(2));
    assert_eq!(page.get_u64("count"), Some(1));
    assert_eq!(page.get_bool("more"), Some(true));
    assert_eq!(page.get_str("last"), Some("1"));
    assert_eq!(page.get_i64("collected_at"), Some(77));
    // sha-256 over the keys "1" and "2", a line each.
    let h = page.get_str("set_hash").unwrap();
    let again = keyset_page(rows(&[1, 2]), "pid", Some("1"), 9, 0);
    assert_eq!(again.get_str("set_hash"), Some(h), "the digest is of the whole set, not of the page");
}

#[test]
fn a_plan_is_read_from_the_ask() {
    let plan = keyset_exec(Some(
        r#"{"exec":" native ","command":"tool","key":" pid ","after":9,"limit":"5","timeout_s":999999,"x":1}"#,
    ));
    let KeysetPlan::Run { executor, command, timeout_s, ask, shape } = plan else {
        panic!("a plan")
    };
    assert!(matches!(executor, Executor::Native));
    assert_eq!(command, "tool");
    assert_eq!(timeout_s, 21600);
    assert!(ask.contains("\"x\":1"), "{ask}");
    let Shape::Page { key, after, limit } = shape else { panic!("a page") };
    assert_eq!(key, "pid");
    assert_eq!(after, Some("9".to_owned()));
    assert_eq!(limit, 5);
}

#[test]
fn an_answer_takes_the_shape_of_its_ask() {
    let bounded = keyset_answer(rows(&[3]), Shape::Bounded, 5);
    assert!(bounded.get("total").is_none());
    let page = keyset_answer(
        rows(&[3]),
        Shape::Page { key: "pid".to_owned(), after: None, limit: 10 },
        5,
    );
    assert_eq!(page.get_u64("total"), Some(1));
}

#[test]
fn a_job_without_a_command_is_refused() {
    let (status, text) = run_job(&read_ask(Some("{}"))).expect("a refusal");
    assert_eq!(status, "error");
    assert_eq!(text, NO_COMMAND);
    assert!(run_job(&read_ask(Some(r#"{"exec":"native"}"#))).is_none());
    let (failed, _) = job_answer(None);
    assert_eq!(failed, "error");
    let (done, text) = job_answer(Some(j("{\"ok\":true}")));
    assert_eq!(done, "done");
    assert_eq!(text, to_text(&j("{\"ok\":true}")));
}
