use sulltec_remote::json::{from_text, to_text, Json};
use sulltec_remote::policy::Overrides;
use sulltec_remote::services::{
    cap_rows, enum_services, enum_services_wmi, service_start_types, services, start_label,
    ListedService, Service, StartFacts, PROCESS_CAP, PROCESS_ORDER, SERVICE_ORDER,
};
use sulltec_remote::snapshot::{processes, ProcessInfo};

fn rows(n: usize) -> Vec<Json> {
    (0..n)
        .map(|i| {
            Json::object()
                .with("pid", Json::UInt(i as u64 + 1))
                .with("name", Json::text(&format!("p{i}.exe")))
                .with("cpu", Json::Real("0.0".to_owned()))
                .with("mem_mb", Json::Real(format!("{}.0", n - i)))
        })
        .collect()
}

fn cap_processes(list: Vec<Json>, cap: usize) -> Vec<Json> {
    cap_rows(list, cap, PROCESS_ORDER, "processes", "lowest-memory")
}

fn marker(list: &[Json]) -> Option<&Json> {
    list.last().filter(|v| v.get_bool("truncated") == Some(true))
}

fn number(v: &Json, key: &str) -> Option<f64> {
    match v.get(key) {
        Some(Json::Real(t)) => t.parse().ok(),
        _ => None,
    }
}

#[test]
fn under_and_at_the_cap_are_untouched() {
    for n in [0usize, 1, 7, 10] {
        let out = cap_processes(rows(n), 10);
        assert_eq!(out.len(), n, "{n} rows under a cap of 10 must pass through");
        assert!(marker(&out).is_none(), "no marker when nothing was dropped ({n} rows)");
    }
}

#[test]
fn over_the_cap_declares_the_truncation() {
    let out = cap_processes(rows(25), 10);
    assert_eq!(out.len(), 11, "10 kept rows plus one marker");

    assert_eq!(number(&out[0], "mem_mb"), Some(25.0));
    assert_eq!(number(&out[9], "mem_mb"), Some(16.0));

    let m = marker(&out).expect("the marker is the last row");
    assert_eq!(m.get_u64("total"), Some(25), "the TRUE total, not the returned count");
    assert_eq!(m.get_u64("returned"), Some(10));
    assert_eq!(m.get_str("order"), Some(PROCESS_ORDER), "a caller must know which tail it lost");

    assert!(m.get("pid").is_none(), "the marker must never look like a killable process");
    let name = m.get_str("name").unwrap_or_default();
    assert!(name.starts_with("!truncated"), "the rendered name must read as a notice: {name}");
    assert!(name.contains("15 lowest-memory rows"), "say what was dropped, not just that some was: {name}");
}

fn svc(i: usize) -> Json {
    Json::object()
        .with("name", Json::text(&format!("svc{i}")))
        .with("display", Json::text(&format!("Service {i}")))
        .with("state", Json::text("running"))
        .with("start", Json::text("auto"))
}

fn declares_its_cut() {
    let under = || -> Vec<Json> { (0..10usize).map(svc).collect() };
    assert_eq!(
        cap_rows(under(), 3000, SERVICE_ORDER, "services", "last-alphabetically").len(),
        10,
        "under the cap, untouched"
    );
    assert!(cap_rows(under(), 3000, SERVICE_ORDER, "services", "last-alphabetically")
        .iter()
        .all(|r| r.get("truncated").is_none()));

    let over: Vec<Json> = (0..25usize).map(svc).collect();
    let out = cap_rows(over, 10, SERVICE_ORDER, "services", "last-alphabetically");
    assert_eq!(out.len(), 11, "10 rows + one marker");
    let m = out.last().expect("marker");
    assert_eq!(m.get_bool("truncated"), Some(true));
    assert_eq!(m.get_u64("total"), Some(25), "the TRUE count, not what was returned");
    assert_eq!(m.get_u64("returned"), Some(10));
    assert_eq!(m.get_str("order"), Some(SERVICE_ORDER));
    let name = m.get_str("name").unwrap_or_default();
    assert!(name.contains("15 last-alphabetically"), "say WHICH rows went: {name}");
    assert!(
        m.get("display").is_none() && m.get("state").is_none() && m.get("start").is_none(),
        "{m:?}"
    );
}

#[test]
fn console_snapshot_services_declares_its_cut_in_the_shared_marker_shape() {
    declares_its_cut();
}

#[test]
fn jobs_services_declares_its_cut_in_the_shared_marker_shape() {
    declares_its_cut();
}

#[test]
fn the_production_cap_fits_the_job_result_store() {
    let out = cap_processes(rows(PROCESS_CAP + 5), PROCESS_CAP);
    assert_eq!(out.len(), PROCESS_CAP + 1);
    let wide: Vec<Json> = (0..PROCESS_CAP)
        .map(|i| {
            Json::object()
                .with("pid", Json::UInt(i as u64))
                .with("name", Json::text("Microsoft.SharePoint.Portal.Worker.exe"))
                .with("cpu", Json::Real("12.5".to_owned()))
                .with("mem_mb", Json::Real("1234.5".to_owned()))
        })
        .collect();
    let bytes = to_text(&Json::array(wide)).len();
    assert!(bytes < 256 * 1024, "a full page of wide rows is {bytes} bytes, over the 256 KiB store cap");
}

#[test]
fn the_marker_is_spelled_like_this() {
    let out = cap_processes(rows(3), 2);
    assert_eq!(
        out[2].get_str("name"),
        Some(
            "!truncated \u{2014} 3 processes present, 2 shown (ordered by mem_mb desc); the 1 \
             lowest-memory rows are NOT in this list"
        )
    );
}

fn process(pid: u32, memory: u64) -> ProcessInfo {
    ProcessInfo { pid, name: format!("p{pid}"), cpu: "1.5".to_owned(), memory }
}

#[test]
fn processes_come_heaviest_first() {
    let mb = 1024 * 1024;
    // The first two round to the same tenth, and stay as they came.
    let out = processes(&vec![process(1, 5 * mb), process(2, 5 * mb + 10), process(3, 90 * mb), process(4, 0)]);
    let pids: Vec<u64> = out.iter().map(|r| r.get_u64("pid").unwrap()).collect();
    assert_eq!(pids, vec![3, 1, 2, 4]);
    assert_eq!(to_text(&out[0]), r#"{"cpu":1.5,"mem_mb":90.0,"name":"p3","pid":3}"#);
    // A half of a tenth counts up.
    let half = processes(&vec![process(9, 52_429)]);
    assert_eq!(to_text(&half[0]), r#"{"cpu":1.5,"mem_mb":0.1,"name":"p9","pid":9}"#);
    let less = processes(&vec![process(9, 52_428)]);
    assert_eq!(to_text(&less[0]), r#"{"cpu":1.5,"mem_mb":0.0,"name":"p9","pid":9}"#);
}

#[test]
fn start_types_have_their_labels() {
    assert_eq!(start_label(0, true, true), "boot");
    assert_eq!(start_label(1, false, false), "system");
    assert_eq!(start_label(2, true, true), "automatic (delayed, trigger start)");
    assert_eq!(start_label(2, true, false), "automatic (delayed)");
    assert_eq!(start_label(2, false, true), "automatic (trigger start)");
    assert_eq!(start_label(2, false, false), "automatic");
    assert_eq!(start_label(3, false, true), "manual");
    assert_eq!(start_label(4, false, false), "disabled");
    assert_eq!(start_label(5, false, false), "");
}

fn starts() -> Overrides {
    service_start_types(&vec![
        StartFacts { name: "Spooler".to_owned(), start: 2, delayed: false, triggered: false },
        StartFacts { name: "Odd".to_owned(), start: 9, delayed: false, triggered: false },
    ])
}

#[test]
fn an_unknown_start_type_is_left_out() {
    assert_eq!(starts().get("spooler"), Some("automatic".to_owned()));
    assert_eq!(starts().get("odd"), None);
}

fn service(name: &str, display: &str) -> Service {
    Service { name: name.to_owned(), display: display.to_owned(), state: "running".to_owned() }
}

#[test]
fn services_are_listed_by_display_name() {
    let v = services(&vec![service("b", "zeta"), service("SPOOLER", "Alpha"), service("c", "ALPHA")], &Vec::new(), &starts());
    let list = v.as_array().expect("a list");
    let names: Vec<&str> = list.iter().map(|r| r.get_str("name").unwrap()).collect();
    assert_eq!(names, vec!["SPOOLER", "c", "b"]);
    assert_eq!(list[0].get_str("start"), Some("automatic"));
    assert_eq!(list[1].get_str("start"), Some(""));
}

#[test]
fn the_fallback_is_told() {
    let wmi = enum_services_wmi(&from_text(r#"[{"n":"a","d":"A","s":"running"},{"d":"nameless"},{"n":""}]"#));
    assert_eq!(wmi.len(), 1);
    let v = services(&Vec::new(), &wmi, &starts());
    let list = v.as_array().expect("a list");
    assert_eq!(list.len(), 2);
    assert_eq!(list[1].get_bool("enumeration_degraded"), Some(true));
    assert_eq!(list[1].get_str("source"), Some("wmi"));
    let one = enum_services_wmi(&from_text(r#"{"n":"a"}"#));
    assert_eq!((one.len(), one[0].display.as_str()), (1, ""));
    assert!(enum_services_wmi(&from_text("7")).is_empty());
    assert!(enum_services_wmi(&None).is_empty());
}

#[test]
fn no_services_at_all_is_a_failed_read() {
    let v = services(&Vec::new(), &Vec::new(), &starts());
    assert_eq!(v.get_bool("ok"), Some(false));
    assert!(v.get_str("error").unwrap().contains("either the SCM or WMI"));
}

#[test]
fn states_have_their_labels() {
    let listed = |name: &str, state: u32| ListedService {
        name: name.to_owned(),
        display: String::new(),
        state,
    };
    let out = enum_services(&vec![listed("a", 4), listed("", 4), listed("b", 1), listed("c", 7), listed("d", 2)]);
    let got: Vec<(&str, &str)> = out.iter().map(|s| (s.name.as_str(), s.state.as_str())).collect();
    assert_eq!(
        got,
        vec![("a", "running"), ("b", "stopped"), ("c", "paused"), ("d", "transitioning")]
    );
}
