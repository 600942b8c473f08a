use sodiumoxide::base64::{decode, encode, Variant};
use sodiumoxide::crypto::sign;
use sulltec_remote::dispatch::{
    any_job_in_flight, claim_job, claim_request, enroll_request, enrolment_answered, enrolment_of,
    enrolment_reply, ensure_enrolled, list_jobs, list_request, origin_of, poll, poll_reply,
    post_result, result_request, run, take_up, verify_jobs, ClaimStep, Enrolled, Enrolment,
    InFlight, JobsVerdict, TakeUp,
};
use sulltec_remote::json::{from_text, to_text, Json};
use sulltec_remote::policy::{
    apply_policy, load_persisted_policy, policy_version, verify_policy, FileAction, Overrides,
    PolicyOutcome, PolicyState,
};
use sulltec_remote::command::Look;
use sulltec_remote::runner::{
    direct_discards, direct_step, run_as_discards, run_as_next, DirectEnd, DirectEvent,
    DirectStage, Opened, RunAsEnd, RunAsEvent, RunAsStage,
};
use sulltec_remote::runs::{
    job_kill, job_runs, killed, terminate, KillFacts, KillPlan, KillVerdict, RunFacts, KILL_DONE,
    KILL_FINISHED, KILL_GONE, KILL_NO_PROCESS, KILL_REFUSED, KILL_REUSED, KILL_UNKNOWN,
};
use sulltec_remote::script::{
    decode_ps_bytes, direct_failed, dirs_to_keep, encoded_command, grant_argument, job_dir_name, launch_args,
    load_script_expr, parse_script_params, read_pid_file, recovered_answer, run_as_answer,
    run_as_deadlines, run_as_failed, run_as_step, run_script, script_answer, settle_script,
    still_running, sweep_job_dirs, unsigned_file_refused, wrapper_script, DirectFailure, JobDir,
    RunAsFailure, RunAsStep, ScriptPlan, EXECUTOR_ENCODED,
};
use sulltec_remote::seen::{
    jobs_to_probe, mark_job_child, mark_job_done, mark_job_reported, mark_job_seen, mark_job_stamp,
    orphaned_results, read_seen, run_is_live, seen_child, seen_flag, seen_job_dir, seen_state,
    write_seen, JobGate, LiveCheck, RunRecord, SeenMap, JOBS_SEEN_MAX, SEEN_KILLED, SEEN_OVER_TIME,
};
use sulltec_remote::settle::{
    adopt, adopted_exit_result, any_run_in_progress, record_run, settle_begin, settle_child,
    settle_started, started_ids, unix_of_token, AdoptedTable, ChildVerdict, SettleAction,
    SettleFacts, SettleStart, WaitResult, ADOPTED_MAX, RESULT_ABANDONED, RESULT_KILLED,
    RESULT_LOST,
};

const NOW: i64 = 1_760_000_000;

fn j(text: &str) -> Json {
    from_text(text).expect("a value")
}

fn none() -> Vec<String> {
    Vec::new()
}

fn kp() -> (String, sign::SecretKey) {
    let (pk, sk) = sign::gen_keypair();
    (encode(pk.as_ref(), Variant::Original), sk)
}

fn signed(sk: &sign::SecretKey, msg: &str) -> String {
    encode(sign::sign(msg.as_bytes(), sk), Variant::Original)
}

fn gate(seen: &mut SeenMap, id: &str, now: i64) -> JobGate {
    mark_job_seen(seen, id, now, &none())
}

#[test]
fn a_second_dispatch_of_a_job_is_skipped() {
    let mut seen = read_seen("");
    assert!(matches!(gate(&mut seen, "a", NOW), JobGate::Run));
    assert!(matches!(gate(&mut seen, "a", NOW + 300), JobGate::Skip));
    assert!(matches!(gate(&mut seen, "a", NOW - 300), JobGate::Skip));
    assert!(matches!(gate(&mut seen, "a", NOW + 301), JobGate::Run));
    mark_job_done(&mut seen, "a", NOW, RunRecord::Spent);
    assert!(matches!(gate(&mut seen, "a", NOW + 9_999_999), JobGate::AlreadyRan));
    mark_job_reported(&mut seen, "a");
    assert!(matches!(gate(&mut seen, "a", NOW + 604_801), JobGate::AlreadyRan));
    let (t, done, reported) = seen_state(&seen, "a").unwrap();
    assert_eq!((t, done, reported), (NOW + 301, true, true));
    assert!(matches!(gate(&mut seen, "a", NOW + 604_800 + 302), JobGate::Run));
}

#[test]
fn a_started_run_is_not_started_again() {
    let mut seen = read_seen("");
    gate(&mut seen, "a", NOW);
    mark_job_child(&mut seen, "a", Some(7), Some(9), Some("C:\\d"));
    assert!(matches!(gate(&mut seen, "a", NOW + 10_000_000), JobGate::Skip));
    assert_eq!(seen_child(&seen, "a"), Some((7, 9)));
    assert_eq!(seen_job_dir(&seen, "a"), Some("C:\\d".to_owned()));
    mark_job_stamp(&mut seen, "a", SEEN_OVER_TIME, NOW + 1);
    assert_eq!(seen_flag(&seen, "a", SEEN_OVER_TIME), Some(NOW + 1));
    assert_eq!(seen_child(&seen, "a"), Some((7, 9)), "a stamp keeps the rest");
    assert_eq!(
        write_seen(seen),
        format!(r#"{{"a":{{"c":"9","d":false,"o":{},"p":7,"r":false,"t":{NOW},"x":"C:\\d"}}}}"#, NOW + 1)
    );
}

#[test]
fn a_done_job_keeps_or_spends_its_run() {
    let stored = format!(r#"{{"a":{{"t":{NOW},"p":1,"c":"2","x":"d"}},"b":{NOW}}}"#);
    let mut seen = read_seen(&stored);
    mark_job_done(&mut seen, "a", NOW, RunRecord::Kept);
    assert_eq!(seen_job_dir(&seen, "a"), Some("d".to_owned()));
    mark_job_done(&mut seen, "a", NOW, RunRecord::Spent);
    assert_eq!(seen_job_dir(&seen, "a"), None);
    mark_job_done(&mut seen, "gone", NOW, RunRecord::Spent);
    mark_job_reported(&mut seen, "never");
    assert_eq!(seen_state(&seen, "never"), None);
    assert_eq!(orphaned_results(&seen), vec!["a", "gone"]);
    assert_eq!(seen_state(&seen, "b"), Some((NOW, false, false)));
}

#[test]
fn a_full_record_forgets_the_least_first() {
    let mut members: Vec<String> = (0..JOBS_SEEN_MAX - 2)
        .map(|i| format!(r#""k{i:03}":{{"t":{NOW},"d":true}}"#))
        .collect();
    members.push(format!(r#""run":{{"t":1,"x":"d"}}"#));
    members.push(format!(r#""old":{{"t":{},"d":true,"r":true}}"#, NOW - 1));
    let stored = format!("{{{}}}", members.join(","));
    let mut seen = read_seen(&stored);
    assert_eq!(jobs_to_probe(&seen, "new"), vec!["run"]);
    assert!(matches!(mark_job_seen(&mut seen, "new", NOW, &vec!["run".to_owned()]), JobGate::Run));
    assert!(seen_state(&seen, "old").is_none(), "told of, so it goes");
    assert!(seen_state(&seen, "run").is_some() && seen_state(&seen, "new").is_some());
    assert!(matches!(gate(&mut seen, "other", NOW), JobGate::Run));
    assert!(seen_state(&seen, "new").is_none(), "a bare stamp goes before finished work");
    assert!(seen_state(&seen, "k000").is_some() && seen_state(&seen, "other").is_some());
}

#[test]
fn a_run_is_looked_up_by_what_is_known_of_it() {
    assert!(matches!(run_is_live(&j(r#"{"p":1,"c":"2","x":"d"}"#)), LiveCheck::Process(1, 2)));
    assert!(matches!(run_is_live(&j(r#"{"p":4294967296,"c":"2","x":"d"}"#)), LiveCheck::Directory));
    assert!(matches!(run_is_live(&j(r#"{"p":1}"#)), LiveCheck::Ended));
}

#[test]
fn a_job_is_in_flight_once() {
    let mut ids = InFlight::new();
    assert!(!any_job_in_flight(&ids));
    assert!(ids.acquire("a") && !ids.acquire("a") && ids.acquire("b"));
    assert!(ids.holds("a") && any_job_in_flight(&ids));
    ids.release("a");
    assert!(!ids.holds("a") && ids.holds("b"));
    let mut seen = read_seen("");
    assert!(matches!(take_up("b", &mut ids, &mut seen, NOW, &none()), TakeUp::Leave));
    assert!(matches!(take_up("a", &mut ids, &mut seen, NOW, &none()), TakeUp::Run));
    assert!(ids.holds("a"));
    ids.release("a");
    assert!(matches!(take_up("a", &mut ids, &mut seen, NOW, &none()), TakeUp::Leave));
    assert!(!ids.holds("a"), "a job that is skipped is not in flight");
    mark_job_done(&mut seen, "a", NOW, RunRecord::Spent);
    assert!(matches!(take_up("a", &mut ids, &mut seen, NOW, &none()), TakeUp::ReportLost));
    assert!(ids.holds("a"));
}

#[test]
fn a_dispatch_is_checked_against_its_signature() {
    let (key, sk) = kp();
    let doc = r#"[{"id":"a","op":"x","params":"p"}]"#;
    let wire = j(doc);
    let good = Json::text(&signed(&sk, &format!("CONSOLE-JOBS\ndev\n{NOW}\n1\n{doc}")));
    let ts = Json::Int(NOW);
    assert!(matches!(
        verify_jobs(&wire, Some(&good), Some(&ts), &key, "dev", NOW + 300),
        JobsVerdict::Valid { enforce: true, jobs } if jobs.len() == 1
    ));
    let invalid = |sig: &Json, ts: Option<&Json>, wire: &Json, id: &str, now: i64| {
        matches!(verify_jobs(wire, Some(sig), ts, &key, id, now), JobsVerdict::Invalid)
    };
    assert!(invalid(&good, Some(&ts), &wire, "dev", NOW + 301), "stale");
    assert!(invalid(&good, Some(&Json::Int(NOW + 1)), &wire, "dev", NOW), "another time");
    assert!(invalid(&good, None, &wire, "other", NOW), "another device");
    assert!(invalid(&good, None, &j("[1]"), "dev", NOW), "other jobs");
    assert!(invalid(&Json::text("AAAA"), None, &wire, "dev", NOW), "no signature");
    assert!(matches!(verify_jobs(&wire, Some(&Json::text("")), None, &key, "dev", NOW), JobsVerdict::Absent));
    assert!(matches!(verify_jobs(&wire, Some(&good), None, "", "dev", NOW), JobsVerdict::Invalid));

    let mut enforce = false;
    assert_eq!(run(&wire, None, None, &key, "dev", NOW, &mut enforce).len(), 1);
    assert_eq!(run(&wire, Some(&good), Some(&ts), &key, "dev", NOW, &mut enforce).len(), 1);
    assert!(enforce);
    assert!(run(&wire, None, None, &key, "dev", NOW, &mut enforce).is_empty());
    assert!(run(&wire, Some(&good), None, &key, "dev", NOW + 301, &mut enforce).is_empty());
    let lenient = Json::text(&signed(&sk, &format!("CONSOLE-JOBS\ndev\n{NOW}\n0\n{doc}")));
    let jobs = run(&wire, Some(&lenient), None, &key, "dev", NOW, &mut enforce);
    assert!(!enforce && jobs[0].id == "a" && jobs[0].op == "x" && jobs[0].params.as_deref() == Some("p"));
    assert!(run(&j("{}"), None, None, &key, "dev", NOW, &mut enforce).is_empty());
    assert_eq!(list_jobs(&vec![j("{}"), j(r#"{"id":"z"}"#)]).len(), 1, "a job without an id is none");
}

#[test]
fn requests_are_signed_for_one_purpose() {
    let (pk, sk) = sign::gen_keypair();
    let beat = "https://h/api/heartbeat";
    let holds = |body: &str, msg: String| {
        let sig = from_text(body).unwrap().get_str("sig").unwrap().to_owned();
        let mut attached = decode(&sig, Variant::Original).unwrap();
        attached.extend_from_slice(msg.as_bytes());
        assert!(sign::verify(&attached, &pk).is_ok(), "{msg}");
    };
    let r = list_request(beat, "d", 5, sk.as_ref());
    assert_eq!(r.url, "https://h/api/device/jobs/list");
    holds(&r.body, "CONSOLE-DEVICE-JOBS\nd\n5".to_owned());
    let r = claim_request(beat, "d", "a", 5, sk.as_ref());
    assert_eq!(r.url, "https://h/api/device/jobs/a/claim");
    holds(&r.body, "CONSOLE-DEVICE-JOB-CLAIM\nd\na\n5".to_owned());
    let r = result_request(beat, "d", "a", "done", "{}", sk.as_ref());
    assert_eq!(r.url, "https://h/api/client/jobs/a/result");
    assert_eq!(from_text(&r.body).unwrap().get_str("status"), Some("done"));
    holds(&r.body, "d\na\ndone\n{}".to_owned());
    assert_eq!(origin_of("https://h/"), "https://h");
    let r = enroll_request(beat, "d", pk.as_ref());
    assert_eq!(r.url, "https://h/api/client/enroll");
    assert_eq!(
        r.body,
        format!(r#"{{"id":"d","pubkey":"{}"}}"#, encode(pk.as_ref(), Variant::Original))
    );
}

#[test]
fn a_claim_ends_after_three_attempts() {
    assert!(matches!(claim_job(Some(" JOB_CLAIMED\n"), 3), ClaimStep::Granted));
    assert!(matches!(claim_job(Some("JOB_CLOSED"), 3), ClaimStep::Refused));
    assert!(matches!(claim_job(Some(""), 3), ClaimStep::Refused));
    assert!(matches!(claim_job(None, 3), ClaimStep::Retry(2)));
    assert!(matches!(claim_job(None, 2), ClaimStep::Retry(1)));
    assert!(matches!(claim_job(None, 1), ClaimStep::GiveUp));
    let stored = post_result(Some("JOB_SETTLED"));
    assert!(stored.stored && stored.reported);
    let refused = post_result(Some("no"));
    assert!(!refused.stored && refused.reported);
    assert!(!post_result(None).reported);
}

#[test]
fn enrolment_is_asked_until_it_is_pinned() {
    let mut state = Enrolled { pinned: false, warned: false };
    assert!(ensure_enrolled(&state, "d") && !ensure_enrolled(&state, ""));
    assert!(matches!(enrolment_of(&Some(j(r#"{"ok":true,"pinned":true}"#))), Enrolment::Pinned));
    assert!(matches!(enrolment_of(&Some(j(r#"{"ok":true}"#))), Enrolment::NotPinned));
    assert!(matches!(enrolment_of(&None), Enrolment::Failed));
    assert!(matches!(enrolment_reply(r#"{"ok":true,"pinned":true}"#), Enrolment::Pinned));
    assert!(matches!(enrolment_reply(r#"{"ok":true}"#), Enrolment::NotPinned));
    assert!(matches!(enrolment_reply("ok"), Enrolment::Failed));
    assert!(enrolment_answered(&mut state, Enrolment::NotPinned));
    assert!(!enrolment_answered(&mut state, Enrolment::NotPinned), "warned once");
    assert!(!enrolment_answered(&mut state, Enrolment::Failed));
    assert!(!enrolment_answered(&mut state, Enrolment::Pinned));
    assert!(!ensure_enrolled(&state, "d"));
}

#[test]
fn a_queue_reading_is_taken_apart() {
    let p = poll(&j(r#"{"started":["a","",3],"items":[1],"jobs_sig":"s","jobs_ts":4,"claims":true}"#));
    assert_eq!(p.started, vec!["a"]);
    assert!(p.claims && p.items.is_some() && p.sig.is_some() && p.ts.is_some());
    let q = poll_reply(r#"{"started":["a","",3],"items":[1],"claims":true}"#).unwrap();
    assert_eq!(q.started, p.started);
    assert!(q.items.is_some() && q.sig.is_none() && q.claims);
    assert!(poll_reply("JOBS").is_none());
    let p = poll(&j("{}"));
    assert!(!p.claims && p.items.is_none() && p.started.is_empty());
    assert_eq!(started_ids(Some(&j(r#"["x"]"#))), vec!["x"]);
}

fn state() -> PolicyState {
    PolicyState {
        settings: Overrides::new(),
        display: Overrides::new(),
        local: Overrides::new(),
        locked: Vec::new(),
        persisted: Vec::new(),
        mtime: i64::MIN,
        version: 0,
    }
}

#[test]
fn a_policy_forces_and_releases() {
    let (key, sk) = kp();
    let mut s = state();
    let doc = r#"{"a":{"value":"1","locked":true},"b":{"value":"2"},"update.require_sig":{"value":" yes "}}"#;
    let policy = Some(Json::text(&signed(&sk, &format!("CONSOLE-POLICY\ndev\n{doc}"))));
    assert!(matches!(apply_policy(&mut s, &policy, &key, "other", None, "", false), PolicyOutcome::Rejected));
    match apply_policy(&mut s, &policy, &key, "dev", None, "0", false) {
        PolicyOutcome::Applied { latch, unlocked, file } => {
            assert_eq!(latch, "1");
            assert_eq!(unlocked, vec![("b".to_owned(), "2".to_owned())]);
            assert!(matches!(file, FileAction::Write(body) if body == r#"[{"k":"a","v":"1"}]"#));
        }
        _ => panic!("applied"),
    }
    assert_eq!(s.settings.get("a"), Some("1".to_owned()));
    assert!(s.display.contains("a") && s.local.contains("a") && !s.settings.contains("b"));
    match apply_policy(&mut s, &policy, &key, "dev", None, "1", true) {
        PolicyOutcome::Applied { file, .. } => assert!(matches!(file, FileAction::Keep)),
        _ => panic!("applied"),
    }
    let next = Some(Json::text(&signed(&sk, "CONSOLE-POLICY\ndev\n{\"c\":{\"value\":\"3\",\"locked\":true}}")));
    apply_policy(&mut s, &next, &key, "dev", None, "1", true);
    assert!(!s.settings.contains("a") && s.settings.contains("c"), "what is no longer locked is free");
    match apply_policy(&mut s, &None, &key, "dev", None, "1", true) {
        PolicyOutcome::Released { file } => assert!(matches!(file, FileAction::Remove)),
        _ => panic!("released"),
    }
    assert!(!s.settings.contains("c") && s.locked.is_empty());
    assert!(verify_policy("", "AAAA", "dev").is_none());
}

#[test]
fn a_mirrored_policy_is_read_back() {
    let mut s = state();
    let file = br#"[{"k":"a","v":"1"},{"v":"x"},{"k":"b"}]"#.to_vec();
    load_persisted_policy(&mut s, 5, true, Some(file.clone()));
    assert_eq!(s.settings.get("a"), Some("1".to_owned()));
    assert_eq!(s.local.get("b"), Some(String::new()));
    assert_eq!(policy_version(&s), 1);
    load_persisted_policy(&mut s, 5, true, Some(b"[]".to_vec()));
    assert_eq!(policy_version(&s), 1, "nothing changed on disk");
    load_persisted_policy(&mut s, 6, true, None);
    assert!(s.settings.contains("a") && s.mtime == i64::MIN, "a read that failed is tried again");
    load_persisted_policy(&mut s, 0, false, None);
    assert!(!s.settings.contains("a") && policy_version(&s) == 2);
    s.version = i64::MAX;
    load_persisted_policy(&mut s, 7, false, None);
    assert_eq!(policy_version(&s), i64::MIN, "the count goes round");
}

#[test]
fn an_exit_code_is_kept_until_it_is_asked_for() {
    let mut table = AdoptedTable { entries: Vec::new() };
    assert!(matches!(settle_begin(&table, "a"), SettleStart::Open));
    assert_eq!(adopt(&mut table, "a", 11), None);
    assert!(matches!(settle_begin(&table, "a"), SettleStart::Wait(11)));
    assert!(any_run_in_progress(&InFlight::new(), &table));
    assert!(matches!(settle_child(&mut table, "a", WaitResult::Timeout, None), ChildVerdict::Running));
    assert!(matches!(settle_child(&mut table, "a", WaitResult::Signalled, Some(3)), ChildVerdict::Exited(3)));
    assert!(matches!(settle_begin(&table, "a"), SettleStart::Exited(3)));
    for i in 0..ADOPTED_MAX {
        let id = format!("x{i}");
        let evicted = adopt(&mut table, &id, i as i64);
        assert_eq!(evicted.is_some(), i + 1 == ADOPTED_MAX, "{i}");
    }
    assert_eq!(table.entries.len(), ADOPTED_MAX);
}

fn facts(child: ChildVerdict) -> SettleFacts {
    SettleFacts { child, script: None, script_running: false, live: false }
}

#[test]
fn a_started_job_is_settled_by_what_is_known() {
    let seen = read_seen(&format!(
        r#"{{"k":{{"t":1,"k":5}},"f":{{"t":1,"d":true}},"a":{{"t":1}},"o":{{"t":1,"o":2,"x":"d"}}}}"#
    ));
    assert!(matches!(settle_started(facts(ChildVerdict::Running), &seen, "a"), SettleAction::Leave));
    let mut live = facts(ChildVerdict::Unknown);
    live.live = true;
    assert!(matches!(settle_started(live, &seen, "a"), SettleAction::Leave));
    let lost = |id: &str| match settle_started(facts(ChildVerdict::Unknown), &seen, id) {
        SettleAction::Lost { reason } => reason,
        _ => panic!("lost"),
    };
    assert_eq!((lost("k"), lost("f"), lost("a")), (RESULT_KILLED, RESULT_LOST, RESULT_ABANDONED));
    let mut script = facts(ChildVerdict::Exited(1));
    script.script = Some(("done".to_owned(), "x".to_owned()));
    assert!(matches!(settle_started(script, &seen, "a"), SettleAction::Recovered { answer, .. } if answer == "x"));
    match settle_started(facts(ChildVerdict::Exited(0xC000_0005)), &seen, "o") {
        SettleAction::Exited { text } => {
            assert_eq!(text, adopted_exit_result(&seen, "o", 0xC000_0005));
            assert!(text.starts_with("this job's process passed the bound it was given."));
            assert!(text.contains(" Its exit code was -1073741819. "));
            assert!(text.contains("its output was written to a file"));
        }
        _ => panic!("exited"),
    }
    assert_eq!(unix_of_token(116_444_736_000_000_000 + 50_000_000), 5);
    let mut seen = read_seen(r#"{"a":{"t":1}}"#);
    assert!(record_run(&mut seen, "a", 4, Some(6), Some("d")));
    assert_eq!(seen_child(&seen, "a"), Some((4, 6)));
    assert!(!record_run(&mut seen, "a", 5, None, None));
}

#[test]
fn runs_are_listed_and_ended() {
    let base: u64 = 116_444_736_000_000_000;
    let at = |secs: i64| (base + secs as u64 * 10_000_000).to_string();
    let stored = format!(
        r#"{{"b":{{"t":1,"p":2,"c":"{}","o":7}},"a":{{"t":1,"p":3,"c":"{}"}},"done":{{"t":1,"d":true,"p":4,"c":"1"}},"n":{{"t":1}},"x":{{"t":1,"x":"d"}}}}"#,
        at(NOW - 20),
        at(NOW - 10)
    );
    let mut seen = read_seen(&stored);
    let fact = |id: &str, alive: bool, script: bool| RunFacts { job_id: id.to_owned(), alive, script_running: script };
    let all = vec![fact("a", true, false), fact("b", true, false), fact("x", false, true)];
    let mut ids = InFlight::new();
    ids.acquire("a");
    let v = job_runs(&seen, &all, &ids, NOW);
    assert_eq!((v.get_u64("count"), v.get_u64("unprovable"), v.get_i64("collected_at")), (Some(2), Some(1), Some(NOW)));
    let items = v.get("items").unwrap().as_array().unwrap();
    assert_eq!(
        to_text(&items[0]),
        format!(r#"{{"elapsed_s":20,"in_flight":false,"job_id":"b","over_time_at":7,"pid":2,"started_at":{},"state":"over_time"}}"#, NOW - 20)
    );
    assert_eq!(items[1].get_str("state"), Some("running"));
    assert_eq!(items[1].get_bool("in_flight"), Some(true));

    let refused = |seen: &SeenMap, p: &str| match job_kill(seen, Some(p)) {
        KillPlan::Refuse(e) => e.get_str("error").unwrap().to_owned(),
        _ => panic!("refused"),
    };
    assert_eq!(refused(&seen, " "), "job-kill needs a job id");
    assert_eq!(refused(&seen, "who"), KILL_UNKNOWN);
    assert_eq!(refused(&seen, "done"), KILL_FINISHED);
    assert_eq!(refused(&seen, r#"{"job":"n"}"#), KILL_NO_PROCESS);
    assert!(matches!(job_kill(&seen, Some("b")), KillPlan::Terminate { pid: 2, .. }));
    let f = |opened: bool, same_process: bool, going: bool, ended: bool| KillFacts { opened, same_process, going, ended };
    assert!(matches!(terminate(&f(true, true, true, true)), KillVerdict::Terminated));
    assert!(matches!(terminate(&f(true, false, true, true)), KillVerdict::Reused));
    assert!(matches!(terminate(&f(true, true, false, false)), KillVerdict::Gone));
    assert!(matches!(terminate(&f(true, true, true, false)), KillVerdict::Refused));
    assert_eq!(killed(&mut seen, "b", 2, KillVerdict::Reused, NOW).get_str("error"), Some(KILL_REUSED));
    assert_eq!(killed(&mut seen, "b", 2, KillVerdict::Gone, NOW).get_str("error"), Some(KILL_GONE));
    assert_eq!(killed(&mut seen, "b", 2, KillVerdict::Refused, NOW).get_str("error"), Some(KILL_REFUSED));
    assert_eq!(seen_flag(&seen, "b", SEEN_KILLED), None);
    assert_eq!(killed(&mut seen, "b", 2, KillVerdict::Terminated, NOW).get_str("killed"), Some(KILL_DONE));
    assert_eq!(seen_flag(&seen, "b", SEEN_KILLED), Some(NOW));
}

#[test]
fn powershell_output_is_decoded_by_its_mark() {
    assert_eq!(decode_ps_bytes(&[0xFF, 0xFE, b'h', 0, b'i', 0, 9]), "hi");
    assert_eq!(decode_ps_bytes(&[0xFE, 0xFF, 0, b'h']), "h");
    assert_eq!(decode_ps_bytes(&[0xFF, 0xFE, 0x3D, 0xD8, 0x00, 0xDE]), "\u{1f600}");
    assert_eq!(decode_ps_bytes(&[0xFF, 0xFE, 0x3D, 0xD8]), "\u{fffd}");
    assert_eq!(decode_ps_bytes(&[0xEF, 0xBB, 0xBF, b'x']), "x");
    assert_eq!(decode_ps_bytes(b"plain\xff"), "plain\u{fffd}");
    assert_eq!(read_pid_file(&[0xFF, 0xFE, b'4', 0, b'2', 0, b'\n', 0]), Some(42));
    assert_eq!(read_pid_file(b"x"), None);
    assert!(unsigned_file_refused(b"AllSigned\r\n") && unsigned_file_refused(b"RESTRICTED"));
    assert!(!unsigned_file_refused(b"Bypass"));
    assert_eq!(encoded_command("a\u{1f600}"), "YQA92ADe");
}

#[test]
fn a_script_is_read_from_its_params() {
    let p = parse_script_params(r#"{"script":"s","run_as":"credential","username":"u","password":"w"}"#);
    assert_eq!((p.script.as_str(), p.run_as.as_str(), p.username.as_str(), p.password.as_str()), ("s", "credential", "u", "w"));
    let p = parse_script_params(r#"{"other":1}"#);
    assert_eq!((p.script.as_str(), p.run_as.as_str()), (r#"{"other":1}"#, "system"));
    let error = |params: Option<&str>| match run_script(params) {
        ScriptPlan::Refuse(e) => e.get_str("error").unwrap().to_owned(),
        _ => panic!("refused"),
    };
    assert_eq!(error(None), "no script provided");
    assert_eq!(error(Some(r#"{"script":"s","run_as":"credential"}"#)), "run-as credential needs a username and password");
    assert!(matches!(run_script(Some(" ls ")), ScriptPlan::Direct(s) if s == "ls"));
    assert!(matches!(run_script(Some(r#"{"script":"s","run_as":"user"}"#)), ScriptPlan::AsUser(s) if s == "s"));
}

#[test]
fn a_wrapper_reports_its_process_and_its_end() {
    assert_eq!(job_dir_name(4, "99"), "sulltec-job-4-99");
    assert_eq!(load_script_expr("p"), "& ([scriptblock]::Create([IO.File]::ReadAllText('p',[Text.Encoding]::UTF8)))");
    assert_eq!(
        wrapper_script("i", "p", "o", "f", false),
        "$ErrorActionPreference='Continue'\r\nSet-Content -LiteralPath 'p' -Value $PID\r\ntry { & 'i' *> 'o' } catch { \"$_\" | Out-File -LiteralPath 'o' -Append } finally { Set-Content -LiteralPath 'f' -Value 'done' }\r\n"
    );
    assert_eq!(launch_args(true, "x"), "-NoProfile -EncodedCommand x");
    assert_eq!(launch_args(false, "x"), "-ExecutionPolicy Bypass -NoProfile -File \"x\"");
    assert_eq!(grant_argument(true, "u"), "u:(OI)(CI)M");
    assert_eq!(grant_argument(true, ""), "*S-1-5-4:(OI)(CI)M");
    assert_eq!(grant_argument(false, "u"), "*S-1-5-4:(OI)(CI)M");
    assert_eq!(run_as_deadlines(100, 10), (110, 110));
    assert_eq!(run_as_deadlines(100, 60), (160, 130));
    assert!(matches!(run_as_step(100, 160, 130, true, false), RunAsStep::Finished));
    assert!(matches!(run_as_step(160, 160, 130, false, true), RunAsStep::OverTime));
    assert!(matches!(run_as_step(131, 160, 130, false, false), RunAsStep::NeverStarted));
    assert!(matches!(run_as_step(130, 160, 130, false, false), RunAsStep::Wait));
    assert_eq!(run_as_failed("user", &RunAsFailure::NoLaunch("e".to_owned())).get_str("error"), Some("launch failed (user): e"));
    assert_eq!(
        run_as_failed("user", &RunAsFailure::NeverStarted).get_str("error"),
        Some("run-as (user): the wrapper was launched but never started - no pid file after 30s")
    );
    for (f, e) in [
        (DirectFailure::NoDir, "failed to create job temp dir"),
        (DirectFailure::NoScript, "failed to write script"),
        (DirectFailure::NoOutput, "failed to open the job output file"),
        (DirectFailure::NoErrors, "failed to open the job error file"),
        (DirectFailure::NoStart("x".to_owned()), "x"),
    ] {
        assert_eq!(direct_failed(&f).get_str("error"), Some(e));
    }
    for (f, e) in [
        (RunAsFailure::NoDir, "failed to create job temp dir"),
        (RunAsFailure::NoScript, "failed to write script"),
        (RunAsFailure::NoWrapper, "failed to write wrapper"),
        (RunAsFailure::NoAccess, "run-as (user): could not grant the launching identity read/write access to the job directory"),
    ] {
        assert_eq!(run_as_failed("user", &f).get_str("error"), Some(e));
    }
}

#[test]
fn a_script_answers_with_its_output() {
    assert_eq!(
        to_text(&script_answer(true, Some(0), &Ok(b"hi".to_vec()), false, false)),
        r#"{"exit":0,"ok":true,"output":"hi"}"#
    );
    let v = script_answer(false, None, &Err("gone".to_owned()), true, true);
    assert_eq!(v.get_str("output"), Some("[console: the script ran but its captured output could not be read: gone]"));
    assert_eq!((v.get_str("executor"), v.get_str("killed")), (Some(EXECUTOR_ENCODED), Some(RESULT_KILLED)));
    assert!(v.get("exit").unwrap().is_null());
    assert_eq!(
        to_text(&run_as_answer("user", &Ok(Vec::new()), false)),
        r#"{"ok":true,"output":"","run_as":"user"}"#
    );
    let long = script_answer(true, Some(0), &Ok(vec![b'x'; 60_001]), false, false);
    assert_eq!(long.get_str("output").unwrap().len(), 60_000);
}

fn dir(wrapper: bool, done: bool) -> JobDir {
    JobDir { is_dir: true, wrapper, done, encoded: false, output: Ok(b"o".to_vec()) }
}

#[test]
fn a_directory_answers_for_its_run() {
    let seen = read_seen(r#"{"a":{"t":1,"x":"C:\\D"},"b":{"t":1,"x":"e","k":2}}"#);
    assert!(settle_script(&seen, "a", &dir(false, false), None).is_none(), "no exit code yet");
    assert!(settle_script(&seen, "a", &dir(true, false), Some(0)).is_none(), "no completion mark");
    let (status, answer) = settle_script(&seen, "a", &dir(false, false), Some(0xFFFF_FFFF)).unwrap();
    let v = from_text(&answer).unwrap();
    assert_eq!((status.as_str(), v.get_i64("exit"), v.get_bool("ok")), ("done", Some(-1), Some(false)));
    assert!(v.get_str("recovered").unwrap().starts_with("the client that started this script stopped"));
    let (_, answer) = settle_script(&seen, "b", &dir(true, true), Some(1)).unwrap();
    let v = from_text(&answer).unwrap();
    assert!(v.get("exit").is_none() && v.get_bool("ok") == Some(true));
    assert!(v.get_str("recovered").unwrap().starts_with("this device ended this script's process"));
    let mut gone = dir(true, true);
    gone.is_dir = false;
    assert!(settle_script(&seen, "a", &gone, None).is_none());
    assert!(settle_script(&seen, "none", &dir(true, true), None).is_none());
    assert_eq!(recovered_answer(&seen, "a", None, "o").get_str("output"), Some("o"));
    assert!(still_running(true, true, true, false, None));
    assert!(!still_running(true, true, true, false, Some(false)));
    assert!(!still_running(true, true, true, true, None) && !still_running(false, true, true, false, None));
    assert!(!still_running(true, true, false, false, None));
    let keep = dirs_to_keep(&seen);
    assert_eq!(keep, vec!["c:\\d", "e"]);
    let old: u128 = 25_200_000_000_001;
    assert!(sweep_job_dirs("sulltec-job-9-1", "C:\\T", 4, &keep, Some(old)));
    assert!(!sweep_job_dirs("sulltec-job-9-1", "C:\\D", 4, &keep, Some(old)), "an answer may be read out of it");
    assert!(!sweep_job_dirs("sulltec-job-4-1", "C:\\T", 4, &keep, Some(old)), "its own");
    assert!(!sweep_job_dirs("other", "C:\\T", 4, &keep, Some(old)));
    assert!(!sweep_job_dirs("sulltec-job-9-1", "C:\\T", 4, &keep, Some(old - 1)));
    assert!(!sweep_job_dirs("sulltec-job-9-1", "C:\\T", 4, &keep, None));
}

fn directly(events: &[DirectEvent]) -> DirectStage {
    events.iter().fold(DirectStage::MakeDir, |s, e| direct_step(s, *e))
}

#[test]
fn a_script_runs_step_by_step() {
    let ready = [DirectEvent::MadeDir(true), DirectEvent::WroteScript(true), DirectEvent::OpenedFiles(Opened::Both), DirectEvent::Refused(true)];
    assert!(matches!(directly(&ready), DirectStage::Start { encoded: true }));
    assert!(matches!(directly(&[DirectEvent::MadeDir(false)]), DirectStage::Ended(DirectEnd::NoDir)));
    assert!(matches!(directly(&[DirectEvent::MadeDir(true), DirectEvent::WroteScript(false)]), DirectStage::Ended(DirectEnd::NoScript)));
    assert!(matches!(directly(&[DirectEvent::MadeDir(true), DirectEvent::WroteScript(true), DirectEvent::OpenedFiles(Opened::NoOutput)]), DirectStage::Ended(DirectEnd::NoOutput)));
    assert!(matches!(directly(&[DirectEvent::MadeDir(true), DirectEvent::WroteScript(true), DirectEvent::OpenedFiles(Opened::NoErrors)]), DirectStage::Ended(DirectEnd::NoErrors)));
    let with = |more: &[DirectEvent]| {
        let mut all = ready.to_vec();
        all.extend_from_slice(more);
        directly(&all)
    };
    assert!(matches!(with(&[DirectEvent::Started(false)]), DirectStage::Ended(DirectEnd::NoStart)));
    let going = DirectEvent::Looked(Look::Going { time_up: false });
    assert!(matches!(with(&[DirectEvent::Started(true), going]), DirectStage::Sleep { pause: 2, next: 4, .. }));
    assert!(matches!(with(&[DirectEvent::Started(true), going, DirectEvent::Slept, going]), DirectStage::Sleep { pause: 4, next: 8, .. }));
    assert!(matches!(
        with(&[DirectEvent::Started(true), DirectEvent::Looked(Look::Ended(Some(3)))]),
        DirectStage::Ended(DirectEnd::Answered { encoded: true, code: Some(3) })
    ));
    let over = with(&[DirectEvent::Started(true), DirectEvent::Looked(Look::Going { time_up: true })]);
    assert!(matches!(over, DirectStage::Ended(DirectEnd::OverTime)));
    assert!(matches!(with(&[DirectEvent::Slept]), DirectStage::Start { .. }), "an event of another stage is ignored");
    assert!(!direct_discards(DirectEnd::OverTime) && !direct_discards(DirectEnd::NoDir));
    assert!(direct_discards(DirectEnd::NoScript));
}

#[test]
fn a_script_runs_under_another_identity() {
    let watch = |now: i64, flag: bool, pidfile: bool, noted: bool| RunAsEvent::Watched { now, flag, pidfile, noted };
    let run = |more: &[RunAsEvent]| {
        let ready = [
            RunAsEvent::MadeDir(true),
            RunAsEvent::WroteScript(true),
            RunAsEvent::Refused(false),
            RunAsEvent::WroteWrapper(true),
            RunAsEvent::Granted(true),
        ];
        ready.iter().chain(more).fold(RunAsStage::MakeDir, |s, e| run_as_next(s, *e))
    };
    let launched = RunAsEvent::Launched { deadline: 100, launch_deadline: 30 };
    assert!(matches!(run(&[]), RunAsStage::Launch { encoded: false }));
    assert!(matches!(run(&[RunAsEvent::NotLaunched]), RunAsStage::Ended(RunAsEnd::NoLaunch)));
    assert!(matches!(run(&[launched, watch(30, false, false, false)]), RunAsStage::Watch { adopted: false, .. }));
    assert!(matches!(run(&[launched, watch(5, false, true, true), watch(6, false, true, false)]), RunAsStage::Watch { adopted: true, .. }));
    assert!(matches!(run(&[launched, watch(31, false, false, false)]), RunAsStage::Ended(RunAsEnd::NeverStarted)));
    assert!(matches!(run(&[launched, watch(100, false, true, false)]), RunAsStage::Ended(RunAsEnd::OverTime)));
    assert!(matches!(run(&[launched, watch(100, true, true, false)]), RunAsStage::Ended(RunAsEnd::Answered { encoded: false })));
    let refused = |e: RunAsEvent, n: usize| {
        let ready = [RunAsEvent::MadeDir(true), RunAsEvent::WroteScript(true), RunAsEvent::Refused(false), RunAsEvent::WroteWrapper(true)];
        let s = ready.iter().take(n).fold(RunAsStage::MakeDir, |s, e| run_as_next(s, *e));
        run_as_next(s, e)
    };
    assert!(matches!(refused(RunAsEvent::MadeDir(false), 0), RunAsStage::Ended(RunAsEnd::NoDir)));
    assert!(matches!(refused(RunAsEvent::WroteScript(false), 1), RunAsStage::Ended(RunAsEnd::NoScript)));
    assert!(matches!(refused(RunAsEvent::WroteWrapper(false), 3), RunAsStage::Ended(RunAsEnd::NoWrapper)));
    assert!(matches!(refused(RunAsEvent::Granted(false), 4), RunAsStage::Ended(RunAsEnd::NoAccess)));
    assert!(!run_as_discards(RunAsEnd::OverTime) && run_as_discards(RunAsEnd::NeverStarted));
}
