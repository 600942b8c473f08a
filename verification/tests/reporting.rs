use sha2::{Digest, Sha256};
use sodiumoxide::base64::{encode, Variant};
use sodiumoxide::crypto::sign;
use sulltec_remote::heartbeat::{
    decorate_body, decorate_sysinfo, handle_keys, identity_changed, identity_of,
    identity_uploaded, FailureLog, Identity, Note,
};
use sulltec_remote::json::{from_text, to_text, Json};
use sulltec_remote::policy::Overrides;
use sulltec_remote::snapshot::{
    collect, defender, inventory_request, policy, snapshot_request, winupdate, SnapshotKind,
};
use sulltec_remote::sync::{
    begin_round, handle_config_options, heartbeat_body, heartbeat_due, heartbeat_url, is_pro,
    needs_upload, put_text, read_numbers, read_reply, read_strategy, start, strategy_time, sync_step,
    sysinfo_hash, sysinfo_report, take_reply, upload_answered, Presets, Round, SyncAction,
    SyncEvent, SyncService, SyncState,
};
use sulltec_remote::updater::{
    check_ended, check_step, check_update, controlling_args, controlling_exe,
    get_download_file_from_url, has_no_active_conns, has_no_controlling_conns, install_step,
    launch_command, manually_check_update, next_message, start_auto_update, stop_auto_update,
    update_controlling_session_count, update_msi, update_new_version, CheckLoop, CheckStep,
    Install, Outcome, UpdateMsg, UpdateQueue,
};

fn j(text: &str) -> Json {
    from_text(text).expect("a value")
}

#[test]
fn an_identity_is_told_until_it_is_taken() {
    let (_, sk) = sign::gen_keypair();
    let mut id = Identity::new();
    let v = j(r#"{"hostname":"h","domain":"d","id":"1"}"#);
    assert_eq!(identity_of(&v), "h\nd\n\n\n\n");
    assert!(!identity_changed(&v, &id));
    let sent = decorate_sysinfo(v.copy(), "1.2", sk.as_ref(), &mut id);
    assert_eq!(sent.get_str("version"), Some("1.2"));
    let sig = sign::sign_detached(b"SYSINFO\n1\nd\n\n\n\n", &sk);
    assert_eq!(sent.get_str("adsig"), Some(encode(sig.as_ref(), Variant::Original).as_str()));
    let moved = j(r#"{"hostname":"h2"}"#);
    assert!(!identity_changed(&moved, &id), "nothing was accepted yet");
    identity_uploaded(&mut id);
    assert!(identity_changed(&moved, &id));
    assert!(!identity_changed(&v, &id));
    identity_uploaded(&mut id);
    assert!(!identity_changed(&v, &id));
    for key in ["hostname", "domain", "domain_netbios", "ou", "workgroup", "dns_suffix"] {
        assert!(identity_changed(&v.copy().with(key, Json::text("other")), &id), "{key}");
    }
    let shifted = j(r#"{"domain":"h","domain_netbios":"d"}"#);
    assert!(identity_changed(&shifted, &id), "the same texts under other names");
}

#[test]
fn a_null_report_becomes_an_object() {
    let (_, sk) = sign::gen_keypair();
    let mut id = Identity::new();
    assert_eq!(to_text(&decorate_sysinfo(Json::Null, "1", sk.as_ref(), &mut id)), r#"{"version":"1"}"#);
    assert_eq!(to_text(&decorate_body(Json::Null, "p", "a")), r#"{"logon_anchor":"a","logon_pub":"p"}"#);
    assert_eq!(to_text(&put_text(Json::Null, "k", "")), "null");
    assert_eq!(to_text(&put_text(Json::Null, "k", "v")), r#"{"k":"v"}"#);
    let r = sysinfo_report(Json::Null, "v", "1", "uu", &presets(), sk.as_ref());
    assert_eq!(to_text(&r), r#"{"a":"1","id":"1","n":"note","username":"preset","uuid":"uu","version":"v"}"#);
}

#[test]
fn failures_are_told_first_and_every_tenth() {
    let mut log = FailureLog::new();
    let mut told = Vec::new();
    for n in 1..=21 {
        if let Note::Warn(t) = log.record(Some("down")) {
            assert!(t.starts_with(&format!("heartbeat POST failed ({n} consecutive): down")), "{t}");
            told.push(n);
        }
    }
    assert_eq!(told, vec![1, 10, 20]);
    assert_eq!(log.count(), 21);
    assert!(matches!(log.record(None), Note::Info(t) if t == "heartbeat recovered after 21 consecutive failure(s)"));
    assert!(matches!(log.record(None), Note::Silent));
}

#[test]
fn each_key_is_taken_by_its_owner() {
    let (k, rest) = handle_keys(j(r#"{"check_update":null,"jobs_unsettled":1,"policy_push":{"a":1},"policy":true,"x":2}"#));
    assert!(k.check_update && !k.waiting && k.unsettled && k.poll());
    assert!(k.logon_chain.is_none());
    assert_eq!(to_text(&k.policy_push.unwrap()), r#"{"a":1}"#);
    assert_eq!(to_text(&rest), r#"{"policy":true,"x":2}"#);
    let (none, rest) = handle_keys(j("{}"));
    assert!(!none.poll() && !none.check_update);
    assert_eq!(to_text(&rest), "{}");
}

#[test]
fn the_loop_is_started_once() {
    let mut s = SyncService::new();
    assert!(start(&mut s));
    assert!(!start(&mut s));
}

#[test]
fn the_heartbeat_has_an_address_of_ones_own() {
    assert_eq!(heartbeat_url("https://c", false), "https://c/api/heartbeat");
    assert_eq!(heartbeat_url("https://c", true), "");
    assert_eq!(heartbeat_url("", false), "");
}

#[test]
fn a_report_is_due_until_it_is_taken() {
    let mut s = SyncState::new();
    assert!(!begin_round(&mut s, "", "1", false));
    assert!(!begin_round(&mut s, "u", "1", true));
    assert!(begin_round(&mut s, "u", "1", false));
    assert!(needs_upload(&s, "bob", 0));
    assert!(upload_answered(&mut s, Some("nonsense"), "h", "u", "1", "bob", 1000).is_none());
    assert!(!needs_upload(&s, "bob", 120_999));
    assert!(needs_upload(&s, "bob", 121_000));
    assert!(upload_answered(&mut s, Some("ID_NOT_FOUND"), "h", "u", "1", "bob", 1000).is_none());
    assert!(needs_upload(&s, "bob", 1000));
    assert!(upload_answered(&mut s, None, "h", "u", "1", "bob", 5).is_none());
    assert!(!is_pro(&s));
    let keep = upload_answered(&mut s, Some("SYSINFO_UPDATED"), "h", "u", "1", "bob", 1000).expect("kept");
    assert_eq!((keep.hash.as_str(), keep.ver.as_str()), ("h", ""));
    assert!(is_pro(&s));
    assert!(!needs_upload(&s, "bob", 999_999));
    assert!(needs_upload(&s, "alice", 999_999));
    assert!(begin_round(&mut s, "other", "1", false));
    assert!(!is_pro(&s));
    assert!(needs_upload(&s, "bob", 999_999));
}

#[test]
fn an_idle_device_beats_less_often() {
    let mut s = SyncState::new();
    assert!(heartbeat_due(&mut s, false, 100));
    assert!(!heartbeat_due(&mut s, false, 15_099));
    assert!(heartbeat_due(&mut s, true, 200));
    assert!(heartbeat_due(&mut s, false, 15_200));
}

fn presets() -> Presets {
    Presets {
        named: vec![("a".to_owned(), "1".to_owned()), ("b".to_owned(), String::new())],
        username: "preset".to_owned(),
        hostname: String::new(),
        note: ("n".to_owned(), "note".to_owned()),
    }
}

#[test]
fn a_report_carries_its_presets() {
    let (_, sk) = sign::gen_keypair();
    let r = sysinfo_report(j(r#"{"username":"u","hostname":"h"}"#), "v", "1", "uu", &presets(), sk.as_ref());
    assert_eq!(
        to_text(&r),
        r#"{"a":"1","hostname":"h","id":"1","n":"note","username":"preset","uuid":"uu","version":"v"}"#
    );
    let signed = sysinfo_report(j(r#"{"domain":"d"}"#), "v", "1", "uu", &presets(), sk.as_ref());
    let sig = sign::sign_detached(b"SYSINFO\n1\nd\n\n\n\n", &sk);
    assert_eq!(signed.get_str("adsig"), Some(encode(sig.as_ref(), Variant::Original).as_str()));
}

#[test]
fn a_report_is_known_by_its_digest() {
    let digest = Sha256::digest(b"urlbody");
    assert_eq!(sysinfo_hash("url", "body"), encode(&digest[..], Variant::Original));
}

#[test]
fn a_heartbeat_says_this() {
    let v = heartbeat_body("1", "uu", 7, "p", "a", &Vec::new(), 3);
    assert_eq!(
        to_text(&v),
        r#"{"id":"1","logon_anchor":"a","logon_pub":"p","modified_at":3,"uuid":"uu","ver":7}"#
    );
    let live = heartbeat_body("1", "uu", 7, "p", "a", &vec![4, -5], 3);
    assert_eq!(to_text(live.get("conns").unwrap()), "[4,-5]");
    assert_eq!(strategy_time("-12"), -12);
    assert_eq!(strategy_time("x"), 0);
}

#[test]
fn a_reply_is_read() {
    let r = read_reply(
        &j(r#"{"sysinfo":1,"services":1,"policy":1,"policy_push":{"x":1},"jobs":[],"jobs_ts":5,"disconnect":[1,2],"modified_at":9,"strategy":{"config_options":{"k":"v"}}}"#),
        8,
    );
    assert!(r.sysinfo && !r.inventory && !r.check_update);
    assert_eq!(r.snapshots, vec!["services", "policy"]);
    assert!(r.policy_push.is_some() && r.jobs.is_some() && r.jobs_sig.is_none() && r.jobs_ts.is_some());
    assert_eq!(r.disconnect, Some(vec![1, 2]));
    assert_eq!(r.modified_at, Some(9));
    assert_eq!(r.strategy.unwrap().config_options.get("k"), Some("v".to_owned()));
    let same = read_reply(&j(r#"{"modified_at":9,"disconnect":[1.5],"strategy":7}"#), 9);
    assert_eq!(same.modified_at, None);
    assert_eq!(same.disconnect, None);
    assert!(same.strategy.is_none());
    assert_eq!(read_numbers(&j("[2147483648]")), None);
}

#[test]
fn a_reply_that_is_no_object_says_nothing() {
    let mut s = SyncState::new();
    upload_answered(&mut s, Some("SYSINFO_UPDATED"), "", "u", "1", "bob", 0);
    assert!(take_reply(&mut s, "[]").is_none());
    assert!(take_reply(&mut s, "").is_none());
    assert!(take_reply(&mut s, r#"{"a\u0062":1}"#).is_none(), "a name with an escape is not read");
    assert!(take_reply(&mut s, r#"{"a":1}"#).is_some());
    assert!(s.uploaded);
    assert!(take_reply(&mut s, r#"{"sysinfo":false}"#).is_some());
    assert!(!s.uploaded);
}

#[test]
fn settings_are_read_in_both_shapes() {
    let s = read_strategy(&j(r#"[{"a":"1"},{"b":"2"}]"#)).unwrap();
    assert_eq!((s.config_options.get("a"), s.extra.get("b")), (Some("1".to_owned()), Some("2".to_owned())));
    assert!(read_strategy(&j("{}")).is_some());
    assert!(read_strategy(&j("[]")).is_some());
    assert!(read_strategy(&j("[{},{},{}]")).is_none());
    assert!(read_strategy(&j(r#"{"extra":{"a":1}}"#)).is_none());
    assert!(read_strategy(&j(r#"{"extra":null}"#)).is_none());
    assert!(read_strategy(&j("null")).is_none());
}

#[test]
fn an_empty_setting_falls_back() {
    let mut options = Overrides::new();
    options.insert("keep", "1");
    options.insert("drop", "1");
    options.insert("hold", "1");
    let mut changes = Overrides::new();
    changes.insert("drop", "");
    changes.insert("hold", "");
    changes.insert("new", "2");
    let mut defaults = Overrides::new();
    defaults.insert("hold", "d");
    handle_config_options(&mut options, &changes, &defaults);
    assert_eq!(options.get("keep"), Some("1".to_owned()));
    assert_eq!(options.get("drop"), None);
    assert_eq!(options.get("hold"), Some(String::new()));
    assert_eq!(options.get("new"), Some("2".to_owned()));
}

fn round() -> Round {
    Round {
        url: String::new(),
        id: String::new(),
        username: String::new(),
        hash: String::new(),
        connected: false,
    }
}

fn tick(stopped: bool) -> SyncEvent {
    SyncEvent::Tick { url: "s/api/heartbeat".to_owned(), id: "1".to_owned(), stopped, connected: false }
}

#[test]
fn a_round_goes_through_its_steps() {
    let mut s = SyncState::new();
    let mut r = round();
    assert!(matches!(sync_step(&mut s, &mut r, &tick(true), 0).0, SyncAction::Wait));
    assert!(matches!(sync_step(&mut s, &mut r, &tick(false), 0).0, SyncAction::Measure));
    let measured = SyncEvent::Measured { username: "bob".to_owned() };
    assert!(matches!(sync_step(&mut s, &mut r, &measured, 0).0, SyncAction::Report));
    let report = |old: &str| SyncEvent::Report { body: "b".to_owned(), public: true, old_hash: old.to_owned() };
    assert!(matches!(sync_step(&mut s, &mut r, &report("none"), 0).0, SyncAction::Send(u) if u == "s/api/sysinfo"));
    let hash = sysinfo_hash("s/api/heartbeat", "b");
    assert!(matches!(sync_step(&mut s, &mut r, &report(&hash), 0).0, SyncAction::AskVersion(u) if u == "s/api/sysinfo_ver"));
    let other = SyncEvent::Version { reply: Some("v2".to_owned()), ver: "v1".to_owned() };
    assert!(matches!(sync_step(&mut s, &mut r, &other, 0).0, SyncAction::Send(u) if u == "s/api/sysinfo"));
    assert!(is_pro(&s));
    let taken = SyncEvent::Uploaded { reply: Some("SYSINFO_UPDATED".to_owned()) };
    let (action, keep) = sync_step(&mut s, &mut r, &taken, 50);
    assert!(matches!(action, SyncAction::Beat));
    let keep = keep.expect("kept");
    assert_eq!((keep.hash, keep.ver), (hash, "v2".to_owned()));
    assert!(matches!(sync_step(&mut s, &mut r, &tick(false), 60).0, SyncAction::Measure));
    assert!(matches!(sync_step(&mut s, &mut r, &measured, 60).0, SyncAction::Wait));
    let same = SyncEvent::Version { reply: Some("v1".to_owned()), ver: "v1".to_owned() };
    assert!(matches!(sync_step(&mut s, &mut r, &same, 60).0, SyncAction::Wait));
}

#[test]
fn the_update_loop_disturbs_nobody() {
    let mut l = CheckLoop::new(0);
    assert_eq!(check_step(&mut l, None, true, 599_999), CheckStep::Wait);
    assert_eq!(l.interval, 86_400_000);
    assert_eq!(check_step(&mut l, None, false, 600_000), CheckStep::Wait);
    assert_eq!(l.interval, 1_800_000);
    assert_eq!(check_step(&mut l, None, true, 600_000), CheckStep::Check { manually: false });
    assert_eq!(
        check_step(&mut l, Some(UpdateMsg::CheckUpdate), true, 600_000),
        CheckStep::Check { manually: true }
    );
    check_ended(&mut l, true, 700_000);
    assert_eq!((l.last_check, l.interval), (700_000, 86_400_000));
    check_ended(&mut l, false, 800_000);
    assert_eq!((l.last_check, l.interval), (700_000, 1_800_000));
    assert_eq!(check_step(&mut l, Some(UpdateMsg::Exit), true, 0), CheckStep::Stop);
}

#[test]
fn messages_are_taken_in_turn() {
    let mut q = UpdateQueue::new();
    assert!(start_auto_update(&mut q));
    assert!(!manually_check_update(&mut q));
    assert!(!stop_auto_update(&mut q));
    update_controlling_session_count(&mut q, 3);
    assert_eq!(q.controlling, 3);
    assert_eq!(next_message(&mut q), Some(UpdateMsg::CheckUpdate));
    assert_eq!(next_message(&mut q), Some(UpdateMsg::Exit));
    assert_eq!(next_message(&mut q), None);
    assert!(has_no_active_conns(0, 0));
    assert!(!has_no_active_conns(1, 0) && !has_no_active_conns(0, 1));
    assert!(has_no_controlling_conns(&vec![0, 0]));
    assert!(!has_no_controlling_conns(&vec![0, 2]));
    assert_eq!(controlling_exe("SullTec"), "sulltec.exe");
    assert_eq!(controlling_args().len(), 6);
}

#[test]
fn a_new_version_has_its_address() {
    let n = check_update(true, false, true, "https://c/releases/tag/1.2.3", true, true).unwrap();
    assert_eq!(n.url, "https://c/releases/download/1.2.3/rustdesk-1.2.3-x86_64.msi");
    assert_eq!(n.version, "1.2.3");
    let n = check_update(false, true, true, "https://c/tag/1", true, false).unwrap();
    assert_eq!(n.url, "https://c/download/1/rustdesk-1-x86_64.exe");
    let n = check_update(false, true, true, "https://c/tag/1", false, true).unwrap();
    assert_eq!(n.url, "https://c/download/1/rustdesk-1-x86-sciter.exe");
    assert!(check_update(false, false, true, "u", true, true).is_none());
    assert!(check_update(true, true, false, "u", true, true).is_none());
    assert!(check_update(true, true, true, "", true, true).is_none());
    assert_eq!(get_download_file_from_url("https://c/x/y.exe"), "y.exe");
    assert!(update_msi(Some(true), false));
    assert!(!update_msi(Some(true), true) && !update_msi(None, false));
}

#[test]
fn an_installation_ends_one_way_or_the_other() {
    assert_eq!(update_new_version(false, true, true, true), Install::Finished { launched: false });
    assert_eq!(update_new_version(true, false, true, true), Install::Discard { staged: false });
    let msi = update_new_version(true, true, true, false);
    assert_eq!(install_step(msi, Outcome::Succeeded, true), Install::Finished { launched: true });
    assert_eq!(install_step(msi, Outcome::Failed, true), Install::Discard { staged: false });
    let custom = update_new_version(true, true, false, true);
    assert_eq!(custom, Install::PrepareStaging);
    assert_eq!(install_step(custom, Outcome::Failed, true), Install::Discard { staged: false });
    let launch = install_step(custom, Outcome::Succeeded, true);
    assert_eq!(launch, Install::Launch { staged: true });
    assert_eq!(install_step(launch, Outcome::Succeeded, true), Install::Finished { launched: true });
    assert_eq!(install_step(launch, Outcome::Nothing, false), Install::Discard { staged: true });
    let direct = install_step(launch, Outcome::Nothing, true);
    assert_eq!(direct, Install::RunDirect { staged: true });
    assert_eq!(install_step(direct, Outcome::Failed, true), Install::Discard { staged: true });
    assert_eq!(install_step(direct, Outcome::Succeeded, true), Install::Finished { launched: true });
    assert_eq!(
        install_step(Install::Discard { staged: true }, Outcome::Succeeded, true),
        Install::Finished { launched: false }
    );
    let plain = update_new_version(true, true, false, false);
    assert_eq!(install_step(plain, Outcome::Failed, true), Install::Launch { staged: false });
    assert_eq!(launch_command("C:\\p.exe"), "C:\\p.exe --update");
}

#[test]
fn snapshots_are_collected_by_name() {
    assert!(matches!(collect("processes"), Some(SnapshotKind::Processes)));
    assert!(matches!(collect("policy"), Some(SnapshotKind::Policy)));
    assert!(collect("other").is_none());
    assert_eq!(to_text(&defender(None)), r#"{"available":false}"#);
    assert_eq!(
        to_text(&winupdate(None)),
        r#"{"available":[],"installed":[],"pending_reboot":false,"schema":2}"#
    );
    assert_eq!(to_text(&winupdate(Some(j("[1]")))), "[1]");
}

#[test]
fn an_unread_policy_is_told_as_unread() {
    assert_eq!(to_text(&policy(&None)), r#"{"available":false}"#);
    assert_eq!(
        to_text(&policy(&from_text(r#"{"ok":false}"#))),
        r#"{"available":false,"error":"resultant set of policy could not be read"}"#
    );
    assert_eq!(
        to_text(&policy(&from_text(r#"{"ok":false,"error":"e"}"#))),
        r#"{"available":false,"error":"e"}"#
    );
    assert_eq!(
        to_text(&policy(&from_text(r#"{"computer":{"applied_gpos":[1,2]},"users":[{"user":"u","denied_gpos":[1]}]}"#))),
        r#"{"available":true,"computer":{"applied_count":2,"denied_count":0,"last_refresh":"","refresh_age_hours":-1},"domain":"","error_count":0,"loopback":"NotConfigured","part_of_domain":false,"security":null,"users":[{"applied_count":0,"denied_count":1,"refresh_age_hours":-1,"user":"u"}]}"#
    );
}

#[test]
fn what_is_signed_is_what_is_sent() {
    let (_, sk) = sign::gen_keypair();
    let q = snapshot_request("s/api/heartbeat", "1", "uu", "policy", &j("[1]"), sk.as_ref());
    assert_eq!(q.url, "s/api/snapshot");
    assert_eq!(q.body, r#"{"data":[1],"id":"1","kind":"policy","uuid":"uu"}"#);
    let sig = sign::sign_detached(q.body.as_bytes(), &sk);
    assert_eq!(q.header, format!("X-ST-Sig: {}", encode(sig.as_ref(), Variant::Original)));
    let q = inventory_request("s/api/heartbeat", "1", "uu", j(r#"{"hardware":{}}"#), sk.as_ref());
    assert_eq!(q.url, "s/api/inventory");
    assert_eq!(q.body, r#"{"hardware":{},"id":"1","uuid":"uu"}"#);
}
