use sulltec_remote::argv::{builtin_call, exec_builtin, split_argv, split_words, Procedure};
use sulltec_remote::command::{
    exec_native, exec_powershell, first_line, guard_failure, native_argv, native_command, native_done, over_time,
    powershell_exe, powershell_script, ps_done, ps_json, ps_rows_of, ps_run_unfinished, wait_step, Bound,
    ExecEnd, Look, NativeRun, Output, OverTime, PsRun, WaitStep, PS_ADD_FNS, PS_GUARD,
    PS_PARAMS_BIND,
};
use sulltec_remote::files::{
    check_download, client_log_pull, disconnect_sessions, download_label, file_pull, file_push,
    is_below, json_field_or_raw, log_below, main_log, named_log, no_main_log, pull_path, push_written, run_action, safe_path, safe_url,
    stale_against_running_build, wanted_log, DownloadCheck, LogFile, LogPlace, PushPlan, PULL_CAP,
};
use sulltec_remote::fs::{
    dir_failed, fs_list, is_wanted, listing_query, look_at, needs_content, next_dir, paginate,
    read_query, refuse_path, refuse_root, sensitive_path, since_moment, start_walk, visit, Entry,
    RootKind, Since, FS_CAP, SENSITIVE_DENIED,
};
use sulltec_remote::glob::glob_match;
use sulltec_remote::json::{from_text, to_text, Json};
use sulltec_remote::sessions::sessions;
use sulltec_remote::wol::{wol, wol_sent, WolPlan};

fn j(text: &str) -> Json {
    from_text(text).expect("a value")
}

fn log(name: &str, path: &str, modified: i128) -> LogFile {
    LogFile { name: name.to_owned(), path: path.to_owned(), modified: Some(modified) }
}

#[test]
fn the_service_log_wins_over_a_newer_top_level_relic() {
    let server = vec![log("SullTecRemote_rCURRENT.log", "server/SullTecRemote_rCURRENT.log", 1)];
    let root = vec![log("sulltec-remote_rCURRENT.log", "sulltec-remote_rCURRENT.log", 2)];
    assert!(matches!(main_log(&server, &root, &Vec::new()), Some(LogPlace::Server(0))));
}

#[test]
fn a_top_level_log_is_still_found_when_there_is_no_server_dir() {
    let root = vec![log("sulltec-remote_rCURRENT.log", "sulltec-remote_rCURRENT.log", 2)];
    assert!(matches!(main_log(&Vec::new(), &root, &Vec::new()), Some(LogPlace::Root(0))));
}

#[test]
fn some_other_component_is_better_than_nothing() {
    let anywhere = vec![log("sulltecremote_rCURRENT.log", "update/sulltecremote_rCURRENT.log", 2)];
    assert!(matches!(main_log(&Vec::new(), &Vec::new(), &anywhere), Some(LogPlace::Anywhere(0))));
}

#[test]
fn an_empty_log_dir_yields_none() {
    assert!(main_log(&Vec::new(), &Vec::new(), &Vec::new()).is_none());
}

#[test]
fn the_newest_log_is_taken() {
    let server = vec![log("a.log", "a", 3), log("b.txt", "b", 9), log("c.log", "c", 5)];
    assert!(matches!(main_log(&server, &Vec::new(), &Vec::new()), Some(LogPlace::Server(2))));
}

#[test]
fn a_log_older_than_the_program_is_refused() {
    assert!(stale_against_running_build("p", Some(5), Some(5)).is_none());
    assert!(stale_against_running_build("p", None, Some(5)).is_none());
    assert!(stale_against_running_build("p", Some(5), None).is_none());
    let e = stale_against_running_build("p", Some(6), Some(5)).expect("an error");
    assert!(e.get_str("error").unwrap().starts_with("p is the newest log this layout offers"));
}

#[test]
fn equal_times_are_told_apart_by_place() {
    let two = vec![log("a.log", "a", 3), log("b.log", "b", 3), log(".log", "c", 9)];
    assert!(matches!(main_log(&two, &Vec::new(), &Vec::new()), Some(LogPlace::Server(1))));
    assert!(matches!(main_log(&Vec::new(), &Vec::new(), &two), Some(LogPlace::Anywhere(0))));
}

#[test]
fn a_named_log_stays_in_its_directory() {
    let parts = |s: &str| Some(s.split('/').map(str::to_owned).collect::<Vec<String>>());
    assert_eq!(log_below("server/a.log"), "server\\a.log");
    assert!(is_below(&vec!["a".to_owned()], &Vec::new()));
    assert!(named_log("x", &parts("c/logs/x"), &parts("c/logs"), true).is_none());
    for (place, dir, is_file) in [
        (parts("c/x"), parts("c/logs"), true),
        (parts("c/logs2/x"), parts("c/logs"), true),
        (parts("c/logs/x"), parts("c/logs"), false),
        (None, parts("c/logs"), true),
        (parts("c/logs/x"), None, true),
    ] {
        let e = named_log("x", &place, &dir, is_file).expect("an error");
        assert_eq!(e.get_str("error"), Some("no such log: x"));
    }
    assert_eq!(no_main_log("d").get_str("error"), Some("no .log under d"));
}

#[test]
fn a_log_is_named_in_several_ways() {
    assert_eq!(wanted_log(None), None);
    assert_eq!(wanted_log(Some("  ")), None);
    assert_eq!(wanted_log(Some(" a.log ")), Some("a.log".to_owned()));
    assert_eq!(wanted_log(Some(r#"" b ""#)), Some("b".to_owned()));
    assert_eq!(wanted_log(Some(r#"{"file":"c","name":" "}"#)), Some("c".to_owned()));
    assert_eq!(wanted_log(Some("{}")), None);
    assert_eq!(wanted_log(Some("7")), None);
}

#[test]
fn a_log_tail_begins_with_a_whole_line() {
    let short = client_log_pull("p", 5, &b"a\nb".to_vec());
    assert_eq!(
        to_text(&short),
        r#"{"content":"a\nb","encoding":"text","ok":true,"path":"p","size":5,"truncated":false}"#
    );
    let long = client_log_pull("p", PULL_CAP as u64 + 1, &b"cut\nwhole\nlast".to_vec());
    assert_eq!(long.get_str("content"), Some("whole\nlast"));
    assert_eq!(long.get_bool("truncated"), Some(true));
    let lossy = client_log_pull("p", 1, &vec![255]);
    assert_eq!(lossy.get_str("content"), Some("\u{fffd}"));
}

#[test]
fn a_file_is_pulled_as_text_or_base64() {
    assert_eq!(
        to_text(&file_pull("p", 0, &b"hi".to_vec())),
        r#"{"content":"hi","encoding":"text","ok":true,"path":"p","size":2,"truncated":false}"#
    );
    assert_eq!(
        to_text(&file_pull("p", 9, &vec![255, 0])),
        r#"{"content":"/wA=","encoding":"base64","ok":true,"path":"p","size":9,"truncated":false}"#
    );
    let big = file_pull("p", PULL_CAP as u64 + 1, &vec![b'x'; PULL_CAP + 1]);
    assert_eq!(big.get_bool("truncated"), Some(true));
    assert_eq!(big.get_str("content").unwrap().len(), PULL_CAP);
    assert_eq!(json_field_or_raw(r#" {"file":" x ","path":""} "#, &["path", "file"]), "x");
    assert_eq!(json_field_or_raw("{}", &["path"]), "");
    assert_eq!(json_field_or_raw(r#"" q ""#, &["path"]), "q");
    assert_eq!(json_field_or_raw(" {no ", &["path"]), "{no");
    assert!(matches!(pull_path(" C:\\x "), Ok(p) if p == "C:\\x"));
    assert!(matches!(pull_path(" "), Err(e) if e.get_str("error") == Some("file-pull needs a path")));
}

#[test]
fn a_push_is_planned_or_refused() {
    let error = |params: Option<&str>| match file_push(params) {
        PushPlan::Refuse(e) => e.get_str("error").unwrap().to_owned(),
        _ => panic!("refused"),
    };
    assert_eq!(error(None), "file-push needs JSON {path, url|content_b64}");
    assert_eq!(error(Some("x")), "file-push needs JSON {path, url|content_b64}");
    assert_eq!(error(Some(r#"{"path":"a'b"}"#)), "invalid destination path");
    assert_eq!(error(Some(r#"{"path":"p"}"#)), "file-push needs either url or content_b64");
    assert_eq!(error(Some(r#"{"path":"p","sha256":"12"}"#)), "sha256 must be 64 hex characters");
    assert_eq!(error(Some(r#"{"path":"p","url":"ftp://x"}"#)), "url must be http(s) with no spaces/quotes");
    assert_eq!(error(Some(r#"{"path":"p","content_b64":"*"}"#)), "content_b64 is not valid base64");
    let wrong = format!(r#"{{"path":"p","content_b64":"YWJj","sha256":"{}"}}"#, "0".repeat(64));
    assert_eq!(
        error(Some(&wrong)),
        "sha256 mismatch: computed ba7816bf8f01cfea414140de5dae2223b00361a396177a9cb410ff61f20015ad"
    );
    let right = r#"{"path":" p ","content_b64":"YWJj","sha256":"BA7816BF8F01CFEA414140DE5DAE2223B00361A396177A9CB410FF61F20015AD"}"#;
    assert!(matches!(file_push(Some(right)), PushPlan::Write { path, bytes } if path == "p" && bytes == b"abc"));
    match file_push(Some(r#"{"path":"p","url":" https://x "}"#)) {
        PushPlan::Download { path, url, script, sha256 } => {
            assert_eq!((path.as_str(), url.as_str(), sha256), ("p", "https://x", None));
            assert_eq!(
                script,
                "$ProgressPreference='SilentlyContinue'; Invoke-WebRequest -Uri 'https://x' -OutFile 'p' -UseBasicParsing; 'ok'"
            );
        }
        _ => panic!("a download"),
    }
    assert_eq!(push_written(3, "p").get_str("result"), Some("wrote 3 bytes to p"));
}

#[test]
fn a_download_is_held_to_its_digest() {
    let sha = "ba7816bf8f01cfea414140de5dae2223b00361a396177a9cb410ff61f20015ad";
    assert!(matches!(check_download("p", sha, &Some(b"abc".to_vec())), DownloadCheck::Good));
    assert!(matches!(check_download("p", sha, &None), DownloadCheck::Unreadable(e)
        if e.get_str("error") == Some("downloaded to p but could not read it back to verify sha256")));
    assert!(matches!(check_download("p", &"0".repeat(64), &Some(b"abc".to_vec())), DownloadCheck::Mismatch(e)
        if e.get_str("error") == Some(&format!("sha256 mismatch: computed {sha}; the downloaded file was removed"))));
    assert_eq!(run_action(true, &download_label("p"), b"").get_str("result"), Some("downloaded to p"));
    assert_eq!(run_action(false, "done", b"  bad \n").get_str("error"), Some("bad"));
}

#[test]
fn names_that_would_break_out_are_refused() {
    assert!(safe_path("C:\\a b"));
    for bad in ["", "a'b", "a\"b", "a`b", "a\nb", "a\rb"] {
        assert!(!safe_path(bad), "{bad:?}");
    }
    assert!(safe_path(&"x".repeat(1024)) && !safe_path(&"x".repeat(1025)));
    assert!(safe_url("http://x") && safe_url("https://x/y?z"));
    for bad in ["ftp://x", "http://a b", "http://a'b", "HTTP://x"] {
        assert!(!safe_url(bad), "{bad:?}");
    }
}

#[test]
fn closed_sessions_are_told() {
    assert_eq!(
        to_text(&disconnect_sessions(1, 2, &vec!["p".to_owned()])),
        r#"{"closed":1,"ok":true,"peers":["p"],"skipped_port_forward":2}"#
    );
}

#[test]
fn sessions_are_read_by_column() {
    let text = " USERNAME              SESSIONNAME        ID  STATE   IDLE TIME  LOGON TIME\n\
                >alice                 console             1  Active      none   7/1/2026 9:00 AM\n\
                \n \u{e4}nne                                      2  Disc          .  7/2/2026 8:00 AM\n";
    let v = sessions(text);
    assert_eq!(v.get_u64("total"), Some(2));
    assert_eq!(v.get_bool("truncated"), Some(false));
    let items = v.get("items").unwrap().as_array().unwrap();
    assert_eq!(
        to_text(&items[0]),
        r#"{"id":"1","idle":"none","logon_time":"7/1/2026 9:00 AM","session":"console","state":"Active","user":"alice"}"#
    );
    assert_eq!(items[1].get_str("user"), Some("\u{e4}nne"));
    assert_eq!(items[1].get_str("session"), Some(""));
    let many: String = "H\n".to_owned() + &" user\n".repeat(300);
    let v = sessions(&many);
    assert_eq!((v.get_u64("count"), v.get_bool("truncated"), v.get_u64("next_offset")), (Some(200), Some(true), Some(200)));
    assert_eq!(sessions("").get_u64("total"), Some(0));
}

#[test]
fn a_magic_packet_repeats_the_address() {
    match wol(Some(r#"{"mac":" AA:BB-cc.dd:EE:0f "}"#)) {
        WolPlan::Send { packet, name } => {
            assert_eq!(name, "AA:BB-cc.dd:EE:0f");
            assert_eq!(packet.len(), 102);
            assert_eq!(&packet[..12], &[255, 255, 255, 255, 255, 255, 0xaa, 0xbb, 0xcc, 0xdd, 0xee, 0x0f]);
            assert_eq!(&packet[96..], &packet[6..12]);
        }
        _ => panic!("a packet"),
    }
    assert!(matches!(wol(Some("112233445566")), WolPlan::Send { .. }));
    assert!(matches!(wol(Some(r#""11:22:33:44:55:66""#)), WolPlan::Send { .. }));
    assert!(matches!(wol(Some("{}")), WolPlan::Refuse(e)
        if e.get_str("error") == Some("MAC must be 6 hex bytes (e.g. AA:BB:CC:DD:EE:FF)")));
    assert!(matches!(wol(None), WolPlan::Refuse(_)));
    assert_eq!(wol_sent("x", true).get_str("result"), Some("magic packet sent to x"));
    assert_eq!(wol_sent("x", false).get_str("error"), Some("failed to send broadcast"));
}

#[test]
fn patterns_fit_names() {
    for (p, n) in [("*.LOG", "a.log"), ("a?c", "ABC"), ("*", ""), ("a*b*c", "axxbyyc"), ("", "")] {
        assert!(glob_match(p, n), "{p} {n}");
    }
    for (p, n) in [("*.log", "a.txt"), ("a?c", "ac"), ("", "a"), ("a*b", "abc")] {
        assert!(!glob_match(p, n), "{p} {n}");
    }
}

fn entry(name: &str, is_dir: bool, size: u64, attrs: u32) -> Entry {
    Entry {
        name: name.to_owned(),
        path: format!("R\\{name}"),
        is_dir,
        size,
        modified: Some(1_000),
        modified_text: "2026-01-01 00:00:00".to_owned(),
        attrs,
    }
}

#[test]
fn a_listing_walks_its_tree() {
    let p = j(r#"{"path":" R ","recurse":true,"hash":true,"limit":2}"#);
    let q = read_query(&p);
    assert_eq!((q.root.as_str(), q.max_depth, q.hash, q.hidden), ("R", 8, true, false));
    let mut w = start_walk(&q);
    assert!(matches!(next_dir(&mut w), Some((d, 1)) if d == "R"));
    assert!(look_at(&mut w, false));
    let file = entry("f.txt", false, 3, 0);
    assert!(needs_content(&w, &q, &file, None));
    visit(&mut w, &q, 1, &file, None, Some(b"abc".to_vec()));
    let dir = entry("d", true, 0, 0);
    assert!(look_at(&mut w, false));
    visit(&mut w, &q, 1, &dir, None, None);
    let junction = entry("loop", true, 0, 0x400);
    assert!(look_at(&mut w, false));
    visit(&mut w, &q, 1, &junction, None, None);
    let hidden = entry("h", false, 1, 2);
    assert!(look_at(&mut w, false));
    visit(&mut w, &q, 1, &hidden, None, None);
    assert!(matches!(next_dir(&mut w), Some((d, 2)) if d == "R\\d"), "a junction is not followed");
    assert!(dir_failed(&mut w, "R", 2, "denied").is_none());
    assert!(next_dir(&mut w).is_none());
    let v = fs_list(w, &q, &p);
    assert_eq!((v.get_u64("matched_total"), v.get_u64("unreadable_dirs")), (Some(3), Some(1)));
    let page = v.get("entries").unwrap();
    assert_eq!((page.get_u64("total"), page.get_u64("count"), page.get_u64("next_offset")), (Some(3), Some(2), Some(2)));
    let first = &page.get("items").unwrap().as_array().unwrap()[0];
    assert_eq!(
        to_text(first),
        r#"{"attrs":0,"is_dir":false,"is_reparse_point":false,"modified":"2026-01-01 00:00:00","name":"f.txt","path":"R\\f.txt","sha256":"ba7816bf8f01cfea414140de5dae2223b00361a396177a9cb410ff61f20015ad","size":3}"#
    );
}

#[test]
fn a_listing_is_refused_with_its_reason() {
    let error = |root: &str, kind: RootKind| refuse_root(root, &kind).map(|e| e.get_str("error").unwrap().to_owned());
    assert_eq!(error("", RootKind::Directory), Some("fs needs a path (root)".to_owned()));
    assert_eq!(error("R", RootKind::Directory), None);
    assert_eq!(error("R", RootKind::NotDirectory), Some("path exists but is not a directory; fs lists directories".to_owned()));
    assert_eq!(error("R", RootKind::NotFound), Some("path not found".to_owned()));
    assert_eq!(error("R", RootKind::Denied), Some("access denied reading the path".to_owned()));
    assert_eq!(error("R", RootKind::Other("e".to_owned())), Some("path could not be opened: e".to_owned()));
    let early = |root: &str| refuse_path(root).map(|e| e.get_str("error").unwrap().to_owned());
    assert_eq!(early(""), Some("fs needs a path (root)".to_owned()));
    assert_eq!(early("C:\\Windows\\NTDS"), Some(SENSITIVE_DENIED.to_owned()));
    assert_eq!(early("R"), None);
    let q = read_query(&j(r#"{"path":"R"}"#));
    let mut w = start_walk(&q);
    next_dir(&mut w);
    let e = dir_failed(&mut w, "R", 1, "denied").expect("an error");
    assert_eq!(to_text(&e), r#"{"error":"path could not be listed: denied","ok":false,"path":"R"}"#);
}

#[test]
fn a_listing_is_narrowed() {
    let q = read_query(&j(r#"{"path":"R","glob":"*.txt","min_size":5,"hidden":true,"depth":99}"#));
    assert_eq!(q.max_depth, 32);
    assert!(is_wanted(&q, &entry("a.txt", false, 5, 2), None));
    assert!(!is_wanted(&q, &entry("a.txt", false, 4, 0), None));
    assert!(!is_wanted(&q, &entry("a.log", false, 9, 0), None));
    assert!(is_wanted(&q, &entry("a.txt", true, 0, 0), Some(1_000)));
    assert!(!is_wanted(&q, &entry("a.txt", false, 9, 0), Some(1_001)));
    assert!(matches!(read_query(&j(r#"{"modified_since":3}"#)).since, Since::Days(3)));
    assert!(matches!(read_query(&j(r#"{"modified_since":" 2026-02-03 "}"#)).since, Since::Date { year: 2026, month: 2, day: 3 }));
    assert!(matches!(read_query(&j(r#"{"modified_since":"2026-13-03"}"#)).since, Since::Ever));
    assert!(since_moment(Since::Ever, 5, 0, None).is_none());
    assert_eq!(since_moment(Since::Days(1), 86_402, 250_000_000, Some(7)), Some(2_250_000_000));
    assert_eq!(since_moment(Since::Days(2), 86_400, 5, None), Some(-86_400_000_000_000 + 5));
    let day = Since::Date { year: 2026, month: 2, day: 3 };
    assert_eq!(since_moment(day, 86_402, 1, Some(7)), Some(7));
}

#[test]
fn a_listing_is_asked_for_in_text() {
    let (p, q) = listing_query(Some(r#"{"path":" C:\\x ","recurse":true,"offset":2}"#));
    assert_eq!(q.root, "C:\\x");
    assert!(q.recurse);
    assert_eq!(p.get_u64("offset"), Some(2));
    for none in [None, Some(""), Some("{\"path\":")] {
        let (p, q) = listing_query(none);
        assert!(matches!(p, Json::Null));
        assert_eq!(q.root, "");
        assert!(!q.recurse && matches!(q.since, Since::Ever));
    }
}

#[test]
fn a_listing_holds_a_row_for_every_match() {
    let (p, q) = listing_query(Some(r#"{"path":"R"}"#));
    let mut w = start_walk(&q);
    assert!(next_dir(&mut w).is_some());
    for n in 0..FS_CAP + 3 {
        assert!(look_at(&mut w, false));
        let e = Entry {
            name: format!("f{n}"),
            path: format!("R\\f{n}"),
            is_dir: false,
            size: 1,
            modified: None,
            modified_text: String::new(),
            attrs: 0,
        };
        visit(&mut w, &q, 0, &e, None, None);
        assert_eq!(w.entries.len() as u64, w.matched.min(FS_CAP as u64));
        assert_eq!(w.truncated, w.matched >= FS_CAP as u64);
    }
    let out = fs_list(w, &q, &p);
    assert_eq!(out.get_u64("matched_total"), Some(FS_CAP as u64 + 3));
    assert_eq!(out.get_bool("row_cap_hit"), Some(true));
}

#[test]
fn a_command_line_is_filled_from_the_text_of_the_ask() {
    let line = |command: &str, ask: &str| native_command(command, ask).ok();
    let two = Some(vec!["ping".to_owned(), "a b".to_owned()]);
    assert_eq!(line("ping ${host}", r#"{"host":"a b"}"#), two);
    assert_eq!(line("ping ${host}", "host"), None, "no value, so nothing is asked for");
    assert_eq!(line("ping \"a b\"", "host"), two);
    assert_eq!(line("", "{}"), None);
}

#[test]
fn a_log_is_cut_to_its_last_bytes() {
    let mut bytes = b"first\n".to_vec();
    bytes.extend(vec![b'x'; PULL_CAP - 2]);
    bytes.extend(b"\ny");
    let out = client_log_pull("p", bytes.len() as u64, &bytes);
    assert_eq!(out.get_str("content"), Some("y"));
    let whole = client_log_pull("p", 1, &bytes);
    assert_eq!(whole.get_str("content").map(|t| t.len()), Some(PULL_CAP));
    assert_eq!(whole.get_bool("truncated"), Some(false));
}

#[test]
fn pages_are_cut_by_offset() {
    let items: Vec<Json> = (0..5).map(|i| Json::Int(i)).collect();
    assert_eq!(
        to_text(&paginate(items, &j(r#"{"offset":3,"limit":0}"#), 10)),
        r#"{"count":1,"items":[3],"next_offset":4,"offset":3,"total":5,"truncated":true}"#
    );
}

#[test]
fn the_store_of_keys_is_not_read() {
    assert!(sensitive_path("C:\\Windows\\System32\\config\\SAM"));
    assert!(sensitive_path("c:/windows/NTDS") && sensitive_path("c:/windows/NTDS/ntds.dit"));
    assert!(!sensitive_path("C:\\Users\\x\\notes.txt"));
    assert!(SENSITIVE_DENIED.len() > 10);
}

#[test]
fn commands_are_split_into_words() {
    assert_eq!(split_words(r#"a "b c" d"#), Some(vec!["a".to_owned(), "b c".to_owned(), "d".to_owned()]));
    assert_eq!(split_words(r#"a "b"#), None);
    assert!(matches!(split_argv("tool x", &Json::Null), Ok(v) if v == ["tool", "x"]));
    assert!(split_argv("tool \"x", &Json::Null).is_err());
    assert!(native_argv("", &Json::Null).is_err());
    assert!(matches!(exec_builtin("wol", "{}"), Ok(c) if matches!(c.procedure, Procedure::Wol)));
    assert!(builtin_call("no-such-thing", &Json::Null).is_err());
}

#[test]
fn a_wait_grows_up_to_its_bound() {
    assert!(matches!(wait_step(Look::Ended(Some(3)), 2), WaitStep::Finished(Some(3))));
    assert!(matches!(wait_step(Look::Failed, 2), WaitStep::Unfinished));
    assert!(matches!(wait_step(Look::Going { time_up: true }, 2), WaitStep::Unfinished));
    assert!(matches!(wait_step(Look::Going { time_up: false }, 2), WaitStep::Sleep { pause: 2, next: 4 }));
    assert!(matches!(wait_step(Look::Going { time_up: false }, 200), WaitStep::Sleep { pause: 200, next: 250 }));
    assert!(matches!(over_time(Bound::Page), OverTime::Kill));
    assert!(matches!(over_time(Bound::Run), OverTime::Hold));
}

fn refused(r: Result<Vec<Json>, ExecEnd>) -> String {
    match r {
        Err(ExecEnd::Refused(e)) => e.get_str("error").unwrap().to_owned(),
        _ => panic!("refused"),
    }
}

#[test]
fn a_native_command_answers_with_one_row() {
    let done = |code: Option<i32>, out: &[u8], err: &[u8]| {
        native_done(code, &Some(out.to_vec()), &Some(err.to_vec()))
    };
    let rows = exec_native("t", 5, Some(done(Some(0), b" hi \n", b""))).ok().unwrap();
    assert_eq!(to_text(&rows[0]), r#"{"exit_code":0,"output":"hi"}"#);
    assert_eq!(refused(exec_native("t", 5, None)), "'t' could not be started");
    assert_eq!(refused(exec_native("t", 5, Some(done(Some(2), b"out", b"\n bad \nworse")))), "'t' exited 2: bad");
    assert_eq!(refused(exec_native("t", 5, Some(done(None, b"out", b"")))), "'t' exited -1: out");
    assert!(refused(exec_native("t", 5, Some(native_done(Some(0), &None, &None)))).contains("could not be read"));
    assert_eq!(
        refused(exec_native("t", 5, Some(NativeRun::OverTime { killed: true }))),
        "'t' timed out after 5s and was killed on the device"
    );
    assert!(matches!(exec_native("t", 5, Some(NativeRun::OverTime { killed: false })), Err(ExecEnd::OverTime)));
    assert_eq!(first_line(" \n x \ny"), Some("x".to_owned()));
    assert_eq!(first_line(" \n"), None);
}

fn output(success: bool, stdout: &str, stderr: &str) -> Output {
    Output {
        success,
        code: Some(if success { 0 } else { 7 }),
        stdout: stdout.as_bytes().to_vec(),
        stderr: stderr.as_bytes().to_vec(),
    }
}

#[test]
fn powershell_answers_with_rows() {
    let texts = |out: &Output| -> Vec<String> { ps_rows_of(out, "w").ok().unwrap().iter().map(to_text).collect() };
    assert_eq!(texts(&output(true, " [1,2] ", "")), vec!["1", "2"]);
    assert_eq!(texts(&output(true, "{}", "")), vec!["{}"]);
    assert_eq!(texts(&output(true, "5", "")), vec!["5"]);
    assert!(texts(&output(true, "null", "")).is_empty());
    assert!(texts(&output(true, " ", "")).is_empty());
    let error = |out: &Output| ps_rows_of(out, "w").err().unwrap().get_str("error").unwrap().to_owned();
    assert_eq!(error(&output(true, "", " oops ")), "w failed: oops");
    assert_eq!(error(&output(false, "", "")), "w failed: exited 7");
    assert!(error(&output(true, "{", "")).starts_with("w returned unreadable output: "));
    assert!(guard_failure(&output(false, "x", "bad"), "w").is_none());
    assert_eq!(
        refused(exec_powershell(5, None)),
        "the collector command failed: PowerShell could not be started"
    );
    assert!(refused(exec_powershell(5, Some(PsRun::OverTime { killed: true }))).starts_with("timed out after 5s"));
    assert!(matches!(exec_powershell(5, Some(PsRun::OverTime { killed: false })), Err(ExecEnd::OverTime)));
    assert!(exec_powershell(5, Some(PsRun::Done(output(true, "[]", "")))).is_ok());
    let cut = ps_done(true, Some(0), Some(b"[1]".to_vec()), None);
    assert!(refused(exec_powershell(5, Some(cut))).contains("did not complete: a descendant kept its output pipe open"));
    let whole = ps_done(true, Some(0), Some(b"[1]".to_vec()), Some(Vec::new()));
    assert_eq!(exec_powershell(5, Some(whole)).ok().unwrap().len(), 1);
    let unfinished = ps_run_unfinished("why");
    assert!(refused(exec_powershell(5, Some(PsRun::Done(unfinished)))).contains("did not complete: why."));
    assert_eq!(powershell_script("cmd"), format!("{PS_GUARD}{PS_ADD_FNS}{PS_PARAMS_BIND}cmd"));
    assert_eq!(to_text(&ps_json(b" [1] \r\n").unwrap()), "[1]");
    assert!(ps_json(b"null").is_none());
    assert!(ps_json(b"").is_none());
    assert_eq!(powershell_exe(Some("C:\\W")), "C:\\W\\System32\\WindowsPowerShell\\v1.0\\powershell.exe");
    for unknown in [None, Some(""), Some("Windows"), Some("C:Windows")] {
        assert_eq!(
            powershell_exe(unknown),
            "C:\\Windows\\System32\\WindowsPowerShell\\v1.0\\powershell.exe"
        );
    }
}
