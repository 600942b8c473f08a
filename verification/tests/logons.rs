use sodiumoxide::base64::{encode, Variant};
use sodiumoxide::crypto::sign;
use sulltec_remote::connection::{
    close_conns, decide_logon, is_asked_to_close, keypair_logon_decision,
    verify_console_logon_sig, windows_sessions_refresh_request, AuthConnType, AuthedConn,
    LogonDecision,
};
use sulltec_remote::json::{from_text, Json};
use sulltec_remote::logon::{
    bare_id, fetch_grant, fetch_logon_grant, handoff_candidates, password_digest, preset_password,
    read_files, resolve_handoff, sign_locally, Environment, HandOff,
};
use sulltec_remote::num::to_hex;

fn conn(kind: AuthConnType, peer: &str, took: bool) -> AuthedConn {
    AuthedConn { kind, peer: peer.to_owned(), took }
}

#[test]
fn a_port_forward_tunnel_is_skipped_not_reported_closed() {
    let (closed, skipped, peers) = close_conns(&vec![
        conn(AuthConnType::Remote, "peer-remote", true),
        conn(AuthConnType::PortForward, "peer-tunnel", false),
    ]);
    assert_eq!((closed, skipped), (1, 1));
    assert_eq!(peers, vec!["peer-remote".to_string()]);
    assert!(is_asked_to_close(AuthConnType::Remote));
    assert!(!is_asked_to_close(AuthConnType::PortForward));
}

#[test]
fn a_connection_already_tearing_down_is_neither_closed_nor_named() {
    assert_eq!(
        close_conns(&vec![conn(AuthConnType::Remote, "peer-gone", false)]),
        (0, 0, Vec::new())
    );
}

#[test]
fn every_authorized_kind_except_port_forward_is_closed() {
    let conns: Vec<AuthedConn> = [
        AuthConnType::Remote,
        AuthConnType::FileTransfer,
        AuthConnType::ViewCamera,
        AuthConnType::Terminal,
    ]
    .iter()
    .map(|k| conn(*k, "peer", true))
    .collect();
    let (closed, skipped, peers) = close_conns(&conns);
    assert_eq!((closed, skipped, peers.len()), (4, 0, 4));
}

#[test]
fn an_unsigned_attempt_falls_through_when_passwords_are_allowed() {
    assert_eq!(
        keypair_logon_decision("", b"", "id", "challenge", "", false, 1_004_070, 1_002_000),
        LogonDecision::FallThrough
    );
}

#[test]
fn a_too_short_signature_is_never_treated_as_valid() {
    assert_eq!(
        keypair_logon_decision("", &[0u8; 8], "id", "challenge", "", false, 1_004_070, 1_002_000),
        LogonDecision::FallThrough
    );
}

#[test]
fn a_staged_error_is_reported_rather_than_swallowed() {
    assert_ne!(
        keypair_logon_decision("", b"", "id", "challenge", "account not found", false, 1_004_070, 1_002_000),
        LogonDecision::Authorize
    );
}

fn keys() -> (String, sign::SecretKey) {
    let (pk, sk) = sign::gen_keypair();
    (encode(pk.as_ref(), Variant::Original), sk)
}

#[test]
fn a_signature_is_for_one_device_and_one_challenge() {
    let (key, sk) = keys();
    let sig = sign::sign(b"CONSOLE-LOGON\n123\nabc", &sk);
    assert!(verify_console_logon_sig(&key, &sig, "123", "abc"));
    assert!(!verify_console_logon_sig(&key, &sig, "124", "abc"));
    assert!(!verify_console_logon_sig(&key, &sig, "123", "abd"));
    assert!(!verify_console_logon_sig("", &sig, "123", "abc"));
    assert!(!verify_console_logon_sig("no key", &sig, "123", "abc"));
    let (other, _) = keys();
    assert!(!verify_console_logon_sig(&other, &sig, "123", "abc"));
    let long = sign::sign(&[b'x'; 4097], &sk);
    assert!(!verify_console_logon_sig(&key, &long, "123", "abc"));
    assert_eq!(
        keypair_logon_decision(&key, &sig, "123", "abc", "", true, 0, 1),
        LogonDecision::Authorize
    );
    assert_eq!(
        keypair_logon_decision(&key, &sig, "123", "abc", "gone", false, 0, 1),
        LogonDecision::ReportError
    );
}

#[test]
fn keys_alone_reject_a_logon_without_one() {
    assert_eq!(
        decide_logon(false, "", true, 1_002_000, 1_002_000),
        LogonDecision::RejectNoPassword { tell_peer: true }
    );
    assert_eq!(
        decide_logon(false, "", true, 1_001_090, 1_002_000),
        LogonDecision::RejectNoPassword { tell_peer: false }
    );
}

#[test]
fn a_key_of_ones_own_signs_what_the_device_checks() {
    let (key, sk) = keys();
    let text = format!(" {}\n", encode(sk.as_ref(), Variant::Original));
    let sig = sign_locally(Some(&text), "123", "abc").expect("a signature");
    assert!(verify_console_logon_sig(&key, &sig, "123", "abc"));
    assert!(sign_locally(None, "123", "abc").is_none());
    assert!(sign_locally(Some("AAAA"), "123", "abc").is_none());
    assert!(sign_locally(Some("***"), "123", "abc").is_none());
}

#[test]
fn one_number_asks_for_the_list_of_sessions() {
    assert_eq!(windows_sessions_refresh_request(u32::MAX), Some(u32::MAX));
    assert_eq!(windows_sessions_refresh_request(1), None);
}

fn env(token: &str, url: &str, password: &str, args: &[&str]) -> Environment {
    Environment {
        token: token.to_owned(),
        url: url.to_owned(),
        password: password.to_owned(),
        args: args.iter().map(|a| a.to_string()).collect(),
    }
}

fn files(texts: &[Option<&str>]) -> Vec<Option<Json>> {
    read_files(&texts.iter().map(|t| t.map(str::to_owned)).collect())
}

#[test]
fn the_environment_comes_first() {
    let f = files(&[Some(r#"{"id":"123","token":"x"}"#), Some(r#"{"id":"9"}"#), None, Some("no json")]);
    let r = resolve_handoff(&env("t", "u", "p", &["--connect", "123"]), &f, "123@server");
    assert_eq!((r.handoff.token.as_str(), r.handoff.url.as_str(), r.handoff.password.as_str()), ("t", "u", "p"));
    assert_eq!(r.remove, vec![true, false, false, false]);
    assert_eq!((r.source.as_str(), r.password_source.as_str()), ("env", "env"));
    // Launched for another device: the password is not for this one, and no file is touched.
    let r = resolve_handoff(&env("t", "u", "p", &["456"]), &f, "123");
    assert_eq!(r.handoff.password, "");
    assert_eq!(r.remove, vec![false, false, false, false]);
    assert_eq!(r.password_source, "none");
}

#[test]
fn files_fill_what_the_environment_lacks() {
    let f = files(&[
        Some(r#"{"id":"9","token":"t1","password":"other"}"#),
        Some(r#"{"token":"t2","url":"u2","password":"mine"}"#),
        Some(r#"{"url":"u3"}"#),
    ]);
    let r = resolve_handoff(&env("", "", "", &[]), &f, "123");
    assert_eq!((r.handoff.token.as_str(), r.handoff.url.as_str(), r.handoff.password.as_str()), ("t1", "u2", "mine"));
    assert_eq!(r.remove, vec![true, true, true]);
    assert_eq!((r.source.as_str(), r.password_source.as_str()), ("file", "file"));
    let none = resolve_handoff(&env("", "", "", &[]), &files(&[None]), "123");
    assert_eq!(none.source, "none");
    assert_eq!(bare_id("123@server/x"), "123");
}

#[test]
fn a_password_becomes_its_digest() {
    // sha-256 of "abc"
    assert_eq!(
        to_hex(&password_digest("ab", "c")),
        "ba7816bf8f01cfea414140de5dae2223b00361a396177a9cb410ff61f20015ad"
    );
    assert!(password_digest("", "salt").is_empty());
    let f = files(&[Some(r#"{"token":"t","url":"u","password":"ab"}"#)]);
    let p = preset_password(&env("", "", "", &[]), &f, "123", "", "", "c");
    assert_eq!((p.token.as_str(), p.url.as_str()), ("t", "u"));
    assert_eq!(p.digest, password_digest("ab", "c"));
    assert_eq!(p.remove, vec![true]);
    let kept = preset_password(&env("", "", "ab", &["123"]), &f, "123", "kt", "ku", "c");
    assert_eq!((kept.token.as_str(), kept.url.as_str()), ("kt", "ku"));
    assert_eq!(kept.digest, password_digest("ab", "c"));
    assert_eq!(kept.remove, vec![false]);
}

#[test]
fn the_files_have_their_places() {
    assert_eq!(
        handoff_candidates(Some("C:\\ProgramData"), "/tmp"),
        vec![
            vec!["C:\\ProgramData", "SullTecRemote", "console-logon.json"],
            vec!["/tmp", "sulltec-console-logon.json"],
        ]
    );
    assert_eq!(handoff_candidates(None, "/tmp").len(), 1);
}

fn found(token: &str, url: &str) -> HandOff {
    HandOff { token: token.to_owned(), url: url.to_owned(), password: String::new() }
}

#[test]
fn a_grant_is_asked_for_with_what_is_complete() {
    let p = fetch_grant("123", "abc", "", "", &found("t", "https://c/"));
    let q = p.request.expect("a request");
    assert_eq!(q.url, "https://c/api/devices/key/123/common/logon/issue");
    assert_eq!(q.body, r#"{"challenge":"abc"}"#);
    assert_eq!(q.header, "Authorization: Bearer t");
    assert_eq!((p.token.as_str(), p.url.as_str()), ("t", "https://c/"));
    let kept = fetch_grant("123", "abc", "t", "https://c", &found("", ""));
    assert!(kept.request.is_some());
    assert_eq!((kept.token.as_str(), kept.url.as_str()), ("", ""));
    assert!(fetch_grant("123", "abc", "t", "", &found("t", "")).request.is_none());
    assert!(fetch_grant("", "abc", "t", "u", &found("", "")).request.is_none());
    assert!(fetch_grant("123", "", "t", "u", &found("", "")).request.is_none());
}

#[test]
fn a_reply_carries_a_signature_or_none() {
    assert_eq!(fetch_logon_grant(Some(r#"{"sig":" AQID\n"}"#)), vec![1, 2, 3]);
    assert!(fetch_logon_grant(Some(r#"{"sig":"?"}"#)).is_empty());
    assert!(fetch_logon_grant(Some("{}")).is_empty());
    assert!(fetch_logon_grant(Some("")).is_empty());
    assert!(fetch_logon_grant(None).is_empty());
    assert!(from_text("{").is_none());
}
