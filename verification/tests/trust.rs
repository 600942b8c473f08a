use sodiumoxide::base64::{encode, Variant};
use sodiumoxide::crypto::sign;
use sulltec_remote::json::{from_text, to_text, Json};
use sulltec_remote::num::to_hex;
use sulltec_remote::trust::{
    apply_update_require_sig, baked_logon_pubkey, current_logon_pubkey, resolve_key_bytes,
    resolve_trusted, sign_header, sign_sysinfo, stored_key_bytes, stored_key_text, update_logon_chain,
    update_sig_enforced, verify_package, verify_rotate, KeyChoice,
};
use sulltec_remote::update::{
    advance_update_hwm, clear_pending_package, content_length, download_begun, download_ended,
    download_interrupted, download_not_started, fetch_step, force_check_update_now,
    package_digest, package_file_from_url, pick_version, resume_range, seed_rollback_floor,
    set_pending_package, sulltec_numeric_version, verify_update_package, version_check_url,
    version_core, version_key, FetchStep, PendingPackage, UpdateGate, VersionFacts, VersionKey,
    NO_API_SERVER,
};

fn kp() -> (String, sign::SecretKey) {
    let (pk, sk) = sign::gen_keypair();
    (encode(pk.as_ref(), Variant::Original), sk)
}

fn hop(sk: &sign::SecretKey, new_pub: &str) -> String {
    let msg = format!("CONSOLE-LOGON-ROTATE\n{new_pub}");
    encode(sign::sign(msg.as_bytes(), sk), Variant::Original)
}

fn e(p: &str, s: &str) -> Json {
    Json::object().with("pub", Json::text(p)).with("sig", Json::text(s))
}

fn prev(a: &str, k: &str) -> Option<(String, String)> {
    Some((a.to_owned(), k.to_owned()))
}

#[test]
fn walk_floor_and_anchor_reset() {
    let (g, g_sk) = kp();
    let (k1, k1_sk) = kp();
    let (k2, _k2_sk) = kp();
    let s1 = hop(&g_sk, &k1);
    let s2 = hop(&k1_sk, &k2);
    let full = vec![e(&g, ""), e(&k1, &s1), e(&k2, &s2)];

    assert_eq!(resolve_trusted(&g, &full, &None), k2);
    assert_eq!(resolve_trusted(&g, &full, &prev(&g, &k1)), k2);

    let replay = vec![e(&g, ""), e(&k1, &s1)];
    assert_eq!(resolve_trusted(&g, &replay, &prev(&g, &k2)), k2);

    assert_eq!(resolve_trusted(&g, &full, &prev("OTHER-ANCHOR", &k2)), k2);

    let bad = hop(&g_sk, &k2);
    let broken = vec![e(&g, ""), e(&k1, &s1), e(&k2, &bad)];
    assert_eq!(resolve_trusted(&g, &broken, &None), k1);

    assert_eq!(resolve_trusted("UNSEEN", &full, &None), "UNSEEN");
}

fn sign_pkg(sk: &sign::SecretKey, version: &str, sha: &str, size: u64) -> String {
    let msg = format!("CONSOLE-PKG\n{version}\n{sha}\n{size}");
    encode(sign::sign(msg.as_bytes(), sk), Variant::Original)
}

#[test]
fn verify_package_accepts_current_key_and_rejects_others() {
    let (key, sk) = kp();
    let version = "0.26.0+003.20260722-000000.abc";
    let sha = "a".repeat(64);
    let size = 1234u64;
    let sig = sign_pkg(&sk, version, &sha, size);

    assert!(verify_package(&key, version, &sha, size, &sig));
    assert!(!verify_package(&key, "0.27.0", &sha, size, &sig));
    assert!(!verify_package(&key, version, &"b".repeat(64), size, &sig));
    assert!(!verify_package(&key, version, &sha, size + 1, &sig));
    assert!(!verify_package(&key, "", &sha, size, &sig));
    assert!(!verify_package(&key, version, "", size, &sig));
    assert!(!verify_package(&key, version, &sha, 0, &sig));
    assert!(!verify_package(&key, version, &sha, size, ""));
    let (_pk2, sk2) = kp();
    let sig2 = sign_pkg(&sk2, version, &sha, size);
    assert!(!verify_package(&key, version, &sha, size, &sig2));
    assert!(!verify_package("", version, &sha, size, &sig));
}

#[test]
fn a_rotation_is_signed_by_the_key_before() {
    let (g, g_sk) = kp();
    let (k1, k1_sk) = kp();
    assert!(verify_rotate(&g, &k1, &hop(&g_sk, &k1)));
    assert!(!verify_rotate(&g, &k1, &hop(&k1_sk, &k1)));
    assert!(!verify_rotate(&g, "other", &hop(&g_sk, &k1)));
    assert!(!verify_rotate(&g, &k1, "AAAA"));
    assert!(!verify_rotate("", &k1, &hop(&g_sk, &k1)));
}

#[test]
fn an_adopted_key_is_kept_and_read_back() {
    let (g, g_sk) = kp();
    let (k1, _) = kp();
    let chain = Json::array(vec![e(&g, ""), e(&k1, &hop(&g_sk, &k1))]);
    let update = update_logon_chain(&g, &Some(chain), "").expect("an update");
    assert_eq!(update.trusted, k1);
    let stored = update.store.expect("something to keep");
    assert_eq!(current_logon_pubkey(&None, &g, &stored), k1);
    assert_eq!(current_logon_pubkey(&None, "ANOTHER", &stored), "ANOTHER");
    assert_eq!(current_logon_pubkey(&Some("memory".to_owned()), &g, &stored), "memory");
    assert_eq!(current_logon_pubkey(&None, &g, "no json"), g);
    assert_eq!(baked_logon_pubkey(None), "");
    assert_eq!(baked_logon_pubkey(Some("k")), "k");
}

#[test]
fn a_report_is_signed_where_it_says_where_the_device_belongs() {
    let (pk, sk) = sign::gen_keypair();
    let report = from_text(r#"{"id":"1","domain":"d","ou":"o"}"#).unwrap();
    let sig = sign_sysinfo(&report, sk.as_ref()).expect("a signature");
    let expected = sign::sign_detached(b"SYSINFO\n1\nd\n\no\n\n", &sk);
    assert_eq!(sig, encode(expected.as_ref(), Variant::Original));
    assert!(sign_sysinfo(&from_text(r#"{"id":"1"}"#).unwrap(), sk.as_ref()).is_none());
    assert!(sign_sysinfo(&from_text(r#"{"domain":"d"}"#).unwrap(), sk.as_ref()).is_none());
    let header = sign_header("body", sk.as_ref());
    let over = sign::sign_detached(b"body", &sk);
    assert_eq!(header, format!("X-ST-Sig: {}", encode(over.as_ref(), Variant::Original)));
    assert!(sign::verify_detached(&over, b"body", &pk));
}

#[test]
fn the_enforcement_latch_follows_the_policy() {
    assert!(update_sig_enforced(Some("1"), ""));
    assert!(update_sig_enforced(None, "1"));
    assert!(!update_sig_enforced(Some("0"), "0"));
    for yes in ["1", " true ", "yes", "on"] {
        assert_eq!(apply_update_require_sig(yes, None, "0"), "1");
    }
    assert_eq!(apply_update_require_sig("no", None, "1"), "0");
    assert_eq!(apply_update_require_sig("no", Some("1"), "1"), "1");
}

#[test]
fn a_stored_key_is_chosen_in_turn() {
    assert_eq!(stored_key_bytes("AQID"), Some(vec![1, 2, 3]));
    assert_eq!(stored_key_bytes(""), None);
    assert_eq!(stored_key_bytes("*"), None);
    assert_eq!(stored_key_text(&[1, 2, 3, 4]), "AQIDBA==");
    let local = match resolve_key_bytes(None, Some(vec![2; 64])) {
        KeyChoice::Local(k) => k,
        _ => panic!("the local key"),
    };
    assert_eq!(stored_key_bytes(&stored_key_text(&local)), Some(vec![2; 64]));
    assert!(matches!(resolve_key_bytes(Some(vec![1; 64]), Some(vec![2; 64])), KeyChoice::Machine(b) if b[0] == 1));
    assert!(matches!(resolve_key_bytes(Some(vec![1; 3]), Some(vec![2; 64])), KeyChoice::Local(b) if b[0] == 2));
    assert!(matches!(resolve_key_bytes(None, None), KeyChoice::Generate));
}

#[test]
fn accepts_a_console_hosted_package_url() {
    let file = package_file_from_url(
        "https://rustdesk.example.com/packages/download/0.87.6/rustdesk-0.87.6-x86_64.exe",
    )
    .expect("a console-hosted package URL must resolve");
    assert_eq!(file, "rustdesk-0.87.6-x86_64.exe");
}

#[test]
fn rejects_anything_that_is_not_a_plain_filename_on_an_http_url() {
    for url in [
        "https://rustdesk.example.com/packages/download/1/",
        "https://rustdesk.example.com/packages/download/1/C:rustdesk.exe",
        "file:///C:/Windows/System32/calc.exe",
        "not a url",
    ] {
        assert!(package_file_from_url(url).is_none(), "{url}");
    }
}

#[test]
fn a_query_string_does_not_leak_into_the_filename() {
    let file = package_file_from_url(
        "https://rustdesk.example.com/packages/download/0.87.6/rustdesk-0.87.6-x86_64.exe?t=1",
    )
    .expect("query strings are legal in a package URL");
    assert_eq!(file, "rustdesk-0.87.6-x86_64.exe");
}

fn key(core: i64, build: u64, datetime: &str) -> VersionKey {
    VersionKey { core, build, datetime: datetime.to_owned() }
}

#[test]
fn versions_are_read_and_ordered() {
    let k = version_key("0.26.0+003.20260722-000000.abc", 26_000);
    assert_eq!((k.core, k.build, k.datetime.as_str()), (26_000, 3, "20260722-000000"));
    assert_eq!(version_core("0.26.0+003.x"), "0.26.0");
    let bare = version_key("0.26.0", 5);
    assert_eq!((bare.core, bare.build, bare.datetime.as_str()), (5, 0, ""));
    let odd = version_key("1+x.y", 5);
    assert_eq!((odd.build, odd.datetime.as_str()), (0, "y"));
}

#[test]
fn the_mark_moves_up_only() {
    let low = key(1, 2, "a");
    let high = key(1, 2, "b");
    assert_eq!(advance_update_hwm("m", &low, "t", &high), Some("t".to_owned()));
    assert_eq!(advance_update_hwm("m", &high, "t", &low), None);
    assert_eq!(advance_update_hwm("m", &high, "t", &high), None);
    assert_eq!(advance_update_hwm("", &high, "t", &low), Some("t".to_owned()));
    assert_eq!(advance_update_hwm("", &high, "", &low), None);
    let mut seeded = false;
    assert_eq!(seed_rollback_floor(&mut seeded, Some("t"), &high, "m", &low), Some("t".to_owned()));
    assert!(seeded);
    assert_eq!(seed_rollback_floor(&mut seeded, Some("t"), &high, "m", &low), None);
    let mut fresh = false;
    assert_eq!(seed_rollback_floor(&mut fresh, None, &high, "m", &low), None);
}

fn pending(sk: &sign::SecretKey, data: &[u8]) -> PendingPackage {
    let mut p = PendingPackage::new();
    let sha = package_digest(data);
    let sig = sign_pkg(sk, "2.0", &sha, data.len() as u64);
    set_pending_package(&mut p, "2.0".to_owned(), sig, sha, data.len() as u64);
    p
}

fn facts(package: i64) -> VersionFacts {
    VersionFacts { package: key(package, 0, ""), running: key(1, 0, ""), mark: key(1, 5, "") }
}

#[test]
fn a_package_runs_where_it_is_signed_and_newer() {
    let (trusted, sk) = kp();
    let data = b"package".to_vec();
    let p = pending(&sk, &data);
    let digest = package_digest(&data).to_uppercase();
    let size = data.len() as u64;
    let ok = |url: &str, size: u64, d: Option<&str>, v: i64, enforce: bool| {
        verify_update_package(&p, url, size, d, &trusted, "1.0", &facts(v), enforce)
    };
    assert!(ok("HTTP://x", size, Some(&digest), 2, true));
    assert!(!ok("https://x", size + 1, Some(&digest), 2, true));
    assert!(!ok("https://x", size, None, 2, true));
    assert!(!ok("https://x", size, Some("00"), 2, true));
    assert!(!ok("https://x", size, Some(&digest), 1, true));
    // Not enforced: only a plain connection without a good signature is refused.
    assert!(ok("https://x", size, None, 1, false));
    assert!(!ok("Http://x", size, None, 2, false));
    assert!(ok("http://x", size, Some(&digest), 1, false));
    let mut gone = PendingPackage::new();
    set_pending_package(&mut gone, "v".to_owned(), "s".to_owned(), "h".to_owned(), 1);
    clear_pending_package(&mut gone);
    assert_eq!((gone.version.as_str(), gone.sig.as_str(), gone.sha256.as_str(), gone.size), ("", "", "", 0));
}

#[test]
fn the_digest_is_sha_256() {
    assert_eq!(
        package_digest(b"abc"),
        "ba7816bf8f01cfea414140de5dae2223b00361a396177a9cb410ff61f20015ad"
    );
    assert_eq!(to_hex(&[0, 15, 255]), "000fff");
}

#[test]
fn the_signed_version_is_preferred() {
    assert_eq!(pick_version("1.2", "https://x/9.9"), "1.2");
    assert_eq!(pick_version("", "https://x/9.9"), "9.9");
    assert_eq!(pick_version("", ""), "");
}

#[test]
fn the_console_is_asked_for_the_latest_version() {
    assert_eq!(version_check_url("https://c//", "b"), Ok("https://c/version/latest".to_owned()));
    assert_eq!(version_check_url("", "https://b"), Ok("https://b/version/latest".to_owned()));
    assert_eq!(version_check_url("", ""), Err(NO_API_SERVER.to_owned()));
}

#[test]
fn one_forced_check_runs_at_a_time() {
    let mut g = UpdateGate::new();
    assert!(force_check_update_now(&mut g));
    assert!(!force_check_update_now(&mut g));
    g.finished();
    assert!(force_check_update_now(&mut g));
}

#[test]
fn a_download_resumes_and_is_checked() {
    assert_eq!(resume_range(5, 10), Some("bytes=5-".to_owned()));
    assert_eq!(resume_range(0, 10), None);
    assert_eq!(resume_range(10, 10), None);
    assert_eq!(download_begun("u", 5, 10, 206, "206 Partial Content"), Ok(true));
    assert_eq!(download_begun("u", 5, 10, 200, "200 OK"), Ok(false));
    assert_eq!(download_begun("u", 0, 10, 206, "206 Partial Content"), Ok(false));
    assert_eq!(
        download_begun("u", 0, 10, 404, "404 Not Found"),
        Err("Failed to download the new version file: 404 Not Found (u)".to_owned())
    );
    assert_eq!(download_ended("u", 10, 10, 5), Ok(()));
    assert_eq!(
        download_ended("u", 7, 10, 5),
        Err("update download incomplete: have 7 of 10 bytes (u), wrote 5".to_owned())
    );
    assert_eq!(
        download_interrupted("u", true, 5, 10, "e"),
        "update download interrupted after 5 + partial of 10 bytes (u): e"
    );
    assert_eq!(download_not_started("u", "e"), "update download failed to start (u): e");
    assert_eq!(content_length(Some("12")), Some(12));
    assert_eq!(content_length(Some("x")), None);
    assert!(matches!(fetch_step(true, "200 OK", Some("12"), 12), Ok(FetchStep::Complete)));
    assert!(matches!(fetch_step(true, "200 OK", Some("12"), 3), Ok(FetchStep::Download(12))));
    assert!(matches!(fetch_step(true, "200 OK", None, 3), Err(t) if t == "Failed to get content length"));
    assert!(matches!(fetch_step(false, "500", None, 3), Err(t) if t == "Failed to get the file size: 500"));
}

#[test]
fn a_version_is_packed_into_four_fields() {
    assert_eq!(sulltec_numeric_version("1.2.3+004.x.y"), Some((1 << 48) | (2 << 32) | (3 << 16) | 4));
    assert_eq!(sulltec_numeric_version("0.26.0"), Some(26 << 32));
    assert_eq!(sulltec_numeric_version("1.2.3.4+zz"), Some((1 << 48) | (2 << 32) | (3 << 16)));
    assert_eq!(sulltec_numeric_version("1.2"), None);
    assert_eq!(sulltec_numeric_version("a.b.c"), None);
    assert_eq!(sulltec_numeric_version("70000.0.0+99999999999999999999999999999999999999999"), Some((65535 << 48) | 65535));
    assert_eq!(to_text(&Json::Null), "null");
}
