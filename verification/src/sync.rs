//! The loop that reports to the server: when a system report is due, when a heartbeat is, what
//! each says, and what the replies change.
use vstd::prelude::*;

use crate::crypto;
use crate::json;
use crate::num;
use crate::policy;
use crate::text;
use crate::trust;
use crate::crypto::{b64_standard, sha256};
use crate::heartbeat::decorate_body;
use crate::json::{object_from_text, sorted_members, Json, JsonV};
use crate::num::parse_i64;
use crate::policy::Overrides;
use crate::text::{cat, replace, same};
use crate::trust::sign_sysinfo;

verus! {

/// The least time between heartbeats of a device without connections, in milliseconds.
pub const TIME_HEARTBEAT: u64 = 15_000;

/// The least time between two attempts to upload the system report, in milliseconds.
pub const UPLOAD_SYSINFO_TIMEOUT: u64 = 120_000;

/// The time between two rounds of the loop, in milliseconds.
pub const TIME_CONN: u64 = 3_000;

/// Whether the loop was started.
pub struct SyncService {
    started: bool,
}

impl View for SyncService {
    type V = bool;

    closed spec fn view(&self) -> bool {
        self.started
    }
}

impl SyncService {
    /// The loop was not started.
    pub fn new() -> (r: SyncService)
        ensures
            !r@,
    {
        SyncService { started: false }
    }
}

/// Starts the loop: the first call says that its thread is to be made, the later ones do not.
pub fn start(service: &mut SyncService) -> (spawn: bool)
    ensures
        spawn == !old(service)@,
        final(service)@,
{
    let spawn = !service.started;
    service.started = true;
    spawn
}

/// What the loop knows of its uploads.
pub struct SyncState {
    /// Whether the server has the system report.
    pub uploaded: bool,
    /// Where it was sent.
    pub url: String,
    /// When it was last tried in vain, in milliseconds of a clock that never goes back.
    pub last_uploaded: Option<u64>,
    /// Whose report it was.
    pub id: String,
    /// The user that it named.
    pub username: Option<String>,
    /// When the last heartbeat was sent.
    pub last_sent: Option<u64>,
    /// The version of the report that the server has.
    pub sysinfo_ver: String,
    /// Whether the server is known to take reports.
    pub pro: bool,
}

/// The model of a [`SyncState`].
pub struct SyncV {
    pub uploaded: bool,
    pub url: Seq<char>,
    pub last_uploaded: Option<u64>,
    pub id: Seq<char>,
    pub username: Option<Seq<char>>,
    pub last_sent: Option<u64>,
    pub sysinfo_ver: Seq<char>,
    pub pro: bool,
}

impl View for SyncState {
    type V = SyncV;

    open spec fn view(&self) -> SyncV {
        SyncV {
            uploaded: self.uploaded,
            url: self.url@,
            last_uploaded: self.last_uploaded,
            id: self.id@,
            username: text::opt_text(self.username),
            last_sent: self.last_sent,
            sysinfo_ver: self.sysinfo_ver@,
            pro: self.pro,
        }
    }
}

impl SyncV {
    /// The state in which the server has the report of this user.
    pub open spec fn reported(self, url: Seq<char>, id: Seq<char>, username: Seq<char>) -> SyncV {
        SyncV {
            uploaded: true,
            url,
            last_uploaded: None,
            id,
            username: Some(username),
            last_sent: self.last_sent,
            sysinfo_ver: self.sysinfo_ver,
            pro: self.pro,
        }
    }
}

impl SyncState {
    /// Nothing was sent yet.
    pub fn new() -> (r: SyncState)
        ensures
            !r.uploaded,
            r.url@.len() == 0,
            r.last_uploaded is None,
            r.id@.len() == 0,
            r.username is None,
            r.last_sent is None,
            r.sysinfo_ver@.len() == 0,
            !r.pro,
    {
        SyncState {
            uploaded: false,
            url: String::new(),
            last_uploaded: None,
            id: String::new(),
            username: None,
            last_sent: None,
            sysinfo_ver: String::new(),
            pro: false,
        }
    }

    /// The server has the report of this user.
    fn set_reported(&mut self, url: &str, id: &str, username: &str)
        ensures
            final(self)@ == old(self)@.reported(url@, id@, username@),
    {
        self.uploaded = true;
        self.url = url.to_owned();
        self.last_uploaded = None;
        self.id = id.to_owned();
        self.username = Some(username.to_owned());
    }
}

/// Whether the server is known to take reports.
pub fn is_pro(state: &SyncState) -> (r: bool)
    ensures
        r == state.pro,
{
    state.pro
}

/// The address of the heartbeat; empty where there is no server of one's own.
pub fn heartbeat_url(api_server: &str, public: bool) -> (r: String)
    ensures
        r@ == (if api_server@.len() == 0 || public {
            Seq::<char>::empty()
        } else {
            api_server@ + "/api/heartbeat"@
        }),
{
    if api_server.is_empty() || public {
        return String::new();
    }
    cat(api_server, "/api/heartbeat")
}

/// The state with which a round goes on.
pub open spec fn begun(s: SyncV, url: Seq<char>, id: Seq<char>, stopped: bool) -> SyncV {
    if url.len() == 0 {
        SyncV { pro: false, ..s }
    } else if !stopped && s.uploaded && (url != s.url || id != s.id) {
        SyncV { uploaded: false, pro: false, ..s }
    } else {
        s
    }
}

/// Begins a round, and says whether it goes on: it does not without a server or while the
/// service is stopped. A report that was made to another server, or as another device, no longer
/// counts.
pub fn begin_round(state: &mut SyncState, url: &str, id: &str, stopped: bool) -> (r: bool)
    ensures
        r == (url@.len() > 0 && !stopped),
        final(state)@ == begun(old(state)@, url@, id@, stopped),
{
    if url.is_empty() {
        state.pro = false;
        return false;
    }
    if stopped {
        return false;
    }
    if state.uploaded && (!same(url, state.url.as_str()) || !same(id, state.id.as_str())) {
        state.uploaded = false;
        state.pro = false;
    }
    true
}

/// The milliseconds since a moment; none where it is still to come.
pub open spec fn elapsed(since: u64, now: u64) -> int {
    if now >= since {
        now - since
    } else {
        0
    }
}

fn since(then: u64, now: u64) -> (r: u64)
    ensures
        r == elapsed(then, now),
{
    if now >= then {
        now - then
    } else {
        0
    }
}

/// Whether the system report is due.
pub open spec fn upload_due(s: SyncV, username: Seq<char>, now: u64) -> bool {
    &&& !s.uploaded || s.username != Some(username)
    &&& match s.last_uploaded {
        Some(t) => elapsed(t, now) >= UPLOAD_SYSINFO_TIMEOUT,
        None => true,
    }
}

/// Whether the system report is due: the server does not have it, or not for this user, and the
/// last attempt that failed is long enough ago.
pub fn needs_upload(state: &SyncState, username: &str, now: u64) -> (r: bool)
    ensures
        r == upload_due(state@, username@, now),
{
    let known = match &state.username {
        Some(u) => same(u.as_str(), username),
        None => false,
    };
    let rested = match state.last_uploaded {
        Some(t) => since(t, now) >= UPLOAD_SYSINFO_TIMEOUT,
        None => true,
    };
    (!state.uploaded || !known) && rested
}

/// The settings that a system report carries beside what was measured.
pub struct Presets {
    /// Pairs of a name and a value that is added where it is not empty.
    pub named: Vec<(String, String)>,
    /// The user's name, in place of the measured one.
    pub username: String,
    /// The device's name, in place of the measured one.
    pub hostname: String,
    /// A note, with its name.
    pub note: (String, String),
}

/// An object with a text added, unless it is empty.
pub open spec fn with_text(v: JsonV, key: Seq<char>, value: Seq<char>) -> JsonV {
    if value.len() == 0 {
        v
    } else {
        v.with(key, JsonV::Str(value))
    }
}

/// An object with texts added, in their order.
pub open spec fn with_texts(v: JsonV, named: Seq<(String, String)>) -> JsonV
    decreases named.len(),
{
    if named.len() == 0 {
        v
    } else {
        with_text(with_texts(v, named.drop_last()), named.last().0@, named.last().1@)
    }
}

/// Adds a text to an object, unless it is empty.
pub fn put_text(v: Json, key: &str, value: &str) -> (r: Json)
    requires
        v@ is Obj || v@ is Null,
    ensures
        r@ == with_text(v@, key@, value@),
        v@ is Obj || value@.len() > 0 ==> r@ is Obj,
{
    if value.is_empty() {
        v
    } else {
        v.with(key, Json::text(value))
    }
}

/// The system report before it is signed.
pub open spec fn report_v(
    v: JsonV,
    version: Seq<char>,
    id: Seq<char>,
    uuid: Seq<char>,
    presets: Presets,
) -> JsonV {
    let base = v.with("version"@, JsonV::Str(version)).with("id"@, JsonV::Str(id)).with(
        "uuid"@,
        JsonV::Str(uuid),
    );
    let named = with_texts(base, presets.named@);
    let user = with_text(named, "username"@, presets.username@);
    let host = with_text(user, "hostname"@, presets.hostname@);
    with_text(host, presets.note.0@, presets.note.1@)
}

/// The system report: what was measured, with the version, the device and the presets, and
/// signed where it says where the device belongs.
pub open spec fn signed_report(
    v: JsonV,
    version: Seq<char>,
    id: Seq<char>,
    uuid: Seq<char>,
    presets: Presets,
    sk: Seq<u8>,
) -> JsonV {
    let report = report_v(v, version, id, uuid, presets);
    if trust::sysinfo_signable(report) {
        report.with("adsig"@, JsonV::Str(trust::signed_b64(trust::sysinfo_message(report), sk)))
    } else {
        report
    }
}

/// Makes the system report.
pub fn sysinfo_report(
    v: Json,
    version: &str,
    id: &str,
    uuid: &str,
    presets: &Presets,
    sk: &[u8],
) -> (r: Json)
    requires
        v@ is Obj || v@ is Null,
        sk@.len() == 64,
    ensures
        r@ == signed_report(v@, version@, id@, uuid@, *presets, sk@),
{
    let mut out = v.with("version", Json::text(version)).with("id", Json::text(id)).with(
        "uuid",
        Json::text(uuid),
    );
    let ghost base = out@;
    let mut i: usize = 0;
    assert(presets.named@.take(0) =~= Seq::<(String, String)>::empty());
    while i < presets.named.len()
        invariant
            i <= presets.named@.len(),
            out@ is Obj,
            out@ == with_texts(base, presets.named@.take(i as int)),
        decreases presets.named@.len() - i,
    {
        assert(presets.named@.take(i + 1).drop_last() == presets.named@.take(i as int));
        out = put_text(out, presets.named[i].0.as_str(), presets.named[i].1.as_str());
        i = i + 1;
    }
    assert(presets.named@.take(i as int) == presets.named@);
    out = put_text(out, "username", presets.username.as_str());
    out = put_text(out, "hostname", presets.hostname.as_str());
    out = put_text(out, presets.note.0.as_str(), presets.note.1.as_str());
    if let Some(sig) = sign_sysinfo(&out, sk) {
        out = out.with("adsig", Json::Str(sig));
    }
    out
}

/// The digest by which a report is known again: of its address and its text.
pub open spec fn report_hash(url: Seq<char>, body: Seq<char>) -> Seq<char> {
    crypto::standard_b64(crypto::sha256_digest(vstd::utf8::encode_utf8(url) + vstd::utf8::encode_utf8(body)))
}

/// The digest by which a report is known again.
pub fn sysinfo_hash(url: &str, body: &str) -> (r: String)
    ensures
        r@ == report_hash(url@, body@),
{
    let mut data: Vec<u8> = Vec::new();
    data.extend_from_slice(url.as_bytes());
    data.extend_from_slice(body.as_bytes());
    assert(data@ =~= vstd::utf8::encode_utf8(url@) + vstd::utf8::encode_utf8(body@));
    b64_standard(sha256(data.as_slice()).as_slice())
}

/// What is to be done with a report.
pub enum UploadStep {
    /// Ask the server which version of the report it has.
    AskVersion(String),
    /// Send the report there.
    Send(String),
}

/// What is to be done with a report: one that a public server was sent before, by its digest, is
/// first asked for; any other is sent.
pub fn upload_step(url: &str, public: bool, hash: &str, old_hash: &str) -> (r: UploadStep)
    ensures
        match r {
            UploadStep::AskVersion(to) => public && hash@ == old_hash@ && to@ == text::replace_v(
                url@,
                "heartbeat"@,
                "sysinfo_ver"@,
            ),
            UploadStep::Send(to) => (!public || hash@ != old_hash@) && to@ == text::replace_v(
                url@,
                "heartbeat"@,
                "sysinfo"@,
            ),
        },
{
    if public && same(hash, old_hash) {
        UploadStep::AskVersion(version_url(url))
    } else {
        UploadStep::Send(sysinfo_url(url))
    }
}

fn version_url(url: &str) -> (r: String)
    ensures
        r@ == text::replace_v(url@, "heartbeat"@, "sysinfo_ver"@),
{
    proof {
        reveal_strlit("heartbeat");
    }
    replace(url, "heartbeat", "sysinfo_ver")
}

/// Where the system report is sent.
pub fn sysinfo_url(url: &str) -> (r: String)
    ensures
        r@ == text::replace_v(url@, "heartbeat"@, "sysinfo"@),
{
    proof {
        reveal_strlit("heartbeat");
    }
    replace(url, "heartbeat", "sysinfo")
}

/// The state after the server said which version it has.
pub open spec fn versioned(
    s: SyncV,
    reply: Option<Seq<char>>,
    ver: Seq<char>,
    url: Seq<char>,
    id: Seq<char>,
    username: Seq<char>,
) -> SyncV {
    match reply {
        Some(x) => {
            let known = SyncV { sysinfo_ver: x, pro: true, ..s };
            if x == ver {
                known.reported(url, id, username)
            } else {
                known
            }
        },
        None => s,
    }
}

/// Takes the server's word on which version it has, and says whether the report need not be
/// sent. Where it need not, the round ends.
pub fn version_answered(
    state: &mut SyncState,
    reply: Option<&str>,
    ver: &str,
    url: &str,
    id: &str,
    username: &str,
) -> (r: bool)
    ensures
        r == (text::opt_str(reply) == Some(ver@)),
        final(state)@ == versioned(old(state)@, text::opt_str(reply), ver@, url@, id@, username@),
{
    match reply {
        Some(x) => {
            state.sysinfo_ver = x.to_owned();
            state.pro = true;
            if same(x, ver) {
                state.set_reported(url, id, username);
                true
            } else {
                false
            }
        },
        None => false,
    }
}

/// The state after the report was sent.
pub open spec fn answered(
    s: SyncV,
    reply: Option<Seq<char>>,
    url: Seq<char>,
    id: Seq<char>,
    username: Seq<char>,
    now: u64,
) -> SyncV {
    if reply == Some("SYSINFO_UPDATED"@) {
        SyncV { pro: true, ..s.reported(url, id, username) }
    } else if reply == Some("ID_NOT_FOUND"@) {
        SyncV { last_uploaded: None, ..s }
    } else {
        SyncV { last_uploaded: Some(now), ..s }
    }
}

/// What is to be kept of a report that was taken.
pub struct KeepReport {
    pub hash: String,
    pub ver: String,
}

/// Takes the server's answer to a report, and says what is to be kept of it.
pub fn upload_answered(
    state: &mut SyncState,
    reply: Option<&str>,
    hash: &str,
    url: &str,
    id: &str,
    username: &str,
    now: u64,
) -> (r: Option<KeepReport>)
    ensures
        final(state)@ == answered(old(state)@, text::opt_str(reply), url@, id@, username@, now),
        match r {
            Some(k) => text::opt_str(reply) == Some("SYSINFO_UPDATED"@) && hash@.len() > 0 && k.hash@
                == hash@ && k.ver@ == old(state)@.sysinfo_ver,
            None => text::opt_str(reply) != Some("SYSINFO_UPDATED"@) || hash@.len() == 0,
        },
{
    proof {
        reveal_strlit("SYSINFO_UPDATED");
        reveal_strlit("ID_NOT_FOUND");
    }
    match reply {
        Some(x) => {
            if same(x, "SYSINFO_UPDATED") {
                state.set_reported(url, id, username);
                state.pro = true;
                if hash.is_empty() {
                    None
                } else {
                    Some(KeepReport { hash: hash.to_owned(), ver: state.sysinfo_ver.clone() })
                }
            } else if same(x, "ID_NOT_FOUND") {
                state.last_uploaded = None;
                None
            } else {
                state.last_uploaded = Some(now);
                None
            }
        },
        None => {
            state.last_uploaded = Some(now);
            None
        },
    }
}

/// Whether a heartbeat is due.
pub open spec fn heartbeat_due_v(s: SyncV, connected: bool, now: u64) -> bool {
    connected || match s.last_sent {
        Some(t) => elapsed(t, now) >= TIME_HEARTBEAT,
        None => true,
    }
}

/// Says whether a heartbeat is due, and notes that it is sent now: a device with connections
/// sends one each round, one without them less often.
pub fn heartbeat_due(state: &mut SyncState, connected: bool, now: u64) -> (r: bool)
    ensures
        r == heartbeat_due_v(old(state)@, connected, now),
        final(state)@ == (if r {
            SyncV { last_sent: Some(now), ..old(state)@ }
        } else {
            old(state)@
        }),
{
    if !connected {
        if let Some(t) = state.last_sent {
            if since(t, now) < TIME_HEARTBEAT {
                return false;
            }
        }
    }
    state.last_sent = Some(now);
    true
}

/// The integers of a list, as JSON.
pub open spec fn int_list(s: Seq<i32>) -> JsonV {
    JsonV::Arr(Seq::new(s.len(), |i: int| JsonV::Int(s[i] as int)))
}

fn int_array(v: &Vec<i32>) -> (r: Json)
    ensures
        r@ == int_list(v@),
{
    let mut out: Vec<Json> = Vec::new();
    let mut i: usize = 0;
    while i < v.len()
        invariant
            i <= v@.len(),
            out@.len() == i,
            forall|k: int| 0 <= k < i ==> (#[trigger] out@[k])@ == JsonV::Int(v@[k] as int),
        decreases v@.len() - i,
    {
        out.push(Json::Int(v[i] as i64));
        i = i + 1;
    }
    assert(json::models(out@) =~= Seq::new(v@.len(), |i: int| JsonV::Int(v@[i] as int)));
    Json::array(out)
}

/// The time of the settings that the device has from the server.
pub fn strategy_time(stored: &str) -> (r: i64)
    ensures
        r == (match num::parse_sint(stored@, i64::MIN as int, i64::MAX as nat) {
            Some(n) => n,
            None => 0,
        }),
{
    match parse_i64(stored) {
        Some(n) => n,
        None => 0,
    }
}

/// A heartbeat.
pub open spec fn heartbeat_v(
    id: Seq<char>,
    uuid: Seq<char>,
    ver: int,
    logon_pub: Seq<char>,
    logon_anchor: Seq<char>,
    conns: Seq<i32>,
    modified_at: int,
) -> JsonV {
    let base = JsonV::empty().with("id"@, JsonV::Str(id)).with("uuid"@, JsonV::Str(uuid)).with(
        "ver"@,
        JsonV::Int(ver),
    ).with("logon_pub"@, JsonV::Str(logon_pub)).with("logon_anchor"@, JsonV::Str(logon_anchor));
    let live = if conns.len() == 0 {
        base
    } else {
        base.with("conns"@, int_list(conns))
    };
    live.with("modified_at"@, JsonV::Int(modified_at))
}

/// Makes a heartbeat.
pub fn heartbeat_body(
    id: &str,
    uuid: &str,
    ver: i64,
    logon_pub: &str,
    logon_anchor: &str,
    conns: &Vec<i32>,
    modified_at: i64,
) -> (r: Json)
    ensures
        r@ == heartbeat_v(
            id@,
            uuid@,
            ver as int,
            logon_pub@,
            logon_anchor@,
            conns@,
            modified_at as int,
        ),
{
    let base = Json::object().with("id", Json::text(id)).with("uuid", Json::text(uuid)).with(
        "ver",
        Json::Int(ver),
    );
    let mut v = decorate_body(base, logon_pub, logon_anchor);
    if conns.len() > 0 {
        v = v.with("conns", int_array(conns));
    }
    v.with("modified_at", Json::Int(modified_at))
}

/// Settings that the server gives a device.
pub struct StrategyOptions {
    pub config_options: Overrides,
    pub extra: Overrides,
}

/// The map that an object of texts is; nothing of any other value.
pub open spec fn text_map(j: JsonV) -> Option<Map<Seq<char>, Seq<char>>> {
    match j {
        JsonV::Obj(m) => if forall|k: Seq<char>| #[trigger] m.contains_key(k) ==> m[k] is Str {
            Some(Map::new(|k: Seq<char>| m.contains_key(k), |k: Seq<char>| m[k]->Str_0))
        } else {
            None
        },
        _ => None,
    }
}

/// Reads an object of texts.
pub fn read_text_map(j: &Json) -> (r: Option<Overrides>)
    ensures
        match r {
            Some(o) => text_map(j@) == Some(o@),
            None => text_map(j@) is None,
        },
{
    if !j.is_object() {
        return None;
    }
    let ms = sorted_members(j);
    proof {
        crate::json::lemma_ordered_distinct(ms@);
        crate::json::lemma_members_distinct(ms@);
    }
    let ghost m = json::members(ms@);
    let mut out = Overrides::new();
    let mut i: usize = 0;
    while i < ms.len()
        invariant
            i <= ms@.len(),
            j@ == JsonV::Obj(m),
            m == json::members(ms@),
            forall|a: int|
                0 <= a < ms@.len() ==> m.contains_key((#[trigger] ms@[a]).0@) && m[ms@[a].0@]
                    == ms@[a].1@,
            forall|a: int| 0 <= a < i ==> (#[trigger] ms@[a]).1@ is Str,
            forall|k: Seq<char>| #[trigger]
                out@.contains_key(k) <==> exists|a: int| 0 <= a < i && (#[trigger] ms@[a]).0@ == k,
            forall|k: Seq<char>| #[trigger]
                out@.contains_key(k) ==> m.contains_key(k) && out@[k] == m[k]->Str_0,
        decreases ms@.len() - i,
    {
        let ghost o = out@;
        match ms[i].1.as_str() {
            Some(s) => {
                out.insert(ms[i].0.as_str(), s);
            },
            None => {
                assert(!(m[ms@[i as int].0@] is Str));
                return None;
            },
        }
        assert forall|k: Seq<char>| #[trigger] out@.contains_key(k) implies exists|a: int|
            0 <= a < i + 1 && (#[trigger] ms@[a]).0@ == k by {
            if k != ms@[i as int].0@ {
                assert(o.contains_key(k));
            }
        }
        i = i + 1;
    }
    assert forall|k: Seq<char>| #[trigger] m.contains_key(k) implies m[k] is Str
        && out@.contains_key(k) by {
        let a = choose|a: int| 0 <= a < ms@.len() && (#[trigger] ms@[a]).0@ == k;
        assert(ms@[a].1@ is Str);
    }
    assert(out@ =~= Map::new(|k: Seq<char>| m.contains_key(k), |k: Seq<char>| m[k]->Str_0));
    Some(out)
}

/// The map of a field that may be missing.
pub open spec fn field_map(j: Option<JsonV>) -> Option<Map<Seq<char>, Seq<char>>> {
    match j {
        Some(f) => text_map(f),
        None => Some(Map::empty()),
    }
}

/// The two maps of the settings that a value holds: an object with them as members, or an array
/// with them in order. What is missing is empty.
pub open spec fn strategy_of(j: JsonV) -> Option<
    (Map<Seq<char>, Seq<char>>, Map<Seq<char>, Seq<char>>),
> {
    let fields = match j {
        JsonV::Obj(_) => Some((j.member("config_options"@), j.member("extra"@))),
        JsonV::Arr(s) => if s.len() > 2 {
            None
        } else {
            Some(
                (
                    if s.len() > 0 {
                        Some(s[0])
                    } else {
                        None
                    },
                    if s.len() > 1 {
                        Some(s[1])
                    } else {
                        None
                    },
                ),
            )
        },
        _ => None,
    };
    match fields {
        Some(f) => match (field_map(f.0), field_map(f.1)) {
            (Some(a), Some(b)) => Some((a, b)),
            _ => None,
        },
        None => None,
    }
}

fn read_field(j: Option<&Json>) -> (r: Option<Overrides>)
    ensures
        match r {
            Some(o) => field_map(json::opt_ref(j)) == Some(o@),
            None => field_map(json::opt_ref(j)) is None,
        },
{
    match j {
        Some(f) => read_text_map(f),
        None => Some(Overrides::new()),
    }
}

/// Reads the settings that the server gives a device.
pub fn read_strategy(j: &Json) -> (r: Option<StrategyOptions>)
    ensures
        match r {
            Some(s) => strategy_of(j@) == Some((s.config_options@, s.extra@)),
            None => strategy_of(j@) is None,
        },
{
    let (first, second) = if j.is_object() {
        (read_field(j.get("config_options")), read_field(j.get("extra")))
    } else {
        match j.as_array() {
            Some(a) => {
                if a.len() > 2 {
                    return None;
                }
                let x = if a.len() > 0 {
                    read_field(Some(&a[0]))
                } else {
                    read_field(None)
                };
                let y = if a.len() > 1 {
                    read_field(Some(&a[1]))
                } else {
                    read_field(None)
                };
                (x, y)
            },
            None => {
                return None;
            },
        }
    };
    match (first, second) {
        (Some(config_options), Some(extra)) => Some(StrategyOptions { config_options, extra }),
        _ => None,
    }
}

/// The device's settings after those of the server: an empty value takes a setting away, unless
/// a default of its own stands behind it.
pub open spec fn strategy_applied(
    options: Map<Seq<char>, Seq<char>>,
    changes: Map<Seq<char>, Seq<char>>,
    defaults: Map<Seq<char>, Seq<char>>,
) -> Map<Seq<char>, Seq<char>> {
    Map::new(
        |k: Seq<char>|
            if changes.contains_key(k) {
                changes[k].len() > 0 || (defaults.contains_key(k) && defaults[k].len() > 0)
            } else {
                options.contains_key(k)
            },
        |k: Seq<char>|
            if changes.contains_key(k) {
                changes[k]
            } else {
                options[k]
            },
    )
}

/// Applies the settings that the server gives to the device's own.
pub fn handle_config_options(options: &mut Overrides, changes: &Overrides, defaults: &Overrides)
    ensures
        final(options)@ == strategy_applied(old(options)@, changes@, defaults@),
{
    let pairs = changes.list();
    let ghost first = options@;
    let mut i: usize = 0;
    assert(pairs@.take(0) =~= Seq::<(String, String)>::empty());
    assert(options@ =~= strategy_applied(first, policy::pair_map(pairs@.take(0)), defaults@));
    while i < pairs.len()
        invariant
            i <= pairs@.len(),
            options@ == strategy_applied(first, policy::pair_map(pairs@.take(i as int)), defaults@),
        decreases pairs@.len() - i,
    {
        let ghost c = policy::pair_map(pairs@.take(i as int));
        let ghost k = pairs@[i as int].0@;
        let ghost v = pairs@[i as int].1@;
        assert(pairs@.take(i + 1).drop_last() == pairs@.take(i as int));
        let fallback = match defaults.get(pairs[i].0.as_str()) {
            Some(d) => d,
            None => String::new(),
        };
        if pairs[i].1.as_str().is_empty() && fallback.as_str().is_empty() {
            options.remove(pairs[i].0.as_str());
            assert(options@ =~= strategy_applied(first, c.insert(k, v), defaults@));
        } else {
            options.insert(pairs[i].0.as_str(), pairs[i].1.as_str());
            assert(options@ =~= strategy_applied(first, c.insert(k, v), defaults@));
        }
        i = i + 1;
    }
    assert(pairs@.take(i as int) == pairs@);
}

/// A setting that the server does not name is left as it is, and one that it gives a value has
/// that value.
pub proof fn a_strategy_changes_what_it_names(
    options: Map<Seq<char>, Seq<char>>,
    changes: Map<Seq<char>, Seq<char>>,
    defaults: Map<Seq<char>, Seq<char>>,
    key: Seq<char>,
)
    ensures
        !changes.contains_key(key) ==> strategy_applied(options, changes, defaults).contains_key(
            key,
        ) == options.contains_key(key),
        !changes.contains_key(key) && options.contains_key(key) ==> strategy_applied(
            options,
            changes,
            defaults,
        )[key] == options[key],
        changes.contains_key(key) && changes[key].len() > 0 ==> strategy_applied(
            options,
            changes,
            defaults,
        ).contains_key(key) && strategy_applied(options, changes, defaults)[key] == changes[key],
{
}

/// The numbers of a list of 32-bit integers; nothing of any other value.
pub open spec fn numbers_of(j: JsonV) -> Option<Seq<int>> {
    match j {
        JsonV::Arr(s) => if forall|i: int|
            0 <= i < s.len() ==> (#[trigger] s[i]) is Int && i32::MIN <= s[i]->Int_0 <= i32::MAX {
            Some(Seq::new(s.len(), |i: int| s[i]->Int_0))
        } else {
            None
        },
        _ => None,
    }
}

/// Reads a list of 32-bit integers.
pub fn read_numbers(j: &Json) -> (r: Option<Vec<i32>>)
    ensures
        match r {
            Some(v) => numbers_of(j@) == Some(Seq::new(v@.len(), |i: int| v@[i] as int)),
            None => numbers_of(j@) is None,
        },
{
    match j.as_array() {
        Some(a) => {
            let ghost s = json::models(a@);
            let mut out: Vec<i32> = Vec::new();
            let mut i: usize = 0;
            while i < a.len()
                invariant
                    i <= a@.len(),
                    s == json::models(a@),
                    j@ == JsonV::Arr(s),
                    out@.len() == i,
                    forall|k: int|
                        0 <= k < i ==> (#[trigger] s[k]) is Int && i32::MIN <= s[k]->Int_0
                            <= i32::MAX && s[k]->Int_0 == out@[k],
                decreases a@.len() - i,
            {
                assert(s[i as int] == a@[i as int]@);
                match a[i].as_i64() {
                    Some(n) => {
                        if n < -2147483648 || n > 2147483647 {
                            return None;
                        }
                        out.push(n as i32);
                    },
                    None => {
                        return None;
                    },
                }
                i = i + 1;
            }
            assert(Seq::new(s.len(), |k: int| s[k]->Int_0) =~= Seq::new(
                out@.len(),
                |k: int| out@[k] as int,
            ));
            Some(out)
        },
        None => None,
    }
}

/// What the reply to a heartbeat asks.
pub struct Reply {
    /// The system report is to be sent again.
    pub sysinfo: bool,
    /// The inventory is to be sent.
    pub inventory: bool,
    /// The snapshots that are to be sent, in their order.
    pub snapshots: Vec<String>,
    /// An update is to be looked for.
    pub check_update: bool,
    /// Jobs to run, with their signature and its time.
    pub jobs: Option<Json>,
    pub jobs_sig: Option<Json>,
    pub jobs_ts: Option<Json>,
    /// The rotations of the logon key.
    pub logon_chain: Option<Json>,
    /// The settings that the console forces.
    pub policy_push: Option<Json>,
    /// Connections that are to be closed.
    pub disconnect: Option<Vec<i32>>,
    /// The new time of the settings.
    pub modified_at: Option<i64>,
    /// New settings.
    pub strategy: Option<StrategyOptions>,
}

/// The kinds of snapshots that a reply may ask for, in their order.
pub open spec fn snapshot_kinds() -> Seq<Seq<char>> {
    seq!["processes"@, "services"@, "defender"@, "winupdate"@, "policy"@]
}

/// The snapshots of a list of kinds that a reply asks for.
pub open spec fn asked(rsp: JsonV, kinds: Seq<Seq<char>>) -> Seq<Seq<char>>
    decreases kinds.len(),
{
    if kinds.len() == 0 {
        seq![]
    } else {
        let before = asked(rsp, kinds.drop_last());
        if rsp.member(kinds.last()) is Some {
            before.push(kinds.last())
        } else {
            before
        }
    }
}

fn ask(rsp: &Json, kind: &str, out: &mut Vec<String>)
    ensures
        text::texts(final(out)@) == (if rsp@.member(kind@) is Some {
            text::texts(old(out)@).push(kind@)
        } else {
            text::texts(old(out)@)
        }),
{
    if rsp.get(kind).is_some() {
        let ghost o = out@;
        out.push(kind.to_owned());
        assert(text::texts(out@) =~= text::texts(o).push(kind@));
    }
}

/// The snapshots that a reply asks for.
pub fn snapshots_asked(rsp: &Json) -> (r: Vec<String>)
    ensures
        text::texts(r@) == asked(rsp@, snapshot_kinds()),
{
    let mut out: Vec<String> = Vec::new();
    assert(text::texts(out@) =~= Seq::<Seq<char>>::empty());
    ask(rsp, "processes", &mut out);
    ask(rsp, "services", &mut out);
    ask(rsp, "defender", &mut out);
    ask(rsp, "winupdate", &mut out);
    ask(rsp, "policy", &mut out);
    proof {
        let k = snapshot_kinds();
        reveal_with_fuel(asked, 6);
        assert(k.drop_last() =~= seq!["processes"@, "services"@, "defender"@, "winupdate"@]);
        assert(k.drop_last().drop_last() =~= seq!["processes"@, "services"@, "defender"@]);
        assert(k.drop_last().drop_last().drop_last() =~= seq!["processes"@, "services"@]);
        assert(k.drop_last().drop_last().drop_last().drop_last() =~= seq!["processes"@]);
        assert(k.drop_last().drop_last().drop_last().drop_last().drop_last() =~= Seq::<
            Seq<char>,
        >::empty());
    }
    out
}

fn copied(rsp: &Json, key: &str) -> (r: Option<Json>)
    ensures
        json::opt_model(r) == rsp@.member(key@),
{
    match rsp.get(key) {
        Some(j) => Some(j.copy()),
        None => None,
    }
}

/// What a reply says of the connections that are to be closed.
pub open spec fn disconnect_of(rsp: JsonV) -> Option<Seq<int>> {
    match rsp.member("disconnect"@) {
        Some(j) => numbers_of(j),
        None => None,
    }
}

/// The new time of the settings, where it is another.
pub open spec fn time_of(rsp: JsonV, modified_at: int) -> Option<int> {
    match rsp.member("modified_at"@) {
        Some(j) => match j.int64() {
            Some(n) => if n != modified_at {
                Some(n)
            } else {
                None
            },
            None => None,
        },
        None => None,
    }
}

/// Reads the reply to a heartbeat.
pub fn read_reply(rsp: &Json, modified_at: i64) -> (r: Reply)
    ensures
        r.sysinfo == rsp@.member("sysinfo"@) is Some,
        r.inventory == rsp@.member("inventory"@) is Some,
        text::texts(r.snapshots@) == asked(rsp@, snapshot_kinds()),
        r.check_update == rsp@.member("check_update"@) is Some,
        json::opt_model(r.jobs) == rsp@.member("jobs"@),
        json::opt_model(r.jobs_sig) == rsp@.member("jobs_sig"@),
        json::opt_model(r.jobs_ts) == rsp@.member("jobs_ts"@),
        json::opt_model(r.logon_chain) == rsp@.member("logon_chain"@),
        json::opt_model(r.policy_push) == rsp@.member("policy_push"@),
        match r.disconnect {
            Some(v) => disconnect_of(rsp@) == Some(Seq::new(v@.len(), |i: int| v@[i] as int)),
            None => disconnect_of(rsp@) is None,
        },
        match r.modified_at {
            Some(n) => time_of(rsp@, modified_at as int) == Some(n as int),
            None => time_of(rsp@, modified_at as int) is None,
        },
        match (rsp@.member("strategy"@), r.strategy) {
            (Some(j), Some(s)) => strategy_of(j) == Some((s.config_options@, s.extra@)),
            (Some(j), None) => strategy_of(j) is None,
            (None, s) => s is None,
        },
{
    let disconnect = match rsp.get("disconnect") {
        Some(j) => read_numbers(j),
        None => None,
    };
    let time = match rsp.get_i64("modified_at") {
        Some(n) => if n != modified_at {
            Some(n)
        } else {
            None
        },
        None => None,
    };
    let strategy = match rsp.get("strategy") {
        Some(j) => read_strategy(j),
        None => None,
    };
    Reply {
        sysinfo: rsp.get("sysinfo").is_some(),
        inventory: rsp.get("inventory").is_some(),
        snapshots: snapshots_asked(rsp),
        check_update: rsp.get("check_update").is_some(),
        jobs: copied(rsp, "jobs"),
        jobs_sig: copied(rsp, "jobs_sig"),
        jobs_ts: copied(rsp, "jobs_ts"),
        logon_chain: copied(rsp, "logon_chain"),
        policy_push: copied(rsp, "policy_push"),
        disconnect,
        modified_at: time,
        strategy,
    }
}

/// Takes the reply to a heartbeat. One that is no object says nothing; one that asks for the
/// system report makes it count as not sent.
pub fn take_reply(state: &mut SyncState, text: &str) -> (r: Option<Json>)
    ensures
        json::opt_model(r) == json::object_reading(text@),
        final(state)@ == (if r is Some && json::object_reading(text@)->0.member("sysinfo"@) is Some {
            SyncV { uploaded: false, ..old(state)@ }
        } else {
            old(state)@
        }),
{
    match object_from_text(text) {
        Some(rsp) => {
            if rsp.get("sysinfo").is_some() {
                state.uploaded = false;
            }
            Some(rsp)
        },
        None => None,
    }
}

/// Asking for a policy snapshot and pushing a policy are two keys: neither hides the other.
pub proof fn a_snapshot_request_hides_no_pushed_policy(rsp: JsonV)
    ensures
        rsp.without("policy"@).member("policy_push"@) == rsp.member("policy_push"@),
        rsp.without("policy_push"@).member("policy"@) == rsp.member("policy"@),
{
    reveal_strlit("policy");
    reveal_strlit("policy_push");
    assert("policy"@.len() != "policy_push"@.len());
}

/// Once the server has the report of a user, it is not due again while address, device and user
/// stay.
pub proof fn a_taken_report_is_not_due(
    s: SyncV,
    url: Seq<char>,
    id: Seq<char>,
    username: Seq<char>,
    now: u64,
    later: u64,
)
    requires
        url.len() > 0,
    ensures
        ({
            let taken = answered(s, Some("SYSINFO_UPDATED"@), url, id, username, now);
            &&& taken.pro
            &&& begun(taken, url, id, false) == taken
            &&& !upload_due(taken, username, later)
        }),
{
}

/// A report that failed is tried again, but not before its time; one that the server does not
/// know the device of is tried at once.
pub proof fn a_failed_report_waits(
    s: SyncV,
    reply: Option<Seq<char>>,
    url: Seq<char>,
    id: Seq<char>,
    username: Seq<char>,
    now: u64,
    later: u64,
)
    requires
        upload_due(s, username, now),
        reply != Some("SYSINFO_UPDATED"@),
        later >= now,
    ensures
        upload_due(answered(s, reply, url, id, username, now), username, later) == (reply == Some(
            "ID_NOT_FOUND"@,
        ) || later - now >= UPLOAD_SYSINFO_TIMEOUT),
{
    reveal_strlit("SYSINFO_UPDATED");
    reveal_strlit("ID_NOT_FOUND");
}

/// What a round of the loop knows of itself.
pub struct Round {
    pub url: String,
    pub id: String,
    pub username: String,
    pub hash: String,
    /// Whether somebody is connected.
    pub connected: bool,
}

/// The model of a [`Round`].
pub struct RoundV {
    pub url: Seq<char>,
    pub id: Seq<char>,
    pub username: Seq<char>,
    pub hash: Seq<char>,
    pub connected: bool,
}

impl View for Round {
    type V = RoundV;

    open spec fn view(&self) -> RoundV {
        RoundV {
            url: self.url@,
            id: self.id@,
            username: self.username@,
            hash: self.hash@,
            connected: self.connected,
        }
    }
}

/// What happened in a round.
pub enum SyncEvent {
    /// It began: the address of the heartbeat, the device, whether the service is stopped, and
    /// whether somebody is connected.
    Tick { url: String, id: String, stopped: bool, connected: bool },
    /// The machine was measured; this is its user.
    Measured { username: String },
    /// The report was made: its text, whether the server is a public one, and the digest of the
    /// last report that it took.
    Report { body: String, public: bool, old_hash: String },
    /// The server was asked which version it has; `ver` is the one of the last report.
    Version { reply: Option<String>, ver: String },
    /// The report was sent.
    Uploaded { reply: Option<String> },
}

/// What a round does next.
pub enum SyncAction {
    /// It ends.
    Wait,
    /// The machine is measured.
    Measure,
    /// The report is made.
    Report,
    /// The server is asked there which version it has.
    AskVersion(String),
    /// The report is sent there.
    Send(String),
    /// A heartbeat is sent.
    Beat,
}

/// The model of a [`SyncAction`].
pub enum ActionV {
    Wait,
    Measure,
    Report,
    AskVersion(Seq<char>),
    Send(Seq<char>),
    Beat,
}

impl View for SyncAction {
    type V = ActionV;

    open spec fn view(&self) -> ActionV {
        match self {
            SyncAction::Wait => ActionV::Wait,
            SyncAction::Measure => ActionV::Measure,
            SyncAction::Report => ActionV::Report,
            SyncAction::AskVersion(u) => ActionV::AskVersion(u@),
            SyncAction::Send(u) => ActionV::Send(u@),
            SyncAction::Beat => ActionV::Beat,
        }
    }
}

/// A heartbeat where it is due, and otherwise the end of the round.
pub open spec fn beat_or_wait(s: SyncV, connected: bool, now: u64) -> (SyncV, ActionV) {
    if heartbeat_due_v(s, connected, now) {
        (SyncV { last_sent: Some(now), ..s }, ActionV::Beat)
    } else {
        (s, ActionV::Wait)
    }
}

/// The step that follows an event.
pub open spec fn step_v(s: SyncV, r: RoundV, e: SyncEvent, now: u64) -> (SyncV, RoundV, ActionV) {
    match e {
        SyncEvent::Tick { url, id, stopped, connected } => {
            let round = RoundV {
                url: url@,
                id: id@,
                username: seq![],
                hash: seq![],
                connected,
            };
            (
                begun(s, url@, id@, stopped),
                round,
                if url@.len() > 0 && !stopped {
                    ActionV::Measure
                } else {
                    ActionV::Wait
                },
            )
        },
        SyncEvent::Measured { username } => {
            let round = RoundV { username: username@, ..r };
            if upload_due(s, username@, now) {
                (s, round, ActionV::Report)
            } else {
                let b = beat_or_wait(s, r.connected, now);
                (b.0, round, b.1)
            }
        },
        SyncEvent::Report { body, public, old_hash } => {
            let round = RoundV {
                hash: if public {
                    report_hash(r.url, body@)
                } else {
                    seq![]
                },
                ..r
            };
            (
                s,
                round,
                if public && round.hash == old_hash@ {
                    ActionV::AskVersion(text::replace_v(r.url, "heartbeat"@, "sysinfo_ver"@))
                } else {
                    ActionV::Send(text::replace_v(r.url, "heartbeat"@, "sysinfo"@))
                },
            )
        },
        SyncEvent::Version { reply, ver } => (
            versioned(s, text::opt_text(reply), ver@, r.url, r.id, r.username),
            r,
            if text::opt_text(reply) == Some(ver@) {
                ActionV::Wait
            } else {
                ActionV::Send(text::replace_v(r.url, "heartbeat"@, "sysinfo"@))
            },
        ),
        SyncEvent::Uploaded { reply } => {
            let b = beat_or_wait(
                answered(s, text::opt_text(reply), r.url, r.id, r.username, now),
                r.connected,
                now,
            );
            (b.0, r, b.1)
        },
    }
}

/// What is to be kept after an event: the digest and the version of a report that was taken.
pub open spec fn kept_after(s: SyncV, r: RoundV, e: SyncEvent) -> Option<(Seq<char>, Seq<char>)> {
    match e {
        SyncEvent::Uploaded { reply } => if text::opt_text(reply) == Some("SYSINFO_UPDATED"@)
            && r.hash.len() > 0 {
            Some((r.hash, s.sysinfo_ver))
        } else {
            None
        },
        _ => None,
    }
}

/// The model of what is to be kept.
pub open spec fn keep_v(k: Option<KeepReport>) -> Option<(Seq<char>, Seq<char>)> {
    match k {
        Some(x) => Some((x.hash@, x.ver@)),
        None => None,
    }
}

fn as_str_opt(o: &Option<String>) -> (r: Option<&str>)
    ensures
        text::opt_str(r) == text::opt_text(*o),
{
    match o {
        Some(s) => Some(s.as_str()),
        None => None,
    }
}

fn next_beat(state: &mut SyncState, connected: bool, now: u64) -> (r: SyncAction)
    ensures
        (final(state)@, r@) == beat_or_wait(old(state)@, connected, now),
{
    if heartbeat_due(state, connected, now) {
        SyncAction::Beat
    } else {
        SyncAction::Wait
    }
}

/// Takes what happened in a round, and says what the round does next and what is to be kept.
pub fn sync_step(state: &mut SyncState, round: &mut Round, e: &SyncEvent, now: u64) -> (r: (
    SyncAction,
    Option<KeepReport>,
))
    ensures
        (final(state)@, final(round)@, r.0@) == step_v(old(state)@, old(round)@, *e, now),
        keep_v(r.1) == kept_after(old(state)@, old(round)@, *e),
{
    match e {
        SyncEvent::Tick { url, id, stopped, connected } => {
            let none = String::new();
            let also = String::new();
            assert(none@ =~= seq![] && also@ =~= seq![]);
            *round = Round {
                url: url.clone(),
                id: id.clone(),
                username: none,
                hash: also,
                connected: *connected,
            };
            if begin_round(state, url.as_str(), id.as_str(), *stopped) {
                (SyncAction::Measure, None)
            } else {
                (SyncAction::Wait, None)
            }
        },
        SyncEvent::Measured { username } => {
            round.username = username.clone();
            if needs_upload(state, username.as_str(), now) {
                (SyncAction::Report, None)
            } else {
                (next_beat(state, round.connected, now), None)
            }
        },
        SyncEvent::Report { body, public, old_hash } => {
            round.hash = if *public {
                sysinfo_hash(round.url.as_str(), body.as_str())
            } else {
                let none = String::new();
                assert(none@ =~= seq![]);
                none
            };
            match upload_step(
                round.url.as_str(),
                *public,
                round.hash.as_str(),
                old_hash.as_str(),
            ) {
                UploadStep::AskVersion(to) => (SyncAction::AskVersion(to), None),
                UploadStep::Send(to) => (SyncAction::Send(to), None),
            }
        },
        SyncEvent::Version { reply, ver } => {
            let same_version = version_answered(
                state,
                as_str_opt(reply),
                ver.as_str(),
                round.url.as_str(),
                round.id.as_str(),
                round.username.as_str(),
            );
            if same_version {
                (SyncAction::Wait, None)
            } else {
                (SyncAction::Send(sysinfo_url(round.url.as_str())), None)
            }
        },
        SyncEvent::Uploaded { reply } => {
            let keep = upload_answered(
                state,
                as_str_opt(reply),
                round.hash.as_str(),
                round.url.as_str(),
                round.id.as_str(),
                round.username.as_str(),
                now,
            );
            (next_beat(state, round.connected, now), keep)
        },
    }
}

/// While the service is stopped, or without a server, a round does nothing but end.
pub proof fn a_stopped_round_is_silent(
    s: SyncV,
    r: RoundV,
    url: String,
    id: String,
    connected: bool,
    now: u64,
)
    ensures
        step_v(s, r, SyncEvent::Tick { url, id, stopped: true, connected }, now).2 == ActionV::Wait,
        url@.len() == 0 ==> step_v(
            s,
            r,
            SyncEvent::Tick { url, id, stopped: false, connected },
            now,
        ).2 == ActionV::Wait,
{
}

/// A report that the server has already, in the same version, is not sent again.
pub proof fn an_unchanged_report_is_not_sent(s: SyncV, r: RoundV, ver: String, now: u64)
    ensures
        ({
            let e = SyncEvent::Version { reply: Some(ver), ver };
            &&& step_v(s, r, e, now).2 == ActionV::Wait
            &&& step_v(s, r, e, now).0.uploaded
        }),
{
}

/// A system report is due where the server does not have it or has that of another user, and no
/// try failed within two minutes.
pub proof fn a_report_is_due(s: SyncV, username: Seq<char>, now: u64, t: u64)
    requires
        now >= t,
    ensures
        s.last_uploaded is None ==> (upload_due(s, username, now) <==> !s.uploaded || s.username
            != Some(username)),
        s.last_uploaded == Some(t) ==> (upload_due(s, username, now) <==> (!s.uploaded || s.username
            != Some(username)) && now - t >= 120_000),
{
}

/// A heartbeat is due while somebody is connected, and else every fifteen seconds.
pub proof fn a_heartbeat_is_due(s: SyncV, now: u64, t: u64)
    requires
        now >= t,
    ensures
        heartbeat_due_v(s, true, now),
        s.last_sent is None ==> heartbeat_due_v(s, false, now),
        s.last_sent == Some(t) ==> (heartbeat_due_v(s, false, now) <==> now - t >= 15_000),
{
}

/// What the reply to a report changes: one that was taken is known to be there, under this
/// address, device and user; a device that the server does not know is tried again at once; any
/// other reply makes the next try wait.
pub proof fn a_reply_to_a_report_counts(
    s: SyncV,
    reply: Option<Seq<char>>,
    url: Seq<char>,
    id: Seq<char>,
    username: Seq<char>,
    now: u64,
)
    ensures
        ({
            let n = answered(s, reply, url, id, username, now);
            &&& reply == Some("SYSINFO_UPDATED"@) ==> n.uploaded && n.url == url && n.id == id
                && n.username == Some(username) && n.pro && n.last_uploaded is None
            &&& reply == Some("ID_NOT_FOUND"@) ==> n.last_uploaded is None && n.uploaded
                == s.uploaded && n.pro == s.pro
            &&& reply != Some("SYSINFO_UPDATED"@) && reply != Some("ID_NOT_FOUND"@)
                ==> n.last_uploaded == Some(now) && n.uploaded == s.uploaded && n.pro == s.pro
            &&& n.last_sent == s.last_sent
        }),
{
    reveal_strlit("SYSINFO_UPDATED");
    reveal_strlit("ID_NOT_FOUND");
    assert("SYSINFO_UPDATED"@.len() == 15 && "ID_NOT_FOUND"@.len() == 12);
}

/// A version that the server names is kept; where it is that of the last report, the report is
/// known to be there.
pub proof fn a_known_version_needs_no_report(
    s: SyncV,
    x: Seq<char>,
    ver: Seq<char>,
    url: Seq<char>,
    id: Seq<char>,
    username: Seq<char>,
)
    ensures
        ({
            let n = versioned(s, Some(x), ver, url, id, username);
            &&& n.sysinfo_ver == x
            &&& n.pro
            &&& x == ver ==> n.uploaded && n.url == url && n.id == id && n.username == Some(username)
            &&& x != ver ==> n.uploaded == s.uploaded && n.url == s.url && n.id == s.id
        }),
        versioned(s, None, ver, url, id, username) == s,
{
}

/// A round that begins under another address or for another device forgets that the report was
/// sent; without an address the server takes no reports.
pub proof fn a_round_begins(s: SyncV, url: Seq<char>, id: Seq<char>)
    ensures
        url.len() == 0 ==> !begun(s, url, id, false).pro,
        url.len() > 0 && (url != s.url || id != s.id) ==> !begun(s, url, id, false).uploaded,
        url.len() > 0 && url == s.url && id == s.id ==> begun(s, url, id, false) == s,
        url.len() > 0 ==> begun(s, url, id, true) == s,
{
}

/// The steps of a round: measure, then report where one is due, ask for the version where the
/// report is unchanged, send where it is not, and then the heartbeat where it is due.
pub proof fn a_round_takes_its_steps(
    s: SyncV,
    r: RoundV,
    url: String,
    id: String,
    username: String,
    body: String,
    old_hash: String,
    ver: String,
    connected: bool,
    now: u64,
)
    ensures
        url@.len() > 0 ==> step_v(
            s,
            r,
            SyncEvent::Tick { url, id, stopped: false, connected },
            now,
        ).2 is Measure,
        step_v(s, r, SyncEvent::Tick { url, id, stopped: false, connected }, now).1.url == url@,
        step_v(s, r, SyncEvent::Tick { url, id, stopped: false, connected }, now).1.id == id@,
        step_v(s, r, SyncEvent::Tick { url, id, stopped: false, connected }, now).1.connected
            == connected,
        upload_due(s, username@, now) ==> step_v(s, r, SyncEvent::Measured { username }, now).2
            is Report,
        step_v(s, r, SyncEvent::Measured { username }, now).1.username == username@,
        !upload_due(s, username@, now) ==> (step_v(s, r, SyncEvent::Measured { username }, now).2
            is Beat <==> heartbeat_due_v(s, r.connected, now)),
        !upload_due(s, username@, now) ==> (step_v(s, r, SyncEvent::Measured { username }, now).2
            is Wait <==> !heartbeat_due_v(s, r.connected, now)),
        step_v(s, r, SyncEvent::Report { body, public: false, old_hash }, now).2 == ActionV::Send(
            text::replace_v(r.url, "heartbeat"@, "sysinfo"@),
        ),
        report_hash(r.url, body@) != old_hash@ ==> step_v(
            s,
            r,
            SyncEvent::Report { body, public: true, old_hash },
            now,
        ).2 == ActionV::Send(text::replace_v(r.url, "heartbeat"@, "sysinfo"@)),
        report_hash(r.url, body@) == old_hash@ ==> step_v(
            s,
            r,
            SyncEvent::Report { body, public: true, old_hash },
            now,
        ).2 == ActionV::AskVersion(text::replace_v(r.url, "heartbeat"@, "sysinfo_ver"@)),
        step_v(s, r, SyncEvent::Version { reply: None, ver }, now).2 == ActionV::Send(
            text::replace_v(r.url, "heartbeat"@, "sysinfo"@),
        ),
        step_v(s, r, SyncEvent::Version { reply: Some(ver), ver }, now).2 is Wait,
{
}

/// A heartbeat that is sent is noted, and one that is not changes nothing.
pub proof fn a_sent_heartbeat_is_noted(s: SyncV, connected: bool, now: u64)
    ensures
        heartbeat_due_v(s, connected, now) ==> beat_or_wait(s, connected, now).1 is Beat
            && beat_or_wait(s, connected, now).0.last_sent == Some(now),
        !heartbeat_due_v(s, connected, now) ==> beat_or_wait(s, connected, now).1 is Wait
            && beat_or_wait(s, connected, now).0 == s,
        !heartbeat_due_v(beat_or_wait(s, connected, now).0, false, now) || beat_or_wait(
            s,
            connected,
            now,
        ).1 is Wait,
{
}

/// What a heartbeat says: the device, the keys it trusts and was built with, the connections
/// where there are any, and the time of its settings.
pub proof fn a_heartbeat_says_who_it_is_from(
    id: Seq<char>,
    uuid: Seq<char>,
    ver: int,
    logon_pub: Seq<char>,
    logon_anchor: Seq<char>,
    conns: Seq<i32>,
    modified_at: int,
)
    ensures
        ({
            let v = heartbeat_v(id, uuid, ver, logon_pub, logon_anchor, conns, modified_at);
            &&& v.member("id"@) == Some(JsonV::Str(id))
            &&& v.member("uuid"@) == Some(JsonV::Str(uuid))
            &&& v.member("ver"@) == Some(JsonV::Int(ver))
            &&& v.member("logon_pub"@) == Some(JsonV::Str(logon_pub))
            &&& v.member("logon_anchor"@) == Some(JsonV::Str(logon_anchor))
            &&& v.member("modified_at"@) == Some(JsonV::Int(modified_at))
            &&& conns.len() == 0 ==> v.member("conns"@) is None
            &&& conns.len() > 0 ==> v.member("conns"@) == Some(
                JsonV::Arr(Seq::new(conns.len(), |i: int| JsonV::Int(conns[i] as int))),
            )
        }),
{
    reveal_strlit("id");
    reveal_strlit("uuid");
    reveal_strlit("ver");
    reveal_strlit("logon_pub");
    reveal_strlit("logon_anchor");
    reveal_strlit("conns");
    reveal_strlit("modified_at");
    assert("id"@.len() == 2 && "uuid"@.len() == 4 && "ver"@.len() == 3 && "conns"@.len() == 5);
    assert("logon_pub"@.len() == 9 && "logon_anchor"@.len() == 12 && "modified_at"@.len() == 11);
}

/// The snapshots that are sent are those that the reply names, in their own order.
pub proof fn every_asked_snapshot_is_sent(rsp: JsonV, kinds: Seq<Seq<char>>)
    ensures
        asked(rsp, kinds) == kinds.filter(|k: Seq<char>| rsp.member(k) is Some),
    decreases kinds.len(),
{
    reveal(Seq::filter);
    if kinds.len() > 0 {
        every_asked_snapshot_is_sent(rsp, kinds.drop_last());
    }
    assert(asked(rsp, kinds) =~= kinds.filter(|k: Seq<char>| rsp.member(k) is Some));
}

/// A time of the settings counts where it is another than the known one.
pub proof fn a_new_time_counts(rsp: JsonV, n: int, known: int)
    requires
        i64::MIN <= n <= i64::MAX,
        rsp.member("modified_at"@) == Some(JsonV::Int(n)),
    ensures
        time_of(rsp, known) == (if n == known {
            None
        } else {
            Some(n)
        }),
{
}

/// A report says the version, the device and what was preset: a preset that is not empty stands
/// in the place of what was measured, and the last word is the note's.
pub proof fn presets_stand_in_the_report(
    v: JsonV,
    version: Seq<char>,
    id: Seq<char>,
    uuid: Seq<char>,
    presets: Presets,
)
    requires
        presets.named@.len() == 0,
        presets.note.1@.len() == 0,
    ensures
        ({
            let r = report_v(v, version, id, uuid, presets);
            &&& r.member("version"@) == Some(JsonV::Str(version))
            &&& r.member("id"@) == Some(JsonV::Str(id))
            &&& r.member("uuid"@) == Some(JsonV::Str(uuid))
            &&& r.member("username"@) == (if presets.username@.len() > 0 {
                Some(JsonV::Str(presets.username@))
            } else {
                v.member("username"@)
            })
            &&& r.member("hostname"@) == (if presets.hostname@.len() > 0 {
                Some(JsonV::Str(presets.hostname@))
            } else {
                v.member("hostname"@)
            })
        }),
{
    reveal_strlit("version");
    reveal_strlit("id");
    reveal_strlit("uuid");
    reveal_strlit("username");
    reveal_strlit("hostname");
    assert("version"@.len() == 7 && "id"@.len() == 2 && "uuid"@.len() == 4);
    assert("username"@.len() == 8 && "hostname"@.len() == 8 && "username"@[0] == 'u'
        && "hostname"@[0] == 'h');
}

/// A named preset that is not empty stands in the report under its name, unless a later one has
/// the same name.
pub proof fn a_named_preset_stands_in_the_report(v: JsonV, named: Seq<(String, String)>, i: int)
    requires
        0 <= i < named.len(),
        named[i].1@.len() > 0,
        forall|k: int| i < k < named.len() ==> (#[trigger] named[k]).0@ != named[i].0@,
    ensures
        with_texts(v, named).member(named[i].0@) == Some(JsonV::Str(named[i].1@)),
    decreases named.len(),
{
    let t = named.drop_last();
    if i < t.len() {
        assert forall|k: int| i < k < t.len() implies (#[trigger] t[k]).0@ != t[i].0@ by {
            assert(t[k] == named[k]);
        }
        a_named_preset_stands_in_the_report(v, t, i);
        assert(named[named.len() - 1].0@ != named[i].0@);
        assert(t[i] == named[i]);
    }
}

/// A report is signed where it says where the device belongs: the signature covers what it says.
pub proof fn a_placed_report_is_signed(
    v: JsonV,
    version: Seq<char>,
    id: Seq<char>,
    uuid: Seq<char>,
    presets: Presets,
    sk: Seq<u8>,
)
    ensures
        ({
            let r = report_v(v, version, id, uuid, presets);
            let s = signed_report(v, version, id, uuid, presets, sk);
            &&& trust::sysinfo_signable(r) ==> s.member("adsig"@) == Some(
                JsonV::Str(trust::signed_b64(trust::sysinfo_message(r), sk)),
            )
            &&& !trust::sysinfo_signable(r) ==> s == r
            &&& s.member("id"@) == r.member("id"@)
        }),
{
    reveal_strlit("adsig");
    reveal_strlit("id");
    assert("id"@.len() == 2);
    assert("adsig"@.len() == 5);
}

/// The connections that are to be closed are the numbers that the reply lists; a list that holds
/// anything else closes none.
pub proof fn listed_connections_are_closed(rsp: JsonV, s: Seq<i32>, other: Seq<JsonV>, i: int)
    ensures
        rsp.member("disconnect"@) == Some(JsonV::Arr(s.map_values(|n: i32| JsonV::Int(n as int))))
            ==> disconnect_of(rsp) == Some(s.map_values(|n: i32| n as int)),
        rsp.member("disconnect"@) is None ==> disconnect_of(rsp) is None,
        rsp.member("disconnect"@) == Some(JsonV::Arr(other)) && 0 <= i < other.len() && !(other[i]
            is Int) ==> disconnect_of(rsp) is None,
{
    let a = s.map_values(|n: i32| JsonV::Int(n as int));
    assert(forall|k: int| 0 <= k < a.len() ==> (#[trigger] a[k]) is Int && i32::MIN <= a[k]->Int_0
        <= i32::MAX);
    assert(Seq::new(a.len(), |k: int| a[k]->Int_0) =~= s.map_values(|n: i32| n as int));
}

/// The settings come as two objects of texts, by name or in order; what is missing is empty.
pub proof fn settings_come_by_name_or_in_order(a: Map<Seq<char>, JsonV>, b: Map<Seq<char>, JsonV>, v: JsonV)
    requires
        forall|k: Seq<char>| #[trigger] a.contains_key(k) ==> a[k] is Str,
        forall|k: Seq<char>| #[trigger] b.contains_key(k) ==> b[k] is Str,
        v is Obj,
    ensures
        ({
            let ta = Map::new(|k: Seq<char>| a.contains_key(k), |k: Seq<char>| a[k]->Str_0);
            let tb = Map::new(|k: Seq<char>| b.contains_key(k), |k: Seq<char>| b[k]->Str_0);
            let none = Map::<Seq<char>, Seq<char>>::empty();
            &&& strategy_of(JsonV::Arr(seq![JsonV::Obj(a), JsonV::Obj(b)])) == Some((ta, tb))
            &&& strategy_of(JsonV::Arr(seq![JsonV::Obj(a)])) == Some((ta, none))
            &&& v.member("config_options"@) == Some(JsonV::Obj(a)) && v.member("extra"@) == Some(
                JsonV::Obj(b),
            ) ==> strategy_of(v) == Some((ta, tb))
            &&& v.member("config_options"@) == Some(JsonV::Obj(a)) && v.member("extra"@) is None
                ==> strategy_of(v) == Some((ta, none))
            &&& v.member("config_options"@) == Some(JsonV::Null) ==> strategy_of(v) is None
        }),
{
    assert(text_map(JsonV::Obj(a)) is Some);
    assert(text_map(JsonV::Obj(b)) is Some);
}

/// What is kept of a report that was taken: its digest and the version that the server named.
pub proof fn a_taken_report_is_kept(s: SyncV, r: RoundV, reply: Option<String>, e: SyncEvent)
    ensures
        text::opt_text(reply) == Some("SYSINFO_UPDATED"@) && r.hash.len() > 0 ==> kept_after(
            s,
            r,
            SyncEvent::Uploaded { reply },
        ) == Some((r.hash, s.sysinfo_ver)),
        text::opt_text(reply) != Some("SYSINFO_UPDATED"@) ==> kept_after(
            s,
            r,
            SyncEvent::Uploaded { reply },
        ) is None,
        !(e is Uploaded) ==> kept_after(s, r, e) is None,
{
}

/// An empty change takes a setting away, unless a default stands behind it: there it is kept as
/// empty, so that the default does not show.
pub proof fn an_empty_change_takes_a_setting_away(
    options: Map<Seq<char>, Seq<char>>,
    changes: Map<Seq<char>, Seq<char>>,
    defaults: Map<Seq<char>, Seq<char>>,
    key: Seq<char>,
)
    requires
        changes.contains_key(key),
        changes[key].len() == 0,
    ensures
        ({
            let r = strategy_applied(options, changes, defaults);
            &&& !defaults.contains_key(key) ==> !r.contains_key(key)
            &&& defaults.contains_key(key) && defaults[key].len() == 0 ==> !r.contains_key(key)
            &&& defaults.contains_key(key) && defaults[key].len() > 0 ==> r.contains_key(key)
                && r[key].len() == 0
        }),
{
}

} // verus!
