//! What the console's features add to a heartbeat, and what they take from its reply.
//!
//! The reply is one flat set of keys. Each key belongs to one feature, which takes it out.
use vstd::prelude::*;

use crate::json;
use crate::num;
use crate::text;
use crate::trust;
use crate::json::{Json, JsonV};
use crate::num::dec_u64;
use crate::text::same;
use crate::trust::sign_sysinfo;

verus! {

/// The identity that the console groups devices by: six texts, a line each.
pub open spec fn identity_v(v: JsonV) -> Seq<char> {
    v.member_or_empty("hostname"@) + "\n"@ + v.member_or_empty("domain"@) + "\n"@
        + v.member_or_empty("domain_netbios"@) + "\n"@ + v.member_or_empty("ou"@) + "\n"@
        + v.member_or_empty("workgroup"@) + "\n"@ + v.member_or_empty("dns_suffix"@)
}

/// The identity that the console groups devices by.
pub fn identity_of(v: &Json) -> (r: String)
    ensures
        r@ == identity_v(v@),
{
    v.get_str_or_empty("hostname").concat("\n").concat(
        v.get_str_or_empty("domain").as_str(),
    ).concat("\n").concat(v.get_str_or_empty("domain_netbios").as_str()).concat("\n").concat(
        v.get_str_or_empty("ou").as_str(),
    ).concat("\n").concat(v.get_str_or_empty("workgroup").as_str()).concat("\n").concat(
        v.get_str_or_empty("dns_suffix").as_str(),
    )
}

/// The identity that the console last accepted, and the one that was sent since.
pub struct Identity {
    pub uploaded: Option<String>,
    pub pending: Option<String>,
}

/// The model of an [`Identity`].
pub struct IdentityV {
    pub uploaded: Option<Seq<char>>,
    pub pending: Option<Seq<char>>,
}

impl View for Identity {
    type V = IdentityV;

    open spec fn view(&self) -> IdentityV {
        IdentityV { uploaded: text::opt_text(self.uploaded), pending: text::opt_text(self.pending) }
    }
}

impl IdentityV {
    /// Nothing was sent or accepted yet.
    pub open spec fn none() -> IdentityV {
        IdentityV { uploaded: None, pending: None }
    }

    /// An identity was sent.
    pub open spec fn sent(self, text: Seq<char>) -> IdentityV {
        IdentityV { uploaded: self.uploaded, pending: Some(text) }
    }

    /// The console accepted what was sent.
    pub open spec fn accepted(self) -> IdentityV {
        match self.pending {
            Some(p) => IdentityV { uploaded: Some(p), pending: None },
            None => self,
        }
    }

    /// Whether an identity is another than the accepted one.
    pub open spec fn differs(self, text: Seq<char>) -> bool {
        match self.uploaded {
            Some(u) => u != text,
            None => false,
        }
    }
}

impl Identity {
    /// Nothing was sent or accepted yet.
    pub fn new() -> (r: Identity)
        ensures
            r@ == IdentityV::none(),
    {
        Identity { uploaded: None, pending: None }
    }
}

/// The system report with its version and, where it says where the device belongs, its
/// signature.
pub open spec fn decorated(v: JsonV, version: Seq<char>, sk: Seq<u8>) -> JsonV {
    let versioned = v.with("version"@, JsonV::Str(version));
    if trust::sysinfo_signable(versioned) {
        versioned.with("adsig"@, JsonV::Str(trust::signed_b64(trust::sysinfo_message(versioned), sk)))
    } else {
        versioned
    }
}

/// Puts the version and the signature on a finished system report, and keeps its identity as
/// the one that is being sent.
pub fn decorate_sysinfo(v: Json, version: &str, sk: &[u8], identity: &mut Identity) -> (r: Json)
    requires
        v@ is Obj || v@ is Null,
        sk@.len() == 64,
    ensures
        r@ == decorated(v@, version@, sk@),
        final(identity)@ == old(identity)@.sent(identity_v(r@)),
{
    let mut out = v.with("version", Json::text(version));
    if let Some(sig) = sign_sysinfo(&out, sk) {
        out = out.with("adsig", Json::Str(sig));
    }
    identity.pending = Some(identity_of(&out));
    out
}

/// Whether a report's identity is another than the one that the console accepted. Asking
/// changes nothing.
pub fn identity_changed(v: &Json, identity: &Identity) -> (r: bool)
    ensures
        r == identity@.differs(identity_v(v@)),
{
    match &identity.uploaded {
        Some(u) => !same(u.as_str(), identity_of(v).as_str()),
        None => false,
    }
}

/// The console accepted the upload.
pub fn identity_uploaded(identity: &mut Identity)
    ensures
        final(identity)@ == old(identity)@.accepted(),
{
    let pending = identity.pending.take();
    if pending.is_some() {
        identity.uploaded = pending;
    }
}

/// A changed identity is offered until the console accepts it, and not again after that.
pub proof fn an_identity_is_offered_until_accepted(i: IdentityV, sent: Seq<char>, now: Seq<char>)
    ensures
        i.sent(sent).differs(now) == i.differs(now),
        i.sent(sent).accepted().differs(now) == (now != sent),
        i.sent(sent).accepted().accepted() == i.sent(sent).accepted(),
{
}

/// A text stands on one line.
pub open spec fn one_line(s: Seq<char>) -> bool {
    !s.contains('\n')
}

/// The six texts of an identity stand on a line each.
pub open spec fn lines_kept(v: JsonV) -> bool {
    &&& one_line(v.member_or_empty("hostname"@))
    &&& one_line(v.member_or_empty("domain"@))
    &&& one_line(v.member_or_empty("domain_netbios"@))
    &&& one_line(v.member_or_empty("ou"@))
    &&& one_line(v.member_or_empty("workgroup"@))
    &&& one_line(v.member_or_empty("dns_suffix"@))
}

/// Two reports agree on the six texts of an identity.
pub open spec fn same_identity(v: JsonV, w: JsonV) -> bool {
    &&& v.member_or_empty("hostname"@) == w.member_or_empty("hostname"@)
    &&& v.member_or_empty("domain"@) == w.member_or_empty("domain"@)
    &&& v.member_or_empty("domain_netbios"@) == w.member_or_empty("domain_netbios"@)
    &&& v.member_or_empty("ou"@) == w.member_or_empty("ou"@)
    &&& v.member_or_empty("workgroup"@) == w.member_or_empty("workgroup"@)
    &&& v.member_or_empty("dns_suffix"@) == w.member_or_empty("dns_suffix"@)
}

/// The first line of a text and what is below it are fixed by the text.
proof fn lemma_first_line(a: Seq<char>, b: Seq<char>, x: Seq<char>, y: Seq<char>)
    requires
        one_line(a),
        one_line(b),
        a + "\n"@ + x == b + "\n"@ + y,
    ensures
        a == b,
        x == y,
{
    reveal_strlit("\n");
    let s = a + "\n"@ + x;
    let t = b + "\n"@ + y;
    assert(s[a.len() as int] == '\n' && t[b.len() as int] == '\n');
    if a.len() < b.len() {
        assert(t[a.len() as int] == b[a.len() as int]);
        assert(b.contains('\n'));
    }
    if b.len() < a.len() {
        assert(s[b.len() as int] == a[b.len() as int]);
        assert(a.contains('\n'));
    }
    assert(a =~= s.take(a.len() as int) && b =~= t.take(b.len() as int));
    assert(x =~= s.skip(a.len() + 1int) && y =~= t.skip(b.len() + 1int));
}

/// The identity of a report, from its first line down.
proof fn lemma_lines(v: JsonV)
    ensures
        identity_v(v) == v.member_or_empty("hostname"@) + "\n"@ + (v.member_or_empty("domain"@)
            + "\n"@ + (v.member_or_empty("domain_netbios"@) + "\n"@ + (v.member_or_empty("ou"@)
            + "\n"@ + (v.member_or_empty("workgroup"@) + "\n"@ + v.member_or_empty(
            "dns_suffix"@,
        ))))),
{
    let n = "\n"@;
    let (a, b, c) = (
        v.member_or_empty("hostname"@),
        v.member_or_empty("domain"@),
        v.member_or_empty("domain_netbios"@),
    );
    let (d, e, f) = (
        v.member_or_empty("ou"@),
        v.member_or_empty("workgroup"@),
        v.member_or_empty("dns_suffix"@),
    );
    assert(a + n + b + n + c + n + d + n + e + n + f =~= a + n + (b + n + (c + n + (d + n + (e + n
        + f)))));
}

/// A report whose identity moved since the last accepted upload is noticed, and one whose
/// identity did not is not, where each of the six texts stands on one line.
pub proof fn a_moved_identity_is_noticed(i: IdentityV, accepted: JsonV, now: JsonV)
    requires
        lines_kept(accepted),
        lines_kept(now),
    ensures
        identity_v(accepted) == identity_v(now) <==> same_identity(accepted, now),
        i.sent(identity_v(accepted)).accepted().differs(identity_v(now)) <==> !same_identity(
            accepted,
            now,
        ),
{
    lemma_lines(accepted);
    lemma_lines(now);
    if identity_v(accepted) == identity_v(now) {
        let n = "\n"@;
        let (b, c) = (accepted.member_or_empty("domain"@), accepted.member_or_empty("domain_netbios"@));
        let (d, e) = (accepted.member_or_empty("ou"@), accepted.member_or_empty("workgroup"@));
        let f = accepted.member_or_empty("dns_suffix"@);
        let (q, r) = (now.member_or_empty("domain"@), now.member_or_empty("domain_netbios"@));
        let (s, t) = (now.member_or_empty("ou"@), now.member_or_empty("workgroup"@));
        let u = now.member_or_empty("dns_suffix"@);
        let (a4, b4) = (e + n + f, t + n + u);
        let (a3, b3) = (d + n + a4, s + n + b4);
        let (a2, b2) = (c + n + a3, r + n + b3);
        let (a1, b1) = (b + n + a2, q + n + b2);
        lemma_first_line(
            accepted.member_or_empty("hostname"@),
            now.member_or_empty("hostname"@),
            a1,
            b1,
        );
        lemma_first_line(b, q, a2, b2);
        lemma_first_line(c, r, a3, b3);
        lemma_first_line(d, s, a4, b4);
        lemma_first_line(e, t, f, u);
    }
}

/// Tells the console which logon key the device trusts, and which one it was built with.
pub fn decorate_body(v: Json, logon_pub: &str, logon_anchor: &str) -> (r: Json)
    requires
        v@ is Obj || v@ is Null,
    ensures
        r@ == v@.with("logon_pub"@, JsonV::Str(logon_pub@)).with(
            "logon_anchor"@,
            JsonV::Str(logon_anchor@),
        ),
{
    v.with("logon_pub", Json::text(logon_pub)).with("logon_anchor", Json::text(logon_anchor))
}

/// The heartbeats that failed in a row.
pub struct FailureLog {
    consecutive: u32,
}

/// What is to be logged of a heartbeat.
pub enum Note {
    /// Nothing.
    Silent,
    /// A warning.
    Warn(String),
    /// That it is well again.
    Info(String),
}

/// The warning about a failed heartbeat.
pub open spec fn failure_text(n: nat, error: Seq<char>) -> Seq<char> {
    "heartbeat POST failed ("@ + num::dec(n) + " consecutive): "@ + error
        + " \u{2014} console requests (update checks, jobs, policy) are NOT being received; rendezvous is unaffected so this device still appears online"@
}

/// What is said of a heartbeat that works again.
pub open spec fn recovery_text(n: nat) -> Seq<char> {
    "heartbeat recovered after "@ + num::dec(n) + " consecutive failure(s)"@
}

impl View for FailureLog {
    type V = nat;

    closed spec fn view(&self) -> nat {
        self.consecutive as nat
    }
}

impl FailureLog {
    /// No failure yet.
    pub fn new() -> (r: FailureLog)
        ensures
            r@ == 0,
    {
        FailureLog { consecutive: 0 }
    }

    /// How many heartbeats in a row failed.
    pub fn count(&self) -> (r: u32)
        ensures
            r as nat == self@,
    {
        self.consecutive
    }

    /// Counts a heartbeat. The first failure in a row is told, and every tenth; so is the first
    /// success after failures.
    pub fn record(&mut self, error: Option<&str>) -> (r: Note)
        requires
            error is Some ==> old(self)@ < u32::MAX,
        ensures
            error is Some ==> final(self)@ == old(self)@ + 1,
            error is None ==> final(self)@ == 0,
            match (text::opt_str(error), r) {
                (Some(e), Note::Warn(t)) => (old(self)@ == 0 || (old(self)@ + 1) % 10 == 0) && t@
                    == failure_text(old(self)@ + 1, e),
                (Some(_), Note::Silent) => old(self)@ > 0 && (old(self)@ + 1) % 10 != 0,
                (None, Note::Info(t)) => old(self)@ > 0 && t@ == recovery_text(old(self)@),
                (None, Note::Silent) => old(self)@ == 0,
                _ => false,
            },
    {
        match error {
            Some(e) => {
                self.consecutive = self.consecutive + 1;
                if self.consecutive == 1 || self.consecutive % 10 == 0 {
                    let t = "heartbeat POST failed (".to_owned().concat(
                        dec_u64(self.consecutive as u64).as_str(),
                    ).concat(" consecutive): ").concat(e).concat(
                        " \u{2014} console requests (update checks, jobs, policy) are NOT being received; rendezvous is unaffected so this device still appears online",
                    );
                    Note::Warn(t)
                } else {
                    Note::Silent
                }
            },
            None => {
                if self.consecutive > 0 {
                    let t = "heartbeat recovered after ".to_owned().concat(
                        dec_u64(self.consecutive as u64).as_str(),
                    ).concat(" consecutive failure(s)");
                    self.consecutive = 0;
                    Note::Info(t)
                } else {
                    Note::Silent
                }
            },
        }
    }
}

/// What a reply asks of the device.
pub struct KeyActions {
    /// An update was asked for.
    pub check_update: bool,
    /// Jobs are waiting.
    pub waiting: bool,
    /// Jobs have no result yet.
    pub unsettled: bool,
    /// The rotations of the logon key.
    pub logon_chain: Option<Json>,
    /// The settings that the console forces.
    pub policy_push: Option<Json>,
}

impl KeyActions {
    /// Whether the device is to ask for its jobs.
    pub fn poll(&self) -> (r: bool)
        ensures
            r == (self.waiting || self.unsettled),
    {
        self.waiting || self.unsettled
    }
}

/// A reply without the keys that [`handle_keys`] takes.
pub open spec fn unclaimed(rsp: JsonV) -> JsonV {
    rsp.without("check_update"@).without("jobs_waiting"@).without("jobs_unsettled"@).without(
        "logon_chain"@,
    ).without("policy_push"@)
}

fn take_flag(rsp: Json, key: &str) -> (r: (bool, Json))
    ensures
        r.0 == rsp@.member(key@) is Some,
        r.1@ == rsp@.without(key@),
{
    let found = rsp.get(key).is_some();
    (found, rsp.without(key))
}

/// Takes one key out of a reply.
pub fn take_key(rsp: Json, key: &str) -> (r: (Option<Json>, Json))
    ensures
        json::opt_model(r.0) == rsp@.member(key@),
        r.1@ == rsp@.without(key@),
{
    let found = match rsp.get(key) {
        Some(j) => Some(j.copy()),
        None => None,
    };
    (found, rsp.without(key))
}

/// Takes out of a reply what belongs to the console's features, and leaves the rest.
pub fn handle_keys(rsp: Json) -> (r: (KeyActions, Json))
    ensures
        r.0.check_update == rsp@.member("check_update"@) is Some,
        r.0.waiting == rsp@.member("jobs_waiting"@) is Some,
        r.0.unsettled == rsp@.member("jobs_unsettled"@) is Some,
        json::opt_model(r.0.logon_chain) == rsp@.member("logon_chain"@),
        json::opt_model(r.0.policy_push) == rsp@.member("policy_push"@),
        r.1@ == unclaimed(rsp@),
{
    proof {
        reveal_strlit("check_update");
        reveal_strlit("jobs_waiting");
        reveal_strlit("jobs_unsettled");
        reveal_strlit("logon_chain");
        reveal_strlit("policy_push");
        assert("check_update"@.len() == 12 && "jobs_waiting"@.len() == 12
            && "check_update"@[0] != "jobs_waiting"@[0]);
        assert("jobs_unsettled"@.len() == 14);
        assert("logon_chain"@.len() == 11 && "policy_push"@.len() == 11 && "logon_chain"@[0]
            != "policy_push"@[0]);
    }
    let (check_update, rsp1) = take_flag(rsp, "check_update");
    let (waiting, rsp2) = take_flag(rsp1, "jobs_waiting");
    let (unsettled, rsp3) = take_flag(rsp2, "jobs_unsettled");
    let (logon_chain, rsp4) = take_key(rsp3, "logon_chain");
    let (policy_push, rest) = take_key(rsp4, "policy_push");
    (KeyActions { check_update, waiting, unsettled, logon_chain, policy_push }, rest)
}

/// Another feature's key is left in the reply as it was.
pub proof fn another_key_is_left_alone(rsp: JsonV, key: Seq<char>)
    requires
        key != "check_update"@,
        key != "jobs_waiting"@,
        key != "jobs_unsettled"@,
        key != "logon_chain"@,
        key != "policy_push"@,
    ensures
        unclaimed(rsp).member(key) == rsp.member(key),
{
}

/// A report names the version, and is signed where it says where the machine is: the signature
/// covers what it says.
pub proof fn a_report_is_signed_where_it_places_the_machine(v: JsonV, version: Seq<char>, sk: Seq<u8>)
    ensures
        ({
            let r = decorated(v, version, sk);
            let placed = v.member_or_empty("id"@).len() > 0 && (v.member_or_empty("domain"@).len()
                > 0 || v.member_or_empty("domain_netbios"@).len() > 0 || v.member_or_empty("ou"@).len()
                > 0 || v.member_or_empty("workgroup"@).len() > 0 || v.member_or_empty(
                "dns_suffix"@,
            ).len() > 0);
            &&& r.member("version"@) == Some(JsonV::Str(version))
            &&& placed && v is Obj ==> r.member("adsig"@) == Some(
                JsonV::Str(trust::signed_b64(trust::sysinfo_message(v), sk)),
            )
            &&& !placed && v is Obj ==> r.member("adsig"@) == v.member("adsig"@)
        }),
{
    reveal_strlit("version");
    reveal_strlit("adsig");
    reveal_strlit("id");
    reveal_strlit("domain");
    reveal_strlit("domain_netbios");
    reveal_strlit("ou");
    reveal_strlit("workgroup");
    reveal_strlit("dns_suffix");
    assert("id"@.len() == 2);
    assert("ou"@.len() == 2);
    assert("id"@[0] == 'i');
    assert("ou"@[0] == 'o');
    assert("adsig"@.len() == 5);
    assert("domain"@.len() == 6);
    assert("version"@.len() == 7);
    assert("workgroup"@.len() == 9);
    assert("dns_suffix"@.len() == 10);
    assert("domain_netbios"@.len() == 14);
}

/// What the reply asked is taken out of it.
pub proof fn taken_keys_are_gone(rsp: JsonV)
    ensures
        unclaimed(rsp).member("check_update"@) is None,
        unclaimed(rsp).member("jobs_waiting"@) is None,
        unclaimed(rsp).member("jobs_unsettled"@) is None,
        unclaimed(rsp).member("logon_chain"@) is None,
        unclaimed(rsp).member("policy_push"@) is None,
{
    reveal_strlit("check_update");
    reveal_strlit("jobs_waiting");
    reveal_strlit("jobs_unsettled");
    reveal_strlit("logon_chain");
    reveal_strlit("policy_push");
    assert("logon_chain"@.len() == 11);
    assert("policy_push"@.len() == 11);
    assert("logon_chain"@[0] == 'l');
    assert("policy_push"@[0] == 'p');
    assert("check_update"@.len() == 12);
    assert("jobs_waiting"@.len() == 12);
    assert("check_update"@[0] == 'c');
    assert("jobs_waiting"@[0] == 'j');
    assert("jobs_unsettled"@.len() == 14);
}

/// The warning says how many heartbeats failed in a row and why the last did.
pub proof fn a_warning_counts_the_failures(n: nat, error: Seq<char>)
    ensures
        text::prefixed(
            failure_text(n, error),
            "heartbeat POST failed ("@ + num::dec(n) + " consecutive): "@ + error,
        ),
        recovery_text(n) == "heartbeat recovered after "@ + num::dec(n)
            + " consecutive failure(s)"@,
{
    let head = "heartbeat POST failed ("@ + num::dec(n) + " consecutive): "@ + error;
    assert(failure_text(n, error).take(head.len() as int) =~= head);
}

/// Nothing counts as changed before something was accepted.
pub proof fn nothing_changes_before_the_first_upload(sent: Seq<char>, now: Seq<char>)
    ensures
        !IdentityV::none().differs(now),
        !IdentityV::none().sent(sent).differs(now),
        !IdentityV::none().accepted().differs(now),
        IdentityV::none().sent(sent).accepted().differs(now) <==> now != sent,
{
}

} // verus!
