//! Logging on with the console's key, and closing sessions from the console.
use vstd::prelude::*;

use crate::crypto;
use crate::text;
use crate::crypto::{b64_decode, message_is, open_signed};
use crate::trust::MAX_SIGNED;

verus! {

/// The text that the console signs for a logon: the device and its challenge.
pub open spec fn logon_message(id: Seq<char>, challenge: Seq<char>) -> Seq<char> {
    "CONSOLE-LOGON\n"@ + id + "\n"@ + challenge
}

/// The text that the console signs for a logon.
pub fn logon_text(id: &str, challenge: &str) -> (r: String)
    ensures
        r@ == logon_message(id@, challenge@),
{
    "CONSOLE-LOGON\n".to_owned().concat(id).concat("\n").concat(challenge)
}

/// The message of an attached signature under a base64 key.
pub open spec fn opened(key: Seq<char>, sig: Seq<u8>) -> Option<Seq<u8>> {
    if key.len() == 0 || sig.len() < 64 || sig.len() > 64 + MAX_SIGNED {
        None
    } else {
        match crypto::b64_decoded(key) {
            Some(pk) => if pk.len() == 32 && crypto::ed25519_valid(sig.take(64), sig.skip(64), pk) {
                Some(sig.skip(64))
            } else {
                None
            },
            None => None,
        }
    }
}

/// The message of an attached signature under a base64 key. A signature that cannot hold one, or
/// that is far too long, is not looked at.
pub fn open_logon(key: &str, sig: &[u8]) -> (r: Option<Vec<u8>>)
    ensures
        text::opt_bytes(r) == opened(key@, sig@),
{
    if key.is_empty() || sig.len() < 64 || sig.len() > 64 + MAX_SIGNED {
        return None;
    }
    match b64_decode(key) {
        Some(pk) => {
            if pk.len() != 32 {
                return None;
            }
            open_signed(sig, pk.as_slice())
        },
        None => None,
    }
}

/// A signature is the console's for this device and this challenge.
pub open spec fn logon_ok(key: Seq<char>, sig: Seq<u8>, id: Seq<char>, challenge: Seq<char>) -> bool {
    crypto::message_is_v(opened(key, sig), logon_message(id, challenge))
}

/// Whether a recovered message is the one for this device and this challenge.
pub fn logon_named(message: &Option<Vec<u8>>, id: &str, challenge: &str) -> (r: bool)
    ensures
        r == crypto::message_is_v(text::opt_bytes(*message), logon_message(id@, challenge@)),
{
    message_is(message, logon_text(id, challenge).as_str())
}

/// Whether a signature is the console's for this device and this challenge. `key` is the
/// console's key that the device trusts; without one no signature is.
pub fn verify_console_logon_sig(key: &str, sig: &[u8], id: &str, challenge: &str) -> (r: bool)
    ensures
        r == logon_ok(key@, sig@, id@, challenge@),
{
    logon_named(&open_logon(key, sig), id, challenge)
}

/// What becomes of a logon with a key.
#[derive(PartialEq, Eq, Structural, Clone, Copy, Debug)]
pub enum LogonDecision {
    /// No good signature, but passwords are allowed: the logon goes on as any other.
    FallThrough,
    /// A good signature: no password is needed.
    Authorize,
    /// A good signature, but the logon has failed already: that is told.
    ReportError,
    /// No good signature, and passwords are not allowed. `tell_peer` says whether the peer is new
    /// enough to be told.
    RejectNoPassword { tell_peer: bool },
}

/// What becomes of a logon with a key.
pub open spec fn decision(
    signed: bool,
    error: Seq<char>,
    keypair_only: bool,
    peer_version: i64,
    told_version: i64,
) -> LogonDecision {
    if signed {
        if error.len() == 0 {
            LogonDecision::Authorize
        } else {
            LogonDecision::ReportError
        }
    } else if keypair_only {
        LogonDecision::RejectNoPassword { tell_peer: peer_version >= told_version }
    } else {
        LogonDecision::FallThrough
    }
}

/// What becomes of a logon, where it is known whether its signature is good. The two versions are
/// the numbers of the peer's and of the first that can show the reason.
pub fn decide_logon(
    signed: bool,
    error: &str,
    keypair_only: bool,
    peer_version: i64,
    told_version: i64,
) -> (r: LogonDecision)
    ensures
        r == decision(signed, error@, keypair_only, peer_version, told_version),
{
    if signed {
        return if error.is_empty() {
            LogonDecision::Authorize
        } else {
            LogonDecision::ReportError
        };
    }
    if keypair_only {
        return LogonDecision::RejectNoPassword { tell_peer: peer_version >= told_version };
    }
    LogonDecision::FallThrough
}

/// What becomes of a logon with a key.
pub fn keypair_logon_decision(
    key: &str,
    sig: &[u8],
    id: &str,
    challenge: &str,
    error: &str,
    keypair_only: bool,
    peer_version: i64,
    told_version: i64,
) -> (r: LogonDecision)
    ensures
        r == decision(
            logon_ok(key@, sig@, id@, challenge@),
            error@,
            keypair_only,
            peer_version,
            told_version,
        ),
{
    let signed = verify_console_logon_sig(key, sig, id, challenge);
    decide_logon(signed, error, keypair_only, peer_version, told_version)
}

/// A logon is authorised without a password only by a trusted key's signature for this device and
/// this challenge, and only where no error stands against it.
pub proof fn only_a_signature_authorises(
    key: Seq<char>,
    sig: Seq<u8>,
    id: Seq<char>,
    challenge: Seq<char>,
    error: Seq<char>,
    keypair_only: bool,
    peer_version: i64,
    told_version: i64,
)
    requires
        decision(
            logon_ok(key, sig, id, challenge),
            error,
            keypair_only,
            peer_version,
            told_version,
        ) == LogonDecision::Authorize,
    ensures
        error.len() == 0,
        key.len() > 0,
        crypto::b64_decoded(key) is Some,
        64 <= sig.len() <= 64 + MAX_SIGNED,
        sig.skip(64) == vstd::utf8::encode_utf8(logon_message(id, challenge)),
        crypto::ed25519_valid(sig.take(64), sig.skip(64), crypto::b64_decoded(key)->0),
{
}

/// A device that takes keys alone never goes on to ask for a password.
pub proof fn keys_alone_leave_no_password(
    signed: bool,
    error: Seq<char>,
    peer_version: i64,
    told_version: i64,
)
    ensures
        decision(signed, error, true, peer_version, told_version) != LogonDecision::FallThrough,
{
}

/// The number of the message that asks for the list of sessions in place of naming one.
pub const REFRESH_SID: u32 = 4_294_967_295;

/// Whether a session's number asks for the list of sessions; it then names no session.
pub fn windows_sessions_refresh_request(sid: u32) -> (r: Option<u32>)
    ensures
        r == (if sid == REFRESH_SID {
            Some(sid)
        } else {
            None
        }),
{
    if sid != REFRESH_SID {
        return None;
    }
    Some(sid)
}

/// What an authorised connection is for.
#[derive(PartialEq, Eq, Structural, Clone, Copy, Debug)]
pub enum AuthConnType {
    Remote,
    FileTransfer,
    PortForward,
    ViewCamera,
    Terminal,
}

/// An authorised connection, and whether it takes the request to close. One that is ending
/// already does not.
pub struct AuthedConn {
    pub kind: AuthConnType,
    pub peer: String,
    pub took: bool,
}

/// A connection that is asked to close: every kind but a tunnel, which takes no requests.
pub open spec fn asked_to_close(kind: AuthConnType) -> bool {
    kind != AuthConnType::PortForward
}

/// Whether a connection is asked to close.
pub fn is_asked_to_close(kind: AuthConnType) -> (r: bool)
    ensures
        r == asked_to_close(kind),
{
    kind != AuthConnType::PortForward
}

/// The peers of the connections that closed.
pub open spec fn closed_peers(conns: Seq<AuthedConn>) -> Seq<Seq<char>>
    decreases conns.len(),
{
    if conns.len() == 0 {
        seq![]
    } else {
        let before = closed_peers(conns.drop_last());
        let c = conns.last();
        if asked_to_close(c.kind) && c.took {
            before.push(c.peer@)
        } else {
            before
        }
    }
}

/// The number of tunnels.
pub open spec fn tunnels(conns: Seq<AuthedConn>) -> nat
    decreases conns.len(),
{
    if conns.len() == 0 {
        0
    } else {
        tunnels(conns.drop_last()) + if asked_to_close(conns.last().kind) {
            0nat
        } else {
            1
        }
    }
}

/// How many connections closed, how many tunnels were left, and whose connections closed.
pub fn close_conns(conns: &Vec<AuthedConn>) -> (r: (usize, usize, Vec<String>))
    ensures
        r.0 == closed_peers(conns@).len(),
        r.1 == tunnels(conns@),
        text::texts(r.2@) == closed_peers(conns@),
{
    let mut closed: usize = 0;
    let mut skipped: usize = 0;
    let mut peers: Vec<String> = Vec::new();
    let mut i: usize = 0;
    assert(text::texts(peers@) =~= Seq::<Seq<char>>::empty());
    while i < conns.len()
        invariant
            i <= conns@.len(),
            closed <= i,
            skipped <= i,
            closed == closed_peers(conns@.take(i as int)).len(),
            skipped == tunnels(conns@.take(i as int)),
            text::texts(peers@) == closed_peers(conns@.take(i as int)),
        decreases conns@.len() - i,
    {
        assert(conns@.take(i + 1).drop_last() == conns@.take(i as int));
        if !is_asked_to_close(conns[i].kind) {
            skipped = skipped + 1;
        } else if conns[i].took {
            closed = closed + 1;
            let ghost o = peers@;
            peers.push(conns[i].peer.clone());
            assert(text::texts(peers@) =~= text::texts(o).push(conns@[i as int].peer@));
        }
        i = i + 1;
    }
    assert(conns@.take(i as int) == conns@);
    (closed, skipped, peers)
}

/// A tunnel is never told to have closed: no more connections close than take the request and are
/// no tunnels.
pub proof fn a_tunnel_is_never_told_closed(conns: Seq<AuthedConn>, peer: Seq<char>)
    requires
        closed_peers(conns).contains(peer),
    ensures
        exists|i: int|
            0 <= i < conns.len() && (#[trigger] conns[i]).peer@ == peer && conns[i].took
                && conns[i].kind != AuthConnType::PortForward,
    decreases conns.len(),
{
    if conns.len() > 0 {
        let t = conns.drop_last();
        let c = conns.last();
        if asked_to_close(c.kind) && c.took && c.peer@ == peer {
            assert(conns[conns.len() - 1] == c);
        } else {
            let k = choose|k: int|
                0 <= k < closed_peers(conns).len() && closed_peers(conns)[k] == peer;
            assert(closed_peers(t).contains(peer)) by {
                if asked_to_close(c.kind) && c.took {
                    assert(closed_peers(conns) == closed_peers(t).push(c.peer@));
                    assert(closed_peers(t)[k] == peer);
                }
            }
            a_tunnel_is_never_told_closed(t, peer);
            let i = choose|i: int|
                0 <= i < t.len() && (#[trigger] t[i]).peer@ == peer && t[i].took && t[i].kind
                    != AuthConnType::PortForward;
            assert(conns[i] == t[i]);
        }
    }
}

/// A logon is good where the key signed exactly this device's id and this challenge: under
/// another key, for another device or on another challenge it is not.
pub proof fn a_logon_is_signed_for_its_device(
    key: Seq<char>,
    pk: Seq<u8>,
    sig: Seq<u8>,
    message: Seq<char>,
    id: Seq<char>,
    challenge: Seq<char>,
)
    requires
        sig.len() == 64,
        crypto::b64_decoded(key) == Some(pk),
    ensures
        logon_ok(key, sig + vstd::utf8::encode_utf8(message), id, challenge) <==> {
            &&& key.len() > 0 && pk.len() == 32
            &&& vstd::utf8::encode_utf8(message).len() <= 4096
            &&& crypto::ed25519_valid(sig, vstd::utf8::encode_utf8(message), pk)
            &&& message == "CONSOLE-LOGON\n"@ + id + "\n"@ + challenge
        },
{
    let m = vstd::utf8::encode_utf8(message);
    let all = sig + m;
    assert(all.take(64) =~= sig);
    assert(all.skip(64) =~= m);
    let want = "CONSOLE-LOGON\n"@ + id + "\n"@ + challenge;
    vstd::utf8::encode_utf8_decode_utf8(message);
    vstd::utf8::encode_utf8_decode_utf8(want);
}

/// What is not as long as a signature, or longer than a signed message may be, is none.
pub proof fn a_short_logon_is_refused(key: Seq<char>, sig: Seq<u8>, id: Seq<char>, challenge: Seq<char>)
    requires
        sig.len() < 64 || sig.len() > 4160 || key.len() == 0 || crypto::b64_decoded(key) is None,
    ensures
        !logon_ok(key, sig, id, challenge),
{
}

/// What a logon comes to in each case.
pub proof fn a_logon_is_decided(error: Seq<char>, keypair_only: bool, peer: i64, told: i64)
    ensures
        error.len() == 0 ==> decision(true, error, keypair_only, peer, told)
            == LogonDecision::Authorize,
        error.len() > 0 ==> decision(true, error, keypair_only, peer, told)
            == LogonDecision::ReportError,
        decision(false, error, false, peer, told) == LogonDecision::FallThrough,
        peer >= told ==> decision(false, error, true, peer, told)
            == (LogonDecision::RejectNoPassword { tell_peer: true }),
        peer < told ==> decision(false, error, true, peer, told)
            == (LogonDecision::RejectNoPassword { tell_peer: false }),
{
}

/// Every connection that is no tunnel and took the message is told, in order; the others that
/// are tunnels are counted.
pub proof fn every_connection_but_tunnels_is_told(conns: Seq<AuthedConn>)
    ensures
        closed_peers(conns) == conns.filter(
            |c: AuthedConn| c.kind != AuthConnType::PortForward && c.took,
        ).map_values(|c: AuthedConn| c.peer@),
        tunnels(conns) == conns.filter(|c: AuthedConn| c.kind == AuthConnType::PortForward).len(),
    decreases conns.len(),
{
    let g = |c: AuthedConn| c.kind != AuthConnType::PortForward && c.took;
    let h = |c: AuthedConn| c.peer@;
    let f = |c: AuthedConn| c.kind == AuthConnType::PortForward;
    reveal(Seq::filter);
    if conns.len() > 0 {
        let p = conns.drop_last();
        every_connection_but_tunnels_is_told(p);
        if g(conns.last()) {
            assert(conns.filter(g) == p.filter(g).push(conns.last()));
            assert(conns.filter(g).map_values(h) =~= p.filter(g).map_values(h).push(
                h(conns.last()),
            ));
        }
        if f(conns.last()) {
            assert(conns.filter(f) == p.filter(f).push(conns.last()));
        }
    }
    assert(closed_peers(conns) =~= conns.filter(g).map_values(h));
}

} // verus!
