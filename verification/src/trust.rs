//! The console's logon key: the rotation chain that a device follows from its built-in anchor,
//! and what the trusted key signs for it.
use vstd::prelude::*;

use crate::crypto;
use crate::json;
use crate::num;
use crate::text;
use crate::crypto::{b64_encode, message_is, recover, sign_detached};
use crate::json::{from_text, to_text, Json, JsonV};
use crate::num::dec_u64;
use crate::text::{same, trim};

verus! {

/// The most rotations that a chain may hold past its anchor.
pub const MAX_CHAIN: usize = 256;

/// The longest message of a rotation or of a package, in bytes.
pub const MAX_SIGNED: usize = 4096;

/// The key that the build carries, or the empty text.
pub fn baked_logon_pubkey<'a>(built_in: Option<&'a str>) -> (r: &'a str)
    ensures
        r@ == (match built_in {
            Some(k) => k@,
            None => ""@,
        }),
{
    match built_in {
        Some(k) => k,
        None => "",
    }
}

/// The key and trust that were last stored, where both are there.
pub open spec fn stored_trust(stored: Seq<char>) -> Option<(Seq<char>, Seq<char>)> {
    match json::parsed(stored) {
        Some(v) => trust_of(v),
        None => None,
    }
}

/// The anchor and the trusted key of a trust record.
pub open spec fn trust_of(v: JsonV) -> Option<(Seq<char>, Seq<char>)> {
    match (v.member_text("anchor"@), v.member_text("trusted"@)) {
        (Some(a), Some(t)) => Some((a, t)),
        _ => None,
    }
}

/// The key to trust now: the one in memory, else the stored one where it was reached from the
/// same anchor, else the anchor.
pub open spec fn current_v(
    memory: Option<Seq<char>>,
    anchor: Seq<char>,
    record: Option<JsonV>,
) -> Seq<char> {
    match memory {
        Some(k) => k,
        None => match record {
            Some(v) => if v.member_text("anchor"@) == Some(anchor) && v.member_or_empty(
                "trusted"@,
            ).len() > 0 {
                v.member_or_empty("trusted"@)
            } else {
                anchor
            },
            None => anchor,
        },
    }
}

/// The key to trust, given the stored record.
pub fn current_from_record(memory: &Option<String>, anchor: &str, record: &Option<Json>) -> (r:
    String)
    ensures
        r@ == current_v(text::opt_text(*memory), anchor@, json::opt_model(*record)),
{
    if let Some(k) = memory {
        return k.clone();
    }
    if let Some(v) = record {
        if let Some(a) = v.get_str("anchor") {
            if same(a, anchor) {
                let t = v.get_str_or_empty("trusted");
                if !t.as_str().is_empty() {
                    return t;
                }
            }
        }
    }
    anchor.to_owned()
}

/// The key to trust, given the text of the stored record.
pub fn current_logon_pubkey(memory: &Option<String>, anchor: &str, stored: &str) -> (r: String)
    ensures
        r@ == current_v(text::opt_text(*memory), anchor@, json::parsed(stored@)),
{
    let record = from_text(stored);
    current_from_record(memory, anchor, &record)
}

/// The text that a rotation to a new key signs.
pub open spec fn rotate_message(new_pub: Seq<char>) -> Seq<char> {
    "CONSOLE-LOGON-ROTATE\n"@ + new_pub
}

/// A rotation holds: the previous key signed the new one.
pub open spec fn rotation_ok(prev: Seq<char>, new_pub: Seq<char>, sig: Seq<char>) -> bool {
    crypto::message_is_v(crypto::recovered(prev, sig, MAX_SIGNED as nat), rotate_message(new_pub))
}

/// Whether the message recovered from a rotation names the new key.
pub fn rotation_names(message: &Option<Vec<u8>>, new_pub: &str) -> (r: bool)
    ensures
        r == crypto::message_is_v(
            text::opt_bytes(*message),
            rotate_message(new_pub@),
        ),
{
    let expected = "CONSOLE-LOGON-ROTATE\n".to_owned().concat(new_pub);
    message_is(message, expected.as_str())
}

/// Whether the previous key signed the new one.
pub fn verify_rotate(prev_pub_b64: &str, new_pub_b64: &str, sig_b64: &str) -> (r: bool)
    ensures
        r == rotation_ok(prev_pub_b64@, new_pub_b64@, sig_b64@),
{
    let message = recover(prev_pub_b64, sig_b64, MAX_SIGNED);
    rotation_names(&message, new_pub_b64)
}

/// The first entry of a chain that holds a key, or the chain's length.
pub open spec fn entry_of(entries: Seq<JsonV>, key: Seq<char>) -> int
    decreases entries.len(),
{
    if entries.len() == 0 || entries[0].member_text("pub"@) == Some(key) {
        0
    } else {
        1 + entry_of(entries.drop_first(), key)
    }
}

/// What `entry_of` finds.
pub proof fn lemma_entry_of(entries: Seq<JsonV>, key: Seq<char>)
    ensures
        0 <= entry_of(entries, key) <= entries.len(),
        entry_of(entries, key) < entries.len() ==> entries[entry_of(entries, key)].member_text(
            "pub"@,
        ) == Some(key),
        forall|i: int|
            0 <= i < entry_of(entries, key) ==> (#[trigger] entries[i]).member_text("pub"@) != Some(
                key,
            ),
    decreases entries.len(),
{
    if entries.len() > 0 && entries[0].member_text("pub"@) != Some(key) {
        let t = entries.drop_first();
        lemma_entry_of(t, key);
        assert forall|i: int| 0 <= i < entry_of(entries, key) implies (
        #[trigger] entries[i]).member_text("pub"@) != Some(key) by {
            if i > 0 {
                assert(t[i - 1] == entries[i]);
            }
        }
    }
}

/// The first entry of a chain that holds a key, or the chain's length.
fn find_entry(entries: &Vec<Json>, key: &str) -> (r: usize)
    ensures
        r == entry_of(json::models(entries@), key@),
{
    let mut i: usize = 0;
    assert(json::models(entries@).skip(0) == json::models(entries@));
    while i < entries.len()
        invariant
            i <= entries@.len(),
            entry_of(json::models(entries@), key@) == i + entry_of(
                json::models(entries@).skip(i as int),
                key@,
            ),
        decreases entries@.len() - i,
    {
        assert(json::models(entries@).skip(i as int)[0] == entries@[i as int]@);
        assert(json::models(entries@).skip(i as int).drop_first() == json::models(entries@).skip(i + 1));
        if let Some(p) = entries[i].get_str("pub") {
            if same(p, key) {
                return i;
            }
        }
        i = i + 1;
    }
    i
}

/// The key that a chain leads to from entry `i` on, and the entry that holds it: each entry's
/// key is trusted in turn as long as the key before it signed it, for at most `left` entries.
pub open spec fn walk(
    entries: Seq<JsonV>,
    i: int,
    left: nat,
    trusted: Seq<char>,
    idx: int,
) -> (Seq<char>, int)
    decreases left,
{
    if left == 0 || i >= entries.len() {
        (trusted, idx)
    } else {
        match (entries[i].member_text("pub"@), entries[i].member_text("sig"@)) {
            (Some(p), Some(s)) => if p.len() > 0 && s.len() > 0 && rotation_ok(trusted, p, s) {
                walk(entries, i + 1, (left - 1) as nat, p, i)
            } else {
                (trusted, idx)
            },
            _ => (trusted, idx),
        }
    }
}

/// The key that was trusted before, where it was reached from this anchor.
pub open spec fn floor_of(anchor: Seq<char>, prev: Option<(Seq<char>, Seq<char>)>) -> Option<
    Seq<char>,
> {
    match prev {
        Some((a, t)) => if a == anchor {
            Some(t)
        } else {
            None
        },
        None => None,
    }
}

/// The key to trust after a chain was received.
pub open spec fn resolve_v(
    anchor: Seq<char>,
    entries: Seq<JsonV>,
    prev: Option<(Seq<char>, Seq<char>)>,
) -> Seq<char> {
    let floor = floor_of(anchor, prev);
    let start = entry_of(entries, anchor);
    if start >= entries.len() {
        match floor {
            Some(f) => f,
            None => anchor,
        }
    } else {
        let (trusted, idx) = walk(entries, start + 1, MAX_CHAIN as nat, anchor, start);
        match floor {
            Some(f) => {
                let f_idx = entry_of(entries, f);
                if f_idx < entries.len() && idx >= f_idx {
                    trusted
                } else {
                    f
                }
            },
            None => trusted,
        }
    }
}

/// The key to trust after a chain was received: as far as the chain is signed link by link
/// from the anchor, and never behind the key that was trusted before.
pub fn resolve_trusted(
    anchor: &str,
    entries: &Vec<Json>,
    prev: &Option<(String, String)>,
) -> (r: String)
    ensures
        r@ == resolve_v(
            anchor@,
            json::models(entries@),
            match *prev {
                Some((a, t)) => Some((a@, t@)),
                None => None,
            },
        ),
{
    let ghost es = json::models(entries@);
    let floor: Option<String> = match prev {
        Some(p) => if same(p.0.as_str(), anchor) {
            Some(p.1.clone())
        } else {
            None
        },
        None => None,
    };
    let start: usize = find_entry(entries, anchor);
    if start >= entries.len() {
        return match floor {
            Some(f) => f,
            None => anchor.to_owned(),
        };
    }
    let mut trusted = anchor.to_owned();
    let mut idx: usize = start;
    let mut i: usize = start + 1;
    let mut left: usize = MAX_CHAIN;
    loop
        invariant_except_break
            walk(es, i as int, left as nat, trusted@, idx as int) == walk(
                es,
                start + 1,
                MAX_CHAIN as nat,
                anchor@,
                start as int,
            ),
        invariant
            es == json::models(entries@),
            start < i <= entries@.len(),
        ensures
            walk(es, start + 1, MAX_CHAIN as nat, anchor@, start as int) == (trusted@, idx as int),
        decreases left,
    {
        if left == 0 || i >= entries.len() {
            break;
        }
        assert(es[i as int] == entries@[i as int]@);
        match (entries[i].get_str("pub"), entries[i].get_str("sig")) {
            (Some(p), Some(s)) => {
                if p.is_empty() || s.is_empty() || !verify_rotate(trusted.as_str(), p, s) {
                    break;
                }
                trusted = p.to_owned();
                idx = i;
                i = i + 1;
                left = left - 1;
            },
            _ => {
                break;
            },
        }
    }
    match floor {
        Some(f) => {
            let f_idx: usize = find_entry(entries, f.as_str());
            if f_idx < entries.len() && idx >= f_idx {
                trusted
            } else {
                f
            }
        },
        None => trusted,
    }
}

/// What a received chain changes.
pub struct ChainUpdate {
    /// The key to trust from now on.
    pub trusted: String,
    /// The record to store, where it differs from the stored one.
    pub store: Option<String>,
}

/// The record of a trusted key.
pub open spec fn trust_record(anchor: Seq<char>, trusted: Seq<char>) -> JsonV {
    JsonV::empty().with("anchor"@, JsonV::Str(anchor)).with("trusted"@, JsonV::Str(trusted))
}

/// The chain that counts: a list, no longer than an anchor and its rotations, on a device that
/// carries an anchor.
pub open spec fn chain_entries(anchor: Seq<char>, chain: Option<JsonV>) -> Option<Seq<JsonV>> {
    if anchor.len() == 0 {
        None
    } else {
        match chain {
            Some(JsonV::Arr(es)) => if es.len() <= MAX_CHAIN + 1 {
                Some(es)
            } else {
                None
            },
            _ => None,
        }
    }
}

/// Follows a chain from the trust that was stored.
pub fn follow_chain(anchor: &str, chain: &Option<Json>, prev: &Option<(String, String)>) -> (r:
    Option<ChainUpdate>)
    ensures
        ({
            let before: Option<(Seq<char>, Seq<char>)> = match *prev {
                Some((a, t)) => Some((a@, t@)),
                None => None,
            };
            match r {
                Some(u) => match chain_entries(anchor@, json::opt_model(*chain)) {
                    Some(es) => {
                        &&& u.trusted@ == resolve_v(anchor@, es, before)
                        &&& u.store is Some <==> before != Some((anchor@, u.trusted@))
                        &&& u.store is Some ==> u.store->0@ == crate::json::compact(
                            trust_record(anchor@, u.trusted@),
                        ) && json::parsed(u.store->0@) == Some(trust_record(anchor@, u.trusted@))
                    },
                    None => false,
                },
                None => chain_entries(anchor@, json::opt_model(*chain)) is None,
            }
        }),
{
    if anchor.is_empty() {
        return None;
    }
    match chain {
        Some(c) => match c.as_array() {
            Some(entries) => {
                if entries.len() > MAX_CHAIN + 1 {
                    return None;
                }
                let trusted = resolve_trusted(anchor, entries, prev);
                let changed = match prev {
                    Some(p) => !same(p.0.as_str(), anchor) || !same(
                        p.1.as_str(),
                        trusted.as_str(),
                    ),
                    None => true,
                };
                let store = if changed {
                    let record = Json::object().with("anchor", Json::text(anchor)).with(
                        "trusted",
                        Json::text(trusted.as_str()),
                    );
                    assert(json::plain(record@, 64)) by {
                        reveal_with_fuel(json::plain, 2);
                    }
                    Some(to_text(&record))
                } else {
                    None
                };
                Some(ChainUpdate { trusted, store })
            },
            None => None,
        },
        None => None,
    }
}

/// The stored trust.
pub fn read_trust(stored: &str) -> (r: Option<(String, String)>)
    ensures
        (match r {
            Some((a, t)) => Some((a@, t@)),
            None => None,
        }) == stored_trust(stored@),
{
    match from_text(stored) {
        Some(v) => match (v.get_str("anchor"), v.get_str("trusted")) {
            (Some(a), Some(t)) => Some((a.to_owned(), t.to_owned())),
            _ => None,
        },
        None => None,
    }
}

/// Follows a chain that the console sent, from the text of the stored record.
pub fn update_logon_chain(anchor: &str, chain: &Option<Json>, stored: &str) -> (r: Option<
    ChainUpdate,
>)
    ensures
        match r {
            Some(u) => match chain_entries(anchor@, json::opt_model(*chain)) {
                Some(es) => {
                    &&& u.trusted@ == resolve_v(anchor@, es, stored_trust(stored@))
                    &&& u.store is Some <==> stored_trust(stored@) != Some(
                        (anchor@, u.trusted@),
                    )
                    &&& u.store is Some ==> u.store->0@ == crate::json::compact(
                        trust_record(anchor@, u.trusted@),
                    ) && stored_trust(u.store->0@) == Some((anchor@, u.trusted@))
                },
                None => false,
            },
            None => chain_entries(anchor@, json::opt_model(*chain)) is None,
        },
{
    let prev = read_trust(stored);
    let r = follow_chain(anchor, chain, &prev);
    proof {
        reveal_strlit("anchor");
        reveal_strlit("trusted");
        assert("anchor"@.len() != "trusted"@.len());
    }
    r
}

/// Entries `start` to `i` are linked: each key past the first was signed by the one before it.
pub open spec fn linked(entries: Seq<JsonV>, start: int, i: int) -> bool {
    forall|k: int|
        start < k <= i ==> {
            let prev = entries[k - 1].member_text("pub"@);
            let next = (#[trigger] entries[k]).member_text("pub"@);
            let sig = entries[k].member_text("sig"@);
            prev is Some && next is Some && sig is Some && rotation_ok(prev->0, next->0, sig->0)
        }
}

proof fn lemma_walk(
    entries: Seq<JsonV>,
    start: int,
    i: int,
    left: nat,
    trusted: Seq<char>,
    idx: int,
)
    requires
        0 <= start <= idx < entries.len(),
        i == idx + 1,
        entries[idx].member_text("pub"@) == Some(trusted),
        linked(entries, start, idx),
    ensures
        ({
            let (t, j) = walk(entries, i, left, trusted, idx);
            &&& idx <= j < entries.len()
            &&& entries[j].member_text("pub"@) == Some(t)
            &&& linked(entries, start, j)
        }),
    decreases left,
{
    if left > 0 && i < entries.len() {
        match (entries[i].member_text("pub"@), entries[i].member_text("sig"@)) {
            (Some(p), Some(s)) => {
                if p.len() > 0 && s.len() > 0 && rotation_ok(trusted, p, s) {
                    assert(linked(entries, start, i)) by {
                        assert forall|k: int| start < k <= i implies {
                            let prev = entries[k - 1].member_text("pub"@);
                            let next = (#[trigger] entries[k]).member_text("pub"@);
                            let sig = entries[k].member_text("sig"@);
                            prev is Some && next is Some && sig is Some && rotation_ok(
                                prev->0,
                                next->0,
                                sig->0,
                            )
                        } by {
                            if k == i {
                                assert(entries[k - 1] == entries[idx]);
                            }
                        }
                    }
                    lemma_walk(entries, start, i + 1, (left - 1) as nat, p, i);
                }
            },
            _ => {},
        }
    }
}

/// A key is trusted only where it is the anchor, the key trusted before, or the end of a run of
/// entries that starts at the anchor and in which each key signed the next.
pub proof fn trust_is_anchored(
    anchor: Seq<char>,
    entries: Seq<JsonV>,
    prev: Option<(Seq<char>, Seq<char>)>,
)
    ensures
        ({
            let t = resolve_v(anchor, entries, prev);
            ||| t == anchor
            ||| floor_of(anchor, prev) == Some(t)
            ||| exists|i: int|
                entry_of(entries, anchor) < i < entries.len() && (
                #[trigger] entries[i]).member_text("pub"@) == Some(t) && linked(
                    entries,
                    entry_of(entries, anchor),
                    i,
                )
        }),
{
    lemma_entry_of(entries, anchor);
    let start = entry_of(entries, anchor);
    if start < entries.len() {
        lemma_walk(entries, start, start + 1, MAX_CHAIN as nat, anchor, start);
        let (t, j) = walk(entries, start + 1, MAX_CHAIN as nat, anchor, start);
        assert(entries[j].member_text("pub"@) == Some(t));
    }
}

/// The trusted key never falls behind the one trusted before: it is that key, or it stands in
/// the chain no earlier than that key does.
pub proof fn trust_never_falls_back(
    anchor: Seq<char>,
    entries: Seq<JsonV>,
    trusted: Seq<char>,
)
    ensures
        ({
            let t = resolve_v(anchor, entries, Some((anchor, trusted)));
            ||| t == trusted
            ||| exists|i: int|
                entry_of(entries, trusted) <= i < entries.len() && (
                #[trigger] entries[i]).member_text("pub"@) == Some(t)
        }),
{
    lemma_entry_of(entries, anchor);
    let start = entry_of(entries, anchor);
    if start < entries.len() {
        lemma_walk(entries, start, start + 1, MAX_CHAIN as nat, anchor, start);
        let (t, j) = walk(entries, start + 1, MAX_CHAIN as nat, anchor, start);
        assert(entries[j].member_text("pub"@) == Some(t));
    }
}

/// A device whose anchor changed starts over: what it trusted under another anchor is ignored.
pub proof fn another_anchor_is_ignored(
    anchor: Seq<char>,
    entries: Seq<JsonV>,
    other: Seq<char>,
    trusted: Seq<char>,
)
    requires
        other != anchor,
    ensures
        resolve_v(anchor, entries, Some((other, trusted))) == resolve_v(anchor, entries, None),
{
}

/// Receiving the same chain again changes nothing.
pub proof fn resolving_again_changes_nothing(
    anchor: Seq<char>,
    entries: Seq<JsonV>,
    prev: Option<(Seq<char>, Seq<char>)>,
)
    ensures
        ({
            let t = resolve_v(anchor, entries, prev);
            resolve_v(anchor, entries, Some((anchor, t))) == t
        }),
{
    lemma_entry_of(entries, anchor);
    let start = entry_of(entries, anchor);
    if start < entries.len() {
        lemma_walk(entries, start, start + 1, MAX_CHAIN as nat, anchor, start);
        let (t, j) = walk(entries, start + 1, MAX_CHAIN as nat, anchor, start);
        lemma_entry_of(entries, t);
    }
}

/// A trust that was stored is the one read back, where it is not empty.
pub proof fn stored_trust_is_read_back(anchor: Seq<char>, trusted: Seq<char>)
    requires
        trusted.len() > 0,
    ensures
        current_v(None, anchor, Some(trust_record(anchor, trusted))) == trusted,
        trust_of(trust_record(anchor, trusted)) == Some((anchor, trusted)),
{
    reveal_strlit("anchor");
    reveal_strlit("trusted");
    assert("anchor"@.len() != "trusted"@.len());
}

/// The text that the console signs for a package.
pub open spec fn package_message(version: Seq<char>, sha256_hex: Seq<char>, size: nat) -> Seq<
    char,
> {
    "CONSOLE-PKG\n"@ + version + "\n"@ + sha256_hex + "\n"@ + num::dec(size)
}

/// A package is signed: every field is there, a key is trusted, and it signed exactly this
/// version, digest and size.
pub open spec fn package_ok(
    key: Seq<char>,
    version: Seq<char>,
    sha256_hex: Seq<char>,
    size: nat,
    sig: Seq<char>,
) -> bool {
    &&& version.len() > 0
    &&& sha256_hex.len() > 0
    &&& size > 0
    &&& sig.len() > 0
    &&& key.len() > 0
    &&& crypto::message_is_v(
        crypto::recovered(key, sig, MAX_SIGNED as nat),
        package_message(version, sha256_hex, size),
    )
}

/// Whether a recovered message names a package.
pub fn package_named(
    message: &Option<Vec<u8>>,
    version: &str,
    sha256_hex: &str,
    size: u64,
) -> (r: bool)
    ensures
        r == crypto::message_is_v(
            text::opt_bytes(*message),
            package_message(version@, sha256_hex@, size as nat),
        ),
{
    let expected = "CONSOLE-PKG\n".to_owned().concat(version).concat("\n").concat(
        sha256_hex,
    ).concat("\n").concat(dec_u64(size).as_str());
    message_is(message, expected.as_str())
}

/// Whether the trusted key signed a package.
pub fn verify_package(
    key: &str,
    version: &str,
    sha256_hex: &str,
    size: u64,
    sig_b64: &str,
) -> (r: bool)
    ensures
        r == package_ok(key@, version@, sha256_hex@, size as nat, sig_b64@),
{
    if version.is_empty() || sha256_hex.is_empty() || size == 0 || sig_b64.is_empty()
        || key.is_empty() {
        return false;
    }
    let message = recover(key, sig_b64, MAX_SIGNED);
    package_named(&message, version, sha256_hex, size)
}

/// One signature covers one package only: a signature that holds for two packages holds for
/// one and the same signed text.
pub proof fn package_signature_is_specific(
    key: Seq<char>,
    v1: Seq<char>,
    h1: Seq<char>,
    s1: nat,
    v2: Seq<char>,
    h2: Seq<char>,
    s2: nat,
    sig: Seq<char>,
)
    requires
        package_ok(key, v1, h1, s1, sig),
        package_ok(key, v2, h2, s2, sig),
    ensures
        package_message(v1, h1, s1) == package_message(v2, h2, s2),
{
    vstd::utf8::encode_utf8_decode_utf8(package_message(v1, h1, s1));
    vstd::utf8::encode_utf8_decode_utf8(package_message(v2, h2, s2));
}

/// Unsigned packages are refused: by the build, or by the latch that a policy set.
pub fn update_sig_enforced(build_flag: Option<&str>, latch: &str) -> (r: bool)
    ensures
        r == (text::opt_str(build_flag) == Some("1"@) || latch@ == "1"@),
{
    if let Some(f) = build_flag {
        if same(f, "1") {
            return true;
        }
    }
    same(latch, "1")
}

/// A setting that switches something on.
pub open spec fn truthy(value: Seq<char>) -> bool {
    let v = text::trim_v(value);
    v == "1"@ || v == "true"@ || v == "yes"@ || v == "on"@
}

/// The latch after a policy's setting: on where the setting is truthy; off where it is not and
/// the build does not insist; else as it was.
pub fn apply_update_require_sig(value: &str, build_flag: Option<&str>, latch: &str) -> (r: String)
    ensures
        r@ == (if truthy(value@) {
            "1"@
        } else if text::opt_str(build_flag) != Some("1"@) {
            "0"@
        } else {
            latch@
        }),
{
    let v = trim(value);
    let t = v.as_str();
    if same(t, "1") || same(t, "true") || same(t, "yes") || same(t, "on") {
        return "1".to_owned();
    }
    if let Some(f) = build_flag {
        if same(f, "1") {
            return latch.to_owned();
        }
    }
    "0".to_owned()
}

/// The text that a device signs about its place in the network.
pub open spec fn sysinfo_message(v: JsonV) -> Seq<char> {
    "SYSINFO\n"@ + v.member_or_empty("id"@) + "\n"@ + v.member_or_empty("domain"@) + "\n"@
        + v.member_or_empty("domain_netbios"@) + "\n"@ + v.member_or_empty("ou"@) + "\n"@
        + v.member_or_empty("workgroup"@) + "\n"@ + v.member_or_empty("dns_suffix"@)
}

/// There is something to sign: an id, and a place in the network.
pub open spec fn sysinfo_signable(v: JsonV) -> bool {
    &&& v.member_or_empty("id"@).len() > 0
    &&& (v.member_or_empty("domain"@).len() > 0 || v.member_or_empty("domain_netbios"@).len() > 0
        || v.member_or_empty("ou"@).len() > 0 || v.member_or_empty("workgroup"@).len() > 0
        || v.member_or_empty("dns_suffix"@).len() > 0)
}

/// The base64 signature of a text under the device's key.
pub open spec fn signed_b64(text: Seq<char>, sk: Seq<u8>) -> Seq<char> {
    crypto::b64_encoded(crypto::ed25519_signature(vstd::utf8::encode_utf8(text), sk))
}

/// The text to sign about the device's place in the network, where there is something to sign.
pub fn sysinfo_text(v: &Json) -> (r: Option<String>)
    ensures
        text::opt_text(r) == (if sysinfo_signable(v@) {
            Some(sysinfo_message(v@))
        } else {
            None
        }),
{
    let id = v.get_str_or_empty("id");
    let domain = v.get_str_or_empty("domain");
    let netbios = v.get_str_or_empty("domain_netbios");
    let ou = v.get_str_or_empty("ou");
    let wg = v.get_str_or_empty("workgroup");
    let dns = v.get_str_or_empty("dns_suffix");
    if id.as_str().is_empty() || (domain.as_str().is_empty() && netbios.as_str().is_empty()
        && ou.as_str().is_empty() && wg.as_str().is_empty() && dns.as_str().is_empty()) {
        return None;
    }
    Some(
        "SYSINFO\n".to_owned().concat(id.as_str()).concat("\n").concat(domain.as_str()).concat(
            "\n",
        ).concat(netbios.as_str()).concat("\n").concat(ou.as_str()).concat("\n").concat(
            wg.as_str(),
        ).concat("\n").concat(dns.as_str()),
    )
}

/// The device's signature over its place in the network.
pub fn sign_sysinfo(v: &Json, sk: &[u8]) -> (r: Option<String>)
    requires
        sk@.len() == 64,
    ensures
        text::opt_text(r) == (if sysinfo_signable(v@) {
            Some(signed_b64(sysinfo_message(v@), sk@))
        } else {
            None
        }),
{
    match sysinfo_text(v) {
        Some(t) => Some(b64_encode(sign_detached(t.as_str().as_bytes(), sk).as_slice())),
        None => None,
    }
}

/// The header that carries the device's signature over the exact bytes of a body.
pub fn sign_header(body: &str, sk: &[u8]) -> (r: String)
    requires
        sk@.len() == 64,
    ensures
        r@ == "X-ST-Sig: "@ + signed_b64(body@, sk@),
{
    let sig = b64_encode(sign_detached(body.as_bytes(), sk).as_slice());
    "X-ST-Sig: ".to_owned().concat(sig.as_str())
}

/// The bytes of a stored key: nothing where the text does not decode or holds none.
pub fn stored_key_bytes(text: &str) -> (r: Option<Vec<u8>>)
    ensures
        text::opt_bytes(r) == (match crypto::b64_decoded(text@) {
            Some(b) => if b.len() > 0 {
                Some(b)
            } else {
                None
            },
            None => None,
        }),
{
    match crypto::b64_decode(text) {
        Some(b) => if b.len() > 0 {
            Some(b)
        } else {
            None
        },
        None => None,
    }
}

/// The text that a key is stored as, which reads back as the key.
pub fn stored_key_text(key: &[u8]) -> (r: String)
    ensures
        r@ == crypto::b64_encoded(key@),
        crypto::b64_decoded(r@) == Some(key@),
{
    b64_encode(key)
}

/// Where the device's signing key comes from. A key that is to be stored is stored as the text
/// that [`stored_key_text`] gives.
pub enum KeyChoice {
    /// The machine's stored key, which stays as it is.
    Machine(Vec<u8>),
    /// The local key, to be stored for the machine.
    Local(Vec<u8>),
    /// A new key, to be stored for the machine.
    Generate,
}

/// The key to use: the machine's where it is an Ed25519 secret key, else the local one where it
/// is, else a new one.
pub fn resolve_key_bytes(machine: Option<Vec<u8>>, local: Option<Vec<u8>>) -> (r: KeyChoice)
    ensures
        r == (if machine is Some && machine->0@.len() == 64 {
            KeyChoice::Machine(machine->0)
        } else if local is Some && local->0@.len() == 64 {
            KeyChoice::Local(local->0)
        } else {
            KeyChoice::Generate
        }),
{
    if let Some(b) = machine {
        if b.len() == 64 {
            return KeyChoice::Machine(b);
        }
    }
    if let Some(b) = local {
        if b.len() == 64 {
            return KeyChoice::Local(b);
        }
    }
    KeyChoice::Generate
}

/// The key of entry `k` was signed by the key of the entry before it: both are there, and the
/// signature opens under the earlier key to the text of a rotation to the later one.
pub open spec fn signed_in_turn(entries: Seq<JsonV>, k: int) -> bool {
    match (
        entries[k - 1].member_text("pub"@),
        entries[k].member_text("pub"@),
        entries[k].member_text("sig"@),
    ) {
        (Some(before), Some(next), Some(sig)) => next.len() > 0 && sig.len() > 0
            && crypto::recovered(before, sig, 4096) == Some(
            vstd::utf8::encode_utf8("CONSOLE-LOGON-ROTATE\n"@ + next),
        ),
        _ => false,
    }
}

proof fn lemma_walk_to(
    entries: Seq<JsonV>,
    idx: int,
    left: nat,
    trusted: Seq<char>,
    m: int,
)
    requires
        0 <= idx <= m < entries.len(),
        left >= m - idx,
        entries[idx].member_text("pub"@) == Some(trusted),
        forall|k: int| idx < k <= m ==> signed_in_turn(entries, k),
    ensures
        walk(entries, idx + 1, left, trusted, idx).1 >= m,
        m + 1 == entries.len() || left == m - idx || !signed_in_turn(entries, m + 1) ==> walk(
            entries,
            idx + 1,
            left,
            trusted,
            idx,
        ) == (entries[m].member_text("pub"@)->0, m),
    decreases left,
{
    if idx < m {
        assert(signed_in_turn(entries, idx + 1));
        let p = entries[idx + 1].member_text("pub"@)->0;
        lemma_walk_to(entries, idx + 1, (left - 1) as nat, p, m);
    } else if left > 0 && m + 1 < entries.len() {
        if signed_in_turn(entries, m + 1) {
            lemma_walk(entries, idx, idx + 1, left, trusted, idx);
        } else {
            match (entries[m + 1].member_text("pub"@), entries[m + 1].member_text("sig"@)) {
                (Some(p), Some(s)) => {
                    assert(!(p.len() > 0 && s.len() > 0 && rotation_ok(trusted, p, s)));
                },
                _ => {},
            }
        }
    }
}

/// The first entry of a chain with a key is the one that is found.
proof fn lemma_first_entry(entries: Seq<JsonV>, key: Seq<char>, i: int)
    requires
        0 <= i < entries.len(),
        entries[i].member_text("pub"@) == Some(key),
    ensures
        entry_of(entries, key) <= i,
        (forall|k: int| 0 <= k < i ==> (#[trigger] entries[k]).member_text("pub"@) != Some(key))
            ==> entry_of(entries, key) == i,
{
    lemma_entry_of(entries, key);
}

/// Trust goes as far as the chain is signed. Where the anchor first stands at entry `start`, and
/// the entries from there up to `m` are signed in turn and no further, the key of entry `m` is
/// trusted, unless a key was trusted before that does not stand in the chain up to there: then
/// that key stays trusted.
pub proof fn trust_goes_as_far_as_the_chain_is_signed(
    anchor: Seq<char>,
    entries: Seq<JsonV>,
    prev: Option<(Seq<char>, Seq<char>)>,
    start: int,
    m: int,
)
    requires
        0 <= start <= m < entries.len(),
        m - start <= 256,
        entries[start].member_text("pub"@) == Some(anchor),
        forall|k: int|
            0 <= k < start ==> (#[trigger] entries[k]).member_text("pub"@) != Some(anchor),
        forall|k: int| start < k <= m ==> signed_in_turn(entries, k),
        m + 1 == entries.len() || m - start == 256 || !signed_in_turn(entries, m + 1),
    ensures
        match prev {
            Some((a, f)) => if a != anchor || exists|i: int|
                0 <= i <= m && (#[trigger] entries[i]).member_text("pub"@) == Some(f) {
                entries[m].member_text("pub"@) == Some(resolve_v(anchor, entries, prev))
            } else {
                resolve_v(anchor, entries, prev) == f
            },
            None => entries[m].member_text("pub"@) == Some(resolve_v(anchor, entries, prev)),
        },
{
    lemma_first_entry(entries, anchor, start);
    lemma_walk_to(entries, start, 256, anchor, m);
    lemma_walk(entries, start, start + 1, 256, anchor, start);
    if let Some((a, f)) = prev {
        lemma_entry_of(entries, f);
        if exists|i: int| 0 <= i <= m && (#[trigger] entries[i]).member_text("pub"@) == Some(f) {
            let i = choose|i: int|
                0 <= i <= m && (#[trigger] entries[i]).member_text("pub"@) == Some(f);
            lemma_first_entry(entries, f, i);
        }
    }
}

/// Trust makes progress: where the entries from the anchor up to `j` are signed in turn, and the
/// key trusted before stands in the chain at or before `j`, the key trusted now stands in the
/// chain at `j` or later.
pub proof fn trust_makes_progress(
    anchor: Seq<char>,
    entries: Seq<JsonV>,
    prev: Option<(Seq<char>, Seq<char>)>,
    start: int,
    j: int,
)
    requires
        0 <= start <= j < entries.len(),
        j - start <= 256,
        entries[start].member_text("pub"@) == Some(anchor),
        forall|k: int|
            0 <= k < start ==> (#[trigger] entries[k]).member_text("pub"@) != Some(anchor),
        forall|k: int| start < k <= j ==> signed_in_turn(entries, k),
        prev matches Some((a, f)) ==> a != anchor || exists|i: int|
            0 <= i <= j && (#[trigger] entries[i]).member_text("pub"@) == Some(f),
    ensures
        exists|i: int|
            j <= i < entries.len() && (#[trigger] entries[i]).member_text("pub"@) == Some(
                resolve_v(anchor, entries, prev),
            ),
{
    lemma_first_entry(entries, anchor, start);
    lemma_walk_to(entries, start, 256, anchor, j);
    lemma_walk(entries, start, start + 1, 256, anchor, start);
    let (t, at) = walk(entries, start + 1, 256, anchor, start);
    assert(entries[at].member_text("pub"@) == Some(t));
    if let Some((a, f)) = prev {
        if a == anchor {
            let i = choose|i: int|
                0 <= i <= j && (#[trigger] entries[i]).member_text("pub"@) == Some(f);
            lemma_first_entry(entries, f, i);
        }
    }
}

/// A device that stored its anchor as its trusted key follows a chain like one that stored
/// nothing.
pub proof fn a_stored_anchor_holds_nothing_back(anchor: Seq<char>, entries: Seq<JsonV>)
    ensures
        resolve_v(anchor, entries, Some((anchor, anchor))) == resolve_v(anchor, entries, None),
{
    lemma_entry_of(entries, anchor);
    let start = entry_of(entries, anchor);
    if start < entries.len() {
        lemma_walk(entries, start, start + 1, MAX_CHAIN as nat, anchor, start);
    }
}

/// A chain that does not hold the anchor changes nothing: the key trusted before stays, or else
/// the anchor.
pub proof fn a_foreign_chain_changes_nothing(
    anchor: Seq<char>,
    entries: Seq<JsonV>,
    prev: Option<(Seq<char>, Seq<char>)>,
)
    requires
        forall|k: int|
            0 <= k < entries.len() ==> (#[trigger] entries[k]).member_text("pub"@) != Some(anchor),
    ensures
        resolve_v(anchor, entries, prev) == (match prev {
            Some((a, f)) => if a == anchor {
                f
            } else {
                anchor
            },
            None => anchor,
        }),
{
    lemma_entry_of(entries, anchor);
}

/// A device with an anchor follows every list of at most 257 entries, and no other chain.
pub proof fn every_short_chain_is_followed(anchor: Seq<char>, chain: JsonV, es: Seq<JsonV>)
    ensures
        chain_entries(anchor, Some(chain)) == Some(es) <==> anchor.len() > 0 && chain == JsonV::Arr(
            es,
        ) && es.len() <= 257,
        chain_entries(anchor, None) is None,
{
}

/// The key in memory is the one that is used; else the stored one, which counts only under the
/// anchor that it was reached from; else the anchor.
pub proof fn the_key_in_use(memory: Seq<char>, anchor: Seq<char>, record: JsonV, stored: Seq<char>)
    ensures
        current_v(Some(memory), anchor, Some(record)) == memory,
        current_v(Some(memory), anchor, None) == memory,
        current_v(None, anchor, None) == anchor,
        record.member("anchor"@) == Some(JsonV::Str(anchor)) && record.member("trusted"@) == Some(
            JsonV::Str(stored),
        ) && stored.len() > 0 ==> current_v(None, anchor, Some(record)) == stored,
        record.member("anchor"@) != Some(JsonV::Str(anchor)) ==> current_v(
            None,
            anchor,
            Some(record),
        ) == anchor,
{
    match record.member("anchor"@) {
        Some(JsonV::Str(s)) => {},
        _ => {},
    }
}

/// A setting switches something on where it says `1`, `true`, `yes` or `on`, blanks aside.
pub proof fn four_words_switch_on(value: Seq<char>)
    ensures
        truthy(value) <==> text::trim_v(value) == "1"@ || text::trim_v(value) == "true"@
            || text::trim_v(value) == "yes"@ || text::trim_v(value) == "on"@,
{
}

/// A package is signed where the key signed its version, its digest and its size, a line each,
/// and none of them is missing.
pub proof fn a_package_signature_covers_its_fields(
    key: Seq<char>,
    version: Seq<char>,
    sha256_hex: Seq<char>,
    size: nat,
    sig: Seq<char>,
)
    ensures
        package_ok(key, version, sha256_hex, size, sig) <==> version.len() > 0 && sha256_hex.len()
            > 0 && size > 0 && sig.len() > 0 && key.len() > 0 && crypto::recovered(key, sig, 4096)
            == Some(
            vstd::utf8::encode_utf8(
                "CONSOLE-PKG\n"@ + version + "\n"@ + sha256_hex + "\n"@ + num::dec(size),
            ),
        ),
{
}

/// A device signs its place in the network where it has an id and one of the five texts that say
/// where it is, and signs all of them, a line each.
pub proof fn a_place_in_the_network_is_signed(v: JsonV)
    ensures
        sysinfo_signable(v) <==> v.member_or_empty("id"@).len() > 0 && !(v.member_or_empty(
            "domain"@,
        ).len() == 0 && v.member_or_empty("domain_netbios"@).len() == 0 && v.member_or_empty(
            "ou"@,
        ).len() == 0 && v.member_or_empty("workgroup"@).len() == 0 && v.member_or_empty(
            "dns_suffix"@,
        ).len() == 0),
        sysinfo_message(v) == "SYSINFO\n"@ + v.member_or_empty("id"@) + "\n"@ + v.member_or_empty(
            "domain"@,
        ) + "\n"@ + v.member_or_empty("domain_netbios"@) + "\n"@ + v.member_or_empty("ou"@) + "\n"@
            + v.member_or_empty("workgroup"@) + "\n"@ + v.member_or_empty("dns_suffix"@),
{
}

/// The stored trust is the anchor and the key that its text names, where it names both.
pub proof fn a_stored_trust_is_read_back(t: Seq<char>, v: JsonV, anchor: Seq<char>, key: Seq<char>)
    requires
        json::parsed(t) == Some(v),
    ensures
        v.member("anchor"@) == Some(JsonV::Str(anchor)) && v.member("trusted"@) == Some(
            JsonV::Str(key),
        ) ==> stored_trust(t) == Some((anchor, key)),
        v.member("anchor"@) is None || v.member("trusted"@) is None ==> stored_trust(t) is None,
{
}

} // verus!
