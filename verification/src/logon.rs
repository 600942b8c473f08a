//! What the console hands to a client that it launches: a token and an address with which the
//! client asks for a signature, and a password.
use vstd::prelude::*;

use crate::connection;
use crate::crypto;
use crate::json;
use crate::text;
use crate::connection::logon_text;
use crate::crypto::{b64_decode, sha256, sign_attached};
use crate::json::{from_text, to_text, Json, JsonV};
use crate::text::{cat, cut_at, same, trim, trim_end_char};

verus! {

/// What the console handed over.
pub struct HandOff {
    pub token: String,
    pub url: String,
    pub password: String,
}

/// The model of a [`HandOff`].
pub struct HandOffV {
    pub token: Seq<char>,
    pub url: Seq<char>,
    pub password: Seq<char>,
}

impl View for HandOff {
    type V = HandOffV;

    open spec fn view(&self) -> HandOffV {
        HandOffV { token: self.token@, url: self.url@, password: self.password@ }
    }
}

/// The device of an id: what stands before an `@`.
pub open spec fn bare(id: Seq<char>) -> Seq<char> {
    text::cut_v(id, '@').0
}

/// The device of an id.
pub fn bare_id(id: &str) -> (r: String)
    ensures
        r@ == bare(id@),
{
    cut_at(id, '@').0
}

/// The process was launched for a device: an argument names it.
pub open spec fn launched(args: Seq<Seq<char>>, id: Seq<char>) -> bool {
    args.contains(bare(id))
}

/// Whether the process was launched for a device. `args` are its arguments without its own name.
pub fn launched_for(args: &Vec<String>, id: &str) -> (r: bool)
    ensures
        r == launched(text::texts(args@), id@),
{
    let device = bare_id(id);
    let ghost all = text::texts(args@);
    let mut i: usize = 0;
    while i < args.len()
        invariant
            i <= args@.len(),
            all == text::texts(args@),
            device@ == bare(id@),
            forall|k: int| 0 <= k < i ==> #[trigger] all[k] != device@,
        decreases args@.len() - i,
    {
        assert(all[i as int] == args@[i as int]@);
        if same(args[i].as_str(), device.as_str()) {
            assert(all.contains(device@));
            return true;
        }
        i = i + 1;
    }
    assert(!all.contains(device@)) by {
        if all.contains(device@) {
            let k = choose|k: int| 0 <= k < all.len() && all[k] == device@;
            assert(all[k] != device@);
        }
    }
    false
}

/// The environment's password, for the device that the process was launched for only.
pub fn env_password(args: &Vec<String>, id: &str, password: &str) -> (r: String)
    ensures
        r@ == (if launched(text::texts(args@), id@) {
            password@
        } else {
            Seq::<char>::empty()
        }),
{
    if launched_for(args, id) {
        password.to_owned()
    } else {
        String::new()
    }
}

/// A file is for a device: it names the device, or none.
pub open spec fn is_for(v: JsonV, id: Seq<char>) -> bool {
    match v.member_text("id"@) {
        Some(f) => f == bare(id),
        None => true,
    }
}

/// A file names a device.
pub open spec fn names(v: Option<JsonV>, id: Seq<char>) -> bool {
    v matches Some(j) && j.member_text("id"@) == Some(bare(id))
}

/// Whether a file is for a device.
pub fn handoff_is_for(v: &Json, id: &str) -> (r: bool)
    ensures
        r == is_for(v@, id@),
{
    match v.get_str("id") {
        Some(f) => same(f, bare_id(id).as_str()),
        None => true,
    }
}

/// What is known after one file.
pub open spec fn after_file(h: HandOffV, file: Option<JsonV>, id: Seq<char>) -> HandOffV {
    match file {
        Some(v) => if h.token.len() == 0 || h.url.len() == 0 {
            HandOffV {
                token: if h.token.len() == 0 {
                    v.member_or_empty("token"@)
                } else {
                    h.token
                },
                url: if h.url.len() == 0 {
                    v.member_or_empty("url"@)
                } else {
                    h.url
                },
                password: if h.password.len() == 0 && is_for(v, id) {
                    v.member_or_empty("password"@)
                } else {
                    h.password
                },
            }
        } else {
            h
        },
        None => h,
    }
}

/// What is known after files, in their order.
pub open spec fn after_files(h: HandOffV, files: Seq<Option<JsonV>>, id: Seq<char>) -> HandOffV
    decreases files.len(),
{
    if files.len() == 0 {
        h
    } else {
        after_file(after_files(h, files.drop_last(), id), files.last(), id)
    }
}

/// The models of files that hold values.
pub open spec fn file_values(files: Seq<Option<Json>>) -> Seq<Option<JsonV>> {
    Seq::new(files.len(), |i: int| json::opt_model(files[i]))
}

/// What the environment hands over.
pub struct Environment {
    pub token: String,
    pub url: String,
    pub password: String,
    /// The arguments of the process, without its own name.
    pub args: Vec<String>,
}

/// What the environment hands over for a device.
pub open spec fn env_handoff(env: Environment, id: Seq<char>) -> HandOffV {
    HandOffV {
        token: env.token@,
        url: env.url@,
        password: if launched(text::texts(env.args@), id) {
            env.password@
        } else {
            seq![]
        },
    }
}

/// The token and the address are there.
pub open spec fn complete(h: HandOffV) -> bool {
    h.token.len() > 0 && h.url.len() > 0
}

/// What the console handed over: by the environment, and where that is not complete by files.
pub open spec fn resolved(env: Environment, files: Seq<Option<JsonV>>, id: Seq<char>) -> HandOffV {
    let h = env_handoff(env, id);
    if complete(h) {
        h
    } else {
        after_files(h, files, id)
    }
}

/// A file is removed: every file where they were read, and where the environment was enough and
/// the process was launched for the device those that name it.
pub open spec fn is_removed(env: Environment, file: Option<JsonV>, id: Seq<char>) -> bool {
    if complete(env_handoff(env, id)) {
        launched(text::texts(env.args@), id) && names(file, id)
    } else {
        true
    }
}

/// What was found, and which files are to be removed.
pub struct Resolved {
    pub handoff: HandOff,
    /// For each file, whether it is to be removed.
    pub remove: Vec<bool>,
    /// Where the token and the address come from.
    pub source: String,
    /// Where the password comes from.
    pub password_source: String,
}

/// Where the token and the address come from.
pub open spec fn source_of(env: Environment, files: Seq<Option<JsonV>>, id: Seq<char>) -> Seq<char> {
    if complete(env_handoff(env, id)) {
        "env"@
    } else if complete(resolved(env, files, id)) {
        "file"@
    } else {
        "none"@
    }
}

/// Where the password comes from.
pub open spec fn password_source_of(
    env: Environment,
    files: Seq<Option<JsonV>>,
    id: Seq<char>,
) -> Seq<char> {
    if env_handoff(env, id).password.len() > 0 {
        "env"@
    } else if resolved(env, files, id).password.len() > 0 {
        "file"@
    } else {
        "none"@
    }
}

fn take_file(h: &mut HandOff, file: &Option<Json>, id: &str)
    ensures
        final(h)@ == after_file(old(h)@, json::opt_model(*file), id@),
{
    if let Some(v) = file {
        if h.token.as_str().is_empty() || h.url.as_str().is_empty() {
            if h.token.as_str().is_empty() {
                h.token = v.get_str_or_empty("token");
            }
            if h.url.as_str().is_empty() {
                h.url = v.get_str_or_empty("url");
            }
            if h.password.as_str().is_empty() && handoff_is_for(v, id) {
                h.password = v.get_str_or_empty("password");
            }
        }
    }
}

proof fn lemma_password_kept(h: HandOffV, files: Seq<Option<JsonV>>, id: Seq<char>)
    requires
        h.password.len() > 0,
    ensures
        after_files(h, files, id).password == h.password,
    decreases files.len(),
{
    if files.len() > 0 {
        lemma_password_kept(h, files.drop_last(), id);
    }
}

/// Finds what the console handed over. `files` are the values that the files hold, where they
/// can be read, in the order in which they are tried.
pub fn resolve_handoff(env: &Environment, files: &Vec<Option<Json>>, id: &str) -> (r: Resolved)
    ensures
        r.handoff@ == resolved(*env, file_values(files@), id@),
        r.remove@.len() == files@.len(),
        forall|i: int|
            0 <= i < files@.len() ==> (#[trigger] r.remove@[i]) == is_removed(
                *env,
                json::opt_model(files@[i]),
                id@,
            ),
        r.source@ == source_of(*env, file_values(files@), id@),
        r.password_source@ == password_source_of(*env, file_values(files@), id@),
{
    let ghost all = file_values(files@);
    let for_this = launched_for(&env.args, id);
    let password = env_password(&env.args, id, env.password.as_str());
    assert(password@.len() == 0 ==> password@ =~= seq![]);
    let from_env = !env.token.as_str().is_empty() && !env.url.as_str().is_empty();
    let password_from_env = !password.as_str().is_empty();
    let mut h = HandOff { token: env.token.clone(), url: env.url.clone(), password };
    let ghost first = h@;
    assert(first == env_handoff(*env, id@));
    let device = bare_id(id);
    let mut remove: Vec<bool> = Vec::new();
    let mut i: usize = 0;
    assert(all.take(0) =~= Seq::<Option<JsonV>>::empty());
    while i < files.len()
        invariant
            i <= files@.len(),
            all == file_values(files@),
            device@ == bare(id@),
            first == env_handoff(*env, id@),
            from_env == complete(first),
            for_this == launched(text::texts(env.args@), id@),
            h@ == (if from_env {
                first
            } else {
                after_files(first, all.take(i as int), id@)
            }),
            remove@.len() == i,
            forall|k: int|
                0 <= k < i ==> (#[trigger] remove@[k]) == is_removed(
                    *env,
                    json::opt_model(files@[k]),
                    id@,
                ),
        decreases files@.len() - i,
    {
        assert(all.take(i + 1).drop_last() == all.take(i as int));
        assert(all.take(i + 1).last() == json::opt_model(files@[i as int]));
        if from_env {
            let mine = match &files[i] {
                Some(v) => match v.get_str("id") {
                    Some(f) => same(f, device.as_str()),
                    None => false,
                },
                None => false,
            };
            remove.push(for_this && mine);
        } else {
            take_file(&mut h, &files[i], id);
            remove.push(true);
        }
        i = i + 1;
    }
    assert(all.take(i as int) == all);
    proof {
        if first.password.len() > 0 {
            lemma_password_kept(first, all, id@);
        }
    }
    let whole = !h.token.as_str().is_empty() && !h.url.as_str().is_empty();
    let source = if from_env {
        "env"
    } else if whole {
        "file"
    } else {
        "none"
    };
    let password_source = if password_from_env {
        "env"
    } else if !h.password.as_str().is_empty() {
        "file"
    } else {
        "none"
    };
    Resolved {
        handoff: h,
        remove,
        source: source.to_owned(),
        password_source: password_source.to_owned(),
    }
}

/// Reads the files that the console writes. One that cannot be read, or holds no JSON, says
/// nothing.
pub fn read_files(raw: &Vec<Option<String>>) -> (r: Vec<Option<Json>>)
    ensures
        file_values(r@) == Seq::new(
            raw@.len(),
            |i: int|
                match text::opt_text(raw@[i]) {
                    Some(t) => json::parsed(t),
                    None => None,
                },
        ),
{
    let mut out: Vec<Option<Json>> = Vec::new();
    let mut i: usize = 0;
    while i < raw.len()
        invariant
            i <= raw@.len(),
            out@.len() == i,
            forall|k: int|
                0 <= k < i ==> json::opt_model(#[trigger] out@[k]) == (match text::opt_text(raw@[k]) {
                    Some(t) => json::parsed(t),
                    None => None,
                }),
        decreases raw@.len() - i,
    {
        let v = match &raw[i] {
            Some(t) => from_text(t.as_str()),
            None => None,
        };
        out.push(v);
        i = i + 1;
    }
    assert(file_values(out@) =~= Seq::new(
        raw@.len(),
        |i: int|
            match text::opt_text(raw@[i]) {
                Some(t) => json::parsed(t),
                None => None,
            },
    ));
    out
}

/// A hand-off is used once: where files were read for it, none of them is left.
pub proof fn read_files_are_removed(env: Environment, file: Option<JsonV>, id: Seq<char>)
    requires
        !complete(env_handoff(env, id)),
    ensures
        is_removed(env, file, id),
{
}

/// The password that is handed over is for this device: the environment's where the process was
/// launched for it, and otherwise that of a file that names it or no device.
pub proof fn a_password_is_for_its_device(
    env: Environment,
    files: Seq<Option<JsonV>>,
    id: Seq<char>,
)
    requires
        resolved(env, files, id).password.len() > 0,
    ensures
        (launched(text::texts(env.args@), id) && resolved(env, files, id).password == env.password@)
            || exists|i: int|
            0 <= i < files.len() && (#[trigger] files[i]) is Some && is_for(files[i]->0, id)
                && resolved(env, files, id).password == files[i]->0.member_or_empty("password"@),
{
    let h = env_handoff(env, id);
    if !complete(h) {
        lemma_password_source(h, files, id);
    }
}

proof fn lemma_password_source(h: HandOffV, files: Seq<Option<JsonV>>, id: Seq<char>)
    requires
        after_files(h, files, id).password.len() > 0,
    ensures
        (h.password.len() > 0 && after_files(h, files, id).password == h.password) || exists|i: int|
            0 <= i < files.len() && (#[trigger] files[i]) is Some && is_for(files[i]->0, id)
                && after_files(h, files, id).password == files[i]->0.member_or_empty("password"@),
    decreases files.len(),
{
    if files.len() > 0 {
        let t = files.drop_last();
        let before = after_files(h, t, id);
        let f = files.last();
        assert(files[files.len() - 1] == f);
        if before.password.len() > 0 {
            lemma_password_source(h, t, id);
            if !(h.password.len() > 0 && before.password == h.password) {
                let i = choose|i: int|
                    0 <= i < t.len() && (#[trigger] t[i]) is Some && is_for(t[i]->0, id)
                        && before.password == t[i]->0.member_or_empty("password"@);
                assert(files[i] == t[i]);
            }
        }
    }
}

/// The digest that stands for a password with its salt; empty for no password.
pub fn password_digest(password: &str, salt: &str) -> (r: Vec<u8>)
    ensures
        r@ == (if password@.len() == 0 {
            Seq::<u8>::empty()
        } else {
            crypto::sha256_digest(vstd::utf8::encode_utf8(password@) + vstd::utf8::encode_utf8(salt@))
        }),
{
    if password.is_empty() {
        return Vec::new();
    }
    let mut data: Vec<u8> = Vec::new();
    data.extend_from_slice(password.as_bytes());
    data.extend_from_slice(salt.as_bytes());
    assert(data@ =~= vstd::utf8::encode_utf8(password@) + vstd::utf8::encode_utf8(salt@));
    sha256(data.as_slice())
}

/// What a client keeps of a hand-off, and the digest of its password.
pub struct Preset {
    /// The token and the address that are kept from now on.
    pub token: String,
    pub url: String,
    pub digest: Vec<u8>,
    /// For each file, whether it is to be removed.
    pub remove: Vec<bool>,
}

/// The hand-off that a logon uses: the kept one with the environment's password, or a new one.
pub open spec fn preset_handoff(
    env: Environment,
    files: Seq<Option<JsonV>>,
    id: Seq<char>,
    token: Seq<char>,
    url: Seq<char>,
) -> HandOffV {
    if token.len() == 0 || url.len() == 0 {
        resolved(env, files, id)
    } else {
        HandOffV { token, url, password: env_handoff(env, id).password }
    }
}

/// The password digest of a logon, and what is kept for later ones. `token` and `url` are what
/// was kept before; where they are complete, no file is touched.
pub fn preset_password(
    env: &Environment,
    files: &Vec<Option<Json>>,
    id: &str,
    token: &str,
    url: &str,
    salt: &str,
) -> (r: Preset)
    ensures
        ({
            let h = preset_handoff(*env, file_values(files@), id@, token@, url@);
            &&& r.token@ == (if complete(h) {
                h.token
            } else {
                token@
            })
            &&& r.url@ == (if complete(h) {
                h.url
            } else {
                url@
            })
            &&& r.digest@ == (if h.password.len() == 0 {
                Seq::<u8>::empty()
            } else {
                crypto::sha256_digest(vstd::utf8::encode_utf8(h.password) + vstd::utf8::encode_utf8(salt@))
            })
        }),
        r.remove@.len() == files@.len(),
        forall|i: int|
            0 <= i < files@.len() ==> (#[trigger] r.remove@[i]) == ((token@.len() == 0
                || url@.len() == 0) && is_removed(*env, json::opt_model(files@[i]), id@)),
{
    if token.is_empty() || url.is_empty() {
        let found = resolve_handoff(env, files, id);
        let digest = password_digest(found.handoff.password.as_str(), salt);
        if found.handoff.token.as_str().is_empty() || found.handoff.url.as_str().is_empty() {
            Preset {
                token: token.to_owned(),
                url: url.to_owned(),
                digest,
                remove: found.remove,
            }
        } else {
            Preset {
                token: found.handoff.token,
                url: found.handoff.url,
                digest,
                remove: found.remove,
            }
        }
    } else {
        let password = env_password(&env.args, id, env.password.as_str());
        let digest = password_digest(password.as_str(), salt);
        let mut remove: Vec<bool> = Vec::new();
        let mut i: usize = 0;
        while i < files.len()
            invariant
                i <= files@.len(),
                remove@.len() == i,
                forall|k: int| 0 <= k < i ==> !(#[trigger] remove@[k]),
            decreases files@.len() - i,
        {
            remove.push(false);
            i = i + 1;
        }
        Preset { token: token.to_owned(), url: url.to_owned(), digest, remove }
    }
}

/// Where the console leaves its files: under the directory of all users' data, where it is
/// known, and under the one for temporary files.
pub open spec fn candidates_v(program_data: Option<Seq<char>>, temp: Seq<char>) -> Seq<
    Seq<Seq<char>>,
> {
    let last = seq![temp, "sulltec-console-logon.json"@];
    match program_data {
        Some(base) => seq![seq![base, "SullTecRemote"@, "console-logon.json"@], last],
        None => seq![last],
    }
}

/// The parts of the paths at which the console leaves its files.
pub fn handoff_candidates(program_data: Option<&str>, temp: &str) -> (r: Vec<Vec<String>>)
    ensures
        Seq::new(r@.len(), |i: int| text::texts(r@[i]@)) == candidates_v(text::opt_str(program_data), temp@),
{
    let mut out: Vec<Vec<String>> = Vec::new();
    if let Some(base) = program_data {
        let mut p: Vec<String> = Vec::new();
        p.push(base.to_owned());
        p.push("SullTecRemote".to_owned());
        p.push("console-logon.json".to_owned());
        assert(text::texts(p@) =~= seq![base@, "SullTecRemote"@, "console-logon.json"@]);
        out.push(p);
    }
    let mut q: Vec<String> = Vec::new();
    q.push(temp.to_owned());
    q.push("sulltec-console-logon.json".to_owned());
    assert(text::texts(q@) =~= seq![temp@, "sulltec-console-logon.json"@]);
    out.push(q);
    assert(Seq::new(out@.len(), |i: int| text::texts(out@[i]@)) =~= candidates_v(
        text::opt_str(program_data),
        temp@,
    ));
    out
}

/// The signature that a client makes itself, with a key of its own: nothing without a key, or
/// with one that is no secret key.
pub open spec fn local_signature(key: Option<Seq<char>>, id: Seq<char>, challenge: Seq<char>) -> Option<
    Seq<u8>,
> {
    match key {
        Some(k) => match crypto::b64_decoded(text::trim_v(k)) {
            Some(sk) => if sk.len() == 64 {
                let msg = vstd::utf8::encode_utf8(connection::logon_message(id, challenge));
                Some(crypto::ed25519_signature(msg, sk) + msg)
            } else {
                None
            },
            None => None,
        },
        None => None,
    }
}

/// Signs a logon under the bytes of a key; nothing where they are no secret key.
pub fn sign_logon(sk: &Option<Vec<u8>>, id: &str, challenge: &str) -> (r: Option<Vec<u8>>)
    ensures
        text::opt_bytes(r) == (match text::opt_bytes(*sk) {
            Some(k) => if k.len() == 64 {
                let msg = vstd::utf8::encode_utf8(connection::logon_message(id@, challenge@));
                Some(crypto::ed25519_signature(msg, k) + msg)
            } else {
                None
            },
            None => None,
        }),
{
    match sk {
        Some(k) => {
            if k.len() != 64 {
                return None;
            }
            Some(sign_attached(logon_text(id, challenge).as_str().as_bytes(), k.as_slice()))
        },
        None => None,
    }
}

/// Signs a logon with a key of the client's own.
pub fn sign_locally(key: Option<&str>, id: &str, challenge: &str) -> (r: Option<Vec<u8>>)
    ensures
        text::opt_bytes(r) == local_signature(text::opt_str(key), id@, challenge@),
{
    let sk = match key {
        Some(k) => b64_decode(trim(k).as_str()),
        None => None,
    };
    sign_logon(&sk, id, challenge)
}

/// The request for the console's signature.
pub struct GrantRequest {
    pub url: String,
    pub body: String,
    pub header: String,
}

/// The request for the console's signature over a challenge.
pub fn grant_request(console_url: &str, token: &str, id: &str, challenge: &str) -> (r: GrantRequest)
    ensures
        r.url@ == text::trim_end_char_v(console_url@, '/') + "/api/devices/key/"@ + id@
            + "/common/logon/issue"@,
        r.body@ == json::compact(JsonV::empty().with("challenge"@, JsonV::Str(challenge@))),
        r.header@ == "Authorization: Bearer "@ + token@,
{
    let body = Json::object().with("challenge", Json::text(challenge));
    GrantRequest {
        url: trim_end_char(console_url, '/').concat("/api/devices/key/").concat(id).concat(
            "/common/logon/issue",
        ),
        body: to_text(&body),
        header: cat("Authorization: Bearer ", token),
    }
}

/// The text of the signature that a reply carries.
pub open spec fn grant_text(reply: Option<JsonV>) -> Option<Seq<char>> {
    match reply {
        Some(v) => match v.member_text("sig"@) {
            Some(s) => Some(text::trim_v(s)),
            None => None,
        },
        None => None,
    }
}

/// The text of the signature that a reply carries.
pub fn read_grant(reply: &Option<Json>) -> (r: Option<String>)
    ensures
        text::opt_text(r) == grant_text(json::opt_model(*reply)),
{
    match reply {
        Some(v) => match v.get_str("sig") {
            Some(s) => Some(trim(s)),
            None => None,
        },
        None => None,
    }
}

/// The signature that the console's reply carries; empty where it carries none.
pub fn fetch_logon_grant(reply: Option<&str>) -> (r: Vec<u8>)
    ensures
        r@ == (match grant_text(
            match text::opt_str(reply) {
                Some(t) => json::parsed(t),
                None => None,
            },
        ) {
            Some(s) => match crypto::b64_decoded(s) {
                Some(b) => b,
                None => seq![],
            },
            None => seq![],
        }),
{
    let v = match reply {
        Some(t) => from_text(t),
        None => None,
    };
    match read_grant(&v) {
        Some(s) => match b64_decode(s.as_str()) {
            Some(b) => b,
            None => Vec::new(),
        },
        None => Vec::new(),
    }
}

/// How the console is asked for a signature.
pub struct GrantPlan {
    /// What to ask, where everything is there.
    pub request: Option<GrantRequest>,
    /// The token and the address that are kept from now on; empty where nothing new is kept.
    pub token: String,
    pub url: String,
}

/// Whether a new hand-off has to be looked for.
pub fn needs_handoff(token: &str, url: &str) -> (r: bool)
    ensures
        r == (token@.len() == 0 || url@.len() == 0),
{
    token.is_empty() || url.is_empty()
}

/// How the console is asked for a signature. `found` is the hand-off that was looked for, where
/// what was kept is not complete.
pub fn fetch_grant(id: &str, challenge: &str, token: &str, url: &str, found: &HandOff) -> (r: GrantPlan)
    ensures
        ({
            let fresh = token@.len() == 0 || url@.len() == 0;
            let t = if fresh {
                found.token@
            } else {
                token@
            };
            let u = if fresh {
                found.url@
            } else {
                url@
            };
            let keep = fresh && t.len() > 0 && u.len() > 0;
            &&& keep ==> r.token@ == t && r.url@ == u
            &&& !keep ==> r.token@.len() == 0 && r.url@.len() == 0
            &&& r.request is Some == (t.len() > 0 && u.len() > 0 && id@.len() > 0
                && challenge@.len() > 0)
            &&& r.request matches Some(q) ==> q.url@ == text::trim_end_char_v(u, '/')
                + "/api/devices/key/"@ + id@ + "/common/logon/issue"@ && q.body@ == json::compact(
                JsonV::empty().with("challenge"@, JsonV::Str(challenge@)),
            ) && q.header@ == "Authorization: Bearer "@ + t
        }),
{
    let fresh = needs_handoff(token, url);
    let t = if fresh {
        found.token.as_str()
    } else {
        token
    };
    let u = if fresh {
        found.url.as_str()
    } else {
        url
    };
    let keep = fresh && !t.is_empty() && !u.is_empty();
    let request = if t.is_empty() || u.is_empty() || id.is_empty() || challenge.is_empty() {
        None
    } else {
        Some(grant_request(u, t, id, challenge))
    };
    if keep {
        GrantPlan { request, token: t.to_owned(), url: u.to_owned() }
    } else {
        GrantPlan { request, token: String::new(), url: String::new() }
    }
}

/// A device's bare id is what stands before the server's name.
pub proof fn an_id_is_cut_before_its_server(id: Seq<char>, server: Seq<char>)
    requires
        !id.contains('@'),
    ensures
        bare(id + seq!['@'] + server) == id,
        bare(id) == id,
{
    crate::text::a_text_is_cut_at_the_first_separator(id, '@', server);
}

/// A hand-off is for a device that it names, or for any where it names none.
pub proof fn a_handoff_names_its_device(v: JsonV, named: Seq<char>, id: Seq<char>, server: Seq<char>)
    requires
        !id.contains('@'),
    ensures
        v.member("id"@) == Some(JsonV::Str(named)) ==> (is_for(v, id + seq!['@'] + server) <==> named
            == id),
        v.member("id"@) is None ==> is_for(v, id),
        names(Some(v), id) <==> v.member("id"@) == Some(JsonV::Str(id)),
        !names(None, id),
{
    an_id_is_cut_before_its_server(id, server);
}

/// The token and the address come from the environment where both are there; what it lacks comes
/// from the first file that has it, and a file behind a whole hand-off changes nothing.
pub proof fn a_handoff_is_completed_from_its_files(
    h: HandOffV,
    a: Seq<Option<JsonV>>,
    b: Seq<Option<JsonV>>,
    id: Seq<char>,
)
    ensures
        after_files(h, a, id).token.len() > 0 && after_files(h, a, id).url.len() > 0 ==> after_files(
            h,
            a + b,
            id,
        ) == after_files(h, a, id),
        after_files(h, a, id).token.len() > 0 ==> after_files(h, a + b, id).token == after_files(
            h,
            a,
            id,
        ).token,
        after_files(h, a, id).url.len() > 0 ==> after_files(h, a + b, id).url == after_files(
            h,
            a,
            id,
        ).url,
        after_files(h, a, id).password.len() > 0 ==> after_files(h, a + b, id).password
            == after_files(h, a, id).password,
    decreases b.len(),
{
    if b.len() == 0 {
        assert(a + b =~= a);
    } else {
        let t = b.drop_last();
        a_handoff_is_completed_from_its_files(h, a, t, id);
        assert((a + b).drop_last() =~= a + t);
        assert((a + b).last() == b.last());
    }
}

/// What a file adds to a hand-off that lacks something.
pub proof fn a_file_fills_what_is_missing(
    h: HandOffV,
    v: JsonV,
    token: Seq<char>,
    url: Seq<char>,
    password: Seq<char>,
    id: Seq<char>,
)
    requires
        v.member("token"@) == Some(JsonV::Str(token)),
        v.member("url"@) == Some(JsonV::Str(url)),
        v.member("password"@) == Some(JsonV::Str(password)),
        h.token.len() == 0 || h.url.len() == 0,
    ensures
        ({
            let r = after_files(h, seq![Some(v)], id);
            &&& h.token.len() == 0 ==> r.token == token
            &&& h.token.len() > 0 ==> r.token == h.token
            &&& h.url.len() == 0 ==> r.url == url
            &&& h.url.len() > 0 ==> r.url == h.url
            &&& h.password.len() == 0 && is_for(v, id) ==> r.password == password
            &&& h.password.len() > 0 || !is_for(v, id) ==> r.password == h.password
        }),
        after_files(h, seq![None], id) == h,
{
    let none = Seq::<Option<JsonV>>::empty();
    assert(seq![Some(v)].drop_last() =~= none);
    assert(seq![None::<JsonV>].drop_last() =~= none);
    assert(after_files(h, none, id) == h);
}

/// Where the hand-off comes from, and which files are removed after it.
pub proof fn a_handoff_says_where_it_comes_from(
    env: Environment,
    files: Seq<Option<JsonV>>,
    file: Option<JsonV>,
    id: Seq<char>,
)
    ensures
        ({
            let whole = env.token@.len() > 0 && env.url@.len() > 0;
            let ours = text::texts(env.args@).contains(bare(id));
            &&& whole ==> resolved(env, files, id).token == env.token@ && resolved(
                env,
                files,
                id,
            ).url == env.url@ && source_of(env, files, id) == "env"@
            &&& whole && ours ==> resolved(env, files, id).password == env.password@
            &&& whole && !ours ==> resolved(env, files, id).password.len() == 0
            &&& !whole ==> (source_of(env, files, id) == "file"@ <==> resolved(
                env,
                files,
                id,
            ).token.len() > 0 && resolved(env, files, id).url.len() > 0)
            &&& !whole ==> (source_of(env, files, id) == "none"@ <==> resolved(
                env,
                files,
                id,
            ).token.len() == 0 || resolved(env, files, id).url.len() == 0)
            &&& whole ==> (is_removed(env, file, id) <==> ours && names(file, id))
            &&& !whole ==> is_removed(env, file, id)
            &&& ours && env.password@.len() > 0 ==> password_source_of(env, files, id) == "env"@
            &&& !(ours && env.password@.len() > 0) && resolved(env, files, id).password.len() > 0
                ==> password_source_of(env, files, id) == "file"@
            &&& resolved(env, files, id).password.len() == 0 && !(ours && env.password@.len() > 0)
                ==> password_source_of(env, files, id) == "none"@
        }),
{
    reveal_strlit("env");
    reveal_strlit("file");
    reveal_strlit("none");
    assert("env"@.len() == 3);
    assert("file"@.len() == 4);
    assert("none"@.len() == 4);
    assert("file"@[0] == 'f');
    assert("none"@[0] == 'n');
}

/// A key of sixty-four bytes signs the logon message of the device and the challenge; any other
/// signs nothing.
pub proof fn a_local_key_signs_the_challenge(
    key: Seq<char>,
    sk: Seq<u8>,
    id: Seq<char>,
    challenge: Seq<char>,
)
    requires
        crypto::b64_decoded(text::trim_v(key)) == Some(sk),
    ensures
        ({
            let msg = vstd::utf8::encode_utf8("CONSOLE-LOGON\n"@ + id + "\n"@ + challenge);
            &&& sk.len() == 64 ==> local_signature(Some(key), id, challenge) is Some
                && local_signature(Some(key), id, challenge)->0 == crypto::ed25519_signature(msg, sk)
                + msg
            &&& sk.len() != 64 ==> local_signature(Some(key), id, challenge) is None
        }),
        local_signature(None, id, challenge) is None,
{
}

/// A hand-off file is looked for in the program data first, and then among the temporary files.
pub proof fn files_are_looked_for_in_two_places(base: Seq<char>, temp: Seq<char>)
    ensures
        candidates_v(Some(base), temp).len() == 2,
        candidates_v(Some(base), temp)[0] == seq![base, "SullTecRemote"@, "console-logon.json"@],
        candidates_v(Some(base), temp)[1] == seq![temp, "sulltec-console-logon.json"@],
        candidates_v(None, temp) == seq![candidates_v(Some(base), temp)[1]],
{
}

/// A grant is the trimmed signature of the reply.
pub proof fn a_grant_is_the_signature(v: JsonV, sig: Seq<char>)
    ensures
        v.member("sig"@) == Some(JsonV::Str(sig)) ==> grant_text(Some(v)) == Some(text::trim_v(sig)),
        v.member("sig"@) is None ==> grant_text(Some(v)) is None,
        grant_text(None) is None,
{
}

/// A token and an address that are kept are used as they are, with the password of the
/// environment; without one of them the hand-off is looked for.
pub proof fn a_kept_handoff_is_used(
    env: Environment,
    files: Seq<Option<JsonV>>,
    id: Seq<char>,
    token: Seq<char>,
    url: Seq<char>,
)
    ensures
        ({
            let h = preset_handoff(env, files, id, token, url);
            &&& token.len() > 0 && url.len() > 0 ==> h.token == token && h.url == url
            &&& token.len() > 0 && url.len() > 0 && text::texts(env.args@).contains(bare(id))
                ==> h.password == env.password@
            &&& token.len() > 0 && url.len() > 0 && !text::texts(env.args@).contains(bare(id))
                ==> h.password.len() == 0
            &&& token.len() == 0 || url.len() == 0 ==> h == resolved(env, files, id)
        }),
{
}

} // verus!
