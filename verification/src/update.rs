//! Updates that the console drives: which version is newer, where a package comes from, how it
//! is fetched, and whether it may run.
use vstd::prelude::*;

use crate::crypto;
use crate::num;
use crate::text;
use crate::trust;
use crate::crypto::sha256;
use crate::num::{dec_u64, parse_clamped_u16, parse_u64, to_hex};
use crate::text::{
    cat, cat3, cut_at, eq_ignore_case, has_char, less, same, split, starts_with, to_ascii_lower,
    trim_end_char,
};
use crate::trust::verify_package;

verus! {

/// Whether a forced check is running.
pub struct UpdateGate {
    in_flight: bool,
}

impl View for UpdateGate {
    type V = bool;

    closed spec fn view(&self) -> bool {
        self.in_flight
    }
}

impl UpdateGate {
    /// No check is running.
    pub fn new() -> (r: UpdateGate)
        ensures
            !r@,
    {
        UpdateGate { in_flight: false }
    }

    /// The check has ended.
    pub fn finished(&mut self)
        ensures
            !final(self)@,
    {
        self.in_flight = false;
    }
}

/// Says whether a check is to be started at once; while one is running, another is not.
pub fn force_check_update_now(gate: &mut UpdateGate) -> (start: bool)
    ensures
        start == !old(gate)@,
        final(gate)@,
{
    let start = !gate.in_flight;
    gate.in_flight = true;
    start
}

/// What orders two versions: the number of the core, the build, and its date and time.
pub struct VersionKey {
    pub core: i64,
    pub build: u64,
    pub datetime: String,
}

/// The model of a [`VersionKey`].
pub struct KeyV {
    pub core: int,
    pub build: nat,
    pub datetime: Seq<char>,
}

impl View for VersionKey {
    type V = KeyV;

    open spec fn view(&self) -> KeyV {
        KeyV { core: self.core as int, build: self.build as nat, datetime: self.datetime@ }
    }
}

/// The part of a version before its build metadata.
pub fn version_core(v: &str) -> (r: String)
    ensures
        r@ == text::cut_v(v@, '+').0,
{
    cut_at(v, '+').0
}

/// The segments of a version's build metadata: build, date and time, commit.
pub open spec fn metadata(v: Seq<char>) -> Seq<Seq<char>> {
    text::split_v(
        match text::cut_v(v, '+').1 {
            Some(m) => m,
            None => seq![],
        },
        '.',
    )
}

/// What orders a version whose core has this number.
pub open spec fn key_of(v: Seq<char>, core: int) -> KeyV {
    let seg = metadata(v);
    KeyV {
        core,
        build: match num::parse_uint(seg[0], u64::MAX as nat) {
            Some(n) => n,
            None => 0,
        },
        datetime: if seg.len() > 1 {
            seg[1]
        } else {
            seq![]
        },
    }
}

proof fn lemma_split_not_empty(s: Seq<char>, c: char)
    ensures
        text::split_v(s, c).len() > 0,
{
}

fn metadata_of(v: &str) -> (r: Vec<String>)
    ensures
        text::texts(r@) == metadata(v@),
        r@.len() > 0,
{
    let meta = match cut_at(v, '+').1 {
        Some(m) => m,
        None => String::new(),
    };
    assert(meta@.len() == 0 ==> meta@ =~= seq![]);
    proof {
        lemma_split_not_empty(meta@, '.');
    }
    let seg = split(meta.as_str(), '.');
    assert(text::texts(seg@).len() == seg@.len());
    seg
}

/// What orders a version. `core` is the number of its [`version_core`].
pub fn version_key(v: &str, core: i64) -> (r: VersionKey)
    ensures
        r@ == key_of(v@, core as int),
{
    let seg = metadata_of(v);
    assert(text::texts(seg@)[0] == seg@[0]@);
    let build: u64 = match parse_u64(seg[0].as_str()) {
        Some(n) => n,
        None => 0,
    };
    let datetime = if seg.len() > 1 {
        assert(text::texts(seg@)[1] == seg@[1]@);
        seg[1].clone()
    } else {
        String::new()
    };
    assert(seg@.len() <= 1 ==> datetime@ =~= seq![]);
    VersionKey { core, build, datetime }
}

/// One version is later than another.
pub open spec fn later(a: KeyV, b: KeyV) -> bool {
    a.core > b.core || (a.core == b.core && (a.build > b.build || (a.build == b.build && text::before(
        b.datetime,
        a.datetime,
    ))))
}

/// Whether one version is later than another.
pub fn is_later(a: &VersionKey, b: &VersionKey) -> (r: bool)
    ensures
        r == later(a@, b@),
{
    if a.core != b.core {
        return a.core > b.core;
    }
    if a.build != b.build {
        return a.build > b.build;
    }
    less(b.datetime.as_str(), a.datetime.as_str())
}

/// Versions are in a strict order: none is later than itself, of two different ones exactly one
/// is later, and what is later than a later one is later.
pub proof fn versions_are_ordered(a: KeyV, b: KeyV, c: KeyV)
    ensures
        !later(a, a),
        a != b ==> (later(a, b) <==> !later(b, a)),
        later(a, b) && later(b, c) ==> later(a, c),
{
    crate::text::lemma_before_total(a.datetime, a.datetime);
    crate::text::lemma_before_total(a.datetime, b.datetime);
    if text::before(c.datetime, b.datetime) && text::before(b.datetime, a.datetime) {
        crate::text::lemma_before_trans(c.datetime, b.datetime, a.datetime);
    }
}

/// The high-water mark after a version was seen: the later of the two.
pub open spec fn advanced(mark: Seq<char>, mark_key: KeyV, token: Seq<char>, token_key: KeyV) -> Seq<
    char,
> {
    if token.len() > 0 && (mark.len() == 0 || later(token_key, mark_key)) {
        token
    } else {
        mark
    }
}

/// Moves the high-water mark up to a version: the new mark where it moves.
pub fn advance_update_hwm(
    mark: &str,
    mark_key: &VersionKey,
    token: &str,
    token_key: &VersionKey,
) -> (r: Option<String>)
    ensures
        match r {
            Some(m) => m@ == token@ && token@.len() > 0 && (mark@.len() == 0 || later(
                token_key@,
                mark_key@,
            )),
            None => token@.len() == 0 || (mark@.len() > 0 && !later(token_key@, mark_key@)),
        },
        advanced(mark@, mark_key@, token@, token_key@) == (match r {
            Some(m) => m@,
            None => mark@,
        }),
{
    if token.is_empty() {
        return None;
    }
    if mark.is_empty() || is_later(token_key, mark_key) {
        return Some(token.to_owned());
    }
    None
}

/// What orders the high-water mark after a version was seen.
pub open spec fn advanced_key(
    mark: Seq<char>,
    mark_key: KeyV,
    token: Seq<char>,
    token_key: KeyV,
) -> KeyV {
    if token.len() > 0 && (mark.len() == 0 || later(token_key, mark_key)) {
        token_key
    } else {
        mark_key
    }
}

/// The high-water mark never goes back, and after a version was seen it is not behind it.
pub proof fn the_mark_never_goes_back(
    mark: Seq<char>,
    mark_key: KeyV,
    token: Seq<char>,
    token_key: KeyV,
)
    ensures
        mark.len() > 0 ==> advanced(mark, mark_key, token, token_key).len() > 0 && !later(
            mark_key,
            advanced_key(mark, mark_key, token, token_key),
        ),
        token.len() > 0 ==> advanced(mark, mark_key, token, token_key).len() > 0 && !later(
            token_key,
            advanced_key(mark, mark_key, token, token_key),
        ),
{
    versions_are_ordered(mark_key, token_key, mark_key);
    versions_are_ordered(token_key, token_key, mark_key);
}

/// Sets the high-water mark, once, to no less than the version that was built in: the new mark
/// where it moves. A build without a version of its own sets none.
pub fn seed_rollback_floor(
    seeded: &mut bool,
    built_in: Option<&str>,
    built_key: &VersionKey,
    mark: &str,
    mark_key: &VersionKey,
) -> (r: Option<String>)
    ensures
        *final(seeded),
        text::opt_text(r) == (match text::opt_str(built_in) {
            Some(v) => if !*old(seeded) && v.len() > 0 && (mark@.len() == 0 || later(
                built_key@,
                mark_key@,
            )) {
                Some(v)
            } else {
                None
            },
            None => None,
        }),
{
    if *seeded {
        return None;
    }
    *seeded = true;
    match built_in {
        Some(v) => advance_update_hwm(mark, mark_key, v, built_key),
        None => None,
    }
}

/// The address of the console's latest version.
pub open spec fn check_url(api: Seq<char>, built_in: Seq<char>) -> Option<Seq<char>> {
    let server = if api.len() == 0 {
        built_in
    } else {
        api
    };
    if server.len() == 0 {
        None
    } else {
        Some(text::trim_end_char_v(server, '/') + "/version/latest"@)
    }
}

/// What is told where there is no console to ask.
pub const NO_API_SERVER: &'static str =
    "no api-server configured and none baked in — cannot check for updates";

/// The address of the console's latest version: of the configured server, or of the one that was
/// built in.
pub fn version_check_url(api: &str, built_in: &str) -> (r: Result<String, String>)
    ensures
        match r {
            Ok(u) => check_url(api@, built_in@) == Some(u@),
            Err(e) => check_url(api@, built_in@) is None && e@ == NO_API_SERVER@,
        },
{
    let server = if api.is_empty() {
        built_in
    } else {
        api
    };
    if server.is_empty() {
        return Err(NO_API_SERVER.to_owned());
    }
    Ok(cat(trim_end_char(server, '/').as_str(), "/version/latest"))
}

/// What is known of the package that is to be installed.
pub struct PendingPackage {
    pub version: String,
    pub sig: String,
    pub sha256: String,
    pub size: u64,
}

impl PendingPackage {
    /// No package is pending.
    pub fn new() -> (r: PendingPackage)
        ensures
            r.version@.len() == 0,
            r.sig@.len() == 0,
            r.sha256@.len() == 0,
            r.size == 0,
    {
        PendingPackage {
            version: String::new(),
            sig: String::new(),
            sha256: String::new(),
            size: 0,
        }
    }
}

/// The version of a reply: the signed one, or else the last part of the address.
pub fn pick_version(signed: &str, response_url: &str) -> (r: String)
    ensures
        r@ == (if signed@.len() == 0 {
            text::split_v(response_url@, '/').last()
        } else {
            signed@
        }),
{
    if signed.is_empty() {
        let parts = split(response_url, '/');
        proof {
            lemma_split_not_empty(response_url@, '/');
        }
        assert(text::texts(parts@).len() == parts@.len());
        assert(text::texts(parts@).last() == parts@[parts@.len() - 1]@);
        parts[parts.len() - 1].clone()
    } else {
        signed.to_owned()
    }
}

/// Keeps what is known of the pending package.
pub fn set_pending_package(
    pending: &mut PendingPackage,
    version: String,
    sig: String,
    sha256: String,
    size: u64,
)
    ensures
        final(pending).version@ == version@,
        final(pending).sig@ == sig@,
        final(pending).sha256@ == sha256@,
        final(pending).size == size,
{
    pending.version = version;
    pending.sig = sig;
    pending.sha256 = sha256;
    pending.size = size;
}

/// Forgets the pending package.
pub fn clear_pending_package(pending: &mut PendingPackage)
    ensures
        final(pending).version@.len() == 0,
        final(pending).sig@.len() == 0,
        final(pending).sha256@.len() == 0,
        final(pending).size == 0,
{
    set_pending_package(pending, String::new(), String::new(), String::new(), 0);
}

/// The scheme of an address and the segments of its path as `url::Url::parse` reads them;
/// nothing where it refuses the text, and no segments where the address has no path of its own.
pub uninterp spec fn url_reading(text: Seq<char>) -> Option<(Seq<char>, Option<Seq<Seq<char>>>)>;

/// The model of a read address.
pub open spec fn url_view(u: Option<(String, Option<Vec<String>>)>) -> Option<
    (Seq<char>, Option<Seq<Seq<char>>>),
> {
    match u {
        Some(p) => Some(
            (
                p.0@,
                match p.1 {
                    Some(v) => Some(text::texts(v@)),
                    None => None,
                },
            ),
        ),
        None => None,
    }
}

/// `url::Url::parse`, with what `scheme` and `path_segments` say of the result.
#[verifier::external_body]
fn read_url(text: &str) -> (r: Option<(String, Option<Vec<String>>)>)
    ensures
        url_view(r) == url_reading(text@),
{
    let u = url::Url::parse(text).ok()?;
    let segments = u.path_segments().map(|s| s.map(|x| x.to_owned()).collect());
    Some((u.scheme().to_owned(), segments))
}

/// A name that stands for one file in a directory and leads nowhere else.
pub open spec fn plain_filename(name: Seq<char>) -> bool {
    &&& name.len() > 0
    &&& !name.contains('/')
    &&& !name.contains('\\')
    &&& !name.contains(':')
    &&& name != "."@
    &&& name != ".."@
}

/// Whether a name stands for one file in a directory and leads nowhere else.
pub fn is_plain_filename(name: &str) -> (r: bool)
    ensures
        r == plain_filename(name@),
{
    !name.is_empty() && !has_char(name, '/') && !has_char(name, '\\') && !has_char(name, ':')
        && !same(name, ".") && !same(name, "..")
}

/// The file name that a read address gives a package.
pub open spec fn package_file(u: Option<(Seq<char>, Option<Seq<Seq<char>>>)>) -> Option<Seq<char>> {
    match u {
        Some(p) => if p.0 == "http"@ || p.0 == "https"@ {
            match p.1 {
                Some(s) => if s.len() > 0 && plain_filename(s.last()) {
                    Some(s.last())
                } else {
                    None
                },
                None => None,
            }
        } else {
            None
        },
        None => None,
    }
}

/// The file name that a read address gives a package: the last segment of an `http` or `https`
/// path, where it is a plain file name.
pub fn package_name(u: &Option<(String, Option<Vec<String>>)>) -> (r: Option<String>)
    ensures
        text::opt_text(r) == package_file(url_view(*u)),
{
    match u {
        Some(p) => {
            if !same(p.0.as_str(), "http") && !same(p.0.as_str(), "https") {
                return None;
            }
            match &p.1 {
                Some(s) => {
                    assert(text::texts(s@).len() == s@.len());
                    if s.len() == 0 {
                        return None;
                    }
                    assert(text::texts(s@).last() == s@[s@.len() - 1]@);
                    if is_plain_filename(s[s.len() - 1].as_str()) {
                        Some(s[s.len() - 1].clone())
                    } else {
                        None
                    }
                },
                None => None,
            }
        },
        None => None,
    }
}

/// The name under which the package of an address is saved in the directory for temporary files.
pub fn package_file_from_url(url: &str) -> (r: Option<String>)
    ensures
        text::opt_text(r) == package_file(url_reading(url@)),
{
    package_name(&read_url(url))
}

/// Whatever an address says, the package stays in its directory.
pub proof fn a_package_never_leaves_its_directory(u: Option<(Seq<char>, Option<Seq<Seq<char>>>)>)
    ensures
        package_file(u) matches Some(name) ==> plain_filename(name),
{
}

/// What is known of the pending package and of the file that was fetched for it.
pub open spec fn signature_ok(
    p: PendingPackage,
    actual_size: u64,
    digest: Option<Seq<char>>,
    key: Seq<char>,
) -> bool {
    &&& p.sig@.len() > 0
    &&& p.sha256@.len() > 0
    &&& p.size != 0
    &&& actual_size == p.size
    &&& digest matches Some(d) && text::same_ignoring_case(d, p.sha256@)
    &&& trust::package_ok(key, p.version@, p.sha256@, p.size as nat, p.sig@)
}

/// A version is later than the one that runs and than the high-water mark.
pub open spec fn rollback_ok(
    version: Seq<char>,
    key: KeyV,
    running: KeyV,
    mark: Seq<char>,
    mark_key: KeyV,
) -> bool {
    version.len() > 0 && later(key, running) && (mark.len() == 0 || later(key, mark_key))
}

/// Whether a package may run.
pub open spec fn may_run(sig_ok: bool, rollback_ok: bool, enforce: bool, plaintext: bool) -> bool {
    (sig_ok && rollback_ok) || (!enforce && (sig_ok || !plaintext))
}

/// Whether a package may run: one that is signed and later may; while signatures are enforced no
/// other may; while they are not, one without a good signature may not where it came over a
/// plain connection.
pub fn package_verdict(sig_ok: bool, rollback_ok: bool, enforce: bool, plaintext: bool) -> (r: bool)
    ensures
        r == may_run(sig_ok, rollback_ok, enforce, plaintext),
{
    if sig_ok && rollback_ok {
        return true;
    }
    if enforce {
        return false;
    }
    if !sig_ok && plaintext {
        return false;
    }
    true
}

/// The address is one of a plain connection.
pub open spec fn plaintext_v(url: Seq<char>) -> bool {
    text::prefixed(text::ascii_lower(url), "http://"@)
}

/// The keys of the versions that a package is held against.
pub struct VersionFacts {
    /// Of the package.
    pub package: VersionKey,
    /// Of the version that runs.
    pub running: VersionKey,
    /// Of the high-water mark.
    pub mark: VersionKey,
}

/// Whether the package that was fetched may run. `digest` is that of the file, where it could be
/// read; `key` is the console's key that the device trusts.
pub fn verify_update_package(
    pending: &PendingPackage,
    download_url: &str,
    actual_size: u64,
    digest: Option<&str>,
    key: &str,
    mark: &str,
    versions: &VersionFacts,
    enforce: bool,
) -> (r: bool)
    ensures
        r == may_run(
            signature_ok(*pending, actual_size, text::opt_str(digest), key@),
            rollback_ok(
                pending.version@,
                versions.package@,
                versions.running@,
                mark@,
                versions.mark@,
            ),
            enforce,
            plaintext_v(download_url@),
        ),
{
    let plaintext = starts_with(to_ascii_lower(download_url).as_str(), "http://");
    let whole = match digest {
        Some(d) => eq_ignore_case(d, pending.sha256.as_str()),
        None => false,
    };
    let sig_ok = !pending.sig.as_str().is_empty() && !pending.sha256.as_str().is_empty()
        && pending.size != 0 && actual_size == pending.size && whole && verify_package(
        key,
        pending.version.as_str(),
        pending.sha256.as_str(),
        pending.size,
        pending.sig.as_str(),
    );
    let newer = !pending.version.as_str().is_empty() && is_later(
        &versions.package,
        &versions.running,
    ) && (mark.is_empty() || is_later(&versions.package, &versions.mark));
    package_verdict(sig_ok, newer, enforce, plaintext)
}

/// The digest of a package, in small hexadecimal letters.
pub fn package_digest(data: &[u8]) -> (r: String)
    ensures
        r@ == num::hex(crypto::sha256_digest(data@)),
{
    to_hex(sha256(data).as_slice())
}

/// While signatures are enforced, what runs is signed by the trusted key, is the file that was
/// signed, and is later than what runs already and than the high-water mark.
pub proof fn enforcement_runs_signed_newer_packages_only(
    p: PendingPackage,
    actual_size: u64,
    digest: Option<Seq<char>>,
    key: Seq<char>,
    package: KeyV,
    running: KeyV,
    mark: Seq<char>,
    mark_key: KeyV,
    plaintext: bool,
)
    requires
        may_run(
            signature_ok(p, actual_size, digest, key),
            rollback_ok(p.version@, package, running, mark, mark_key),
            true,
            plaintext,
        ),
    ensures
        trust::package_ok(key, p.version@, p.sha256@, p.size as nat, p.sig@),
        actual_size == p.size,
        digest is Some && text::same_ignoring_case(digest->0, p.sha256@),
        later(package, running),
        mark.len() > 0 ==> later(package, mark_key),
{
}

/// Over a plain connection nothing runs without a good signature, enforced or not.
pub proof fn plain_connections_carry_signed_packages_only(
    sig_ok: bool,
    rollback_ok: bool,
    enforce: bool,
)
    requires
        may_run(sig_ok, rollback_ok, enforce, true),
    ensures
        sig_ok,
{
}

/// A package that ran raises the mark, and is then refused while signatures are enforced.
pub proof fn an_installed_package_is_not_installed_again(
    version: Seq<char>,
    package: KeyV,
    running: KeyV,
    sig_ok: bool,
    plaintext: bool,
)
    requires
        version.len() > 0,
    ensures
        !may_run(
            sig_ok,
            rollback_ok(version, package, running, version, package),
            true,
            plaintext,
        ),
{
    versions_are_ordered(package, package, package);
}

/// The length that a server states.
pub fn content_length(header: Option<&str>) -> (r: Option<u64>)
    ensures
        match r {
            Some(n) => text::opt_str(header) is Some && num::parse_uint(
                text::opt_str(header)->0,
                u64::MAX as nat,
            ) == Some(n as nat),
            None => text::opt_str(header) is None || num::parse_uint(
                text::opt_str(header)->0,
                u64::MAX as nat,
            ) is None,
        },
{
    match header {
        Some(h) => parse_u64(h),
        None => None,
    }
}

/// Whether a package still has to be fetched.
pub enum FetchStep {
    /// It is here.
    Complete,
    /// It is to be fetched; this many bytes are there in all.
    Download(u64),
}

/// Takes the server's word on the size of a package and says whether it has to be fetched.
pub fn fetch_step(
    success: bool,
    status: &str,
    length: Option<&str>,
    have: u64,
) -> (r: Result<FetchStep, String>)
    ensures
        match r {
            Err(e) => if !success {
                e@ == "Failed to get the file size: "@ + status@
            } else {
                (text::opt_str(length) is None || num::parse_uint(text::opt_str(length)->0, u64::MAX as nat) is None)
                    && e@ == "Failed to get content length"@
            },
            Ok(FetchStep::Complete) => success && text::opt_str(length) is Some && num::parse_uint(
                text::opt_str(length)->0,
                u64::MAX as nat,
            ) == Some(have as nat),
            Ok(FetchStep::Download(total)) => success && text::opt_str(length) is Some && total != have
                && num::parse_uint(text::opt_str(length)->0, u64::MAX as nat) == Some(total as nat),
        },
{
    if !success {
        return Err(cat("Failed to get the file size: ", status));
    }
    match content_length(length) {
        Some(total) => if have != total {
            Ok(FetchStep::Download(total))
        } else {
            Ok(FetchStep::Complete)
        },
        None => Err("Failed to get content length".to_owned()),
    }
}

/// The part of a package that is asked for.
pub open spec fn resumes(have: u64, total: u64) -> bool {
    0 < have < total
}

/// The range that is asked for, where a part of the package is here already.
pub fn resume_range(have: u64, total: u64) -> (r: Option<String>)
    ensures
        text::opt_text(r) == (if resumes(have, total) {
            Some("bytes="@ + num::dec(have as nat) + "-"@)
        } else {
            None
        }),
{
    if have > 0 && have < total {
        Some(cat3("bytes=", dec_u64(have).as_str(), "-"))
    } else {
        None
    }
}

/// What is told of a download that did not start.
pub fn download_not_started(url: &str, error: &str) -> (r: String)
    ensures
        r@ == "update download failed to start ("@ + url@ + "): "@ + error@,
{
    "update download failed to start (".to_owned().concat(url).concat("): ").concat(error)
}

/// Whether the body is appended to the file, or replaces it. `status` is the number of the
/// answer and `text` how it is shown.
pub fn download_begun(url: &str, have: u64, total: u64, status: u16, text: &str) -> (r: Result<
    bool,
    String,
>)
    ensures
        match r {
            Ok(append) => 200 <= status < 300 && append == (resumes(have, total) && status == 206),
            Err(e) => !(200 <= status < 300) && e@
                == "Failed to download the new version file: "@ + text@ + " ("@ + url@ + ")"@,
        },
{
    if status < 200 || status >= 300 {
        return Err(
            "Failed to download the new version file: ".to_owned().concat(text).concat(
                " (",
            ).concat(url).concat(")"),
        );
    }
    Ok(have > 0 && have < total && status == 206)
}

/// What is told of a download that broke off.
pub fn download_interrupted(url: &str, append: bool, have: u64, total: u64, error: &str) -> (r:
    String)
    ensures
        r@ == "update download interrupted after "@ + num::dec(
            if append {
                have as nat
            } else {
                0
            },
        ) + " + partial of "@ + num::dec(total as nat) + " bytes ("@ + url@ + "): "@ + error@,
{
    let at: u64 = if append {
        have
    } else {
        0
    };
    "update download interrupted after ".to_owned().concat(dec_u64(at).as_str()).concat(
        " + partial of ",
    ).concat(dec_u64(total).as_str()).concat(" bytes (").concat(url).concat("): ").concat(error)
}

/// Whether a download is whole.
pub fn download_ended(url: &str, got: u64, total: u64, copied: u64) -> (r: Result<(), String>)
    ensures
        match r {
            Ok(_) => got == total,
            Err(e) => got != total && e@ == "update download incomplete: have "@ + num::dec(got as nat)
                + " of "@ + num::dec(total as nat) + " bytes ("@ + url@ + "), wrote "@ + num::dec(
                copied as nat,
            ),
        },
{
    if got != total {
        return Err(
            "update download incomplete: have ".to_owned().concat(dec_u64(got).as_str()).concat(
                " of ",
            ).concat(dec_u64(total).as_str()).concat(" bytes (").concat(url).concat(
                "), wrote ",
            ).concat(dec_u64(copied).as_str()),
        );
    }
    Ok(())
}

/// The file after a body was written to it.
pub open spec fn written(file: Seq<u8>, append: bool, body: Seq<u8>) -> Seq<u8> {
    if append {
        file + body
    } else {
        body
    }
}

/// A resumed download ends with the package: whether the server sends the rest or the whole, the
/// file holds the package afterwards.
pub proof fn a_resumed_download_is_the_package(package: Seq<u8>, have: u64, status: u16)
    requires
        resumes(have, package.len() as u64),
        package.len() <= u64::MAX,
    ensures
        ({
            let append = resumes(have, package.len() as u64) && status == 206;
            let body = if status == 206 {
                package.skip(have as int)
            } else {
                package
            };
            written(package.take(have as int), append, body) == package
        }),
{
    assert(package.take(have as int) + package.skip(have as int) =~= package);
}

/// The number that a version's four fields make: 16 bits each for the parts of the core and for
/// the build, each brought down to 16 bits.
pub open spec fn packed_version(full: Seq<char>) -> Option<nat> {
    let core = text::split_v(text::cut_v(full, '+').0, '.');
    if core.len() < 3 {
        None
    } else {
        match (
            num::clamped(core[0], u16::MAX as nat),
            num::clamped(core[1], u16::MAX as nat),
            num::clamped(core[2], u16::MAX as nat),
        ) {
            (Some(major), Some(minor), Some(patch)) => {
                let build = match num::clamped(metadata(full)[0], u16::MAX as nat) {
                    Some(b) => b,
                    None => 0,
                };
                Some(
                    major * 0x1_0000_0000_0000 + minor * 0x1_0000_0000 + patch * 0x1_0000 + build,
                )
            },
            _ => None,
        }
    }
}

/// The number that a version's four fields make; nothing where its core is malformed.
pub fn sulltec_numeric_version(full: &str) -> (r: Option<u64>)
    ensures
        match r {
            Some(n) => packed_version(full@) == Some(n as nat),
            None => packed_version(full@) is None,
        },
{
    let core = split(version_core(full).as_str(), '.');
    assert(text::texts(core@).len() == core@.len());
    if core.len() < 3 {
        return None;
    }
    assert(text::texts(core@)[0] == core@[0]@ && text::texts(core@)[1] == core@[1]@ && text::texts(core@)[2]
        == core@[2]@);
    let seg = metadata_of(full);
    assert(text::texts(seg@)[0] == seg@[0]@);
    let build: u16 = match parse_clamped_u16(seg[0].as_str()) {
        Some(b) => b,
        None => 0,
    };
    match (
        parse_clamped_u16(core[0].as_str()),
        parse_clamped_u16(core[1].as_str()),
        parse_clamped_u16(core[2].as_str()),
    ) {
        (Some(major), Some(minor), Some(patch)) => Some(
            major as u64 * 0x1_0000_0000_0000 + minor as u64 * 0x1_0000_0000 + patch as u64
                * 0x1_0000 + build as u64,
        ),
        _ => None,
    }
}

/// Versions are ordered by the core, then by the build, then by the date and time, each
/// ascending: a larger core is later whatever follows; of one core the larger build is later
/// whatever the dates; of one core and build the later date text is.
pub proof fn versions_are_ordered_by_core_build_and_date(a: KeyV, b: KeyV)
    ensures
        a.core > b.core ==> later(a, b) && !later(b, a),
        a.core == b.core && a.build > b.build ==> later(a, b) && !later(b, a),
        a.core == b.core && a.build == b.build ==> (later(a, b) <==> text::before(
            b.datetime,
            a.datetime,
        )),
{
}

/// A version is read as its core, its build number and its date: what stands before the plus
/// sign, and the first two parts behind it. A version without build metadata has build zero and
/// no date.
pub proof fn a_version_is_read_by_its_parts(
    core: Seq<char>,
    build: Seq<char>,
    date: Seq<char>,
    rest: Seq<char>,
    n: int,
)
    requires
        !core.contains('+'),
        !build.contains('.'),
        !date.contains('.'),
    ensures
        ({
            let v = core + seq!['+'] + (build + seq!['.'] + (date + seq!['.'] + rest));
            &&& key_of(v, n).core == n
            &&& key_of(v, n).build == (match num::parse_uint(build, u64::MAX as nat) {
                Some(b) => b,
                None => 0,
            })
            &&& key_of(v, n).datetime == date
            &&& text::cut_v(v, '+').0 == core
        }),
        key_of(core, n).build == 0,
        key_of(core, n).datetime.len() == 0,
        key_of(core, n).core == n,
{
    let tail = date + seq!['.'] + rest;
    let meta = build + seq!['.'] + tail;
    crate::text::a_text_is_cut_at_the_first_separator(core, '+', meta);
    crate::text::a_text_splits_at_its_separators(build, '.', tail);
    crate::text::a_text_splits_at_its_separators(date, '.', rest);
    assert(text::split_v(meta, '.')[0] == build);
    assert(text::split_v(meta, '.')[1] == date);
    let none = Seq::<char>::empty();
    assert(!none.contains('.'));
    crate::text::a_text_splits_at_its_separators(none, '.', none);
    assert(metadata(core)[0].len() == 0);
}

/// The build number of a version is the number that is written, leading zeros aside, so that the
/// next build is later.
pub proof fn the_next_build_is_later(core: Seq<char>, n: nat, date: Seq<char>, next: Seq<char>, c: int)
    requires
        !core.contains('+'),
        !date.contains('.'),
        !next.contains('.'),
        n < u64::MAX,
    ensures
        later(
            key_of(core + seq!['+'] + (num::dec(n + 1) + seq!['.'] + (next + seq!['.'])), c),
            key_of(core + seq!['+'] + (num::dec(n) + seq!['.'] + (date + seq!['.'])), c),
        ),
{
    let none = Seq::<char>::empty();
    assert(next + seq!['.'] + none =~= next + seq!['.']);
    assert(date + seq!['.'] + none =~= date + seq!['.']);
    lemma_digits_only(n);
    lemma_digits_only(n + 1);
    crate::num::decimal_round_trip(n, u64::MAX as nat);
    crate::num::decimal_round_trip(n + 1, u64::MAX as nat);
    a_version_is_read_by_its_parts(core, num::dec(n + 1), next, none, c);
    a_version_is_read_by_its_parts(core, num::dec(n), date, none, c);
}

proof fn lemma_digits_only(n: nat)
    ensures
        !num::dec(n).contains('.'),
{
    crate::num::decimal_round_trip(n, n);
    let s = num::dec(n);
    if s.contains('.') {
        let i = choose|i: int| 0 <= i < s.len() && s[i] == '.';
        assert(num::all_digits(s));
        assert(num::is_digit(s[i]));
    }
}

/// When a package may run. Enforced, it has to be signed and later. Not enforced, a signed one
/// may, and an unsigned one only where it did not come over a plain connection.
pub proof fn a_package_runs_by_its_signature_and_age(sig_ok: bool, rollback_ok: bool, plaintext: bool)
    ensures
        may_run(sig_ok, rollback_ok, true, plaintext) <==> sig_ok && rollback_ok,
        may_run(sig_ok, rollback_ok, false, true) <==> sig_ok,
        may_run(sig_ok, rollback_ok, false, false),
{
}

/// A package counts as later where it names a version that is later than the one that runs and,
/// where there is a high-water mark, later than that.
pub proof fn a_package_is_held_against_both_versions(
    version: Seq<char>,
    key: KeyV,
    running: KeyV,
    mark: Seq<char>,
    mark_key: KeyV,
)
    ensures
        version.len() > 0 && mark.len() > 0 ==> (rollback_ok(version, key, running, mark, mark_key)
            <==> later(key, running) && later(key, mark_key)),
        version.len() > 0 && mark.len() == 0 ==> (rollback_ok(version, key, running, mark, mark_key)
            <==> later(key, running)),
        version.len() == 0 ==> !rollback_ok(version, key, running, mark, mark_key),
{
}

/// A package counts as signed where the file has the size and the digest that were announced and
/// the trusted key signed exactly that version, digest and size.
pub proof fn a_signed_package_is_the_announced_file(
    p: PendingPackage,
    actual_size: u64,
    digest: Option<Seq<char>>,
    key: Seq<char>,
)
    ensures
        signature_ok(p, actual_size, digest, key) <==> {
            &&& p.version@.len() > 0 && p.sha256@.len() > 0 && p.sig@.len() > 0 && key.len() > 0
            &&& p.size > 0 && actual_size == p.size
            &&& digest is Some && text::ascii_lower(digest->0) == text::ascii_lower(p.sha256@)
            &&& crypto::recovered(key, p.sig@, 4096) == Some(
                vstd::utf8::encode_utf8(
                    "CONSOLE-PKG\n"@ + p.version@ + "\n"@ + p.sha256@ + "\n"@ + num::dec(
                        p.size as nat,
                    ),
                ),
            )
        },
{
}

/// The high-water mark moves to a version that is later, or that is the first, and to no other.
pub proof fn the_mark_moves_to_later_versions(
    mark: Seq<char>,
    mark_key: KeyV,
    token: Seq<char>,
    token_key: KeyV,
)
    ensures
        token.len() == 0 ==> advanced(mark, mark_key, token, token_key) == mark,
        token.len() > 0 && mark.len() == 0 ==> advanced(mark, mark_key, token, token_key) == token,
        token.len() > 0 && mark.len() > 0 && later(token_key, mark_key) ==> advanced(
            mark,
            mark_key,
            token,
            token_key,
        ) == token,
        mark.len() > 0 && !later(token_key, mark_key) ==> advanced(
            mark,
            mark_key,
            token,
            token_key,
        ) == mark,
{
}

/// The latest version is asked for at the server that is set, else at the built-in one, without
/// the slashes at its end.
pub proof fn the_latest_version_is_asked_for(api: Seq<char>, built_in: Seq<char>)
    ensures
        api.len() > 0 ==> check_url(api, built_in) == Some(
            text::trim_end_char_v(api, '/') + "/version/latest"@,
        ),
        api.len() == 0 && built_in.len() > 0 ==> check_url(api, built_in) == Some(
            text::trim_end_char_v(built_in, '/') + "/version/latest"@,
        ),
        api.len() == 0 && built_in.len() == 0 ==> check_url(api, built_in) is None,
{
}

/// The package of an address is saved under the last part of its path, where the address is one
/// of the web and that part is a plain name.
pub proof fn a_package_is_saved_under_its_name(dirs: Seq<Seq<char>>, name: Seq<char>, scheme: Seq<char>)
    ensures
        (scheme == "http"@ || scheme == "https"@) && plain_filename(name) ==> package_file(
            Some((scheme, Some(dirs.push(name)))),
        ) == Some(name),
        scheme != "http"@ && scheme != "https"@ ==> package_file(
            Some((scheme, Some(dirs.push(name)))),
        ) is None,
        name.contains('/') || name.contains('\\') || name.contains(':') || name.len() == 0
            || name == ".."@ || name == "."@ ==> package_file(
            Some((scheme, Some(dirs.push(name)))),
        ) is None,
{
    assert(dirs.push(name).last() == name);
}

/// A resumed download asks for what is missing, and only where something is here and something
/// is missing.
pub proof fn a_download_is_resumed_where_it_stopped(have: u64, total: u64)
    ensures
        resumes(have, total) <==> have > 0 && have < total,
{
}

/// A plain connection is one whose address begins with `http://`, in whatever case.
pub proof fn a_plain_connection_is_told_by_its_address(rest: Seq<char>)
    ensures
        plaintext_v("http://"@ + rest),
        plaintext_v("HTTP://"@ + rest),
        !plaintext_v("https://"@ + rest),
{
    reveal_strlit("http://");
    reveal_strlit("HTTP://");
    reveal_strlit("https://");
    let a = text::ascii_lower("http://"@ + rest);
    assert(a.take(7) =~= "http://"@);
    let b = text::ascii_lower("HTTP://"@ + rest);
    assert(b.take(7) =~= "http://"@);
    let c = text::ascii_lower("https://"@ + rest);
    assert(c[4] == 's');
    assert("http://"@[4] == ':');
    assert(c.take(7)[4] == c[4]);
}

/// The number of a version is made of its three parts and its build, sixteen bits each.
pub proof fn a_version_is_one_number(
    major: nat,
    minor: nat,
    patch: nat,
    build: nat,
    rest: Seq<char>,
)
    requires
        major <= 65535,
        minor <= 65535,
        patch <= 65535,
        build <= 65535,
    ensures
        packed_version(
            num::dec(major) + seq!['.'] + (num::dec(minor) + seq!['.'] + num::dec(patch)) + seq!['+']
                + (num::dec(build) + seq!['.'] + rest),
        ) == Some(((major * 65536 + minor) * 65536 + patch) * 65536 + build),
{
    let core = num::dec(major) + seq!['.'] + (num::dec(minor) + seq!['.'] + num::dec(patch));
    let meta = num::dec(build) + seq!['.'] + rest;
    lemma_digits_only(major);
    lemma_digits_only(minor);
    lemma_digits_only(patch);
    lemma_digits_only(build);
    crate::text::a_text_splits_at_its_separators(
        num::dec(major),
        '.',
        num::dec(minor) + seq!['.'] + num::dec(patch),
    );
    crate::text::a_text_splits_at_its_separators(num::dec(minor), '.', num::dec(patch));
    crate::text::a_text_splits_at_its_separators(num::dec(patch), '.', rest);
    crate::text::a_text_splits_at_its_separators(num::dec(build), '.', rest);
    let parts = text::split_v(core, '.');
    assert(parts =~= seq![num::dec(major), num::dec(minor), num::dec(patch)]);
    assert(!core.contains('+')) by {
        if core.contains('+') {
            let i = choose|i: int| 0 <= i < core.len() && core[i] == '+';
            lemma_no_plus(major);
            lemma_no_plus(minor);
            lemma_no_plus(patch);
            let a = num::dec(major).len() as int;
            let b = num::dec(minor).len() as int;
            if i < a {
                assert(num::dec(major)[i] == '+');
            } else if a < i < a + 1 + b {
                assert(num::dec(minor)[i - a - 1] == '+');
            } else if a + 1 + b < i {
                assert(num::dec(patch)[i - a - b - 2] == '+');
            }
        }
    }
    crate::text::a_text_is_cut_at_the_first_separator(core, '+', meta);
    crate::num::numbers_are_bounded(major, 65535, 'x', rest);
    crate::num::numbers_are_bounded(minor, 65535, 'x', rest);
    crate::num::numbers_are_bounded(patch, 65535, 'x', rest);
    crate::num::numbers_are_bounded(build, 65535, 'x', rest);
    assert(text::split_v(meta, '.')[0] == num::dec(build));
}

proof fn lemma_no_plus(n: nat)
    ensures
        !num::dec(n).contains('+'),
{
    crate::num::decimal_round_trip(n, n);
    let s = num::dec(n);
    if s.contains('+') {
        let i = choose|i: int| 0 <= i < s.len() && s[i] == '+';
        assert(num::all_digits(s));
        assert(num::is_digit(s[i]));
    }
}

} // verus!
