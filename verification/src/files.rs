//! Files that the console fetches from a device or puts on it, and the device's own logs.
use vstd::prelude::*;

use crate::crypto;
use crate::fs;
use crate::json;
use crate::num;
use crate::text;
use crate::wol;
use crate::crypto::{b64_decode, b64_encode, sha256};
use crate::fs::{sensitive_path, SENSITIVE_DENIED};
use crate::json::{from_text, text_array, Json, JsonV};
use crate::num::{dec_u64, to_hex};
use crate::text::{
    bytes_in, cat, cat3, chars_of, ends_with, from_utf8, from_utf8_lossy, is_white_space, replace,
    same, starts_with, take_chars, to_ascii_lower, trim,
};
use crate::wol::hex_char;

verus! {

/// The most bytes of a file that are handed out.
pub const PULL_CAP: usize = 131_072;

/// The answer that something went wrong.
pub open spec fn failed_v(why: Seq<char>) -> JsonV {
    JsonV::empty().with("ok"@, JsonV::Bool(false)).with("error"@, JsonV::Str(why))
}

/// The answer that something went wrong.
pub fn failed(why: &str) -> (r: Json)
    ensures
        r@ == failed_v(why@),
{
    Json::object().with("ok", Json::Bool(false)).with("error", Json::text(why))
}

/// The answer that something was done.
pub open spec fn done_v(result: Seq<char>) -> JsonV {
    JsonV::empty().with("ok"@, JsonV::Bool(true)).with("result"@, JsonV::Str(result))
}

/// The answer that something was done.
pub fn done(result: &str) -> (r: Json)
    ensures
        r@ == done_v(result@),
{
    Json::object().with("ok", Json::Bool(true)).with("result", Json::text(result))
}

/// The trimmed text of a member, where it is not blank.
pub open spec fn filled(o: JsonV, key: Seq<char>) -> Option<Seq<char>> {
    let t = text::trim_v(o.member_or_empty(key));
    if t.len() > 0 {
        Some(t)
    } else {
        None
    }
}

fn get_filled(o: &Json, key: &str) -> (r: Option<String>)
    ensures
        text::opt_text(r) == filled(o@, key@),
{
    let t = trim(o.get_str_or_empty(key).as_str());
    if t.as_str().is_empty() {
        None
    } else {
        Some(t)
    }
}

/// The characters of a list of borrowed strings.
pub open spec fn names_v(keys: Seq<&str>) -> Seq<Seq<char>> {
    Seq::new(keys.len(), |i: int| keys[i]@)
}

/// The first of the named members that is filled.
pub open spec fn first_filled(o: JsonV, keys: Seq<Seq<char>>) -> Option<Seq<char>>
    decreases keys.len(),
{
    if keys.len() == 0 {
        None
    } else {
        match filled(o, keys[0]) {
            Some(t) => Some(t),
            None => first_filled(o, keys.drop_first()),
        }
    }
}

fn find_filled(o: &Json, keys: &[&str]) -> (r: Option<String>)
    ensures
        text::opt_text(r) == first_filled(o@, names_v(keys@)),
{
    let ghost all = names_v(keys@);
    let mut i: usize = 0;
    assert(all.skip(0) == all);
    while i < keys.len()
        invariant
            i <= keys@.len(),
            all == names_v(keys@),
            first_filled(o@, all) == first_filled(o@, all.skip(i as int)),
        decreases keys@.len() - i,
    {
        assert(all.skip(i as int)[0] == keys@[i as int]@);
        assert(all.skip(i as int).drop_first() == all.skip(i + 1));
        let t = get_filled(o, keys[i]);
        if t.is_some() {
            return t;
        }
        i = i + 1;
    }
    None
}

/// A text begins as a JSON object or text does.
pub open spec fn looks_like_json(raw: Seq<char>) -> bool {
    raw.len() > 0 && (raw[0] == '{' || raw[0] == '"')
}

/// The value that an ask names: the first filled of the named members of an object, a text, or
/// the ask as it came.
pub open spec fn field_or_raw_v(
    raw: Seq<char>,
    ask: Option<JsonV>,
    keys: Seq<Seq<char>>,
) -> Seq<char> {
    if looks_like_json(raw) {
        match ask {
            Some(JsonV::Obj(m)) => match first_filled(JsonV::Obj(m), keys) {
                Some(t) => t,
                None => seq![],
            },
            Some(JsonV::Str(s)) => text::trim_v(s),
            _ => raw,
        }
    } else {
        raw
    }
}

/// The value that an ask names, given what it holds as JSON.
pub fn field_or_raw(raw: &str, ask: &Option<Json>, keys: &[&str]) -> (r: String)
    ensures
        r@ == field_or_raw_v(raw@, json::opt_model(*ask), names_v(keys@)),
{
    let v = chars_of(raw);
    if v.len() > 0 && (v[0] == '{' || v[0] == '"') {
        if let Some(j) = ask {
            if j.is_object() {
                return match find_filled(j, keys) {
                    Some(t) => t,
                    None => String::new(),
                };
            }
            if let Some(s) = j.as_str() {
                return trim(s);
            }
        }
    }
    raw.to_owned()
}

/// The value that an ask names.
pub fn json_field_or_raw(raw: &str, keys: &[&str]) -> (r: String)
    ensures
        r@ == field_or_raw_v(text::trim_v(raw@), json::parsed(text::trim_v(raw@)), names_v(keys@)),
{
    let t = trim(raw);
    let ask = from_text(t.as_str());
    field_or_raw(t.as_str(), &ask, keys)
}

/// The path of a file to fetch, or why none is fetched.
pub open spec fn pull_path_v(named: Seq<char>) -> Result<Seq<char>, Seq<char>> {
    let path = text::trim_v(named);
    if path.len() == 0 {
        Err("file-pull needs a path"@)
    } else if fs::in_store(fs::norm_path(path)) {
        Err(SENSITIVE_DENIED@)
    } else {
        Ok(path)
    }
}

/// The path of a file to fetch, given what the ask names.
pub fn pull_path(named: &str) -> (r: Result<String, Json>)
    ensures
        match r {
            Ok(p) => pull_path_v(named@) == Ok::<Seq<char>, Seq<char>>(p@),
            Err(j) => pull_path_v(named@) is Err && j@ == failed_v(pull_path_v(named@)->Err_0),
        },
{
    let path = trim(named);
    if path.as_str().is_empty() {
        return Err(failed("file-pull needs a path"));
    }
    if sensitive_path(path.as_str()) {
        return Err(failed(SENSITIVE_DENIED));
    }
    Ok(path)
}

fn copy_bytes(b: &Vec<u8>, n: usize) -> (r: Vec<u8>)
    requires
        n <= b@.len(),
    ensures
        r@ == b@.take(n as int),
{
    let mut out: Vec<u8> = Vec::new();
    let mut i: usize = 0;
    while i < n
        invariant
            i <= n <= b@.len(),
            out@ == b@.take(i as int),
        decreases n - i,
    {
        out.push(b[i]);
        i = i + 1;
        assert(out@ =~= b@.take(i as int));
    }
    out
}

/// The bytes of a file that are handed out.
pub open spec fn handed_out(bytes: Seq<u8>) -> Seq<u8> {
    if bytes.len() > PULL_CAP {
        bytes.take(PULL_CAP as int)
    } else {
        bytes
    }
}

/// The answer with a file's content: as text where it is text, else in base64.
pub open spec fn pulled_v(path: Seq<char>, file_size: int, bytes: Seq<u8>) -> JsonV {
    let part = handed_out(bytes);
    let size = if file_size >= part.len() {
        file_size
    } else {
        part.len() as int
    };
    let head = JsonV::empty().with("ok"@, JsonV::Bool(true)).with("path"@, JsonV::Str(path)).with(
        "size"@,
        JsonV::Int(size),
    ).with("truncated"@, JsonV::Bool(bytes.len() > PULL_CAP));
    if vstd::utf8::valid_utf8(part) {
        head.with("encoding"@, JsonV::Str("text"@)).with(
            "content"@,
            JsonV::Str(vstd::utf8::decode_utf8(part)),
        )
    } else {
        head.with("encoding"@, JsonV::Str("base64"@)).with(
            "content"@,
            JsonV::Str(crypto::b64_encoded(part)),
        )
    }
}

/// The answer with a file's content, of which at most one byte more than is handed out was read.
pub fn file_pull(path: &str, file_size: u64, bytes: &Vec<u8>) -> (r: Json)
    ensures
        r@ == pulled_v(path@, file_size as int, bytes@),
{
    let truncated = bytes.len() > PULL_CAP;
    let n: usize = if truncated {
        PULL_CAP
    } else {
        bytes.len()
    };
    let part = copy_bytes(bytes, n);
    assert(part@ == handed_out(bytes@)) by {
        assert(bytes@.take(bytes@.len() as int) =~= bytes@);
    }
    let size: u64 = if file_size >= n as u64 {
        file_size
    } else {
        n as u64
    };
    let head = Json::object().with("ok", Json::Bool(true)).with("path", Json::text(path)).with(
        "size",
        Json::UInt(size),
    ).with("truncated", Json::Bool(truncated));
    let again = copy_bytes(&part, n);
    assert(again@ =~= part@);
    match from_utf8(again) {
        Some(t) => head.with("encoding", Json::text("text")).with("content", Json::Str(t)),
        None => head.with("encoding", Json::text("base64")).with(
            "content",
            Json::Str(b64_encode(part.as_slice())),
        ),
    }
}

/// A character that would end a quoted literal.
pub open spec fn breaks_quote(c: char) -> bool {
    c == '\'' || c == '"' || c == '\n' || c == '\r' || c == '`'
}

/// A path that can stand in a quoted literal.
pub open spec fn path_safe(s: Seq<char>) -> bool {
    &&& s.len() > 0
    &&& text::byte_len(s) <= 1024
    &&& forall|i: int| 0 <= i < s.len() ==> !breaks_quote(#[trigger] s[i])
}

/// Whether a path can stand in a quoted literal.
pub fn safe_path(s: &str) -> (r: bool)
    ensures
        r == path_safe(s@),
{
    if s.is_empty() || bytes_in(s) > 1024 {
        return false;
    }
    let v = chars_of(s);
    let mut i: usize = 0;
    while i < v.len()
        invariant
            i <= v@.len(),
            v@ == s@,
            forall|k: int| 0 <= k < i ==> !breaks_quote(#[trigger] v@[k]),
        decreases v@.len() - i,
    {
        let c: char = v[i];
        if c == '\'' || c == '"' || c == '\n' || c == '\r' || c == '`' {
            assert(breaks_quote(s@[i as int]));
            return false;
        }
        i = i + 1;
    }
    true
}

/// A character that an address may not hold.
pub open spec fn breaks_url(c: char) -> bool {
    text::white_space(c) || c == '\'' || c == '"' || c == '`'
}

/// An address that can stand in a quoted literal.
pub open spec fn url_safe(s: Seq<char>) -> bool {
    &&& text::prefixed(s, "http://"@) || text::prefixed(s, "https://"@)
    &&& text::byte_len(s) <= 2048
    &&& forall|i: int| 0 <= i < s.len() ==> !breaks_url(#[trigger] s[i])
}

/// Whether an address can stand in a quoted literal.
pub fn safe_url(s: &str) -> (r: bool)
    ensures
        r == url_safe(s@),
{
    if !(starts_with(s, "http://") || starts_with(s, "https://")) || bytes_in(s) > 2048 {
        return false;
    }
    let v = chars_of(s);
    let mut i: usize = 0;
    while i < v.len()
        invariant
            i <= v@.len(),
            v@ == s@,
            forall|k: int| 0 <= k < i ==> !breaks_url(#[trigger] v@[k]),
        decreases v@.len() - i,
    {
        let c: char = v[i];
        if is_white_space(c) || c == '\'' || c == '"' || c == '`' {
            assert(breaks_url(s@[i as int]));
            return false;
        }
        i = i + 1;
    }
    true
}

/// A digest in hexadecimal digits.
pub open spec fn is_digest(s: Seq<char>) -> bool {
    s.len() == 64 && forall|i: int| 0 <= i < s.len() ==> wol::is_hex(#[trigger] s[i])
}

fn digest_ok(s: &str) -> (r: bool)
    ensures
        r == is_digest(s@),
{
    let v = chars_of(s);
    if v.len() != 64 {
        return false;
    }
    let mut i: usize = 0;
    while i < v.len()
        invariant
            i <= v@.len(),
            v@ == s@,
            forall|k: int| 0 <= k < i ==> wol::is_hex(#[trigger] v@[k]),
        decreases v@.len() - i,
    {
        if !hex_char(v[i]) {
            assert(!wol::is_hex(s@[i as int]));
            return false;
        }
        i = i + 1;
    }
    true
}

/// What an ask to put a file on the device comes to.
pub enum PushPlan {
    /// It is answered with an error.
    Refuse(Json),
    /// The file is to be downloaded by a script, and held against a digest where one is given.
    Download { path: String, url: String, script: String, sha256: Option<String> },
    /// Bytes are to be written.
    Write { path: String, bytes: Vec<u8> },
}

/// The script that downloads a file.
pub open spec fn download_script(url: Seq<char>, path: Seq<char>) -> Seq<char> {
    "$ProgressPreference='SilentlyContinue'; Invoke-WebRequest -Uri '"@ + url + "' -OutFile '"@
        + path + "' -UseBasicParsing; 'ok'"@
}

/// The digest that an ask expects, in small letters.
pub open spec fn expected_digest(p: JsonV) -> Option<Seq<char>> {
    match filled(p, "sha256"@) {
        Some(s) => Some(text::ascii_lower(s)),
        None => None,
    }
}

/// The error that an ask to put a file on the device is answered with before anything is done.
pub open spec fn push_error(p: Option<JsonV>) -> Option<Seq<char>> {
    match p {
        None => Some("file-push needs JSON {path, url|content_b64}"@),
        Some(j) => {
            let path = text::trim_v(j.member_or_empty("path"@));
            if !path_safe(path) {
                Some("invalid destination path"@)
            } else if fs::in_store(fs::norm_path(path)) {
                Some(SENSITIVE_DENIED@)
            } else if filled(j, "sha256"@) is Some && !is_digest(filled(j, "sha256"@)->0) {
                Some("sha256 must be 64 hex characters"@)
            } else {
                match filled(j, "url"@) {
                    Some(u) => if url_safe(u) {
                        None
                    } else {
                        Some("url must be http(s) with no spaces/quotes"@)
                    },
                    None => match j.member_text("content_b64"@) {
                        Some(b) => match crypto::b64_decoded(b) {
                            Some(bytes) => if expected_digest(j) is Some && expected_digest(j)
                                != Some(num::hex(crypto::sha256_digest(bytes))) {
                                Some(
                                    "sha256 mismatch: computed "@ + num::hex(crypto::sha256_digest(bytes)),
                                )
                            } else {
                                None
                            },
                            None => Some("content_b64 is not valid base64"@),
                        },
                        None => Some("file-push needs either url or content_b64"@),
                    },
                }
            }
        },
    }
}

/// What an ask to put a file on the device comes to.
pub open spec fn push_ok(p: Option<JsonV>, r: PushPlan) -> bool {
    match push_error(p) {
        Some(e) => r is Refuse && r->Refuse_0@ == failed_v(e),
        None => {
            let j = p->0;
            let path = text::trim_v(j.member_or_empty("path"@));
            match filled(j, "url"@) {
                Some(u) => {
                    &&& r is Download
                    &&& r->Download_path@ == path
                    &&& r->url@ == u
                    &&& r->script@ == download_script(u, path)
                    &&& text::opt_text(r->sha256) == expected_digest(j)
                },
                None => {
                    &&& r is Write
                    &&& r->Write_path@ == path
                    &&& crypto::b64_decoded(j.member_text("content_b64"@)->0) == Some(r->bytes@)
                },
            }
        },
    }
}

/// The names in the script of a download end none of its quoted literals, and a file is never
/// put into a store that is not to be read.
pub proof fn a_pushed_name_ends_no_literal(p: Option<JsonV>, r: PushPlan)
    requires
        push_ok(p, r),
        r is Download,
    ensures
        r->script@ == download_script(r->url@, r->Download_path@),
        forall|i: int| 0 <= i < r->url@.len() ==> #[trigger] r->url@[i] != '\'',
        forall|i: int| 0 <= i < r->Download_path@.len() ==> #[trigger] r->Download_path@[i] != '\'',
        !fs::in_store(fs::norm_path(r->Download_path@)),
{
    let j = p->0;
    assert(path_safe(r->Download_path@) && url_safe(r->url@));
    assert forall|i: int| 0 <= i < r->url@.len() implies #[trigger] r->url@[i] != '\'' by {
        assert(!breaks_url(r->url@[i]));
    }
    assert forall|i: int| 0 <= i < r->Download_path@.len() implies #[trigger] r->Download_path@[i]
        != '\'' by {
        assert(!breaks_quote(r->Download_path@[i]));
    }
}

/// What an ask to put a file on the device comes to, given what it holds as JSON.
pub fn push_plan(p: &Option<Json>) -> (r: PushPlan)
    ensures
        push_ok(json::opt_model(*p), r),
{
    let j = match p {
        Some(j) => j,
        None => {
            return PushPlan::Refuse(failed("file-push needs JSON {path, url|content_b64}"));
        },
    };
    let path = trim(j.get_str_or_empty("path").as_str());
    if !safe_path(path.as_str()) {
        return PushPlan::Refuse(failed("invalid destination path"));
    }
    if sensitive_path(path.as_str()) {
        return PushPlan::Refuse(failed(SENSITIVE_DENIED));
    }
    let sha256_given = get_filled(j, "sha256");
    let expected: Option<String> = match &sha256_given {
        Some(s) => {
            if !digest_ok(s.as_str()) {
                return PushPlan::Refuse(failed("sha256 must be 64 hex characters"));
            }
            Some(to_ascii_lower(s.as_str()))
        },
        None => None,
    };
    if let Some(url) = get_filled(j, "url") {
        if !safe_url(url.as_str()) {
            return PushPlan::Refuse(failed("url must be http(s) with no spaces/quotes"));
        }
        let script =
            "$ProgressPreference='SilentlyContinue'; Invoke-WebRequest -Uri '".to_owned().concat(
            url.as_str(),
        ).concat("' -OutFile '").concat(path.as_str()).concat("' -UseBasicParsing; 'ok'");
        return PushPlan::Download { path, url, script, sha256: expected };
    }
    match j.get_str("content_b64") {
        Some(b) => match b64_decode(b) {
            Some(bytes) => {
                if let Some(want) = &expected {
                    let computed = to_hex(sha256(bytes.as_slice()).as_slice());
                    if !same(computed.as_str(), want.as_str()) {
                        return PushPlan::Refuse(
                            failed(cat("sha256 mismatch: computed ", computed.as_str()).as_str()),
                        );
                    }
                }
                PushPlan::Write { path, bytes }
            },
            None => PushPlan::Refuse(failed("content_b64 is not valid base64")),
        },
        None => PushPlan::Refuse(failed("file-push needs either url or content_b64")),
    }
}

/// What an ask to put a file on the device comes to.
pub fn file_push(params: Option<&str>) -> (r: PushPlan)
    ensures
        push_ok(
            match params {
                Some(s) => json::parsed(s@),
                None => None,
            },
            r,
        ),
{
    let p: Option<Json> = match params {
        Some(s) => from_text(s),
        None => None,
    };
    push_plan(&p)
}

/// What holding a downloaded file against its digest comes to.
pub enum DownloadCheck {
    /// It is the file that was expected.
    Good,
    /// It could not be read.
    Unreadable(Json),
    /// It is another file and is to be removed.
    Mismatch(Json),
}

/// Holds a downloaded file against its digest.
pub fn check_download(path: &str, expected: &str, content: &Option<Vec<u8>>) -> (r: DownloadCheck)
    ensures
        match *content {
            None => r is Unreadable && r->Unreadable_0@ == failed_v(
                "downloaded to "@ + path@ + " but could not read it back to verify sha256"@,
            ),
            Some(b) => if num::hex(crypto::sha256_digest(b@)) == expected@ {
                r is Good
            } else {
                r is Mismatch && r->Mismatch_0@ == failed_v(
                    "sha256 mismatch: computed "@ + num::hex(crypto::sha256_digest(b@))
                        + "; the downloaded file was removed"@,
                )
            },
        },
{
    match content {
        None => DownloadCheck::Unreadable(
            failed(
                cat3(
                    "downloaded to ",
                    path,
                    " but could not read it back to verify sha256",
                ).as_str(),
            ),
        ),
        Some(b) => {
            let computed = to_hex(sha256(b.as_slice()).as_slice());
            if same(computed.as_str(), expected) {
                DownloadCheck::Good
            } else {
                DownloadCheck::Mismatch(
                    failed(
                        cat3(
                            "sha256 mismatch: computed ",
                            computed.as_str(),
                            "; the downloaded file was removed",
                        ).as_str(),
                    ),
                )
            }
        },
    }
}

/// The answer after bytes were written.
pub fn push_written(count: u64, path: &str) -> (r: Json)
    ensures
        r@ == done_v("wrote "@ + num::dec(count as nat) + " bytes to "@ + path@),
{
    let text = "wrote ".to_owned().concat(dec_u64(count).as_str()).concat(" bytes to ").concat(
        path,
    );
    done(text.as_str())
}

/// What a download that succeeded is answered with.
pub fn download_label(path: &str) -> (r: String)
    ensures
        r@ == "downloaded to "@ + path@,
{
    cat("downloaded to ", path)
}

/// The answer after a command was run: its label, or what it wrote to its error stream.
pub fn run_action(success: bool, ok_label: &str, stderr: &[u8]) -> (r: Json)
    ensures
        r@ == (if success {
            done_v(ok_label@)
        } else {
            failed_v(text::first_chars(text::trim_v(text::lossy(stderr@)), 300))
        }),
{
    if success {
        return done(ok_label);
    }
    let text = trim(from_utf8_lossy(stderr).as_str());
    failed(take_chars(text.as_str(), 300).as_str())
}

/// The log that an ask names; nothing means the main log.
pub open spec fn log_name_v(raw: Seq<char>, ask: Option<JsonV>) -> Option<Seq<char>> {
    if raw.len() == 0 {
        None
    } else {
        match ask {
            Some(JsonV::Obj(m)) => first_filled(
                JsonV::Obj(m),
                seq!["name"@, "file"@, "log"@],
            ),
            Some(JsonV::Str(s)) => if text::blank(s) {
                None
            } else {
                Some(text::trim_v(s))
            },
            Some(_) => None,
            None => Some(raw),
        }
    }
}

/// The log that an ask names, given what it holds as JSON.
pub fn log_name(raw: &str, ask: &Option<Json>) -> (r: Option<String>)
    ensures
        text::opt_text(r) == log_name_v(raw@, json::opt_model(*ask)),
{
    if raw.is_empty() {
        return None;
    }
    match ask {
        Some(j) => {
            if j.is_object() {
                let keys: [&str; 3] = ["name", "file", "log"];
                let r = find_filled(j, keys.as_slice());
                assert(names_v(keys@) =~= seq!["name"@, "file"@, "log"@]);
                return r;
            }
            match j.as_str() {
                Some(s) => {
                    let t = trim(s);
                    if t.as_str().is_empty() {
                        None
                    } else {
                        Some(t)
                    }
                },
                None => None,
            }
        },
        None => Some(raw.to_owned()),
    }
}

/// The log that an ask names.
pub fn wanted_log(params: Option<&str>) -> (r: Option<String>)
    ensures
        ({
            let raw = text::trim_v(
                match params {
                    Some(p) => p@,
                    None => seq![],
                },
            );
            text::opt_text(r) == log_name_v(raw, json::parsed(raw))
        }),
{
    let given: String = match params {
        Some(p) => p.to_owned(),
        None => String::new(),
    };
    let raw = trim(given.as_str());
    let ask = from_text(raw.as_str());
    log_name(raw.as_str(), &ask)
}

/// The bytes of a log's tail, from its first whole line on where it was cut.
pub open spec fn whole_lines(bytes: Seq<u8>, cut: bool) -> Seq<u8> {
    if cut && line_feed(bytes) < bytes.len() {
        bytes.skip(line_feed(bytes) + 1)
    } else {
        bytes
    }
}

/// The first line feed of bytes, or their number.
pub open spec fn line_feed(b: Seq<u8>) -> int
    decreases b.len(),
{
    if b.len() == 0 || b[0] == 10 {
        0
    } else {
        1 + line_feed(b.drop_first())
    }
}

fn find_line_feed(b: &Vec<u8>) -> (r: usize)
    ensures
        r == line_feed(b@),
        r <= b@.len(),
{
    let mut i: usize = 0;
    assert(b@.skip(0) == b@);
    while i < b.len() && b[i] != 10
        invariant
            i <= b@.len(),
            line_feed(b@) == i + line_feed(b@.skip(i as int)),
        decreases b@.len() - i,
    {
        assert(b@.skip(i as int).drop_first() == b@.skip(i + 1));
        i = i + 1;
    }
    i
}

/// The last bytes of a log, as many as are handed out.
pub open spec fn last_bytes(bytes: Seq<u8>) -> Seq<u8> {
    if bytes.len() > PULL_CAP {
        bytes.skip(bytes.len() - PULL_CAP)
    } else {
        bytes
    }
}

/// The answer with the tail of a log.
pub open spec fn log_answer_v(path: Seq<char>, size: int, bytes: Seq<u8>) -> JsonV {
    JsonV::empty().with("ok"@, JsonV::Bool(true)).with("path"@, JsonV::Str(path)).with(
        "size"@,
        JsonV::Int(size),
    ).with("truncated"@, JsonV::Bool(size > PULL_CAP)).with(
        "encoding"@,
        JsonV::Str("text"@),
    ).with("content"@, JsonV::Str(text::lossy(whole_lines(last_bytes(bytes), size > PULL_CAP))))
}

fn bytes_from(b: &Vec<u8>, from: usize) -> (r: Vec<u8>)
    requires
        from <= b@.len(),
    ensures
        r@ == b@.skip(from as int),
{
    let mut out: Vec<u8> = Vec::new();
    let mut i: usize = from;
    while i < b.len()
        invariant
            from <= i <= b@.len(),
            out@ == b@.subrange(from as int, i as int),
        decreases b@.len() - i,
    {
        out.push(b[i]);
        i = i + 1;
        assert(out@ =~= b@.subrange(from as int, i as int));
    }
    assert(out@ =~= b@.skip(from as int));
    out
}

/// The answer with the tail of a log of `size` bytes, which end in `bytes`.
pub fn client_log_pull(path: &str, size: u64, bytes: &Vec<u8>) -> (r: Json)
    ensures
        r@ == log_answer_v(path@, size as int, bytes@),
{
    let truncated = size > PULL_CAP as u64;
    let start: usize = if bytes.len() > PULL_CAP {
        bytes.len() - PULL_CAP
    } else {
        0
    };
    let last = bytes_from(bytes, start);
    assert(last@ =~= last_bytes(bytes@));
    let mut from: usize = 0;
    if truncated {
        let nl: usize = find_line_feed(&last);
        if nl < last.len() {
            from = nl + 1;
        }
    }
    let tail = bytes_from(&last, from);
    assert(tail@ =~= whole_lines(last@, truncated));
    let text = from_utf8_lossy(tail.as_slice());
    Json::object().with("ok", Json::Bool(true)).with("path", Json::text(path)).with(
        "size",
        Json::UInt(size),
    ).with("truncated", Json::Bool(truncated)).with("encoding", Json::text("text")).with(
        "content",
        Json::Str(text),
    )
}

/// The answer where the newest log is older than the running build.
pub fn stale_against_running_build(
    path: &str,
    exe_at: Option<i128>,
    log_at: Option<i128>,
) -> (r: Option<Json>)
    ensures
        json::opt_model(r) == (if exe_at is Some && log_at is Some && log_at->0 < exe_at->0 {
            Some(
                failed_v(
                    path@
                        + " is the newest log this layout offers, and it has not been written since the running build was installed — it predates this client and holds nothing it logged"@,
                ),
            )
        } else {
            None
        }),
{
    match (exe_at, log_at) {
        (Some(e), Some(l)) => if l >= e {
            None
        } else {
            Some(
                failed(
                    cat(
                        path,
                        " is the newest log this layout offers, and it has not been written since the running build was installed — it predates this client and holds nothing it logged",
                    ).as_str(),
                ),
            )
        },
        _ => None,
    }
}

/// A file of a log directory: its name, and when it was last written, where that is known.
pub struct LogFile {
    pub name: String,
    pub path: String,
    pub modified: Option<i128>,
}

/// A file name with the extension `log`.
pub open spec fn is_log_name(name: Seq<char>) -> bool {
    name.len() > 4 && text::suffixed(name, ".log"@)
}

/// Whether a file name has the extension `log`.
pub fn log_name_ok(name: &str) -> (r: bool)
    ensures
        r == is_log_name(name@),
{
    let v = chars_of(name);
    v.len() > 4 && ends_with(name, ".log")
}

/// A file that can be the newest log.
pub open spec fn is_log(f: LogFile) -> bool {
    is_log_name(f.name@) && f.modified is Some
}

/// A log is among the newest of a list: no other log was written after it.
pub open spec fn newest(s: Seq<LogFile>, i: int) -> bool {
    &&& 0 <= i < s.len()
    &&& is_log(s[i])
    &&& forall|k: int|
        0 <= k < s.len() && is_log(#[trigger] s[k]) ==> s[k].modified->0 <= s[i].modified->0
}

/// A log is the newest of a list; among equals the first, or the last where `last` is set.
pub open spec fn chosen(s: Seq<LogFile>, last: bool, i: int) -> bool {
    &&& newest(s, i)
    &&& forall|k: int| #[trigger]
        newest(s, k) ==> (if last {
            k <= i
        } else {
            i <= k
        })
}

/// A list holds no log.
pub open spec fn no_log(s: Seq<LogFile>) -> bool {
    forall|k: int| 0 <= k < s.len() ==> !is_log(#[trigger] s[k])
}

/// The newest log of a list; among equals the first, or the last where `last` is set.
pub fn newest_log(s: &Vec<LogFile>, last: bool) -> (r: Option<usize>)
    ensures
        match r {
            Some(i) => chosen(s@, last, i as int),
            None => no_log(s@),
        },
{
    let mut best: Option<(usize, i128)> = None;
    let mut i: usize = 0;
    while i < s.len()
        invariant
            i <= s@.len(),
            match best {
                Some((b, t)) => {
                    &&& b < i
                    &&& is_log(s@[b as int])
                    &&& s@[b as int].modified == Some(t)
                    &&& forall|k: int|
                        0 <= k < i && is_log(#[trigger] s@[k]) ==> s@[k].modified->0 <= t
                    &&& forall|k: int|
                        0 <= k < i && is_log(#[trigger] s@[k]) && s@[k].modified->0 == t ==> (
                        if last {
                            k <= b
                        } else {
                            b <= k
                        })
                },
                None => forall|k: int| 0 <= k < i ==> !is_log(#[trigger] s@[k]),
            },
        decreases s@.len() - i,
    {
        if log_name_ok(s[i].name.as_str()) {
            if let Some(m) = s[i].modified {
                match best {
                    None => {
                        best = Some((i, m));
                    },
                    Some((b, t)) => {
                        if m > t || (last && m >= t) {
                            best = Some((i, m));
                        }
                    },
                }
            }
        }
        i = i + 1;
    }
    match best {
        Some((b, _)) => Some(b),
        None => None,
    }
}

/// Which list the main log is taken from.
#[derive(Clone, Copy, PartialEq, Eq, Structural)]
pub enum LogPlace {
    Server(usize),
    Root(usize),
    Anywhere(usize),
}

/// The main log: the newest of the service's own directory, else of the log directory, else of
/// any directory below it.
pub fn main_log(server: &Vec<LogFile>, root: &Vec<LogFile>, anywhere: &Vec<LogFile>) -> (r: Option<
    LogPlace,
>)
    ensures
        match r {
            Some(LogPlace::Server(i)) => chosen(server@, true, i as int),
            Some(LogPlace::Root(i)) => no_log(server@) && chosen(root@, true, i as int),
            Some(LogPlace::Anywhere(i)) => no_log(server@) && no_log(root@) && chosen(
                anywhere@,
                false,
                i as int,
            ),
            None => no_log(server@) && no_log(root@) && no_log(anywhere@),
        },
{
    if let Some(i) = newest_log(server, true) {
        return Some(LogPlace::Server(i));
    }
    if let Some(i) = newest_log(root, true) {
        return Some(LogPlace::Root(i));
    }
    match newest_log(anywhere, false) {
        Some(i) => Some(LogPlace::Anywhere(i)),
        None => None,
    }
}

/// The name of a log below the log directory, in the separators of the system.
pub fn log_below(name: &str) -> (r: String)
    ensures
        r@ == text::replace_v(name@, "/"@, "\\"@),
{
    proof {
        reveal_strlit("/");
    }
    replace(name, "/", "\\")
}

/// Whether a place lies in a directory, both given part by part.
pub fn is_below(place: &Vec<String>, dir: &Vec<String>) -> (r: bool)
    ensures
        r == text::texts(dir@).is_prefix_of(text::texts(place@)),
{
    let ghost p = text::texts(place@);
    let ghost d = text::texts(dir@);
    if place.len() < dir.len() {
        return false;
    }
    let mut i: usize = 0;
    while i < dir.len()
        invariant
            i <= dir@.len() <= place@.len(),
            p == text::texts(place@),
            d == text::texts(dir@),
            forall|k: int| 0 <= k < i ==> #[trigger] d[k] == p[k],
        decreases dir@.len() - i,
    {
        assert(d[i as int] == dir@[i as int]@ && p[i as int] == place@[i as int]@);
        if !same(dir[i].as_str(), place[i].as_str()) {
            assert(p.subrange(0, d.len() as int)[i as int] == p[i as int]);
            return false;
        }
        i = i + 1;
    }
    assert(d =~= p.subrange(0, d.len() as int));
    true
}

/// Whether a named log may be read: it is a file of the log directory, as far as both places
/// could be resolved.
pub fn named_log(
    name: &str,
    place: &Option<Vec<String>>,
    dir: &Option<Vec<String>>,
    is_file: bool,
) -> (r: Option<Json>)
    ensures
        json::opt_model(r) == (if place is Some && dir is Some && text::texts(
            dir->0@,
        ).is_prefix_of(text::texts(place->0@)) && is_file {
            None
        } else {
            Some(failed_v("no such log: "@ + name@))
        }),
{
    if let (Some(p), Some(d)) = (place, dir) {
        if is_below(p, d) && is_file {
            return None;
        }
    }
    Some(failed(cat("no such log: ", name).as_str()))
}

/// The answer where a log directory holds no log.
pub fn no_main_log(dir: &str) -> (r: Json)
    ensures
        r@ == failed_v("no .log under "@ + dir@),
{
    failed(cat("no .log under ", dir).as_str())
}

/// The answer after every authorised connection was closed.
pub fn disconnect_sessions(closed: u64, skipped_port_forward: u64, peers: &Vec<String>) -> (r: Json)
    ensures
        r@ == JsonV::empty().with("ok"@, JsonV::Bool(true)).with(
            "closed"@,
            JsonV::Int(closed as int),
        ).with("peers"@, json::text_list(text::texts(peers@))).with(
            "skipped_port_forward"@,
            JsonV::Int(skipped_port_forward as int),
        ),
{
    Json::object().with("ok", Json::Bool(true)).with("closed", Json::UInt(closed)).with(
        "peers",
        text_array(peers),
    ).with("skipped_port_forward", Json::UInt(skipped_port_forward))
}

/// A name in a push is safe to stand between quotation marks of a script.
pub open spec fn quotable_path(s: Seq<char>) -> bool {
    &&& 0 < s.len()
    &&& text::byte_len(s) <= 1024
    &&& !s.contains('\'') && !s.contains('"') && !s.contains('\n') && !s.contains('\r')
        && !s.contains('`')
}

/// A push that is not refused goes to the path that it names, trimmed, which is safe to quote
/// and lies in no store of secrets. One with an address is downloaded from there by a script
/// that names that address and that path; one with content writes the bytes of that content. A
/// digest that it gives is held against the bytes, or handed on for the download.
pub proof fn a_push_does_what_it_names(j: JsonV, r: PushPlan)
    requires
        push_ok(Some(j), r),
    ensures
        !(r is Refuse) ==> {
            let path = text::trim_v(j.member_or_empty("path"@));
            quotable_path(path) && !fs::in_store(fs::norm_path(path))
        },
        r matches PushPlan::Download { path, url, script, sha256 } ==> {
            let u = text::trim_v(j.member_or_empty("url"@));
            let h = text::trim_v(j.member_or_empty("sha256"@));
            &&& path@ == text::trim_v(j.member_or_empty("path"@))
            &&& u.len() > 0 && url@ == u
            &&& text::prefixed(u, "http://"@) || text::prefixed(u, "https://"@)
            &&& !u.contains('\'') && !u.contains('"') && !u.contains('`') && !u.contains(' ')
            &&& script@ == "$ProgressPreference='SilentlyContinue'; Invoke-WebRequest -Uri '"@ + u
                + "' -OutFile '"@ + path@ + "' -UseBasicParsing; 'ok'"@
            &&& h.len() == 0 ==> sha256 is None
            &&& h.len() > 0 ==> sha256 is Some && sha256->0@ == text::ascii_lower(h) && h.len()
                == 64
        },
        r matches PushPlan::Write { path, bytes } ==> {
            let h = text::trim_v(j.member_or_empty("sha256"@));
            &&& path@ == text::trim_v(j.member_or_empty("path"@))
            &&& text::trim_v(j.member_or_empty("url"@)).len() == 0
            &&& j.member("content_b64"@) matches Some(JsonV::Str(b)) && crypto::b64_decoded(b)
                == Some(bytes@)
            &&& h.len() > 0 ==> text::ascii_lower(h) == num::hex(crypto::sha256_digest(bytes@))
        },
{
    let path = text::trim_v(j.member_or_empty("path"@));
    if !(r is Refuse) {
        if path.contains('\'') || path.contains('"') || path.contains('\n') || path.contains('\r')
            || path.contains('`') {
            let i = choose|i: int| 0 <= i < path.len() && breaks_quote(#[trigger] path[i]);
            assert(!breaks_quote(path[i]));
        }
    }
    if r is Download {
        let u = text::trim_v(j.member_or_empty("url"@));
        assert(text::white_space(' '));
        if u.contains('\'') || u.contains('"') || u.contains('`') || u.contains(' ') {
            let i = choose|i: int| 0 <= i < u.len() && breaks_url(#[trigger] u[i]);
            assert(!breaks_url(u[i]));
        }
    }
}

/// A push is owed where its path is safe and in no store and it gives no digest: a download
/// from a safe address, else the bytes of content that decodes.
pub proof fn a_sound_push_is_not_refused(j: JsonV, r: PushPlan)
    requires
        push_ok(Some(j), r),
        path_safe(text::trim_v(j.member_or_empty("path"@))),
        !fs::in_store(fs::norm_path(text::trim_v(j.member_or_empty("path"@)))),
        text::trim_v(j.member_or_empty("sha256"@)).len() == 0,
    ensures
        ({
            let u = text::trim_v(j.member_or_empty("url"@));
            u.len() > 0 ==> (r is Download <==> url_safe(u))
        }),
        text::trim_v(j.member_or_empty("url"@)).len() == 0 && (j.member("content_b64"@) matches Some(
            JsonV::Str(b),
        ) && crypto::b64_decoded(b) is Some) ==> r is Write,
{
}

/// A file is handed out as its first 128 KiB, as text where that is UTF-8 and else in base64,
/// and it is said whether that is all of it.
pub proof fn a_file_is_handed_out_from_its_start(path: Seq<char>, size: int, bytes: Seq<u8>)
    ensures
        ({
            let v = pulled_v(path, size, bytes);
            let part = if bytes.len() <= 131_072 {
                bytes
            } else {
                bytes.subrange(0, 131_072)
            };
            &&& v.member("ok"@) == Some(JsonV::Bool(true))
            &&& v.member("path"@) == Some(JsonV::Str(path))
            &&& v.member("truncated"@) == Some(JsonV::Bool(bytes.len() > 131_072))
            &&& size >= part.len() ==> v.member("size"@) == Some(JsonV::Int(size))
            &&& vstd::utf8::valid_utf8(part) ==> v.member("encoding"@) == Some(JsonV::Str("text"@))
                && v.member("content"@) == Some(JsonV::Str(vstd::utf8::decode_utf8(part)))
            &&& !vstd::utf8::valid_utf8(part) ==> v.member("encoding"@) == Some(
                JsonV::Str("base64"@),
            ) && v.member("content"@) == Some(JsonV::Str(crypto::b64_encoded(part)))
        }),
{
    let part = if bytes.len() <= 131_072 {
        bytes
    } else {
        bytes.subrange(0, 131_072)
    };
    assert(handed_out(bytes) =~= part);
    lemma_answer_names();
}

proof fn lemma_answer_names()
    ensures
        "ok"@.len() == 2,
        "path"@.len() == 4,
        "size"@.len() == 4,
        "path"@ != "size"@,
        "truncated"@.len() == 9,
        "encoding"@.len() == 8,
        "content"@.len() == 7,
{
    reveal_strlit("ok");
    reveal_strlit("path");
    reveal_strlit("size");
    reveal_strlit("truncated");
    reveal_strlit("encoding");
    reveal_strlit("content");
    assert("path"@[0] == 'p' && "size"@[0] == 's');
}

/// The tail of a log begins behind the first line feed of what was read, where it was cut; else
/// it is what was read.
pub proof fn a_cut_log_begins_with_a_whole_line(a: Seq<u8>, b: Seq<u8>)
    requires
        !a.contains(10u8),
    ensures
        whole_lines(a + seq![10u8] + b, true) == b,
        whole_lines(a, true) == a,
        whole_lines(a + seq![10u8] + b, false) == a + seq![10u8] + b,
{
    lemma_line_feed(a, b);
    lemma_no_line_feed(a);
    let s = a + seq![10u8] + b;
    assert(s.skip(a.len() + 1int) =~= b);
}

proof fn lemma_line_feed(a: Seq<u8>, b: Seq<u8>)
    requires
        !a.contains(10u8),
    ensures
        line_feed(a + seq![10u8] + b) == a.len(),
    decreases a.len(),
{
    let s = a + seq![10u8] + b;
    if a.len() > 0 {
        assert(a[0] != 10);
        assert(s[0] == a[0]);
        let t = a.drop_first();
        assert forall|i: int| 0 <= i < t.len() implies t[i] != 10 by {
            assert(t[i] == a[i + 1]);
        }
        assert(!t.contains(10u8));
        lemma_line_feed(t, b);
        assert(s.drop_first() =~= t + seq![10u8] + b);
    } else {
        assert(s[0] == 10);
    }
}

proof fn lemma_no_line_feed(a: Seq<u8>)
    requires
        !a.contains(10u8),
    ensures
        line_feed(a) == a.len(),
    decreases a.len(),
{
    if a.len() > 0 {
        assert(a[0] != 10);
        let t = a.drop_first();
        assert forall|i: int| 0 <= i < t.len() implies t[i] != 10 by {
            assert(t[i] == a[i + 1]);
        }
        lemma_no_line_feed(t);
    }
}

/// The last 128 KiB of a log are handed out, and it is said whether they are all of it.
pub proof fn a_log_is_handed_out_from_its_end(path: Seq<char>, size: int, bytes: Seq<u8>)
    ensures
        ({
            let v = log_answer_v(path, size, bytes);
            let n = bytes.len() as int;
            let part = if n <= 131_072 {
                bytes
            } else {
                bytes.subrange(n - 131_072, n)
            };
            &&& v.member("ok"@) == Some(JsonV::Bool(true))
            &&& v.member("path"@) == Some(JsonV::Str(path))
            &&& v.member("size"@) == Some(JsonV::Int(size))
            &&& v.member("truncated"@) == Some(JsonV::Bool(size > 131_072))
            &&& v.member("encoding"@) == Some(JsonV::Str("text"@))
            &&& v.member("content"@) == Some(
                JsonV::Str(text::lossy(whole_lines(part, size > 131_072))),
            )
        }),
{
    let n = bytes.len() as int;
    let part = if n <= 131_072 {
        bytes
    } else {
        bytes.subrange(n - 131_072, n)
    };
    assert(last_bytes(bytes) =~= part);
    lemma_answer_names();
}

/// Of several names for one thing the first that holds a text counts, trimmed.
pub proof fn the_first_filled_name_counts(o: JsonV, keys: Seq<Seq<char>>, i: int)
    requires
        0 <= i < keys.len(),
        forall|k: int|
            0 <= k < i ==> text::trim_v(o.member_or_empty(#[trigger] keys[k])).len() == 0,
    ensures
        text::trim_v(o.member_or_empty(keys[i])).len() > 0 ==> first_filled(o, keys) == Some(
            text::trim_v(o.member_or_empty(keys[i])),
        ),
        i == keys.len() - 1 && text::trim_v(o.member_or_empty(keys[i])).len() == 0 ==> first_filled(
            o,
            keys,
        ) is None,
    decreases keys.len(),
{
    if i > 0 {
        let t = keys.drop_first();
        assert(text::trim_v(o.member_or_empty(keys[0])).len() == 0);
        assert forall|k: int| 0 <= k < i - 1 implies text::trim_v(
            o.member_or_empty(#[trigger] t[k]),
        ).len() == 0 by {
            assert(t[k] == keys[k + 1]);
        }
        the_first_filled_name_counts(o, t, i - 1);
        assert(t[i - 1] == keys[i]);
    } else if keys.len() == 1 {
        assert(first_filled(o, keys.drop_first()) is None);
    }
}

/// A bare text is the value itself; an object gives the first of its names that is filled, or
/// nothing; a quoted text gives what it quotes, trimmed.
pub proof fn a_value_comes_bare_or_by_name(
    raw: Seq<char>,
    ask: Option<JsonV>,
    keys: Seq<Seq<char>>,
    s: Seq<char>,
)
    requires
        raw.len() > 0,
    ensures
        raw[0] != '{' && raw[0] != '"' ==> field_or_raw_v(raw, ask, keys) == raw,
        ask is None ==> field_or_raw_v(raw, ask, keys) == raw,
        (raw[0] == '{' || raw[0] == '"') && ask == Some(JsonV::Str(s)) ==> field_or_raw_v(
            raw,
            ask,
            keys,
        ) == text::trim_v(s),
        (raw[0] == '{' || raw[0] == '"') && ask is Some && ask->0 is Obj ==> match first_filled(
            ask->0,
            keys,
        ) {
            Some(t) => field_or_raw_v(raw, ask, keys) == t,
            None => field_or_raw_v(raw, ask, keys).len() == 0,
        },
{
}

/// A file is pulled by the path that is named, trimmed, unless there is none or it lies in a
/// store of secrets.
pub proof fn a_named_file_is_pulled(named: Seq<char>)
    ensures
        pull_path_v(named) is Ok <==> text::trim_v(named).len() > 0 && !fs::in_store(
            fs::norm_path(text::trim_v(named)),
        ),
        pull_path_v(named) is Ok ==> pull_path_v(named)->Ok_0 == text::trim_v(named),
{
}

/// A log is known by its ending, and a name that is only the ending is none.
pub proof fn a_log_ends_in_log(stem: Seq<char>)
    ensures
        is_log_name(stem + ".log"@) <==> stem.len() > 0,
{
    reveal_strlit(".log");
    let s = stem + ".log"@;
    assert(s.skip(s.len() - 4) =~= ".log"@);
}

/// The answers that something was done and that something went wrong.
pub proof fn an_answer_says_how_it_went(t: Seq<char>)
    ensures
        failed_v(t).member("ok"@) == Some(JsonV::Bool(false)),
        failed_v(t).member("error"@) == Some(JsonV::Str(t)),
        done_v(t).member("ok"@) == Some(JsonV::Bool(true)),
        done_v(t).member("result"@) == Some(JsonV::Str(t)),
{
    reveal_strlit("ok");
    reveal_strlit("error");
    reveal_strlit("result");
    assert("ok"@.len() == 2);
    assert("error"@.len() == 5);
    assert("result"@.len() == 6);
}

/// When a file is put on the device: its path is sound and not of a store of secrets, a digest is
/// sixty-four hexadecimal digits, and its address is sound or its content is there, with that
/// digest.
pub proof fn a_push_is_refused_for_a_reason(
    j: JsonV,
    path: Seq<char>,
    url: Seq<char>,
    content: Seq<char>,
    digest: Seq<char>,
)
    requires
        j.member("path"@) == Some(JsonV::Str(path)),
        text::trim_v(path) == path,
    ensures
        !path_safe(path) ==> push_error(Some(j)) == Some("invalid destination path"@),
        path_safe(path) && fs::in_store(fs::norm_path(path)) ==> push_error(Some(j)) == Some(
            SENSITIVE_DENIED@,
        ),
        ({
            let open_path = path_safe(path) && !fs::in_store(fs::norm_path(path));
            let plain = j.member("sha256"@) is None;
            let by_url = j.member("url"@) == Some(JsonV::Str(url)) && url.len() > 0 && text::trim_v(
                url,
            ) == url;
            let by_content = j.member("url"@) is None && j.member("content_b64"@) == Some(
                JsonV::Str(content),
            );
            let summed = j.member("sha256"@) == Some(JsonV::Str(digest)) && digest.len() > 0
                && text::trim_v(digest) == digest;
            &&& open_path && plain && by_url ==> (push_error(Some(j)) is None <==> url_safe(url))
            &&& open_path && plain && by_content ==> (push_error(Some(j)) is None
                <==> crypto::b64_decoded(content) is Some)
            &&& open_path && plain && j.member("url"@) is None && j.member("content_b64"@) is None
                ==> push_error(Some(j)) is Some
            &&& open_path && summed && digest.len() != 64 ==> push_error(Some(j)) == Some(
                "sha256 must be 64 hex characters"@,
            )
            &&& open_path && summed && by_content && is_digest(digest) ==> (push_error(Some(j))
                is None <==> crypto::b64_decoded(content) is Some && num::hex(
                crypto::sha256_digest(crypto::b64_decoded(content)->0),
            ) == text::ascii_lower(digest))
        }),
        push_error(None) is Some,
{
}

/// What can stand in a quoted literal: no quote, no backtick and no line break, and no more than
/// a bounded number of bytes; of an address also no blank, and one of the web's beginnings.
pub proof fn a_literal_stays_whole(s: Seq<char>)
    ensures
        path_safe(s) <==> s.len() > 0 && text::byte_len(s) <= 1024 && !s.contains('\'')
            && !s.contains('"') && !s.contains('`') && !s.contains('\n') && !s.contains('\r'),
        url_safe(s) ==> !s.contains(' ') && !s.contains('\'') && !s.contains('"') && !s.contains(
            '`',
        ) && !s.contains('\n') && text::byte_len(s) <= 2048,
        url_safe(s) ==> text::prefixed(s, "http://"@) || text::prefixed(s, "https://"@),
{
    if path_safe(s) {
        assert forall|c: char| breaks_quote(c) implies !s.contains(c) by {
            if s.contains(c) {
                let i = choose|i: int| 0 <= i < s.len() && s[i] == c;
                assert(!breaks_quote(s[i]));
            }
        }
        assert(breaks_quote('\'') && breaks_quote('"') && breaks_quote('`') && breaks_quote('\n')
            && breaks_quote('\r'));
    }
    if s.len() > 0 && text::byte_len(s) <= 1024 && !s.contains('\'') && !s.contains('"')
        && !s.contains('`') && !s.contains('\n') && !s.contains('\r') {
        assert forall|i: int| 0 <= i < s.len() implies !breaks_quote(#[trigger] s[i]) by {
            assert(s.contains(s[i]));
        }
    }
    if url_safe(s) {
        assert forall|c: char| breaks_url(c) implies !s.contains(c) by {
            if s.contains(c) {
                let i = choose|i: int| 0 <= i < s.len() && s[i] == c;
                assert(!breaks_url(s[i]));
            }
        }
        assert(breaks_url(' ') && breaks_url('\'') && breaks_url('"') && breaks_url('`')
            && breaks_url('\n'));
    }
}

/// A digest is sixty-four hexadecimal digits.
pub proof fn a_digest_is_hexadecimal(b: Seq<u8>)
    requires
        b.len() == 32,
    ensures
        is_digest(num::hex(b)),
        forall|s: Seq<char>| #[trigger] is_digest(s) ==> s.len() == 64 && wol::hex_digits(s) == s,
{
    let h = num::hex(b);
    assert forall|i: int| 0 <= i < h.len() implies wol::is_hex(#[trigger] h[i]) by {
        let d = if i % 2 == 0 {
            b[i / 2] as int / 16
        } else {
            b[i / 2] as int % 16
        };
        assert(0 <= d < 16);
        crate::wol::lemma_digit_value(d);
    }
    assert forall|s: Seq<char>| #[trigger] is_digest(s) implies s.len() == 64 && wol::hex_digits(s)
        == s by {
        crate::wol::lemma_all_hex(s);
    }
}

/// The log that an ask names: the first filled name of an object, a text, or the ask as it
/// stands; an empty ask names none.
pub proof fn an_ask_names_its_log(raw: Seq<char>, v: JsonV, name: Seq<char>)
    requires
        raw.len() > 0,
        text::trim_v(name) == name,
        name.len() > 0,
    ensures
        v.member("name"@) == Some(JsonV::Str(name)) ==> log_name_v(raw, Some(v)) == Some(name),
        v.member("name"@) is None && v.member("file"@) == Some(JsonV::Str(name)) ==> log_name_v(
            raw,
            Some(v),
        ) == Some(name),
        v.member("name"@) is None && v.member("file"@) is None && v.member("log"@) == Some(
            JsonV::Str(name),
        ) ==> log_name_v(raw, Some(v)) == Some(name),
        log_name_v(raw, Some(JsonV::Str(name))) == Some(name),
        log_name_v(raw, None) == Some(raw),
        log_name_v(seq![], None) is None,
{
    let keys = seq!["name"@, "file"@, "log"@];
    assert(keys.drop_first() =~= seq!["file"@, "log"@]);
    assert(keys.drop_first().drop_first() =~= seq!["log"@]);
    reveal_with_fuel(first_filled, 4);
}

/// The log that is chosen has the name of a log and is dated, no other such is dated after it,
/// and among those of the same date it is the first, or the last where that is asked. Nothing is
/// chosen only where no file has both.
pub proof fn the_newest_log_is_chosen(s: Seq<LogFile>, last: bool, i: int, k: int)
    requires
        0 <= k < s.len(),
    ensures
        chosen(s, last, i) ==> 0 <= i < s.len() && is_log_name(s[i].name@) && s[i].modified is Some,
        chosen(s, last, i) && is_log_name(s[k].name@) && s[k].modified is Some ==> s[k].modified->0
            <= s[i].modified->0,
        chosen(s, last, i) && is_log_name(s[k].name@) && s[k].modified == s[i].modified ==> (if last {
            k <= i
        } else {
            i <= k
        }),
        no_log(s) && is_log_name(s[k].name@) ==> s[k].modified is None,
{
    if chosen(s, last, i) && is_log_name(s[k].name@) && s[k].modified is Some {
        assert(is_log(s[k]));
        if s[k].modified == s[i].modified {
            assert(newest(s, k));
        }
    }
    if no_log(s) {
        assert(!is_log(s[k]));
    }
}

} // verus!
