//! Directory listings: what a listing asks for, which entries it shows, and how its rows are
//! handed out.
use vstd::prelude::*;

use crate::crypto;
use crate::glob;
use crate::hosted;
use crate::json;
use crate::keyset;
use crate::num;
use crate::text;
use crate::crypto::sha256;
use crate::glob::glob_match;
use crate::hosted::read_ask;
use crate::json::{Json, JsonV};
use crate::keyset::page_within_budget;
use crate::num::to_hex;
use crate::text::{cat, contains, replace, to_lowercase, trim};

verus! {

/// The most rows that a listing collects.
pub const FS_CAP: usize = 1000;

/// The most entries that a listing looks at.
pub const COUNT_SCAN_CAP: u64 = 200_000;

/// The largest file whose digest a listing computes, in bytes.
pub const HASH_CAP: u64 = 67_108_864;

/// What is told of a path that is not to be read.
pub const SENSITIVE_DENIED: &'static str =
    "path is in the sensitive-store denylist (SAM/SECURITY/NTDS/DPAPI); refused";

/// A normalised path lies in a store that is not to be read.
pub open spec fn in_store(norm: Seq<char>) -> bool {
    text::occurs(norm, "\\windows\\system32\\config"@) || text::occurs(norm, "\\windows\\ntds"@) || text::occurs(
        norm,
        "\\microsoft\\protect"@,
    ) || text::occurs(norm, "\\microsoft\\credentials"@) || text::occurs(norm, "\\microsoft\\crypto"@)
}

/// Whether a normalised path lies in a store that is not to be read.
pub fn is_in_store(norm: &str) -> (r: bool)
    ensures
        r == in_store(norm@),
{
    contains(norm, "\\windows\\system32\\config") || contains(norm, "\\windows\\ntds")
        || contains(norm, "\\microsoft\\protect") || contains(norm, "\\microsoft\\credentials")
        || contains(norm, "\\microsoft\\crypto")
}

proof fn lemma_occurs_in_longer(s: Seq<char>, rest: Seq<char>, p: Seq<char>)
    requires
        text::occurs(s, p),
    ensures
        text::occurs(s + rest, p),
{
    let i = choose|i: int| 0 <= i <= s.len() && #[trigger] text::prefixed(s.skip(i), p);
    let t = (s + rest).skip(i);
    assert(t == s.skip(i) + rest);
    assert(t.take(p.len() as int) == s.skip(i).take(p.len() as int));
    assert(text::prefixed(t, p));
}

/// What lies below a store is in the store.
pub proof fn below_a_store_is_in_it(norm: Seq<char>, rest: Seq<char>)
    requires
        in_store(norm),
    ensures
        in_store(norm + rest),
{
    if text::occurs(norm, "\\windows\\system32\\config"@) {
        lemma_occurs_in_longer(norm, rest, "\\windows\\system32\\config"@);
    } else if text::occurs(norm, "\\windows\\ntds"@) {
        lemma_occurs_in_longer(norm, rest, "\\windows\\ntds"@);
    } else if text::occurs(norm, "\\microsoft\\protect"@) {
        lemma_occurs_in_longer(norm, rest, "\\microsoft\\protect"@);
    } else if text::occurs(norm, "\\microsoft\\credentials"@) {
        lemma_occurs_in_longer(norm, rest, "\\microsoft\\credentials"@);
    } else {
        lemma_occurs_in_longer(norm, rest, "\\microsoft\\crypto"@);
    }
}

/// A path with backslashes and in small letters.
pub open spec fn norm_path(p: Seq<char>) -> Seq<char> {
    text::lowercase(text::replace_v(p, "/"@, "\\"@))
}

/// Whether a path is not to be read.
pub fn sensitive_path(p: &str) -> (r: bool)
    ensures
        r == in_store(norm_path(p@)),
{
    proof {
        reveal_strlit("/");
    }
    let norm = to_lowercase(replace(p, "/", "\\").as_str());
    is_in_store(norm.as_str())
}

/// The answer of a listing that could not be made.
pub open spec fn fs_error_v(path: Seq<char>, why: Seq<char>) -> JsonV {
    JsonV::empty().with("ok"@, JsonV::Bool(false)).with("path"@, JsonV::Str(path)).with(
        "error"@,
        JsonV::Str(why),
    )
}

/// The answer of a listing that could not be made.
pub fn fs_error(path: &str, why: &str) -> (r: Json)
    ensures
        r@ == fs_error_v(path@, why@),
{
    Json::object().with("ok", Json::Bool(false)).with("path", Json::text(path)).with(
        "error",
        Json::text(why),
    )
}

/// The year, month and day that `chrono::NaiveDate::parse_from_str` reads from a text of the form
/// `%Y-%m-%d`; nothing where it refuses the text.
pub uninterp spec fn date_of(text: Seq<char>) -> Option<(int, int, int)>;

/// `chrono::NaiveDate::parse_from_str` with the format `%Y-%m-%d`: the date of a text.
#[verifier::external_body]
fn parse_date(text: &str) -> (r: Option<(i32, u32, u32)>)
    ensures
        match r {
            Some((y, m, d)) => date_of(text@) == Some((y as int, m as int, d as int)) && 1 <= m <= 12
                && 1 <= d <= 31,
            None => date_of(text@) is None,
        },
{
    let d = chrono::NaiveDate::parse_from_str(text, "%Y-%m-%d").ok()?;
    Some((chrono::Datelike::year(&d), chrono::Datelike::month(&d), chrono::Datelike::day(&d)))
}

/// From when on a file must have been changed to be listed.
#[derive(Clone, Copy, PartialEq, Eq, Structural)]
pub enum Since {
    /// Any time.
    Ever,
    /// So many days before now.
    Days(u64),
    /// The start of a day in local time.
    Date { year: i32, month: u32, day: u32 },
}

/// What a listing asks for.
pub struct FsQuery {
    pub root: String,
    pub recurse: bool,
    pub max_depth: u64,
    pub glob: Option<String>,
    pub min_size: u64,
    pub hidden: bool,
    pub hash: bool,
    pub since: Since,
}

/// How deep a listing goes.
pub open spec fn depth_of(p: JsonV) -> int {
    let asked = match p.member_uint("depth"@) {
        Some(d) => d,
        None => if p.member_truth("recurse"@) == Some(true) {
            8
        } else {
            1
        },
    };
    if asked <= 32 {
        asked
    } else {
        32
    }
}

/// The time from which on a file must have been changed.
pub open spec fn since_v(p: JsonV) -> Since {
    match p.member("modified_since"@) {
        Some(v) => match v.int64() {
            Some(d) => if d > 0 {
                Since::Days(d as u64)
            } else {
                Since::Days(0)
            },
            None => match v.text() {
                Some(s) => match date_of(text::trim_v(s)) {
                    Some((y, m, d)) => Since::Date {
                        year: y as i32,
                        month: m as u32,
                        day: d as u32,
                    },
                    None => Since::Ever,
                },
                None => Since::Ever,
            },
        },
        None => Since::Ever,
    }
}

/// What a listing asks for.
pub open spec fn query_ok(p: JsonV, q: FsQuery) -> bool {
    &&& q.root@ == text::trim_v(p.member_or_empty("path"@))
    &&& q.recurse == (p.member_truth("recurse"@) == Some(true))
    &&& q.max_depth == depth_of(p)
    &&& text::opt_text(q.glob) == (if p.member_or_empty("glob"@).len() > 0 {
        Some(p.member_or_empty("glob"@))
    } else {
        None
    })
    &&& q.min_size == (match p.member_uint("min_size"@) {
        Some(n) => n,
        None => 0,
    })
    &&& q.hidden == (p.member_truth("hidden"@) == Some(true))
    &&& q.hash == (p.member_truth("hash"@) == Some(true))
    &&& q.since == since_v(p)
}

fn flag(p: &Json, key: &str) -> (r: bool)
    ensures
        r == (p@.member_truth(key@) == Some(true)),
{
    match p.get_bool(key) {
        Some(b) => b,
        None => false,
    }
}

/// Reads what a listing asks for.
pub fn read_query(p: &Json) -> (q: FsQuery)
    ensures
        query_ok(p@, q),
{
    let root = trim(p.get_str_or_empty("path").as_str());
    let recurse = flag(p, "recurse");
    let asked: u64 = match p.get_u64("depth") {
        Some(d) => d,
        None => if recurse {
            8
        } else {
            1
        },
    };
    let max_depth: u64 = if asked <= 32 {
        asked
    } else {
        32
    };
    let g = p.get_str_or_empty("glob");
    let glob: Option<String> = if g.as_str().is_empty() {
        None
    } else {
        Some(g)
    };
    let min_size: u64 = match p.get_u64("min_size") {
        Some(n) => n,
        None => 0,
    };
    let since = match p.get("modified_since") {
        Some(v) => match v.as_i64() {
            Some(d) => if d > 0 {
                Since::Days(d as u64)
            } else {
                Since::Days(0)
            },
            None => match v.as_str() {
                Some(s) => match parse_date(trim(s).as_str()) {
                    Some((year, month, day)) => Since::Date { year, month, day },
                    None => Since::Ever,
                },
                None => Since::Ever,
            },
        },
        None => Since::Ever,
    };
    FsQuery {
        root,
        recurse,
        max_depth,
        glob,
        min_size,
        hidden: flag(p, "hidden"),
        hash: flag(p, "hash"),
        since,
    }
}

/// The value that an ask for a listing holds, and what it asks for. An ask that holds none asks
/// for nothing.
pub fn listing_query(params: Option<&str>) -> (r: (Json, FsQuery))
    ensures
        r.0@ == hosted::ask_of(text::opt_str(params)),
        query_ok(r.0@, r.1),
{
    let p = read_ask(params);
    let q = read_query(&p);
    (p, q)
}

/// The moment from which on a file must have been changed, in nanoseconds since 1970, given the
/// present moment as seconds and the nanoseconds of the second that has begun, and the start of
/// the asked day where it is known.
pub fn since_moment(since: Since, now: i64, part: u32, day_start: Option<i128>) -> (r: Option<
    i128,
>)
    ensures
        r == (match since {
            Since::Ever => None,
            Since::Days(d) => Some(((now - d * 86400) * 1_000_000_000 + part) as i128),
            Since::Date { .. } => day_start,
        }),
{
    match since {
        Since::Ever => None,
        Since::Days(d) => {
            let t: i128 = now as i128 - d as i128 * 86400;
            Some(t * 1_000_000_000 + part as i128)
        },
        Since::Date { .. } => day_start,
    }
}

/// What the root of a listing is.
pub enum RootKind {
    Directory,
    NotDirectory,
    NotFound,
    Denied,
    Other(String),
}

/// The error that a listing is answered with before its root is looked at, where it is.
pub open spec fn path_error(root: Seq<char>) -> Option<Seq<char>> {
    if root.len() == 0 {
        Some("fs needs a path (root)"@)
    } else if in_store(norm_path(root)) {
        Some(SENSITIVE_DENIED@)
    } else {
        None
    }
}

/// The answer of a listing whose root is not even to be looked at.
pub fn refuse_path(root: &str) -> (r: Option<Json>)
    ensures
        json::opt_model(r) == (match path_error(root@) {
            Some(e) => Some(fs_error_v(root@, e)),
            None => None,
        }),
{
    if root.is_empty() {
        return Some(fs_error(root, "fs needs a path (root)"));
    }
    if sensitive_path(root) {
        return Some(fs_error(root, SENSITIVE_DENIED));
    }
    None
}

/// The error that a listing is answered with before it is made, where it is.
pub open spec fn root_error(root: Seq<char>, kind: RootKind) -> Option<Seq<char>> {
    match path_error(root) {
        Some(e) => Some(e),
        None => match kind {
            RootKind::Directory => None,
            RootKind::NotDirectory => Some(
                "path exists but is not a directory; fs lists directories"@,
            ),
            RootKind::NotFound => Some("path not found"@),
            RootKind::Denied => Some("access denied reading the path"@),
            RootKind::Other(e) => Some("path could not be opened: "@ + e@),
        },
    }
}

/// The answer of a listing that cannot be made.
pub fn refuse_root(root: &str, kind: &RootKind) -> (r: Option<Json>)
    ensures
        json::opt_model(r) == (match root_error(root@, *kind) {
            Some(e) => Some(fs_error_v(root@, e)),
            None => None,
        }),
{
    if let Some(e) = refuse_path(root) {
        return Some(e);
    }
    match kind {
        RootKind::Directory => None,
        RootKind::NotDirectory => Some(
            fs_error(root, "path exists but is not a directory; fs lists directories"),
        ),
        RootKind::NotFound => Some(fs_error(root, "path not found")),
        RootKind::Denied => Some(fs_error(root, "access denied reading the path")),
        RootKind::Other(e) => Some(
            fs_error(root, cat("path could not be opened: ", e.as_str()).as_str()),
        ),
    }
}

/// One entry of a directory, with what is known of it.
pub struct Entry {
    pub name: String,
    pub path: String,
    pub is_dir: bool,
    pub size: u64,
    /// When it was last changed, in nanoseconds since 1970.
    pub modified: Option<i128>,
    /// The same as local text, empty where it is not known.
    pub modified_text: String,
    pub attrs: u32,
}

/// An entry is hidden.
pub open spec fn hidden_attr(attrs: u32) -> bool {
    attrs & 0x2 != 0
}

/// An entry leads elsewhere.
pub open spec fn reparse_attr(attrs: u32) -> bool {
    attrs & 0x400 != 0
}

/// An entry is not shown at all.
pub open spec fn passed_over(q: FsQuery, e: Entry) -> bool {
    hidden_attr(e.attrs) && !q.hidden
}

/// An entry meets what is asked of its name, its size and its age.
pub open spec fn wanted(q: FsQuery, e: Entry, since: Option<i128>) -> bool {
    &&& match q.glob {
        Some(g) => glob::search(text::lowercase(g@), text::lowercase(e.name@), 0, 0, -1, 0),
        None => true,
    }
    &&& e.is_dir || e.size >= q.min_size
    &&& match since {
        Some(t) => match e.modified {
            Some(m) => m >= t,
            None => false,
        },
        None => true,
    }
}

/// Whether an entry meets what is asked of it.
pub fn is_wanted(q: &FsQuery, e: &Entry, since: Option<i128>) -> (r: bool)
    ensures
        r == wanted(*q, *e, since),
{
    let by_name = match &q.glob {
        Some(g) => glob_match(g.as_str(), e.name.as_str()),
        None => true,
    };
    let by_age = match since {
        Some(t) => match e.modified {
            Some(m) => m >= t,
            None => false,
        },
        None => true,
    };
    by_name && (e.is_dir || e.size >= q.min_size) && by_age
}

/// A directory is to be listed too.
pub open spec fn descends(q: FsQuery, e: Entry, depth: int) -> bool {
    e.is_dir && q.recurse && depth < q.max_depth && !reparse_attr(e.attrs)
}

/// The row of an entry.
pub open spec fn entry_row(e: Entry, digest: Option<Seq<char>>) -> JsonV {
    let row = JsonV::empty().with("name"@, JsonV::Str(e.name@)).with(
        "path"@,
        JsonV::Str(e.path@),
    ).with("is_dir"@, JsonV::Bool(e.is_dir)).with(
        "size"@,
        JsonV::Int(
            if e.is_dir {
                0
            } else {
                e.size as int
            },
        ),
    ).with("modified"@, JsonV::Str(e.modified_text@)).with("attrs"@, JsonV::Int(e.attrs as int)).with(
        "is_reparse_point"@,
        JsonV::Bool(reparse_attr(e.attrs)),
    );
    match digest {
        Some(h) => row.with("sha256"@, JsonV::Str(h)),
        None => row,
    }
}

/// How far a listing has come.
pub struct FsWalk {
    /// The directories that are still to be listed, the next one last, each with its depth.
    pub stack: Vec<(String, u64)>,
    pub entries: Vec<Json>,
    /// No further rows are collected.
    pub truncated: bool,
    pub unreadable_dirs: u64,
    pub matched: u64,
    pub examined: u64,
    /// Not everything was looked at.
    pub count_stopped: bool,
    /// How deep the listing goes.
    pub max_depth: u64,
}

/// The model of a listing under way.
pub struct FsWalkV {
    pub stack: Seq<(Seq<char>, int)>,
    pub entries: Seq<JsonV>,
    pub truncated: bool,
    pub unreadable_dirs: int,
    pub matched: int,
    pub examined: int,
    pub count_stopped: bool,
}

impl View for FsWalk {
    type V = FsWalkV;

    open spec fn view(&self) -> FsWalkV {
        FsWalkV {
            stack: Seq::new(
                self.stack@.len(),
                |i: int| (self.stack@[i].0@, self.stack@[i].1 as int),
            ),
            entries: json::models(self.entries@),
            truncated: self.truncated,
            unreadable_dirs: self.unreadable_dirs as int,
            matched: self.matched as int,
            examined: self.examined as int,
            count_stopped: self.count_stopped,
        }
    }
}

/// How many rows a listing holds of so many matches.
pub open spec fn rows_held(matched: int) -> int {
    if matched <= FS_CAP {
        matched
    } else {
        FS_CAP as int
    }
}

impl FsWalk {
    /// What holds of a listing at every moment: every match has a row until the rows reach their
    /// cap, what was found was looked at, and no directory lies too deep.
    pub open spec fn wf(self) -> bool {
        &&& self.entries@.len() == rows_held(self.matched as int)
        &&& self.truncated == (self.entries@.len() >= FS_CAP)
        &&& self.matched <= self.examined
        &&& self.examined <= COUNT_SCAN_CAP + 1
        &&& self.unreadable_dirs + self.stack@.len() <= self.examined + 1
        &&& forall|i: int|
            0 <= i < self.stack@.len() ==> 1 <= (#[trigger] self.stack@[i]).1 && (
            self.stack@[i].1 <= self.max_depth || self.stack@[i].1 == 1)
    }
}

/// A listing that starts at its root.
pub fn start_walk(q: &FsQuery) -> (w: FsWalk)
    ensures
        w.wf(),
        w.max_depth == q.max_depth,
        w@ == (FsWalkV {
            stack: seq![(q.root@, 1int)],
            entries: seq![],
            truncated: false,
            unreadable_dirs: 0,
            matched: 0,
            examined: 0,
            count_stopped: false,
        }),
{
    let mut stack: Vec<(String, u64)> = Vec::new();
    stack.push((q.root.clone(), 1));
    let w = FsWalk {
        stack,
        entries: Vec::new(),
        truncated: false,
        unreadable_dirs: 0,
        matched: 0,
        examined: 0,
        count_stopped: false,
        max_depth: q.max_depth,
    };
    assert(w@.stack =~= seq![(q.root@, 1int)]);
    assert(w@.entries =~= Seq::<JsonV>::empty());
    w
}

/// The directory to list next.
pub fn next_dir(w: &mut FsWalk) -> (r: Option<(String, u64)>)
    requires
        old(w).wf(),
    ensures
        final(w).wf(),
        final(w).max_depth == old(w).max_depth,
        r is Some ==> 1 <= (r->0).1 && ((r->0).1 <= old(w).max_depth || (r->0).1 == 1),
        old(w).count_stopped || old(w)@.stack.len() == 0 ==> r is None && final(w)@ == old(w)@,
        !old(w).count_stopped && old(w)@.stack.len() > 0 ==> r is Some && (
            (r->0).0@,
            (r->0).1 as int,
        ) == old(w)@.stack.last() && final(w)@ == (FsWalkV {
            stack: old(w)@.stack.drop_last(),
            ..old(w)@
        }),
{
    if w.count_stopped {
        return None;
    }
    let ghost before = w@;
    let r = w.stack.pop();
    proof {
        if r is Some {
            assert(w@.stack =~= before.stack.drop_last());
        }
    }
    r
}

/// What is to be done where a directory cannot be listed: the listing fails at its root, and
/// counts any other.
pub open spec fn dir_failed_v(w: FsWalkV, depth: int) -> FsWalkV {
    if depth == 1 {
        w
    } else {
        FsWalkV { unreadable_dirs: w.unreadable_dirs + 1, ..w }
    }
}

/// Notes that a directory cannot be listed; the answer where it is the root.
pub fn dir_failed(w: &mut FsWalk, root: &str, depth: u64, error: &str) -> (r: Option<Json>)
    requires
        old(w).wf(),
        old(w).unreadable_dirs + old(w).stack@.len() <= old(w).examined,
    ensures
        final(w).wf(),
        final(w).max_depth == old(w).max_depth,
        final(w)@ == dir_failed_v(old(w)@, depth as int),
        json::opt_model(r) == (if depth == 1 {
            Some(fs_error_v(root@, "path could not be listed: "@ + error@))
        } else {
            None
        }),
{
    if depth == 1 {
        return Some(fs_error(root, cat("path could not be listed: ", error).as_str()));
    }
    w.unreadable_dirs = w.unreadable_dirs + 1;
    None
}

/// An entry is looked at: where too many were, or where time is up, the listing stops.
pub open spec fn looked_at(w: FsWalkV, time_up: bool) -> FsWalkV {
    let n = w.examined + 1;
    FsWalkV {
        examined: n,
        count_stopped: w.count_stopped || n > COUNT_SCAN_CAP || (n % 4096 == 0 && time_up),
        ..w
    }
}

/// Looks at an entry; whether the listing goes on with it.
pub fn look_at(w: &mut FsWalk, time_up: bool) -> (r: bool)
    requires
        old(w).wf(),
        !old(w).count_stopped,
        old(w).examined <= COUNT_SCAN_CAP,
    ensures
        final(w).wf(),
        final(w).max_depth == old(w).max_depth,
        final(w)@ == looked_at(old(w)@, time_up),
        r == !final(w).count_stopped,
        r ==> final(w).examined <= COUNT_SCAN_CAP,
{
    w.examined = w.examined + 1;
    if w.examined > COUNT_SCAN_CAP || (w.examined % 4096 == 0 && time_up) {
        w.count_stopped = true;
    }
    !w.count_stopped
}

/// The digest of a file's content is part of its row.
pub open spec fn digest_wanted(w: FsWalkV, q: FsQuery, e: Entry, since: Option<i128>) -> bool {
    &&& !passed_over(q, e)
    &&& wanted(q, e, since)
    &&& !w.truncated
    &&& q.hash
    &&& !e.is_dir
    &&& e.size <= HASH_CAP
}

/// Whether the content of a file is needed for its row.
pub fn needs_content(w: &FsWalk, q: &FsQuery, e: &Entry, since: Option<i128>) -> (r: bool)
    ensures
        r == digest_wanted(w@, *q, *e, since),
{
    let hidden = e.attrs & 0x2 != 0;
    !(hidden && !q.hidden) && is_wanted(q, e, since) && !w.truncated && q.hash && !e.is_dir && e.size
        <= HASH_CAP
}

/// A listing after an entry: a hidden one is passed over, one that meets what is asked counts
/// and is listed as long as rows are collected, and a directory that does not lead elsewhere is
/// listed in its turn.
pub open spec fn entry_step(
    w: FsWalkV,
    q: FsQuery,
    depth: int,
    e: Entry,
    since: Option<i128>,
    content: Option<Seq<u8>>,
) -> FsWalkV {
    if passed_over(q, e) {
        w
    } else {
        let digest = match content {
            Some(b) => if digest_wanted(w, q, e, since) {
                Some(num::hex(crypto::sha256_digest(b)))
            } else {
                None
            },
            None => None,
        };
        let listed = if wanted(q, e, since) {
            if w.truncated {
                FsWalkV { matched: w.matched + 1, ..w }
            } else {
                let rows = w.entries.push(entry_row(e, digest));
                FsWalkV {
                    matched: w.matched + 1,
                    entries: rows,
                    truncated: rows.len() >= FS_CAP,
                    ..w
                }
            }
        } else {
            w
        };
        if descends(q, e, depth) {
            FsWalkV { stack: listed.stack.push((e.path@, depth + 1)), ..listed }
        } else {
            listed
        }
    }
}

/// Takes an entry into a listing. `content` is that of the file, where it was needed and read.
pub fn visit(
    w: &mut FsWalk,
    q: &FsQuery,
    depth: u64,
    e: &Entry,
    since: Option<i128>,
    content: Option<Vec<u8>>,
)
    requires
        old(w).wf(),
        old(w).max_depth == q.max_depth,
        old(w).matched < old(w).examined,
        old(w).unreadable_dirs + old(w).stack@.len() <= old(w).examined,
        depth >= 1,
    ensures
        final(w).wf(),
        final(w).max_depth == old(w).max_depth,
        final(w)@ == entry_step(
            old(w)@,
            *q,
            depth as int,
            *e,
            since,
            text::opt_bytes(content),
        ),
{
    let hidden = e.attrs & 0x2 != 0;
    if hidden && !q.hidden {
        return ;
    }
    let reparse = e.attrs & 0x400 != 0;
    let ghost before = w@;
    let ghost bytes = text::opt_bytes(content);
    if is_wanted(q, e, since) {
        let with_digest = !w.truncated && q.hash && !e.is_dir && e.size <= HASH_CAP;
        w.matched = w.matched + 1;
        if !w.truncated {
            let size: u64 = if e.is_dir {
                0
            } else {
                e.size
            };
            let row = Json::object().with("name", Json::text(e.name.as_str())).with(
                "path",
                Json::text(e.path.as_str()),
            ).with("is_dir", Json::Bool(e.is_dir)).with("size", Json::UInt(size)).with(
                "modified",
                Json::text(e.modified_text.as_str()),
            ).with("attrs", Json::UInt(e.attrs as u64)).with(
                "is_reparse_point",
                Json::Bool(reparse),
            );
            let row = match content {
                Some(b) => if with_digest {
                    row.with("sha256", Json::Str(to_hex(sha256(b.as_slice()).as_slice())))
                } else {
                    row
                },
                None => row,
            };
            let ghost o = w.entries@;
            let ghost rv = row@;
            w.entries.push(row);
            assert(json::models(w.entries@) =~= json::models(o).push(rv));
            if w.entries.len() >= FS_CAP {
                w.truncated = true;
            }
        }
    }
    let ghost listed = w@;
    if e.is_dir && q.recurse && depth < q.max_depth && !reparse {
        let ghost st = w.stack@;
        w.stack.push((e.path.clone(), depth + 1));
        assert(w@.stack =~= listed.stack.push((e.path@, depth + 1)));
    }
    assert(w@.stack =~= entry_step(before, *q, depth as int, *e, since, bytes).stack);
    assert(w@.entries =~= entry_step(before, *q, depth as int, *e, since, bytes).entries);
}

/// The first row that a reader asks for.
pub open spec fn offset_of(p: JsonV) -> int {
    match p.member_uint("offset"@) {
        Some(n) => n,
        None => 0,
    }
}

/// How many rows a reader asks for.
pub open spec fn limit_of(p: JsonV, default_limit: int) -> int {
    match p.member_uint("limit"@) {
        Some(n) => if n < 1 {
            1
        } else {
            n
        },
        None => default_limit,
    }
}

/// The rows from an offset on.
pub open spec fn from_offset(items: Seq<JsonV>, offset: int) -> Seq<JsonV> {
    if offset <= items.len() {
        items.skip(offset)
    } else {
        seq![]
    }
}

/// One page of rows.
pub open spec fn paginate_v(items: Seq<JsonV>, p: JsonV, default_limit: int) -> JsonV {
    let offset = offset_of(p);
    let page = keyset::page_of(from_offset(items, offset), limit_of(p, default_limit));
    let end = offset + page.len();
    let out = JsonV::empty().with("total"@, JsonV::Int(items.len() as int)).with(
        "offset"@,
        JsonV::Int(offset),
    ).with("count"@, JsonV::Int(page.len() as int)).with(
        "truncated"@,
        JsonV::Bool(end < items.len()),
    ).with("items"@, JsonV::Arr(page));
    if end < items.len() {
        out.with("next_offset"@, JsonV::Int(end))
    } else {
        out
    }
}

/// One page of rows, by the offset and the limit that a reader asks for.
pub fn paginate(items: Vec<Json>, p: &Json, default_limit: u64) -> (r: Json)
    ensures
        r@ == paginate_v(json::models(items@), p@, default_limit as int),
{
    let total: usize = items.len();
    let offset: u64 = match p.get_u64("offset") {
        Some(n) => n,
        None => 0,
    };
    let limit: u64 = match p.get_u64("limit") {
        Some(n) => if n < 1 {
            1
        } else {
            n
        },
        None => default_limit,
    };
    let mut rest: Vec<Json> = Vec::new();
    let ghost all = json::models(items@);
    if offset <= total as u64 {
        let mut i: usize = offset as usize;
        assert(json::models(rest@) =~= all.subrange(offset as int, i as int));
        while i < items.len()
            invariant
                offset <= i <= items@.len(),
                all == json::models(items@),
                json::models(rest@) == all.subrange(offset as int, i as int),
            decreases items@.len() - i,
        {
            let ghost o = rest@;
            rest.push(items[i].copy());
            assert(json::models(rest@) =~= json::models(o).push(all[i as int]));
            i = i + 1;
            assert(json::models(rest@) =~= all.subrange(offset as int, i as int));
        }
        assert(json::models(rest@) =~= all.skip(offset as int));
    } else {
        assert(json::models(rest@) =~= Seq::<JsonV>::empty());
    }
    let page = page_within_budget(&rest, limit);
    let count: usize = page.len();
    proof {
        crate::keyset::lemma_page_end(json::models(rest@), 0, 0, limit as int);
        assert(json::models(page@).len() == count);
        assert(all.len() == total);
        assert(count > 0 ==> offset + count <= total);
    }
    let end: u64 = if count == 0 {
        offset
    } else {
        offset + count as u64
    };
    let out = Json::object().with("total", Json::UInt(total as u64)).with(
        "offset",
        Json::UInt(offset),
    ).with("count", Json::UInt(count as u64)).with(
        "truncated",
        Json::Bool(end < total as u64),
    ).with("items", Json::array(page));
    if end < total as u64 {
        out.with("next_offset", Json::UInt(end))
    } else {
        out
    }
}

/// The answer of a listing.
pub open spec fn listing_v(w: FsWalkV, q: FsQuery, p: JsonV) -> JsonV {
    JsonV::empty().with("path"@, JsonV::Str(q.root@)).with("recurse"@, JsonV::Bool(q.recurse)).with(
        "row_cap_hit"@,
        JsonV::Bool(w.truncated),
    ).with("unreadable_dirs"@, JsonV::Int(w.unreadable_dirs)).with(
        "matched_at_least"@,
        JsonV::Int(w.matched),
    ).with(
        "matched_total"@,
        if w.count_stopped {
            JsonV::Null
        } else {
            JsonV::Int(w.matched)
        },
    ).with("count_stopped"@, JsonV::Bool(w.count_stopped)).with(
        "entries"@,
        paginate_v(w.entries, p, FS_CAP as int),
    )
}

/// The answer of a listing.
pub fn fs_list(w: FsWalk, q: &FsQuery, p: &Json) -> (r: Json)
    requires
        w.wf(),
    ensures
        r@ == listing_v(w@, *q, p@),
{
    let total = if w.count_stopped {
        Json::Null
    } else {
        Json::UInt(w.matched)
    };
    Json::object().with("path", Json::text(q.root.as_str())).with(
        "recurse",
        Json::Bool(q.recurse),
    ).with("row_cap_hit", Json::Bool(w.truncated)).with(
        "unreadable_dirs",
        Json::UInt(w.unreadable_dirs),
    ).with("matched_at_least", Json::UInt(w.matched)).with("matched_total", total).with(
        "count_stopped",
        Json::Bool(w.count_stopped),
    ).with("entries", paginate(w.entries, p, FS_CAP as u64))
}

/// A directory that leads elsewhere is listed and never followed, and no directory deeper than
/// asked is listed.
pub proof fn a_listing_never_leaves_its_tree(
    w: FsWalkV,
    q: FsQuery,
    depth: int,
    e: Entry,
    since: Option<i128>,
    content: Option<Seq<u8>>,
)
    ensures
        reparse_attr(e.attrs) || depth >= q.max_depth || !q.recurse ==> entry_step(
            w,
            q,
            depth,
            e,
            since,
            content,
        ).stack == w.stack,
{
}

/// A listing holds a row for every match until its rows reach their cap, and says so when they
/// have.
pub proof fn every_match_has_a_row_up_to_the_cap(
    w: FsWalkV,
    q: FsQuery,
    depth: int,
    e: Entry,
    since: Option<i128>,
    content: Option<Seq<u8>>,
)
    requires
        w.entries.len() == rows_held(w.matched),
        w.truncated == (w.matched >= FS_CAP),
    ensures
        entry_step(w, q, depth, e, since, content).entries.len() == rows_held(
            entry_step(w, q, depth, e, since, content).matched,
        ),
        entry_step(w, q, depth, e, since, content).truncated == (entry_step(
            w,
            q,
            depth,
            e,
            since,
            content,
        ).matched >= FS_CAP),
{
}

/// Every entry that meets what is asked is counted, also where its row is not collected.
pub proof fn every_match_is_counted(
    w: FsWalkV,
    q: FsQuery,
    depth: int,
    e: Entry,
    since: Option<i128>,
    content: Option<Seq<u8>>,
)
    ensures
        entry_step(w, q, depth, e, since, content).matched == w.matched + (if !passed_over(q, e)
            && wanted(q, e, since) {
            1int
        } else {
            0
        }),
{
}

/// Which entries are listed: those whose name fits the pattern, whatever the case of its
/// letters, that are directories or large enough, and that were changed at or behind the asked
/// moment.
pub proof fn an_entry_is_wanted_where_it_meets_the_ask(q: FsQuery, e: Entry, since: Option<i128>)
    requires
        !text::lowercase(e.name@).contains('*'),
    ensures
        wanted(q, e, since) <==> {
            &&& q.glob matches Some(g) ==> glob::fits(text::lowercase(g@), text::lowercase(e.name@))
            &&& !e.is_dir ==> e.size >= q.min_size
            &&& since matches Some(t) ==> e.modified is Some && e.modified->0 >= t
        },
{
    if let Some(g) = q.glob {
        crate::glob::the_search_is_complete(text::lowercase(g@), text::lowercase(e.name@));
    }
}

/// What one entry changes of a listing. A hidden one changes nothing unless hidden ones are
/// asked for. One that is wanted is counted, and gets the next row while there is room. A
/// directory is to be listed too where that is asked for, it is not too deep and it leads
/// nowhere else.
pub proof fn an_entry_is_listed(
    w: FsWalkV,
    q: FsQuery,
    depth: int,
    e: Entry,
    since: Option<i128>,
    content: Option<Seq<u8>>,
)
    ensures
        ({
            let n = entry_step(w, q, depth, e, since, content);
            let seen = e.attrs & 2 == 0 || q.hidden;
            let counted = seen && wanted(q, e, since);
            let listed = counted && !w.truncated;
            let below = seen && e.is_dir && q.recurse && depth < q.max_depth && e.attrs & 0x400 == 0;
            &&& n.matched == w.matched + (if counted {
                1int
            } else {
                0
            })
            &&& !listed ==> n.entries == w.entries && n.truncated == w.truncated
            &&& listed ==> n.entries.drop_last() == w.entries && n.entries.len() == w.entries.len()
                + 1 && n.truncated == (n.entries.len() >= 1000)
            &&& below ==> n.stack == w.stack.push((e.path@, depth + 1))
            &&& !below ==> n.stack == w.stack
            &&& n.examined == w.examined
            &&& n.unreadable_dirs == w.unreadable_dirs
            &&& n.count_stopped == w.count_stopped
        }),
{
    let n = entry_step(w, q, depth, e, since, content);
    if n.entries.len() > w.entries.len() {
        assert(n.entries.drop_last() =~= w.entries);
    }
}

/// The row of an entry says of it what was found, and has a digest only of a file that is not
/// too large and whose bytes were read, where digests are asked for.
pub proof fn a_row_describes_its_entry(
    w: FsWalkV,
    q: FsQuery,
    depth: int,
    e: Entry,
    since: Option<i128>,
    content: Option<Seq<u8>>,
)
    requires
        e.attrs & 2 == 0 || q.hidden,
        wanted(q, e, since),
        !w.truncated,
    ensures
        ({
            let row = entry_step(w, q, depth, e, since, content).entries.last();
            &&& row.member("name"@) == Some(JsonV::Str(e.name@))
            &&& row.member("path"@) == Some(JsonV::Str(e.path@))
            &&& row.member("is_dir"@) == Some(JsonV::Bool(e.is_dir))
            &&& row.member("size"@) == Some(
                JsonV::Int(
                    if e.is_dir {
                        0
                    } else {
                        e.size as int
                    },
                ),
            )
            &&& row.member("modified"@) == Some(JsonV::Str(e.modified_text@))
            &&& row.member("attrs"@) == Some(JsonV::Int(e.attrs as int))
            &&& row.member("is_reparse_point"@) == Some(JsonV::Bool(e.attrs & 0x400 != 0))
            &&& row.member("sha256"@) == (if q.hash && !e.is_dir && e.size <= 67_108_864
                && content is Some {
                Some(JsonV::Str(num::hex(crypto::sha256_digest(content->0))))
            } else {
                None
            })
        }),
{
    reveal_strlit("name");
    reveal_strlit("path");
    reveal_strlit("is_dir");
    reveal_strlit("size");
    reveal_strlit("modified");
    reveal_strlit("attrs");
    reveal_strlit("is_reparse_point");
    reveal_strlit("sha256");
    assert("name"@.len() == 4 && "path"@.len() == 4 && "size"@.len() == 4);
    assert("name"@[0] == 'n' && "path"@[0] == 'p' && "size"@[0] == 's');
    assert("is_dir"@.len() == 6 && "sha256"@.len() == 6 && "is_dir"@[0] == 'i' && "sha256"@[0]
        == 's');
    assert("modified"@.len() == 8 && "attrs"@.len() == 5 && "is_reparse_point"@.len() == 16);
}

/// Every entry that is looked at is counted, and the listing stops behind 200000 of them, or
/// where its time is up at one of every 4096.
pub proof fn a_listing_is_bounded(w: FsWalkV, time_up: bool)
    requires
        !w.count_stopped,
    ensures
        looked_at(w, time_up).examined == w.examined + 1,
        looked_at(w, time_up).count_stopped <==> w.examined >= 200_000 || (time_up && (w.examined
            + 1) % 4096 == 0),
        looked_at(w, time_up).entries == w.entries,
        looked_at(w, time_up).stack == w.stack,
        looked_at(w, time_up).matched == w.matched,
{
}

/// What an ask for a listing is read as: each wish is the member of its own name.
pub proof fn a_listing_is_asked_by_name(p: JsonV, q: FsQuery, path: Seq<char>, glob: Seq<char>)
    requires
        query_ok(p, q),
    ensures
        p.member("path"@) == Some(JsonV::Str(path)) ==> q.root@ == text::trim_v(path),
        q.recurse <==> p.member("recurse"@) == Some(JsonV::Bool(true)),
        q.hidden <==> p.member("hidden"@) == Some(JsonV::Bool(true)),
        q.hash <==> p.member("hash"@) == Some(JsonV::Bool(true)),
        p.member("glob"@) == Some(JsonV::Str(glob)) && glob.len() > 0 ==> q.glob is Some
            && q.glob->0@ == glob,
        !(p.member("glob"@) matches Some(JsonV::Str(_))) ==> q.glob is None,
        p.member_uint("min_size"@) == Some(q.min_size as int) || (p.member_uint("min_size"@) is None
            && q.min_size == 0),
        q.max_depth <= 32,
        p.member_uint("depth"@) matches Some(d) ==> q.max_depth == (if d < 32 {
            d
        } else {
            32
        }),
        p.member_uint("depth"@) is None ==> q.max_depth == (if q.recurse {
            8int
        } else {
            1
        }),
{
}

/// The wish for recent files counts days back from now, and never forward.
pub proof fn a_number_of_days_is_meant(p: JsonV, d: int)
    requires
        p.member("modified_since"@) == Some(JsonV::Int(d)),
        i64::MIN <= d <= i64::MAX,
    ensures
        since_v(p) == Since::Days(
            if d > 0 {
                d as u64
            } else {
                0
            },
        ),
{
}

/// A page of a list says where it begins, how many rows it has of how many, and where the next
/// one begins, where there is one; its rows are those of the list from there on.
pub proof fn a_list_is_cut_into_pages(items: Seq<JsonV>, p: JsonV, default_limit: int)
    requires
        default_limit >= 1,
    ensures
        ({
            let v = paginate_v(items, p, default_limit);
            let offset = match p.member_uint("offset"@) {
                Some(n) => n,
                None => 0,
            };
            let page = v.member("items"@)->0->Arr_0;
            &&& v.member("items"@) matches Some(JsonV::Arr(_))
            &&& v.member("total"@) == Some(JsonV::Int(items.len() as int))
            &&& v.member("offset"@) == Some(JsonV::Int(offset))
            &&& v.member("count"@) == Some(JsonV::Int(page.len() as int))
            &&& offset > items.len() ==> page.len() == 0
            &&& offset <= items.len() ==> offset + page.len() <= items.len() && page
                == items.subrange(offset, offset + page.len())
            &&& v.member("truncated"@) == Some(JsonV::Bool(offset + page.len() < items.len()))
            &&& v.member("next_offset"@) == (if offset + page.len() < items.len() {
                Some(JsonV::Int(offset + page.len()))
            } else {
                None
            })
            &&& page.len() <= (match p.member_uint("limit"@) {
                Some(n) => if n < 1 {
                    1
                } else {
                    n
                },
                None => default_limit,
            })
        }),
{
    let offset = offset_of(p);
    let rest = from_offset(items, offset);
    let limit = limit_of(p, default_limit);
    crate::keyset::a_page_is_as_full_as_it_may_be(rest, limit);
    let page = keyset::page_of(rest, limit);
    if offset <= items.len() {
        assert(page =~= items.subrange(offset, offset + page.len()));
    }
    reveal_strlit("items");
    reveal_strlit("total");
    reveal_strlit("offset");
    reveal_strlit("count");
    reveal_strlit("truncated");
    reveal_strlit("next_offset");
    assert("items"@.len() == 5 && "total"@.len() == 5 && "count"@.len() == 5);
    assert("items"@[0] == 'i' && "total"@[0] == 't' && "count"@[0] == 'c');
    assert("offset"@.len() == 6 && "truncated"@.len() == 9 && "next_offset"@.len() == 11);
}

/// The answer of a listing says what it lists, what it could not read and how many entries it
/// found, and does not pretend to have found all where it stopped early.
pub proof fn a_listing_says_what_it_found(w: FsWalkV, q: FsQuery, p: JsonV)
    ensures
        ({
            let v = listing_v(w, q, p);
            &&& v.member("path"@) == Some(JsonV::Str(q.root@))
            &&& v.member("recurse"@) == Some(JsonV::Bool(q.recurse))
            &&& v.member("row_cap_hit"@) == Some(JsonV::Bool(w.truncated))
            &&& v.member("unreadable_dirs"@) == Some(JsonV::Int(w.unreadable_dirs))
            &&& v.member("matched_at_least"@) == Some(JsonV::Int(w.matched))
            &&& v.member("count_stopped"@) == Some(JsonV::Bool(w.count_stopped))
            &&& w.count_stopped ==> v.member("matched_total"@) == Some(JsonV::Null)
            &&& !w.count_stopped ==> v.member("matched_total"@) == Some(JsonV::Int(w.matched))
            &&& v.member("entries"@) == Some(paginate_v(w.entries, p, 1000))
        }),
{
    reveal_strlit("path");
    reveal_strlit("recurse");
    reveal_strlit("row_cap_hit");
    reveal_strlit("unreadable_dirs");
    reveal_strlit("matched_at_least");
    reveal_strlit("matched_total");
    reveal_strlit("count_stopped");
    reveal_strlit("entries");
    assert("path"@.len() == 4 && "recurse"@.len() == 7 && "entries"@.len() == 7 && "recurse"@[0]
        == 'r' && "entries"@[0] == 'e');
    assert("row_cap_hit"@.len() == 11 && "unreadable_dirs"@.len() == 15 && "matched_at_least"@.len()
        == 16);
    assert("matched_total"@.len() == 13 && "count_stopped"@.len() == 13 && "matched_total"@[0]
        == 'm' && "count_stopped"@[0] == 'c');
}

/// A root is refused where there is none or where it lies in a store of secrets, wherever in the
/// path the store stands; else only where it is no directory that can be read.
pub proof fn stores_of_secrets_are_refused(a: Seq<char>, b: Seq<char>, root: Seq<char>, kind: RootKind)
    ensures
        in_store(a + "\\windows\\system32\\config"@ + b),
        in_store(a + "\\windows\\ntds"@ + b),
        in_store(a + "\\microsoft\\protect"@ + b),
        in_store(a + "\\microsoft\\credentials"@ + b),
        in_store(a + "\\microsoft\\crypto"@ + b),
        root_error(root, kind) is None <==> root.len() > 0 && !in_store(norm_path(root))
            && kind is Directory,
{
    crate::text::lemma_stands_in(a, "\\windows\\system32\\config"@, b);
    crate::text::lemma_stands_in(a, "\\windows\\ntds"@, b);
    crate::text::lemma_stands_in(a, "\\microsoft\\protect"@, b);
    crate::text::lemma_stands_in(a, "\\microsoft\\credentials"@, b);
    crate::text::lemma_stands_in(a, "\\microsoft\\crypto"@, b);
}

/// How deep a listing goes: as deep as is asked, eight levels where it is to go down and does not
/// say how far, one where not, and never deeper than thirty-two.
pub proof fn a_listing_goes_as_deep_as_asked(p: JsonV, n: int)
    requires
        0 <= n <= u64::MAX,
    ensures
        p.member("depth"@) == Some(JsonV::Int(n)) ==> depth_of(p) == (if n <= 32 {
            n
        } else {
            32
        }),
        p.member("depth"@) is None && p.member("recurse"@) == Some(JsonV::Bool(true)) ==> depth_of(p)
            == 8,
        p.member("depth"@) is None && p.member("recurse"@) != Some(JsonV::Bool(true)) ==> depth_of(p)
            == 1,
{
}

/// A listing that could not be made says where and why; one without a path, or of a store of
/// secrets, is not made.
pub proof fn a_refused_listing_says_why(root: Seq<char>, why: Seq<char>)
    ensures
        fs_error_v(root, why).member("ok"@) == Some(JsonV::Bool(false)),
        fs_error_v(root, why).member("path"@) == Some(JsonV::Str(root)),
        fs_error_v(root, why).member("error"@) == Some(JsonV::Str(why)),
        root.len() == 0 ==> path_error(root) == Some("fs needs a path (root)"@),
        root.len() > 0 && in_store(norm_path(root)) ==> path_error(root) == Some(SENSITIVE_DENIED@),
        root.len() > 0 && !in_store(norm_path(root)) ==> path_error(root) is None,
{
    reveal_strlit("ok");
    reveal_strlit("path");
    reveal_strlit("error");
    assert("ok"@.len() == 2);
    assert("path"@.len() == 4);
    assert("error"@.len() == 5);
}

/// An attribute is one bit of an entry's attributes: the second for hidden entries, the eleventh
/// for those that lead elsewhere.
pub proof fn an_attribute_is_one_bit(attrs: u32)
    ensures
        hidden_attr(attrs) <==> (attrs / 2) % 2 == 1,
        reparse_attr(attrs) <==> (attrs / 1024) % 2 == 1,
{
    assert(attrs & 0x2 != 0 <==> (attrs / 2) % 2 == 1) by (bit_vector);
    assert(attrs & 0x400 != 0 <==> (attrs / 1024) % 2 == 1) by (bit_vector);
}

/// A directory is gone down into where the listing is to go down, is not deep enough yet, and the
/// directory does not lead elsewhere.
pub proof fn a_directory_is_gone_down_into(q: FsQuery, e: Entry, depth: int)
    ensures
        descends(q, e, depth) <==> e.is_dir && q.recurse && depth < q.max_depth && (e.attrs / 1024)
            % 2 == 0,
{
    an_attribute_is_one_bit(e.attrs);
}

/// A directory that cannot be listed is counted, but for the first.
pub proof fn an_unreadable_directory_is_counted(w: FsWalkV, depth: int)
    ensures
        depth == 1 ==> dir_failed_v(w, depth) == w,
        depth != 1 ==> dir_failed_v(w, depth).unreadable_dirs == w.unreadable_dirs + 1 && dir_failed_v(
            w,
            depth,
        ).entries == w.entries,
{
}

/// A file's content is summed where its row is listed, that is asked for and it is not larger
/// than sixty-four mebibytes.
pub proof fn a_listed_file_is_summed_where_asked(w: FsWalkV, q: FsQuery, e: Entry, since: Option<i128>)
    ensures
        digest_wanted(w, q, e, since) <==> q.hash && !e.is_dir && e.size <= 64 * 1024 * 1024
            && !w.truncated && wanted(q, e, since) && !passed_over(q, e),
{
}

} // verus!
