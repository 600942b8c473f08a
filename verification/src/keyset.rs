//! Answers of collectors that the console hosts: one bounded list, or one page of a set that is
//! read page by page in the order of a key.
use vstd::prelude::*;

use crate::crypto;
use crate::json;
use crate::num;
use crate::text;
use crate::crypto::sha256;
use crate::json::{text_size, Json, JsonV};
use crate::num::{dec_i64, dec_u64, parse_i128, to_hex};
use crate::text::{cat3, join, less, trim};

verus! {

/// The most bytes of rows that one page holds.
pub const PAGE_BUDGET: usize = 49152;

/// The answer of a job that could not do what it was asked.
pub open spec fn error_v(why: Seq<char>) -> JsonV {
    JsonV::empty().with("ok"@, JsonV::Bool(false)).with("error"@, JsonV::Str(why))
}

/// The answer of a job that could not do what it was asked.
pub fn keyset_error(why: &str) -> (r: Json)
    ensures
        r@ == error_v(why@),
{
    Json::object().with("ok", Json::Bool(false)).with("error", Json::text(why))
}

/// How many of the rows from `i` on, with `used` bytes spent before them, a page takes: the
/// first always, each further one as long as it fits in the budget, at most `limit` in all.
pub open spec fn page_end(rows: Seq<JsonV>, i: int, used: int, limit: int) -> int
    decreases rows.len() - i,
{
    if i >= rows.len() || i >= limit {
        i
    } else {
        let sz = json::size(rows[i]) + 1;
        if i > 0 && used + sz > PAGE_BUDGET {
            i
        } else {
            page_end(rows, i + 1, used + sz, limit)
        }
    }
}

/// The rows that a page takes.
pub open spec fn page_of(rows: Seq<JsonV>, limit: int) -> Seq<JsonV> {
    rows.take(page_end(rows, 0, 0, limit))
}

/// A page never takes more rows than there are, nor more than the limit.
pub proof fn lemma_page_end(rows: Seq<JsonV>, i: int, used: int, limit: int)
    requires
        0 <= i <= rows.len(),
        i <= limit,
    ensures
        i <= page_end(rows, i, used, limit) <= rows.len(),
        page_end(rows, i, used, limit) <= limit,
    decreases rows.len() - i,
{
    if i < rows.len() && i < limit {
        let sz = json::size(rows[i]) + 1;
        if !(i > 0 && used + sz > PAGE_BUDGET) {
            lemma_page_end(rows, i + 1, used + sz, limit);
        }
    }
}

/// A page of rows is never empty while rows remain, however wide the first of them is.
pub proof fn a_page_always_advances(rows: Seq<JsonV>, limit: int)
    requires
        rows.len() > 0,
        limit > 0,
    ensures
        page_of(rows, limit).len() > 0,
{
    lemma_page_end(rows, 1, 0 + (json::size(rows[0]) + 1) as int, limit);
}

/// Bytes spent, as far as they matter to the budget.
pub open spec fn capped(used: int) -> int {
    if used > PAGE_BUDGET {
        PAGE_BUDGET as int
    } else {
        used
    }
}

/// The rows that a page takes.
pub fn page_within_budget(rows: &Vec<Json>, limit: u64) -> (r: Vec<Json>)
    ensures
        json::models(r@) == page_of(json::models(rows@), limit as int),
{
    let ghost all = json::models(rows@);
    let mut page: Vec<Json> = Vec::new();
    let mut used: usize = 0;
    let ghost mut spent: int = 0;
    let mut i: usize = 0;
    while i < rows.len() && (i as u64) < limit
        invariant
            i <= rows@.len(),
            i <= limit,
            all == json::models(rows@),
            used == capped(spent),
            spent >= 0,
            page_end(all, 0, 0, limit as int) == page_end(all, i as int, spent, limit as int),
            json::models(page@) == all.take(i as int),
        decreases rows@.len() - i,
    {
        let sz: usize = text_size(&rows[i]);
        assert(all[i as int] == rows@[i as int]@);
        if i > 0 && (used >= PAGE_BUDGET || sz >= PAGE_BUDGET - used) {
            assert(page_end(all, i as int, spent, limit as int) == i);
            return page;
        }
        proof {
            spent = spent + sz + 1;
        }
        used = if used >= PAGE_BUDGET || sz >= PAGE_BUDGET - used {
            PAGE_BUDGET
        } else {
            used + sz + 1
        };
        let ghost o = page@;
        page.push(rows[i].copy());
        assert(json::models(page@) =~= json::models(o).push(all[i as int]));
        i = i + 1;
        assert(json::models(page@) =~= all.take(i as int));
    }
    page
}

/// One row of a set, with the text of its key.
pub struct Keyed {
    pub text: String,
    pub num: Option<i128>,
    pub row: Json,
}

/// The model of a row with its key.
pub struct KeyedV {
    pub text: Seq<char>,
    pub row: JsonV,
}

/// The number that a key writes, where it writes one.
pub open spec fn key_num(text: Seq<char>) -> Option<int> {
    num::parse_sint(text::trim_v(text), i128::MIN as int, i128::MAX as nat)
}

impl Keyed {
    /// The number is the one that the key writes.
    pub open spec fn wf(self) -> bool {
        key_num(self.text@) == (match self.num {
            Some(n) => Some(n as int),
            None => None,
        })
    }
}

impl View for Keyed {
    type V = KeyedV;

    open spec fn view(&self) -> KeyedV {
        KeyedV { text: self.text@, row: self.row@ }
    }
}

/// The models of rows with their keys.
pub open spec fn keyed_v(s: Seq<Keyed>) -> Seq<KeyedV> {
    Seq::new(s.len(), |i: int| s[i]@)
}

/// Every row's number is the one that its key writes.
pub open spec fn all_wf(s: Seq<Keyed>) -> bool {
    forall|i: int| 0 <= i < s.len() ==> (#[trigger] s[i]).wf()
}

/// The text that identifies a row: a text as it is, a number as it is written.
pub open spec fn key_text_v(v: JsonV) -> Option<Seq<char>> {
    match v {
        JsonV::Str(s) => Some(s),
        JsonV::Int(n) => Some(num::dec_int(n)),
        JsonV::Real(t) => Some(t),
        _ => None,
    }
}

/// The text that identifies a row.
pub fn key_text(v: &Json) -> (r: Option<String>)
    ensures
        text::opt_text(r) == key_text_v(v@),
{
    match v {
        Json::Str(s) => Some(s.clone()),
        Json::Int(n) => Some(dec_i64(*n)),
        Json::UInt(n) => Some(dec_u64(*n)),
        Json::Real(t) => Some(t.clone()),
        _ => None,
    }
}

/// The text of a row's key.
pub open spec fn row_key(row: JsonV, key: Seq<char>) -> Option<Seq<char>> {
    match row.member(key) {
        Some(v) => key_text_v(v),
        None => None,
    }
}

/// Every row has the key.
pub open spec fn all_keyed(rows: Seq<JsonV>, key: Seq<char>) -> bool {
    forall|i: int| 0 <= i < rows.len() ==> row_key(#[trigger] rows[i], key) is Some
}

/// The rows with their keys.
pub open spec fn with_keys(rows: Seq<JsonV>, key: Seq<char>) -> Seq<KeyedV> {
    Seq::new(rows.len(), |i: int| KeyedV { text: row_key(rows[i], key)->0, row: rows[i] })
}

/// The keys of a set are numbers: there are some, and each writes one.
pub open spec fn numeric_set(s: Seq<KeyedV>) -> bool {
    s.len() > 0 && forall|i: int| 0 <= i < s.len() ==> key_num((#[trigger] s[i]).text) is Some
}

/// The order of two keys: by their numbers in a set of numbers, else by their texts.
pub open spec fn key_less(numeric: bool, a: Seq<char>, b: Seq<char>) -> bool {
    if numeric {
        key_num(a)->0 < key_num(b)->0
    } else {
        text::before(a, b)
    }
}

/// A row put into its place: behind every row that is before it.
pub open spec fn insert_row(numeric: bool, s: Seq<KeyedV>, x: KeyedV) -> Seq<KeyedV>
    decreases s.len(),
{
    if s.len() == 0 || !key_less(numeric, s[0].text, x.text) {
        seq![x] + s
    } else {
        seq![s[0]] + insert_row(numeric, s.drop_first(), x)
    }
}

/// Rows in the order of their keys; rows of equal keys in the order in which they came.
pub open spec fn sort_rows(numeric: bool, s: Seq<KeyedV>) -> Seq<KeyedV>
    decreases s.len(),
{
    if s.len() == 0 {
        s
    } else {
        insert_row(numeric, sort_rows(numeric, s.drop_first()), s[0])
    }
}

/// Rows stand in the order of their keys.
pub open spec fn sorted_rows(numeric: bool, s: Seq<KeyedV>) -> bool {
    forall|i: int, j: int|
        0 <= i < j < s.len() ==> !key_less(
            numeric,
            (#[trigger] s[j]).text,
            (#[trigger] s[i]).text,
        )
}

/// The keys can be compared: in a set of numbers each writes one.
pub open spec fn comparable(numeric: bool, s: Seq<KeyedV>) -> bool {
    numeric ==> forall|i: int| 0 <= i < s.len() ==> key_num((#[trigger] s[i]).text) is Some
}

proof fn lemma_key_less(numeric: bool, a: Seq<char>, b: Seq<char>, c: Seq<char>)
    requires
        numeric ==> key_num(a) is Some && key_num(b) is Some && key_num(c) is Some,
    ensures
        !key_less(numeric, a, a),
        key_less(numeric, a, b) ==> !key_less(numeric, b, a),
        key_less(numeric, a, b) && !key_less(numeric, c, b) ==> key_less(numeric, a, c),
        !key_less(numeric, b, a) && !key_less(numeric, c, b) ==> !key_less(numeric, c, a),
{
    if !numeric {
        text::lemma_before_total(a, b);
        text::lemma_before_total(b, c);
        text::lemma_before_total(a, c);
        if text::before(a, b) && text::before(b, c) {
            text::lemma_before_trans(a, b, c);
        }
        if text::before(c, a) && text::before(a, b) {
            text::lemma_before_trans(c, a, b);
        }
        if text::before(b, c) && text::before(c, a) {
            text::lemma_before_trans(b, c, a);
        }
    }
}

/// Where `insert_row` puts a row: behind the `p` rows that are before it.
proof fn lemma_insert_row(numeric: bool, s: Seq<KeyedV>, x: KeyedV, p: int)
    requires
        0 <= p <= s.len(),
        forall|i: int| 0 <= i < p ==> key_less(numeric, (#[trigger] s[i]).text, x.text),
        p < s.len() ==> !key_less(numeric, s[p].text, x.text),
    ensures
        insert_row(numeric, s, x) == s.insert(p, x),
    decreases s.len(),
{
    if p == 0 {
        assert(s.insert(p, x) =~= seq![x] + s);
    } else {
        assert(key_less(numeric, s[0].text, x.text));
        let t = s.drop_first();
        assert forall|i: int| 0 <= i < p - 1 implies key_less(
            numeric,
            (#[trigger] t[i]).text,
            x.text,
        ) by {
            assert(t[i] == s[i + 1]);
        }
        if p < s.len() {
            assert(t[p - 1] == s[p]);
        }
        lemma_insert_row(numeric, t, x, p - 1);
        assert(seq![s[0]] + t.insert(p - 1, x) =~= s.insert(p, x));
    }
}

proof fn lemma_insert_sorted(numeric: bool, s: Seq<KeyedV>, x: KeyedV, p: int)
    requires
        0 <= p <= s.len(),
        sorted_rows(numeric, s),
        comparable(numeric, s.push(x)),
        forall|i: int| 0 <= i < p ==> key_less(numeric, (#[trigger] s[i]).text, x.text),
        forall|i: int| p <= i < s.len() ==> !key_less(numeric, (#[trigger] s[i]).text, x.text),
    ensures
        sorted_rows(numeric, s.insert(p, x)),
        comparable(numeric, s.insert(p, x)),
{
    let t = s.insert(p, x);
    let all = s.push(x);
    assert(all[s.len() as int] == x);
    assert forall|i: int| 0 <= i < s.len() implies #[trigger] s[i] == all[i] by {}
    assert forall|i: int, j: int| 0 <= i < j < t.len() implies !key_less(
        numeric,
        (#[trigger] t[j]).text,
        (#[trigger] t[i]).text,
    ) by {
        let i0 = if i < p { i } else { i - 1 };
        let j0 = if j < p { j } else { j - 1 };
        if i == p {
            assert(t[j] == s[j0]);
        } else if j == p {
            assert(t[i] == s[i0]);
            lemma_key_less(numeric, s[i0].text, x.text, x.text);
        } else {
            assert(t[i] == s[i0] && t[j] == s[j0]);
        }
    }
    if numeric {
        assert forall|i: int| 0 <= i < t.len() implies key_num((#[trigger] t[i]).text) is Some by {
            if i < p {
                assert(t[i] == all[i]);
            } else if i == p {
                assert(t[i] == all[s.len() as int]);
            } else {
                assert(t[i] == all[i - 1]);
            }
        }
    }
}

/// Whether a row is before another.
fn row_less(numeric: bool, a: &Keyed, b: &Keyed) -> (r: bool)
    requires
        a.wf(),
        b.wf(),
        numeric ==> a.num is Some && b.num is Some,
    ensures
        r == key_less(numeric, a.text@, b.text@),
{
    if numeric {
        match (a.num, b.num) {
            (Some(x), Some(y)) => x < y,
            _ => false,
        }
    } else {
        less(a.text.as_str(), b.text.as_str())
    }
}

/// How many of the rows are before a row.
fn rows_before(numeric: bool, s: &Vec<Keyed>, x: &Keyed) -> (p: usize)
    requires
        all_wf(s@),
        x.wf(),
        sorted_rows(numeric, keyed_v(s@)),
        comparable(numeric, keyed_v(s@)),
        numeric ==> x.num is Some,
    ensures
        p <= s@.len(),
        forall|i: int| 0 <= i < p ==> key_less(numeric, (#[trigger] keyed_v(s@)[i]).text, x.text@),
        forall|i: int|
            p <= i < s@.len() ==> !key_less(numeric, (#[trigger] keyed_v(s@)[i]).text, x.text@),
{
    let ghost all = keyed_v(s@);
    let mut lo: usize = 0;
    let mut hi: usize = s.len();
    while lo < hi
        invariant
            lo <= hi <= s@.len(),
            all == keyed_v(s@),
            all_wf(s@),
            x.wf(),
            sorted_rows(numeric, all),
            comparable(numeric, all),
            numeric ==> x.num is Some,
            forall|i: int| 0 <= i < lo ==> key_less(numeric, (#[trigger] all[i]).text, x.text@),
            forall|i: int|
                hi <= i < s@.len() ==> !key_less(numeric, (#[trigger] all[i]).text, x.text@),
        decreases hi - lo,
    {
        let mid: usize = lo + (hi - lo) / 2;
        proof {
            assert(s@[mid as int].wf());
            assert(all[mid as int] == s@[mid as int]@);
        }
        if row_less(numeric, &s[mid], x) {
            proof {
                assert forall|i: int| 0 <= i < mid + 1 implies key_less(
                    numeric,
                    (#[trigger] all[i]).text,
                    x.text@,
                ) by {
                    if i < mid {
                        lemma_key_less(numeric, all[i].text, all[mid as int].text, x.text@);
                        lemma_key_less(numeric, all[mid as int].text, x.text@, all[i].text);
                        if !key_less(numeric, all[i].text, x.text@) {
                            lemma_key_less(numeric, x.text@, all[i].text, all[mid as int].text);
                        }
                    }
                }
            }
            lo = mid + 1;
        } else {
            proof {
                assert forall|i: int| mid <= i < s@.len() implies !key_less(
                    numeric,
                    (#[trigger] all[i]).text,
                    x.text@,
                ) by {
                    if i > mid {
                        lemma_key_less(numeric, x.text@, all[mid as int].text, all[i].text);
                    }
                }
            }
            hi = mid;
        }
    }
    lo
}

/// Rows in the order of their keys.
fn sort_keyed(numeric: bool, rows: Vec<Keyed>) -> (r: Vec<Keyed>)
    requires
        all_wf(rows@),
        comparable(numeric, keyed_v(rows@)),
    ensures
        keyed_v(r@) == sort_rows(numeric, keyed_v(rows@)),
        all_wf(r@),
        sorted_rows(numeric, keyed_v(r@)),
        comparable(numeric, keyed_v(r@)),
{
    let ghost all = keyed_v(rows@);
    let mut rest = rows;
    let mut out: Vec<Keyed> = Vec::new();
    let ghost n = all.len();
    assert(all.skip(n as int) =~= Seq::<KeyedV>::empty());
    assert(keyed_v(out@) =~= Seq::<KeyedV>::empty());
    while rest.len() > 0
        invariant
            rest@.len() <= n,
            n == all.len(),
            keyed_v(rest@) == all.take(rest@.len() as int),
            all_wf(rest@),
            all_wf(out@),
            comparable(numeric, all),
            keyed_v(out@) == sort_rows(numeric, all.skip(rest@.len() as int)),
            sorted_rows(numeric, keyed_v(out@)),
            comparable(numeric, keyed_v(out@)),
        decreases rest@.len(),
    {
        let ghost before_pop = rest@;
        match rest.pop() {
            Some(x) => {
                let ghost k = rest@.len() as int;
                let ghost o = keyed_v(out@);
                let ghost xv = x@;
                proof {
                    assert(before_pop[k] == x);
                    assert(keyed_v(before_pop)[k] == all[k]);
                    assert(xv == all[k]);
                    assert(keyed_v(rest@) =~= all.take(k));
                    assert(all.skip(k).drop_first() =~= all.skip(k + 1));
                    assert(all.skip(k)[0] == xv);
                    assert(x.wf());
                    assert forall|i: int| 0 <= i < o.push(xv).len() && numeric implies key_num(
                        (#[trigger] o.push(xv)[i]).text,
                    ) is Some by {
                        if i < o.len() {
                            assert(o.push(xv)[i] == o[i]);
                        } else {
                            assert(o.push(xv)[i] == all[k]);
                        }
                    }
                }
                let p: usize = rows_before(numeric, &out, &x);
                proof {
                    lemma_insert_row(numeric, o, xv, p as int);
                    lemma_insert_sorted(numeric, o, xv, p as int);
                }
                let ghost ov = out@;
                out.insert(p, x);
                assert(keyed_v(out@) =~= o.insert(p as int, xv));
                assert(all_wf(out@)) by {
                    assert forall|i: int| 0 <= i < out@.len() implies (#[trigger] out@[i]).wf() by {
                        if i < p {
                            assert(out@[i] == ov[i]);
                        } else if i > p {
                            assert(out@[i] == ov[i - 1]);
                        }
                    }
                }
            },
            None => {},
        }
    }
    assert(all.skip(0) =~= all);
    out
}

/// The rows that come after a cursor.
pub open spec fn keeps(numeric: bool, after: Option<Seq<char>>, text: Seq<char>) -> bool {
    match after {
        None => true,
        Some(a) => key_less(numeric, a, text),
    }
}

/// The rows that come after a cursor, in their order.
pub open spec fn rest_after(numeric: bool, s: Seq<KeyedV>, after: Option<Seq<char>>) -> Seq<KeyedV>
    decreases s.len(),
{
    if s.len() == 0 {
        s
    } else if keeps(numeric, after, s.last().text) {
        rest_after(numeric, s.drop_last(), after).push(s.last())
    } else {
        rest_after(numeric, s.drop_last(), after)
    }
}

/// The rows themselves.
pub open spec fn rows_of(s: Seq<KeyedV>) -> Seq<JsonV> {
    Seq::new(s.len(), |i: int| s[i].row)
}

/// The keys themselves.
pub open spec fn keys_of(s: Seq<KeyedV>) -> Seq<Seq<char>> {
    Seq::new(s.len(), |i: int| s[i].text)
}

/// The fingerprint of a set: of its keys in their order, never of what the rows hold.
pub open spec fn set_hash(keys: Seq<Seq<char>>) -> Seq<char> {
    num::hex(crypto::sha256_digest(vstd::utf8::encode_utf8(text::join_v(keys, "\n"@))))
}

/// The cursor can be compared with the keys.
pub open spec fn cursor_ok(numeric: bool, after: Option<Seq<char>>) -> bool {
    match after {
        Some(a) => numeric ==> key_num(a) is Some,
        None => true,
    }
}

/// One page of a set that stands in the order of its keys.
pub open spec fn page_v(
    numeric: bool,
    sorted: Seq<KeyedV>,
    after: Option<Seq<char>>,
    limit: int,
    collected_at: int,
) -> JsonV {
    let rest = rest_after(numeric, sorted, after);
    let page = page_of(rows_of(rest), limit);
    let count = page.len() as int;
    let base = JsonV::empty().with("ok"@, JsonV::Bool(true)).with("items"@, JsonV::Arr(page)).with(
        "count"@,
        JsonV::Int(count),
    ).with("more"@, JsonV::Bool(rest.len() > count)).with(
        "total"@,
        JsonV::Int(sorted.len() as int),
    ).with("set_hash"@, JsonV::Str(set_hash(keys_of(sorted)))).with(
        "collected_at"@,
        JsonV::Int(collected_at),
    );
    if count > 0 {
        base.with("last"@, JsonV::Str(rest[count - 1].text))
    } else {
        base
    }
}

/// The page of a set of rows after a cursor, or what is wrong with the rows or the cursor.
pub open spec fn keyset_page_v(
    rows: Seq<JsonV>,
    key: Seq<char>,
    after: Option<Seq<char>>,
    limit: int,
    collected_at: int,
) -> JsonV {
    if !all_keyed(rows, key) {
        error_v("a row has no '"@ + key + "' to identify it by"@)
    } else {
        let set = with_keys(rows, key);
        let numeric = numeric_set(set);
        if !cursor_ok(numeric, after) {
            error_v("the cursor '"@ + after->0 + "' is not a key this set sorts by"@)
        } else {
            page_v(numeric, sort_rows(numeric, set), after, limit, collected_at)
        }
    }
}

/// The rows with their keys; nothing where a row has none.
fn key_rows(rows: Vec<Json>, key: &str) -> (r: Option<Vec<Keyed>>)
    ensures
        match r {
            Some(k) => all_keyed(json::models(rows@), key@) && keyed_v(k@) == with_keys(
                json::models(rows@),
                key@,
            ) && all_wf(k@),
            None => !all_keyed(json::models(rows@), key@),
        },
{
    let ghost all = json::models(rows@);
    let mut out: Vec<Keyed> = Vec::new();
    let mut i: usize = 0;
    while i < rows.len()
        invariant
            i <= rows@.len(),
            all == json::models(rows@),
            out@.len() == i,
            all_wf(out@),
            forall|k: int|
                0 <= k < i ==> row_key(#[trigger] all[k], key@) is Some && out@[k]@ == (KeyedV {
                    text: row_key(all[k], key@)->0,
                    row: all[k],
                }),
        decreases rows@.len() - i,
    {
        let text: Option<String> = match rows[i].get(key) {
            Some(v) => key_text(v),
            None => None,
        };
        assert(all[i as int] == rows@[i as int]@);
        match text {
            Some(t) => {
                let num: Option<i128> = parse_i128(trim(t.as_str()).as_str());
                let ghost o = out@;
                out.push(Keyed { text: t, num, row: rows[i].copy() });
                assert forall|k: int| 0 <= k < out@.len() implies (#[trigger] out@[k]).wf() by {
                    if k < o.len() {
                        assert(out@[k] == o[k]);
                    }
                }
            },
            None => {
                assert(row_key(all[i as int], key@) is None);
                return None;
            },
        }
        i = i + 1;
    }
    assert(keyed_v(out@) =~= with_keys(all, key@)) by {
        assert forall|k: int| 0 <= k < out@.len() implies keyed_v(out@)[k] == with_keys(
            all,
            key@,
        )[k] by {
            assert(row_key(all[k], key@) is Some);
        }
    }
    Some(out)
}

fn is_numeric(s: &Vec<Keyed>) -> (r: bool)
    requires
        all_wf(s@),
    ensures
        r == numeric_set(keyed_v(s@)),
{
    let ghost all = keyed_v(s@);
    let mut i: usize = 0;
    while i < s.len()
        invariant
            i <= s@.len(),
            all == keyed_v(s@),
            all_wf(s@),
            forall|k: int| 0 <= k < i ==> key_num((#[trigger] all[k]).text) is Some,
        decreases s@.len() - i,
    {
        assert(s@[i as int].wf());
        assert(all[i as int] == s@[i as int]@);
        if s[i].num.is_none() {
            return false;
        }
        i = i + 1;
    }
    s.len() > 0
}

fn key_list(s: &Vec<Keyed>) -> (r: Vec<String>)
    ensures
        text::texts(r@) == keys_of(keyed_v(s@)),
{
    let mut out: Vec<String> = Vec::new();
    let mut i: usize = 0;
    while i < s.len()
        invariant
            i <= s@.len(),
            out@.len() == i,
            forall|k: int| 0 <= k < i ==> (#[trigger] out@[k])@ == s@[k].text@,
        decreases s@.len() - i,
    {
        out.push(s[i].text.clone());
        i = i + 1;
    }
    assert(text::texts(out@) =~= keys_of(keyed_v(s@)));
    out
}

/// The text of a cursor.
spec fn cursor_text(o: Option<Keyed>) -> Option<Seq<char>> {
    match o {
        Some(a) => Some(a.text@),
        None => None,
    }
}

/// The rows after a cursor, and their keys.
fn select_rest(numeric: bool, s: &Vec<Keyed>, after: &Option<Keyed>) -> (r: (
    Vec<Json>,
    Vec<String>,
))
    requires
        all_wf(s@),
        comparable(numeric, keyed_v(s@)),
        after is Some ==> (after->0).wf() && (numeric ==> (after->0).num is Some),
    ensures
        ({
            let rest = rest_after(
                numeric,
                keyed_v(s@),
                cursor_text(*after),
            );
            json::models(r.0@) == rows_of(rest) && text::texts(r.1@) == keys_of(rest)
        }),
{
    let ghost all = keyed_v(s@);
    let ghost cursor = cursor_text(*after);
    let mut rows: Vec<Json> = Vec::new();
    let mut keys: Vec<String> = Vec::new();
    let mut i: usize = 0;
    assert(json::models(rows@) =~= rows_of(rest_after(numeric, all.take(0), cursor)));
    assert(text::texts(keys@) =~= keys_of(rest_after(numeric, all.take(0), cursor)));
    while i < s.len()
        invariant
            i <= s@.len(),
            all == keyed_v(s@),
            all_wf(s@),
            comparable(numeric, all),
            after is Some ==> (after->0).wf() && (numeric ==> (after->0).num is Some),
            cursor == cursor_text(*after),
            json::models(rows@) == rows_of(rest_after(numeric, all.take(i as int), cursor)),
            text::texts(keys@) == keys_of(rest_after(numeric, all.take(i as int), cursor)),
        decreases s@.len() - i,
    {
        proof {
            assert(all.take(i + 1).drop_last() == all.take(i as int));
            assert(all[i as int] == s@[i as int]@);
            assert(s@[i as int].wf());
        }
        let keep = match after {
            Some(a) => row_less(numeric, a, &s[i]),
            None => true,
        };
        if keep {
            let ghost rest = rest_after(numeric, all.take(i as int), cursor);
            let ghost ro = rows@;
            let ghost ko = keys@;
            rows.push(s[i].row.copy());
            keys.push(s[i].text.clone());
            assert(json::models(rows@) =~= json::models(ro).push(all[i as int].row));
            assert(text::texts(keys@) =~= text::texts(ko).push(all[i as int].text));
            assert(rows_of(rest.push(all[i as int])) =~= rows_of(rest).push(all[i as int].row));
            assert(keys_of(rest.push(all[i as int])) =~= keys_of(rest).push(all[i as int].text));
        }
        i = i + 1;
    }
    assert(all.take(i as int) == all);
    (rows, keys)
}

/// One page of a set of rows: those after the cursor, in the order of the key, as many as the
/// limit and the budget admit.
pub fn keyset_page(
    rows: Vec<Json>,
    key: &str,
    after: Option<&str>,
    limit: u64,
    collected_at: i64,
) -> (r: Json)
    ensures
        r@ == keyset_page_v(
            json::models(rows@),
            key@,
            text::opt_str(after),
            limit as int,
            collected_at as int,
        ),
{
    let keyed = match key_rows(rows, key) {
        Some(k) => k,
        None => {
            return keyset_error(cat3("a row has no '", key, "' to identify it by").as_str());
        },
    };
    let numeric = is_numeric(&keyed);
    let total: usize = keyed.len();
    let sorted = sort_keyed(numeric, keyed);
    proof {
        lemma_sort_len(numeric, with_keys(json::models(rows@), key@));
    }
    let names = key_list(&sorted);
    let hash = to_hex(sha256(join(&names, "\n").as_str().as_bytes()).as_slice());
    let cursor: Option<Keyed> = match after {
        Some(a) => {
            let num: Option<i128> = parse_i128(trim(a).as_str());
            if numeric && num.is_none() {
                return keyset_error(
                    cat3("the cursor '", a, "' is not a key this set sorts by").as_str(),
                );
            }
            Some(Keyed { text: a.to_owned(), num, row: Json::Null })
        },
        None => None,
    };
    let (rest, rest_keys) = select_rest(numeric, &sorted, &cursor);
    let page = page_within_budget(&rest, limit);
    let count: usize = page.len();
    proof {
        lemma_page_end(json::models(rest@), 0, 0, limit as int);
        assert(json::models(page@).len() == count);
        assert(json::models(rest@).len() == rest@.len());
        assert(text::texts(rest_keys@).len() == rest_keys@.len());
    }
    let ghost rv = rest_after(numeric, keyed_v(sorted@), text::opt_str(after));
    let out = Json::object().with("ok", Json::Bool(true)).with("items", Json::array(page)).with(
        "count",
        Json::UInt(count as u64),
    ).with("more", Json::Bool(rest.len() > count)).with("total", Json::UInt(total as u64)).with(
        "set_hash",
        Json::Str(hash),
    ).with("collected_at", Json::Int(collected_at));
    if count > 0 {
        assert(text::texts(rest_keys@)[count - 1] == rv[count - 1].text);
        out.with("last", Json::Str(rest_keys[count - 1].clone()))
    } else {
        out
    }
}

proof fn lemma_insert_len(numeric: bool, s: Seq<KeyedV>, x: KeyedV)
    ensures
        insert_row(numeric, s, x).len() == s.len() + 1,
        insert_row(numeric, s, x).to_multiset() =~= s.to_multiset().insert(x),
    decreases s.len(),
{
    broadcast use vstd::seq_lib::group_to_multiset_ensures;

    if s.len() == 0 || !key_less(numeric, s[0].text, x.text) {
        assert(seq![x] + s =~= s.insert(0, x));
        vstd::seq_lib::to_multiset_insert(s, 0, x);
    } else {
        let t = s.drop_first();
        lemma_insert_len(numeric, t, x);
        let u = insert_row(numeric, t, x);
        assert(seq![s[0]] + u =~= u.insert(0, s[0]));
        assert(seq![s[0]] + t =~= s);
        assert(seq![s[0]] + t =~= t.insert(0, s[0]));
        vstd::seq_lib::to_multiset_insert(u, 0, s[0]);
        vstd::seq_lib::to_multiset_insert(t, 0, s[0]);
    }
}

proof fn lemma_sort_len(numeric: bool, s: Seq<KeyedV>)
    ensures
        sort_rows(numeric, s).len() == s.len(),
    decreases s.len(),
{
    if s.len() > 0 {
        lemma_sort_len(numeric, s.drop_first());
        lemma_insert_len(numeric, sort_rows(numeric, s.drop_first()), s[0]);
    }
}

/// No two rows share a key.
pub open spec fn distinct_rows(numeric: bool, s: Seq<KeyedV>) -> bool {
    forall|i: int, j: int|
        0 <= i < j < s.len() ==> key_less(numeric, (#[trigger] s[i]).text, (#[trigger] s[j]).text)
            || key_less(numeric, s[j].text, s[i].text)
}

/// Rows stand in the order of their keys, each key once.
pub open spec fn strict_rows(numeric: bool, s: Seq<KeyedV>) -> bool {
    forall|i: int, j: int|
        0 <= i < j < s.len() ==> key_less(numeric, (#[trigger] s[i]).text, (#[trigger] s[j]).text)
}

proof fn lemma_insert_strict(numeric: bool, s: Seq<KeyedV>, x: KeyedV)
    requires
        strict_rows(numeric, s),
        comparable(numeric, s),
        numeric ==> key_num(x.text) is Some,
        forall|i: int|
            0 <= i < s.len() ==> key_less(numeric, (#[trigger] s[i]).text, x.text) || key_less(
                numeric,
                x.text,
                s[i].text,
            ),
    ensures
        strict_rows(numeric, insert_row(numeric, s, x)),
        comparable(numeric, insert_row(numeric, s, x)),
        forall|i: int|
            0 <= i < insert_row(numeric, s, x).len() ==> (#[trigger] insert_row(numeric, s, x)[i])
                == x || s.contains(insert_row(numeric, s, x)[i]),
    decreases s.len(),
{
    let r = insert_row(numeric, s, x);
    if s.len() == 0 || !key_less(numeric, s[0].text, x.text) {
        assert forall|i: int, j: int| 0 <= i < j < r.len() implies key_less(
            numeric,
            (#[trigger] r[i]).text,
            (#[trigger] r[j]).text,
        ) by {
            assert(r[j] == s[j - 1]);
            if i == 0 {
                assert(key_less(numeric, x.text, s[0].text));
                if j > 1 {
                    lemma_key_less(numeric, x.text, s[0].text, s[j - 1].text);
                    lemma_key_less(numeric, s[0].text, s[j - 1].text, s[0].text);
                }
            } else {
                assert(r[i] == s[i - 1]);
            }
        }
        assert forall|i: int| 0 <= i < r.len() implies (#[trigger] r[i]) == x || s.contains(
            r[i],
        ) by {
            if i > 0 {
                assert(r[i] == s[i - 1]);
            }
        }
        if numeric {
            assert forall|i: int| 0 <= i < r.len() implies key_num(
                (#[trigger] r[i]).text,
            ) is Some by {
                if i > 0 {
                    assert(r[i] == s[i - 1]);
                }
            }
        }
    } else {
        let t = s.drop_first();
        assert forall|i: int| 0 <= i < t.len() implies #[trigger] t[i] == s[i + 1] by {}
        assert(strict_rows(numeric, t));
        assert(comparable(numeric, t));
        lemma_insert_strict(numeric, t, x);
        let u = insert_row(numeric, t, x);
        assert(r == seq![s[0]] + u);
        assert forall|i: int, j: int| 0 <= i < j < r.len() implies key_less(
            numeric,
            (#[trigger] r[i]).text,
            (#[trigger] r[j]).text,
        ) by {
            assert(r[j] == u[j - 1]);
            if i == 0 {
                if u[j - 1] != x {
                    let k = choose|k: int| 0 <= k < t.len() && t[k] == u[j - 1];
                    assert(s[k + 1] == u[j - 1]);
                }
            } else {
                assert(r[i] == u[i - 1]);
            }
        }
        assert forall|i: int| 0 <= i < r.len() implies (#[trigger] r[i]) == x || s.contains(
            r[i],
        ) by {
            if i == 0 {
                assert(s[0] == r[0]);
            } else {
                assert(r[i] == u[i - 1]);
                if u[i - 1] != x {
                    let k = choose|k: int| 0 <= k < t.len() && t[k] == u[i - 1];
                    assert(s[k + 1] == r[i]);
                }
            }
        }
        if numeric {
            assert forall|i: int| 0 <= i < r.len() implies key_num(
                (#[trigger] r[i]).text,
            ) is Some by {
                if i > 0 {
                    assert(r[i] == u[i - 1]);
                }
            }
        }
    }
}

/// Sorting rows of distinct keys gives the same rows, each key strictly after the one before.
pub proof fn sorting_keeps_every_row(numeric: bool, s: Seq<KeyedV>)
    requires
        comparable(numeric, s),
        distinct_rows(numeric, s),
    ensures
        strict_rows(numeric, sort_rows(numeric, s)),
        comparable(numeric, sort_rows(numeric, s)),
        sort_rows(numeric, s).to_multiset() == s.to_multiset(),
        forall|i: int|
            0 <= i < sort_rows(numeric, s).len() ==> s.contains(
                #[trigger] sort_rows(numeric, s)[i],
            ),
    decreases s.len(),
{
    if s.len() > 0 {
        let t = s.drop_first();
        let x = s[0];
        assert forall|i: int| 0 <= i < t.len() implies #[trigger] t[i] == s[i + 1] by {}
        assert(distinct_rows(numeric, t));
        assert(comparable(numeric, t));
        sorting_keeps_every_row(numeric, t);
        let u = sort_rows(numeric, t);
        assert forall|i: int| 0 <= i < u.len() implies key_less(
            numeric,
            (#[trigger] u[i]).text,
            x.text,
        ) || key_less(numeric, x.text, u[i].text) by {
            let k = choose|k: int| 0 <= k < t.len() && t[k] == u[i];
            assert(s[k + 1] == u[i]);
            assert(s[0] == x);
        }
        lemma_insert_strict(numeric, u, x);
        lemma_insert_len(numeric, u, x);
        assert(s =~= t.insert(0, x));
        vstd::seq_lib::to_multiset_insert(t, 0, x);
        let r = sort_rows(numeric, s);
        assert forall|i: int| 0 <= i < r.len() implies s.contains(#[trigger] r[i]) by {
            if r[i] != x {
                let k = choose|k: int| 0 <= k < u.len() && u[k] == r[i];
                let l = choose|l: int| 0 <= l < t.len() && t[l] == u[k];
                assert(s[l + 1] == r[i]);
            } else {
                assert(s[0] == r[i]);
            }
        }
    }
}

proof fn lemma_rest_none(numeric: bool, s: Seq<KeyedV>, a: Seq<char>)
    requires
        forall|i: int| 0 <= i < s.len() ==> !key_less(numeric, a, (#[trigger] s[i]).text),
    ensures
        rest_after(numeric, s, Some(a)) =~= Seq::<KeyedV>::empty(),
    decreases s.len(),
{
    if s.len() > 0 {
        let t = s.drop_last();
        assert forall|i: int| 0 <= i < t.len() implies !key_less(
            numeric,
            a,
            (#[trigger] t[i]).text,
        ) by {
            assert(t[i] == s[i]);
        }
        assert(!key_less(numeric, a, s[s.len() - 1].text));
        lemma_rest_none(numeric, t, a);
    }
}

/// The cursor that stands behind the first `c` rows.
pub open spec fn cursor_at(s: Seq<KeyedV>, c: int) -> Option<Seq<char>> {
    if c == 0 {
        None
    } else {
        Some(s[c - 1].text)
    }
}

/// What comes after a cursor is exactly the rows that stand behind it.
pub proof fn nothing_is_lost_at_the_cursor(numeric: bool, s: Seq<KeyedV>, c: int)
    requires
        strict_rows(numeric, s),
        comparable(numeric, s),
        0 <= c <= s.len(),
    ensures
        rest_after(numeric, s, cursor_at(s, c)) == s.skip(c),
    decreases s.len(),
{
    if s.len() == 0 {
        assert(s.skip(c) =~= s);
    } else if c < s.len() {
        let t = s.drop_last();
        assert forall|i: int| 0 <= i < t.len() implies #[trigger] t[i] == s[i] by {}
        assert(strict_rows(numeric, t));
        assert(comparable(numeric, t));
        nothing_is_lost_at_the_cursor(numeric, t, c);
        assert(cursor_at(t, c) == cursor_at(s, c));
        if c > 0 {
            assert(key_less(numeric, s[c - 1].text, s[s.len() - 1].text));
        }
        assert(t.skip(c).push(s.last()) =~= s.skip(c));
    } else {
        let a = s[c - 1].text;
        assert forall|i: int| 0 <= i < s.len() implies !key_less(
            numeric,
            a,
            (#[trigger] s[i]).text,
        ) by {
            lemma_key_less(numeric, s[i].text, a, a);
            if i < c - 1 {
                assert(key_less(numeric, s[i].text, s[c - 1].text));
            }
        }
        lemma_rest_none(numeric, s, a);
        assert(s.skip(c) =~= Seq::<KeyedV>::empty());
    }
}

/// What a reader gets who asks for page after page, each after the last row of the one before,
/// as long as more rows are announced, and at most `pages` times.
pub open spec fn read_pages(
    numeric: bool,
    s: Seq<KeyedV>,
    after: Option<Seq<char>>,
    limit: int,
    pages: nat,
) -> Seq<JsonV>
    decreases pages,
{
    if pages == 0 {
        seq![]
    } else {
        let rest = rest_after(numeric, s, after);
        let page = page_of(rows_of(rest), limit);
        if page.len() > 0 && rest.len() > page.len() {
            page + read_pages(
                numeric,
                s,
                Some(rest[page.len() - 1].text),
                limit,
                (pages - 1) as nat,
            )
        } else {
            page
        }
    }
}

proof fn lemma_read_pages(numeric: bool, s: Seq<KeyedV>, c: int, limit: int, pages: nat)
    requires
        strict_rows(numeric, s),
        comparable(numeric, s),
        0 <= c <= s.len(),
        limit > 0,
        pages > s.len() - c,
    ensures
        read_pages(numeric, s, cursor_at(s, c), limit, pages) == rows_of(s).skip(c),
    decreases s.len() - c,
{
    nothing_is_lost_at_the_cursor(numeric, s, c);
    let rest = s.skip(c);
    let rows = rows_of(rest);
    let page = page_of(rows, limit);
    lemma_page_end(rows, 0, 0, limit);
    let n = page.len() as int;
    assert(rows =~= rows_of(s).skip(c));
    if n > 0 && rest.len() > n {
        assert(rest[n - 1] == s[c + n - 1]);
        lemma_read_pages(numeric, s, c + n, limit, (pages - 1) as nat);
        assert(page + rows_of(s).skip(c + n) =~= rows_of(s).skip(c));
    } else {
        if rows.len() > 0 {
            a_page_always_advances(rows, limit);
        }
        assert(page =~= rows);
    }
}

/// Reading a set page by page, from its start and by the last key of each page, gives every
/// row once and in order, whatever the limit and however the budget cuts the pages.
pub proof fn paging_loses_and_repeats_nothing(
    numeric: bool,
    set: Seq<KeyedV>,
    limit: int,
    pages: nat,
)
    requires
        comparable(numeric, set),
        distinct_rows(numeric, set),
        limit > 0,
        pages > set.len(),
    ensures
        read_pages(numeric, sort_rows(numeric, set), None, limit, pages) == rows_of(
            sort_rows(numeric, set),
        ),
        sort_rows(numeric, set).to_multiset() == set.to_multiset(),
{
    let s = sort_rows(numeric, set);
    sorting_keeps_every_row(numeric, set);
    lemma_sort_len(numeric, set);
    lemma_read_pages(numeric, s, 0, limit, pages);
    assert(rows_of(s).skip(0) =~= rows_of(s));
}

/// Some row has the key.
pub open spec fn has_key(rows: Seq<JsonV>, key: Seq<char>, text: Seq<char>) -> bool {
    exists|i: int| 0 <= i < rows.len() && row_key(#[trigger] rows[i], key) == Some(text)
}

/// Every row has a key, and no two rows share theirs: in a set of numbers the keys differ as
/// numbers, else as texts.
pub open spec fn identified(rows: Seq<JsonV>, key: Seq<char>) -> bool {
    let set = with_keys(rows, key);
    all_keyed(rows, key) && distinct_rows(numeric_set(set), set)
}

/// The keys of rows in their order.
pub open spec fn ordered_keys(rows: Seq<JsonV>, key: Seq<char>) -> Seq<Seq<char>> {
    let set = with_keys(rows, key);
    keys_of(sort_rows(numeric_set(set), set))
}

/// Keys stand in their order, each once, and can be compared.
spec fn strict_keys(numeric: bool, s: Seq<Seq<char>>) -> bool {
    &&& forall|i: int, j: int|
        0 <= i < j < s.len() ==> key_less(numeric, #[trigger] s[i], #[trigger] s[j])
    &&& numeric ==> forall|i: int| 0 <= i < s.len() ==> key_num(#[trigger] s[i]) is Some
}

/// The same keys in their order are the same list.
proof fn lemma_same_keys(numeric: bool, s: Seq<Seq<char>>, t: Seq<Seq<char>>)
    requires
        strict_keys(numeric, s),
        strict_keys(numeric, t),
        forall|x: Seq<char>| #[trigger] s.contains(x) <==> t.contains(x),
    ensures
        s == t,
    decreases s.len(),
{
    if s.len() == 0 {
        if t.len() > 0 {
            assert(t.contains(t[0]));
            assert(s.contains(t[0]));
        }
        assert(s =~= t);
    } else {
        assert(s.contains(s[0]));
        assert(t.contains(s[0]));
        let j0 = choose|j: int| 0 <= j < t.len() && t[j] == s[0];
        assert(t.contains(t[0]));
        assert(s.contains(t[0]));
        let i0 = choose|i: int| 0 <= i < s.len() && s[i] == t[0];
        lemma_key_less(numeric, s[0], t[0], t[0]);
        assert(s[0] == t[0]);
        let u = s.drop_first();
        let v = t.drop_first();
        assert(s =~= seq![s[0]] + u);
        assert(t =~= seq![t[0]] + v);
        lemma_strict_tail(numeric, s);
        lemma_strict_tail(numeric, t);
        assert forall|x: Seq<char>| #[trigger] u.contains(x) <==> v.contains(x) by {
            assert(s.contains(x) <==> t.contains(x));
        }
        lemma_same_keys(numeric, u, v);
    }
}

proof fn lemma_strict_tail(numeric: bool, s: Seq<Seq<char>>)
    requires
        strict_keys(numeric, s),
        s.len() > 0,
    ensures
        strict_keys(numeric, s.drop_first()),
        forall|x: Seq<char>| #[trigger]
            s.drop_first().contains(x) <==> s.contains(x) && x != s[0],
{
    let t = s.drop_first();
    assert forall|i: int| 0 <= i < t.len() implies #[trigger] t[i] == s[i + 1] by {}
    lemma_key_less(numeric, s[0], s[0], s[0]);
    assert forall|x: Seq<char>| #[trigger] t.contains(x) <==> s.contains(x) && x != s[0] by {
        if t.contains(x) {
            let i = choose|i: int| 0 <= i < t.len() && t[i] == x;
            assert(s[i + 1] == x);
            assert(key_less(numeric, s[0], s[i + 1]));
        }
        if s.contains(x) && x != s[0] {
            let i = choose|i: int| 0 <= i < s.len() && s[i] == x;
            assert(t[i - 1] == x);
        }
    }
}

/// The rows of a set and its rows in order have the same keys.
proof fn lemma_sorted_has(rows: Seq<JsonV>, key: Seq<char>, text: Seq<char>)
    requires
        identified(rows, key),
    ensures
        has_key(rows, key, text) <==> ordered_keys(rows, key).contains(text),
{
    broadcast use vstd::seq_lib::group_to_multiset_ensures;

    let set = with_keys(rows, key);
    let numeric = numeric_set(set);
    let sorted = sort_rows(numeric, set);
    sorting_keeps_every_row(numeric, set);
    if has_key(rows, key, text) {
        let i = choose|i: int| 0 <= i < rows.len() && row_key(#[trigger] rows[i], key) == Some(text);
        assert(set.contains(set[i]));
        assert(set.to_multiset().count(set[i]) > 0);
        assert(sorted.contains(set[i]));
        let j = choose|j: int| 0 <= j < sorted.len() && sorted[j] == set[i];
        assert(ordered_keys(rows, key)[j] == text);
    }
    if ordered_keys(rows, key).contains(text) {
        let j = choose|j: int|
            0 <= j < ordered_keys(rows, key).len() && ordered_keys(rows, key)[j] == text;
        assert(set.contains(sorted[j]));
        let i = choose|i: int| 0 <= i < set.len() && set[i] == sorted[j];
        assert(row_key(rows[i], key) is Some);
        assert(row_key(rows[i], key) == Some(text));
    }
}

/// The keys of a set stand in their order: each key of a row once, and nothing else.
pub proof fn the_keys_of_a_set_stand_in_order(rows: Seq<JsonV>, key: Seq<char>)
    requires
        identified(rows, key),
    ensures
        forall|text: Seq<char>|
            has_key(rows, key, text) <==> #[trigger] ordered_keys(rows, key).contains(text),
        forall|i: int, j: int|
            0 <= i < j < ordered_keys(rows, key).len() ==> key_less(
                numeric_set(with_keys(rows, key)),
                #[trigger] ordered_keys(rows, key)[i],
                #[trigger] ordered_keys(rows, key)[j],
            ),
{
    let set = with_keys(rows, key);
    sorting_keeps_every_row(numeric_set(set), set);
    assert forall|text: Seq<char>|
        has_key(rows, key, text) <==> #[trigger] ordered_keys(rows, key).contains(text) by {
        lemma_sorted_has(rows, key, text);
    }
}

/// Two lists of rows with the same keys, none of them twice, have the same fingerprint on each
/// of their pages, in whatever order the rows come, whatever else they hold and whichever page
/// is asked for: that of the keys in their order, one to a line.
pub proof fn one_set_has_one_hash(
    a: Seq<JsonV>,
    b: Seq<JsonV>,
    key: Seq<char>,
    after_a: Option<Seq<char>>,
    after_b: Option<Seq<char>>,
    limit_a: int,
    limit_b: int,
    at_a: int,
    at_b: int,
)
    requires
        identified(a, key),
        identified(b, key),
        forall|text: Seq<char>| #[trigger] has_key(a, key, text) <==> has_key(b, key, text),
        cursor_ok(numeric_set(with_keys(a, key)), after_a),
        cursor_ok(numeric_set(with_keys(b, key)), after_b),
    ensures
        ordered_keys(a, key) == ordered_keys(b, key),
        keyset_page_v(a, key, after_a, limit_a, at_a).member("set_hash"@) == Some(
            JsonV::Str(set_hash(ordered_keys(a, key))),
        ),
        keyset_page_v(b, key, after_b, limit_b, at_b).member("set_hash"@) == Some(
            JsonV::Str(set_hash(ordered_keys(a, key))),
        ),
{
    let sa = with_keys(a, key);
    let sb = with_keys(b, key);
    let na = numeric_set(sa);
    let nb = numeric_set(sb);
    sorting_keeps_every_row(na, sa);
    sorting_keeps_every_row(nb, sb);
    lemma_key_of_other(a, b, key);
    lemma_key_of_other(b, a, key);
    let ra = sort_rows(na, sa);
    let rb = sort_rows(nb, sb);
    assert forall|x: Seq<char>| #[trigger]
        ordered_keys(a, key).contains(x) <==> ordered_keys(b, key).contains(x) by {
        lemma_sorted_has(a, key, x);
        lemma_sorted_has(b, key, x);
        assert(has_key(a, key, x) <==> has_key(b, key, x));
    }
    assert(ordered_keys(a, key) == keys_of(ra) && ordered_keys(b, key) == keys_of(rb));
    assert(strict_keys(na, ordered_keys(a, key)));
    assert(strict_keys(nb, ordered_keys(b, key)));
    lemma_same_keys(na, ordered_keys(a, key), ordered_keys(b, key));
    lemma_page_hash(na, ra, after_a, limit_a, at_a);
    lemma_page_hash(nb, rb, after_b, limit_b, at_b);
}

proof fn lemma_key_of_other(a: Seq<JsonV>, b: Seq<JsonV>, key: Seq<char>)
    requires
        all_keyed(a, key),
        all_keyed(b, key),
        forall|text: Seq<char>| #[trigger] has_key(a, key, text) <==> has_key(b, key, text),
    ensures
        numeric_set(with_keys(a, key)) ==> numeric_set(with_keys(b, key)),
{
    let sa = with_keys(a, key);
    let sb = with_keys(b, key);
    if numeric_set(sa) {
        assert(row_key(a[0], key) == Some(sa[0].text));
        assert(has_key(a, key, sa[0].text));
        assert(has_key(b, key, sa[0].text));
        assert forall|i: int| 0 <= i < sb.len() implies key_num((#[trigger] sb[i]).text) is Some by {
            assert(row_key(b[i], key) == Some(sb[i].text));
            assert(has_key(b, key, sb[i].text));
            assert(has_key(a, key, sb[i].text));
            let j = choose|j: int|
                0 <= j < a.len() && row_key(#[trigger] a[j], key) == Some(sb[i].text);
            assert(sa[j].text == sb[i].text);
        }
    }
}

proof fn lemma_page_hash(
    numeric: bool,
    sorted: Seq<KeyedV>,
    after: Option<Seq<char>>,
    limit: int,
    at: int,
)
    ensures
        page_v(numeric, sorted, after, limit, at).member("set_hash"@) == Some(
            JsonV::Str(set_hash(keys_of(sorted))),
        ),
{
    reveal_strlit("set_hash");
    reveal_strlit("collected_at");
    reveal_strlit("last");
    assert("set_hash"@.len() == 8 && "collected_at"@.len() == 12 && "last"@.len() == 4);
}

/// The fingerprint of a set does not depend on what its rows hold beside their keys.
pub proof fn the_set_hash_ignores_row_content(
    a: Seq<JsonV>,
    b: Seq<JsonV>,
    key: Seq<char>,
)
    requires
        a.len() == b.len(),
        all_keyed(a, key),
        all_keyed(b, key),
        forall|i: int| 0 <= i < a.len() ==> row_key(#[trigger] a[i], key) == row_key(b[i], key),
    ensures
        ({
            let sa = with_keys(a, key);
            let sb = with_keys(b, key);
            &&& numeric_set(sa) == numeric_set(sb)
            &&& set_hash(keys_of(sort_rows(numeric_set(sa), sa))) == set_hash(
                keys_of(sort_rows(numeric_set(sb), sb)),
            )
        }),
{
    let sa = with_keys(a, key);
    let sb = with_keys(b, key);
    assert forall|i: int| 0 <= i < sa.len() implies (#[trigger] sa[i]).text == sb[i].text by {
        assert(row_key(a[i], key) == row_key(b[i], key));
    }
    assert(keys_of(sa) =~= keys_of(sb));
    if numeric_set(sa) {
        assert forall|i: int| 0 <= i < sb.len() implies key_num((#[trigger] sb[i]).text) is Some by {
            assert(sa[i].text == sb[i].text);
        }
    }
    if numeric_set(sb) {
        assert forall|i: int| 0 <= i < sa.len() implies key_num((#[trigger] sa[i]).text) is Some by {
            assert(sa[i].text == sb[i].text);
        }
    }
    lemma_sorted_keys(numeric_set(sa), sa, sb);
}

proof fn lemma_inserted_keys(
    numeric: bool,
    a: Seq<KeyedV>,
    b: Seq<KeyedV>,
    x: KeyedV,
    y: KeyedV,
)
    requires
        keys_of(a) == keys_of(b),
        x.text == y.text,
    ensures
        keys_of(insert_row(numeric, a, x)) == keys_of(insert_row(numeric, b, y)),
    decreases a.len(),
{
    assert(a.len() == keys_of(a).len() && b.len() == keys_of(b).len());
    if a.len() > 0 {
        assert(keys_of(a)[0] == a[0].text && keys_of(b)[0] == b[0].text);
    }
    if a.len() == 0 || !key_less(numeric, a[0].text, x.text) {
        assert(keys_of(seq![x] + a) =~= seq![x.text] + keys_of(a));
        assert(keys_of(seq![y] + b) =~= seq![y.text] + keys_of(b));
    } else {
        assert(keys_of(a.drop_first()) =~= keys_of(a).drop_first());
        assert(keys_of(b.drop_first()) =~= keys_of(b).drop_first());
        lemma_inserted_keys(numeric, a.drop_first(), b.drop_first(), x, y);
        let u = insert_row(numeric, a.drop_first(), x);
        let v = insert_row(numeric, b.drop_first(), y);
        assert(keys_of(seq![a[0]] + u) =~= seq![a[0].text] + keys_of(u));
        assert(keys_of(seq![b[0]] + v) =~= seq![b[0].text] + keys_of(v));
    }
}

proof fn lemma_sorted_keys(numeric: bool, a: Seq<KeyedV>, b: Seq<KeyedV>)
    requires
        keys_of(a) == keys_of(b),
    ensures
        keys_of(sort_rows(numeric, a)) == keys_of(sort_rows(numeric, b)),
    decreases a.len(),
{
    assert(a.len() == keys_of(a).len() && b.len() == keys_of(b).len());
    if a.len() > 0 {
        assert(keys_of(a.drop_first()) =~= keys_of(a).drop_first());
        assert(keys_of(b.drop_first()) =~= keys_of(b).drop_first());
        lemma_sorted_keys(numeric, a.drop_first(), b.drop_first());
        assert(keys_of(a)[0] == a[0].text && keys_of(b)[0] == b[0].text);
        lemma_inserted_keys(
            numeric,
            sort_rows(numeric, a.drop_first()),
            sort_rows(numeric, b.drop_first()),
            a[0],
            b[0],
        );
    }
}

/// The bytes that the first `n` rows take on a page: each the length of its text and a comma.
pub open spec fn bytes_of(rows: Seq<JsonV>, n: int) -> int
    decreases n,
{
    if n <= 0 {
        0
    } else {
        bytes_of(rows, n - 1) + json::size(rows[n - 1]) + 1
    }
}

proof fn lemma_page_bytes(rows: Seq<JsonV>, i: int, limit: int)
    requires
        0 <= i <= rows.len(),
        i <= limit || i == 0,
        i <= 1 || bytes_of(rows, i) <= 49152,
    ensures
        ({
            let n = page_end(rows, i, bytes_of(rows, i), limit);
            &&& i <= n <= rows.len()
            &&& n <= limit || n == 0
            &&& n <= 1 || bytes_of(rows, n) <= 49152
            &&& n == rows.len() || n >= limit || (n > 0 && bytes_of(rows, n + 1) > 49152)
        }),
    decreases rows.len() - i,
{
    if i < rows.len() && i < limit {
        assert(bytes_of(rows, i + 1) == bytes_of(rows, i) + json::size(rows[i]) + 1);
        if !(i > 0 && bytes_of(rows, i + 1) > 49152) {
            lemma_page_bytes(rows, i + 1, limit);
        }
    }
}

/// A page holds the first rows, as many as there are up to its limit and as fit into 48 KiB,
/// and no fewer; one row is handed out even where it does not fit.
pub proof fn a_page_is_as_full_as_it_may_be(rows: Seq<JsonV>, limit: int)
    requires
        limit >= 0,
    ensures
        ({
            let n = page_of(rows, limit).len() as int;
            &&& page_of(rows, limit) == rows.take(n)
            &&& n <= rows.len()
            &&& n <= limit
            &&& n <= 1 || bytes_of(rows, n) <= 49152
            &&& n == rows.len() || n == limit || (n > 0 && bytes_of(rows, n + 1) > 49152)
        }),
{
    lemma_page_bytes(rows, 0, limit);
}

/// What comes behind a cursor is every row whose key is larger, and no other: by the numbers in
/// a set of numbers, else by the texts. Without a cursor it is every row.
pub proof fn a_page_starts_behind_its_cursor(numeric: bool, s: Seq<KeyedV>, a: Seq<char>)
    ensures
        rest_after(numeric, s, None) == s,
        numeric ==> rest_after(numeric, s, Some(a)) == s.filter(
            |k: KeyedV| key_num(a)->0 < key_num(k.text)->0,
        ),
        !numeric ==> rest_after(numeric, s, Some(a)) == s.filter(
            |k: KeyedV| text::before(a, k.text),
        ),
    decreases s.len(),
{
    reveal(Seq::filter);
    if s.len() > 0 {
        a_page_starts_behind_its_cursor(numeric, s.drop_last(), a);
        assert(s.drop_last().push(s.last()) =~= s);
    }
}

/// What a page says of itself: its rows and how many they are, whether more come, how many the
/// set has, when it was collected, and the key of its last row.
pub proof fn a_page_says_what_it_holds(
    rows: Seq<JsonV>,
    key: Seq<char>,
    after: Option<Seq<char>>,
    limit: int,
    collected_at: int,
)
    requires
        all_keyed(rows, key),
        cursor_ok(numeric_set(with_keys(rows, key)), after),
        limit >= 0,
    ensures
        ({
            let set = with_keys(rows, key);
            let numeric = numeric_set(set);
            let rest = rest_after(numeric, sort_rows(numeric, set), after);
            let v = keyset_page_v(rows, key, after, limit, collected_at);
            let page = page_of(rows_of(rest), limit);
            &&& v.member("ok"@) == Some(JsonV::Bool(true))
            &&& v.member("items"@) == Some(JsonV::Arr(page))
            &&& v.member("count"@) == Some(JsonV::Int(page.len() as int))
            &&& v.member("more"@) == Some(JsonV::Bool(page.len() < rest.len()))
            &&& v.member("total"@) == Some(JsonV::Int(rows.len() as int))
            &&& v.member("collected_at"@) == Some(JsonV::Int(collected_at))
            &&& page.len() > 0 ==> page.len() <= rest.len() && v.member("last"@) == Some(
                JsonV::Str(rest[page.len() - 1].text),
            ) && page.last() == rest[page.len() - 1].row
            &&& page.len() == 0 ==> v.member("last"@) is None
        }),
{
    let set = with_keys(rows, key);
    let numeric = numeric_set(set);
    let rest = rest_after(numeric, sort_rows(numeric, set), after);
    lemma_sort_len(numeric, set);
    lemma_page_bytes(rows_of(rest), 0, limit);
    reveal_strlit("ok");
    reveal_strlit("items");
    reveal_strlit("count");
    reveal_strlit("more");
    reveal_strlit("total");
    reveal_strlit("set_hash");
    reveal_strlit("collected_at");
    reveal_strlit("last");
    assert("ok"@.len() == 2 && "items"@.len() == 5 && "count"@.len() == 5 && "items"@[0] == 'i'
        && "count"@[0] == 'c');
    assert("more"@.len() == 4 && "last"@.len() == 4 && "more"@[0] == 'm' && "last"@[0] == 'l');
    assert("total"@.len() == 5 && "total"@[0] == 't');
    assert("set_hash"@.len() == 8 && "collected_at"@.len() == 12);
}

/// A set is refused where a row lacks its key, or where the keys are numbers and the cursor is
/// none; then it is answered with an error and nothing else.
pub proof fn a_set_without_keys_is_refused(
    rows: Seq<JsonV>,
    key: Seq<char>,
    after: Option<Seq<char>>,
    limit: int,
    collected_at: int,
    i: int,
)
    requires
        0 <= i < rows.len(),
    ensures
        !(rows[i].member(key) matches Some(JsonV::Str(_))) && !(rows[i].member(key) matches Some(
            JsonV::Int(_),
        )) && !(rows[i].member(key) matches Some(JsonV::Real(_))) ==> keyset_page_v(
            rows,
            key,
            after,
            limit,
            collected_at,
        ).member("ok"@) == Some(JsonV::Bool(false)),
{
    reveal_strlit("ok");
    reveal_strlit("error");
    assert("ok"@.len() == 2 && "error"@.len() == 5);
}

proof fn lemma_insert_place(numeric: bool, s: Seq<KeyedV>, x: KeyedV) -> (p: int)
    requires
        sorted_rows(numeric, s),
        comparable(numeric, s.push(x)),
    ensures
        sorted_rows(numeric, insert_row(numeric, s, x)),
        comparable(numeric, insert_row(numeric, s, x)),
        0 <= p <= s.len(),
        insert_row(numeric, s, x) == s.insert(p, x),
        forall|i: int| 0 <= i < p ==> key_less(numeric, (#[trigger] s[i]).text, x.text),
{
    let p = lemma_place(numeric, s, x);
    let all = s.push(x);
    assert(all[s.len() as int] == x);
    assert forall|i: int| p <= i < s.len() implies !key_less(numeric, (#[trigger] s[i]).text, x.text) by {
        assert(all[p] == s[p] && all[i] == s[i]);
        if i > p {
            assert(!key_less(numeric, s[i].text, s[p].text));
            lemma_key_less(numeric, s[i].text, x.text, s[p].text);
        }
    }
    lemma_insert_sorted(numeric, s, x, p);
    p
}

proof fn lemma_place(numeric: bool, s: Seq<KeyedV>, x: KeyedV) -> (p: int)
    ensures
        0 <= p <= s.len(),
        insert_row(numeric, s, x) == s.insert(p, x),
        forall|i: int| 0 <= i < p ==> key_less(numeric, (#[trigger] s[i]).text, x.text),
        p < s.len() ==> !key_less(numeric, s[p].text, x.text),
    decreases s.len(),
{
    if s.len() == 0 || !key_less(numeric, s[0].text, x.text) {
        assert(seq![x] + s =~= s.insert(0, x));
        0
    } else {
        let t = s.drop_first();
        let p = lemma_place(numeric, t, x);
        assert(seq![s[0]] + t.insert(p, x) =~= s.insert(p + 1, x));
        assert forall|i: int| 0 <= i < p + 1 implies key_less(
            numeric,
            (#[trigger] s[i]).text,
            x.text,
        ) by {
            if i > 0 {
                assert(t[i - 1] == s[i]);
            }
        }
        if p < t.len() {
            assert(t[p] == s[p + 1]);
        }
        p + 1
    }
}

/// A set in order holds the rows of the set, each as often, none behind one with a larger key.
pub proof fn a_set_is_sorted(numeric: bool, s: Seq<KeyedV>)
    requires
        comparable(numeric, s),
    ensures
        sort_rows(numeric, s).to_multiset() == s.to_multiset(),
        comparable(numeric, sort_rows(numeric, s)),
        numeric ==> forall|i: int, j: int|
            0 <= i < j < s.len() ==> key_num((#[trigger] sort_rows(numeric, s)[i]).text)->0
                <= key_num((#[trigger] sort_rows(numeric, s)[j]).text)->0,
        !numeric ==> forall|i: int, j: int|
            0 <= i < j < s.len() ==> !text::before(
                (#[trigger] sort_rows(numeric, s)[j]).text,
                (#[trigger] sort_rows(numeric, s)[i]).text,
            ),
        sorted_rows(numeric, sort_rows(numeric, s)),
    decreases s.len(),
{
    lemma_sort_len(numeric, s);
    if s.len() > 0 {
        let t = s.drop_first();
        let x = s[0];
        assert forall|i: int| 0 <= i < t.len() implies #[trigger] t[i] == s[i + 1] by {}
        assert(comparable(numeric, t));
        a_set_is_sorted(numeric, t);
        let u = sort_rows(numeric, t);
        lemma_insert_len(numeric, u, x);
        assert(s =~= t.insert(0, x));
        vstd::seq_lib::to_multiset_insert(t, 0, x);
        let all = u.push(x);
        assert forall|i: int| numeric && 0 <= i < all.len() implies key_num(
            (#[trigger] all[i]).text,
        ) is Some by {
            if i < u.len() {
                assert(all[i] == u[i]);
            }
        }
        let p = lemma_insert_place(numeric, u, x);
    }
}

/// A row is identified by a text as it is and by a number as it is written, and by nothing else;
/// the rows behind a cursor are those whose key comes after it.
pub proof fn a_key_is_a_text_or_a_number(s: Seq<char>, n: int, v: JsonV, numeric: bool)
    ensures
        key_text_v(JsonV::Str(s)) == Some(s),
        key_text_v(JsonV::Int(n)) == Some(num::dec_int(n)),
        key_text_v(JsonV::Real(s)) == Some(s),
        key_text_v(v) is Some <==> v is Str || v is Int || v is Real,
        keeps(numeric, None, s),
        error_v(s).member("ok"@) == Some(JsonV::Bool(false)),
        error_v(s).member("error"@) == Some(JsonV::Str(s)),
{
    reveal_strlit("ok");
    reveal_strlit("error");
    assert("ok"@.len() == 2);
    assert("error"@.len() == 5);
}

} // verus!
