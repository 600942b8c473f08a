//! JSON values as the agent reads and writes them.
//!
//! [`Json`] holds a value as plain data; [`JsonV`] is its mathematical model, in which an
//! object is a map and the order of its members does not matter. Text is read and written by
//! `serde_json`.
use vstd::prelude::*;

use crate::text;
use crate::text::{bytes_in, less, same};

verus! {

/// A JSON value. A number that is no integer is kept as its text. In an object a later member
/// stands for an earlier one of the same name.
#[derive(Debug)]
pub enum Json {
    Null,
    Bool(bool),
    Int(i64),
    UInt(u64),
    Real(String),
    Str(String),
    Arr(Vec<Json>),
    Obj(Vec<(String, Json)>),
}

/// The model of a JSON value.
#[verifier::ext_equal]
pub enum JsonV {
    Null,
    Bool(bool),
    Int(int),
    Real(Seq<char>),
    Str(Seq<char>),
    Arr(Seq<JsonV>),
    Obj(Map<Seq<char>, JsonV>),
}

/// The value that a [`Json`] stands for.
pub open spec fn model(j: Json) -> JsonV
    decreases j,
{
    match j {
        Json::Null => JsonV::Null,
        Json::Bool(b) => JsonV::Bool(b),
        Json::Int(n) => JsonV::Int(n as int),
        Json::UInt(n) => JsonV::Int(n as int),
        Json::Real(t) => JsonV::Real(t@),
        Json::Str(s) => JsonV::Str(s@),
        Json::Arr(v) => JsonV::Arr(
            Seq::new(
                v@.len(),
                |i: int|
                    if 0 <= i < v@.len() {
                        model(v@[i])
                    } else {
                        JsonV::Null
                    },
            ),
        ),
        Json::Obj(m) => JsonV::Obj(members(m@)),
    }
}

/// The map that a list of members stands for.
pub open spec fn members(m: Seq<(String, Json)>) -> Map<Seq<char>, JsonV>
    decreases m,
{
    if m.len() == 0 {
        Map::empty()
    } else {
        members(m.drop_last()).insert(m.last().0@, model(m.last().1))
    }
}

impl View for Json {
    type V = JsonV;

    open spec fn view(&self) -> JsonV {
        model(*self)
    }
}

/// The models of a list of values.
pub open spec fn models(v: Seq<Json>) -> Seq<JsonV> {
    Seq::new(v.len(), |i: int| v[i]@)
}

/// The model of an optional value.
pub open spec fn opt_model(o: Option<Json>) -> Option<JsonV> {
    match o {
        Some(j) => Some(j@),
        None => None,
    }
}

/// The model of an optional borrowed value.
pub open spec fn opt_ref(o: Option<&Json>) -> Option<JsonV> {
    match o {
        Some(j) => Some(j@),
        None => None,
    }
}

impl JsonV {
    /// The member of an object under a name.
    pub open spec fn member(self, key: Seq<char>) -> Option<JsonV> {
        match self {
            JsonV::Obj(m) => if m.contains_key(key) {
                Some(m[key])
            } else {
                None
            },
            _ => None,
        }
    }

    /// The object with one member set; any other value becomes an object first.
    pub open spec fn with(self, key: Seq<char>, value: JsonV) -> JsonV {
        match self {
            JsonV::Obj(m) => JsonV::Obj(m.insert(key, value)),
            _ => JsonV::Obj(Map::<Seq<char>, JsonV>::empty().insert(key, value)),
        }
    }

    /// The object without one member; any other value as it is.
    pub open spec fn without(self, key: Seq<char>) -> JsonV {
        match self {
            JsonV::Obj(m) => JsonV::Obj(m.remove(key)),
            _ => self,
        }
    }

    /// The object without members.
    pub open spec fn empty() -> JsonV {
        JsonV::Obj(Map::empty())
    }

    /// The text, where the value is one.
    pub open spec fn text(self) -> Option<Seq<char>> {
        match self {
            JsonV::Str(s) => Some(s),
            _ => None,
        }
    }

    /// The integer, where the value is one that a signed 64-bit number holds.
    pub open spec fn int64(self) -> Option<int> {
        match self {
            JsonV::Int(n) => if i64::MIN <= n <= i64::MAX {
                Some(n)
            } else {
                None
            },
            _ => None,
        }
    }

    /// The integer, where the value is one that an unsigned 64-bit number holds.
    pub open spec fn uint64(self) -> Option<int> {
        match self {
            JsonV::Int(n) => if 0 <= n <= u64::MAX {
                Some(n)
            } else {
                None
            },
            _ => None,
        }
    }

    /// The truth value, where the value is one.
    pub open spec fn truth(self) -> Option<bool> {
        match self {
            JsonV::Bool(b) => Some(b),
            _ => None,
        }
    }

    /// The elements, where the value is an array.
    pub open spec fn elements(self) -> Option<Seq<JsonV>> {
        match self {
            JsonV::Arr(s) => Some(s),
            _ => None,
        }
    }

    /// The text of a member, where the object has it and it is a text.
    pub open spec fn member_text(self, key: Seq<char>) -> Option<Seq<char>> {
        match self.member(key) {
            Some(j) => j.text(),
            None => None,
        }
    }

    /// The text of a member, or the empty text.
    pub open spec fn member_or_empty(self, key: Seq<char>) -> Seq<char> {
        match self.member_text(key) {
            Some(s) => s,
            None => seq![],
        }
    }

    /// The signed integer of a member, where it holds one.
    pub open spec fn member_int(self, key: Seq<char>) -> Option<int> {
        match self.member(key) {
            Some(j) => j.int64(),
            None => None,
        }
    }

    /// The unsigned integer of a member, where it holds one.
    pub open spec fn member_uint(self, key: Seq<char>) -> Option<int> {
        match self.member(key) {
            Some(j) => j.uint64(),
            None => None,
        }
    }

    /// The truth value of a member, where it holds one.
    pub open spec fn member_truth(self, key: Seq<char>) -> Option<bool> {
        match self.member(key) {
            Some(j) => j.truth(),
            None => None,
        }
    }
}

proof fn lemma_members_push(m: Seq<(String, Json)>, k: String, j: Json)
    ensures
        members(m.push((k, j))) == members(m).insert(k@, model(j)),
{
    let t = m.push((k, j));
    assert(t.drop_last() == m);
    assert(t.last() == (k, j));
}

impl Json {
    /// The object without members.
    pub fn object() -> (r: Json)
        ensures
            r@ == JsonV::empty(),
    {
        let m: Vec<(String, Json)> = Vec::new();
        assert(members(m@) == Map::<Seq<char>, JsonV>::empty());
        Json::Obj(m)
    }

    /// A text.
    pub fn text(s: &str) -> (r: Json)
        ensures
            r@ == JsonV::Str(s@),
    {
        Json::Str(s.to_owned())
    }

    /// A text, or null where there is none.
    pub fn opt_text(s: &Option<String>) -> (r: Json)
        ensures
            r@ == (match *s {
                Some(t) => JsonV::Str(t@),
                None => JsonV::Null,
            }),
    {
        match s {
            Some(t) => Json::Str(t.clone()),
            None => Json::Null,
        }
    }

    /// An array of values.
    pub fn array(v: Vec<Json>) -> (r: Json)
        ensures
            r@ == JsonV::Arr(models(v@)),
    {
        let r = Json::Arr(v);
        assert(r@->Arr_0 =~= models(v@));
        r
    }

    /// Sets one member.
    pub fn with(self, key: &str, value: Json) -> (r: Json)
        ensures
            r@ == self@.with(key@, value@),
    {
        match self {
            Json::Obj(mut m) => {
                let k = key.to_owned();
                proof {
                    lemma_members_push(m@, k, value);
                }
                m.push((k, value));
                Json::Obj(m)
            },
            _ => {
                let mut m: Vec<(String, Json)> = Vec::new();
                let k = key.to_owned();
                proof {
                    lemma_members_push(m@, k, value);
                    assert(members(m@) == Map::<Seq<char>, JsonV>::empty());
                }
                m.push((k, value));
                Json::Obj(m)
            },
        }
    }

    /// Takes one member away.
    pub fn without(self, key: &str) -> (r: Json)
        ensures
            r@ == self@.without(key@),
    {
        match self {
            Json::Obj(m) => {
                let mut out: Vec<(String, Json)> = Vec::new();
                let mut i: usize = 0;
                assert(members(m@.take(0)) =~= Map::<Seq<char>, JsonV>::empty());
                assert(members(out@) =~= members(m@.take(0)).remove(key@));
                while i < m.len()
                    invariant
                        i <= m@.len(),
                        members(out@) == members(m@.take(i as int)).remove(key@),
                    decreases m@.len() - i,
                {
                    assert(m@.take(i + 1).drop_last() == m@.take(i as int));
                    if !same(m[i].0.as_str(), key) {
                        let k = m[i].0.clone();
                        let j = m[i].1.copy();
                        proof {
                            lemma_members_push(out@, k, j);
                        }
                        out.push((k, j));
                    }
                    assert(members(out@) =~= members(m@.take(i + 1)).remove(key@));
                    i = i + 1;
                }
                assert(m@.take(i as int) == m@);
                Json::Obj(out)
            },
            other => other,
        }
    }

    /// The member under a name.
    pub fn get(&self, key: &str) -> (r: Option<&Json>)
        ensures
            opt_ref(r) == self@.member(key@),
    {
        match self {
            Json::Obj(m) => {
                let mut n: usize = m.len();
                assert(m@.take(n as int) == m@);
                while n > 0
                    invariant
                        n <= m@.len(),
                        self@ == JsonV::Obj(members(m@)),
                        members(m@).contains_key(key@) == members(m@.take(n as int)).contains_key(
                            key@,
                        ),
                        members(m@).contains_key(key@) ==> members(m@)[key@] == members(
                            m@.take(n as int),
                        )[key@],
                    decreases n,
                {
                    assert(m@.take(n as int).drop_last() == m@.take(n - 1));
                    assert(m@.take(n as int).last() == m@[n - 1]);
                    if same(m[n - 1].0.as_str(), key) {
                        return Some(&m[n - 1].1);
                    }
                    n = n - 1;
                }
                assert(members(m@.take(0)) == Map::<Seq<char>, JsonV>::empty());
                None
            },
            _ => None,
        }
    }

    /// The text, where the value is one.
    pub fn as_str(&self) -> (r: Option<&str>)
        ensures
            crate::text::opt_str(r) == self@.text(),
    {
        match self {
            Json::Str(s) => Some(s.as_str()),
            _ => None,
        }
    }

    /// The signed 64-bit integer, where the value is one.
    pub fn as_i64(&self) -> (r: Option<i64>)
        ensures
            match r {
                Some(n) => self@.int64() == Some(n as int),
                None => self@.int64() is None,
            },
    {
        match self {
            Json::Int(n) => Some(*n),
            Json::UInt(n) => if *n <= i64::MAX as u64 {
                Some(*n as i64)
            } else {
                None
            },
            _ => None,
        }
    }

    /// The unsigned 64-bit integer, where the value is one.
    pub fn as_u64(&self) -> (r: Option<u64>)
        ensures
            match r {
                Some(n) => self@.uint64() == Some(n as int),
                None => self@.uint64() is None,
            },
    {
        match self {
            Json::Int(n) => if *n >= 0 {
                Some(*n as u64)
            } else {
                None
            },
            Json::UInt(n) => Some(*n),
            _ => None,
        }
    }

    /// The truth value, where the value is one.
    pub fn as_bool(&self) -> (r: Option<bool>)
        ensures
            r == self@.truth(),
    {
        match self {
            Json::Bool(b) => Some(*b),
            _ => None,
        }
    }

    /// The elements, where the value is an array.
    pub fn as_array(&self) -> (r: Option<&Vec<Json>>)
        ensures
            match r {
                Some(v) => self@ == JsonV::Arr(models(v@)),
                None => self@.elements() is None,
            },
    {
        match self {
            Json::Arr(v) => {
                assert(self@->Arr_0 =~= models(v@));
                Some(v)
            },
            _ => None,
        }
    }

    /// Whether the value is an object.
    pub fn is_object(&self) -> (r: bool)
        ensures
            r == (self@ is Obj),
    {
        matches!(self, Json::Obj(_))
    }

    /// Whether the value is null.
    pub fn is_null(&self) -> (r: bool)
        ensures
            r == (self@ is Null),
    {
        matches!(self, Json::Null)
    }

    /// The text of a member.
    pub fn get_str(&self, key: &str) -> (r: Option<&str>)
        ensures
            crate::text::opt_str(r) == self@.member_text(key@),
    {
        match self.get(key) {
            Some(j) => j.as_str(),
            None => None,
        }
    }

    /// The text of a member, or the empty text.
    pub fn get_str_or_empty(&self, key: &str) -> (r: String)
        ensures
            r@ == self@.member_or_empty(key@),
    {
        match self.get_str(key) {
            Some(s) => s.to_owned(),
            None => String::new(),
        }
    }

    /// The signed integer of a member.
    pub fn get_i64(&self, key: &str) -> (r: Option<i64>)
        ensures
            match r {
                Some(n) => self@.member_int(key@) == Some(n as int),
                None => self@.member_int(key@) is None,
            },
    {
        match self.get(key) {
            Some(j) => j.as_i64(),
            None => None,
        }
    }

    /// The unsigned integer of a member.
    pub fn get_u64(&self, key: &str) -> (r: Option<u64>)
        ensures
            match r {
                Some(n) => self@.member_uint(key@) == Some(n as int),
                None => self@.member_uint(key@) is None,
            },
    {
        match self.get(key) {
            Some(j) => j.as_u64(),
            None => None,
        }
    }

    /// The truth value of a member.
    pub fn get_bool(&self, key: &str) -> (r: Option<bool>)
        ensures
            r == self@.member_truth(key@),
    {
        match self.get(key) {
            Some(j) => j.as_bool(),
            None => None,
        }
    }

    /// A copy of the value.
    pub fn copy(&self) -> (r: Json)
        ensures
            r@ == self@,
        decreases self,
    {
        match self {
            Json::Null => Json::Null,
            Json::Bool(b) => Json::Bool(*b),
            Json::Int(n) => Json::Int(*n),
            Json::UInt(n) => Json::UInt(*n),
            Json::Real(t) => Json::Real(t.clone()),
            Json::Str(s) => Json::Str(s.clone()),
            Json::Arr(v) => {
                let mut out: Vec<Json> = Vec::new();
                let mut i: usize = 0;
                while i < v.len()
                    invariant
                        i <= v@.len(),
                        *self == Json::Arr(*v),
                        out@.len() == i,
                        forall|k: int| 0 <= k < i ==> (#[trigger] out@[k])@ == v@[k]@,
                    decreases v@.len() - i,
                {
                    proof {
                        assert(decreases_to!(*self => self->Arr_0));
                        assert(decreases_to!(*v => v@));
                        assert(decreases_to!(v@ => v@[i as int]));
                    }
                    out.push(v[i].copy());
                    i = i + 1;
                }
                let r = Json::Arr(out);
                assert(r@->Arr_0 =~= self@->Arr_0);
                r
            },
            Json::Obj(m) => {
                let mut out: Vec<(String, Json)> = Vec::new();
                let mut i: usize = 0;
                while i < m.len()
                    invariant
                        i <= m@.len(),
                        *self == Json::Obj(*m),
                        members(out@) == members(m@.take(i as int)),
                    decreases m@.len() - i,
                {
                    proof {
                        assert(decreases_to!(*self => self->Obj_0));
                        assert(decreases_to!(*m => m@));
                        assert(decreases_to!(m@ => m@[i as int]));
                        assert(decreases_to!(m@[i as int] => m@[i as int].1));
                    }
                    let k = m[i].0.clone();
                    let j = m[i].1.copy();
                    proof {
                        lemma_members_push(out@, k, j);
                        assert(m@.take(i + 1).drop_last() == m@.take(i as int));
                    }
                    out.push((k, j));
                    i = i + 1;
                }
                assert(m@.take(i as int) == m@);
                Json::Obj(out)
            },
        }
    }
}

/// An array of texts.
pub open spec fn text_list(s: Seq<Seq<char>>) -> JsonV {
    JsonV::Arr(Seq::new(s.len(), |i: int| JsonV::Str(s[i])))
}

/// An array of texts.
pub fn text_array(v: &Vec<String>) -> (r: Json)
    ensures
        r@ == text_list(text::texts(v@)),
{
    let mut out: Vec<Json> = Vec::new();
    let mut i: usize = 0;
    while i < v.len()
        invariant
            i <= v@.len(),
            out@.len() == i,
            forall|k: int| 0 <= k < i ==> (#[trigger] out@[k])@ == JsonV::Str(v@[k]@),
        decreases v@.len() - i,
    {
        out.push(Json::Str(v[i].clone()));
        i = i + 1;
    }
    let r = Json::array(out);
    assert(r@->Arr_0 =~= text_list(text::texts(v@))->Arr_0);
    r
}

/// Members in the order of their names, each name once.
pub open spec fn ordered(m: Seq<(String, Json)>) -> bool {
    forall|i: int, j: int|
        0 <= i < j < m.len() ==> text::before((#[trigger] m[i]).0@, (#[trigger] m[j]).0@)
}

/// What the map of members with distinct names holds.
pub proof fn lemma_members_distinct(m: Seq<(String, Json)>)
    requires
        forall|i: int, j: int|
            0 <= i < j < m.len() ==> (#[trigger] m[i]).0@ != (#[trigger] m[j]).0@,
    ensures
        forall|i: int|
            0 <= i < m.len() ==> members(m).contains_key((#[trigger] m[i]).0@) && members(
                m,
            )[m[i].0@] == m[i].1@,
        forall|k: Seq<char>| #[trigger]
            members(m).contains_key(k) ==> exists|i: int|
                0 <= i < m.len() && (#[trigger] m[i]).0@ == k,
    decreases m.len(),
{
    if m.len() > 0 {
        let t = m.drop_last();
        assert forall|i: int, j: int| 0 <= i < j < t.len() implies (#[trigger] t[i]).0@ != (
        #[trigger] t[j]).0@ by {
            assert(t[i] == m[i] && t[j] == m[j]);
        }
        lemma_members_distinct(t);
        assert forall|i: int| 0 <= i < m.len() implies members(m).contains_key(
            (#[trigger] m[i]).0@,
        ) && members(m)[m[i].0@] == m[i].1@ by {
            if i < m.len() - 1 {
                assert(t[i] == m[i]);
                assert(m[i].0@ != m[m.len() - 1].0@);
            }
        }
        assert forall|k: Seq<char>| #[trigger] members(m).contains_key(k) implies exists|i: int|
            0 <= i < m.len() && (#[trigger] m[i]).0@ == k by {
            if k == m.last().0@ {
                assert(m[m.len() - 1].0@ == k);
            } else {
                assert(members(t).contains_key(k));
                let i = choose|i: int| 0 <= i < t.len() && (#[trigger] t[i]).0@ == k;
                assert(t[i] == m[i]);
            }
        }
    }
}

/// Names in order are distinct.
pub proof fn lemma_ordered_distinct(m: Seq<(String, Json)>)
    requires
        ordered(m),
    ensures
        forall|i: int, j: int|
            0 <= i < j < m.len() ==> (#[trigger] m[i]).0@ != (#[trigger] m[j]).0@,
{
    assert forall|i: int, j: int| 0 <= i < j < m.len() implies (#[trigger] m[i]).0@ != (
    #[trigger] m[j]).0@ by {
        text::lemma_before_total(m[i].0@, m[j].0@);
    }
}

/// Puts one member in its place among ordered members, in the stead of one of the same name.
pub fn insert_member(m: &mut Vec<(String, Json)>, k: String, j: Json)
    requires
        ordered(old(m)@),
    ensures
        ordered(final(m)@),
        members(final(m)@) == members(old(m)@).insert(k@, j@),
{
    let ghost s = m@;
    proof {
        lemma_ordered_distinct(s);
        lemma_members_distinct(s);
    }
    let mut p: usize = 0;
    while p < m.len() && less(m[p].0.as_str(), k.as_str())
        invariant
            p <= m@.len(),
            m@ == s,
            forall|i: int| 0 <= i < p ==> text::before((#[trigger] s[i]).0@, k@),
        decreases m@.len() - p,
    {
        p = p + 1;
    }
    let ghost kk = k@;
    let ghost jj = j@;
    if p < m.len() && same(m[p].0.as_str(), k.as_str()) {
        m.set(p, (k, j));
        let ghost t = m@;
        proof {
            assert forall|a: int, b: int| 0 <= a < b < t.len() implies text::before(
                (#[trigger] t[a]).0@,
                (#[trigger] t[b]).0@,
            ) by {
                assert(text::before(s[a].0@, s[b].0@));
            }
            lemma_ordered_distinct(t);
            lemma_members_distinct(t);
            assert forall|x: Seq<char>| members(t).contains_key(x) <==> members(s).insert(
                kk,
                jj,
            ).contains_key(x) by {
                if members(t).contains_key(x) {
                    let i = choose|i: int| 0 <= i < t.len() && (#[trigger] t[i]).0@ == x;
                    assert(s[i].0@ == x);
                }
                if members(s).insert(kk, jj).contains_key(x) {
                    if x == kk {
                        assert(t[p as int].0@ == x);
                    } else {
                        let i = choose|i: int| 0 <= i < s.len() && (#[trigger] s[i]).0@ == x;
                        assert(t[i].0@ == x);
                    }
                }
            }
            assert forall|x: Seq<char>| members(t).contains_key(x) implies members(t)[x]
                == members(s).insert(kk, jj)[x] by {
                let i = choose|i: int| 0 <= i < t.len() && (#[trigger] t[i]).0@ == x;
                assert(s[i].0@ == x);
            }
            assert(members(t) =~= members(s).insert(kk, jj));
        }
    } else {
        proof {
            assert forall|i: int| p <= i < s.len() implies text::before(
                kk,
                (#[trigger] s[i]).0@,
            ) by {
                text::lemma_before_total(s[p as int].0@, kk);
                if i > p {
                    assert(text::before(s[p as int].0@, s[i].0@));
                    text::lemma_before_trans(kk, s[p as int].0@, s[i].0@);
                }
            }
        }
        m.insert(p, (k, j));
        let ghost t = m@;
        proof {
            assert(t == s.insert(p as int, t[p as int]));
            assert forall|a: int, b: int| 0 <= a < b < t.len() implies text::before(
                (#[trigger] t[a]).0@,
                (#[trigger] t[b]).0@,
            ) by {
                let a0 = if a < p { a } else { a - 1 };
                let b0 = if b < p { b } else { b - 1 };
                if a != p && b != p {
                    assert(t[a] == s[a0] && t[b] == s[b0]);
                    assert(text::before(s[a0].0@, s[b0].0@));
                } else if a == p {
                    assert(t[b] == s[b0]);
                } else {
                    assert(t[a] == s[a0]);
                }
            }
            lemma_ordered_distinct(t);
            lemma_members_distinct(t);
            assert forall|x: Seq<char>| members(t).contains_key(x) <==> members(s).insert(
                kk,
                jj,
            ).contains_key(x) by {
                if members(t).contains_key(x) {
                    let i = choose|i: int| 0 <= i < t.len() && (#[trigger] t[i]).0@ == x;
                    if i != p {
                        let i0 = if i < p { i } else { i - 1 };
                        assert(s[i0] == t[i]);
                    }
                }
                if members(s).insert(kk, jj).contains_key(x) {
                    if x == kk {
                        assert(t[p as int].0@ == x);
                    } else {
                        let i = choose|i: int| 0 <= i < s.len() && (#[trigger] s[i]).0@ == x;
                        let i1 = if i < p { i } else { i + 1 };
                        assert(t[i1] == s[i]);
                    }
                }
            }
            assert forall|x: Seq<char>| members(t).contains_key(x) implies members(t)[x]
                == members(s).insert(kk, jj)[x] by {
                let i = choose|i: int| 0 <= i < t.len() && (#[trigger] t[i]).0@ == x;
                if i != p {
                    let i0 = if i < p { i } else { i - 1 };
                    assert(s[i0] == t[i]);
                    text::lemma_before_total(s[i0].0@, kk);
                }
            }
            assert(members(t) =~= members(s).insert(kk, jj));
        }
    }
}

/// The members of an object in the order of their names; none of any other value.
pub fn sorted_members(j: &Json) -> (r: Vec<(String, Json)>)
    ensures
        ordered(r@),
        members(r@) == (match j@ {
            JsonV::Obj(m) => m,
            _ => Map::empty(),
        }),
{
    let mut out: Vec<(String, Json)> = Vec::new();
    match j {
        Json::Obj(m) => {
            let mut i: usize = 0;
            assert(members(m@.take(0)) == Map::<Seq<char>, JsonV>::empty());
            while i < m.len()
                invariant
                    i <= m@.len(),
                    ordered(out@),
                    members(out@) == members(m@.take(i as int)),
                decreases m@.len() - i,
            {
                assert(m@.take(i + 1).drop_last() == m@.take(i as int));
                insert_member(&mut out, m[i].0.clone(), m[i].1.copy());
                i = i + 1;
            }
            assert(m@.take(i as int) == m@);
        },
        _ => {},
    }
    out
}

/// As many names as members, where the names are distinct.
pub proof fn lemma_members_len(m: Seq<(String, Json)>)
    requires
        forall|i: int, j: int|
            0 <= i < j < m.len() ==> (#[trigger] m[i]).0@ != (#[trigger] m[j]).0@,
    ensures
        members(m).dom().finite(),
        members(m).dom().len() == m.len(),
    decreases m.len(),
{
    if m.len() > 0 {
        let t = m.drop_last();
        assert forall|i: int, j: int| 0 <= i < j < t.len() implies (#[trigger] t[i]).0@ != (
        #[trigger] t[j]).0@ by {
            assert(t[i] == m[i] && t[j] == m[j]);
        }
        lemma_members_len(t);
        lemma_members_distinct(t);
        let k = m.last().0@;
        if members(t).contains_key(k) {
            let i = choose|i: int| 0 <= i < t.len() && (#[trigger] t[i]).0@ == k;
            assert(m[i].0@ == m[m.len() - 1].0@);
        }
        assert(members(m).dom() =~= members(t).dom().insert(k));
    } else {
        assert(members(m).dom() =~= Set::<Seq<char>>::empty());
    }
}

/// The texts of the two floating-point zeros, which are equal as numbers.
pub open spec fn zero_text(t: Seq<char>) -> bool {
    t == "0.0"@ || t == "-0.0"@
}

/// Two values are equal as `serde_json` compares them: member by member, element by element,
/// and number by number.
pub open spec fn same_value(a: JsonV, b: JsonV) -> bool
    decreases a,
{
    match (a, b) {
        (JsonV::Arr(s), JsonV::Arr(t)) => s.len() == t.len() && forall|i: int|
            0 <= i < s.len() ==> same_value(#[trigger] s[i], t[i]),
        (JsonV::Obj(m), JsonV::Obj(n)) => m.dom() == n.dom() && forall|k: Seq<char>| #[trigger]
            m.contains_key(k) ==> same_value(m[k], n[k]),
        (JsonV::Real(x), JsonV::Real(y)) => x == y || (zero_text(x) && zero_text(y)),
        _ => a == b,
    }
}

fn is_zero_text(t: &str) -> (r: bool)
    ensures
        r == zero_text(t@),
{
    same(t, "0.0") || same(t, "-0.0")
}

fn same_arrays(a: &Vec<Json>, b: &Vec<Json>) -> (r: bool)
    ensures
        r == same_value(JsonV::Arr(models(a@)), JsonV::Arr(models(b@))),
    decreases JsonV::Arr(models(a@)), 0nat,
{
    let ghost sa = models(a@);
    let ghost sb = models(b@);
    if a.len() != b.len() {
        return false;
    }
    let mut i: usize = 0;
    while i < a.len()
        invariant
            i <= a@.len(),
            a@.len() == b@.len(),
            sa == models(a@),
            sb == models(b@),
            forall|k: int| 0 <= k < i ==> same_value(#[trigger] sa[k], sb[k]),
        decreases a@.len() - i,
    {
        proof {
            let j = JsonV::Arr(sa);
            assert(decreases_to!(j => j->Arr_0));
            assert(decreases_to!(sa => sa[i as int]));
        }
        if !json_eq(&a[i], &b[i]) {
            assert(!same_value(sa[i as int], sb[i as int]));
            return false;
        }
        i = i + 1;
    }
    true
}

fn same_objects(a: &Vec<(String, Json)>, b: &Vec<(String, Json)>) -> (r: bool)
    requires
        ordered(a@),
        ordered(b@),
    ensures
        r == same_value(JsonV::Obj(members(a@)), JsonV::Obj(members(b@))),
    decreases JsonV::Obj(members(a@)), 0nat,
{
    let ghost ma = members(a@);
    let ghost mb = members(b@);
    proof {
        lemma_ordered_distinct(a@);
        lemma_ordered_distinct(b@);
        lemma_members_distinct(a@);
        lemma_members_distinct(b@);
        lemma_members_len(a@);
        lemma_members_len(b@);
    }
    if a.len() != b.len() {
        return false;
    }
    let mut i: usize = 0;
    while i < a.len()
        invariant
            i <= a@.len(),
            a@.len() == b@.len(),
            ma == members(a@),
            mb == members(b@),
            ma.dom().finite(),
            ordered(a@),
            ordered(b@),
            forall|k: int|
                0 <= k < a@.len() ==> ma.contains_key((#[trigger] a@[k]).0@) && ma[a@[k].0@]
                    == a@[k].1@,
            forall|k: int|
                0 <= k < b@.len() ==> mb.contains_key((#[trigger] b@[k]).0@) && mb[b@[k].0@]
                    == b@[k].1@,
            forall|k: Seq<char>| #[trigger]
                ma.contains_key(k) ==> exists|i: int| 0 <= i < a@.len() && (#[trigger] a@[i]).0@ == k,
            forall|k: Seq<char>| #[trigger]
                mb.contains_key(k) ==> exists|i: int| 0 <= i < b@.len() && (#[trigger] b@[i]).0@ == k,
            forall|k: int|
                0 <= k < i ==> (#[trigger] a@[k]).0@ == b@[k].0@ && same_value(
                    a@[k].1@,
                    b@[k].1@,
                ),
        decreases a@.len() - i,
    {
        if !same(a[i].0.as_str(), b[i].0.as_str()) {
            proof {
                let x = a@[i as int].0@;
                let y = b@[i as int].0@;
                if ma.dom() == mb.dom() {
                    assert(mb.dom().contains(x));
                    assert(ma.dom().contains(y));
                    let p = choose|p: int| 0 <= p < b@.len() && (#[trigger] b@[p]).0@ == x;
                    let q = choose|q: int| 0 <= q < a@.len() && (#[trigger] a@[q]).0@ == y;
                    text::lemma_before_total(x, y);
                    lemma_ordered_distinct(a@);
                    lemma_ordered_distinct(b@);
                    if p < i {
                        assert(a@[p].0@ == x);
                    } else {
                        assert(text::before(y, x));
                        if q < i {
                            assert(b@[q].0@ == y);
                        } else {
                            assert(text::before(x, y));
                        }
                    }
                }
            }
            return false;
        }
        proof {
            let j = JsonV::Obj(ma);
            assert(decreases_to!(j => j->Obj_0));
            assert(ma.contains_key(a@[i as int].0@));
            assert(decreases_to!(ma => ma[a@[i as int].0@]));
        }
        if !json_eq(&a[i].1, &b[i].1) {
            assert(ma.contains_key(a@[i as int].0@));
            return false;
        }
        i = i + 1;
    }
    proof {
        assert forall|k: Seq<char>| ma.dom().contains(k) <==> mb.dom().contains(k) by {
            if ma.contains_key(k) {
                let p = choose|p: int| 0 <= p < a@.len() && (#[trigger] a@[p]).0@ == k;
                assert(b@[p].0@ == k);
            }
            if mb.contains_key(k) {
                let p = choose|p: int| 0 <= p < b@.len() && (#[trigger] b@[p]).0@ == k;
                assert(a@[p].0@ == k);
            }
        }
        assert(ma.dom() =~= mb.dom());
        assert forall|k: Seq<char>| #[trigger] ma.contains_key(k) implies same_value(
            ma[k],
            mb[k],
        ) by {
            let p = choose|p: int| 0 <= p < a@.len() && (#[trigger] a@[p]).0@ == k;
            assert(b@[p].0@ == k);
        }
    }
    true
}

/// Whether two values are equal.
pub fn json_eq(a: &Json, b: &Json) -> (r: bool)
    ensures
        r == same_value(a@, b@),
    decreases a@, 1nat,
{
    match (a, b) {
        (Json::Null, Json::Null) => true,
        (Json::Bool(x), Json::Bool(y)) => *x == *y,
        (Json::Int(x), Json::Int(y)) => *x == *y,
        (Json::UInt(x), Json::UInt(y)) => *x == *y,
        (Json::Int(x), Json::UInt(y)) => *x as i128 == *y as i128,
        (Json::UInt(x), Json::Int(y)) => *x as i128 == *y as i128,
        (Json::Real(x), Json::Real(y)) => same(x.as_str(), y.as_str()) || (is_zero_text(x.as_str())
            && is_zero_text(y.as_str())),
        (Json::Str(x), Json::Str(y)) => same(x.as_str(), y.as_str()),
        (Json::Arr(x), Json::Arr(y)) => {
            assert(a@->Arr_0 =~= models(x@));
            assert(b@->Arr_0 =~= models(y@));
            same_arrays(x, y)
        },
        (Json::Obj(_), Json::Obj(_)) => {
            let x = sorted_members(a);
            let y = sorted_members(b);
            same_objects(&x, &y)
        },
        _ => false,
    }
}

/// `serde_json::Value`, carried as it is.
#[verifier::external_type_specification]
#[verifier::external_body]
pub struct ExValue(serde_json::Value);

/// What a `serde_json::Value` holds.
pub uninterp spec fn held(v: serde_json::Value) -> JsonV;

/// The value that a text holds as `serde_json::from_str` reads it, or what it says of a text
/// that it refuses.
pub uninterp spec fn reading(text: Seq<char>) -> Result<JsonV, Seq<char>>;

/// The value that a text holds; nothing where it is no JSON.
pub open spec fn parsed(text: Seq<char>) -> Option<JsonV> {
    match reading(text) {
        Ok(j) => Some(j),
        Err(_) => None,
    }
}

/// What the `serde_json::Value` made from a plain value holds: the value itself, but for the
/// numbers that are no integers, which `serde_json` reads from their texts.
pub uninterp spec fn settled(j: JsonV) -> JsonV;

/// The compact text that `serde_json` writes for a value.
pub uninterp spec fn rendered(j: JsonV) -> Seq<char>;

/// A value of texts, integers, truth values and null, at most `depth` levels of nesting deep.
pub open spec fn plain(j: JsonV, depth: nat) -> bool
    decreases depth,
{
    match j {
        JsonV::Real(_) => false,
        JsonV::Arr(s) => depth > 0 && forall|i: int|
            0 <= i < s.len() ==> plain(#[trigger] s[i], (depth - 1) as nat),
        JsonV::Obj(m) => depth > 0 && forall|k: Seq<char>| #[trigger]
            m.contains_key(k) ==> plain(m[k], (depth - 1) as nat),
        _ => true,
    }
}

/// The plain form of a `serde_json::Value`, variant by variant: `Value::as_u64` and
/// `Value::as_i64` tell the integers from the other numbers, which are kept as their texts.
#[verifier::external_body]
fn json_of_value(v: serde_json::Value) -> (r: Json)
    ensures
        r@ == held(v),
{
    match v {
        serde_json::Value::Null => Json::Null,
        serde_json::Value::Bool(b) => Json::Bool(b),
        serde_json::Value::String(s) => Json::Str(s),
        serde_json::Value::Array(a) => Json::Arr(a.into_iter().map(json_of_value).collect()),
        serde_json::Value::Object(m) => Json::Obj(
            m.into_iter().map(|(k, x)| (k, json_of_value(x))).collect(),
        ),
        serde_json::Value::Number(n) => match (n.as_u64(), n.as_i64()) {
            (Some(u), _) => Json::UInt(u),
            (None, Some(i)) => Json::Int(i),
            (None, None) => Json::Real(n.to_string()),
        },
    }
}

/// The `serde_json::Value` of a plain value, variant by variant; `serde_json::from_str` reads a
/// number that is no integer from its text. Without such numbers the value is kept as it is.
#[verifier::external_body]
fn value_of_json(j: &Json) -> (r: serde_json::Value)
    ensures
        held(r) == settled(j@),
        plain(j@, 64) ==> held(r) == j@,
{
    match j {
        Json::Null => serde_json::Value::Null,
        Json::Bool(b) => serde_json::Value::from(*b),
        Json::Int(n) => serde_json::Value::from(*n),
        Json::UInt(n) => serde_json::Value::from(*n),
        Json::Real(t) => serde_json::from_str(t).unwrap_or(serde_json::Value::Null),
        Json::Str(s) => serde_json::Value::from(s.as_str()),
        Json::Arr(a) => serde_json::Value::Array(a.iter().map(value_of_json).collect()),
        Json::Obj(m) => serde_json::Value::Object(
            m.iter().map(|e| (e.0.clone(), value_of_json(&e.1))).collect(),
        ),
    }
}

/// `serde_json::from_str`: the value that a text holds, or what is wrong with the text.
#[verifier::external_body]
fn value_of_text(text: &str) -> (r: Result<serde_json::Value, String>)
    ensures
        match r {
            Ok(v) => reading(text@) == Ok::<JsonV, Seq<char>>(held(v)),
            Err(e) => reading(text@) == Err::<JsonV, Seq<char>>(e@),
        },
{
    serde_json::from_str(text).map_err(|e| e.to_string())
}

/// The object that a text holds as `serde_json::from_str` reads it into a map whose names are
/// parts of the text; nothing where it refuses the text, as it does where a name is written with
/// an escape.
pub uninterp spec fn object_reading(text: Seq<char>) -> Option<JsonV>;

/// `serde_json::from_str` into a map from borrowed names to values. Where it takes the text, it
/// reads the object that the text holds.
#[verifier::external_body]
fn object_of_text(text: &str) -> (r: Option<serde_json::Value>)
    ensures
        match r {
            Some(v) => object_reading(text@) == Some(held(v)) && held(v) is Obj && parsed(text@)
                == Some(held(v)),
            None => object_reading(text@) is None,
        },
{
    let m = serde_json::from_str::<std::collections::HashMap<&str, serde_json::Value>>(text).ok()?;
    Some(serde_json::Value::Object(m.into_iter().map(|(k, v)| (k.to_owned(), v)).collect()))
}

/// `serde_json::Value::to_string`: the compact text of a value. That of a value of texts,
/// integers, truth values and null, nested no deeper than the reader's limit, reads back as
/// that value.
#[verifier::external_body]
fn text_of_value(v: &serde_json::Value) -> (r: String)
    ensures
        r@ == rendered(held(*v)),
        plain(held(*v), 64) ==> parsed(r@) == Some(held(*v)),
{
    v.to_string()
}

/// The compact text of a value.
pub open spec fn compact(j: JsonV) -> Seq<char> {
    rendered(settled(j))
}

/// Reads a JSON text.
pub fn from_text(text: &str) -> (r: Option<Json>)
    ensures
        opt_model(r) == parsed(text@),
{
    match read_text(text) {
        Ok(j) => Some(j),
        Err(_) => None,
    }
}

/// Reads a JSON text, or says what is wrong with it.
pub fn read_text(text: &str) -> (r: Result<Json, String>)
    ensures
        match r {
            Ok(j) => reading(text@) == Ok::<JsonV, Seq<char>>(j@),
            Err(e) => reading(text@) == Err::<JsonV, Seq<char>>(e@),
        },
{
    match value_of_text(text) {
        Ok(v) => Ok(json_of_value(v)),
        Err(e) => Err(e),
    }
}

/// Reads the text of an object whose names are written without escapes.
pub fn object_from_text(text: &str) -> (r: Option<Json>)
    ensures
        opt_model(r) == object_reading(text@),
        r matches Some(j) ==> j@ is Obj && parsed(text@) == Some(j@),
{
    match object_of_text(text) {
        Some(v) => Some(json_of_value(v)),
        None => None,
    }
}

/// Writes a value as compact JSON text.
pub fn to_text(j: &Json) -> (r: String)
    ensures
        r@ == compact(j@),
        plain(j@, 64) ==> parsed(r@) == Some(j@),
{
    let v = value_of_json(j);
    text_of_value(&v)
}

/// The length in bytes of a value's compact text.
pub open spec fn size(j: JsonV) -> nat {
    text::byte_len(compact(j))
}

/// The length in bytes of a value's compact text.
pub fn text_size(j: &Json) -> (r: usize)
    ensures
        r == size(j@),
{
    bytes_in(to_text(j).as_str())
}

/// A member that is set is there, the others stay; one that is taken away is not there, and the
/// others stay.
pub proof fn members_are_set_and_taken(v: JsonV, key: Seq<char>, value: JsonV, other: Seq<char>)
    requires
        other != key,
    ensures
        v.with(key, value).member(key) == Some(value),
        v.with(key, value).member(other) == v.member(other),
        v.without(key).member(key) is None,
        v.without(key).member(other) == v.member(other),
        JsonV::empty().member(key) is None,
{
}

/// A value is read as what it is and as nothing else; a number only within its bounds.
pub proof fn values_are_read_as_what_they_are(v: JsonV, n: int)
    ensures
        v.text() is Some <==> v is Str,
        v.truth() is Some <==> v is Bool,
        v.elements() is Some <==> v is Arr,
        JsonV::Int(n).int64() == (if -0x8000_0000_0000_0000 <= n <= 0x7fff_ffff_ffff_ffff {
            Some(n)
        } else {
            None
        }),
        JsonV::Int(n).uint64() == (if 0 <= n <= 0xffff_ffff_ffff_ffff {
            Some(n)
        } else {
            None
        }),
        !(v is Int) ==> v.int64() is None && v.uint64() is None,
        v matches JsonV::Str(s) ==> v.text() == Some(s),
        v matches JsonV::Bool(b) ==> v.truth() == Some(b),
        v matches JsonV::Arr(s) ==> v.elements() == Some(s),
{
}

/// Values that are the same as models are the same value, and which of two stands first does not
/// matter.
pub proof fn sameness_is_mutual(a: JsonV, b: JsonV)
    ensures
        same_value(a, a),
        same_value(a, b) ==> same_value(b, a),
    decreases a,
{
    match a {
        JsonV::Arr(s) => {
            assert forall|i: int| 0 <= i < s.len() implies same_value(#[trigger] s[i], s[i]) by {
                sameness_is_mutual(s[i], s[i]);
            }
            if let JsonV::Arr(t) = b {
                if same_value(a, b) {
                    assert forall|i: int| 0 <= i < t.len() implies same_value(
                        #[trigger] t[i],
                        s[i],
                    ) by {
                        assert(same_value(s[i], t[i]));
                        sameness_is_mutual(s[i], t[i]);
                    }
                }
            }
        },
        JsonV::Obj(m) => {
            assert forall|k: Seq<char>| #[trigger] m.contains_key(k) implies same_value(
                m[k],
                m[k],
            ) by {
                assert(decreases_to!(a => m[k]));
                sameness_is_mutual(m[k], m[k]);
            }
            if let JsonV::Obj(n) = b {
                if same_value(a, b) {
                    assert forall|k: Seq<char>| #[trigger] n.contains_key(k) implies same_value(
                        n[k],
                        m[k],
                    ) by {
                        assert(m.dom().contains(k) == n.dom().contains(k));
                        assert(m.contains_key(k));
                        sameness_is_mutual(m[k], n[k]);
                    }
                }
            }
        },
        _ => {},
    }
}

/// Simple values are the same where they are equal; a text and a number never are, and a real
/// number is compared by how it is written, but for zero with either sign.
pub proof fn simple_values_are_compared(s: Seq<char>, t: Seq<char>, n: int, m: int)
    ensures
        same_value(JsonV::Str(s), JsonV::Str(t)) <==> s == t,
        same_value(JsonV::Int(n), JsonV::Int(m)) <==> n == m,
        !same_value(JsonV::Str(s), JsonV::Int(n)),
        !same_value(JsonV::Int(n), JsonV::Real(t)),
        !same_value(JsonV::Null, JsonV::Str(s)),
        same_value(JsonV::Real("0.0"@), JsonV::Real("-0.0"@)),
        s != "0.0"@ && s != "-0.0"@ ==> (same_value(JsonV::Real(s), JsonV::Real(t)) <==> s == t),
{
}

/// Lists are the same where they are as long and their values are, each in its place.
pub proof fn lists_are_compared_in_order(a: Seq<JsonV>, b: Seq<JsonV>, i: int)
    requires
        same_value(JsonV::Arr(a), JsonV::Arr(b)),
    ensures
        a.len() == b.len(),
        0 <= i < a.len() ==> same_value(a[i], b[i]),
{
}

/// A list of texts holds each of them, in its place.
pub proof fn a_list_holds_its_texts(s: Seq<Seq<char>>)
    ensures
        text_list(s) == JsonV::Arr(s.map_values(|t: Seq<char>| JsonV::Str(t))),
{
    assert(Seq::new(s.len(), |i: int| JsonV::Str(s[i])) =~= s.map_values(
        |t: Seq<char>| JsonV::Str(t),
    ));
}

/// The last of the members with a name is the one that counts.
pub proof fn the_last_member_counts(m: Seq<(String, Json)>, k: String, j: Json)
    ensures
        JsonV::Obj(members(m.push((k, j)))).member(k@) == Some(j@),
        forall|o: Seq<char>|
            o != k@ ==> #[trigger] JsonV::Obj(members(m.push((k, j)))).member(o) == JsonV::Obj(
                members(m),
            ).member(o),
{
    assert(m.push((k, j)).drop_last() =~= m);
}

} // verus!
