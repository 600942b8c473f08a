//! Settings that the console forces on a device.
//!
//! A policy arrives signed. Its locked settings are forced over the device's own in three
//! stores, its unlocked ones are set once, and the locked set is mirrored to a file that the
//! device's other processes read.
use vstd::prelude::*;

use crate::crypto;
use crate::json;
use crate::text;
use crate::trust;
use crate::crypto::recover;
use crate::json::{from_text, sorted_members, to_text, Json, JsonV};
use crate::text::{chars_of, find_from, from_utf8, has_name, same, substring};
use crate::trust::apply_update_require_sig;

verus! {

/// The longest policy message, in bytes.
pub const MAX_POLICY: usize = 65536;

/// The setting that decides whether update packages must be signed.
pub const UPDATE_REQUIRE_SIG_KEY: &'static str = "update.require_sig";

/// Values forced over a store's own, by name.
pub struct Overrides {
    entries: Vec<(String, String)>,
}

/// The map that a list of pairs stands for; a later pair wins.
pub open spec fn pair_map(s: Seq<(String, String)>) -> Map<Seq<char>, Seq<char>>
    decreases s.len(),
{
    if s.len() == 0 {
        Map::empty()
    } else {
        pair_map(s.drop_last()).insert(s.last().0@, s.last().1@)
    }
}

impl View for Overrides {
    type V = Map<Seq<char>, Seq<char>>;

    closed spec fn view(&self) -> Map<Seq<char>, Seq<char>> {
        pair_map(self.entries@)
    }
}

impl Overrides {
    /// No value is forced.
    pub fn new() -> (r: Overrides)
        ensures
            r@ == Map::<Seq<char>, Seq<char>>::empty(),
    {
        Overrides { entries: Vec::new() }
    }

    /// The names and values as a list; a later pair wins.
    pub fn list(&self) -> (r: Vec<(String, String)>)
        ensures
            pair_map(r@) == self@,
    {
        let mut out: Vec<(String, String)> = Vec::new();
        let mut i: usize = 0;
        assert(pair_map(self.entries@.take(0)) =~= pair_map(out@));
        while i < self.entries.len()
            invariant
                i <= self.entries@.len(),
                pair_map(out@) == pair_map(self.entries@.take(i as int)),
            decreases self.entries@.len() - i,
        {
            assert(self.entries@.take(i + 1).drop_last() == self.entries@.take(i as int));
            let e = (self.entries[i].0.clone(), self.entries[i].1.clone());
            let ghost o = out@;
            out.push(e);
            assert(out@.drop_last() == o);
            i = i + 1;
        }
        assert(self.entries@.take(i as int) == self.entries@);
        out
    }

    /// Stops forcing a name.
    pub fn remove(&mut self, key: &str)
        ensures
            final(self)@ == old(self)@.remove(key@),
    {
        let mut out: Vec<(String, String)> = Vec::new();
        let mut i: usize = 0;
        assert(pair_map(self.entries@.take(0)) =~= Map::<Seq<char>, Seq<char>>::empty());
        assert(pair_map(out@) =~= pair_map(self.entries@.take(0)).remove(key@));
        while i < self.entries.len()
            invariant
                i <= self.entries@.len(),
                self.entries@ == old(self).entries@,
                pair_map(out@) == pair_map(self.entries@.take(i as int)).remove(key@),
            decreases self.entries@.len() - i,
        {
            let ghost before = pair_map(self.entries@.take(i as int));
            assert(self.entries@.take(i + 1).drop_last() == self.entries@.take(i as int));
            if !same(self.entries[i].0.as_str(), key) {
                let e = (self.entries[i].0.clone(), self.entries[i].1.clone());
                let ghost o = out@;
                out.push(e);
                assert(out@.drop_last() == o);
                assert(pair_map(out@) =~= pair_map(self.entries@.take(i + 1)).remove(key@));
            } else {
                assert(pair_map(out@) =~= pair_map(self.entries@.take(i + 1)).remove(key@));
            }
            i = i + 1;
        }
        assert(self.entries@.take(i as int) == self.entries@);
        self.entries = out;
    }

    /// Forces a value.
    pub fn insert(&mut self, key: &str, value: &str)
        ensures
            final(self)@ == old(self)@.insert(key@, value@),
    {
        self.remove(key);
        let ghost o = self.entries@;
        self.entries.push((key.to_owned(), value.to_owned()));
        assert(self.entries@.drop_last() == o);
        assert(self@ =~= old(self)@.insert(key@, value@));
    }

    /// Whether a name is forced.
    pub fn contains(&self, key: &str) -> (r: bool)
        ensures
            r == self@.contains_key(key@),
    {
        let mut n: usize = self.entries.len();
        assert(self.entries@.take(n as int) == self.entries@);
        while n > 0
            invariant
                n <= self.entries@.len(),
                self@.contains_key(key@) == pair_map(self.entries@.take(n as int)).contains_key(
                    key@,
                ),
            decreases n,
        {
            assert(self.entries@.take(n as int).drop_last() == self.entries@.take(n - 1));
            if same(self.entries[n - 1].0.as_str(), key) {
                return true;
            }
            n = n - 1;
        }
        assert(pair_map(self.entries@.take(0)) =~= Map::<Seq<char>, Seq<char>>::empty());
        false
    }

    /// The value forced for a name.
    pub fn get(&self, key: &str) -> (r: Option<String>)
        ensures
            text::opt_text(r) == (if self@.contains_key(key@) {
                Some(self@[key@])
            } else {
                None
            }),
    {
        let mut n: usize = self.entries.len();
        assert(self.entries@.take(n as int) == self.entries@);
        while n > 0
            invariant
                n <= self.entries@.len(),
                self@.contains_key(key@) == pair_map(self.entries@.take(n as int)).contains_key(
                    key@,
                ),
                self@.contains_key(key@) ==> self@[key@] == pair_map(
                    self.entries@.take(n as int),
                )[key@],
            decreases n,
        {
            assert(self.entries@.take(n as int).drop_last() == self.entries@.take(n - 1));
            if same(self.entries[n - 1].0.as_str(), key) {
                return Some(self.entries[n - 1].1.clone());
            }
            n = n - 1;
        }
        assert(pair_map(self.entries@.take(0)) =~= Map::<Seq<char>, Seq<char>>::empty());
        None
    }
}

/// One setting of a policy.
pub struct Setting {
    pub key: String,
    pub value: String,
    pub locked: bool,
}

/// The model of a setting.
pub struct SettingV {
    pub key: Seq<char>,
    pub value: Seq<char>,
    pub locked: bool,
}

impl View for Setting {
    type V = SettingV;

    open spec fn view(&self) -> SettingV {
        SettingV { key: self.key@, value: self.value@, locked: self.locked }
    }
}

/// The models of a list of settings.
pub open spec fn settings_v(s: Seq<Setting>) -> Seq<SettingV> {
    Seq::new(s.len(), |i: int| s[i]@)
}

/// The setting that a member of a policy stands for.
pub open spec fn setting_of(key: Seq<char>, v: JsonV) -> SettingV {
    SettingV {
        key,
        value: v.member_or_empty("value"@),
        locked: v.member_truth("locked"@) == Some(true),
    }
}

/// The settings of a policy, in the order of their names.
pub open spec fn lists(s: Seq<SettingV>, m: Map<Seq<char>, JsonV>) -> bool {
    &&& forall|i: int, j: int|
        0 <= i < j < s.len() ==> crate::text::before((#[trigger] s[i]).key, (#[trigger] s[j]).key)
    &&& forall|i: int|
        0 <= i < s.len() ==> m.contains_key((#[trigger] s[i]).key) && s[i] == setting_of(
            s[i].key,
            m[s[i].key],
        )
    &&& forall|k: Seq<char>| #[trigger]
        m.contains_key(k) ==> exists|i: int| 0 <= i < s.len() && (#[trigger] s[i]).key == k
}

/// What stands before the first line feed of a text, and what after it.
pub open spec fn cut_line(s: Seq<char>) -> (Seq<char>, Option<Seq<char>>) {
    let i = text::index_of(s, '\n');
    if i >= s.len() {
        (s, None)
    } else {
        (s.take(i), Some(s.skip(i + 1)))
    }
}

/// What stands before the first line feed of a text, and what after it.
pub fn cut_at_line(s: &str) -> (r: (String, Option<String>))
    ensures
        (r.0@, text::opt_text(r.1)) == cut_line(s@),
{
    let v = chars_of(s);
    let i: usize = find_from(&v, 0, '\n');
    assert(v@.skip(0) == v@);
    assert(v@.subrange(0, i as int) == v@.take(i as int));
    let head = substring(&v, 0, i);
    if i >= v.len() {
        assert(v@.take(i as int) == v@);
        (head, None)
    } else {
        let tail = substring(&v, i + 1, v.len());
        assert(tail@ == v@.skip(i + 1));
        (head, Some(tail))
    }
}

/// The document of a policy message for a device: the message names a policy, then the device,
/// then holds a JSON object.
pub open spec fn policy_document(message: Seq<char>, id: Seq<char>) -> Option<Seq<char>> {
    let (tag, after_tag) = cut_line(message);
    match after_tag {
        Some(rest) => {
            let (who, doc) = cut_line(rest);
            if tag == "CONSOLE-POLICY"@ && who == id {
                doc
            } else {
                None
            }
        },
        None => None,
    }
}

/// The members of the policy that a recovered message holds for a device.
pub open spec fn policy_members(message: Option<Seq<u8>>, id: Seq<char>) -> Option<
    Map<Seq<char>, JsonV>,
> {
    match message {
        Some(b) => if vstd::utf8::valid_utf8(b) {
            match policy_document(vstd::utf8::decode_utf8(b), id) {
                Some(doc) => match json::parsed(doc) {
                    Some(JsonV::Obj(m)) => Some(m),
                    _ => None,
                },
                None => None,
            }
        } else {
            None
        },
        None => None,
    }
}

/// The JSON document of a policy message for a device.
pub fn find_policy(message: &str, id: &str) -> (r: Option<String>)
    ensures
        text::opt_text(r) == policy_document(message@, id@),
{
    let (tag, after_tag) = cut_at_line(message);
    match after_tag {
        Some(rest) => {
            let (who, doc) = cut_at_line(rest.as_str());
            if same(tag.as_str(), "CONSOLE-POLICY") && same(who.as_str(), id) {
                doc
            } else {
                None
            }
        },
        None => None,
    }
}

/// The settings that a policy document lists.
pub fn list_settings(doc: &Json) -> (r: Vec<Setting>)
    ensures
        lists(
            settings_v(r@),
            match doc@ {
                JsonV::Obj(m) => m,
                _ => Map::empty(),
            },
        ),
{
    let ms = sorted_members(doc);
    let mut out: Vec<Setting> = Vec::new();
    let mut i: usize = 0;
    while i < ms.len()
        invariant
            i <= ms@.len(),
            out@.len() == i,
            forall|k: int|
                0 <= k < i ==> (#[trigger] out@[k])@ == setting_of(ms@[k].0@, ms@[k].1@),
        decreases ms@.len() - i,
    {
        let value = ms[i].1.get_str_or_empty("value");
        let locked = match ms[i].1.get_bool("locked") {
            Some(b) => b,
            None => false,
        };
        out.push(Setting { key: ms[i].0.clone(), value, locked });
        i = i + 1;
    }
    proof {
        let s = settings_v(out@);
        let m = json::members(ms@);
        crate::json::lemma_ordered_distinct(ms@);
        crate::json::lemma_members_distinct(ms@);
        assert forall|a: int, b: int| 0 <= a < b < s.len() implies crate::text::before(
            (#[trigger] s[a]).key,
            (#[trigger] s[b]).key,
        ) by {
            assert(out@[a]@ == setting_of(ms@[a].0@, ms@[a].1@));
            assert(out@[b]@ == setting_of(ms@[b].0@, ms@[b].1@));
            assert(crate::text::before(ms@[a].0@, ms@[b].0@));
        }
        assert forall|a: int| 0 <= a < s.len() implies m.contains_key((#[trigger] s[a]).key)
            && s[a] == setting_of(s[a].key, m[s[a].key]) by {
            assert(out@[a]@ == setting_of(ms@[a].0@, ms@[a].1@));
        }
        assert forall|k: Seq<char>| #[trigger] m.contains_key(k) implies exists|a: int|
            0 <= a < s.len() && (#[trigger] s[a]).key == k by {
            let a = choose|a: int| 0 <= a < ms@.len() && (#[trigger] ms@[a]).0@ == k;
            assert(out@[a]@ == setting_of(ms@[a].0@, ms@[a].1@));
            assert(s[a].key == k);
        }
    }
    out
}

/// The settings of the policy that a recovered message holds for a device.
pub fn policy_settings(message: Option<Vec<u8>>, id: &str) -> (r: Option<Vec<Setting>>)
    ensures
        ({
            let m = policy_members(
                text::opt_bytes(message),
                id@,
            );
            match r {
                Some(s) => m is Some && lists(settings_v(s@), m->0),
                None => m is None,
            }
        }),
{
    match message {
        Some(b) => match from_utf8(b) {
            Some(text) => match find_policy(text.as_str(), id) {
                Some(doc) => match from_text(doc.as_str()) {
                    Some(j) => if j.is_object() {
                        Some(list_settings(&j))
                    } else {
                        None
                    },
                    None => None,
                },
                None => None,
            },
            None => None,
        },
        None => None,
    }
}

/// The policy members that a signature holds for a device under a key.
pub open spec fn signed_policy(key: Seq<char>, sig: Seq<char>, id: Seq<char>) -> Option<
    Map<Seq<char>, JsonV>,
> {
    if key.len() == 0 {
        None
    } else {
        policy_members(crypto::recovered(key, sig, MAX_POLICY as nat), id)
    }
}

/// The settings of a signed policy for this device.
pub fn verify_policy(key: &str, sig_b64: &str, id: &str) -> (r: Option<Vec<Setting>>)
    ensures
        match r {
            Some(s) => signed_policy(key@, sig_b64@, id@) is Some && lists(
                settings_v(s@),
                signed_policy(key@, sig_b64@, id@)->0,
            ),
            None => signed_policy(key@, sig_b64@, id@) is None,
        },
{
    if key.is_empty() {
        return None;
    }
    policy_settings(recover(key, sig_b64, MAX_POLICY), id)
}

/// A store after the settings of a policy: a locked one is forced, an unlocked one is not.
pub open spec fn settle(m: Map<Seq<char>, Seq<char>>, settings: Seq<SettingV>) -> Map<
    Seq<char>,
    Seq<char>,
>
    decreases settings.len(),
{
    if settings.len() == 0 {
        m
    } else {
        let before = settle(m, settings.drop_last());
        let last = settings.last();
        if last.locked {
            before.insert(last.key, last.value)
        } else {
            before.remove(last.key)
        }
    }
}

/// A store after the names that are no longer locked were released.
pub open spec fn release(
    m: Map<Seq<char>, Seq<char>>,
    prev: Seq<Seq<char>>,
    now: Seq<Seq<char>>,
) -> Map<Seq<char>, Seq<char>>
    decreases prev.len(),
{
    if prev.len() == 0 {
        m
    } else {
        let before = release(m, prev.drop_last(), now);
        if now.contains(prev.last()) {
            before
        } else {
            before.remove(prev.last())
        }
    }
}

/// A store after a policy was applied.
pub open spec fn overwritten(
    m: Map<Seq<char>, Seq<char>>,
    settings: Seq<SettingV>,
    prev: Seq<Seq<char>>,
    now: Seq<Seq<char>>,
) -> Map<Seq<char>, Seq<char>> {
    release(settle(m, settings), prev, now)
}

/// Applies a policy to one store.
pub fn apply_overwrite(
    map: &mut Overrides,
    settings: &Vec<Setting>,
    prev_locked: &Vec<String>,
    now_locked: &Vec<String>,
)
    ensures
        final(map)@ == overwritten(
            old(map)@,
            settings_v(settings@),
            text::texts(prev_locked@),
            text::texts(now_locked@),
        ),
{
    let ghost all = settings_v(settings@);
    let ghost prev = text::texts(prev_locked@);
    let mut i: usize = 0;
    while i < settings.len()
        invariant
            i <= settings@.len(),
            all == settings_v(settings@),
            map@ == settle(old(map)@, all.take(i as int)),
        decreases settings@.len() - i,
    {
        assert(all.take(i + 1).drop_last() == all.take(i as int));
        if settings[i].locked {
            map.insert(settings[i].key.as_str(), settings[i].value.as_str());
        } else {
            map.remove(settings[i].key.as_str());
        }
        i = i + 1;
    }
    assert(all.take(i as int) == all);
    let ghost settled = map@;
    let mut j: usize = 0;
    while j < prev_locked.len()
        invariant
            j <= prev_locked@.len(),
            prev == text::texts(prev_locked@),
            map@ == release(settled, prev.take(j as int), text::texts(now_locked@)),
        decreases prev_locked@.len() - j,
    {
        assert(prev.take(j + 1).drop_last() == prev.take(j as int));
        if !has_name(now_locked, prev_locked[j].as_str()) {
            map.remove(prev_locked[j].as_str());
        }
        j = j + 1;
    }
    assert(prev.take(j as int) == prev);
}

/// The names that a list of settings locks.
pub open spec fn locked_names(s: Seq<SettingV>) -> Seq<Seq<char>>
    decreases s.len(),
{
    if s.len() == 0 {
        seq![]
    } else if s.last().locked {
        locked_names(s.drop_last()).push(s.last().key)
    } else {
        locked_names(s.drop_last())
    }
}

/// The names and values that a list of settings locks (`true`) or only sets (`false`).
pub open spec fn chosen_pairs(s: Seq<SettingV>, locked: bool) -> Seq<(Seq<char>, Seq<char>)>
    decreases s.len(),
{
    if s.len() == 0 {
        seq![]
    } else if s.last().locked == locked {
        chosen_pairs(s.drop_last(), locked).push((s.last().key, s.last().value))
    } else {
        chosen_pairs(s.drop_last(), locked)
    }
}

/// The characters of a list of pairs.
pub open spec fn pairs(v: Seq<(String, String)>) -> Seq<(Seq<char>, Seq<char>)> {
    Seq::new(v.len(), |i: int| (v[i].0@, v[i].1@))
}

fn names_locked(s: &Vec<Setting>) -> (r: Vec<String>)
    ensures
        text::texts(r@) == locked_names(settings_v(s@)),
{
    let ghost all = settings_v(s@);
    let mut out: Vec<String> = Vec::new();
    let mut i: usize = 0;
    while i < s.len()
        invariant
            i <= s@.len(),
            all == settings_v(s@),
            text::texts(out@) == locked_names(all.take(i as int)),
        decreases s@.len() - i,
    {
        assert(all.take(i + 1).drop_last() == all.take(i as int));
        if s[i].locked {
            let ghost o = out@;
            out.push(s[i].key.clone());
            assert(text::texts(out@) == text::texts(o).push(s@[i as int].key@));
        }
        i = i + 1;
    }
    assert(all.take(i as int) == all);
    out
}

fn pairs_chosen(s: &Vec<Setting>, locked: bool) -> (r: Vec<(String, String)>)
    ensures
        pairs(r@) == chosen_pairs(settings_v(s@), locked),
{
    let ghost all = settings_v(s@);
    let mut out: Vec<(String, String)> = Vec::new();
    let mut i: usize = 0;
    while i < s.len()
        invariant
            i <= s@.len(),
            all == settings_v(s@),
            pairs(out@) == chosen_pairs(all.take(i as int), locked),
        decreases s@.len() - i,
    {
        assert(all.take(i + 1).drop_last() == all.take(i as int));
        if s[i].locked == locked {
            let ghost o = out@;
            out.push((s[i].key.clone(), s[i].value.clone()));
            assert(pairs(out@) == pairs(o).push((s@[i as int].key@, s@[i as int].value@)));
        }
        i = i + 1;
    }
    assert(all.take(i as int) == all);
    out
}

/// What is to be done with the mirror file.
pub enum FileAction {
    Keep,
    Remove,
    Write(String),
}

/// The forced settings of a device, and what it knows of the mirror file.
pub struct PolicyState {
    pub settings: Overrides,
    pub display: Overrides,
    pub local: Overrides,
    pub locked: Vec<String>,
    pub persisted: Vec<(String, String)>,
    pub mtime: i64,
    pub version: i64,
}

/// The version after one more reload: the next number, and the smallest behind the largest.
pub open spec fn next_version(v: i64) -> i64 {
    if v == i64::MAX {
        i64::MIN
    } else {
        (v + 1) as i64
    }
}

/// A reload raises the version, but for that at the largest number, which it changes too.
pub proof fn a_reload_moves_the_version(v: i64)
    ensures
        next_version(v) != v,
        v < i64::MAX ==> next_version(v) == v + 1,
{
}

/// How often the forced settings were reloaded.
pub fn policy_version(state: &PolicyState) -> (r: i64)
    ensures
        r == state.version,
{
    state.version
}

/// One locked setting as the mirror file holds it.
pub open spec fn file_entry(p: (Seq<char>, Seq<char>)) -> JsonV {
    JsonV::empty().with("k"@, JsonV::Str(p.0)).with("v"@, JsonV::Str(p.1))
}

/// The mirror file of a locked set.
pub open spec fn file_document(locked: Seq<(Seq<char>, Seq<char>)>) -> JsonV {
    JsonV::Arr(Seq::new(locked.len(), |i: int| file_entry(locked[i])))
}

/// Whether two lists of pairs are the same.
fn same_pairs(a: &Vec<(String, String)>, b: &Vec<(String, String)>) -> (r: bool)
    ensures
        r == (pairs(a@) == pairs(b@)),
{
    if a.len() != b.len() {
        assert(pairs(a@).len() != pairs(b@).len());
        return false;
    }
    let mut i: usize = 0;
    while i < a.len()
        invariant
            i <= a@.len(),
            a@.len() == b@.len(),
            forall|k: int| 0 <= k < i ==> pairs(a@)[k] == pairs(b@)[k],
        decreases a@.len() - i,
    {
        if !same(a[i].0.as_str(), b[i].0.as_str()) || !same(a[i].1.as_str(), b[i].1.as_str()) {
            assert(pairs(a@)[i as int] != pairs(b@)[i as int]);
            return false;
        }
        i = i + 1;
    }
    assert(pairs(a@) == pairs(b@));
    true
}

/// What a new locked set does to the mirror file.
pub open spec fn file_action(
    persisted: Seq<(Seq<char>, Seq<char>)>,
    locked: Seq<(Seq<char>, Seq<char>)>,
    exists_now: bool,
    action: FileAction,
) -> bool {
    if persisted == locked && (locked.len() == 0 || exists_now) {
        action is Keep
    } else if locked.len() == 0 {
        action is Remove
    } else {
        action is Write && action->Write_0@ == json::compact(file_document(locked)) && json::parsed(
            action->Write_0@,
        ) == Some(file_document(locked))
    }
}

/// Mirrors the locked set: the file is left alone where it already holds it, removed where the
/// set is empty, and written otherwise.
pub fn sync_policy_file(
    persisted: &mut Vec<(String, String)>,
    locked: Vec<(String, String)>,
    exists_now: bool,
) -> (r: FileAction)
    ensures
        file_action(pairs(old(persisted)@), pairs(locked@), exists_now, r),
        pairs(final(persisted)@) == pairs(locked@),
{
    if same_pairs(persisted, &locked) && (locked.len() == 0 || exists_now) {
        return FileAction::Keep;
    }
    if locked.len() == 0 {
        *persisted = locked;
        return FileAction::Remove;
    }
    let mut entries: Vec<Json> = Vec::new();
    let mut i: usize = 0;
    while i < locked.len()
        invariant
            i <= locked@.len(),
            entries@.len() == i,
            forall|k: int| 0 <= k < i ==> (#[trigger] entries@[k])@ == file_entry(pairs(locked@)[k]),
        decreases locked@.len() - i,
    {
        entries.push(
            Json::object().with("k", Json::text(locked[i].0.as_str())).with(
                "v",
                Json::text(locked[i].1.as_str()),
            ),
        );
        i = i + 1;
    }
    let doc = Json::array(entries);
    assert(doc@ == file_document(pairs(locked@))) by {
        assert(json::models(entries@) =~= Seq::new(
            pairs(locked@).len(),
            |k: int| file_entry(pairs(locked@)[k]),
        ));
    }
    assert(json::plain(doc@, 64)) by {
        reveal_with_fuel(json::plain, 3);
        let s = doc@->Arr_0;
        assert forall|k: int| 0 <= k < s.len() implies json::plain(#[trigger] s[k], 63) by {
            assert(s[k] == file_entry(pairs(locked@)[k]));
        }
    }
    let body = to_text(&doc);
    *persisted = locked;
    FileAction::Write(body)
}

/// What applying a policy asks of the device.
pub enum PolicyOutcome {
    /// No policy: every lock was released.
    Released { file: FileAction },
    /// The signature does not hold: nothing changes.
    Rejected,
    /// The policy was applied: the latch for signed updates, the values to set once, and what
    /// to do with the mirror file.
    Applied { latch: String, unlocked: Vec<(String, String)>, file: FileAction },
}

/// A store without the names that are locked.
pub open spec fn without(m: Map<Seq<char>, Seq<char>>, names: Seq<Seq<char>>) -> Map<
    Seq<char>,
    Seq<char>,
>
    decreases names.len(),
{
    if names.len() == 0 {
        m
    } else {
        without(m, names.drop_last()).remove(names.last())
    }
}

fn remove_all(map: &mut Overrides, names: &Vec<String>)
    ensures
        final(map)@ == without(old(map)@, text::texts(names@)),
{
    let ghost all = text::texts(names@);
    let mut i: usize = 0;
    while i < names.len()
        invariant
            i <= names@.len(),
            all == text::texts(names@),
            map@ == without(old(map)@, all.take(i as int)),
        decreases names@.len() - i,
    {
        assert(all.take(i + 1).drop_last() == all.take(i as int));
        map.remove(names[i].as_str());
        i = i + 1;
    }
    assert(all.take(i as int) == all);
}

/// Releases every lock.
pub fn policy_release_all(state: &mut PolicyState)
    ensures
        final(state).settings@ == without(old(state).settings@, text::texts(old(state).locked@)),
        final(state).display@ == without(old(state).display@, text::texts(old(state).locked@)),
        final(state).local@ == without(old(state).local@, text::texts(old(state).locked@)),
        final(state).locked@.len() == 0,
        final(state).persisted == old(state).persisted,
        final(state).mtime == old(state).mtime,
        final(state).version == old(state).version,
{
    let names: Vec<String> = copy_names(&state.locked);
    assert(text::texts(names@) == text::texts(old(state).locked@));
    remove_all(&mut state.settings, &names);
    remove_all(&mut state.display, &names);
    remove_all(&mut state.local, &names);
    state.locked = Vec::new();
}

fn copy_names(v: &Vec<String>) -> (r: Vec<String>)
    ensures
        text::texts(r@) == text::texts(v@),
{
    let mut out: Vec<String> = Vec::new();
    let mut i: usize = 0;
    while i < v.len()
        invariant
            i <= v@.len(),
            out@.len() == i,
            forall|k: int| 0 <= k < i ==> (#[trigger] out@[k])@ == v@[k]@,
        decreases v@.len() - i,
    {
        out.push(v[i].clone());
        i = i + 1;
    }
    assert(text::texts(out@) =~= text::texts(v@));
    out
}

/// The first setting that decides whether updates must be signed, or the number of settings.
pub open spec fn update_setting(s: Seq<SettingV>) -> int
    decreases s.len(),
{
    if s.len() == 0 || s[0].key == UPDATE_REQUIRE_SIG_KEY@ {
        0
    } else {
        1 + update_setting(s.drop_first())
    }
}

/// The settings that remain for the stores.
pub open spec fn kept(s: Seq<SettingV>) -> Seq<SettingV> {
    if update_setting(s) < s.len() {
        s.remove(update_setting(s))
    } else {
        s
    }
}

/// The latch for signed updates after a list of settings.
pub open spec fn latch_after(
    s: Seq<SettingV>,
    build_flag: Option<Seq<char>>,
    latch: Seq<char>,
) -> Seq<char> {
    if update_setting(s) < s.len() {
        if crate::trust::truthy(s[update_setting(s)].value) {
            "1"@
        } else if build_flag != Some("1"@) {
            "0"@
        } else {
            latch
        }
    } else {
        latch
    }
}

proof fn lemma_update_setting(s: Seq<SettingV>)
    ensures
        0 <= update_setting(s) <= s.len(),
    decreases s.len(),
{
    if s.len() > 0 && s[0].key != UPDATE_REQUIRE_SIG_KEY@ {
        lemma_update_setting(s.drop_first());
    }
}

fn find_update_setting(s: &Vec<Setting>) -> (r: usize)
    ensures
        r == update_setting(settings_v(s@)),
        r <= s@.len(),
{
    let ghost all = settings_v(s@);
    let mut i: usize = 0;
    assert(all.skip(0) == all);
    while i < s.len()
        invariant
            i <= s@.len(),
            all == settings_v(s@),
            update_setting(all) == i + update_setting(all.skip(i as int)),
        decreases s@.len() - i,
    {
        assert(all.skip(i as int)[0] == s@[i as int]@);
        assert(all.skip(i as int).drop_first() == all.skip(i + 1));
        if same(s[i].key.as_str(), UPDATE_REQUIRE_SIG_KEY) {
            return i;
        }
        i = i + 1;
    }
    i
}

/// What a device does with a list of settings.
pub open spec fn applied(
    before: PolicyState,
    after: PolicyState,
    s: Seq<SettingV>,
    build_flag: Option<Seq<char>>,
    latch: Seq<char>,
    exists_now: bool,
    outcome: PolicyOutcome,
) -> bool {
    let prev = text::texts(before.locked@);
    let now = locked_names(kept(s));
    &&& after.settings@ == overwritten(before.settings@, kept(s), prev, now)
    &&& after.display@ == overwritten(before.display@, kept(s), prev, now)
    &&& after.local@ == overwritten(before.local@, kept(s), prev, now)
    &&& text::texts(after.locked@) == now
    &&& pairs(after.persisted@) == chosen_pairs(kept(s), true)
    &&& after.mtime == before.mtime
    &&& after.version == before.version
    &&& outcome is Applied
    &&& outcome->latch@ == latch_after(s, build_flag, latch)
    &&& pairs(outcome->unlocked@) == chosen_pairs(kept(s), false)
    &&& file_action(
        pairs(before.persisted@),
        chosen_pairs(kept(s), true),
        exists_now,
        outcome->Applied_file,
    )
}

/// Applies the settings of a verified policy.
pub fn apply_settings(
    state: &mut PolicyState,
    settings: Vec<Setting>,
    build_flag: Option<&str>,
    latch: &str,
    exists_now: bool,
) -> (r: PolicyOutcome)
    ensures
        applied(
            *old(state),
            *final(state),
            settings_v(settings@),
            text::opt_str(build_flag),
            latch@,
            exists_now,
            r,
        ),
{
    let ghost all = settings_v(settings@);
    let mut rest = settings;
    let mut new_latch = latch.to_owned();
    let pos: usize = find_update_setting(&rest);
    if pos < rest.len() {
        let s = rest.remove(pos);
        new_latch = apply_update_require_sig(s.value.as_str(), build_flag, latch);
        assert(settings_v(rest@) =~= all.remove(pos as int));
    }
    assert(settings_v(rest@) == kept(all));
    let now = names_locked(&rest);
    apply_overwrite(&mut state.settings, &rest, &state.locked, &now);
    apply_overwrite(&mut state.display, &rest, &state.locked, &now);
    apply_overwrite(&mut state.local, &rest, &state.locked, &now);
    state.locked = now;
    let unlocked = pairs_chosen(&rest, false);
    let locked = pairs_chosen(&rest, true);
    let file = sync_policy_file(&mut state.persisted, locked, exists_now);
    PolicyOutcome::Applied { latch: new_latch, unlocked, file }
}

/// Applies what a heartbeat says of the policy: without a signed text every lock is released,
/// a text that is not signed for this device changes nothing, and a signed one is applied.
pub fn apply_policy(
    state: &mut PolicyState,
    policy: &Option<Json>,
    key: &str,
    id: &str,
    build_flag: Option<&str>,
    latch: &str,
    exists_now: bool,
) -> (r: PolicyOutcome)
    ensures
        ({
            let sig = match json::opt_model(*policy) {
                Some(j) => match j.text() {
                    Some(t) => t,
                    None => seq![],
                },
                None => seq![],
            };
            let m = signed_policy(key@, sig, id@);
            if sig.len() == 0 {
                &&& final(state).settings@ == without(
                    old(state).settings@,
                    text::texts(old(state).locked@),
                )
                &&& final(state).display@ == without(
                    old(state).display@,
                    text::texts(old(state).locked@),
                )
                &&& final(state).local@ == without(
                    old(state).local@,
                    text::texts(old(state).locked@),
                )
                &&& final(state).locked@.len() == 0
                &&& final(state).persisted@.len() == 0
                &&& final(state).mtime == old(state).mtime
                &&& final(state).version == old(state).version
                &&& r is Released
                &&& file_action(pairs(old(state).persisted@), seq![], exists_now, r->Released_file)
            } else if m is None {
                r is Rejected && *final(state) == *old(state)
            } else {
                exists|s: Seq<SettingV>|
                    lists(s, m->0) && #[trigger] applied(
                        *old(state),
                        *final(state),
                        s,
                        text::opt_str(build_flag),
                        latch@,
                        exists_now,
                        r,
                    )
            }
        }),
{
    let sig: String = match policy {
        Some(j) => match j.as_str() {
            Some(t) => t.to_owned(),
            None => String::new(),
        },
        None => String::new(),
    };
    if sig.as_str().is_empty() {
        policy_release_all(state);
        let none: Vec<(String, String)> = Vec::new();
        assert(pairs(none@) =~= Seq::<(Seq<char>, Seq<char>)>::empty());
        let file = sync_policy_file(&mut state.persisted, none, exists_now);
        assert(pairs(state.persisted@).len() == state.persisted@.len());
        return PolicyOutcome::Released { file };
    }
    match verify_policy(key, sig.as_str(), id) {
        Some(settings) => {
            let ghost s = settings_v(settings@);
            let r = apply_settings(state, settings, build_flag, latch, exists_now);
            assert(applied(*old(state), *state, s, text::opt_str(build_flag), latch@, exists_now, r));
            r
        },
        None => PolicyOutcome::Rejected,
    }
}

/// The locked settings that a mirror file lists: the entries with a text under `k`.
pub open spec fn listed_pairs(entries: Seq<JsonV>) -> Seq<(Seq<char>, Seq<char>)>
    decreases entries.len(),
{
    if entries.len() == 0 {
        seq![]
    } else {
        let before = listed_pairs(entries.drop_last());
        match entries.last().member_text("k"@) {
            Some(k) => before.push((k, entries.last().member_or_empty("v"@))),
            None => before,
        }
    }
}

/// The locked settings of the bytes of a mirror file.
pub open spec fn file_pairs(raw: Option<Seq<u8>>) -> Seq<(Seq<char>, Seq<char>)> {
    match raw {
        Some(b) => if vstd::utf8::valid_utf8(b) {
            match json::parsed(vstd::utf8::decode_utf8(b)) {
                Some(JsonV::Arr(es)) => listed_pairs(es),
                _ => seq![],
            }
        } else {
            seq![]
        },
        None => seq![],
    }
}

/// Every pair as a locked setting.
pub open spec fn all_locked(p: Seq<(Seq<char>, Seq<char>)>) -> Seq<SettingV> {
    Seq::new(p.len(), |i: int| SettingV { key: p[i].0, value: p[i].1, locked: true })
}

/// The names of a list of pairs.
pub open spec fn pair_names(p: Seq<(Seq<char>, Seq<char>)>) -> Seq<Seq<char>> {
    Seq::new(p.len(), |i: int| p[i].0)
}

/// The settings that the entries of a mirror file lock.
pub fn read_entries(entries: &Vec<Json>) -> (r: Vec<Setting>)
    ensures
        settings_v(r@) == all_locked(listed_pairs(json::models(entries@))),
{
    let ghost es = json::models(entries@);
    let mut out: Vec<Setting> = Vec::new();
    let mut i: usize = 0;
    while i < entries.len()
        invariant
            i <= entries@.len(),
            es == json::models(entries@),
            settings_v(out@) == all_locked(listed_pairs(es.take(i as int))),
        decreases entries@.len() - i,
    {
        assert(es.take(i + 1).drop_last() == es.take(i as int));
        assert(es.take(i + 1).last() == entries@[i as int]@);
        if let Some(k) = entries[i].get_str("k") {
            let ghost o = out@;
            let ghost before = listed_pairs(es.take(i as int));
            let v = entries[i].get_str_or_empty("v");
            out.push(Setting { key: k.to_owned(), value: v, locked: true });
            assert(settings_v(out@) =~= settings_v(o).push(
                SettingV { key: k@, value: v@, locked: true },
            ));
            assert(all_locked(before.push((k@, v@))) =~= all_locked(before).push(
                SettingV { key: k@, value: v@, locked: true },
            ));
        }
        i = i + 1;
    }
    assert(es.take(i as int) == es);
    out
}

fn keys_of(s: &Vec<Setting>) -> (r: Vec<String>)
    ensures
        text::texts(r@) == Seq::new(s@.len(), |i: int| s@[i].key@),
{
    let mut out: Vec<String> = Vec::new();
    let mut i: usize = 0;
    while i < s.len()
        invariant
            i <= s@.len(),
            out@.len() == i,
            forall|k: int| 0 <= k < i ==> (#[trigger] out@[k])@ == s@[k].key@,
        decreases s@.len() - i,
    {
        out.push(s[i].key.clone());
        i = i + 1;
    }
    out
}

/// Takes over the locked settings from the mirror file, where the file changed since it was
/// last looked at. A file that is there and cannot be read is looked at again.
pub fn load_persisted_policy(
    state: &mut PolicyState,
    mtime: i64,
    exists_now: bool,
    raw: Option<Vec<u8>>,
)
    ensures
        final(state).persisted == old(state).persisted,
        if old(state).mtime == mtime {
            *final(state) == *old(state)
        } else if exists_now && raw is None {
            *final(state) == (PolicyState { mtime: i64::MIN, ..*old(state) })
        } else {
            let p = file_pairs(
                text::opt_bytes(raw),
            );
            let prev = text::texts(old(state).locked@);
            &&& final(state).settings@ == overwritten(
                old(state).settings@,
                all_locked(p),
                prev,
                pair_names(p),
            )
            &&& final(state).display@ == overwritten(
                old(state).display@,
                all_locked(p),
                prev,
                pair_names(p),
            )
            &&& final(state).local@ == overwritten(
                old(state).local@,
                all_locked(p),
                prev,
                pair_names(p),
            )
            &&& text::texts(final(state).locked@) == pair_names(p)
            &&& final(state).mtime == mtime
            &&& final(state).version == next_version(old(state).version)
        },
        final(state).version == old(state).version <==> old(state).mtime == mtime || (exists_now
            && raw is None),
{
    if state.mtime == mtime {
        return ;
    }
    state.mtime = mtime;
    if exists_now && raw.is_none() {
        state.mtime = i64::MIN;
        return ;
    }
    let ghost p = file_pairs(
        text::opt_bytes(raw),
    );
    let settings = read_file(raw);
    let now = keys_of(&settings);
    assert(text::texts(now@) =~= pair_names(p)) by {
        assert(settings_v(settings@).len() == p.len());
        assert forall|i: int| 0 <= i < p.len() implies text::texts(now@)[i] == pair_names(p)[i] by {
            assert(settings_v(settings@)[i] == all_locked(p)[i]);
            assert(settings_v(settings@)[i].key == settings@[i].key@);
            assert(text::texts(now@)[i] == settings@[i].key@);
        }
    }
    apply_overwrite(&mut state.settings, &settings, &state.locked, &now);
    apply_overwrite(&mut state.display, &settings, &state.locked, &now);
    apply_overwrite(&mut state.local, &settings, &state.locked, &now);
    state.locked = now;
    state.version = if state.version == i64::MAX {
        i64::MIN
    } else {
        state.version + 1
    };
}

fn read_file(raw: Option<Vec<u8>>) -> (r: Vec<Setting>)
    ensures
        settings_v(r@) == all_locked(
            file_pairs(
                text::opt_bytes(raw),
            ),
        ),
{
    let none: Vec<Setting> = Vec::new();
    assert(settings_v(none@) =~= all_locked(Seq::<(Seq<char>, Seq<char>)>::empty()));
    match raw {
        Some(b) => match from_utf8(b) {
            Some(text) => match from_text(text.as_str()) {
                Some(j) => match j.as_array() {
                    Some(es) => read_entries(es),
                    None => none,
                },
                None => none,
            },
            None => none,
        },
        None => none,
    }
}

/// No two settings have the same name.
pub open spec fn distinct_keys(s: Seq<SettingV>) -> bool {
    forall|i: int, j: int|
        0 <= i < j < s.len() ==> (#[trigger] s[i]).key != (#[trigger] s[j]).key
}

proof fn lemma_settle(m: Map<Seq<char>, Seq<char>>, s: Seq<SettingV>, k: Seq<char>)
    requires
        distinct_keys(s),
    ensures
        forall|i: int|
            0 <= i < s.len() && (#[trigger] s[i]).key == k ==> (if s[i].locked {
                settle(m, s).contains_key(k) && settle(m, s)[k] == s[i].value
            } else {
                !settle(m, s).contains_key(k)
            }),
        (forall|i: int| 0 <= i < s.len() ==> (#[trigger] s[i]).key != k) ==> {
            &&& settle(m, s).contains_key(k) == m.contains_key(k)
            &&& m.contains_key(k) ==> settle(m, s)[k] == m[k]
        },
    decreases s.len(),
{
    if s.len() > 0 {
        let t = s.drop_last();
        assert(distinct_keys(t)) by {
            assert forall|i: int, j: int| 0 <= i < j < t.len() implies (#[trigger] t[i]).key != (
            #[trigger] t[j]).key by {
                assert(t[i] == s[i] && t[j] == s[j]);
            }
        }
        lemma_settle(m, t, k);
        assert forall|i: int| 0 <= i < s.len() && (#[trigger] s[i]).key == k implies (
        if s[i].locked {
            settle(m, s).contains_key(k) && settle(m, s)[k] == s[i].value
        } else {
            !settle(m, s).contains_key(k)
        }) by {
            if i < s.len() - 1 {
                assert(t[i] == s[i]);
                assert(s[s.len() - 1].key != k);
            }
        }
        if forall|i: int| 0 <= i < s.len() ==> (#[trigger] s[i]).key != k {
            assert forall|i: int| 0 <= i < t.len() implies (#[trigger] t[i]).key != k by {
                assert(t[i] == s[i]);
            }
            assert(s[s.len() - 1].key != k);
        }
    }
}

proof fn lemma_release(
    m: Map<Seq<char>, Seq<char>>,
    prev: Seq<Seq<char>>,
    now: Seq<Seq<char>>,
    k: Seq<char>,
)
    ensures
        prev.contains(k) && !now.contains(k) ==> !release(m, prev, now).contains_key(k),
        !prev.contains(k) || now.contains(k) ==> {
            &&& release(m, prev, now).contains_key(k) == m.contains_key(k)
            &&& m.contains_key(k) ==> release(m, prev, now)[k] == m[k]
        },
    decreases prev.len(),
{
    if prev.len() > 0 {
        let t = prev.drop_last();
        lemma_release(m, t, now, k);
        if prev.contains(k) {
            let i = choose|i: int| 0 <= i < prev.len() && prev[i] == k;
            if i < t.len() {
                assert(t[i] == k);
            }
        }
        if t.contains(k) {
            let i = choose|i: int| 0 <= i < t.len() && t[i] == k;
            assert(prev[i] == k);
        }
        assert(prev[prev.len() - 1] == prev.last());
    }
}

proof fn lemma_locked_names(s: Seq<SettingV>, k: Seq<char>)
    ensures
        locked_names(s).contains(k) <==> exists|i: int|
            0 <= i < s.len() && (#[trigger] s[i]).key == k && s[i].locked,
    decreases s.len(),
{
    if s.len() > 0 {
        let t = s.drop_last();
        lemma_locked_names(t, k);
        let names = locked_names(s);
        let before = locked_names(t);
        if names.contains(k) {
            let n = choose|n: int| 0 <= n < names.len() && names[n] == k;
            if n < before.len() {
                assert(before[n] == k);
                let i = choose|i: int| 0 <= i < t.len() && (#[trigger] t[i]).key == k && t[i].locked;
                assert(s[i] == t[i]);
            } else {
                assert(s[s.len() - 1].key == k);
            }
        }
        if exists|i: int| 0 <= i < s.len() && (#[trigger] s[i]).key == k && s[i].locked {
            let i = choose|i: int| 0 <= i < s.len() && (#[trigger] s[i]).key == k && s[i].locked;
            if i < t.len() {
                assert(t[i] == s[i]);
                let n = choose|n: int| 0 <= n < before.len() && before[n] == k;
                assert(names[n] == k);
            } else {
                assert(names[names.len() - 1] == k);
            }
        }
    }
}

/// A policy decides every name in a store: a locked setting is forced to its value, an unlocked
/// one is not forced, one that was locked before and is in the policy no more is released, and
/// any other name stays as it was.
pub proof fn policy_decides_every_name(
    m: Map<Seq<char>, Seq<char>>,
    s: Seq<SettingV>,
    prev: Seq<Seq<char>>,
    k: Seq<char>,
)
    requires
        distinct_keys(s),
    ensures
        ({
            let after = overwritten(m, s, prev, locked_names(s));
            &&& forall|i: int|
                0 <= i < s.len() && (#[trigger] s[i]).key == k ==> (if s[i].locked {
                    after.contains_key(k) && after[k] == s[i].value
                } else {
                    !after.contains_key(k)
                })
            &&& (forall|i: int| 0 <= i < s.len() ==> (#[trigger] s[i]).key != k) ==> (
            if prev.contains(k) {
                !after.contains_key(k)
            } else {
                after.contains_key(k) == m.contains_key(k) && (m.contains_key(k) ==> after[k]
                    == m[k])
            })
        }),
{
    lemma_settle(m, s, k);
    lemma_release(settle(m, s), prev, locked_names(s), k);
    lemma_locked_names(s, k);
    let after = overwritten(m, s, prev, locked_names(s));
    assert forall|i: int| 0 <= i < s.len() && (#[trigger] s[i]).key == k implies (if s[i].locked {
        after.contains_key(k) && after[k] == s[i].value
    } else {
        !after.contains_key(k)
    }) by {
        if s[i].locked {
            assert(locked_names(s).contains(k));
        }
    }
    if forall|i: int| 0 <= i < s.len() ==> (#[trigger] s[i]).key != k {
        assert(!locked_names(s).contains(k));
    }
}

/// The settings of a policy have distinct names, with and without the one for updates.
pub proof fn policy_names_are_distinct(s: Seq<SettingV>, m: Map<Seq<char>, JsonV>)
    requires
        lists(s, m),
    ensures
        distinct_keys(s),
        distinct_keys(kept(s)),
{
    assert forall|i: int, j: int| 0 <= i < j < s.len() implies (#[trigger] s[i]).key != (
    #[trigger] s[j]).key by {
        crate::text::lemma_before_total(s[i].key, s[j].key);
    }
    lemma_update_setting(s);
    let p = update_setting(s);
    if p < s.len() {
        let t = s.remove(p);
        assert forall|i: int, j: int| 0 <= i < j < t.len() implies (#[trigger] t[i]).key != (
        #[trigger] t[j]).key by {
            let i0 = if i < p { i } else { i + 1 };
            let j0 = if j < p { j } else { j + 1 };
            assert(t[i] == s[i0] && t[j] == s[j0]);
        }
    }
}

/// Releasing every lock leaves no locked name forced, and every other name as it was.
pub proof fn release_frees_every_lock(
    m: Map<Seq<char>, Seq<char>>,
    names: Seq<Seq<char>>,
    k: Seq<char>,
)
    ensures
        names.contains(k) ==> !without(m, names).contains_key(k),
        !names.contains(k) ==> {
            &&& without(m, names).contains_key(k) == m.contains_key(k)
            &&& m.contains_key(k) ==> without(m, names)[k] == m[k]
        },
    decreases names.len(),
{
    if names.len() > 0 {
        let t = names.drop_last();
        release_frees_every_lock(m, t, k);
        if names.contains(k) {
            let i = choose|i: int| 0 <= i < names.len() && names[i] == k;
            if i < t.len() {
                assert(t[i] == k);
            }
        }
        if t.contains(k) {
            let i = choose|i: int| 0 <= i < t.len() && t[i] == k;
            assert(names[i] == k);
        }
        assert(names[names.len() - 1] == names.last());
    }
}

/// A process that reads the mirror file finds exactly the locked set that was written.
pub proof fn mirror_file_reads_back(locked: Seq<(Seq<char>, Seq<char>)>)
    ensures
        file_document(locked).elements() is Some,
        listed_pairs(file_document(locked).elements()->0) == locked,
    decreases locked.len(),
{
    let es = file_document(locked).elements()->0;
    if locked.len() > 0 {
        reveal_strlit("k");
        reveal_strlit("v");
        assert("k"@[0] != "v"@[0]);
        mirror_file_reads_back(locked.drop_last());
        assert(es.drop_last() =~= file_document(locked.drop_last()).elements()->0);
        assert(es.last() == file_entry(locked.last()));
        assert(locked.drop_last().push(locked.last()) =~= locked);
    } else {
        assert(listed_pairs(es) =~= locked);
    }
}

/// A line is cut off at the first line feed.
pub proof fn a_line_is_cut_off(a: Seq<char>, b: Seq<char>)
    requires
        !a.contains('\n'),
    ensures
        cut_line(a + seq!['\n'] + b) == (a, Some(b)),
        cut_line(a) == (a, None::<Seq<char>>),
{
    let s = a + seq!['\n'] + b;
    crate::text::lemma_index_of_props(s, '\n');
    crate::text::lemma_index_of_props(a, '\n');
    let i = text::index_of(s, '\n');
    assert(s[a.len() as int] == '\n');
    if i < a.len() {
        assert(s[i] == a[i]);
        assert(a.contains('\n'));
    }
    assert(s.take(i) =~= a);
    assert(s.skip(i + 1) =~= b);
    if text::index_of(a, '\n') < a.len() {
        assert(a[text::index_of(a, '\n')] == '\n');
    }
}

/// The document of a policy that was signed for a device is found in its text; for another
/// device there is none.
pub proof fn a_policy_is_for_its_device(id: Seq<char>, doc: Seq<char>, other: Seq<char>)
    requires
        !id.contains('\n'),
    ensures
        policy_document("CONSOLE-POLICY"@ + seq!['\n'] + (id + seq!['\n'] + doc), id) == Some(doc),
        other != id ==> policy_document(
            "CONSOLE-POLICY"@ + seq!['\n'] + (id + seq!['\n'] + doc),
            other,
        ) is None,
{
    let tag = "CONSOLE-POLICY"@;
    reveal_strlit("CONSOLE-POLICY");
    if tag.contains('\n') {
        let i = choose|i: int| 0 <= i < tag.len() && tag[i] == '\n';
        assert(false);
    }
    a_line_is_cut_off(tag, id + seq!['\n'] + doc);
    a_line_is_cut_off(id, doc);
}

/// A policy counts where the trusted key signed it for this device, and nowhere else.
pub proof fn a_policy_is_signed(
    key: Seq<char>,
    sig: Seq<char>,
    id: Seq<char>,
    doc: Seq<char>,
    m: Map<Seq<char>, JsonV>,
)
    requires
        !id.contains('\n'),
        json::parsed(doc) == Some(JsonV::Obj(m)),
        crypto::recovered(key, sig, 65536) == Some(
            vstd::utf8::encode_utf8("CONSOLE-POLICY"@ + seq!['\n'] + (id + seq!['\n'] + doc)),
        ),
    ensures
        key.len() > 0 ==> signed_policy(key, sig, id) == Some(m),
        key.len() == 0 ==> signed_policy(key, sig, id) is None,
{
    let t = "CONSOLE-POLICY"@ + seq!['\n'] + (id + seq!['\n'] + doc);
    vstd::utf8::encode_utf8_decode_utf8(t);
    vstd::utf8::encode_utf8_valid_utf8(t);
    a_policy_is_for_its_device(id, doc, id);
}

/// A setting has the value and the lock that its entry says; without a word it is not locked.
pub proof fn a_setting_is_what_its_entry_says(key: Seq<char>, v: JsonV, value: Seq<char>)
    ensures
        setting_of(key, v).key == key,
        v.member("value"@) == Some(JsonV::Str(value)) ==> setting_of(key, v).value == value,
        setting_of(key, v).locked <==> v.member("locked"@) == Some(JsonV::Bool(true)),
{
}

/// The names of the locked settings, and the pairs of those that are locked or are not, are all
/// of them, in their order.
pub proof fn settings_are_parted_by_their_locks(s: Seq<SettingV>, locked: bool)
    ensures
        locked_names(s) == s.filter(|x: SettingV| x.locked).map_values(|x: SettingV| x.key),
        chosen_pairs(s, locked) == s.filter(|x: SettingV| x.locked == locked).map_values(
            |x: SettingV| (x.key, x.value),
        ),
    decreases s.len(),
{
    let g = |x: SettingV| x.locked;
    let h = |x: SettingV| x.key;
    let g2 = |x: SettingV| x.locked == locked;
    let h2 = |x: SettingV| (x.key, x.value);
    reveal(Seq::filter);
    if s.len() > 0 {
        let t = s.drop_last();
        settings_are_parted_by_their_locks(t, locked);
        if g(s.last()) {
            assert(s.filter(g) == t.filter(g).push(s.last()));
            assert(s.filter(g).map_values(h) =~= t.filter(g).map_values(h).push(h(s.last())));
        }
        if g2(s.last()) {
            assert(s.filter(g2) == t.filter(g2).push(s.last()));
            assert(s.filter(g2).map_values(h2) =~= t.filter(g2).map_values(h2).push(h2(s.last())));
        }
    }
    assert(locked_names(s) =~= s.filter(g).map_values(h));
    assert(chosen_pairs(s, locked) =~= s.filter(g2).map_values(h2));
}

/// The entries of the mirror file with a name are read as pairs, in their order.
pub proof fn every_mirrored_pair_is_read(entries: Seq<JsonV>)
    ensures
        listed_pairs(entries) == entries.filter(|e: JsonV| e.member_text("k"@) is Some).map_values(
            |e: JsonV| (e.member_text("k"@)->0, e.member_or_empty("v"@)),
        ),
    decreases entries.len(),
{
    let g = |e: JsonV| e.member_text("k"@) is Some;
    let h = |e: JsonV| (e.member_text("k"@)->0, e.member_or_empty("v"@));
    reveal(Seq::filter);
    if entries.len() > 0 {
        let t = entries.drop_last();
        every_mirrored_pair_is_read(t);
        if g(entries.last()) {
            assert(entries.filter(g) == t.filter(g).push(entries.last()));
            assert(entries.filter(g).map_values(h) =~= t.filter(g).map_values(h).push(
                h(entries.last()),
            ));
        }
    }
    assert(listed_pairs(entries) =~= entries.filter(g).map_values(h));
}

/// The setting for signed updates is taken out of a policy and decides on the latch: a truthy
/// value sets it; any other clears it, unless the build insists. Without the setting the latch
/// stays and the settings are all there.
pub proof fn the_update_setting_sets_the_latch(
    a: Seq<SettingV>,
    x: SettingV,
    b: Seq<SettingV>,
    build_flag: Option<Seq<char>>,
    latch: Seq<char>,
)
    requires
        x.key == "update.require_sig"@,
        forall|i: int| 0 <= i < a.len() ==> (#[trigger] a[i]).key != "update.require_sig"@,
    ensures
        kept(a + seq![x] + b) == a + b,
        latch_after(a + seq![x] + b, build_flag, latch) == (if trust::truthy(x.value) {
            "1"@
        } else if build_flag == Some("1"@) {
            latch
        } else {
            "0"@
        }),
        kept(a) == a,
        latch_after(a, build_flag, latch) == latch,
{
    lemma_first_update_setting(a, x, b);
    let s = a + seq![x] + b;
    assert(s.remove(a.len() as int) =~= a + b);
    assert(s[a.len() as int] == x);
}

proof fn lemma_first_update_setting(a: Seq<SettingV>, x: SettingV, b: Seq<SettingV>)
    requires
        x.key == "update.require_sig"@,
        forall|i: int| 0 <= i < a.len() ==> (#[trigger] a[i]).key != "update.require_sig"@,
    ensures
        update_setting(a + seq![x] + b) == a.len(),
        update_setting(a) == a.len(),
    decreases a.len(),
{
    let s = a + seq![x] + b;
    if a.len() > 0 {
        assert(s[0] == a[0]);
        assert(a[0].key != "update.require_sig"@);
        let t = a.drop_first();
        assert forall|i: int| 0 <= i < t.len() implies (#[trigger] t[i]).key
            != "update.require_sig"@ by {
            assert(t[i] == a[i + 1]);
        }
        lemma_first_update_setting(t, x, b);
        assert(s.drop_first() =~= t + seq![x] + b);
    } else {
        assert(s[0] == x);
    }
}

/// What is left without some names is every other entry, as it was.
pub proof fn other_names_stay(m: Map<Seq<char>, Seq<char>>, names: Seq<Seq<char>>, k: Seq<char>)
    ensures
        without(m, names).contains_key(k) <==> m.contains_key(k) && !names.contains(k),
        without(m, names).contains_key(k) ==> without(m, names)[k] == m[k],
    decreases names.len(),
{
    if names.len() > 0 {
        let t = names.drop_last();
        other_names_stay(m, t, k);
        if names.contains(k) {
            let i = choose|i: int| 0 <= i < names.len() && names[i] == k;
            if i < t.len() {
                assert(t[i] == k);
            }
        }
        if t.contains(k) {
            let i = choose|i: int| 0 <= i < t.len() && t[i] == k;
            assert(names[i] == k);
        }
        assert(names[names.len() - 1] == names.last());
    }
}

/// The mirror file is left alone where it holds what is locked, removed where nothing is locked,
/// and else written with what is locked.
pub proof fn the_mirror_file_follows_the_locks(
    persisted: Seq<(Seq<char>, Seq<char>)>,
    locked: Seq<(Seq<char>, Seq<char>)>,
    exists_now: bool,
    action: FileAction,
)
    requires
        file_action(persisted, locked, exists_now, action),
    ensures
        action is Keep <==> persisted == locked && (locked.len() == 0 || exists_now),
        action is Remove <==> persisted != locked && locked.len() == 0,
        action matches FileAction::Write(t) ==> locked.len() > 0 && json::parsed(t@) == Some(
            JsonV::Arr(
                Seq::new(
                    locked.len(),
                    |i: int|
                        JsonV::empty().with("k"@, JsonV::Str(locked[i].0)).with(
                            "v"@,
                            JsonV::Str(locked[i].1),
                        ),
                ),
            ),
        ),
{
    let a = Seq::new(locked.len(), |i: int| file_entry(locked[i]));
    let b = Seq::new(
        locked.len(),
        |i: int|
            JsonV::empty().with("k"@, JsonV::Str(locked[i].0)).with("v"@, JsonV::Str(locked[i].1)),
    );
    assert(a =~= b);
}

} // verus!
