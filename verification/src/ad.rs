//! A machine's place in a directory: its domain, its organisational unit, its groups.
use vstd::prelude::*;

use crate::json;
use crate::sync;
use crate::text;
use crate::json::{Json, JsonV};
use crate::sync::put_text;
use crate::text::{cat3, chars_of, code_of, join, strip_prefix, trim};

verus! {

/// A machine's place in a directory. What is not known is empty.
pub struct AdIdentity {
    pub domain_dns: String,
    pub domain_netbios: String,
    pub ou: String,
    pub workgroup: String,
}

/// The model of an [`AdIdentity`].
pub struct AdV {
    pub domain_dns: Seq<char>,
    pub domain_netbios: Seq<char>,
    pub ou: Seq<char>,
    pub workgroup: Seq<char>,
}

impl View for AdIdentity {
    type V = AdV;

    open spec fn view(&self) -> AdV {
        AdV {
            domain_dns: self.domain_dns@,
            domain_netbios: self.domain_netbios@,
            ou: self.ou@,
            workgroup: self.workgroup@,
        }
    }
}

/// What the system says of the machine's domain.
pub struct DomainFacts {
    /// The short name of the domain, or the name of the workgroup.
    pub netbios: String,
    /// The name of the domain that the machine joined.
    pub lsa_dns: String,
    /// Whether it joined one.
    pub is_domain: bool,
    /// The machine's own domain suffix.
    pub dns_domain: String,
    /// The distinguished name of the machine's object.
    pub dn: String,
}

/// A machine's place in a directory.
pub open spec fn identity_of_facts(f: DomainFacts) -> AdV {
    AdV {
        domain_dns: if f.lsa_dns@.len() > 0 {
            f.lsa_dns@
        } else {
            f.dns_domain@
        },
        domain_netbios: if f.is_domain {
            f.netbios@
        } else {
            seq![]
        },
        ou: ou_path_v(f.dn@),
        workgroup: if f.is_domain {
            seq![]
        } else {
            f.netbios@
        },
    }
}

/// A machine's place in a directory. The domain is the one that it joined, and only where that
/// is not known its own suffix.
pub fn ad_identity(f: &DomainFacts) -> (r: AdIdentity)
    ensures
        r@ == identity_of_facts(*f),
{
    let domain_dns = if !f.lsa_dns.as_str().is_empty() {
        f.lsa_dns.clone()
    } else {
        f.dns_domain.clone()
    };
    let none = String::new();
    assert(none@ =~= seq![]);
    let ou = ou_path(f.dn.as_str());
    if f.is_domain {
        AdIdentity { domain_dns, domain_netbios: f.netbios.clone(), ou, workgroup: none }
    } else {
        AdIdentity { domain_dns, domain_netbios: none, ou, workgroup: f.netbios.clone() }
    }
}

/// A machine has a short domain name or a workgroup, never both.
pub proof fn a_workgroup_is_no_domain(f: DomainFacts)
    ensures
        identity_of_facts(f).domain_netbios.len() == 0 || identity_of_facts(f).workgroup.len() == 0,
{
}

/// Parts of a text with something before the first.
pub open spec fn put_before(x: Seq<char>, parts: Seq<Seq<char>>) -> Seq<Seq<char>> {
    seq![x + parts[0]] + parts.drop_first()
}

/// The components of a distinguished name. A comma behind a backslash is part of a component.
pub open spec fn dn_parts(s: Seq<char>) -> Seq<Seq<char>>
    decreases s.len(),
{
    if s.len() == 0 {
        seq![seq![]]
    } else if s[0] == '\\' && s.len() > 1 {
        put_before(s.take(2), dn_parts(s.skip(2)))
    } else if s[0] == ',' {
        seq![Seq::<char>::empty()] + dn_parts(s.skip(1))
    } else {
        put_before(s.take(1), dn_parts(s.skip(1)))
    }
}

proof fn lemma_dn_parts_not_empty(s: Seq<char>)
    ensures
        dn_parts(s).len() > 0,
    decreases s.len(),
{
    if s.len() > 0 {
        lemma_dn_parts_not_empty(s.skip(1));
        if s.len() > 1 {
            lemma_dn_parts_not_empty(s.skip(2));
        }
    }
}

/// The components of a distinguished name.
pub fn split_dn_components(dn: &str) -> (r: Vec<String>)
    ensures
        text::texts(r@) == dn_parts(dn@),
{
    let v = chars_of(dn);
    let mut parts: Vec<String> = Vec::new();
    let mut cur = String::new();
    let mut i: usize = 0;
    proof {
        lemma_dn_parts_not_empty(v@);
        assert(v@.skip(0) == v@);
        assert(cur@ + dn_parts(v@)[0] =~= dn_parts(v@)[0]);
        assert(text::texts(parts@) + put_before(cur@, dn_parts(v@)) =~= dn_parts(v@));
    }
    while i < v.len()
        invariant
            i <= v@.len(),
            v@ == dn@,
            dn_parts(v@.skip(i as int)).len() > 0,
            text::texts(parts@) + put_before(cur@, dn_parts(v@.skip(i as int))) == dn_parts(dn@),
        decreases v@.len() - i,
    {
        let ghost rest = v@.skip(i as int);
        let ghost before = text::texts(parts@);
        let ghost c0 = cur@;
        let c: char = v[i];
        assert(rest[0] == c);
        if c == '\\' && i + 1 < v.len() {
            let n: char = v[i + 1];
            cur.push(c);
            cur.push(n);
            i = i + 2;
            proof {
                let tail = v@.skip(i as int);
                lemma_dn_parts_not_empty(tail);
                assert(rest.skip(2) =~= tail);
                assert(rest.take(2) =~= seq![c, n]);
                assert(c0 + (seq![c, n] + dn_parts(tail)[0]) =~= cur@ + dn_parts(tail)[0]);
                assert(put_before(c0, dn_parts(rest)) =~= put_before(cur@, dn_parts(tail)));
            }
        } else if c == ',' {
            let done = cur;
            parts.push(done);
            cur = String::new();
            i = i + 1;
            proof {
                let tail = v@.skip(i as int);
                lemma_dn_parts_not_empty(tail);
                assert(rest.skip(1) =~= tail);
                assert(text::texts(parts@) =~= before.push(c0));
                assert(dn_parts(rest)[0] =~= Seq::<char>::empty());
                assert(c0 + dn_parts(rest)[0] =~= c0);
                assert(dn_parts(rest).drop_first() =~= dn_parts(tail));
                assert(cur@ + dn_parts(tail)[0] =~= dn_parts(tail)[0]);
                assert(put_before(cur@, dn_parts(tail)) =~= dn_parts(tail));
                assert(before + put_before(c0, dn_parts(rest)) =~= before.push(c0) + dn_parts(
                    tail,
                ));
            }
        } else {
            cur.push(c);
            i = i + 1;
            proof {
                let tail = v@.skip(i as int);
                lemma_dn_parts_not_empty(tail);
                assert(rest.skip(1) =~= tail);
                assert(rest.take(1) =~= seq![c]);
                assert(c0 + (seq![c] + dn_parts(tail)[0]) =~= cur@ + dn_parts(tail)[0]);
                assert(put_before(c0, dn_parts(rest)) =~= put_before(cur@, dn_parts(tail)));
            }
        }
    }
    proof {
        assert(v@.skip(i as int) =~= Seq::<char>::empty());
        assert(cur@ + Seq::<char>::empty() =~= cur@);
        assert(put_before(cur@, dn_parts(v@.skip(i as int))) =~= seq![cur@]);
    }
    let ghost before = parts@;
    let ghost last = cur@;
    parts.push(cur);
    assert(text::texts(parts@) =~= text::texts(before) + seq![last]);
    parts
}

/// Nothing of a distinguished name is lost: its components, joined by commas, are the name.
pub proof fn components_join_to_the_name(s: Seq<char>)
    ensures
        text::join_v(dn_parts(s), ","@) == s,
    decreases s.len(),
{
    reveal_strlit(",");
    lemma_dn_parts_not_empty(s);
    if s.len() == 0 {
        assert(text::join_v(dn_parts(s), ","@) =~= s);
    } else if s[0] == '\\' && s.len() > 1 {
        components_join_to_the_name(s.skip(2));
        lemma_dn_parts_not_empty(s.skip(2));
        lemma_join_put_before(s.take(2), dn_parts(s.skip(2)));
        assert(s.take(2) + s.skip(2) =~= s);
    } else if s[0] == ',' {
        let t = dn_parts(s.skip(1));
        components_join_to_the_name(s.skip(1));
        lemma_dn_parts_not_empty(s.skip(1));
        crate::text::lemma_join_head(Seq::<char>::empty(), t, ","@);
        assert(Seq::<char>::empty() + ","@ + s.skip(1) =~= s);
    } else {
        components_join_to_the_name(s.skip(1));
        lemma_dn_parts_not_empty(s.skip(1));
        lemma_join_put_before(s.take(1), dn_parts(s.skip(1)));
        assert(s.take(1) + s.skip(1) =~= s);
    }
}

proof fn lemma_join_put_before(x: Seq<char>, parts: Seq<Seq<char>>)
    requires
        parts.len() > 0,
    ensures
        text::join_v(put_before(x, parts), ","@) == x + text::join_v(parts, ","@),
{
    let p = put_before(x, parts);
    let rest = parts.drop_first();
    if rest.len() == 0 {
        assert(p =~= seq![x + parts[0]]);
        assert(parts =~= seq![parts[0]]);
    } else {
        crate::text::lemma_join_head(x + parts[0], rest, ","@);
        crate::text::lemma_join_head(parts[0], rest, ","@);
        assert(seq![parts[0]] + rest =~= parts);
        assert(x + parts[0] + ","@ + text::join_v(rest, ","@) =~= x + (parts[0] + ","@ + text::join_v(
            rest,
            ","@,
        )));
    }
}

/// The value behind backslashes: each is dropped, and what follows it stays.
pub open spec fn unescaped(s: Seq<char>) -> Seq<char>
    decreases s.len(),
{
    if s.len() == 0 {
        s
    } else if s[0] == '\\' {
        if s.len() > 1 {
            seq![s[1]] + unescaped(s.skip(2))
        } else {
            seq![]
        }
    } else {
        seq![s[0]] + unescaped(s.skip(1))
    }
}

/// The value behind backslashes.
pub fn unescape_dn(s: &str) -> (r: String)
    ensures
        r@ == unescaped(s@),
{
    let v = chars_of(s);
    let mut out = String::new();
    let mut i: usize = 0;
    assert(v@.skip(0) == v@);
    assert(out@ + unescaped(v@) =~= unescaped(v@));
    while i < v.len()
        invariant
            i <= v@.len(),
            v@ == s@,
            out@ + unescaped(v@.skip(i as int)) == unescaped(s@),
        decreases v@.len() - i,
    {
        let ghost rest = v@.skip(i as int);
        let ghost o = out@;
        let c: char = v[i];
        assert(rest[0] == c);
        if c == '\\' {
            if i + 1 < v.len() {
                let n: char = v[i + 1];
                out.push(n);
                i = i + 2;
                proof {
                    assert(rest[1] == n);
                    assert(rest.skip(2) =~= v@.skip(i as int));
                    assert(o + (seq![n] + unescaped(v@.skip(i as int))) =~= out@ + unescaped(
                        v@.skip(i as int),
                    ));
                }
            } else {
                i = i + 1;
                assert(v@.skip(i as int) =~= Seq::<char>::empty());
                assert(out@ + unescaped(v@.skip(i as int)) =~= o + unescaped(rest));
            }
        } else {
            out.push(c);
            i = i + 1;
            proof {
                assert(rest.skip(1) =~= v@.skip(i as int));
                assert(o + (seq![c] + unescaped(v@.skip(i as int))) =~= out@ + unescaped(
                    v@.skip(i as int),
                ));
            }
        }
    }
    assert(v@.skip(i as int) =~= Seq::<char>::empty());
    assert(out@ + Seq::<char>::empty() =~= out@);
    out
}

/// The character that stands for a slash inside a name.
pub open spec fn slash_sign(c: char) -> char {
    if c == '/' {
        '\u{2215}'
    } else {
        c
    }
}

/// A name in which no slash looks like a level.
pub open spec fn sanitized(s: Seq<char>) -> Seq<char> {
    Seq::new(s.len(), |i: int| slash_sign(s[i]))
}

/// A name in which no slash looks like a level.
pub fn sanitize_ou_component(s: &str) -> (r: String)
    ensures
        r@ == sanitized(s@),
{
    let v = chars_of(s);
    let mut out = String::new();
    let mut i: usize = 0;
    while i < v.len()
        invariant
            i <= v@.len(),
            out@.len() == i,
            forall|k: int| 0 <= k < i ==> #[trigger] out@[k] == slash_sign(v@[k]),
        decreases v@.len() - i,
    {
        let c: char = v[i];
        if c == '/' {
            out.push('\u{2215}');
        } else {
            out.push(c);
        }
        i = i + 1;
    }
    assert(out@ =~= sanitized(s@));
    out
}

/// The name of an organisational unit, where a component is one.
pub open spec fn ou_of(part: Seq<char>) -> Option<Seq<char>> {
    let p = text::trim_v(part);
    if text::prefixed(p, "OU="@) || text::prefixed(p, "ou="@) {
        Some(sanitized(unescaped(p.skip(3))))
    } else {
        None
    }
}

/// The organisational units among components, the last one first.
pub open spec fn ous(parts: Seq<Seq<char>>) -> Seq<Seq<char>>
    decreases parts.len(),
{
    if parts.len() == 0 {
        seq![]
    } else {
        let rest = ous(parts.drop_last());
        match ou_of(parts.last()) {
            Some(o) => seq![o] + rest,
            None => rest,
        }
    }
}

/// The path of a machine's organisational units, the outermost first.
pub open spec fn ou_path_v(dn: Seq<char>) -> Seq<char> {
    if dn.len() == 0 {
        seq![]
    } else {
        text::join_v(ous(dn_parts(dn)), "/"@)
    }
}

fn read_ou(part: &str) -> (r: Option<String>)
    ensures
        text::opt_text(r) == ou_of(part@),
{
    proof {
        reveal_strlit("OU=");
        reveal_strlit("ou=");
    }
    let p = trim(part);
    match strip_prefix(p.as_str(), "OU=") {
        Some(x) => Some(sanitize_ou_component(unescape_dn(x.as_str()).as_str())),
        None => match strip_prefix(p.as_str(), "ou=") {
            Some(x) => Some(sanitize_ou_component(unescape_dn(x.as_str()).as_str())),
            None => None,
        },
    }
}

/// The path of a machine's organisational units, the outermost first, from the distinguished
/// name of its object.
pub fn ou_path(dn: &str) -> (r: String)
    ensures
        r@ == ou_path_v(dn@),
{
    if dn.is_empty() {
        let none = String::new();
        assert(none@ =~= seq![]);
        return none;
    }
    let parts = split_dn_components(dn);
    let ghost all = text::texts(parts@);
    let mut found: Vec<String> = Vec::new();
    let mut n: usize = parts.len();
    assert(all.take(n as int) =~= all);
    assert(text::texts(found@) + ous(all) =~= ous(all));
    while n > 0
        invariant
            n <= parts@.len(),
            all == text::texts(parts@),
            text::texts(found@) + ous(all.take(n as int)) == ous(all),
        decreases n,
    {
        let k: usize = n - 1;
        let ghost o = text::texts(found@);
        assert(all.take(n as int).drop_last() =~= all.take(k as int));
        assert(all.take(n as int).last() == parts@[k as int]@);
        match read_ou(parts[k].as_str()) {
            Some(x) => {
                let ghost xv = x@;
                let ghost f = found@;
                found.push(x);
                assert(text::texts(found@) =~= text::texts(f).push(xv));
                assert(o + (seq![xv] + ous(all.take(k as int))) =~= text::texts(found@) + ous(
                    all.take(k as int),
                ));
            },
            None => {},
        }
        n = k;
    }
    assert(text::texts(found@) =~= ous(all)) by {
        assert(ous(all.take(0)) =~= Seq::<Seq<char>>::empty());
    }
    join(&found, "/")
}

proof fn lemma_ous_have_no_slash(parts: Seq<Seq<char>>)
    ensures
        forall|i: int| 0 <= i < ous(parts).len() ==> !(#[trigger] ous(parts)[i]).contains('/'),
    decreases parts.len(),
{
    if parts.len() > 0 {
        lemma_ous_have_no_slash(parts.drop_last());
        assert forall|i: int| 0 <= i < ous(parts).len() implies !(
        #[trigger] ous(parts)[i]).contains('/') by {
            let rest = ous(parts.drop_last());
            match ou_of(parts.last()) {
                Some(o) => {
                    if i == 0 {
                        let p = text::trim_v(parts.last());
                        assert(o == sanitized(unescaped(p.skip(3))));
                        assert(ous(parts)[0] == o);
                    } else {
                        assert(ous(parts)[i] == rest[i - 1]);
                    }
                },
                None => {},
            }
        }
    }
}

/// Each level of the path is one organisational unit: a slash in a name makes no level of its
/// own.
pub proof fn a_level_is_one_unit(dn: Seq<char>)
    requires
        dn.len() > 0,
        ous(dn_parts(dn)).len() > 0,
    ensures
        text::split_v(ou_path_v(dn), '/') == ous(dn_parts(dn)),
{
    lemma_ous_have_no_slash(dn_parts(dn));
    reveal_strlit("/");
    assert("/"@ =~= seq!['/']);
    crate::text::lemma_split_join(ous(dn_parts(dn)), '/');
}

/// A character that is no printable sign.
pub open spec fn control(c: char) -> bool {
    (c as u32) < 0x20 || 0x7f <= (c as u32) <= 0x9f
}

/// The characters of a text that may stand inside a quoted literal, at most as many as `max`.
pub open spec fn quotable(s: Seq<char>, max: nat) -> Seq<char>
    decreases s.len(),
{
    if s.len() == 0 {
        s
    } else {
        let before = quotable(s.drop_last(), max);
        let c = s.last();
        if before.len() < max && c != '\'' && c != '"' && !control(c) {
            before.push(c)
        } else {
            before
        }
    }
}

/// The characters of a text that may stand inside a quoted literal, at most as many as `max`.
pub fn keep_quotable(s: &str, max: usize) -> (r: String)
    ensures
        r@ == quotable(s@, max as nat),
{
    let v = chars_of(s);
    let mut out = String::new();
    let mut count: usize = 0;
    let mut i: usize = 0;
    assert(out@ =~= quotable(v@.take(0), max as nat));
    while i < v.len()
        invariant
            i <= v@.len(),
            count <= i,
            count == out@.len(),
            out@ == quotable(v@.take(i as int), max as nat),
        decreases v@.len() - i,
    {
        assert(v@.take(i + 1).drop_last() == v@.take(i as int));
        let c: char = v[i];
        let code: u32 = code_of(c);
        if count < max && c != '\'' && c != '"' && !(code < 0x20 || (0x7f <= code && code <= 0x9f)) {
            out.push(c);
            count = count + 1;
        }
        i = i + 1;
    }
    assert(v@.take(i as int) == v@);
    out
}

/// A text that stands inside a quoted literal cannot end it.
pub proof fn a_quoted_name_ends_no_literal(s: Seq<char>, max: nat)
    ensures
        quotable(s, max).len() <= max,
        !quotable(s, max).contains('\''),
        !quotable(s, max).contains('"'),
    decreases s.len(),
{
    if s.len() > 0 {
        a_quoted_name_ends_no_literal(s.drop_last(), max);
        let b = quotable(s.drop_last(), max);
        let q = quotable(s, max);
        assert forall|i: int| 0 <= i < q.len() implies q[i] != '\'' && q[i] != '"' by {
            if i < b.len() {
                assert(q[i] == b[i]);
                assert(b.contains(b[i]));
            }
        }
    }
}

/// The first part of the script that reads a machine's groups, up to the distinguished name.
pub const GROUPS_HEAD: &'static str =
    "$ErrorActionPreference='SilentlyContinue'; try { $e=[adsi]('LDAP://";

/// The rest of the script that reads a machine's groups.
pub const GROUPS_TAIL: &'static str =
    "'); $n=@(@($e.Properties['memberOf']) | ForEach-Object { ([string]$_ -split ',')[0] -replace '^CN=','' }); $b=$e.Properties['objectSid'].Value; $r=$e.Properties['primaryGroupID'].Value; if($null -ne $b -and $null -ne $r) { $d=[System.Security.Principal.SecurityIdentifier]::new($b,0).AccountDomainSid.Value; $p=[adsi]('LDAP://<SID=' + $d + '-' + [int]$r + '>'); $c=[string]$p.Properties['cn'].Value; if($c -and ($n -notcontains $c)) { $n=@($n) + $c } }; ConvertTo-Json -Compress -InputObject @($n) } catch { }";

/// The script that reads the groups of a machine; none where its object is not known.
pub fn groups_script(dn: &str) -> (r: Option<String>)
    ensures
        text::opt_text(r) == (if dn@.len() == 0 {
            None
        } else {
            Some(GROUPS_HEAD@ + quotable(dn@, 512) + GROUPS_TAIL@)
        }),
{
    if dn.is_empty() {
        return None;
    }
    Some(cat3(GROUPS_HEAD, keep_quotable(dn, 512).as_str(), GROUPS_TAIL))
}

/// The texts among values, in their order.
pub open spec fn only_texts(s: Seq<JsonV>) -> Seq<Seq<char>>
    decreases s.len(),
{
    if s.len() == 0 {
        seq![]
    } else {
        let before = only_texts(s.drop_last());
        match s.last().text() {
            Some(t) => before.push(t),
            None => before,
        }
    }
}

/// The texts among values, in their order.
pub fn texts_among(v: &Vec<Json>) -> (r: Vec<String>)
    ensures
        text::texts(r@) == only_texts(json::models(v@)),
{
    let ghost all = json::models(v@);
    let mut out: Vec<String> = Vec::new();
    let mut i: usize = 0;
    assert(text::texts(out@) =~= only_texts(all.take(0)));
    while i < v.len()
        invariant
            i <= v@.len(),
            all == json::models(v@),
            text::texts(out@) == only_texts(all.take(i as int)),
        decreases v@.len() - i,
    {
        assert(all.take(i + 1).drop_last() == all.take(i as int));
        assert(all.take(i + 1).last() == v@[i as int]@);
        if let Some(t) = v[i].as_str() {
            let ghost o = out@;
            out.push(t.to_owned());
            assert(text::texts(out@) =~= text::texts(o).push(t@));
        }
        i = i + 1;
    }
    assert(all.take(i as int) == all);
    out
}

/// The groups of a machine, from what the script printed: a list of texts, or one text. Nothing
/// where the machine's object is not known or nothing could be read.
pub fn computer_groups(dn: &str, printed: &Option<Json>) -> (r: Option<Vec<String>>)
    ensures
        match r {
            Some(g) => dn@.len() > 0 && json::opt_model(*printed) is Some && text::texts(g@) == (match json::opt_model(
                *printed,
            )->0 {
                JsonV::Arr(s) => only_texts(s),
                JsonV::Str(t) => seq![t],
                _ => seq![],
            }),
            None => dn@.len() == 0 || *printed is None,
        },
{
    if dn.is_empty() {
        return None;
    }
    match printed {
        Some(j) => {
            let mut out: Vec<String> = Vec::new();
            if let Some(a) = j.as_array() {
                return Some(texts_among(a));
            }
            if let Some(t) = j.as_str() {
                out.push(t.to_owned());
                assert(text::texts(out@) =~= seq![t@]);
                return Some(out);
            }
            assert(text::texts(out@) =~= Seq::<Seq<char>>::empty());
            Some(out)
        },
        None => None,
    }
}

/// The report with a machine's place in a directory. The suffix of its connection is always
/// there: an empty one says that there is none.
pub open spec fn with_identity(v: JsonV, ad: AdV, dns_suffix: Seq<char>) -> JsonV {
    let a = sync::with_text(v, "domain"@, ad.domain_dns);
    let b = sync::with_text(a, "domain_netbios"@, ad.domain_netbios);
    let c = sync::with_text(b, "ou"@, ad.ou);
    let d = sync::with_text(c, "workgroup"@, ad.workgroup);
    d.with("dns_suffix"@, JsonV::Str(dns_suffix))
}

/// Adds a machine's place in a directory to its report.
pub fn add_identity(v: Json, ad: &AdIdentity, dns_suffix: &str) -> (r: Json)
    requires
        v@ is Obj || v@ is Null,
    ensures
        r@ == with_identity(v@, ad@, dns_suffix@),
{
    let a = put_text(v, "domain", ad.domain_dns.as_str());
    let b = put_text(a, "domain_netbios", ad.domain_netbios.as_str());
    let c = put_text(b, "ou", ad.ou.as_str());
    let d = put_text(c, "workgroup", ad.workgroup.as_str());
    d.with("dns_suffix", Json::text(dns_suffix))
}

/// A machine's domain is the one that it joined, else its own suffix; its short name is that of
/// the domain where it joined one, and else that of the workgroup.
pub proof fn a_machine_is_placed(f: DomainFacts)
    ensures
        f.lsa_dns@.len() > 0 ==> identity_of_facts(f).domain_dns == f.lsa_dns@,
        f.lsa_dns@.len() == 0 ==> identity_of_facts(f).domain_dns == f.dns_domain@,
        f.is_domain ==> identity_of_facts(f).domain_netbios == f.netbios@ && identity_of_facts(
            f,
        ).workgroup.len() == 0,
        !f.is_domain ==> identity_of_facts(f).workgroup == f.netbios@ && identity_of_facts(
            f,
        ).domain_netbios.len() == 0,
        identity_of_facts(f).ou == ou_path_v(f.dn@),
{
}

/// A component of a distinguished name goes on to the next comma that no backslash is before.
pub proof fn components_end_at_plain_commas(a: Seq<char>, b: Seq<char>, c: char)
    requires
        !a.contains('\\'),
        !a.contains(','),
    ensures
        dn_parts(a) == seq![a],
        dn_parts(a + seq![','] + b) == seq![a] + dn_parts(b),
        dn_parts(a + seq!['\\', c] + b) == seq![a + seq!['\\', c] + dn_parts(b)[0]] + dn_parts(
            b,
        ).drop_first(),
        dn_parts(b).len() > 0,
    decreases a.len(),
{
    lemma_some_component(b);
    if a.len() == 0 {
        let none = Seq::<char>::empty();
        assert(a =~= none);
        assert(dn_parts(a) =~= seq![a]);
        let s = a + seq![','] + b;
        assert(s.skip(1) =~= b);
        assert(s[0] == ',');
        assert(dn_parts(s) =~= seq![a] + dn_parts(b));
        let e = a + seq!['\\', c] + b;
        assert(e.take(2) =~= seq!['\\', c]);
        assert(e.skip(2) =~= b);
        assert(e[0] == '\\' && e.len() > 1);
        assert(a + seq!['\\', c] + dn_parts(b)[0] =~= seq!['\\', c] + dn_parts(b)[0]);
        assert(dn_parts(e) =~= seq![a + seq!['\\', c] + dn_parts(b)[0]] + dn_parts(b).drop_first());
    } else {
        let t = a.drop_first();
        assert(a[0] != '\\' && a[0] != ',');
        if t.contains('\\') {
            let i = choose|i: int| 0 <= i < t.len() && t[i] == '\\';
            assert(a[i + 1] == '\\');
        }
        if t.contains(',') {
            let i = choose|i: int| 0 <= i < t.len() && t[i] == ',';
            assert(a[i + 1] == ',');
        }
        components_end_at_plain_commas(t, b, c);
        assert(a.skip(1) =~= t);
        assert(a.take(1) + t =~= a);
        assert(dn_parts(a) =~= seq![a]);
        let s = a + seq![','] + b;
        assert(s.skip(1) =~= t + seq![','] + b);
        assert(s.take(1) =~= a.take(1));
        assert(s[0] == a[0]);
        assert(dn_parts(s) =~= seq![a] + dn_parts(b));
        let e = a + seq!['\\', c] + b;
        assert(e.skip(1) =~= t + seq!['\\', c] + b);
        assert(e.take(1) =~= a.take(1));
        assert(e[0] == a[0]);
        assert(a.take(1) + (t + seq!['\\', c] + dn_parts(b)[0]) =~= a + seq!['\\', c] + dn_parts(
            b,
        )[0]);
        assert(dn_parts(e) =~= seq![a + seq!['\\', c] + dn_parts(b)[0]] + dn_parts(b).drop_first());
    }
}

proof fn lemma_some_component(s: Seq<char>)
    ensures
        dn_parts(s).len() > 0,
    decreases s.len(),
{
    if s.len() > 0 {
        if s[0] == '\\' && s.len() > 1 {
            lemma_some_component(s.skip(2));
        } else {
            lemma_some_component(s.skip(1));
        }
    }
}

/// A backslash stands for nothing but that the sign behind it is meant as it is.
pub proof fn an_escaped_sign_stands_for_itself(a: Seq<char>, c: char, b: Seq<char>)
    requires
        !a.contains('\\'),
    ensures
        unescaped(a) == a,
        unescaped(a + seq!['\\', c] + b) == a + seq![c] + unescaped(b),
        unescaped(a + seq!['\\']) == a,
    decreases a.len(),
{
    let e = a + seq!['\\', c] + b;
    let d = a + seq!['\\'];
    if a.len() == 0 {
        assert(e.skip(2) =~= b);
        assert(e[0] == '\\' && e[1] == c);
        assert(unescaped(e) =~= a + seq![c] + unescaped(b));
        assert(d[0] == '\\' && d.len() == 1);
        assert(unescaped(d) =~= a);
    } else {
        let t = a.drop_first();
        assert(a[0] != '\\');
        if t.contains('\\') {
            let i = choose|i: int| 0 <= i < t.len() && t[i] == '\\';
            assert(a[i + 1] == '\\');
        }
        an_escaped_sign_stands_for_itself(t, c, b);
        assert(a.skip(1) =~= t);
        assert(unescaped(a) =~= a);
        assert(e.skip(1) =~= t + seq!['\\', c] + b);
        assert(unescaped(e) =~= a + seq![c] + unescaped(b));
        assert(d.skip(1) =~= t + seq!['\\']);
        assert(unescaped(d) =~= a);
    }
}

/// The units of a name are read from its end, the outermost first; other components do not
/// count.
pub proof fn units_are_read_from_the_end(a: Seq<Seq<char>>, b: Seq<Seq<char>>)
    ensures
        ous(a + b) == ous(b) + ous(a),
    decreases b.len(),
{
    if b.len() == 0 {
        assert(a + b =~= a);
        assert(ous(a + b) =~= ous(b) + ous(a));
    } else {
        let t = b.drop_last();
        units_are_read_from_the_end(a, t);
        assert((a + b).drop_last() =~= a + t);
        assert((a + b).last() == b.last());
        assert(ous(a + b) =~= ous(b) + ous(a));
    }
}

/// A component is a unit where it begins with `OU=` or `ou=`, and its name is what follows, with
/// its escapes undone and no slash.
pub proof fn a_unit_is_named(name: Seq<char>, part: Seq<char>)
    requires
        !name.contains('\\'),
        !name.contains('/'),
        text::trim_v("OU="@ + name) == "OU="@ + name,
        text::trim_v("CN="@ + name) == "CN="@ + name,
    ensures
        ou_of("OU="@ + name) == Some(name),
        ou_of("CN="@ + name) is None,
        ous(seq!["OU="@ + name]) == seq![name],
        ous(seq!["CN="@ + name]) == Seq::<Seq<char>>::empty(),
        ou_of(part) is Some ==> !(ou_of(part)->0).contains('/'),
{
    reveal_strlit("OU=");
    reveal_strlit("CN=");
    reveal_strlit("ou=");
    let p = "OU="@ + name;
    let q = "CN="@ + name;
    assert(p.skip(3) =~= name);
    assert(p.take(3) =~= "OU="@);
    assert(q[0] == 'C');
    assert("OU="@[0] == 'O' && "ou="@[0] == 'o');
    if text::prefixed(q, "OU="@) {
        assert(q[0] == q.take(3)[0]);
    }
    if text::prefixed(q, "ou="@) {
        assert(q[0] == q.take(3)[0]);
    }
    an_escaped_sign_stands_for_itself(name, 'x', name);
    assert(sanitized(name) =~= name) by {
        assert forall|i: int| 0 <= i < name.len() implies slash_sign(name[i]) == name[i] by {
            if name[i] == '/' {
                assert(name.contains('/'));
            }
        }
    }
    let none = Seq::<Seq<char>>::empty();
    assert(seq![p].drop_last() =~= none);
    assert(seq![q].drop_last() =~= none);
    assert(ous(none) =~= none);
    assert(ous(seq![p]) =~= seq![name]);
    assert(ous(seq![q]) =~= none);
    if ou_of(part) is Some {
        let u = unescaped(text::trim_v(part).skip(3));
        if sanitized(u).contains('/') {
            let i = choose|i: int| 0 <= i < sanitized(u).len() && sanitized(u)[i] == '/';
            assert(slash_sign(u[i]) == '/');
        }
    }
}

/// A text without quotes and control signs is quoted whole, where it is short enough; else its
/// beginning is.
pub proof fn a_plain_name_is_quoted_whole(s: Seq<char>, max: nat)
    requires
        forall|i: int|
            0 <= i < s.len() ==> (#[trigger] s[i]) != '\'' && s[i] != '"' && 32 <= (s[i] as u32)
                && (s[i] as u32) != 127 && !(127 < (s[i] as u32) <= 159),
    ensures
        quotable(s, max) == (if s.len() <= max {
            s
        } else {
            s.take(max as int)
        }),
    decreases s.len(),
{
    if s.len() > 0 {
        let t = s.drop_last();
        assert forall|i: int| 0 <= i < t.len() implies (#[trigger] t[i]) != '\'' && t[i] != '"'
            && 32 <= (t[i] as u32) && (t[i] as u32) != 127 && !(127 < (t[i] as u32) <= 159) by {
            assert(t[i] == s[i]);
        }
        a_plain_name_is_quoted_whole(t, max);
        let c = s[s.len() - 1];
        assert(s.last() == c);
        assert(!control(c));
        if t.len() < max {
            assert(t.push(s.last()) =~= s);
        } else if t.len() == max {
            assert(s.take(max as int) =~= t);
        } else {
            assert(s.take(max as int) =~= t.take(max as int));
        }
    } else {
        assert(quotable(s, max) =~= s);
    }
}

/// The groups are the texts of what was printed, in their order.
pub proof fn every_group_is_listed(s: Seq<JsonV>)
    ensures
        only_texts(s) == s.filter(|v: JsonV| v is Str).map_values(|v: JsonV| v->Str_0),
    decreases s.len(),
{
    let g = |v: JsonV| v is Str;
    let h = |v: JsonV| v->Str_0;
    reveal(Seq::filter);
    if s.len() > 0 {
        let p = s.drop_last();
        every_group_is_listed(p);
        if g(s.last()) {
            assert(s.filter(g) == p.filter(g).push(s.last()));
            assert(s.filter(g).map_values(h) =~= p.filter(g).map_values(h).push(h(s.last())));
        }
    }
    assert(only_texts(s) =~= s.filter(g).map_values(h));
}

/// What a report says of the machine's place; a text that is empty is left out, but for the
/// suffix.
pub proof fn a_report_says_where_the_machine_is(v: JsonV, ad: AdV, suffix: Seq<char>)
    ensures
        ({
            let r = with_identity(v, ad, suffix);
            &&& ad.domain_dns.len() > 0 ==> r.member("domain"@) == Some(JsonV::Str(ad.domain_dns))
            &&& ad.domain_netbios.len() > 0 ==> r.member("domain_netbios"@) == Some(
                JsonV::Str(ad.domain_netbios),
            )
            &&& ad.ou.len() > 0 ==> r.member("ou"@) == Some(JsonV::Str(ad.ou))
            &&& ad.workgroup.len() > 0 ==> r.member("workgroup"@) == Some(JsonV::Str(ad.workgroup))
            &&& r.member("dns_suffix"@) == Some(JsonV::Str(suffix))
            &&& ad.domain_dns.len() == 0 ==> r.member("domain"@) == v.member("domain"@)
            &&& ad.ou.len() == 0 ==> r.member("ou"@) == v.member("ou"@)
            &&& ad.workgroup.len() == 0 ==> r.member("workgroup"@) == v.member("workgroup"@)
            &&& ad.domain_netbios.len() == 0 ==> r.member("domain_netbios"@) == v.member(
                "domain_netbios"@,
            )
        }),
{
    reveal_strlit("domain");
    reveal_strlit("domain_netbios");
    reveal_strlit("ou");
    reveal_strlit("workgroup");
    reveal_strlit("dns_suffix");
    assert("ou"@.len() == 2);
    assert("domain"@.len() == 6);
    assert("workgroup"@.len() == 9);
    assert("dns_suffix"@.len() == 10);
    assert("domain_netbios"@.len() == 14);
}

/// A slash in a name becomes another sign, and nothing else changes.
pub proof fn only_slashes_are_replaced(s: Seq<char>, i: int)
    requires
        0 <= i < s.len(),
    ensures
        sanitized(s).len() == s.len(),
        s[i] != '/' ==> sanitized(s)[i] == s[i],
        s[i] == '/' ==> sanitized(s)[i] == '\u{2215}',
{
}

} // verus!
