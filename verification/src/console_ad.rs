//! A machine's place in a directory as the console's first clients report it: a workgroup or a
//! domain, and the units that a comma separates.
use vstd::prelude::*;

use crate::ad;
use crate::text;
use crate::ad::unescape_dn;
use crate::text::{join, split, strip_prefix, trim};

verus! {

/// A machine's place in a directory. What is not known is empty.
pub struct AdIdentity {
    /// The domain.
    pub domain_dns: String,
    /// The short name of the domain.
    pub domain_netbios: String,
    /// The path of the organisational units.
    pub ou: String,
    /// The workgroup of a machine that joined no domain.
    pub workgroup: String,
}

/// What the system says of the machine's domain.
pub struct LocalDomain {
    /// The machine's domain suffix.
    pub dns_domain: String,
    /// The short name of the domain, or the name of the workgroup.
    pub name: String,
    /// Whether the machine joined a domain.
    pub is_domain: bool,
    /// The distinguished name of the machine's object.
    pub dn: String,
}

/// The name of an organisational unit, where a component is one.
pub open spec fn unit_of(part: Seq<char>) -> Option<Seq<char>> {
    let p = text::trim_v(part);
    if text::prefixed(p, "OU="@) || text::prefixed(p, "ou="@) {
        Some(ad::unescaped(p.skip(3)))
    } else {
        None
    }
}

/// The organisational units among components, the last one first.
pub open spec fn units(parts: Seq<Seq<char>>) -> Seq<Seq<char>>
    decreases parts.len(),
{
    if parts.len() == 0 {
        seq![]
    } else {
        let rest = units(parts.drop_last());
        match unit_of(parts.last()) {
            Some(o) => seq![o] + rest,
            None => rest,
        }
    }
}

/// The path of the organisational units in a distinguished name.
pub open spec fn unit_path(dn: Seq<char>) -> Seq<char> {
    if dn.len() == 0 {
        seq![]
    } else {
        text::join_v(units(text::split_v(dn, ',')), "/"@)
    }
}

fn read_unit(part: &str) -> (r: Option<String>)
    ensures
        text::opt_text(r) == unit_of(part@),
{
    proof {
        reveal_strlit("OU=");
        reveal_strlit("ou=");
    }
    let p = trim(part);
    match strip_prefix(p.as_str(), "OU=") {
        Some(x) => Some(unescape_dn(x.as_str())),
        None => match strip_prefix(p.as_str(), "ou=") {
            Some(x) => Some(unescape_dn(x.as_str())),
            None => None,
        },
    }
}

/// The path of the organisational units in a distinguished name:
/// `CN=WS01,OU=Workstations,OU=Sales,DC=corp` gives `Sales/Workstations`.
pub fn unit_path_of(dn: &str) -> (r: String)
    ensures
        r@ == unit_path(dn@),
{
    if dn.is_empty() {
        let none = String::new();
        assert(none@ =~= seq![]);
        return none;
    }
    let parts = split(dn, ',');
    let ghost all = text::texts(parts@);
    let mut found: Vec<String> = Vec::new();
    let mut n: usize = parts.len();
    assert(all.take(n as int) =~= all);
    assert(text::texts(found@) + units(all) =~= units(all));
    while n > 0
        invariant
            n <= parts@.len(),
            all == text::texts(parts@),
            text::texts(found@) + units(all.take(n as int)) == units(all),
        decreases n,
    {
        let k: usize = n - 1;
        let ghost o = text::texts(found@);
        assert(all.take(n as int).drop_last() =~= all.take(k as int));
        assert(all.take(n as int).last() == parts@[k as int]@);
        match read_unit(parts[k].as_str()) {
            Some(x) => {
                let ghost xv = x@;
                let ghost f = found@;
                found.push(x);
                assert(text::texts(found@) =~= text::texts(f).push(xv));
                assert(o + (seq![xv] + units(all.take(k as int))) =~= text::texts(found@) + units(
                    all.take(k as int),
                ));
            },
            None => {},
        }
        n = k;
    }
    assert(text::texts(found@) =~= units(all)) by {
        assert(units(all.take(0)) =~= Seq::<Seq<char>>::empty());
    }
    join(&found, "/")
}

/// A machine's place in a directory. One that joined no domain has a workgroup and nothing else.
pub fn ad_identity(f: &LocalDomain) -> (r: AdIdentity)
    ensures
        f.is_domain ==> r.domain_dns@ == f.dns_domain@ && r.domain_netbios@ == f.name@ && r.ou@
            == unit_path(f.dn@) && r.workgroup@.len() == 0,
        !f.is_domain ==> r.domain_dns@.len() == 0 && r.domain_netbios@.len() == 0 && r.ou@.len()
            == 0 && r.workgroup@ == f.name@,
{
    if f.is_domain {
        AdIdentity {
            domain_dns: f.dns_domain.clone(),
            domain_netbios: f.name.clone(),
            ou: unit_path_of(f.dn.as_str()),
            workgroup: String::new(),
        }
    } else {
        AdIdentity {
            domain_dns: String::new(),
            domain_netbios: String::new(),
            ou: String::new(),
            workgroup: f.name.clone(),
        }
    }
}

/// The units of a name are read from its end, the outermost first.
pub proof fn units_are_read_from_the_end(a: Seq<Seq<char>>, b: Seq<Seq<char>>)
    ensures
        units(a + b) == units(b) + units(a),
    decreases b.len(),
{
    if b.len() == 0 {
        assert(a + b =~= a);
        assert(units(a + b) =~= units(b) + units(a));
    } else {
        let t = b.drop_last();
        units_are_read_from_the_end(a, t);
        assert((a + b).drop_last() =~= a + t);
        assert((a + b).last() == b.last());
        assert(units(a + b) =~= units(b) + units(a));
    }
}

/// A component is a unit where it begins with `OU=` or `ou=`, and its name is what follows, with
/// its escapes undone.
pub proof fn a_unit_is_named(name: Seq<char>)
    requires
        !name.contains('\\'),
        text::trim_v("OU="@ + name) == "OU="@ + name,
        text::trim_v("ou="@ + name) == "ou="@ + name,
        text::trim_v("CN="@ + name) == "CN="@ + name,
    ensures
        units(seq!["OU="@ + name]) == seq![name],
        units(seq!["ou="@ + name]) == seq![name],
        units(seq!["CN="@ + name]) == Seq::<Seq<char>>::empty(),
{
    reveal_strlit("OU=");
    reveal_strlit("CN=");
    reveal_strlit("ou=");
    let p = "OU="@ + name;
    let q = "CN="@ + name;
    let o = "ou="@ + name;
    assert(p.skip(3) =~= name);
    assert(p.take(3) =~= "OU="@);
    assert(o.skip(3) =~= name);
    assert(o.take(3) =~= "ou="@);
    assert(q[0] == 'C');
    assert("OU="@[0] == 'O' && "ou="@[0] == 'o');
    if text::prefixed(q, "OU="@) {
        assert(q[0] == q.take(3)[0]);
    }
    if text::prefixed(q, "ou="@) {
        assert(q[0] == q.take(3)[0]);
    }
    crate::ad::an_escaped_sign_stands_for_itself(name, 'x', name);
    let none = Seq::<Seq<char>>::empty();
    assert(seq![p].drop_last() =~= none);
    assert(seq![q].drop_last() =~= none);
    assert(seq![o].drop_last() =~= none);
    assert(units(none) =~= none);
    assert(units(seq![p]) =~= seq![name]);
    assert(units(seq![o]) =~= seq![name]);
    assert(units(seq![q]) =~= none);
}

/// A name that is no text has no path; any other has its units between slashes.
pub proof fn a_path_holds_the_units(dn: Seq<char>)
    ensures
        dn.len() == 0 ==> unit_path(dn).len() == 0,
        dn.len() > 0 ==> unit_path(dn) == text::join_v(units(text::split_v(dn, ',')), "/"@),
{
}

} // verus!
