//! A machine's inventory: its hardware, its addresses and what is installed on it.
use vstd::prelude::*;

use crate::ad;
use crate::json;
use crate::num;
use crate::text;
use crate::ad::texts_among;
use crate::json::{text_array, Json, JsonV};
use crate::num::dec_u64;
use crate::policy::Overrides;
use crate::scripts::{WATCHED_HEAD, WATCHED_TAIL};
use crate::smbios::Smbios;
use crate::text::{
    cat3, chars_of, eq_ignore_case, is_blank, join, less, same, to_lowercase, trim, trim_end,
};

verus! {

/// A list with an element that it holds once.
pub open spec fn add_unique<A>(s: Seq<A>, x: A) -> Seq<A> {
    if s.contains(x) {
        s
    } else {
        s.push(x)
    }
}

proof fn lemma_texts_contains(v: Seq<String>, x: Seq<char>)
    ensures
        text::texts(v).contains(x) == exists|i: int| 0 <= i < v.len() && (#[trigger] v[i])@ == x,
{
    if text::texts(v).contains(x) {
        let i = choose|i: int| 0 <= i < text::texts(v).len() && text::texts(v)[i] == x;
        assert(v[i]@ == x);
    }
    if exists|i: int| 0 <= i < v.len() && (#[trigger] v[i])@ == x {
        let i = choose|i: int| 0 <= i < v.len() && (#[trigger] v[i])@ == x;
        assert(text::texts(v)[i] == x);
    }
}

/// Adds a text to a list that holds each once.
pub fn push_unique(v: &mut Vec<String>, s: &str)
    ensures
        text::texts(final(v)@) == add_unique(text::texts(old(v)@), s@),
{
    let ghost o = v@;
    let mut i: usize = 0;
    while i < v.len()
        invariant
            i <= v@.len(),
            v@ == o,
            forall|k: int| 0 <= k < i ==> (#[trigger] v@[k])@ != s@,
        decreases v@.len() - i,
    {
        if same(v[i].as_str(), s) {
            proof {
                lemma_texts_contains(v@, s@);
            }
            return;
        }
        i = i + 1;
    }
    proof {
        lemma_texts_contains(v@, s@);
    }
    v.push(s.to_owned());
    assert(text::texts(v@) =~= text::texts(o).push(s@));
}

/// An address of the fourth version.
pub struct V4 {
    pub a: u8,
    pub b: u8,
    pub c: u8,
    pub d: u8,
}

/// An address of the sixth version: its first group, whether it is the machine itself, and its
/// text.
pub struct V6 {
    pub first: u16,
    pub loopback: bool,
    pub text: String,
}

/// A network interface.
pub struct Interface {
    pub mac: Option<String>,
    pub v4: Vec<V4>,
    pub v6: Vec<V6>,
}

/// The address as it is written.
pub open spec fn dotted(a: V4) -> Seq<char> {
    num::dec(a.a as nat) + "."@ + num::dec(a.b as nat) + "."@ + num::dec(a.c as nat) + "."@ + num::dec(a.d as nat)
}

/// The address is the machine itself.
pub open spec fn v4_loopback(a: V4) -> bool {
    a.a == 127
}

/// The address is one of a private network.
pub open spec fn v4_private(a: V4) -> bool {
    a.a == 10 || (a.a == 172 && 16 <= a.b <= 31) || (a.a == 192 && a.b == 168)
}

/// The address holds on its link only.
pub open spec fn v4_link_local(a: V4) -> bool {
    a.a == 169 && a.b == 254
}

/// The address names many machines.
pub open spec fn v6_multicast(first: u16) -> bool {
    first >= 0xff00
}

/// The address holds on its link or in its site only.
pub open spec fn v6_private(first: u16) -> bool {
    0xfe80 <= first <= 0xfebf || 0xfc00 <= first <= 0xfdff
}

/// The addresses of a machine.
pub struct NetV {
    pub v4_private: Seq<Seq<char>>,
    pub v4_public: Seq<Seq<char>>,
    pub v6_private: Seq<Seq<char>>,
    pub v6_public: Seq<Seq<char>>,
    pub mac: Option<Seq<char>>,
}

/// A hardware address that names an adapter.
pub open spec fn usable_mac(mac: Option<Seq<char>>) -> Option<Seq<char>> {
    match mac {
        Some(m) => if m.len() > 0 && m != "00:00:00:00:00:00"@ {
            Some(m)
        } else {
            None
        },
        None => None,
    }
}

/// The addresses with one more of the fourth version. The first adapter with a private one gives
/// the hardware address.
pub open spec fn with_v4(n: NetV, a: V4, mac: Option<Seq<char>>) -> NetV {
    if v4_loopback(a) {
        n
    } else if v4_private(a) || v4_link_local(a) {
        NetV {
            v4_private: add_unique(n.v4_private, dotted(a)),
            mac: if v4_private(a) && n.mac is None {
                usable_mac(mac)
            } else {
                n.mac
            },
            ..n
        }
    } else {
        NetV { v4_public: add_unique(n.v4_public, dotted(a)), ..n }
    }
}

/// The addresses with one more of the sixth version.
pub open spec fn with_v6(n: NetV, a: V6) -> NetV {
    if a.loopback || v6_multicast(a.first) {
        n
    } else if v6_private(a.first) {
        NetV { v6_private: add_unique(n.v6_private, a.text@), ..n }
    } else {
        NetV { v6_public: add_unique(n.v6_public, a.text@), ..n }
    }
}

/// The addresses with those of the fourth version of an adapter.
pub open spec fn with_v4s(n: NetV, s: Seq<V4>, mac: Option<Seq<char>>) -> NetV
    decreases s.len(),
{
    if s.len() == 0 {
        n
    } else {
        with_v4(with_v4s(n, s.drop_last(), mac), s.last(), mac)
    }
}

/// The addresses with those of the sixth version of an adapter.
pub open spec fn with_v6s(n: NetV, s: Seq<V6>) -> NetV
    decreases s.len(),
{
    if s.len() == 0 {
        n
    } else {
        with_v6(with_v6s(n, s.drop_last()), s.last())
    }
}

/// No addresses.
pub open spec fn no_net() -> NetV {
    NetV { v4_private: seq![], v4_public: seq![], v6_private: seq![], v6_public: seq![], mac: None }
}

/// The addresses of adapters.
pub open spec fn net_of(s: Seq<Interface>) -> NetV
    decreases s.len(),
{
    if s.len() == 0 {
        no_net()
    } else {
        let i = s.last();
        with_v6s(with_v4s(net_of(s.drop_last()), i.v4@, text::opt_text(i.mac)), i.v6@)
    }
}

/// The addresses of a machine.
pub struct Net {
    pub v4_private: Vec<String>,
    pub v4_public: Vec<String>,
    pub v6_private: Vec<String>,
    pub v6_public: Vec<String>,
    pub mac: Option<String>,
}

impl View for Net {
    type V = NetV;

    open spec fn view(&self) -> NetV {
        NetV {
            v4_private: text::texts(self.v4_private@),
            v4_public: text::texts(self.v4_public@),
            v6_private: text::texts(self.v6_private@),
            v6_public: text::texts(self.v6_public@),
            mac: text::opt_text(self.mac),
        }
    }
}

fn write_v4(a: &V4) -> (r: String)
    ensures
        r@ == dotted(*a),
{
    dec_u64(a.a as u64).concat(".").concat(dec_u64(a.b as u64).as_str()).concat(".").concat(
        dec_u64(a.c as u64).as_str(),
    ).concat(".").concat(dec_u64(a.d as u64).as_str())
}

fn add_v4(n: &mut Net, a: &V4, mac: &Option<String>)
    ensures
        final(n)@ == with_v4(old(n)@, *a, text::opt_text(*mac)),
{
    if a.a == 127 {
        return;
    }
    let private = a.a == 10 || (a.a == 172 && 16 <= a.b && a.b <= 31) || (a.a == 192 && a.b == 168);
    let text = write_v4(a);
    if private || (a.a == 169 && a.b == 254) {
        if private && n.mac.is_none() {
            n.mac = match mac {
                Some(m) => if !m.as_str().is_empty() && !same(m.as_str(), "00:00:00:00:00:00") {
                    Some(m.clone())
                } else {
                    None
                },
                None => None,
            };
        }
        push_unique(&mut n.v4_private, text.as_str());
    } else {
        push_unique(&mut n.v4_public, text.as_str());
    }
}

fn add_v6(n: &mut Net, a: &V6)
    ensures
        final(n)@ == with_v6(old(n)@, *a),
{
    if a.loopback || a.first >= 0xff00 {
        return;
    }
    if (0xfe80 <= a.first && a.first <= 0xfebf) || (0xfc00 <= a.first && a.first <= 0xfdff) {
        push_unique(&mut n.v6_private, a.text.as_str());
    } else {
        push_unique(&mut n.v6_public, a.text.as_str());
    }
}

/// The addresses of adapters, each once: private and public ones apart, and none of the machine
/// itself.
pub fn addresses(interfaces: &Vec<Interface>) -> (r: Net)
    ensures
        r@ == net_of(interfaces@),
{
    let mut n = Net {
        v4_private: Vec::new(),
        v4_public: Vec::new(),
        v6_private: Vec::new(),
        v6_public: Vec::new(),
        mac: None,
    };
    assert(n@.v4_private =~= seq![] && n@.v4_public =~= seq![] && n@.v6_private =~= seq![]
        && n@.v6_public =~= seq![]);
    let mut i: usize = 0;
    while i < interfaces.len()
        invariant
            i <= interfaces@.len(),
            n@ == net_of(interfaces@.take(i as int)),
        decreases interfaces@.len() - i,
    {
        assert(interfaces@.take(i + 1).drop_last() == interfaces@.take(i as int));
        let f = &interfaces[i];
        let ghost before = n@;
        let mut k: usize = 0;
        while k < f.v4.len()
            invariant
                k <= f.v4@.len(),
                n@ == with_v4s(before, f.v4@.take(k as int), text::opt_text(f.mac)),
            decreases f.v4@.len() - k,
        {
            assert(f.v4@.take(k + 1).drop_last() == f.v4@.take(k as int));
            add_v4(&mut n, &f.v4[k], &f.mac);
            k = k + 1;
        }
        assert(f.v4@.take(k as int) == f.v4@);
        let ghost middle = n@;
        let mut m: usize = 0;
        while m < f.v6.len()
            invariant
                m <= f.v6@.len(),
                n@ == with_v6s(middle, f.v6@.take(m as int)),
            decreases f.v6@.len() - m,
        {
            assert(f.v6@.take(m + 1).drop_last() == f.v6@.take(m as int));
            add_v6(&mut n, &f.v6[m]);
            m = m + 1;
        }
        assert(f.v6@.take(m as int) == f.v6@);
        i = i + 1;
    }
    assert(interfaces@.take(i as int) == interfaces@);
    n
}

/// What the directory and the adapters say of a machine on Windows.
pub struct NetExtras {
    pub dns_suffixes: Vec<String>,
    pub dn: String,
    pub groups: Option<Vec<String>>,
}

/// A machine's network.
pub open spec fn network_v(
    hostname: Seq<char>,
    n: NetV,
    extras: Option<(Seq<Seq<char>>, Seq<char>, Option<Seq<Seq<char>>>)>,
) -> JsonV {
    let base = JsonV::empty().with("hostname"@, JsonV::Str(hostname)).with(
        "ipv4_private"@,
        json::text_list(n.v4_private),
    ).with("ipv4_public"@, json::text_list(n.v4_public)).with(
        "ipv6_private"@,
        json::text_list(n.v6_private),
    ).with("ipv6_public"@, json::text_list(n.v6_public));
    let addressed = match n.mac {
        Some(m) => base.with("mac"@, JsonV::Str(m)),
        None => base,
    };
    match extras {
        Some(e) => {
            let suffixed = addressed.with("dns_suffixes"@, json::text_list(e.0));
            if e.1.len() == 0 {
                suffixed
            } else {
                let named = suffixed.with("dn"@, JsonV::Str(e.1));
                match e.2 {
                    Some(g) => named.with("ad_groups"@, json::text_list(g)),
                    None => named,
                }
            }
        },
        None => addressed,
    }
}

/// The model of the extras of a network.
pub open spec fn extras_v(e: Option<NetExtras>) -> Option<
    (Seq<Seq<char>>, Seq<char>, Option<Seq<Seq<char>>>),
> {
    match e {
        Some(x) => Some(
            (
                text::texts(x.dns_suffixes@),
                x.dn@,
                match x.groups {
                    Some(g) => Some(text::texts(g@)),
                    None => None,
                },
            ),
        ),
        None => None,
    }
}

/// A machine's network: its name, its addresses and, on Windows, its suffixes, its object and its
/// groups.
pub fn network(hostname: &str, interfaces: &Vec<Interface>, extras: &Option<NetExtras>) -> (r: Json)
    ensures
        r@ == network_v(hostname@, net_of(interfaces@), extras_v(*extras)),
{
    let n = addresses(interfaces);
    let mut out = Json::object().with("hostname", Json::text(hostname)).with(
        "ipv4_private",
        text_array(&n.v4_private),
    ).with("ipv4_public", text_array(&n.v4_public)).with(
        "ipv6_private",
        text_array(&n.v6_private),
    ).with("ipv6_public", text_array(&n.v6_public));
    if let Some(m) = &n.mac {
        out = out.with("mac", Json::text(m.as_str()));
    }
    if let Some(e) = extras {
        out = out.with("dns_suffixes", text_array(&e.dns_suffixes));
        if !e.dn.as_str().is_empty() {
            out = out.with("dn", Json::text(e.dn.as_str()));
            if let Some(g) = &e.groups {
                out = out.with("ad_groups", text_array(g));
            }
        }
    }
    out
}

/// A list that holds each element once.
pub open spec fn distinct<A>(s: Seq<A>) -> bool {
    forall|i: int, j: int| 0 <= i < j < s.len() ==> #[trigger] s[i] != #[trigger] s[j]
}

proof fn lemma_add_unique<A>(s: Seq<A>, x: A)
    requires
        distinct(s),
    ensures
        distinct(add_unique(s, x)),
{
    if !s.contains(x) {
        let t = s.push(x);
        assert forall|i: int, j: int| 0 <= i < j < t.len() implies #[trigger] t[i]
            != #[trigger] t[j] by {
            if j == s.len() {
                assert(t[i] == s[i]);
                assert(s.contains(s[i]));
            } else {
                assert(t[i] == s[i] && t[j] == s[j]);
            }
        }
    }
}

/// The four lists hold each address once.
pub open spec fn net_distinct(n: NetV) -> bool {
    distinct(n.v4_private) && distinct(n.v4_public) && distinct(n.v6_private) && distinct(
        n.v6_public,
    )
}

proof fn lemma_v4s_distinct(n: NetV, s: Seq<V4>, mac: Option<Seq<char>>)
    requires
        net_distinct(n),
    ensures
        net_distinct(with_v4s(n, s, mac)),
    decreases s.len(),
{
    if s.len() > 0 {
        lemma_v4s_distinct(n, s.drop_last(), mac);
        let b = with_v4s(n, s.drop_last(), mac);
        lemma_add_unique(b.v4_private, dotted(s.last()));
        lemma_add_unique(b.v4_public, dotted(s.last()));
    }
}

proof fn lemma_v6s_distinct(n: NetV, s: Seq<V6>)
    requires
        net_distinct(n),
    ensures
        net_distinct(with_v6s(n, s)),
    decreases s.len(),
{
    if s.len() > 0 {
        lemma_v6s_distinct(n, s.drop_last());
        let b = with_v6s(n, s.drop_last());
        lemma_add_unique(b.v6_private, s.last().text@);
        lemma_add_unique(b.v6_public, s.last().text@);
    }
}

/// No list of addresses holds one twice.
pub proof fn addresses_are_listed_once(s: Seq<Interface>)
    ensures
        net_distinct(net_of(s)),
    decreases s.len(),
{
    if s.len() > 0 {
        addresses_are_listed_once(s.drop_last());
        let b = net_of(s.drop_last());
        lemma_v4s_distinct(b, s.last().v4@, text::opt_text(s.last().mac));
        lemma_v6s_distinct(with_v4s(b, s.last().v4@, text::opt_text(s.last().mac)), s.last().v6@);
    }
}

/// What the registry says of an adapter.
pub struct Adapter {
    /// The address that it was given.
    pub dhcp_ip: String,
    /// The length of the list of its fixed addresses, in bytes.
    pub fixed_bytes: usize,
    /// Its own suffix.
    pub domain: String,
    /// The suffix that it was given.
    pub dhcp_domain: String,
}

/// The adapter has an address that it was given.
pub open spec fn leased(a: Adapter) -> bool {
    a.dhcp_ip@.len() > 0 && a.dhcp_ip@ != "0.0.0.0"@
}

/// The suffix of an adapter: its own before the one that it was given, and none without an
/// address.
pub open spec fn suffix_of(a: Adapter) -> Seq<char> {
    let own = text::trim_v(a.domain@);
    if own.len() > 0 && (leased(a) || a.fixed_bytes > 4) {
        own
    } else if leased(a) {
        text::trim_v(a.dhcp_domain@)
    } else {
        seq![]
    }
}

/// A list holds a text in any case.
pub open spec fn holds_text(s: Seq<Seq<char>>, x: Seq<char>) -> bool {
    exists|i: int| 0 <= i < s.len() && text::same_ignoring_case(#[trigger] s[i], x)
}

/// The most suffixes that are listed.
pub const MAX_SUFFIXES: usize = 8;

/// The suffixes of adapters, from a list on, up to the most that are listed.
pub open spec fn suffixes_v(found: Seq<Seq<char>>, s: Seq<Adapter>) -> Seq<Seq<char>>
    decreases s.len(),
{
    if s.len() == 0 {
        found
    } else {
        let x = suffix_of(s[0]);
        if x.len() == 0 || holds_text(found, x) {
            suffixes_v(found, s.drop_first())
        } else if found.len() + 1 >= MAX_SUFFIXES {
            found.push(x)
        } else {
            suffixes_v(found.push(x), s.drop_first())
        }
    }
}

fn suffix(a: &Adapter) -> (r: String)
    ensures
        r@ == suffix_of(*a),
{
    let dhcp = !a.dhcp_ip.as_str().is_empty() && !same(a.dhcp_ip.as_str(), "0.0.0.0");
    let own = trim(a.domain.as_str());
    if !own.as_str().is_empty() && (dhcp || a.fixed_bytes > 4) {
        own
    } else if dhcp {
        trim(a.dhcp_domain.as_str())
    } else {
        let none = String::new();
        assert(none@ =~= seq![]);
        none
    }
}

fn has_text(v: &Vec<String>, x: &str) -> (r: bool)
    ensures
        r == holds_text(text::texts(v@), x@),
{
    let ghost all = text::texts(v@);
    let mut i: usize = 0;
    while i < v.len()
        invariant
            i <= v@.len(),
            all == text::texts(v@),
            forall|k: int| 0 <= k < i ==> !text::same_ignoring_case(#[trigger] all[k], x@),
        decreases v@.len() - i,
    {
        assert(all[i as int] == v@[i as int]@);
        if eq_ignore_case(v[i].as_str(), x) {
            return true;
        }
        i = i + 1;
    }
    false
}

/// The suffixes of the adapters that have an address, each once in whatever case.
pub fn dns_suffixes(adapters: &Vec<Adapter>) -> (r: Vec<String>)
    ensures
        text::texts(r@) == suffixes_v(seq![], adapters@),
{
    let mut out: Vec<String> = Vec::new();
    let mut i: usize = 0;
    assert(text::texts(out@) =~= seq![]);
    assert(adapters@.skip(0) =~= adapters@);
    while i < adapters.len()
        invariant
            i <= adapters@.len(),
            suffixes_v(text::texts(out@), adapters@.skip(i as int)) == suffixes_v(seq![], adapters@),
        decreases adapters@.len() - i,
    {
        let ghost rest = adapters@.skip(i as int);
        assert(rest[0] == adapters@[i as int]);
        assert(rest.drop_first() =~= adapters@.skip(i + 1));
        let x = suffix(&adapters[i]);
        if !x.as_str().is_empty() && !has_text(&out, x.as_str()) {
            let ghost o = out@;
            let ghost xv = x@;
            out.push(x);
            assert(text::texts(out@) =~= text::texts(o).push(xv));
            if out.len() >= MAX_SUFFIXES {
                return out;
            }
        }
        i = i + 1;
    }
    assert(adapters@.skip(i as int) =~= Seq::<Adapter>::empty());
    out
}

/// The first suffix that is not blank.
pub open spec fn first_suffix(s: Seq<Seq<char>>) -> Seq<char>
    decreases s.len(),
{
    if s.len() == 0 {
        seq![]
    } else if text::trim_v(s[0]).len() > 0 {
        s[0]
    } else {
        first_suffix(s.drop_first())
    }
}

/// The suffix by which a machine is grouped that joined no domain: the first of its adapters;
/// empty where there is none.
pub fn primary_dns_suffix(adapters: &Vec<Adapter>) -> (r: String)
    ensures
        r@ == first_suffix(suffixes_v(seq![], adapters@)),
{
    let v = dns_suffixes(adapters);
    let ghost all = text::texts(v@);
    let mut i: usize = 0;
    assert(all.skip(0) =~= all);
    while i < v.len()
        invariant
            i <= v@.len(),
            all == text::texts(v@),
            all == suffixes_v(seq![], adapters@),
            first_suffix(all.skip(i as int)) == first_suffix(all),
        decreases v@.len() - i,
    {
        assert(all.skip(i as int)[0] == v@[i as int]@);
        assert(all.skip(i as int).drop_first() =~= all.skip(i + 1));
        if !is_blank(v[i].as_str()) {
            return v[i].clone();
        }
        i = i + 1;
    }
    assert(all.skip(i as int) =~= Seq::<Seq<char>>::empty());
    let none = String::new();
    assert(none@ =~= seq![]);
    none
}

/// No more suffixes are listed than the most.
pub proof fn suffixes_are_few(found: Seq<Seq<char>>, s: Seq<Adapter>)
    requires
        found.len() < MAX_SUFFIXES,
    ensures
        suffixes_v(found, s).len() <= MAX_SUFFIXES,
    decreases s.len(),
{
    if s.len() > 0 {
        let x = suffix_of(s[0]);
        if x.len() == 0 || holds_text(found, x) {
            suffixes_are_few(found, s.drop_first());
        } else if found.len() + 1 < MAX_SUFFIXES {
            suffixes_are_few(found.push(x), s.drop_first());
        }
    }
}

/// A program that the registry lists.
pub struct Program {
    pub name: String,
    pub system_component: u32,
    pub parent: String,
    pub version: String,
    pub publisher: String,
    pub install_date: String,
}

/// The most programs that are listed.
pub const MAX_PROGRAMS: usize = 2000;

/// The row of a product: it has a name, is no part of the system and no patch of another.
pub open spec fn is_product(p: Program) -> bool {
    text::trim_v(p.name@).len() > 0 && p.system_component != 1 && p.parent@.len() == 0
}

/// What a product is known by: its name and its version in small letters.
pub open spec fn product_key(p: Program) -> (Seq<char>, Seq<char>) {
    (text::lowercase(text::trim_v(p.name@)), text::lowercase(p.version@))
}

/// The row of a product.
pub open spec fn product_row(p: Program) -> JsonV {
    JsonV::empty().with("name"@, JsonV::Str(text::trim_v(p.name@))).with(
        "version"@,
        JsonV::Str(p.version@),
    ).with("publisher"@, JsonV::Str(p.publisher@)).with(
        "install_date"@,
        JsonV::Str(p.install_date@),
    )
}

/// What the row of a product is known by.
pub open spec fn row_key(v: JsonV) -> (Seq<char>, Seq<char>) {
    (text::lowercase(v.member_or_empty("name"@)), text::lowercase(v.member_or_empty("version"@)))
}

proof fn lemma_row_key(p: Program)
    ensures
        row_key(product_row(p)) == product_key(p),
{
    reveal_strlit("name");
    reveal_strlit("version");
    reveal_strlit("publisher");
    reveal_strlit("install_date");
    assert("name"@.len() == 4 && "version"@.len() == 7);
    assert("publisher"@.len() == 9 && "install_date"@.len() == 12);
}

/// The order of products: by name, and by version where the names are the same.
pub open spec fn key_before(a: (Seq<char>, Seq<char>), b: (Seq<char>, Seq<char>)) -> bool {
    text::before(a.0, b.0) || (a.0 == b.0 && text::before(a.1, b.1))
}

/// The order of products is total on different products.
pub proof fn products_have_one_order(a: (Seq<char>, Seq<char>), b: (Seq<char>, Seq<char>))
    ensures
        key_before(a, b) || key_before(b, a) || a == b,
        !(key_before(a, b) && key_before(b, a)),
        !key_before(a, a),
{
    text::lemma_before_total(a.0, b.0);
    text::lemma_before_total(a.1, b.1);
}

proof fn lemma_key_before_trans(
    a: (Seq<char>, Seq<char>),
    b: (Seq<char>, Seq<char>),
    c: (Seq<char>, Seq<char>),
)
    requires
        key_before(a, b),
        key_before(b, c),
    ensures
        key_before(a, c),
{
    if text::before(a.0, b.0) && text::before(b.0, c.0) {
        text::lemma_before_trans(a.0, b.0, c.0);
    } else if a.0 == b.0 && b.0 == c.0 {
        text::lemma_before_trans(a.1, b.1, c.1);
    }
}

/// A product and its row.
pub struct Product {
    /// The name in small letters.
    pub name: String,
    /// The version in small letters.
    pub version: String,
    pub row: Json,
}

impl Product {
    /// What the product is known by.
    pub open spec fn key(self) -> (Seq<char>, Seq<char>) {
        (self.name@, self.version@)
    }
}

/// The rows of products, by what the products are known by.
pub open spec fn rows_by_key(m: Seq<Product>) -> Map<(Seq<char>, Seq<char>), JsonV>
    decreases m.len(),
{
    if m.len() == 0 {
        Map::empty()
    } else {
        rows_by_key(m.drop_last()).insert(m.last().key(), m.last().row@)
    }
}

/// The products stand in their order, each once.
pub open spec fn in_order(m: Seq<Product>) -> bool {
    forall|i: int, j: int|
        0 <= i < j < m.len() ==> key_before((#[trigger] m[i]).key(), (#[trigger] m[j]).key())
}

proof fn lemma_rows(m: Seq<Product>)
    requires
        in_order(m),
    ensures
        forall|i: int|
            0 <= i < m.len() ==> rows_by_key(m).contains_key((#[trigger] m[i]).key())
                && rows_by_key(m)[m[i].key()] == m[i].row@,
        forall|k: (Seq<char>, Seq<char>)| #[trigger]
            rows_by_key(m).contains_key(k) ==> exists|i: int|
                0 <= i < m.len() && (#[trigger] m[i]).key() == k,
        rows_by_key(m).dom().finite(),
        rows_by_key(m).dom().len() == m.len(),
    decreases m.len(),
{
    if m.len() > 0 {
        let t = m.drop_last();
        let k = m.last().key();
        assert forall|i: int, j: int| 0 <= i < j < t.len() implies key_before(
            (#[trigger] t[i]).key(),
            (#[trigger] t[j]).key(),
        ) by {
            assert(t[i] == m[i] && t[j] == m[j]);
        }
        lemma_rows(t);
        assert forall|i: int| 0 <= i < t.len() implies (#[trigger] t[i]).key() != k by {
            assert(key_before(m[i].key(), m[m.len() - 1].key()));
            products_have_one_order(k, k);
        }
        assert forall|i: int| 0 <= i < m.len() implies rows_by_key(m).contains_key(
            (#[trigger] m[i]).key(),
        ) && rows_by_key(m)[m[i].key()] == m[i].row@ by {
            if i < m.len() - 1 {
                assert(t[i] == m[i]);
            }
        }
        assert forall|x: (Seq<char>, Seq<char>)| #[trigger]
            rows_by_key(m).contains_key(x) implies exists|i: int|
            0 <= i < m.len() && (#[trigger] m[i]).key() == x by {
            if x == k {
                assert(m[m.len() - 1].key() == x);
            } else {
                assert(rows_by_key(t).contains_key(x));
                let i = choose|i: int| 0 <= i < t.len() && (#[trigger] t[i]).key() == x;
                assert(t[i] == m[i]);
            }
        }
        if rows_by_key(t).contains_key(k) {
            let i = choose|i: int| 0 <= i < t.len() && (#[trigger] t[i]).key() == k;
            assert(t[i].key() != k);
        }
        assert(rows_by_key(m).dom() =~= rows_by_key(t).dom().insert(k));
    } else {
        assert(rows_by_key(m).dom() =~= Set::<(Seq<char>, Seq<char>)>::empty());
    }
}

/// Rows in order that hold the same products, but for one that is put in, are those of the map
/// with that product.
proof fn lemma_put(s: Seq<Product>, t: Seq<Product>, e: Product)
    requires
        in_order(s),
        in_order(t),
        forall|i: int|
            0 <= i < s.len() && (#[trigger] s[i]).key() != e.key() ==> t.contains(s[i]),
        forall|i: int| 0 <= i < t.len() && (#[trigger] t[i]).key() != e.key() ==> s.contains(t[i]),
        t.contains(e),
    ensures
        rows_by_key(t) == rows_by_key(s).insert(e.key(), e.row@),
{
    lemma_rows(s);
    lemma_rows(t);
    let x = rows_by_key(t);
    let y = rows_by_key(s).insert(e.key(), e.row@);
    let w = choose|i: int| 0 <= i < t.len() && t[i] == e;
    assert(t[w].key() == e.key());
    assert forall|k: (Seq<char>, Seq<char>)| #[trigger] x.contains_key(k) implies y.contains_key(k)
        && x[k] == y[k] by {
        let i = choose|i: int| 0 <= i < t.len() && (#[trigger] t[i]).key() == k;
        if k != e.key() {
            assert(s.contains(t[i]));
            let j = choose|j: int| 0 <= j < s.len() && s[j] == t[i];
            assert(rows_by_key(s)[s[j].key()] == s[j].row@);
        }
    }
    assert forall|k: (Seq<char>, Seq<char>)| #[trigger]
        y.contains_key(k) implies x.contains_key(k) by {
        if k != e.key() {
            let i = choose|i: int| 0 <= i < s.len() && (#[trigger] s[i]).key() == k;
            assert(t.contains(s[i]));
            let j = choose|j: int| 0 <= j < t.len() && t[j] == s[i];
            assert(t[j].key() == k);
        }
    }
    assert(x =~= y);
}

/// Puts a product in its place, in the stead of one that is known by the same.
fn put_product(m: &mut Vec<Product>, e: Product)
    requires
        in_order(old(m)@),
    ensures
        in_order(final(m)@),
        rows_by_key(final(m)@) == rows_by_key(old(m)@).insert(e.key(), e.row@),
{
    let ghost s = m@;
    let ghost x = e;
    let mut p: usize = 0;
    while p < m.len() && (less(m[p].name.as_str(), e.name.as_str()) || (same(
        m[p].name.as_str(),
        e.name.as_str(),
    ) && less(m[p].version.as_str(), e.version.as_str())))
        invariant
            p <= m@.len(),
            m@ == s,
            x == e,
            forall|i: int| 0 <= i < p ==> key_before((#[trigger] s[i]).key(), e.key()),
        decreases m@.len() - p,
    {
        p = p + 1;
    }
    if p < m.len() && same(m[p].name.as_str(), e.name.as_str()) && same(
        m[p].version.as_str(),
        e.version.as_str(),
    ) {
        m.set(p, e);
        proof {
            let t = m@;
            assert forall|a: int, b: int| 0 <= a < b < t.len() implies key_before(
                (#[trigger] t[a]).key(),
                (#[trigger] t[b]).key(),
            ) by {
                assert(key_before(s[a].key(), s[b].key()));
            }
            assert(t[p as int] == x);
            assert forall|i: int|
                0 <= i < s.len() && (#[trigger] s[i]).key() != x.key() implies t.contains(
                s[i],
            ) by {
                assert(t[i] == s[i]);
            }
            assert forall|i: int|
                0 <= i < t.len() && (#[trigger] t[i]).key() != x.key() implies s.contains(
                t[i],
            ) by {
                assert(t[i] == s[i]);
            }
            lemma_put(s, t, x);
        }
    } else {
        proof {
            assert forall|i: int| p <= i < s.len() implies key_before(
                x.key(),
                (#[trigger] s[i]).key(),
            ) by {
                products_have_one_order(s[p as int].key(), x.key());
                if i > p {
                    assert(key_before(s[p as int].key(), s[i].key()));
                    lemma_key_before_trans(x.key(), s[p as int].key(), s[i].key());
                }
            }
        }
        m.insert(p, e);
        proof {
            let t = m@;
            assert(t == s.insert(p as int, x));
            assert forall|a: int, b: int| 0 <= a < b < t.len() implies key_before(
                (#[trigger] t[a]).key(),
                (#[trigger] t[b]).key(),
            ) by {
                let a0 = if a < p { a } else { a - 1 };
                let b0 = if b < p { b } else { b - 1 };
                if a != p && b != p {
                    assert(t[a] == s[a0] && t[b] == s[b0]);
                } else if a == p {
                    assert(t[b] == s[b0]);
                } else {
                    assert(t[a] == s[a0]);
                }
            }
            assert(t[p as int] == x);
            assert forall|i: int|
                0 <= i < s.len() && (#[trigger] s[i]).key() != x.key() implies t.contains(
                s[i],
            ) by {
                let i1 = if i < p { i } else { i + 1 };
                assert(t[i1] == s[i]);
            }
            assert forall|i: int|
                0 <= i < t.len() && (#[trigger] t[i]).key() != x.key() implies s.contains(
                t[i],
            ) by {
                let i0 = if i < p { i } else { i - 1 };
                assert(s[i0] == t[i]);
            }
            lemma_put(s, t, x);
        }
    }
}

/// The products after one view of the registry; it is left once there are enough.
pub open spec fn view_products(
    m: Map<(Seq<char>, Seq<char>), JsonV>,
    s: Seq<Program>,
) -> Map<(Seq<char>, Seq<char>), JsonV>
    decreases s.len(),
{
    if s.len() == 0 {
        m
    } else if is_product(s[0]) {
        let n = m.insert(product_key(s[0]), product_row(s[0]));
        if n.dom().len() >= MAX_PROGRAMS {
            n
        } else {
            view_products(n, s.drop_first())
        }
    } else {
        view_products(m, s.drop_first())
    }
}

fn take_view(m: &mut Vec<Product>, s: &Vec<Program>)
    requires
        in_order(old(m)@),
    ensures
        in_order(final(m)@),
        rows_by_key(final(m)@) == view_products(rows_by_key(old(m)@), s@),
{
    let ghost start = rows_by_key(m@);
    let mut i: usize = 0;
    assert(s@.skip(0) =~= s@);
    while i < s.len()
        invariant
            i <= s@.len(),
            in_order(m@),
            start == rows_by_key(old(m)@),
            view_products(rows_by_key(m@), s@.skip(i as int)) == view_products(start, s@),
        decreases s@.len() - i,
    {
        let ghost rest = s@.skip(i as int);
        assert(rest[0] == s@[i as int]);
        assert(rest.drop_first() =~= s@.skip(i + 1));
        let p = &s[i];
        let name = trim(p.name.as_str());
        if !name.as_str().is_empty() && p.system_component != 1 && p.parent.as_str().is_empty() {
            let row = Json::object().with("name", Json::text(name.as_str())).with(
                "version",
                Json::text(p.version.as_str()),
            ).with("publisher", Json::text(p.publisher.as_str())).with(
                "install_date",
                Json::text(p.install_date.as_str()),
            );
            put_product(
                m,
                Product {
                    name: to_lowercase(name.as_str()),
                    version: to_lowercase(p.version.as_str()),
                    row,
                },
            );
            proof {
                lemma_rows(m@);
            }
            if m.len() >= MAX_PROGRAMS {
                return;
            }
        }
        i = i + 1;
    }
    assert(s@.skip(i as int) =~= Seq::<Program>::empty());
}

/// The products of the two views of the registry, by what they are known by.
pub open spec fn products(wide: Seq<Program>, narrow: Seq<Program>) -> Map<
    (Seq<char>, Seq<char>),
    JsonV,
> {
    view_products(view_products(Map::empty(), wide), narrow)
}

/// The products of the two views of the registry, each once, by name and then by version.
/// `wide` is the view of 64 bits and `narrow` that of 32.
pub fn product_entries(wide: &Vec<Program>, narrow: &Vec<Program>) -> (r: Vec<Product>)
    ensures
        in_order(r@),
        rows_by_key(r@) == products(wide@, narrow@),
{
    let mut m: Vec<Product> = Vec::new();
    take_view(&mut m, wide);
    take_view(&mut m, narrow);
    m
}

/// The rows of products.
pub open spec fn rows_of(m: Seq<Product>) -> Seq<JsonV> {
    Seq::new(m.len(), |i: int| m[i].row@)
}

/// The installed programs: one row for each name and version, whatever the case of their
/// letters, by name and then by version.
pub fn software(wide: &Vec<Program>, narrow: &Vec<Program>) -> (r: Vec<Json>)
    ensures
        exists|m: Seq<Product>|
            #[trigger] in_order(m) && rows_by_key(m) == products(wide@, narrow@) && json::models(r@)
                == rows_of(m),
        forall|i: int, j: int|
            0 <= i < j < r@.len() ==> !text::before(
                row_key((#[trigger] r@[j])@).0,
                row_key((#[trigger] r@[i])@).0,
            ) && row_key(r@[i]@) != row_key(r@[j]@),
{
    let m = product_entries(wide, narrow);
    let mut out: Vec<Json> = Vec::new();
    let mut i: usize = 0;
    while i < m.len()
        invariant
            i <= m@.len(),
            out@.len() == i,
            forall|k: int| 0 <= k < i ==> (#[trigger] out@[k])@ == m@[k].row@,
        decreases m@.len() - i,
    {
        out.push(m[i].row.copy());
        i = i + 1;
    }
    assert(json::models(out@) =~= rows_of(m@));
    proof {
        rows_stand_by_name_and_version(m@, wide@, narrow@);
    }
    out
}

/// The software list stands by name and then by version, and no two of its rows share both,
/// whatever the case of their letters.
pub proof fn rows_stand_by_name_and_version(
    m: Seq<Product>,
    wide: Seq<Program>,
    narrow: Seq<Program>,
)
    requires
        in_order(m),
        rows_by_key(m) == products(wide, narrow),
    ensures
        forall|i: int| 0 <= i < m.len() ==> row_key((#[trigger] m[i]).row@) == m[i].key(),
        forall|i: int, j: int|
            0 <= i < j < m.len() ==> key_before(
                row_key((#[trigger] m[i]).row@),
                row_key((#[trigger] m[j]).row@),
            ) && !text::before(row_key(m[j].row@).0, row_key(m[i].row@).0) && row_key(m[i].row@)
                != row_key(m[j].row@),
{
    lemma_rows(m);
    assert forall|i: int| 0 <= i < m.len() implies row_key((#[trigger] m[i]).row@)
        == m[i].key() by {
        let k = m[i].key();
        let first = view_products(Map::empty(), wide);
        assert(products(wide, narrow).contains_key(k));
        every_row_is_a_product(first, narrow, k);
        if first.contains_key(k) && products(wide, narrow)[k] == first[k] {
            every_row_is_a_product(Map::empty(), wide, k);
            let n = choose|n: int|
                0 <= n < wide.len() && is_product(#[trigger] wide[n]) && product_key(wide[n]) == k
                    && product_row(wide[n]) == first[k];
            lemma_row_key(wide[n]);
        } else {
            let n = choose|n: int|
                0 <= n < narrow.len() && is_product(#[trigger] narrow[n]) && product_key(narrow[n])
                    == k && product_row(narrow[n]) == products(wide, narrow)[k];
            lemma_row_key(narrow[n]);
        }
    }
    assert forall|i: int, j: int| 0 <= i < j < m.len() implies key_before(
        row_key((#[trigger] m[i]).row@),
        row_key((#[trigger] m[j]).row@),
    ) && !text::before(row_key(m[j].row@).0, row_key(m[i].row@).0) && row_key(m[i].row@) != row_key(
        m[j].row@,
    ) by {
        products_have_one_order(m[i].key(), m[j].key());
        text::lemma_before_total(m[i].key().0, m[j].key().0);
    }
}

/// Each row of the software list is a product of the registry, known by its key.
pub proof fn every_row_is_a_product(
    m: Map<(Seq<char>, Seq<char>), JsonV>,
    s: Seq<Program>,
    key: (Seq<char>, Seq<char>),
)
    requires
        view_products(m, s).contains_key(key),
    ensures
        (m.contains_key(key) && view_products(m, s)[key] == m[key]) || exists|i: int|
            0 <= i < s.len() && is_product(#[trigger] s[i]) && product_key(s[i]) == key
                && product_row(s[i]) == view_products(m, s)[key],
    decreases s.len(),
{
    if s.len() > 0 {
        let t = s.drop_first();
        if is_product(s[0]) {
            let n = m.insert(product_key(s[0]), product_row(s[0]));
            if n.dom().len() < MAX_PROGRAMS {
                every_row_is_a_product(n, t, key);
                lemma_shift(s, view_products(m, s)[key], key);
            }
            if key == product_key(s[0]) && view_products(m, s)[key] == product_row(s[0]) {
                assert(is_product(s[0]));
            }
        } else {
            every_row_is_a_product(m, t, key);
            lemma_shift(s, view_products(m, s)[key], key);
        }
    }
}

proof fn lemma_shift(s: Seq<Program>, row: JsonV, key: (Seq<char>, Seq<char>))
    requires
        s.len() > 0,
    ensures
        (exists|i: int|
            0 <= i < s.drop_first().len() && is_product(#[trigger] s.drop_first()[i])
                && product_key(s.drop_first()[i]) == key && product_row(s.drop_first()[i]) == row)
            ==> exists|i: int|
            0 <= i < s.len() && is_product(#[trigger] s[i]) && product_key(s[i]) == key
                && product_row(s[i]) == row,
{
    let t = s.drop_first();
    if exists|i: int|
        0 <= i < t.len() && is_product(#[trigger] t[i]) && product_key(t[i]) == key && product_row(
            t[i],
        ) == row {
        let i = choose|i: int|
            0 <= i < t.len() && is_product(#[trigger] t[i]) && product_key(t[i]) == key
                && product_row(t[i]) == row;
        assert(s[i + 1] == t[i]);
    }
}

/// The rows of what a script printed: a list, or one row.
pub open spec fn rows_printed(v: Option<JsonV>) -> Seq<JsonV> {
    match v {
        Some(JsonV::Arr(s)) => s,
        Some(JsonV::Obj(m)) => seq![JsonV::Obj(m)],
        _ => seq![],
    }
}

fn printed_rows(v: &Option<Json>) -> (r: Vec<Json>)
    ensures
        json::models(r@) == rows_printed(json::opt_model(*v)),
{
    let mut out: Vec<Json> = Vec::new();
    match v {
        Some(j) => {
            if let Some(a) = j.as_array() {
                let mut i: usize = 0;
                while i < a.len()
                    invariant
                        i <= a@.len(),
                        out@.len() == i,
                        forall|k: int| 0 <= k < i ==> (#[trigger] out@[k])@ == a@[k]@,
                    decreases a@.len() - i,
                {
                    out.push(a[i].copy());
                    i = i + 1;
                }
                assert(json::models(out@) =~= json::models(a@));
                return out;
            }
            if j.is_object() {
                out.push(j.copy());
                assert(json::models(out@) =~= seq![j@]);
                return out;
            }
            assert(json::models(out@) =~= seq![]);
            out
        },
        None => {
            assert(json::models(out@) =~= seq![]);
            out
        },
    }
}

/// The most fixes that are listed.
pub const MAX_HOTFIXES: usize = 500;

/// The row of a fix, where it has a name.
pub open spec fn hotfix_row(r: JsonV) -> Option<JsonV> {
    let id = text::trim_v(r.member_or_empty("HotFixID"@));
    if id.len() == 0 {
        None
    } else {
        Some(
            JsonV::empty().with("id"@, JsonV::Str(id)).with(
                "installed_on"@,
                JsonV::Str(text::trim_v(r.member_or_empty("InstalledOn"@))),
            ),
        )
    }
}

/// The fixes among rows.
pub open spec fn hotfix_rows(s: Seq<JsonV>) -> Seq<JsonV>
    decreases s.len(),
{
    if s.len() == 0 {
        seq![]
    } else {
        let before = hotfix_rows(s.drop_last());
        match hotfix_row(s.last()) {
            Some(x) => if before.len() < MAX_HOTFIXES {
                before.push(x)
            } else {
                before
            },
            None => before,
        }
    }
}

/// The installed fixes, from what the script printed.
pub fn hotfixes(printed: &Option<Json>) -> (r: Vec<Json>)
    ensures
        json::models(r@) == hotfix_rows(rows_printed(json::opt_model(*printed))),
{
    let rows = printed_rows(printed);
    let ghost all = json::models(rows@);
    let mut out: Vec<Json> = Vec::new();
    let mut i: usize = 0;
    assert(json::models(out@) =~= hotfix_rows(all.take(0)));
    while i < rows.len()
        invariant
            i <= rows@.len(),
            all == json::models(rows@),
            json::models(out@) == hotfix_rows(all.take(i as int)),
        decreases rows@.len() - i,
    {
        assert(all.take(i + 1).drop_last() == all.take(i as int));
        assert(all.take(i + 1).last() == rows@[i as int]@);
        assert(json::models(out@).len() == out@.len());
        let id = trim(rows[i].get_str_or_empty("HotFixID").as_str());
        if !id.as_str().is_empty() && out.len() < MAX_HOTFIXES {
            let installed_on = trim(rows[i].get_str_or_empty("InstalledOn").as_str());
            let row = Json::object().with("id", Json::Str(id)).with(
                "installed_on",
                Json::Str(installed_on),
            );
            let ghost o = out@;
            let ghost rv = row@;
            out.push(row);
            assert(json::models(out@) =~= json::models(o).push(rv));
        }
        i = i + 1;
    }
    assert(all.take(i as int) == all);
    out
}

/// The roles of a server, from what the script printed: the texts of a list, or one text.
pub fn server_roles(printed: &Option<Json>) -> (r: Json)
    ensures
        r@ == json::text_list(
            match json::opt_model(*printed) {
                Some(JsonV::Arr(s)) => ad::only_texts(s),
                Some(JsonV::Str(t)) => seq![t],
                _ => seq![],
            },
        ),
{
    let mut out: Vec<String> = Vec::new();
    if let Some(j) = printed {
        if let Some(a) = j.as_array() {
            return text_array(&texts_among(a));
        }
        if let Some(t) = j.as_str() {
            out.push(t.to_owned());
            assert(text::texts(out@) =~= seq![t@]);
            return text_array(&out);
        }
    }
    assert(text::texts(out@) =~= seq![]);
    text_array(&out)
}

/// The services that are watched.
pub open spec fn watched_names() -> Seq<Seq<char>> {
    seq![
        "WinDefend"@,
        "WdNisSvc"@,
        "mpssvc"@,
        "SecurityHealthService"@,
        "wscsvc"@,
        "Sense"@,
        "wuauserv"@,
        "BITS"@,
        "UsoSvc"@,
        "gpsvc"@,
        "Netlogon"@,
        "Dnscache"@,
        "W32Time"@,
        "LanmanWorkstation"@,
    ]
}

fn watched() -> (r: Vec<String>)
    ensures
        text::texts(r@) == watched_names(),
{
    let mut v: Vec<String> = Vec::new();
    v.push("WinDefend".to_owned());
    v.push("WdNisSvc".to_owned());
    v.push("mpssvc".to_owned());
    v.push("SecurityHealthService".to_owned());
    v.push("wscsvc".to_owned());
    v.push("Sense".to_owned());
    v.push("wuauserv".to_owned());
    v.push("BITS".to_owned());
    v.push("UsoSvc".to_owned());
    v.push("gpsvc".to_owned());
    v.push("Netlogon".to_owned());
    v.push("Dnscache".to_owned());
    v.push("W32Time".to_owned());
    v.push("LanmanWorkstation".to_owned());
    assert(text::texts(v@) =~= watched_names());
    v
}

/// A list of texts with each in quotes.
pub open spec fn quoted(s: Seq<Seq<char>>) -> Seq<Seq<char>> {
    Seq::new(s.len(), |i: int| "'"@ + s[i] + "'"@)
}

/// The script that reads the state of the services that are watched.
pub fn watched_script() -> (r: String)
    ensures
        r@ == WATCHED_HEAD@ + text::join_v(quoted(watched_names()), ","@) + WATCHED_TAIL@,
{
    let names = watched();
    let ghost all = text::texts(names@);
    let mut q: Vec<String> = Vec::new();
    let mut i: usize = 0;
    while i < names.len()
        invariant
            i <= names@.len(),
            all == text::texts(names@),
            q@.len() == i,
            forall|k: int| 0 <= k < i ==> (#[trigger] q@[k])@ == "'"@ + all[k] + "'"@,
        decreases names@.len() - i,
    {
        assert(all[i as int] == names@[i as int]@);
        q.push(cat3("'", names[i].as_str(), "'"));
        i = i + 1;
    }
    assert(text::texts(q@) =~= quoted(all));
    cat3(WATCHED_HEAD, join(&q, ",").as_str(), WATCHED_TAIL)
}

/// The row of a watched service: its start type as the registry has it, where it is there.
pub open spec fn watched_row(r: JsonV, starts: Map<Seq<char>, Seq<char>>) -> JsonV {
    match r.member_text("name"@) {
        Some(n) => if starts.contains_key(text::lowercase(n)) {
            r.with("start"@, JsonV::Str(starts[text::lowercase(n)]))
        } else {
            r
        },
        None => r,
    }
}

/// The state of the services that are watched, from what the script printed and the start types
/// of the registry, which know more of them.
pub fn watched_services(printed: &Option<Json>, starts: &Overrides) -> (r: Json)
    ensures
        r@ == JsonV::Arr(
            Seq::new(
                rows_printed(json::opt_model(*printed)).len(),
                |i: int| watched_row(rows_printed(json::opt_model(*printed))[i], starts@),
            ),
        ),
{
    let rows = printed_rows(printed);
    let ghost all = json::models(rows@);
    let mut out: Vec<Json> = Vec::new();
    let mut i: usize = 0;
    while i < rows.len()
        invariant
            i <= rows@.len(),
            all == json::models(rows@),
            out@.len() == i,
            forall|k: int| 0 <= k < i ==> (#[trigger] out@[k])@ == watched_row(all[k], starts@),
        decreases rows@.len() - i,
    {
        assert(all[i as int] == rows@[i as int]@);
        let label = match rows[i].get_str("name") {
            Some(n) => starts.get(to_lowercase(n).as_str()),
            None => None,
        };
        let row = rows[i].copy();
        match label {
            Some(l) => {
                out.push(row.with("start", Json::Str(l)));
            },
            None => {
                out.push(row);
            },
        }
        i = i + 1;
    }
    assert(json::models(out@) =~= Seq::new(all.len(), |i: int| watched_row(all[i], starts@)));
    Json::array(out)
}

/// An entry of the class of display adapters.
pub struct DisplayKey {
    pub key: String,
    pub description: Option<String>,
}

/// The key of an adapter: four digits.
pub open spec fn adapter_key(s: Seq<char>) -> bool {
    s.len() == 4 && num::all_digits(s)
}

/// The names of the display adapters, each once.
pub open spec fn gpus_v(s: Seq<DisplayKey>) -> Seq<Seq<char>>
    decreases s.len(),
{
    if s.len() == 0 {
        seq![]
    } else {
        let before = gpus_v(s.drop_last());
        let e = s.last();
        match text::opt_text(e.description) {
            Some(d) => if adapter_key(e.key@) && text::trim_v(d).len() > 0 {
                add_unique(before, text::trim_v(d))
            } else {
                before
            },
            None => before,
        }
    }
}

fn is_adapter_key(s: &str) -> (r: bool)
    ensures
        r == adapter_key(s@),
{
    let v = chars_of(s);
    if v.len() != 4 {
        return false;
    }
    let mut i: usize = 0;
    while i < v.len()
        invariant
            i <= v@.len(),
            v@ == s@,
            forall|k: int| 0 <= k < i ==> num::is_digit(#[trigger] v@[k]),
        decreases v@.len() - i,
    {
        let c: char = v[i];
        if c < '0' || '9' < c {
            assert(!num::is_digit(s@[i as int]));
            return false;
        }
        i = i + 1;
    }
    true
}

/// The names of the display adapters, each once.
pub fn gpus(keys: &Vec<DisplayKey>) -> (r: Vec<String>)
    ensures
        text::texts(r@) == gpus_v(keys@),
{
    let mut out: Vec<String> = Vec::new();
    let mut i: usize = 0;
    assert(text::texts(out@) =~= seq![]);
    while i < keys.len()
        invariant
            i <= keys@.len(),
            text::texts(out@) == gpus_v(keys@.take(i as int)),
        decreases keys@.len() - i,
    {
        assert(keys@.take(i + 1).drop_last() == keys@.take(i as int));
        if let Some(d) = &keys[i].description {
            if is_adapter_key(keys[i].key.as_str()) {
                let name = trim(d.as_str());
                if !name.as_str().is_empty() {
                    push_unique(&mut out, name.as_str());
                }
            }
        }
        i = i + 1;
    }
    assert(keys@.take(i as int) == keys@);
    out
}

/// A session of a user.
pub struct SessionEntry {
    pub sid: u32,
    pub name: String,
}

/// The rows of sessions.
pub open spec fn session_rows(s: Seq<SessionEntry>) -> Seq<JsonV> {
    Seq::new(
        s.len(),
        |i: int|
            JsonV::empty().with("sid"@, JsonV::Int(s[i].sid as int)).with(
                "name"@,
                JsonV::Str(s[i].name@),
            ),
    )
}

fn sessions_json(s: &Vec<SessionEntry>) -> (r: Json)
    ensures
        r@ == JsonV::Arr(session_rows(s@)),
{
    let mut out: Vec<Json> = Vec::new();
    let mut i: usize = 0;
    while i < s.len()
        invariant
            i <= s@.len(),
            out@.len() == i,
            forall|k: int| 0 <= k < i ==> (#[trigger] out@[k])@ == session_rows(s@)[k],
        decreases s@.len() - i,
    {
        out.push(
            Json::object().with("sid", Json::UInt(s[i].sid as u64)).with(
                "name",
                Json::text(s[i].name.as_str()),
            ),
        );
        i = i + 1;
    }
    assert(json::models(out@) =~= session_rows(s@));
    Json::array(out)
}

/// A disk. The sizes are the texts of numbers.
pub struct Disk {
    pub mount: String,
    pub fs: String,
    pub kind: String,
    pub total_gb: String,
    pub free_gb: String,
    pub removable: bool,
}

/// The row of a disk.
pub open spec fn disk_row(d: Disk) -> JsonV {
    JsonV::empty().with("mount"@, JsonV::Str(d.mount@)).with("fs"@, JsonV::Str(d.fs@)).with(
        "kind"@,
        JsonV::Str(d.kind@),
    ).with("total_gb"@, JsonV::Real(d.total_gb@)).with("free_gb"@, JsonV::Real(d.free_gb@))
}

/// The rows of the disks that stay in the machine.
pub open spec fn disk_rows(s: Seq<Disk>) -> Seq<JsonV>
    decreases s.len(),
{
    if s.len() == 0 {
        seq![]
    } else if s.last().removable {
        disk_rows(s.drop_last())
    } else {
        disk_rows(s.drop_last()).push(disk_row(s.last()))
    }
}

fn disks_json(s: &Vec<Disk>) -> (r: Json)
    ensures
        r@ == JsonV::Arr(disk_rows(s@)),
{
    let mut out: Vec<Json> = Vec::new();
    let mut i: usize = 0;
    assert(json::models(out@) =~= seq![]);
    while i < s.len()
        invariant
            i <= s@.len(),
            json::models(out@) == disk_rows(s@.take(i as int)),
        decreases s@.len() - i,
    {
        assert(s@.take(i + 1).drop_last() == s@.take(i as int));
        let d = &s[i];
        if !d.removable {
            let row = Json::object().with("mount", Json::text(d.mount.as_str())).with(
                "fs",
                Json::text(d.fs.as_str()),
            ).with("kind", Json::text(d.kind.as_str())).with(
                "total_gb",
                Json::Real(d.total_gb.clone()),
            ).with("free_gb", Json::Real(d.free_gb.clone()));
            let ghost o = out@;
            let ghost rv = row@;
            out.push(row);
            assert(json::models(out@) =~= json::models(o).push(rv));
        }
        i = i + 1;
    }
    assert(s@.take(i as int) == s@);
    Json::array(out)
}

/// How the processor is written. `ghz` is the text of its speed, where that is known.
pub open spec fn cpu_text(name: Seq<char>, ghz: Option<Seq<char>>, logical: nat, physical: nat) -> Seq<
    char,
> {
    let cores = num::dec(logical) + "/"@ + num::dec(physical) + " cores"@;
    match ghz {
        Some(g) => name + ", "@ + g + "GHz, "@ + cores,
        None => name + ", "@ + cores,
    }
}

/// How the processor is written.
pub fn cpu_label(brand: &str, ghz: Option<&str>, logical: usize, physical: usize) -> (r: String)
    ensures
        r@ == cpu_text(text::trim_end_v(brand@), text::opt_str(ghz), logical as nat, physical as nat),
{
    let name = trim_end(brand);
    let cores = dec_u64(logical as u64).concat("/").concat(
        dec_u64(physical as u64).as_str(),
    ).concat(" cores");
    match ghz {
        Some(g) => name.concat(", ").concat(g).concat("GHz, ").concat(cores.as_str()),
        None => name.concat(", ").concat(cores.as_str()),
    }
}

/// What was measured of a machine. The fractions are the texts of numbers.
pub struct Measured {
    pub cpu: String,
    pub memory_gb: String,
    pub mem_used_gb: String,
    pub cpu_pct: String,
    pub uptime_secs: u64,
    pub disks: Vec<Disk>,
}

/// What Windows says of a machine.
pub struct WindowsFacts {
    pub smbios: Option<Smbios>,
    pub gpus: Vec<String>,
    pub sessions: Vec<SessionEntry>,
    pub hotfixes: Vec<Json>,
    pub watched_services: Json,
    pub roles: Json,
}

/// What was measured of a machine.
pub open spec fn measured_v(m: Measured) -> JsonV {
    JsonV::empty().with("cpu"@, JsonV::Str(m.cpu@)).with("memory_gb"@, JsonV::Real(m.memory_gb@)).with(
        "mem_used_gb"@,
        JsonV::Real(m.mem_used_gb@),
    ).with("cpu_pct"@, JsonV::Real(m.cpu_pct@)).with(
        "uptime_secs"@,
        JsonV::Int(m.uptime_secs as int),
    ).with("disks"@, JsonV::Arr(disk_rows(m.disks@)))
}

/// A report with who made the machine.
pub open spec fn with_smbios(v: JsonV, s: Option<Smbios>) -> JsonV {
    match s {
        Some(b) => v.with("manufacturer"@, JsonV::Str(b.manufacturer@)).with(
            "product"@,
            JsonV::Str(b.product@),
        ).with("serial"@, JsonV::Str(b.serial@)).with(
            "bios_vendor"@,
            JsonV::Str(b.bios_vendor@),
        ).with("bios_version"@, JsonV::Str(b.bios_version@)).with(
            "bios_date"@,
            JsonV::Str(b.bios_date@),
        ),
        None => v,
    }
}

/// A machine's hardware.
pub open spec fn hardware_v(m: Measured, w: Option<WindowsFacts>, network: JsonV) -> JsonV {
    let base = measured_v(m);
    let all = match w {
        Some(f) => with_smbios(base, f.smbios).with("gpus"@, json::text_list(text::texts(f.gpus@))).with(
            "sessions"@,
            JsonV::Arr(session_rows(f.sessions@)),
        ).with("hotfixes"@, JsonV::Arr(json::models(f.hotfixes@))).with(
            "watched_services"@,
            f.watched_services@,
        ).with("roles"@, f.roles@),
        None => base,
    };
    all.with("network"@, network)
}

/// A machine's hardware.
pub fn hardware(m: &Measured, w: Option<WindowsFacts>, network: Json) -> (r: Json)
    ensures
        r@ == hardware_v(*m, w, network@),
        r@ is Obj,
{
    let mut v = Json::object().with("cpu", Json::text(m.cpu.as_str())).with(
        "memory_gb",
        Json::Real(m.memory_gb.clone()),
    ).with("mem_used_gb", Json::Real(m.mem_used_gb.clone())).with(
        "cpu_pct",
        Json::Real(m.cpu_pct.clone()),
    ).with("uptime_secs", Json::UInt(m.uptime_secs)).with("disks", disks_json(&m.disks));
    match w {
        Some(f) => {
            match &f.smbios {
                Some(b) => {
                    v = v.with("manufacturer", Json::text(b.manufacturer.as_str())).with(
                        "product",
                        Json::text(b.product.as_str()),
                    ).with("serial", Json::text(b.serial.as_str())).with(
                        "bios_vendor",
                        Json::text(b.bios_vendor.as_str()),
                    ).with("bios_version", Json::text(b.bios_version.as_str())).with(
                        "bios_date",
                        Json::text(b.bios_date.as_str()),
                    );
                },
                None => {},
            }
            v = v.with("gpus", text_array(&f.gpus)).with("sessions", sessions_json(&f.sessions)).with(
                "hotfixes",
                Json::array(f.hotfixes),
            ).with("watched_services", f.watched_services).with("roles", f.roles);
        },
        None => {},
    }
    v.with("network", network)
}

/// A machine's inventory.
pub fn collect(hardware: Json, software: Vec<Json>) -> (r: Json)
    ensures
        r@ == JsonV::empty().with("hardware"@, hardware@).with(
            "software"@,
            JsonV::Arr(json::models(software@)),
        ),
{
    Json::object().with("hardware", hardware).with("software", Json::array(software))
}

/// Which addresses are listed where: loopback addresses nowhere, those of the private and
/// link-local ranges as private, all others as public.
pub proof fn every_v4_address_is_listed(s: Seq<Interface>, t: Seq<char>)
    ensures
        net_of(s).v4_private.contains(t) <==> exists|i: int, j: int|
            0 <= i < s.len() && 0 <= j < s[i].v4@.len() && dotted(#[trigger] s[i].v4@[j]) == t
                && in_private_range(s[i].v4@[j]),
        net_of(s).v4_public.contains(t) <==> exists|i: int, j: int|
            0 <= i < s.len() && 0 <= j < s[i].v4@.len() && dotted(#[trigger] s[i].v4@[j]) == t
                && s[i].v4@[j].a != 127 && !in_private_range(s[i].v4@[j]),
    decreases s.len(),
{
    if s.len() > 0 {
        let p = s.drop_last();
        every_v4_address_is_listed(p, t);
        let k = s.len() - 1;
        let mac = text::opt_text(s[k].mac);
        lemma_v4s_listed(net_of(p), s[k].v4@, mac, t);
        lemma_v6s_listed(with_v4s(net_of(p), s[k].v4@, mac), s[k].v6@, t);
        if net_of(s).v4_private.contains(t) {
            if net_of(p).v4_private.contains(t) {
                let (i, j) = choose|i: int, j: int|
                    0 <= i < p.len() && 0 <= j < p[i].v4@.len() && dotted(#[trigger] p[i].v4@[j])
                        == t && in_private_range(p[i].v4@[j]);
                assert(s[i].v4@[j] == p[i].v4@[j]);
            } else {
                let j = choose|j: int|
                    0 <= j < s[k].v4@.len() && dotted(#[trigger] s[k].v4@[j]) == t
                        && in_private_range(s[k].v4@[j]);
                assert(s[k].v4@[j] == s[k].v4@[j]);
            }
        }
        if net_of(s).v4_public.contains(t) {
            if net_of(p).v4_public.contains(t) {
                let (i, j) = choose|i: int, j: int|
                    0 <= i < p.len() && 0 <= j < p[i].v4@.len() && dotted(#[trigger] p[i].v4@[j])
                        == t && p[i].v4@[j].a != 127 && !in_private_range(p[i].v4@[j]);
                assert(s[i].v4@[j] == p[i].v4@[j]);
            } else {
                let j = choose|j: int|
                    0 <= j < s[k].v4@.len() && dotted(#[trigger] s[k].v4@[j]) == t
                        && s[k].v4@[j].a != 127 && !in_private_range(s[k].v4@[j]);
                assert(s[k].v4@[j] == s[k].v4@[j]);
            }
        }
        assert forall|i: int, j: int|
            0 <= i < s.len() && 0 <= j < s[i].v4@.len() && dotted(#[trigger] s[i].v4@[j]) == t
                && in_private_range(s[i].v4@[j]) implies net_of(s).v4_private.contains(t) by {
            if i < k {
                assert(p[i].v4@[j] == s[i].v4@[j]);
            }
        }
        assert forall|i: int, j: int|
            0 <= i < s.len() && 0 <= j < s[i].v4@.len() && dotted(#[trigger] s[i].v4@[j]) == t
                && s[i].v4@[j].a != 127 && !in_private_range(s[i].v4@[j]) implies net_of(
            s,
        ).v4_public.contains(t) by {
            if i < k {
                assert(p[i].v4@[j] == s[i].v4@[j]);
            }
        }
    }
}

/// The ranges 10.0.0.0/8, 172.16.0.0/12, 192.168.0.0/16 and 169.254.0.0/16.
pub open spec fn in_private_range(a: V4) -> bool {
    let n = a.a * 65536 + a.b * 256 + a.c;
    ||| 10 * 65536 <= n < 11 * 65536
    ||| 172 * 65536 + 16 * 256 <= n < 172 * 65536 + 32 * 256
    ||| 192 * 65536 + 168 * 256 <= n < 192 * 65536 + 169 * 256
    ||| 169 * 65536 + 254 * 256 <= n < 169 * 65536 + 255 * 256
}

proof fn lemma_held_after_adding<A>(s: Seq<A>, x: A, t: A)
    ensures
        add_unique(s, x).contains(t) <==> s.contains(t) || t == x,
{
    if s.contains(t) && !s.contains(x) {
        let i = choose|i: int| 0 <= i < s.len() && s[i] == t;
        assert(s.push(x)[i] == t);
    }
    if !s.contains(x) {
        assert(s.push(x)[s.len() as int] == x);
        if s.push(x).contains(t) && t != x {
            let i = choose|i: int| 0 <= i < s.push(x).len() && s.push(x)[i] == t;
            assert(s[i] == t);
        }
    }
}

proof fn lemma_v4s_listed(n: NetV, v: Seq<V4>, mac: Option<Seq<char>>, t: Seq<char>)
    ensures
        with_v4s(n, v, mac).v4_private.contains(t) <==> n.v4_private.contains(t) || exists|j: int|
            0 <= j < v.len() && dotted(#[trigger] v[j]) == t && in_private_range(v[j]),
        with_v4s(n, v, mac).v4_public.contains(t) <==> n.v4_public.contains(t) || exists|j: int|
            0 <= j < v.len() && dotted(#[trigger] v[j]) == t && v[j].a != 127 && !in_private_range(
                v[j],
            ),
        with_v4s(n, v, mac).v6_private == n.v6_private,
        with_v4s(n, v, mac).v6_public == n.v6_public,
    decreases v.len(),
{
    if v.len() > 0 {
        let p = v.drop_last();
        let x = v.last();
        lemma_v4s_listed(n, p, mac, t);
        let m = with_v4s(n, p, mac);
        lemma_held_after_adding(m.v4_private, dotted(x), t);
        lemma_held_after_adding(m.v4_public, dotted(x), t);
        assert(x == v[v.len() - 1]);
        assert(in_private_range(x) <==> v4_private(x) || v4_link_local(x));
        assert(forall|j: int| 0 <= j < p.len() ==> p[j] == v[j]);
    }
}

proof fn lemma_v6s_listed(n: NetV, v: Seq<V6>, t: Seq<char>)
    ensures
        with_v6s(n, v).v6_private.contains(t) <==> n.v6_private.contains(t) || exists|j: int|
            0 <= j < v.len() && (#[trigger] v[j]).text@ == t && !v[j].loopback
                && in_private_v6_range(v[j].first),
        with_v6s(n, v).v6_public.contains(t) <==> n.v6_public.contains(t) || exists|j: int|
            0 <= j < v.len() && (#[trigger] v[j]).text@ == t && !v[j].loopback && v[j].first
                < 65280 && !in_private_v6_range(v[j].first),
        with_v6s(n, v).v4_private == n.v4_private,
        with_v6s(n, v).v4_public == n.v4_public,
        with_v6s(n, v).mac == n.mac,
    decreases v.len(),
{
    if v.len() > 0 {
        let p = v.drop_last();
        let x = v.last();
        lemma_v6s_listed(n, p, t);
        let m = with_v6s(n, p);
        lemma_held_after_adding(m.v6_private, x.text@, t);
        lemma_held_after_adding(m.v6_public, x.text@, t);
        assert(x == v[v.len() - 1]);
        assert(in_private_v6_range(x.first) <==> v6_private(x.first));
        assert(forall|j: int| 0 <= j < p.len() ==> p[j] == v[j]);
    }
}

/// The ranges fc00::/7 and fe80::/10.
pub open spec fn in_private_v6_range(first: u16) -> bool {
    first / 512 == 126 || first / 64 == 1018
}

/// Which addresses of the sixth version are listed where: loopback and multicast addresses
/// nowhere, unique local and link-local ones as private, all others as public.
pub proof fn every_v6_address_is_listed(s: Seq<Interface>, t: Seq<char>)
    ensures
        net_of(s).v6_private.contains(t) <==> exists|i: int, j: int|
            0 <= i < s.len() && 0 <= j < s[i].v6@.len() && (#[trigger] s[i].v6@[j]).text@ == t
                && !s[i].v6@[j].loopback && in_private_v6_range(s[i].v6@[j].first),
        net_of(s).v6_public.contains(t) <==> exists|i: int, j: int|
            0 <= i < s.len() && 0 <= j < s[i].v6@.len() && (#[trigger] s[i].v6@[j]).text@ == t
                && !s[i].v6@[j].loopback && s[i].v6@[j].first < 65280 && !in_private_v6_range(
                s[i].v6@[j].first,
            ),
    decreases s.len(),
{
    if s.len() > 0 {
        let p = s.drop_last();
        every_v6_address_is_listed(p, t);
        let k = s.len() - 1;
        let mac = text::opt_text(s[k].mac);
        lemma_v4s_listed(net_of(p), s[k].v4@, mac, t);
        lemma_v6s_listed(with_v4s(net_of(p), s[k].v4@, mac), s[k].v6@, t);
        if net_of(s).v6_private.contains(t) {
            if net_of(p).v6_private.contains(t) {
                let (i, j) = choose|i: int, j: int|
                    0 <= i < p.len() && 0 <= j < p[i].v6@.len() && (#[trigger] p[i].v6@[j]).text@
                        == t && !p[i].v6@[j].loopback && in_private_v6_range(p[i].v6@[j].first);
                assert(s[i].v6@[j] == p[i].v6@[j]);
            } else {
                let j = choose|j: int|
                    0 <= j < s[k].v6@.len() && (#[trigger] s[k].v6@[j]).text@ == t
                        && !s[k].v6@[j].loopback && in_private_v6_range(s[k].v6@[j].first);
                assert(s[k].v6@[j] == s[k].v6@[j]);
            }
        }
        if net_of(s).v6_public.contains(t) {
            if net_of(p).v6_public.contains(t) {
                let (i, j) = choose|i: int, j: int|
                    0 <= i < p.len() && 0 <= j < p[i].v6@.len() && (#[trigger] p[i].v6@[j]).text@
                        == t && !p[i].v6@[j].loopback && p[i].v6@[j].first < 65280
                        && !in_private_v6_range(p[i].v6@[j].first);
                assert(s[i].v6@[j] == p[i].v6@[j]);
            } else {
                let j = choose|j: int|
                    0 <= j < s[k].v6@.len() && (#[trigger] s[k].v6@[j]).text@ == t
                        && !s[k].v6@[j].loopback && s[k].v6@[j].first < 65280
                        && !in_private_v6_range(s[k].v6@[j].first);
                assert(s[k].v6@[j] == s[k].v6@[j]);
            }
        }
        assert forall|i: int, j: int|
            0 <= i < s.len() && 0 <= j < s[i].v6@.len() && (#[trigger] s[i].v6@[j]).text@ == t
                && !s[i].v6@[j].loopback && in_private_v6_range(s[i].v6@[j].first) implies net_of(
            s,
        ).v6_private.contains(t) by {
            if i < k {
                assert(p[i].v6@[j] == s[i].v6@[j]);
            }
        }
        assert forall|i: int, j: int|
            0 <= i < s.len() && 0 <= j < s[i].v6@.len() && (#[trigger] s[i].v6@[j]).text@ == t
                && !s[i].v6@[j].loopback && s[i].v6@[j].first < 65280 && !in_private_v6_range(
                s[i].v6@[j].first,
            ) implies net_of(s).v6_public.contains(t) by {
            if i < k {
                assert(p[i].v6@[j] == s[i].v6@[j]);
            }
        }
    }
}

/// The hardware address is that of the first interface that has one and a private address that
/// is not link-local.
pub proof fn the_first_private_interface_gives_its_address(s: Seq<Interface>, i: Interface)
    ensures
        net_of(s).mac is Some ==> net_of(s.push(i)).mac == net_of(s).mac,
        net_of(s).mac is None && has_private(i.v4@) && i.mac is Some && i.mac->0@.len() > 0
            && i.mac->0@ != "00:00:00:00:00:00"@ ==> net_of(s.push(i)).mac == Some(i.mac->0@),
        net_of(s).mac is None && !(has_private(i.v4@) && i.mac is Some && i.mac->0@.len() > 0
            && i.mac->0@ != "00:00:00:00:00:00"@) ==> net_of(s.push(i)).mac is None,
{
    let t = s.push(i);
    assert(t.drop_last() =~= s);
    let mac = text::opt_text(i.mac);
    lemma_v4s_mac(net_of(s), i.v4@, mac);
    lemma_v6s_listed(with_v4s(net_of(s), i.v4@, mac), i.v6@, Seq::empty());
}

/// Whether one of the addresses is of the ranges for private networks.
pub open spec fn has_private(v: Seq<V4>) -> bool {
    exists|j: int|
        0 <= j < v.len() && in_private_range(#[trigger] v[j]) && !(v[j].a == 169 && v[j].b == 254)
}

proof fn lemma_v4s_mac(n: NetV, v: Seq<V4>, mac: Option<Seq<char>>)
    ensures
        with_v4s(n, v, mac).mac == (if n.mac is None && has_private(v) {
            usable_mac(mac)
        } else {
            n.mac
        }),
    decreases v.len(),
{
    if v.len() > 0 {
        let p = v.drop_last();
        let x = v.last();
        lemma_v4s_mac(n, p, mac);
        assert(x == v[v.len() - 1]);
        assert(in_private_range(x) && !(x.a == 169 && x.b == 254) <==> v4_private(x));
        if has_private(p) {
            let j = choose|j: int|
                0 <= j < p.len() && in_private_range(#[trigger] p[j]) && !(p[j].a == 169 && p[j].b
                    == 254);
            assert(v[j] == p[j]);
        }
        if has_private(v) && !has_private(p) {
            let j = choose|j: int|
                0 <= j < v.len() && in_private_range(#[trigger] v[j]) && !(v[j].a == 169 && v[j].b
                    == 254);
            if j < p.len() {
                assert(p[j] == v[j]);
            }
        }
    }
}

/// An address is written as its four numbers.
pub proof fn an_address_is_written_as_four_numbers(a: V4)
    ensures
        text::split_v(dotted(a), '.') == seq![
            num::dec(a.a as nat),
            num::dec(a.b as nat),
            num::dec(a.c as nat),
            num::dec(a.d as nat),
        ],
{
    let (w, x, y, z) = (
        num::dec(a.a as nat),
        num::dec(a.b as nat),
        num::dec(a.c as nat),
        num::dec(a.d as nat),
    );
    lemma_no_point(a.a as nat);
    lemma_no_point(a.b as nat);
    lemma_no_point(a.c as nat);
    lemma_no_point(a.d as nat);
    reveal_strlit(".");
    assert("."@ =~= seq!['.']);
    assert(dotted(a) =~= w + seq!['.'] + (x + seq!['.'] + (y + seq!['.'] + z)));
    crate::text::a_text_splits_at_its_separators(w, '.', x + seq!['.'] + (y + seq!['.'] + z));
    crate::text::a_text_splits_at_its_separators(x, '.', y + seq!['.'] + z);
    crate::text::a_text_splits_at_its_separators(y, '.', z);
    crate::text::a_text_splits_at_its_separators(z, '.', z);
    assert(text::split_v(dotted(a), '.') =~= seq![w, x, y, z]);
}

proof fn lemma_no_point(n: nat)
    ensures
        !num::dec(n).contains('.'),
{
    crate::num::decimal_round_trip(n, n);
    let s = num::dec(n);
    if s.contains('.') {
        let i = choose|i: int| 0 <= i < s.len() && s[i] == '.';
        assert(num::all_digits(s));
        assert(num::is_digit(s[i]));
    }
}

/// What the network section says.
pub proof fn the_network_section_says_what_was_found(
    hostname: Seq<char>,
    n: NetV,
    suffixes: Seq<Seq<char>>,
    dn: Seq<char>,
    groups: Seq<Seq<char>>,
)
    ensures
        ({
            let v = network_v(hostname, n, None);
            &&& v.member("hostname"@) == Some(JsonV::Str(hostname))
            &&& v.member("ipv4_private"@) == Some(json::text_list(n.v4_private))
            &&& v.member("ipv4_public"@) == Some(json::text_list(n.v4_public))
            &&& v.member("ipv6_private"@) == Some(json::text_list(n.v6_private))
            &&& v.member("ipv6_public"@) == Some(json::text_list(n.v6_public))
            &&& n.mac is Some ==> v.member("mac"@) == Some(JsonV::Str(n.mac->0))
            &&& n.mac is None ==> v.member("mac"@) is None
            &&& v.member("dns_suffixes"@) is None
        }),
        ({
            let v = network_v(hostname, n, Some((suffixes, dn, Some(groups))));
            &&& v.member("dns_suffixes"@) == Some(json::text_list(suffixes))
            &&& dn.len() > 0 ==> v.member("dn"@) == Some(JsonV::Str(dn)) && v.member("ad_groups"@)
                == Some(json::text_list(groups))
            &&& dn.len() == 0 ==> v.member("dn"@) is None && v.member("ad_groups"@) is None
        }),
        network_v(hostname, n, Some((suffixes, dn, None))).member("ad_groups"@) is None,
{
    reveal_strlit("hostname");
    reveal_strlit("ipv4_private");
    reveal_strlit("ipv4_public");
    reveal_strlit("ipv6_private");
    reveal_strlit("ipv6_public");
    reveal_strlit("mac");
    reveal_strlit("dns_suffixes");
    reveal_strlit("dn");
    reveal_strlit("ad_groups");
    assert("dn"@.len() == 2);
    assert("mac"@.len() == 3);
    assert("hostname"@.len() == 8);
    assert("ad_groups"@.len() == 9);
    assert("ipv4_public"@.len() == 11);
    assert("ipv6_public"@.len() == 11);
    assert("ipv4_public"@[3] == '4');
    assert("ipv6_public"@[3] == '6');
    assert("ipv4_private"@.len() == 12);
    assert("ipv6_private"@.len() == 12);
    assert("dns_suffixes"@.len() == 12);
    assert("dns_suffixes"@[0] == 'd');
    assert("ipv4_private"@[0] == 'i');
    assert("ipv4_private"@[3] == '4');
    assert("ipv6_private"@[0] == 'i');
    assert("ipv6_private"@[3] == '6');
}

/// The suffix of an adapter: its own, where it has an address, else the one that came with its
/// lease.
pub proof fn an_adapter_has_the_suffix_in_use(a: Adapter)
    ensures
        ({
            let leased = a.dhcp_ip@.len() > 0 && a.dhcp_ip@ != "0.0.0.0"@;
            let own = text::trim_v(a.domain@);
            &&& own.len() > 0 && leased ==> suffix_of(a) == own
            &&& own.len() > 0 && a.fixed_bytes > 4 ==> suffix_of(a) == own
            &&& own.len() == 0 && leased ==> suffix_of(a) == text::trim_v(a.dhcp_domain@)
            &&& !leased && a.fixed_bytes <= 4 ==> suffix_of(a).len() == 0
            &&& own.len() == 0 && !leased ==> suffix_of(a).len() == 0
        }),
{
}

/// Every suffix of an adapter is listed, in whatever case, unless eight others are; what is
/// listed is a suffix of an adapter; and what was listed stays in its place.
pub proof fn every_suffix_is_listed(found: Seq<Seq<char>>, s: Seq<Adapter>, i: int)
    requires
        found.len() < 8,
    ensures
        ({
            let r = suffixes_v(found, s);
            &&& r.len() >= found.len()
            &&& r.len() <= 8
            &&& r.take(found.len() as int) == found
            &&& 0 <= i < s.len() && suffix_of(s[i]).len() > 0 && r.len() < 8 ==> exists|k: int|
                0 <= k < r.len() && text::same_ignoring_case(#[trigger] r[k], suffix_of(s[i]))
            &&& found.len() <= i < r.len() ==> r[i].len() > 0 && exists|k: int|
                0 <= k < s.len() && suffix_of(#[trigger] s[k]) == r[i]
        }),
    decreases s.len(),
{
    let r = suffixes_v(found, s);
    if s.len() == 0 {
        assert(r.take(found.len() as int) =~= found);
    } else {
        let x = suffix_of(s[0]);
        let t = s.drop_first();
        if x.len() == 0 || holds_text(found, x) {
            every_suffix_is_listed(found, t, i - 1);
            every_suffix_is_listed(found, t, i);
            assert forall|k: int| 0 <= k < found.len() implies r[k] == found[k] by {
                assert(r.take(found.len() as int)[k] == r[k]);
            }
            if i == 0 && x.len() > 0 {
                let k = choose|k: int|
                    0 <= k < found.len() && text::same_ignoring_case(#[trigger] found[k], x);
                assert(r[k] == found[k]);
            }
            if 0 < i < s.len() {
                assert(t[i - 1] == s[i]);
            }
            if found.len() <= i < r.len() {
                let k = choose|k: int| 0 <= k < t.len() && suffix_of(#[trigger] t[k]) == r[i];
                assert(s[k + 1] == t[k]);
            }
        } else if found.len() + 1 >= 8 {
            assert(r == found.push(x));
            assert(r.take(found.len() as int) =~= found);
            if found.len() <= i < r.len() {
                assert(suffix_of(s[0]) == r[i]);
            }
        } else {
            let f = found.push(x);
            every_suffix_is_listed(f, t, i - 1);
            every_suffix_is_listed(f, t, i);
            assert forall|k: int| 0 <= k < f.len() implies r[k] == f[k] by {
                assert(r.take(f.len() as int)[k] == r[k]);
            }
            assert(r.take(found.len() as int) =~= found);
            assert(r[found.len() as int] == x);
            if i == 0 && x.len() > 0 {
                assert(text::same_ignoring_case(r[found.len() as int], x));
            }
            if 0 < i < s.len() {
                assert(t[i - 1] == s[i]);
            }
            if found.len() <= i < r.len() {
                if i == found.len() {
                    assert(suffix_of(s[0]) == r[i]);
                } else {
                    let k = choose|k: int| 0 <= k < t.len() && suffix_of(#[trigger] t[k]) == r[i];
                    assert(s[k + 1] == t[k]);
                }
            }
        }
    }
}

/// No suffix is listed twice, in whatever case.
pub proof fn no_suffix_is_listed_twice(found: Seq<Seq<char>>, s: Seq<Adapter>)
    requires
        forall|i: int, j: int|
            0 <= i < j < found.len() ==> !text::same_ignoring_case(
                #[trigger] found[i],
                #[trigger] found[j],
            ),
    ensures
        forall|i: int, j: int|
            0 <= i < j < suffixes_v(found, s).len() ==> !text::same_ignoring_case(
                #[trigger] suffixes_v(found, s)[i],
                #[trigger] suffixes_v(found, s)[j],
            ),
    decreases s.len(),
{
    if s.len() > 0 {
        let x = suffix_of(s[0]);
        let f = found.push(x);
        if x.len() > 0 && !holds_text(found, x) {
            assert forall|i: int, j: int| 0 <= i < j < f.len() implies !text::same_ignoring_case(
                #[trigger] f[i],
                #[trigger] f[j],
            ) by {
                assert(f[i] == found[i]);
                if j < found.len() {
                    assert(f[j] == found[j]);
                }
            }
            if found.len() + 1 >= 8 {
                assert(suffixes_v(found, s) == f);
            } else {
                no_suffix_is_listed_twice(f, s.drop_first());
                assert(suffixes_v(found, s) == suffixes_v(f, s.drop_first()));
            }
        } else {
            no_suffix_is_listed_twice(found, s.drop_first());
            assert(suffixes_v(found, s) == suffixes_v(found, s.drop_first()));
        }
    }
}

/// The suffix that counts is the first that is not blank.
pub proof fn the_first_suffix_counts(a: Seq<Seq<char>>, x: Seq<char>, b: Seq<Seq<char>>)
    requires
        forall|i: int| 0 <= i < a.len() ==> text::trim_v(#[trigger] a[i]).len() == 0,
        text::trim_v(x).len() > 0,
    ensures
        first_suffix(a + seq![x] + b) == x,
        first_suffix(a).len() == 0,
    decreases a.len(),
{
    let s = a + seq![x] + b;
    if a.len() > 0 {
        assert(s[0] == a[0]);
        assert(text::trim_v(a[0]).len() == 0);
        let t = a.drop_first();
        assert forall|i: int| 0 <= i < t.len() implies text::trim_v(#[trigger] t[i]).len() == 0 by {
            assert(t[i] == a[i + 1]);
        }
        the_first_suffix_counts(t, x, b);
        assert(s.drop_first() =~= t + seq![x] + b);
    } else {
        assert(s[0] == x);
    }
}

/// Every product of a registry view has a row under its key, that of the last with the key,
/// while the view is not longer than the list may be.
pub proof fn every_product_has_a_row(
    m: Map<(Seq<char>, Seq<char>), JsonV>,
    s: Seq<Program>,
    i: int,
)
    requires
        m.dom().finite(),
        m.dom().len() + s.len() < 2000,
        0 <= i < s.len(),
        is_product(s[i]),
        forall|k: int|
            i < k < s.len() && is_product(#[trigger] s[k]) ==> product_key(s[k]) != product_key(
                s[i],
            ),
    ensures
        view_products(m, s).contains_key(product_key(s[i])),
        view_products(m, s)[product_key(s[i])] == product_row(s[i]),
    decreases s.len(),
{
    let t = s.drop_first();
    let n = if is_product(s[0]) {
        m.insert(product_key(s[0]), product_row(s[0]))
    } else {
        m
    };
    assert(n.dom().len() <= m.dom().len() + 1);
    if i > 0 {
        assert(t[i - 1] == s[i]);
        assert forall|k: int|
            i - 1 < k < t.len() && is_product(#[trigger] t[k]) implies product_key(t[k])
            != product_key(t[i - 1]) by {
            assert(t[k] == s[k + 1]);
        }
        every_product_has_a_row(n, t, i - 1);
    } else {
        assert forall|k: int| 0 <= k < t.len() && is_product(#[trigger] t[k]) implies product_key(
            t[k],
        ) != product_key(s[0]) by {
            assert(t[k] == s[k + 1]);
        }
        lemma_other_rows_stay(n, t, product_key(s[0]));
    }
}

/// What was listed stays where no product has its key.
proof fn lemma_other_rows_stay(
    m: Map<(Seq<char>, Seq<char>), JsonV>,
    s: Seq<Program>,
    key: (Seq<char>, Seq<char>),
)
    requires
        m.contains_key(key),
        forall|k: int|
            0 <= k < s.len() && is_product(#[trigger] s[k]) ==> product_key(s[k]) != key,
    ensures
        view_products(m, s).contains_key(key),
        view_products(m, s)[key] == m[key],
    decreases s.len(),
{
    if s.len() > 0 {
        let t = s.drop_first();
        assert forall|k: int| 0 <= k < t.len() && is_product(#[trigger] t[k]) implies product_key(
            t[k],
        ) != key by {
            assert(t[k] == s[k + 1]);
        }
        if is_product(s[0]) {
            let n = m.insert(product_key(s[0]), product_row(s[0]));
            lemma_other_rows_stay(n, t, key);
        } else {
            lemma_other_rows_stay(m, t, key);
        }
    }
}

/// A product is a named entry that is neither a part of the system nor of another product, and
/// its row says its trimmed name, its version, its publisher and its date.
pub proof fn a_product_is_a_named_entry(p: Program)
    ensures
        is_product(p) <==> text::trim_v(p.name@).len() > 0 && p.system_component != 1
            && p.parent@.len() == 0,
        product_row(p).member("name"@) == Some(JsonV::Str(text::trim_v(p.name@))),
        product_row(p).member("version"@) == Some(JsonV::Str(p.version@)),
        product_row(p).member("publisher"@) == Some(JsonV::Str(p.publisher@)),
        product_row(p).member("install_date"@) == Some(JsonV::Str(p.install_date@)),
        product_key(p).0 == text::lowercase(text::trim_v(p.name@)),
        product_key(p).1 == text::lowercase(p.version@),
{
    reveal_strlit("name");
    reveal_strlit("version");
    reveal_strlit("publisher");
    reveal_strlit("install_date");
    assert("name"@.len() == 4);
    assert("version"@.len() == 7);
    assert("publisher"@.len() == 9);
    assert("install_date"@.len() == 12);
}

/// The updates with a number are listed, in their order, the first five hundred of them.
pub proof fn numbered_updates_are_listed(s: Seq<JsonV>)
    ensures
        ({
            let all = s.filter(
                |r: JsonV| text::trim_v(r.member_or_empty("HotFixID"@)).len() > 0,
            ).map_values(
                |r: JsonV|
                    JsonV::empty().with(
                        "id"@,
                        JsonV::Str(text::trim_v(r.member_or_empty("HotFixID"@))),
                    ).with(
                        "installed_on"@,
                        JsonV::Str(text::trim_v(r.member_or_empty("InstalledOn"@))),
                    ),
            );
            hotfix_rows(s) == (if all.len() <= 500 {
                all
            } else {
                all.take(500)
            })
        }),
    decreases s.len(),
{
    let g = |r: JsonV| text::trim_v(r.member_or_empty("HotFixID"@)).len() > 0;
    let h = |r: JsonV|
        JsonV::empty().with(
            "id"@,
            JsonV::Str(text::trim_v(r.member_or_empty("HotFixID"@))),
        ).with("installed_on"@, JsonV::Str(text::trim_v(r.member_or_empty("InstalledOn"@))));
    reveal(Seq::filter);
    let all = s.filter(g).map_values(h);
    if s.len() > 0 {
        let p = s.drop_last();
        numbered_updates_are_listed(p);
        let before = p.filter(g).map_values(h);
        if g(s.last()) {
            assert(s.filter(g) == p.filter(g).push(s.last()));
            assert(all =~= before.push(h(s.last())));
            if before.len() > 500 {
                assert(all.take(500) =~= before.take(500));
            }
            if before.len() == 500 {
                assert(all.take(500) =~= before);
            }
        }
    }
}

/// A watched service says how it starts where that is known, and keeps all else.
pub proof fn a_watched_service_says_how_it_starts(
    r: JsonV,
    starts: Map<Seq<char>, Seq<char>>,
    name: Seq<char>,
    other: Seq<char>,
)
    requires
        r.member("name"@) == Some(JsonV::Str(name)),
        other != "start"@,
    ensures
        starts.contains_key(text::lowercase(name)) ==> watched_row(r, starts).member("start"@)
            == Some(JsonV::Str(starts[text::lowercase(name)])),
        !starts.contains_key(text::lowercase(name)) ==> watched_row(r, starts) == r,
        watched_row(r, starts).member(other) == r.member(other),
{
}

/// The graphics adapters are the described keys of four digits, each once.
pub proof fn every_graphics_adapter_is_listed(s: Seq<DisplayKey>, t: Seq<char>)
    ensures
        gpus_v(s).contains(t) <==> exists|i: int|
            0 <= i < s.len() && (#[trigger] s[i]).key@.len() == 4 && num::all_digits(s[i].key@)
                && s[i].description is Some && t.len() > 0 && text::trim_v(s[i].description->0@) == t,
        gpus_v(s).no_duplicates(),
    decreases s.len(),
{
    if s.len() > 0 {
        let p = s.drop_last();
        let e = s.last();
        every_graphics_adapter_is_listed(p, t);
        assert(e == s[s.len() - 1]);
        assert(forall|i: int| 0 <= i < p.len() ==> p[i] == s[i]);
        if e.description is Some {
            lemma_held_after_adding(gpus_v(p), text::trim_v(e.description->0@), t);
            lemma_add_unique(gpus_v(p), text::trim_v(e.description->0@));
        }
    }
}

/// The disks that are not removable are listed, in their order.
pub proof fn every_fixed_disk_is_listed(s: Seq<Disk>)
    ensures
        disk_rows(s) == s.filter(|d: Disk| !d.removable).map_values(|d: Disk| disk_row(d)),
    decreases s.len(),
{
    let g = |d: Disk| !d.removable;
    let h = |d: Disk| disk_row(d);
    reveal(Seq::filter);
    if s.len() > 0 {
        let p = s.drop_last();
        every_fixed_disk_is_listed(p);
        if g(s.last()) {
            assert(s.filter(g) == p.filter(g).push(s.last()));
            assert(s.filter(g).map_values(h) =~= p.filter(g).map_values(h).push(h(s.last())));
        }
    }
    assert(disk_rows(s) =~= s.filter(g).map_values(h));
}

/// What a disk's row says.
pub proof fn a_disk_is_described(d: Disk)
    ensures
        disk_row(d).member("mount"@) == Some(JsonV::Str(d.mount@)),
        disk_row(d).member("fs"@) == Some(JsonV::Str(d.fs@)),
        disk_row(d).member("kind"@) == Some(JsonV::Str(d.kind@)),
        disk_row(d).member("total_gb"@) == Some(JsonV::Real(d.total_gb@)),
        disk_row(d).member("free_gb"@) == Some(JsonV::Real(d.free_gb@)),
{
    reveal_strlit("mount");
    reveal_strlit("fs");
    reveal_strlit("kind");
    reveal_strlit("total_gb");
    reveal_strlit("free_gb");
    assert("fs"@.len() == 2);
    assert("kind"@.len() == 4);
    assert("mount"@.len() == 5);
    assert("free_gb"@.len() == 7);
    assert("total_gb"@.len() == 8);
}

/// What the hardware section says of the machine: what was measured, what its firmware says and
/// what the system knows, and its network.
pub proof fn the_hardware_section_says_what_was_measured(m: Measured, f: WindowsFacts, network: JsonV)
    ensures
        ({
            let v = hardware_v(m, Some(f), network);
            &&& v.member("cpu"@) == Some(JsonV::Str(m.cpu@))
            &&& v.member("memory_gb"@) == Some(JsonV::Real(m.memory_gb@))
            &&& v.member("mem_used_gb"@) == Some(JsonV::Real(m.mem_used_gb@))
            &&& v.member("cpu_pct"@) == Some(JsonV::Real(m.cpu_pct@))
            &&& v.member("uptime_secs"@) == Some(JsonV::Int(m.uptime_secs as int))
            &&& v.member("disks"@) == Some(JsonV::Arr(disk_rows(m.disks@)))
            &&& v.member("gpus"@) == Some(json::text_list(text::texts(f.gpus@)))
            &&& v.member("hotfixes"@) == Some(JsonV::Arr(json::models(f.hotfixes@)))
            &&& v.member("watched_services"@) == Some(f.watched_services@)
            &&& v.member("roles"@) == Some(f.roles@)
            &&& v.member("network"@) == Some(network)
            &&& f.smbios matches Some(b) ==> {
                &&& v.member("manufacturer"@) == Some(JsonV::Str(b.manufacturer@))
                &&& v.member("product"@) == Some(JsonV::Str(b.product@))
                &&& v.member("serial"@) == Some(JsonV::Str(b.serial@))
                &&& v.member("bios_vendor"@) == Some(JsonV::Str(b.bios_vendor@))
                &&& v.member("bios_version"@) == Some(JsonV::Str(b.bios_version@))
                &&& v.member("bios_date"@) == Some(JsonV::Str(b.bios_date@))
            }
            &&& f.smbios is None ==> v.member("serial"@) is None
        }),
        hardware_v(m, None, network).member("gpus"@) is None,
        hardware_v(m, None, network).member("cpu"@) == Some(JsonV::Str(m.cpu@)),
        hardware_v(m, None, network).member("network"@) == Some(network),
{
    reveal_strlit("cpu");
    reveal_strlit("memory_gb");
    reveal_strlit("mem_used_gb");
    reveal_strlit("cpu_pct");
    reveal_strlit("uptime_secs");
    reveal_strlit("disks");
    reveal_strlit("gpus");
    reveal_strlit("sessions");
    reveal_strlit("hotfixes");
    reveal_strlit("watched_services");
    reveal_strlit("roles");
    reveal_strlit("network");
    reveal_strlit("manufacturer");
    reveal_strlit("product");
    reveal_strlit("serial");
    reveal_strlit("bios_vendor");
    reveal_strlit("bios_version");
    reveal_strlit("bios_date");
    assert("cpu"@.len() == 3);
    assert("gpus"@.len() == 4);
    assert("disks"@.len() == 5);
    assert("roles"@.len() == 5);
    assert("disks"@[0] == 'd');
    assert("roles"@[0] == 'r');
    assert("serial"@.len() == 6);
    assert("cpu_pct"@.len() == 7);
    assert("network"@.len() == 7);
    assert("product"@.len() == 7);
    assert("cpu_pct"@[0] == 'c');
    assert("network"@[0] == 'n');
    assert("product"@[0] == 'p');
    assert("sessions"@.len() == 8);
    assert("hotfixes"@.len() == 8);
    assert("hotfixes"@[0] == 'h');
    assert("sessions"@[0] == 's');
    assert("memory_gb"@.len() == 9);
    assert("bios_date"@.len() == 9);
    assert("bios_date"@[0] == 'b');
    assert("memory_gb"@[0] == 'm');
    assert("mem_used_gb"@.len() == 11);
    assert("uptime_secs"@.len() == 11);
    assert("bios_vendor"@.len() == 11);
    assert("bios_vendor"@[0] == 'b');
    assert("mem_used_gb"@[0] == 'm');
    assert("uptime_secs"@[0] == 'u');
    assert("manufacturer"@.len() == 12);
    assert("bios_version"@.len() == 12);
    assert("bios_version"@[0] == 'b');
    assert("manufacturer"@[0] == 'm');
    assert("watched_services"@.len() == 16);
}

/// The session rows say the number and the name of each session.
pub proof fn every_session_is_listed(s: Seq<SessionEntry>, i: int)
    requires
        0 <= i < s.len(),
    ensures
        session_rows(s).len() == s.len(),
        session_rows(s)[i].member("sid"@) == Some(JsonV::Int(s[i].sid as int)),
        session_rows(s)[i].member("name"@) == Some(JsonV::Str(s[i].name@)),
{
    reveal_strlit("sid");
    reveal_strlit("name");
    assert("sid"@.len() == 3);
    assert("name"@.len() == 4);
}

/// What was printed is read as rows: those of a list, or a single object.
pub proof fn printed_rows_are_read(s: Seq<JsonV>, m: Map<Seq<char>, JsonV>, t: Seq<char>)
    ensures
        rows_printed(Some(JsonV::Arr(s))) == s,
        rows_printed(Some(JsonV::Obj(m))) == seq![JsonV::Obj(m)],
        rows_printed(None).len() == 0,
        rows_printed(Some(JsonV::Str(t))).len() == 0,
{
}

/// The processor is told by its name, its speed where that is known, and its cores.
pub proof fn a_processor_is_told(name: Seq<char>, ghz: Seq<char>, logical: nat, physical: nat)
    ensures
        cpu_text(name, Some(ghz), logical, physical) == name + ", "@ + ghz + "GHz, "@ + (num::dec(
            logical,
        ) + "/"@ + num::dec(physical) + " cores"@),
        cpu_text(name, None, logical, physical) == name + ", "@ + (num::dec(logical) + "/"@
            + num::dec(physical) + " cores"@),
{
}

} // verus!
