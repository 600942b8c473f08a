//! The firmware's table: who made the machine, and which firmware it has.
//!
//! The table is a row of structures. Each has a header of four bytes, of which the first is its
//! type and the second the length of its formatted part, then that part, then a set of texts
//! that end with a zero each; an empty text ends the set. Fields of the formatted part that are
//! texts hold the place of the text in the set, counted from one.
use vstd::prelude::*;

use crate::text;
use crate::text::{from_utf8_lossy, same, to_lowercase, trim};

verus! {

/// The first position from `p` on that holds a zero, or the length.
pub open spec fn zero_from(t: Seq<u8>, p: int) -> int
    decreases t.len() - p,
{
    if p >= t.len() || t[p] == 0 {
        p
    } else {
        zero_from(t, p + 1)
    }
}

proof fn lemma_zero_from(t: Seq<u8>, p: int)
    requires
        0 <= p <= t.len(),
    ensures
        p <= zero_from(t, p) <= t.len(),
    decreases t.len() - p,
{
    if p < t.len() && t[p] != 0 {
        lemma_zero_from(t, p + 1);
    }
}

/// The texts of the set that begins at `p`, and the position behind the set.
pub open spec fn text_set(t: Seq<u8>, p: int) -> (Seq<Seq<u8>>, int)
    decreases t.len() - p,
    via text_set_decreases
{
    let e = zero_from(t, p);
    if p < 0 || e >= t.len() {
        (seq![], e)
    } else if e == p {
        (seq![], p + 1)
    } else {
        let rest = text_set(t, e + 1);
        (seq![t.subrange(p, e)] + rest.0, rest.1)
    }
}

#[via_fn]
proof fn text_set_decreases(t: Seq<u8>, p: int) {
    if 0 <= p <= t.len() {
        lemma_zero_from(t, p);
    }
}

/// The position of the next structure. A set without texts ends with two zeros.
pub open spec fn set_end(t: Seq<u8>, p: int) -> int {
    let s = text_set(t, p);
    if s.0.len() == 0 && 0 <= s.1 < t.len() && t[s.1] == 0 {
        s.1 + 1
    } else {
        s.1
    }
}

proof fn lemma_set_end(t: Seq<u8>, p: int)
    requires
        0 <= p <= t.len(),
    ensures
        p <= text_set(t, p).1 <= t.len(),
        p <= set_end(t, p) <= t.len(),
    decreases t.len() - p,
{
    lemma_zero_from(t, p);
    let e = zero_from(t, p);
    if e < t.len() && e != p {
        lemma_set_end(t, e + 1);
    }
}

/// The text that a field of the structure at `off` names; nothing where it names none.
pub open spec fn field_v(t: Seq<u8>, off: int, set: Seq<Seq<u8>>, at: int) -> Option<Seq<u8>> {
    if 0 <= off + at < t.len() && 0 < t[off + at] <= set.len() {
        Some(set[t[off + at] - 1])
    } else {
        None
    }
}

/// What the table says, as it stands there.
pub struct RawSmbios {
    pub manufacturer: Option<Vec<u8>>,
    pub product: Option<Vec<u8>>,
    pub serial: Option<Vec<u8>>,
    pub bios_vendor: Option<Vec<u8>>,
    pub bios_version: Option<Vec<u8>>,
    pub bios_date: Option<Vec<u8>>,
}

/// The model of a [`RawSmbios`].
pub struct RawV {
    pub manufacturer: Option<Seq<u8>>,
    pub product: Option<Seq<u8>>,
    pub serial: Option<Seq<u8>>,
    pub bios_vendor: Option<Seq<u8>>,
    pub bios_version: Option<Seq<u8>>,
    pub bios_date: Option<Seq<u8>>,
}

impl View for RawSmbios {
    type V = RawV;

    open spec fn view(&self) -> RawV {
        RawV {
            manufacturer: text::opt_bytes(self.manufacturer),
            product: text::opt_bytes(self.product),
            serial: text::opt_bytes(self.serial),
            bios_vendor: text::opt_bytes(self.bios_vendor),
            bios_version: text::opt_bytes(self.bios_version),
            bios_date: text::opt_bytes(self.bios_date),
        }
    }
}

/// What is known during the walk through the table.
pub struct WalkV {
    pub raw: RawV,
    pub have_bios: bool,
    pub have_sys: bool,
}

/// Nothing is known.
pub open spec fn nothing_v() -> RawV {
    RawV {
        manufacturer: None,
        product: None,
        serial: None,
        bios_vendor: None,
        bios_version: None,
        bios_date: None,
    }
}

/// What is known after the structure at `off`.
pub open spec fn taken(t: Seq<u8>, off: int, w: WalkV) -> WalkV {
    let set = text_set(t, off + t[off + 1]).0;
    if t[off] == 0 {
        WalkV {
            raw: RawV {
                bios_vendor: field_v(t, off, set, 4),
                bios_version: field_v(t, off, set, 5),
                bios_date: field_v(t, off, set, 8),
                ..w.raw
            },
            have_bios: true,
            have_sys: w.have_sys,
        }
    } else if t[off] == 1 {
        WalkV {
            raw: RawV {
                manufacturer: field_v(t, off, set, 4),
                product: field_v(t, off, set, 5),
                serial: field_v(t, off, set, 7),
                ..w.raw
            },
            have_bios: w.have_bios,
            have_sys: true,
        }
    } else {
        w
    }
}

/// What is known after the structures from `off` on. The walk ends at a structure that does not
/// fit, at the one that marks the end, and once both kinds are known.
pub open spec fn walked(t: Seq<u8>, off: int, w: WalkV) -> WalkV
    decreases t.len() - off,
    via walked_decreases
{
    if off < 0 || off + 4 > t.len() || t[off + 1] < 4 || off + t[off + 1] > t.len() || t[off]
        == 127 {
        w
    } else {
        let n = taken(t, off, w);
        if n.have_bios && n.have_sys {
            n
        } else {
            walked(t, set_end(t, off + t[off + 1]), n)
        }
    }
}

#[via_fn]
proof fn walked_decreases(t: Seq<u8>, off: int, w: WalkV) {
    if 0 <= off && off + 4 <= t.len() && off + t[off + 1] <= t.len() {
        lemma_set_end(t, off + t[off + 1]);
    }
}

/// What a table says; nothing where it describes neither the machine nor its firmware.
pub open spec fn smbios_v(t: Seq<u8>) -> Option<RawV> {
    let w = walked(t, 0, WalkV { raw: nothing_v(), have_bios: false, have_sys: false });
    if w.have_bios || w.have_sys {
        Some(w.raw)
    } else {
        None
    }
}

/// A list of byte texts.
pub open spec fn byte_texts(v: Seq<Vec<u8>>) -> Seq<Seq<u8>> {
    Seq::new(v.len(), |i: int| v[i]@)
}

fn slice_of(t: &[u8], from: usize, to: usize) -> (r: Vec<u8>)
    requires
        from <= to <= t@.len(),
    ensures
        r@ == t@.subrange(from as int, to as int),
{
    let mut out: Vec<u8> = Vec::new();
    let mut i: usize = from;
    while i < to
        invariant
            from <= i <= to <= t@.len(),
            out@ == t@.subrange(from as int, i as int),
        decreases to - i,
    {
        out.push(t[i]);
        assert(t@.subrange(from as int, i + 1) =~= t@.subrange(from as int, i as int).push(
            t@[i as int],
        ));
        i = i + 1;
    }
    out
}

/// Reads the set of texts that begins at `p`.
fn read_set(t: &[u8], p: usize) -> (r: (Vec<Vec<u8>>, usize))
    requires
        p <= t@.len(),
    ensures
        byte_texts(r.0@) == text_set(t@, p as int).0,
        r.1 == text_set(t@, p as int).1,
        p <= r.1 <= t@.len(),
{
    let mut out: Vec<Vec<u8>> = Vec::new();
    let mut at: usize = p;
    assert(byte_texts(out@) + text_set(t@, p as int).0 =~= text_set(t@, p as int).0);
    loop
        invariant
            p <= at <= t@.len(),
            byte_texts(out@) + text_set(t@, at as int).0 == text_set(t@, p as int).0,
            text_set(t@, at as int).1 == text_set(t@, p as int).1,
        decreases t@.len() - at,
    {
        let mut e: usize = at;
        while e < t.len() && t[e] != 0
            invariant
                at <= e <= t@.len(),
                zero_from(t@, at as int) == zero_from(t@, e as int),
            decreases t@.len() - e,
        {
            e = e + 1;
        }
        let ghost rest = text_set(t@, at as int);
        if e >= t.len() {
            assert(byte_texts(out@) + rest.0 =~= byte_texts(out@));
            return (out, e);
        }
        if e == at {
            assert(byte_texts(out@) + rest.0 =~= byte_texts(out@));
            return (out, at + 1);
        }
        let ghost o = out@;
        let part = slice_of(t, at, e);
        let ghost pv = part@;
        out.push(part);
        assert(byte_texts(out@) =~= byte_texts(o).push(pv));
        assert(byte_texts(o) + (seq![pv] + text_set(t@, e + 1).0) =~= byte_texts(out@) + text_set(
            t@,
            e + 1,
        ).0);
        at = e + 1;
    }
}

fn field(t: &[u8], off: usize, set: &Vec<Vec<u8>>, at: usize) -> (r: Option<Vec<u8>>)
    requires
        off <= t@.len(),
        at <= 8,
    ensures
        text::opt_bytes(r) == field_v(t@, off as int, byte_texts(set@), at as int),
{
    if at >= t.len() - off {
        return None;
    }
    let i: usize = t[off + at] as usize;
    if i == 0 || i > set.len() {
        return None;
    }
    assert(byte_texts(set@)[i - 1] == set@[i - 1]@);
    Some(set[i - 1].clone())
}

/// Finds the structures that describe the machine and its firmware.
pub fn find_smbios(t: &[u8]) -> (r: Option<RawSmbios>)
    ensures
        match r {
            Some(s) => smbios_v(t@) == Some(s@),
            None => smbios_v(t@) is None,
        },
{
    let mut raw = RawSmbios {
        manufacturer: None,
        product: None,
        serial: None,
        bios_vendor: None,
        bios_version: None,
        bios_date: None,
    };
    let mut have_bios = false;
    let mut have_sys = false;
    let mut off: usize = 0;
    let ghost start = WalkV { raw: nothing_v(), have_bios: false, have_sys: false };
    while off < t.len() && 4 <= t.len() - off
        invariant_except_break
            walked(t@, off as int, WalkV { raw: raw@, have_bios, have_sys }) == walked(
                t@,
                0,
                start,
            ),
        invariant
            off <= t@.len(),
        ensures
            (WalkV { raw: raw@, have_bios, have_sys }) == walked(t@, 0, start),
        decreases t@.len() - off,
    {
        let ghost w = WalkV { raw: raw@, have_bios, have_sys };
        let kind: u8 = t[off];
        let flen: usize = t[off + 1] as usize;
        if flen < 4 || flen > t.len() - off || kind == 127 {
            break;
        }
        proof {
            lemma_set_end(t@, off + flen);
        }
        let (set, p) = read_set(t, off + flen);
        assert(byte_texts(set@).len() == set@.len());
        let next: usize = if set.len() == 0 && p < t.len() && t[p] == 0 {
            p + 1
        } else {
            p
        };
        if kind == 0 {
            raw.bios_vendor = field(t, off, &set, 4);
            raw.bios_version = field(t, off, &set, 5);
            raw.bios_date = field(t, off, &set, 8);
            have_bios = true;
        } else if kind == 1 {
            raw.manufacturer = field(t, off, &set, 4);
            raw.product = field(t, off, &set, 5);
            raw.serial = field(t, off, &set, 7);
            have_sys = true;
        }
        assert((WalkV { raw: raw@, have_bios, have_sys }) == taken(t@, off as int, w));
        if have_bios && have_sys {
            break;
        }
        off = next;
    }
    if have_bios || have_sys {
        Some(raw)
    } else {
        None
    }
}

/// Who made the machine, and which firmware it has.
pub struct Smbios {
    pub manufacturer: String,
    pub product: String,
    pub serial: String,
    pub bios_vendor: String,
    pub bios_version: String,
    pub bios_date: String,
}

/// The text of a field; empty where there is none.
pub open spec fn field_text(b: Option<Seq<u8>>) -> Seq<char> {
    match b {
        Some(x) => text::trim_v(text::lossy(x)),
        None => seq![],
    }
}

fn decode(b: &Option<Vec<u8>>) -> (r: String)
    ensures
        r@ == field_text(text::opt_bytes(*b)),
{
    match b {
        Some(x) => trim(from_utf8_lossy(x.as_slice()).as_str()),
        None => {
            let none = String::new();
            assert(none@ =~= seq![]);
            none
        },
    }
}

/// A serial number in small letters that stands for none.
pub open spec fn placeholder(lower: Seq<char>) -> bool {
    ||| lower == "to be filled by o.e.m."@
    ||| lower == "default string"@
    ||| lower == "system serial number"@
    ||| lower == "none"@
    ||| lower == "0"@
    ||| lower == "123456789"@
}

/// Whether a serial number in small letters stands for none.
pub fn is_placeholder(lower: &str) -> (r: bool)
    ensures
        r == placeholder(lower@),
{
    same(lower, "to be filled by o.e.m.") || same(lower, "default string") || same(
        lower,
        "system serial number",
    ) || same(lower, "none") || same(lower, "0") || same(lower, "123456789")
}

/// A serial number; empty for one that stands for none.
pub fn scrub_placeholder(s: String) -> (r: String)
    ensures
        r@ == (if placeholder(text::lowercase(s@)) {
            Seq::<char>::empty()
        } else {
            s@
        }),
{
    if is_placeholder(to_lowercase(s.as_str()).as_str()) {
        String::new()
    } else {
        s
    }
}

/// Who made the machine, and which firmware it has, from the firmware's table.
pub fn parse_smbios(t: &[u8]) -> (r: Option<Smbios>)
    ensures
        match (r, smbios_v(t@)) {
            (Some(s), Some(v)) => s.manufacturer@ == field_text(v.manufacturer) && s.product@
                == field_text(v.product) && s.serial@ == (if placeholder(
                text::lowercase(field_text(v.serial)),
            ) {
                Seq::<char>::empty()
            } else {
                field_text(v.serial)
            }) && s.bios_vendor@ == field_text(v.bios_vendor) && s.bios_version@ == field_text(
                v.bios_version,
            ) && s.bios_date@ == field_text(v.bios_date),
            (None, None) => true,
            _ => false,
        },
{
    match find_smbios(t) {
        Some(raw) => Some(
            Smbios {
                manufacturer: decode(&raw.manufacturer),
                product: decode(&raw.product),
                serial: scrub_placeholder(decode(&raw.serial)),
                bios_vendor: decode(&raw.bios_vendor),
                bios_version: decode(&raw.bios_version),
                bios_date: decode(&raw.bios_date),
            },
        ),
        None => None,
    }
}

/// The table behind the header of eight bytes that the system puts before it; nothing where what
/// was read is shorter.
pub fn table_of(data: &[u8]) -> (r: Option<Vec<u8>>)
    ensures
        text::opt_bytes(r) == (if data@.len() == 0 || data@.len() < 8 {
            None
        } else {
            Some(data@.skip(8))
        }),
{
    if data.len() < 8 {
        return None;
    }
    let out = slice_of(data, 8, data.len());
    assert(out@ =~= data@.skip(8));
    Some(out)
}

/// What is read of a table stands in it: every text is a part of the table.
pub proof fn texts_stand_in_the_table(t: Seq<u8>, p: int)
    requires
        0 <= p <= t.len(),
    ensures
        forall|i: int|
            0 <= i < text_set(t, p).0.len() ==> exists|a: int, b: int|
                0 <= a < b <= t.len() && #[trigger] text_set(t, p).0[i] == #[trigger] t.subrange(a, b),
    decreases t.len() - p,
{
    lemma_zero_from(t, p);
    let e = zero_from(t, p);
    if e < t.len() && e != p {
        texts_stand_in_the_table(t, e + 1);
        let rest = text_set(t, e + 1).0;
        let all = text_set(t, p).0;
        assert forall|i: int| 0 <= i < all.len() implies exists|a: int, b: int|
            0 <= a < b <= t.len() && #[trigger] all[i] == #[trigger] t.subrange(a, b) by {
            if i == 0 {
                assert(all[0] == t.subrange(p, e));
            } else {
                assert(all[i] == rest[i - 1]);
                let (a, b) = choose|a: int, b: int|
                    0 <= a < b <= t.len() && rest[i - 1] == #[trigger] t.subrange(a, b);
                assert(all[i] == t.subrange(a, b));
            }
        }
    }
}

/// A set of texts holds each text up to its zero byte, in order, and ends with an empty one.
pub proof fn texts_end_at_zero_bytes(a: Seq<u8>, x: Seq<u8>, b: Seq<u8>)
    requires
        x.len() > 0,
        !x.contains(0),
    ensures
        ({
            let t = a + x + seq![0u8] + b;
            let p = a.len() as int;
            let q = p + x.len() + 1;
            &&& text_set(t, p).0 == seq![x] + text_set(t, q).0
            &&& text_set(t, p).1 == text_set(t, q).1
            &&& text_set(a + seq![0u8] + b, p) == (Seq::<Seq<u8>>::empty(), p + 1)
        }),
{
    let t = a + x + seq![0u8] + b;
    let p = a.len() as int;
    let e = p + x.len();
    lemma_zero_at(t, p, e);
    assert(t.subrange(p, e) =~= x);
    let u = a + seq![0u8] + b;
    assert(u[p] == 0);
}

proof fn lemma_zero_at(t: Seq<u8>, p: int, e: int)
    requires
        0 <= p <= e < t.len(),
        t[e] == 0,
        forall|i: int| p <= i < e ==> t[i] != 0,
    ensures
        zero_from(t, p) == e,
    decreases e - p,
{
    if p < e {
        lemma_zero_at(t, p + 1, e);
    }
}

/// A field names a text of the set by its place, from one; zero and what is beyond the set name
/// none.
pub proof fn a_field_names_a_text_by_its_place(t: Seq<u8>, off: int, set: Seq<Seq<u8>>, at: int)
    requires
        0 <= off,
        0 <= at,
        off + at < t.len(),
    ensures
        t[off + at] == 0 ==> field_v(t, off, set, at) is None,
        t[off + at] > set.len() ==> field_v(t, off, set, at) is None,
        1 <= t[off + at] <= set.len() ==> field_v(t, off, set, at) == Some(set[t[off + at] - 1]),
{
}

/// A table that begins with the firmware's structure and goes on with the system's is read from
/// those two: each field from the text that its own byte names.
pub proof fn a_table_is_read_from_two_structures(t: Seq<u8>, q: int)
    requires
        t.len() >= 4,
        t[0] == 0,
        4 <= t[1] <= t.len(),
        q == set_end(t, t[1] as int),
        0 <= q,
        q + 4 <= t.len(),
        t[q] == 1,
        4 <= t[q + 1],
        q + t[q + 1] <= t.len(),
    ensures
        ({
            let firmware = text_set(t, t[1] as int).0;
            let system = text_set(t, q + t[q + 1]).0;
            &&& smbios_v(t) matches Some(r) && {
                &&& r.bios_vendor == field_v(t, 0, firmware, 4)
                &&& r.bios_version == field_v(t, 0, firmware, 5)
                &&& r.bios_date == field_v(t, 0, firmware, 8)
                &&& r.manufacturer == field_v(t, q, system, 4)
                &&& r.product == field_v(t, q, system, 5)
                &&& r.serial == field_v(t, q, system, 7)
            }
        }),
{
    reveal_with_fuel(walked, 3);
}

/// A table that is too short, is broken or has come to its end gives nothing.
pub proof fn an_ended_table_gives_nothing(t: Seq<u8>)
    ensures
        t.len() < 4 ==> smbios_v(t) is None,
        t.len() >= 4 && t[0] == 127 ==> smbios_v(t) is None,
        t.len() >= 4 && t[1] < 4 ==> smbios_v(t) is None,
        t.len() >= 4 && t[1] > t.len() ==> smbios_v(t) is None,
{
}

/// A structure of another kind is passed over.
pub proof fn another_structure_is_passed_over(t: Seq<u8>, off: int, w: WalkV)
    requires
        0 <= off,
        off + 4 <= t.len(),
        4 <= t[off + 1],
        off + t[off + 1] <= t.len(),
        1 < t[off],
        t[off] != 127,
        !(w.have_bios && w.have_sys),
    ensures
        walked(t, off, w) == walked(t, set_end(t, off + t[off + 1]), w),
{
}

/// A field is told as its trimmed text; six texts stand for no serial number.
pub proof fn a_field_is_told(b: Seq<u8>, lower: Seq<char>)
    ensures
        field_text(Some(b)) == text::trim_v(text::lossy(b)),
        field_text(None).len() == 0,
        placeholder(lower) <==> seq![
            "to be filled by o.e.m."@,
            "default string"@,
            "system serial number"@,
            "none"@,
            "0"@,
            "123456789"@,
        ].contains(lower),
{
    let s = seq![
        "to be filled by o.e.m."@,
        "default string"@,
        "system serial number"@,
        "none"@,
        "0"@,
        "123456789"@,
    ];
    assert(s[0] == "to be filled by o.e.m."@ && s[1] == "default string"@ && s[2]
        == "system serial number"@ && s[3] == "none"@ && s[4] == "0"@ && s[5] == "123456789"@);
}

/// A table that begins with the structure of the firmware or of the system says something,
/// however short it is; a field beyond its end names no text.
pub proof fn a_whole_structure_is_enough(t: Seq<u8>, off: int, set: Seq<Seq<u8>>, at: int)
    ensures
        t.len() >= 4 && 4 <= t[1] <= t.len() && t[0] <= 1 ==> smbios_v(t) is Some,
        off + at >= t.len() ==> field_v(t, off, set, at) is None,
{
    if t.len() >= 4 && 4 <= t[1] <= t.len() && t[0] <= 1 {
        let w = WalkV { raw: nothing_v(), have_bios: false, have_sys: false };
        let n = taken(t, 0, w);
        assert(n.have_bios || n.have_sys);
        lemma_set_end(t, t[1] as int);
        lemma_found_stays(t, set_end(t, t[1] as int), n);
    }
}

proof fn lemma_found_stays(t: Seq<u8>, off: int, w: WalkV)
    ensures
        w.have_bios ==> walked(t, off, w).have_bios,
        w.have_sys ==> walked(t, off, w).have_sys,
    decreases t.len() - off,
{
    if !(off < 0 || off + 4 > t.len() || t[off + 1] < 4 || off + t[off + 1] > t.len() || t[off]
        == 127) {
        let n = taken(t, off, w);
        lemma_set_end(t, off + t[off + 1]);
        if !(n.have_bios && n.have_sys) {
            lemma_found_stays(t, set_end(t, off + t[off + 1]), n);
        }
    }
}

} // verus!
