//! Waking a sleeping machine: the address that an ask names, and the packet that wakes it.
use vstd::prelude::*;

use crate::json;
use crate::num;
use crate::text;
use crate::json::{from_text, Json, JsonV};
use crate::text::{cat, chars_of, trim};

verus! {

/// The text that names the machine: the field `mac` of an object, a text, or the ask as it came.
pub open spec fn target_of(raw: Seq<char>, ask: Option<JsonV>) -> Seq<char> {
    match ask {
        Some(JsonV::Obj(m)) => text::trim_v(JsonV::Obj(m).member_or_empty("mac"@)),
        Some(JsonV::Str(s)) => text::trim_v(s),
        _ => raw,
    }
}

/// The text that names the machine, given what the ask holds as JSON.
pub fn pick_target(raw: &str, ask: &Option<Json>) -> (r: String)
    ensures
        r@ == target_of(raw@, json::opt_model(*ask)),
{
    match ask {
        Some(j) => {
            if j.is_object() {
                return trim(j.get_str_or_empty("mac").as_str());
            }
            match j.as_str() {
                Some(s) => trim(s),
                None => raw.to_owned(),
            }
        },
        None => raw.to_owned(),
    }
}

/// The text that names the machine.
pub fn target_mac(raw: &str) -> (r: String)
    ensures
        r@ == target_of(raw@, json::parsed(raw@)),
{
    let ask = from_text(raw);
    pick_target(raw, &ask)
}

/// A hexadecimal digit.
pub open spec fn is_hex(c: char) -> bool {
    ('0' <= c <= '9') || ('a' <= c <= 'f') || ('A' <= c <= 'F')
}

/// The value of a hexadecimal digit.
pub open spec fn hex_value(c: char) -> int {
    if '0' <= c <= '9' {
        c as int - 48
    } else if 'a' <= c <= 'f' {
        c as int - 87
    } else {
        c as int - 55
    }
}

/// The hexadecimal digits of a text.
pub open spec fn hex_digits(s: Seq<char>) -> Seq<char>
    decreases s.len(),
{
    if s.len() == 0 {
        s
    } else if is_hex(s.last()) {
        hex_digits(s.drop_last()).push(s.last())
    } else {
        hex_digits(s.drop_last())
    }
}

/// Whether a character is a hexadecimal digit.
pub fn hex_char(c: char) -> (r: bool)
    ensures
        r == is_hex(c),
{
    ('0' <= c && c <= '9') || ('a' <= c && c <= 'f') || ('A' <= c && c <= 'F')
}

fn hex_val(c: char) -> (r: u8)
    requires
        is_hex(c),
    ensures
        r == hex_value(c),
        r < 16,
{
    if '0' <= c && c <= '9' {
        c as u8 - 48
    } else if 'a' <= c && c <= 'f' {
        c as u8 - 87
    } else {
        c as u8 - 55
    }
}

/// The six bytes of an address that digits write.
pub open spec fn mac_bytes(h: Seq<char>) -> Seq<u8> {
    Seq::new(6, |i: int| (hex_value(h[2 * i]) * 16 + hex_value(h[2 * i + 1])) as u8)
}

/// The address that a text names: twelve hexadecimal digits, whatever stands between them.
pub open spec fn mac_v(s: Seq<char>) -> Option<Seq<u8>> {
    if hex_digits(s).len() == 12 {
        Some(mac_bytes(hex_digits(s)))
    } else {
        None
    }
}

proof fn lemma_hex_digits(s: Seq<char>)
    ensures
        forall|i: int| 0 <= i < hex_digits(s).len() ==> is_hex(#[trigger] hex_digits(s)[i]),
    decreases s.len(),
{
    if s.len() > 0 {
        let t = hex_digits(s.drop_last());
        lemma_hex_digits(s.drop_last());
        assert forall|i: int| 0 <= i < hex_digits(s).len() implies is_hex(
            #[trigger] hex_digits(s)[i],
        ) by {
            if i < t.len() {
                assert(hex_digits(s)[i] == t[i]);
            }
        }
    }
}

/// The address that a text names.
pub fn mac_of(s: &str) -> (r: Option<Vec<u8>>)
    ensures
        text::opt_bytes(r) == mac_v(s@),
{
    let v = chars_of(s);
    let mut h: Vec<char> = Vec::new();
    let mut i: usize = 0;
    assert(h@ =~= hex_digits(v@.take(0)));
    while i < v.len()
        invariant
            i <= v@.len(),
            h@ == hex_digits(v@.take(i as int)),
        decreases v@.len() - i,
    {
        assert(v@.take(i + 1).drop_last() == v@.take(i as int));
        if hex_char(v[i]) {
            h.push(v[i]);
        }
        i = i + 1;
    }
    assert(v@.take(i as int) == v@);
    if h.len() != 12 {
        return None;
    }
    proof {
        lemma_hex_digits(s@);
    }
    let mut out: Vec<u8> = Vec::new();
    let mut k: usize = 0;
    while k < 6
        invariant
            k <= 6,
            h@ == hex_digits(s@),
            h@.len() == 12,
            forall|j: int| 0 <= j < h@.len() ==> is_hex(#[trigger] h@[j]),
            out@ == mac_bytes(h@).take(k as int),
        decreases 6 - k,
    {
        assert(is_hex(h@[2 * k as int]) && is_hex(h@[2 * k as int + 1]));
        let b: u8 = hex_val(h[2 * k]) * 16 + hex_val(h[2 * k + 1]);
        out.push(b);
        k = k + 1;
        assert(out@ =~= mac_bytes(h@).take(k as int));
    }
    assert(out@ =~= mac_bytes(h@));
    Some(out)
}

/// The packet that wakes a machine: six bytes of ones, then the address sixteen times.
pub open spec fn magic_packet(mac: Seq<u8>) -> Seq<u8> {
    Seq::new(6, |i: int| 0xffu8) + Seq::new(96, |i: int| mac[i % 6])
}

/// The packet that wakes the machine with an address.
pub fn packet(mac: &Vec<u8>) -> (r: Vec<u8>)
    requires
        mac@.len() == 6,
    ensures
        r@ == magic_packet(mac@),
{
    let mut out: Vec<u8> = Vec::new();
    let mut i: usize = 0;
    while i < 102
        invariant
            i <= 102,
            mac@.len() == 6,
            out@ == magic_packet(mac@).take(i as int),
        decreases 102 - i,
    {
        if i < 6 {
            out.push(0xff);
        } else {
            out.push(mac[(i - 6) % 6]);
        }
        i = i + 1;
        assert(out@ =~= magic_packet(mac@).take(i as int));
    }
    assert(out@ =~= magic_packet(mac@));
    out
}

/// The packet holds the address sixteen times in a row behind its head.
pub proof fn the_packet_repeats_the_address(mac: Seq<u8>, n: int)
    requires
        mac.len() == 6,
        0 <= n < 16,
    ensures
        magic_packet(mac).len() == 102,
        magic_packet(mac).subrange(6 + 6 * n, 12 + 6 * n) == mac,
{
    let p = magic_packet(mac);
    let part = p.subrange(6 + 6 * n, 12 + 6 * n);
    assert forall|k: int| 0 <= k < 6 implies part[k] == mac[k] by {
        assert((6 * n + k) % 6 == k);
    }
    assert(part =~= mac);
}

/// What an ask to wake a machine comes to.
pub enum WolPlan {
    /// The packet to send, and the name of the machine.
    Send { packet: Vec<u8>, name: String },
    /// The ask names no machine.
    Refuse(Json),
}

/// The error of an ask that names no machine.
pub open spec fn mac_error() -> JsonV {
    JsonV::empty().with("ok"@, JsonV::Bool(false)).with(
        "error"@,
        JsonV::Str("MAC must be 6 hex bytes (e.g. AA:BB:CC:DD:EE:FF)"@),
    )
}

/// Plans to wake the machine that an ask names.
pub fn wol(params: Option<&str>) -> (r: WolPlan)
    ensures
        ({
            let raw = text::trim_v(
                match params {
                    Some(p) => p@,
                    None => seq![],
                },
            );
            let name = target_of(raw, json::parsed(raw));
            match r {
                WolPlan::Send { packet, name: n } => n@ == name && mac_v(name) is Some && packet@
                    == magic_packet(mac_v(name)->0),
                WolPlan::Refuse(j) => mac_v(name) is None && j@ == mac_error(),
            }
        }),
{
    let given: String = match params {
        Some(p) => p.to_owned(),
        None => String::new(),
    };
    let raw = trim(given.as_str());
    let name = target_mac(raw.as_str());
    match mac_of(name.as_str()) {
        Some(mac) => {
            assert(mac@.len() == 6);
            WolPlan::Send { packet: packet(&mac), name }
        },
        None => WolPlan::Refuse(
            Json::object().with("ok", Json::Bool(false)).with(
                "error",
                Json::text("MAC must be 6 hex bytes (e.g. AA:BB:CC:DD:EE:FF)"),
            ),
        ),
    }
}

/// The answer after the packet was broadcast on both ports.
pub fn wol_sent(name: &str, any_sent: bool) -> (r: Json)
    ensures
        r@ == (if any_sent {
            JsonV::empty().with("ok"@, JsonV::Bool(true)).with(
                "result"@,
                JsonV::Str("magic packet sent to "@ + name@),
            )
        } else {
            JsonV::empty().with("ok"@, JsonV::Bool(false)).with(
                "error"@,
                JsonV::Str("failed to send broadcast"@),
            )
        }),
{
    if any_sent {
        Json::object().with("ok", Json::Bool(true)).with(
            "result",
            Json::Str(cat("magic packet sent to ", name)),
        )
    } else {
        Json::object().with("ok", Json::Bool(false)).with(
            "error",
            Json::text("failed to send broadcast"),
        )
    }
}

/// The machine that an ask names: the trimmed address of an object or of a text, else the ask as
/// it is.
pub proof fn an_ask_names_its_machine(raw: Seq<char>, v: JsonV, mac: Seq<char>)
    ensures
        v.member("mac"@) == Some(JsonV::Str(mac)) ==> target_of(raw, Some(v)) == text::trim_v(mac),
        target_of(raw, Some(JsonV::Str(mac))) == text::trim_v(mac),
        target_of(raw, None) == raw,
{
}

/// Only the digits of an address count; what stands between them does not.
pub proof fn only_hexadecimal_digits_count(s: Seq<char>)
    ensures
        hex_digits(s) == s.filter(
            |c: char| ('0' <= c <= '9') || ('a' <= c <= 'f') || ('A' <= c <= 'F'),
        ),
    decreases s.len(),
{
    let g = |c: char| ('0' <= c <= '9') || ('a' <= c <= 'f') || ('A' <= c <= 'F');
    reveal(Seq::filter);
    if s.len() > 0 {
        only_hexadecimal_digits_count(s.drop_last());
    }
    assert(hex_digits(s) =~= s.filter(g));
}

/// An address is read back from its digits: two for each of its six bytes, the higher first. Any
/// other number of digits is no address.
pub proof fn an_address_is_read_back(mac: Seq<u8>, s: Seq<char>)
    requires
        mac.len() == 6,
    ensures
        hex_digits(s) == num::hex(mac) ==> mac_v(s) == Some(mac),
        mac_v(num::hex(mac)) == Some(mac),
        mac_v(s) is Some <==> hex_digits(s).len() == 12,
{
    let h = num::hex(mac);
    lemma_all_hex(h);
    let r = mac_bytes(h);
    assert forall|i: int| 0 <= i < 6 implies r[i] == mac[i] by {
        let b = mac[i] as int;
        assert(h[2 * i] == num::hex_digit(b / 16));
        assert(h[2 * i + 1] == num::hex_digit(b % 16));
        lemma_digit_value(b / 16);
        lemma_digit_value(b % 16);
        assert(hex_value(h[2 * i]) * 16 + hex_value(h[2 * i + 1]) == b);
    }
    assert(r =~= mac);
}

pub proof fn lemma_digit_value(d: int)
    requires
        0 <= d < 16,
    ensures
        hex_value(num::hex_digit(d)) == d,
        is_hex(num::hex_digit(d)),
{
}

pub proof fn lemma_all_hex(s: Seq<char>)
    requires
        forall|i: int| 0 <= i < s.len() ==> is_hex(#[trigger] s[i]),
    ensures
        hex_digits(s) == s,
    decreases s.len(),
{
    if s.len() > 0 {
        let t = s.drop_last();
        assert forall|i: int| 0 <= i < t.len() implies is_hex(#[trigger] t[i]) by {
            assert(t[i] == s[i]);
        }
        lemma_all_hex(t);
        assert(s.last() == s[s.len() - 1]);
        assert(t.push(s.last()) =~= s);
    }
}

/// Large letters count as the small ones do.
pub proof fn large_letters_count_as_small(d: int)
    requires
        10 <= d < 16,
    ensures
        hex_value("0123456789ABCDEF"@[d]) == d,
        hex_value("0123456789abcdef"@[d]) == d,
{
    reveal_strlit("0123456789ABCDEF");
    reveal_strlit("0123456789abcdef");
}

/// An ask that names no machine is answered with an error.
pub proof fn a_missing_address_is_an_error()
    ensures
        mac_error().member("ok"@) == Some(JsonV::Bool(false)),
        mac_error().member("error"@) is Some,
{
    reveal_strlit("ok");
    reveal_strlit("error");
    assert("ok"@.len() == 2);
    assert("error"@.len() == 5);
}

} // verus!
