//! Decimal and hexadecimal text of numbers.
use vstd::prelude::*;

use crate::text::chars_of;

verus! {

/// The character of a digit.
pub open spec fn digit(d: nat) -> char
    recommends
        d < 10,
{
    (48 + d) as char
}

/// The decimal text of a number, without leading zeros.
pub open spec fn dec(n: nat) -> Seq<char>
    decreases n,
{
    if n < 10 {
        seq![digit(n)]
    } else {
        dec(n / 10).push(digit(n % 10))
    }
}

/// The decimal text of an integer, with a minus sign where it is negative.
pub open spec fn dec_int(n: int) -> Seq<char> {
    if n < 0 {
        seq!['-'] + dec((-n) as nat)
    } else {
        dec(n as nat)
    }
}

fn digit_char(d: u8) -> (r: char)
    requires
        d < 10,
    ensures
        r == digit(d as nat),
{
    (48u8 + d) as char
}

/// The decimal text of a number.
pub fn dec_u64(n: u64) -> (r: String)
    ensures
        r@ == dec(n as nat),
    decreases n,
{
    if n < 10 {
        let mut s = String::new();
        s.push(digit_char(n as u8));
        assert(s@ == seq![digit(n as nat)]);
        s
    } else {
        let mut s = dec_u64(n / 10);
        s.push(digit_char((n % 10) as u8));
        s
    }
}

/// The decimal text of an integer.
pub fn dec_i64(n: i64) -> (r: String)
    ensures
        r@ == dec_int(n as int),
{
    if n < 0 {
        let mag: u64 = (-(n as i128)) as u64;
        let mut s = String::new();
        s.push('-');
        assert(s@ == seq!['-']);
        s.append(dec_u64(mag).as_str());
        s
    } else {
        dec_u64(n as u64)
    }
}

/// A decimal digit.
pub open spec fn is_digit(c: char) -> bool {
    '0' <= c <= '9'
}

/// Every character is a decimal digit.
pub open spec fn all_digits(s: Seq<char>) -> bool {
    forall|i: int| 0 <= i < s.len() ==> is_digit(#[trigger] s[i])
}

/// The number that a text of digits writes.
pub open spec fn value(s: Seq<char>) -> nat
    decreases s.len(),
{
    if s.len() == 0 {
        0
    } else {
        (value(s.drop_last()) * 10 + (s.last() as int - 48)) as nat
    }
}

/// The number that a non-empty text of digits writes; nothing for any other text.
pub open spec fn magnitude(s: Seq<char>) -> Option<nat> {
    if s.len() > 0 && all_digits(s) {
        Some(value(s))
    } else {
        None
    }
}

/// An unsigned number as a text writes it: an optional plus sign and digits, at most `max`.
pub open spec fn parse_uint(s: Seq<char>, max: nat) -> Option<nat> {
    let digits = if s.len() > 0 && s[0] == '+' {
        s.drop_first()
    } else {
        s
    };
    match magnitude(digits) {
        Some(n) => if n <= max {
            Some(n)
        } else {
            None
        },
        None => None,
    }
}

/// A signed number as a text writes it: an optional sign and digits, from `min` to `max`.
pub open spec fn parse_sint(s: Seq<char>, min: int, max: nat) -> Option<int> {
    if s.len() > 0 && s[0] == '-' {
        match magnitude(s.drop_first()) {
            Some(n) => if -n >= min {
                Some(-n)
            } else {
                None
            },
            None => None,
        }
    } else {
        match parse_uint(s, max) {
            Some(n) => Some(n as int),
            None => None,
        }
    }
}

proof fn lemma_value_monotone(s: Seq<char>, i: int)
    requires
        0 <= i <= s.len(),
        all_digits(s),
    ensures
        value(s.take(i)) <= value(s),
    decreases s.len(),
{
    if i == s.len() {
        assert(s.take(i) == s);
    } else {
        assert(all_digits(s.drop_last())) by {
            assert forall|k: int| 0 <= k < s.drop_last().len() implies is_digit(
                #[trigger] s.drop_last()[k],
            ) by {
                assert(s.drop_last()[k] == s[k]);
            }
        }
        lemma_value_monotone(s.drop_last(), i);
        assert(s.drop_last().take(i) == s.take(i));
        assert(is_digit(s[s.len() - 1]));
    }
}

/// The number written by the digits of `v` from `from` on, where it fits.
fn magnitude_from(v: &Vec<char>, from: usize) -> (r: Option<u128>)
    requires
        from <= v@.len(),
    ensures
        match r {
            Some(n) => magnitude(v@.skip(from as int)) == Some(n as nat),
            None => match magnitude(v@.skip(from as int)) {
                Some(n) => n > u128::MAX,
                None => true,
            },
        },
{
    if from >= v.len() {
        return None;
    }
    let ghost t = v@.skip(from as int);
    let mut acc: u128 = 0;
    let mut i: usize = from;
    while i < v.len()
        invariant
            from <= i <= v@.len(),
            t == v@.skip(from as int),
            acc == value(t.take(i - from)),
            all_digits(t.take(i - from)),
        decreases v@.len() - i,
    {
        let c: char = v[i];
        assert(t[i - from] == c);
        if c < '0' || '9' < c {
            assert(!is_digit(t[i - from]));
            return None;
        }
        let d: u128 = (c as u32 - 48) as u128;
        let ghost next = t.take(i - from + 1);
        assert(next.drop_last() == t.take(i - from));
        assert(next.last() == c);
        assert(value(next) == acc * 10 + d);
        if acc > (u128::MAX - d) / 10 {
            proof {
                assert(acc * 10 + d > u128::MAX);
                if all_digits(t) {
                    lemma_value_monotone(t, i - from + 1);
                }
            }
            return None;
        }
        acc = acc * 10 + d;
        i = i + 1;
    }
    assert(t.take(i - from) == t);
    Some(acc)
}

/// An unsigned number as a text writes it.
pub fn parse_u64(s: &str) -> (r: Option<u64>)
    ensures
        match r {
            Some(n) => parse_uint(s@, u64::MAX as nat) == Some(n as nat),
            None => parse_uint(s@, u64::MAX as nat) is None,
        },
{
    let v = chars_of(s);
    let from: usize = if v.len() > 0 && v[0] == '+' {
        1
    } else {
        0
    };
    proof {
        assert(v@.skip(0) == v@);
        if v@.len() > 0 {
            assert(v@.skip(1) == v@.drop_first());
        }
    }
    match magnitude_from(&v, from) {
        Some(n) => if n <= u64::MAX as u128 {
            Some(n as u64)
        } else {
            None
        },
        None => None,
    }
}

/// A signed number as a text writes it.
pub fn parse_i128(s: &str) -> (r: Option<i128>)
    ensures
        match r {
            Some(n) => parse_sint(s@, i128::MIN as int, i128::MAX as nat) == Some(n as int),
            None => parse_sint(s@, i128::MIN as int, i128::MAX as nat) is None,
        },
{
    let v = chars_of(s);
    proof {
        assert(v@.skip(0) == v@);
        if v@.len() > 0 {
            assert(v@.skip(1) == v@.drop_first());
        }
    }
    if v.len() > 0 && v[0] == '-' {
        match magnitude_from(&v, 1) {
            Some(n) => if n <= i128::MAX as u128 {
                Some(-(n as i128))
            } else if n == i128::MAX as u128 + 1 {
                Some(i128::MIN)
            } else {
                None
            },
            None => None,
        }
    } else {
        let from: usize = if v.len() > 0 && v[0] == '+' {
            1
        } else {
            0
        };
        match magnitude_from(&v, from) {
            Some(n) => if n <= i128::MAX as u128 {
                Some(n as i128)
            } else {
                None
            },
            None => None,
        }
    }
}

/// A signed number as a text writes it.
pub fn parse_i64(s: &str) -> (r: Option<i64>)
    ensures
        match r {
            Some(n) => parse_sint(s@, i64::MIN as int, i64::MAX as nat) == Some(n as int),
            None => parse_sint(s@, i64::MIN as int, i64::MAX as nat) is None,
        },
{
    match parse_i128(s) {
        Some(n) => if i64::MIN as i128 <= n && n <= i64::MAX as i128 {
            Some(n as i64)
        } else {
            None
        },
        None => None,
    }
}

/// An unsigned number as a text writes it.
pub fn parse_u32(s: &str) -> (r: Option<u32>)
    ensures
        match r {
            Some(n) => parse_uint(s@, u32::MAX as nat) == Some(n as nat),
            None => parse_uint(s@, u32::MAX as nat) is None,
        },
{
    match parse_u64(s) {
        Some(n) => if n <= u32::MAX as u64 {
            Some(n as u32)
        } else {
            None
        },
        None => None,
    }
}

/// The decimal text of a number reads back as that number.
pub proof fn decimal_round_trip(n: nat, max: nat)
    requires
        n <= max,
    ensures
        parse_uint(dec(n), max) == Some(n),
        magnitude(dec(n)) == Some(n),
    decreases n,
{
    lemma_dec(n);
    assert(is_digit(dec(n)[0]));
}

proof fn lemma_dec(n: nat)
    ensures
        dec(n).len() > 0,
        all_digits(dec(n)),
        value(dec(n)) == n,
    decreases n,
{
    if n < 10 {
        assert(dec(n).drop_last() == Seq::<char>::empty());
        assert(value(Seq::<char>::empty()) == 0);
    } else {
        lemma_dec(n / 10);
        assert(dec(n).drop_last() == dec(n / 10));
    }
}

/// The decimal text of an integer reads back as that integer.
pub proof fn signed_decimal_round_trip(n: int, min: int, max: nat)
    requires
        min <= n <= max,
    ensures
        parse_sint(dec_int(n), min, max) == Some(n),
{
    if n < 0 {
        decimal_round_trip((-n) as nat, (-n) as nat);
        assert(dec_int(n).drop_first() == dec((-n) as nat));
    } else {
        decimal_round_trip(n as nat, max);
        assert(is_digit(dec(n as nat)[0])) by {
            lemma_dec(n as nat);
        }
    }
}

/// The character of a hexadecimal digit, in small letters.
pub open spec fn hex_digit(d: int) -> char {
    if d < 10 {
        (48 + d) as char
    } else {
        (87 + d) as char
    }
}

/// Bytes as pairs of hexadecimal digits.
pub open spec fn hex(b: Seq<u8>) -> Seq<char> {
    Seq::new(
        2 * b.len(),
        |i: int|
            if i % 2 == 0 {
                hex_digit(b[i / 2] as int / 16)
            } else {
                hex_digit(b[i / 2] as int % 16)
            },
    )
}

fn hex_char(d: u8) -> (r: char)
    requires
        d < 16,
    ensures
        r == hex_digit(d as int),
{
    if d < 10 {
        (48u8 + d) as char
    } else {
        (87u8 + d) as char
    }
}

/// Bytes as pairs of hexadecimal digits.
pub fn to_hex(b: &[u8]) -> (r: String)
    ensures
        r@ == hex(b@),
{
    let mut out = String::new();
    let mut i: usize = 0;
    while i < b.len()
        invariant
            i <= b@.len(),
            out@ == hex(b@.take(i as int)),
        decreases b@.len() - i,
    {
        out.push(hex_char(b[i] / 16));
        out.push(hex_char(b[i] % 16));
        i = i + 1;
        assert(out@ =~= hex(b@.take(i as int)));
    }
    assert(b@.take(i as int) == b@);
    out
}

/// An unsigned number as a text writes it, brought down to `max` where it is larger.
pub open spec fn clamped(s: Seq<char>, max: nat) -> Option<nat> {
    let digits = if s.len() > 0 && s[0] == '+' {
        s.drop_first()
    } else {
        s
    };
    match magnitude(digits) {
        Some(n) => Some(
            if n <= max {
                n
            } else {
                max
            },
        ),
        None => None,
    }
}

/// An unsigned number as a text writes it, brought down to the largest of 16 bits.
pub fn parse_clamped_u16(s: &str) -> (r: Option<u16>)
    ensures
        match r {
            Some(n) => clamped(s@, u16::MAX as nat) == Some(n as nat),
            None => clamped(s@, u16::MAX as nat) is None,
        },
{
    let v = chars_of(s);
    let from: usize = if v.len() > 0 && v[0] == '+' {
        1
    } else {
        0
    };
    let ghost digits = v@.skip(from as int);
    proof {
        assert(v@.skip(0) == v@);
        if v@.len() > 0 {
            assert(v@.skip(1) == v@.drop_first());
        }
    }
    if from >= v.len() {
        return None;
    }
    let mut i: usize = from;
    while i < v.len()
        invariant
            from <= i <= v@.len(),
            digits == v@.skip(from as int),
            v@ == s@,
            clamped(s@, u16::MAX as nat) == (match magnitude(digits) {
                Some(n) => Some(
                    if n <= u16::MAX as nat {
                        n
                    } else {
                        u16::MAX as nat
                    },
                ),
                None => None,
            }),
            forall|k: int| 0 <= k < i - from ==> is_digit(#[trigger] digits[k]),
        decreases v@.len() - i,
    {
        let c: char = v[i];
        assert(digits[i - from] == c);
        if c < '0' || '9' < c {
            assert(!is_digit(digits[i - from]));
            return None;
        }
        i = i + 1;
    }
    match magnitude_from(&v, from) {
        Some(n) => if n <= u16::MAX as u128 {
            Some(n as u16)
        } else {
            Some(u16::MAX)
        },
        None => Some(u16::MAX),
    }
}

/// The hexadecimal digits are `0` to `9` and `a` to `f`, and a byte is written as its high and
/// its low half.
pub proof fn bytes_are_written_in_small_hexadecimal(b: Seq<u8>, i: int)
    requires
        0 <= i < b.len(),
    ensures
        hex(b).len() == 2 * b.len(),
        hex(b)[2 * i] == "0123456789abcdef"@[b[i] as int / 16],
        hex(b)[2 * i + 1] == "0123456789abcdef"@[b[i] as int % 16],
{
    reveal_strlit("0123456789abcdef");
    assert((2 * i) / 2 == i && (2 * i) % 2 == 0);
    assert((2 * i + 1) / 2 == i && (2 * i + 1) % 2 == 1);
    let (h, l) = (b[i] as int / 16, b[i] as int % 16);
    assert(0 <= h < 16 && 0 <= l < 16);
}

/// A decimal text reads as the number that its digits write, whatever zeros stand before it.
pub proof fn leading_zeros_do_not_count(s: Seq<char>)
    ensures
        value(seq!['0'] + s) == value(s),
    decreases s.len(),
{
    let t = seq!['0'] + s;
    if s.len() == 0 {
        assert(t.drop_last() =~= s);
    } else {
        leading_zeros_do_not_count(s.drop_last());
        assert(t.drop_last() =~= seq!['0'] + s.drop_last());
    }
}

/// A number beyond the most is refused by one reading and brought down by the other; a sign
/// before it is allowed, and what is no number is refused.
pub proof fn numbers_are_bounded(n: nat, max: nat, c: char, s: Seq<char>)
    requires
        !is_digit(c),
        c != '+',
    ensures
        n > max ==> parse_uint(dec(n), max) is None && clamped(dec(n), max) == Some(max),
        n <= max ==> clamped(dec(n), max) == Some(n) && parse_uint(dec(n), max) == Some(n),
        parse_uint(seq!['+'] + dec(n), max) == parse_uint(dec(n), max),
        clamped(seq!['+'] + dec(n), max) == clamped(dec(n), max),
        parse_uint(seq![], max) is None,
        clamped(seq![], max) is None,
        s.contains(c) ==> parse_uint(s, max) is None && clamped(s, max) is None,
{
    decimal_round_trip(n, n);
    let d = dec(n);
    assert((seq!['+'] + d).drop_first() =~= d);
    assert(d.len() > 0 && is_digit(d[0]));
    if s.contains(c) {
        let i = choose|i: int| 0 <= i < s.len() && s[i] == c;
        if all_digits(s) {
            assert(is_digit(s[i]));
        }
        let t = s.drop_first();
        if i > 0 {
            assert(t[i - 1] == c);
            if all_digits(t) {
                assert(is_digit(t[i - 1]));
            }
        }
    }
}

/// A written number goes on by its digits.
pub proof fn digits_have_their_places(n: nat, d: nat)
    requires
        d < 10,
        n > 0,
    ensures
        dec(10 * n + d) == dec(n) + dec(d),
        dec(d) == seq!["0123456789"@[d as int]],
{
    reveal_strlit("0123456789");
    assert((10 * n + d) / 10 == n && (10 * n + d) % 10 == d);
    assert(dec(10 * n + d) =~= dec(n) + dec(d));
    assert(dec(d) =~= seq!["0123456789"@[d as int]]);
}

} // verus!
