//! Text helpers over the characters of a string.
//!
//! A string is modelled by its characters (`s@ : Seq<char>`). Every helper here states what
//! it returns in terms of those characters.
use vstd::prelude::*;

verus! {

/// `String::push` appends one character.
pub assume_specification[ String::push ](s: &mut String, c: char)
    ensures
        final(s)@ == old(s)@.push(c),
;

/// What `str::to_lowercase` returns: the Unicode lowercase mapping of a text.
pub uninterp spec fn lowercase(s: Seq<char>) -> Seq<char>;

/// `str::to_lowercase`: the lowercase equivalent of a text. For a text of ASCII characters that
/// is the text with each of `A` to `Z` replaced by its small letter.
#[verifier::external_body]
pub(crate) fn to_lowercase(s: &str) -> (r: String)
    ensures
        r@ == lowercase(s@),
        vstd::utf8::is_ascii_chars(s@) ==> r@ == ascii_lower(s@),
{
    s.to_lowercase()
}

/// `String::from_utf8`: the text of bytes that are valid UTF-8, and nothing for other bytes.
#[verifier::external_body]
pub(crate) fn from_utf8(b: Vec<u8>) -> (r: Option<String>)
    ensures
        match r {
            Some(s) => vstd::utf8::valid_utf8(b@) && s@ == vstd::utf8::decode_utf8(b@),
            None => !vstd::utf8::valid_utf8(b@),
        },
{
    String::from_utf8(b).ok()
}

/// What `String::from_utf8_lossy` returns: the text of bytes, with invalid sequences replaced.
pub uninterp spec fn lossy(b: Seq<u8>) -> Seq<char>;

/// `String::from_utf8_lossy`: the text of bytes; bytes that are valid UTF-8 give their text.
#[verifier::external_body]
pub(crate) fn from_utf8_lossy(b: &[u8]) -> (r: String)
    ensures
        r@ == lossy(b@),
        vstd::utf8::valid_utf8(b@) ==> r@ == vstd::utf8::decode_utf8(b@),
{
    String::from_utf8_lossy(b).into_owned()
}

/// The characters of a list of strings.
pub open spec fn texts(v: Seq<String>) -> Seq<Seq<char>> {
    Seq::new(v.len(), |i: int| v[i]@)
}

/// The characters of an optional string.
pub open spec fn opt_text(o: Option<String>) -> Option<Seq<char>> {
    match o {
        Some(s) => Some(s@),
        None => None,
    }
}

/// The bytes of an optional byte string.
pub open spec fn opt_bytes(o: Option<Vec<u8>>) -> Option<Seq<u8>> {
    match o {
        Some(b) => Some(b@),
        None => None,
    }
}

/// The characters of an optional borrowed string.
pub open spec fn opt_str(o: Option<&str>) -> Option<Seq<char>> {
    match o {
        Some(s) => Some(s@),
        None => None,
    }
}

/// The characters of a string, in order.
pub fn chars_of(s: &str) -> (r: Vec<char>)
    ensures
        r@ == s@,
{
    let mut out: Vec<char> = Vec::new();
    for c in it: s.chars()
        invariant
            it.seq() == s@,
            out@ == s@.take(it.index() as int),
    {
        out.push(c);
    }
    out
}

/// The string of the characters from `lo` up to `hi`.
pub fn substring(v: &Vec<char>, lo: usize, hi: usize) -> (r: String)
    requires
        lo <= hi <= v@.len(),
    ensures
        r@ == v@.subrange(lo as int, hi as int),
{
    let mut out = String::new();
    let mut i: usize = lo;
    while i < hi
        invariant
            lo <= i <= hi <= v@.len(),
            out@ == v@.subrange(lo as int, i as int),
        decreases hi - i,
    {
        out.push(v[i]);
        i = i + 1;
    }
    out
}

/// Whether two texts are the same.
pub fn same(a: &str, b: &str) -> (r: bool)
    ensures
        r == (a@ == b@),
{
    a.to_owned() == b.to_owned()
}

/// The first position of a character in a text, or the text's length.
pub open spec fn index_of(s: Seq<char>, c: char) -> int
    decreases s.len(),
{
    if s.len() == 0 || s[0] == c {
        0
    } else {
        1 + index_of(s.drop_first(), c)
    }
}

/// `index_of` is the position that holds the character and is preceded by others only.
pub proof fn lemma_index_of(s: Seq<char>, c: char, i: int)
    requires
        0 <= i <= s.len(),
        forall|k: int| 0 <= k < i ==> s[k] != c,
        i < s.len() ==> s[i] == c,
    ensures
        index_of(s, c) == i,
    decreases s.len(),
{
    if s.len() > 0 && s[0] != c {
        let t = s.drop_first();
        assert forall|k: int| 0 <= k < i - 1 implies t[k] != c by {
            assert(t[k] == s[k + 1]);
        }
        if i < s.len() {
            assert(t[i - 1] == s[i]);
        }
        lemma_index_of(t, c, i - 1);
    }
}

/// What `index_of` finds.
pub proof fn lemma_index_of_props(s: Seq<char>, c: char)
    ensures
        0 <= index_of(s, c) <= s.len(),
        index_of(s, c) < s.len() ==> s[index_of(s, c)] == c,
        forall|k: int| 0 <= k < index_of(s, c) ==> s[k] != c,
    decreases s.len(),
{
    if s.len() > 0 && s[0] != c {
        let t = s.drop_first();
        lemma_index_of_props(t, c);
        assert forall|k: int| 0 <= k < index_of(s, c) implies s[k] != c by {
            if k > 0 {
                assert(t[k - 1] == s[k]);
            }
        }
    }
}

/// The first position at or after `from` that holds `c`, or the length.
pub fn find_from(v: &Vec<char>, from: usize, c: char) -> (r: usize)
    requires
        from <= v@.len(),
    ensures
        from <= r <= v@.len(),
        r - from == index_of(v@.skip(from as int), c),
        forall|k: int| from <= k < r ==> v@[k] != c,
        r < v@.len() ==> v@[r as int] == c,
{
    let mut i: usize = from;
    while i < v.len() && v[i] != c
        invariant
            from <= i <= v@.len(),
            forall|k: int| from <= k < i ==> v@[k] != c,
        decreases v@.len() - i,
    {
        i = i + 1;
    }
    proof {
        let t = v@.skip(from as int);
        assert forall|k: int| 0 <= k < i - from implies t[k] != c by {
            assert(t[k] == v@[k + from]);
        }
        lemma_index_of(t, c, i - from);
    }
    i
}

/// Whether a character occurs in a text.
pub fn has_char(s: &str, c: char) -> (r: bool)
    ensures
        r == s@.contains(c),
{
    let v = chars_of(s);
    let i: usize = find_from(&v, 0, c);
    proof {
        if i < v@.len() {
            assert(s@[i as int] == c);
        }
    }
    i < v.len()
}

/// The code point of a character.
pub fn code_of(c: char) -> (r: u32)
    ensures
        r == c as int,
        r < 0x11_0000,
{
    c as u32
}

/// The characters with the Unicode property `White_Space`.
pub open spec fn white_space(c: char) -> bool {
    let n = c as int;
    ||| 0x09 <= n <= 0x0d
    ||| n == 0x20
    ||| n == 0x85
    ||| n == 0xa0
    ||| n == 0x1680
    ||| 0x2000 <= n <= 0x200a
    ||| n == 0x2028
    ||| n == 0x2029
    ||| n == 0x202f
    ||| n == 0x205f
    ||| n == 0x3000
}

/// Whether a character is white space.
pub fn is_white_space(c: char) -> (r: bool)
    ensures
        r == white_space(c),
{
    let n: u32 = c as u32;
    (0x09 <= n && n <= 0x0d) || n == 0x20 || n == 0x85 || n == 0xa0 || n == 0x1680 || (0x2000 <= n
        && n <= 0x200a) || n == 0x2028 || n == 0x2029 || n == 0x202f || n == 0x205f || n == 0x3000
}

/// A text without its leading white space.
pub open spec fn trim_start_v(s: Seq<char>) -> Seq<char>
    decreases s.len(),
{
    if s.len() > 0 && white_space(s[0]) {
        trim_start_v(s.drop_first())
    } else {
        s
    }
}

/// A text without its trailing white space.
pub open spec fn trim_end_v(s: Seq<char>) -> Seq<char>
    decreases s.len(),
{
    if s.len() > 0 && white_space(s.last()) {
        trim_end_v(s.drop_last())
    } else {
        s
    }
}

/// A text without its leading and trailing white space.
pub open spec fn trim_v(s: Seq<char>) -> Seq<char> {
    trim_end_v(trim_start_v(s))
}

/// The text without its trailing white space.
pub fn trim_end(s: &str) -> (r: String)
    ensures
        r@ == trim_end_v(s@),
{
    let v = chars_of(s);
    let mut hi: usize = v.len();
    assert(v@.take(hi as int) == v@);
    while hi > 0 && is_white_space(v[hi - 1])
        invariant
            hi <= v@.len(),
            trim_end_v(v@) == trim_end_v(v@.take(hi as int)),
        decreases hi,
    {
        assert(v@.take(hi as int).drop_last() == v@.take(hi - 1));
        hi = hi - 1;
    }
    assert(v@.subrange(0, hi as int) == v@.take(hi as int));
    substring(&v, 0, hi)
}

/// The text without its leading and trailing white space.
pub fn trim(s: &str) -> (r: String)
    ensures
        r@ == trim_v(s@),
{
    let v = chars_of(s);
    let n: usize = v.len();
    let mut lo: usize = 0;
    assert(v@.skip(0) == v@);
    while lo < n && is_white_space(v[lo])
        invariant
            lo <= n == v@.len(),
            trim_start_v(v@) == trim_start_v(v@.skip(lo as int)),
        decreases n - lo,
    {
        assert(v@.skip(lo as int).drop_first() == v@.skip(lo + 1));
        lo = lo + 1;
    }
    let rest = substring(&v, lo, n);
    assert(rest@ == v@.skip(lo as int));
    trim_end(rest.as_str())
}

/// A text holds only white space: trimming leaves nothing.
pub open spec fn blank(s: Seq<char>) -> bool {
    trim_v(s).len() == 0
}

/// Whether nothing is left of a text after trimming.
pub fn is_blank(s: &str) -> (r: bool)
    ensures
        r == blank(s@),
{
    trim(s).as_str().is_empty()
}

/// The parts of a text between the occurrences of a separator, empty parts included.
pub open spec fn split_v(s: Seq<char>, c: char) -> Seq<Seq<char>>
    decreases s.len(),
    via split_v_decreases
{
    let i = index_of(s, c);
    if i >= s.len() {
        seq![s]
    } else {
        seq![s.take(i)] + split_v(s.skip(i + 1), c)
    }
}

#[via_fn]
proof fn split_v_decreases(s: Seq<char>, c: char) {
    lemma_index_of_props(s, c);
}

/// The parts of a text between the occurrences of a separator.
pub fn split(s: &str, c: char) -> (r: Vec<String>)
    ensures
        texts(r@) == split_v(s@, c),
{
    let v = chars_of(s);
    let mut out: Vec<String> = Vec::new();
    let mut start: usize = 0;
    assert(v@.skip(0) == v@);
    loop
        invariant_except_break
            split_v(v@, c) == texts(out@) + split_v(v@.skip(start as int), c),
        invariant
            start <= v@.len(),
            v@ == s@,
        ensures
            split_v(v@, c) == texts(out@),
        decreases v@.len() - start,
    {
        let i: usize = find_from(&v, start, c);
        let ghost t = v@.skip(start as int);
        let part = substring(&v, start, i);
        let ghost before = out@;
        out.push(part);
        assert(texts(out@) == texts(before).push(part@));
        assert(part@ == t.take(i - start));
        if i >= v.len() {
            assert(t.take(i - start) == t);
            break;
        }
        assert(t.skip(i - start + 1) == v@.skip(i + 1));
        assert(texts(before) + (seq![part@] + split_v(v@.skip(i + 1), c)) == texts(out@) + split_v(
            v@.skip(i + 1),
            c,
        ));
        start = i + 1;
    }
    out
}

/// A text begins with another.
pub open spec fn prefixed(s: Seq<char>, p: Seq<char>) -> bool {
    p.len() <= s.len() && s.take(p.len() as int) == p
}

/// A text ends with another.
pub open spec fn suffixed(s: Seq<char>, p: Seq<char>) -> bool {
    p.len() <= s.len() && s.skip(s.len() - p.len()) == p
}

/// Whether `p` stands in `v` at position `at`.
pub fn matches_at(v: &Vec<char>, at: usize, p: &Vec<char>) -> (r: bool)
    requires
        at <= v@.len(),
    ensures
        r == prefixed(v@.skip(at as int), p@),
{
    if p.len() > v.len() - at {
        return false;
    }
    let mut k: usize = 0;
    while k < p.len()
        invariant
            k <= p@.len(),
            at + p@.len() <= v.len(),
            forall|j: int| 0 <= j < k ==> v@[at + j] == p@[j],
        decreases p@.len() - k,
    {
        if v[at + k] != p[k] {
            assert(v@.skip(at as int).take(p@.len() as int)[k as int] == v@[at + k]);
            return false;
        }
        k = k + 1;
    }
    assert(v@.skip(at as int).take(p@.len() as int) == p@);
    true
}

/// Whether a text begins with another.
pub fn starts_with(s: &str, p: &str) -> (r: bool)
    ensures
        r == prefixed(s@, p@),
{
    let v = chars_of(s);
    let w = chars_of(p);
    assert(v@.skip(0) == v@);
    matches_at(&v, 0, &w)
}

/// Whether a text ends with another.
pub fn ends_with(s: &str, p: &str) -> (r: bool)
    ensures
        r == suffixed(s@, p@),
{
    let v = chars_of(s);
    let w = chars_of(p);
    if w.len() > v.len() {
        return false;
    }
    let at: usize = v.len() - w.len();
    proof {
        let t = v@.skip(at as int);
        assert(t.take(w@.len() as int) == t);
    }
    matches_at(&v, at, &w)
}

/// What follows a prefix, where the text has it.
pub fn strip_prefix(s: &str, p: &str) -> (r: Option<String>)
    ensures
        match r {
            Some(t) => prefixed(s@, p@) && t@ == s@.skip(p@.len() as int),
            None => !prefixed(s@, p@),
        },
{
    let v = chars_of(s);
    let w = chars_of(p);
    assert(v@.skip(0) == v@);
    if matches_at(&v, 0, &w) {
        let rest = substring(&v, w.len(), v.len());
        assert(rest@ == s@.skip(p@.len() as int));
        Some(rest)
    } else {
        None
    }
}

/// A text occurs inside another.
pub open spec fn occurs(s: Seq<char>, p: Seq<char>) -> bool {
    exists|i: int| 0 <= i <= s.len() && #[trigger] prefixed(s.skip(i), p)
}

/// Whether a text occurs inside another.
pub fn contains(s: &str, p: &str) -> (r: bool)
    ensures
        r == occurs(s@, p@),
{
    let v = chars_of(s);
    let w = chars_of(p);
    let mut i: usize = 0;
    loop
        invariant
            i <= v@.len(),
            v@ == s@,
            w@ == p@,
            forall|k: int| 0 <= k < i ==> !prefixed(#[trigger] s@.skip(k), p@),
        decreases v@.len() - i,
    {
        if matches_at(&v, i, &w) {
            return true;
        }
        if i >= v.len() {
            return false;
        }
        i = i + 1;
    }
}

/// A text with every occurrence of `p`, from the left and without overlap, replaced by `w`.
pub open spec fn replace_v(s: Seq<char>, p: Seq<char>, w: Seq<char>) -> Seq<char>
    decreases s.len(),
{
    if p.len() == 0 || s.len() < p.len() {
        s
    } else if prefixed(s, p) {
        w + replace_v(s.skip(p.len() as int), p, w)
    } else {
        seq![s[0]] + replace_v(s.drop_first(), p, w)
    }
}

/// Replaces every occurrence of `p`.
pub fn replace(s: &str, p: &str, w: &str) -> (r: String)
    requires
        p@.len() > 0,
    ensures
        r@ == replace_v(s@, p@, w@),
{
    let v = chars_of(s);
    let pat = chars_of(p);
    let mut out = String::new();
    let mut i: usize = 0;
    assert(v@.skip(0) == v@);
    while v.len() - i >= pat.len()
        invariant
            i <= v@.len(),
            pat@ == p@,
            p@.len() > 0,
            out@ + replace_v(v@.skip(i as int), p@, w@) == replace_v(v@, p@, w@),
        decreases v@.len() - i,
    {
        let ghost t = v@.skip(i as int);
        let ghost o = out@;
        if matches_at(&v, i, &pat) {
            out.append(w);
            i = i + pat.len();
            assert(t.skip(p@.len() as int) == v@.skip(i as int));
            assert(o + (w@ + replace_v(v@.skip(i as int), p@, w@)) == out@ + replace_v(
                v@.skip(i as int),
                p@,
                w@,
            ));
        } else {
            out.push(v[i]);
            i = i + 1;
            assert(t.drop_first() == v@.skip(i as int));
            assert(o + (seq![t[0]] + replace_v(v@.skip(i as int), p@, w@)) == out@ + replace_v(
                v@.skip(i as int),
                p@,
                w@,
            ));
        }
    }
    let rest = substring(&v, i, v.len());
    assert(rest@ == v@.skip(i as int));
    out.append(rest.as_str());
    out
}

/// The small letter of an ASCII capital; any other character as it is.
pub open spec fn lower_char(c: char) -> char {
    if 'A' <= c <= 'Z' {
        (c as u32 + 32) as char
    } else {
        c
    }
}

/// A text with its ASCII capitals made small.
pub open spec fn ascii_lower(s: Seq<char>) -> Seq<char> {
    Seq::new(s.len(), |i: int| lower_char(s[i]))
}

/// The small letter of an ASCII capital; any other character as it is.
pub fn lower(c: char) -> (r: char)
    ensures
        r == lower_char(c),
{
    if 'A' <= c && c <= 'Z' {
        (c as u8 + 32) as char
    } else {
        c
    }
}

/// The text with its ASCII capitals made small.
pub fn to_ascii_lower(s: &str) -> (r: String)
    ensures
        r@ == ascii_lower(s@),
{
    let v = chars_of(s);
    let mut out = String::new();
    let mut i: usize = 0;
    while i < v.len()
        invariant
            i <= v@.len(),
            out@ == ascii_lower(v@).take(i as int),
        decreases v@.len() - i,
    {
        out.push(lower(v[i]));
        i = i + 1;
    }
    assert(ascii_lower(v@).take(i as int) == ascii_lower(v@));
    out
}

/// Two texts differ at most in the case of ASCII letters.
pub open spec fn same_ignoring_case(a: Seq<char>, b: Seq<char>) -> bool {
    ascii_lower(a) == ascii_lower(b)
}

/// Whether two texts differ at most in the case of ASCII letters.
pub fn eq_ignore_case(a: &str, b: &str) -> (r: bool)
    ensures
        r == same_ignoring_case(a@, b@),
{
    same(to_ascii_lower(a).as_str(), to_ascii_lower(b).as_str())
}

/// A line without a closing carriage return.
pub open spec fn strip_cr(s: Seq<char>) -> Seq<char> {
    if s.len() > 0 && s.last() == '\r' {
        s.drop_last()
    } else {
        s
    }
}

/// The lines of a text: cut at each line feed, with a carriage return before it dropped. A
/// closing line feed starts no further line.
pub open spec fn lines_v(s: Seq<char>) -> Seq<Seq<char>>
    decreases s.len(),
    via lines_v_decreases
{
    let i = index_of(s, '\n');
    if s.len() == 0 {
        seq![]
    } else if i >= s.len() {
        seq![s]
    } else {
        seq![strip_cr(s.take(i))] + lines_v(s.skip(i + 1))
    }
}

#[via_fn]
proof fn lines_v_decreases(s: Seq<char>) {
    lemma_index_of_props(s, '\n');
}

/// The lines of a text.
pub fn lines(s: &str) -> (r: Vec<String>)
    ensures
        texts(r@) == lines_v(s@),
{
    let v = chars_of(s);
    let mut out: Vec<String> = Vec::new();
    let mut start: usize = 0;
    assert(v@.skip(0) == v@);
    while start < v.len()
        invariant
            start <= v@.len(),
            lines_v(v@) == texts(out@) + lines_v(v@.skip(start as int)),
        decreases v@.len() - start,
    {
        let ghost t = v@.skip(start as int);
        let ghost before = out@;
        let i: usize = find_from(&v, start, '\n');
        if i >= v.len() {
            let part = substring(&v, start, i);
            assert(part@ == t);
            out.push(part);
            assert(texts(out@) == texts(before).push(part@));
            start = i;
            assert(v@.skip(start as int) == Seq::<char>::empty());
            assert(texts(before) + seq![t] == texts(out@) + Seq::<Seq<char>>::empty());
        } else {
            let mut end: usize = i;
            assert(t.take(i - start) == v@.subrange(start as int, i as int));
            if end > start && v[end - 1] == '\r' {
                end = end - 1;
                assert(t.take(i - start).drop_last() == v@.subrange(start as int, end as int));
            }
            let part = substring(&v, start, end);
            assert(part@ == strip_cr(t.take(i - start)));
            out.push(part);
            assert(texts(out@) == texts(before).push(part@));
            assert(t.skip(i - start + 1) == v@.skip(i + 1));
            assert(texts(before) + (seq![part@] + lines_v(v@.skip(i + 1))) == texts(out@)
                + lines_v(v@.skip(i + 1)));
            start = i + 1;
        }
    }
    assert(v@.skip(start as int) == Seq::<char>::empty());
    assert(texts(out@) + Seq::<Seq<char>>::empty() == texts(out@));
    out
}

/// Texts put together with a separator between them.
pub open spec fn join_v(parts: Seq<Seq<char>>, sep: Seq<char>) -> Seq<char>
    decreases parts.len(),
{
    if parts.len() == 0 {
        seq![]
    } else if parts.len() == 1 {
        parts[0]
    } else {
        join_v(parts.drop_last(), sep) + sep + parts.last()
    }
}

/// Puts texts together with a separator between them.
pub fn join(parts: &Vec<String>, sep: &str) -> (r: String)
    ensures
        r@ == join_v(texts(parts@), sep@),
{
    let mut out = String::new();
    let mut i: usize = 0;
    while i < parts.len()
        invariant
            i <= parts@.len(),
            out@ == join_v(texts(parts@).take(i as int), sep@),
        decreases parts@.len() - i,
    {
        proof {
            let next = texts(parts@).take(i + 1);
            assert(next.drop_last() == texts(parts@).take(i as int));
            assert(next.last() == parts@[i as int]@);
        }
        if i > 0 {
            out.append(sep);
        }
        out.append(parts[i].as_str());
        i = i + 1;
    }
    assert(texts(parts@).take(i as int) == texts(parts@));
    out
}

/// The order of texts: character by character, by code point, a prefix first.
pub open spec fn before(a: Seq<char>, b: Seq<char>) -> bool
    decreases a.len(),
{
    if b.len() == 0 {
        false
    } else if a.len() == 0 {
        true
    } else if a[0] != b[0] {
        a[0] < b[0]
    } else {
        before(a.drop_first(), b.drop_first())
    }
}

/// Whether a text comes before another.
pub fn less(a: &str, b: &str) -> (r: bool)
    ensures
        r == before(a@, b@),
{
    let v = chars_of(a);
    let w = chars_of(b);
    let mut i: usize = 0;
    assert(v@.skip(0) == v@);
    assert(w@.skip(0) == w@);
    while i < v.len() && i < w.len() && v[i] == w[i]
        invariant
            i <= v@.len(),
            i <= w@.len(),
            before(v@, w@) == before(v@.skip(i as int), w@.skip(i as int)),
        decreases v@.len() - i,
    {
        assert(v@.skip(i as int).drop_first() == v@.skip(i + 1));
        assert(w@.skip(i as int).drop_first() == w@.skip(i + 1));
        i = i + 1;
    }
    if i >= w.len() {
        false
    } else if i >= v.len() {
        true
    } else {
        v[i] < w[i]
    }
}

/// The order of texts is total on different texts.
pub proof fn lemma_before_total(a: Seq<char>, b: Seq<char>)
    ensures
        before(a, b) || before(b, a) || a == b,
        !(before(a, b) && before(b, a)),
        !before(a, a),
    decreases a.len(),
{
    if a.len() > 0 && b.len() > 0 && a[0] == b[0] {
        lemma_before_total(a.drop_first(), b.drop_first());
        if a.drop_first() == b.drop_first() {
            assert(a == seq![a[0]] + a.drop_first());
            assert(b == seq![b[0]] + b.drop_first());
        }
    } else if a.len() == 0 && b.len() == 0 {
        assert(a == b);
    }
    if a.len() > 0 {
        lemma_before_total(a.drop_first(), a.drop_first());
    }
}

/// The order of texts is transitive.
pub proof fn lemma_before_trans(a: Seq<char>, b: Seq<char>, c: Seq<char>)
    requires
        before(a, b),
        before(b, c),
    ensures
        before(a, c),
    decreases a.len(),
{
    if a.len() > 0 && a[0] == b[0] && b[0] == c[0] {
        lemma_before_trans(a.drop_first(), b.drop_first(), c.drop_first());
    }
}

/// The length of a text in bytes of UTF-8.
pub open spec fn byte_len(s: Seq<char>) -> nat {
    vstd::utf8::encode_utf8(s).len()
}

/// The length of a text in bytes of UTF-8.
pub fn bytes_in(s: &str) -> (r: usize)
    ensures
        r == byte_len(s@),
{
    s.as_bytes().len()
}

/// Puts two texts together.
pub fn cat(a: &str, b: &str) -> (r: String)
    ensures
        r@ == a@ + b@,
{
    a.to_owned().concat(b)
}

/// Puts three texts together.
pub fn cat3(a: &str, b: &str, c: &str) -> (r: String)
    ensures
        r@ == a@ + b@ + c@,
{
    a.to_owned().concat(b).concat(c)
}

/// The first `n` characters of a text.
pub open spec fn first_chars(s: Seq<char>, n: int) -> Seq<char> {
    if s.len() <= n {
        s
    } else {
        s.take(n)
    }
}

/// The first `n` characters of a text.
pub fn take_chars(s: &str, n: usize) -> (r: String)
    ensures
        r@ == first_chars(s@, n as int),
{
    let v = chars_of(s);
    if v.len() <= n {
        assert(v@.subrange(0, v@.len() as int) == v@);
        substring(&v, 0, v.len())
    } else {
        assert(v@.subrange(0, n as int) == v@.take(n as int));
        substring(&v, 0, n)
    }
}

/// Whether a list of names holds one.
pub fn has_name(names: &Vec<String>, key: &str) -> (r: bool)
    ensures
        r == texts(names@).contains(key@),
{
    let mut i: usize = 0;
    while i < names.len()
        invariant
            i <= names@.len(),
            forall|k: int| 0 <= k < i ==> texts(names@)[k] != key@,
        decreases names@.len() - i,
    {
        if same(names[i].as_str(), key) {
            assert(texts(names@)[i as int] == key@);
            return true;
        }
        i = i + 1;
    }
    false
}

/// The first position at which a text occurs inside another, or that one's length plus one.
pub open spec fn place_of(s: Seq<char>, p: Seq<char>) -> int
    decreases s.len(),
{
    if prefixed(s, p) {
        0
    } else if s.len() == 0 {
        1
    } else {
        1 + place_of(s.drop_first(), p)
    }
}

/// What stands before the first occurrence of a text.
pub open spec fn text_before(s: Seq<char>, p: Seq<char>) -> Option<Seq<char>> {
    if place_of(s, p) <= s.len() {
        Some(s.take(place_of(s, p)))
    } else {
        None
    }
}

/// What stands before the first occurrence of a text.
pub fn cut_before(s: &str, p: &str) -> (r: Option<String>)
    ensures
        opt_text(r) == text_before(s@, p@),
{
    let v = chars_of(s);
    let w = chars_of(p);
    let mut i: usize = 0;
    assert(v@.skip(0) == v@);
    loop
        invariant
            i <= v@.len(),
            v@ == s@,
            w@ == p@,
            place_of(s@, p@) == i + place_of(s@.skip(i as int), p@),
        decreases v@.len() - i,
    {
        if matches_at(&v, i, &w) {
            let r = substring(&v, 0, i);
            assert(r@ =~= s@.take(i as int));
            return Some(r);
        }
        if i >= v.len() {
            return None;
        }
        assert(s@.skip(i as int).drop_first() == s@.skip(i + 1));
        i = i + 1;
    }
}

/// A text without the occurrences of a character at its end.
pub open spec fn trim_end_char_v(s: Seq<char>, c: char) -> Seq<char>
    decreases s.len(),
{
    if s.len() > 0 && s.last() == c {
        trim_end_char_v(s.drop_last(), c)
    } else {
        s
    }
}

/// The text without the occurrences of a character at its end.
pub fn trim_end_char(s: &str, c: char) -> (r: String)
    ensures
        r@ == trim_end_char_v(s@, c),
{
    let v = chars_of(s);
    let mut hi: usize = v.len();
    assert(v@.take(hi as int) == v@);
    while hi > 0 && v[hi - 1] == c
        invariant
            hi <= v@.len(),
            trim_end_char_v(v@, c) == trim_end_char_v(v@.take(hi as int), c),
        decreases hi,
    {
        assert(v@.take(hi as int).drop_last() == v@.take(hi - 1));
        hi = hi - 1;
    }
    assert(v@.subrange(0, hi as int) == v@.take(hi as int));
    substring(&v, 0, hi)
}

/// What stands before the first occurrence of a character, and what after it.
pub open spec fn cut_v(s: Seq<char>, c: char) -> (Seq<char>, Option<Seq<char>>) {
    let i = index_of(s, c);
    if i >= s.len() {
        (s, None)
    } else {
        (s.take(i), Some(s.skip(i + 1)))
    }
}

/// Cuts a text at the first occurrence of a character.
pub fn cut_at(s: &str, c: char) -> (r: (String, Option<String>))
    ensures
        (r.0@, opt_text(r.1)) == cut_v(s@, c),
{
    let v = chars_of(s);
    assert(v@.skip(0) == v@);
    let i: usize = find_from(&v, 0, c);
    if i >= v.len() {
        return (s.to_owned(), None);
    }
    let head = substring(&v, 0, i);
    let tail = substring(&v, i + 1, v.len());
    assert(head@ =~= s@.take(i as int));
    assert(tail@ =~= s@.skip(i + 1));
    (head, Some(tail))
}

/// What is joined begins with the first part and the separator.
pub proof fn lemma_join_head(x: Seq<char>, parts: Seq<Seq<char>>, sep: Seq<char>)
    requires
        parts.len() > 0,
    ensures
        join_v(seq![x] + parts, sep) == x + sep + join_v(parts, sep),
    decreases parts.len(),
{
    let all = seq![x] + parts;
    if parts.len() == 1 {
        assert(all.drop_last() =~= seq![x]);
        assert(all.last() == parts[0]);
        assert(join_v(seq![x], sep) == x);
        assert(join_v(parts, sep) == parts[0]);
    } else {
        let t = parts.drop_last();
        assert(all.drop_last() =~= seq![x] + t);
        assert(all.last() == parts.last());
        lemma_join_head(x, t, sep);
        assert(x + sep + join_v(t, sep) + sep + parts.last() =~= x + sep + (join_v(t, sep) + sep
            + parts.last()));
    }
}

/// Parts that do not hold the separator are found again after they were joined.
pub proof fn lemma_split_join(parts: Seq<Seq<char>>, c: char)
    requires
        parts.len() > 0,
        forall|i: int| 0 <= i < parts.len() ==> !(#[trigger] parts[i]).contains(c),
    ensures
        split_v(join_v(parts, seq![c]), c) == parts,
    decreases parts.len(),
{
    let p = parts[0];
    let rest = parts.drop_first();
    assert forall|k: int| 0 <= k < p.len() implies p[k] != c by {
        assert(p.contains(p[k]));
    }
    if rest.len() == 0 {
        assert(parts =~= seq![p]);
        lemma_index_of(p, c, p.len() as int);
    } else {
        let tail = join_v(rest, seq![c]);
        let all = join_v(parts, seq![c]);
        assert(parts =~= seq![p] + rest);
        lemma_join_head(p, rest, seq![c]);
        assert(all == p + seq![c] + tail);
        assert forall|k: int| 0 <= k < p.len() implies all[k] != c by {
            assert(all[k] == p[k]);
        }
        assert(all[p.len() as int] == c);
        lemma_index_of(all, c, p.len() as int);
        assert(all.take(p.len() as int) =~= p);
        assert(all.skip(p.len() as int + 1) =~= tail);
        assert forall|i: int| 0 <= i < rest.len() implies !(#[trigger] rest[i]).contains(c) by {
            assert(rest[i] == parts[i + 1]);
        }
        lemma_split_join(rest, c);
    }
}

/// The order of texts is that of the first place where they differ, by code point; a text that
/// goes on where the other ends comes after it.
pub proof fn texts_are_ordered_by_their_first_difference(a: Seq<char>, b: Seq<char>, k: int)
    requires
        0 <= k <= a.len(),
        k <= b.len(),
        a.take(k) == b.take(k),
        k < a.len() && k < b.len() ==> a[k] != b[k],
    ensures
        k < a.len() && k < b.len() ==> (before(a, b) <==> a[k] < b[k]),
        k == a.len() ==> (before(a, b) <==> k < b.len()),
        k == b.len() ==> !before(a, b),
    decreases a.len(),
{
    if k > 0 {
        let (x, y) = (a.drop_first(), b.drop_first());
        assert(a.take(k)[0] == a[0] && b.take(k)[0] == b[0]);
        assert(x.take(k - 1) =~= a.take(k).drop_first());
        assert(y.take(k - 1) =~= b.take(k).drop_first());
        texts_are_ordered_by_their_first_difference(x, y, k - 1);
    }
}

/// Among the characters of ASCII, white space is the tab, the line breaks and the blank.
pub proof fn ascii_white_space(c: char)
    requires
        (c as int) < 128,
    ensures
        white_space(c) <==> c == '\t' || c == '\n' || c == '\u{b}' || c == '\u{c}' || c == '\r'
            || c == ' ',
{
}

/// A text is its trimmed form between two stretches of white space, and the trimmed form neither
/// begins nor ends with white space.
pub proof fn trimming_takes_only_outer_white_space(s: Seq<char>) -> (r: (int, int))
    ensures
        0 <= r.0 <= r.1 <= s.len(),
        trim_v(s) == s.subrange(r.0, r.1),
        forall|i: int| 0 <= i < r.0 ==> white_space(#[trigger] s[i]),
        forall|i: int| r.1 <= i < s.len() ==> white_space(#[trigger] s[i]),
        r.0 < r.1 ==> !white_space(s[r.0]) && !white_space(s[r.1 - 1]),
{
    let lo = lemma_lead(s);
    let t = s.skip(lo);
    let hi = lemma_trail(t);
    assert(t.take(hi) =~= s.subrange(lo, lo + hi));
    assert forall|i: int| lo + hi <= i < s.len() implies white_space(#[trigger] s[i]) by {
        assert(t[i - lo] == s[i]);
    }
    if hi > 0 {
        assert(t[0] == s[lo]);
        assert(t[hi - 1] == s[lo + hi - 1]);
    }
    (lo, lo + hi)
}

proof fn lemma_lead(s: Seq<char>) -> (lo: int)
    ensures
        0 <= lo <= s.len(),
        trim_start_v(s) == s.skip(lo),
        forall|i: int| 0 <= i < lo ==> white_space(#[trigger] s[i]),
        lo < s.len() ==> !white_space(s[lo]),
    decreases s.len(),
{
    if s.len() > 0 && white_space(s[0]) {
        let t = s.drop_first();
        let lo = lemma_lead(t);
        assert(t.skip(lo) =~= s.skip(lo + 1));
        assert forall|i: int| 0 <= i < lo + 1 implies white_space(#[trigger] s[i]) by {
            if i > 0 {
                assert(t[i - 1] == s[i]);
            }
        }
        if lo < t.len() {
            assert(t[lo] == s[lo + 1]);
        }
        lo + 1
    } else {
        assert(s.skip(0) =~= s);
        0
    }
}

proof fn lemma_trail(s: Seq<char>) -> (hi: int)
    ensures
        0 <= hi <= s.len(),
        trim_end_v(s) == s.take(hi),
        forall|i: int| hi <= i < s.len() ==> white_space(#[trigger] s[i]),
        hi > 0 ==> !white_space(s[hi - 1]),
    decreases s.len(),
{
    if s.len() > 0 && white_space(s.last()) {
        let t = s.drop_last();
        let hi = lemma_trail(t);
        assert(t.take(hi) =~= s.take(hi));
        assert forall|i: int| hi <= i < s.len() implies white_space(#[trigger] s[i]) by {
            if i < t.len() {
                assert(t[i] == s[i]);
            }
        }
        if hi > 0 {
            assert(t[hi - 1] == s[hi - 1]);
        }
        hi
    } else {
        assert(s.take(s.len() as int) =~= s);
        s.len() as int
    }
}

/// A cut stands at the first separator: what is before it holds none.
pub proof fn a_text_is_cut_at_the_first_separator(a: Seq<char>, c: char, b: Seq<char>)
    requires
        !a.contains(c),
    ensures
        cut_v(a + seq![c] + b, c) == (a, Some(b)),
        cut_v(a, c) == (a, None::<Seq<char>>),
{
    let s = a + seq![c] + b;
    lemma_index_of_props(s, c);
    lemma_index_of_props(a, c);
    let i = index_of(s, c);
    assert(s[a.len() as int] == c);
    if i < a.len() {
        assert(s[i] == a[i]);
        assert(a.contains(c));
    }
    assert(i == a.len());
    assert(s.take(i) =~= a);
    assert(s.skip(i + 1) =~= b);
    if index_of(a, c) < a.len() {
        assert(a[index_of(a, c)] == c);
    }
}

/// The first occurrence of a text is the one that is found.
pub proof fn the_first_occurrence_is_found(a: Seq<char>, p: Seq<char>, b: Seq<char>)
    requires
        forall|i: int| 0 <= i < a.len() ==> !prefixed(#[trigger] (a + p + b).skip(i), p),
    ensures
        text_before(a + p + b, p) == Some(a),
{
    lemma_place(a, p, b);
    assert((a + p + b).take(a.len() as int) =~= a);
}

proof fn lemma_place(a: Seq<char>, p: Seq<char>, b: Seq<char>)
    requires
        forall|i: int| 0 <= i < a.len() ==> !prefixed(#[trigger] (a + p + b).skip(i), p),
    ensures
        place_of(a + p + b, p) == a.len(),
    decreases a.len(),
{
    let s = a + p + b;
    if a.len() == 0 {
        assert(s.take(p.len() as int) =~= p);
    } else {
        assert(!prefixed(s.skip(0), p));
        assert(s.skip(0) =~= s);
        let t = a.drop_first();
        assert(s.drop_first() =~= t + p + b);
        assert forall|i: int| 0 <= i < t.len() implies !prefixed(#[trigger] (t + p + b).skip(i), p) by {
            assert((t + p + b).skip(i) =~= s.skip(i + 1));
        }
        lemma_place(t, p, b);
    }
}

/// A text stands in a longer one.
pub proof fn lemma_stands_in(a: Seq<char>, p: Seq<char>, b: Seq<char>)
    ensures
        occurs(a + p + b, p),
{
    let s = a + p + b;
    let t = s.skip(a.len() as int);
    assert(t.take(p.len() as int) =~= p);
    assert(prefixed(t, p));
}

/// A line of a text is what stands up to the next line feed, without the carriage return before
/// it; the last one needs no line feed.
pub proof fn a_text_falls_into_its_lines(a: Seq<char>, b: Seq<char>)
    requires
        !a.contains('\n'),
    ensures
        lines_v(a + seq!['\n'] + b) == seq![
            if a.len() > 0 && a.last() == '\r' {
                a.drop_last()
            } else {
                a
            },
        ] + lines_v(b),
        a.len() > 0 ==> lines_v(a) == seq![a],
        lines_v(Seq::<char>::empty()).len() == 0,
{
    let s = a + seq!['\n'] + b;
    lemma_index_of_props(s, '\n');
    lemma_index_of_props(a, '\n');
    let i = index_of(s, '\n');
    assert(s[a.len() as int] == '\n');
    if i < a.len() {
        assert(s[i] == a[i]);
        assert(a.contains('\n'));
    }
    assert(s.take(i) =~= a);
    assert(s.skip(i + 1) =~= b);
    if index_of(a, '\n') < a.len() {
        assert(a[index_of(a, '\n')] == '\n');
    }
}

/// The first part of a split text is what stands before the first separator; the others are the
/// parts of what stands behind it.
pub proof fn a_text_splits_at_its_separators(a: Seq<char>, c: char, b: Seq<char>)
    requires
        !a.contains(c),
    ensures
        split_v(a + seq![c] + b, c) == seq![a] + split_v(b, c),
        split_v(a, c) == seq![a],
{
    let s = a + seq![c] + b;
    lemma_index_of_props(s, c);
    lemma_index_of_props(a, c);
    let i = index_of(s, c);
    assert(s[a.len() as int] == c);
    if i < a.len() {
        assert(s[i] == a[i]);
        assert(a.contains(c));
    }
    assert(s.take(i) =~= a);
    assert(s.skip(i + 1) =~= b);
    if index_of(a, c) < a.len() {
        assert(a[index_of(a, c)] == c);
    }
}

/// White space is these twenty-five characters.
pub proof fn white_space_is_listed(c: char)
    ensures
        white_space(c) <==> c == '\t' || c == '\n' || c == '\u{b}' || c == '\u{c}' || c == '\r' || c
            == ' ' || c == '\u{85}' || c == '\u{a0}' || c == '\u{1680}' || c == '\u{2000}' || c
            == '\u{2001}' || c == '\u{2002}' || c == '\u{2003}' || c == '\u{2004}' || c == '\u{2005}'
            || c == '\u{2006}' || c == '\u{2007}' || c == '\u{2008}' || c == '\u{2009}' || c
            == '\u{200a}' || c == '\u{2028}' || c == '\u{2029}' || c == '\u{202f}' || c == '\u{205f}'
            || c == '\u{3000}',
{
}

/// A text begins, ends or goes on with another where the rest can be put to it.
pub proof fn a_text_holds_its_parts(a: Seq<char>, p: Seq<char>, b: Seq<char>)
    ensures
        prefixed(p + b, p),
        suffixed(a + p, p),
        occurs(a + p + b, p),
        forall|s: Seq<char>| #[trigger] prefixed(s, p) ==> s == p + s.skip(p.len() as int),
        forall|s: Seq<char>| #[trigger] suffixed(s, p) ==> s == s.take(s.len() - p.len()) + p,
{
    assert((p + b).take(p.len() as int) =~= p);
    assert((a + p).skip((a + p).len() - p.len()) =~= p);
    let s = a + p + b;
    assert(s.skip(a.len() as int) =~= p + b);
    assert(prefixed(s.skip(a.len() as int), p));
    assert forall|t: Seq<char>| #[trigger] prefixed(t, p) implies t == p + t.skip(
        p.len() as int,
    ) by {
        assert(t =~= t.take(p.len() as int) + t.skip(p.len() as int));
    }
    assert forall|t: Seq<char>| #[trigger] suffixed(t, p) implies t == t.take(t.len() - p.len())
        + p by {
        assert(t =~= t.take(t.len() - p.len()) + t.skip(t.len() - p.len()));
    }
}

/// The first occurrence of a text is replaced, and so is what stands behind it; a text without
/// an occurrence stays.
pub proof fn every_occurrence_is_replaced(a: Seq<char>, p: Seq<char>, b: Seq<char>, w: Seq<char>)
    requires
        p.len() > 0,
    ensures
        (forall|i: int| 0 <= i < a.len() ==> !prefixed(#[trigger] (a + p + b).skip(i), p))
            ==> replace_v(a + p + b, p, w) == a + w + replace_v(b, p, w),
        !occurs(a, p) ==> replace_v(a, p, w) == a,
    decreases a.len(),
{
    let s = a + p + b;
    if a.len() == 0 {
        assert(s =~= p + b);
        assert(s.take(p.len() as int) =~= p);
        assert(s.skip(p.len() as int) =~= b);
        assert(replace_v(s, p, w) =~= a + w + replace_v(b, p, w));
    } else {
        let t = a.drop_first();
        every_occurrence_is_replaced(t, p, b, w);
        assert(s.drop_first() =~= t + p + b);
        if forall|i: int| 0 <= i < a.len() ==> !prefixed(#[trigger] s.skip(i), p) {
            assert forall|i: int| 0 <= i < t.len() implies !prefixed(
                #[trigger] (t + p + b).skip(i),
                p,
            ) by {
                assert((t + p + b).skip(i) =~= s.skip(i + 1));
            }
            assert(s.skip(0) =~= s);
            assert(!prefixed(s, p));
            assert(s[0] == a[0]);
            assert(replace_v(s, p, w) =~= a + w + replace_v(b, p, w));
        }
        if !occurs(a, p) {
            assert(a.skip(0) =~= a);
            assert(!prefixed(a, p));
            if occurs(t, p) {
                let i = choose|i: int| 0 <= i <= t.len() && #[trigger] prefixed(t.skip(i), p);
                assert(t.skip(i) =~= a.skip(i + 1));
            }
            assert(replace_v(a, p, w) =~= a);
        }
    }
}

/// Case is that of the letters of ASCII: each large one has its small one, and nothing else
/// changes.
pub proof fn letters_have_two_cases(i: int)
    requires
        0 <= i < 26,
    ensures
        lower_char("ABCDEFGHIJKLMNOPQRSTUVWXYZ"@[i]) == "abcdefghijklmnopqrstuvwxyz"@[i],
        lower_char("abcdefghijklmnopqrstuvwxyz"@[i]) == "abcdefghijklmnopqrstuvwxyz"@[i],
{
    reveal_strlit("ABCDEFGHIJKLMNOPQRSTUVWXYZ");
    reveal_strlit("abcdefghijklmnopqrstuvwxyz");
}

/// Texts are the same but for case where they are as long and the same but for case at each
/// place.
pub proof fn case_is_ignored_at_each_place(a: Seq<char>, b: Seq<char>)
    ensures
        same_ignoring_case(a, b) <==> a.len() == b.len() && forall|i: int|
            0 <= i < a.len() ==> lower_char(#[trigger] a[i]) == lower_char(b[i]),
        forall|i: int|
            0 <= i < a.len() && !('A' <= a[i] <= 'Z') ==> #[trigger] ascii_lower(a)[i] == a[i],
{
    if same_ignoring_case(a, b) {
        assert(ascii_lower(a).len() == ascii_lower(b).len());
        assert forall|i: int| 0 <= i < a.len() implies lower_char(#[trigger] a[i]) == lower_char(
            b[i],
        ) by {
            assert(ascii_lower(a)[i] == ascii_lower(b)[i]);
        }
    }
    if a.len() == b.len() && forall|i: int|
        0 <= i < a.len() ==> lower_char(#[trigger] a[i]) == lower_char(b[i]) {
        assert(ascii_lower(a) =~= ascii_lower(b));
    }
}

/// What is put together is the parts in their order, with the separator between each two.
pub proof fn joined_texts_go_on(a: Seq<Seq<char>>, b: Seq<Seq<char>>, sep: Seq<char>)
    requires
        a.len() > 0,
        b.len() > 0,
    ensures
        join_v(a + b, sep) == join_v(a, sep) + sep + join_v(b, sep),
        join_v(seq![a[0]], sep) == a[0],
    decreases b.len(),
{
    if b.len() == 1 {
        assert((a + b).drop_last() =~= a);
        assert((a + b).last() == b[0]);
    } else {
        let t = b.drop_last();
        joined_texts_go_on(a, t, sep);
        assert((a + b).drop_last() =~= a + t);
        assert((a + b).last() == b.last());
        assert(join_v(a + b, sep) =~= join_v(a, sep) + sep + join_v(b, sep));
    }
}

/// Every occurrence of the character at the end goes, and nothing else.
pub proof fn a_character_is_trimmed_from_the_end(a: Seq<char>, c: char, n: nat)
    requires
        a.len() == 0 || a.last() != c,
    ensures
        trim_end_char_v(a + Seq::new(n, |i: int| c), c) == a,
    decreases n,
{
    let s = a + Seq::new(n, |i: int| c);
    if n == 0 {
        assert(s =~= a);
    } else {
        a_character_is_trimmed_from_the_end(a, c, (n - 1) as nat);
        assert(s.drop_last() =~= a + Seq::new((n - 1) as nat, |i: int| c));
        assert(s.last() == c);
    }
}

/// The first characters of a text are a part of it, as many as are asked for and are there.
pub proof fn a_text_is_cut_short(a: Seq<char>, b: Seq<char>)
    ensures
        first_chars(a + b, a.len() as int) == a,
        first_chars(a, a.len() + b.len() as int) == a,
{
    assert((a + b).take(a.len() as int) =~= a);
    assert(b.len() == 0 ==> a + b =~= a);
}

} // verus!
