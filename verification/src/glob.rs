//! File name patterns: `*` stands for any characters, `?` for one.
use vstd::prelude::*;

use crate::text;
use crate::text::{chars_of, to_lowercase};

verus! {

/// A name matches a pattern, both taken as they are.
pub open spec fn fits(p: Seq<char>, s: Seq<char>) -> bool
    decreases p.len(),
{
    if p.len() == 0 {
        s.len() == 0
    } else if p[0] == '*' {
        exists|k: int| 0 <= k <= s.len() && fits(p.drop_first(), #[trigger] s.skip(k))
    } else {
        s.len() > 0 && (p[0] == '?' || p[0] == s[0]) && fits(p.drop_first(), s.drop_first())
    }
}

/// A pattern of stars only.
pub open spec fn all_stars(p: Seq<char>) -> bool {
    forall|i: int| 0 <= i < p.len() ==> p[i] == '*'
}

/// The search for a match from position `pi` of the pattern and `si` of the name, with the last
/// star at `star` (or `-1`) standing for the characters up to `mark`: characters are matched in
/// turn, a star is tried with as few characters as possible, and where no match goes on the
/// last star takes one character more.
pub open spec fn search(p: Seq<char>, s: Seq<char>, pi: int, si: int, star: int, mark: int) -> bool
    decreases p.len() - star, s.len() - mark, s.len() - si,
{
    if !(0 <= pi <= p.len() && 0 <= si <= s.len() && -1 <= star < pi && 0 <= mark <= si) {
        false
    } else if si == s.len() {
        all_stars(p.skip(pi))
    } else if pi < p.len() && (p[pi] == '?' || p[pi] == s[si]) {
        search(p, s, pi + 1, si + 1, star, mark)
    } else if pi < p.len() && p[pi] == '*' {
        search(p, s, pi + 1, si, pi, si)
    } else if star >= 0 {
        search(p, s, star + 1, mark + 1, star, mark + 1)
    } else {
        false
    }
}

/// Whether a name matches a pattern, both taken as they are. In a name that holds a star itself,
/// a star of the pattern that meets it stands for it alone.
pub fn glob_chars(p: &Vec<char>, s: &Vec<char>) -> (r: bool)
    ensures
        !s@.contains('*') ==> r == fits(p@, s@),
        r == search(p@, s@, 0, 0, -1, 0),
{
    let mut pi: usize = 0;
    let mut si: usize = 0;
    let mut star: Option<usize> = None;
    let mut mark: usize = 0;
    let ghost mut st: int = -1;
    while si < s.len()
        invariant
            pi <= p@.len(),
            mark <= si <= s@.len(),
            -1 <= st < pi,
            st == (match star {
                Some(x) => x as int,
                None => -1,
            }),
            search(p@, s@, 0, 0, -1, 0) == search(p@, s@, pi as int, si as int, st, mark as int),
        decreases p@.len() - st, s@.len() - mark, s@.len() - si,
    {
        if pi < p.len() && (p[pi] == '?' || p[pi] == s[si]) {
            pi = pi + 1;
            si = si + 1;
        } else if pi < p.len() && p[pi] == '*' {
            star = Some(pi);
            proof {
                st = pi as int;
            }
            mark = si;
            pi = pi + 1;
        } else if let Some(sp) = star {
            pi = sp + 1;
            mark = mark + 1;
            si = mark;
        } else {
            proof {
                if !s@.contains('*') {
                    the_search_is_complete(p@, s@);
                }
            }
            return false;
        }
    }
    let ghost from = pi;
    while pi < p.len() && p[pi] == '*'
        invariant
            from <= pi <= p@.len(),
            forall|k: int| from <= k < pi ==> p@[k] == '*',
        decreases p@.len() - pi,
    {
        pi = pi + 1;
    }
    proof {
        let rest = p@.skip(from as int);
        if pi == p@.len() {
            assert forall|i: int| 0 <= i < rest.len() implies rest[i] == '*' by {
                assert(rest[i] == p@[i + from]);
            }
        } else {
            assert(rest[pi - from] == p@[pi as int]);
        }
        if !s@.contains('*') {
            the_search_is_complete(p@, s@);
        }
    }
    pi == p.len()
}

/// Whether a name matches a pattern, without regard to case.
pub fn glob_match(pat: &str, name: &str) -> (r: bool)
    ensures
        !text::lowercase(name@).contains('*') ==> r == fits(
            text::lowercase(pat@),
            text::lowercase(name@),
        ),
        r == search(text::lowercase(pat@), text::lowercase(name@), 0, 0, -1, 0),
{
    let p = chars_of(to_lowercase(pat).as_str());
    let s = chars_of(to_lowercase(name).as_str());
    glob_chars(&p, &s)
}

/// The characters of the pattern from `a` to `b` match those of the name from `x` on, one by
/// one, and none of them is a star.
spec fn literal(p: Seq<char>, s: Seq<char>, a: int, b: int, x: int) -> bool {
    forall|i: int|
        a <= i < b ==> (#[trigger] p[i]) != '*' && (p[i] == '?' || p[i] == s[x + i - a])
}

proof fn lemma_literal(p: Seq<char>, s: Seq<char>, a: int, b: int, x: int)
    requires
        0 <= a <= b <= p.len(),
        0 <= x,
        x + b - a <= s.len(),
        literal(p, s, a, b, x),
    ensures
        fits(p.skip(a), s.skip(x)) == fits(p.skip(b), s.skip(x + b - a)),
    decreases b - a,
{
    if a < b {
        assert(p.skip(a)[0] == p[a]);
        assert(s.skip(x)[0] == s[x]);
        assert(p[a] != '*' && (p[a] == '?' || p[a] == s[x + a - a]));
        assert(p.skip(a).drop_first() =~= p.skip(a + 1));
        assert(s.skip(x).drop_first() =~= s.skip(x + 1));
        assert(literal(p, s, a + 1, b, x + 1)) by {
            assert forall|i: int| a + 1 <= i < b implies (#[trigger] p[i]) != '*' && (p[i] == '?'
                || p[i] == s[x + 1 + i - (a + 1)]) by {
                assert(s[x + 1 + i - (a + 1)] == s[x + i - a]);
            }
        }
        lemma_literal(p, s, a + 1, b, x + 1);
    }
}

/// A match of star-free characters followed by more leaves a match of what follows.
proof fn lemma_consumes(p: Seq<char>, s: Seq<char>, a: int, b: int, x: int)
    requires
        0 <= a <= b <= p.len(),
        0 <= x <= s.len(),
        forall|i: int| a <= i < b ==> (#[trigger] p[i]) != '*',
        fits(p.skip(a), s.skip(x)),
    ensures
        x + b - a <= s.len(),
        fits(p.skip(b), s.skip(x + b - a)),
    decreases b - a,
{
    if a < b {
        assert(p.skip(a)[0] == p[a]);
        assert(p[a] != '*');
        assert(p.skip(a).drop_first() =~= p.skip(a + 1));
        assert(s.skip(x).drop_first() =~= s.skip(x + 1));
        lemma_consumes(p, s, a + 1, b, x + 1);
    }
}

/// How many characters a leading star stands for in a match.
proof fn star_takes(p: Seq<char>, s: Seq<char>, star: int, mark: int) -> (k: int)
    requires
        0 <= star < p.len(),
        p[star] == '*',
        0 <= mark <= s.len(),
        fits(p.skip(star), s.skip(mark)),
    ensures
        0 <= k <= s.len() - mark,
        fits(p.skip(star + 1), s.skip(mark + k)),
{
    let q = p.skip(star);
    let t = s.skip(mark);
    assert(q[0] == '*');
    let k = choose|k: int| 0 <= k <= t.len() && fits(q.drop_first(), #[trigger] t.skip(k));
    assert(q.drop_first() =~= p.skip(star + 1));
    assert(t.skip(k) =~= s.skip(mark + k));
    k
}

/// A match of what follows a star is a match with the star standing for the characters between.
proof fn star_matches(p: Seq<char>, s: Seq<char>, star: int, mark: int, k: int)
    requires
        0 <= star < p.len(),
        p[star] == '*',
        0 <= mark <= mark + k <= s.len(),
        fits(p.skip(star + 1), s.skip(mark + k)),
    ensures
        fits(p.skip(star), s.skip(mark)),
{
    let q = p.skip(star);
    let t = s.skip(mark);
    assert(q[0] == '*');
    assert(q.drop_first() =~= p.skip(star + 1));
    assert(t.skip(k) =~= s.skip(mark + k));
    assert(fits(q.drop_first(), t.skip(k)));
}

/// What a star and its rest match further on, they match from here.
proof fn lemma_star_absorbs(p: Seq<char>, s: Seq<char>, a: int, x: int, y: int)
    requires
        0 <= a < p.len(),
        p[a] == '*',
        0 <= x <= y <= s.len(),
        fits(p.skip(a), s.skip(y)),
    ensures
        fits(p.skip(a), s.skip(x)),
{
    let k = star_takes(p, s, a, y);
    star_matches(p, s, a, x, y - x + k);
}

proof fn lemma_stars(p: Seq<char>, s: Seq<char>)
    requires
        s.len() == 0,
    ensures
        fits(p, s) == all_stars(p),
    decreases p.len(),
{
    if p.len() > 0 {
        lemma_stars(p.drop_first(), s);
        assert(s.skip(0) =~= s);
        let t = p.drop_first();
        if p[0] == '*' {
            if fits(p, s) {
                let k = choose|k: int| 0 <= k <= s.len() && fits(t, #[trigger] s.skip(k));
                assert forall|i: int| 0 <= i < p.len() implies p[i] == '*' by {
                    if i > 0 {
                        assert(t[i - 1] == p[i]);
                    }
                }
            }
            if all_stars(p) {
                assert forall|i: int| 0 <= i < t.len() implies t[i] == '*' by {
                    assert(t[i] == p[i + 1]);
                }
                assert(fits(t, s.skip(0)));
            }
        }
    }
}

/// What the search from a state decides.
spec fn meant(p: Seq<char>, s: Seq<char>, pi: int, si: int, star: int, mark: int) -> bool {
    if star < 0 {
        fits(p.skip(pi), s.skip(si))
    } else {
        fits(p.skip(star), s.skip(mark))
    }
}

proof fn lemma_search(p: Seq<char>, s: Seq<char>, pi: int, si: int, star: int, mark: int)
    requires
        0 <= pi <= p.len(),
        0 <= mark <= si <= s.len(),
        -1 <= star < pi,
        !s.contains('*'),
        star >= 0 ==> p[star] == '*' && literal(p, s, star + 1, pi, mark) && si - mark == pi - star
            - 1,
    ensures
        search(p, s, pi, si, star, mark) == meant(p, s, pi, si, star, mark),
    decreases p.len() - star, s.len() - mark, s.len() - si,
{
    if star >= 0 {
        lemma_literal(p, s, star + 1, pi, mark);
    }
    if si == s.len() {
        assert(s.skip(si).len() == 0);
        lemma_stars(p.skip(pi), s.skip(si));
        if star >= 0 {
            if fits(p.skip(star), s.skip(mark)) {
                let k = star_takes(p, s, star, mark);
                lemma_consumes(p, s, star + 1, pi, mark + k);
                assert(k == 0);
            }
            if fits(p.skip(pi), s.skip(si)) {
                star_matches(p, s, star, mark, 0);
            }
        }
    } else {
        assert(s[si] != '*') by {
            assert(s.contains(s[si]));
        }
        if pi < p.len() && (p[pi] == '?' || p[pi] == s[si]) {
            if star >= 0 {
                assert(literal(p, s, star + 1, pi + 1, mark)) by {
                    assert(s[mark + pi - (star + 1)] == s[si]);
                }
            } else {
                assert(p.skip(pi)[0] == p[pi]);
                assert(s.skip(si)[0] == s[si]);
                assert(p.skip(pi).drop_first() =~= p.skip(pi + 1));
                assert(s.skip(si).drop_first() =~= s.skip(si + 1));
            }
            lemma_search(p, s, pi + 1, si + 1, star, mark);
        } else if pi < p.len() && p[pi] == '*' {
            lemma_search(p, s, pi + 1, si, pi, si);
            if star >= 0 {
                if fits(p.skip(star), s.skip(mark)) {
                    let k = star_takes(p, s, star, mark);
                    lemma_consumes(p, s, star + 1, pi, mark + k);
                    lemma_star_absorbs(p, s, pi, si, mark + k + pi - (star + 1));
                }
                if fits(p.skip(pi), s.skip(si)) {
                    star_matches(p, s, star, mark, 0);
                }
            }
        } else if star >= 0 {
            assert(!fits(p.skip(pi), s.skip(si))) by {
                if pi < p.len() {
                    assert(p.skip(pi)[0] == p[pi]);
                    assert(s.skip(si)[0] == s[si]);
                }
            }
            assert(literal(p, s, star + 1, star + 1, mark + 1));
            lemma_search(p, s, star + 1, mark + 1, star, mark + 1);
            if fits(p.skip(star), s.skip(mark)) {
                let k = star_takes(p, s, star, mark);
                if k > 0 {
                    star_matches(p, s, star, mark + 1, k - 1);
                }
            }
            if fits(p.skip(star), s.skip(mark + 1)) {
                lemma_star_absorbs(p, s, star, mark, mark + 1);
            }
        } else {
            if pi < p.len() {
                assert(p.skip(pi)[0] == p[pi]);
                assert(s.skip(si)[0] == s[si]);
            }
        }
    }
}

/// For a name without a star, the search finds a match exactly where there is one.
pub proof fn the_search_is_complete(p: Seq<char>, s: Seq<char>)
    requires
        !s.contains('*'),
    ensures
        search(p, s, 0, 0, -1, 0) == fits(p, s),
{
    lemma_search(p, s, 0, 0, -1, 0);
    assert(p.skip(0) =~= p);
    assert(s.skip(0) =~= s);
}

/// A pattern of one literal character fits that character alone.
pub proof fn a_literal_fits_itself(c: char, s: Seq<char>)
    requires
        c != '*',
        c != '?',
    ensures
        fits(seq![c], s) <==> s == seq![c],
{
    lemma_one(c, s);
    if fits(seq![c], s) {
        assert(s =~= seq![c]);
    }
}

proof fn lemma_one(c: char, s: Seq<char>)
    requires
        c != '*',
    ensures
        fits(seq![c], s) <==> s.len() == 1 && (c == '?' || s[0] == c),
{
    let p = seq![c];
    assert(p.drop_first() =~= Seq::<char>::empty());
    if s.len() > 0 {
        assert(fits(p.drop_first(), s.drop_first()) == (s.drop_first().len() == 0));
    }
}

/// A question mark fits any one character, and a star fits any text.
pub proof fn wildcards_fit_what_they_stand_for(s: Seq<char>)
    ensures
        fits(seq!['?'], s) <==> s.len() == 1,
        fits(seq!['*'], s),
        fits(Seq::<char>::empty(), s) <==> s.len() == 0,
{
    lemma_one('?', s);
    let p = seq!['*'];
    assert(p.drop_first() =~= Seq::<char>::empty());
    assert(fits(p.drop_first(), s.skip(s.len() as int)));
}

/// Two patterns behind each other fit the texts that fall into a part that fits the first and a
/// rest that fits the second.
pub proof fn patterns_fit_behind_each_other(p: Seq<char>, q: Seq<char>, s: Seq<char>)
    ensures
        fits(p + q, s) <==> exists|k: int|
            0 <= k <= s.len() && fits(p, #[trigger] s.take(k)) && fits(q, s.skip(k)),
    decreases p.len(),
{
    if p.len() == 0 {
        assert(p + q =~= q);
        assert(s.skip(0) =~= s);
        if fits(q, s) {
            assert(fits(p, s.take(0)));
        }
        if exists|k: int| 0 <= k <= s.len() && fits(p, #[trigger] s.take(k)) && fits(q, s.skip(k)) {
            let k = choose|k: int|
                0 <= k <= s.len() && fits(p, #[trigger] s.take(k)) && fits(q, s.skip(k));
            assert(k == 0);
        }
    } else {
        let t = p.drop_first();
        assert((p + q).drop_first() =~= t + q);
        assert((p + q)[0] == p[0]);
        if p[0] == '*' {
            if fits(p + q, s) {
                let i = choose|i: int|
                    0 <= i <= s.len() && fits((p + q).drop_first(), #[trigger] s.skip(i));
                let u = s.skip(i);
                patterns_fit_behind_each_other(t, q, u);
                let k = choose|k: int|
                    0 <= k <= u.len() && fits(t, #[trigger] u.take(k)) && fits(q, u.skip(k));
                assert(s.take(i + k).skip(i) =~= u.take(k));
                assert(s.skip(i + k) =~= u.skip(k));
                assert(fits(p, s.take(i + k)));
            }
            if exists|k: int|
                0 <= k <= s.len() && fits(p, #[trigger] s.take(k)) && fits(q, s.skip(k)) {
                let k = choose|k: int|
                    0 <= k <= s.len() && fits(p, #[trigger] s.take(k)) && fits(q, s.skip(k));
                let v = s.take(k);
                let i = choose|i: int| 0 <= i <= v.len() && fits(t, #[trigger] v.skip(i));
                let u = s.skip(i);
                assert(u.take(k - i) =~= v.skip(i));
                assert(u.skip(k - i) =~= s.skip(k));
                patterns_fit_behind_each_other(t, q, u);
                assert(fits((p + q).drop_first(), s.skip(i)));
            }
        } else {
            if fits(p + q, s) {
                let u = s.drop_first();
                patterns_fit_behind_each_other(t, q, u);
                let k = choose|k: int|
                    0 <= k <= u.len() && fits(t, #[trigger] u.take(k)) && fits(q, u.skip(k));
                assert(s.take(k + 1).drop_first() =~= u.take(k));
                assert(s.skip(k + 1) =~= u.skip(k));
                assert(fits(p, s.take(k + 1)));
            }
            if exists|k: int|
                0 <= k <= s.len() && fits(p, #[trigger] s.take(k)) && fits(q, s.skip(k)) {
                let k = choose|k: int|
                    0 <= k <= s.len() && fits(p, #[trigger] s.take(k)) && fits(q, s.skip(k));
                let u = s.drop_first();
                assert(s.take(k).len() > 0);
                assert(u.take(k - 1) =~= s.take(k).drop_first());
                assert(u.skip(k - 1) =~= s.skip(k));
                patterns_fit_behind_each_other(t, q, u);
            }
        }
    }
}

} // verus!
