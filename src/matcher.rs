//! Matching a class of endings at the end of a buffer, and replacing the match.
use vstd::prelude::*;

use crate::catalog::{endings_view, is_vowel, is_vowel_char};
use crate::replace::replace;

verus! {

/// `s` ends with `p`.
pub open spec fn ends_with(s: Seq<char>, p: Seq<char>) -> bool {
    p.len() <= s.len() && s.subrange(s.len() - p.len(), s.len() as int) == p
}

/// The length of the longest ending of `pats` that `s` ends with, or 0 when it
/// ends with none. Trying the endings from the leftmost start in the buffer
/// finds exactly this one.
pub open spec fn longest_ending(s: Seq<char>, pats: Seq<Seq<char>>) -> nat
    decreases pats.len(),
{
    if pats.len() == 0 {
        0
    } else {
        let m = longest_ending(s, pats.drop_last());
        let p = pats.last();
        if ends_with(s, p) && p.len() > m {
            p.len()
        } else {
            m
        }
    }
}

/// `s` with its longest ending of `pats` replaced by `to`; `s` itself when no
/// ending of `pats` matches.
pub open spec fn strip(s: Seq<char>, pats: Seq<Seq<char>>, to: Seq<char>) -> Seq<char> {
    let m = longest_ending(s, pats);
    if m > 0 {
        s.subrange(0, s.len() - m) + to
    } else {
        s
    }
}

pub proof fn lemma_longest_ending_matches(s: Seq<char>, pats: Seq<Seq<char>>)
    ensures
        longest_ending(s, pats) <= s.len(),
        longest_ending(s, pats) > 0 ==> exists|k: int|
            0 <= k < pats.len() && pats[k].len() == longest_ending(s, pats) && ends_with(
                s,
                #[trigger] pats[k],
            ),
    decreases pats.len(),
{
    if pats.len() > 0 {
        lemma_longest_ending_matches(s, pats.drop_last());
        let m = longest_ending(s, pats.drop_last());
        if m > 0 && longest_ending(s, pats) == m {
            let k = choose|k: int|
                0 <= k < pats.drop_last().len() && pats.drop_last()[k].len() == m && ends_with(
                    s,
                    #[trigger] pats.drop_last()[k],
                );
            assert(pats[k] == pats.drop_last()[k]);
        }
        if longest_ending(s, pats) != m {
            assert(pats[pats.len() - 1] == pats.last());
        }
    }
}

fn ends_with_str(s: &Vec<char>, p: &str) -> (r: bool)
    ensures
        r == ends_with(s@, p@),
{
    let n = p.unicode_len();
    if n > s.len() {
        return false;
    }
    let len = s.len();
    let base = len - n;
    let mut i: usize = 0;
    while i < n
        invariant
            n == p@.len(),
            len == s@.len(),
            base + n == len,
            i <= n,
            forall|j: int| 0 <= j < i ==> s@[base + j] == p@[j],
        decreases n - i,
    {
        if s[base + i] != p.get_char(i) {
            assert(s@.subrange(base as int, s@.len() as int)[i as int] != p@[i as int]);
            return false;
        }
        i += 1;
    }
    assert(s@.subrange(base as int, s@.len() as int) =~= p@);
    true
}

/// The length of the longest ending in `pats` that `s` ends with, 0 if none.
pub fn longest_ending_len(s: &Vec<char>, pats: &Vec<&str>) -> (r: usize)
    ensures
        r == longest_ending(s@, endings_view(pats@)),
{
    let ghost pv = endings_view(pats@);
    let mut m: usize = 0;
    let mut k: usize = 0;
    while k < pats.len()
        invariant
            k <= pats@.len(),
            pv == endings_view(pats@),
            m == longest_ending(s@, pv.take(k as int)),
            m <= s@.len(),
        decreases pats@.len() - k,
    {
        let p = pats[k];
        proof {
            assert(pv.take(k + 1).drop_last() =~= pv.take(k as int));
            assert(pv.take(k + 1).last() == p@);
        }
        if ends_with_str(s, p) {
            let n = p.unicode_len();
            if n > m {
                m = n;
            }
        }
        k += 1;
    }
    assert(pv.take(pats@.len() as int) =~= pv);
    m
}

/// Whether two buffers hold the same characters.
fn same(a: &Vec<char>, b: &Vec<char>) -> (r: bool)
    ensures
        r == (a@ == b@),
{
    if a.len() != b.len() {
        return false;
    }
    let mut i: usize = 0;
    while i < a.len()
        invariant
            a@.len() == b@.len(),
            i <= a@.len(),
            forall|j: int| 0 <= j < i ==> a@[j] == b@[j],
        decreases a@.len() - i,
    {
        if a[i] != b[i] {
            return false;
        }
        i += 1;
    }
    assert(a@ =~= b@);
    true
}

/// Replaces the longest ending of `pats` at the end of `rv` by `to`, and tells
/// whether the buffer changed.
pub fn try_replace(rv: &mut Vec<char>, pats: &Vec<&str>, to: &Vec<char>) -> (changed: bool)
    ensures
        final(rv)@ == strip(old(rv)@, endings_view(pats@), to@),
        changed == (final(rv)@ != old(rv)@),
{
    let m = longest_ending_len(rv, pats);
    if m == 0 {
        return false;
    }
    proof {
        lemma_longest_ending_matches(rv@, endings_view(pats@));
    }
    let len = rv.len();
    let next = replace(rv.as_slice(), to.as_slice(), len - m, len);
    assert(rv@.subrange(len as int, len as int) =~= Seq::<char>::empty());
    assert(next@ =~= strip(rv@, endings_view(pats@), to@));
    let changed = !same(&next, rv);
    *rv = next;
    changed
}

/// A consonant at `i` is followed by a vowel; here a consonant is any
/// character that is not a vowel.
pub open spec fn rise(s: Seq<char>, i: int) -> bool {
    0 <= i && i + 1 < s.len() && !is_vowel(s[i]) && is_vowel(s[i + 1])
}

/// Where the ending `ст` or `сть` of `s` starts; -1 when `s` has neither.
pub open spec fn st_start(s: Seq<char>) -> int {
    if ends_with(s, seq!['с', 'т']) {
        s.len() - 2
    } else if ends_with(s, seq!['с', 'т', 'ь']) {
        s.len() - 3
    } else {
        -1
    }
}

/// A consonant at `a`, vowels strictly between `a` and `b` (at least one),
/// consonants from `b` up to `c` (at least one), and a vowel at `c`.
pub open spec fn skeleton(s: Seq<char>, a: int, b: int, c: int) -> bool {
    0 <= a && a + 2 <= b && b < c && c < s.len() && !is_vowel(s[a]) && (forall|i: int|
        a < i < b ==> is_vowel(#[trigger] s[i])) && (forall|i: int|
        b <= i < c ==> !is_vowel(#[trigger] s[i])) && is_vowel(s[c])
}

/// The derivational marker: the skeleton, then any characters but a line feed
/// up to the ending `ст` or `сть`, which an `о` precedes.
pub open spec fn derivational(s: Seq<char>) -> bool {
    let d = st_start(s);
    d >= 1 && s[d - 1] == 'о' && exists|a: int, b: int, c: int|
        #[trigger] skeleton(s, a, b, c) && c < d && (forall|j: int| c < j < d ==> s[j] != '\n')
}

/// The same condition phrased over consonant-vowel pairs: one at `a`, and one
/// at `c` further on that closes before the ending.
spec fn paired(s: Seq<char>) -> bool {
    let d = st_start(s);
    d >= 1 && s[d - 1] == 'о' && exists|a: int, c: int|
        #![trigger rise(s, a), rise(s, c)]
        rise(s, a) && rise(s, c) && a + 1 < c && c + 2 <= d && (forall|j: int|
            c + 2 <= j < d ==> s[j] != '\n')
}

/// The first consonant at or after `i`, given one at `c`.
proof fn first_consonant(s: Seq<char>, i: int, c: int) -> (j: int)
    requires
        0 <= i <= c < s.len(),
        !is_vowel(s[c]),
    ensures
        i <= j <= c,
        !is_vowel(s[j]),
        forall|k: int| i <= k < j ==> is_vowel(#[trigger] s[k]),
    decreases c - i,
{
    if !is_vowel(s[i]) {
        i
    } else {
        first_consonant(s, i + 1, c)
    }
}

/// The first vowel at or after `i` up to `c`, or `c + 1` when there is none.
proof fn first_vowel_upto(s: Seq<char>, i: int, c: int) -> (j: int)
    requires
        0 <= i <= c + 1,
        c < s.len(),
    ensures
        i <= j <= c + 1,
        j <= c ==> is_vowel(s[j]),
        forall|k: int| i <= k < j ==> !is_vowel(#[trigger] s[k]),
    decreases c + 1 - i,
{
    if i > c {
        i
    } else if is_vowel(s[i]) {
        i
    } else {
        first_vowel_upto(s, i + 1, c)
    }
}

/// Two consonant-vowel pairs give a skeleton that ends with the vowel of the
/// later pair.
proof fn lemma_pairs_give_skeleton(s: Seq<char>, a: int, c: int)
    requires
        rise(s, a),
        rise(s, c),
        a + 1 < c,
    ensures
        exists|a2: int, b: int| #[trigger] skeleton(s, a2, b, c + 1),
    decreases c - a,
{
    let b = first_consonant(s, a + 2, c);
    let y = first_vowel_upto(s, b, c);
    if y > c {
        assert(skeleton(s, a, b, c + 1));
    } else {
        assert(y != b);
        assert(!is_vowel(s[y - 1]));
        lemma_pairs_give_skeleton(s, y - 1, c);
    }
}

proof fn lemma_paired_iff_derivational(s: Seq<char>)
    ensures
        paired(s) == derivational(s),
{
    let d = st_start(s);
    if paired(s) {
        let (a, c) = choose|a: int, c: int|
            #![trigger rise(s, a), rise(s, c)]
            rise(s, a) && rise(s, c) && a + 1 < c && c + 2 <= d && (forall|j: int|
                c + 2 <= j < d ==> s[j] != '\n');
        lemma_pairs_give_skeleton(s, a, c);
        let (a2, b) = choose|a2: int, b: int| #[trigger] skeleton(s, a2, b, c + 1);
        assert(forall|j: int| c + 1 < j < d ==> s[j] != '\n');
    }
    if derivational(s) {
        let (a, b, c) = choose|a: int, b: int, c: int|
            #[trigger] skeleton(s, a, b, c) && c < d && (forall|j: int| c < j < d ==> s[j] != '\n');
        assert(is_vowel(s[a + 1]));
        assert(!is_vowel(s[c - 1]));
        assert(rise(s, a) && rise(s, c - 1));
    }
}

fn rise_at(s: &Vec<char>, i: usize) -> (r: bool)
    requires
        i + 1 < s@.len(),
    ensures
        r == rise(s@, i as int),
{
    let len = s.len();
    let j = i + 1;
    !is_vowel_char(s[i]) && is_vowel_char(s[j])
}

/// Whether `s` carries the derivational marker.
pub fn is_derivational(s: &Vec<char>) -> (r: bool)
    ensures
        r == derivational(s@),
{
    proof {
        lemma_paired_iff_derivational(s@);
    }
    let n = s.len();
    let d: usize;
    if n >= 2 && s[n - 2] == 'с' && s[n - 1] == 'т' {
        assert(ends_with(s@, seq!['с', 'т'])) by {
            assert(s@.subrange(n - 2, n as int) =~= seq!['с', 'т']);
        }
        d = n - 2;
    } else if n >= 3 && s[n - 3] == 'с' && s[n - 2] == 'т' && s[n - 1] == 'ь' {
        assert(!ends_with(s@, seq!['с', 'т'])) by {
            if n >= 2 {
                assert(s@.subrange(n - 2, n as int)[1] == s@[n - 1]);
            }
        }
        assert(ends_with(s@, seq!['с', 'т', 'ь'])) by {
            assert(s@.subrange(n - 3, n as int) =~= seq!['с', 'т', 'ь']);
        }
        d = n - 3;
    } else {
        assert(st_start(s@) == -1) by {
            if n >= 2 && ends_with(s@, seq!['с', 'т']) {
                assert(s@.subrange(n - 2, n as int)[0] == s@[n - 2]);
                assert(s@.subrange(n - 2, n as int)[1] == s@[n - 1]);
            }
            if n >= 3 && ends_with(s@, seq!['с', 'т', 'ь']) {
                assert(s@.subrange(n - 3, n as int)[0] == s@[n - 3]);
                assert(s@.subrange(n - 3, n as int)[1] == s@[n - 2]);
                assert(s@.subrange(n - 3, n as int)[2] == s@[n - 1]);
            }
        }
        return false;
    }
    assert(st_start(s@) == d);
    if d < 1 || s[d - 1] != 'о' {
        return false;
    }
    // The last consonant-vowel pair that closes before the ending, with no
    // line feed between it and the ending.
    let mut e: usize = d;
    loop
        invariant
            d + 2 <= n == s@.len(),
            e <= d,
            st_start(s@) == d,
            paired(s@) == derivational(s@),
            forall|j: int| e <= j < d ==> s@[j] != '\n',
            forall|c: int| e - 2 < c && c + 2 <= d ==> !#[trigger] rise(s@, c),
        ensures
            2 <= e <= d,
            rise(s@, e - 2),
            forall|j: int| e <= j < d ==> s@[j] != '\n',
            forall|c: int| e - 2 < c && c + 2 <= d ==> !#[trigger] rise(s@, c),
        decreases e,
    {
        if e < 2 {
            assert forall|a2: int, c2: int|
                #![trigger rise(s@, a2), rise(s@, c2)]
                !(rise(s@, a2) && rise(s@, c2) && a2 + 1 < c2 && c2 + 2 <= d) by {}
            return false;
        }
        if rise_at(s, e - 2) {
            break;
        }
        if s[e - 1] == '\n' {
            assert forall|a2: int, c2: int|
                #![trigger rise(s@, a2), rise(s@, c2)]
                rise(s@, a2) && rise(s@, c2) && a2 + 1 < c2 && c2 + 2 <= d implies !(forall|j: int|
                c2 + 2 <= j < d ==> s@[j] != '\n') by {
                assert(c2 + 2 <= e - 1 < d);
            }
            return false;
        }
        e -= 1;
    }
    let c = e - 2;
    let mut a: usize = 0;
    while a + 1 < c
        invariant
            d + 2 <= n == s@.len(),
            c + 2 == e <= d,
            st_start(s@) == d,
            s@[d - 1] == 'о',
            paired(s@) == derivational(s@),
            rise(s@, c as int),
            forall|j: int| e <= j < d ==> s@[j] != '\n',
            forall|c2: int| c < c2 && c2 + 2 <= d ==> !#[trigger] rise(s@, c2),
            forall|a2: int| 0 <= a2 < a ==> !#[trigger] rise(s@, a2),
        decreases c - a,
    {
        if rise_at(s, a) {
            assert(rise(s@, a as int) && rise(s@, c as int));
            return true;
        }
        a += 1;
    }
    assert forall|a2: int, c2: int|
        #![trigger rise(s@, a2), rise(s@, c2)]
        !(rise(s@, a2) && rise(s@, c2) && a2 + 1 < c2 && c2 + 2 <= d) by {}
    false
}

} // verus!
