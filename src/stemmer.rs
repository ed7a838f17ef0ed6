//! The stemming pipeline: the region after the first vowel goes through the
//! ending classes, the trailing vowel, the derivational suffix and the
//! soft-sign cleanup in turn.
use vstd::prelude::*;
use vstd::string::*;
use vstd::utf8::encode_utf8;

use crate::catalog::{
    adjective, adjective_list, double_n, double_n_list, is_vowel, is_vowel_char, noun, noun_list,
    ost, ost_list, participle, participle_list, perfective_ground, perfective_ground_list, reflexive,
    reflexive_list, soft_sign, soft_sign_list, superlative, superlative_list, trailing_i,
    trailing_i_list, verb, verb_list,
};
use crate::matcher::{derivational, ends_with, is_derivational, longest_ending, strip, try_replace};
use crate::preprocess::{preprocessed, ukstemmer_search_preprocess};

verus! {

/// Index of the first vowel of `s` at or after `i`; `s.len()` when there is none.
pub open spec fn vowel_from(s: Seq<char>, i: int) -> int
    decreases s.len() - i,
{
    if i < 0 || i >= s.len() {
        s.len() as int
    } else if is_vowel(s[i]) {
        i
    } else {
        vowel_from(s, i + 1)
    }
}

/// Index of the first vowel of `s`; `s.len()` when there is none.
pub open spec fn first_vowel(s: Seq<char>) -> int {
    vowel_from(s, 0)
}

/// The ending classes: a perfective gerund ending alone; otherwise the reflexive
/// ending, then an adjective ending followed by a participle ending, or else a
/// verb ending, or else a noun ending.
pub open spec fn step_endings(rv: Seq<char>) -> Seq<char> {
    let r0 = strip(rv, perfective_ground(), seq![]);
    if r0 != rv {
        r0
    } else {
        let r1 = strip(rv, reflexive(), seq![]);
        let r2 = strip(r1, adjective(), seq![]);
        if r2 != r1 {
            strip(r2, participle(), seq![])
        } else {
            let r3 = strip(r1, verb(), seq![]);
            if r3 != r1 {
                r3
            } else {
                strip(r1, noun(), seq![])
            }
        }
    }
}

/// The derivational suffix goes, where the region carries the marker.
pub open spec fn step_derivational(rv: Seq<char>) -> Seq<char> {
    if derivational(rv) {
        strip(rv, ost(), seq![])
    } else {
        rv
    }
}

/// A final soft sign goes; only then a superlative marker goes and a doubled
/// `н` becomes one.
pub open spec fn step_soft_sign(rv: Seq<char>) -> Seq<char> {
    let r1 = strip(rv, soft_sign(), seq![]);
    if r1 != rv {
        strip(strip(r1, superlative(), seq![]), double_n(), seq!['н'])
    } else {
        rv
    }
}

/// The region after the first vowel, once stemmed.
pub open spec fn stem_region(rv: Seq<char>) -> Seq<char> {
    step_soft_sign(step_derivational(strip(step_endings(rv), trailing_i(), seq![])))
}

/// The stem of a word in normal form: its part up to the first vowel, then the
/// stemmed rest; the word itself when it has no vowel.
pub open spec fn stem_of(p: Seq<char>) -> Seq<char> {
    let i = first_vowel(p);
    if i < p.len() {
        p.subrange(0, i + 1) + stem_region(p.subrange(i + 1, p.len() as int))
    } else {
        p
    }
}

/// Relies on `String`'s `FromIterator<char>`: the string holds the characters
/// in their order.
#[verifier::external_body]
fn string_of(v: &Vec<char>) -> (r: String)
    ensures
        r@ == v@,
{
    v.iter().collect()
}

fn chars_of(s: &String) -> (r: Vec<char>)
    ensures
        r@ == s@,
{
    let n = s.unicode_len();
    let mut r: Vec<char> = Vec::new();
    let mut i: usize = 0;
    while i < n
        invariant
            n == s@.len(),
            i <= n,
            r@ == s@.take(i as int),
        decreases n - i,
    {
        r.push(s.get_char(i));
        i += 1;
        assert(r@ =~= s@.take(i as int));
    }
    assert(s@.take(n as int) =~= s@);
    r
}

fn stem_region_in_place(rv: &mut Vec<char>)
    ensures
        final(rv)@ == stem_region(old(rv)@),
{
    let none: Vec<char> = Vec::new();
    let one_n: Vec<char> = vec!['н'];
    assert(none@ =~= seq![]);
    if !try_replace(rv, &perfective_ground_list(), &none) {
        try_replace(rv, &reflexive_list(), &none);
        if try_replace(rv, &adjective_list(), &none) {
            try_replace(rv, &participle_list(), &none);
        } else if !try_replace(rv, &verb_list(), &none) {
            try_replace(rv, &noun_list(), &none);
        }
    }
    try_replace(rv, &trailing_i_list(), &none);
    if is_derivational(rv) {
        try_replace(rv, &ost_list(), &none);
    }
    if try_replace(rv, &soft_sign_list(), &none) {
        try_replace(rv, &superlative_list(), &none);
        try_replace(rv, &double_n_list(), &one_n);
    }
}

/// The stem of `word`: its normal form, cut after the first vowel, with the
/// rest reduced by the suffix rules.
pub fn stem_word(word: String) -> (r: String)
    ensures
        r@ == stem_of(preprocessed(word@)),
{
    let p = ukstemmer_search_preprocess(word);
    let chars = chars_of(&p);
    let n = chars.len();
    let mut i: usize = 0;
    while i < n && !is_vowel_char(chars[i])
        invariant
            n == chars@.len(),
            i <= n,
            vowel_from(chars@, 0) == vowel_from(chars@, i as int),
        decreases n - i,
    {
        i += 1;
    }
    if i == n {
        return p;
    }
    let mut rv = crate::replace::replace(chars.as_slice(), &[], 0, i + 1);
    let head = crate::replace::replace(chars.as_slice(), &[], i + 1, n);
    stem_region_in_place(&mut rv);
    let mut out = head;
    out.append(&mut rv);
    string_of(&out)
}

/// `a` is the beginning of `b`.
pub open spec fn is_head_of(a: Seq<char>, b: Seq<char>) -> bool {
    a.len() <= b.len() && a == b.subrange(0, a.len() as int)
}

proof fn lemma_head_trans(a: Seq<char>, b: Seq<char>, c: Seq<char>)
    requires
        is_head_of(a, b),
        is_head_of(b, c),
    ensures
        is_head_of(a, c),
{
    assert(a =~= c.subrange(0, a.len() as int));
}

proof fn lemma_strip_is_head(s: Seq<char>, pats: Seq<Seq<char>>)
    ensures
        is_head_of(strip(s, pats, seq![]), s),
{
    crate::matcher::lemma_longest_ending_matches(s, pats);
    let m = longest_ending(s, pats);
    if m > 0 {
        assert(s.subrange(0, s.len() - m) + seq![] =~= s.subrange(0, s.len() - m));
        assert(s.subrange(0, s.len() - m) =~= s.subrange(0, s.len() - m).subrange(0, s.len() - m));
    } else {
        assert(s =~= s.subrange(0, s.len() as int));
    }
}

proof fn lemma_double_n_is_head(s: Seq<char>)
    ensures
        is_head_of(strip(s, double_n(), seq!['н']), s),
{
    reveal_strlit("нн");
    let pats = double_n();
    assert(pats.drop_last() =~= Seq::<Seq<char>>::empty());
    assert(longest_ending(s, pats.drop_last()) == 0);
    assert(pats.last() == seq!['н', 'н']);
    if ends_with(s, seq!['н', 'н']) {
        let n = s.len();
        assert(s.subrange(n - 2, n as int)[0] == s[n - 2]);
        assert(s.subrange(0, n - 2) + seq!['н'] =~= s.subrange(0, n - 1));
    } else {
        assert(s =~= s.subrange(0, s.len() as int));
    }
}

proof fn lemma_stem_region_is_head(rv: Seq<char>)
    ensures
        is_head_of(stem_region(rv), rv),
{
    let r0 = strip(rv, perfective_ground(), seq![]);
    lemma_strip_is_head(rv, perfective_ground());
    let r1 = strip(rv, reflexive(), seq![]);
    lemma_strip_is_head(rv, reflexive());
    let r2 = strip(r1, adjective(), seq![]);
    lemma_strip_is_head(r1, adjective());
    lemma_head_trans(r2, r1, rv);
    lemma_strip_is_head(r2, participle());
    lemma_head_trans(strip(r2, participle(), seq![]), r2, rv);
    lemma_strip_is_head(r1, verb());
    lemma_head_trans(strip(r1, verb(), seq![]), r1, rv);
    lemma_strip_is_head(r1, noun());
    lemma_head_trans(strip(r1, noun(), seq![]), r1, rv);
    let e = step_endings(rv);
    assert(is_head_of(e, rv));
    let t = strip(e, trailing_i(), seq![]);
    lemma_strip_is_head(e, trailing_i());
    lemma_head_trans(t, e, rv);
    let d = step_derivational(t);
    lemma_strip_is_head(t, ost());
    if derivational(t) {
        lemma_head_trans(d, t, rv);
    }
    assert(is_head_of(d, rv));
    let s1 = strip(d, soft_sign(), seq![]);
    lemma_strip_is_head(d, soft_sign());
    let s2 = strip(s1, superlative(), seq![]);
    lemma_strip_is_head(s1, superlative());
    lemma_double_n_is_head(s2);
    lemma_head_trans(strip(s2, double_n(), seq!['н']), s2, s1);
    lemma_head_trans(strip(s2, double_n(), seq!['н']), s1, d);
    lemma_head_trans(step_soft_sign(d), d, rv);
}

/// The stem of a word in normal form is a beginning of that word.
pub proof fn law_stem_is_head(p: Seq<char>)
    ensures
        is_head_of(stem_of(p), p),
{
    let i = first_vowel(p);
    lemma_vowel_from_bounds(p, 0);
    if i < p.len() {
        let rv = p.subrange(i + 1, p.len() as int);
        lemma_stem_region_is_head(rv);
        assert(stem_of(p) =~= p.subrange(0, stem_of(p).len() as int));
    } else {
        assert(p =~= p.subrange(0, p.len() as int));
    }
}

proof fn lemma_vowel_from_bounds(s: Seq<char>, i: int)
    requires
        0 <= i <= s.len(),
    ensures
        i <= vowel_from(s, i) <= s.len(),
        vowel_from(s, i) < s.len() ==> is_vowel(s[vowel_from(s, i)]),
    decreases s.len() - i,
{
    if i < s.len() && !is_vowel(s[i]) {
        lemma_vowel_from_bounds(s, i + 1);
    }
}

proof fn lemma_vowel_free(s: Seq<char>, i: int)
    requires
        0 <= i <= s.len(),
        forall|j: int| 0 <= j < s.len() ==> !is_vowel(#[trigger] s[j]),
    ensures
        vowel_from(s, i) == s.len(),
    decreases s.len() - i,
{
    if i < s.len() {
        lemma_vowel_free(s, i + 1);
    }
}

proof fn lemma_encode_len_concat(a: Seq<char>, b: Seq<char>)
    ensures
        encode_utf8(a + b).len() == encode_utf8(a).len() + encode_utf8(b).len(),
    decreases a.len(),
{
    if a.len() == 0 {
        assert(a + b =~= b);
    } else {
        lemma_encode_len_concat(a.drop_first(), b);
        assert((a + b).drop_first() =~= a.drop_first() + b);
        assert((a + b)[0] == a[0]);
    }
}

/// The stem of a word is never longer than the word's normal form, counted in
/// characters or in UTF-8 bytes.
pub proof fn law_stem_not_longer(w: Seq<char>)
    ensures
        stem_of(preprocessed(w)).len() <= preprocessed(w).len(),
        encode_utf8(stem_of(preprocessed(w))).len() <= encode_utf8(preprocessed(w)).len(),
{
    let p = preprocessed(w);
    let r = stem_of(p);
    law_stem_is_head(p);
    let rest = p.subrange(r.len() as int, p.len() as int);
    assert(p =~= r + rest);
    lemma_encode_len_concat(r, rest);
}

/// A word whose normal form has no vowel, the empty word among them, stems to
/// that normal form.
pub proof fn law_vowel_free_unchanged(w: Seq<char>)
    requires
        forall|j: int| 0 <= j < preprocessed(w).len() ==> !is_vowel(#[trigger] preprocessed(w)[j]),
    ensures
        stem_of(preprocessed(w)) == preprocessed(w),
{
    lemma_vowel_free(preprocessed(w), 0);
}

} // verus!
