//! Normalisation of a word before stemming.
use vstd::prelude::*;
use vstd::string::*;
use vstd::utf8::{decode_utf8, valid_utf8};

verus! {

/// What `str::to_lowercase` returns for a string with these characters.
pub uninterp spec fn lower_of(s: Seq<char>) -> Seq<char>;

/// Relies on `str::to_lowercase`: the result depends on the characters alone.
#[verifier::external_body]
fn lowercase(s: &str) -> (r: String)
    ensures
        r@ == lower_of(s@),
{
    s.to_lowercase()
}

/// What one character becomes: an apostrophe is dropped, `ё` becomes `е` and
/// `ъ` becomes `ї`; any other character stays.
pub open spec fn fold_char(c: char) -> Seq<char> {
    if c == '\'' {
        seq![]
    } else if c == 'ё' {
        seq!['е']
    } else if c == 'ъ' {
        seq!['ї']
    } else {
        seq![c]
    }
}

/// Each character of `s` folded in turn.
pub open spec fn fold(s: Seq<char>) -> Seq<char>
    decreases s.len(),
{
    if s.len() == 0 {
        seq![]
    } else {
        fold(s.drop_last()) + fold_char(s.last())
    }
}

/// The normal form of a word: lowercased, then folded.
pub open spec fn preprocessed(w: Seq<char>) -> Seq<char> {
    fold(lower_of(w))
}

/// Lowercases `word`, drops its apostrophes and replaces `ё` by `е` and `ъ` by `ї`.
pub fn ukstemmer_search_preprocess(word: String) -> (r: String)
    ensures
        r@ == preprocessed(word@),
{
    let lowered = lowercase(word.as_str());
    let n = lowered.unicode_len();
    let mut out = String::new();
    let mut i: usize = 0;
    while i < n
        invariant
            n == lowered@.len(),
            i <= n,
            out@ == fold(lowered@.take(i as int)),
        decreases n - i,
    {
        let c = lowered.get_char(i);
        proof {
            assert(lowered@.take(i + 1).drop_last() =~= lowered@.take(i as int));
            assert(lowered@.take(i + 1).last() == c);
            reveal_strlit("е");
            reveal_strlit("ї");
        }
        if c == '\'' {
            assert(out@ + fold_char(c) =~= out@);
        } else if c == 'ё' {
            out.append("е");
        } else if c == 'ъ' {
            out.append("ї");
        } else {
            out.append(lowered.substring_char(i, i + 1));
            assert(lowered@.subrange(i as int, i + 1) =~= seq![c]);
        }
        i += 1;
    }
    assert(lowered@.take(n as int) =~= lowered@);
    out
}

/// Relies on `std::str::from_utf8`: it succeeds exactly on valid UTF-8, and
/// then holds the characters that the bytes encode.
#[verifier::external_body]
fn utf8_str(b: &[u8]) -> (r: Option<&str>)
    ensures
        r is Some <==> valid_utf8(b@),
        r matches Some(s) ==> s@ == decode_utf8(b@),
{
    std::str::from_utf8(b).ok()
}

/// The string that the UTF-8 bytes `b` encode.
pub fn as_str(b: &[u8]) -> (r: String)
    requires
        valid_utf8(b@),
    ensures
        r@ == decode_utf8(b@),
{
    match utf8_str(b) {
        Some(s) => String::from_str(s),
        None => String::new(),
    }
}

/// Folding distributes over concatenation.
pub proof fn lemma_fold_concat(a: Seq<char>, b: Seq<char>)
    ensures
        fold(a + b) == fold(a) + fold(b),
    decreases b.len(),
{
    if b.len() == 0 {
        assert(a + b =~= a);
        assert(fold(a) + fold(b) =~= fold(a));
    } else {
        lemma_fold_concat(a, b.drop_last());
        assert((a + b).drop_last() =~= a + b.drop_last());
        assert((a + b).last() == b.last());
    }
}

/// Folding a folded word changes nothing.
pub proof fn law_fold_idempotent(s: Seq<char>)
    ensures
        fold(fold(s)) == fold(s),
    decreases s.len(),
{
    if s.len() > 0 {
        law_fold_idempotent(s.drop_last());
        let c = s.last();
        lemma_fold_concat(fold(s.drop_last()), fold_char(c));
        let fc = fold_char(c);
        if fc.len() == 1 {
            assert(fc.drop_last() =~= Seq::<char>::empty());
            assert(fold(fc.drop_last()) =~= Seq::<char>::empty());
            assert(fold(fc) =~= fc);
        } else {
            assert(fold(fc) =~= fc);
        }
    }
}

/// Preprocessing a preprocessed word gives it back, for every word whose
/// normal form lowercasing leaves as it is.
pub proof fn law_preprocess_idempotent(w: Seq<char>)
    requires
        lower_of(preprocessed(w)) == preprocessed(w),
    ensures
        preprocessed(preprocessed(w)) == preprocessed(w),
{
    law_fold_idempotent(lower_of(w));
}

} // verus!
