use vstd::prelude::*;

verus! {

/// Rebuilds `st` with the span `start..end` swapped for `replacer`: the part
/// before the span, then `replacer`, then the part after the span.
pub fn replace<T: Copy>(st: &[T], replacer: &[T], start: usize, end: usize) -> (r: Vec<T>)
    requires
        start <= end <= st@.len(),
    ensures
        r@ == st@.subrange(0, start as int) + replacer@ + st@.subrange(end as int, st@.len() as int),
{
    let mut r: Vec<T> = Vec::new();
    let mut i: usize = 0;
    while i < start
        invariant
            i <= start <= end <= st@.len(),
            r@ == st@.subrange(0, i as int),
        decreases start - i,
    {
        r.push(st[i]);
        i += 1;
    }
    let mut j: usize = 0;
    while j < replacer.len()
        invariant
            j <= replacer@.len(),
            r@ == st@.subrange(0, start as int) + replacer@.subrange(0, j as int),
        decreases replacer@.len() - j,
    {
        r.push(replacer[j]);
        j += 1;
    }
    let mut k: usize = end;
    while k < st.len()
        invariant
            end <= k <= st@.len(),
            r@ == st@.subrange(0, start as int) + replacer@ + st@.subrange(end as int, k as int),
        decreases st@.len() - k,
    {
        r.push(st[k]);
        k += 1;
    }
    r
}

} // verus!
