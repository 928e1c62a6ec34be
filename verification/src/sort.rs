//! Stable insertion sort of `(luma, pixel)` samples, ascending by luma.
//! Samples with equal luma keep their relative insertion order — the
//! tie-break the median filter relies on.

use vstd::prelude::*;

use crate::pixel::Pixel;

verus! {

/// Insert `e` into `s` after every entry whose luma is less than or equal
/// to `e`'s — the stable insertion position.
pub open spec fn insert_sorted(e: (u8, Pixel), s: Seq<(u8, Pixel)>) -> Seq<(u8, Pixel)>
    decreases s.len(),
{
    if s.len() == 0 {
        seq![e]
    } else if s[0].0 <= e.0 {
        seq![s[0]] + insert_sorted(e, s.drop_first())
    } else {
        seq![e] + s
    }
}

/// Stable insertion sort by luma: entries are taken left to right and each
/// is inserted after all entries with luma less than or equal to its own.
pub open spec fn sort_by_luma(s: Seq<(u8, Pixel)>) -> Seq<(u8, Pixel)>
    decreases s.len(),
{
    if s.len() == 0 {
        Seq::<(u8, Pixel)>::empty()
    } else {
        insert_sorted(s.last(), sort_by_luma(s.drop_last()))
    }
}

/// Inserting grows the sequence by exactly one entry.
pub proof fn lemma_insert_len(e: (u8, Pixel), s: Seq<(u8, Pixel)>)
    ensures
        insert_sorted(e, s).len() == s.len() + 1,
    decreases s.len(),
{
    if s.len() > 0 && s[0].0 <= e.0 {
        lemma_insert_len(e, s.drop_first());
    }
}

/// Sorting keeps the length.
pub proof fn lemma_sort_len(s: Seq<(u8, Pixel)>)
    ensures
        sort_by_luma(s).len() == s.len(),
    decreases s.len(),
{
    if s.len() > 0 {
        lemma_sort_len(s.drop_last());
        lemma_insert_len(s.last(), sort_by_luma(s.drop_last()));
    }
}

/// The stable insertion position splits the sequence: with every entry
/// before `p` at most `e` and the entry at `p` (if any) strictly greater,
/// inserting places `e` exactly at index `p`.
proof fn lemma_insert_at(e: (u8, Pixel), s: Seq<(u8, Pixel)>, p: int)
    requires
        0 <= p <= s.len(),
        forall|i: int| 0 <= i < p ==> #[trigger] s[i].0 <= e.0,
        p < s.len() ==> s[p].0 > e.0,
    ensures
        insert_sorted(e, s) =~= s.subrange(0, p) + seq![e] + s.subrange(p, s.len() as int),
    decreases s.len(),
{
    if s.len() == 0 {
    } else if p == 0 {
        assert(s[0].0 > e.0);
    } else {
        assert(s[0].0 <= e.0);
        lemma_insert_at(e, s.drop_first(), p - 1);
        assert(s.drop_first().subrange(0, p - 1) =~= s.subrange(1, p));
        assert(s.drop_first().subrange(p - 1, s.drop_first().len() as int) =~= s.subrange(
            p,
            s.len() as int,
        ));
        assert(seq![s[0]] + (s.subrange(1, p) + seq![e] + s.subrange(p, s.len() as int))
            =~= s.subrange(0, p) + seq![e] + s.subrange(p, s.len() as int));
    }
}

/// Insert one sample into an already sorted vector at its stable position.
fn insert_entry(v: Vec<(u8, Pixel)>, e: (u8, Pixel)) -> (r: Vec<(u8, Pixel)>)
    ensures
        r@ == insert_sorted(e, v@),
{
    let mut p: usize = 0;
    while p < v.len() && v[p].0 <= e.0
        invariant
            0 <= p <= v.len(),
            forall|i: int| 0 <= i < p ==> #[trigger] v@[i].0 <= e.0,
        decreases v.len() - p,
    {
        p = p + 1;
    }
    let mut r: Vec<(u8, Pixel)> = Vec::new();
    let mut i: usize = 0;
    while i < p
        invariant
            0 <= i <= p <= v.len(),
            r@ =~= v@.subrange(0, i as int),
        decreases p - i,
    {
        r.push(v[i]);
        i = i + 1;
    }
    r.push(e);
    let mut j: usize = p;
    while j < v.len()
        invariant
            p <= j <= v.len(),
            r@ =~= v@.subrange(0, p as int) + seq![e] + v@.subrange(p as int, j as int),
        decreases v.len() - j,
    {
        r.push(v[j]);
        j = j + 1;
    }
    proof {
        lemma_insert_at(e, v@, p as int);
        assert(r@ =~= insert_sorted(e, v@));
    }
    r
}

/// Stable-sort the samples ascending by luma. Equal-luma samples keep
/// their relative order from `v`.
pub fn sort_entries(v: &Vec<(u8, Pixel)>) -> (r: Vec<(u8, Pixel)>)
    ensures
        r@ == sort_by_luma(v@),
{
    let mut r: Vec<(u8, Pixel)> = Vec::new();
    let mut i: usize = 0;
    while i < v.len()
        invariant
            0 <= i <= v.len(),
            r@ == sort_by_luma(v@.subrange(0, i as int)),
        decreases v.len() - i,
    {
        let e = v[i];
        r = insert_entry(r, e);
        proof {
            let pre = v@.subrange(0, i as int + 1);
            assert(pre.drop_last() =~= v@.subrange(0, i as int));
            assert(pre.last() == v@[i as int]);
            assert(r@ == sort_by_luma(pre));
        }
        i = i + 1;
    }
    proof {
        assert(v@.subrange(0, v@.len() as int) =~= v@);
    }
    r
}

} // verus!
