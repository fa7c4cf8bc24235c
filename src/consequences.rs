//! Facets from brave and cautious consequences.
use vstd::prelude::*;
use crate::route::strings_view;

verus! {

/// Whether `s` is among `v`.
pub fn contains_string(v: &Vec<String>, s: &String) -> (r: bool)
    ensures
        r == strings_view(v@).contains(s@),
{
    let mut i: usize = 0;
    while i < v.len()
        invariant
            i <= v.len(),
            forall|j: int| 0 <= j < i ==> strings_view(v@)[j] != s@,
        decreases v.len() - i,
    {
        if v[i].eq(s) {
            assert(strings_view(v@)[i as int] == s@);
            return true;
        }
        i = i + 1;
    }
    proof {
        if strings_view(v@).contains(s@) {
            let j = choose|j: int| 0 <= j < strings_view(v@).len() && strings_view(v@)[j] == s@;
            assert(strings_view(v@)[j] != s@);
        }
    }
    false
}

/// The atoms of `bc` that are not in `cc`, in the order of `bc`.
pub open spec fn facets_of(bc: Seq<Seq<char>>, cc: Seq<Seq<char>>) -> Seq<Seq<char>> {
    bc.filter(|a: Seq<char>| !cc.contains(a))
}

/// Facets: brave consequences that are not cautious.
pub fn facets(bc: &Vec<String>, cc: &Vec<String>) -> (r: Vec<String>)
    ensures
        strings_view(r@) == facets_of(strings_view(bc@), strings_view(cc@)),
{
    let ghost b = strings_view(bc@);
    let ghost c = strings_view(cc@);
    let mut r: Vec<String> = Vec::new();
    let mut i: usize = 0;
    assert(b.take(0) =~= Seq::<Seq<char>>::empty());
    assert(strings_view(r@) =~= Seq::<Seq<char>>::empty());
    while i < bc.len()
        invariant
            i <= bc.len(),
            b == strings_view(bc@),
            c == strings_view(cc@),
            strings_view(r@) == facets_of(b.take(i as int), c),
        decreases bc.len() - i,
    {
        assert(b.take(i + 1).drop_last() =~= b.take(i as int));
        assert(b.take(i + 1).last() == b[i as int]);
        proof {
            reveal(Seq::filter);
        }
        let ghost r0 = r@;
        if !contains_string(cc, &bc[i]) {
            r.push(bc[i].clone());
            assert(strings_view(r@) =~= strings_view(r0).push(b[i as int]));
        }
        i = i + 1;
    }
    assert(b.take(bc.len() as int) =~= b);
    r
}

/// `(|bc|, |cc|, |facets|)`, or zeros where no brave consequence exists.
pub open spec fn stats_of(bc: Seq<Seq<char>>, cc: Seq<Seq<char>>) -> (nat, nat, nat) {
    if bc.len() == 0 {
        (0, 0, 0)
    } else {
        (bc.len(), cc.len(), facets_of(bc, cc).len())
    }
}

/// Sizes of the brave consequences, the cautious consequences and the
/// facets.
pub fn stats(bc: &Vec<String>, cc: &Vec<String>) -> (r: (usize, usize, usize))
    ensures
        (r.0 as nat, r.1 as nat, r.2 as nat) == stats_of(strings_view(bc@), strings_view(cc@)),
{
    if bc.len() == 0 {
        (0, 0, 0)
    } else {
        let f = facets(bc, cc);
        (bc.len(), cc.len(), f.len())
    }
}

/// Every facet is a brave consequence and none is cautious.
pub proof fn lemma_facets_brave_not_cautious(bc: Seq<Seq<char>>, cc: Seq<Seq<char>>)
    ensures
        forall|a: Seq<char>| #[trigger] facets_of(bc, cc).contains(a) ==> bc.contains(a) && !cc.contains(a),
{
    assert forall|a: Seq<char>| #[trigger] facets_of(bc, cc).contains(a) implies bc.contains(a) && !cc.contains(a) by {
        let pred = |x: Seq<char>| !cc.contains(x);
        let f = bc.filter(pred);
        let i = choose|i: int| 0 <= i < f.len() && f[i] == a;
        bc.lemma_filter_pred(pred, i);
        bc.lemma_filter_contains_rev(pred, a);
    }
}

/// The facet count of the statistics is the number of facets, whenever a
/// brave consequence exists (else both are zero).
pub proof fn lemma_stats_count_facets(bc: Seq<Seq<char>>, cc: Seq<Seq<char>>)
    ensures
        stats_of(bc, cc).2 == (if bc.len() == 0 { 0 } else { facets_of(bc, cc).len() }),
        bc.len() == 0 ==> facets_of(bc, cc).len() == 0,
{
}

} // verus!
