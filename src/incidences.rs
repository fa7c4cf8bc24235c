//! The incidence view: which facets stay open once another is activated.
use vstd::prelude::*;
use crate::consequences::contains_string;
use crate::route::strings_view;

verus! {

/// Which incidences to show, over an order of facets.
pub enum Structure {
    /// Facet incidences; an empty order stands for all current facets.
    F(Vec<String>),
    B(Vec<String>),
    C(Vec<String>),
}

impl Structure {
    /// The facets whose incidences are shown: the given order, or the
    /// `current` facets where none is given. Only facet incidences have a
    /// view.
    pub fn order(&self, current: &Vec<String>) -> (r: Vec<String>)
        ensures
            match self {
                Structure::F(ord) => strings_view(r@) == if ord.len() == 0 {
                    strings_view(current@)
                } else {
                    strings_view(ord@)
                },
                _ => r.len() == 0,
            },
    {
        match self {
            Structure::F(ord) => {
                if ord.len() == 0 {
                    copy(current)
                } else {
                    copy(ord)
                }
            },
            _ => Vec::new(),
        }
    }
}

fn copy(v: &Vec<String>) -> (r: Vec<String>)
    ensures
        strings_view(r@) == strings_view(v@),
{
    let mut r: Vec<String> = Vec::new();
    let mut i: usize = 0;
    while i < v.len()
        invariant
            i <= v.len(),
            strings_view(r@) == strings_view(v@).take(i as int),
        decreases v.len() - i,
    {
        let ghost r0 = r@;
        let c = v[i].clone();
        r.push(c);
        assert(strings_view(r@) =~= strings_view(r0).push(c@));
        assert(strings_view(v@).take(i + 1) =~= strings_view(v@).take(i as int).push(c@));
        i = i + 1;
    }
    assert(strings_view(v@).take(v.len() as int) =~= strings_view(v@));
    r
}

/// Entry `(i, j)` of the matrix: whether facet `j` of the order is among
/// the facets of row `i`.
pub open spec fn incidence(order: Seq<Seq<char>>, row: Seq<Seq<char>>, j: int) -> bool {
    row.contains(order[j])
}

/// The incidence matrix of `order`: one row per facet set of `rows` (the
/// facets that stay open after each facet is activated), one column per
/// facet of `order`.
pub fn show(order: &Vec<String>, rows: &Vec<Vec<String>>) -> (r: Vec<Vec<bool>>)
    ensures
        r.len() == rows.len(),
        forall|i: int|
            0 <= i < rows.len() ==> (#[trigger] r@[i]).len() == order.len() && forall|j: int|
                0 <= j < order.len() ==> r@[i]@[j] == incidence(
                    strings_view(order@),
                    strings_view(rows@[i]@),
                    j,
                ),
{
    let mut r: Vec<Vec<bool>> = Vec::new();
    let mut i: usize = 0;
    while i < rows.len()
        invariant
            i <= rows.len(),
            r.len() == i,
            forall|k: int|
                0 <= k < i ==> (#[trigger] r@[k]).len() == order.len() && forall|j: int|
                    0 <= j < order.len() ==> r@[k]@[j] == incidence(
                        strings_view(order@),
                        strings_view(rows@[k]@),
                        j,
                    ),
        decreases rows.len() - i,
    {
        let row = &rows[i];
        let mut line: Vec<bool> = Vec::new();
        let mut j: usize = 0;
        while j < order.len()
            invariant
                j <= order.len(),
                line.len() == j,
                forall|m: int|
                    0 <= m < j ==> line@[m] == incidence(strings_view(order@), strings_view(row@), m),
            decreases order.len() - j,
        {
            let b = contains_string(row, &order[j]);
            line.push(b);
            j = j + 1;
        }
        r.push(line);
        i = i + 1;
    }
    r
}

} // verus!
