//! The operations of a navigator as free functions.
use vstd::prelude::*;
use crate::query::{query_start, Consequences, Purpose, PurposeView, Query, SolverAction};
use crate::route::{
    delta_result, empty_route, program_text, rejections_view, resolve_all, strings_view, Navigation, Rejection,
};
use crate::weighted::{measure_start, Measure, Weight};

verus! {

/// The route of `nav` as text.
pub fn context(nav: &Navigation) -> (r: String)
    ensures
        r@ == nav.navigator()@.route,
{
    nav.context()
}

/// Clears the route; returns the program to ground a fresh solver from,
/// where one is needed.
pub fn clear_route(nav: &mut Navigation) -> (r: Option<String>)
    requires
        old(nav).wf(),
    ensures
        final(nav).wf(),
        final(nav).navigator()@ == empty_route(),
        final(nav).navigator().registry() == old(nav).navigator().registry(),
        final(nav).navigator().program() == old(nav).navigator().program(),
        final(nav).navigator().grounded() == old(nav).navigator().grounded(),
        *old(nav) is And ==> r is None,
        *old(nav) is AndOr ==> (r is None <==> old(nav).navigator().grounded() == old(
            nav,
        ).navigator().program()),
        r is Some ==> r->0@ == old(nav).navigator().program(),
{
    nav.clear()
}

/// Activates the facets of `route`; returns the tokens skipped.
pub fn delta(nav: &mut Navigation, route: &Vec<String>) -> (rejected: Vec<Rejection>)
    requires
        old(nav).wf(),
    ensures
        final(nav).wf(),
        final(nav).navigator()@ == delta_result(
            old(nav).navigator()@,
            old(nav).navigator().registry(),
            *old(nav) is AndOr,
            strings_view(route@),
        ).nav,
        rejections_view(rejected@) == delta_result(
            old(nav).navigator()@,
            old(nav).navigator().registry(),
            *old(nav) is AndOr,
            strings_view(route@),
        ).rejected,
{
    nav.delta(route)
}

/// The program to ground a fresh solver from before the next query, where
/// the route calls for one.
pub fn update(nav: &Navigation) -> (r: Option<String>)
    requires
        nav.wf(),
    ensures
        *nav is And ==> r is None,
        *nav is AndOr ==> ({
            let t = program_text(
                nav.navigator().program(),
                nav.navigator()@.conj_reprs,
                nav.navigator()@.disjuncts,
            );
            &&& (r is None <==> t == nav.navigator().grounded())
            &&& r is Some ==> r->0@ == t
        }),
{
    nav.update()
}

/// Enumerates up to `n` answer sets (all for zero) under the route
/// conjunctively extended by `peek`.
pub fn enumerate_solutions(nav: &Navigation, n: usize, peek: &Vec<String>) -> (r: (Query, SolverAction))
    requires
        nav.wf(),
    ensures
        (r.0@, r.1@) == query_start(
            PurposeView::Enumerate(n as nat, None),
            resolve_all(nav.navigator().registry(), strings_view(peek@)) + nav.navigator()@.conj_lits,
        ),
        r.0.wf(),
{
    Query::new(Purpose::Enumerate(n, None), nav.read_route(peek))
}

/// As `enumerate_solutions`, showing of each answer set only the atoms of
/// `keep`.
pub fn enumerate_solutions_sharp(nav: &Navigation, n: usize, peek: &Vec<String>, keep: Vec<String>) -> (r: (
    Query,
    SolverAction,
))
    requires
        nav.wf(),
    ensures
        (r.0@, r.1@) == query_start(
            PurposeView::Enumerate(n as nat, Some(strings_view(keep@))),
            resolve_all(nav.navigator().registry(), strings_view(peek@)) + nav.navigator()@.conj_lits,
        ),
        r.0.wf(),
{
    Query::new(Purpose::Enumerate(n, Some(keep)), nav.read_route(peek))
}

/// The brave consequences under the route extended by `peek`.
pub fn bc(nav: &Navigation, peek: &Vec<String>) -> (r: (Query, SolverAction))
    requires
        nav.wf(),
    ensures
        (r.0@, r.1@) == query_start(
            PurposeView::Consequences(Consequences::Brave),
            resolve_all(nav.navigator().registry(), strings_view(peek@)) + nav.navigator()@.conj_lits,
        ),
        r.0.wf(),
{
    Query::new(Purpose::Consequences(Consequences::Brave), nav.read_route(peek))
}

/// The cautious consequences under the route extended by `peek`.
pub fn cc(nav: &Navigation, peek: &Vec<String>) -> (r: (Query, SolverAction))
    requires
        nav.wf(),
    ensures
        (r.0@, r.1@) == query_start(
            PurposeView::Consequences(Consequences::Cautious),
            resolve_all(nav.navigator().registry(), strings_view(peek@)) + nav.navigator()@.conj_lits,
        ),
        r.0.wf(),
{
    Query::new(Purpose::Consequences(Consequences::Cautious), nav.read_route(peek))
}

/// The facets under the route extended by `peek`: once the measure has
/// finished, `Measure::facet_list` gives them.
pub fn fs(nav: &Navigation, peek: &Vec<String>) -> (r: (Measure, SolverAction))
    requires
        nav.wf(),
    ensures
        (r.0@, r.1@) == measure_start(
            Weight::FacetCounting,
            resolve_all(nav.navigator().registry(), strings_view(peek@)) + nav.navigator()@.conj_lits,
            0,
        ),
        r.0.wf(),
{
    Measure::new(Weight::FacetCounting, nav.read_route(peek), 0)
}

/// The sizes of brave consequences, cautious consequences and facets under
/// the route extended by `peek`: a facet measure whose brave and cautious
/// atoms give them through `consequences::stats`.
pub fn fs_stats(nav: &Navigation, peek: &Vec<String>) -> (r: (Measure, SolverAction))
    requires
        nav.wf(),
    ensures
        (r.0@, r.1@) == measure_start(
            Weight::FacetCounting,
            resolve_all(nav.navigator().registry(), strings_view(peek@)) + nav.navigator()@.conj_lits,
            0,
        ),
        r.0.wf(),
{
    Measure::new(Weight::FacetCounting, nav.read_route(peek), 0)
}

} // verus!
