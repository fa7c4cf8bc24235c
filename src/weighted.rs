//! Weights of a route: facet counts from consequences, or answer-set counts.
use vstd::prelude::*;
use crate::consequences::{facets, facets_of, stats, stats_of};
use crate::query::{
    query_start, query_step, query_wf, ActionView, Answer, AnswerView, Consequences, EventView,
    Purpose, PurposeView, Query, QueryView, SolverAction, SolverEvent,
};
use crate::route::{resolve_all, strings_view, Navigation};

verus! {

/// What a step or a count weighs a route by.
#[derive(Clone, Copy, PartialEq, Eq, Debug, Structural)]
pub enum Weight {
    AnswerSetCounting,
    FacetCounting,
    BcCounting,
    CcCounting,
}

#[derive(Clone, Copy, PartialEq, Eq, Debug, Structural)]
pub enum Stage {
    Brave,
    Cautious,
    Counting,
    Done,
}

pub struct MeasureView {
    pub weight: Weight,
    pub assumptions: Seq<i32>,
    pub stage: Stage,
    pub inner: QueryView,
    pub bc: Seq<Seq<char>>,
    pub cc: Seq<Seq<char>>,
    pub count: nat,
    pub failed: bool,
}

/// The weight of a finished measure.
pub open spec fn measure_answer(m: MeasureView) -> AnswerView {
    if m.failed {
        AnswerView::Failed
    } else {
        match m.weight {
            Weight::FacetCounting => AnswerView::Count(stats_of(m.bc, m.cc).2),
            Weight::BcCounting => AnswerView::Count(stats_of(m.bc, m.cc).0),
            Weight::CcCounting => AnswerView::Count(stats_of(m.bc, m.cc).1),
            Weight::AnswerSetCounting => AnswerView::Count(m.count),
        }
    }
}

pub open spec fn measure_done(m: MeasureView) -> (MeasureView, ActionView) {
    let m2 = MeasureView { stage: Stage::Done, ..m };
    (m2, ActionView::Finish(measure_answer(m2)))
}

pub open spec fn measure_start(weight: Weight, assumptions: Seq<i32>, cap: nat) -> (MeasureView, ActionView) {
    let m = MeasureView {
        weight,
        assumptions,
        stage: Stage::Brave,
        inner: query_start(PurposeView::Consequences(Consequences::Brave), assumptions).0,
        bc: Seq::empty(),
        cc: Seq::empty(),
        count: 0,
        failed: false,
    };
    match weight {
        Weight::AnswerSetCounting => {
            let (q, a) = query_start(PurposeView::Count(cap), assumptions);
            (MeasureView { stage: Stage::Counting, inner: q, ..m }, a)
        },
        _ => (m, query_start(PurposeView::Consequences(Consequences::Brave), assumptions).1),
    }
}

/// One step: the consequence or count query runs; the cautious query is
/// skipped where no brave consequence exists.
pub open spec fn measure_step(m: MeasureView, ev: EventView) -> (MeasureView, ActionView) {
    let (q2, a) = query_step(m.inner, ev);
    match m.stage {
        Stage::Brave => match a {
            ActionView::Finish(AnswerView::Atoms(bc)) => if bc.len() == 0 {
                measure_done(MeasureView { inner: q2, bc, cc: Seq::empty(), ..m })
            } else {
                let (q3, a3) = query_start(
                    PurposeView::Consequences(Consequences::Cautious),
                    m.assumptions,
                );
                (MeasureView { stage: Stage::Cautious, inner: q3, bc, ..m }, a3)
            },
            ActionView::Finish(_) => measure_done(MeasureView { inner: q2, failed: true, ..m }),
            _ => (MeasureView { inner: q2, ..m }, a),
        },
        Stage::Cautious => match a {
            ActionView::Finish(AnswerView::Atoms(cc)) => measure_done(
                MeasureView { inner: q2, cc, ..m },
            ),
            ActionView::Finish(_) => measure_done(MeasureView { inner: q2, failed: true, ..m }),
            _ => (MeasureView { inner: q2, ..m }, a),
        },
        Stage::Counting => match a {
            ActionView::Finish(AnswerView::Count(n)) => measure_done(
                MeasureView { inner: q2, count: n, ..m },
            ),
            ActionView::Finish(_) => measure_done(MeasureView { inner: q2, failed: true, ..m }),
            _ => (MeasureView { inner: q2, ..m }, a),
        },
        Stage::Done => (m, ActionView::Finish(measure_answer(m))),
    }
}

/// Weighs the route under some assumptions, with the solver's help.
pub struct Measure {
    weight: Weight,
    assumptions: Vec<i32>,
    stage: Stage,
    inner: Query,
    bc: Vec<String>,
    cc: Vec<String>,
    count: usize,
    failed: bool,
}

impl View for Measure {
    type V = MeasureView;

    closed spec fn view(&self) -> MeasureView {
        MeasureView {
            weight: self.weight,
            assumptions: self.assumptions@,
            stage: self.stage,
            inner: self.inner@,
            bc: strings_view(self.bc@),
            cc: strings_view(self.cc@),
            count: self.count as nat,
            failed: self.failed,
        }
    }
}

impl Measure {
    pub open spec fn wf(&self) -> bool {
        query_wf(self@.inner)
    }

    /// A measure by `weight` under `assumptions`, and its first action. An
    /// answer-set count stops above `cap` where `cap` is not zero.
    pub fn new(weight: Weight, assumptions: Vec<i32>, cap: usize) -> (r: (Measure, SolverAction))
        ensures
            (r.0@, r.1@) == measure_start(weight, assumptions@, cap as nat),
            r.0.wf(),
    {
        let a = assumptions.clone();
        assert(a@ =~= assumptions@);
        let (q, act) = match weight {
            Weight::AnswerSetCounting => Query::new(Purpose::Count(cap), a),
            _ => Query::new(Purpose::Consequences(Consequences::Brave), a),
        };
        let stage = match weight {
            Weight::AnswerSetCounting => Stage::Counting,
            _ => Stage::Brave,
        };
        let m = Measure {
            weight,
            assumptions,
            stage,
            inner: q,
            bc: Vec::new(),
            cc: Vec::new(),
            count: 0,
            failed: false,
        };
        assert(strings_view(m.bc@) =~= Seq::<Seq<char>>::empty());
        assert(strings_view(m.cc@) =~= Seq::<Seq<char>>::empty());
        (m, act)
    }

    /// The facets under the assumptions, from a weighing that went through
    /// brave and cautious consequences.
    pub fn facet_list(&self) -> (r: Vec<String>)
        ensures
            strings_view(r@) == facets_of(self@.bc, self@.cc),
    {
        facets(&self.bc, &self.cc)
    }

    /// The sizes of the brave consequences, the cautious consequences and
    /// the facets that the weighing went through.
    pub fn stats(&self) -> (r: (usize, usize, usize))
        ensures
            (r.0 as nat, r.1 as nat, r.2 as nat) == stats_of(self@.bc, self@.cc),
    {
        stats(&self.bc, &self.cc)
    }

    fn finish(&mut self) -> (r: SolverAction)
        ensures
            (final(self)@, r@) == measure_done(old(self)@),
            final(self).inner == old(self).inner,
    {
        self.stage = Stage::Done;
        if self.failed {
            return SolverAction::Finish(Answer::Failed);
        }
        let (b, c, f) = stats(&self.bc, &self.cc);
        match self.weight {
            Weight::FacetCounting => SolverAction::Finish(Answer::Count(f)),
            Weight::BcCounting => SolverAction::Finish(Answer::Count(b)),
            Weight::CcCounting => SolverAction::Finish(Answer::Count(c)),
            Weight::AnswerSetCounting => SolverAction::Finish(Answer::Count(self.count)),
        }
    }

    /// The next action, given what came of the last one.
    pub fn on_event(&mut self, ev: SolverEvent) -> (r: SolverAction)
        requires
            old(self).wf(),
        ensures
            (final(self)@, r@) == measure_step(old(self)@, ev@),
            final(self).wf(),
    {
        if self.stage == Stage::Done {
            let ghost before = self@;
            let r = self.finish();
            assert(self@ == before);
            return r;
        }
        let a = self.inner.on_event(ev);
        match a {
            SolverAction::Finish(ans) => match self.stage {
                Stage::Brave => match ans {
                    Answer::Atoms(bc) => {
                        if bc.len() == 0 {
                            self.bc = bc;
                            self.cc = Vec::new();
                            assert(strings_view(self.cc@) =~= Seq::<Seq<char>>::empty());
                            self.finish()
                        } else {
                            let lits = self.assumptions.clone();
                            assert(lits@ =~= self.assumptions@);
                            let (q, act) = Query::new(Purpose::Consequences(Consequences::Cautious), lits);
                            self.inner = q;
                            self.bc = bc;
                            self.stage = Stage::Cautious;
                            act
                        }
                    },
                    _ => {
                        self.failed = true;
                        self.finish()
                    },
                },
                Stage::Cautious => match ans {
                    Answer::Atoms(cc) => {
                        self.cc = cc;
                        self.finish()
                    },
                    _ => {
                        self.failed = true;
                        self.finish()
                    },
                },
                _ => match ans {
                    Answer::Count(n) => {
                        self.count = n;
                        self.finish()
                    },
                    _ => {
                        self.failed = true;
                        self.finish()
                    },
                },
            },
            other => other,
        }
    }
}

/// Weighs the route of `nav` conjunctively extended by `peek`: facet,
/// brave or cautious count from consequences, or the number of answer sets.
/// Returns the measure and its first action.
pub fn count(weight: Weight, nav: &Navigation, peek: &Vec<String>) -> (r: (Measure, SolverAction))
    requires
        nav.wf(),
    ensures
        (r.0@, r.1@) == measure_start(
            weight,
            resolve_all(nav.navigator().registry(), strings_view(peek@)) + nav.navigator()@.conj_lits,
            0,
        ),
        r.0.wf(),
{
    let lits = nav.read_route(peek);
    Measure::new(weight, lits, 0)
}

} // verus!
