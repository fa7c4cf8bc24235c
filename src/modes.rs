//! Guided navigation: which facet to activate next.
use vstd::prelude::*;
use crate::registry::{is_negated, negate, resolve, split_sign, symbol_part, Registry};
use crate::route::{strings_view, Navigation};
use crate::weighted::Weight;

verus! {

/// How the next facet is chosen.
#[derive(Clone, Copy, PartialEq, Eq, Debug, Structural)]
pub enum Mode {
    /// The first facet.
    GoalOriented,
    /// The facet whose activation keeps the largest weight.
    MinWeighted(Weight),
    /// The facet whose activation leaves the smallest weight.
    MaxWeighted(Weight),
}

/// A signed facet to try: its repr and its literal.
pub struct Trial {
    pub repr: String,
    pub lit: i32,
}

pub open spec fn trial_view(t: Trial) -> (Seq<char>, i32) {
    (t.repr@, t.lit)
}

pub open spec fn trials_view(v: Seq<Trial>) -> Seq<(Seq<char>, i32)> {
    v.map_values(|t: Trial| trial_view(t))
}

/// The two signed trials of a candidate atom `c`, the negative one first
/// where the weight is to be kept large.
pub open spec fn pair_of(reg: Map<Seq<char>, i32>, c: Seq<char>, negative_first: bool) -> Seq<(Seq<char>, i32)> {
    let pos = (c, reg[c]);
    let neg = (seq!['~'] + c, (-reg[c]) as i32);
    if negative_first {
        seq![neg, pos]
    } else {
        seq![pos, neg]
    }
}

/// The trials for a list of candidate atoms; candidates that are negated or
/// that name no atom of the registry are left out.
pub open spec fn trials_of(reg: Map<Seq<char>, i32>, cands: Seq<Seq<char>>, negative_first: bool) -> Seq<(Seq<char>, i32)>
    decreases cands.len(),
{
    if cands.len() == 0 {
        Seq::empty()
    } else {
        let rest = trials_of(reg, cands.drop_last(), negative_first);
        let c = cands.last();
        if !is_negated(c) && reg.dom().contains(c) {
            rest + pair_of(reg, c, negative_first)
        } else {
            rest
        }
    }
}

/// What the caller is to do next for a step.
#[derive(Debug)]
pub enum StepAction {
    /// Weigh the route under these assumptions (an answer-set count stops
    /// above the bound where it is not zero), and hand back the weight.
    Measure(Weight, Vec<i32>, usize),
    /// The step is over: the chosen facet, if any.
    Done(Option<(String, i32)>),
}

pub enum StepActionView {
    Measure(Weight, Seq<i32>, nat),
    Done(Option<(Seq<char>, i32)>),
}

impl View for StepAction {
    type V = StepActionView;

    open spec fn view(&self) -> StepActionView {
        match self {
            StepAction::Measure(w, a, c) => StepActionView::Measure(*w, a@, *c as nat),
            StepAction::Done(r) => StepActionView::Done(
                match r {
                    Some(p) => Some((p.0@, p.1)),
                    None => None,
                },
            ),
        }
    }
}

pub struct StepView {
    pub weight: Weight,
    pub minimize: bool,
    pub base: Seq<i32>,
    pub trials: Seq<(Seq<char>, i32)>,
    pub next: nat,
    pub best: nat,
    pub choice: Option<nat>,
    pub stop: nat,
    pub cap_by_best: bool,
    pub total: Option<nat>,
    pub weights: Seq<nat>,
    pub done: bool,
    pub result: Option<nat>,
    pub split: Option<nat>,
}

/// A weight `w` improves on `best`: no larger when minimising, no smaller
/// when maximising (ties go to the later trial).
pub open spec fn improves(minimize: bool, w: nat, best: nat) -> bool {
    if minimize {
        w <= best
    } else {
        w >= best
    }
}

/// Takes the weight of the next trial; a weight that meets the stop bound
/// ends the step with that trial.
pub open spec fn record(s: StepView, w: nat) -> StepView {
    let k = s.next;
    let better = improves(s.minimize, w, s.best);
    let s1 = StepView {
        weights: s.weights.push(w),
        next: k + 1,
        best: if better {
            w
        } else {
            s.best
        },
        choice: if better {
            Some(k)
        } else {
            s.choice
        },
        ..s
    };
    if w == s.stop {
        StepView { done: true, result: Some(k), ..s1 }
    } else {
        s1
    }
}

pub open spec fn result_view(s: StepView) -> Option<(Seq<char>, i32)> {
    match s.result {
        Some(k) => Some(s.trials[k as int]),
        None => None,
    }
}

/// All trials weighed: the best one is chosen; an answer-set step keeps
/// its best count as the total of the next split.
pub open spec fn finish(s: StepView) -> (StepView, StepActionView) {
    let s2 = StepView {
        done: true,
        result: s.choice,
        split: if s.weight == Weight::AnswerSetCounting {
            Some(s.best)
        } else {
            s.split
        },
        ..s
    };
    (s2, StepActionView::Done(result_view(s2)))
}

pub open spec fn request(s: StepView) -> (StepView, StepActionView) {
    (
        s,
        StepActionView::Measure(
            s.weight,
            s.base.push(s.trials[s.next as int].1),
            if s.cap_by_best {
                s.best
            } else {
                0
            },
        ),
    )
}

/// The second trial of a pair is weighed without the solver where the
/// total of the split is known and covers the first one's weight.
pub open spec fn derivable(s: StepView) -> bool {
    &&& s.next % 2 == 1
    &&& s.total is Some
    &&& s.weights[s.next - 1] <= s.total->0
}

pub open spec fn proceed(s: StepView) -> (StepView, StepActionView) {
    if s.done {
        (s, StepActionView::Done(result_view(s)))
    } else if s.next >= s.trials.len() {
        finish(s)
    } else {
        request(s)
    }
}

pub open spec fn after_record(s: StepView) -> (StepView, StepActionView) {
    if !s.done && s.next < s.trials.len() && derivable(s) {
        proceed(record(s, (s.total->0 - s.weights[s.next - 1]) as nat))
    } else {
        proceed(s)
    }
}

/// The step after the weight of the trial that was asked for; `None` where
/// weighing failed, which ends the step without a choice.
pub open spec fn step_on(s: StepView, w: Option<nat>) -> (StepView, StepActionView) {
    if s.done {
        (s, StepActionView::Done(result_view(s)))
    } else {
        match w {
            None => {
                let s2 = StepView { done: true, result: None, ..s };
                (s2, StepActionView::Done(None))
            },
            Some(w) => after_record(record(s, w)),
        }
    }
}

/// The start of a step over `trials` (two per candidate).
pub open spec fn step_start(
    mode: Mode,
    base: Seq<i32>,
    trials: Seq<(Seq<char>, i32)>,
    split_on: Option<nat>,
) -> (StepView, StepActionView) {
    let n = trials.len() / 2;
    let s0 = StepView {
        weight: Weight::FacetCounting,
        minimize: true,
        base,
        trials,
        next: 0,
        best: 0,
        choice: None,
        stop: 0,
        cap_by_best: false,
        total: None,
        weights: Seq::empty(),
        done: true,
        result: None,
        split: split_on,
    };
    match mode {
        Mode::GoalOriented => if trials.len() == 0 {
            (s0, StepActionView::Done(None))
        } else {
            let s1 = StepView { result: Some(0), ..s0 };
            (s1, StepActionView::Done(Some(trials[0])))
        },
        Mode::MaxWeighted(w) => match w {
            Weight::FacetCounting => if n == 0 {
                (s0, StepActionView::Done(None))
            } else {
                request(StepView { done: false, best: (n - 1) as nat, stop: 0, ..s0 })
            },
            Weight::AnswerSetCounting => if n == 0 {
                (s0, StepActionView::Done(None))
            } else {
                request(
                    StepView {
                        weight: w,
                        done: false,
                        best: (usize::MAX - 1) as nat,
                        stop: 1,
                        cap_by_best: split_on is None,
                        total: split_on,
                        ..s0
                    },
                )
            },
            _ => (s0, StepActionView::Done(None)),
        },
        Mode::MinWeighted(w) => match w {
            Weight::FacetCounting => if n == 0 {
                (s0, StepActionView::Done(None))
            } else {
                request(StepView { minimize: false, done: false, best: 0, stop: (n - 1) as nat, ..s0 })
            },
            Weight::AnswerSetCounting => if n == 0 {
                (s0, StepActionView::Done(None))
            } else {
                request(
                    StepView {
                        weight: w,
                        minimize: false,
                        done: false,
                        best: 0,
                        stop: match split_on {
                            Some(c) => if c >= 1 {
                                (c - 1) as nat
                            } else {
                                (usize::MAX - 1) as nat
                            },
                            None => (usize::MAX - 1) as nat,
                        },
                        total: split_on,
                        ..s0
                    },
                )
            },
            _ => (s0, StepActionView::Done(None)),
        },
    }
}

pub open spec fn negative_first(mode: Mode) -> bool {
    mode is MinWeighted
}

pub open spec fn opt_nat(o: Option<usize>) -> Option<nat> {
    match o {
        Some(v) => Some(v as nat),
        None => None,
    }
}

/// What holds of every state that a step passes through: the best weight
/// so far is that of the current choice and improves on every weight
/// recorded; a trial that ended the step met the stop bound or improves on
/// every weight recorded.
pub open spec fn step_inv(s: StepView) -> bool {
    &&& step_core(s)
    &&& (!s.done ==> s.next < s.trials.len())
}

pub open spec fn step_core(s: StepView) -> bool {
    &&& (!s.done ==> s.result is None)
    &&& (s.total is Some ==> !s.cap_by_best)
    &&& s.weights.len() == s.next
    &&& s.next <= s.trials.len()
    &&& s.trials.len() % 2 == 0
    &&& s.best <= usize::MAX
    &&& s.stop <= usize::MAX
    &&& (s.total is Some ==> s.total->0 <= usize::MAX)
    &&& (forall|i: int| 0 <= i < s.next ==> #[trigger] s.weights[i] <= usize::MAX)
    &&& (s.choice is Some ==> s.choice->0 < s.next && s.weights[s.choice->0 as int] == s.best)
    &&& (forall|i: int| 0 <= i < s.next ==> improves(s.minimize, s.best, #[trigger] s.weights[i]))
    &&& (s.result is Some ==> s.result->0 < s.trials.len())
    &&& (s.result is Some && s.next > 0 ==> s.result->0 < s.next && (s.weights[s.result->0 as int]
        == s.stop || forall|i: int|
        0 <= i < s.next ==> improves(s.minimize, s.weights[s.result->0 as int], #[trigger] s.weights[i])))
    &&& (s.split is Some ==> s.split->0 <= usize::MAX)
}

fn build_trials(reg: &Registry, cands: &Vec<String>, negative_first: bool) -> (r: Vec<Trial>)
    requires
        reg.wf(),
    ensures
        trials_view(r@) == trials_of(reg@, strings_view(cands@), negative_first),
{
    let ghost cs = strings_view(cands@);
    let mut r: Vec<Trial> = Vec::new();
    let mut i: usize = 0;
    assert(cs.take(0) =~= Seq::<Seq<char>>::empty());
    assert(trials_view(r@) =~= Seq::<(Seq<char>, i32)>::empty());
    while i < cands.len()
        invariant
            i <= cands.len(),
            reg.wf(),
            cs == strings_view(cands@),
            trials_view(r@) == trials_of(reg@, cs.take(i as int), negative_first),
        decreases cands.len() - i,
    {
        assert(cs.take(i + 1).drop_last() =~= cs.take(i as int));
        assert(cs.take(i + 1).last() == cs[i as int]);
        let c = &cands[i];
        let (neg, _) = split_sign(c);
        if !neg {
            match reg.get(c) {
                Some(l) => {
                    let mut nr = String::from_str("~");
                    nr.append(c.as_str());
                    proof {
                        reveal_strlit("~");
                    }
                    let nl = negate(l);
                    assert(nr@ =~= seq!['~'] + c@);
                    assert(reg@.dom().contains(c@) && reg@[c@] == l);
                    assert(nl == (-reg@[c@]) as i32);
                    let ghost r0 = trials_view(r@);
                    if negative_first {
                        r.push(Trial { repr: nr, lit: nl });
                        r.push(Trial { repr: c.clone(), lit: l });
                    } else {
                        r.push(Trial { repr: c.clone(), lit: l });
                        r.push(Trial { repr: nr, lit: nl });
                    }
                    assert(trials_view(r@).len() == r0.len() + 2);
                    assert(trials_view(r@) =~= r0 + pair_of(reg@, c@, negative_first));
                },
                None => {},
            }
        }
        i = i + 1;
    }
    assert(cs.take(cands.len() as int) =~= cs);
    r
}

/// The state of one step.
pub struct Stepper {
    weight: Weight,
    minimize: bool,
    base: Vec<i32>,
    trials: Vec<Trial>,
    next: usize,
    best: usize,
    choice: Option<usize>,
    stop: usize,
    cap_by_best: bool,
    total: Option<usize>,
    weights: Vec<usize>,
    done: bool,
    result: Option<usize>,
    split: Option<usize>,
}

impl View for Stepper {
    type V = StepView;

    closed spec fn view(&self) -> StepView {
        StepView {
            weight: self.weight,
            minimize: self.minimize,
            base: self.base@,
            trials: trials_view(self.trials@),
            next: self.next as nat,
            best: self.best as nat,
            choice: opt_nat(self.choice),
            stop: self.stop as nat,
            cap_by_best: self.cap_by_best,
            total: opt_nat(self.total),
            weights: self.weights@.map_values(|w: usize| w as nat),
            done: self.done,
            result: opt_nat(self.result),
            split: opt_nat(self.split),
        }
    }
}

impl Stepper {
    pub open spec fn wf(&self) -> bool {
        step_inv(self@)
    }

    /// The total of the split to hand to the next step.
    pub fn split_on(&self) -> (r: Option<usize>)
        ensures
            opt_nat(r) == self@.split,
    {
        self.split
    }

    /// The weights recorded so far, one per trial weighed.
    pub fn weights(&self) -> (r: Vec<usize>)
        ensures
            r@.map_values(|w: usize| w as nat) == self@.weights,
    {
        let r = self.weights.clone();
        assert(r@ =~= self.weights@);
        r
    }

    fn result_action(&self) -> (r: StepAction)
        requires
            step_core(self@),
        ensures
            r@ == StepActionView::Done(result_view(self@)),
    {
        match self.result {
            Some(k) => {
                let t = &self.trials[k];
                StepAction::Done(Some((t.repr.clone(), t.lit)))
            },
            None => StepAction::Done(None),
        }
    }

    fn request(&self) -> (r: StepAction)
        requires
            step_core(self@),
            self.next < self.trials.len(),
        ensures
            r@ == request(self@).1,
    {
        let mut a = self.base.clone();
        assert(a@ =~= self.base@);
        a.push(self.trials[self.next].lit);
        let cap = if self.cap_by_best {
            self.best
        } else {
            0
        };
        StepAction::Measure(self.weight, a, cap)
    }

    fn record(&mut self, w: usize)
        requires
            step_core(old(self)@),
            !old(self).done,
            old(self).next < old(self).trials.len(),
        ensures
            final(self)@ == record(old(self)@, w as nat),
            step_core(final(self)@),
    {
        proof {
            lemma_record_core(self@, w as nat);
        }
        let k = self.next;
        let better = if self.minimize {
            w <= self.best
        } else {
            w >= self.best
        };
        self.weights.push(w);
        self.next = k + 1;
        if better {
            self.best = w;
            self.choice = Some(k);
        }
        if w == self.stop {
            self.done = true;
            self.result = Some(k);
        }
        assert(self.weights@.map_values(|v: usize| v as nat) =~= old(self)@.weights.push(w as nat));
    }

    fn proceed(&mut self) -> (r: StepAction)
        requires
            step_core(old(self)@),
        ensures
            (final(self)@, r@) == proceed(old(self)@),
            step_inv(final(self)@),
    {
        if self.done {
            self.result_action()
        } else if self.next >= self.trials.len() {
            self.done = true;
            self.result = self.choice;
            if self.weight == Weight::AnswerSetCounting {
                self.split = Some(self.best);
            }
            self.result_action()
        } else {
            self.request()
        }
    }
}

impl Stepper {
    /// The step's answer to the weight of the trial that it asked for
    /// (`None` where weighing failed): its next action.
    pub fn on_weight(&mut self, w: Option<usize>) -> (r: StepAction)
        requires
            old(self).wf(),
        ensures
            (final(self)@, r@) == step_on(old(self)@, opt_nat(w)),
            final(self).wf(),
    {
        if self.done {
            return self.result_action();
        }
        match w {
            None => {
                self.done = true;
                self.result = None;
                StepAction::Done(None)
            },
            Some(w) => {
                self.record(w);
                if !self.done && self.next < self.trials.len() && self.next % 2 == 1 {
                    match self.total {
                        Some(c) => {
                            let first = self.weights[self.next - 1];
                            assert(first as nat == self@.weights[self.next - 1]);
                            if first <= c {
                                self.record(c - first);
                            }
                        },
                        None => {},
                    }
                }
                self.proceed()
            },
        }
    }

    /// A step over `candidates` under the conjunctive facets of `nav`, and
    /// its first action. `split_on` is the total of the split, where known.
    pub fn start(mode: Mode, nav: &Navigation, candidates: &Vec<String>, split_on: Option<usize>) -> (r: (
        Stepper,
        StepAction,
    ))
        requires
            nav.wf(),
        ensures
            (r.0@, r.1@) == step_start(
                mode,
                nav.navigator()@.conj_lits,
                trials_of(nav.navigator().registry(), strings_view(candidates@), negative_first(mode)),
                opt_nat(split_on),
            ),
            r.0.wf(),
    {
        let navr = nav.expose();
        let nf = match mode {
            Mode::MinWeighted(_) => true,
            _ => false,
        };
        let trials = build_trials(navr.literals(), candidates, nf);
        proof {
            lemma_trials_even(navr.registry(), strings_view(candidates@), nf);
        }
        let base = navr.conjunctive_literals();
        let n = trials.len() / 2;
        let mut s = Stepper {
            weight: Weight::FacetCounting,
            minimize: true,
            base,
            trials,
            next: 0,
            best: 0,
            choice: None,
            stop: 0,
            cap_by_best: false,
            total: None,
            weights: Vec::new(),
            done: true,
            result: None,
            split: split_on,
        };
        assert(s@.weights =~= Seq::<nat>::empty());
        match mode {
            Mode::GoalOriented => {
                if s.trials.len() == 0 {
                    (s, StepAction::Done(None))
                } else {
                    s.result = Some(0);
                    let a = s.result_action();
                    (s, a)
                }
            },
            Mode::MaxWeighted(w) => match w {
                Weight::FacetCounting => {
                    if n == 0 {
                        (s, StepAction::Done(None))
                    } else {
                        s.done = false;
                        s.best = n - 1;
                        let a = s.request();
                        (s, a)
                    }
                },
                Weight::AnswerSetCounting => {
                    if n == 0 {
                        (s, StepAction::Done(None))
                    } else {
                        s.weight = w;
                        s.done = false;
                        s.best = usize::MAX - 1;
                        s.stop = 1;
                        s.cap_by_best = split_on.is_none();
                        s.total = split_on;
                        let a = s.request();
                        (s, a)
                    }
                },
                _ => (s, StepAction::Done(None)),
            },
            Mode::MinWeighted(w) => match w {
                Weight::FacetCounting => {
                    if n == 0 {
                        (s, StepAction::Done(None))
                    } else {
                        s.minimize = false;
                        s.done = false;
                        s.stop = n - 1;
                        let a = s.request();
                        (s, a)
                    }
                },
                Weight::AnswerSetCounting => {
                    if n == 0 {
                        (s, StepAction::Done(None))
                    } else {
                        s.weight = w;
                        s.minimize = false;
                        s.done = false;
                        s.stop = match split_on {
                            Some(c) => if c >= 1 {
                                c - 1
                            } else {
                                usize::MAX - 1
                            },
                            None => usize::MAX - 1,
                        };
                        s.total = split_on;
                        let a = s.request();
                        (s, a)
                    }
                },
                _ => (s, StepAction::Done(None)),
            },
        }
    }
}

impl Mode {
    /// Starts a step that chooses among `curr`, the facets of the route
    /// as the caller computed them.
    pub fn step_wrt(&self, nav: &Navigation, curr: &Vec<String>, split_on: Option<usize>) -> (r: (
        Stepper,
        StepAction,
    ))
        requires
            nav.wf(),
        ensures
            (r.0@, r.1@) == step_start(
                *self,
                nav.navigator()@.conj_lits,
                trials_of(nav.navigator().registry(), strings_view(curr@), negative_first(*self)),
                opt_nat(split_on),
            ),
            r.0.wf(),
    {
        Stepper::start(*self, nav, curr, split_on)
    }
}

proof fn lemma_record_core(s: StepView, w: nat)
    requires
        step_core(s),
        !s.done,
        s.next < s.trials.len(),
        w <= usize::MAX,
    ensures
        step_core(record(s, w)),
{
    let s2 = record(s, w);
    assert(s2.weights[s.next as int] == w);
    assert forall|i: int| 0 <= i < s2.next implies improves(s2.minimize, s2.best, #[trigger] s2.weights[i]) by {
        if i < s.next {
            assert(s2.weights[i] == s.weights[i]);
        }
    }
    if s2.result is Some && s2.result != s.result {
        assert(s2.weights[s2.result->0 as int] == s.stop);
    }
    if s.result is Some && s.next > 0 {
        assert(s.result->0 < s.next);
        assert(s.weights[s.result->0 as int] == s2.weights[s.result->0 as int]);
    }
}

proof fn lemma_trials_even(reg: Map<Seq<char>, i32>, cands: Seq<Seq<char>>, nf: bool)
    ensures
        trials_of(reg, cands, nf).len() % 2 == 0,
    decreases cands.len(),
{
    if cands.len() > 0 {
        lemma_trials_even(reg, cands.drop_last(), nf);
    }
}

/// Every state a step reaches keeps what `step_inv` states; in particular
/// a chosen trial met the stop bound or weighs no worse than any trial
/// weighed.
pub proof fn lemma_step_keeps_invariant(s: StepView, w: Option<nat>)
    requires
        step_inv(s),
        w is Some ==> w->0 <= usize::MAX,
    ensures
        step_inv(step_on(s, w).0),
        step_on(s, w).0.trials == s.trials,
{
    if !s.done && w is Some {
        lemma_record_core(s, w->0);
        let s1 = record(s, w->0);
        if !s1.done && s1.next < s1.trials.len() && derivable(s1) {
            lemma_record_core(s1, (s1.total->0 - s1.weights[s1.next - 1]) as nat);
        }
    }
}

/// A step that ends with a trial it weighed chose one whose weight is no
/// worse than that of any trial weighed, as long as no weight lies beyond
/// the stop bound (no count below it when minimising, none above it when
/// maximising).
pub proof fn lemma_choice_is_best(s: StepView)
    requires
        step_inv(s),
        s.result is Some,
        s.next > 0,
        forall|i: int| 0 <= i < s.next ==> improves(s.minimize, s.stop, #[trigger] s.weights[i]),
    ensures
        forall|i: int|
            0 <= i < s.next ==> improves(s.minimize, s.weights[s.result->0 as int], #[trigger] s.weights[i]),
{
}

proof fn lemma_trials_resolve(reg: Map<Seq<char>, i32>, cands: Seq<Seq<char>>, nf: bool)
    requires
        forall|k: Seq<char>| #[trigger] reg.dom().contains(k) ==> reg[k] != i32::MIN,
    ensures
        forall|i: int|
            0 <= i < trials_of(reg, cands, nf).len() ==> resolve(reg, #[trigger] trials_of(reg, cands, nf)[i].0)
                == Some(trials_of(reg, cands, nf)[i].1),
    decreases cands.len(),
{
    if cands.len() > 0 {
        lemma_trials_resolve(reg, cands.drop_last(), nf);
        let c = cands.last();
        let rest = trials_of(reg, cands.drop_last(), nf);
        if !is_negated(c) && reg.dom().contains(c) {
            let neg = seq!['~'] + c;
            assert(is_negated(neg));
            assert(symbol_part(neg) =~= c);
            let t = trials_of(reg, cands, nf);
            assert forall|i: int| 0 <= i < t.len() implies resolve(reg, #[trigger] t[i].0) == Some(t[i].1) by {
                if i < rest.len() {
                    assert(t[i] == rest[i]);
                }
            }
        }
    }
}

/// The literal of a chosen facet is the one its repr resolves to: the atom's
/// literal for `a`, its negation for `~a`.
pub proof fn lemma_choice_matches_repr(reg: Map<Seq<char>, i32>, cands: Seq<Seq<char>>, mode: Mode, s: StepView)
    requires
        forall|k: Seq<char>| #[trigger] reg.dom().contains(k) ==> reg[k] != i32::MIN,
        s.trials == trials_of(reg, cands, negative_first(mode)),
        step_inv(s),
        s.result is Some,
    ensures
        resolve(reg, (result_view(s)->0).0) == Some((result_view(s)->0).1),
{
    lemma_trials_resolve(reg, cands, negative_first(mode));
    assert(result_view(s)->0 == s.trials[s.result->0 as int]);
}

proof fn lemma_trials_len(reg: Map<Seq<char>, i32>, cands: Seq<Seq<char>>, nf: bool)
    requires
        forall|i: int| 0 <= i < cands.len() ==> !is_negated(#[trigger] cands[i]) && reg.dom().contains(cands[i]),
    ensures
        trials_of(reg, cands, nf).len() == 2 * cands.len(),
    decreases cands.len(),
{
    if cands.len() > 0 {
        let c = cands.last();
        assert(c == cands[cands.len() - 1]);
        lemma_trials_len(reg, cands.drop_last(), nf);
    }
}

/// A goal-oriented step over facets that all name atoms of the registry
/// chooses nothing exactly when there is no facet.
pub proof fn lemma_goal_oriented_none_iff_empty(
    reg: Map<Seq<char>, i32>,
    cands: Seq<Seq<char>>,
    base: Seq<i32>,
    split_on: Option<nat>,
)
    requires
        forall|i: int| 0 <= i < cands.len() ==> !is_negated(#[trigger] cands[i]) && reg.dom().contains(cands[i]),
    ensures
        (step_start(Mode::GoalOriented, base, trials_of(reg, cands, false), split_on).1
            == StepActionView::Done(None)) <==> cands.len() == 0,
{
    lemma_trials_len(reg, cands, false);
}

/// Where the total of the split is known, no trial is weighed with a bound,
/// so the weight derived for the second trial of a pair is the total less an
/// exact count.
pub proof fn lemma_derived_from_exact_count(s: StepView)
    requires
        step_inv(s),
        s.total is Some,
    ensures
        request(s).1 is Measure ==> request(s).1->Measure_2 == 0,
{
}

/// An answer-set step that weighed every trial hands on, as the total of
/// the next split, the weight of the trial it chose.
pub proof fn lemma_split_is_chosen_weight(s: StepView)
    requires
        step_core(s),
        !s.done,
        s.next >= s.trials.len(),
        s.weight == Weight::AnswerSetCounting,
        s.choice is Some,
    ensures
        finish(s).0.split == Some(s.weights[s.choice->0 as int]),
        finish(s).0.result == s.choice,
{
}

} // verus!
