//! The solver protocol of one query, as a machine that the caller runs: it
//! hands out an action, the caller performs it on the solver and hands back
//! what came of it.
use vstd::prelude::*;
use crate::consequences::contains_string;
use crate::route::strings_view;

verus! {

/// The solver's `solve.enum_mode`.
#[derive(Clone, Copy, PartialEq, Eq, Debug, Structural)]
pub enum EnumMode {
    Auto,
    Brave,
    Cautious,
}

/// Which consequences a query computes.
#[derive(Clone, Copy, PartialEq, Eq, Debug, Structural)]
pub enum Consequences {
    Brave,
    Cautious,
}

pub open spec fn mode_of(kind: Consequences) -> EnumMode {
    match kind {
        Consequences::Brave => EnumMode::Brave,
        Consequences::Cautious => EnumMode::Cautious,
    }
}

/// What a query is for.
pub enum Purpose {
    /// The atoms of the last model under `enum_mode` brave or cautious.
    Consequences(Consequences),
    /// The number of models; with a bound above zero, counting stops once the
    /// count exceeds it. A count that reaches `usize::MAX` stops there.
    Count(usize),
    /// Shows up to the given number of models (all for zero, up to
    /// `usize::MAX`); where atoms to keep are given, only those of each model
    /// are shown.
    Enumerate(usize, Option<Vec<String>>),
}

pub enum PurposeView {
    Consequences(Consequences),
    Count(nat),
    Enumerate(nat, Option<Seq<Seq<char>>>),
}

impl View for Purpose {
    type V = PurposeView;

    open spec fn view(&self) -> PurposeView {
        match self {
            Purpose::Consequences(k) => PurposeView::Consequences(*k),
            Purpose::Count(c) => PurposeView::Count(*c as nat),
            Purpose::Enumerate(n, keep) => PurposeView::Enumerate(
                *n as nat,
                match keep {
                    Some(k) => Some(strings_view(k@)),
                    None => None,
                },
            ),
        }
    }
}

/// What the solver made of the last action.
#[derive(Debug)]
pub enum SolverEvent {
    /// The action was carried out.
    Done,
    /// The solve handle yielded a model with these shown atoms.
    Model(Vec<String>),
    /// The solve handle has no further model.
    Exhausted,
    /// The solver reported an error.
    Failed,
}

pub enum EventView {
    Done,
    Model(Seq<Seq<char>>),
    Exhausted,
    Failed,
}

impl View for SolverEvent {
    type V = EventView;

    open spec fn view(&self) -> EventView {
        match self {
            SolverEvent::Done => EventView::Done,
            SolverEvent::Model(m) => EventView::Model(strings_view(m@)),
            SolverEvent::Exhausted => EventView::Exhausted,
            SolverEvent::Failed => EventView::Failed,
        }
    }
}

/// The outcome of a query.
#[derive(Debug)]
pub enum Answer {
    Atoms(Vec<String>),
    Count(usize),
    Failed,
}

pub enum AnswerView {
    Atoms(Seq<Seq<char>>),
    Count(nat),
    Failed,
}

impl View for Answer {
    type V = AnswerView;

    open spec fn view(&self) -> AnswerView {
        match self {
            Answer::Atoms(a) => AnswerView::Atoms(strings_view(a@)),
            Answer::Count(c) => AnswerView::Count(*c as nat),
            Answer::Failed => AnswerView::Failed,
        }
    }
}

/// What the caller is to do on the solver next.
#[derive(Debug)]
pub enum SolverAction {
    /// Set `solve.enum_mode`.
    SetMode(EnumMode),
    /// Start solving in yield mode under these assumptions, and fetch the
    /// first model.
    Solve(Vec<i32>),
    /// Resume the handle and fetch the next model.
    Resume,
    /// Show the model with this number and these atoms.
    Show(usize, Vec<String>),
    /// Close the solve handle, if one is open.
    Close,
    /// The query is over.
    Finish(Answer),
}

pub enum ActionView {
    SetMode(EnumMode),
    Solve(Seq<i32>),
    Resume,
    Show(nat, Seq<Seq<char>>),
    Close,
    Finish(AnswerView),
}

impl View for SolverAction {
    type V = ActionView;

    open spec fn view(&self) -> ActionView {
        match self {
            SolverAction::SetMode(m) => ActionView::SetMode(*m),
            SolverAction::Solve(a) => ActionView::Solve(a@),
            SolverAction::Resume => ActionView::Resume,
            SolverAction::Show(i, a) => ActionView::Show(*i as nat, strings_view(a@)),
            SolverAction::Close => ActionView::Close,
            SolverAction::Finish(r) => ActionView::Finish(r@),
        }
    }
}

#[derive(Clone, Copy, PartialEq, Eq, Debug, Structural)]
pub enum Phase {
    SettingMode,
    Solving,
    Showing,
    Closing,
    Restoring,
    Finished,
}

pub struct QueryView {
    pub purpose: PurposeView,
    pub assumptions: Seq<i32>,
    pub phase: Phase,
    pub last: Seq<Seq<char>>,
    pub models: nat,
    pub failed: bool,
    pub requested: EnumMode,
}

/// The atoms of a model that are shown.
pub open spec fn shown(atoms: Seq<Seq<char>>, keep: Option<Seq<Seq<char>>>) -> Seq<Seq<char>> {
    match keep {
        Some(k) => atoms.filter(|a: Seq<char>| k.contains(a)),
        None => atoms,
    }
}

pub open spec fn answer_of(q: QueryView) -> AnswerView {
    if q.failed {
        AnswerView::Failed
    } else {
        match q.purpose {
            PurposeView::Consequences(_) => AnswerView::Atoms(q.last),
            _ => AnswerView::Count(q.models),
        }
    }
}

/// After the handle is closed: a consequence query restores `enum_mode`
/// before it finishes.
pub open spec fn after_close(q: QueryView) -> (QueryView, ActionView) {
    match q.purpose {
        PurposeView::Consequences(_) => (
            QueryView { phase: Phase::Restoring, requested: EnumMode::Auto, ..q },
            ActionView::SetMode(EnumMode::Auto),
        ),
        _ => (QueryView { phase: Phase::Finished, ..q }, ActionView::Finish(answer_of(q))),
    }
}

pub open spec fn on_model(q: QueryView, atoms: Seq<Seq<char>>) -> (QueryView, ActionView) {
    match q.purpose {
        PurposeView::Consequences(_) => (QueryView { last: atoms, ..q }, ActionView::Resume),
        PurposeView::Count(cap) => {
            let m = q.models + 1;
            if (cap > 0 && m > cap) || m == usize::MAX {
                (QueryView { models: m, phase: Phase::Closing, ..q }, ActionView::Close)
            } else {
                (QueryView { models: m, ..q }, ActionView::Resume)
            }
        },
        PurposeView::Enumerate(_, keep) => {
            let m = q.models + 1;
            (QueryView { models: m, phase: Phase::Showing, ..q }, ActionView::Show(m, shown(atoms, keep)))
        },
    }
}

/// One step of the protocol.
pub open spec fn query_step(q: QueryView, ev: EventView) -> (QueryView, ActionView) {
    match q.phase {
        Phase::SettingMode => match ev {
            EventView::Done => (QueryView { phase: Phase::Solving, ..q }, ActionView::Solve(q.assumptions)),
            _ => (
                QueryView { phase: Phase::Restoring, failed: true, requested: EnumMode::Auto, ..q },
                ActionView::SetMode(EnumMode::Auto),
            ),
        },
        Phase::Solving => match ev {
            EventView::Model(atoms) => on_model(q, atoms),
            EventView::Exhausted => (QueryView { phase: Phase::Closing, ..q }, ActionView::Close),
            _ => (QueryView { phase: Phase::Closing, failed: true, ..q }, ActionView::Close),
        },
        Phase::Showing => match ev {
            EventView::Done => match q.purpose {
                PurposeView::Enumerate(limit, _) => if (limit > 0 && q.models >= limit) || q.models
                    == usize::MAX {
                    (QueryView { phase: Phase::Closing, ..q }, ActionView::Close)
                } else {
                    (QueryView { phase: Phase::Solving, ..q }, ActionView::Resume)
                },
                _ => (QueryView { phase: Phase::Closing, ..q }, ActionView::Close),
            },
            _ => (QueryView { phase: Phase::Closing, failed: true, ..q }, ActionView::Close),
        },
        Phase::Closing => match ev {
            EventView::Done => after_close(q),
            _ => after_close(QueryView { failed: true, ..q }),
        },
        Phase::Restoring => {
            let q2 = match ev {
                EventView::Done => QueryView { phase: Phase::Finished, ..q },
                _ => QueryView { phase: Phase::Finished, failed: true, ..q },
            };
            (q2, ActionView::Finish(answer_of(q2)))
        },
        Phase::Finished => (q, ActionView::Finish(answer_of(q))),
    }
}

/// The start of a query: a consequence query first sets `enum_mode`.
pub open spec fn query_start(purpose: PurposeView, assumptions: Seq<i32>) -> (QueryView, ActionView) {
    let q = QueryView {
        purpose,
        assumptions,
        phase: Phase::Solving,
        last: Seq::empty(),
        models: 0,
        failed: false,
        requested: EnumMode::Auto,
    };
    match purpose {
        PurposeView::Consequences(kind) => (
            QueryView { phase: Phase::SettingMode, requested: mode_of(kind), ..q },
            ActionView::SetMode(mode_of(kind)),
        ),
        _ => (q, ActionView::Solve(assumptions)),
    }
}

/// The states that a query passes through.
pub open spec fn query_wf(q: QueryView) -> bool {
    &&& (q.phase == Phase::Showing ==> q.purpose is Enumerate)
    &&& q.models <= usize::MAX
    &&& (q.phase == Phase::SettingMode || q.phase == Phase::Solving) ==> q.models < usize::MAX
    &&& (q.phase == Phase::SettingMode || q.phase == Phase::Solving || q.phase == Phase::Showing
        || q.phase == Phase::Closing) && q.purpose is Consequences ==> q.requested == mode_of(
        q.purpose->Consequences_0,
    )
    &&& (q.phase == Phase::Restoring || q.phase == Phase::Finished || !(q.purpose is Consequences))
        ==> q.requested == EnumMode::Auto
}

/// One query on the solver.
pub struct Query {
    purpose: Purpose,
    assumptions: Vec<i32>,
    phase: Phase,
    last: Vec<String>,
    models: usize,
    failed: bool,
    requested: EnumMode,
}

impl View for Query {
    type V = QueryView;

    closed spec fn view(&self) -> QueryView {
        QueryView {
            purpose: self.purpose@,
            assumptions: self.assumptions@,
            phase: self.phase,
            last: strings_view(self.last@),
            models: self.models as nat,
            failed: self.failed,
            requested: self.requested,
        }
    }
}

fn keep_atoms(atoms: &Vec<String>, keep: &Vec<String>) -> (r: Vec<String>)
    ensures
        strings_view(r@) == strings_view(atoms@).filter(|a: Seq<char>| strings_view(keep@).contains(a)),
{
    let ghost b = strings_view(atoms@);
    let ghost k = strings_view(keep@);
    let mut r: Vec<String> = Vec::new();
    let mut i: usize = 0;
    assert(b.take(0) =~= Seq::<Seq<char>>::empty());
    assert(strings_view(r@) =~= Seq::<Seq<char>>::empty());
    while i < atoms.len()
        invariant
            i <= atoms.len(),
            b == strings_view(atoms@),
            k == strings_view(keep@),
            strings_view(r@) == b.take(i as int).filter(|a: Seq<char>| k.contains(a)),
        decreases atoms.len() - i,
    {
        assert(b.take(i + 1).drop_last() =~= b.take(i as int));
        assert(b.take(i + 1).last() == b[i as int]);
        proof {
            reveal(Seq::filter);
        }
        let ghost r0 = r@;
        if contains_string(keep, &atoms[i]) {
            r.push(atoms[i].clone());
            assert(strings_view(r@) =~= strings_view(r0).push(b[i as int]));
        }
        i = i + 1;
    }
    assert(b.take(atoms.len() as int) =~= b);
    r
}

fn copy_strings(v: &Vec<String>) -> (r: Vec<String>)
    ensures
        strings_view(r@) == strings_view(v@),
{
    let mut r: Vec<String> = Vec::new();
    let mut i: usize = 0;
    while i < v.len()
        invariant
            i <= v.len(),
            strings_view(r@) == strings_view(v@).take(i as int),
        decreases v.len() - i,
    {
        let ghost r0 = r@;
        let c = v[i].clone();
        assert(c@ == strings_view(v@)[i as int]);
        r.push(c);
        assert(strings_view(r@) =~= strings_view(r0).push(c@));
        assert(strings_view(v@).take(i + 1) =~= strings_view(v@).take(i as int).push(c@));
        i = i + 1;
    }
    assert(strings_view(v@).take(v.len() as int) =~= strings_view(v@));
    r
}

impl Query {
    pub open spec fn wf(&self) -> bool {
        query_wf(self@)
    }

    fn answer(&self) -> (r: Answer)
        ensures
            r@ == answer_of(self@),
    {
        if self.failed {
            Answer::Failed
        } else {
            match &self.purpose {
                Purpose::Consequences(_) => Answer::Atoms(copy_strings(&self.last)),
                _ => Answer::Count(self.models),
            }
        }
    }

    /// A query and its first action.
    pub fn new(purpose: Purpose, assumptions: Vec<i32>) -> (r: (Query, SolverAction))
        ensures
            (r.0@, r.1@) == query_start(purpose@, assumptions@),
            r.0.wf(),
    {
        let a = assumptions.clone();
        assert(a@ =~= assumptions@);
        let mut q = Query {
            purpose,
            assumptions,
            phase: Phase::Solving,
            last: Vec::new(),
            models: 0,
            failed: false,
            requested: EnumMode::Auto,
        };
        assert(strings_view(q.last@) =~= Seq::<Seq<char>>::empty());
        let act = match &q.purpose {
            Purpose::Consequences(kind) => {
                let m = match kind {
                    Consequences::Brave => EnumMode::Brave,
                    Consequences::Cautious => EnumMode::Cautious,
                };
                q.phase = Phase::SettingMode;
                q.requested = m;
                SolverAction::SetMode(m)
            },
            _ => SolverAction::Solve(a),
        };
        (q, act)
    }

    fn close_done(&mut self) -> (r: SolverAction)
        requires
            old(self).phase == Phase::Closing,
            query_wf(old(self)@),
        ensures
            (final(self)@, r@) == after_close(old(self)@),
    {
        match &self.purpose {
            Purpose::Consequences(_) => {
                self.phase = Phase::Restoring;
                self.requested = EnumMode::Auto;
                SolverAction::SetMode(EnumMode::Auto)
            },
            _ => {
                self.phase = Phase::Finished;
                SolverAction::Finish(self.answer())
            },
        }
    }

    /// The next action, given what came of the last one.
    pub fn on_event(&mut self, ev: SolverEvent) -> (r: SolverAction)
        requires
            old(self).wf(),
        ensures
            (final(self)@, r@) == query_step(old(self)@, ev@),
            final(self).wf(),
    {
        match self.phase {
            Phase::SettingMode => match ev {
                SolverEvent::Done => {
                    self.phase = Phase::Solving;
                    let a = self.assumptions.clone();
                    assert(a@ =~= self.assumptions@);
                    SolverAction::Solve(a)
                },
                _ => {
                    self.phase = Phase::Restoring;
                    self.failed = true;
                    self.requested = EnumMode::Auto;
                    SolverAction::SetMode(EnumMode::Auto)
                },
            },
            Phase::Solving => match ev {
                SolverEvent::Model(atoms) => {
                    match &self.purpose {
                        Purpose::Consequences(_) => {
                            self.last = atoms;
                            SolverAction::Resume
                        },
                        Purpose::Count(cap) => {
                            self.models = self.models + 1;
                            if (*cap > 0 && self.models > *cap) || self.models == usize::MAX {
                                self.phase = Phase::Closing;
                                SolverAction::Close
                            } else {
                                SolverAction::Resume
                            }
                        },
                        Purpose::Enumerate(_, keep) => {
                            self.models = self.models + 1;
                            let shown_atoms = match keep {
                                Some(k) => keep_atoms(&atoms, k),
                                None => atoms,
                            };
                            let m = self.models;
                            self.phase = Phase::Showing;
                            SolverAction::Show(m, shown_atoms)
                        },
                    }
                },
                SolverEvent::Exhausted => {
                    self.phase = Phase::Closing;
                    SolverAction::Close
                },
                _ => {
                    self.phase = Phase::Closing;
                    self.failed = true;
                    SolverAction::Close
                },
            },
            Phase::Showing => match ev {
                SolverEvent::Done => {
                    let stop = match &self.purpose {
                        Purpose::Enumerate(limit, _) => (*limit > 0 && self.models >= *limit)
                            || self.models == usize::MAX,
                        _ => true,
                    };
                    if stop {
                        self.phase = Phase::Closing;
                        SolverAction::Close
                    } else {
                        self.phase = Phase::Solving;
                        SolverAction::Resume
                    }
                },
                _ => {
                    self.phase = Phase::Closing;
                    self.failed = true;
                    SolverAction::Close
                },
            },
            Phase::Closing => {
                match ev {
                    SolverEvent::Done => {},
                    _ => {
                        self.failed = true;
                    },
                }
                self.close_done()
            },
            Phase::Restoring => {
                match ev {
                    SolverEvent::Done => {},
                    _ => {
                        self.failed = true;
                    },
                }
                self.phase = Phase::Finished;
                SolverAction::Finish(self.answer())
            },
            Phase::Finished => SolverAction::Finish(self.answer()),
        }
    }
}

/// Whatever the solver answers, a query that finishes has asked for
/// `enum_mode` auto last, and it asks for no other mode than the one its
/// consequences need.
pub proof fn lemma_mode_restored(q: QueryView, ev: EventView)
    requires
        query_wf(q),
    ensures
        query_wf(query_step(q, ev).0),
        query_step(q, ev).1 is Finish ==> query_step(q, ev).0.requested == EnumMode::Auto,
        query_step(q, ev).1 is SetMode ==> (query_step(q, ev).1->SetMode_0 == EnumMode::Auto
            || (q.purpose is Consequences && query_step(q, ev).1->SetMode_0 == mode_of(
            q.purpose->Consequences_0,
        ))),
{
}

/// A query starts from `enum_mode` auto, well formed.
pub proof fn lemma_query_start(purpose: PurposeView, assumptions: Seq<i32>)
    ensures
        query_wf(query_start(purpose, assumptions).0),
        !(purpose is Consequences) ==> query_start(purpose, assumptions).0.requested
            == EnumMode::Auto,
{
}

} // verus!
