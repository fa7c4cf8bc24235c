use fasb::consequences::{facets, stats};
use fasb::incidences::{show, Structure};
use fasb::modes::{Mode, StepAction, Stepper};
use fasb::navigation::{bc, cc, clear_route, context, delta, enumerate_solutions, enumerate_solutions_sharp, fs, fs_stats, update};
use fasb::query::{Answer, EnumMode, Purpose, Query, SolverAction, SolverEvent};
use fasb::registry::Registry;
use fasb::route::{Navigation, Navigator, RejectionKind};
use fasb::weighted::{count, Measure, Weight};

const PROGRAM: &str = "a;b. c;d :- b. e.";
const ATOMS: [(&str, i32); 5] = [("a", 1), ("b", 2), ("c", 3), ("d", 4), ("e", 5)];

/// A stand-in for the solver over the answer sets of `PROGRAM`, with the
/// integrity constraints that follow its first line.
struct Solver {
    text: String,
    mode: EnumMode,
    pending: Vec<Vec<String>>,
    shown: Vec<(usize, Vec<String>)>,
    modes_set: Vec<EnumMode>,
    solves: usize,
}

fn base_models() -> Vec<Vec<&'static str>> {
    vec![vec!["a", "e"], vec!["b", "c", "e"], vec!["b", "d", "e"]]
}

fn atom_of(lit: i32) -> &'static str {
    ATOMS.iter().find(|(_, l)| *l == lit.abs()).map(|(a, _)| *a).unwrap()
}

impl Solver {
    fn new(text: &str) -> Solver {
        Solver { text: text.to_string(), mode: EnumMode::Auto, pending: vec![], shown: vec![], modes_set: vec![], solves: 0 }
    }

    fn violates(&self, m: &[&str]) -> bool {
        for line in self.text.lines().skip(1) {
            let body = line.trim_start_matches(":- ").trim_end_matches('.');
            let holds = body.split(", ").all(|l| match l.strip_prefix("not ") {
                Some(a) => !m.contains(&a),
                None => m.contains(&l),
            });
            if holds {
                return true;
            }
        }
        false
    }

    fn models(&self, lits: &[i32]) -> Vec<Vec<String>> {
        let ms: Vec<Vec<&str>> = base_models()
            .into_iter()
            .filter(|m| !self.violates(m))
            .filter(|m| lits.iter().all(|l| m.contains(&atom_of(*l)) == (*l > 0)))
            .collect();
        let own = |m: &Vec<&str>| m.iter().map(|a| a.to_string()).collect::<Vec<String>>();
        match self.mode {
            EnumMode::Auto => ms.iter().map(own).collect(),
            _ if ms.is_empty() => vec![],
            EnumMode::Brave => {
                let u: Vec<&str> = ["a", "b", "c", "d", "e"].into_iter().filter(|a| ms.iter().any(|m| m.contains(a))).collect();
                vec![own(&u)]
            }
            EnumMode::Cautious => {
                let i: Vec<&str> = ["a", "b", "c", "d", "e"].into_iter().filter(|a| ms.iter().all(|m| m.contains(a))).collect();
                vec![own(&i)]
            }
        }
    }

    fn next_model(&mut self) -> SolverEvent {
        if self.pending.is_empty() {
            SolverEvent::Exhausted
        } else {
            SolverEvent::Model(self.pending.remove(0))
        }
    }

    /// Performs an action; `Err` carries the answer of a finished query.
    fn perform(&mut self, a: SolverAction) -> Result<SolverEvent, Answer> {
        match a {
            SolverAction::SetMode(m) => {
                self.mode = m;
                self.modes_set.push(m);
                Ok(SolverEvent::Done)
            }
            SolverAction::Solve(lits) => {
                self.solves += 1;
                self.pending = self.models(&lits);
                Ok(self.next_model())
            }
            SolverAction::Resume => Ok(self.next_model()),
            SolverAction::Show(i, atoms) => {
                self.shown.push((i, atoms));
                Ok(SolverEvent::Done)
            }
            SolverAction::Close => {
                self.pending.clear();
                Ok(SolverEvent::Done)
            }
            SolverAction::Finish(ans) => Err(ans),
        }
    }

    fn run_query(&mut self, start: (Query, SolverAction)) -> Answer {
        let (mut q, mut a) = start;
        loop {
            match self.perform(a) {
                Ok(ev) => a = q.on_event(ev),
                Err(ans) => return ans,
            }
        }
    }

    fn run_measure(&mut self, start: (Measure, SolverAction)) -> (Measure, Answer) {
        let (mut m, mut a) = start;
        loop {
            match self.perform(a) {
                Ok(ev) => a = m.on_event(ev),
                Err(ans) => return (m, ans),
            }
        }
    }

    fn run_step(&mut self, start: (Stepper, StepAction)) -> (Stepper, Option<(String, i32)>) {
        let (mut s, mut a) = start;
        loop {
            match a {
                StepAction::Done(r) => return (s, r),
                StepAction::Measure(w, lits, cap) => {
                    let (_, ans) = self.run_measure(Measure::new(w, lits, cap));
                    let weight = match ans {
                        Answer::Count(n) => Some(n),
                        _ => None,
                    };
                    a = s.on_weight(weight);
                }
            }
        }
    }
}

fn registry() -> Registry {
    let mut r = Registry::new();
    for (a, l) in ATOMS {
        assert!(r.insert(a.to_string(), l));
    }
    r
}

fn navigator() -> Navigator {
    Navigator::new(PROGRAM.to_string(), vec!["0".to_string()], registry())
}

fn tokens(s: &str) -> Vec<String> {
    s.split_whitespace().map(|t| t.to_string()).collect()
}

fn strings(v: &[&str]) -> Vec<String> {
    v.iter().map(|s| s.to_string()).collect()
}

/// Brings the solver in line with the route, as a caller does before a query.
fn sync(nav: &mut Navigation, solver: &mut Solver) {
    if let Some(text) = update(nav) {
        solver.text = text.clone();
        nav.reload(text, registry()).unwrap();
    }
}

fn enumerate(nav: &mut Navigation, solver: &mut Solver, n: usize) -> Answer {
    sync(nav, solver);
    solver.shown.clear();
    solver.run_query(enumerate_solutions(nav, n, &vec![]))
}

fn facet_set(nav: &Navigation, solver: &mut Solver, peek: &[&str]) -> Vec<String> {
    let (m, ans) = solver.run_measure(fs(nav, &strings(peek)));
    assert!(matches!(ans, Answer::Count(_)));
    m.facet_list()
}

#[test]
fn startup() {
    let nav = navigator();
    assert!(nav.literals().get(&"a".to_string()).is_some());
}

#[test]
fn and_health() {
    let mut solver = Solver::new(PROGRAM);
    let mut anav = Navigation::And(navigator());

    for d in ["b & ~c", "~a", "a & b"] {
        anav.delta(&tokens(d));
        let _ = anav.context();
        let ans = enumerate(&mut anav, &mut solver, 0);
        assert!(matches!(ans, Answer::Count(_)));
        assert!(anav.clear().is_none());
    }
}

#[test]
fn andor_health() {
    let mut solver = Solver::new(PROGRAM);
    let mut aonav = Navigation::AndOr(navigator());

    for d in ["b | ~c", "~b | c", "a | d", "a & c | d", "a & c | d | a"] {
        aonav.delta(&tokens(d));
        let _ = aonav.context();
        let ans = enumerate(&mut aonav, &mut solver, 0);
        assert!(matches!(ans, Answer::Count(_)));
        if let Some(text) = aonav.clear() {
            solver.text = text.clone();
            aonav.reload(text, registry()).unwrap();
        }
    }
}

#[test]
fn conjunctive_contradiction_has_no_model() {
    let mut solver = Solver::new(PROGRAM);
    let mut nav = Navigation::And(navigator());
    let rejected = delta(&mut nav, &tokens("& a & b"));
    assert!(rejected.is_empty());
    let ans = enumerate(&mut nav, &mut solver, 0);
    assert!(matches!(ans, Answer::Count(0)));
    assert!(solver.shown.is_empty());
}

#[test]
fn disjunctive_route_keeps_all_models() {
    let mut solver = Solver::new(PROGRAM);
    let mut nav = Navigation::AndOr(navigator());
    delta(&mut nav, &tokens("| a | b"));
    let ans = enumerate(&mut nav, &mut solver, 0);
    assert!(matches!(ans, Answer::Count(3)));
    assert_eq!(solver.shown.len(), 3);
}

#[test]
fn mixed_route_leaves_one_model() {
    let mut solver = Solver::new(PROGRAM);
    let mut nav = Navigation::AndOr(navigator());
    delta(&mut nav, &tokens("& ~a | d"));
    let text = update(&nav).unwrap();
    assert_eq!(text, format!("{}\n:- not a, not d.", PROGRAM));
    let ans = enumerate(&mut nav, &mut solver, 0);
    assert!(matches!(ans, Answer::Count(1)));
    assert_eq!(solver.shown, vec![(1, strings(&["b", "d", "e"]))]);
}

#[test]
fn facets_after_commit() {
    let mut solver = Solver::new(PROGRAM);
    let mut nav = Navigation::And(navigator());
    assert_eq!(facet_set(&nav, &mut solver, &[]), strings(&["a", "b", "c", "d"]));
    delta(&mut nav, &tokens("& b"));
    assert_eq!(facet_set(&nav, &mut solver, &[]), strings(&["c", "d"]));
}

#[test]
fn step_max_facet_counting_from_empty() {
    let mut solver = Solver::new(PROGRAM);
    let nav = Navigation::And(navigator());
    let cands = facet_set(&nav, &mut solver, &[]);
    let mode = Mode::MaxWeighted(Weight::FacetCounting);
    let (s, r) = solver.run_step(mode.step_wrt(&nav, &cands, None));
    assert_eq!(r, Some(("a".to_string(), 1)));
    assert_eq!(s.weights(), vec![0]);
}

#[test]
fn step_min_answer_set_counting_after_b() {
    let mut solver = Solver::new(PROGRAM);
    let mut nav = Navigation::And(navigator());
    delta(&mut nav, &tokens("& b"));
    let cands = facet_set(&nav, &mut solver, &[]);
    let mode = Mode::MinWeighted(Weight::AnswerSetCounting);
    let (s, r) = solver.run_step(mode.step_wrt(&nav, &cands, Some(2)));
    let (repr, lit) = r.unwrap();
    assert!(["c", "d", "~c", "~d"].contains(&repr.as_str()));
    assert_eq!(nav.expose().literals().resolve(&repr), Some(lit));
    assert_eq!(s.weights().last(), Some(&1));
}

#[test]
fn step_min_answer_set_counting_uses_total() {
    let mut solver = Solver::new(PROGRAM);
    let mut nav = Navigation::And(navigator());
    delta(&mut nav, &tokens("& b"));
    let cands = strings(&["c", "d"]);
    let mode = Mode::MinWeighted(Weight::AnswerSetCounting);
    let before = solver.solves;
    let (_, r) = solver.run_step(mode.step_wrt(&nav, &cands, Some(2)));
    assert_eq!(r, Some(("~c".to_string(), -3)));
    assert_eq!(solver.solves, before + 1);
}

#[test]
fn step_max_answer_set_counting_keeps_split() {
    let mut solver = Solver::new(PROGRAM);
    let nav = Navigation::And(navigator());
    let cands = strings(&["a", "b", "c", "d"]);
    let mode = Mode::MaxWeighted(Weight::AnswerSetCounting);
    let (s, r) = solver.run_step(mode.step_wrt(&nav, &cands, None));
    // +a has exactly one model: an early stop.
    assert_eq!(r, Some(("a".to_string(), 1)));
    assert_eq!(s.split_on(), None);
}

#[test]
fn step_min_facet_counting_keeps_most_facets() {
    let mut solver = Solver::new(PROGRAM);
    let nav = Navigation::And(navigator());
    let cands = strings(&["a", "b", "c", "d"]);
    let mode = Mode::MinWeighted(Weight::FacetCounting);
    let (s, r) = solver.run_step(mode.step_wrt(&nav, &cands, None));
    let ws = s.weights();
    // ~a leaves {c, d}; ~c leaves {a, b, d}: three is the bound |C| - 1.
    assert_eq!(r, Some(("~c".to_string(), -3)));
    assert_eq!(ws, vec![2, 0, 0, 2, 3]);
}

#[test]
fn step_choice_is_no_worse_than_any_weighed() {
    let mut solver = Solver::new(PROGRAM);
    let mut nav = Navigation::And(navigator());
    delta(&mut nav, &tokens("& e"));
    let cands = strings(&["c", "d"]);
    let mode = Mode::MaxWeighted(Weight::FacetCounting);
    let (s, r) = solver.run_step(mode.step_wrt(&nav, &cands, None));
    let (repr, _) = r.unwrap();
    let ws = s.weights();
    let order = ["c", "~c", "d", "~d"];
    let k = order.iter().position(|t| *t == repr).unwrap();
    assert!(ws.iter().all(|w| ws[k] <= *w));
}

#[test]
fn goal_oriented_step() {
    let mut solver = Solver::new(PROGRAM);
    let nav = Navigation::And(navigator());
    let (_, r) = solver.run_step(Mode::GoalOriented.step_wrt(&nav, &strings(&["c", "d"]), None));
    assert_eq!(r, Some(("c".to_string(), 3)));
    let (_, r) = solver.run_step(Mode::GoalOriented.step_wrt(&nav, &vec![], None));
    assert_eq!(r, None);
}

#[test]
fn step_without_rule_for_weight_chooses_nothing() {
    let mut solver = Solver::new(PROGRAM);
    let nav = Navigation::And(navigator());
    let (_, r) = solver.run_step(Mode::MaxWeighted(Weight::BcCounting).step_wrt(&nav, &strings(&["a"]), None));
    assert_eq!(r, None);
}

#[test]
fn counts_by_weight() {
    let mut solver = Solver::new(PROGRAM);
    let nav = Navigation::And(navigator());
    let none: Vec<String> = vec![];
    let expect = [(Weight::FacetCounting, 4), (Weight::BcCounting, 5), (Weight::CcCounting, 1), (Weight::AnswerSetCounting, 3)];
    for (w, n) in expect {
        let (_, ans) = solver.run_measure(count(w, &nav, &none));
        assert!(matches!(ans, Answer::Count(c) if c == n));
    }
    let (_, ans) = solver.run_measure(count(Weight::FacetCounting, &nav, &strings(&["b"])));
    assert!(matches!(ans, Answer::Count(2)));
}

#[test]
fn stats_match_facet_count() {
    let mut solver = Solver::new(PROGRAM);
    let nav = Navigation::And(navigator());
    let (m, ans) = solver.run_measure(fs_stats(&nav, &strings(&["~a"])));
    assert!(matches!(ans, Answer::Count(2)));
    assert_eq!(m.stats(), (4, 2, 2));
    assert_eq!(m.facet_list().len(), m.stats().2);
}

#[test]
fn bounded_answer_set_count_stops_above_bound() {
    let mut solver = Solver::new(PROGRAM);
    let ans = solver.run_query(Query::new(Purpose::Count(1), vec![]));
    assert!(matches!(ans, Answer::Count(2)));
    let ans = solver.run_query(Query::new(Purpose::Count(0), vec![]));
    assert!(matches!(ans, Answer::Count(3)));
}

#[test]
fn consequences_restore_auto_mode() {
    let mut solver = Solver::new(PROGRAM);
    let nav = Navigation::And(navigator());
    let ans = solver.run_query(bc(&nav, &vec![]));
    assert!(matches!(ans, Answer::Atoms(ref a) if *a == strings(&["a", "b", "c", "d", "e"])));
    assert_eq!(solver.mode, EnumMode::Auto);
    let ans = solver.run_query(cc(&nav, &vec![]));
    assert!(matches!(ans, Answer::Atoms(ref a) if *a == strings(&["e"])));
    assert_eq!(solver.mode, EnumMode::Auto);
    assert_eq!(solver.modes_set, vec![EnumMode::Brave, EnumMode::Auto, EnumMode::Cautious, EnumMode::Auto]);
}

#[test]
fn failed_solve_still_restores_mode() {
    let (mut q, a) = Query::new(Purpose::Consequences(fasb::query::Consequences::Brave), vec![]);
    assert!(matches!(a, SolverAction::SetMode(EnumMode::Brave)));
    assert!(matches!(q.on_event(SolverEvent::Done), SolverAction::Solve(_)));
    assert!(matches!(q.on_event(SolverEvent::Failed), SolverAction::Close));
    assert!(matches!(q.on_event(SolverEvent::Done), SolverAction::SetMode(EnumMode::Auto)));
    assert!(matches!(q.on_event(SolverEvent::Done), SolverAction::Finish(Answer::Failed)));
}

#[test]
fn enumeration_stops_after_n() {
    let mut solver = Solver::new(PROGRAM);
    let mut nav = Navigation::And(navigator());
    let ans = enumerate(&mut nav, &mut solver, 2);
    assert!(matches!(ans, Answer::Count(2)));
    assert_eq!(solver.shown.len(), 2);
}

#[test]
fn sharp_enumeration_hides_atoms() {
    let mut solver = Solver::new(PROGRAM);
    let nav = Navigation::And(navigator());
    let ans = solver.run_query(enumerate_solutions_sharp(&nav, 0, &vec![], strings(&["a", "b"])));
    assert!(matches!(ans, Answer::Count(3)));
    assert_eq!(solver.shown[1], (2, strings(&["b"])));
}

#[test]
fn clear_restores_initial_facets() {
    let mut solver = Solver::new(PROGRAM);
    let mut nav = Navigation::AndOr(navigator());
    let initial = facet_set(&nav, &mut solver, &[]);
    delta(&mut nav, &tokens("& ~a | d"));
    sync(&mut nav, &mut solver);
    assert_eq!(facet_set(&nav, &mut solver, &[]), Vec::<String>::new());
    let text = clear_route(&mut nav).unwrap();
    assert_eq!(text, PROGRAM);
    solver.text = text.clone();
    nav.reload(text, registry()).unwrap();
    assert_eq!(facet_set(&nav, &mut solver, &[]), initial);
    assert_eq!(context(&nav), "");
}

#[test]
fn and_kind_never_regrounds() {
    let mut nav = Navigation::And(navigator());
    delta(&mut nav, &tokens("& a | b"));
    assert!(update(&nav).is_none());
    assert!(clear_route(&mut nav).is_none());
    assert!(nav.reload(PROGRAM.to_string(), registry()).is_err());
}

#[test]
fn andor_regrounds_on_disjunct_transitions() {
    let mut nav = Navigation::AndOr(navigator());
    delta(&mut nav, &tokens("& a"));
    assert!(update(&nav).is_none());
    delta(&mut nav, &tokens("| b"));
    let t1 = update(&nav).unwrap();
    assert_eq!(t1, format!("{}\n:- a, not b.", PROGRAM));
    nav.reload(t1, registry()).unwrap();
    assert!(update(&nav).is_none());
    delta(&mut nav, &tokens("| ~c"));
    assert_eq!(update(&nav).unwrap(), format!("{}\n:- a, not b, c.", PROGRAM));
}

#[test]
fn delta_rejections() {
    let mut nav = Navigation::And(navigator());
    let r = delta(&mut nav, &tokens("& z & | a | b &"));
    let kinds: Vec<(RejectionKind, String)> = r.into_iter().map(|x| (x.kind, x.token)).collect();
    assert_eq!(
        kinds,
        vec![
            (RejectionKind::UnknownSymbol, "z".to_string()),
            (RejectionKind::MissingFacet, "&".to_string()),
            (RejectionKind::Disallowed, "a".to_string()),
            (RejectionKind::Disallowed, "b".to_string()),
            (RejectionKind::MissingFacet, "&".to_string()),
        ]
    );
    assert_eq!(context(&nav), "");
}

#[test]
fn delta_keeps_literals_of_reprs() {
    let mut nav = Navigation::AndOr(navigator());
    delta(&mut nav, &tokens("b & ~c | d"));
    assert_eq!(context(&nav), " & b & ~c | d");
    assert_eq!(nav.expose().conjunctive_literals(), vec![2, -3]);
    assert_eq!(nav.read_route(&strings(&["~e", "q", "a"])), vec![-5, 1, 2, -3]);
}

#[test]
fn reload_refuses_registry_without_conjunct() {
    let mut nav = Navigation::AndOr(navigator());
    delta(&mut nav, &tokens("& b | a"));
    let mut small = Registry::new();
    small.insert("a".to_string(), 7);
    match nav.reload("x".to_string(), small) {
        Err(fasb::errors::NavigatorError::InvalidInput(s)) => assert_eq!(s, "b"),
        _ => panic!("reload should fail"),
    }
    assert_eq!(nav.expose().conjunctive_literals(), vec![2]);
}

#[test]
fn facet_sets_and_stats() {
    let b = strings(&["a", "b", "c", "d", "e"]);
    let c = strings(&["e"]);
    let f = facets(&b, &c);
    assert_eq!(f, strings(&["a", "b", "c", "d"]));
    assert!(f.iter().all(|x| b.contains(x) && !c.contains(x)));
    assert_eq!(stats(&b, &c), (5, 1, 4));
    assert_eq!(stats(&vec![], &c), (0, 0, 0));
}

#[test]
fn incidence_matrix() {
    let mut solver = Solver::new(PROGRAM);
    let nav = Navigation::And(navigator());
    let current = facet_set(&nav, &mut solver, &[]);
    let order = Structure::F(vec![]).order(&current);
    assert_eq!(order, strings(&["a", "b", "c", "d"]));
    let rows: Vec<Vec<String>> = order.iter().map(|f| facet_set(&nav, &mut solver, &[f.as_str()])).collect();
    let m = show(&order, &rows);
    assert_eq!(m[0], vec![false, false, false, false]);
    assert_eq!(m[1], vec![false, false, true, true]);
    assert!(Structure::B(vec![]).order(&current).is_empty());
}

#[test]
fn known_total_counts_without_bound() {
    let nav = Navigation::And(navigator());
    let mode = Mode::MaxWeighted(Weight::AnswerSetCounting);
    let (mut s, a) = mode.step_wrt(&nav, &strings(&["a", "b"]), Some(10));
    assert!(matches!(a, StepAction::Measure(Weight::AnswerSetCounting, _, 0)));
    // +a: 3 models, so ~a: 7; +b: 9 models, so ~b: 1, the fewest.
    let a = s.on_weight(Some(3));
    assert!(matches!(a, StepAction::Measure(Weight::AnswerSetCounting, _, 0)));
    let a = s.on_weight(Some(9));
    assert!(matches!(a, StepAction::Done(Some((ref r, -2))) if r == "~b"));
    assert_eq!(s.weights(), vec![3, 7, 9, 1]);
}

#[test]
fn unknown_total_counts_with_running_best() {
    let nav = Navigation::And(navigator());
    let mode = Mode::MaxWeighted(Weight::AnswerSetCounting);
    let (mut s, a) = mode.step_wrt(&nav, &strings(&["a", "b"]), None);
    assert!(matches!(a, StepAction::Measure(_, _, c) if c == usize::MAX - 1));
    let a = s.on_weight(Some(3));
    assert!(matches!(a, StepAction::Measure(_, _, 3)));
    let a = s.on_weight(Some(2));
    assert!(matches!(a, StepAction::Measure(_, _, 2)));
    let a = s.on_weight(Some(3));
    assert!(matches!(a, StepAction::Measure(_, _, 2)));
    let a = s.on_weight(Some(3));
    assert!(matches!(a, StepAction::Done(Some((ref r, -1))) if r == "~a"));
    assert_eq!(s.split_on(), Some(2));
}
