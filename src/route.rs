//! The route: the conjunctive and disjunctive facets that are active, and
//! the program text that the solver must hold for them.
use vstd::prelude::*;
use crate::errors::NavigatorError;
use crate::registry::{is_negated, resolve, split_sign, symbol_part, Registry};

verus! {

/// Why a token of a delta was not taken into the route.
#[derive(Clone, Copy, PartialEq, Eq, Debug, Structural)]
pub enum RejectionKind {
    /// The facet names no atom of the registry.
    UnknownSymbol,
    /// An operator that no facet follows.
    MissingFacet,
    /// A disjunctive facet where only conjunctive ones are permitted.
    Disallowed,
}

/// A token of a delta that was skipped, and why.
#[derive(Debug)]
pub struct Rejection {
    pub kind: RejectionKind,
    pub token: String,
}

/// The route as values: conjunctive literals and reprs, disjunctive reprs,
/// and the text that the user typed.
pub struct RouteView {
    pub conj_lits: Seq<i32>,
    pub conj_reprs: Seq<Seq<char>>,
    pub disjuncts: Seq<Seq<char>>,
    pub route: Seq<char>,
}

/// Where a scan of delta tokens stands.
pub struct Scan {
    pub nav: RouteView,
    pub disjunctive: bool,
    pub dangling: Option<Seq<char>>,
    pub rejected: Seq<(RejectionKind, Seq<char>)>,
}

pub open spec fn and_op() -> Seq<char> {
    seq!['&']
}

pub open spec fn or_op() -> Seq<char> {
    seq!['|']
}

pub open spec fn is_operator(t: Seq<char>) -> bool {
    t == and_op() || t == or_op()
}

pub open spec fn start_scan(nav: RouteView) -> Scan {
    Scan { nav, disjunctive: false, dangling: None, rejected: Seq::empty() }
}

/// One token of a delta: an operator sets the mode, a facet joins the list
/// of the current mode when its atom is known.
pub open spec fn scan_token(sc: Scan, reg: Map<Seq<char>, i32>, allow_or: bool, t: Seq<char>) -> Scan {
    if is_operator(t) {
        Scan {
            disjunctive: t == or_op(),
            dangling: Some(t),
            rejected: match sc.dangling {
                Some(op) => sc.rejected.push((RejectionKind::MissingFacet, op)),
                None => sc.rejected,
            },
            ..sc
        }
    } else if !reg.dom().contains(symbol_part(t)) {
        Scan {
            dangling: None,
            rejected: sc.rejected.push((RejectionKind::UnknownSymbol, t)),
            ..sc
        }
    } else if sc.disjunctive && !allow_or {
        Scan {
            dangling: None,
            rejected: sc.rejected.push((RejectionKind::Disallowed, t)),
            ..sc
        }
    } else if sc.disjunctive {
        Scan {
            nav: RouteView {
                disjuncts: sc.nav.disjuncts.push(t),
                route: sc.nav.route + seq![' ', '|', ' '] + t,
                ..sc.nav
            },
            dangling: None,
            ..sc
        }
    } else {
        Scan {
            nav: RouteView {
                conj_lits: sc.nav.conj_lits.push(resolve(reg, t).unwrap()),
                conj_reprs: sc.nav.conj_reprs.push(t),
                route: sc.nav.route + seq![' ', '&', ' '] + t,
                ..sc.nav
            },
            dangling: None,
            ..sc
        }
    }
}

pub open spec fn scan_tokens(
    sc: Scan,
    reg: Map<Seq<char>, i32>,
    allow_or: bool,
    ts: Seq<Seq<char>>,
) -> Scan
    decreases ts.len(),
{
    if ts.len() == 0 {
        sc
    } else {
        scan_token(scan_tokens(sc, reg, allow_or, ts.drop_last()), reg, allow_or, ts.last())
    }
}

/// The scan after its last token: an operator left without a facet is
/// reported.
pub open spec fn end_scan(sc: Scan) -> Scan {
    match sc.dangling {
        Some(op) => Scan {
            dangling: None,
            rejected: sc.rejected.push((RejectionKind::MissingFacet, op)),
            ..sc
        },
        None => sc,
    }
}

pub open spec fn delta_result(
    nav: RouteView,
    reg: Map<Seq<char>, i32>,
    allow_or: bool,
    ts: Seq<Seq<char>>,
) -> Scan {
    end_scan(scan_tokens(start_scan(nav), reg, allow_or, ts))
}

pub open spec fn strings_view(v: Seq<String>) -> Seq<Seq<char>> {
    v.map_values(|s: String| s@)
}

pub open spec fn rejections_view(v: Seq<Rejection>) -> Seq<(RejectionKind, Seq<char>)> {
    v.map_values(|r: Rejection| (r.kind, r.token@))
}

pub open spec fn opt_view(o: Option<String>) -> Option<Seq<char>> {
    match o {
        Some(s) => Some(s@),
        None => None,
    }
}

/// Whether `t` is the operator `&` (`Some(false)`) or `|` (`Some(true)`).
pub fn operator_of(t: &String) -> (r: Option<bool>)
    ensures
        r == (if t@ == and_op() {
            Some(false)
        } else if t@ == or_op() {
            Some(true)
        } else {
            None
        }),
{
    let s = t.as_str();
    if s.unicode_len() != 1 {
        return None;
    }
    let c = s.get_char(0);
    if c == '&' {
        assert(t@ =~= and_op());
        Some(false)
    } else if c == '|' {
        assert(t@ =~= or_op());
        Some(true)
    } else {
        assert(t@ != and_op());
        assert(t@ != or_op());
        None
    }
}

/// The literals of the peek reprs that resolve, in order; the others are
/// left out.
pub open spec fn resolve_all(reg: Map<Seq<char>, i32>, peek: Seq<Seq<char>>) -> Seq<i32>
    decreases peek.len(),
{
    if peek.len() == 0 {
        Seq::empty()
    } else {
        let rest = resolve_all(reg, peek.drop_last());
        match resolve(reg, peek.last()) {
            Some(l) => rest.push(l),
            None => rest,
        }
    }
}

pub open spec fn not_prefix() -> Seq<char> {
    seq!['n', 'o', 't', ' ']
}

/// A conjunctive facet as the body literal of a constraint: `a` or `not a`.
pub open spec fn conj_body(r: Seq<char>) -> Seq<char> {
    if is_negated(r) {
        not_prefix() + symbol_part(r)
    } else {
        r
    }
}

/// The negation of a disjunctive facet as a body literal: `not a` for `a`,
/// `a` for `~a`.
pub open spec fn disj_negation(r: Seq<char>) -> Seq<char> {
    if is_negated(r) {
        symbol_part(r)
    } else {
        not_prefix() + r
    }
}

/// `parts` with `sep` between each two.
pub open spec fn join(sep: Seq<char>, parts: Seq<Seq<char>>) -> Seq<char>
    decreases parts.len(),
{
    if parts.len() == 0 {
        Seq::empty()
    } else if parts.len() == 1 {
        parts[0]
    } else {
        join(sep, parts.drop_last()) + sep + parts.last()
    }
}

pub open spec fn comma() -> Seq<char> {
    seq![',', ' ']
}

pub open spec fn newline() -> Seq<char> {
    seq!['\n']
}

pub open spec fn disjunction(ds: Seq<Seq<char>>) -> Seq<char> {
    join(comma(), ds.map_values(|d: Seq<char>| disj_negation(d)))
}

/// `:- c, D1, ..., Dm.`: the conjunctive facet `c` may not hold while every
/// disjunctive facet fails.
pub open spec fn constraint(c: Seq<char>, ds: Seq<Seq<char>>) -> Seq<char> {
    seq![':', '-', ' '] + conj_body(c) + comma() + disjunction(ds) + seq!['.']
}

/// The program that the solver must hold for a route: the program itself
/// while no disjunctive facet is active, else the program followed by one
/// constraint per conjunctive facet.
pub open spec fn program_text(prog: Seq<char>, cs: Seq<Seq<char>>, ds: Seq<Seq<char>>) -> Seq<char> {
    if ds.len() == 0 {
        prog
    } else {
        prog + newline() + join(newline(), cs.map_values(|c: Seq<char>| constraint(c, ds)))
    }
}

fn conj_body_text(r: &String) -> (t: String)
    ensures
        t@ == conj_body(r@),
{
    let (neg, sym) = split_sign(r);
    if neg {
        let mut t = String::from_str("not ");
        t.append(sym.as_str());
        proof {
            reveal_strlit("not ");
        }
        t
    } else {
        r.clone()
    }
}

fn disj_negation_text(r: &String) -> (t: String)
    ensures
        t@ == disj_negation(r@),
{
    let (neg, sym) = split_sign(r);
    if neg {
        sym
    } else {
        let mut t = String::from_str("not ");
        t.append(r.as_str());
        proof {
            reveal_strlit("not ");
        }
        t
    }
}

fn disjunction_text(ds: &Vec<String>) -> (t: String)
    ensures
        t@ == disjunction(strings_view(ds@)),
{
    let ghost parts = strings_view(ds@).map_values(|d: Seq<char>| disj_negation(d));
    let mut t = String::new();
    let mut i: usize = 0;
    assert(parts.take(0) =~= Seq::<Seq<char>>::empty());
    while i < ds.len()
        invariant
            i <= ds.len(),
            parts == strings_view(ds@).map_values(|d: Seq<char>| disj_negation(d)),
            t@ == join(comma(), parts.take(i as int)),
        decreases ds.len() - i,
    {
        let part = disj_negation_text(&ds[i]);
        assert(parts.take(i + 1).drop_last() =~= parts.take(i as int));
        if i > 0 {
            t.append(", ");
            proof {
                reveal_strlit(", ");
            }
        } else {
            assert(t@ =~= Seq::<char>::empty());
        }
        t.append(part.as_str());
        proof {
            if i == 0 {
                assert(t@ =~= part@);
            }
        }
        i = i + 1;
    }
    assert(parts.take(ds.len() as int) =~= parts);
    t
}

/// The state of a route over a grounded program.
pub struct Navigator {
    conj_lits: Vec<i32>,
    conj_reprs: Vec<String>,
    disjuncts: Vec<String>,
    route: String,
    literals: Registry,
    program: String,
    args: Vec<String>,
    grounded: String,
}

impl View for Navigator {
    type V = RouteView;

    closed spec fn view(&self) -> RouteView {
        RouteView {
            conj_lits: self.conj_lits@,
            conj_reprs: strings_view(self.conj_reprs@),
            disjuncts: strings_view(self.disjuncts@),
            route: self.route@,
        }
    }
}

pub open spec fn empty_route() -> RouteView {
    RouteView {
        conj_lits: Seq::empty(),
        conj_reprs: Seq::empty(),
        disjuncts: Seq::empty(),
        route: Seq::empty(),
    }
}

/// The conjunctive literals are those that the conjunctive reprs resolve to.
pub open spec fn route_wf(v: RouteView, reg: Map<Seq<char>, i32>) -> bool {
    &&& v.conj_lits.len() == v.conj_reprs.len()
    &&& forall|i: int|
        0 <= i < v.conj_reprs.len() ==> resolve(reg, #[trigger] v.conj_reprs[i]) == Some(
            v.conj_lits[i],
        )
}

impl Navigator {
    /// The literals of the grounded program.
    pub closed spec fn registry(&self) -> Map<Seq<char>, i32> {
        self.literals@
    }

    /// The program as it was given.
    pub closed spec fn program(&self) -> Seq<char> {
        self.program@
    }

    /// The solver arguments as they were given.
    pub closed spec fn args(&self) -> Seq<Seq<char>> {
        strings_view(self.args@)
    }

    /// The program text that the live solver was grounded from.
    pub closed spec fn grounded(&self) -> Seq<char> {
        self.grounded@
    }

    pub closed spec fn wf(&self) -> bool {
        &&& self.literals.wf()
        &&& route_wf(self@, self.literals@)
    }

    /// A navigator over `program`, grounded with `args`, whose atoms and
    /// literals are `literals`; the route is empty.
    pub fn new(program: String, args: Vec<String>, literals: Registry) -> (r: Navigator)
        requires
            literals.wf(),
        ensures
            r.wf(),
            r@ == empty_route(),
            r.registry() == literals@,
            r.program() == program@,
            r.grounded() == program@,
            r.args() == strings_view(args@),
    {
        let grounded = program.clone();
        let r = Navigator {
            conj_lits: Vec::new(),
            conj_reprs: Vec::new(),
            disjuncts: Vec::new(),
            route: String::new(),
            literals,
            program,
            args,
            grounded,
        };
        assert(r@.conj_reprs =~= Seq::<Seq<char>>::empty());
        assert(r@.disjuncts =~= Seq::<Seq<char>>::empty());
        r
    }

    /// The text of the route as the user typed it.
    pub fn context(&self) -> (r: String)
        ensures
            r@ == self@.route,
    {
        self.route.clone()
    }

    /// The literals of the conjunctive facets.
    pub fn conjunctive_literals(&self) -> (r: Vec<i32>)
        ensures
            r@ == self@.conj_lits,
    {
        let r = self.conj_lits.clone();
        assert(r@ =~= self.conj_lits@);
        r
    }

    /// The registry of the grounded program.
    pub fn literals(&self) -> (r: &Registry)
        requires
            self.wf(),
        ensures
            r@ == self.registry(),
            r.wf(),
    {
        &self.literals
    }

    /// The assumptions for a query: the literals of `peek` that resolve,
    /// then the conjunctive literals.
    pub fn assumptions(&self, peek: &Vec<String>) -> (r: Vec<i32>)
        requires
            self.wf(),
        ensures
            r@ == resolve_all(self.registry(), strings_view(peek@)) + self@.conj_lits,
    {
        let ghost ps = strings_view(peek@);
        let mut r: Vec<i32> = Vec::new();
        let mut i: usize = 0;
        assert(ps.take(0) =~= Seq::<Seq<char>>::empty());
        while i < peek.len()
            invariant
                i <= peek.len(),
                ps == strings_view(peek@),
                self.wf(),
                r@ == resolve_all(self.registry(), ps.take(i as int)),
            decreases peek.len() - i,
        {
            assert(ps.take(i + 1).drop_last() =~= ps.take(i as int));
            match self.literals.resolve(&peek[i]) {
                Some(l) => r.push(l),
                None => {},
            }
            i = i + 1;
        }
        assert(ps.take(peek.len() as int) =~= ps);
        let mut j: usize = 0;
        let ghost front = r@;
        while j < self.conj_lits.len()
            invariant
                j <= self.conj_lits.len(),
                r@ == front + self.conj_lits@.take(j as int),
            decreases self.conj_lits.len() - j,
        {
            r.push(self.conj_lits[j]);
            assert(front + self.conj_lits@.take(j + 1) =~= (front + self.conj_lits@.take(j as int)).push(self.conj_lits@[j as int]));
            j = j + 1;
        }
        assert(self.conj_lits@.take(self.conj_lits.len() as int) =~= self.conj_lits@);
        r
    }

    /// The program text that the current route calls for.
    pub fn program_text(&self) -> (r: String)
        ensures
            r@ == program_text(self.program(), self@.conj_reprs, self@.disjuncts),
    {
        if self.disjuncts.len() == 0 {
            return self.program.clone();
        }
        let ghost ds = self@.disjuncts;
        let ghost parts = self@.conj_reprs.map_values(|c: Seq<char>| constraint(c, ds));
        let disj = disjunction_text(&self.disjuncts);
        let mut cs = String::new();
        let mut i: usize = 0;
        assert(parts.take(0) =~= Seq::<Seq<char>>::empty());
        while i < self.conj_reprs.len()
            invariant
                i <= self.conj_reprs.len(),
                ds == self@.disjuncts,
                parts == self@.conj_reprs.map_values(|c: Seq<char>| constraint(c, ds)),
                disj@ == disjunction(ds),
                cs@ == join(newline(), parts.take(i as int)),
            decreases self.conj_reprs.len() - i,
        {
            let body = conj_body_text(&self.conj_reprs[i]);
            let mut c = String::from_str(":- ");
            c.append(body.as_str());
            c.append(", ");
            c.append(disj.as_str());
            c.append(".");
            proof {
                reveal_strlit(":- ");
                reveal_strlit(", ");
                reveal_strlit(".");
                assert(c@ =~= constraint(self@.conj_reprs[i as int], ds));
            }
            assert(parts.take(i + 1).drop_last() =~= parts.take(i as int));
            if i > 0 {
                cs.append("\n");
                proof {
                    reveal_strlit("\n");
                }
            } else {
                assert(cs@ =~= Seq::<char>::empty());
            }
            cs.append(c.as_str());
            proof {
                if i == 0 {
                    assert(cs@ =~= c@);
                }
            }
            i = i + 1;
        }
        assert(parts.take(self.conj_reprs.len() as int) =~= parts);
        let mut t = self.program.clone();
        t.append("\n");
        t.append(cs.as_str());
        proof {
            reveal_strlit("\n");
        }
        t
    }

    /// The program text to ground a fresh solver from, where the route calls
    /// for another program than the live solver holds.
    pub fn required_program(&self) -> (r: Option<String>)
        ensures
            ({
                let t = program_text(self.program(), self@.conj_reprs, self@.disjuncts);
                r == (if t == self.grounded() {
                    None::<String>
                } else {
                    Some(r->0)
                }) && (r is Some ==> r->0@ == t)
            }),
    {
        let t = self.program_text();
        if t.eq(&self.grounded) {
            None
        } else {
            Some(t)
        }
    }

    /// Takes the literals of a solver grounded from `text`: the conjunctive
    /// facets are resolved anew. Fails, and changes nothing, where one of them
    /// names no atom of `literals`.
    pub fn reload(&mut self, text: String, literals: Registry) -> (r: Result<(), NavigatorError>)
        requires
            old(self).wf(),
            literals.wf(),
        ensures
            final(self).wf(),
            r is Ok <==> (forall|i: int|
                0 <= i < old(self)@.conj_reprs.len() ==> resolve(literals@, #[trigger] old(self)@.conj_reprs[i]) is Some),
            r is Ok ==> final(self).registry() == literals@ && final(self).grounded() == text@
                && final(self)@.conj_reprs == old(self)@.conj_reprs
                && final(self)@.disjuncts == old(self)@.disjuncts
                && final(self)@.route == old(self)@.route,
            r is Err ==> *final(self) == *old(self),
            final(self).program() == old(self).program(),
            final(self).args() == old(self).args(),
    {
        let mut lits: Vec<i32> = Vec::new();
        let mut i: usize = 0;
        while i < self.conj_reprs.len()
            invariant
                i <= self.conj_reprs.len(),
                literals.wf(),
                *self == *old(self),
                old(self).wf(),
                lits.len() == i,
                forall|j: int| 0 <= j < i ==> resolve(literals@, #[trigger] self@.conj_reprs[j]) == Some(lits@[j]),
            decreases self.conj_reprs.len() - i,
        {
            match literals.resolve(&self.conj_reprs[i]) {
                Some(l) => lits.push(l),
                None => {
                    assert(resolve(literals@, self@.conj_reprs[i as int]) is None);
                    let missing = self.conj_reprs[i].clone();
                    return Err(NavigatorError::InvalidInput(missing));
                },
            }
            i = i + 1;
        }
        self.conj_lits = lits;
        self.literals = literals;
        self.grounded = text;
        Ok(())
    }

    /// Empties the route.
    pub(crate) fn clear_route(&mut self)
        requires
            old(self).wf(),
        ensures
            final(self).wf(),
            final(self)@ == empty_route(),
            final(self).registry() == old(self).registry(),
            final(self).program() == old(self).program(),
            final(self).grounded() == old(self).grounded(),
            final(self).args() == old(self).args(),
    {
        self.conj_lits.clear();
        self.conj_reprs.clear();
        self.disjuncts.clear();
        self.route = String::new();
        assert(self@.conj_reprs =~= Seq::<Seq<char>>::empty());
        assert(self@.disjuncts =~= Seq::<Seq<char>>::empty());
    }

    /// Takes the tokens of a delta into the route; returns those skipped.
    pub(crate) fn scan(&mut self, tokens: &Vec<String>, allow_or: bool) -> (rejected: Vec<Rejection>)
        requires
            old(self).wf(),
        ensures
            final(self).wf(),
            final(self)@ == delta_result(old(self)@, old(self).registry(), allow_or, strings_view(tokens@)).nav,
            rejections_view(rejected@) == delta_result(
                old(self)@,
                old(self).registry(),
                allow_or,
                strings_view(tokens@),
            ).rejected,
            final(self).registry() == old(self).registry(),
            final(self).program() == old(self).program(),
            final(self).grounded() == old(self).grounded(),
            final(self).args() == old(self).args(),
    {
        let ghost reg = self.literals@;
        let ghost ts = strings_view(tokens@);
        let mut rejected: Vec<Rejection> = Vec::new();
        let mut disjunctive = false;
        let mut dangling: Option<String> = None;
        let mut i: usize = 0;
        assert(ts.take(0) =~= Seq::<Seq<char>>::empty());
        assert(rejections_view(rejected@) =~= Seq::empty());
        while i < tokens.len()
            invariant
                i <= tokens.len(),
                ts == strings_view(tokens@),
                self.wf(),
                self.literals@ == reg,
                self.registry() == old(self).registry(),
                self.program() == old(self).program(),
                self.grounded() == old(self).grounded(),
                self.args() == old(self).args(),
                ({
                    let sc = scan_tokens(start_scan(old(self)@), reg, allow_or, ts.take(i as int));
                    &&& self@ == sc.nav
                    &&& disjunctive == sc.disjunctive
                    &&& opt_view(dangling) == sc.dangling
                    &&& rejections_view(rejected@) == sc.rejected
                }),
            decreases tokens.len() - i,
        {
            let t = &tokens[i];
            let ghost sc = scan_tokens(start_scan(old(self)@), reg, allow_or, ts.take(i as int));
            assert(ts.take(i + 1).drop_last() =~= ts.take(i as int));
            assert(ts.take(i + 1).last() == t@);
            let ghost rej0 = rejected@;
            let ghost nav0 = self@;
            match operator_of(t) {
                Some(or) => {
                    match dangling {
                        Some(op) => {
                            rejected.push(Rejection { kind: RejectionKind::MissingFacet, token: op });
                        },
                        None => {},
                    }
                    disjunctive = or;
                    dangling = Some(t.clone());
                },
                None => {
                    dangling = None;
                    let (neg, sym) = crate::registry::split_sign(t);
                    match self.literals.resolve(t) {
                        None => {
                            rejected.push(Rejection { kind: RejectionKind::UnknownSymbol, token: t.clone() });
                        },
                        Some(lit) => {
                            if disjunctive && !allow_or {
                                rejected.push(Rejection { kind: RejectionKind::Disallowed, token: t.clone() });
                            } else if disjunctive {
                                self.disjuncts.push(t.clone());
                                self.route.append(" | ");
                                self.route.append(t.as_str());
                                proof {
                                    reveal_strlit(" | ");
                                    assert(self@.disjuncts =~= nav0.disjuncts.push(t@));
                                }
                            } else {
                                self.conj_lits.push(lit);
                                self.conj_reprs.push(t.clone());
                                self.route.append(" & ");
                                self.route.append(t.as_str());
                                proof {
                                    reveal_strlit(" & ");
                                    assert(self@.conj_reprs =~= nav0.conj_reprs.push(t@));
                                    assert(route_wf(self@, reg));
                                }
                            }
                        },
                    }
                },
            }
            proof {
                let nx = scan_token(sc, reg, allow_or, t@);
                assert(rejections_view(rejected@) =~= nx.rejected);
                assert(self@.conj_lits =~= nx.nav.conj_lits);
                assert(self@.conj_reprs =~= nx.nav.conj_reprs);
                assert(self@.disjuncts =~= nx.nav.disjuncts);
                assert(self@.route =~= nx.nav.route);
            }
            i = i + 1;
        }
        assert(ts.take(tokens.len() as int) =~= ts);
        match dangling {
            Some(op) => {
                rejected.push(Rejection { kind: RejectionKind::MissingFacet, token: op });
            },
            None => {},
        }
        proof {
            let sc = scan_tokens(start_scan(old(self)@), reg, allow_or, ts);
            assert(rejections_view(rejected@) =~= end_scan(sc).rejected);
        }
        rejected
    }
}

proof fn lemma_conjunctive_scan_keeps_disjuncts(sc: Scan, reg: Map<Seq<char>, i32>, ts: Seq<Seq<char>>)
    ensures
        scan_tokens(sc, reg, false, ts).nav.disjuncts == sc.nav.disjuncts,
    decreases ts.len(),
{
    if ts.len() > 0 {
        lemma_conjunctive_scan_keeps_disjuncts(sc, reg, ts.drop_last());
    }
}

/// A navigator of one of two kinds: `And` admits conjunctive facets only,
/// `AndOr` admits disjunctive facets too.
pub enum Navigation {
    And(Navigator),
    AndOr(Navigator),
}

impl Navigation {
    pub open spec fn navigator(self) -> Navigator {
        match self {
            Navigation::And(n) => n,
            Navigation::AndOr(n) => n,
        }
    }

    /// The route is well formed; an `And` navigator holds no disjunctive
    /// facet and keeps the solver it was grounded with.
    pub open spec fn wf(self) -> bool {
        &&& self.navigator().wf()
        &&& self is And ==> self.navigator()@.disjuncts.len() == 0 && self.navigator().grounded()
            == self.navigator().program()
    }

    /// Extends the route by the tokens of a delta; returns the tokens that
    /// were skipped, and why.
    pub fn delta(&mut self, tokens: &Vec<String>) -> (rejected: Vec<Rejection>)
        requires
            old(self).wf(),
        ensures
            final(self).wf(),
            (*final(self) is And) == (*old(self) is And),
            final(self).navigator()@ == delta_result(
                old(self).navigator()@,
                old(self).navigator().registry(),
                *old(self) is AndOr,
                strings_view(tokens@),
            ).nav,
            rejections_view(rejected@) == delta_result(
                old(self).navigator()@,
                old(self).navigator().registry(),
                *old(self) is AndOr,
                strings_view(tokens@),
            ).rejected,
            final(self).navigator().registry() == old(self).navigator().registry(),
            final(self).navigator().program() == old(self).navigator().program(),
            final(self).navigator().grounded() == old(self).navigator().grounded(),
    {
        match self {
            Navigation::And(nav) => {
                proof {
                    lemma_conjunctive_scan_keeps_disjuncts(
                        start_scan(nav@),
                        nav.registry(),
                        strings_view(tokens@),
                    );
                }
                nav.scan(tokens, false)
            },
            Navigation::AndOr(nav) => nav.scan(tokens, true),
        }
    }

    /// Empties the route. Returns the program text to ground a fresh solver
    /// from, where the live one holds another than the program itself; an
    /// `And` navigator never asks for one.
    pub fn clear(&mut self) -> (r: Option<String>)
        requires
            old(self).wf(),
        ensures
            final(self).wf(),
            (*final(self) is And) == (*old(self) is And),
            final(self).navigator()@ == empty_route(),
            final(self).navigator().registry() == old(self).navigator().registry(),
            final(self).navigator().program() == old(self).navigator().program(),
            final(self).navigator().grounded() == old(self).navigator().grounded(),
            *old(self) is And ==> r is None,
            *old(self) is AndOr ==> (r is None <==> old(self).navigator().grounded() == old(
                self,
            ).navigator().program()),
            r is Some ==> r->0@ == old(self).navigator().program(),
    {
        match self {
            Navigation::And(nav) => {
                nav.clear_route();
                None
            },
            Navigation::AndOr(nav) => {
                nav.clear_route();
                nav.required_program()
            },
        }
    }

    /// The program text to ground a fresh solver from before the next
    /// query, where the route calls for another than the live one holds.
    pub fn update(&self) -> (r: Option<String>)
        requires
            self.wf(),
        ensures
            self is And ==> r is None,
            self is AndOr ==> ({
                let t = program_text(
                    self.navigator().program(),
                    self.navigator()@.conj_reprs,
                    self.navigator()@.disjuncts,
                );
                &&& (r is None <==> t == self.navigator().grounded())
                &&& r is Some ==> r->0@ == t
            }),
    {
        match self {
            Navigation::And(_) => None,
            Navigation::AndOr(nav) => nav.required_program(),
        }
    }

    /// Takes the literals of a solver freshly grounded from `text`. An `And`
    /// navigator keeps its solver and refuses.
    pub fn reload(&mut self, text: String, literals: Registry) -> (r: Result<(), NavigatorError>)
        requires
            old(self).wf(),
            literals.wf(),
        ensures
            final(self).wf(),
            (*final(self) is And) == (*old(self) is And),
            *old(self) is And ==> r is Err && *final(self) == *old(self),
            *old(self) is AndOr ==> (r is Ok <==> (forall|i: int|
                0 <= i < old(self).navigator()@.conj_reprs.len() ==> resolve(
                    literals@,
                    #[trigger] old(self).navigator()@.conj_reprs[i],
                ) is Some)),
            r is Ok ==> final(self).navigator().registry() == literals@
                && final(self).navigator().grounded() == text@
                && final(self).navigator()@.conj_reprs == old(self).navigator()@.conj_reprs
                && final(self).navigator()@.disjuncts == old(self).navigator()@.disjuncts
                && final(self).navigator()@.route == old(self).navigator()@.route
                && final(self).navigator().program() == old(self).navigator().program(),
            r is Err ==> *final(self) == *old(self),
    {
        match self {
            Navigation::And(_) => Err(NavigatorError::InvalidInput(text)),
            Navigation::AndOr(nav) => nav.reload(text, literals),
        }
    }

    /// The text of the route as the user typed it.
    pub fn context(&self) -> (r: String)
        ensures
            r@ == self.navigator()@.route,
    {
        match self {
            Navigation::And(nav) => nav.context(),
            Navigation::AndOr(nav) => nav.context(),
        }
    }

    /// The assumptions of a query under the route extended by `peek`.
    pub fn read_route(&self, peek: &Vec<String>) -> (r: Vec<i32>)
        requires
            self.wf(),
        ensures
            r@ == resolve_all(self.navigator().registry(), strings_view(peek@))
                + self.navigator()@.conj_lits,
    {
        self.expose().assumptions(peek)
    }

    /// The navigator behind either kind.
    pub fn expose(&self) -> (r: &Navigator)
        ensures
            *r == self.navigator(),
    {
        match self {
            Navigation::And(nav) => nav,
            Navigation::AndOr(nav) => nav,
        }
    }
}

/// After `clear`, a query runs under no assumptions on a solver for the
/// program itself, as on a navigator just made: the facets are those of the
/// empty route of the initial program.
pub proof fn lemma_cleared_route_is_initial(v: RouteView, reg: Map<Seq<char>, i32>, prog: Seq<char>)
    requires
        v == empty_route(),
    ensures
        resolve_all(reg, Seq::empty()) + v.conj_lits == Seq::<i32>::empty(),
        program_text(prog, v.conj_reprs, v.disjuncts) == prog,
{
    assert(resolve_all(reg, Seq::empty()) + v.conj_lits =~= Seq::<i32>::empty());
}

/// The solver is rebuilt when the disjunctive facets go from none to some,
/// or from some to none: the program text differs.
pub proof fn lemma_disjunct_transition_rebuilds(
    prog: Seq<char>,
    cs1: Seq<Seq<char>>,
    ds1: Seq<Seq<char>>,
    cs2: Seq<Seq<char>>,
    ds2: Seq<Seq<char>>,
)
    requires
        (ds1.len() == 0) != (ds2.len() == 0),
    ensures
        program_text(prog, cs1, ds1) != program_text(prog, cs2, ds2),
{
    if ds1.len() == 0 {
        assert(program_text(prog, cs2, ds2).len() > prog.len());
    } else {
        assert(program_text(prog, cs1, ds1).len() > prog.len());
    }
}

proof fn lemma_join_longer(sep: Seq<char>, a: Seq<Seq<char>>, b: Seq<Seq<char>>)
    requires
        a.len() == b.len(),
        a.len() > 0,
        forall|i: int| 0 <= i < a.len() ==> (#[trigger] a[i]).len() < b[i].len(),
    ensures
        join(sep, a).len() < join(sep, b).len(),
    decreases a.len(),
{
    if a.len() > 1 {
        assert forall|i: int| 0 <= i < a.drop_last().len() implies (#[trigger] a.drop_last()[i]).len()
            < b.drop_last()[i].len() by {
            assert(a.drop_last()[i] == a[i]);
            assert(b.drop_last()[i] == b[i]);
        }
        lemma_join_longer(sep, a.drop_last(), b.drop_last());
        assert(a.last() == a[a.len() - 1]);
        assert(b.last() == b[b.len() - 1]);
    }
}

/// While conjunctive facets are active, appending a disjunctive facet to
/// those already active changes the program text, so the solver is rebuilt.
pub proof fn lemma_appended_disjunct_rebuilds(
    prog: Seq<char>,
    cs: Seq<Seq<char>>,
    ds: Seq<Seq<char>>,
    d: Seq<char>,
)
    requires
        cs.len() > 0,
        ds.len() > 0,
    ensures
        program_text(prog, cs, ds) != program_text(prog, cs, ds.push(d)),
{
    let f = |x: Seq<char>| disj_negation(x);
    let m1 = ds.map_values(f);
    let m2 = ds.push(d).map_values(f);
    assert(m2.drop_last() =~= m1);
    assert(disjunction(ds.push(d)) == join(comma(), m1) + comma() + m2.last());
    assert(disjunction(ds.push(d)).len() > disjunction(ds).len());
    let p1 = cs.map_values(|c: Seq<char>| constraint(c, ds));
    let p2 = cs.map_values(|c: Seq<char>| constraint(c, ds.push(d)));
    assert forall|i: int| 0 <= i < p1.len() implies (#[trigger] p1[i]).len() < p2[i].len() by {
        assert(p1[i] == constraint(cs[i], ds));
        assert(p2[i] == constraint(cs[i], ds.push(d)));
    }
    lemma_join_longer(newline(), p1, p2);
    assert(program_text(prog, cs, ds).len() < program_text(prog, cs, ds.push(d)).len());
}

/// Whatever deltas, clears and reloads a navigator went through, its
/// conjunctive literals are those its conjunctive reprs resolve to, negation
/// kept: every operation keeps the navigator well formed.
pub proof fn lemma_conjuncts_resolve(nav: Navigation)
    requires
        nav.wf(),
    ensures
        route_wf(nav.navigator()@, nav.navigator().registry()),
{
}

} // verus!
