//! The symbol registry: which solver literal stands for each ground atom.
use vstd::prelude::*;

verus! {

/// Negation of a solver literal.
pub fn negate(lit: i32) -> (r: i32)
    requires
        lit != i32::MIN,
    ensures
        r == -lit,
        r != i32::MIN,
{
    -lit
}

/// A facet repr `~a` denotes the negation of atom `a`.
pub open spec fn is_negated(repr: Seq<char>) -> bool {
    repr.len() > 0 && repr[0] == '~'
}

/// The atom that a facet repr speaks of.
pub open spec fn symbol_part(repr: Seq<char>) -> Seq<char> {
    if is_negated(repr) {
        repr.subrange(1, repr.len() as int)
    } else {
        repr
    }
}

/// The literal that a facet repr stands for under `reg`: the atom's literal,
/// negated for a `~` repr.
pub open spec fn resolve(reg: Map<Seq<char>, i32>, repr: Seq<char>) -> Option<i32> {
    let sym = symbol_part(repr);
    if reg.dom().contains(sym) {
        Some(
            if is_negated(repr) {
                (-reg[sym]) as i32
            } else {
                reg[sym]
            },
        )
    } else {
        None
    }
}

/// Splits a facet repr into its sign and the text of its atom.
pub fn split_sign(repr: &String) -> (r: (bool, String))
    ensures
        r.0 == is_negated(repr@),
        r.1@ == symbol_part(repr@),
{
    let s = repr.as_str();
    let n = s.unicode_len();
    if n > 0 && s.get_char(0) == '~' {
        (true, String::from_str(s.substring_char(1, n)))
    } else {
        (false, repr.clone())
    }
}

/// The map that a list of entries denotes: a later entry for a symbol
/// replaces an earlier one.
pub open spec fn entries_map(s: Seq<(Seq<char>, i32)>) -> Map<Seq<char>, i32>
    decreases s.len(),
{
    if s.len() == 0 {
        Map::empty()
    } else {
        entries_map(s.drop_last()).insert(s.last().0, s.last().1)
    }
}

proof fn lemma_entries_map_absent(s: Seq<(Seq<char>, i32)>, k: Seq<char>)
    requires
        forall|j: int| 0 <= j < s.len() ==> s[j].0 != k,
    ensures
        !entries_map(s).dom().contains(k),
    decreases s.len(),
{
    if s.len() > 0 {
        lemma_entries_map_absent(s.drop_last(), k);
    }
}

proof fn lemma_entries_map_found(s: Seq<(Seq<char>, i32)>, k: Seq<char>, i: int)
    requires
        0 <= i < s.len(),
        s[i].0 == k,
        forall|j: int| i < j < s.len() ==> s[j].0 != k,
    ensures
        entries_map(s).dom().contains(k),
        entries_map(s)[k] == s[i].1,
    decreases s.len(),
{
    if i < s.len() - 1 {
        lemma_entries_map_found(s.drop_last(), k, i);
    }
}

proof fn lemma_entries_map_dom(s: Seq<(Seq<char>, i32)>, k: Seq<char>)
    ensures
        entries_map(s).dom().contains(k) <==> exists|i: int| 0 <= i < s.len() && s[i].0 == k,
    decreases s.len(),
{
    if s.len() > 0 {
        lemma_entries_map_dom(s.drop_last(), k);
        if exists|i: int| 0 <= i < s.len() && s[i].0 == k {
            let i = choose|i: int| 0 <= i < s.len() && s[i].0 == k;
            if i < s.len() - 1 {
                assert(s.drop_last()[i].0 == k);
            }
        }
        if exists|i: int| 0 <= i < s.drop_last().len() && s.drop_last()[i].0 == k {
            let i = choose|i: int| 0 <= i < s.drop_last().len() && s.drop_last()[i].0 == k;
            assert(s[i].0 == k);
        }
    }
}

/// Association of ground atoms (by their text) with solver literals.
pub struct Registry {
    entries: Vec<(String, i32)>,
}

impl View for Registry {
    type V = Map<Seq<char>, i32>;

    closed spec fn view(&self) -> Map<Seq<char>, i32> {
        entries_map(self.entries@.map_values(|e: (String, i32)| (e.0@, e.1)))
    }
}

impl Registry {
    /// Every literal of the registry can be negated.
    pub open spec fn wf(&self) -> bool {
        forall|k: Seq<char>| #[trigger] self@.dom().contains(k) ==> self@[k] != i32::MIN
    }

    pub fn new() -> (r: Registry)
        ensures
            r@ == Map::<Seq<char>, i32>::empty(),
            r.wf(),
    {
        let r = Registry { entries: Vec::new() };
        assert(r.entries@.map_values(|e: (String, i32)| (e.0@, e.1)).len() == 0);
        r
    }

    /// Records `lit` for `symbol`. A literal that has no negation is refused
    /// and the registry is left as it was.
    pub fn insert(&mut self, symbol: String, lit: i32) -> (accepted: bool)
        requires
            old(self).wf(),
        ensures
            accepted == (lit != i32::MIN),
            accepted ==> final(self)@ == old(self)@.insert(symbol@, lit),
            !accepted ==> final(self)@ == old(self)@,
            final(self).wf(),
    {
        if lit == i32::MIN {
            return false;
        }
        let ghost k = symbol@;
        self.entries.push((symbol, lit));
        proof {
            let f = |e: (String, i32)| (e.0@, e.1);
            let s = self.entries@.map_values(f);
            let o = old(self).entries@.map_values(f);
            assert(s.drop_last() =~= o);
            assert(s.last() == (k, lit));
        }
        true
    }

    /// The literal recorded for `symbol`, if any.
    pub fn get(&self, symbol: &String) -> (r: Option<i32>)
        ensures
            r == (if self@.dom().contains(symbol@) {
                Some(self@[symbol@])
            } else {
                None
            }),
    {
        let ghost s = self.entries@.map_values(|e: (String, i32)| (e.0@, e.1));
        let mut i: usize = self.entries.len();
        while i > 0
            invariant
                i <= self.entries.len(),
                s == self.entries@.map_values(|e: (String, i32)| (e.0@, e.1)),
                forall|j: int| i <= j < s.len() ==> s[j].0 != symbol@,
            decreases i,
        {
            i = i - 1;
            let e = &self.entries[i];
            assert(s[i as int] == (e.0@, e.1));
            if e.0.eq(symbol) {
                proof {
                    lemma_entries_map_found(s, symbol@, i as int);
                }
                return Some(e.1);
            }
        }
        proof {
            lemma_entries_map_absent(s, symbol@);
        }
        None
    }

    /// The atoms of the registry.
    pub fn atoms(&self) -> (r: Vec<String>)
        ensures
            forall|a: Seq<char>| r@.map_values(|x: String| x@).contains(a) <==> self@.dom().contains(a),
    {
        let ghost s = self.entries@.map_values(|e: (String, i32)| (e.0@, e.1));
        let mut r: Vec<String> = Vec::new();
        let mut i: usize = 0;
        while i < self.entries.len()
            invariant
                i <= self.entries.len(),
                s == self.entries@.map_values(|e: (String, i32)| (e.0@, e.1)),
                r.len() == i,
                forall|j: int| 0 <= j < i ==> (#[trigger] r@[j])@ == s[j].0,
            decreases self.entries.len() - i,
        {
            r.push(self.entries[i].0.clone());
            i = i + 1;
        }
        proof {
            let rv = r@.map_values(|x: String| x@);
            assert forall|a: Seq<char>| rv.contains(a) <==> self@.dom().contains(a) by {
                lemma_entries_map_dom(s, a);
                if rv.contains(a) {
                    let j = choose|j: int| 0 <= j < rv.len() && rv[j] == a;
                    assert(r@[j]@ == s[j].0);
                }
                if exists|j: int| 0 <= j < s.len() && s[j].0 == a {
                    let j = choose|j: int| 0 <= j < s.len() && s[j].0 == a;
                    assert(rv[j] == a);
                }
            }
        }
        r
    }

    /// The literal that the facet repr `repr` stands for.
    pub fn resolve(&self, repr: &String) -> (r: Option<i32>)
        requires
            self.wf(),
        ensures
            r == resolve(self@, repr@),
    {
        let (neg, sym) = split_sign(repr);
        match self.get(&sym) {
            Some(l) => {
                if neg {
                    Some(negate(l))
                } else {
                    Some(l)
                }
            },
            None => None,
        }
    }
}

} // verus!
