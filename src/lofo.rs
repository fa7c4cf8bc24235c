//! Kinds and truth states of the neurons of a logical neural network.
use vstd::prelude::*;
use crate::route::{join, strings_view};
use crate::text::{
    contains, contains_text, join_text, lines, lines_text, replace, replace_text, split, split_text, trim,
    trim_text,
};

verus! {

/// The connective a neuron computes.
#[derive(Clone, Copy, PartialEq, Eq, Debug, Structural)]
pub enum Activation {
    Proposition,
    Not,
    And,
    Or,
    Implies,
}

/// What the bounds of a neuron say of its truth.
#[derive(Clone, Copy, PartialEq, Eq, Debug, Structural)]
pub enum State {
    Unknown,
    True,
    False,
    Contradicting,
}

/// Logic symbols of a formula in ASCII: `~` for negation, `&`, `|` and `>>`
/// for the binary connectives written with spaces around them.
pub open spec fn trim_repr_of(s: Seq<char>) -> Seq<char> {
    replace(
        replace(replace(replace(s, "\u{AC}"@, "~"@), " \u{2227} "@, "&"@), " \u{2228} "@, "|"@),
        " \u{2192} "@,
        ">>"@,
    )
}

pub fn trim_repr(s: &str) -> (r: String)
    ensures
        r@ == trim_repr_of(s@),
{
    proof {
        reveal_strlit("\u{AC}");
        reveal_strlit(" \u{2227} ");
        reveal_strlit(" \u{2228} ");
        reveal_strlit(" \u{2192} ");
    }
    let a = replace_text(s, "\u{AC}", "~");
    let b = replace_text(a.as_str(), " \u{2227} ", "&");
    let c = replace_text(b.as_str(), " \u{2228} ", "|");
    replace_text(c.as_str(), " \u{2192} ", ">>")
}

pub open spec fn second_of(s: Seq<Seq<char>>) -> Option<Seq<char>> {
    if s.len() > 1 {
        Some(s[1])
    } else {
        None
    }
}

pub open spec fn third_of(s: Seq<Seq<char>>) -> Option<Seq<char>> {
    if s.len() > 2 {
        Some(s[2])
    } else {
        None
    }
}

/// `s` without its first `k` characters, where it has as many.
pub open spec fn drop_chars(s: Seq<char>, k: nat) -> Option<Seq<char>> {
    if s.len() >= k {
        Some(s.subrange(k as int, s.len() as int))
    } else {
        None
    }
}

/// The truth value a line of the report states: the first of the
/// approximate values that it holds, else the first of the exact ones.
pub open spec fn delimiter(l: Seq<char>) -> Option<Seq<char>> {
    if contains(l, "APPROX_UNKNOWN"@) {
        Some("APPROX_UNKNOWN"@)
    } else if contains(l, "APPROX_TRUE"@) {
        Some("APPROX_TRUE"@)
    } else if contains(l, "APPROX_FALSE"@) {
        Some("APPROX_FALSE"@)
    } else if contains(l, "TRUE"@) {
        Some("TRUE"@)
    } else if contains(l, "FALSE"@) {
        Some("FALSE"@)
    } else if contains(l, "UNKNOWN"@) {
        Some("UNKNOWN"@)
    } else {
        None
    }
}

pub open spec fn simple_yaml(repr: Seq<char>, alpha: Seq<char>, lo: Seq<char>, up: Seq<char>, f: Seq<char>) -> Seq<char> {
    "repr: "@ + repr + "\nalpha: "@ + alpha + "\nbias: 0.0\nstate:\n- "@ + lo + "\n- "@ + up
        + "\nweights:\n- 0.0\nf: "@ + f
}

pub open spec fn full_text(
    repr: Seq<char>,
    alpha: Seq<char>,
    bias: Seq<char>,
    lo: Seq<char>,
    up: Seq<char>,
    ws: Seq<char>,
    f: Seq<char>,
) -> Seq<char> {
    "repr: "@ + repr + "\nalpha: "@ + alpha + "\nbias: "@ + bias + "\nstate:\n- "@ + lo + "\n- "@ + up
        + "\nweights:\n- "@ + ws + "\nf: "@ + f
}

pub open spec fn not_dash(x: Seq<char>) -> bool {
    x != "- "@
}

/// The YAML lines of a neuron whose weights are `ws` (space separated):
/// one list item per weight, without empty items.
pub open spec fn full_yaml(
    repr: Seq<char>,
    alpha: Seq<char>,
    bias: Seq<char>,
    lo: Seq<char>,
    up: Seq<char>,
    ws: Seq<char>,
    f: Seq<char>,
) -> Seq<char> {
    join(
        "\n"@,
        lines(full_text(repr, alpha, bias, lo, up, join("\n- "@, split(ws, " "@)), f)).filter(
            |x: Seq<char>| not_dash(x),
        ),
    )
}

/// The value after the first `:` of a parameter such as ` alpha: 0.9`.
pub open spec fn param_value(p: Seq<char>) -> Option<Seq<char>> {
    second_of(split(trim(p), ":"@))
}

/// The YAML of the neuron that a report line `l` and its parameter line
/// `params` describe.
pub open spec fn entry(l: Seq<char>, params: Seq<char>) -> Option<Seq<char>> {
    let ts = split(l, ":"@);
    match second_of(split(ts[0], " "@)) {
        None => None,
        Some(f) => match delimiter(l) {
            None => None,
            Some(d) => match second_of(ts) {
                None => None,
                Some(t1) => match drop_chars(t1, 1) {
                    None => None,
                    Some(rs) => {
                        let rest = split(rs, d);
                        let repr = trim_repr_of(trim(rest[0]));
                        match second_of(rest) {
                            None => None,
                            Some(st_raw) => match drop_chars(
                                replace(replace(st_raw, "("@, ""@), ")"@, ""@),
                                1,
                            ) {
                                None => None,
                                Some(st) => {
                                    let sts = split(st, ", "@);
                                    match second_of(sts) {
                                        None => None,
                                        Some(up) => match drop_chars(params, 8) {
                                            None => None,
                                            Some(pr) => {
                                                let ps = split(pr, ", "@);
                                                entry_params(f, repr, sts[0], up, ps)
                                            },
                                        },
                                    }
                                },
                            },
                        }
                    },
                },
            },
        },
    }
}

pub open spec fn entry_params(
    f: Seq<char>,
    repr: Seq<char>,
    lo: Seq<char>,
    up: Seq<char>,
    ps: Seq<Seq<char>>,
) -> Option<Seq<char>> {
    match param_value(ps[0]) {
        None => None,
        Some(alpha) => if f == "Proposition"@ || f == "Not"@ {
            Some(simple_yaml(repr, alpha, lo, up, f))
        } else {
            match second_of(ps) {
                None => None,
                Some(p1) => match param_value(p1) {
                    None => None,
                    Some(bias) => match third_of(ps) {
                        None => None,
                        Some(p2) => match param_value(p2) {
                            None => None,
                            Some(wraw) => match drop_chars(
                                replace(replace(wraw, "["@, ""@), "]"@, ""@),
                                1,
                            ) {
                                None => None,
                                Some(ws) => Some(full_yaml(repr, alpha, bias, lo, up, ws, f)),
                            },
                        },
                    },
                },
            }
        },
    }
}

/// The YAML of each neuron, a report line and its parameter line at a
/// time; nothing where a line is malformed or lacks its parameter line.
pub open spec fn entries(ls: Seq<Seq<char>>) -> Option<Seq<Seq<char>>>
    decreases ls.len(),
{
    if ls.len() == 0 {
        Some(Seq::empty())
    } else if ls.len() == 1 {
        None
    } else {
        match entry(ls[0], ls[1]) {
            None => None,
            Some(y) => match entries(ls.subrange(2, ls.len() as int)) {
                None => None,
                Some(r) => Some(seq![y] + r),
            },
        }
    }
}

/// The lines before the first one that starts with `*`.
pub open spec fn until_star(ls: Seq<Seq<char>>) -> Seq<Seq<char>>
    decreases ls.len(),
{
    if ls.len() == 0 {
        ls
    } else if ls[0].len() > 0 && ls[0][0] == '*' {
        Seq::empty()
    } else {
        seq![ls[0]] + until_star(ls.drop_first())
    }
}

pub open spec fn body_lines(info: Seq<char>) -> Seq<Seq<char>> {
    let ls = split(info, "\n"@);
    until_star(
        if ls.len() > 3 {
            ls.subrange(3, ls.len() as int)
        } else {
            Seq::empty()
        },
    )
}

/// The neurons of a network report as YAML documents separated by `*`
/// lines: the report's first three lines are skipped and it ends at a line
/// that starts with `*`.
pub open spec fn translated(info: Seq<char>) -> Option<Seq<char>> {
    match entries(body_lines(info)) {
        None => None,
        Some(es) => Some(join("\n*\n"@, es)),
    }
}

fn nth_string(v: &Vec<String>, k: usize) -> (r: Option<String>)
    ensures
        r is Some <==> k < v.len(),
        r is Some ==> r->0@ == v@[k as int]@,
{
    if k < v.len() {
        Some(v[k].clone())
    } else {
        None
    }
}

fn drop_text(s: &str, k: usize) -> (r: Option<String>)
    ensures
        match r {
            Some(t) => drop_chars(s@, k as nat) == Some(t@),
            None => drop_chars(s@, k as nat) is None,
        },
{
    let n = s.unicode_len();
    if n >= k {
        Some(String::from_str(s.substring_char(k, n)))
    } else {
        None
    }
}

fn text_eq(s: &String, t: &str) -> (r: bool)
    ensures
        r == (s@ == t@),
{
    let u = String::from_str(t);
    s.eq(&u)
}

fn delimiter_of(l: &str) -> (r: Option<&'static str>)
    ensures
        match r {
            Some(d) => delimiter(l@) == Some(d@) && d@.len() > 0,
            None => delimiter(l@) is None,
        },
{
    proof {
        reveal_strlit("APPROX_UNKNOWN");
        reveal_strlit("APPROX_TRUE");
        reveal_strlit("APPROX_FALSE");
        reveal_strlit("TRUE");
        reveal_strlit("FALSE");
        reveal_strlit("UNKNOWN");
    }
    if contains_text(l, "APPROX_UNKNOWN") {
        Some("APPROX_UNKNOWN")
    } else if contains_text(l, "APPROX_TRUE") {
        Some("APPROX_TRUE")
    } else if contains_text(l, "APPROX_FALSE") {
        Some("APPROX_FALSE")
    } else if contains_text(l, "TRUE") {
        Some("TRUE")
    } else if contains_text(l, "FALSE") {
        Some("FALSE")
    } else if contains_text(l, "UNKNOWN") {
        Some("UNKNOWN")
    } else {
        None
    }
}

fn param_value_of(p: &str) -> (r: Option<String>)
    ensures
        match r {
            Some(t) => param_value(p@) == Some(t@),
            None => param_value(p@) is None,
        },
{
    proof {
        reveal_strlit(":");
    }
    let t = trim_text(p);
    let parts = split_text(t.as_str(), ":");
    nth_string(&parts, 1)
}

fn without_dashes(ls: &Vec<String>) -> (r: Vec<String>)
    ensures
        strings_view(r@) == strings_view(ls@).filter(|x: Seq<char>| not_dash(x)),
{
    let ghost b = strings_view(ls@);
    let mut r: Vec<String> = Vec::new();
    let mut i: usize = 0;
    assert(b.take(0) =~= Seq::<Seq<char>>::empty());
    assert(strings_view(r@) =~= Seq::<Seq<char>>::empty());
    while i < ls.len()
        invariant
            i <= ls.len(),
            b == strings_view(ls@),
            strings_view(r@) == b.take(i as int).filter(|x: Seq<char>| not_dash(x)),
        decreases ls.len() - i,
    {
        assert(b.take(i + 1).drop_last() =~= b.take(i as int));
        assert(b.take(i + 1).last() == b[i as int]);
        proof {
            reveal(Seq::filter);
        }
        let ghost r0 = r@;
        if !text_eq(&ls[i], "- ") {
            r.push(ls[i].clone());
            assert(strings_view(r@) =~= strings_view(r0).push(b[i as int]));
        }
        i = i + 1;
    }
    assert(b.take(ls.len() as int) =~= b);
    r
}

fn entry_params_of(f: &String, repr: &String, lo: &String, up: &String, ps: &Vec<String>) -> (r: Option<String>)
    requires
        ps.len() > 0,
    ensures
        match r {
            Some(t) => entry_params(f@, repr@, lo@, up@, strings_view(ps@)) == Some(t@),
            None => entry_params(f@, repr@, lo@, up@, strings_view(ps@)) is None,
        },
{
    let alpha = match param_value_of(ps[0].as_str()) {
        Some(a) => a,
        None => return None,
    };
    if text_eq(f, "Proposition") || text_eq(f, "Not") {
        let mut y = String::from_str("repr: ");
        y.append(repr.as_str());
        y.append("\nalpha: ");
        y.append(alpha.as_str());
        y.append("\nbias: 0.0\nstate:\n- ");
        y.append(lo.as_str());
        y.append("\n- ");
        y.append(up.as_str());
        y.append("\nweights:\n- 0.0\nf: ");
        y.append(f.as_str());
        return Some(y);
    }
    let p1 = match nth_string(ps, 1) {
        Some(p) => p,
        None => return None,
    };
    let bias = match param_value_of(p1.as_str()) {
        Some(b) => b,
        None => return None,
    };
    let p2 = match nth_string(ps, 2) {
        Some(p) => p,
        None => return None,
    };
    let wraw = match param_value_of(p2.as_str()) {
        Some(w) => w,
        None => return None,
    };
    proof {
        reveal_strlit("[");
        reveal_strlit("]");
        reveal_strlit(" ");
    }
    let w1 = replace_text(wraw.as_str(), "[", "");
    let w2 = replace_text(w1.as_str(), "]", "");
    let ws = match drop_text(w2.as_str(), 1) {
        Some(w) => w,
        None => return None,
    };
    let items = split_text(ws.as_str(), " ");
    let wj = join_text("\n- ", &items);
    let mut y = String::from_str("repr: ");
    y.append(repr.as_str());
    y.append("\nalpha: ");
    y.append(alpha.as_str());
    y.append("\nbias: ");
    y.append(bias.as_str());
    y.append("\nstate:\n- ");
    y.append(lo.as_str());
    y.append("\n- ");
    y.append(up.as_str());
    y.append("\nweights:\n- ");
    y.append(wj.as_str());
    y.append("\nf: ");
    y.append(f.as_str());
    let ls = lines_text(y.as_str());
    let kept = without_dashes(&ls);
    Some(join_text("\n", &kept))
}

fn entry_of(l: &String, params: &String) -> (r: Option<String>)
    ensures
        match r {
            Some(t) => entry(l@, params@) == Some(t@),
            None => entry(l@, params@) is None,
        },
{
    proof {
        reveal_strlit(":");
        reveal_strlit(" ");
        reveal_strlit("(");
        reveal_strlit(")");
        reveal_strlit(", ");
    }
    let ts = split_text(l.as_str(), ":");
    let words = split_text(ts[0].as_str(), " ");
    let f = match nth_string(&words, 1) {
        Some(f) => f,
        None => return None,
    };
    let d = match delimiter_of(l.as_str()) {
        Some(d) => d,
        None => return None,
    };
    let t1 = match nth_string(&ts, 1) {
        Some(t) => t,
        None => return None,
    };
    let rs = match drop_text(t1.as_str(), 1) {
        Some(r) => r,
        None => return None,
    };
    let rest = split_text(rs.as_str(), d);
    let repr = trim_repr(trim_text(rest[0].as_str()).as_str());
    let st_raw = match nth_string(&rest, 1) {
        Some(s) => s,
        None => return None,
    };
    let s1 = replace_text(st_raw.as_str(), "(", "");
    let s2 = replace_text(s1.as_str(), ")", "");
    let st = match drop_text(s2.as_str(), 1) {
        Some(s) => s,
        None => return None,
    };
    let sts = split_text(st.as_str(), ", ");
    let up = match nth_string(&sts, 1) {
        Some(u) => u,
        None => return None,
    };
    let pr = match drop_text(params.as_str(), 8) {
        Some(p) => p,
        None => return None,
    };
    let ps = split_text(pr.as_str(), ", ");
    entry_params_of(&f, &repr, &sts[0], &up, &ps)
}

/// Translates the report of a logical neural network into YAML documents,
/// one per neuron; `None` where the report is malformed.
pub fn translate_info(info: &str) -> (r: Option<String>)
    ensures
        match r {
            Some(t) => translated(info@) == Some(t@),
            None => translated(info@) is None,
        },
{
    proof {
        reveal_strlit("\n");
    }
    let all = split_text(info, "\n");
    let ghost ls = split(info@, "\n"@);
    let ghost skipped = if ls.len() > 3 {
        ls.subrange(3, ls.len() as int)
    } else {
        Seq::empty()
    };
    let mut body: Vec<String> = Vec::new();
    let mut i: usize = 3;
    assert(strings_view(body@) =~= Seq::<Seq<char>>::empty());
    let mut stopped = false;
    while i < all.len() && !stopped
        invariant
            3 <= i,
            ls == strings_view(all@),
            skipped == (if ls.len() > 3 { ls.subrange(3, ls.len() as int) } else { Seq::empty() }),
            !stopped ==> until_star(skipped) == strings_view(body@) + until_star(
                if i < ls.len() { ls.subrange(i as int, ls.len() as int) } else { Seq::empty() },
            ),
            stopped ==> until_star(skipped) == strings_view(body@),
        decreases all.len() - i, if stopped { 0int } else { 1int },
    {
        let ghost rest = ls.subrange(i as int, ls.len() as int);
        assert(rest[0] == all@[i as int]@);
        assert(rest.drop_first() =~= if i + 1 < ls.len() { ls.subrange(i + 1, ls.len() as int) } else { Seq::empty() });
        let line = all[i].as_str();
        let n = line.unicode_len();
        if n > 0 && line.get_char(0) == '*' {
            stopped = true;
            assert(strings_view(body@) + Seq::<Seq<char>>::empty() =~= strings_view(body@));
        } else {
            let ghost before = strings_view(body@);
            body.push(all[i].clone());
            assert(strings_view(body@) =~= before + seq![rest[0]]);
            assert(before + until_star(rest) =~= strings_view(body@) + until_star(rest.drop_first()));
            i = i + 1;
        }
    }
    proof {
        if !stopped {
            assert(strings_view(body@) + until_star(Seq::<Seq<char>>::empty()) =~= strings_view(body@));
        }
    }
    let ghost b = strings_view(body@);
    assert(b == body_lines(info@));
    let mut out: Vec<String> = Vec::new();
    let mut k: usize = 0;
    assert(b.subrange(0, b.len() as int) =~= b);
    assert(strings_view(out@) =~= Seq::<Seq<char>>::empty());
    while body.len() - k > 1
        invariant
            b == strings_view(body@),
            k <= body.len(),
            b == body_lines(info@),
            entries(b) is None <==> entries(b.subrange(k as int, b.len() as int)) is None,
            entries(b) is Some ==> entries(b)->0 == strings_view(out@) + entries(
                b.subrange(k as int, b.len() as int),
            )->0,
        decreases body.len() - k,
    {
        let ghost sub = b.subrange(k as int, b.len() as int);
        assert(sub.subrange(2, sub.len() as int) =~= b.subrange(k + 2, b.len() as int));
        assert(sub.len() > 1);
        assert(sub[0] == body@[k as int]@);
        assert(sub[1] == body@[k + 1]@);
        match entry_of(&body[k], &body[k + 1]) {
            Some(y) => {
                let ghost before = strings_view(out@);
                out.push(y);
                assert(strings_view(out@) =~= before.push(y@));
                proof {
                    if entries(sub) is Some {
                        let r = entries(b.subrange(k + 2, b.len() as int))->0;
                        assert(entries(sub)->0 == seq![y@] + r);
                        assert(before + (seq![y@] + r) =~= strings_view(out@) + r);
                    }
                }
                k = k + 2;
            },
            None => {
                assert(entries(sub) is None);
                assert(entries(b) is None);
                assert(translated(info@) is None);
                return None;
            },
        }
    }
    if k < body.len() {
        return None;
    }
    assert(b.subrange(k as int, b.len() as int) =~= Seq::<Seq<char>>::empty());
    assert(strings_view(out@) + Seq::<Seq<char>>::empty() =~= strings_view(out@));
    proof {
        reveal_strlit("\n*\n");
    }
    Some(join_text("\n*\n", &out))
}

} // verus!
