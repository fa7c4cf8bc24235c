//! Text primitives with their meaning over sequences of characters: split
//! by a pattern, search, replace, trim, lines.
use vstd::prelude::*;
use crate::route::{join, strings_view};

verus! {

/// Unicode `White_Space`, the characters that `char::is_whitespace` accepts.
pub open spec fn is_space(c: char) -> bool {
    let u = c as u32;
    (0x9 <= u && u <= 0xD) || u == 0x20 || u == 0x85 || u == 0xA0 || u == 0x1680 || (0x2000 <= u
        && u <= 0x200A) || u == 0x2028 || u == 0x2029 || u == 0x202F || u == 0x205F || u == 0x3000
}

fn space(c: char) -> (r: bool)
    ensures
        r == is_space(c),
{
    let u = c as u32;
    (0x9 <= u && u <= 0xD) || u == 0x20 || u == 0x85 || u == 0xA0 || u == 0x1680 || (0x2000 <= u
        && u <= 0x200A) || u == 0x2028 || u == 0x2029 || u == 0x202F || u == 0x205F || u == 0x3000
}

/// `p` occurs in `s` at `i`.
pub open spec fn matches_at(s: Seq<char>, p: Seq<char>, i: int) -> bool {
    0 <= i && i + p.len() <= s.len() && s.subrange(i, i + p.len()) == p
}

/// The pieces of `s` from `start` on, scanning at `i`: each occurrence of
/// `p` found left to right ends a piece.
pub open spec fn split_scan(s: Seq<char>, p: Seq<char>, start: int, i: int) -> Seq<Seq<char>>
    decreases s.len() - i,
{
    if p.len() == 0 || i < start || start < 0 || i + p.len() > s.len() {
        seq![s.subrange(start, s.len() as int)]
    } else if matches_at(s, p, i) {
        seq![s.subrange(start, i)] + split_scan(s, p, i + p.len(), i + p.len())
    } else {
        split_scan(s, p, start, i + 1)
    }
}

/// The pieces of `s` between the occurrences of `p` (`str::split`).
pub open spec fn split(s: Seq<char>, p: Seq<char>) -> Seq<Seq<char>> {
    split_scan(s, p, 0, 0)
}

pub open spec fn occurs_from(s: Seq<char>, p: Seq<char>, i: int) -> bool
    decreases s.len() - i,
{
    if i < 0 || i + p.len() > s.len() {
        false
    } else if p.len() == 0 || matches_at(s, p, i) {
        true
    } else {
        occurs_from(s, p, i + 1)
    }
}

/// `p` occurs in `s` (`str::contains`).
pub open spec fn contains(s: Seq<char>, p: Seq<char>) -> bool {
    occurs_from(s, p, 0)
}

/// Every occurrence of `p` replaced by `r` (`str::replace`).
pub open spec fn replace(s: Seq<char>, p: Seq<char>, r: Seq<char>) -> Seq<char> {
    join(r, split(s, p))
}

pub open spec fn trim_start(s: Seq<char>) -> Seq<char>
    decreases s.len(),
{
    if s.len() > 0 && is_space(s[0]) {
        trim_start(s.drop_first())
    } else {
        s
    }
}

pub open spec fn trim_end(s: Seq<char>) -> Seq<char>
    decreases s.len(),
{
    if s.len() > 0 && is_space(s.last()) {
        trim_end(s.drop_last())
    } else {
        s
    }
}

/// `s` without leading and trailing white space (`str::trim`).
pub open spec fn trim(s: Seq<char>) -> Seq<char> {
    trim_end(trim_start(s))
}

pub open spec fn strip_cr(x: Seq<char>) -> Seq<char> {
    if x.len() > 0 && x.last() == '\r' {
        x.drop_last()
    } else {
        x
    }
}

/// The lines of `s` (`str::lines`): pieces between newlines, a line ended
/// by `\r\n` without its `\r`, and no empty last line after a final newline.
pub open spec fn lines(s: Seq<char>) -> Seq<Seq<char>> {
    let p = split(s, seq!['\n']);
    let ended = p.drop_last().map_values(|x: Seq<char>| strip_cr(x));
    if p.last().len() == 0 {
        ended
    } else {
        ended.push(p.last())
    }
}

fn matches_here(s: &str, n: usize, p: &str, m: usize, i: usize) -> (r: bool)
    requires
        n == s@.len(),
        m == p@.len(),
        i <= n,
        m <= n - i,
    ensures
        r == matches_at(s@, p@, i as int),
{
    let mut k: usize = 0;
    while k < m
        invariant
            k <= m,
            n == s@.len(),
            m == p@.len(),
            i + m <= n,
            forall|j: int| 0 <= j < k ==> s@[i + j] == p@[j],
        decreases m - k,
    {
        if s.get_char(i + k) != p.get_char(k) {
            assert(s@.subrange(i as int, i + m)[k as int] != p@[k as int]);
            return false;
        }
        k = k + 1;
    }
    assert(s@.subrange(i as int, i + m) =~= p@);
    true
}

proof fn lemma_split_scan_done(s: Seq<char>, p: Seq<char>, start: int, i: int)
    requires
        p.len() > 0,
        0 <= start <= i,
        i + p.len() > s.len(),
    ensures
        split_scan(s, p, start, i) == seq![s.subrange(start, s.len() as int)],
{
}

/// The pieces of `s` between the occurrences of `p`.
pub fn split_text(s: &str, p: &str) -> (r: Vec<String>)
    requires
        p@.len() > 0,
    ensures
        strings_view(r@) == split(s@, p@),
        r.len() > 0,
{
    let n = s.unicode_len();
    let m = p.unicode_len();
    let mut pieces: Vec<String> = Vec::new();
    let mut start: usize = 0;
    let mut i: usize = 0;
    assert(strings_view(pieces@) =~= Seq::<Seq<char>>::empty());
    while m <= n - i
        invariant
            n == s@.len(),
            m == p@.len(),
            m > 0,
            start <= i <= n,
            split(s@, p@) == strings_view(pieces@) + split_scan(s@, p@, start as int, i as int),
        decreases n - i,
    {
        if matches_here(s, n, p, m, i) {
            let piece = String::from_str(s.substring_char(start, i));
            let ghost before = strings_view(pieces@);
            pieces.push(piece);
            assert(strings_view(pieces@) =~= before.push(s@.subrange(start as int, i as int)));
            assert(split_scan(s@, p@, start as int, i as int) == seq![s@.subrange(start as int, i as int)]
                + split_scan(s@, p@, i + m, i + m));
            assert(before + split_scan(s@, p@, start as int, i as int) =~= strings_view(pieces@)
                + split_scan(s@, p@, i + m, i + m));
            i = i + m;
            start = i;
        } else {
            i = i + 1;
        }
    }
    proof {
        lemma_split_scan_done(s@, p@, start as int, i as int);
    }
    let last = String::from_str(s.substring_char(start, n));
    let ghost before = strings_view(pieces@);
    pieces.push(last);
    assert(strings_view(pieces@) =~= before + seq![s@.subrange(start as int, n as int)]);
    pieces
}

/// Whether `p` occurs in `s`.
pub fn contains_text(s: &str, p: &str) -> (r: bool)
    ensures
        r == contains(s@, p@),
{
    let n = s.unicode_len();
    let m = p.unicode_len();
    if m == 0 {
        return true;
    }
    let mut i: usize = 0;
    while m <= n - i
        invariant
            n == s@.len(),
            m == p@.len(),
            m > 0,
            i <= n,
            contains(s@, p@) == occurs_from(s@, p@, i as int),
        decreases n - i,
    {
        if matches_here(s, n, p, m, i) {
            return true;
        }
        i = i + 1;
    }
    false
}

/// `parts` with `sep` between each two.
pub fn join_text(sep: &str, parts: &Vec<String>) -> (t: String)
    ensures
        t@ == join(sep@, strings_view(parts@)),
{
    let ghost ps = strings_view(parts@);
    let mut t = String::new();
    let mut i: usize = 0;
    assert(ps.take(0) =~= Seq::<Seq<char>>::empty());
    while i < parts.len()
        invariant
            i <= parts.len(),
            ps == strings_view(parts@),
            t@ == join(sep@, ps.take(i as int)),
        decreases parts.len() - i,
    {
        assert(ps.take(i + 1).drop_last() =~= ps.take(i as int));
        if i > 0 {
            t.append(sep);
        } else {
            assert(t@ =~= Seq::<char>::empty());
        }
        t.append(parts[i].as_str());
        proof {
            if i == 0 {
                assert(t@ =~= parts@[0]@);
            }
        }
        i = i + 1;
    }
    assert(ps.take(parts.len() as int) =~= ps);
    t
}

/// Every occurrence of `p` in `s` replaced by `r`.
pub fn replace_text(s: &str, p: &str, r: &str) -> (t: String)
    requires
        p@.len() > 0,
    ensures
        t@ == replace(s@, p@, r@),
{
    let pieces = split_text(s, p);
    join_text(r, &pieces)
}

proof fn lemma_trim_start_at(s: Seq<char>, a: int)
    requires
        0 <= a <= s.len(),
        forall|j: int| 0 <= j < a ==> is_space(#[trigger] s[j]),
        a == s.len() || !is_space(s[a]),
    ensures
        trim_start(s) == s.subrange(a, s.len() as int),
    decreases a,
{
    if a > 0 {
        assert forall|j: int| 0 <= j < a - 1 implies is_space(#[trigger] s.drop_first()[j]) by {
            assert(s.drop_first()[j] == s[j + 1]);
        }
        if a < s.len() {
            assert(s.drop_first()[a - 1] == s[a]);
        }
        lemma_trim_start_at(s.drop_first(), a - 1);
        assert(s.drop_first().subrange(a - 1, s.len() - 1) =~= s.subrange(a, s.len() as int));
    } else {
        assert(s.subrange(0, s.len() as int) =~= s);
    }
}

proof fn lemma_trim_end_at(s: Seq<char>, b: int)
    requires
        0 <= b <= s.len(),
        forall|j: int| b <= j < s.len() ==> is_space(#[trigger] s[j]),
        b == 0 || !is_space(s[b - 1]),
    ensures
        trim_end(s) == s.subrange(0, b),
    decreases s.len() - b,
{
    if b < s.len() {
        assert forall|j: int| b <= j < s.len() - 1 implies is_space(#[trigger] s.drop_last()[j]) by {
            assert(s.drop_last()[j] == s[j]);
        }
        if b > 0 {
            assert(s.drop_last()[b - 1] == s[b - 1]);
        }
        lemma_trim_end_at(s.drop_last(), b);
        assert(s.drop_last().subrange(0, b) =~= s.subrange(0, b));
    } else {
        assert(s.subrange(0, b) =~= s);
    }
}

/// `s` without leading and trailing white space.
pub fn trim_text(s: &str) -> (r: String)
    ensures
        r@ == trim(s@),
{
    let n = s.unicode_len();
    let mut a: usize = 0;
    while a < n && space(s.get_char(a))
        invariant
            n == s@.len(),
            a <= n,
            forall|j: int| 0 <= j < a ==> is_space(#[trigger] s@[j]),
        decreases n - a,
    {
        a = a + 1;
    }
    proof {
        lemma_trim_start_at(s@, a as int);
    }
    let ghost t = s@.subrange(a as int, n as int);
    let mut b: usize = n;
    while b > a && space(s.get_char(b - 1))
        invariant
            n == s@.len(),
            a <= b <= n,
            t == s@.subrange(a as int, n as int),
            forall|j: int| b <= j < n ==> is_space(#[trigger] s@[j]),
        decreases b,
    {
        b = b - 1;
    }
    proof {
        assert forall|j: int| b - a <= j < t.len() implies is_space(#[trigger] t[j]) by {
            assert(t[j] == s@[a + j]);
        }
        if b > a {
            assert(t[b - a - 1] == s@[b - 1]);
        }
        lemma_trim_end_at(t, b - a);
        assert(t.subrange(0, b - a) =~= s@.subrange(a as int, b as int));
    }
    String::from_str(s.substring_char(a, b))
}

/// The lines of `s`.
pub fn lines_text(s: &str) -> (r: Vec<String>)
    ensures
        strings_view(r@) == lines(s@),
{
    proof {
        reveal_strlit("\n");
    }
    let pieces = split_text(s, "\n");
    let ghost p = strings_view(pieces@);
    assert("\n"@ =~= seq!['\n']);
    let mut r: Vec<String> = Vec::new();
    let mut i: usize = 0;
    let k = pieces.len() - 1;
    assert(strings_view(r@) =~= Seq::<Seq<char>>::empty());
    while i < k
        invariant
            k == pieces.len() - 1,
            pieces.len() > 0,
            i <= k,
            p == strings_view(pieces@),
            strings_view(r@) == p.drop_last().take(i as int).map_values(|x: Seq<char>| strip_cr(x)),
        decreases k - i,
    {
        let x = &pieces[i];
        let n = x.as_str().unicode_len();
        let ghost before = strings_view(r@);
        if n > 0 && x.as_str().get_char(n - 1) == '\r' {
            r.push(String::from_str(x.as_str().substring_char(0, n - 1)));
            assert(x@.subrange(0, n - 1) =~= x@.drop_last());
        } else {
            r.push(x.clone());
        }
        assert(strings_view(r@) =~= before.push(strip_cr(p[i as int])));
        assert(p.drop_last().take(i + 1).map_values(|x: Seq<char>| strip_cr(x)) =~= p.drop_last().take(
            i as int,
        ).map_values(|x: Seq<char>| strip_cr(x)).push(strip_cr(p[i as int])));
        i = i + 1;
    }
    assert(p.drop_last().take(k as int) =~= p.drop_last());
    let last = &pieces[k];
    if last.as_str().unicode_len() > 0 {
        let ghost before = strings_view(r@);
        r.push(last.clone());
        assert(strings_view(r@) =~= before.push(p.last()));
    }
    r
}

} // verus!
