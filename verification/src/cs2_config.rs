//! CS2 `cs2_video.txt` handling: reading its quoted key/value settings and
//! rewriting chosen settings while keeping every other byte of the file.

use crate::text::{
    chars_of, clone_chars, is_ascii_whitespace, is_ascii_ws, is_whitespace, is_ws, push_chars,
    push_str, string_from_chars,
};
use vstd::prelude::*;

verus! {

broadcast use vstd::string::group_string_axioms;

/// Lexicographic order on character sequences (by code point), the order
/// `String`'s `Ord` uses.
pub open spec fn seq_lt(a: Seq<char>, b: Seq<char>) -> bool
    decreases a.len(),
{
    if a.len() == 0 {
        b.len() > 0
    } else if b.len() == 0 {
        false
    } else if a[0] < b[0] {
        true
    } else if a[0] == b[0] {
        seq_lt(a.drop_first(), b.drop_first())
    } else {
        false
    }
}

pub proof fn lemma_seq_lt_irreflexive(a: Seq<char>)
    ensures
        !seq_lt(a, a),
    decreases a.len(),
{
    if a.len() > 0 {
        lemma_seq_lt_irreflexive(a.drop_first());
    }
}

pub proof fn lemma_seq_lt_trichotomy(a: Seq<char>, b: Seq<char>)
    ensures
        seq_lt(a, b) || seq_lt(b, a) || a == b,
    decreases a.len(),
{
    if a.len() > 0 && b.len() > 0 {
        if a[0] == b[0] {
            lemma_seq_lt_trichotomy(a.drop_first(), b.drop_first());
            if a.drop_first() == b.drop_first() {
                assert(a =~= seq![a[0]] + a.drop_first());
                assert(b =~= seq![b[0]] + b.drop_first());
            }
        }
    } else if a.len() == 0 && b.len() == 0 {
        assert(a =~= b);
    }
}

/// Lexicographic comparison of two character vectors.
pub fn chars_less(a: &Vec<char>, b: &Vec<char>) -> (r: bool)
    ensures
        r == seq_lt(a@, b@),
{
    let mut i: usize = 0;
    assert(a@.skip(0) =~= a@);
    assert(b@.skip(0) =~= b@);
    while i < a.len() && i < b.len()
        invariant
            i <= a.len(),
            i <= b.len(),
            seq_lt(a@, b@) == seq_lt(a@.skip(i as int), b@.skip(i as int)),
        decreases a.len() - i,
    {
        let x = a[i];
        let y = b[i];
        assert(a@.skip(i as int)[0] == x);
        assert(b@.skip(i as int)[0] == y);
        if x < y {
            return true;
        }
        if x != y {
            return false;
        }
        assert(a@.skip(i as int).drop_first() =~= a@.skip(i + 1));
        assert(b@.skip(i as int).drop_first() =~= b@.skip(i + 1));
        i += 1;
    }
    i < b.len()
}

/// The value stored for `k`, by first occurrence.
pub open spec fn lookup(es: Seq<(Seq<char>, Seq<char>)>, k: Seq<char>) -> Option<Seq<char>>
    decreases es.len(),
{
    if es.len() == 0 {
        None
    } else if es[0].0 == k {
        Some(es[0].1)
    } else {
        lookup(es.drop_first(), k)
    }
}

/// Keys strictly ascending from each entry to the next.
pub open spec fn keys_ascending(es: Seq<(Seq<char>, Seq<char>)>) -> bool {
    forall|i: int| 0 <= i && i + 1 < es.len() ==> seq_lt(#[trigger] es[i].0, es[i + 1].0)
}

/// A set of `cs2_video.txt` settings, keyed and ordered by setting name
/// (the order a `BTreeMap<String, String>` keeps).
#[derive(Debug)]
pub struct VideoSettings {
    entries: Vec<(Vec<char>, Vec<char>)>,
}

pub open spec fn view_entries(v: Seq<(Vec<char>, Vec<char>)>) -> Seq<(Seq<char>, Seq<char>)> {
    v.map_values(|e: (Vec<char>, Vec<char>)| (e.0@, e.1@))
}

impl VideoSettings {
    /// The entries, ascending by key.
    pub closed spec fn entries_view(&self) -> Seq<(Seq<char>, Seq<char>)> {
        view_entries(self.entries@)
    }

    /// Well formed: the keys ascend, so no key occurs twice.
    pub open spec fn wf(&self) -> bool {
        keys_ascending(self.entries_view())
    }

    /// The value stored for `k`.
    pub open spec fn spec_get(&self, k: Seq<char>) -> Option<Seq<char>> {
        lookup(self.entries_view(), k)
    }

    /// An empty set of settings.
    pub fn new() -> (s: Self)
        ensures
            s.wf(),
            s.entries_view() == Seq::<(Seq<char>, Seq<char>)>::empty(),
    {
        let s = VideoSettings { entries: Vec::new() };
        assert(s.entries_view() =~= Seq::<(Seq<char>, Seq<char>)>::empty());
        s
    }

    /// The number of settings.
    pub fn len(&self) -> (n: usize)
        ensures
            n == self.entries_view().len(),
    {
        self.entries.len()
    }

    pub fn is_empty(&self) -> (b: bool)
        ensures
            b == (self.entries_view().len() == 0),
    {
        self.entries.len() == 0
    }

    /// Sets `key` to `value`, replacing any value it had.
    pub fn insert(&mut self, key: &str, value: &str)
        requires
            old(self).wf(),
        ensures
            final(self).wf(),
            forall|k: Seq<char>| #[trigger]
                final(self).spec_get(k) == if k == key@ {
                    Some(value@)
                } else {
                    old(self).spec_get(k)
                },
    {
        let k = chars_of(key);
        let v = chars_of(value);
        self.insert_chars(k, v);
    }

    fn insert_chars(&mut self, k: Vec<char>, v: Vec<char>)
        requires
            old(self).wf(),
        ensures
            final(self).wf(),
            forall|k2: Seq<char>| #[trigger]
                final(self).spec_get(k2) == if k2 == k@ {
                    Some(v@)
                } else {
                    old(self).spec_get(k2)
                },
    {
        let ghost es = view_entries(self.entries@);
        let mut p: usize = 0;
        while p < self.entries.len() && chars_less(&self.entries[p].0, &k)
            invariant
                p <= self.entries.len(),
                es == view_entries(self.entries@),
                forall|q: int| 0 <= q < p ==> seq_lt(#[trigger] es[q].0, k@),
            decreases self.entries.len() - p,
        {
            p += 1;
        }
        proof {
            assert forall|q: int| 0 <= q < p implies es[q].0 != k@ by {
                lemma_seq_lt_irreflexive(k@);
            }
            lemma_lookup_prefix(es, p as int, k@);
        }
        if p < self.entries.len() && chars_eq_vec(&self.entries[p].0, &k) {
            let ghost key_p = es[p as int].0;
            self.entries.set(p, (k, v));
            proof {
                let ne = view_entries(self.entries@);
                assert(ne =~= es.update(p as int, (key_p, ne[p as int].1)));
                lemma_lookup_update(es, p as int, key_p, ne[p as int].1);
                assert forall|i: int| 0 <= i && i + 1 < ne.len() implies seq_lt(
                    #[trigger] ne[i].0,
                    ne[i + 1].0,
                ) by {
                    assert(seq_lt(es[i].0, es[i + 1].0));
                }
            }
        } else {
            proof {
                if p < es.len() {
                    lemma_seq_lt_trichotomy(es[p as int].0, k@);
                }
            }
            self.entries.insert(p, (k, v));
            proof {
                let ne = view_entries(self.entries@);
                assert(ne =~= es.insert(p as int, (ne[p as int].0, ne[p as int].1)));
                lemma_lookup_insert(es, p as int, ne[p as int].0, ne[p as int].1);
                assert forall|i: int| 0 <= i && i + 1 < ne.len() implies seq_lt(
                    #[trigger] ne[i].0,
                    ne[i + 1].0,
                ) by {
                    if i + 1 < p {
                        assert(seq_lt(es[i].0, es[i + 1].0));
                    } else if i + 1 == p {
                        assert(seq_lt(es[i].0, k@));
                    } else if i == p {
                    } else {
                        assert(seq_lt(es[i - 1].0, es[i].0));
                    }
                }
            }
        }
    }

    /// The value stored for `key`.
    pub fn get(&self, key: &str) -> (r: Option<String>)
        ensures
            r matches Some(s) ==> self.spec_get(key@) == Some(s@),
            r is None ==> self.spec_get(key@) is None,
    {
        let k = chars_of(key);
        match self.get_chars(&k) {
            Some(v) => Some(string_from_chars(&v)),
            None => None,
        }
    }

    fn get_chars(&self, k: &Vec<char>) -> (r: Option<Vec<char>>)
        ensures
            r matches Some(v) ==> self.spec_get(k@) == Some(v@),
            r is None ==> self.spec_get(k@) is None,
    {
        let ghost es = view_entries(self.entries@);
        let mut i: usize = 0;
        assert(es.skip(0) =~= es);
        while i < self.entries.len()
            invariant
                i <= self.entries.len(),
                es == view_entries(self.entries@),
                lookup(es, k@) == lookup(es.skip(i as int), k@),
            decreases self.entries.len() - i,
        {
            assert(es.skip(i as int)[0] == es[i as int]);
            assert(es.skip(i as int).drop_first() =~= es.skip(i + 1));
            if chars_eq_vec(&self.entries[i].0, k) {
                return Some(clone_chars(&self.entries[i].1));
            }
            i += 1;
        }
        None
    }

    /// Whether `key` has a value.
    pub fn contains_key(&self, key: &str) -> (b: bool)
        ensures
            b == (self.spec_get(key@) is Some),
    {
        let k = chars_of(key);
        self.get_chars(&k).is_some()
    }

    /// The `i`-th setting in key order.
    pub fn entry(&self, i: usize) -> (r: (String, String))
        requires
            i < self.entries_view().len(),
        ensures
            r.0@ == self.entries_view()[i as int].0,
            r.1@ == self.entries_view()[i as int].1,
    {
        (string_from_chars(&self.entries[i].0), string_from_chars(&self.entries[i].1))
    }

    fn entry_chars(&self, i: usize) -> (r: (&Vec<char>, &Vec<char>))
        requires
            i < self.entries_view().len(),
        ensures
            r.0@ == self.entries_view()[i as int].0,
            r.1@ == self.entries_view()[i as int].1,
    {
        (&self.entries[i].0, &self.entries[i].1)
    }
}

fn chars_eq_vec(a: &Vec<char>, b: &Vec<char>) -> (r: bool)
    ensures
        r == (a@ == b@),
{
    crate::text::chars_eq(a, b)
}

proof fn lemma_lookup_prefix(es: Seq<(Seq<char>, Seq<char>)>, p: int, k: Seq<char>)
    requires
        0 <= p <= es.len(),
        forall|q: int| 0 <= q < p ==> es[q].0 != k,
    ensures
        lookup(es, k) == lookup(es.skip(p), k),
    decreases p,
{
    if p > 0 {
        assert(es.drop_first().skip(p - 1) =~= es.skip(p));
        assert forall|q: int| 0 <= q < p - 1 implies es.drop_first()[q].0 != k by {
            assert(es.drop_first()[q] == es[q + 1]);
        }
        lemma_lookup_prefix(es.drop_first(), p - 1, k);
    } else {
        assert(es.skip(0) =~= es);
    }
}

proof fn lemma_lookup_update(
    es: Seq<(Seq<char>, Seq<char>)>,
    p: int,
    k: Seq<char>,
    v: Seq<char>,
)
    requires
        0 <= p < es.len(),
        es[p].0 == k,
        forall|q: int| 0 <= q < p ==> es[q].0 != k,
    ensures
        forall|k2: Seq<char>| #[trigger]
            lookup(es.update(p, (k, v)), k2) == if k2 == k {
                Some(v)
            } else {
                lookup(es, k2)
            },
    decreases p,
{
    let ne = es.update(p, (k, v));
    if p == 0 {
        assert(ne.drop_first() =~= es.drop_first());
        assert forall|k2: Seq<char>| #[trigger]
            lookup(ne, k2) == if k2 == k {
                Some(v)
            } else {
                lookup(es, k2)
            } by {
            assert(ne[0] == (k, v));
        }
    } else {
        assert forall|q: int| 0 <= q < p - 1 implies es.drop_first()[q].0 != k by {
            assert(es.drop_first()[q] == es[q + 1]);
        }
        lemma_lookup_update(es.drop_first(), p - 1, k, v);
        assert(ne.drop_first() =~= es.drop_first().update(p - 1, (k, v)));
        assert(ne[0] == es[0]);
        assert forall|k2: Seq<char>| #[trigger]
            lookup(ne, k2) == if k2 == k {
                Some(v)
            } else {
                lookup(es, k2)
            } by {
            assert(lookup(ne.drop_first(), k2) == lookup(es.drop_first().update(p - 1, (k, v)), k2));
        }
    }
}

proof fn lemma_lookup_insert(
    es: Seq<(Seq<char>, Seq<char>)>,
    p: int,
    k: Seq<char>,
    v: Seq<char>,
)
    requires
        0 <= p <= es.len(),
        forall|q: int| 0 <= q < p ==> es[q].0 != k,
    ensures
        forall|k2: Seq<char>| #[trigger]
            lookup(es.insert(p, (k, v)), k2) == if k2 == k {
                Some(v)
            } else {
                lookup(es, k2)
            },
    decreases p,
{
    let ne = es.insert(p, (k, v));
    if p == 0 {
        assert(ne.drop_first() =~= es);
        assert(ne[0] == (k, v));
        assert forall|k2: Seq<char>| #[trigger]
            lookup(ne, k2) == if k2 == k {
                Some(v)
            } else {
                lookup(es, k2)
            } by {
            assert(lookup(ne.drop_first(), k2) == lookup(es, k2));
        }
    } else {
        assert forall|q: int| 0 <= q < p - 1 implies es.drop_first()[q].0 != k by {
            assert(es.drop_first()[q] == es[q + 1]);
        }
        lemma_lookup_insert(es.drop_first(), p - 1, k, v);
        assert(ne.drop_first() =~= es.drop_first().insert(p - 1, (k, v)));
        assert(ne[0] == es[0]);
        assert forall|k2: Seq<char>| #[trigger]
            lookup(ne, k2) == if k2 == k {
                Some(v)
            } else {
                lookup(es, k2)
            } by {
            assert(lookup(ne.drop_first(), k2) == lookup(es.drop_first().insert(p - 1, (k, v)), k2));
        }
    }
}

} // verus!

verus! {

/// The first index `>= i` at which `s` holds `c`, or `s.len()` if none.
pub open spec fn next_index_of(s: Seq<char>, i: int, c: char) -> int
    decreases s.len() - i,
{
    if i < 0 || i >= s.len() {
        s.len() as int
    } else if s[i] == c {
        i
    } else {
        next_index_of(s, i + 1, c)
    }
}

pub proof fn lemma_next_index_of_bounds(s: Seq<char>, i: int, c: char)
    requires
        0 <= i,
    ensures
        i <= next_index_of(s, i, c) || i > s.len(),
        next_index_of(s, i, c) <= s.len(),
        next_index_of(s, i, c) < s.len() ==> s[next_index_of(s, i, c)] == c,
        forall|k: int| i <= k < next_index_of(s, i, c) ==> s[k] != c,
    decreases s.len() - i,
{
    if i < s.len() && s[i] != c {
        lemma_next_index_of_bounds(s, i + 1, c);
    }
}

/// The lines of `s` from `start` on, each as its content and its line
/// terminator: `"\r\n"`, `"\n"`, or empty for a last line with no newline.
pub open spec fn lines_from(s: Seq<char>, start: int) -> Seq<(Seq<char>, Seq<char>)>
    decreases s.len() - start,
{
    if start < 0 || start >= s.len() {
        seq![]
    } else {
        let j = next_index_of(s, start, '\n');
        proof {
            lemma_next_index_of_bounds(s, start, '\n');
        }
        if j < s.len() {
            let ce = if j > start && s[j - 1] == '\r' {
                j - 1
            } else {
                j
            };
            seq![(s.subrange(start, ce), s.subrange(ce, j + 1))] + lines_from(s, j + 1)
        } else {
            seq![(s.subrange(start, s.len() as int), seq![])]
        }
    }
}

/// The lines of `text` with their terminators.
pub open spec fn lines_of(text: Seq<char>) -> Seq<(Seq<char>, Seq<char>)> {
    lines_from(text, 0)
}

/// The first index `>= i` not holding ASCII whitespace, or `s.len()`.
pub open spec fn skip_ascii_ws(s: Seq<char>, i: int) -> int
    decreases s.len() - i,
{
    if i < 0 || i >= s.len() {
        s.len() as int
    } else if is_ascii_ws(s[i]) {
        skip_ascii_ws(s, i + 1)
    } else {
        i
    }
}

pub proof fn lemma_skip_ascii_ws_bounds(s: Seq<char>, i: int)
    requires
        0 <= i <= s.len(),
    ensures
        i <= skip_ascii_ws(s, i) <= s.len(),
    decreases s.len() - i,
{
    if i < s.len() && is_ascii_ws(s[i]) {
        lemma_skip_ascii_ws_bounds(s, i + 1);
    }
}

/// Every character of `s` from `i` on is (Unicode) whitespace.
pub open spec fn ws_from(s: Seq<char>, i: int) -> bool {
    forall|k: int| i <= k < s.len() ==> is_ws(#[trigger] s[k])
}

/// A line of the quoted key/value shape `^\s*"([^"]+)"\s*"([^"]*)"\s*$`
/// (ASCII whitespace before and between the two quoted strings, any
/// whitespace after): its key, and the positions of the value's first
/// character and of its closing quote.
pub open spec fn kv_line(line: Seq<char>) -> Option<(Seq<char>, int, int)> {
    let i = skip_ascii_ws(line, 0);
    if !(i < line.len() && line[i] == '"') {
        None
    } else {
        let ks = i + 1;
        let ke = next_index_of(line, ks, '"');
        if ke >= line.len() || ke == ks {
            None
        } else {
            let j = skip_ascii_ws(line, ke + 1);
            if !(j < line.len() && line[j] == '"') {
                None
            } else {
                let vs = j + 1;
                let ve = next_index_of(line, vs, '"');
                if ve >= line.len() || !ws_from(line, ve + 1) {
                    None
                } else {
                    Some((line.subrange(ks, ke), vs, ve))
                }
            }
        }
    }
}

pub proof fn lemma_kv_line_bounds(line: Seq<char>)
    ensures
        kv_line(line) matches Some((k, vs, ve)) ==> 0 < vs <= ve < line.len(),
{
    let i = skip_ascii_ws(line, 0);
    lemma_skip_ascii_ws_bounds(line, 0);
    if i < line.len() && line[i] == '"' {
        let ks = i + 1;
        lemma_next_index_of_bounds(line, ks, '"');
        let ke = next_index_of(line, ks, '"');
        if ke < line.len() && ke != ks {
            lemma_skip_ascii_ws_bounds(line, ke + 1);
            let j = skip_ascii_ws(line, ke + 1);
            if j < line.len() && line[j] == '"' {
                lemma_next_index_of_bounds(line, j + 1, '"');
            }
        }
    }
}

pub open spec fn view_lines(v: Seq<(Vec<char>, Vec<char>)>) -> Seq<(Seq<char>, Seq<char>)> {
    view_entries(v)
}

fn index_of_from(s: &Vec<char>, i: usize, c: char) -> (r: usize)
    requires
        i <= s.len(),
    ensures
        r == next_index_of(s@, i as int, c),
{
    let mut k = i;
    while k < s.len() && s[k] != c
        invariant
            i <= k <= s.len(),
            next_index_of(s@, i as int, c) == next_index_of(s@, k as int, c),
        decreases s.len() - k,
    {
        k += 1;
    }
    k
}

fn skip_ascii_ws_from(s: &Vec<char>, i: usize) -> (r: usize)
    requires
        i <= s.len(),
    ensures
        r == skip_ascii_ws(s@, i as int),
{
    let mut k = i;
    while k < s.len() && is_ascii_whitespace(s[k])
        invariant
            i <= k <= s.len(),
            skip_ascii_ws(s@, i as int) == skip_ascii_ws(s@, k as int),
        decreases s.len() - k,
    {
        k += 1;
    }
    k
}

fn ws_from_exec(s: &Vec<char>, i: usize) -> (b: bool)
    ensures
        b == ws_from(s@, i as int),
{
    let mut k = i;
    while k < s.len()
        invariant
            i <= k,
            forall|q: int| i <= q < k ==> is_ws(#[trigger] s@[q]),
        decreases s.len() - k,
    {
        if !is_whitespace(s[k]) {
            return false;
        }
        k += 1;
    }
    true
}

/// `s[a..b]` as a new vector.
pub fn sub_chars(s: &Vec<char>, a: usize, b: usize) -> (r: Vec<char>)
    requires
        a <= b <= s.len(),
    ensures
        r@ == s@.subrange(a as int, b as int),
{
    let mut r: Vec<char> = Vec::new();
    let mut k = a;
    while k < b
        invariant
            a <= k <= b,
            b <= s.len(),
            r@ =~= s@.subrange(a as int, k as int),
        decreases b - k,
    {
        r.push(s[k]);
        k += 1;
    }
    r
}

/// Splits `text` into `(content, terminator)` pairs, where the terminator
/// is `"\r\n"`, `"\n"`, or empty (only for a last line without a newline),
/// so that the pieces put back together give `text` exactly.
fn split_lines_keep_terminators(s: &Vec<char>) -> (ls: Vec<(Vec<char>, Vec<char>)>)
    ensures
        view_lines(ls@) == lines_of(s@),
{
    let mut out: Vec<(Vec<char>, Vec<char>)> = Vec::new();
    let mut start: usize = 0;
    while start < s.len()
        invariant
            start <= s.len(),
            view_lines(out@) + lines_from(s@, start as int) == lines_of(s@),
        decreases s.len() - start,
    {
        let j = index_of_from(s, start, '\n');
        proof {
            lemma_next_index_of_bounds(s@, start as int, '\n');
        }
        let ghost before = out@;
        if j < s.len() {
            let ce = if j > start && s[j - 1] == '\r' {
                j - 1
            } else {
                j
            };
            let content = sub_chars(s, start, ce);
            let term = sub_chars(s, ce, j + 1);
            out.push((content, term));
            assert(view_lines(out@) =~= view_lines(before).push(
                (s@.subrange(start as int, ce as int), s@.subrange(ce as int, j + 1)),
            ));
            assert(view_lines(before) + lines_from(s@, start as int) =~= view_lines(out@)
                + lines_from(s@, j + 1));
            start = j + 1;
        } else {
            let content = sub_chars(s, start, s.len());
            out.push((content, Vec::new()));
            assert(view_lines(out@) =~= view_lines(before).push(
                (s@.subrange(start as int, s.len() as int), Seq::<char>::empty()),
            ));
            assert(view_lines(before) + lines_from(s@, start as int) =~= view_lines(out@));
            start = s.len();
            assert(lines_from(s@, start as int) =~= Seq::<(Seq<char>, Seq<char>)>::empty());
        }
    }
    assert(lines_from(s@, start as int) =~= Seq::<(Seq<char>, Seq<char>)>::empty());
    assert(view_lines(out@) =~= view_lines(out@) + lines_from(s@, start as int));
    out
}

/// Parses one line against the quoted key/value shape; see [`kv_line`].
fn parse_quoted_kv_line(line: &Vec<char>) -> (r: Option<(Vec<char>, usize, usize)>)
    ensures
        r matches Some((k, vs, ve)) ==> kv_line(line@) == Some((k@, vs as int, ve as int)),
        r is None ==> kv_line(line@) is None,
{
    proof {
        lemma_skip_ascii_ws_bounds(line@, 0);
    }
    let i = skip_ascii_ws_from(line, 0);
    if !(i < line.len() && line[i] == '"') {
        return None;
    }
    let ks = i + 1;
    let ke = index_of_from(line, ks, '"');
    proof {
        lemma_next_index_of_bounds(line@, ks as int, '"');
    }
    if ke >= line.len() || ke == ks {
        return None;
    }
    proof {
        lemma_skip_ascii_ws_bounds(line@, ke + 1);
    }
    let j = skip_ascii_ws_from(line, ke + 1);
    if !(j < line.len() && line[j] == '"') {
        return None;
    }
    let vs = j + 1;
    let ve = index_of_from(line, vs, '"');
    proof {
        lemma_next_index_of_bounds(line@, vs as int, '"');
    }
    if ve >= line.len() {
        return None;
    }
    if !ws_from_exec(line, ve + 1) {
        return None;
    }
    let key = sub_chars(line, ks, ke);
    Some((key, vs, ve))
}

/// The key and value of a quoted key/value line, if it is one.
pub open spec fn kv_entry(line: Seq<char>) -> Option<(Seq<char>, Seq<char>)> {
    match kv_line(line) {
        Some((k, vs, ve)) => Some((k, line.subrange(vs, ve))),
        None => None,
    }
}

/// The keys of the quoted key/value lines among `ls`, in order.
pub open spec fn kv_keys(ls: Seq<(Seq<char>, Seq<char>)>) -> Seq<Seq<char>>
    decreases ls.len(),
{
    if ls.len() == 0 {
        seq![]
    } else {
        let rest = kv_keys(ls.drop_last());
        match kv_line(ls.last().0) {
            Some((k, vs, ve)) => rest.push(k),
            None => rest,
        }
    }
}

/// The index of the last quoted key/value line among `ls`.
pub open spec fn last_kv(ls: Seq<(Seq<char>, Seq<char>)>) -> Option<int>
    decreases ls.len(),
{
    if ls.len() == 0 {
        None
    } else if kv_line(ls.last().0) is Some {
        Some(ls.len() - 1)
    } else {
        last_kv(ls.drop_last())
    }
}

/// The value the last line with key `k` gives it, if any line does.
pub open spec fn parsed_value(ls: Seq<(Seq<char>, Seq<char>)>, k: Seq<char>) -> Option<Seq<char>>
    decreases ls.len(),
{
    if ls.len() == 0 {
        None
    } else {
        match kv_entry(ls.last().0) {
            Some((k2, v)) => if k2 == k {
                Some(v)
            } else {
                parsed_value(ls.drop_last(), k)
            },
            None => parsed_value(ls.drop_last(), k),
        }
    }
}

/// A line (content and terminator) as it is written back: a key/value line
/// whose key has a new value gets that value between its quotes, and every
/// other character is kept.
pub open spec fn render_line(l: (Seq<char>, Seq<char>), es: Seq<(Seq<char>, Seq<char>)>) -> Seq<
    char,
> {
    match kv_line(l.0) {
        Some((k, vs, ve)) => match lookup(es, k) {
            Some(v) => l.0.subrange(0, vs) + v + l.0.subrange(ve, l.0.len() as int) + l.1,
            None => l.0 + l.1,
        },
        None => l.0 + l.1,
    }
}

pub open spec fn render_lines(
    ls: Seq<(Seq<char>, Seq<char>)>,
    es: Seq<(Seq<char>, Seq<char>)>,
) -> Seq<Seq<char>> {
    ls.map_values(|l: (Seq<char>, Seq<char>)| render_line(l, es))
}

/// The pieces put one after another.
pub open spec fn concat_all(ps: Seq<Seq<char>>) -> Seq<char>
    decreases ps.len(),
{
    if ps.len() == 0 {
        seq![]
    } else {
        concat_all(ps.drop_last()) + ps.last()
    }
}

/// The line written for a setting the file did not have:
/// `\t"key"\t\t"value"\n`.
pub open spec fn setting_line(k: Seq<char>, v: Seq<char>) -> Seq<char> {
    seq!['\t', '"'] + k + seq!['"', '\t', '\t', '"'] + v + seq!['"', '\n']
}

/// The new lines for the settings whose key is not among `keys`, in the
/// settings' order.
pub open spec fn added_lines(es: Seq<(Seq<char>, Seq<char>)>, keys: Seq<Seq<char>>) -> Seq<char>
    decreases es.len(),
{
    if es.len() == 0 {
        seq![]
    } else {
        added_lines(es.drop_last(), keys) + if keys.contains(es.last().0) {
            Seq::<char>::empty()
        } else {
            setting_line(es.last().0, es.last().1)
        }
    }
}

/// Where the new lines go: right after the last key/value line, or at the
/// end when there is none.
pub open spec fn insert_pos(ls: Seq<(Seq<char>, Seq<char>)>) -> int {
    match last_kv(ls) {
        Some(i) => i + 1,
        None => ls.len() as int,
    }
}

/// The line break written before new lines `added` when the text `before`
/// them does not end in one: `\n`, or `\r\n` after a carriage return (so
/// that the line before keeps its content); nothing when there are no new
/// lines, no text before them, or it ends in a line break.
pub open spec fn break_before(before: Seq<char>, added: Seq<char>) -> Seq<char> {
    if added.len() == 0 || before.len() == 0 || before.last() == '\n' {
        seq![]
    } else if before.last() == '\r' {
        seq!['\r', '\n']
    } else {
        seq!['\n']
    }
}

/// `text` with the given settings written into it: the lines rendered,
/// the new lines after the last key/value line (that line ended first
/// when it has no line break), then the rest.
pub open spec fn rewritten(text: Seq<char>, es: Seq<(Seq<char>, Seq<char>)>) -> Seq<char> {
    let ls = lines_of(text);
    let rs = render_lines(ls, es);
    let p = insert_pos(ls);
    let before = concat_all(rs.take(p));
    let added = added_lines(es, kv_keys(ls));
    before + break_before(before, added) + added + concat_all(rs.skip(p))
}

proof fn lemma_last_kv_bounds(ls: Seq<(Seq<char>, Seq<char>)>)
    ensures
        last_kv(ls) matches Some(i) ==> 0 <= i < ls.len(),
    decreases ls.len(),
{
    if ls.len() > 0 {
        lemma_last_kv_bounds(ls.drop_last());
    }
}

proof fn lemma_concat_all_append(a: Seq<Seq<char>>, b: Seq<Seq<char>>)
    ensures
        concat_all(a + b) == concat_all(a) + concat_all(b),
    decreases b.len(),
{
    if b.len() == 0 {
        assert(a + b =~= a);
        assert(concat_all(b) =~= Seq::<char>::empty());
        assert(concat_all(a) + concat_all(b) =~= concat_all(a));
    } else {
        assert((a + b).drop_last() =~= a + b.drop_last());
        lemma_concat_all_append(a, b.drop_last());
        assert(concat_all(a) + concat_all(b) =~= concat_all(a) + concat_all(b.drop_last()) + b.last());
    }
}

/// Renders one line against the settings.
fn render_line_exec(content: &Vec<char>, term: &Vec<char>, settings: &VideoSettings) -> (r: Vec<
    char,
>)
    ensures
        r@ == render_line((content@, term@), settings.entries_view()),
{
    let mut out: Vec<char> = Vec::new();
    match parse_quoted_kv_line(content) {
        Some((k, vs, ve)) => {
            proof {
                lemma_kv_line_bounds(content@);
            }
            match settings.get_chars(&k) {
                Some(v) => {
                    let a = sub_chars(content, 0, vs);
                    let b = sub_chars(content, ve, content.len());
                    push_chars(&mut out, &a);
                    push_chars(&mut out, &v);
                    push_chars(&mut out, &b);
                    push_chars(&mut out, term);
                },
                None => {
                    push_chars(&mut out, content);
                    push_chars(&mut out, term);
                },
            }
        },
        None => {
            push_chars(&mut out, content);
            push_chars(&mut out, term);
        },
    }
    out
}

fn contains_chars(ks: &Vec<Vec<char>>, k: &Vec<char>) -> (b: bool)
    ensures
        b == crate::text::view_words(ks@).contains(k@),
{
    let ghost vw = crate::text::view_words(ks@);
    let mut i: usize = 0;
    while i < ks.len()
        invariant
            i <= ks.len(),
            vw == crate::text::view_words(ks@),
            forall|q: int| 0 <= q < i ==> vw[q] != k@,
        decreases ks.len() - i,
    {
        if chars_eq_vec(&ks[i], k) {
            assert(vw[i as int] == k@);
            return true;
        }
        i += 1;
    }
    false
}

/// Rewrites only the given settings in the text of a `cs2_video.txt`.
///
/// Every line keeps its characters and its own line ending, except that a
/// quoted key/value line whose key is among `settings` gets the new value
/// between its value quotes (every such line, when a key repeats). Settings
/// whose key no line has are written as new `\t"key"\t\t"value"` lines, in
/// key order, right after the last key/value line of the file (inside the
/// block that surrounds them), or at the end when the file has none; when
/// the text before them does not end in a line break, one is written first.
pub fn rewrite_video_settings(text: &str, settings: &VideoSettings) -> (r: String)
    ensures
        r@ == rewritten(text@, settings.entries_view()),
{
    let s = chars_of(text);
    let ls = split_lines_keep_terminators(&s);
    let ghost lsv = view_lines(ls@);
    let ghost es = settings.entries_view();
    let ghost rs = render_lines(lsv, es);
    let mut pieces: Vec<Vec<char>> = Vec::new();
    let mut found: Vec<Vec<char>> = Vec::new();
    let mut last: Option<usize> = None;
    let mut i: usize = 0;
    while i < ls.len()
        invariant
            i <= ls.len(),
            lsv == view_lines(ls@),
            lsv == lines_of(s@),
            es == settings.entries_view(),
            rs == render_lines(lsv, es),
            crate::text::view_words(pieces@) == rs.take(i as int),
            crate::text::view_words(found@) == kv_keys(lsv.take(i as int)),
            last matches Some(q) ==> last_kv(lsv.take(i as int)) == Some(q as int),
            last is None ==> last_kv(lsv.take(i as int)) is None,
        decreases ls.len() - i,
    {
        let piece = render_line_exec(&ls[i].0, &ls[i].1, settings);
        assert(lsv[i as int] == (ls@[i as int].0@, ls@[i as int].1@));
        assert(rs[i as int] == piece@);
        assert(lsv.take(i + 1).drop_last() =~= lsv.take(i as int));
        assert(lsv.take(i + 1).last() == lsv[i as int]);
        match parse_quoted_kv_line(&ls[i].0) {
            Some((k, _, _)) => {
                found.push(k);
                last = Some(i);
            },
            None => {},
        }
        let ghost before = pieces@;
        pieces.push(piece);
        assert(crate::text::view_words(pieces@) =~= crate::text::view_words(before).push(rs[i as int]));
        assert(rs.take(i + 1) =~= rs.take(i as int).push(rs[i as int]));
        assert(crate::text::view_words(found@) =~= kv_keys(lsv.take(i + 1)));
        i += 1;
    }
    assert(lsv.take(i as int) =~= lsv);
    assert(rs.take(i as int) =~= rs);
    let mut added: Vec<char> = Vec::new();
    let mut j: usize = 0;
    while j < settings.len()
        invariant
            j <= es.len(),
            es == settings.entries_view(),
            crate::text::view_words(found@) == kv_keys(lsv),
            added@ == added_lines(es.take(j as int), kv_keys(lsv)),
        decreases es.len() - j,
    {
        let (k, v) = settings.entry_chars(j);
        assert(es.take(j + 1).drop_last() =~= es.take(j as int));
        assert(es.take(j + 1).last() == es[j as int]);
        if !contains_chars(&found, k) {
            let ghost before = added@;
            added.push('\t');
            added.push('"');
            push_chars(&mut added, k);
            added.push('"');
            added.push('\t');
            added.push('\t');
            added.push('"');
            push_chars(&mut added, v);
            added.push('"');
            added.push('\n');
            assert(added@ =~= before + setting_line(k@, v@));
        } else {
            assert(added@ =~= added@ + Seq::<char>::empty());
        }
        j += 1;
    }
    assert(es.take(j as int) =~= es);
    proof {
        lemma_last_kv_bounds(lsv);
    }
    let p: usize = match last {
        Some(q) => q + 1,
        None => pieces.len(),
    };
    let mut out: Vec<char> = Vec::new();
    let mut t: usize = 0;
    while t < p
        invariant
            t <= p,
            p <= pieces.len(),
            crate::text::view_words(pieces@) == rs,
            out@ == concat_all(rs.take(t as int)),
        decreases p - t,
    {
        assert(rs.take(t + 1).drop_last() =~= rs.take(t as int));
        push_chars(&mut out, &pieces[t]);
        t += 1;
    }
    let ghost before = out@;
    if added.len() > 0 && out.len() > 0 && out[out.len() - 1] != '\n' {
        if out[out.len() - 1] == '\r' {
            out.push('\r');
        }
        out.push('\n');
    }
    assert(out@ =~= before + break_before(before, added@));
    push_chars(&mut out, &added);
    let ghost mid = out@;
    let mut u: usize = p;
    while u < pieces.len()
        invariant
            p <= u <= pieces.len(),
            crate::text::view_words(pieces@) == rs,
            out@ == mid + concat_all(rs.subrange(p as int, u as int)),
        decreases pieces.len() - u,
    {
        assert(rs.subrange(p as int, u + 1).drop_last() =~= rs.subrange(p as int, u as int));
        push_chars(&mut out, &pieces[u]);
        u += 1;
    }
    assert(rs.subrange(p as int, u as int) =~= rs.skip(p as int));
    string_from_chars(&out)
}

/// Reads every quoted key/value line of `text` into a set of settings;
/// when a key repeats, the last line's value wins. The lines read are the
/// same ones [`rewrite_video_settings`] considers writable.
pub fn parse_video_settings(text: &str) -> (r: VideoSettings)
    ensures
        r.wf(),
        forall|k: Seq<char>| #[trigger] r.spec_get(k) == parsed_value(lines_of(text@), k),
{
    let s = chars_of(text);
    let ls = split_lines_keep_terminators(&s);
    let ghost lsv = view_lines(ls@);
    let mut r = VideoSettings::new();
    let mut i: usize = 0;
    while i < ls.len()
        invariant
            i <= ls.len(),
            lsv == view_lines(ls@),
            r.wf(),
            forall|k: Seq<char>| #[trigger] r.spec_get(k) == parsed_value(lsv.take(i as int), k),
        decreases ls.len() - i,
    {
        assert(lsv.take(i + 1).drop_last() =~= lsv.take(i as int));
        assert(lsv.take(i + 1).last() == lsv[i as int]);
        assert(lsv[i as int] == (ls@[i as int].0@, ls@[i as int].1@));
        let line = &ls[i].0;
        match parse_quoted_kv_line(line) {
            Some((k, vs, ve)) => {
                proof {
                    lemma_kv_line_bounds(line@);
                }
                let v = sub_chars(line, vs, ve);
                r.insert_chars(k, v);
            },
            None => {},
        }
        i += 1;
    }
    assert(lsv.take(i as int) =~= lsv);
    r
}

/// A line put back together: its content followed by its terminator.
pub open spec fn joined(l: (Seq<char>, Seq<char>)) -> Seq<char> {
    l.0 + l.1
}

proof fn lemma_concat_all_single(x: Seq<char>)
    ensures
        concat_all(seq![x]) == x,
{
    let one = seq![x];
    assert(one.drop_last() =~= Seq::<Seq<char>>::empty());
    assert(concat_all(one.drop_last()) =~= Seq::<char>::empty());
    assert(one.last() == x);
    assert(concat_all(one) == concat_all(one.drop_last()) + one.last());
    assert(Seq::<char>::empty() + x =~= x);
}

proof fn lemma_lines_from_rejoin(s: Seq<char>, start: int)
    requires
        0 <= start <= s.len(),
    ensures
        concat_all(lines_from(s, start).map_values(|l: (Seq<char>, Seq<char>)| joined(l)))
            == s.subrange(start, s.len() as int),
    decreases s.len() - start,
{
    let f = |l: (Seq<char>, Seq<char>)| joined(l);
    if start == s.len() {
        assert(lines_from(s, start).map_values(f) =~= Seq::<Seq<char>>::empty());
        assert(s.subrange(start, s.len() as int) =~= Seq::<char>::empty());
    } else {
        let j = next_index_of(s, start, '\n');
        lemma_next_index_of_bounds(s, start, '\n');
        if j < s.len() {
            let ce = if j > start && s[j - 1] == '\r' {
                j - 1
            } else {
                j
            };
            let head = (s.subrange(start, ce), s.subrange(ce, j + 1));
            lemma_lines_from_rejoin(s, j + 1);
            assert(lines_from(s, start).map_values(f) =~= seq![joined(head)] + lines_from(
                s,
                j + 1,
            ).map_values(f));
            lemma_concat_all_append(seq![joined(head)], lines_from(s, j + 1).map_values(f));
            lemma_concat_all_single(joined(head));
            assert(s.subrange(start, s.len() as int) =~= joined(head) + s.subrange(
                j + 1,
                s.len() as int,
            ));
        } else {
            let head = (s.subrange(start, s.len() as int), Seq::<char>::empty());
            assert(lines_from(s, start).map_values(f) =~= seq![joined(head)]);
            lemma_concat_all_single(joined(head));
            assert(joined(head) =~= s.subrange(start, s.len() as int));
        }
    }
}

/// Rewriting with no settings gives the text back unchanged, line endings
/// and all.
pub proof fn lemma_rewrite_nothing_is_identity(text: Seq<char>)
    ensures
        rewritten(text, Seq::<(Seq<char>, Seq<char>)>::empty()) == text,
{
    let es = Seq::<(Seq<char>, Seq<char>)>::empty();
    let ls = lines_of(text);
    let rs = render_lines(ls, es);
    let p = insert_pos(ls);
    lemma_last_kv_bounds(ls);
    assert(rs =~= ls.map_values(|l: (Seq<char>, Seq<char>)| joined(l)));
    lemma_lines_from_rejoin(text, 0);
    assert(text.subrange(0, text.len() as int) =~= text);
    assert(rs.take(p) + rs.skip(p) =~= rs);
    lemma_concat_all_append(rs.take(p), rs.skip(p));
    assert(added_lines(es, kv_keys(ls)) =~= Seq::<char>::empty());
    assert(break_before(concat_all(rs.take(p)), added_lines(es, kv_keys(ls))) =~= Seq::<char>::empty());
    assert(concat_all(rs.take(p)) + Seq::<char>::empty() + added_lines(es, kv_keys(ls)) =~= concat_all(rs.take(p)));
}

} // verus!

verus! {

// ---------------------------------------------------------------------------
// Reading back what was written
// ---------------------------------------------------------------------------

/// A line as [`lines_of`] gives it: no newline in its content; a
/// terminator of `"\n"`, `"\r\n"` or nothing; and a content that does not
/// end in `'\r'` when the terminator is a bare `"\n"`.
pub open spec fn line_ok(l: (Seq<char>, Seq<char>)) -> bool {
    &&& !l.0.contains('\n')
    &&& (l.1 == seq!['\n'] || l.1 == seq!['\r', '\n'] || l.1.len() == 0)
    &&& (l.1 == seq!['\n'] && l.0.len() > 0 ==> l.0.last() != '\r')
}

/// A sequence of lines as [`lines_of`] gives it: each line well formed,
/// every line but the last terminated, and the last one not empty.
pub open spec fn lines_ok(ls: Seq<(Seq<char>, Seq<char>)>) -> bool {
    &&& forall|i: int| 0 <= i < ls.len() ==> line_ok(#[trigger] ls[i])
    &&& forall|i: int| 0 <= i < ls.len() - 1 ==> (#[trigger] ls[i]).1.len() > 0
    &&& ls.len() > 0 ==> joined(ls.last()).len() > 0
}

/// The lines put back together, one after another.
pub open spec fn pieces(ls: Seq<(Seq<char>, Seq<char>)>) -> Seq<Seq<char>> {
    ls.map_values(|l: (Seq<char>, Seq<char>)| joined(l))
}

proof fn lemma_lines_from_ok(s: Seq<char>, start: int)
    requires
        0 <= start <= s.len(),
    ensures
        lines_ok(lines_from(s, start)),
    decreases s.len() - start,
{
    if start < s.len() {
        let j = next_index_of(s, start, '\n');
        lemma_next_index_of_bounds(s, start, '\n');
        if j < s.len() {
            let ce = if j > start && s[j - 1] == '\r' {
                j - 1
            } else {
                j
            };
            let head = (s.subrange(start, ce), s.subrange(ce, j + 1));
            lemma_lines_from_ok(s, j + 1);
            let rest = lines_from(s, j + 1);
            let all = lines_from(s, start);
            assert(all == seq![head] + rest);
            assert(!head.0.contains('\n')) by {
                if head.0.contains('\n') {
                    let q = choose|q: int| 0 <= q < head.0.len() && head.0[q] == '\n';
                    assert(s[start + q] == '\n');
                }
            }
            if ce == j - 1 {
                assert(head.1 =~= seq!['\r', '\n']);
            } else {
                assert(head.1 =~= seq!['\n']);
                if head.0.len() > 0 {
                    assert(head.0.last() == s[j - 1]);
                }
            }
            assert(line_ok(head));
            assert forall|i: int| 0 <= i < all.len() implies line_ok(#[trigger] all[i]) by {
                if i > 0 {
                    assert(all[i] == rest[i - 1]);
                }
            }
            assert forall|i: int| 0 <= i < all.len() - 1 implies (#[trigger] all[i]).1.len() > 0 by {
                if i > 0 {
                    assert(all[i] == rest[i - 1]);
                }
            }
            if rest.len() > 0 {
                assert(all.last() == rest.last());
            } else {
                assert(all.last() == head);
            }
        } else {
            let head = (s.subrange(start, s.len() as int), Seq::<char>::empty());
            assert(lines_from(s, start) == seq![head]);
            assert(!head.0.contains('\n')) by {
                if head.0.contains('\n') {
                    let q = choose|q: int| 0 <= q < head.0.len() && head.0[q] == '\n';
                    assert(s[start + q] == '\n');
                }
            }
            assert(joined(head).len() > 0);
        }
    }
}

/// The lines of any text are well formed.
pub proof fn lemma_lines_of_ok(text: Seq<char>)
    ensures
        lines_ok(lines_of(text)),
{
    lemma_lines_from_ok(text, 0);
}

/// `next_index_of` passes over `n` characters that are not `c`.
proof fn lemma_next_index_after(s: Seq<char>, i: int, n: int, c: char)
    requires
        0 <= i,
        0 <= n,
        i + n <= s.len(),
        forall|k: int| i <= k < i + n ==> s[k] != c,
    ensures
        next_index_of(s, i, c) == next_index_of(s, i + n, c),
    decreases n,
{
    if n > 0 {
        lemma_next_index_after(s, i + 1, n - 1, c);
    }
}

proof fn lemma_concat_all_front(ps: Seq<Seq<char>>)
    requires
        ps.len() > 0,
    ensures
        concat_all(ps) == ps[0] + concat_all(ps.drop_first()),
{
    assert(ps =~= seq![ps[0]] + ps.drop_first());
    lemma_concat_all_append(seq![ps[0]], ps.drop_first());
    lemma_concat_all_single(ps[0]);
}

/// Well-formed lines, put back together after any prefix, split into the
/// same lines again.
proof fn lemma_lines_of_joined(x: Seq<char>, ls: Seq<(Seq<char>, Seq<char>)>)
    requires
        lines_ok(ls),
    ensures
        lines_from(x + concat_all(pieces(ls)), x.len() as int) == ls,
    decreases ls.len(),
{
    let s = x + concat_all(pieces(ls));
    let start = x.len() as int;
    if ls.len() == 0 {
        assert(concat_all(pieces(ls)) =~= Seq::<char>::empty());
        assert(s.len() == start);
        assert(ls =~= Seq::<(Seq<char>, Seq<char>)>::empty());
        assert(lines_from(s, start) =~= Seq::<(Seq<char>, Seq<char>)>::empty());
    } else {
        let l0 = ls[0];
        let rest = ls.drop_first();
        assert(pieces(ls).drop_first() =~= pieces(rest));
        assert(pieces(ls)[0] == joined(l0));
        lemma_concat_all_front(pieces(ls));
        let r = concat_all(pieces(rest));
        assert(s =~= (x + l0.0 + l0.1) + r);
        assert(line_ok(l0));
        let c = l0.0;
        assert forall|k: int| start <= k < start + c.len() implies s[k] != '\n' by {
            assert(s[k] == c[k - start]);
            if c[k - start] == '\n' {
                assert(c.contains('\n'));
            }
        }
        lemma_next_index_after(s, start, c.len() as int, '\n');
        let after = start + c.len();
        assert(forall|i: int| 0 <= i < rest.len() ==> #[trigger] rest[i] == ls[i + 1]);
        assert(lines_ok(rest)) by {
            assert forall|i: int| 0 <= i < rest.len() implies line_ok(#[trigger] rest[i]) by {
                assert(rest[i] == ls[i + 1]);
            }
            assert forall|i: int| 0 <= i < rest.len() - 1 implies (#[trigger] rest[i]).1.len() > 0 by {
                assert(rest[i] == ls[i + 1]);
            }
            if rest.len() > 0 {
                assert(rest.last() == ls.last());
            }
        }
        if l0.1.len() == 0 {
            // The last line, without a terminator.
            assert(ls.len() == 1) by {
                if ls.len() > 1 {
                    assert(ls[0].1.len() > 0);
                }
            }
            assert(rest.len() == 0);
            assert(r =~= Seq::<char>::empty());
            assert(s.len() == after);
            assert(joined(ls.last()).len() > 0);
            assert(next_index_of(s, after, '\n') == s.len());
            assert(s.subrange(start, s.len() as int) =~= c);
            assert(lines_from(s, start) =~= seq![(c, Seq::<char>::empty())]);
            assert(l0.1 =~= Seq::<char>::empty());
            assert(ls =~= seq![l0]);
            assert(lines_from(s, start) == ls);
        } else {
            let j = if l0.1 == seq!['\n'] {
                after
            } else {
                after + 1
            };
            if l0.1 == seq!['\r', '\n'] {
                assert(s[after] == '\r');
                assert(s[after] != '\n');
                lemma_next_index_after(s, after, 1, '\n');
            }
            assert(s[j] == '\n');
            assert(next_index_of(s, start, '\n') == j);
            let ce = if j > start && s[j - 1] == '\r' {
                j - 1
            } else {
                j
            };
            if l0.1 == seq!['\n'] {
                if j > start {
                    assert(s[j - 1] == c.last());
                }
                assert(ce == j);
            } else {
                assert(ce == after);
            }
            assert(s.subrange(start, ce) =~= c);
            assert(s.subrange(ce, j + 1) =~= l0.1);
            lemma_lines_of_joined(x + joined(l0), rest);
            assert(x + joined(l0) + r =~= s);
            assert((x + joined(l0)).len() == j + 1);
            assert(lines_from(s, start) =~= seq![(c, l0.1)] + lines_from(s, j + 1));
            assert(ls =~= seq![l0] + rest);
            assert(lines_from(s, start) == ls);
        }
    }
}

} // verus!

verus! {

pub proof fn lemma_seq_lt_transitive(a: Seq<char>, b: Seq<char>, c: Seq<char>)
    requires
        seq_lt(a, b),
        seq_lt(b, c),
    ensures
        seq_lt(a, c),
    decreases a.len(),
{
    if a.len() > 0 && b.len() > 0 && c.len() > 0 {
        if a[0] == b[0] && b[0] == c[0] {
            lemma_seq_lt_transitive(a.drop_first(), b.drop_first(), c.drop_first());
        }
    }
}

/// `skip_ascii_ws` reads no further than where it stops.
proof fn lemma_skip_same(a: Seq<char>, b: Seq<char>, p: int, m: int)
    requires
        0 <= p,
        m <= a.len(),
        m <= b.len(),
        forall|q: int| 0 <= q < m ==> a[q] == b[q],
        skip_ascii_ws(a, p) < m,
    ensures
        skip_ascii_ws(b, p) == skip_ascii_ws(a, p),
    decreases m - p,
{
    if p < m {
        if is_ascii_ws(a[p]) {
            lemma_skip_same(a, b, p + 1, m);
        }
    } else if p <= a.len() {
        lemma_skip_ascii_ws_bounds(a, p);
    }
}

/// `next_index_of` reads no further than where it stops.
proof fn lemma_next_same(a: Seq<char>, b: Seq<char>, p: int, c: char, m: int)
    requires
        0 <= p,
        m <= a.len(),
        m <= b.len(),
        forall|q: int| 0 <= q < m ==> a[q] == b[q],
        next_index_of(a, p, c) < m,
    ensures
        next_index_of(b, p, c) == next_index_of(a, p, c),
    decreases m - p,
{
    if p < m {
        if a[p] != c {
            lemma_next_same(a, b, p + 1, c, m);
        }
    } else {
        lemma_next_index_of_bounds(a, p, c);
    }
}

/// The content of the line written for a setting the file did not have.
pub open spec fn added_content(k: Seq<char>, v: Seq<char>) -> Seq<char> {
    seq!['\t', '"'] + k + seq!['"', '\t', '\t', '"'] + v + seq!['"']
}

proof fn lemma_added_content_kv(k: Seq<char>, v: Seq<char>)
    requires
        k.len() > 0,
        !k.contains('"'),
        !v.contains('"'),
    ensures
        kv_entry(added_content(k, v)) == Some((k, v)),
{
    let c = added_content(k, v);
    let n = k.len() as int;
    let m = v.len() as int;
    assert(c.len() == n + m + 7);
    assert(c[0] == '\t' && c[1] == '"');
    assert(skip_ascii_ws(c, 1) == 1);
    assert(skip_ascii_ws(c, 0) == 1);
    assert forall|q: int| 2 <= q < 2 + n implies c[q] != '"' by {
        assert(c[q] == k[q - 2]);
        if k[q - 2] == '"' {
            assert(k.contains('"'));
        }
    }
    lemma_next_index_after(c, 2, n, '"');
    assert(c[2 + n] == '"');
    assert(next_index_of(c, 2, '"') == 2 + n);
    let ke = 2 + n;
    assert(c[ke + 1] == '\t' && c[ke + 2] == '\t' && c[ke + 3] == '"');
    assert(skip_ascii_ws(c, ke + 3) == ke + 3);
    assert(skip_ascii_ws(c, ke + 2) == ke + 3);
    assert(skip_ascii_ws(c, ke + 1) == ke + 3);
    let vs = ke + 4;
    assert forall|q: int| vs <= q < vs + m implies c[q] != '"' by {
        assert(c[q] == v[q - vs]);
        if v[q - vs] == '"' {
            assert(v.contains('"'));
        }
    }
    lemma_next_index_after(c, vs, m, '"');
    assert(c[vs + m] == '"');
    assert(next_index_of(c, vs, '"') == vs + m);
    assert(ws_from(c, vs + m + 1));
    assert(c.subrange(2, ke) =~= k);
    assert(c.subrange(vs, vs + m) =~= v);
}

/// A key/value line with a new value put between its value quotes is a
/// key/value line with the same key and the new value.
proof fn lemma_rendered_kv(c: Seq<char>, v: Seq<char>)
    requires
        kv_line(c) is Some,
        !v.contains('"'),
    ensures
        ({
            let (k, vs, ve) = kv_line(c)->Some_0;
            kv_entry(c.subrange(0, vs) + v + c.subrange(ve, c.len() as int)) == Some((k, v))
        }),
{
    let (k, vs, ve) = kv_line(c)->Some_0;
    lemma_kv_line_bounds(c);
    let d = c.subrange(0, vs) + v + c.subrange(ve, c.len() as int);
    let m = v.len() as int;
    assert forall|q: int| 0 <= q < vs implies c[q] == d[q] by {}
    let i = skip_ascii_ws(c, 0);
    lemma_skip_ascii_ws_bounds(c, 0);
    let ks = i + 1;
    let ke = next_index_of(c, ks, '"');
    lemma_next_index_of_bounds(c, ks, '"');
    lemma_skip_ascii_ws_bounds(c, ke + 1);
    let j = skip_ascii_ws(c, ke + 1);
    assert(vs == j + 1);
    lemma_skip_same(c, d, 0, vs);
    lemma_next_same(c, d, ks, '"', vs);
    lemma_skip_same(c, d, ke + 1, vs);
    assert(d[j] == '"');
    assert forall|q: int| vs <= q < vs + m implies d[q] != '"' by {
        assert(d[q] == v[q - vs]);
        if v[q - vs] == '"' {
            assert(v.contains('"'));
        }
    }
    lemma_next_index_after(d, vs, m, '"');
    lemma_next_index_of_bounds(c, vs, '"');
    assert(d[vs + m] == c[ve]);
    assert(next_index_of(d, vs, '"') == vs + m);
    assert forall|q: int| vs + m + 1 <= q < d.len() implies is_ws(#[trigger] d[q]) by {
        assert(d[q] == c[q - vs - m + ve]);
        assert(is_ws(c[q - vs - m + ve]));
    }
    assert(d.subrange(ks, ke) =~= c.subrange(ks, ke));
    assert(d.subrange(vs, vs + m) =~= v);
}

} // verus!

verus! {

/// A line as it is written back (see [`render_line`]), as content and
/// terminator.
pub open spec fn rendered_pair(l: (Seq<char>, Seq<char>), es: Seq<(Seq<char>, Seq<char>)>) -> (
    Seq<char>,
    Seq<char>,
) {
    match kv_line(l.0) {
        Some((k, vs, ve)) => match lookup(es, k) {
            Some(v) => (l.0.subrange(0, vs) + v + l.0.subrange(ve, l.0.len() as int), l.1),
            None => l,
        },
        None => l,
    }
}

pub open spec fn render_pairs(
    ls: Seq<(Seq<char>, Seq<char>)>,
    es: Seq<(Seq<char>, Seq<char>)>,
) -> Seq<(Seq<char>, Seq<char>)> {
    ls.map_values(|l: (Seq<char>, Seq<char>)| rendered_pair(l, es))
}

/// The lines written for the settings whose key is not among `keys`.
pub open spec fn added_pairs(es: Seq<(Seq<char>, Seq<char>)>, keys: Seq<Seq<char>>) -> Seq<
    (Seq<char>, Seq<char>),
>
    decreases es.len(),
{
    if es.len() == 0 {
        seq![]
    } else if keys.contains(es.last().0) {
        added_pairs(es.drop_last(), keys)
    } else {
        added_pairs(es.drop_last(), keys).push((added_content(es.last().0, es.last().1), seq!['\n']))
    }
}

proof fn lemma_contains_push<A>(s: Seq<A>, x: A, k: A)
    ensures
        s.push(x).contains(k) == (s.contains(k) || x == k),
{
    if s.push(x).contains(k) {
        let i = choose|i: int| 0 <= i < s.push(x).len() && s.push(x)[i] == k;
        if i < s.len() {
            assert(s[i] == k);
        }
    }
    if s.contains(k) {
        let i = choose|i: int| 0 <= i < s.len() && s[i] == k;
        assert(s.push(x)[i] == k);
    }
    if x == k {
        assert(s.push(x)[s.len() as int] == k);
    }
}

proof fn lemma_parsed_concat(a: Seq<(Seq<char>, Seq<char>)>, b: Seq<(Seq<char>, Seq<char>)>, k: Seq<char>)
    ensures
        parsed_value(a + b, k) == match parsed_value(b, k) {
            Some(x) => Some(x),
            None => parsed_value(a, k),
        },
    decreases b.len(),
{
    if b.len() == 0 {
        assert(a + b =~= a);
    } else {
        assert((a + b).drop_last() =~= a + b.drop_last());
        assert((a + b).last() == b.last());
        lemma_parsed_concat(a, b.drop_last(), k);
    }
}

proof fn lemma_kv_keys_concat(a: Seq<(Seq<char>, Seq<char>)>, b: Seq<(Seq<char>, Seq<char>)>)
    ensures
        kv_keys(a + b) == kv_keys(a) + kv_keys(b),
    decreases b.len(),
{
    if b.len() == 0 {
        assert(a + b =~= a);
        assert(kv_keys(a) + kv_keys(b) =~= kv_keys(a));
    } else {
        assert((a + b).drop_last() =~= a + b.drop_last());
        assert((a + b).last() == b.last());
        lemma_kv_keys_concat(a, b.drop_last());
        match kv_line(b.last().0) {
            Some((k, vs, ve)) => {
                assert(kv_keys(a) + kv_keys(b) =~= (kv_keys(a) + kv_keys(b.drop_last())).push(k));
            },
            None => {},
        }
    }
}

/// The value first stored for `k` after one more entry.
proof fn lemma_lookup_push(s: Seq<(Seq<char>, Seq<char>)>, x: (Seq<char>, Seq<char>), k: Seq<char>)
    ensures
        lookup(s.push(x), k) == match lookup(s, k) {
            Some(v) => Some(v),
            None => if x.0 == k {
                Some(x.1)
            } else {
                None
            },
        },
    decreases s.len(),
{
    if s.len() > 0 {
        assert(s.push(x)[0] == s[0]);
        assert(s.push(x).drop_first() =~= s.drop_first().push(x));
        lemma_lookup_push(s.drop_first(), x, k);
        if s[0].0 == k {
            assert(lookup(s.push(x), k) == Some(s[0].1));
            assert(lookup(s, k) == Some(s[0].1));
        } else {
            assert(lookup(s.push(x), k) == lookup(s.drop_first().push(x), k));
            assert(lookup(s, k) == lookup(s.drop_first(), k));
        }
    } else {
        assert(s.push(x) =~= seq![x]);
        assert(seq![x].drop_first() =~= Seq::<(Seq<char>, Seq<char>)>::empty());
        assert(lookup(Seq::<(Seq<char>, Seq<char>)>::empty(), k) is None);
        assert(lookup(s, k) is None);
        assert(seq![x][0] == x);
    }
}

proof fn lemma_lookup_absent(s: Seq<(Seq<char>, Seq<char>)>, k: Seq<char>)
    requires
        forall|i: int| 0 <= i < s.len() ==> (#[trigger] s[i]).0 != k,
    ensures
        lookup(s, k) is None,
    decreases s.len(),
{
    if s.len() > 0 {
        assert forall|i: int| 0 <= i < s.drop_first().len() implies (#[trigger] s.drop_first()[i]).0 != k by {
            assert(s.drop_first()[i] == s[i + 1]);
        }
        lemma_lookup_absent(s.drop_first(), k);
    }
}

/// With keys ascending, every key comes before the last one.
proof fn lemma_ascending_below_last(es: Seq<(Seq<char>, Seq<char>)>, i: int)
    requires
        keys_ascending(es),
        0 <= i < es.len() - 1,
    ensures
        seq_lt(es[i].0, es.last().0),
    decreases es.len() - 1 - i,
{
    if i < es.len() - 2 {
        lemma_ascending_below_last(es, i + 1);
        lemma_seq_lt_transitive(es[i].0, es[i + 1].0, es.last().0);
    }
}

/// What the settings' own lines give: each new line reads back as its
/// setting.
proof fn lemma_added_parsed(es: Seq<(Seq<char>, Seq<char>)>, keys: Seq<Seq<char>>, k: Seq<char>)
    requires
        keys_ascending(es),
        forall|i: int|
            0 <= i < es.len() ==> {
                &&& (#[trigger] es[i]).0.len() > 0
                &&& !es[i].0.contains('"')
                &&& !es[i].1.contains('"')
            },
    ensures
        parsed_value(added_pairs(es, keys), k) == if keys.contains(k) {
            None
        } else {
            lookup(es, k)
        },
    decreases es.len(),
{
    if es.len() == 0 {
    } else {
        let d = es.drop_last();
        let x = es.last();
        assert(keys_ascending(d)) by {
            assert forall|i: int| 0 <= i && i + 1 < d.len() implies seq_lt(#[trigger] d[i].0, d[i + 1].0) by {
                assert(d[i] == es[i] && d[i + 1] == es[i + 1]);
            }
        }
        assert forall|i: int| 0 <= i < d.len() implies {
            &&& (#[trigger] d[i]).0.len() > 0
            &&& !d[i].0.contains('"')
            &&& !d[i].1.contains('"')
        } by {
            assert(d[i] == es[i]);
        }
        lemma_added_parsed(d, keys, k);
        assert(es =~= d.push(x));
        lemma_lookup_push(d, x, k);
        assert(lookup(d, x.0) is None) by {
            assert forall|i: int| 0 <= i < d.len() implies (#[trigger] d[i]).0 != x.0 by {
                assert(d[i] == es[i]);
                lemma_ascending_below_last(es, i);
                lemma_seq_lt_irreflexive(x.0);
            }
            lemma_lookup_absent(d, x.0);
        }
        assert(x == es[es.len() - 1]);
        if keys.contains(x.0) {
            assert(added_pairs(es, keys) == added_pairs(d, keys));
            if !keys.contains(k) {
                assert(x.0 != k);
                assert(lookup(es, k) == lookup(d, k));
            }
        } else {
            lemma_added_content_kv(x.0, x.1);
            let line = (added_content(x.0, x.1), seq!['\n']);
            assert(added_pairs(es, keys) == added_pairs(d, keys).push(line));
            assert(added_pairs(d, keys).push(line).drop_last() =~= added_pairs(d, keys));
            assert(added_pairs(d, keys).push(line).last() == line);
            if x.0 == k {
                assert(!keys.contains(k));
                assert(lookup(es, k) == Some(x.1));
                assert(parsed_value(added_pairs(es, keys), k) == Some(x.1));
            } else {
                assert(parsed_value(added_pairs(es, keys), k) == parsed_value(added_pairs(d, keys), k));
                if !keys.contains(k) {
                    assert(lookup(es, k) == lookup(d, k));
                }
            }
        }
    }
}

/// What the rewritten lines give for `k`: the new value wherever a line
/// had the key, and otherwise what they gave before.
proof fn lemma_render_parsed(ls: Seq<(Seq<char>, Seq<char>)>, es: Seq<(Seq<char>, Seq<char>)>, k: Seq<char>)
    requires
        forall|k2: Seq<char>| #[trigger] lookup(es, k2) matches Some(v) ==> !v.contains('"'),
    ensures
        parsed_value(render_pairs(ls, es), k) == match lookup(es, k) {
            Some(v) => if kv_keys(ls).contains(k) {
                Some(v)
            } else {
                None
            },
            None => parsed_value(ls, k),
        },
    decreases ls.len(),
{
    if ls.len() == 0 {
    } else {
        let d = ls.drop_last();
        let l = ls.last();
        lemma_render_parsed(d, es, k);
        assert(render_pairs(ls, es).drop_last() =~= render_pairs(d, es));
        assert(render_pairs(ls, es).last() == rendered_pair(l, es));
        match kv_line(l.0) {
            Some((k2, vs, ve)) => {
                lemma_contains_push(kv_keys(d), k2, k);
                match lookup(es, k2) {
                    Some(v2) => {
                        lemma_rendered_kv(l.0, v2);
                    },
                    None => {},
                }
            },
            None => {},
        }
    }
}

} // verus!

verus! {

proof fn lemma_lookup_in(es: Seq<(Seq<char>, Seq<char>)>, k: Seq<char>)
    ensures
        lookup(es, k) matches Some(v) ==> exists|i: int| 0 <= i < es.len() && (#[trigger] es[i]).1 == v,
    decreases es.len(),
{
    if es.len() > 0 && es[0].0 != k {
        lemma_lookup_in(es.drop_first(), k);
        if lookup(es, k) is Some {
            let i = choose|i: int| 0 <= i < es.drop_first().len() && (#[trigger] es.drop_first()[i]).1 == lookup(es, k)->Some_0;
            assert(es[i + 1] == es.drop_first()[i]);
        }
    }
}

proof fn lemma_contains_concat<A>(a: Seq<A>, b: Seq<A>, x: A)
    ensures
        (a + b).contains(x) == (a.contains(x) || b.contains(x)),
{
    if (a + b).contains(x) {
        let i = choose|i: int| 0 <= i < (a + b).len() && (a + b)[i] == x;
        if i < a.len() {
            assert(a[i] == x);
        } else {
            assert(b[i - a.len()] == x);
        }
    }
    if a.contains(x) {
        let i = choose|i: int| 0 <= i < a.len() && a[i] == x;
        assert((a + b)[i] == x);
    }
    if b.contains(x) {
        let i = choose|i: int| 0 <= i < b.len() && b[i] == x;
        assert((a + b)[a.len() + i] == x);
    }
}

proof fn lemma_lines_ok_concat(a: Seq<(Seq<char>, Seq<char>)>, b: Seq<(Seq<char>, Seq<char>)>)
    requires
        lines_ok(a),
        lines_ok(b),
        a.len() > 0 && b.len() > 0 ==> a.last().1.len() > 0,
    ensures
        lines_ok(a + b),
{
    let c = a + b;
    assert forall|i: int| 0 <= i < c.len() implies line_ok(#[trigger] c[i]) by {
        if i < a.len() {
            assert(c[i] == a[i]);
        } else {
            assert(c[i] == b[i - a.len()]);
        }
    }
    assert forall|i: int| 0 <= i < c.len() - 1 implies (#[trigger] c[i]).1.len() > 0 by {
        if i < a.len() - 1 {
            assert(c[i] == a[i]);
        } else if i == a.len() - 1 {
            assert(c[i] == a.last());
        } else {
            assert(c[i] == b[i - a.len()]);
        }
    }
    if c.len() > 0 {
        if b.len() > 0 {
            assert(c.last() == b.last());
        } else {
            assert(c.last() == a.last());
        }
    }
}

proof fn lemma_lines_ok_take_skip(ls: Seq<(Seq<char>, Seq<char>)>, p: int)
    requires
        lines_ok(ls),
        0 <= p <= ls.len(),
    ensures
        lines_ok(ls.take(p)),
        lines_ok(ls.skip(p)),
{
    let t = ls.take(p);
    let u = ls.skip(p);
    assert forall|i: int| 0 <= i < t.len() implies line_ok(#[trigger] t[i]) by {
        assert(t[i] == ls[i]);
    }
    assert forall|i: int| 0 <= i < t.len() - 1 implies (#[trigger] t[i]).1.len() > 0 by {
        assert(t[i] == ls[i]);
    }
    if t.len() > 0 {
        assert(t.last() == ls[p - 1]);
        if p - 1 < ls.len() - 1 {
            assert(ls[p - 1].1.len() > 0);
        } else {
            assert(ls[p - 1] == ls.last());
        }
    }
    assert forall|i: int| 0 <= i < u.len() implies line_ok(#[trigger] u[i]) by {
        assert(u[i] == ls[p + i]);
    }
    assert forall|i: int| 0 <= i < u.len() - 1 implies (#[trigger] u[i]).1.len() > 0 by {
        assert(u[i] == ls[p + i]);
    }
    if u.len() > 0 {
        assert(u.last() == ls.last());
    }
}

proof fn lemma_render_ok(ls: Seq<(Seq<char>, Seq<char>)>, es: Seq<(Seq<char>, Seq<char>)>)
    requires
        lines_ok(ls),
        forall|k2: Seq<char>| #[trigger] lookup(es, k2) matches Some(v) ==> !v.contains('\n'),
    ensures
        lines_ok(render_pairs(ls, es)),
        forall|i: int| 0 <= i < ls.len() ==> (#[trigger] render_pairs(ls, es)[i]).1 == ls[i].1,
{
    let r = render_pairs(ls, es);
    assert forall|i: int| 0 <= i < ls.len() implies line_ok(#[trigger] r[i]) && r[i].1 == ls[i].1 && joined(r[i]).len() >= joined(ls[i]).len() - ls[i].0.len() + (if ls[i].0.len() > 0 { 1int } else { 0int }) by {
        let l = ls[i];
        assert(line_ok(l));
        match kv_line(l.0) {
            Some((k, vs, ve)) => {
                lemma_kv_line_bounds(l.0);
                match lookup(es, k) {
                    Some(v) => {
                        let c = l.0.subrange(0, vs) + v + l.0.subrange(ve, l.0.len() as int);
                        assert(!c.contains('\n')) by {
                            if c.contains('\n') {
                                let q = choose|q: int| 0 <= q < c.len() && c[q] == '\n';
                                if q < vs {
                                    assert(l.0[q] == '\n');
                                    assert(l.0.contains('\n'));
                                } else if q < vs + v.len() {
                                    assert(v[q - vs] == '\n');
                                    assert(v.contains('\n'));
                                } else {
                                    assert(l.0[q - vs - v.len() + ve] == '\n');
                                    assert(l.0.contains('\n'));
                                }
                            }
                        }
                        assert(c.last() == l.0.last());
                    },
                    None => {},
                }
            },
            None => {},
        }
    }
    assert forall|i: int| 0 <= i < r.len() - 1 implies (#[trigger] r[i]).1.len() > 0 by {
        assert(r[i].1 == ls[i].1);
    }
    if r.len() > 0 {
        let l = ls.last();
        assert(r.last() == r[ls.len() - 1]);
        assert(joined(l).len() > 0);
        match kv_line(l.0) {
            Some((k, vs, ve)) => {
                lemma_kv_line_bounds(l.0);
            },
            None => {},
        }
    }
}

proof fn lemma_added_ok(es: Seq<(Seq<char>, Seq<char>)>, keys: Seq<Seq<char>>)
    requires
        forall|i: int| 0 <= i < es.len() ==> !(#[trigger] es[i]).0.contains('\n') && !es[i].1.contains('\n'),
    ensures
        lines_ok(added_pairs(es, keys)),
        forall|i: int| 0 <= i < added_pairs(es, keys).len() ==> (#[trigger] added_pairs(es, keys)[i]).1.len() > 0,
        added_lines(es, keys) == concat_all(pieces(added_pairs(es, keys))),
        added_pairs(es, keys).len() > 0 ==> added_lines(es, keys).len() > 0,
    decreases es.len(),
{
    if es.len() == 0 {
        assert(pieces(added_pairs(es, keys)) =~= Seq::<Seq<char>>::empty());
    } else {
        let d = es.drop_last();
        let x = es.last();
        assert forall|i: int| 0 <= i < d.len() implies !(#[trigger] d[i]).0.contains('\n') && !d[i].1.contains('\n') by {
            assert(d[i] == es[i]);
        }
        lemma_added_ok(d, keys);
        assert(x == es[es.len() - 1]);
        if !keys.contains(x.0) {
            let c = added_content(x.0, x.1);
            let line = (c, seq!['\n']);
            let a = added_pairs(d, keys);
            assert(added_pairs(es, keys) == a.push(line));
            assert(!c.contains('\n')) by {
                if c.contains('\n') {
                    let q = choose|q: int| 0 <= q < c.len() && c[q] == '\n';
                    if 2 <= q < 2 + x.0.len() {
                        assert(x.0[q - 2] == '\n');
                        assert(x.0.contains('\n'));
                    } else if 6 + x.0.len() <= q < 6 + x.0.len() + x.1.len() {
                        assert(x.1[q - 6 - x.0.len()] == '\n');
                        assert(x.1.contains('\n'));
                    }
                }
            }
            assert(line_ok(line));
            lemma_lines_ok_concat(a, seq![line]);
            assert(a + seq![line] =~= a.push(line));
            assert forall|i: int| 0 <= i < a.push(line).len() implies (#[trigger] a.push(line)[i]).1.len() > 0 by {
                if i < a.len() {
                    assert(a.push(line)[i] == a[i]);
                }
            }
            assert(pieces(a.push(line)) =~= pieces(a).push(joined(line)));
            assert(pieces(a).push(joined(line)).drop_last() =~= pieces(a));
            assert(joined(line) =~= setting_line(x.0, x.1));
        } else {
            assert(added_lines(es, keys) =~= added_lines(d, keys));
        }
    }
}

proof fn lemma_concat_all_last(ps: Seq<Seq<char>>)
    ensures
        ps.len() == 0 ==> concat_all(ps).len() == 0,
        ps.len() > 0 && ps.last().len() > 0 ==> concat_all(ps).len() > 0 && concat_all(ps).last()
            == ps.last().last(),
{
    if ps.len() > 0 {
        assert(concat_all(ps) == concat_all(ps.drop_last()) + ps.last());
    }
}

/// What is read from lines depends on their contents only.
proof fn lemma_parsed_same_contents(a: Seq<(Seq<char>, Seq<char>)>, b: Seq<(Seq<char>, Seq<char>)>, k: Seq<char>)
    requires
        a.len() == b.len(),
        forall|i: int| 0 <= i < a.len() ==> (#[trigger] a[i]).0 == b[i].0,
    ensures
        parsed_value(a, k) == parsed_value(b, k),
    decreases a.len(),
{
    if a.len() > 0 {
        assert(a.last().0 == b.last().0);
        lemma_parsed_same_contents(a.drop_last(), b.drop_last(), k);
    }
}

/// The first `p` of well-formed lines `r`, with the last of them ended by
/// the break written before new lines `added` when it has none: their
/// contents are those of `r`, and put back together they give the text
/// before the new lines, break included.
#[verifier::rlimit(30)]
proof fn lemma_ended_lines(r: Seq<(Seq<char>, Seq<char>)>, p: int, added: Seq<char>) -> (t2: Seq<
    (Seq<char>, Seq<char>),
>)
    requires
        lines_ok(r),
        0 <= p <= r.len(),
    ensures
        concat_all(pieces(t2)) == concat_all(pieces(r.take(p))) + break_before(
            concat_all(pieces(r.take(p))),
            added,
        ),
        lines_ok(t2),
        t2.len() == p,
        forall|i: int| 0 <= i < p ==> (#[trigger] t2[i]).0 == r[i].0,
        p > 0 && (added.len() > 0 || p < r.len()) ==> t2.last().1.len() > 0,
{
    let t = r.take(p);
    let before = concat_all(pieces(t));
    let brk = break_before(before, added);
    lemma_concat_all_last(pieces(t));
    if t.len() > 0 {
        assert(t.last() == r[p - 1]);
        assert(pieces(t).last() == joined(r[p - 1]));
        assert(line_ok(r[p - 1]));
        if r[p - 1].1.len() == 0 {
            assert(p - 1 == r.len() - 1) by {
                if p - 1 < r.len() - 1 {
                    assert(r[p - 1].1.len() > 0);
                }
            }
            assert(r.last() == r[p - 1]);
            assert(joined(r[p - 1]) =~= r[p - 1].0);
        } else {
            assert(joined(r[p - 1]).last() == '\n');
        }
    }
    assert(lines_ok(t)) by {
        assert forall|i: int| 0 <= i < t.len() implies line_ok(#[trigger] t[i]) by {
            assert(t[i] == r[i]);
        }
        assert forall|i: int| 0 <= i < t.len() - 1 implies (#[trigger] t[i]).1.len() > 0 by {
            assert(t[i] == r[i]);
        }
        if t.len() > 0 && t.len() < r.len() {
            assert(r[p - 1].1.len() > 0);
        }
    }
    if brk.len() > 0 {
        let c = t.last().0;
        let t2 = t.drop_last().push((c, brk));
        assert(c.last() == before.last());
        assert(line_ok((c, brk)));
        assert(pieces(t2) =~= pieces(t.drop_last()).push(c + brk));
        assert(pieces(t2).drop_last() =~= pieces(t.drop_last()));
        assert(pieces(t).drop_last() =~= pieces(t.drop_last()));
        assert(pieces(t).last() =~= c);
        assert(concat_all(pieces(t2)) =~= before + brk);
        assert forall|i: int| 0 <= i < t2.len() implies line_ok(#[trigger] t2[i]) by {
            if i < t2.len() - 1 {
                assert(t2[i] == t[i]);
            }
        }
        assert forall|i: int| 0 <= i < t2.len() - 1 implies (#[trigger] t2[i]).1.len() > 0 by {
            assert(t2[i] == t[i]);
        }
        assert forall|i: int| 0 <= i < p implies (#[trigger] t2[i]).0 == r[i].0 by {
            if i < p - 1 {
                assert(t2[i] == t[i]);
            }
        }
        assert(t2.last() == (c, brk));
        t2
    } else {
        assert(brk =~= Seq::<char>::empty());
        assert(before + brk =~= before);
        if p > 0 && added.len() > 0 {
            if r[p - 1].1.len() == 0 {
                assert(before.last() == r[p - 1].0.last());
                assert(r[p - 1].0.contains('\n'));
            }
        }
        t
    }
}

/// The lines of a rewritten text: the rendered lines up to the insertion
/// point (the last of them ended), the added settings, then the rest.
#[verifier::rlimit(40)]
proof fn lemma_rewritten_lines(text: Seq<char>, es: Seq<(Seq<char>, Seq<char>)>) -> (t2: Seq<(Seq<char>, Seq<char>)>)
    requires
        keys_ascending(es),
        forall|i: int|
            0 <= i < es.len() ==> {
                &&& (#[trigger] es[i]).0.len() > 0
                &&& !es[i].0.contains('"')
                &&& !es[i].0.contains('\n')
                &&& !es[i].1.contains('"')
                &&& !es[i].1.contains('\n')
            },
    ensures
        ({
            let ls = lines_of(text);
            let r = render_pairs(ls, es);
            let p = insert_pos(ls);
            &&& 0 <= p <= ls.len()
            &&& r.len() == ls.len()
            &&& t2.len() == p
            &&& forall|i: int| 0 <= i < p ==> (#[trigger] t2[i]).0 == r[i].0
            &&& lines_of(rewritten(text, es)) == t2 + added_pairs(es, kv_keys(ls)) + r.skip(p)
        }),
{
    let ls = lines_of(text);
    lemma_lines_of_ok(text);
    assert forall|k2: Seq<char>| #[trigger] lookup(es, k2) matches Some(v) ==> !v.contains('"') && !v.contains('\n') by {
        lemma_lookup_in(es, k2);
        if lookup(es, k2) is Some {
            let i = choose|i: int| 0 <= i < es.len() && (#[trigger] es[i]).1 == lookup(es, k2)->Some_0;
        }
    }
    let r = render_pairs(ls, es);
    lemma_render_ok(ls, es);
    let p = insert_pos(ls);
    lemma_last_kv_bounds(ls);
    let keys = kv_keys(ls);
    let a = added_pairs(es, keys);
    lemma_added_ok(es, keys);
    let t = r.take(p);
    let u = r.skip(p);
    let rs = render_lines(ls, es);
    assert(rs =~= pieces(r));
    assert(rs.take(p) =~= pieces(t));
    assert(rs.skip(p) =~= pieces(u));
    let added = added_lines(es, keys);
    lemma_lines_ok_take_skip(r, p);
    let t2 = lemma_ended_lines(r, p, added);
    let lines = t2 + a + u;
    assert(pieces(lines) =~= pieces(t2) + pieces(a) + pieces(u));
    lemma_concat_all_append(pieces(t2) + pieces(a), pieces(u));
    lemma_concat_all_append(pieces(t2), pieces(a));
    assert(rewritten(text, es) == concat_all(pieces(lines)));
    // They are well formed, so they are the lines of the rewritten text.
    lemma_lines_ok_concat(t2, a);
    if u.len() > 0 && (t2 + a).len() > 0 {
        if a.len() > 0 {
            assert((t2 + a).last() == a.last());
            assert(a.last() == a[a.len() - 1]);
        } else {
            assert((t2 + a).last() == t2.last());
        }
    }
    lemma_lines_ok_concat(t2 + a, u);
    lemma_lines_of_joined(Seq::<char>::empty(), lines);
    assert(Seq::<char>::empty() + concat_all(pieces(lines)) =~= concat_all(pieces(lines)));
    t2
}

/// Reading back what was written: after `text` is rewritten with settings
/// `es`, every setting reads back as its new value and every other key as
/// it read before. This holds for settings whose keys are not empty, and
/// whose keys and values hold no double quote and no line feed.
#[verifier::rlimit(40)]
pub proof fn lemma_rewrite_reads_back(text: Seq<char>, es: Seq<(Seq<char>, Seq<char>)>, k: Seq<char>)
    requires
        keys_ascending(es),
        forall|i: int|
            0 <= i < es.len() ==> {
                &&& (#[trigger] es[i]).0.len() > 0
                &&& !es[i].0.contains('"')
                &&& !es[i].0.contains('\n')
                &&& !es[i].1.contains('"')
                &&& !es[i].1.contains('\n')
            },
    ensures
        parsed_value(lines_of(rewritten(text, es)), k) == match lookup(es, k) {
            Some(v) => Some(v),
            None => parsed_value(lines_of(text), k),
        },
{
    let ls = lines_of(text);
    lemma_lines_of_ok(text);
    assert forall|k2: Seq<char>| #[trigger] lookup(es, k2) matches Some(v) ==> !v.contains('"') && !v.contains('\n') by {
        lemma_lookup_in(es, k2);
        if lookup(es, k2) is Some {
            let i = choose|i: int| 0 <= i < es.len() && (#[trigger] es[i]).1 == lookup(es, k2)->Some_0;
        }
    }
    let t2 = lemma_rewritten_lines(text, es);
    let r = render_pairs(ls, es);
    let p = insert_pos(ls);
    let keys = kv_keys(ls);
    let a = added_pairs(es, keys);
    let t = r.take(p);
    let u = r.skip(p);
    assert forall|i: int| 0 <= i < t.len() implies (#[trigger] t[i]).0 == t2[i].0 by {
        assert(t[i] == r[i]);
    }
    lemma_parsed_same_contents(t, t2, k);
    // What each part gives for `k`.
    lemma_parsed_concat(t2 + a, u, k);
    lemma_parsed_concat(t2, a, k);
    assert(t =~= render_pairs(ls.take(p), es));
    assert(u =~= render_pairs(ls.skip(p), es));
    lemma_render_parsed(ls.take(p), es, k);
    lemma_render_parsed(ls.skip(p), es, k);
    lemma_added_parsed(es, keys, k);
    assert(ls =~= ls.take(p) + ls.skip(p));
    lemma_kv_keys_concat(ls.take(p), ls.skip(p));
    lemma_contains_concat(kv_keys(ls.take(p)), kv_keys(ls.skip(p)), k);
    lemma_parsed_concat(ls.take(p), ls.skip(p), k);
}

/// What `rewrite_video_settings` writes, `parse_video_settings` reads
/// back: after `text` is rewritten with well-formed settings `s`, every
/// setting in `s` reads back as its value and every other key as it read
/// in `text`. This holds for settings whose keys are not empty, and whose
/// keys and values hold no double quote and no line feed.
pub proof fn lemma_video_settings_read_back(text: Seq<char>, s: VideoSettings, k: Seq<char>)
    requires
        s.wf(),
        forall|i: int|
            0 <= i < s.entries_view().len() ==> {
                &&& (#[trigger] s.entries_view()[i]).0.len() > 0
                &&& !s.entries_view()[i].0.contains('"')
                &&& !s.entries_view()[i].0.contains('\n')
                &&& !s.entries_view()[i].1.contains('"')
                &&& !s.entries_view()[i].1.contains('\n')
            },
    ensures
        parsed_value(lines_of(rewritten(text, s.entries_view())), k) == match s.spec_get(k) {
            Some(v) => Some(v),
            None => parsed_value(lines_of(text), k),
        },
{
    lemma_rewrite_reads_back(text, s.entries_view(), k);
}

} // verus!
