//! Character-level text helpers shared by every module that reads or
//! produces launch options, configuration text or report strings.
//!
//! Text is handled as sequences of `char`s: a `&str`/`String` is viewed as
//! its `Seq<char>`, whitespace splitting and joining are specified over that
//! view, and results are turned back into a `String` at the end.

use vstd::prelude::*;

verus! {

broadcast use vstd::string::group_string_axioms;

/// Views a vector of character vectors as a sequence of character sequences.
pub open spec fn view_words(v: Seq<Vec<char>>) -> Seq<Seq<char>> {
    v.map_values(|w: Vec<char>| w@)
}

/// Copies the characters of `s` into a vector.
pub fn chars_of(s: &str) -> (v: Vec<char>)
    ensures
        v@ == s@,
{
    let mut v: Vec<char> = Vec::new();
    for c in it: s.chars()
        invariant
            v@ == it.seq().take(it.index() as int),
            it.seq() == s@,
    {
        v.push(c);
    }
    v
}

/// Builds a `String` whose characters are exactly `v`
/// (std's `FromIterator<&char>` for `String`).
#[verifier::external_body]
pub fn string_from_chars(v: &Vec<char>) -> (s: String)
    ensures
        s@ == v@,
{
    String::from_iter(v.iter())
}

/// Appends the characters of `s` to `out`.
pub fn push_str(out: &mut Vec<char>, s: &str)
    ensures
        final(out)@ == old(out)@ + s@,
{
    let v = chars_of(s);
    push_chars(out, &v);
}

/// Appends the characters of `v` to `out`.
pub fn push_chars(out: &mut Vec<char>, v: &Vec<char>)
    ensures
        final(out)@ == old(out)@ + v@,
{
    let ghost start = out@;
    let mut i: usize = 0;
    while i < v.len()
        invariant
            i <= v.len(),
            out@ == start + v@.take(i as int),
        decreases v.len() - i,
    {
        out.push(v[i]);
        i += 1;
        assert(v@.take(i as int) == v@.take(i - 1).push(v@[i - 1]));
    }
    assert(v@.take(v.len() as int) == v@);
}

/// Unicode `White_Space`: the characters `char::is_whitespace` accepts.
pub open spec fn is_ws(c: char) -> bool {
    let u = c as u32;
    ||| 0x9 <= u <= 0xd
    ||| u == 0x20
    ||| u == 0x85
    ||| u == 0xa0
    ||| u == 0x1680
    ||| 0x2000 <= u <= 0x200a
    ||| u == 0x2028
    ||| u == 0x2029
    ||| u == 0x202f
    ||| u == 0x205f
    ||| u == 0x3000
}

/// Whether `c` is Unicode whitespace.
pub fn is_whitespace(c: char) -> (b: bool)
    ensures
        b == is_ws(c),
{
    let u = c as u32;
    (0x9 <= u && u <= 0xd) || u == 0x20 || u == 0x85 || u == 0xa0 || u == 0x1680 || (0x2000 <= u
        && u <= 0x200a) || u == 0x2028 || u == 0x2029 || u == 0x202f || u == 0x205f || u == 0x3000
}

/// ASCII whitespace as `u8::is_ascii_whitespace` / `char::is_ascii_whitespace`
/// define it: space, tab, line feed, form feed, carriage return.
pub open spec fn is_ascii_ws(c: char) -> bool {
    c == ' ' || c == '\t' || c == '\n' || c == '\x0C' || c == '\r'
}

pub fn is_ascii_whitespace(c: char) -> (b: bool)
    ensures
        b == is_ascii_ws(c),
{
    c == ' ' || c == '\t' || c == '\n' || c == '\x0C' || c == '\r'
}

/// The words of `s` from position `i` on, given the words `acc` already
/// complete and the word `cur` in progress: whitespace ends a word, and
/// empty words are never produced.
pub open spec fn words_from(s: Seq<char>, i: int, acc: Seq<Seq<char>>, cur: Seq<char>) -> Seq<
    Seq<char>,
>
    decreases s.len() - i,
{
    if i >= s.len() {
        if cur.len() > 0 {
            acc.push(cur)
        } else {
            acc
        }
    } else if is_ws(s[i]) {
        words_from(s, i + 1, if cur.len() > 0 { acc.push(cur) } else { acc }, seq![])
    } else {
        words_from(s, i + 1, acc, cur.push(s[i]))
    }
}

/// The maximal runs of non-whitespace characters of `s`, in order
/// (what `str::split_whitespace` yields).
pub open spec fn words(s: Seq<char>) -> Seq<Seq<char>> {
    words_from(s, 0, seq![], seq![])
}

/// A word as `words` produces it: non-empty, without whitespace.
pub open spec fn is_word(w: Seq<char>) -> bool {
    w.len() > 0 && forall|j: int| 0 <= j < w.len() ==> !is_ws(#[trigger] w[j])
}

pub open spec fn all_words(ws: Seq<Seq<char>>) -> bool {
    forall|k: int| 0 <= k < ws.len() ==> is_word(#[trigger] ws[k])
}

/// `ws` joined with `sep` between consecutive elements.
pub open spec fn join(ws: Seq<Seq<char>>, sep: Seq<char>) -> Seq<char>
    decreases ws.len(),
{
    if ws.len() == 0 {
        seq![]
    } else if ws.len() == 1 {
        ws[0]
    } else {
        ws[0] + sep + join(ws.drop_first(), sep)
    }
}

/// `ws` joined by single spaces.
pub open spec fn unwords(ws: Seq<Seq<char>>) -> Seq<char> {
    join(ws, seq![' '])
}

/// Splits `s` into its whitespace-separated words.
pub fn split_words(s: &Vec<char>) -> (ws: Vec<Vec<char>>)
    ensures
        view_words(ws@) == words(s@),
{
    let mut acc: Vec<Vec<char>> = Vec::new();
    let mut cur: Vec<char> = Vec::new();
    let mut i: usize = 0;
    assert(view_words(acc@) =~= Seq::<Seq<char>>::empty());
    while i < s.len()
        invariant
            i <= s.len(),
            words(s@) == words_from(s@, i as int, view_words(acc@), cur@),
        decreases s.len() - i,
    {
        let c = s[i];
        if is_whitespace(c) {
            if cur.len() > 0 {
                let ghost before = acc@;
                let w = cur;
                acc.push(w);
                assert(view_words(acc@) =~= view_words(before).push(w@));
                cur = Vec::new();
            } else {
                cur = Vec::new();
            }
            assert(cur@ == Seq::<char>::empty());
        } else {
            cur.push(c);
        }
        i += 1;
    }
    if cur.len() > 0 {
        let ghost before = acc@;
        acc.push(cur);
        assert(view_words(acc@) =~= view_words(before).push(cur@));
    }
    acc
}

/// Joins `ws` with single spaces.
pub fn join_words(ws: &Vec<Vec<char>>) -> (out: Vec<char>)
    ensures
        out@ == unwords(view_words(ws@)),
{
    let mut out: Vec<char> = Vec::new();
    let mut i: usize = 0;
    while i < ws.len()
        invariant
            i <= ws.len(),
            out@ == unwords(view_words(ws@).take(i as int)),
        decreases ws.len() - i,
    {
        proof {
            lemma_join_take_succ(view_words(ws@), seq![' '], i as int);
        }
        if i > 0 {
            out.push(' ');
        }
        push_chars(&mut out, &ws[i]);
        i += 1;
    }
    assert(view_words(ws@).take(ws.len() as int) =~= view_words(ws@));
    out
}

/// Joining one more element extends the join by a separator and that element.
pub proof fn lemma_join_take_succ(ws: Seq<Seq<char>>, sep: Seq<char>, i: int)
    requires
        0 <= i < ws.len(),
    ensures
        join(ws.take(i + 1), sep) == if i == 0 {
            ws[0]
        } else {
            join(ws.take(i), sep) + sep + ws[i]
        },
    decreases i,
{
    if i == 0 {
        assert(ws.take(1).len() == 1);
        assert(ws.take(1)[0] == ws[0]);
    } else if i == 1 {
        let t2 = ws.take(2);
        assert(t2.drop_first() =~= seq![ws[1]]);
        assert(join(seq![ws[1]], sep) == ws[1]);
        assert(t2[0] == ws[0]);
        assert(join(t2, sep) == ws[0] + sep + ws[1]);
        assert(ws.take(1).len() == 1);
        assert(ws.take(1)[0] == ws[0]);
    } else {
        let t = ws.drop_first();
        lemma_join_take_succ(t, sep, i - 1);
        assert(ws.take(i + 1).drop_first() =~= t.take(i));
        assert(ws.take(i).drop_first() =~= t.take(i - 1));
        assert(t.take(i)[0] == ws[1]);
        assert(ws.take(i + 1)[0] == ws[0]);
        assert(ws.take(i)[0] == ws[0]);
        assert(t[i - 1] == ws[i]);
        let a = ws[0];
        let b = join(t.take(i - 1), sep);
        assert(join(ws.take(i + 1), sep) == a + sep + join(t.take(i), sep));
        assert(join(ws.take(i), sep) == a + sep + b);
        assert(a + sep + (b + sep + ws[i]) =~= (a + sep + b) + sep + ws[i]);
    }
}

} // verus!

verus! {

/// ASCII lower-casing of one character (`char::to_ascii_lowercase`).
pub open spec fn ascii_lower(c: char) -> char {
    if 'A' <= c && c <= 'Z' {
        ((c as u32) + 32) as char
    } else {
        c
    }
}

/// ASCII lower-casing of a character sequence.
pub open spec fn lower(w: Seq<char>) -> Seq<char> {
    w.map_values(|c: char| ascii_lower(c))
}

pub fn to_ascii_lower(c: char) -> (r: char)
    ensures
        r == ascii_lower(c),
{
    if 'A' <= c && c <= 'Z' {
        (((c as u8) + 32) as char)
    } else {
        c
    }
}

/// ASCII lower-cased copy of `w`.
pub fn lower_chars(w: &Vec<char>) -> (r: Vec<char>)
    ensures
        r@ == lower(w@),
{
    let mut r: Vec<char> = Vec::new();
    let mut i: usize = 0;
    while i < w.len()
        invariant
            i <= w.len(),
            r@ =~= lower(w@.take(i as int)),
        decreases w.len() - i,
    {
        r.push(to_ascii_lower(w[i]));
        i += 1;
        assert(lower(w@.take(i as int)) =~= lower(w@.take(i - 1)).push(ascii_lower(w@[i - 1])));
    }
    assert(w@.take(w.len() as int) =~= w@);
    r
}

/// Character-sequence equality.
pub fn chars_eq(a: &Vec<char>, b: &Vec<char>) -> (r: bool)
    ensures
        r == (a@ == b@),
{
    if a.len() != b.len() {
        return false;
    }
    let mut i: usize = 0;
    while i < a.len()
        invariant
            i <= a.len(),
            a.len() == b.len(),
            forall|j: int| 0 <= j < i ==> a@[j] == b@[j],
        decreases a.len() - i,
    {
        if a[i] != b[i] {
            return false;
        }
        i += 1;
    }
    assert(a@ =~= b@);
    true
}

/// Shifting the start of a word scan is the same as scanning the suffix.
pub proof fn lemma_words_from_skip(s: Seq<char>, i: int, acc: Seq<Seq<char>>, cur: Seq<char>)
    requires
        0 <= i <= s.len(),
    ensures
        words_from(s, i, acc, cur) == words_from(s.skip(i), 0, acc, cur),
    decreases s.len() - i,
{
    if i < s.len() {
        let nacc = if cur.len() > 0 {
            acc.push(cur)
        } else {
            acc
        };
        let t = s.skip(i);
        assert(t[0] == s[i]);
        assert(t.skip(1) =~= s.skip(i + 1));
        if is_ws(s[i]) {
            lemma_words_from_skip(s, i + 1, nacc, seq![]);
            lemma_words_from_skip(t, 1, nacc, seq![]);
        } else {
            lemma_words_from_skip(s, i + 1, acc, cur.push(s[i]));
            lemma_words_from_skip(t, 1, acc, cur.push(s[i]));
        }
    }
}

/// A whitespace-free prefix only extends the word in progress.
pub proof fn lemma_words_from_plain_prefix(
    w: Seq<char>,
    r: Seq<char>,
    acc: Seq<Seq<char>>,
    cur: Seq<char>,
)
    requires
        forall|j: int| 0 <= j < w.len() ==> !is_ws(#[trigger] w[j]),
    ensures
        words_from(w + r, 0, acc, cur) == words_from(r, 0, acc, cur + w),
    decreases w.len(),
{
    if w.len() == 0 {
        assert(w + r =~= r);
        assert(cur + w =~= cur);
    } else {
        let s = w + r;
        assert(s[0] == w[0]);
        assert(!is_ws(w[0]));
        lemma_words_from_skip(s, 1, acc, cur.push(w[0]));
        assert(s.skip(1) =~= w.drop_first() + r);
        let w2 = w.drop_first();
        assert forall|j: int| 0 <= j < w2.len() implies !is_ws(#[trigger] w2[j]) by {
            assert(w2[j] == w[j + 1]);
        }
        lemma_words_from_plain_prefix(w2, r, acc, cur.push(w[0]));
        assert(cur.push(w[0]) + w2 =~= cur + w);
    }
}

/// A space ends the word in progress.
pub proof fn lemma_words_from_space(r: Seq<char>, acc: Seq<Seq<char>>, cur: Seq<char>)
    ensures
        words_from(seq![' '] + r, 0, acc, cur) == words_from(
            r,
            0,
            if cur.len() > 0 {
                acc.push(cur)
            } else {
                acc
            },
            seq![],
        ),
{
    let s = seq![' '] + r;
    assert(s[0] == ' ');
    assert(is_ws(' '));
    let nacc = if cur.len() > 0 {
        acc.push(cur)
    } else {
        acc
    };
    lemma_words_from_skip(s, 1, nacc, seq![]);
    assert(s.skip(1) =~= r);
}

/// Splitting a space-joined list of words gives the words back.
pub proof fn lemma_words_of_join(ws: Seq<Seq<char>>, acc: Seq<Seq<char>>)
    requires
        all_words(ws),
    ensures
        words_from(unwords(ws), 0, acc, seq![]) == acc + ws,
    decreases ws.len(),
{
    let sp: Seq<char> = seq![' '];
    if ws.len() == 0 {
        assert(acc + ws =~= acc);
    } else if ws.len() == 1 {
        assert(is_word(ws[0]));
        let e: Seq<char> = seq![];
        lemma_words_from_plain_prefix(ws[0], e, acc, seq![]);
        assert(ws[0] + e =~= ws[0]);
        assert(Seq::<char>::empty() + ws[0] =~= ws[0]);
        assert(acc + ws =~= acc.push(ws[0]));
    } else {
        let rest = ws.drop_first();
        assert(is_word(ws[0]));
        assert(all_words(rest)) by {
            assert forall|k: int| 0 <= k < rest.len() implies is_word(#[trigger] rest[k]) by {
                assert(rest[k] == ws[k + 1]);
            }
        }
        let j = join(rest, sp);
        assert(unwords(ws) == ws[0] + sp + j);
        assert(ws[0] + sp + j =~= ws[0] + (sp + j));
        lemma_words_from_plain_prefix(ws[0], sp + j, acc, seq![]);
        assert(Seq::<char>::empty() + ws[0] =~= ws[0]);
        lemma_words_from_space(j, acc, ws[0]);
        lemma_words_of_join(rest, acc.push(ws[0]));
        assert(acc.push(ws[0]) + rest =~= acc + ws);
    }
}

/// `words(unwords(ws)) == ws` for a list of proper words.
pub proof fn lemma_words_unwords(ws: Seq<Seq<char>>)
    requires
        all_words(ws),
    ensures
        words(unwords(ws)) == ws,
{
    lemma_words_of_join(ws, seq![]);
    assert(Seq::<Seq<char>>::empty() + ws =~= ws);
}

/// Everything `words` produces is a proper word.
pub proof fn lemma_words_from_all_words(s: Seq<char>, i: int, acc: Seq<Seq<char>>, cur: Seq<char>)
    requires
        0 <= i <= s.len(),
        all_words(acc),
        forall|j: int| 0 <= j < cur.len() ==> !is_ws(#[trigger] cur[j]),
    ensures
        all_words(words_from(s, i, acc, cur)),
    decreases s.len() - i,
{
    if i >= s.len() {
        if cur.len() > 0 {
            assert(is_word(cur));
            assert forall|k: int| 0 <= k < acc.push(cur).len() implies is_word(
                #[trigger] acc.push(cur)[k],
            ) by {
                if k < acc.len() {
                    assert(acc.push(cur)[k] == acc[k]);
                }
            }
        }
    } else if is_ws(s[i]) {
        let nacc = if cur.len() > 0 {
            acc.push(cur)
        } else {
            acc
        };
        if cur.len() > 0 {
            assert(is_word(cur));
            assert forall|k: int| 0 <= k < nacc.len() implies is_word(#[trigger] nacc[k]) by {
                if k < acc.len() {
                    assert(nacc[k] == acc[k]);
                }
            }
        }
        lemma_words_from_all_words(s, i + 1, nacc, seq![]);
    } else {
        let c2 = cur.push(s[i]);
        assert forall|j: int| 0 <= j < c2.len() implies !is_ws(#[trigger] c2[j]) by {
            if j < cur.len() {
                assert(c2[j] == cur[j]);
            }
        }
        lemma_words_from_all_words(s, i + 1, acc, c2);
    }
}

pub proof fn lemma_words_all_words(s: Seq<char>)
    ensures
        all_words(words(s)),
{
    lemma_words_from_all_words(s, 0, seq![], seq![]);
}

} // verus!

verus! {

/// A copy of `v`.
pub fn clone_chars(v: &Vec<char>) -> (r: Vec<char>)
    ensures
        r@ == v@,
{
    let r = v.clone();
    assert(r@ =~= v@);
    r
}

} // verus!

verus! {

/// Joining a first element to the rest.
pub proof fn lemma_join_cons(x: Seq<char>, ws: Seq<Seq<char>>, sep: Seq<char>)
    ensures
        join(seq![x] + ws, sep) == if ws.len() == 0 {
            x
        } else {
            x + sep + join(ws, sep)
        },
{
    let l = seq![x] + ws;
    assert(l[0] == x);
    assert(l.drop_first() =~= ws);
}

/// Appending a list of proper words to a list of proper words.
pub proof fn lemma_all_words_concat(a: Seq<Seq<char>>, b: Seq<Seq<char>>)
    requires
        all_words(a),
        all_words(b),
    ensures
        all_words(a + b),
{
    assert forall|k: int| 0 <= k < (a + b).len() implies is_word(#[trigger] (a + b)[k]) by {
        if k < a.len() {
            assert((a + b)[k] == a[k]);
        } else {
            assert((a + b)[k] == b[k - a.len()]);
        }
    }
}

} // verus!

verus! {

/// The character for a decimal digit.
pub open spec fn digit_char(d: int) -> char {
    (d + 48) as char
}

/// The decimal digits of `n`, without leading zeros.
pub open spec fn decimal(n: nat) -> Seq<char>
    decreases n,
{
    if n < 10 {
        seq![digit_char(n as int)]
    } else {
        decimal(n / 10).push(digit_char((n % 10) as int))
    }
}

pub fn digit(d: u64) -> (c: char)
    requires
        d < 10,
    ensures
        c == digit_char(d as int),
{
    let b: u8 = 48 + d as u8;
    b as char
}

/// The decimal digits of `n`.
pub fn decimal_chars(n: u64) -> (r: Vec<char>)
    ensures
        r@ == decimal(n as nat),
    decreases n,
{
    if n < 10 {
        let mut v: Vec<char> = Vec::new();
        v.push(digit(n));
        assert(v@ =~= seq![digit_char(n as int)]);
        v
    } else {
        let mut v = decimal_chars(n / 10);
        v.push(digit(n % 10));
        v
    }
}

/// The strings of `ws` joined with `sep` between consecutive elements
/// (`[String]::join`).
pub fn join_with(ws: &Vec<String>, sep: &str) -> (r: String)
    ensures
        r@ == join(view_strings(ws@), sep@),
{
    let sepv = chars_of(sep);
    let mut out: Vec<char> = Vec::new();
    let mut i: usize = 0;
    while i < ws.len()
        invariant
            i <= ws.len(),
            sepv@ == sep@,
            out@ == join(view_strings(ws@).take(i as int), sep@),
        decreases ws.len() - i,
    {
        proof {
            lemma_join_take_succ(view_strings(ws@), sep@, i as int);
        }
        if i > 0 {
            push_chars(&mut out, &sepv);
        }
        push_str(&mut out, ws[i].as_str());
        i += 1;
    }
    assert(view_strings(ws@).take(ws.len() as int) =~= view_strings(ws@));
    string_from_chars(&out)
}

/// Views a vector of strings as a sequence of character sequences.
pub open spec fn view_strings(v: Seq<String>) -> Seq<Seq<char>> {
    v.map_values(|s: String| s@)
}

} // verus!

verus! {

/// The first index `>= i` at which `s` holds one of `seps`, or `s.len()`.
pub open spec fn next_sep(s: Seq<char>, i: int, seps: Seq<char>) -> int
    decreases s.len() - i,
{
    if i < 0 || i >= s.len() {
        s.len() as int
    } else if seps.contains(s[i]) {
        i
    } else {
        next_sep(s, i + 1, seps)
    }
}

pub proof fn lemma_next_sep_bounds(s: Seq<char>, i: int, seps: Seq<char>)
    requires
        0 <= i <= s.len(),
    ensures
        i <= next_sep(s, i, seps) <= s.len(),
        next_sep(s, i, seps) < s.len() ==> seps.contains(s[next_sep(s, i, seps)]),
        forall|k: int| i <= k < next_sep(s, i, seps) ==> !seps.contains(#[trigger] s[k]),
    decreases s.len() - i,
{
    if i < s.len() && !seps.contains(s[i]) {
        lemma_next_sep_bounds(s, i + 1, seps);
    }
}

/// The pieces of `s` from `start` on between separators (`str::split`).
pub open spec fn split_from(s: Seq<char>, start: int, seps: Seq<char>) -> Seq<Seq<char>>
    decreases s.len() - start,
{
    if start < 0 || start > s.len() {
        seq![]
    } else {
        let j = next_sep(s, start, seps);
        proof {
            lemma_next_sep_bounds(s, start, seps);
        }
        if j < s.len() {
            seq![s.subrange(start, j)] + split_from(s, j + 1, seps)
        } else {
            seq![s.subrange(start, s.len() as int)]
        }
    }
}

/// `s` split at every character among `seps`; never empty (an empty `s`
/// gives one empty piece).
pub open spec fn split_by(s: Seq<char>, seps: Seq<char>) -> Seq<Seq<char>> {
    split_from(s, 0, seps)
}

/// Splits `s` at every occurrence of `a` or `b`.
pub fn split_at_seps(s: &Vec<char>, a: char, b: char) -> (r: Vec<Vec<char>>)
    ensures
        view_words(r@) == split_by(s@, seq![a, b]),
{
    let ghost seps = seq![a, b];
    let mut out: Vec<Vec<char>> = Vec::new();
    let mut start: usize = 0;
    let mut cur: Vec<char> = Vec::new();
    let mut k: usize = 0;
    while k < s.len()
        invariant
            start <= k <= s.len(),
            seps == seq![a, b],
            cur@ == s@.subrange(start as int, k as int),
            forall|q: int| start <= q < k ==> !seps.contains(#[trigger] s@[q]),
            view_words(out@) + split_from(s@, start as int, seps) == split_by(s@, seps),
        decreases s.len() - k,
    {
        let c = s[k];
        if c == a || c == b {
            proof {
                assert(seps.contains(c)) by {
                    if c == a {
                        assert(seps[0] == c);
                    } else {
                        assert(seps[1] == c);
                    }
                }
                lemma_next_sep_bounds(s@, start as int, seps);
                assert(next_sep(s@, start as int, seps) == k) by {
                    lemma_next_sep_at(s@, start as int, k as int, seps);
                }
            }
            let ghost before = out@;
            out.push(cur);
            assert(view_words(out@) =~= view_words(before).push(s@.subrange(start as int, k as int)));
            assert(view_words(before) + split_from(s@, start as int, seps) =~= view_words(out@)
                + split_from(s@, k + 1, seps));
            cur = Vec::new();
            start = k + 1;
            assert(cur@ =~= s@.subrange(start as int, (k + 1) as int));
        } else {
            proof {
                assert(!seps.contains(c)) by {
                    if seps.contains(c) {
                        let w = choose|w: int| 0 <= w < seps.len() && seps[w] == c;
                        assert(w == 0 || w == 1);
                    }
                }
            }
            cur.push(c);
            assert(cur@ =~= s@.subrange(start as int, (k + 1) as int));
        }
        k += 1;
    }
    proof {
        lemma_next_sep_at(s@, start as int, s.len() as int, seps);
    }
    let ghost before = out@;
    out.push(cur);
    assert(view_words(out@) =~= view_words(before).push(s@.subrange(start as int, s.len() as int)));
    assert(split_from(s@, start as int, seps) =~= seq![s@.subrange(start as int, s.len() as int)]);
    assert(view_words(out@) =~= view_words(before) + split_from(s@, start as int, seps));
    out
}

proof fn lemma_next_sep_at(s: Seq<char>, i: int, k: int, seps: Seq<char>)
    requires
        0 <= i <= k <= s.len(),
        forall|q: int| i <= q < k ==> !seps.contains(#[trigger] s[q]),
        k < s.len() ==> seps.contains(s[k]),
    ensures
        next_sep(s, i, seps) == k,
    decreases k - i,
{
    if i < k {
        lemma_next_sep_at(s, i + 1, k, seps);
    }
}

} // verus!

verus! {

/// Whether two strings have the same characters.
pub fn str_eq(a: &str, b: &str) -> (r: bool)
    ensures
        r == (a@ == b@),
{
    let x = chars_of(a);
    let y = chars_of(b);
    chars_eq(&x, &y)
}

} // verus!

verus! {

/// The index of the first non-whitespace character at or after `i`.
pub open spec fn trim_start_index(s: Seq<char>, i: int) -> int
    decreases s.len() - i,
{
    if i < 0 || i >= s.len() {
        s.len() as int
    } else if is_ws(s[i]) {
        trim_start_index(s, i + 1)
    } else {
        i
    }
}

/// One past the last non-whitespace character before `j`.
pub open spec fn trim_end_index(s: Seq<char>, j: int) -> int
    decreases j,
{
    if j <= 0 || j > s.len() {
        0
    } else if is_ws(s[j - 1]) {
        trim_end_index(s, j - 1)
    } else {
        j
    }
}

/// `s` without leading and trailing whitespace (`str::trim`).
pub open spec fn trim_ws(s: Seq<char>) -> Seq<char> {
    let a = trim_start_index(s, 0);
    let b = trim_end_index(s, s.len() as int);
    if a < b {
        s.subrange(a, b)
    } else {
        seq![]
    }
}

/// `s` without leading and trailing whitespace.
pub fn trim_ws_chars(s: &Vec<char>) -> (r: Vec<char>)
    ensures
        r@ == trim_ws(s@),
{
    let mut a: usize = 0;
    while a < s.len() && is_whitespace(s[a])
        invariant
            a <= s.len(),
            trim_start_index(s@, 0) == trim_start_index(s@, a as int),
        decreases s.len() - a,
    {
        a += 1;
    }
    let mut b: usize = s.len();
    while b > 0 && is_whitespace(s[b - 1])
        invariant
            b <= s.len(),
            trim_end_index(s@, s.len() as int) == trim_end_index(s@, b as int),
        decreases b,
    {
        b -= 1;
    }
    let mut out: Vec<char> = Vec::new();
    if a < b {
        let mut k = a;
        while k < b
            invariant
                a <= k <= b,
                b <= s.len(),
                out@ == s@.subrange(a as int, k as int),
            decreases b - k,
        {
            out.push(s[k]);
            k += 1;
            assert(out@ =~= s@.subrange(a as int, k as int));
        }
    } else {
        assert(out@ =~= Seq::<char>::empty());
    }
    out
}

} // verus!
