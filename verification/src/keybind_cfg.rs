//! VOIDFRAME's own console keybind file and the launch-option handling
//! built around it: the reserved launch tokens VOIDFRAME always needs, how
//! they are merged into (and removed from) the user's own launch options,
//! and how secrets in a launch-options string are redacted for logs.

use crate::text::{
    all_words, chars_eq, chars_of, clone_chars, is_word, join, join_words, lemma_all_words_concat,
    lemma_join_cons, lemma_words_all_words, lemma_words_unwords, lower, lower_chars, split_words,
    string_from_chars, unwords, view_strings, view_words, words,
};
use vstd::prelude::*;

verus! {

broadcast use vstd::string::group_string_axioms;

/// The keybind file VOIDFRAME writes into CS2's `cfg\` directory.
pub const CFG_FILENAME: &'static str = "voidframe_keybind.cfg";

/// The keybind file's contents: enable the console and bind F9 to it.
pub const CFG_CONTENTS: &'static str = "con_enable \"true\"\nbind \"F9\" \"toggleconsole\"\n";

/// The reserved launch tokens, in order: `-condebug`, `-conclearlog` and
/// `+exec voidframe_keybind.cfg` (one token of two words).
pub open spec fn reserved_token_views() -> Seq<Seq<char>> {
    seq!["-condebug"@, "-conclearlog"@, "+exec voidframe_keybind.cfg"@]
}

/// The launch tokens VOIDFRAME always needs in CS2's launch options.
pub fn reserved_tokens() -> (v: Vec<String>)
    ensures
        view_strings(v@) == reserved_token_views(),
{
    let mut v: Vec<String> = Vec::new();
    v.push("-condebug".to_string());
    v.push("-conclearlog".to_string());
    v.push("+exec voidframe_keybind.cfg".to_string());
    assert(view_strings(v@) =~= reserved_token_views());
    v
}

/// The merged launch options: the reserved tokens first, then the user's
/// own words, single-space joined.
pub open spec fn reconcile_spec(user_args: Seq<char>) -> Seq<char> {
    unwords(reserved_token_views() + words(user_args))
}

/// Prepends the reserved tokens to `user_args` and whitespace-normalizes
/// the result. The user's words are passed through unchanged.
pub fn reconcile(user_args: &str) -> (r: String)
    ensures
        r@ == reconcile_spec(user_args@),
{
    let rt = reserved_tokens();
    let mut ws: Vec<Vec<char>> = Vec::new();
    let mut k: usize = 0;
    while k < rt.len()
        invariant
            k <= rt.len(),
            view_strings(rt@) == reserved_token_views(),
            view_words(ws@) =~= view_strings(rt@).take(k as int),
        decreases rt.len() - k,
    {
        let cs = chars_of(rt[k].as_str());
        let ghost before = ws@;
        ws.push(cs);
        assert(view_words(ws@) =~= view_words(before).push(rt@[k as int]@));
        assert(view_strings(rt@).take(k + 1) =~= view_strings(rt@).take(k as int).push(
            rt@[k as int]@,
        ));
        k += 1;
    }
    let user = split_words(&chars_of(user_args));
    let mut j: usize = 0;
    while j < user.len()
        invariant
            j <= user.len(),
            view_words(ws@) =~= reserved_token_views() + view_words(user@).take(j as int),
        decreases user.len() - j,
    {
        let ghost before = ws@;
        ws.push(clone_chars(&user[j]));
        assert(view_words(ws@) =~= view_words(before).push(user@[j as int]@));
        assert(view_words(user@).take(j + 1) =~= view_words(user@).take(j as int).push(
            user@[j as int]@,
        ));
        j += 1;
    }
    assert(view_words(user@).take(user.len() as int) =~= view_words(user@));
    string_from_chars(&join_words(&ws))
}

/// The lower-cased word sequences of the reserved tokens.
pub open spec fn reserved_word_seqs() -> Seq<Seq<Seq<char>>> {
    reserved_token_views().map_values(|t: Seq<char>| words(t).map_values(|w: Seq<char>| lower(w)))
}

/// `r` occurs in `ws` at position `i`, comparing `ws`'s words lower-cased.
pub open spec fn seq_matches_at(ws: Seq<Seq<char>>, i: int, r: Seq<Seq<char>>) -> bool {
    &&& 0 <= i
    &&& i + r.len() <= ws.len()
    &&& forall|j: int| 0 <= j < r.len() ==> lower(#[trigger] ws[i + j]) == r[j]
}

/// The length of the first sequence of `rs` that occurs at `i` (0 if none).
pub open spec fn first_match_len(ws: Seq<Seq<char>>, i: int, rs: Seq<Seq<Seq<char>>>) -> nat
    decreases rs.len(),
{
    if rs.len() == 0 {
        0
    } else if seq_matches_at(ws, i, rs[0]) {
        rs[0].len()
    } else {
        first_match_len(ws, i, rs.drop_first())
    }
}

pub proof fn lemma_first_match_len_bound(ws: Seq<Seq<char>>, i: int, rs: Seq<Seq<Seq<char>>>)
    requires
        0 <= i,
    ensures
        i + first_match_len(ws, i, rs) <= ws.len() || first_match_len(ws, i, rs) == 0,
    decreases rs.len(),
{
    if rs.len() > 0 && !seq_matches_at(ws, i, rs[0]) {
        lemma_first_match_len_bound(ws, i, rs.drop_first());
    }
}

/// The words of `ws` from `i` on with every reserved-token occurrence
/// removed, scanning left to right.
pub open spec fn strip_from(ws: Seq<Seq<char>>, i: int) -> Seq<Seq<char>>
    decreases ws.len() - i,
{
    if i < 0 || i >= ws.len() {
        seq![]
    } else {
        let m = first_match_len(ws, i, reserved_word_seqs());
        if m > 0 {
            proof {
                lemma_first_match_len_bound(ws, i, reserved_word_seqs());
            }
            strip_from(ws, i + m)
        } else {
            seq![ws[i]] + strip_from(ws, i + 1)
        }
    }
}

/// `text` with the reserved tokens removed, whitespace-normalized.
pub open spec fn strip_reserved_spec(text: Seq<char>) -> Seq<char> {
    unwords(strip_from(words(text), 0))
}

pub open spec fn view_word_seqs(v: Seq<Vec<Vec<char>>>) -> Seq<Seq<Seq<char>>> {
    v.map_values(|r: Vec<Vec<char>>| view_words(r@))
}

/// Whether `r` occurs in `ws` at `i`, words compared lower-cased.
fn matches_at(ws: &Vec<Vec<char>>, i: usize, r: &Vec<Vec<char>>) -> (b: bool)
    requires
        i <= ws.len(),
    ensures
        b == seq_matches_at(view_words(ws@), i as int, view_words(r@)),
{
    if r.len() > ws.len() - i {
        return false;
    }
    let mut j: usize = 0;
    while j < r.len()
        invariant
            j <= r.len(),
            i + r.len() <= ws.len(),
            forall|q: int|
                0 <= q < j ==> lower(#[trigger] view_words(ws@)[i + q]) == view_words(r@)[q],
        decreases r.len() - j,
    {
        let lw = lower_chars(&ws[i + j]);
        if !chars_eq(&lw, &r[j]) {
            assert(lower(view_words(ws@)[i + j]) != view_words(r@)[j as int]);
            return false;
        }
        j += 1;
    }
    true
}

/// The length of the first of `rs` occurring at `i`, 0 if none.
fn first_match(ws: &Vec<Vec<char>>, i: usize, rs: &Vec<Vec<Vec<char>>>) -> (m: usize)
    requires
        i <= ws.len(),
    ensures
        m == first_match_len(view_words(ws@), i as int, view_word_seqs(rs@)),
{
    let ghost w = view_words(ws@);
    let ghost all = view_word_seqs(rs@);
    let mut k: usize = 0;
    assert(all.skip(0) =~= all);
    while k < rs.len()
        invariant
            k <= rs.len(),
            i <= ws.len(),
            w == view_words(ws@),
            all == view_word_seqs(rs@),
            first_match_len(w, i as int, all) == first_match_len(w, i as int, all.skip(k as int)),
        decreases rs.len() - k,
    {
        assert(all.skip(k as int)[0] == all[k as int]);
        assert(all.skip(k as int).drop_first() =~= all.skip(k + 1));
        if matches_at(ws, i, &rs[k]) {
            return rs[k].len();
        }
        k += 1;
    }
    assert(all.skip(k as int).len() == 0);
    0
}

/// The reserved tokens' word sequences, lower-cased.
fn reserved_word_seqs_exec() -> (rs: Vec<Vec<Vec<char>>>)
    ensures
        view_word_seqs(rs@) == reserved_word_seqs(),
{
    let rt = reserved_tokens();
    let mut rs: Vec<Vec<Vec<char>>> = Vec::new();
    let mut k: usize = 0;
    while k < rt.len()
        invariant
            k <= rt.len(),
            view_strings(rt@) == reserved_token_views(),
            view_word_seqs(rs@) =~= reserved_word_seqs().take(k as int),
        decreases rt.len() - k,
    {
        let ws = split_words(&chars_of(rt[k].as_str()));
        let mut low: Vec<Vec<char>> = Vec::new();
        let mut q: usize = 0;
        while q < ws.len()
            invariant
                q <= ws.len(),
                view_words(low@) =~= view_words(ws@).take(q as int).map_values(
                    |w: Seq<char>| lower(w),
                ),
            decreases ws.len() - q,
        {
            let ghost lb = low@;
            low.push(lower_chars(&ws[q]));
            assert(view_words(low@) =~= view_words(lb).push(lower(ws@[q as int]@)));
            assert(view_words(ws@).take(q + 1) =~= view_words(ws@).take(q as int).push(
                ws@[q as int]@,
            ));
            q += 1;
        }
        assert(view_words(ws@).take(ws.len() as int) =~= view_words(ws@));
        assert(rt@[k as int]@ == reserved_token_views()[k as int]);
        let ghost rb = rs@;
        rs.push(low);
        assert(view_word_seqs(rs@) =~= view_word_seqs(rb).push(view_words(low@)));
        assert(reserved_word_seqs().take(k + 1) =~= reserved_word_seqs().take(k as int).push(
            reserved_word_seqs()[k as int],
        ));
        k += 1;
    }
    rs
}

/// Removes every reserved token from `text` (the two-word `+exec` token as
/// a pair, and only when both of its words match), comparing
/// case-insensitively, and returns the remaining words single-space joined.
pub fn strip_reserved(text: &str) -> (r: String)
    ensures
        r@ == strip_reserved_spec(text@),
{
    let rs = reserved_word_seqs_exec();
    let ws = split_words(&chars_of(text));
    let ghost w = view_words(ws@);
    let mut out: Vec<Vec<char>> = Vec::new();
    let mut i: usize = 0;
    while i < ws.len()
        invariant
            i <= ws.len(),
            w == view_words(ws@),
            view_word_seqs(rs@) == reserved_word_seqs(),
            view_words(out@) + strip_from(w, i as int) == strip_from(w, 0),
        decreases ws.len() - i,
    {
        let m = first_match(&ws, i, &rs);
        proof {
            lemma_first_match_len_bound(w, i as int, reserved_word_seqs());
        }
        if m > 0 {
            i += m;
        } else {
            let ghost before = out@;
            out.push(clone_chars(&ws[i]));
            assert(view_words(out@) =~= view_words(before).push(w[i as int]));
            assert(view_words(before) + strip_from(w, i as int) =~= view_words(out@) + strip_from(
                w,
                i + 1,
            ));
            i += 1;
        }
    }
    assert(view_words(out@) + strip_from(w, i as int) =~= view_words(out@));
    string_from_chars(&join_words(&out))
}

/// The value that replaces a secret in a redacted launch-options string.
pub open spec fn redacted_word() -> Seq<char> {
    "<redacted>"@
}

/// A word naming a secret-carrying launch option, compared
/// case-insensitively: `+password`, `+rcon_password` or `+sv_password`.
pub open spec fn is_secret_key(w: Seq<char>) -> bool {
    ||| lower(w) == lower("+password"@)
    ||| lower(w) == lower("+rcon_password"@)
    ||| lower(w) == lower("+sv_password"@)
}

/// `ws` from `i` on with the word after each secret key replaced, unless
/// that word is itself a secret key.
pub open spec fn redact_from(ws: Seq<Seq<char>>, i: int) -> Seq<Seq<char>>
    decreases ws.len() - i,
{
    if i < 0 || i >= ws.len() {
        seq![]
    } else if is_secret_key(ws[i]) && i + 1 < ws.len() && !is_secret_key(ws[i + 1]) {
        seq![ws[i], redacted_word()] + redact_from(ws, i + 2)
    } else {
        seq![ws[i]] + redact_from(ws, i + 1)
    }
}

pub open spec fn redact_spec(args: Seq<char>) -> Seq<char> {
    unwords(redact_from(words(args), 0))
}

fn is_secret_key_exec(w: &Vec<char>) -> (b: bool)
    ensures
        b == is_secret_key(w@),
{
    let lw = lower_chars(w);
    let k1 = lower_chars(&chars_of("+password"));
    let k2 = lower_chars(&chars_of("+rcon_password"));
    let k3 = lower_chars(&chars_of("+sv_password"));
    chars_eq(&lw, &k1) || chars_eq(&lw, &k2) || chars_eq(&lw, &k3)
}

/// Replaces the word following `+password`, `+rcon_password` or
/// `+sv_password` (matched case-insensitively) with `<redacted>`, keeping
/// every other word, single-space joined. A key with no following word, or
/// followed by another key, leaves that slot as it is.
pub fn redact(args: &str) -> (r: String)
    ensures
        r@ == redact_spec(args@),
{
    let ws = split_words(&chars_of(args));
    let ghost w = view_words(ws@);
    let red = chars_of("<redacted>");
    let mut out: Vec<Vec<char>> = Vec::new();
    let mut i: usize = 0;
    while i < ws.len()
        invariant
            i <= ws.len() + 1,
            w == view_words(ws@),
            red@ == redacted_word(),
            view_words(out@) + redact_from(w, i as int) == redact_from(w, 0),
        decreases ws.len() + 1 - i,
    {
        let ghost before = out@;
        out.push(clone_chars(&ws[i]));
        let secret = is_secret_key_exec(&ws[i]);
        i += 1;
        if secret && i < ws.len() && !is_secret_key_exec(&ws[i]) {
            out.push(clone_chars(&red));
            assert(view_words(out@) =~= view_words(before).push(w[i - 1]).push(redacted_word()));
            assert(view_words(before) + redact_from(w, i - 1) =~= view_words(out@) + redact_from(
                w,
                i + 1,
            ));
            i += 1;
        } else {
            assert(view_words(out@) =~= view_words(before).push(w[i - 1]));
            assert(view_words(before) + redact_from(w, i - 1) =~= view_words(out@) + redact_from(
                w,
                i as int,
            ));
        }
    }
    assert(view_words(out@) + redact_from(w, i as int) =~= view_words(out@));
    string_from_chars(&join_words(&out))
}

} // verus!

verus! {

/// The first match at position `p.len() + i` of `p + ws` is the first
/// match at `i` of `ws`.
pub proof fn lemma_first_match_len_shift(
    p: Seq<Seq<char>>,
    ws: Seq<Seq<char>>,
    i: int,
    rs: Seq<Seq<Seq<char>>>,
)
    requires
        0 <= i,
    ensures
        first_match_len(p + ws, p.len() + i, rs) == first_match_len(ws, i, rs),
    decreases rs.len(),
{
    if rs.len() > 0 {
        let r = rs[0];
        let pw = p + ws;
        if seq_matches_at(ws, i, r) {
            assert forall|j: int| 0 <= j < r.len() implies lower(#[trigger] pw[p.len() + i + j])
                == r[j] by {
                assert(pw[p.len() + i + j] == ws[i + j]);
                assert(lower(ws[i + j]) == r[j]);
            }
        }
        if seq_matches_at(pw, p.len() + i, r) {
            assert forall|j: int| 0 <= j < r.len() implies lower(#[trigger] ws[i + j]) == r[j] by {
                assert(pw[p.len() + i + j] == ws[i + j]);
                assert(lower(pw[p.len() + i + j]) == r[j]);
            }
        }
        lemma_first_match_len_shift(p, ws, i, rs.drop_first());
    }
}

/// Stripping `p + ws` from position `p.len() + i` is stripping `ws` from `i`.
pub proof fn lemma_strip_from_shift(p: Seq<Seq<char>>, ws: Seq<Seq<char>>, i: int)
    requires
        0 <= i,
    ensures
        strip_from(p + ws, p.len() + i) == strip_from(ws, i),
    decreases ws.len() - i,
{
    if i < ws.len() {
        let pw = p + ws;
        lemma_first_match_len_shift(p, ws, i, reserved_word_seqs());
        lemma_first_match_len_bound(ws, i, reserved_word_seqs());
        let m = first_match_len(ws, i, reserved_word_seqs());
        assert(pw[p.len() + i] == ws[i]);
        if m > 0 {
            lemma_strip_from_shift(p, ws, i + m);
        } else {
            lemma_strip_from_shift(p, ws, i + 1);
        }
    }
}

/// The reserved tokens as single words: `-condebug`, `-conclearlog`,
/// `+exec`, `voidframe_keybind.cfg`.
pub open spec fn reserved_words() -> Seq<Seq<char>> {
    seq![
        reserved_token_views()[0],
        reserved_token_views()[1],
        reserved_token_views()[2].take(5),
        reserved_token_views()[2].skip(6),
    ]
}

/// The merged launch options split back into words: the reserved words
/// first, then the user's words.
pub proof fn lemma_words_of_reconcile(u: Seq<char>)
    ensures
        words(reconcile_spec(u)) == reserved_words() + words(u),
{
    reveal_strlit("-condebug");
    reveal_strlit("-conclearlog");
    reveal_strlit("+exec voidframe_keybind.cfg");
    let sp: Seq<char> = seq![' '];
    let t = reserved_token_views();
    let w = words(u);
    let rw = reserved_words();
    assert(t[2] =~= rw[2] + sp + rw[3]);
    // unfold both joins over their first three elements
    let tail_t = seq![t[2]] + w;
    let tail_r = seq![rw[2], rw[3]] + w;
    assert(t + w =~= seq![t[0]] + (seq![t[1]] + tail_t));
    assert(rw + w =~= seq![rw[0]] + (seq![rw[1]] + tail_r));
    assert(tail_r =~= seq![rw[2]] + (seq![rw[3]] + w));
    lemma_join_cons(t[0], seq![t[1]] + tail_t, sp);
    lemma_join_cons(t[1], tail_t, sp);
    lemma_join_cons(t[2], w, sp);
    lemma_join_cons(rw[0], seq![rw[1]] + tail_r, sp);
    lemma_join_cons(rw[1], tail_r, sp);
    lemma_join_cons(rw[2], seq![rw[3]] + w, sp);
    lemma_join_cons(rw[3], w, sp);
    if w.len() == 0 {
        assert(join(tail_t, sp) =~= join(tail_r, sp));
    } else {
        assert(join(tail_t, sp) =~= join(tail_r, sp));
    }
    assert(unwords(t + w) == unwords(rw + w));
    lemma_words_all_words(u);
    assert(all_words(rw)) by {
        assert(is_word(rw[0]));
        assert(is_word(rw[1]));
        assert(is_word(rw[2]));
        assert(is_word(rw[3]));
    }
    lemma_all_words_concat(rw, w);
    lemma_words_unwords(rw + w);
}

/// Removing the reserved tokens from merged launch options gives what
/// removing them from the user's own launch options gives: merging never
/// makes a reserved token survive a later strip, and never adds words of
/// its own to what remains.
pub proof fn lemma_strip_reserved_of_reconcile(u: Seq<char>)
    ensures
        strip_reserved_spec(reconcile_spec(u)) == strip_reserved_spec(u),
{
    reveal_strlit("-condebug");
    reveal_strlit("-conclearlog");
    reveal_strlit("+exec voidframe_keybind.cfg");
    lemma_words_of_reconcile(u);
    let t = reserved_token_views();
    let rw = reserved_words();
    let w = words(u);
    let ws = rw + w;
    let rs = reserved_word_seqs();
    // the reserved word sequences, concretely
    assert(lower(t[0]) =~= t[0]);
    assert(lower(t[1]) =~= t[1]);
    assert(lower(rw[2]) =~= rw[2]);
    assert(lower(rw[3]) =~= rw[3]);
    assert(is_word(t[0]));
    assert(is_word(t[1]));
    assert(is_word(rw[2]));
    assert(is_word(rw[3]));
    lemma_words_unwords(seq![t[0]]);
    lemma_words_unwords(seq![t[1]]);
    lemma_words_unwords(seq![rw[2], rw[3]]);
    lemma_join_cons(rw[2], seq![rw[3]], seq![' ']);
    assert(unwords(seq![t[0]]) == t[0]);
    assert(unwords(seq![t[1]]) == t[1]);
    assert(t[2] =~= rw[2] + seq![' '] + rw[3]);
    assert(seq![rw[2]] + seq![rw[3]] =~= seq![rw[2], rw[3]]);
    assert(join(seq![rw[3]], seq![' ']) == rw[3]);
    assert(unwords(seq![rw[2], rw[3]]) == t[2]);
    let r0 = rs[0];
    let r1 = rs[1];
    let r2 = rs[2];
    assert(r0 =~= seq![t[0]]);
    assert(r1 =~= seq![t[1]]);
    assert(r2 =~= seq![rw[2], rw[3]]);
    assert(ws[0] == t[0]);
    assert(ws[1] == t[1]);
    assert(ws[2] == rw[2]);
    assert(ws[3] == rw[3]);
    // position 0: `-condebug`
    assert(seq_matches_at(ws, 0, r0));
    assert(first_match_len(ws, 0, rs) == 1);
    // position 1: `-conclearlog`
    assert(!seq_matches_at(ws, 1, r0)) by {
        assert(lower(ws[1 + 0int]) != r0[0]);
    }
    assert(seq_matches_at(ws, 1, r1));
    assert(rs.len() == 3);
    assert(rs.drop_first()[0] == r1);
    assert(first_match_len(ws, 1, rs.drop_first()) == 1);
    assert(first_match_len(ws, 1, rs) == 1);
    // position 2: `+exec voidframe_keybind.cfg`
    assert(!seq_matches_at(ws, 2, r0)) by {
        assert(lower(ws[2 + 0int]) != r0[0]);
    }
    assert(!seq_matches_at(ws, 2, r1)) by {
        assert(lower(ws[2 + 0int]) != r1[0]);
    }
    assert(seq_matches_at(ws, 2, r2)) by {
        assert(lower(ws[2 + 0int]) == r2[0]);
        assert(lower(ws[2 + 1int]) == r2[1]);
    }
    assert(rs.drop_first().drop_first()[0] == r2);
    assert(first_match_len(ws, 2, rs.drop_first().drop_first()) == 2);
    assert(first_match_len(ws, 2, rs.drop_first()) == 2);
    assert(first_match_len(ws, 2, rs) == 2);
    assert(strip_from(ws, 0) == strip_from(ws, 1));
    assert(strip_from(ws, 1) == strip_from(ws, 2));
    assert(strip_from(ws, 2) == strip_from(ws, 4));
    lemma_strip_from_shift(rw, w, 0);
}

} // verus!

verus! {

/// Every secret key followed by a word that is not itself a secret key is
/// followed by `<redacted>`.
pub open spec fn secrets_redacted(ws: Seq<Seq<char>>) -> bool {
    forall|k: int|
        0 <= k && k + 1 < ws.len() && is_secret_key(#[trigger] ws[k]) && !is_secret_key(ws[k + 1])
            ==> ws[k + 1] == redacted_word()
}

proof fn lemma_redacted_word_facts()
    ensures
        !is_secret_key(redacted_word()),
        is_word(redacted_word()),
{
    reveal_strlit("<redacted>");
    reveal_strlit("+password");
    reveal_strlit("+rcon_password");
    reveal_strlit("+sv_password");
    assert(lower(redacted_word()).len() == 10);
    assert(lower("+password"@).len() == 9);
    assert(lower("+rcon_password"@).len() == 14);
    assert(lower("+sv_password"@).len() == 12);
}

proof fn lemma_redact_from_first(ws: Seq<Seq<char>>, i: int)
    requires
        0 <= i < ws.len(),
    ensures
        redact_from(ws, i).len() > 0,
        redact_from(ws, i)[0] == ws[i],
{
}

proof fn lemma_redact_from_redacts(ws: Seq<Seq<char>>, i: int)
    ensures
        secrets_redacted(redact_from(ws, i)),
    decreases ws.len() - i,
{
    lemma_redacted_word_facts();
    if 0 <= i < ws.len() {
        let out = redact_from(ws, i);
        if is_secret_key(ws[i]) && i + 1 < ws.len() && !is_secret_key(ws[i + 1]) {
            let rest = redact_from(ws, i + 2);
            lemma_redact_from_redacts(ws, i + 2);
            assert forall|k: int|
                0 <= k && k + 1 < out.len() && is_secret_key(#[trigger] out[k]) && !is_secret_key(
                    out[k + 1],
                ) implies out[k + 1] == redacted_word() by {
                if k >= 2 {
                    assert(out[k] == rest[k - 2]);
                    assert(out[k + 1] == rest[k - 1]);
                }
            }
        } else {
            let rest = redact_from(ws, i + 1);
            lemma_redact_from_redacts(ws, i + 1);
            assert forall|k: int|
                0 <= k && k + 1 < out.len() && is_secret_key(#[trigger] out[k]) && !is_secret_key(
                    out[k + 1],
                ) implies out[k + 1] == redacted_word() by {
                if k == 0 {
                    lemma_redact_from_first(ws, i + 1);
                    assert(out[1] == rest[0]);
                } else {
                    assert(out[k] == rest[k - 1]);
                    assert(out[k + 1] == rest[k]);
                }
            }
        }
    }
}

proof fn lemma_redact_from_words(ws: Seq<Seq<char>>, i: int)
    requires
        all_words(ws),
    ensures
        all_words(redact_from(ws, i)),
    decreases ws.len() - i,
{
    lemma_redacted_word_facts();
    if 0 <= i < ws.len() {
        if is_secret_key(ws[i]) && i + 1 < ws.len() && !is_secret_key(ws[i + 1]) {
            lemma_redact_from_words(ws, i + 2);
            assert(all_words(seq![ws[i], redacted_word()])) by {
                assert(is_word(ws[i]));
            }
            lemma_all_words_concat(seq![ws[i], redacted_word()], redact_from(ws, i + 2));
        } else {
            lemma_redact_from_words(ws, i + 1);
            assert(all_words(seq![ws[i]])) by {
                assert(is_word(ws[i]));
            }
            lemma_all_words_concat(seq![ws[i]], redact_from(ws, i + 1));
        }
    }
}

proof fn lemma_redact_from_fixpoint(ws: Seq<Seq<char>>, i: int)
    requires
        secrets_redacted(ws),
        0 <= i <= ws.len(),
    ensures
        redact_from(ws, i) == ws.skip(i),
    decreases ws.len() - i,
{
    if i < ws.len() {
        if is_secret_key(ws[i]) && i + 1 < ws.len() && !is_secret_key(ws[i + 1]) {
            lemma_redact_from_fixpoint(ws, i + 2);
            assert(ws[i + 1] == redacted_word());
            assert(seq![ws[i], redacted_word()] + ws.skip(i + 2) =~= ws.skip(i));
        } else {
            lemma_redact_from_fixpoint(ws, i + 1);
            assert(seq![ws[i]] + ws.skip(i + 1) =~= ws.skip(i));
        }
    } else {
        assert(ws.skip(i) =~= Seq::<Seq<char>>::empty());
    }
}

/// The words of a redacted string are the redacted words of the string.
pub proof fn lemma_words_of_redact(s: Seq<char>)
    ensures
        words(redact_spec(s)) == redact_from(words(s), 0),
{
    lemma_words_all_words(s);
    lemma_redact_from_words(words(s), 0);
    lemma_words_unwords(redact_from(words(s), 0));
}

/// No secret survives redaction: in the redacted text, every secret key that
/// is followed by a word other than a secret key is followed by `<redacted>`.
pub proof fn lemma_redact_hides_secrets(s: Seq<char>)
    ensures
        secrets_redacted(words(redact_spec(s))),
{
    lemma_words_of_redact(s);
    lemma_redact_from_redacts(words(s), 0);
}

/// Redacting an already redacted string changes nothing.
pub proof fn lemma_redact_idempotent(s: Seq<char>)
    ensures
        redact_spec(redact_spec(s)) == redact_spec(s),
{
    let w1 = redact_from(words(s), 0);
    lemma_words_of_redact(s);
    lemma_redact_from_redacts(words(s), 0);
    lemma_redact_from_fixpoint(w1, 0);
    assert(w1.skip(0) =~= w1);
}

proof fn lemma_no_match_len(ws: Seq<Seq<char>>, i: int, rs: Seq<Seq<Seq<char>>>)
    requires
        forall|j: int| 0 <= j < rs.len() ==> !seq_matches_at(ws, i, #[trigger] rs[j]),
    ensures
        first_match_len(ws, i, rs) == 0,
    decreases rs.len(),
{
    if rs.len() > 0 {
        assert(!seq_matches_at(ws, i, rs[0]));
        assert forall|j: int| 0 <= j < rs.drop_first().len() implies !seq_matches_at(
            ws,
            i,
            #[trigger] rs.drop_first()[j],
        ) by {
            assert(rs.drop_first()[j] == rs[j + 1]);
        }
        lemma_no_match_len(ws, i, rs.drop_first());
    }
}

proof fn lemma_strip_from_plain(ws: Seq<Seq<char>>, i: int)
    requires
        0 <= i <= ws.len(),
        forall|q: int, j: int|
            i <= q < ws.len() && 0 <= j < reserved_word_seqs().len() ==> !#[trigger] seq_matches_at(
                ws,
                q,
                reserved_word_seqs()[j],
            ),
    ensures
        strip_from(ws, i) == ws.skip(i),
    decreases ws.len() - i,
{
    if i < ws.len() {
        assert forall|j: int| 0 <= j < reserved_word_seqs().len() implies !seq_matches_at(
            ws,
            i,
            #[trigger] reserved_word_seqs()[j],
        ) by {
            assert(!seq_matches_at(ws, i, reserved_word_seqs()[j]));
        }
        lemma_no_match_len(ws, i, reserved_word_seqs());
        lemma_strip_from_plain(ws, i + 1);
        assert(ws.skip(i) =~= seq![ws[i]] + ws.skip(i + 1));
    } else {
        assert(ws.skip(i) =~= Seq::<Seq<char>>::empty());
    }
}

/// Stripping launch options that hold no reserved token (at no word is
/// `-condebug`, `-conclearlog` or `+exec voidframe_keybind.cfg`, letter
/// case aside) only normalizes their whitespace: their words, joined by
/// single spaces.
pub proof fn lemma_strip_reserved_of_plain(u: Seq<char>)
    requires
        forall|q: int, j: int|
            0 <= q < words(u).len() && 0 <= j < reserved_word_seqs().len() ==> !#[trigger] seq_matches_at(
                words(u),
                q,
                reserved_word_seqs()[j],
            ),
    ensures
        strip_reserved_spec(u) == unwords(words(u)),
{
    lemma_strip_from_plain(words(u), 0);
    assert(words(u).skip(0) =~= words(u));
}

} // verus!
