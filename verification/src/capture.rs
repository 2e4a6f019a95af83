//! PresentMon CSV captures, the parts that are not floating point: the
//! byte-order mark, which columns hold what, which fields count as
//! missing, and which presentation mode dominated a capture.
//!
//! Turning a field into a number, and the frame-time statistics, are
//! floating point; the caller does them.

use crate::cs2_config::{lemma_seq_lt_irreflexive, lemma_seq_lt_transitive, lemma_seq_lt_trichotomy, seq_lt};
use crate::error::{err_msg, err_msg_chars, err_view, msg_view, Error, ErrorTag};
use crate::text::{
    chars_eq, chars_of, clone_chars, lower, lower_chars, push_str, str_eq, string_from_chars,
    trim_ws, trim_ws_chars, view_strings, view_words,
};
use vstd::prelude::*;

verus! {

broadcast use vstd::string::group_string_axioms;

/// The UTF-8 byte-order mark.
pub open spec fn bom() -> Seq<u8> {
    seq![0xEFu8, 0xBBu8, 0xBFu8]
}

/// The bytes without a leading UTF-8 byte-order mark; unchanged when there
/// is none.
pub fn strip_bom(bytes: &[u8]) -> (r: &[u8])
    ensures
        r@ == without_bom(bytes@),
{
    if bytes.len() >= 3 && bytes[0] == 0xEF && bytes[1] == 0xBB && bytes[2] == 0xBF {
        assert(bytes@.subrange(0, 3) =~= bom());
        vstd::slice::slice_subrange(bytes, 3, bytes.len())
    } else {
        proof {
            if bytes@.len() >= 3 && bytes@.subrange(0, 3) == bom() {
                assert(bytes@.subrange(0, 3)[0] == 0xEF);
                assert(bytes@.subrange(0, 3)[1] == 0xBB);
                assert(bytes@.subrange(0, 3)[2] == 0xBF);
            }
        }
        bytes
    }
}

/// The index of the first header at or after `i` that is `name`.
pub open spec fn column_from(headers: Seq<Seq<char>>, name: Seq<char>, i: int) -> Option<int>
    decreases headers.len() - i,
{
    if i < 0 || i >= headers.len() {
        None
    } else if headers[i] == name {
        Some(i)
    } else {
        column_from(headers, name, i + 1)
    }
}

/// The index of the first header that is `name`.
pub open spec fn column_of(headers: Seq<Seq<char>>, name: Seq<char>) -> Option<int> {
    column_from(headers, name, 0)
}

/// Where the columns a capture is read from are, by header name.
#[derive(Clone, Copy, Debug, PartialEq, Eq, Structural)]
pub struct ColumnIndex {
    pub ms_between_presents: usize,
    pub ms_gpu_busy: usize,
    pub ms_cpu_busy: usize,
    pub ms_render_present_latency: usize,
    pub ms_animation_error: usize,
    pub present_mode: usize,
}

/// The columns a capture needs, in the order they are looked up.
pub open spec fn needed_columns() -> Seq<Seq<char>> {
    seq![
        "MsBetweenPresents"@,
        "MsGPUBusy"@,
        "MsCPUBusy"@,
        "MsRenderPresentLatency"@,
        "MsAnimationError"@,
        "PresentMode"@,
    ]
}

pub open spec fn missing_column_message(name: Seq<char>) -> Seq<char> {
    "PresentMon CSV missing expected column `"@ + name + "`"@
}

fn find_column(headers: &[String], name: &str) -> (r: Result<usize, Error>)
    ensures
        match r {
            Ok(i) => column_of(view_strings(headers@), name@) == Some(i as int),
            Err(e) => column_of(view_strings(headers@), name@) is None && err_view(e) == msg_view(
                missing_column_message(name@),
            ),
        },
{
    let ghost hv = view_strings(headers@);
    let mut i: usize = 0;
    while i < headers.len()
        invariant
            i <= headers.len(),
            hv == view_strings(headers@),
            column_of(hv, name@) == column_from(hv, name@, i as int),
        decreases headers.len() - i,
    {
        if str_eq(headers[i].as_str(), name) {
            return Ok(i);
        }
        i += 1;
    }
    let mut out: Vec<char> = Vec::new();
    push_str(&mut out, "PresentMon CSV missing expected column `");
    push_str(&mut out, name);
    push_str(&mut out, "`");
    Err(err_msg_chars(&out))
}

/// Where each needed column is, or the error for the first one (in the
/// order of [`needed_columns`]) that no header names.
pub open spec fn resolved_columns(headers: Seq<Seq<char>>) -> Result<Seq<int>, Seq<char>> {
    let n = needed_columns();
    if column_of(headers, n[0]) is None {
        Err(missing_column_message(n[0]))
    } else if column_of(headers, n[1]) is None {
        Err(missing_column_message(n[1]))
    } else if column_of(headers, n[2]) is None {
        Err(missing_column_message(n[2]))
    } else if column_of(headers, n[3]) is None {
        Err(missing_column_message(n[3]))
    } else if column_of(headers, n[4]) is None {
        Err(missing_column_message(n[4]))
    } else if column_of(headers, n[5]) is None {
        Err(missing_column_message(n[5]))
    } else {
        Ok(
            seq![
                column_of(headers, n[0])->Some_0,
                column_of(headers, n[1])->Some_0,
                column_of(headers, n[2])->Some_0,
                column_of(headers, n[3])->Some_0,
                column_of(headers, n[4])->Some_0,
                column_of(headers, n[5])->Some_0,
            ],
        )
    }
}

impl ColumnIndex {
    pub open spec fn positions(self) -> Seq<int> {
        seq![
            self.ms_between_presents as int,
            self.ms_gpu_busy as int,
            self.ms_cpu_busy as int,
            self.ms_render_present_latency as int,
            self.ms_animation_error as int,
            self.present_mode as int,
        ]
    }

    /// Finds each needed column by its header name (never by a fixed
    /// index); the first header missing is the error.
    #[verifier::rlimit(30)]
    pub fn resolve(headers: &[String]) -> (r: Result<ColumnIndex, Error>)
        ensures
            match r {
                Ok(c) => resolved_columns(view_strings(headers@)) == Ok::<Seq<int>, Seq<char>>(c.positions()),
                Err(e) => resolved_columns(view_strings(headers@)) == Err::<Seq<int>, Seq<char>>(err_view(e).1)
                    && err_view(e) == msg_view(err_view(e).1),
            },
    {
        proof {
            reveal_strlit("MsBetweenPresents");
            reveal_strlit("MsGPUBusy");
            reveal_strlit("MsCPUBusy");
            reveal_strlit("MsRenderPresentLatency");
            reveal_strlit("MsAnimationError");
            reveal_strlit("PresentMode");
        }
        let a = match find_column(headers, "MsBetweenPresents") {
            Ok(i) => i,
            Err(e) => return Err(e),
        };
        let b = match find_column(headers, "MsGPUBusy") {
            Ok(i) => i,
            Err(e) => return Err(e),
        };
        let c = match find_column(headers, "MsCPUBusy") {
            Ok(i) => i,
            Err(e) => return Err(e),
        };
        let d = match find_column(headers, "MsRenderPresentLatency") {
            Ok(i) => i,
            Err(e) => return Err(e),
        };
        let e2 = match find_column(headers, "MsAnimationError") {
            Ok(i) => i,
            Err(e) => return Err(e),
        };
        let f = match find_column(headers, "PresentMode") {
            Ok(i) => i,
            Err(e) => return Err(e),
        };
        let r = ColumnIndex {
            ms_between_presents: a,
            ms_gpu_busy: b,
            ms_cpu_busy: c,
            ms_render_present_latency: d,
            ms_animation_error: e2,
            present_mode: f,
        };
        assert(r.positions() =~= resolved_columns(view_strings(headers@))->Ok_0);
        Ok(r)
    }
}

/// Whether a field holds no value: empty, or PresentMon's `NA` in any
/// case, whitespace aside.
pub open spec fn is_missing(field: Seq<char>) -> bool {
    trim_ws(field).len() == 0 || lower(trim_ws(field)) == "na"@
}

/// Whether a field holds no value (see [`is_missing`]); any other field
/// must parse as a number.
pub fn is_missing_value(field: &str) -> (b: bool)
    ensures
        b == is_missing(field@),
{
    let t = trim_ws_chars(&chars_of(field));
    if t.len() == 0 {
        return true;
    }
    let l = lower_chars(&t);
    let na = chars_of("na");
    proof {
        reveal_strlit("na");
    }
    chars_eq(&l, &na)
}

// ---------------------------------------------------------------------------
// The dominant presentation mode
// ---------------------------------------------------------------------------

/// How many of `modes` are `m`.
pub open spec fn count_of(modes: Seq<Seq<char>>, m: Seq<char>) -> nat
    decreases modes.len(),
{
    if modes.len() == 0 {
        0
    } else {
        count_of(modes.drop_last(), m) + if modes.last() == m {
            1nat
        } else {
            0nat
        }
    }
}

/// `d` is the capture's dominant mode: no mode is more frequent, and among
/// the most frequent it comes last in lexicographic order.
pub open spec fn is_dominant(modes: Seq<Seq<char>>, d: Seq<char>) -> bool {
    &&& modes.contains(d)
    &&& forall|i: int| 0 <= i < modes.len() ==> count_of(modes, #[trigger] modes[i]) <= count_of(modes, d)
    &&& forall|i: int|
        0 <= i < modes.len() && count_of(modes, #[trigger] modes[i]) == count_of(modes, d) ==> !seq_lt(d, modes[i])
}

/// Every frame of the capture went through the same mode.
pub open spec fn one_mode(modes: Seq<Seq<char>>) -> bool {
    forall|i: int| 0 <= i < modes.len() ==> #[trigger] modes[i] == modes[0]
}

proof fn lemma_count_absent(modes: Seq<Seq<char>>, m: Seq<char>)
    requires
        !modes.contains(m),
    ensures
        count_of(modes, m) == 0,
    decreases modes.len(),
{
    if modes.len() > 0 {
        assert(!modes.drop_last().contains(m)) by {
            if modes.drop_last().contains(m) {
                let k = choose|k: int| 0 <= k < modes.drop_last().len() && modes.drop_last()[k] == m;
                assert(modes[k] == m);
            }
        }
        assert(modes.last() != m) by {
            if modes.last() == m {
                assert(modes[modes.len() - 1] == m);
            }
        }
        lemma_count_absent(modes.drop_last(), m);
    }
}

/// The capture's dominant presentation mode (see [`is_dominant`]) and
/// whether every frame used it.
pub fn present_mode_summary(modes: &Vec<String>) -> (r: (String, bool))
    requires
        modes@.len() > 0,
    ensures
        is_dominant(view_strings(modes@), r.0@),
        r.1 == one_mode(view_strings(modes@)),
{
    let ghost ms = view_strings(modes@);
    // The distinct modes seen so far and how often each occurred.
    let mut keys: Vec<Vec<char>> = Vec::new();
    let mut counts: Vec<u64> = Vec::new();
    let mut i: usize = 0;
    while i < modes.len()
        invariant
            i <= modes.len(),
            ms == view_strings(modes@),
            keys.len() == counts.len(),
            forall|k: int| 0 <= k < keys.len() ==> #[trigger] counts@[k] == count_of(ms.take(i as int), keys@[k]@),
            forall|k: int| 0 <= k < keys.len() ==> #[trigger] counts@[k] <= i,
            forall|k1: int, k2: int| 0 <= k1 < k2 < keys.len() ==> keys@[k1]@ != keys@[k2]@,
            forall|j: int| #![trigger ms[j]] 0 <= j < i ==> exists|k: int| 0 <= k < keys.len() && #[trigger] keys@[k]@ == ms[j],
            forall|k: int| 0 <= k < keys.len() ==> ms.take(i as int).contains(#[trigger] keys@[k]@),
        decreases modes.len() - i,
    {
        let x = chars_of(modes[i].as_str());
        let ghost t0 = ms.take(i as int);
        let ghost t1 = ms.take(i + 1);
        assert(t1.drop_last() =~= t0);
        assert(t1.last() == x@);
        let mut k: usize = 0;
        while k < keys.len() && !chars_eq(&keys[k], &x)
            invariant
                k <= keys.len(),
                forall|q: int| 0 <= q < k ==> keys@[q]@ != x@,
            decreases keys.len() - k,
        {
            k += 1;
        }
        if k < keys.len() && chars_eq(&keys[k], &x) {
            let ghost old_counts = counts@;
            let c = counts[k];
            counts.set(k, c + 1);
            assert forall|q: int| 0 <= q < keys.len() implies #[trigger] counts@[q] == count_of(t1, keys@[q]@) by {
                if q != k {
                    assert(keys@[q]@ != x@);
                }
            }
            assert forall|q: int| 0 <= q < keys.len() implies t1.contains(#[trigger] keys@[q]@) by {
                assert(t0.contains(keys@[q]@));
                let w = choose|w: int| 0 <= w < t0.len() && t0[w] == keys@[q]@;
                assert(t1[w] == t0[w]);
            }
            assert forall|j: int| #![trigger ms[j]] 0 <= j < i + 1 implies exists|q: int| 0 <= q < keys.len() && #[trigger] keys@[q]@ == ms[j] by {
                if j == i {
                    assert(keys@[k as int]@ == ms[j]);
                }
            }
        } else {
            proof {
                assert(!t0.contains(x@)) by {
                    if t0.contains(x@) {
                        let w = choose|w: int| 0 <= w < t0.len() && t0[w] == x@;
                        assert(ms[w] == x@);
                        let q = choose|q: int| 0 <= q < keys.len() && #[trigger] keys@[q]@ == ms[w];
                    }
                }
                lemma_count_absent(t0, x@);
            }
            let ghost old_keys = keys@;
            keys.push(x);
            counts.push(1);
            assert forall|q: int| 0 <= q < keys.len() implies #[trigger] counts@[q] == count_of(t1, keys@[q]@) by {
                if q < old_keys.len() {
                    assert(keys@[q] == old_keys[q]);
                    assert(keys@[q]@ != x@);
                }
            }
            assert forall|q: int| 0 <= q < keys.len() implies t1.contains(#[trigger] keys@[q]@) by {
                if q < old_keys.len() {
                    assert(t0.contains(old_keys[q]@));
                    let w = choose|w: int| 0 <= w < t0.len() && t0[w] == old_keys[q]@;
                    assert(t1[w] == t0[w]);
                } else {
                    assert(t1[i as int] == x@);
                }
            }
            assert forall|j: int| #![trigger ms[j]] 0 <= j < i + 1 implies exists|q: int| 0 <= q < keys.len() && #[trigger] keys@[q]@ == ms[j] by {
                if j == i {
                    assert(keys@[old_keys.len() as int]@ == ms[j]);
                } else {
                    let q = choose|q: int| 0 <= q < old_keys.len() && #[trigger] old_keys[q]@ == ms[j];
                    assert(keys@[q] == old_keys[q]);
                }
            }
        }
        i += 1;
    }
    assert(ms.take(i as int) =~= ms);
    // The most frequent key; among equals, the greatest.
    proof {
        let q0 = choose|q: int| 0 <= q < keys.len() && #[trigger] keys@[q]@ == ms[0];
        assert(keys.len() > 0);
        lemma_seq_lt_irreflexive(keys@[0]@);
    }
    let mut b: usize = 0;
    let mut k: usize = 1;
    while k < keys.len()
        invariant
            1 <= k <= keys.len(),
            b < k,
            keys.len() == counts.len(),
            forall|q: int| 0 <= q < k ==> #[trigger] counts@[q] <= counts@[b as int],
            forall|q: int| 0 <= q < k && counts@[q] == counts@[b as int] ==> !seq_lt(keys@[b as int]@, #[trigger] keys@[q]@),
        decreases keys.len() - k,
    {
        if counts[k] > counts[b] || (counts[k] == counts[b] && crate::cs2_config::chars_less(&keys[b], &keys[k])) {
            let ghost ob = b as int;
            proof {
                if counts@[k as int] == counts@[ob] {
                    assert forall|q: int| 0 <= q < k && counts@[q] == counts@[k as int] implies !seq_lt(keys@[k as int]@, #[trigger] keys@[q]@) by {
                        if seq_lt(keys@[k as int]@, keys@[q]@) {
                            lemma_seq_lt_trichotomy(keys@[q]@, keys@[ob]@);
                            if seq_lt(keys@[q]@, keys@[ob]@) {
                                lemma_seq_lt_transitive(keys@[k as int]@, keys@[q]@, keys@[ob]@);
                                lemma_seq_lt_transitive(keys@[k as int]@, keys@[ob]@, keys@[k as int]@);
                                lemma_seq_lt_irreflexive(keys@[k as int]@);
                            } else if keys@[q]@ == keys@[ob]@ {
                                lemma_seq_lt_transitive(keys@[k as int]@, keys@[ob]@, keys@[k as int]@);
                                lemma_seq_lt_irreflexive(keys@[k as int]@);
                            }
                        }
                    }
                }
                lemma_seq_lt_irreflexive(keys@[k as int]@);
            }
            b = k;
        } else {
            proof {
                if counts@[k as int] == counts@[b as int] {
                    assert(!seq_lt(keys@[b as int]@, keys@[k as int]@));
                }
            }
        }
        k += 1;
    }
    let d = string_from_chars(&keys[b]);
    proof {
        assert(ms.contains(keys@[b as int]@));
        assert forall|j: int| 0 <= j < ms.len() implies count_of(ms, #[trigger] ms[j]) <= count_of(ms, d@) by {
            let q = choose|q: int| 0 <= q < keys.len() && #[trigger] keys@[q]@ == ms[j];
            assert(counts@[q] <= counts@[b as int]);
        }
        assert forall|j: int| 0 <= j < ms.len() && count_of(ms, #[trigger] ms[j]) == count_of(ms, d@) implies !seq_lt(d@, ms[j]) by {
            let q = choose|q: int| 0 <= q < keys.len() && #[trigger] keys@[q]@ == ms[j];
            assert(counts@[q] == counts@[b as int]);
        }
    }
    // One mode throughout exactly when one distinct mode was seen.
    let single = keys.len() == 1;
    proof {
        if single {
            assert forall|j: int| 0 <= j < ms.len() implies #[trigger] ms[j] == ms[0] by {
                let q = choose|q: int| 0 <= q < keys.len() && #[trigger] keys@[q]@ == ms[j];
                let q0 = choose|q: int| 0 <= q < keys.len() && #[trigger] keys@[q]@ == ms[0];
            }
        } else {
            assert(keys.len() >= 2);
            assert(ms.contains(keys@[0]@));
            assert(ms.contains(keys@[1]@));
            let w0 = choose|w: int| 0 <= w < ms.len() && ms[w] == keys@[0]@;
            let w1 = choose|w: int| 0 <= w < ms.len() && ms[w] == keys@[1]@;
            assert(keys@[0]@ != keys@[1]@);
            if one_mode(ms) {
                assert(ms[w0] == ms[0] && ms[w1] == ms[0]);
            }
        }
    }
    (d, single)
}

// ---------------------------------------------------------------------------
// Reading the rows of a capture
// ---------------------------------------------------------------------------

/// What the csv crate reads from a capture, with its first line as the
/// header: the header cells and the rows of cells, or the text of its
/// first error.
pub uninterp spec fn csv_table(bytes: Seq<u8>) -> Result<(Seq<Seq<char>>, Seq<Seq<Seq<char>>>), Seq<char>>;

/// Views rows of cells as sequences of character sequences.
pub open spec fn view_rows(rows: Seq<Vec<String>>) -> Seq<Seq<Seq<char>>> {
    rows.map_values(|r: Vec<String>| view_strings(r@))
}

/// Reads a capture with the csv crate (`ReaderBuilder::new().has_headers(true)`,
/// then `Reader::headers` and every item of `Reader::records`). Claimed:
/// the header and rows it hands back, or the text of its first error, are
/// [`csv_table`] of the bytes it was given.
#[verifier::external_body]
fn csv_records(bytes: &[u8]) -> (r: Result<(Vec<String>, Vec<Vec<String>>), String>)
    ensures
        match r {
            Ok((h, rows)) => csv_table(bytes@) == Ok::<(Seq<Seq<char>>, Seq<Seq<Seq<char>>>), Seq<char>>(
                (view_strings(h@), view_rows(rows@)),
            ),
            Err(m) => csv_table(bytes@) == Err::<(Seq<Seq<char>>, Seq<Seq<Seq<char>>>), Seq<char>>(m@),
        },
{
    let mut reader = csv::ReaderBuilder::new().has_headers(true).from_reader(bytes);
    let headers = reader.headers().map_err(|e| e.to_string())?.iter().map(String::from).collect();
    let rows = reader
        .records()
        .map(|rec| rec.map(|record| record.iter().map(String::from).collect()))
        .collect::<Result<Vec<Vec<String>>, csv::Error>>()
        .map_err(|e| e.to_string())?;
    Ok((headers, rows))
}

/// The raw texts of the fields one frame is read from: the frame time and
/// the presentation mode, and the optional timings where the row has a
/// cell for them. Turning them into numbers is the caller's.
#[derive(Clone, Debug)]
pub struct FrameFields {
    pub frame_time: String,
    pub gpu_busy: Option<String>,
    pub cpu_busy: Option<String>,
    pub render_latency: Option<String>,
    pub animation_error: Option<String>,
    pub present_mode: String,
}

/// A frame's field texts as plain values, in the order of the fields of
/// [`FrameFields`].
pub type FrameText = (Seq<char>, Option<Seq<char>>, Option<Seq<char>>, Option<Seq<char>>, Option<Seq<char>>, Seq<char>);

pub open spec fn opt_text(o: Option<String>) -> Option<Seq<char>> {
    match o {
        Some(s) => Some(s@),
        None => None,
    }
}

impl FrameFields {
    pub open spec fn text(self) -> FrameText {
        (
            self.frame_time@,
            opt_text(self.gpu_busy),
            opt_text(self.cpu_busy),
            opt_text(self.render_latency),
            opt_text(self.animation_error),
            self.present_mode@,
        )
    }
}

pub open spec fn frames_text(v: Seq<FrameFields>) -> Seq<FrameText> {
    v.map_values(|f: FrameFields| f.text())
}

/// The cell of `row` at `i`, if the row has one.
pub open spec fn cell(row: Seq<Seq<char>>, i: int) -> Option<Seq<char>> {
    if 0 <= i < row.len() {
        Some(row[i])
    } else {
        None
    }
}

/// One row's field texts, with the columns at `cols` (in the order of
/// [`needed_columns`]); a row without a frame time or without a
/// presentation mode is an error.
pub open spec fn frame_of(row: Seq<Seq<char>>, cols: Seq<int>) -> Result<FrameText, Seq<char>> {
    if cell(row, cols[0]) is None {
        Err("row missing MsBetweenPresents field"@)
    } else if cell(row, cols[5]) is None {
        Err("row missing PresentMode field"@)
    } else {
        Ok(
            (
                cell(row, cols[0])->Some_0,
                cell(row, cols[1]),
                cell(row, cols[2]),
                cell(row, cols[3]),
                cell(row, cols[4]),
                cell(row, cols[5])->Some_0,
            ),
        )
    }
}

/// The field texts of the first `n` rows, or the error of the first of
/// them that has one.
pub open spec fn frames_of(rows: Seq<Seq<Seq<char>>>, cols: Seq<int>, n: int) -> Result<Seq<FrameText>, Seq<char>>
    decreases n,
{
    if n <= 0 {
        Ok(Seq::empty())
    } else {
        match frames_of(rows, cols, n - 1) {
            Err(m) => Err(m),
            Ok(s) => match frame_of(rows[n - 1], cols) {
                Err(m) => Err(m),
                Ok(f) => Ok(s.push(f)),
            },
        }
    }
}

pub open spec fn no_rows_message() -> Seq<char> {
    "PresentMon CSV has no data rows (empty or truncated capture)"@
}

/// The bytes of a capture without its byte-order mark (see [`strip_bom`]).
pub open spec fn without_bom(bytes: Seq<u8>) -> Seq<u8> {
    if bytes.len() >= 3 && bytes.subrange(0, 3) == bom() {
        bytes.skip(3)
    } else {
        bytes
    }
}

/// What the rows of a table give, read under its header: a missing column,
/// a row without a frame time or presentation mode (the first such row),
/// or a table without rows, each as a `msg` error; else the field texts of
/// every row, in order.
pub open spec fn table_frames(headers: Seq<Seq<char>>, rows: Seq<Seq<Seq<char>>>) -> Result<Seq<FrameText>, (ErrorTag, Seq<char>)> {
    match resolved_columns(headers) {
        Err(m) => Err(msg_view(m)),
        Ok(cols) => match frames_of(rows, cols, rows.len() as int) {
            Err(m) => Err(msg_view(m)),
            Ok(frames) => if frames.len() == 0 {
                Err(msg_view(no_rows_message()))
            } else {
                Ok(frames)
            },
        },
    }
}

/// What reading a capture gives: the csv crate's error as a `csv` error,
/// else what its rows give under its header (see [`table_frames`]).
pub open spec fn capture_rows(bytes: Seq<u8>) -> Result<Seq<FrameText>, (ErrorTag, Seq<char>)> {
    match csv_table(without_bom(bytes)) {
        Err(m) => Err((ErrorTag::Csv, "csv: "@ + m)),
        Ok((headers, rows)) => table_frames(headers, rows),
    }
}

fn cell_at(row: &Vec<String>, i: usize) -> (r: Option<String>)
    ensures
        opt_text(r) == cell(view_strings(row@), i as int),
{
    if i < row.len() {
        Some(row[i].clone())
    } else {
        None
    }
}

proof fn lemma_frames_len(rows: Seq<Seq<Seq<char>>>, cols: Seq<int>, n: int)
    requires
        0 <= n,
        frames_of(rows, cols, n) is Ok,
    ensures
        frames_of(rows, cols, n)->Ok_0.len() == n,
    decreases n,
{
    if n > 0 {
        lemma_frames_len(rows, cols, n - 1);
    }
}

proof fn lemma_frames_err_stays(rows: Seq<Seq<Seq<char>>>, cols: Seq<int>, n: int, m: int)
    requires
        0 <= n <= m,
        frames_of(rows, cols, n) is Err,
    ensures
        frames_of(rows, cols, m) == frames_of(rows, cols, n),
    decreases m - n,
{
    if m > n {
        lemma_frames_err_stays(rows, cols, n, m - 1);
    }
}

/// Reads the rows of a table under its header into the raw texts of the
/// fields each frame is built from; see [`table_frames`] for which errors
/// come, and in what order.
#[verifier::rlimit(30)]
pub fn frames_from_table(headers: &[String], rows: &Vec<Vec<String>>) -> (r: Result<Vec<FrameFields>, Error>)
    ensures
        table_frames(view_strings(headers@), view_rows(rows@)) == match r {
            Ok(v) => Ok::<Seq<FrameText>, (ErrorTag, Seq<char>)>(frames_text(v@)),
            Err(e) => Err::<Seq<FrameText>, (ErrorTag, Seq<char>)>(err_view(e)),
        },
{
    let ghost hv = view_strings(headers@);
    let ghost rv = view_rows(rows@);
    let cols = match ColumnIndex::resolve(headers) {
        Ok(c) => c,
        Err(e) => return Err(e),
    };
    let ghost cv = cols.positions();
    proof {
        reveal_strlit("row missing MsBetweenPresents field");
        reveal_strlit("row missing PresentMode field");
    }
    let mut out: Vec<FrameFields> = Vec::new();
    assert(frames_text(out@) =~= Seq::<FrameText>::empty());
    let mut i: usize = 0;
    while i < rows.len()
        invariant
            i <= rows.len(),
            hv == view_strings(headers@),
            rv == view_rows(rows@),
            resolved_columns(hv) == Ok::<Seq<int>, Seq<char>>(cv),
            cv == cols.positions(),
            frames_of(rv, cv, i as int) == Ok::<Seq<FrameText>, Seq<char>>(frames_text(out@)),
        decreases rows.len() - i,
    {
        let row = &rows[i];
        assert(rv[i as int] == view_strings(row@));
        let frame_time = match cell_at(row, cols.ms_between_presents) {
            Some(s) => s,
            None => {
                proof {
                    lemma_frames_err_stays(rv, cv, i as int + 1, rows.len() as int);
                }
                return Err(err_msg("row missing MsBetweenPresents field"));
            },
        };
        let present_mode = match cell_at(row, cols.present_mode) {
            Some(s) => s,
            None => {
                proof {
                    lemma_frames_err_stays(rv, cv, i as int + 1, rows.len() as int);
                }
                return Err(err_msg("row missing PresentMode field"));
            },
        };
        let f = FrameFields {
            frame_time,
            gpu_busy: cell_at(row, cols.ms_gpu_busy),
            cpu_busy: cell_at(row, cols.ms_cpu_busy),
            render_latency: cell_at(row, cols.ms_render_present_latency),
            animation_error: cell_at(row, cols.ms_animation_error),
            present_mode,
        };
        let ghost before = out@;
        out.push(f);
        assert(frames_text(out@) =~= frames_text(before).push(f.text()));
        i += 1;
    }
    proof {
        lemma_frames_len(rv, cv, rows.len() as int);
    }
    if out.len() == 0 {
        return Err(err_msg("PresentMon CSV has no data rows (empty or truncated capture)"));
    }
    Ok(out)
}

/// Reads a PresentMon capture (after [`strip_bom`]) with the csv crate and
/// its rows into the raw texts of the fields each frame is built from; see
/// [`capture_rows`].
pub fn presentmon_rows(bytes: &[u8]) -> (r: Result<Vec<FrameFields>, Error>)
    ensures
        capture_rows(bytes@) == match r {
            Ok(v) => Ok::<Seq<FrameText>, (ErrorTag, Seq<char>)>(frames_text(v@)),
            Err(e) => Err::<Seq<FrameText>, (ErrorTag, Seq<char>)>(err_view(e)),
        },
{
    let body = strip_bom(bytes);
    match csv_records(body) {
        Ok((headers, rows)) => frames_from_table(&headers, &rows),
        Err(m) => {
            proof {
                reveal_strlit("csv: ");
            }
            Err(Error::csv(m))
        },
    }
}

} // verus!
