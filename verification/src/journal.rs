//! The mutation journal: one record per system change, written before the
//! change is applied and confirmed after, with the inverse that undoes it.

use crate::error::err_view;
use crate::json::{model_index, model_str, JsonModel, JsonValue};
use crate::module::{registry_m1_error, script_m1_error, CustomScriptPayload, Hive, Module, RegType, RegistryPayload};
use crate::text::{decimal, decimal_chars, push_chars, push_str, str_eq, string_from_chars};
use vstd::prelude::*;

verus! {

broadcast use vstd::string::group_string_axioms;

/// What a journal record changed.
#[derive(Clone, Copy, Debug, PartialEq, Eq, Structural)]
pub enum Op {
    RegistryWrite,
    RegistryDelete,
    PowercfgWrite,
    PowerPlanActivate,
    PowerPlanCreate,
    PowerPlanDelete,
    CustomScriptApply,
    Cs2ConfigApply,
}

/// One journaled mutation.
#[derive(Debug)]
pub struct JournalRecord {
    pub seq: u64,
    pub ts_unix_ms: u128,
    pub run_id: String,
    pub scenario_id: String,
    pub step_index: u32,
    pub op: Op,
    pub target: JsonValue,
    pub new: JsonValue,
    pub inverse: JsonValue,
    pub applied: bool,
}

/// One line of a journal file, as read.
#[derive(Debug)]
pub enum JournalLine {
    /// A full record.
    Record(JournalRecord),
    /// A confirmation `{"seq": .., "applied": ..}` for an earlier record.
    Applied { seq: u64, applied: bool },
    /// Anything else (blank, torn or unreadable): ignored.
    Other,
}

/// A record's `seq` and `applied` flag.
pub open spec fn seq_applied(r: JournalRecord) -> (u64, bool) {
    (r.seq, r.applied)
}

/// The index of the first record with sequence number `seq`.
pub open spec fn first_with_seq(rs: Seq<(u64, bool)>, seq: u64) -> Option<int>
    decreases rs.len(),
{
    if rs.len() == 0 {
        None
    } else {
        match first_with_seq(rs.drop_last(), seq) {
            Some(i) => Some(i),
            None => if rs.last().0 == seq {
                Some(rs.len() - 1)
            } else {
                None
            },
        }
    }
}

/// The `(seq, applied)` of every record after reading `lines` in order: a
/// record line adds a record, a confirmation sets `applied` on the first
/// earlier record with its `seq` (and is ignored when there is none).
pub open spec fn replayed(lines: Seq<(bool, u64, bool)>) -> Seq<(u64, bool)>
    decreases lines.len(),
{
    if lines.len() == 0 {
        seq![]
    } else {
        let rs = replayed(lines.drop_last());
        let (is_record, seq, applied) = lines.last();
        if is_record {
            rs.push((seq, applied))
        } else {
            match first_with_seq(rs, seq) {
                Some(i) => rs.update(i, (seq, applied)),
                None => rs,
            }
        }
    }
}

/// A journal line as plain values: is it a record, its `seq`, its
/// `applied`; `None` for a line that is ignored.
pub open spec fn line_view(l: JournalLine) -> Option<(bool, u64, bool)> {
    match l {
        JournalLine::Record(r) => Some((true, r.seq, r.applied)),
        JournalLine::Applied { seq, applied } => Some((false, seq, applied)),
        JournalLine::Other => None,
    }
}

/// The lines that are not ignored, as plain values.
pub open spec fn lines_view(ls: Seq<JournalLine>) -> Seq<(bool, u64, bool)>
    decreases ls.len(),
{
    if ls.len() == 0 {
        seq![]
    } else {
        match line_view(ls.last()) {
            Some(v) => lines_view(ls.drop_last()).push(v),
            None => lines_view(ls.drop_last()),
        }
    }
}

/// The records after reading `lines` in order: each record line adds its
/// record as written; a confirmation sets `applied` (and nothing else) on
/// the first earlier record with its `seq`, and is ignored when there is
/// none; any other line is ignored.
pub open spec fn replayed_records(ls: Seq<JournalLine>) -> Seq<JournalRecord>
    decreases ls.len(),
{
    if ls.len() == 0 {
        seq![]
    } else {
        let rs = replayed_records(ls.drop_last());
        match ls.last() {
            JournalLine::Record(r) => rs.push(r),
            JournalLine::Applied { seq, applied } => match first_with_seq(
                rs.map_values(|x: JournalRecord| seq_applied(x)),
                seq,
            ) {
                Some(i) => rs.update(i, JournalRecord { applied: applied, ..rs[i] }),
                None => rs,
            },
            JournalLine::Other => rs,
        }
    }
}

/// The records of a journal, in file order, each as its record line wrote
/// it but for its `applied` flag, which is as its confirmations left it
/// (`Journal::load_pending`).
pub fn replay_lines(lines: Vec<JournalLine>) -> (r: Vec<JournalRecord>)
    ensures
        r@ == replayed_records(lines@),
        r@.map_values(|x: JournalRecord| seq_applied(x)) == replayed(lines_view(lines@)),
{
    let ghost all = lines@;
    let total = lines.len();
    let mut records: Vec<JournalRecord> = Vec::new();
    let mut rest = lines;
    let ghost n = all.len();
    assert(rest@ =~= all.skip(0));
    let mut k: usize = 0;
    while rest.len() > 0
        invariant
            rest@ == all.skip(k as int),
            k <= n,
            n == all.len(),
            n == total,
            rest.len() == n - k,
            records@.map_values(|x: JournalRecord| seq_applied(x)) == replayed(lines_view(all.take(k as int))),
            records@ == replayed_records(all.take(k as int)),
        decreases rest.len(),
    {
        let ghost before = records@.map_values(|x: JournalRecord| seq_applied(x));
        let ghost before_records = records@;
        let line = rest.remove(0);
        assert(line == all[k as int]) by {
            assert(all.skip(k as int)[0] == all[k as int]);
        }
        assert(all.take(k + 1).drop_last() =~= all.take(k as int));
        assert(all.take(k + 1).last() == all[k as int]);
        let ghost lv = lines_view(all.take(k as int));
        match line {
            JournalLine::Record(rec) => {
                let ghost x = (true, rec.seq, rec.applied);
                assert(lines_view(all.take(k + 1)) == lv.push(x));
                assert(lv.push(x).drop_last() =~= lv);
                let ghost sa = seq_applied(rec);
                records.push(rec);
                assert(records@.map_values(|x: JournalRecord| seq_applied(x)) =~= before.push(sa));
                assert(records@ =~= before_records.push(rec));
            },
            JournalLine::Applied { seq, applied } => {
                let ghost x = (false, seq, applied);
                assert(lines_view(all.take(k + 1)) == lv.push(x));
                assert(lv.push(x).drop_last() =~= lv);
                let mut i: usize = 0;
                while i < records.len() && records[i].seq != seq
                    invariant
                        i <= records.len(),
                        before == records@.map_values(|x: JournalRecord| seq_applied(x)),
                        forall|q: int| 0 <= q < i ==> records@[q].seq != seq,
                    decreases records.len() - i,
                {
                    i += 1;
                }
                proof {
                    lemma_first_with_seq(before, seq, i as int);
                }
                if i < records.len() {
                    let mut r = records.remove(i);
                    let ghost old_r = r;
                    r.applied = applied;
                    assert(r == JournalRecord { applied: applied, ..old_r });
                    records.insert(i, r);
                    assert(records@ =~= before_records.update(i as int, JournalRecord { applied: applied, ..before_records[i as int] }));
                    assert(records@.map_values(|x: JournalRecord| seq_applied(x)) =~= before.update(i as int, (seq, applied)));
                } else {
                    assert(records@ =~= before_records);
                }
            },
            JournalLine::Other => {
                assert(lines_view(all.take(k + 1)) == lv);
            },
        }
        k += 1;
        assert(rest@ =~= all.skip(k as int));
    }
    assert(all.take(n as int) =~= all);
    records
}

proof fn lemma_first_with_seq(rs: Seq<(u64, bool)>, seq: u64, i: int)
    requires
        0 <= i <= rs.len(),
        forall|q: int| 0 <= q < i ==> rs[q].0 != seq,
        i < rs.len() ==> rs[i].0 == seq,
    ensures
        first_with_seq(rs, seq) == if i < rs.len() {
            Some(i)
        } else {
            None::<int>
        },
    decreases rs.len(),
{
    if rs.len() > 0 {
        if i < rs.len() - 1 || i == rs.len() {
            let j = if i == rs.len() { i - 1 } else { i };
            lemma_first_with_seq(rs.drop_last(), seq, if i == rs.len() { rs.len() - 1 } else { i });
        } else {
            lemma_first_with_seq(rs.drop_last(), seq, rs.len() - 1);
        }
    }
}

/// The largest sequence number among `seqs`, or 0.
pub open spec fn max_seq(seqs: Seq<u64>) -> u64
    decreases seqs.len(),
{
    if seqs.len() == 0 {
        0
    } else {
        let m = max_seq(seqs.drop_last());
        if seqs.last() > m {
            seqs.last()
        } else {
            m
        }
    }
}

/// The largest recorded sequence number bounds every recorded one.
pub proof fn lemma_max_seq_bounds(seqs: Seq<u64>)
    ensures
        forall|i: int| 0 <= i < seqs.len() ==> #[trigger] seqs[i] <= max_seq(seqs),
    decreases seqs.len(),
{
    if seqs.len() > 0 {
        lemma_max_seq_bounds(seqs.drop_last());
        assert forall|i: int| 0 <= i < seqs.len() implies #[trigger] seqs[i] <= max_seq(seqs) by {
            if i < seqs.len() - 1 {
                assert(seqs[i] == seqs.drop_last()[i]);
            }
        }
    }
}

/// A reopened journal never reuses a sequence number: the one it continues
/// from is greater than every number already in the file.
pub proof fn lemma_next_seq_is_fresh(seqs: Seq<u64>)
    ensures
        forall|i: int| 0 <= i < seqs.len() ==> #[trigger] seqs[i] < max_seq(seqs) + 1,
{
    lemma_max_seq_bounds(seqs);
}

/// The sequence number a reopened journal continues from: one past the
/// largest recorded one (1 for an empty journal).
pub fn next_seq(seqs: &[u64]) -> (n: u64)
    requires
        forall|i: int| 0 <= i < seqs@.len() ==> seqs@[i] < u64::MAX,
    ensures
        n == max_seq(seqs@) + 1,
{
    let mut m: u64 = 0;
    let mut i: usize = 0;
    while i < seqs.len()
        invariant
            i <= seqs.len(),
            m == max_seq(seqs@.take(i as int)),
            m < u64::MAX,
            forall|j: int| 0 <= j < seqs@.len() ==> seqs@[j] < u64::MAX,
        decreases seqs.len() - i,
    {
        assert(seqs@.take(i + 1).drop_last() =~= seqs@.take(i as int));
        if seqs[i] > m {
            m = seqs[i];
        }
        i += 1;
    }
    assert(seqs@.take(i as int) =~= seqs@);
    m + 1
}

/// The text of a JSON string, or empty.
pub open spec fn str_or_empty(v: JsonModel) -> Seq<char> {
    match model_str(v) {
        Some(s) => s,
        None => Seq::<char>::empty(),
    }
}

/// `seq {n}: ` for a message about record `n`.
pub open spec fn seq_prefix(seq: u64) -> Seq<char> {
    "seq "@ + decimal(seq as nat) + ": "@
}

/// Why a record's inverse cannot be trusted for a revert, if it cannot:
/// a registry inverse must name a hive and a target the registry module
/// itself would accept; a custom-script inverse must name a revert script
/// the custom-script module itself would accept.
pub open spec fn inverse_error(op: Op, seq: u64, inv: JsonModel) -> Option<Seq<char>> {
    match op {
        Op::RegistryWrite | Op::RegistryDelete => {
            let t = model_index(inv, "target"@);
            let hive = model_str(model_index(t, "hive"@));
            if hive != Some("HKLM"@) && hive != Some("HKCU"@) {
                Some(seq_prefix(seq) + "inverse has no hive"@)
            } else {
                match registry_m1_error(
                    str_or_empty(model_index(t, "subkey"@)),
                    str_or_empty(model_index(t, "value_name"@)),
                ) {
                    Some(e) => Some(seq_prefix(seq) + "inverse rejected: "@ + e.1),
                    None => None,
                }
            }
        },
        Op::CustomScriptApply => match script_m1_error(
            "placeholder.bat"@,
            str_or_empty(model_index(inv, "revert_path"@)),
        ) {
            Some(e) => Some(seq_prefix(seq) + "inverse rejected: "@ + e.1),
            None => None,
        },
        _ => None,
    }
}

pub(crate) fn member_or_null<'a>(v: &'a JsonValue, key: &str, null: &'a JsonValue) -> (r: &'a JsonValue)
    requires
        null.model() == JsonModel::Null,
    ensures
        r.model() == model_index(v.model(), key@),
{
    proof {
        if let JsonValue::Object(m) = v {
            crate::json::lemma_lookup_model(*m, key@);
        }
    }
    match v.get(key) {
        Some(m) => m,
        None => null,
    }
}

pub(crate) fn str_of<'a>(v: &'a JsonValue) -> (r: &'a str)
    ensures
        r@ == str_or_empty(v.model()),
{
    proof {
        reveal_strlit("");
    }
    match v.as_str() {
        Some(s) => s,
        None => "",
    }
}

pub(crate) fn seq_message(seq: u64, tail: &str, detail: &str) -> (r: String)
    ensures
        r@ == seq_prefix(seq) + tail@ + detail@,
{
    let mut out: Vec<char> = Vec::new();
    push_str(&mut out, "seq ");
    let d = decimal_chars(seq);
    push_chars(&mut out, &d);
    push_str(&mut out, ": ");
    push_str(&mut out, tail);
    push_str(&mut out, detail);
    string_from_chars(&out)
}

/// Checks a record's inverse before it is replayed (see
/// [`inverse_error`]); the error is the message to report.
pub fn validate_inverse(rec: &JournalRecord) -> (r: Result<(), String>)
    ensures
        match r {
            Ok(()) => inverse_error(rec.op, rec.seq, rec.inverse.model()) is None,
            Err(m) => inverse_error(rec.op, rec.seq, rec.inverse.model()) == Some(m@),
        },
{
    let null = JsonValue::Null;
    proof {
        reveal_strlit("");
    }
    match rec.op {
        Op::RegistryWrite | Op::RegistryDelete => {
            let t = member_or_null(&rec.inverse, "target", &null);
            let hive_v = member_or_null(t, "hive", &null);
            let hive = match hive_v.as_str() {
                Some(h) => if str_eq(h, "HKLM") {
                    Hive::Hklm
                } else if str_eq(h, "HKCU") {
                    Hive::Hkcu
                } else {
                    return Err(seq_message(rec.seq, "inverse has no hive", ""));
                },
                None => return Err(seq_message(rec.seq, "inverse has no hive", "")),
            };
            let subkey = str_of(member_or_null(t, "subkey", &null));
            let value_name = str_of(member_or_null(t, "value_name", &null));
            let m = Module::Registry(
                RegistryPayload {
                    hive,
                    subkey: subkey.to_owned(),
                    value_name: value_name.to_owned(),
                    value_type: RegType::Dword,
                    value: JsonValue::Null,
                    requires_reboot: false,
                },
            );
            match m.require_m1_supported() {
                Ok(()) => Ok(()),
                Err(e) => {
                    let text = e.message();
                    Err(seq_message(rec.seq, "inverse rejected: ", text.as_str()))
                },
            }
        },
        Op::CustomScriptApply => {
            let revert = str_of(member_or_null(&rec.inverse, "revert_path", &null));
            let m = Module::CustomScript(
                CustomScriptPayload {
                    apply_script: "placeholder.bat".to_owned(),
                    revert_script: revert.to_owned(),
                    requires_reboot: false,
                    description: String::new(),
                },
            );
            match m.require_m1_supported() {
                Ok(()) => Ok(()),
                Err(e) => {
                    let text = e.message();
                    Err(seq_message(rec.seq, "inverse rejected: ", text.as_str()))
                },
            }
        },
        _ => Ok(()),
    }
}

/// What replaying a journal did: how many records were reverted, and every
/// failure met on the way (a rejected inverse, a failed revert, a value
/// that did not read back as expected); none of them stops the replay.
#[derive(Clone, Debug)]
pub struct RevertReport {
    pub reverted: u32,
    pub verify_failures: Vec<String>,
}

impl Default for RevertReport {
    /// Nothing reverted, no failure.
    fn default() -> (r: Self)
        ensures
            r.reverted == 0,
            r.verify_failures@.len() == 0,
    {
        RevertReport { reverted: 0, verify_failures: Vec::new() }
    }
}

impl RevertReport {
    /// A record whose inverse was rejected (see [`validate_inverse`]) is
    /// not reverted; the rejection is reported.
    pub fn note_rejected(&mut self, message: String)
        ensures
            final(self).reverted == old(self).reverted,
            final(self).verify_failures@ == old(self).verify_failures@.push(message),
    {
        self.verify_failures.push(message);
    }

    /// A record was reverted; a failed read-back check is reported.
    pub fn note_reverted(&mut self, verified: Result<(), String>)
        requires
            old(self).reverted < u32::MAX,
        ensures
            final(self).reverted == old(self).reverted + 1,
            final(self).verify_failures@ == match verified {
                Ok(()) => old(self).verify_failures@,
                Err(m) => old(self).verify_failures@.push(m),
            },
    {
        self.reverted = self.reverted + 1;
        match verified {
            Ok(()) => {},
            Err(m) => self.verify_failures.push(m),
        }
    }

    /// Reverting record `seq` failed: reported as
    /// `seq <n>: revert failed: <error>`.
    pub fn note_revert_failed(&mut self, seq: u64, error: &crate::error::Error)
        ensures
            final(self).reverted == old(self).reverted,
            final(self).verify_failures@.len() == old(self).verify_failures@.len() + 1,
            final(self).verify_failures@.drop_last() == old(self).verify_failures@,
            final(self).verify_failures@.last()@ == seq_prefix(seq) + "revert failed: "@ + err_view(*error).1,
    {
        let m = error.message();
        let line = seq_message(seq, "revert failed: ", m.as_str());
        self.verify_failures.push(line);
        assert(self.verify_failures@.drop_last() =~= old(self).verify_failures@);
    }
}

/// Whether a file name is a journal's: `journal-*.jsonl`.
pub open spec fn is_journal_name(name: Seq<char>) -> bool {
    name.len() >= 8 && name.subrange(0, 8) == "journal-"@ && name.len() >= 6
        && name.subrange(name.len() - 6, name.len() as int) == ".jsonl"@
}

fn has_prefix_at(s: &Vec<char>, at: usize, p: &Vec<char>) -> (b: bool)
    requires
        at + p.len() <= s.len(),
    ensures
        b == (s@.subrange(at as int, at + p.len()) == p@),
{
    let mut k: usize = 0;
    while k < p.len()
        invariant
            k <= p.len(),
            at + p.len() <= s.len(),
            forall|q: int| 0 <= q < k ==> s@[at + q] == p@[q],
        decreases p.len() - k,
    {
        if s[at + k] != p[k] {
            assert(s@.subrange(at as int, at + p.len())[k as int] != p@[k as int]);
            return false;
        }
        k += 1;
    }
    assert(s@.subrange(at as int, at + p.len()) =~= p@);
    true
}

/// Whether `name` is a journal file's name (`journal-*.jsonl`).
pub fn is_journal_file_name(name: &str) -> (b: bool)
    ensures
        b == is_journal_name(name@),
{
    let cs = crate::text::chars_of(name);
    let pre = crate::text::chars_of("journal-");
    let suf = crate::text::chars_of(".jsonl");
    proof {
        reveal_strlit("journal-");
        reveal_strlit(".jsonl");
    }
    if cs.len() < 8 || cs.len() < 6 {
        return false;
    }
    has_prefix_at(&cs, 0, &pre) && has_prefix_at(&cs, cs.len() - 6, &suf)
}

/// The ids of a project's scenarios in run order: the baseline first, then
/// the enabled scenarios.
pub open spec fn run_order_ids(p: crate::model::Project) -> Seq<Seq<char>> {
    seq!["baseline"@] + crate::model::enabled_of(p.scenarios@).map_values(|s: crate::model::Scenario| s.id@)
}

/// The ids of a project's scenarios in run order.
pub fn ordered_scenario_ids(p: &crate::model::Project) -> (r: Vec<String>)
    ensures
        crate::text::view_strings(r@) == run_order_ids(*p),
{
    let en = p.enabled_scenarios();
    let ghost es = en@.map_values(|s: &crate::model::Scenario| *s);
    let mut out: Vec<String> = Vec::new();
    out.push("baseline".to_owned());
    let mut i: usize = 0;
    while i < en.len()
        invariant
            i <= en.len(),
            es == en@.map_values(|s: &crate::model::Scenario| *s),
            es == crate::model::enabled_of(p.scenarios@),
            crate::text::view_strings(out@) == seq!["baseline"@] + es.take(i as int).map_values(|s: crate::model::Scenario| s.id@),
        decreases en.len() - i,
    {
        let ghost before = out@;
        out.push(en[i].id.clone());
        assert(crate::text::view_strings(out@) =~= crate::text::view_strings(before).push(es[i as int].id@));
        assert(es.take(i + 1).map_values(|s: crate::model::Scenario| s.id@) =~= es.take(i as int).map_values(|s: crate::model::Scenario| s.id@).push(es[i as int].id@));
        i += 1;
    }
    assert(es.take(i as int) =~= es);
    out
}

/// The journal of the scenario a run is in the middle of, if it is applying
/// or measuring one.
pub open spec fn in_flight_name(stage: crate::model::Stage, index: u32, ids: Seq<Seq<char>>) -> Option<Seq<char>> {
    if (stage == crate::model::Stage::Apply || stage == crate::model::Stage::Measure) && index < ids.len() {
        Some("journal-"@ + ids[index as int] + ".jsonl"@)
    } else {
        None
    }
}

/// The file name of the journal a run is in the middle of, if any: the one
/// of the scenario at the cursor while it is being applied or measured.
pub fn in_flight_journal(cursor: crate::model::Cursor, ordered_ids: &[String]) -> (r: Option<String>)
    ensures
        match r {
            Some(n) => in_flight_name(cursor.stage, cursor.index, crate::text::view_strings(ordered_ids@)) == Some(n@),
            None => in_flight_name(cursor.stage, cursor.index, crate::text::view_strings(ordered_ids@)) is None,
        },
{
    let active = match cursor.stage {
        crate::model::Stage::Apply | crate::model::Stage::Measure => true,
        _ => false,
    };
    if active && (cursor.index as usize) < ordered_ids.len() {
        let mut out: Vec<char> = Vec::new();
        push_str(&mut out, "journal-");
        push_str(&mut out, ordered_ids[cursor.index as usize].as_str());
        push_str(&mut out, ".jsonl");
        Some(string_from_chars(&out))
    } else {
        None
    }
}

/// Whether a journal still needs reverting: it is the in-flight one, or it
/// holds a record whose change was never confirmed. With no progress file
/// every journal is live.
pub fn journal_is_live(name: &str, has_unconfirmed: bool, progress_known: bool, in_flight: Option<&str>) -> (b: bool)
    ensures
        b == (!progress_known || (in_flight matches Some(f) && f@ == name@) || has_unconfirmed),
{
    if !progress_known {
        return true;
    }
    let is_in_flight = match in_flight {
        Some(f) => str_eq(f, name),
        None => false,
    };
    is_in_flight || has_unconfirmed
}

} // verus!
