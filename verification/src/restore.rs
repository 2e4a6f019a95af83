//! `VOIDFRAME_RESTORE.bat`: a batch script that undoes every journaled
//! mutation, last applied first, for when VOIDFRAME itself cannot.

use crate::journal::{inverse_error, str_or_empty, validate_inverse, JournalRecord, Op};
use crate::json::{json_display, json_text, model_index, model_str, JsonModel, JsonValue};
use crate::model::{joined_path, tool_path_under};
use crate::registry::strings_of;
use crate::text::{decimal, decimal_chars, join, push_chars, push_str, str_eq, string_from_chars};
use vstd::prelude::*;

verus! {

broadcast use vstd::string::group_string_axioms;

pub const RESTORE_SCRIPT_NAME: &'static str = "VOIDFRAME_RESTORE.bat";
pub const SCRIPTS_DIR_NAME: &'static str = "VOIDFRAME_RESTORE_scripts";
pub const CS2_SNAPSHOT_NAME: &'static str = "VOIDFRAME_RESTORE.cs2_video.snapshot.txt";

/// A character escaped for a double-quoted batch argument: `%` doubled and
/// `"` preceded by a backslash.
pub open spec fn bat_char(c: char) -> Seq<char> {
    if c == '%' {
        seq!['%', '%']
    } else if c == '"' {
        seq!['\\', '"']
    } else {
        seq![c]
    }
}

/// `s` escaped for a double-quoted batch argument.
pub open spec fn bat_escaped(s: Seq<char>) -> Seq<char>
    decreases s.len(),
{
    if s.len() == 0 {
        seq![]
    } else {
        bat_escaped(s.drop_last()) + bat_char(s.last())
    }
}

/// Escapes `s` for a double-quoted batch argument.
pub fn bat_quote(s: &str) -> (r: String)
    ensures
        r@ == bat_escaped(s@),
{
    let cs = crate::text::chars_of(s);
    let mut out: Vec<char> = Vec::new();
    let mut i: usize = 0;
    while i < cs.len()
        invariant
            i <= cs.len(),
            cs@ == s@,
            out@ == bat_escaped(s@.take(i as int)),
        decreases cs.len() - i,
    {
        assert(s@.take(i + 1).drop_last() =~= s@.take(i as int));
        let c = cs[i];
        let ghost before = out@;
        if c == '%' {
            out.push('%');
            out.push('%');
        } else if c == '"' {
            out.push('\\');
            out.push('"');
        } else {
            out.push(c);
        }
        assert(out@ =~= before + bat_char(c));
        i += 1;
    }
    assert(s@.take(i as int) =~= s@);
    string_from_chars(&out)
}

/// The `reg add /t` flag for a journaled value type (`REG_SZ` for anything
/// unknown).
pub open spec fn reg_flag(t: Seq<char>) -> Seq<char> {
    if t == "DWORD"@ {
        "REG_DWORD"@
    } else if t == "QWORD"@ {
        "REG_QWORD"@
    } else if t == "SZ"@ {
        "REG_SZ"@
    } else if t == "EXPAND_SZ"@ {
        "REG_EXPAND_SZ"@
    } else if t == "MULTI_SZ"@ {
        "REG_MULTI_SZ"@
    } else if t == "BINARY"@ {
        "REG_BINARY"@
    } else {
        "REG_SZ"@
    }
}

pub fn reg_type_flag(t: &str) -> (r: &'static str)
    ensures
        r@ == reg_flag(t@),
{
    if str_eq(t, "DWORD") {
        "REG_DWORD"
    } else if str_eq(t, "QWORD") {
        "REG_QWORD"
    } else if str_eq(t, "SZ") {
        "REG_SZ"
    } else if str_eq(t, "EXPAND_SZ") {
        "REG_EXPAND_SZ"
    } else if str_eq(t, "MULTI_SZ") {
        "REG_MULTI_SZ"
    } else if str_eq(t, "BINARY") {
        "REG_BINARY"
    } else {
        "REG_SZ"
    }
}

/// The text of a JSON string, or `dflt`.
pub open spec fn str_or(v: JsonModel, dflt: Seq<char>) -> Seq<char> {
    match model_str(v) {
        Some(s) => s,
        None => dflt,
    }
}

/// The `reg add /d` data for a journaled value: a MULTI_SZ's strings joined
/// by `\0`, a DWORD's or QWORD's value as JSON text, anything else's string.
pub open spec fn value_arg(v: JsonModel) -> Seq<char> {
    let t = model_str(model_index(v, "type"@));
    let val = model_index(v, "value"@);
    if t == Some("MULTI_SZ"@) {
        match val {
            JsonModel::Array(vs) => join(strings_of(vs), "\\0"@),
            _ => Seq::<char>::empty(),
        }
    } else if t == Some("DWORD"@) || t == Some("QWORD"@) {
        json_display(val)
    } else {
        str_or_empty(val)
    }
}

/// The lines that undo a registry write or delete.
pub open spec fn registry_lines(inv: JsonModel) -> Seq<char> {
    let t = model_index(inv, "target"@);
    let key = str_or(model_index(t, "hive"@), "HKLM"@) + seq!['\\'] + str_or_empty(
        model_index(t, "subkey"@),
    );
    let name = bat_escaped(str_or_empty(model_index(t, "value_name"@)));
    if model_str(model_index(inv, "kind"@)) == Some("delete"@) {
        "reg delete \""@ + key + "\" /v \""@ + name + "\" /f\r\n"@
    } else {
        let v = model_index(inv, "value"@);
        "reg add \""@ + key + "\" /v \""@ + name + "\" /t "@ + reg_flag(
            str_or(model_index(v, "type"@), "SZ"@),
        ) + " /d \""@ + bat_escaped(value_arg(v)) + "\" /f\r\n"@
    }
}

/// The lines that restore a power setting's AC and DC values.
pub open spec fn powercfg_lines(inv: JsonModel) -> Seq<char> {
    let sub = str_or_empty(model_index(inv, "sub"@));
    let setting = str_or_empty(model_index(inv, "setting"@));
    let value = match model_index(inv, "value"@) {
        JsonModel::UInt(n) => n,
        _ => 0,
    };
    let tail = sub + seq![' '] + setting + seq![' '] + decimal(value as nat) + "\r\n"@;
    "powercfg /setacvalueindex SCHEME_CURRENT "@ + tail + "powercfg /setdcvalueindex SCHEME_CURRENT "@
        + tail
}

/// The line that runs a custom script's revert script, or says why not.
pub open spec fn script_lines(seq: u64, inv: JsonModel) -> Seq<char> {
    match inverse_error(Op::CustomScriptApply, seq, inv) {
        None => "call \"%~dp0"@ + SCRIPTS_DIR_NAME@ + seq!['\\'] + str_or_empty(
            model_index(inv, "revert_path"@),
        ) + "\"\r\n"@,
        Some(m) => "REM "@ + m + "\r\n"@,
    }
}

/// The line that copies the saved `video.txt` back, or says why not.
pub open spec fn cs2_lines(seq: u64, video: Option<Seq<char>>) -> Seq<char> {
    match video {
        Some(p) => "copy /Y \"%~dp0"@ + CS2_SNAPSHOT_NAME@ + "\" \""@ + p + "\" >nul\r\n"@,
        None => "REM seq "@ + decimal(seq as nat)
            + ": cs2_config revert could not resolve the real video.txt path -- re-run VOIDFRAME to restore video.txt\r\n"@,
    }
}

/// The batch lines that undo one record.
pub open spec fn record_lines(op: Op, seq: u64, inv: JsonModel, video: Option<Seq<char>>) -> Seq<char> {
    match op {
        Op::RegistryWrite | Op::RegistryDelete => registry_lines(inv),
        Op::PowercfgWrite => powercfg_lines(inv),
        Op::PowerPlanActivate => "powercfg /setactive "@ + str_or_empty(model_index(inv, "guid"@))
            + "\r\n"@,
        Op::PowerPlanCreate => "powercfg /delete "@ + str_or_empty(model_index(inv, "guid"@))
            + "\r\n"@,
        Op::PowerPlanDelete => "REM seq "@ + decimal(seq as nat)
            + ": a power plan was deleted by this run and cannot be recreated by script\r\n"@,
        Op::CustomScriptApply => script_lines(seq, inv),
        Op::Cs2ConfigApply => cs2_lines(seq, video),
    }
}

fn member<'a>(v: &'a JsonValue, key: &str, null: &'a JsonValue) -> (r: &'a JsonValue)
    requires
        null.model() == JsonModel::Null,
    ensures
        r.model() == model_index(v.model(), key@),
{
    proof {
        if let JsonValue::Object(m) = v {
            crate::json::lemma_lookup_model(*m, key@);
        }
    }
    match v.get(key) {
        Some(m) => m,
        None => null,
    }
}

fn text_or<'a>(v: &'a JsonValue, dflt: &'a str) -> (r: &'a str)
    ensures
        r@ == str_or(v.model(), dflt@),
{
    match v.as_str() {
        Some(s) => s,
        None => dflt,
    }
}

/// The `reg add /d` data for a journaled value (see [`value_arg`]); a
/// DWORD or QWORD held as a non-negative integer is written in decimal.
pub fn reg_value_arg(v: &JsonValue) -> (r: String)
    ensures
        r@ == value_arg(v.model()),
        (model_str(model_index(v.model(), "type"@)) == Some("DWORD"@) || model_str(
            model_index(v.model(), "type"@),
        ) == Some("QWORD"@)) ==> (model_index(v.model(), "value"@) matches JsonModel::UInt(n) ==> r@
            == crate::text::decimal(n as nat)),
{
    let null = JsonValue::Null;
    proof {
        reveal_strlit("");
        reveal_strlit("MULTI_SZ");
        reveal_strlit("DWORD");
        reveal_strlit("QWORD");
        assert("MULTI_SZ"@.len() == 8 && "DWORD"@.len() == 5 && "QWORD"@.len() == 5);
    }
    let t = member(v, "type", &null).as_str();
    let val = member(v, "value", &null);
    let is = |name: &str| -> (b: bool)
        ensures
            b == (t matches Some(x) && x@ == name@),
    {
        match t {
            Some(x) => str_eq(x, name),
            None => false,
        }
    };
    if is("MULTI_SZ") {
        match val {
            JsonValue::Array(l) => {
                let ss = match crate::registry::list_strings_lenient(l) {
                    v => v,
                };
                crate::text::join_with(&ss, "\\0")
            },
            _ => String::new(),
        }
    } else if is("DWORD") || is("QWORD") {
        json_text(val)
    } else {
        text_or(val, "").to_owned()
    }
}

fn push_registry_lines(inv: &JsonValue, out: &mut Vec<char>)
    ensures
        final(out)@ == old(out)@ + registry_lines(inv.model()),
{
    let null = JsonValue::Null;
    proof {
        reveal_strlit("");
    }
    let t = member(inv, "target", &null);
    let hive = text_or(member(t, "hive", &null), "HKLM");
    let subkey = text_or(member(t, "subkey", &null), "");
    let name = bat_quote(text_or(member(t, "value_name", &null), ""));
    let is_delete = match member(inv, "kind", &null).as_str() {
        Some(k) => str_eq(k, "delete"),
        None => false,
    };
    let mut line: Vec<char> = Vec::new();
    if is_delete {
        push_str(&mut line, "reg delete \"");
        push_str(&mut line, hive);
        line.push('\\');
        push_str(&mut line, subkey);
        push_str(&mut line, "\" /v \"");
        push_str(&mut line, name.as_str());
        push_str(&mut line, "\" /f\r\n");
    } else {
        let v = member(inv, "value", &null);
        let ty = text_or(member(v, "type", &null), "SZ");
        let arg = reg_value_arg(v);
        let quoted = bat_quote(arg.as_str());
        push_str(&mut line, "reg add \"");
        push_str(&mut line, hive);
        line.push('\\');
        push_str(&mut line, subkey);
        push_str(&mut line, "\" /v \"");
        push_str(&mut line, name.as_str());
        push_str(&mut line, "\" /t ");
        push_str(&mut line, reg_type_flag(ty));
        push_str(&mut line, " /d \"");
        push_str(&mut line, quoted.as_str());
        push_str(&mut line, "\" /f\r\n");
    }
    push_chars(out, &line);
}

fn push_powercfg_lines(inv: &JsonValue, out: &mut Vec<char>)
    ensures
        final(out)@ == old(out)@ + powercfg_lines(inv.model()),
{
    let null = JsonValue::Null;
    proof {
        reveal_strlit("");
    }
    let sub = text_or(member(inv, "sub", &null), "");
    let setting = text_or(member(inv, "setting", &null), "");
    let value = match member(inv, "value", &null).as_u64() {
        Some(n) => n,
        None => 0,
    };
    let mut tail: Vec<char> = Vec::new();
    push_str(&mut tail, sub);
    tail.push(' ');
    push_str(&mut tail, setting);
    tail.push(' ');
    let d = decimal_chars(value);
    push_chars(&mut tail, &d);
    push_str(&mut tail, "\r\n");
    let mut lines: Vec<char> = Vec::new();
    push_str(&mut lines, "powercfg /setacvalueindex SCHEME_CURRENT ");
    push_chars(&mut lines, &tail);
    push_str(&mut lines, "powercfg /setdcvalueindex SCHEME_CURRENT ");
    push_chars(&mut lines, &tail);
    push_chars(out, &lines);
}

fn push_script_lines(rec: &JournalRecord, out: &mut Vec<char>)
    requires
        rec.op == Op::CustomScriptApply,
    ensures
        final(out)@ == old(out)@ + script_lines(rec.seq, rec.inverse.model()),
{
    let null = JsonValue::Null;
    proof {
        reveal_strlit("");
    }
    let mut line: Vec<char> = Vec::new();
    match validate_inverse(rec) {
        Ok(()) => {
            push_str(&mut line, "call \"%~dp0");
            push_str(&mut line, SCRIPTS_DIR_NAME);
            line.push('\\');
            push_str(&mut line, text_or(member(&rec.inverse, "revert_path", &null), ""));
            push_str(&mut line, "\"\r\n");
        },
        Err(msg) => {
            push_str(&mut line, "REM ");
            push_str(&mut line, msg.as_str());
            push_str(&mut line, "\r\n");
        },
    }
    push_chars(out, &line);
}

fn push_cs2_lines(seq: u64, video: Option<&str>, out: &mut Vec<char>)
    ensures
        final(out)@ == old(out)@ + cs2_lines(seq, crate::affinity::opt_view(video)),
{
    let mut line: Vec<char> = Vec::new();
    match video {
        Some(p) => {
            push_str(&mut line, "copy /Y \"%~dp0");
            push_str(&mut line, CS2_SNAPSHOT_NAME);
            push_str(&mut line, "\" \"");
            push_str(&mut line, p);
            push_str(&mut line, "\" >nul\r\n");
        },
        None => {
            push_str(&mut line, "REM seq ");
            let d = decimal_chars(seq);
            push_chars(&mut line, &d);
            push_str(&mut line, ": cs2_config revert could not resolve the real video.txt path -- re-run VOIDFRAME to restore video.txt\r\n");
        },
    }
    push_chars(out, &line);
}

fn push_text_line(head: &str, v: &JsonValue, out: &mut Vec<char>)
    ensures
        final(out)@ == old(out)@ + head@ + str_or_empty(v.model()) + "\r\n"@,
{
    let null = JsonValue::Null;
    proof {
        reveal_strlit("");
    }
    let mut line: Vec<char> = Vec::new();
    push_str(&mut line, head);
    push_str(&mut line, text_or(v, ""));
    push_str(&mut line, "\r\n");
    push_chars(out, &line);
}

/// Appends the batch lines that undo `rec` (see [`record_lines`]).
fn render_record(rec: &JournalRecord, out: &mut Vec<char>, video: Option<&str>)
    ensures
        final(out)@ == old(out)@ + record_lines(rec.op, rec.seq, rec.inverse.model(), crate::affinity::opt_view(video)),
{
    let null = JsonValue::Null;
    let inv = &rec.inverse;
    match rec.op {
        Op::RegistryWrite | Op::RegistryDelete => push_registry_lines(inv, out),
        Op::PowercfgWrite => push_powercfg_lines(inv, out),
        Op::PowerPlanActivate => push_text_line("powercfg /setactive ", member(inv, "guid", &null), out),
        Op::PowerPlanCreate => push_text_line("powercfg /delete ", member(inv, "guid", &null), out),
        Op::PowerPlanDelete => {
            let mut line: Vec<char> = Vec::new();
            push_str(&mut line, "REM seq ");
            let d = decimal_chars(rec.seq);
            push_chars(&mut line, &d);
            push_str(&mut line, ": a power plan was deleted by this run and cannot be recreated by script\r\n");
            push_chars(out, &line);
        },
        Op::CustomScriptApply => push_script_lines(rec, out),
        Op::Cs2ConfigApply => push_cs2_lines(rec.seq, video, out),
    }
}

/// How many leading records of `s` have a sequence number of at least `k`.
pub open spec fn leading_at_least(s: Seq<JournalRecord>, k: u64) -> int
    decreases s.len(),
{
    if s.len() == 0 || s[0].seq < k {
        0
    } else {
        1 + leading_at_least(s.drop_first(), k)
    }
}

/// `x` placed after every leading record with a sequence number at least
/// its own.
pub open spec fn insert_desc(s: Seq<JournalRecord>, x: JournalRecord) -> Seq<JournalRecord> {
    let p = leading_at_least(s, x.seq);
    s.take(p) + seq![x] + s.skip(p)
}

/// The records, last applied (highest sequence number) first; records with
/// the same number keep their order (a stable sort).
pub open spec fn newest_first(rs: Seq<JournalRecord>) -> Seq<JournalRecord>
    decreases rs.len(),
{
    if rs.len() == 0 {
        seq![]
    } else {
        insert_desc(newest_first(rs.drop_last()), rs.last())
    }
}

/// The batch lines for `rs`, one record after another.
pub open spec fn all_record_lines(rs: Seq<JournalRecord>, video: Option<Seq<char>>) -> Seq<char>
    decreases rs.len(),
{
    if rs.len() == 0 {
        seq![]
    } else {
        all_record_lines(rs.drop_last(), video) + record_lines(
            rs.last().op,
            rs.last().seq,
            rs.last().inverse.model(),
            video,
        )
    }
}

pub const RESTORE_HEADER: &'static str = "REM Reverts every journaled mutation, last applied first. Run as Administrator.\r\nnet session >nul 2>&1 || (echo This script must be run as Administrator. & pause & exit /b 1)\r\n";
pub const RESTORE_FOOTER: &'static str = "echo VOIDFRAME restore finished.\r\npause\r\n";

/// The whole restore script.
pub open spec fn restore_script(rs: Seq<JournalRecord>, run_id: Seq<char>, video: Option<Seq<char>>) -> Seq<char> {
    "@echo off\r\nREM VOIDFRAME emergency restore for run "@ + run_id + "\r\n"@ + RESTORE_HEADER@
        + all_record_lines(newest_first(rs), video) + RESTORE_FOOTER@
}

proof fn lemma_leading_bounds(s: Seq<JournalRecord>, k: u64)
    ensures
        0 <= leading_at_least(s, k) <= s.len(),
        forall|q: int| 0 <= q < leading_at_least(s, k) ==> (#[trigger] s[q]).seq >= k,
        leading_at_least(s, k) < s.len() ==> s[leading_at_least(s, k)].seq < k,
    decreases s.len(),
{
    if s.len() > 0 && s[0].seq >= k {
        lemma_leading_bounds(s.drop_first(), k);
        assert forall|q: int| 0 <= q < leading_at_least(s, k) implies (#[trigger] s[q]).seq >= k by {
            if q > 0 {
                assert(s[q] == s.drop_first()[q - 1]);
            }
        }
    }
}

fn leading_at_least_exec(s: &Vec<&JournalRecord>, k: u64) -> (p: usize)
    ensures
        p as int == leading_at_least(s@.map_values(|r: &JournalRecord| *r), k),
{
    let ghost v = s@.map_values(|r: &JournalRecord| *r);
    let mut p: usize = 0;
    assert(v.skip(0) =~= v);
    while p < s.len() && s[p].seq >= k
        invariant
            p <= s.len(),
            v == s@.map_values(|r: &JournalRecord| *r),
            leading_at_least(v, k) == p + leading_at_least(v.skip(p as int), k),
        decreases s.len() - p,
    {
        assert(v.skip(p as int)[0] == v[p as int]);
        assert(v.skip(p as int).drop_first() =~= v.skip(p + 1));
        p += 1;
    }
    proof {
        if p < s.len() {
            assert(v.skip(p as int)[0] == v[p as int]);
        }
    }
    p
}

/// The records ordered newest first (see [`newest_first`]).
pub fn order_newest_first(records: &[JournalRecord]) -> (r: Vec<&JournalRecord>)
    ensures
        r@.map_values(|x: &JournalRecord| *x) == newest_first(records@),
{
    let mut out: Vec<&JournalRecord> = Vec::new();
    let mut i: usize = 0;
    while i < records.len()
        invariant
            i <= records.len(),
            out@.map_values(|x: &JournalRecord| *x) == newest_first(records@.take(i as int)),
        decreases records.len() - i,
    {
        assert(records@.take(i + 1).drop_last() =~= records@.take(i as int));
        let ghost before = out@.map_values(|x: &JournalRecord| *x);
        let p = leading_at_least_exec(&out, records[i].seq);
        proof {
            lemma_leading_bounds(before, records@[i as int].seq);
        }
        out.insert(p, &records[i]);
        assert(out@.map_values(|x: &JournalRecord| *x) =~= insert_desc(before, records@[i as int]));
        i += 1;
    }
    assert(records@.take(i as int) =~= records@);
    out
}

/// The text of `VOIDFRAME_RESTORE.bat` for a run's journal records: a
/// header that insists on Administrator rights, then the lines that undo
/// each record, last applied first, then a footer.
pub fn render(records: &[JournalRecord], run_id: &str, real_video_txt_path: Option<&str>) -> (r: String)
    ensures
        r@ == restore_script(records@, run_id@, crate::affinity::opt_view(real_video_txt_path)),
{
    let mut out: Vec<char> = Vec::new();
    push_str(&mut out, "@echo off\r\nREM VOIDFRAME emergency restore for run ");
    push_str(&mut out, run_id);
    push_str(&mut out, "\r\n");
    push_str(&mut out, RESTORE_HEADER);
    let ghost head = out@;
    let recs = order_newest_first(records);
    let ghost ordered = recs@.map_values(|x: &JournalRecord| *x);
    let mut i: usize = 0;
    while i < recs.len()
        invariant
            i <= recs.len(),
            ordered == recs@.map_values(|x: &JournalRecord| *x),
            out@ == head + all_record_lines(ordered.take(i as int), crate::affinity::opt_view(real_video_txt_path)),
        decreases recs.len() - i,
    {
        assert(ordered.take(i + 1).drop_last() =~= ordered.take(i as int));
        assert(ordered.take(i + 1).last() == *recs@[i as int]);
        render_record(recs[i], &mut out, real_video_txt_path);
        i += 1;
    }
    assert(ordered.take(i as int) =~= ordered);
    push_str(&mut out, RESTORE_FOOTER);
    string_from_chars(&out)
}

proof fn lemma_insert_desc_sorted(s: Seq<JournalRecord>, x: JournalRecord)
    requires
        forall|a: int, b: int| 0 <= a < b < s.len() ==> s[a].seq >= s[b].seq,
    ensures
        ({
            let t = insert_desc(s, x);
            &&& t.len() == s.len() + 1
            &&& forall|a: int, b: int| 0 <= a < b < t.len() ==> t[a].seq >= t[b].seq
        }),
{
    lemma_leading_bounds(s, x.seq);
    let p = leading_at_least(s, x.seq);
    let t = insert_desc(s, x);
    assert forall|a: int, b: int| 0 <= a < b < t.len() implies t[a].seq >= t[b].seq by {
        if b < p {
            assert(t[a] == s[a] && t[b] == s[b]);
        } else if b == p {
            assert(t[b] == x);
            assert(t[a] == s[a]);
        } else if a < p {
            assert(t[a] == s[a] && t[b] == s[b - 1]);
        } else if a == p {
            assert(t[a] == x && t[b] == s[b - 1]);
            assert(s[p].seq < x.seq);
            if b - 1 > p {
                assert(s[p].seq >= s[b - 1].seq);
            }
        } else {
            assert(t[a] == s[a - 1] && t[b] == s[b - 1]);
        }
    }
}

/// The restore script undoes the last applied mutation first: its records
/// come in non-increasing sequence-number order, every one of them.
pub proof fn lemma_newest_first_is_ordered(rs: Seq<JournalRecord>)
    ensures
        newest_first(rs).len() == rs.len(),
        forall|a: int, b: int|
            0 <= a < b < newest_first(rs).len() ==> newest_first(rs)[a].seq >= newest_first(rs)[b].seq,
    decreases rs.len(),
{
    if rs.len() > 0 {
        lemma_newest_first_is_ordered(rs.drop_last());
        lemma_insert_desc_sorted(newest_first(rs.drop_last()), rs.last());
    }
}

/// Where the restore script is written: the data root's `recovery`
/// directory always, and the Desktop when it is known.
pub fn restore_targets(data_root: &str, desktop: Option<&str>) -> (r: Vec<String>)
    ensures
        r@.len() == if desktop is Some { 2int } else { 1int },
        r@[0]@ == joined_path(joined_path(data_root@, "recovery"@), RESTORE_SCRIPT_NAME@),
        desktop matches Some(d) ==> r@[1]@ == joined_path(d@, RESTORE_SCRIPT_NAME@),
{
    let mut t: Vec<String> = Vec::new();
    let recovery = tool_path_under(data_root, "recovery");
    t.push(tool_path_under(recovery.as_str(), RESTORE_SCRIPT_NAME));
    match desktop {
        Some(d) => t.push(tool_path_under(d, RESTORE_SCRIPT_NAME)),
        None => {},
    }
    t
}

/// The revert scripts a restore script calls: for each custom-script
/// record, its sequence number and the script's recorded path (empty when
/// the inverse names none), in record order. A script missing from the
/// copied scripts directory deserves a warning.
pub open spec fn referenced_scripts_of(rs: Seq<JournalRecord>) -> Seq<(u64, Seq<char>)>
    decreases rs.len(),
{
    if rs.len() == 0 {
        seq![]
    } else if rs.last().op == Op::CustomScriptApply {
        referenced_scripts_of(rs.drop_last()).push(
            (rs.last().seq, str_or_empty(model_index(rs.last().inverse.model(), "revert_path"@))),
        )
    } else {
        referenced_scripts_of(rs.drop_last())
    }
}

pub open spec fn refs_view(v: Seq<(u64, String)>) -> Seq<(u64, Seq<char>)> {
    v.map_values(|x: (u64, String)| (x.0, x.1@))
}

/// The revert scripts the restore script calls (see
/// [`referenced_scripts_of`]).
pub fn referenced_revert_scripts(records: &[JournalRecord]) -> (r: Vec<(u64, String)>)
    ensures
        refs_view(r@) == referenced_scripts_of(records@),
{
    let null = JsonValue::Null;
    proof {
        reveal_strlit("");
    }
    let mut out: Vec<(u64, String)> = Vec::new();
    let mut i: usize = 0;
    while i < records.len()
        invariant
            i <= records.len(),
            null.model() == JsonModel::Null,
            refs_view(out@) == referenced_scripts_of(records@.take(i as int)),
        decreases records.len() - i,
    {
        assert(records@.take(i + 1).drop_last() =~= records@.take(i as int));
        let rec = &records[i];
        if rec.op == Op::CustomScriptApply {
            let ghost before = out@;
            let p = text_or(member(&rec.inverse, "revert_path", &null), "");
            proof {
                reveal_strlit("");
            }
            assert(""@ =~= Seq::<char>::empty());
            assert(p@ == str_or_empty(model_index(rec.inverse.model(), "revert_path"@)));
            assert(records@.take(i + 1).last() == *rec);
            out.push((rec.seq, p.to_owned()));
            assert(refs_view(out@) =~= refs_view(before).push((rec.seq, p@)));
        }
        i += 1;
    }
    assert(records@.take(i as int) =~= records@);
    out
}

/// The restore script reverts every record it is given exactly once:
/// ordering them newest first neither drops nor repeats one.
pub proof fn lemma_newest_first_keeps_every_record(rs: Seq<JournalRecord>)
    ensures
        newest_first(rs).to_multiset() == rs.to_multiset(),
    decreases rs.len(),
{
    if rs.len() > 0 {
        lemma_newest_first_keeps_every_record(rs.drop_last());
        let s = newest_first(rs.drop_last());
        let x = rs.last();
        lemma_leading_bounds(s, x.seq);
        let p = leading_at_least(s, x.seq);
        assert(insert_desc(s, x) =~= s.insert(p, x));
        vstd::seq_lib::to_multiset_insert(s, p, x);
        assert(rs =~= rs.drop_last().push(x));
        vstd::seq_lib::to_multiset_build(rs.drop_last(), x);
        assert(newest_first(rs) == insert_desc(s, x));
        assert(newest_first(rs).to_multiset() =~= rs.to_multiset());
    } else {
        assert(rs =~= newest_first(rs));
    }
}

/// The original `video.txt` text saved by the first `cs2_config` record,
/// if that record has one.
pub open spec fn cs2_original(rs: Seq<JournalRecord>) -> Option<Seq<char>>
    decreases rs.len(),
{
    if rs.len() == 0 {
        None
    } else if rs[0].op == Op::Cs2ConfigApply {
        model_str(model_index(rs[0].inverse.model(), "original_text"@))
    } else {
        cs2_original(rs.drop_first())
    }
}

/// The text to save as the `video.txt` snapshot beside the script.
pub fn cs2_original_text(records: &[JournalRecord]) -> (r: Option<&str>)
    ensures
        match r {
            Some(t) => cs2_original(records@) == Some(t@),
            None => cs2_original(records@) is None,
        },
{
    let null = JsonValue::Null;
    let mut i: usize = 0;
    assert(records@.skip(0) =~= records@);
    while i < records.len()
        invariant
            i <= records.len(),
            cs2_original(records@) == cs2_original(records@.skip(i as int)),
        decreases records.len() - i,
    {
        assert(records@.skip(i as int)[0] == records@[i as int]);
        assert(records@.skip(i as int).drop_first() =~= records@.skip(i + 1));
        if records[i].op == Op::Cs2ConfigApply {
            proof {
                if let JsonValue::Object(m) = records@[i as int].inverse {
                    crate::json::lemma_lookup_model(m, "original_text"@);
                }
            }
            return match records[i].inverse.get("original_text") {
                Some(v) => v.as_str(),
                None => None,
            };
        }
        i += 1;
    }
    None
}

/// Text `t` occurs somewhere in `s`.
pub open spec fn occurs_in(t: Seq<char>, s: Seq<char>) -> bool {
    exists|i: int| 0 <= i && i + t.len() <= s.len() && #[trigger] s.subrange(i, i + t.len()) == t
}

proof fn lemma_all_record_lines_append(a: Seq<JournalRecord>, b: Seq<JournalRecord>, video: Option<Seq<char>>)
    ensures
        all_record_lines(a + b, video) == all_record_lines(a, video) + all_record_lines(b, video),
    decreases b.len(),
{
    if b.len() == 0 {
        assert(a + b =~= a);
        assert(all_record_lines(a, video) + all_record_lines(b, video) =~= all_record_lines(a, video));
    } else {
        lemma_all_record_lines_append(a, b.drop_last(), video);
        assert((a + b).drop_last() =~= a + b.drop_last());
        assert((a + b).last() == b.last());
    }
}

/// The lines that undo each record given to the restore script stand in
/// it, whole and in one piece.
pub proof fn lemma_restore_script_holds_each_record(
    rs: Seq<JournalRecord>,
    run_id: Seq<char>,
    video: Option<Seq<char>>,
    k: int,
)
    requires
        0 <= k < rs.len(),
    ensures
        occurs_in(
            record_lines(rs[k].op, rs[k].seq, rs[k].inverse.model(), video),
            restore_script(rs, run_id, video),
        ),
{
    let o = newest_first(rs);
    let x = rs[k];
    lemma_newest_first_keeps_every_record(rs);
    vstd::seq_lib::to_multiset_contains(rs, x);
    vstd::seq_lib::to_multiset_contains(o, x);
    assert(rs.contains(x));
    assert(o.contains(x));
    let j = choose|j: int| 0 <= j < o.len() && o[j] == x;
    let one = seq![x];
    assert(o =~= o.take(j) + one + o.skip(j + 1));
    lemma_all_record_lines_append(o.take(j) + one, o.skip(j + 1), video);
    lemma_all_record_lines_append(o.take(j), one, video);
    assert(one.drop_last() =~= Seq::<JournalRecord>::empty());
    let line = record_lines(x.op, x.seq, x.inverse.model(), video);
    assert(one.last() == x);
    assert(all_record_lines(one.drop_last(), video) =~= Seq::<char>::empty());
    assert(all_record_lines(one, video) =~= line);
    let head = "@echo off\r\nREM VOIDFRAME emergency restore for run "@ + run_id + "\r\n"@ + RESTORE_HEADER@
        + all_record_lines(o.take(j), video);
    let tail = all_record_lines(o.skip(j + 1), video) + RESTORE_FOOTER@;
    let script = restore_script(rs, run_id, video);
    assert(script =~= head + line + tail);
    assert(script.subrange(head.len() as int, (head.len() + line.len()) as int) =~= line);
}

/// A journaled power-setting change is undone for both power sources: the
/// restore script sets the recorded value back on AC
/// (`/setacvalueindex`) and then on DC (`/setdcvalueindex`), for the
/// recorded subgroup and setting.
pub proof fn lemma_restore_sets_ac_and_dc(rs: Seq<JournalRecord>, run_id: Seq<char>, video: Option<Seq<char>>, k: int)
    requires
        0 <= k < rs.len(),
        rs[k].op == Op::PowercfgWrite,
    ensures
        ({
            let inv = rs[k].inverse.model();
            let value: u64 = match model_index(inv, "value"@) {
                JsonModel::UInt(n) => n,
                _ => 0,
            };
            let tail = str_or_empty(model_index(inv, "sub"@)) + seq![' '] + str_or_empty(
                model_index(inv, "setting"@),
            ) + seq![' '] + decimal(value as nat) + seq!['\r', '\n'];
            occurs_in(
                "powercfg /setacvalueindex SCHEME_CURRENT "@ + tail + "powercfg /setdcvalueindex SCHEME_CURRENT "@
                    + tail,
                restore_script(rs, run_id, video),
            )
        }),
{
    lemma_restore_script_holds_each_record(rs, run_id, video, k);
    reveal_strlit("\r\n");
    let inv = rs[k].inverse.model();
    let value: u64 = match model_index(inv, "value"@) {
        JsonModel::UInt(n) => n,
        _ => 0,
    };
    let tail = str_or_empty(model_index(inv, "sub"@)) + seq![' '] + str_or_empty(model_index(inv, "setting"@))
        + seq![' '] + decimal(value as nat) + seq!['\r', '\n'];
    assert("\r\n"@ =~= seq!['\r', '\n']);
    assert(record_lines(rs[k].op, rs[k].seq, inv, video) =~= "powercfg /setacvalueindex SCHEME_CURRENT "@ + tail
        + "powercfg /setdcvalueindex SCHEME_CURRENT "@ + tail);
}

/// The `reg add /t` flag names the journaled value type: `REG_` followed
/// by the type, for each of DWORD, QWORD, SZ, EXPAND_SZ, MULTI_SZ and BINARY.
pub proof fn lemma_reg_flag_names_the_type(t: Seq<char>)
    requires
        t == "DWORD"@ || t == "QWORD"@ || t == "SZ"@ || t == "EXPAND_SZ"@ || t == "MULTI_SZ"@ || t == "BINARY"@,
    ensures
        reg_flag(t) == seq!['R', 'E', 'G', '_'] + t,
{
    reveal_strlit("DWORD");
    reveal_strlit("QWORD");
    reveal_strlit("SZ");
    reveal_strlit("EXPAND_SZ");
    reveal_strlit("MULTI_SZ");
    reveal_strlit("BINARY");
    reveal_strlit("REG_DWORD");
    reveal_strlit("REG_QWORD");
    reveal_strlit("REG_SZ");
    reveal_strlit("REG_EXPAND_SZ");
    reveal_strlit("REG_MULTI_SZ");
    reveal_strlit("REG_BINARY");
    assert(reg_flag(t) =~= seq!['R', 'E', 'G', '_'] + t);
}

/// A journaled registry value is written back with its own type: for a
/// record whose inverse writes a value of type DWORD, QWORD, SZ,
/// EXPAND_SZ, MULTI_SZ or BINARY, the restore script holds
/// `reg add "<hive>\<subkey>" /v "<name>" /t REG_<type> /d "<data>" /f`.
pub proof fn lemma_restore_writes_the_journaled_type(
    rs: Seq<JournalRecord>,
    run_id: Seq<char>,
    video: Option<Seq<char>>,
    k: int,
    t: Seq<char>,
)
    requires
        0 <= k < rs.len(),
        rs[k].op == Op::RegistryWrite || rs[k].op == Op::RegistryDelete,
        model_str(model_index(rs[k].inverse.model(), "kind"@)) != Some("delete"@),
        model_str(model_index(model_index(rs[k].inverse.model(), "value"@), "type"@)) == Some(t),
        t == "DWORD"@ || t == "QWORD"@ || t == "SZ"@ || t == "EXPAND_SZ"@ || t == "MULTI_SZ"@ || t == "BINARY"@,
    ensures
        ({
            let inv = rs[k].inverse.model();
            let target = model_index(inv, "target"@);
            let v = model_index(inv, "value"@);
            let key = str_or(model_index(target, "hive"@), "HKLM"@) + seq!['\\'] + str_or_empty(
                model_index(target, "subkey"@),
            );
            let name = bat_escaped(str_or_empty(model_index(target, "value_name"@)));
            occurs_in(
                "reg add \""@ + key + "\" /v \""@ + name + "\" /t "@ + seq!['R', 'E', 'G', '_'] + t + " /d \""@
                    + bat_escaped(value_arg(v)) + "\" /f\r\n"@,
                restore_script(rs, run_id, video),
            )
        }),
{
    lemma_restore_script_holds_each_record(rs, run_id, video, k);
    lemma_reg_flag_names_the_type(t);
    let inv = rs[k].inverse.model();
    let target = model_index(inv, "target"@);
    let v = model_index(inv, "value"@);
    let key = str_or(model_index(target, "hive"@), "HKLM"@) + seq!['\\'] + str_or_empty(
        model_index(target, "subkey"@),
    );
    let name = bat_escaped(str_or_empty(model_index(target, "value_name"@)));
    assert(str_or(model_index(v, "type"@), "SZ"@) == t);
    assert(record_lines(rs[k].op, rs[k].seq, inv, video) =~= "reg add \""@ + key + "\" /v \""@ + name + "\" /t "@
        + seq!['R', 'E', 'G', '_'] + t + " /d \""@ + bat_escaped(value_arg(v)) + "\" /f\r\n"@);
}

/// A journaled power-plan switch is undone by activating the recorded
/// plan again (`powercfg /setactive <guid>`), and a plan the run created is
/// deleted (`powercfg /delete <guid>`).
pub proof fn lemma_restore_power_plans(rs: Seq<JournalRecord>, run_id: Seq<char>, video: Option<Seq<char>>, k: int)
    requires
        0 <= k < rs.len(),
        rs[k].op == Op::PowerPlanActivate || rs[k].op == Op::PowerPlanCreate,
    ensures
        ({
            let guid = str_or_empty(model_index(rs[k].inverse.model(), "guid"@));
            let cmd = if rs[k].op == Op::PowerPlanActivate {
                "powercfg /setactive "@
            } else {
                "powercfg /delete "@
            };
            occurs_in(cmd + guid + seq!['\r', '\n'], restore_script(rs, run_id, video))
        }),
{
    lemma_restore_script_holds_each_record(rs, run_id, video, k);
    reveal_strlit("\r\n");
    assert("\r\n"@ =~= seq!['\r', '\n']);
}

/// A journaled registry value that the run wrote where none was before is
/// undone by deleting it:
/// `reg delete "<hive>\<subkey>" /v "<name>" /f`.
pub proof fn lemma_restore_deletes_a_new_value(
    rs: Seq<JournalRecord>,
    run_id: Seq<char>,
    video: Option<Seq<char>>,
    k: int,
)
    requires
        0 <= k < rs.len(),
        rs[k].op == Op::RegistryWrite || rs[k].op == Op::RegistryDelete,
        model_str(model_index(rs[k].inverse.model(), "kind"@)) == Some("delete"@),
    ensures
        ({
            let target = model_index(rs[k].inverse.model(), "target"@);
            let key = str_or(model_index(target, "hive"@), "HKLM"@) + seq!['\\'] + str_or_empty(
                model_index(target, "subkey"@),
            );
            let name = bat_escaped(str_or_empty(model_index(target, "value_name"@)));
            occurs_in(
                "reg delete \""@ + key + "\" /v \""@ + name + "\" /f\r\n"@,
                restore_script(rs, run_id, video),
            )
        }),
{
    lemma_restore_script_holds_each_record(rs, run_id, video, k);
}

} // verus!
