//! Applying and reverting modules, apart from the system calls they come
//! between: what a mutation writes to the journal before it changes the
//! system, and what undoing a journal record does.

use crate::cs2_config::{rewrite_video_settings, rewritten, VideoSettings};
use crate::error::{err_msg, err_msg_chars, err_view, msg_view, Error, ErrorTag};
use crate::journal::{member_or_null, seq_message, seq_prefix, str_of, str_or_empty, JournalRecord, Op};
use crate::json::{clone_json, json_object1, json_object2, json_object3, json_str, model_index, model_str, JsonMembers, JsonModel, JsonValue};
use crate::module::{Hive, PowerPlanPayload};
use crate::registry::{journal_value, json_to_value, value_json, value_to_json, RegKey, RegValue, RegValueModel};
use crate::text::{decimal, decimal_chars, push_chars, push_str, str_eq, string_from_chars};
use vstd::prelude::*;

verus! {

broadcast use vstd::string::group_string_axioms;

/// The journal record a mutation writes before it changes the system: its
/// kind, what it targets, what it sets, and how to undo it.
#[derive(Debug)]
pub struct JournalEntry {
    pub op: Op,
    pub target: JsonValue,
    pub new: JsonValue,
    pub inverse: JsonValue,
}

/// The journaled target of a registry value.
pub open spec fn key_target(hive: Hive, subkey: Seq<char>, value_name: Seq<char>) -> JsonModel {
    JsonModel::Object(
        seq![
            ("hive"@, JsonModel::Str(hive.spec_str())),
            ("subkey"@, JsonModel::Str(subkey)),
            ("value_name"@, JsonModel::Str(value_name)),
        ],
    )
}

/// The inverse of writing a registry value that read as `current` before:
/// delete it when there was none, else write the old value back.
pub open spec fn registry_inverse(target: JsonModel, current: RegValueModel) -> JsonModel {
    if current == RegValueModel::Absent {
        JsonModel::Object(seq![("kind"@, JsonModel::Str("delete"@)), ("target"@, target)])
    } else {
        JsonModel::Object(
            seq![
                ("kind"@, JsonModel::Str("write"@)),
                ("target"@, target),
                ("value"@, value_json(current)),
            ],
        )
    }
}

/// The journal record of writing `new` to the registry value at `key`,
/// which read as `current` before.
pub fn registry_entry(key: &RegKey, new: &RegValue, current: &RegValue) -> (e: JournalEntry)
    ensures
        e.op == Op::RegistryWrite,
        e.target.model() == key_target(key.hive, key.subkey@, key.value_name@),
        e.new.model() == value_json(new.model()),
        e.inverse.model() == registry_inverse(key_target(key.hive, key.subkey@, key.value_name@), current.model()),
{
    let target = json_object3(
        "hive",
        json_str(key.hive.as_str()),
        "subkey",
        json_str(key.subkey.as_str()),
        "value_name",
        json_str(key.value_name.as_str()),
    );
    let inverse = match current {
        RegValue::Absent => json_object2("kind", json_str("delete"), "target", clone_json(&target)),
        _ => json_object3("kind", json_str("write"), "target", clone_json(&target), "value", value_to_json(current)),
    };
    JournalEntry { op: Op::RegistryWrite, target, new: value_to_json(new), inverse }
}

/// The inverse of setting a power setting whose AC value was `ac`.
pub open spec fn powercfg_inverse(sub: Seq<char>, setting: Seq<char>, ac: u32) -> JsonModel {
    JsonModel::Object(
        seq![
            ("setting"@, JsonModel::Str(setting)),
            ("sub"@, JsonModel::Str(sub)),
            ("value"@, JsonModel::UInt(ac as u64)),
        ],
    )
}

/// The journal record of setting power setting `sub`/`setting` to `value`
/// when its AC value was `current_ac`.
pub fn powercfg_entry(sub: &str, setting: &str, value: u32, current_ac: u32) -> (e: JournalEntry)
    ensures
        e.op == Op::PowercfgWrite,
        e.target.model() == JsonModel::Object(
            seq![("setting"@, JsonModel::Str(setting@)), ("sub"@, JsonModel::Str(sub@))],
        ),
        e.new.model() == JsonModel::UInt(value as u64),
        e.inverse.model() == powercfg_inverse(sub@, setting@, current_ac),
{
    JournalEntry {
        op: Op::PowercfgWrite,
        target: json_object2("setting", json_str(setting), "sub", json_str(sub)),
        new: JsonValue::UInt(value as u64),
        inverse: json_object3(
            "setting",
            json_str(setting),
            "sub",
            json_str(sub),
            "value",
            JsonValue::UInt(current_ac as u64),
        ),
    }
}

/// Where the power plan a module activates comes from.
#[derive(Clone, Copy, Debug, PartialEq, Eq, Structural)]
pub enum PlanSource {
    /// It is installed: activate it.
    Installed,
    /// It is not: duplicate it from the template GUID first.
    Duplicate,
}

/// Whether `guid` is among the installed plans.
pub fn plan_installed(installed: &[String], guid: &str) -> (b: bool)
    ensures
        b == exists|i: int| 0 <= i < installed@.len() && (#[trigger] installed@[i])@ == guid@,
{
    let mut i: usize = 0;
    while i < installed.len()
        invariant
            i <= installed.len(),
            forall|j: int| 0 <= j < i ==> (#[trigger] installed@[j])@ != guid@,
        decreases installed.len() - i,
    {
        if str_eq(installed[i].as_str(), guid) {
            return true;
        }
        i += 1;
    }
    false
}

/// Where a power plan module's plan comes from: an installed plan is
/// activated as it is; a missing one is duplicated from its GUID when the
/// module asks for that, and refused otherwise.
pub fn plan_source(p: &PowerPlanPayload, installed: bool) -> (r: Result<PlanSource, Error>)
    ensures
        match r {
            Ok(PlanSource::Installed) => installed,
            Ok(PlanSource::Duplicate) => !installed && p.create_if_missing,
            Err(e) => !installed && !p.create_if_missing && err_view(e) == msg_view(
                "power plan "@ + p.plan_guid@ + " is not installed"@,
            ),
        },
{
    if installed {
        Ok(PlanSource::Installed)
    } else if p.create_if_missing {
        Ok(PlanSource::Duplicate)
    } else {
        let mut out: Vec<char> = Vec::new();
        push_str(&mut out, "power plan ");
        push_str(&mut out, p.plan_guid.as_str());
        push_str(&mut out, " is not installed");
        Err(err_msg_chars(&out))
    }
}

/// A `{"guid": ...}` object.
pub open spec fn guid_object(guid: Seq<char>) -> JsonModel {
    JsonModel::Object(seq![("guid"@, JsonModel::Str(guid))])
}

/// The journal record of creating plan `created` from `template`: undone
/// by deleting it.
pub fn plan_create_entry(template: &str, created: &str) -> (e: JournalEntry)
    ensures
        e.op == Op::PowerPlanCreate,
        e.target.model() == JsonModel::Object(seq![("template"@, JsonModel::Str(template@))]),
        e.new.model() == guid_object(created@),
        e.inverse.model() == guid_object(created@),
{
    JournalEntry {
        op: Op::PowerPlanCreate,
        target: json_object1("template", json_str(template)),
        new: json_object1("guid", json_str(created)),
        inverse: json_object1("guid", json_str(created)),
    }
}

/// The journal record of activating plan `target` while `prev_active` was
/// active: undone by activating `prev_active` again.
pub fn plan_activate_entry(target: &str, prev_active: &str) -> (e: JournalEntry)
    ensures
        e.op == Op::PowerPlanActivate,
        e.target.model() == guid_object(target@),
        e.new.model() == JsonModel::Str(target@),
        e.inverse.model() == guid_object(prev_active@),
{
    JournalEntry {
        op: Op::PowerPlanActivate,
        target: json_object1("guid", json_str(target)),
        new: json_str(target),
        inverse: json_object1("guid", json_str(prev_active)),
    }
}

/// Settings as a JSON object of strings, in key order.
pub open spec fn settings_members(es: Seq<(Seq<char>, Seq<char>)>) -> Seq<(Seq<char>, JsonModel)> {
    es.map_values(|e: (Seq<char>, Seq<char>)| (e.0, JsonModel::Str(e.1)))
}

fn settings_json(settings: &VideoSettings) -> (r: JsonValue)
    ensures
        r.model() == JsonModel::Object(settings_members(settings.entries_view())),
{
    let ghost target = settings_members(settings.entries_view());
    let mut members = JsonMembers::Nil;
    let mut k: usize = settings.len();
    assert(target.skip(k as int) =~= Seq::<(Seq<char>, JsonModel)>::empty());
    while k > 0
        invariant
            k <= settings.entries_view().len(),
            target == settings_members(settings.entries_view()),
            members.models() == target.skip(k as int),
        decreases k,
    {
        let ghost prev = members.models();
        let (key, value) = settings.entry(k - 1);
        let v = JsonValue::Str(value);
        assert(v.model() == JsonModel::Str(settings.entries_view()[k - 1].1));
        members = JsonMembers::Cons(key, Box::new(v), Box::new(members));
        assert(members.models() =~= seq![target[k - 1]] + prev);
        assert(target.skip(k - 1) =~= seq![target[k - 1]] + target.skip(k as int));
        k -= 1;
    }
    assert(target.skip(0) =~= target);
    JsonValue::Object(members)
}

/// The journal record of rewriting CS2's video settings file, whose text
/// was `original`, with `settings`, and the text written: undone by
/// writing `original` back.
pub fn cs2_config_entry(settings: &VideoSettings, original: &str) -> (r: (JournalEntry, String))
    ensures
        r.0.op == Op::Cs2ConfigApply,
        r.0.target.model() == JsonModel::Object(
            seq![("settings"@, JsonModel::Object(settings_members(settings.entries_view())))],
        ),
        r.1@ == rewritten(original@, settings.entries_view()),
        r.0.new.model() == JsonModel::Object(seq![("new_text"@, JsonModel::Str(r.1@))]),
        r.0.inverse.model() == JsonModel::Object(seq![("original_text"@, JsonModel::Str(original@))]),
{
    let new_text = rewrite_video_settings(original, settings);
    let entry = JournalEntry {
        op: Op::Cs2ConfigApply,
        target: json_object1("settings", settings_json(settings)),
        new: json_object1("new_text", json_str(new_text.as_str())),
        inverse: json_object1("original_text", json_str(original)),
    };
    (entry, new_text)
}

/// The inverse of running a custom script: both scripts' hashes and the
/// revert script's path.
pub open spec fn script_inverse_model(apply_sha256: Seq<char>, revert_sha256: Seq<char>, revert_path: Seq<char>) -> JsonModel {
    JsonModel::Object(
        seq![
            ("apply_sha256"@, JsonModel::Str(apply_sha256)),
            ("revert_path"@, JsonModel::Str(revert_path)),
            ("revert_sha256"@, JsonModel::Str(revert_sha256)),
        ],
    )
}

/// The journal record of running custom script `apply_script`, pinned by
/// the hashes of both scripts: undone by the revert script, if unchanged.
pub fn custom_script_entry(apply_script: &str, revert_script: &str, apply_sha256: &str, revert_sha256: &str) -> (e: JournalEntry)
    ensures
        e.op == Op::CustomScriptApply,
        e.target.model() == JsonModel::Object(
            seq![("apply_script"@, JsonModel::Str(apply_script@)), ("revert_script"@, JsonModel::Str(revert_script@))],
        ),
        e.new.model() == JsonModel::Object(seq![("apply_sha256"@, JsonModel::Str(apply_sha256@))]),
        e.inverse.model() == script_inverse_model(apply_sha256@, revert_sha256@, revert_script@),
{
    JournalEntry {
        op: Op::CustomScriptApply,
        target: json_object2("apply_script", json_str(apply_script), "revert_script", json_str(revert_script)),
        new: json_object1("apply_sha256", json_str(apply_sha256)),
        inverse: crate::custom_script::script_inverse(apply_sha256, revert_sha256, revert_script),
    }
}

/// What undoing a journal record does to the system.
#[derive(Debug)]
pub enum RevertAction {
    /// Delete the registry value (it did not exist before).
    DeleteRegistryValue(RegKey),
    /// Write the registry value back.
    WriteRegistryValue(RegKey, RegValue),
    /// Set the power setting's AC value back.
    WritePowercfg { sub: String, setting: String, value: u32 },
    /// Make the power plan active again.
    ActivatePowerPlan(String),
    /// Delete the power plan the mutation created.
    DeletePowerPlan(String),
    /// Run the revert script at this path (under the project's `scripts`
    /// directory), once its SHA-256 is checked against this one.
    RunRevertScript { revert_path: String, revert_sha256: String },
    /// Write this text back as CS2's video settings file.
    WriteVideoConfig(String),
    /// Nothing to undo.
    Nothing,
}

/// What undoing a record does, as plain data.
pub enum RevertModel {
    DeleteRegistryValue(Hive, Seq<char>, Seq<char>),
    WriteRegistryValue(Hive, Seq<char>, Seq<char>, RegValueModel),
    WritePowercfg(Seq<char>, Seq<char>, u32),
    ActivatePowerPlan(Seq<char>),
    DeletePowerPlan(Seq<char>),
    RunRevertScript(Seq<char>, Seq<char>),
    WriteVideoConfig(Seq<char>),
    Nothing,
}

pub open spec fn action_view(a: RevertAction) -> RevertModel {
    match a {
        RevertAction::DeleteRegistryValue(k) => RevertModel::DeleteRegistryValue(k.hive, k.subkey@, k.value_name@),
        RevertAction::WriteRegistryValue(k, v) => RevertModel::WriteRegistryValue(
            k.hive,
            k.subkey@,
            k.value_name@,
            v.model(),
        ),
        RevertAction::WritePowercfg { sub, setting, value } => RevertModel::WritePowercfg(sub@, setting@, value),
        RevertAction::ActivatePowerPlan(g) => RevertModel::ActivatePowerPlan(g@),
        RevertAction::DeletePowerPlan(g) => RevertModel::DeletePowerPlan(g@),
        RevertAction::RunRevertScript { revert_path, revert_sha256 } => RevertModel::RunRevertScript(
            revert_path@,
            revert_sha256@,
        ),
        RevertAction::WriteVideoConfig(t) => RevertModel::WriteVideoConfig(t@),
        RevertAction::Nothing => RevertModel::Nothing,
    }
}

/// The hive a journaled `hive` field names.
pub open spec fn hive_named(v: JsonModel) -> Option<Hive> {
    match model_str(v) {
        Some(s) => if s == "HKLM"@ {
            Some(Hive::Hklm)
        } else if s == "HKCU"@ {
            Some(Hive::Hkcu)
        } else {
            None
        },
        None => None,
    }
}

/// Undoing a registry record: its inverse's target names the value, and
/// its `kind` says whether to delete it or write the journaled value back.
pub open spec fn registry_revert(inv: JsonModel) -> Result<RevertModel, Seq<char>> {
    let t = model_index(inv, "target"@);
    let sub = str_or_empty(model_index(t, "subkey"@));
    let name = str_or_empty(model_index(t, "value_name"@));
    let kind = model_str(model_index(inv, "kind"@));
    match hive_named(model_index(t, "hive"@)) {
        None => Err("journal inverse target has no hive"@),
        Some(h) => if kind == Some("delete"@) {
            Ok(RevertModel::DeleteRegistryValue(h, sub, name))
        } else if kind == Some("write"@) {
            match journal_value(model_index(inv, "value"@)) {
                Ok(v) => Ok(RevertModel::WriteRegistryValue(h, sub, name, v)),
                Err(m) => Err(m),
            }
        } else {
            Err("journal inverse has no kind"@)
        },
    }
}

/// A journaled integer as `u32` (its low 32 bits), 0 when it is not a
/// non-negative integer.
pub open spec fn journal_u32(v: JsonModel) -> u32 {
    match v {
        JsonModel::UInt(n) => n as u32,
        _ => 0,
    }
}

/// The refusal to revert a video settings record without its original
/// text.
pub open spec fn missing_original_text(seq: u64) -> Seq<char> {
    "seq "@ + decimal(seq as nat)
        + ": cs2_config revert inverse is missing a string original_text -- refusing to write, would truncate video.txt"@
}

/// What undoing record `seq` of kind `op` with inverse `inv` does, or why
/// it cannot be undone.
pub open spec fn revert_of(op: Op, seq: u64, inv: JsonModel) -> Result<RevertModel, Seq<char>> {
    match op {
        Op::RegistryWrite | Op::RegistryDelete => registry_revert(inv),
        Op::PowercfgWrite => Ok(
            RevertModel::WritePowercfg(
                str_or_empty(model_index(inv, "sub"@)),
                str_or_empty(model_index(inv, "setting"@)),
                journal_u32(model_index(inv, "value"@)),
            ),
        ),
        Op::PowerPlanActivate => Ok(RevertModel::ActivatePowerPlan(str_or_empty(model_index(inv, "guid"@)))),
        Op::PowerPlanCreate => Ok(RevertModel::DeletePowerPlan(str_or_empty(model_index(inv, "guid"@)))),
        Op::PowerPlanDelete => Ok(RevertModel::Nothing),
        Op::CustomScriptApply => match crate::custom_script::revert_inputs(seq, inv) {
            Ok((p, h)) => Ok(RevertModel::RunRevertScript(p, h)),
            Err(m) => Err(m),
        },
        Op::Cs2ConfigApply => match model_str(model_index(inv, "original_text"@)) {
            Some(t) => Ok(RevertModel::WriteVideoConfig(t)),
            None => Err(missing_original_text(seq)),
        },
    }
}

fn registry_revert_action(inverse: &JsonValue) -> (r: Result<RevertAction, Error>)
    ensures
        match r {
            Ok(a) => registry_revert(inverse.model()) == Ok::<RevertModel, Seq<char>>(action_view(a)),
            Err(e) => err_view(e).0 == ErrorTag::Msg && registry_revert(inverse.model()) == Err::<
                RevertModel,
                Seq<char>,
            >(err_view(e).1),
        },
{
    let null = JsonValue::Null;
    proof {
        reveal_strlit("HKLM");
        reveal_strlit("HKCU");
    }
    let t = member_or_null(inverse, "target", &null);
    let hive = match member_or_null(t, "hive", &null).as_str() {
        Some(h) => if str_eq(h, "HKLM") {
            Hive::Hklm
        } else if str_eq(h, "HKCU") {
            Hive::Hkcu
        } else {
            return Err(err_msg("journal inverse target has no hive"));
        },
        None => return Err(err_msg("journal inverse target has no hive")),
    };
    let key = RegKey {
        hive,
        subkey: str_of(member_or_null(t, "subkey", &null)).to_owned(),
        value_name: str_of(member_or_null(t, "value_name", &null)).to_owned(),
    };
    let kind = member_or_null(inverse, "kind", &null).as_str();
    let is_delete = match kind {
        Some(k) => str_eq(k, "delete"),
        None => false,
    };
    let is_write = match kind {
        Some(k) => str_eq(k, "write"),
        None => false,
    };
    if is_delete {
        Ok(RevertAction::DeleteRegistryValue(key))
    } else if is_write {
        match json_to_value(member_or_null(inverse, "value", &null)) {
            Ok(v) => Ok(RevertAction::WriteRegistryValue(key, v)),
            Err(e) => Err(e),
        }
    } else {
        Err(err_msg("journal inverse has no kind"))
    }
}

/// What undoing a journal record does (see [`revert_of`]); the error is
/// why the record cannot be undone.
pub fn revert_action(rec: &JournalRecord) -> (r: Result<RevertAction, Error>)
    ensures
        match r {
            Ok(a) => revert_of(rec.op, rec.seq, rec.inverse.model()) == Ok::<RevertModel, Seq<char>>(
                action_view(a),
            ),
            Err(e) => err_view(e).0 == ErrorTag::Msg && revert_of(rec.op, rec.seq, rec.inverse.model())
                == Err::<RevertModel, Seq<char>>(err_view(e).1),
        },
{
    let null = JsonValue::Null;
    let inv = &rec.inverse;
    match rec.op {
        Op::RegistryWrite | Op::RegistryDelete => registry_revert_action(inv),
        Op::PowercfgWrite => {
            let value = match member_or_null(inv, "value", &null).as_u64() {
                Some(n) => n as u32,
                None => 0,
            };
            Ok(
                RevertAction::WritePowercfg {
                    sub: str_of(member_or_null(inv, "sub", &null)).to_owned(),
                    setting: str_of(member_or_null(inv, "setting", &null)).to_owned(),
                    value,
                },
            )
        },
        Op::PowerPlanActivate => Ok(
            RevertAction::ActivatePowerPlan(str_of(member_or_null(inv, "guid", &null)).to_owned()),
        ),
        Op::PowerPlanCreate => Ok(
            RevertAction::DeletePowerPlan(str_of(member_or_null(inv, "guid", &null)).to_owned()),
        ),
        Op::PowerPlanDelete => Ok(RevertAction::Nothing),
        Op::CustomScriptApply => match crate::custom_script::revert_script_inputs(rec.seq, inv) {
            Ok((revert_path, revert_sha256)) => Ok(RevertAction::RunRevertScript { revert_path, revert_sha256 }),
            Err(e) => Err(e),
        },
        Op::Cs2ConfigApply => match member_or_null(inv, "original_text", &null).as_str() {
            Some(t) => Ok(RevertAction::WriteVideoConfig(t.to_owned())),
            None => {
                let mut out: Vec<char> = Vec::new();
                push_str(&mut out, "seq ");
                let d = decimal_chars(rec.seq);
                push_chars(&mut out, &d);
                push_str(
                    &mut out,
                    ": cs2_config revert inverse is missing a string original_text -- refusing to write, would truncate video.txt",
                );
                Err(err_msg_chars(&out))
            },
        },
    }
}

proof fn lemma_members2(k1: Seq<char>, v1: JsonModel, k2: Seq<char>, v2: JsonModel)
    requires
        k1 != k2,
    ensures
        crate::json::model_member(seq![(k1, v1), (k2, v2)], k1) == Some(v1),
        crate::json::model_member(seq![(k1, v1), (k2, v2)], k2) == Some(v2),
{
    reveal_with_fuel(crate::json::model_member, 2);
    let ms = seq![(k1, v1), (k2, v2)];
    assert(ms.drop_first() =~= seq![(k2, v2)]);
}

proof fn lemma_members3(k1: Seq<char>, v1: JsonModel, k2: Seq<char>, v2: JsonModel, k3: Seq<char>, v3: JsonModel)
    requires
        k1 != k2,
        k1 != k3,
        k2 != k3,
    ensures
        crate::json::model_member(seq![(k1, v1), (k2, v2), (k3, v3)], k1) == Some(v1),
        crate::json::model_member(seq![(k1, v1), (k2, v2), (k3, v3)], k2) == Some(v2),
        crate::json::model_member(seq![(k1, v1), (k2, v2), (k3, v3)], k3) == Some(v3),
{
    let ms = seq![(k1, v1), (k2, v2), (k3, v3)];
    assert(ms.drop_first() =~= seq![(k2, v2), (k3, v3)]);
    lemma_members2(k2, v2, k3, v3);
}

/// Undoing a registry write restores what was there before it: the value
/// is deleted when the key held none, else the value read before is
/// written back, to the same key.
pub proof fn lemma_registry_revert_restores(
    hive: Hive,
    subkey: Seq<char>,
    value_name: Seq<char>,
    current: RegValueModel,
    seq: u64,
)
    ensures
        revert_of(Op::RegistryWrite, seq, registry_inverse(key_target(hive, subkey, value_name), current))
            == Ok::<RevertModel, Seq<char>>(
            if current == RegValueModel::Absent {
                RevertModel::DeleteRegistryValue(hive, subkey, value_name)
            } else {
                RevertModel::WriteRegistryValue(hive, subkey, value_name, current)
            },
        ),
{
    reveal_strlit("hive");
    reveal_strlit("subkey");
    reveal_strlit("value_name");
    reveal_strlit("kind");
    reveal_strlit("target");
    reveal_strlit("value");
    reveal_strlit("delete");
    reveal_strlit("write");
    reveal_strlit("HKLM");
    reveal_strlit("HKCU");
    crate::registry::lemma_journal_round_trip(current);
    assert("HKLM"@[2] != "HKCU"@[2]);
    assert("hive"@.len() == 4 && "subkey"@.len() == 6 && "value_name"@.len() == 10);
    assert("kind"@.len() == 4 && "target"@.len() == 6 && "value"@.len() == 5);
    assert("delete"@.len() == 6 && "write"@.len() == 5);
    let t = key_target(hive, subkey, value_name);
    lemma_members3(
        "hive"@,
        JsonModel::Str(hive.spec_str()),
        "subkey"@,
        JsonModel::Str(subkey),
        "value_name"@,
        JsonModel::Str(value_name),
    );
    lemma_members2("kind"@, JsonModel::Str("delete"@), "target"@, t);
    lemma_members3("kind"@, JsonModel::Str("write"@), "target"@, t, "value"@, value_json(current));
    assert(hive_named(JsonModel::Str(hive.spec_str())) == Some(hive));
}

/// Undoing a power setting change sets its AC value back to the one read
/// before it.
pub proof fn lemma_powercfg_revert_restores(sub: Seq<char>, setting: Seq<char>, ac: u32, seq: u64)
    ensures
        revert_of(Op::PowercfgWrite, seq, powercfg_inverse(sub, setting, ac)) == Ok::<RevertModel, Seq<char>>(
            RevertModel::WritePowercfg(sub, setting, ac),
        ),
{
    reveal_strlit("setting");
    reveal_strlit("sub");
    reveal_strlit("value");
    assert("setting"@.len() == 7 && "sub"@.len() == 3 && "value"@.len() == 5);
    lemma_members3(
        "setting"@,
        JsonModel::Str(setting),
        "sub"@,
        JsonModel::Str(sub),
        "value"@,
        JsonModel::UInt(ac as u64),
    );
}

/// Undoing a plan activation activates the plan that was active before
/// it; undoing a plan creation deletes the plan it created.
pub proof fn lemma_plan_revert_restores(prev_active: Seq<char>, created: Seq<char>, seq: u64)
    ensures
        revert_of(Op::PowerPlanActivate, seq, guid_object(prev_active)) == Ok::<RevertModel, Seq<char>>(
            RevertModel::ActivatePowerPlan(prev_active),
        ),
        revert_of(Op::PowerPlanCreate, seq, guid_object(created)) == Ok::<RevertModel, Seq<char>>(
            RevertModel::DeletePowerPlan(created),
        ),
{
}

/// Undoing a video settings rewrite writes back the text the file held
/// before it.
pub proof fn lemma_video_revert_restores(original: Seq<char>, seq: u64)
    ensures
        revert_of(
            Op::Cs2ConfigApply,
            seq,
            JsonModel::Object(seq![("original_text"@, JsonModel::Str(original))]),
        ) == Ok::<RevertModel, Seq<char>>(RevertModel::WriteVideoConfig(original)),
{
}

/// Undoing a custom script runs the revert script recorded at apply, held
/// to the hash recorded at apply.
pub proof fn lemma_script_revert_runs_pinned(
    apply_sha256: Seq<char>,
    revert_sha256: Seq<char>,
    revert_path: Seq<char>,
    seq: u64,
)
    ensures
        revert_of(Op::CustomScriptApply, seq, script_inverse_model(apply_sha256, revert_sha256, revert_path))
            == Ok::<RevertModel, Seq<char>>(RevertModel::RunRevertScript(revert_path, revert_sha256)),
{
    reveal_strlit("apply_sha256");
    reveal_strlit("revert_path");
    reveal_strlit("revert_sha256");
    assert("apply_sha256"@.len() == 12 && "revert_path"@.len() == 11 && "revert_sha256"@.len() == 13);
    lemma_members3(
        "apply_sha256"@,
        JsonModel::Str(apply_sha256),
        "revert_path"@,
        JsonModel::Str(revert_path),
        "revert_sha256"@,
        JsonModel::Str(revert_sha256),
    );
}

// ---------------------------------------------------------------------------
// Reading the system back after a revert
// ---------------------------------------------------------------------------

/// What is read back to check a reverted record.
#[derive(Debug)]
pub enum ReadBack {
    /// The registry value at this key.
    Registry(RegKey),
    /// The AC value of this power setting.
    Powercfg { sub: String, setting: String },
    /// The active power plan's GUID.
    ActivePlan,
    /// CS2's video settings text.
    VideoConfig,
    /// Nothing is checked.
    Nothing,
}

pub enum ReadBackModel {
    Registry(Hive, Seq<char>, Seq<char>),
    Powercfg(Seq<char>, Seq<char>),
    ActivePlan,
    VideoConfig,
    Nothing,
}

pub open spec fn read_back_view(r: ReadBack) -> ReadBackModel {
    match r {
        ReadBack::Registry(k) => ReadBackModel::Registry(k.hive, k.subkey@, k.value_name@),
        ReadBack::Powercfg { sub, setting } => ReadBackModel::Powercfg(sub@, setting@),
        ReadBack::ActivePlan => ReadBackModel::ActivePlan,
        ReadBack::VideoConfig => ReadBackModel::VideoConfig,
        ReadBack::Nothing => ReadBackModel::Nothing,
    }
}

/// What checking reverted record `seq` of kind `op` with inverse `inv`
/// reads back: the registry value its inverse targets (a record whose
/// inverse names no hive cannot be checked), the power setting it set, the
/// active plan, or the video settings; nothing for the other kinds.
pub open spec fn read_back_of(op: Op, seq: u64, inv: JsonModel) -> Result<ReadBackModel, Seq<char>> {
    match op {
        Op::RegistryWrite | Op::RegistryDelete => {
            let t = model_index(inv, "target"@);
            match hive_named(model_index(t, "hive"@)) {
                None => Err(seq_prefix(seq) + "inverse has no hive"@),
                Some(h) => Ok(
                    ReadBackModel::Registry(
                        h,
                        str_or_empty(model_index(t, "subkey"@)),
                        str_or_empty(model_index(t, "value_name"@)),
                    ),
                ),
            }
        },
        Op::PowercfgWrite => Ok(
            ReadBackModel::Powercfg(
                str_or_empty(model_index(inv, "sub"@)),
                str_or_empty(model_index(inv, "setting"@)),
            ),
        ),
        Op::PowerPlanActivate => Ok(ReadBackModel::ActivePlan),
        Op::Cs2ConfigApply => Ok(ReadBackModel::VideoConfig),
        _ => Ok(ReadBackModel::Nothing),
    }
}

/// What to read back to check a reverted record (see [`read_back_of`]).
pub fn read_back(rec: &JournalRecord) -> (r: Result<ReadBack, String>)
    ensures
        match r {
            Ok(b) => read_back_of(rec.op, rec.seq, rec.inverse.model()) == Ok::<ReadBackModel, Seq<char>>(read_back_view(b)),
            Err(m) => read_back_of(rec.op, rec.seq, rec.inverse.model()) == Err::<ReadBackModel, Seq<char>>(m@),
        },
{
    let null = JsonValue::Null;
    let inv = &rec.inverse;
    proof {
        reveal_strlit("HKLM");
        reveal_strlit("HKCU");
        reveal_strlit("");
    }
    match rec.op {
        Op::RegistryWrite | Op::RegistryDelete => {
            let t = member_or_null(inv, "target", &null);
            let hive = match member_or_null(t, "hive", &null).as_str() {
                Some(h) => if str_eq(h, "HKLM") {
                    Hive::Hklm
                } else if str_eq(h, "HKCU") {
                    Hive::Hkcu
                } else {
                    return Err(seq_message(rec.seq, "inverse has no hive", ""));
                },
                None => return Err(seq_message(rec.seq, "inverse has no hive", "")),
            };
            Ok(
                ReadBack::Registry(
                    RegKey {
                        hive,
                        subkey: str_of(member_or_null(t, "subkey", &null)).to_owned(),
                        value_name: str_of(member_or_null(t, "value_name", &null)).to_owned(),
                    },
                ),
            )
        },
        Op::PowercfgWrite => Ok(
            ReadBack::Powercfg {
                sub: str_of(member_or_null(inv, "sub", &null)).to_owned(),
                setting: str_of(member_or_null(inv, "setting", &null)).to_owned(),
            },
        ),
        Op::PowerPlanActivate => Ok(ReadBack::ActivePlan),
        Op::Cs2ConfigApply => Ok(ReadBack::VideoConfig),
        _ => Ok(ReadBack::Nothing),
    }
}

/// Why a reverted registry record fails its check, if it does: its value
/// was deleted by the revert but is still there (described as `found`). A
/// value written back is not compared.
pub open spec fn registry_check(seq: u64, inv: JsonModel, found_absent: bool, found: Seq<char>) -> Option<Seq<char>> {
    if model_str(model_index(inv, "kind"@)) == Some("delete"@) && !found_absent {
        Some(seq_prefix(seq) + "expected absent, found "@ + found)
    } else {
        None
    }
}

/// Checks a reverted registry record against the value read back: whether
/// there is one, and its description (see [`registry_check`]).
pub fn check_registry(seq: u64, inverse: &JsonValue, found_absent: bool, found: &str) -> (r: Result<(), String>)
    ensures
        match r {
            Ok(()) => registry_check(seq, inverse.model(), found_absent, found@) is None,
            Err(m) => registry_check(seq, inverse.model(), found_absent, found@) == Some(m@),
        },
{
    let null = JsonValue::Null;
    let deleted = match member_or_null(inverse, "kind", &null).as_str() {
        Some(k) => str_eq(k, "delete"),
        None => false,
    };
    if deleted && !found_absent {
        Err(seq_message(seq, "expected absent, found ", found))
    } else {
        Ok(())
    }
}

/// Why a reverted power setting record fails its check, if it does: the
/// AC value read back is not the one its inverse holds.
pub open spec fn powercfg_check(seq: u64, inv: JsonModel, found_ac: u32) -> Option<Seq<char>> {
    let want = journal_u32(model_index(inv, "value"@));
    if found_ac != want {
        Some(
            seq_prefix(seq) + str_or_empty(model_index(inv, "sub"@)) + "/"@ + str_or_empty(
                model_index(inv, "setting"@),
            ) + " expected "@ + decimal(want as nat) + ", found "@ + decimal(found_ac as nat),
        )
    } else {
        None
    }
}

/// Checks a reverted power setting record against the AC value read back
/// (see [`powercfg_check`]).
pub fn check_powercfg(seq: u64, inverse: &JsonValue, found_ac: u32) -> (r: Result<(), String>)
    ensures
        match r {
            Ok(()) => powercfg_check(seq, inverse.model(), found_ac) is None,
            Err(m) => powercfg_check(seq, inverse.model(), found_ac) == Some(m@),
        },
{
    let null = JsonValue::Null;
    let want: u32 = match member_or_null(inverse, "value", &null).as_u64() {
        Some(n) => n as u32,
        None => 0,
    };
    if found_ac != want {
        let mut out: Vec<char> = Vec::new();
        push_str(&mut out, "seq ");
        let d = decimal_chars(seq);
        push_chars(&mut out, &d);
        push_str(&mut out, ": ");
        push_str(&mut out, str_of(member_or_null(inverse, "sub", &null)));
        push_str(&mut out, "/");
        push_str(&mut out, str_of(member_or_null(inverse, "setting", &null)));
        push_str(&mut out, " expected ");
        let w = decimal_chars(want as u64);
        push_chars(&mut out, &w);
        push_str(&mut out, ", found ");
        let f = decimal_chars(found_ac as u64);
        push_chars(&mut out, &f);
        Err(string_from_chars(&out))
    } else {
        Ok(())
    }
}

/// Why a reverted plan activation fails its check, if it does: the active
/// plan read back is not the one its inverse names.
pub open spec fn plan_check(seq: u64, inv: JsonModel, found: Seq<char>) -> Option<Seq<char>> {
    let want = str_or_empty(model_index(inv, "guid"@));
    if found != want {
        Some(seq_prefix(seq) + "active plan expected "@ + want + ", found "@ + found)
    } else {
        None
    }
}

/// Checks a reverted plan activation against the active plan's GUID read
/// back (see [`plan_check`]).
pub fn check_active_plan(seq: u64, inverse: &JsonValue, found: &str) -> (r: Result<(), String>)
    ensures
        match r {
            Ok(()) => plan_check(seq, inverse.model(), found@) is None,
            Err(m) => plan_check(seq, inverse.model(), found@) == Some(m@),
        },
{
    let null = JsonValue::Null;
    let want = str_of(member_or_null(inverse, "guid", &null));
    if !str_eq(found, want) {
        let mut out: Vec<char> = Vec::new();
        push_str(&mut out, "seq ");
        let d = decimal_chars(seq);
        push_chars(&mut out, &d);
        push_str(&mut out, ": ");
        push_str(&mut out, "active plan expected ");
        push_str(&mut out, want);
        push_str(&mut out, ", found ");
        push_str(&mut out, found);
        Err(string_from_chars(&out))
    } else {
        Ok(())
    }
}

/// Why a reverted video settings record fails its check, if it does: the
/// text read back is not the snapshot its inverse holds.
pub open spec fn video_check(seq: u64, inv: JsonModel, found: Seq<char>) -> Option<Seq<char>> {
    if found != str_or_empty(model_index(inv, "original_text"@)) {
        Some(seq_prefix(seq) + "video.txt expected to match the pre-run snapshot, found a different value"@)
    } else {
        None
    }
}

/// Checks a reverted video settings record against the text read back
/// (see [`video_check`]).
pub fn check_video_config(seq: u64, inverse: &JsonValue, found: &str) -> (r: Result<(), String>)
    ensures
        match r {
            Ok(()) => video_check(seq, inverse.model(), found@) is None,
            Err(m) => video_check(seq, inverse.model(), found@) == Some(m@),
        },
{
    let null = JsonValue::Null;
    proof {
        reveal_strlit("");
    }
    if !str_eq(found, str_of(member_or_null(inverse, "original_text", &null))) {
        Err(seq_message(seq, "video.txt expected to match the pre-run snapshot, found a different value", ""))
    } else {
        Ok(())
    }
}

/// The read-back check accepts what the revert restored: a registry value
/// the revert deleted, found absent; the power setting value, the plan and
/// the video settings text the revert wrote, found as written.
pub proof fn lemma_read_back_accepts_the_revert(op: Op, seq: u64, inv: JsonModel, description: Seq<char>)
    ensures
        revert_of(op, seq, inv) matches Ok(RevertModel::DeleteRegistryValue(_, _, _)) ==> registry_check(
            seq,
            inv,
            true,
            description,
        ) is None,
        revert_of(op, seq, inv) matches Ok(RevertModel::WritePowercfg(_, _, v)) ==> powercfg_check(seq, inv, v) is None,
        revert_of(op, seq, inv) matches Ok(RevertModel::ActivatePowerPlan(g)) ==> plan_check(seq, inv, g) is None,
        revert_of(op, seq, inv) matches Ok(RevertModel::WriteVideoConfig(t)) ==> video_check(
            seq,
            inv,
            t,
        ) is None,
{
}

} // verus!
