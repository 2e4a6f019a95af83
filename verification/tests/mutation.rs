use voidframe::cs2_config::VideoSettings;
use voidframe::journal::{JournalRecord, Op};
use voidframe::json::{json_object1, json_str, JsonMembers, JsonValue};
use voidframe::module::{Hive, PowerPlanPayload};
use voidframe::mutation::{
    check_active_plan, check_powercfg, check_registry, check_video_config, cs2_config_entry,
    custom_script_entry, plan_activate_entry, plan_create_entry, plan_installed, plan_source,
    powercfg_entry, read_back, registry_entry, revert_action, JournalEntry, PlanSource, ReadBack,
    RevertAction,
};
use voidframe::registry::{RegKey, RegValue};

fn record(seq: u64, entry: JournalEntry) -> JournalRecord {
    JournalRecord {
        seq,
        ts_unix_ms: 0,
        run_id: "r".to_owned(),
        scenario_id: "s".to_owned(),
        step_index: 0,
        op: entry.op,
        target: entry.target,
        new: entry.new,
        inverse: entry.inverse,
        applied: true,
    }
}

fn bare_record(seq: u64, op: Op, inverse: JsonValue) -> JournalRecord {
    JournalRecord {
        seq,
        ts_unix_ms: 0,
        run_id: "r".to_owned(),
        scenario_id: "s".to_owned(),
        step_index: 0,
        op,
        target: JsonValue::Object(JsonMembers::Nil),
        new: JsonValue::Object(JsonMembers::Nil),
        inverse,
        applied: true,
    }
}

fn hags_key() -> RegKey {
    RegKey {
        hive: Hive::Hklm,
        subkey: "SYSTEM\\CurrentControlSet\\Control\\GraphicsDrivers".to_owned(),
        value_name: "HwSchMode".to_owned(),
    }
}

fn str_member<'a>(v: &'a JsonValue, key: &str) -> Option<&'a str> {
    v.get(key).and_then(|m| m.as_str())
}

#[test]
fn registry_entry_journals_a_delete_when_the_value_was_absent() {
    let e = registry_entry(&hags_key(), &RegValue::Dword(2), &RegValue::Absent);
    assert_eq!(e.op, Op::RegistryWrite);
    assert_eq!(str_member(&e.inverse, "kind"), Some("delete"));
    let target = e.inverse.get("target").unwrap();
    assert_eq!(str_member(target, "hive"), Some("HKLM"));
    assert_eq!(str_member(target, "value_name"), Some("HwSchMode"));
    assert_eq!(e.new.get("value").and_then(|v| v.as_u64()), Some(2));
    match revert_action(&record(1, e)).unwrap() {
        RevertAction::DeleteRegistryValue(k) => {
            assert_eq!(k.hive, Hive::Hklm);
            assert_eq!(k.subkey, hags_key().subkey);
            assert_eq!(k.value_name, "HwSchMode");
        }
        other => panic!("unexpected {other:?}"),
    }
}

#[test]
fn registry_entry_journals_the_prior_value_and_revert_writes_it_back() {
    let e = registry_entry(&hags_key(), &RegValue::Dword(2), &RegValue::Dword(1));
    assert_eq!(str_member(&e.inverse, "kind"), Some("write"));
    assert_eq!(e.inverse.get("value").and_then(|v| v.get("value")).and_then(|v| v.as_u64()), Some(1));
    match revert_action(&record(1, e)).unwrap() {
        RevertAction::WriteRegistryValue(k, v) => {
            assert_eq!(k.value_name, "HwSchMode");
            assert_eq!(v, RegValue::Dword(1));
        }
        other => panic!("unexpected {other:?}"),
    }
}

#[test]
fn registry_revert_of_a_multi_string_value_gives_it_back_whole() {
    let prior = RegValue::MultiSz(vec!["a".to_owned(), "b c".to_owned()]);
    let e = registry_entry(&hags_key(), &RegValue::Dword(2), &prior);
    match revert_action(&record(7, e)).unwrap() {
        RevertAction::WriteRegistryValue(_, v) => assert_eq!(v, prior),
        other => panic!("unexpected {other:?}"),
    }
}

#[test]
fn registry_revert_refuses_an_inverse_without_hive_or_kind() {
    let no_hive = bare_record(3, Op::RegistryWrite, json_object1("kind", json_str("delete")));
    let e = revert_action(&no_hive).unwrap_err();
    assert_eq!(e.message(), "journal inverse target has no hive");
    let target = json_object1("hive", json_str("HKCU"));
    let no_kind = bare_record(3, Op::RegistryDelete, json_object1("target", target));
    let e = revert_action(&no_kind).unwrap_err();
    assert_eq!(e.message(), "journal inverse has no kind");
}

#[test]
fn powercfg_revert_sets_the_prior_ac_value_back() {
    let e = powercfg_entry("sub_processor", "CPMINCORES", 100, 5);
    assert_eq!(e.op, Op::PowercfgWrite);
    assert_eq!(e.new.as_u64(), Some(100));
    match revert_action(&record(2, e)).unwrap() {
        RevertAction::WritePowercfg { sub, setting, value } => {
            assert_eq!(sub, "sub_processor");
            assert_eq!(setting, "CPMINCORES");
            assert_eq!(value, 5);
        }
        other => panic!("unexpected {other:?}"),
    }
}

#[test]
fn a_missing_plan_without_the_create_flag_is_refused() {
    let p = PowerPlanPayload { plan_guid: "nope".to_owned(), friendly_name: None, create_if_missing: false };
    let e = plan_source(&p, false).unwrap_err();
    assert!(e.message().contains("nope"));
    assert_eq!(e.message(), "power plan nope is not installed");
    let p = PowerPlanPayload { create_if_missing: true, ..p };
    assert_eq!(plan_source(&p, false).unwrap(), PlanSource::Duplicate);
    assert_eq!(plan_source(&p, true).unwrap(), PlanSource::Installed);
}

#[test]
fn plan_installed_looks_for_the_exact_guid() {
    let plans = vec!["381b4222-f694-41f0-9685-ff5bb260df2e".to_owned(), "a1841308".to_owned()];
    assert!(plan_installed(&plans, "a1841308"));
    assert!(!plan_installed(&plans, "a184130"));
    assert!(!plan_installed(&[], "a1841308"));
}

#[test]
fn plan_reverts_reactivate_the_prior_plan_and_delete_a_created_one() {
    let e = plan_activate_entry("new-guid", "old-guid");
    assert_eq!(e.new.as_str(), Some("new-guid"));
    match revert_action(&record(4, e)).unwrap() {
        RevertAction::ActivatePowerPlan(g) => assert_eq!(g, "old-guid"),
        other => panic!("unexpected {other:?}"),
    }
    let e = plan_create_entry("template-guid", "created-guid");
    assert_eq!(str_member(&e.target, "template"), Some("template-guid"));
    assert_eq!(str_member(&e.inverse, "guid"), Some("created-guid"));
    match revert_action(&record(5, e)).unwrap() {
        RevertAction::DeletePowerPlan(g) => assert_eq!(g, "created-guid"),
        other => panic!("unexpected {other:?}"),
    }
    let deleted = bare_record(6, Op::PowerPlanDelete, JsonValue::Null);
    assert!(matches!(revert_action(&deleted).unwrap(), RevertAction::Nothing));
}

fn sample_video_config() -> &'static str {
    "\"VideoConfig\"\n{\n\t\"setting.defaultres\"\t\t\"1920\"\n\t\"setting.fullscreen\"\t\t\"1\"\n}\n"
}

#[test]
fn cs2_config_entry_snapshots_the_original_and_revert_restores_it() {
    let mut settings = VideoSettings::new();
    settings.insert("setting.fullscreen", "0");
    let (e, new_text) = cs2_config_entry(&settings, sample_video_config());
    assert!(new_text.contains("\"setting.defaultres\"\t\t\"1920\""));
    assert!(new_text.contains("\"setting.fullscreen\"\t\t\"0\""));
    assert_eq!(str_member(&e.new, "new_text"), Some(new_text.as_str()));
    assert_eq!(str_member(&e.inverse, "original_text"), Some(sample_video_config()));
    assert_eq!(str_member(e.target.get("settings").unwrap(), "setting.fullscreen"), Some("0"));
    match revert_action(&record(1, e)).unwrap() {
        RevertAction::WriteVideoConfig(t) => assert_eq!(t, sample_video_config()),
        other => panic!("unexpected {other:?}"),
    }
}

#[test]
fn cs2_config_revert_refuses_a_missing_or_non_string_original_text() {
    let missing = bare_record(1, Op::Cs2ConfigApply, JsonValue::Object(JsonMembers::Nil));
    let e = revert_action(&missing).unwrap_err();
    assert!(e.message().contains("original_text"));
    assert_eq!(
        e.message(),
        "seq 1: cs2_config revert inverse is missing a string original_text -- refusing to write, would truncate video.txt"
    );
    let number = bare_record(1, Op::Cs2ConfigApply, json_object1("original_text", JsonValue::UInt(42)));
    assert!(revert_action(&number).unwrap_err().message().contains("original_text"));
}

#[test]
fn custom_script_revert_runs_the_pinned_revert_script() {
    let e = custom_script_entry("apply.bat", "revert.bat", "aaaa", "bbbb");
    assert_eq!(str_member(&e.new, "apply_sha256"), Some("aaaa"));
    match revert_action(&record(9, e)).unwrap() {
        RevertAction::RunRevertScript { revert_path, revert_sha256 } => {
            assert_eq!(revert_path, "revert.bat");
            assert_eq!(revert_sha256, "bbbb");
        }
        other => panic!("unexpected {other:?}"),
    }
}

#[test]
fn custom_script_revert_refuses_an_inverse_without_path_or_hash() {
    let no_path = bare_record(1, Op::CustomScriptApply, json_object1("revert_sha256", json_str("aaaa")));
    assert!(revert_action(&no_path).unwrap_err().message().contains("revert_path"));
    let no_hash = bare_record(1, Op::CustomScriptApply, json_object1("revert_path", json_str("revert.bat")));
    assert!(revert_action(&no_hash).unwrap_err().message().contains("revert_sha256"));
}

#[test]
fn a_reverted_registry_delete_reads_back_its_key_and_must_be_absent() {
    let rec = record(1, registry_entry(&hags_key(), &RegValue::Dword(2), &RegValue::Absent));
    match read_back(&rec).unwrap() {
        ReadBack::Registry(k) => assert_eq!(k.value_name, "HwSchMode"),
        other => panic!("unexpected {other:?}"),
    }
    assert!(check_registry(1, &rec.inverse, true, "absent").is_ok());
    assert_eq!(
        check_registry(1, &rec.inverse, false, "DWORD 2").unwrap_err(),
        "seq 1: expected absent, found DWORD 2"
    );
    let written = record(2, registry_entry(&hags_key(), &RegValue::Dword(2), &RegValue::Dword(1)));
    assert!(check_registry(2, &written.inverse, false, "DWORD 1").is_ok());
}

#[test]
fn a_registry_inverse_without_hive_cannot_be_read_back() {
    let rec = bare_record(8, Op::RegistryWrite, json_object1("kind", json_str("delete")));
    assert_eq!(read_back(&rec).unwrap_err(), "seq 8: inverse has no hive");
}

#[test]
fn a_reverted_power_setting_must_read_back_its_prior_value() {
    let rec = record(2, powercfg_entry("sub_processor", "CPMINCORES", 100, 5));
    match read_back(&rec).unwrap() {
        ReadBack::Powercfg { sub, setting } => {
            assert_eq!(sub, "sub_processor");
            assert_eq!(setting, "CPMINCORES");
        }
        other => panic!("unexpected {other:?}"),
    }
    assert!(check_powercfg(2, &rec.inverse, 5).is_ok());
    assert_eq!(
        check_powercfg(2, &rec.inverse, 100).unwrap_err(),
        "seq 2: sub_processor/CPMINCORES expected 5, found 100"
    );
}

#[test]
fn a_reverted_plan_activation_must_read_back_the_prior_plan() {
    let rec = record(4, plan_activate_entry("new-guid", "old-guid"));
    assert!(matches!(read_back(&rec).unwrap(), ReadBack::ActivePlan));
    assert!(check_active_plan(4, &rec.inverse, "old-guid").is_ok());
    assert_eq!(
        check_active_plan(4, &rec.inverse, "new-guid").unwrap_err(),
        "seq 4: active plan expected old-guid, found new-guid"
    );
}

#[test]
fn a_reverted_video_config_must_read_back_the_snapshot() {
    let mut settings = VideoSettings::new();
    settings.insert("setting.fullscreen", "0");
    let (e, new_text) = cs2_config_entry(&settings, sample_video_config());
    let rec = record(1, e);
    assert!(matches!(read_back(&rec).unwrap(), ReadBack::VideoConfig));
    assert!(check_video_config(1, &rec.inverse, sample_video_config()).is_ok());
    assert_eq!(
        check_video_config(1, &rec.inverse, &new_text).unwrap_err(),
        "seq 1: video.txt expected to match the pre-run snapshot, found a different value"
    );
}

#[test]
fn created_plans_and_custom_scripts_are_not_read_back() {
    let created = record(5, plan_create_entry("template-guid", "created-guid"));
    assert!(matches!(read_back(&created).unwrap(), ReadBack::Nothing));
    let script = record(9, custom_script_entry("apply.bat", "revert.bat", "aaaa", "bbbb"));
    assert!(matches!(read_back(&script).unwrap(), ReadBack::Nothing));
}
