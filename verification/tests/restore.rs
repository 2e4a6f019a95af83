use voidframe::journal::{JournalRecord, Op};
use voidframe::json::{json_object1, json_object2, json_object3, json_str, JsonValue};
use voidframe::restore::{bat_quote, cs2_original_text, render, CS2_SNAPSHOT_NAME};
use voidframe::restore::restore_targets;
use voidframe::restore::referenced_revert_scripts;
use voidframe::restore::reg_value_arg;

fn empty_object() -> JsonValue {
    JsonValue::Object(voidframe::json::JsonMembers::Nil)
}

fn rec(seq: u64, op: Op, inverse: JsonValue) -> JournalRecord {
    JournalRecord {
        seq,
        ts_unix_ms: 0,
        run_id: "r1".into(),
        scenario_id: "s1".into(),
        step_index: 0,
        op,
        target: empty_object(),
        new: empty_object(),
        inverse,
        applied: true,
    }
}

fn target(hive: &str, subkey: &str, value_name: &str) -> JsonValue {
    json_object3("hive", json_str(hive), "subkey", json_str(subkey), "value_name", json_str(value_name))
}

fn script_inverse(revert_path: &str) -> JsonValue {
    json_object3(
        "apply_sha256",
        json_str("aaaa"),
        "revert_sha256",
        json_str("bbbb"),
        "revert_path",
        json_str(revert_path),
    )
}

#[test]
fn renders_registry_powercfg_and_plan_inverses_in_reverse_order() {
    let records = vec![
        rec(
            1,
            Op::RegistryWrite,
            json_object3(
                "kind",
                json_str("write"),
                "target",
                target("HKLM", "SYSTEM\\CurrentControlSet\\Control\\GraphicsDrivers", "HwSchMode"),
                "value",
                json_object2("type", json_str("DWORD"), "value", JsonValue::UInt(1)),
            ),
        ),
        rec(
            2,
            Op::PowercfgWrite,
            json_object3(
                "sub",
                json_str("sub_processor"),
                "setting",
                json_str("IDLEDISABLE"),
                "value",
                JsonValue::UInt(0),
            ),
        ),
        rec(3, Op::PowerPlanActivate, json_object1("guid", json_str("381b4222-f694-41f0-9685-ff5bb260df2e"))),
        rec(
            4,
            Op::RegistryDelete,
            json_object2("kind", json_str("delete"), "target", target("HKCU", "Software\\Test", "X")),
        ),
    ];
    let bat = render(&records, "r1", None);
    let lines: Vec<&str> = bat.lines().collect();
    let pos = |needle: &str| lines.iter().position(|l| l.contains(needle)).unwrap();
    assert!(pos("reg delete \"HKCU\\Software\\Test\" /v \"X\" /f") < pos("powercfg /setactive 381b4222"));
    assert!(pos("powercfg /setactive 381b4222") < pos("IDLEDISABLE 0"));
    assert!(
        pos("IDLEDISABLE 0")
            < pos(
                "reg add \"HKLM\\SYSTEM\\CurrentControlSet\\Control\\GraphicsDrivers\" /v \"HwSchMode\" /t REG_DWORD /d \"1\" /f"
            )
    );
    assert!(bat.starts_with("@echo off\r\n"));
    assert!(bat.contains("net session"));
}

#[test]
fn a_deleted_plan_becomes_a_rem_line() {
    let bat = render(&[rec(1, Op::PowerPlanDelete, json_object1("guid", json_str("x")))], "r1", None);
    assert!(bat.contains("REM seq 1"));
}

#[test]
fn renders_a_call_to_the_recorded_revert_script() {
    let records = vec![rec(1, Op::CustomScriptApply, script_inverse("revert.ps1"))];
    let bat = render(&records, "r1", None);
    assert!(bat.contains("revert.ps1"), "{bat}");
}

#[test]
fn renders_a_rem_line_instead_of_a_call_for_a_tampered_revert_path() {
    let records = vec![rec(1, Op::CustomScriptApply, script_inverse("..\\..\\evil.bat"))];
    let bat = render(&records, "r1", None);
    assert!(bat.contains("REM seq 1"), "{bat}");
    assert!(!bat.contains("call \""), "{bat}");
}

#[test]
fn renders_a_copy_back_from_the_cs2_video_snapshot() {
    let records = vec![rec(1, Op::Cs2ConfigApply, json_object1("original_text", json_str("setting.fullscreen 1\n")))];
    let bat = render(&records, "r1", Some("C:\\real\\video.txt"));
    assert!(bat.to_lowercase().contains("copy"), "{bat}");
    assert!(bat.contains(CS2_SNAPSHOT_NAME), "{bat}");
    assert!(bat.contains("C:\\real\\video.txt"), "{bat}");
}

#[test]
fn cs2_config_revert_with_no_resolved_path_falls_back_to_a_rem_line() {
    let records = vec![rec(1, Op::Cs2ConfigApply, json_object1("original_text", json_str("setting.fullscreen 1\n")))];
    let bat = render(&records, "r1", None);
    assert!(bat.contains("REM seq 1"), "{bat}");
    assert!(!bat.to_lowercase().contains("copy"), "{bat}");
}

#[test]
fn registry_values_are_escaped_for_cmd() {
    let records = vec![rec(
        1,
        Op::RegistryWrite,
        json_object3(
            "kind",
            json_str("write"),
            "target",
            target("HKLM", "SOFTWARE\\Test", "Path"),
            "value",
            json_object2("type", json_str("EXPAND_SZ"), "value", json_str("%SystemRoot%\\system32;\"quoted\"")),
        ),
    )];
    let bat = render(&records, "r1", None);
    assert!(
        bat.contains(
            "reg add \"HKLM\\SOFTWARE\\Test\" /v \"Path\" /t REG_EXPAND_SZ /d \"%%SystemRoot%%\\system32;\\\"quoted\\\"\" /f"
        ),
        "{bat}"
    );
}

#[test]
fn bat_quote_doubles_percent_and_escapes_quotes() {
    assert_eq!(bat_quote("a%b\"c"), "a%%b\\\"c");
    assert_eq!(bat_quote(""), "");
}

#[test]
fn every_record_given_is_rendered_and_the_snapshot_text_is_found() {
    let mut r = rec(7, Op::PowerPlanDelete, json_object1("guid", json_str("x")));
    r.applied = false;
    let bat = render(&[r], "r1", None);
    assert!(bat.contains("REM seq 7"), "{bat}");
    let records = vec![rec(1, Op::Cs2ConfigApply, json_object1("original_text", json_str("orig")))];
    assert_eq!(cs2_original_text(&records), Some("orig"));
    assert_eq!(cs2_original_text(&[]), None);
}

#[test]
fn the_recovery_copy_is_always_a_target_and_the_desktop_only_when_known() {
    assert_eq!(restore_targets(r"C:\data", None), vec![r"C:\data\recovery\VOIDFRAME_RESTORE.bat".to_string()]);
    assert_eq!(
        restore_targets(r"C:\data", Some(r"C:\Users\me\Desktop")),
        vec![
            r"C:\data\recovery\VOIDFRAME_RESTORE.bat".to_string(),
            r"C:\Users\me\Desktop\VOIDFRAME_RESTORE.bat".to_string()
        ]
    );
}

#[test]
fn write_all_succeeds_when_a_referenced_revert_script_is_missing_from_scripts_dir() {
    let records = vec![
        rec(1, Op::CustomScriptApply, script_inverse("revert.bat")),
        rec(2, Op::PowerPlanDelete, json_object1("guid", json_str("x"))),
        rec(3, Op::CustomScriptApply, empty_object()),
    ];
    assert_eq!(referenced_revert_scripts(&records), vec![(1, "revert.bat".to_string()), (3, String::new())]);
}

#[test]
fn reg_value_arg_writes_integers_in_decimal_and_joins_multi_strings() {
    let dword = json_object2("type", json_str("DWORD"), "value", JsonValue::UInt(2));
    assert_eq!(reg_value_arg(&dword), "2");
    let qword = json_object2("type", json_str("QWORD"), "value", JsonValue::UInt(18_446_744_073_709_551_615));
    assert_eq!(reg_value_arg(&qword), "18446744073709551615");
    let sz = json_object2("type", json_str("SZ"), "value", json_str("on"));
    assert_eq!(reg_value_arg(&sz), "on");
    let list = JsonValue::Array(voidframe::json::JsonList::Cons(
        Box::new(json_str("a")),
        Box::new(voidframe::json::JsonList::Cons(Box::new(json_str("b")), Box::new(voidframe::json::JsonList::Nil))),
    ));
    let multi = json_object2("type", json_str("MULTI_SZ"), "value", list);
    assert_eq!(reg_value_arg(&multi), "a\\0b");
}
