use voidframe::journal::{
    in_flight_journal, is_journal_file_name, journal_is_live, next_seq, ordered_scenario_ids, replay_lines,
    validate_inverse, JournalLine, JournalRecord, Op,
};
use voidframe::json::{json_object1, json_object2, json_object3, json_str, JsonMembers, JsonValue};
use voidframe::model::{Baseline, Cursor, Project, Scenario, Settings, Stage, SCHEMA_VERSION};
use voidframe::error::Error;
use voidframe::journal::RevertReport;
use voidframe::restore::order_newest_first;

fn empty_object() -> JsonValue {
    JsonValue::Object(JsonMembers::Nil)
}

fn rec(seq: u64, op: Op, inverse: JsonValue, applied: bool) -> JournalRecord {
    JournalRecord {
        seq,
        ts_unix_ms: 0,
        run_id: "r1".into(),
        scenario_id: "s".into(),
        step_index: 0,
        op,
        target: empty_object(),
        new: empty_object(),
        inverse,
        applied,
    }
}

fn scenario(id: &str) -> Scenario {
    Scenario { id: id.into(), name: id.into(), description: "d".into(), enabled: true, modules: vec![] }
}

fn project() -> Project {
    Project {
        schema_version: SCHEMA_VERSION.into(),
        id: "p1".into(),
        name: "P".into(),
        description: "d".into(),
        created_at: "2026-09-10T00:00:00Z".into(),
        settings: Settings::defaults(),
        baseline: Baseline { name: "Stock".into(), description: "d".into() },
        scenarios: vec![scenario("a"), scenario("b")],
    }
}

/// The journals among `journals` (name, all records confirmed) that are
/// still live under `progress`.
fn live(journals: &[(&str, bool)], progress: Option<Cursor>) -> Vec<String> {
    let ids = ordered_scenario_ids(&project());
    let in_flight = progress.and_then(|c| in_flight_journal(c, &ids));
    journals
        .iter()
        .filter(|(name, confirmed)| journal_is_live(name, !confirmed, progress.is_some(), in_flight.as_deref()))
        .map(|(name, _)| name.to_string())
        .collect()
}

fn at(index: u32, stage: Stage) -> Option<Cursor> {
    Some(Cursor { index, stage })
}

#[test]
fn without_progress_every_journal_is_live() {
    let js = [("journal-a.jsonl", true), ("journal-b.jsonl", true)];
    assert_eq!(live(&js, None), vec!["journal-a.jsonl", "journal-b.jsonl"]);
}

#[test]
fn a_completed_scenarios_journal_is_not_live_while_the_cursor_scenarios_is() {
    let js = [("journal-a.jsonl", true), ("journal-b.jsonl", true)];
    assert_eq!(live(&js, at(2, Stage::Measure)), vec!["journal-b.jsonl"]);
}

#[test]
fn stage_apply_counts_as_in_flight() {
    let js = [("journal-a.jsonl", true)];
    assert_eq!(live(&js, at(1, Stage::Apply)), vec!["journal-a.jsonl"]);
}

#[test]
fn stage_revert_and_done_are_not_in_flight() {
    let js = [("journal-a.jsonl", true)];
    for stage in [Stage::Revert, Stage::Done] {
        assert!(live(&js, at(1, stage)).is_empty(), "{stage:?}");
    }
}

#[test]
fn an_unconfirmed_record_makes_any_journal_live() {
    let js = [("journal-a.jsonl", false), ("journal-b.jsonl", true)];
    assert_eq!(live(&js, at(2, Stage::Done)), vec!["journal-a.jsonl"]);
}

#[test]
fn run_order_puts_the_baseline_first_and_skips_disabled_scenarios() {
    let mut p = project();
    p.scenarios.push(Scenario { enabled: false, ..scenario("c") });
    assert_eq!(ordered_scenario_ids(&p), vec!["baseline", "a", "b"]);
    let ids = ordered_scenario_ids(&p);
    assert_eq!(in_flight_journal(Cursor { index: 3, stage: Stage::Apply }, &ids), None);
    assert_eq!(
        in_flight_journal(Cursor { index: 0, stage: Stage::Apply }, &ids).as_deref(),
        Some("journal-baseline.jsonl")
    );
}

#[test]
fn records_two_phase_and_reloads() {
    let lines = vec![
        JournalLine::Record(rec(
            1,
            Op::PowercfgWrite,
            json_object1("value", JsonValue::UInt(0)),
            false,
        )),
        JournalLine::Applied { seq: 1, applied: true },
    ];
    let recs = replay_lines(lines);
    assert_eq!(recs.len(), 1);
    assert!(recs[0].applied);
    assert_eq!(recs[0].seq, 1);
}

#[test]
fn open_continues_seq_after_reload() {
    assert_eq!(next_seq(&[]), 1);
    assert_eq!(next_seq(&[1]), 2);
    assert_eq!(next_seq(&[3, 1, 2]), 4);
}

#[test]
fn unapplied_record_reports_applied_false() {
    let recs = replay_lines(vec![JournalLine::Record(rec(1, Op::RegistryWrite, empty_object(), false))]);
    assert!(!recs[0].applied);
}

#[test]
fn torn_lines_are_skipped_and_a_later_confirmation_wins() {
    let recs = replay_lines(vec![
        JournalLine::Record(rec(1, Op::RegistryWrite, empty_object(), false)),
        JournalLine::Other,
        JournalLine::Record(rec(2, Op::RegistryWrite, empty_object(), false)),
        JournalLine::Applied { seq: 2, applied: true },
        JournalLine::Applied { seq: 9, applied: true },
        JournalLine::Applied { seq: 2, applied: false },
    ]);
    assert_eq!(recs.len(), 2);
    assert!(!recs[0].applied);
    assert!(!recs[1].applied);
}

#[test]
fn revert_all_rejects_a_crafted_inverse_targeting_an_enum_subkey() {
    let inverse = json_object3(
        "kind",
        json_str("write"),
        "target",
        json_object3(
            "hive",
            json_str("HKLM"),
            "subkey",
            json_str("SYSTEM\\CurrentControlSet\\Enum\\PCI\\VEN_10DE"),
            "value_name",
            json_str("DevicePolicy"),
        ),
        "value",
        json_object2("type", json_str("DWORD"), "value", JsonValue::UInt(4)),
    );
    let e = validate_inverse(&rec(1, Op::RegistryWrite, inverse, true)).unwrap_err();
    assert!(e.contains("M3"), "{e}");
    assert!(e.starts_with("seq 1: inverse rejected: "), "{e}");
}

#[test]
fn revert_all_rejects_a_crafted_custom_script_inverse_with_a_traversal_path() {
    let inverse = json_object3(
        "apply_sha256",
        json_str("a"),
        "revert_sha256",
        json_str("b"),
        "revert_path",
        json_str("..\\..\\evil.bat"),
    );
    let e = validate_inverse(&rec(1, Op::CustomScriptApply, inverse, true)).unwrap_err();
    assert!(e.contains("inverse rejected"), "{e}");
}

#[test]
fn revert_all_rejects_a_crafted_custom_script_inverse_with_a_shell_metacharacter() {
    let inverse = json_object3(
        "apply_sha256",
        json_str("a"),
        "revert_sha256",
        json_str("b"),
        "revert_path",
        json_str("evil & calc.exe.bat"),
    );
    let e = validate_inverse(&rec(1, Op::CustomScriptApply, inverse, true)).unwrap_err();
    assert!(e.contains("inverse rejected"), "{e}");
}

#[test]
fn ordinary_inverses_pass_validation() {
    let ok_script = json_object1("revert_path", json_str("revert.ps1"));
    assert!(validate_inverse(&rec(1, Op::CustomScriptApply, ok_script, true)).is_ok());
    assert!(validate_inverse(&rec(2, Op::PowerPlanDelete, empty_object(), true)).is_ok());
    let no_hive = json_object1("target", empty_object());
    assert_eq!(
        validate_inverse(&rec(3, Op::RegistryDelete, no_hive, true)).unwrap_err(),
        "seq 3: inverse has no hive"
    );
}

#[test]
fn journal_file_names_are_recognised() {
    assert!(is_journal_file_name("journal-a.jsonl"));
    assert!(is_journal_file_name("journal-.jsonl"));
    assert!(!is_journal_file_name("progress.json"));
    assert!(!is_journal_file_name("journal-a.json"));
}

#[test]
fn a_revert_report_counts_reverts_and_collects_every_failure() {
    let mut r = RevertReport::default();
    assert_eq!(r.reverted, 0);
    r.note_rejected("seq 3: inverse has no hive".into());
    r.note_reverted(Ok(()));
    r.note_reverted(Err("seq 2: IDLEDISABLE expected 0, found 1".into()));
    r.note_revert_failed(1, &Error::mock("boom".into()));
    assert_eq!(r.reverted, 2);
    assert_eq!(
        r.verify_failures,
        vec![
            "seq 3: inverse has no hive".to_string(),
            "seq 2: IDLEDISABLE expected 0, found 1".to_string(),
            "seq 1: revert failed: mock: boom".to_string(),
        ]
    );
}

#[test]
fn revert_all_replays_newest_first() {
    let records = vec![
        rec(1, Op::PowercfgWrite, empty_object(), true),
        rec(3, Op::PowercfgWrite, empty_object(), true),
        rec(2, Op::PowercfgWrite, empty_object(), true),
    ];
    let order: Vec<u64> = order_newest_first(&records).iter().map(|r| r.seq).collect();
    assert_eq!(order, vec![3, 2, 1]);
}

#[test]
fn replay_keeps_each_record_as_written_but_for_applied() {
    let mut first = rec(1, Op::PowercfgWrite, json_object1("value", JsonValue::UInt(7)), false);
    first.target = json_str("t1");
    first.new = JsonValue::UInt(3);
    first.scenario_id = "hags".into();
    let second = rec(2, Op::RegistryDelete, json_str("back"), false);
    let recs = replay_lines(vec![
        JournalLine::Record(first),
        JournalLine::Record(second),
        JournalLine::Applied { seq: 1, applied: true },
    ]);
    assert_eq!(recs.len(), 2);
    assert!(recs[0].applied && !recs[1].applied);
    assert_eq!(recs[0].op, Op::PowercfgWrite);
    assert_eq!(recs[0].scenario_id, "hags");
    assert_eq!(format!("{:?}", recs[0].target), format!("{:?}", json_str("t1")));
    assert_eq!(format!("{:?}", recs[0].new), format!("{:?}", JsonValue::UInt(3)));
    assert_eq!(
        format!("{:?}", recs[0].inverse),
        format!("{:?}", json_object1("value", JsonValue::UInt(7)))
    );
    assert_eq!(recs[1].op, Op::RegistryDelete);
    assert_eq!(format!("{:?}", recs[1].inverse), format!("{:?}", json_str("back")));
}
