use voidframe::cli::{run, DryRunOutcome, ScenarioOutcome};
use voidframe::model::{Baseline, Project, Scenario, Settings, SCHEMA_VERSION};
use voidframe::module::Module;
use voidframe::cli::reboot_refusal;
use voidframe::json::JsonValue;
use voidframe::module::{Hive, RegType, RegistryPayload};
use voidframe::cli::{event_response, EngineEvent, SoundCue};

fn project(modules: Vec<Module>) -> Project {
    Project {
        schema_version: SCHEMA_VERSION.into(),
        id: "p".into(),
        name: "P".into(),
        description: "d".into(),
        created_at: "2026-09-01T00:00:00Z".into(),
        settings: Settings::defaults(),
        baseline: Baseline { name: "b".into(), description: "d".into() },
        scenarios: vec![Scenario { id: "s".into(), name: "s".into(), description: "d".into(), enabled: true, modules }],
    }
}

#[test]
fn validate_ok_project_reports_counts() {
    let p = project(vec![Module::Powercfg { sub: "sub_processor".into(), setting: "CPMINCORES".into(), value: 100 }]);
    let msg = run(&p).unwrap();
    assert!(msg.contains("1 enabled scenario"));
    assert!(msg.contains("1 module"));
    assert_eq!(msg, "OK: P — 1 enabled scenario(s), 1 module(s)");
}

#[test]
fn validate_rejects_unsupported_module() {
    let p = project(vec![Module::Unsupported]);
    assert!(run(&p).is_err());
}

#[test]
fn validate_rejects_a_foreign_schema_version_and_counts_only_enabled_scenarios() {
    let mut p = project(vec![]);
    p.schema_version = "9.9.9".into();
    let e = run(&p).unwrap_err();
    assert!(e.is_schema_version());
    assert_eq!(e.message(), "schema_version mismatch: expected 2.0.0, found 9.9.9");
    let mut p = project(vec![Module::LaunchArgs { args: "-novid".into() }]);
    p.scenarios.push(Scenario {
        id: "off".into(),
        name: "off".into(),
        description: "d".into(),
        enabled: false,
        modules: vec![Module::LaunchArgs { args: "-a".into() }, Module::LaunchArgs { args: "-b".into() }],
    });
    assert_eq!(run(&p).unwrap(), "OK: P — 1 enabled scenario(s), 1 module(s)");
}

#[test]
fn a_dry_run_is_clean_only_without_verify_failures() {
    let clean = ScenarioOutcome { id: "a".into(), planned: vec![], reverted: 1, verify_failures: vec![] };
    let dirty = ScenarioOutcome {
        id: "b".into(),
        planned: vec![],
        reverted: 1,
        verify_failures: vec!["seq 1: still set".into()],
    };
    assert!(DryRunOutcome { scenarios: vec![clean.clone()] }.all_clean());
    assert!(DryRunOutcome { scenarios: vec![] }.all_clean());
    assert!(!DryRunOutcome { scenarios: vec![clean, dirty] }.all_clean());
}

#[test]
fn refuses_a_reboot_project_against_the_real_controller_unless_dry_run() {
    let hags = Module::Registry(RegistryPayload {
        hive: Hive::Hklm,
        subkey: r"SYSTEM\CurrentControlSet\Control\GraphicsDrivers".into(),
        value_name: "HwSchMode".into(),
        value_type: RegType::Dword,
        value: JsonValue::UInt(2),
        requires_reboot: true,
    });
    let mut p = project(vec![hags]);
    p.scenarios[0].name = "HAGS".into();
    let msg = reboot_refusal(&p, "windows", false).expect("a reboot project must be refused");
    assert!(msg.contains("requires a reboot"), "{msg}");
    assert!(msg.contains("HAGS"), "{msg}");
    assert_eq!(reboot_refusal(&p, "windows", true), None);
    assert_eq!(reboot_refusal(&p, "mock", false), None);
    let plain = project(vec![Module::LaunchArgs { args: "-novid".into() }]);
    assert_eq!(reboot_refusal(&plain, "windows", false), None);
}

#[test]
fn events_are_answered_as_the_headless_run_does() {
    let r = event_response(&EngineEvent::RecordingStarted, true);
    assert_eq!(r.cue, Some(SoundCue::Start));
    assert!(!r.failed && !r.acknowledge);
    assert_eq!(event_response(&EngineEvent::RecordingStarted, false).cue, None);
    assert!(event_response(&EngineEvent::RunFailed { reason: "x".into() }, true).failed);
    assert!(event_response(&EngineEvent::OperatorPrompt { message: "ok?".into() }, true).acknowledge);
}

#[test]
fn build_fresh_cs2_scenarios_generates_n_no_op_scenarios_with_distinct_ids() {
    let scenarios = voidframe::cli::build_fresh_cs2_scenarios(3);
    assert_eq!(scenarios.len(), 3);
    let ids: Vec<&str> = scenarios.iter().map(|s| s.id.as_str()).collect();
    assert_eq!(ids, vec!["calib-0", "calib-1", "calib-2"]);
    for sc in &scenarios {
        assert!(sc.enabled, "every synthetic scenario must be enabled");
        assert!(sc.modules.is_empty(), "every synthetic scenario must be a no-op (zero modules)");
    }
    assert_eq!(scenarios[0].name, "Calibration iteration 2");
    assert_eq!(scenarios[2].name, "Calibration iteration 4");
}

#[test]
fn build_fresh_cs2_scenarios_of_zero_returns_an_empty_vec() {
    assert!(voidframe::cli::build_fresh_cs2_scenarios(0).is_empty());
}
