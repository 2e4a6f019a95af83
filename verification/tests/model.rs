use voidframe::model::{
    default_hwinfo_path, default_presentmon_path, tool_path_under, validate_id_segment, Baseline, BenchmarkKind,
    Config, Project, Scenario, Settings, AVEYO_MAX_CAPTURE_SECONDS, SCHEMA_VERSION,
};
use voidframe::module::Module;

fn exe_dir() -> Option<String> {
    Some(r"C:\Program Files\voidframe".to_string())
}

fn good_project() -> Project {
    Project {
        schema_version: SCHEMA_VERSION.into(),
        id: "p1".into(),
        name: "Test".into(),
        description: "d".into(),
        created_at: "2026-09-01T00:00:00Z".into(),
        settings: Settings::defaults(),
        baseline: Baseline { name: "Stock".into(), description: "clean".into() },
        scenarios: vec![Scenario {
            id: "s1".into(),
            name: "Core Parking".into(),
            description: "d".into(),
            enabled: true,
            modules: vec![Module::Powercfg {
                sub: "sub_processor".into(),
                setting: "CPMINCORES".into(),
                value: 100,
            }],
        }],
    }
}

#[test]
fn default_has_a_real_usable_presentmon_path_guess() {
    let c = Config::default_for(exe_dir().as_deref());
    assert!(!c.presentmon_path.is_empty());
    assert!(!c.dry_run_default);
}

#[test]
fn tool_path_under_joins_the_exe_directory_and_exe_name() {
    assert_eq!(
        tool_path_under(r"C:\Program Files\voidframe", "presentmon.exe"),
        r"C:\Program Files\voidframe\presentmon.exe"
    );
}

#[test]
fn default_presentmon_path_resolves_next_to_the_running_executable() {
    let path = default_presentmon_path(exe_dir().as_deref());
    assert!(path.ends_with("presentmon.exe"), "expected a presentmon.exe suffix, got {path}");
    assert_eq!(default_presentmon_path(None), r"C:\presentmon.exe");
}

#[test]
fn default_ships_a_bundled_hwinfo_path_guess_with_thermal_cooldown_on() {
    let c = Config::default_for(exe_dir().as_deref());
    let hwinfo_path = c.hwinfo_path.expect("hwinfo_path should have a bundled default");
    assert!(hwinfo_path.ends_with("hwinfo64.exe"), "expected a hwinfo64.exe suffix, got {hwinfo_path}");
    assert!(c.thermal_cooldown_enabled);
}

#[test]
fn default_shutdown_and_post_boot_settle_match_the_spec() {
    let c = Config::default_for(exe_dir().as_deref());
    assert!(!c.shutdown_when_complete_default);
    assert_eq!(c.post_boot_settle_seconds, 180);
}

#[test]
fn load_heals_a_stale_presentmon_path_that_no_longer_resolves() {
    let dir = exe_dir();
    let mut c = Config::default_for(dir.as_deref());
    c.presentmon_path = r"C:\this\path\does\not\exist\PresentMon.exe".into();
    let stale = c.presentmon_path.clone();
    c.heal_stale_tool_paths(false, true, dir.as_deref());
    assert_ne!(c.presentmon_path, stale);
    assert_eq!(c.presentmon_path, default_presentmon_path(dir.as_deref()));
}

#[test]
fn load_heals_a_stale_hwinfo_path_that_no_longer_resolves() {
    let dir = exe_dir();
    let mut c = Config::default_for(dir.as_deref());
    c.hwinfo_path = Some(r"C:\this\path\does\not\exist\HWiNFO64.exe".into());
    let stale = c.hwinfo_path.clone();
    c.heal_stale_tool_paths(true, false, dir.as_deref());
    assert_ne!(c.hwinfo_path, stale);
    assert_eq!(c.hwinfo_path, default_hwinfo_path(dir.as_deref()));
}

#[test]
fn heal_leaves_resolvable_paths_untouched() {
    let mut c = Config::default_for(Some(r"D:\tools"));
    c.presentmon_path = r"E:\pm\PresentMon.exe".into();
    c.heal_stale_tool_paths(true, true, Some(r"D:\tools"));
    assert_eq!(c.presentmon_path, r"E:\pm\PresentMon.exe");
    assert_eq!(c.hwinfo_path.as_deref(), Some(r"D:\tools\hwinfo64.exe"));
    c.hwinfo_path = None;
    c.heal_stale_tool_paths(true, false, Some(r"D:\tools"));
    assert_eq!(c.hwinfo_path, None);
}

#[test]
fn defaults_match_spec() {
    let s = Settings::defaults();
    assert_eq!(s.measure_loops, 3);
    assert_eq!(s.warmup_loops, 2);
    assert_eq!(s.capture_seconds, 105);
    assert_eq!(s.map_id, "3240880604");
    assert_eq!(s.watchdog_seconds, 120);
    assert_eq!(s.netcon_port, None);
    assert_eq!(s.benchmark_kind, BenchmarkKind::WorkshopDust2);
}

#[test]
fn rejects_a_measure_loops_value_outside_the_calibrated_ladder() {
    let below_ladder = Settings { measure_loops: 2, ..Settings::defaults() };
    assert!(below_ladder.validate().is_err());
    let uncalibrated = Settings { measure_loops: 6, ..Settings::defaults() };
    assert!(uncalibrated.validate().is_err());
    for n in [5, 8] {
        let s = Settings { measure_loops: n, ..Settings::defaults() };
        assert!(s.validate().is_ok(), "measure_loops={n} should be accepted");
    }
    assert_eq!(
        uncalibrated.validate().unwrap_err().message(),
        "measure_loops must be one of [3, 5, 8] (this crate's calibrated WCPS v3 ladder) -- got 6"
    );
}

#[test]
fn default_map_id_passes_validation() {
    assert!(Settings::defaults().validate().is_ok());
}

#[test]
fn rejects_a_map_id_containing_a_console_command_separator() {
    let s = Settings { map_id: "3240880604; sv_cheats 1".into(), ..Settings::defaults() };
    assert!(s.validate().is_err());
}

#[test]
fn rejects_a_non_numeric_map_id() {
    let s = Settings { map_id: "not_a_number".into(), ..Settings::defaults() };
    assert!(s.validate().is_err());
}

#[test]
fn rejects_an_empty_map_id() {
    let s = Settings { map_id: "".into(), ..Settings::defaults() };
    assert!(s.validate().is_err());
}

#[test]
fn default_benchmark_kind_is_workshop_dust2() {
    assert_eq!(Settings::defaults().benchmark_kind, BenchmarkKind::WorkshopDust2);
}

#[test]
fn aveyo_kind_skips_map_id_validation() {
    let s = Settings { benchmark_kind: BenchmarkKind::AveYoCfgV2, map_id: "".into(), ..Settings::defaults() };
    assert!(s.validate().is_ok());
}

#[test]
fn aveyo_kind_rejects_a_capture_longer_than_its_benchmark_at_run_readiness() {
    let defaulted = Settings { benchmark_kind: BenchmarkKind::AveYoCfgV2, ..Settings::defaults() };
    let err = defaulted.validate_capture_window().unwrap_err();
    assert!(err.message().contains("capture_seconds"), "{}", err.message());
    let just_over = Settings { capture_seconds: AVEYO_MAX_CAPTURE_SECONDS + 1, ..defaulted.clone() };
    assert!(just_over.validate_capture_window().is_err());
    let at_the_bound = Settings { capture_seconds: AVEYO_MAX_CAPTURE_SECONDS, ..defaulted };
    assert!(at_the_bound.validate_capture_window().is_ok());
}

#[test]
fn an_oversized_aveyo_capture_still_passes_load_time_validation() {
    let s = Settings { benchmark_kind: BenchmarkKind::AveYoCfgV2, capture_seconds: 75, ..Settings::defaults() };
    assert!(s.validate().is_ok());
    assert!(s.validate_capture_window().is_err());
}

#[test]
fn workshop_dust2_kind_keeps_the_105s_default_capture() {
    let s = Settings::defaults();
    assert_eq!(s.capture_seconds, 105);
    assert!(s.validate().is_ok());
    assert!(s.validate_capture_window().is_ok());
}

#[test]
fn workshop_dust2_kind_still_rejects_a_bad_map_id() {
    let s = Settings {
        benchmark_kind: BenchmarkKind::WorkshopDust2,
        map_id: "not_a_number".into(),
        ..Settings::defaults()
    };
    assert!(s.validate().is_err());
}

#[test]
fn accepts_ordinary_scenario_ids() {
    assert!(validate_id_segment("baseline").is_ok());
    assert!(validate_id_segment("core-parking_v2").is_ok());
    assert!(validate_id_segment("").is_err());
    assert!(validate_id_segment("a/b").is_err());
    assert!(validate_id_segment("a\\b").is_err());
    assert!(validate_id_segment("..").is_err());
    assert!(validate_id_segment("C:").is_err());
    assert!(validate_id_segment(&"x".repeat(129)).is_err());
}

#[test]
fn rejects_a_scenario_id_that_would_escape_the_run_directory() {
    let mut proj = good_project();
    proj.scenarios[0].id = "..\\..\\..\\Windows\\Temp\\evil".into();
    let err = proj.validate_structure().unwrap_err();
    assert!(err.message().contains("invalid id"), "{}", err.message());
}

#[test]
fn rejects_a_scenario_id_that_is_a_bare_parent_traversal_even_when_disabled() {
    let mut proj = good_project();
    proj.scenarios.push(Scenario {
        id: "../evil".into(),
        name: "Sneaky".into(),
        description: "d".into(),
        enabled: false,
        modules: vec![],
    });
    let err = proj.validate_structure().unwrap_err();
    assert!(err.message().contains("invalid id"), "{}", err.message());
}

#[test]
fn a_fresh_draft_project_with_zero_scenarios_still_loads() {
    let mut proj = good_project();
    proj.scenarios.clear();
    assert!(proj.validate_structure().is_ok());
    assert!(proj.validate().is_err());
}

#[test]
fn rejects_project_with_unsupported_module() {
    let mut proj = good_project();
    proj.scenarios[0].modules = vec![Module::Unsupported];
    assert!(proj.validate_structure().is_err_and(|e| e.is_unsupported_module()));
}

#[test]
fn a_good_project_is_ready_and_lists_its_enabled_scenarios() {
    let mut proj = good_project();
    assert!(proj.validate().is_ok());
    proj.scenarios.push(Scenario {
        id: "s2".into(),
        name: "Off".into(),
        description: "d".into(),
        enabled: false,
        modules: vec![],
    });
    let enabled = proj.enabled_scenarios();
    assert_eq!(enabled.len(), 1);
    assert_eq!(enabled[0].id, "s1");
    proj.scenarios[0].enabled = false;
    assert_eq!(proj.validate().unwrap_err().message(), "project has no enabled scenarios");
}

#[test]
fn schema_version_must_match_exactly() {
    assert!(voidframe::model::check_schema_version("2.0.0").is_ok());
    assert!(voidframe::model::check_schema_version("9.9.9").is_err_and(|e| e.is_schema_version()));
}
