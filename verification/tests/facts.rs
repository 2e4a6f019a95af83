use voidframe::error::Error;
use voidframe::facts::{
    gather_facts, has_reboot_scenarios, noop_launch_args_scenarios, noop_power_plan_scenarios,
    noop_registry_scenarios, preflight_facts, registry_reads, SystemAnswers,
};
use voidframe::json::JsonValue;
use voidframe::keybind_cfg::CFG_FILENAME;
use voidframe::model::{BenchmarkKind, Scenario};
use voidframe::module::{Hive, Module, PowerPlanPayload, RegType, RegistryPayload};
use voidframe::registry::RegValue;

const HAGS_SUBKEY: &str = "SYSTEM\\CurrentControlSet\\Control\\GraphicsDrivers";
const MSI_SUBKEY: &str = "SYSTEM\\CurrentControlSet\\Control\\Class\\Display\\0000";

fn scenario(name: &str, modules: Vec<Module>) -> Scenario {
    Scenario { id: name.to_lowercase().replace(' ', "-"), name: name.into(), description: "d".into(), enabled: true, modules }
}

fn plan(guid: &str) -> Module {
    Module::PowerPlan(PowerPlanPayload { plan_guid: guid.into(), friendly_name: None, create_if_missing: false })
}

fn reg(subkey: &str, value_name: &str, value: u64, requires_reboot: bool) -> Module {
    Module::Registry(RegistryPayload {
        hive: Hive::Hklm,
        subkey: subkey.into(),
        value_name: value_name.into(),
        value_type: RegType::Dword,
        value: JsonValue::UInt(value),
        requires_reboot,
    })
}

fn answers() -> SystemAnswers {
    SystemAnswers {
        steam_running: true,
        steam_elevated: true,
        manifest: Some((Some("200".into()), Some(4))),
        free_disk_bytes: 123,
        active_plan_guid: "381b4222-f694-41f0-9685-ff5bb260df2e".into(),
        launch_options: String::new(),
        logon: None,
        bitlocker: None,
        secure_boot: None,
        workshop_installed: Some(false),
    }
}

#[test]
fn gather_facts_reflects_the_mocked_steam_status() {
    let facts = gather_facts(answers(), vec![], Some("199"), 1, &[], BenchmarkKind::WorkshopDust2);
    assert!(facts.steam_running);
    assert!(facts.steam_logged_in);
    assert!(facts.steam_elevated);
    assert!(facts.cs2_installed);
    assert_eq!(facts.cs2_state_flags, 4);
    assert_eq!(facts.cs2_build_id.as_deref(), Some("200"));
    assert_eq!(facts.last_known_build_id.as_deref(), Some("199"));
    assert_eq!(facts.workshop_map_subscribed, Some(false));
    assert_eq!(facts.free_disk_bytes, 123);
    assert_eq!(facts.min_free_bytes, 1);
    assert!(facts.sleep_inhibited);
    assert!(!facts.stale_etw_session);
}

#[test]
fn gather_facts_reports_cs2_not_installed_when_there_is_no_manifest() {
    let facts = gather_facts(SystemAnswers { manifest: None, ..answers() }, vec![], None, 1, &[], BenchmarkKind::WorkshopDust2);
    assert!(!facts.cs2_installed);
    assert_eq!(facts.cs2_state_flags, 0);
    assert_eq!(facts.cs2_build_id, None);
    let facts = gather_facts(
        SystemAnswers { manifest: Some((None, None)), ..answers() },
        vec![],
        None,
        1,
        &[],
        BenchmarkKind::WorkshopDust2,
    );
    assert!(!facts.cs2_installed);
}

#[test]
fn aveyo_kind_never_reads_the_workshop_subscription_and_reports_it_as_not_needed() {
    let facts = gather_facts(answers(), vec![], None, 1, &[], BenchmarkKind::AveYoCfgV2);
    assert_eq!(facts.workshop_map_subscribed, None);
}

#[test]
fn workshop_dust2_kind_still_reports_the_real_subscription_state() {
    let facts = gather_facts(
        SystemAnswers { workshop_installed: Some(true), ..answers() },
        vec![],
        None,
        1,
        &[],
        BenchmarkKind::WorkshopDust2,
    );
    assert_eq!(facts.workshop_map_subscribed, Some(true));
}

#[test]
fn gather_facts_flags_a_scenario_whose_power_plan_matches_the_live_active_plan() {
    let scenarios = vec![
        scenario("Same As Active", vec![plan("381b4222-f694-41f0-9685-ff5bb260df2e")]),
        scenario("Different Plan", vec![plan("8c5e7fda-e8bf-4a96-9a85-a6e23a8c635c")]),
    ];
    assert_eq!(
        noop_power_plan_scenarios(&scenarios, "381b4222-f694-41f0-9685-ff5bb260df2e"),
        vec!["Same As Active".to_string()]
    );
    let facts = gather_facts(answers(), vec![], None, 1, &scenarios, BenchmarkKind::WorkshopDust2);
    assert_eq!(facts.noop_power_plan_scenarios, vec!["Same As Active".to_string()]);
}

#[test]
fn gather_facts_flags_a_scenario_whose_launch_args_match_the_live_current_options() {
    let live = format!("-condebug -conclearlog +exec {CFG_FILENAME} -novid");
    let scenarios = vec![
        scenario("Matches Live", vec![Module::LaunchArgs { args: "-novid".into() }]),
        scenario("Different Args", vec![Module::LaunchArgs { args: "-high -threads 8".into() }]),
    ];
    assert_eq!(noop_launch_args_scenarios(&scenarios, &live), vec!["Matches Live".to_string()]);
    let spaced = vec![scenario("Spaced", vec![Module::LaunchArgs { args: "  -novid\t".into() }])];
    assert_eq!(noop_launch_args_scenarios(&spaced, &live), vec!["Spaced".to_string()]);
}

#[test]
fn disabled_scenarios_are_never_flagged() {
    let mut s = scenario("Off", vec![plan("g")]);
    s.enabled = false;
    assert!(noop_power_plan_scenarios(&[s], "g").is_empty());
}

#[test]
fn gather_facts_flags_a_hags_scenario_that_already_matches_the_live_registry_value() {
    let scenarios = vec![scenario("HAGS on", vec![reg(HAGS_SUBKEY, "HwSchMode", 2, true)])];
    let keys = registry_reads(&scenarios);
    assert_eq!(keys.len(), 1);
    assert_eq!(keys[0].subkey, HAGS_SUBKEY);
    assert_eq!(keys[0].value_name, "HwSchMode");
    let noop = noop_registry_scenarios(&scenarios, vec![Ok(RegValue::Dword(2))]).unwrap();
    assert_eq!(noop, vec![("HAGS on".to_string(), true)]);
}

#[test]
fn gather_facts_requires_every_reboot_registry_module_to_be_a_noop_not_just_one() {
    let scenarios = vec![scenario(
        "HAGS + MSI",
        vec![reg(HAGS_SUBKEY, "HwSchMode", 2, true), reg(MSI_SUBKEY, "MSISupported", 1, true)],
    )];
    assert_eq!(registry_reads(&scenarios).len(), 2);
    let partial = noop_registry_scenarios(&scenarios, vec![Ok(RegValue::Dword(2)), Ok(RegValue::Absent)]).unwrap();
    assert!(partial.is_empty(), "a partially-matching scenario must not be flagged as a no-op");
    let both = noop_registry_scenarios(&scenarios, vec![Ok(RegValue::Dword(2)), Ok(RegValue::Dword(1))]).unwrap();
    assert_eq!(both, vec![("HAGS + MSI".to_string(), true)]);
}

#[test]
fn a_registry_scenario_without_reboot_modules_is_a_plain_noop() {
    let scenarios = vec![
        scenario("Plain", vec![reg(HAGS_SUBKEY, "A", 1, false)]),
        scenario("Mixed", vec![reg(HAGS_SUBKEY, "B", 1, false), reg(HAGS_SUBKEY, "C", 1, true)]),
    ];
    let live = vec![Ok(RegValue::Dword(1)), Ok(RegValue::Dword(0)), Ok(RegValue::Dword(1))];
    let noop = noop_registry_scenarios(&scenarios, live).unwrap();
    assert_eq!(noop, vec![("Plain".to_string(), false), ("Mixed".to_string(), true)]);
}

#[test]
fn the_first_failure_in_module_order_is_reported() {
    let bad = Module::Registry(RegistryPayload {
        hive: Hive::Hklm,
        subkey: HAGS_SUBKEY.into(),
        value_name: "X".into(),
        value_type: RegType::Dword,
        value: JsonValue::Str("two".into()),
        requires_reboot: false,
    });
    let scenarios = vec![scenario("A", vec![bad]), scenario("B", vec![reg(HAGS_SUBKEY, "Y", 1, false)])];
    let e = noop_registry_scenarios(&scenarios, vec![Ok(RegValue::Absent), Err(Error::io("denied".into()))]).unwrap_err();
    assert_eq!(e.message(), "registry DWORD value must be an integer");
    let e = noop_registry_scenarios(&scenarios, vec![Err(Error::io("denied".into())), Ok(RegValue::Absent)]).unwrap_err();
    assert_eq!(e.message(), "io: denied");
}

#[test]
fn reboot_facts_are_kept_only_for_projects_that_reboot() {
    let with_logon = SystemAnswers {
        logon: Some(voidframe::logon::LogonConfig {
            auto_admin_logon: true,
            default_user_name: None,
            default_password_present: false,
            microsoft_account: false,
        }),
        secure_boot: Some(Some(true)),
        ..answers()
    };
    let plain = vec![scenario("Plain", vec![reg(HAGS_SUBKEY, "A", 1, false)])];
    assert!(!has_reboot_scenarios(&plain));
    let facts = gather_facts(with_logon.clone(), vec![], None, 1, &plain, BenchmarkKind::WorkshopDust2);
    assert!(facts.logon.is_none());
    assert!(facts.secure_boot.is_none());
    let reboot = vec![scenario("Reboot", vec![reg(HAGS_SUBKEY, "A", 1, true)])];
    assert!(has_reboot_scenarios(&reboot));
    let facts = gather_facts(with_logon, vec![], None, 1, &reboot, BenchmarkKind::WorkshopDust2);
    assert!(facts.has_reboot_scenarios);
    assert!(facts.logon.is_some());
    assert_eq!(facts.secure_boot, Some(Some(true)));
}

#[test]
fn preflight_facts_composes_the_registry_no_ops_with_the_answers() {
    let scenarios = vec![scenario("HAGS On", vec![reg(HAGS_SUBKEY, "HwSchMode", 2, true)])];
    let facts = preflight_facts(answers(), vec![Ok(RegValue::Dword(2))], Some("199"), 7, &scenarios, BenchmarkKind::WorkshopDust2)
        .unwrap();
    assert_eq!(facts.noop_registry_scenarios, vec![("HAGS On".to_string(), true)]);
    assert!(facts.steam_running);
    assert_eq!(facts.min_free_bytes, 7);
    assert_eq!(facts.last_known_build_id.as_deref(), Some("199"));
    assert!(facts.has_reboot_scenarios);

    let facts = preflight_facts(answers(), vec![Ok(RegValue::Dword(1))], None, 7, &scenarios, BenchmarkKind::WorkshopDust2)
        .unwrap();
    assert!(facts.noop_registry_scenarios.is_empty());

    let err = preflight_facts(answers(), vec![Err(Error::io("denied".into()))], None, 7, &scenarios, BenchmarkKind::WorkshopDust2)
        .unwrap_err();
    assert!(err.is_io());
}
