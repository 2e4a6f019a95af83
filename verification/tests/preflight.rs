use voidframe::logon::LogonConfig;
use voidframe::preflight::{evaluate, BitlockerStatus, Check, CheckStatus, PreflightFacts, PreflightReport};

fn reboot_facts() -> PreflightFacts {
    let mut f = PreflightFacts::all_ok();
    f.has_reboot_scenarios = true;
    f.logon = Some(LogonConfig {
        auto_admin_logon: true,
        default_user_name: Some("bench".into()),
        default_password_present: false,
        microsoft_account: false,
    });
    f.bitlocker = Some(BitlockerStatus::Off);
    f.secure_boot = Some(Some(false));
    f
}

fn status_of<'a>(r: &'a PreflightReport, id: &str) -> &'a Check {
    r.checks
        .iter()
        .find(|c| c.id == id)
        .unwrap_or_else(|| panic!("no check {id}"))
}

#[test]
fn all_ok_facts_produce_no_blocks() {
    let r = evaluate(&PreflightFacts::all_ok());
    assert!(!r.is_blocked());
    assert!(r.checks.iter().any(|c| matches!(c.status, CheckStatus::Deferred)));
}

#[test]
fn steam_not_running_blocks() {
    let mut f = PreflightFacts::all_ok();
    f.steam_running = false;
    let r = evaluate(&f);
    assert!(r.is_blocked());
    assert!(r.blocking().iter().any(|c| c.id == "steam"));
}

#[test]
fn steam_elevated_warns_not_blocks_when_running_and_logged_in() {
    let mut f = PreflightFacts::all_ok();
    f.steam_elevated = true;
    let r = evaluate(&f);
    assert!(!r.is_blocked(), "an elevated-but-running Steam must warn, not block");
    assert!(r.warnings().iter().any(|c| c.id == "steam"));
}

#[test]
fn cs2_updating_blocks() {
    let mut f = PreflightFacts::all_ok();
    f.cs2_state_flags = 6;
    assert!(evaluate(&f).is_blocked());
}

#[test]
fn power_plan_noop_scenario_produces_a_warning_not_a_block() {
    let mut f = PreflightFacts::all_ok();
    f.noop_power_plan_scenarios = vec!["Scenario A".into()];
    let r = evaluate(&f);
    assert!(!r.is_blocked());
    let check = r
        .checks
        .iter()
        .find(|c| c.id == "power_plan_noop_vs_active")
        .expect("a power_plan_noop_vs_active check must always be present");
    assert_eq!(check.status, CheckStatus::Warn);
    assert!(check.detail.contains("Scenario A"), "{}", check.detail);
}

#[test]
fn no_noop_power_plan_scenarios_passes() {
    let r = evaluate(&PreflightFacts::all_ok());
    let check = r
        .checks
        .iter()
        .find(|c| c.id == "power_plan_noop_vs_active")
        .expect("a power_plan_noop_vs_active check must always be present");
    assert_eq!(check.status, CheckStatus::Pass);
}

#[test]
fn launch_args_noop_scenario_produces_a_warning_not_a_block() {
    let mut f = PreflightFacts::all_ok();
    f.noop_launch_args_scenarios = vec!["Scenario B".into()];
    let r = evaluate(&f);
    assert!(!r.is_blocked());
    let check = r
        .checks
        .iter()
        .find(|c| c.id == "launch_args_noop_vs_active")
        .expect("a launch_args_noop_vs_active check must always be present");
    assert_eq!(check.status, CheckStatus::Warn);
    assert!(check.detail.contains("Scenario B"), "{}", check.detail);
}

#[test]
fn no_noop_launch_args_scenarios_passes() {
    let r = evaluate(&PreflightFacts::all_ok());
    let check = r
        .checks
        .iter()
        .find(|c| c.id == "launch_args_noop_vs_active")
        .expect("a launch_args_noop_vs_active check must always be present");
    assert_eq!(check.status, CheckStatus::Pass);
}

#[test]
fn build_id_mismatch_only_warns() {
    let mut f = PreflightFacts::all_ok();
    f.cs2_build_id = Some("200".into());
    f.last_known_build_id = Some("199".into());
    let r = evaluate(&f);
    assert!(!r.is_blocked());
    assert!(r.warnings().iter().any(|c| c.id == "cs2_build"));
}

#[test]
fn reboot_checks_pass_when_autologon_is_configured_the_safe_way() {
    let r = evaluate(&reboot_facts());
    for id in ["autologon", "default_password", "bitlocker", "secure_boot", "sleep"] {
        assert_eq!(status_of(&r, id).status, CheckStatus::Pass, "{id}");
    }
    assert!(!r.is_blocked());
}

#[test]
fn missing_autologon_warns_on_a_reboot_run() {
    let mut f = reboot_facts();
    f.logon.as_mut().unwrap().auto_admin_logon = false;
    let r = evaluate(&f);
    assert_eq!(status_of(&r, "autologon").status, CheckStatus::Warn);
    assert!(!r.is_blocked());
}

#[test]
fn microsoft_account_with_autologon_warns_and_plain_text_password_warns() {
    let mut f = reboot_facts();
    f.logon.as_mut().unwrap().microsoft_account = true;
    f.logon.as_mut().unwrap().default_password_present = true;
    let r = evaluate(&f);
    assert_eq!(status_of(&r, "autologon").status, CheckStatus::Warn);
    assert_eq!(status_of(&r, "default_password").status, CheckStatus::Warn);
}

#[test]
fn bitlocker_on_and_secure_boot_on_warn_only() {
    let mut f = reboot_facts();
    f.bitlocker = Some(BitlockerStatus::On);
    f.secure_boot = Some(Some(true));
    let r = evaluate(&f);
    assert_eq!(status_of(&r, "bitlocker").status, CheckStatus::Warn);
    assert_eq!(status_of(&r, "secure_boot").status, CheckStatus::Warn);
    assert!(!r.is_blocked());
}

#[test]
fn reboot_checks_pass_with_an_explanation_when_there_are_no_reboot_scenarios() {
    let r = evaluate(&PreflightFacts::all_ok());
    let c = status_of(&r, "autologon");
    assert_eq!(c.status, CheckStatus::Pass);
    assert!(c.detail.contains("no reboot scenarios"));
}

#[test]
fn registry_noop_warns_and_blocks_when_it_would_burn_a_reboot() {
    let mut f = PreflightFacts::all_ok();
    f.noop_registry_scenarios = vec![("Scenario A".into(), false)];
    assert_eq!(status_of(&evaluate(&f), "registry_noop_vs_active").status, CheckStatus::Warn);
    f.noop_registry_scenarios = vec![("HAGS on".into(), true)];
    let r = evaluate(&f);
    assert_eq!(status_of(&r, "registry_noop_vs_active").status, CheckStatus::Block);
    assert!(status_of(&r, "registry_noop_vs_active").detail.contains("HAGS on"));
}

#[test]
fn anticheat_and_thermal_stay_deferred_to_m4() {
    let r = evaluate(&PreflightFacts::all_ok());
    for id in ["anticheat", "thermal"] {
        let c = status_of(&r, id);
        assert_eq!(c.status, CheckStatus::Deferred);
        assert!(c.detail.contains("M4"));
    }
    assert!(r.checks.iter().all(|c| {
        !["bitlocker", "secure_boot", "autologon"].contains(&c.id.as_str())
            || c.status != CheckStatus::Deferred
    }));
}

#[test]
fn low_disk_space_blocks_with_the_exact_message() {
    let mut f = PreflightFacts::all_ok();
    f.free_disk_bytes = 10;
    f.min_free_bytes = 11;
    let r = evaluate(&f);
    assert!(r.is_blocked());
    let c = status_of(&r, "disk");
    assert_eq!(c.status, CheckStatus::Block);
}

#[test]
fn missing_workshop_map_blocks_and_aveyo_reports_not_needed() {
    let mut f = PreflightFacts::all_ok();
    f.workshop_map_subscribed = Some(false);
    assert!(evaluate(&f).is_blocked());
    f.workshop_map_subscribed = None;
    let r = evaluate(&f);
    assert!(!r.is_blocked());
}

#[test]
fn every_check_is_listed_once_in_a_fixed_order() {
    let r = evaluate(&reboot_facts());
    let ids: Vec<&str> = r.checks.iter().map(|c| c.id.as_str()).collect();
    let mut sorted = ids.clone();
    sorted.sort();
    sorted.dedup();
    assert_eq!(sorted.len(), ids.len());
    assert_eq!(r.blocking().len() + r.warnings().len() <= r.checks.len(), true);
}
