use voidframe::recover::{heartbeat_age_is_fresh, project_id_for_run};
use voidframe::recover::choose_run_id;
use voidframe::recover::latest_run;
use voidframe::journal::RevertReport;
use voidframe::recover::RecoverReport;

#[test]
fn project_id_for_run_falls_back_to_results_json() {
    assert_eq!(project_id_for_run(None, None), None);
    assert_eq!(project_id_for_run(None, Some("my-project".into())).as_deref(), Some("my-project"));
    assert_eq!(
        project_id_for_run(Some("from-progress".into()), Some("my-project".into())).as_deref(),
        Some("from-progress")
    );
}

#[test]
fn project_id_for_run_rejects_a_traversal_id() {
    assert_eq!(project_id_for_run(Some(r"..\..\Users\Public\x".into()), None), None);
    assert_eq!(project_id_for_run(Some(r"..\..\Users\Public\x".into()), Some("ok".into())), None);
}

#[test]
fn heartbeat_freshness_uses_the_file_mtime() {
    assert!(heartbeat_age_is_fresh(Some(0)));
    assert!(heartbeat_age_is_fresh(Some(119)));
    assert!(!heartbeat_age_is_fresh(Some(120)));
    assert!(!heartbeat_age_is_fresh(None));
}

#[test]
fn the_run_to_recover_comes_from_the_state_file_first() {
    assert_eq!(choose_run_id(Some("r1".into()), Some("r2".into())).unwrap(), "r1");
    assert_eq!(choose_run_id(None, Some("r2".into())).unwrap(), "r2");
    assert_eq!(choose_run_id(None, None).unwrap_err().message(), "no run to recover");
}

#[test]
fn the_most_recent_run_wins_and_the_first_of_equals() {
    assert_eq!(latest_run(&vec![]), None);
    let runs = vec![(5u128, "a".to_string()), (9, "b".to_string()), (9, "c".to_string()), (1, "d".to_string())];
    assert_eq!(latest_run(&runs).as_deref(), Some("b"));
}

#[test]
fn recover_records_a_failed_task_deregistration_instead_of_discarding_it() {
    let mut r = RecoverReport::started("r1".into());
    r.absorb(RevertReport { reverted: 2, verify_failures: vec!["seq 1: x".into()] });
    r.note_failure("deregister VOIDFRAME_Resume", "access denied");
    assert_eq!(r.reverted, 2);
    assert_eq!(r.verify_failures, vec!["seq 1: x".to_string(), "deregister VOIDFRAME_Resume failed: access denied".to_string()]);
    assert!(!r.skipped_fresh_heartbeat);
    assert!(RecoverReport::skipped("r2".into()).skipped_fresh_heartbeat);
}
