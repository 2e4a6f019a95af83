use voidframe::presentmon::{
    build_presentmon_args, exit_failure_error, missing_output_error, output_suffix, PmArgs, RealCaptureRunner,
};

#[test]
fn builds_the_confirmed_invocation_exactly() {
    let args = PmArgs {
        process_name: "cs2.exe".into(),
        output_file: r"C:\data\runs\r1\scenario-s1\iter-01.csv".into(),
        timed_seconds: 60,
    };
    let cli = build_presentmon_args(&args);
    let expected: Vec<String> = vec![
        "--process_name",
        "cs2.exe",
        "--output_file",
        r"C:\data\runs\r1\scenario-s1\iter-01.csv",
        "--timed",
        "60",
        "--terminate_after_timed",
        "--set_circular_buffer_size",
        "4096",
    ]
    .into_iter()
    .map(String::from)
    .collect();
    assert_eq!(cli, expected);
}

#[test]
fn the_timed_duration_is_written_in_decimal() {
    let args = PmArgs { process_name: "x".into(), output_file: "o.csv".into(), timed_seconds: 0 };
    assert_eq!(build_presentmon_args(&args)[5], "0");
    let args = PmArgs { timed_seconds: 4_294_967_295, ..args };
    assert_eq!(build_presentmon_args(&args)[5], "4294967295");
    assert_eq!(RealCaptureRunner::new("pm.exe".into()).inner.exe_path, "pm.exe");
}

#[test]
fn live_capture_errors_clearly_on_a_clean_exit_with_no_output_file() {
    let args = PmArgs {
        process_name: "no-such-process-voidframe-test.exe".into(),
        output_file: r"C:\tmp\out.csv".into(),
        timed_seconds: 1,
    };
    let e = missing_output_error(&args, &output_suffix(""));
    let msg = e.message();
    assert!(msg.contains("never wrote its output file"), "{msg}");
    assert!(msg.contains("no-such-process-voidframe-test.exe"), "{msg}");
    assert_eq!(
        msg,
        "PresentMon exited successfully but never wrote its output file (C:\\tmp\\out.csv) -- its capture target (\"no-such-process-voidframe-test.exe\") likely exited before or during the 1s capture window"
    );
}

#[test]
fn presentmon_output_is_appended_trimmed_or_not_at_all() {
    assert_eq!(output_suffix("  \r\n"), "");
    assert_eq!(output_suffix("\nlost 3 events\n"), " -- PresentMon output: lost 3 events");
    let e = exit_failure_error("exit code: 2", "pm.exe", &vec!["--timed".to_string(), "60".to_string()], " -- PresentMon output: x");
    assert_eq!(e.message(), "PresentMon exited with status exit code: 2 (invocation: pm.exe --timed 60) -- PresentMon output: x");
}
