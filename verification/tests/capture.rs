use voidframe::capture::strip_bom;
use voidframe::capture::{frames_from_table, is_missing_value, present_mode_summary, presentmon_rows, ColumnIndex, FrameFields};
use voidframe::present_mode::misconfiguration_warning;

#[test]
fn strip_bom_removes_exactly_the_bom_and_nothing_else() {
    let with_bom = "\u{feff}Application,X\ncs2.exe,1\n".as_bytes();
    let without_bom = "Application,X\ncs2.exe,1\n".as_bytes();
    assert_eq!(strip_bom(with_bom), without_bom);
    assert_eq!(strip_bom(without_bom), without_bom);
}

#[test]
fn strip_bom_of_short_inputs() {
    assert_eq!(strip_bom(b""), b"");
    assert_eq!(strip_bom(&[0xEF, 0xBB]), &[0xEF, 0xBB]);
    assert_eq!(strip_bom(&[0xEF, 0xBB, 0xBF]), b"");
}

const REAL_HEADER: &str = "Application,ProcessID,SwapChainAddress,PresentRuntime,SyncInterval,PresentFlags,AllowsTearing,PresentMode,TimeInMs,MsBetweenSimulationStart,MsBetweenPresents,MsBetweenDisplayChange,MsInPresentAPI,MsRenderPresentLatency,MsUntilDisplayed,CPUStartTimeInMs,MsBetweenAppStart,MsCPUBusy,MsCPUWait,MsGPULatency,MsGPUTime,MsGPUBusy,MsGPUWait,MsAnimationError,AnimationTime,MsFlipDelay,MsAllInputToPhotonLatency,MsClickToPhotonLatency";

fn headers(line: &str) -> Vec<String> {
    line.split(',').map(String::from).collect()
}

fn modes(ms: &[&str]) -> Vec<String> {
    ms.iter().map(|m| m.to_string()).collect()
}

const REAL_SAMPLE: &str = "\u{feff}Application,ProcessID,SwapChainAddress,PresentRuntime,SyncInterval,PresentFlags,AllowsTearing,PresentMode,TimeInMs,MsBetweenSimulationStart,MsBetweenPresents,MsBetweenDisplayChange,MsInPresentAPI,MsRenderPresentLatency,MsUntilDisplayed,CPUStartTimeInMs,MsBetweenAppStart,MsCPUBusy,MsCPUWait,MsGPULatency,MsGPUTime,MsGPUBusy,MsGPUWait,MsAnimationError,AnimationTime,MsFlipDelay,MsAllInputToPhotonLatency,MsClickToPhotonLatency\ncs2.exe,12332,0x2AC3BFD7650,DXGI,0,512,1,Hardware: Independent Flip,40.0844,NA,19.21460000000000,19.09680000000000,0.02200000000000,1.66530000000000,1.6653,20.9582,19.1482,19.1262,0.0220,1.6947,19.0968,1.5390,17.5578,NA,20.9582,NA,NA,NA\ncs2.exe,12332,0x2AC3BFD7650,DXGI,0,512,1,Hardware: Independent Flip,59.0459,NA,18.96150000000000,19.08600000000000,0.03450000000000,1.78980000000000,1.7898,40.1064,18.9740,18.9395,0.0345,1.6433,19.0860,1.6529,17.4331,0.0622,40.1064,NA,NA,NA\n";

/// A field text read as the capture reader's caller reads it.
fn ms(field: &Option<String>) -> Option<f64> {
    match field {
        Some(f) if !is_missing_value(f) => f.trim().parse().ok(),
        _ => None,
    }
}

fn frame_ms(f: &FrameFields) -> f64 {
    f.frame_time.trim().parse().unwrap()
}

#[test]
fn parses_real_bom_prefixed_rows_with_na_values() {
    let samples = presentmon_rows(REAL_SAMPLE.as_bytes()).unwrap();
    assert_eq!(samples.len(), 2);
    assert!((frame_ms(&samples[0]) - 19.2146).abs() < 1e-4);
    assert_eq!(ms(&samples[0].gpu_busy), Some(1.5390));
    assert_eq!(ms(&samples[0].render_latency), Some(1.6653));
    assert_eq!(ms(&samples[0].animation_error), None);
    assert_eq!(samples[0].present_mode, "Hardware: Independent Flip");
    assert_eq!(ms(&samples[1].animation_error), Some(0.0622));
}

#[test]
fn cpu_busy_ms_parses_from_real_populated_value() {
    let samples = presentmon_rows(REAL_SAMPLE.as_bytes()).unwrap();
    assert_eq!(ms(&samples[0].cpu_busy), Some(19.1262));
}

#[test]
fn rows_hand_back_the_raw_field_texts() {
    let samples = presentmon_rows(REAL_SAMPLE.as_bytes()).unwrap();
    assert_eq!(samples[0].frame_time, "19.21460000000000");
    assert_eq!(samples[0].gpu_busy.as_deref(), Some("1.5390"));
    assert_eq!(samples[0].animation_error.as_deref(), Some("NA"));
    assert_eq!(samples[1].frame_time, "18.96150000000000");
}

#[test]
fn rejects_empty_csv() {
    let err = presentmon_rows(b"").unwrap_err();
    assert!(err.is_msg() || err.is_csv());
}

#[test]
fn rejects_header_only_csv() {
    let header_only = format!("\u{feff}{REAL_HEADER}\n");
    let err = presentmon_rows(header_only.as_bytes()).unwrap_err();
    assert!(err.is_msg() && err.message().contains("no data rows"));
    assert_eq!(err.message(), "PresentMon CSV has no data rows (empty or truncated capture)");
}

#[test]
fn a_row_with_more_cells_than_the_header_is_a_csv_error() {
    let text = "MsBetweenPresents,MsGPUBusy,MsCPUBusy,MsRenderPresentLatency,MsAnimationError,PresentMode\n1,2,3,4,5,X,extra\n";
    let err = presentmon_rows(text.as_bytes()).unwrap_err();
    assert!(err.is_csv());
    assert!(err.message().starts_with("csv: "));
}

#[test]
fn columns_are_found_by_name_in_a_real_header() {
    let c = ColumnIndex::resolve(&headers(REAL_HEADER)).unwrap();
    assert_eq!(c.ms_between_presents, 10);
    assert_eq!(c.ms_gpu_busy, 21);
    assert_eq!(c.ms_cpu_busy, 17);
    assert_eq!(c.ms_render_present_latency, 13);
    assert_eq!(c.ms_animation_error, 23);
    assert_eq!(c.present_mode, 7);
    let row: Vec<String> = headers("cs2.exe,12332,0x2AC3BFD7650,DXGI,0,512,1,Hardware: Independent Flip,40.0844,NA,19.21460000000000,19.09680000000000,0.02200000000000,1.66530000000000,1.6653,20.9582,19.1482,19.1262,0.0220,1.6947,19.0968,1.5390,17.5578,NA,20.9582,NA,NA,NA");
    assert_eq!(row[c.present_mode], "Hardware: Independent Flip");
    assert!(is_missing_value(&row[c.ms_animation_error]));
    assert!(!is_missing_value(&row[c.ms_gpu_busy]));
}

#[test]
fn na_value_in_tracked_optional_column_becomes_none() {
    let csv = "PresentMode,MsBetweenPresents,MsGPUBusy,MsCPUBusy,MsRenderPresentLatency,MsAnimationError\nHardware: Independent Flip,19.2146,NA,19.1262,1.6653,NA\n";
    let samples = presentmon_rows(csv.as_bytes()).unwrap();
    assert_eq!(ms(&samples[0].gpu_busy), None);
    assert_eq!(ms(&samples[0].cpu_busy), Some(19.1262));
    assert_eq!(ms(&samples[0].render_latency), Some(1.6653));
    assert_eq!(ms(&samples[0].animation_error), None);
}

#[test]
fn which_field_texts_count_as_missing() {
    let c = ColumnIndex::resolve(&headers(
        "PresentMode,MsBetweenPresents,MsGPUBusy,MsCPUBusy,MsRenderPresentLatency,MsAnimationError",
    ))
    .unwrap();
    assert_eq!((c.present_mode, c.ms_between_presents, c.ms_gpu_busy), (0, 1, 2));
    for missing in ["NA", "na", " Na ", "", "   "] {
        assert!(is_missing_value(missing), "{missing:?}");
    }
    for present in ["19.1262", "N/A", "nan", "0"] {
        assert!(!is_missing_value(present), "{present:?}");
    }
}

#[test]
fn rejects_csv_missing_a_required_column() {
    let err = presentmon_rows(b"Application,ProcessID\ncs2.exe,1\n").unwrap_err();
    assert!(err.is_msg() && err.message().contains("MsBetweenPresents"));
}

#[test]
fn the_first_missing_column_is_named() {
    let err = ColumnIndex::resolve(&headers("Application,ProcessID")).unwrap_err();
    assert!(err.is_msg());
    assert_eq!(err.message(), "PresentMon CSV missing expected column `MsBetweenPresents`");
    let err = ColumnIndex::resolve(&headers("MsBetweenPresents,MsGPUBusy,MsCPUBusy")).unwrap_err();
    assert_eq!(err.message(), "PresentMon CSV missing expected column `MsRenderPresentLatency`");
}

#[test]
fn the_first_of_duplicate_headers_is_used() {
    let c = ColumnIndex::resolve(&headers(
        "MsBetweenPresents,MsGPUBusy,MsCPUBusy,MsRenderPresentLatency,MsAnimationError,PresentMode,MsGPUBusy",
    ))
    .unwrap();
    assert_eq!(c.ms_gpu_busy, 1);
}

#[test]
fn mixed_present_mode_is_inconsistent_but_exclusive_dominant_has_no_warning() {
    let (dominant, consistent) = present_mode_summary(&modes(&[
        "Hardware: Independent Flip",
        "Hardware: Independent Flip",
        "Hardware: Independent Flip",
        "Composed: Flip",
    ]));
    assert_eq!(dominant, "Hardware: Independent Flip");
    assert!(!consistent);
    assert_eq!(misconfiguration_warning(&dominant), None);
}

#[test]
fn compositor_dominant_present_mode_produces_a_warning() {
    let (dominant, consistent) =
        present_mode_summary(&modes(&["Composed: Flip", "Composed: Flip", "Hardware: Independent Flip"]));
    assert_eq!(dominant, "Composed: Flip");
    assert!(!consistent);
    let warning = misconfiguration_warning(&dominant).expect("expected a warning for a Composed dominant mode");
    assert!(warning.contains("compositor"));
}

#[test]
fn unknown_or_empty_dominant_present_mode_produces_no_warning() {
    let (dominant, consistent) =
        present_mode_summary(&modes(&["Something Future PresentMon Adds", "Something Future PresentMon Adds"]));
    assert_eq!(dominant, "Something Future PresentMon Adds");
    assert!(consistent);
    assert_eq!(misconfiguration_warning(&dominant), None);
    let (dominant, _) = present_mode_summary(&modes(&["", ""]));
    assert_eq!(dominant, "");
    assert_eq!(misconfiguration_warning(&dominant), None);
}

#[test]
fn a_tie_goes_to_the_mode_that_sorts_last() {
    let (dominant, consistent) =
        present_mode_summary(&modes(&["Composed: Flip", "Hardware: Legacy Flip", "Hardware: Legacy Flip", "Composed: Flip"]));
    assert_eq!(dominant, "Hardware: Legacy Flip");
    assert!(!consistent);
    let (dominant, consistent) = present_mode_summary(&modes(&["b", "a"]));
    assert_eq!(dominant, "b");
    assert!(!consistent);
    assert_eq!(present_mode_summary(&modes(&["only"])), ("only".to_string(), true));
}

#[test]
fn a_table_row_without_a_present_mode_cell_is_refused() {
    let h = headers("MsBetweenPresents,MsGPUBusy,MsCPUBusy,MsRenderPresentLatency,MsAnimationError,PresentMode");
    let rows = vec![headers("1.5")];
    let err = frames_from_table(&h, &rows).unwrap_err();
    assert!(err.is_msg());
    assert_eq!(err.message(), "row missing PresentMode field");
    let rows = vec![headers("1.5,NA,2,3,,Composed: Flip"), headers("2.5,1,2,3,4,X")];
    let frames = frames_from_table(&h, &rows).unwrap();
    assert_eq!(frames.len(), 2);
    assert_eq!(frames[0].frame_time, "1.5");
    assert_eq!(frames[0].animation_error.as_deref(), Some(""));
    assert_eq!(frames[0].present_mode, "Composed: Flip");
    assert_eq!(frames[1].animation_error.as_deref(), Some("4"));
    let err = frames_from_table(&h, &Vec::new()).unwrap_err();
    assert_eq!(err.message(), "PresentMon CSV has no data rows (empty or truncated capture)");
}
