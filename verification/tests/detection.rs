use voidframe::detection::{tail_was_replaced, DetectedLine, Detector, Signatures};

fn sigs() -> Signatures {
    Signatures {
        map_loaded: r#"Loading map "(?P<map>[^"]+)" \(addon '(?P<addon>\d+)'\)"#.to_string(),
        benchmark_started: r"\[Server\] BeginMatch".to_string(),
        benchmark_ended: r"\[Client\] Disconnected from server:".to_string(),
        vprof_fps: r"\[VProf\] FPS: Avg=(?P<avg>[\d.]+), P1=(?P<p1>[\d.]+)".to_string(),
        menu_ready: r"\[SteamNetSockets\] SDR RelayNetworkStatus:".to_string(),
    }
}

#[test]
fn classifies_every_confirmed_regex_from_the_spike() {
    let d = Detector::new(&sigs()).unwrap();
    assert_eq!(
        d.classify(r#"Loading map "de_dust2" (addon '3240880604')"#),
        Some(DetectedLine::MapLoaded { map: "de_dust2".into(), addon: "3240880604".into() })
    );
    assert_eq!(
        d.classify("[02:48:40.757] 09/01 02:48:40 [Server] BeginMatch"),
        Some(DetectedLine::BenchmarkStarted)
    );
    assert_eq!(
        d.classify(
            "[02:50:50.731] 09/01 02:50:50 [Client] Disconnected from server: NETWORK_DISCONNECT_DISCONNECT_BY_USER"
        ),
        Some(DetectedLine::BenchmarkEnded)
    );
    let fps = d.classify("[02:50:50.734] 09/01 02:50:50 [VProf] FPS: Avg=923.4, P1=356.1");
    assert_eq!(fps, Some(DetectedLine::VProfFps { avg: "923.4".into(), p1: "356.1".into() }));
    if let Some(DetectedLine::VProfFps { avg, p1 }) = fps {
        assert_eq!(avg.parse::<f64>().unwrap(), 923.4);
        assert_eq!(p1.parse::<f64>().unwrap(), 356.1);
    }
    assert_eq!(
        d.classify("09/01 19:45:11 [SteamNetSockets] SDR RelayNetworkStatus:  avail=OK  config=OK  anyrelay=OK"),
        Some(DetectedLine::MenuReady)
    );
    assert_eq!(d.classify("unrelated log noise"), None);
}

#[test]
fn the_first_matching_expression_decides() {
    let d = Detector::new(&sigs()).unwrap();
    assert_eq!(
        d.classify("[Server] BeginMatch then [Client] Disconnected from server: x"),
        Some(DetectedLine::BenchmarkStarted)
    );
}

#[test]
fn a_signature_that_does_not_compile_is_refused() {
    let mut s = sigs();
    s.benchmark_ended = "([unclosed".into();
    let e = Detector::new(&s).err().expect("an invalid expression must be refused");
    assert!(e.is_msg());
    assert!(!e.message().is_empty());
}

#[test]
fn wait_for_recovers_from_a_delete_and_recreate_not_just_an_in_place_truncate() {
    assert!(tail_was_replaced(true, Some(10_000), 10));
    assert!(tail_was_replaced(false, Some(9), 10));
    assert!(!tail_was_replaced(false, Some(10), 10));
    assert!(!tail_was_replaced(false, None, 10));
}
