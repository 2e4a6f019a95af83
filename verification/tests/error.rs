use voidframe::error::Error;

#[test]
fn io_error_converts_and_displays() {
    let e = Error::io("nope".into());
    assert!(e.message().contains("nope"));
    assert!(e.is_io());
    assert_eq!(e.message(), "io: nope");
}

#[test]
fn unsupported_module_message_names_reason() {
    let e = Error::unsupported_module("driver_install".into(), "needs M3".into());
    assert!(e.message().contains("driver_install"));
    assert!(e.message().contains("needs M3"));
    assert!(e.is_unsupported_module());
    assert_eq!(e.message(), "module type `driver_install` is not supported in M1: needs M3");
}

#[test]
fn every_kind_has_its_own_prefix_and_predicate() {
    assert_eq!(Error::serde("x".into()).message(), "json: x");
    assert!(Error::serde("x".into()).is_serde());
    assert_eq!(
        Error::schema_version("2.0.0".into(), "9.9.9".into()).message(),
        "schema_version mismatch: expected 2.0.0, found 9.9.9"
    );
    assert!(Error::schema_version("a".into(), "b".into()).is_schema_version());
    assert_eq!(Error::conflict("c".into()).message(), "scenario conflict: c");
    assert!(Error::conflict("c".into()).is_conflict());
    assert_eq!(Error::mock("m".into()).message(), "mock: m");
    assert_eq!(Error::preflight("p".into()).message(), "preflight: p");
    assert_eq!(Error::already_running().message(), "another VOIDFRAME instance is already running");
    assert!(Error::already_running().is_already_running());
    assert_eq!(Error::csv("bad".into()).message(), "csv: bad");
    assert_eq!(Error::aborted("stop".into()).message(), "aborted: stop");
    assert_eq!(Error::msg("plain".into()).message(), "plain");
    assert!(Error::msg("plain".into()).is_msg());
    assert!(!Error::msg("plain".into()).is_io());
}
