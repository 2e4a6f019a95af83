use voidframe::custom_script::{check_revert_hash, revert_script_inputs, script_inverse, sha256_hex};
use voidframe::json::{json_object1, json_str, JsonValue};

#[test]
fn sha256_hex_matches_known_digests() {
    assert_eq!(sha256_hex(b""), "e3b0c44298fc1c149afbf4c8996fb92427ae41e4649b934ca495991b7852b855");
    assert_eq!(sha256_hex(b"abc"), "ba7816bf8f01cfea414140de5dae2223b00361a396177a9cb410ff61f20015ad");
}

#[test]
fn the_inverse_round_trips_into_revert_inputs() {
    let inv = script_inverse("aaaa", "bbbb", "revert.ps1");
    let (path, sha) = revert_script_inputs(1, &inv).unwrap();
    assert_eq!(path, "revert.ps1");
    assert_eq!(sha, "bbbb");
}

#[test]
fn revert_refuses_when_revert_path_is_missing_from_the_inverse() {
    let inv = json_object1("revert_sha256", json_str("bbbb"));
    let e = revert_script_inputs(3, &inv).unwrap_err();
    assert!(e.message().contains("revert_path"), "{}", e.message());
}

#[test]
fn revert_refuses_when_revert_sha256_is_missing_from_the_inverse() {
    let inv = json_object1("revert_path", json_str("revert.bat"));
    let e = revert_script_inputs(3, &inv).unwrap_err();
    assert!(e.message().contains("revert_sha256"), "{}", e.message());
    assert!(revert_script_inputs(3, &JsonValue::Null).is_err());
}

#[test]
fn revert_refuses_to_run_when_the_script_changed_since_apply() {
    let original = sha256_hex(b"@echo off\r\n");
    let changed = sha256_hex(b"@echo off\r\ndel /q *\r\n");
    assert!(check_revert_hash("revert.bat", &original, &original).is_ok());
    let e = check_revert_hash("revert.bat", &original, &changed).unwrap_err();
    assert!(e.message().contains("revert.bat"), "{}", e.message());
}
