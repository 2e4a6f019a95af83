use voidframe::conflict::conflict_check;
use voidframe::json::{json_str, JsonValue};
use voidframe::module::{Hive, Module, PowerPlanPayload, RegType, RegistryPayload};
use voidframe::registry::{hex, json_to_value, regvalue_from_payload, value_to_json, RegValue};

fn singleton_kinds() -> Vec<String> {
    vec!["power_plan".to_string(), "launch_args".to_string()]
}

fn reg_payload(value_type: RegType, value: JsonValue) -> RegistryPayload {
    RegistryPayload {
        hive: Hive::Hklm,
        subkey: "SYSTEM\\CurrentControlSet\\Control\\GraphicsDrivers".into(),
        value_name: "HwSchMode".into(),
        value_type,
        value,
        requires_reboot: false,
    }
}

fn reg_module(v: u64) -> Module {
    Module::Registry(reg_payload(RegType::Dword, JsonValue::UInt(v)))
}

fn power_plan(guid: &str) -> Module {
    Module::PowerPlan(PowerPlanPayload { plan_guid: guid.into(), friendly_name: None, create_if_missing: false })
}

#[test]
fn conflict_check_rejects_two_modules_same_value() {
    let e = conflict_check(&[reg_module(1), reg_module(2)], &singleton_kinds()).unwrap_err();
    assert!(e.message().to_lowercase().contains("conflict"));
    assert!(e.is_conflict());
}

#[test]
fn rejects_two_power_plan_modules_in_the_same_scenario() {
    let e = conflict_check(&[power_plan("a"), power_plan("b")], &singleton_kinds()).unwrap_err();
    assert!(e.message().to_lowercase().contains("conflict"));
}

#[test]
fn allows_one_power_plan_plus_a_non_singleton_module() {
    conflict_check(&[power_plan("a"), reg_module(2)], &singleton_kinds()).unwrap();
}

#[test]
fn two_launch_args_modules_conflict_but_two_distinct_registry_values_do_not() {
    let la = |s: &str| Module::LaunchArgs { args: s.into() };
    assert!(conflict_check(&[la("-a"), la("-b")], &singleton_kinds()).is_err());
    let other = Module::Registry(RegistryPayload {
        value_name: "Other".into(),
        ..reg_payload(RegType::Dword, JsonValue::UInt(1))
    });
    conflict_check(&[reg_module(1), other], &singleton_kinds()).unwrap();
    conflict_check(&[], &singleton_kinds()).unwrap();
}

#[test]
fn regvalue_from_payload_rejects_type_mismatch() {
    let p = RegistryPayload {
        hive: Hive::Hklm,
        subkey: "X".into(),
        value_name: "V".into(),
        value_type: RegType::Dword,
        value: json_str("not a number"),
        requires_reboot: false,
    };
    assert!(regvalue_from_payload(&p).is_err());
}

#[test]
fn regvalue_from_payload_reads_every_type() {
    assert_eq!(
        regvalue_from_payload(&reg_payload(RegType::Dword, JsonValue::UInt(0xFFFF_FFFF))).unwrap(),
        RegValue::Dword(0xFFFF_FFFF)
    );
    assert!(regvalue_from_payload(&reg_payload(RegType::Dword, JsonValue::UInt(0x1_0000_0002))).is_err());
    assert_eq!(
        regvalue_from_payload(&reg_payload(RegType::Qword, JsonValue::UInt(7))).unwrap(),
        RegValue::Qword(7)
    );
    assert_eq!(
        regvalue_from_payload(&reg_payload(RegType::Sz, json_str("x"))).unwrap(),
        RegValue::Sz("x".into())
    );
    assert_eq!(
        regvalue_from_payload(&reg_payload(RegType::Binary, json_str("00ff10"))).unwrap(),
        RegValue::Binary(vec![0, 255, 16])
    );
    assert!(regvalue_from_payload(&reg_payload(RegType::Binary, json_str("abc"))).is_err());
    assert!(regvalue_from_payload(&reg_payload(RegType::Binary, json_str("zz"))).is_err());
    assert!(regvalue_from_payload(&reg_payload(RegType::Dword, JsonValue::NegInt(-1))).is_err());
}

#[test]
fn a_journaled_value_reads_back_as_itself() {
    for v in [
        RegValue::Dword(1),
        RegValue::Qword(u64::MAX),
        RegValue::Sz("a\"b".into()),
        RegValue::ExpandSz("%SystemRoot%".into()),
        RegValue::Binary(vec![0xde, 0xad]),
        RegValue::MultiSz(vec!["a".into(), "".into()]),
        RegValue::Absent,
    ] {
        assert_eq!(json_to_value(&value_to_json(&v)).unwrap(), v);
    }
    assert_eq!(hex(&[0x0f, 0xa0]), "0fa0");
}

#[test]
fn a_dword_value_that_does_not_fit_in_32_bits_is_refused() {
    let p = reg_payload(RegType::Dword, JsonValue::UInt(4_294_967_296));
    let e = regvalue_from_payload(&p).unwrap_err();
    assert_eq!(e.message(), "registry DWORD value must be an integer that fits in 32 bits");
    let p = reg_payload(RegType::Dword, JsonValue::UInt(4_294_967_295));
    assert_eq!(regvalue_from_payload(&p).unwrap(), RegValue::Dword(4_294_967_295));
}

#[test]
fn a_binary_value_that_is_not_ascii_is_not_valid_hex() {
    let p = reg_payload(RegType::Binary, json_str("a\u{e9}b"));
    let e = regvalue_from_payload(&p).unwrap_err();
    assert_eq!(e.message(), "registry BINARY value is not valid hex");
}
