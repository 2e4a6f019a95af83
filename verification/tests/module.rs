use voidframe::cs2_config::VideoSettings;
use voidframe::json::JsonValue;
use voidframe::module::{
    AffinityCpuPayload, AffinityMode, Cs2ConfigPayload, CustomScriptPayload, Hive, Module, PowerPlanPayload,
    RegType, RegistryPayload,
};

fn registry(hive: Hive, subkey: &str, value_name: &str, value_type: RegType, value: JsonValue, requires_reboot: bool) -> Module {
    Module::Registry(RegistryPayload {
        hive,
        subkey: subkey.into(),
        value_name: value_name.into(),
        value_type,
        value,
        requires_reboot,
    })
}

fn dword(subkey: &str, value_name: &str, value: u64) -> Module {
    registry(Hive::Hklm, subkey, value_name, RegType::Dword, JsonValue::UInt(value), false)
}

fn script(apply: &str, revert: &str, requires_reboot: bool) -> Module {
    Module::CustomScript(CustomScriptPayload {
        apply_script: apply.into(),
        revert_script: revert.into(),
        requires_reboot,
        description: "d".into(),
    })
}

#[test]
fn parses_supported_registry_module() {
    let m = dword("SYSTEM\\CurrentControlSet\\Control\\GraphicsDrivers", "HwSchMode", 2);
    assert_eq!(m.kind(), "registry");
    m.require_m1_supported().unwrap();
}

#[test]
fn unknown_type_becomes_unsupported_and_is_rejected() {
    let m = Module::Unsupported;
    assert_eq!(m.kind(), "unsupported");
    let e = m.require_m1_supported().unwrap_err();
    assert!(e.message().to_lowercase().contains("m3"));
}

#[test]
fn enum_pci_registry_path_is_rejected() {
    let m = dword(
        "SYSTEM\\CurrentControlSet\\Enum\\PCI\\VEN_10DE\\Device Parameters\\Interrupt Management\\Affinity Policy",
        "DevicePolicy",
        4,
    );
    let e = m.require_m1_supported().unwrap_err();
    assert!(e.message().contains("M3"));
}

#[test]
fn enum_segment_without_trailing_separator_is_still_rejected() {
    let m = dword("SYSTEM\\CurrentControlSet\\Enum\\PCI", "X", 1);
    let e = m.require_m1_supported().unwrap_err();
    assert!(e.message().contains("M3"));
}

#[test]
fn non_pci_enum_branch_is_also_rejected() {
    let m = dword("SYSTEM\\CurrentControlSet\\Enum\\USB\\VID_1234", "X", 1);
    assert!(m.require_m1_supported().is_err());
}

#[test]
fn subkey_with_nul_byte_is_rejected() {
    let m = dword("SYSTEM\\Control\\X\0Y", "V", 1);
    assert!(m.require_m1_supported().is_err());
}

#[test]
fn subkey_with_dotdot_segment_is_rejected() {
    let m = dword("SYSTEM\\Control\\..\\Enum\\PCI", "V", 1);
    assert!(m.require_m1_supported().is_err());
}

#[test]
fn overlong_subkey_is_rejected() {
    let m = dword(&format!("SYSTEM\\{}", "A".repeat(600)), "V", 1);
    assert!(m.require_m1_supported().is_err());
}

#[test]
fn empty_value_name_is_still_allowed() {
    let m = registry(Hive::Hkcu, "System\\GameConfigStore", "", RegType::Sz, JsonValue::Str("x".into()), false);
    m.require_m1_supported().unwrap();
}

#[test]
fn registry_target_is_hive_subkey_value() {
    let m = registry(
        Hive::Hkcu,
        "System\\GameConfigStore",
        "GameDVR_FSEBehavior",
        RegType::Dword,
        JsonValue::UInt(2),
        false,
    );
    assert_eq!(m.registry_target().unwrap(), r"HKCU\System\GameConfigStore\GameDVR_FSEBehavior");
}

#[test]
fn affinity_mode_parses_exclude_core0() {
    let m = Module::AffinityCpu(AffinityCpuPayload { mode: AffinityMode::ExcludeCore0, mask_hex: None });
    assert!(matches!(m, Module::AffinityCpu(AffinityCpuPayload { mode: AffinityMode::ExcludeCore0, .. })));
    assert_eq!(m.kind(), "affinity_cpu");
}

#[test]
fn launch_args_with_arbitrary_free_text_passes_unvalidated() {
    let m = Module::LaunchArgs { args: "-insecure -novid whatever".into() };
    assert_eq!(m.kind(), "launch_args");
    m.require_m1_supported().unwrap();
}

#[test]
fn launch_args_with_empty_string_passes() {
    let m = Module::LaunchArgs { args: "".into() };
    m.require_m1_supported().unwrap();
}

#[test]
fn a_document_without_a_type_field_is_unsupported_not_an_error() {
    assert!(!voidframe::module::is_known_module_type(""));
    assert!(!voidframe::module::is_known_module_type("driver_install"));
    assert!(voidframe::module::is_known_module_type("cs2_config"));
    assert_eq!(Module::Unsupported.kind(), "unsupported");
}

#[test]
fn registry_requires_reboot_defaults_false_and_round_trips() {
    let m = dword("SYSTEM\\CurrentControlSet\\Control\\GraphicsDrivers", "HwSchMode", 2);
    assert!(!m.requires_reboot());
    let m = registry(
        Hive::Hklm,
        "SYSTEM\\CurrentControlSet\\Control\\GraphicsDrivers",
        "HwSchMode",
        RegType::Dword,
        JsonValue::UInt(2),
        true,
    );
    assert!(m.requires_reboot());
}

#[test]
fn non_registry_modules_never_require_a_reboot() {
    let m = Module::Powercfg { sub: "sub_processor".into(), setting: "IDLEDISABLE".into(), value: 1 };
    assert!(!m.requires_reboot());
    let m = Module::LaunchArgs { args: "-novid".into() };
    assert!(!m.requires_reboot());
    let m = Module::PowerPlan(PowerPlanPayload {
        plan_guid: "8c5e7fda-e8bf-4a96-9a85-a6e23a8c635c".into(),
        friendly_name: None,
        create_if_missing: false,
    });
    assert!(!m.requires_reboot());
}

#[test]
fn parses_custom_script_module() {
    let m = script("disable-thing.ps1", "enable-thing.ps1", false);
    assert_eq!(m.kind(), "custom_script");
    m.require_m1_supported().unwrap();
}

#[test]
fn custom_script_rejects_a_path_outside_scripts_dir() {
    assert!(script("..\\..\\evil.bat", "revert.bat", false).require_m1_supported().is_err());
}

#[test]
fn custom_script_rejects_an_absolute_path() {
    assert!(script("C:\\Windows\\System32\\evil.bat", "revert.bat", false).require_m1_supported().is_err());
}

#[test]
fn custom_script_rejects_an_unlisted_extension() {
    assert!(script("apply.exe", "revert.bat", false).require_m1_supported().is_err());
}

#[test]
fn custom_script_accepts_bat_cmd_and_ps1() {
    for ext in ["bat", "cmd", "ps1"] {
        script(&format!("apply.{ext}"), &format!("revert.{ext}"), false).require_m1_supported().unwrap();
    }
}

#[test]
fn custom_script_requires_reboot_reflects_its_own_flag() {
    assert!(script("a.bat", "r.bat", true).requires_reboot());
    assert!(!script("a.bat", "r.bat", false).requires_reboot());
}

#[test]
fn custom_script_rejects_a_subdirectory_path_with_no_traversal() {
    assert!(script("subdir\\apply.bat", "revert.bat", false).require_m1_supported().is_err());
}

#[test]
fn custom_script_rejects_a_forward_slash_subdirectory_path() {
    assert!(script("subdir/apply.bat", "revert.bat", false).require_m1_supported().is_err());
}

#[test]
fn custom_script_rejects_a_root_relative_path() {
    assert!(script("\\Windows\\evil.bat", "revert.bat", false).require_m1_supported().is_err());
}

#[test]
fn custom_script_accepts_uppercase_extension() {
    script("apply.BAT", "revert.PS1", false).require_m1_supported().unwrap();
}

#[test]
fn custom_script_rejects_extension_only_path() {
    assert!(script(".bat", "revert.bat", false).require_m1_supported().is_err());
}

#[test]
fn custom_script_rejects_a_shell_metacharacter_in_the_path() {
    assert!(script("apply.bat", "evil & calc.exe.bat", false).require_m1_supported().is_err());
}

#[test]
fn parses_cs2_config_module() {
    let mut settings = VideoSettings::new();
    settings.insert("setting.fullscreen", "0");
    let m = Module::Cs2Config(Cs2ConfigPayload { settings });
    assert_eq!(m.kind(), "cs2_config");
    assert!(!m.requires_reboot());
    m.require_m1_supported().unwrap();
}

#[test]
fn a_custom_script_error_names_the_field_and_the_path() {
    let e = script("apply.exe", "revert.bat", false).require_m1_supported().unwrap_err();
    assert!(e.is_msg());
    assert!(e.message().contains("apply_script"), "{}", e.message());
    let e = script("a.bat", "x&y.bat", false).require_m1_supported().unwrap_err();
    assert_eq!(
        e.message(),
        "custom_script revert_script must be a flat filename containing only letters, digits, `_`, `-`, or `.` (no path separators), got \"x&y.bat\""
    );
}
