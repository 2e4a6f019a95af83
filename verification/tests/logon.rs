use voidframe::logon::{logon_config, logon_reads, secure_boot_from, secure_boot_read, LogonConfig, LOGON_UI, WINLOGON};
use voidframe::module::Hive;
use voidframe::registry::RegValue;

#[test]
fn reads_a_sysinternals_style_autologon_as_safe() {
    let c = logon_config(
        &RegValue::Sz("1".into()),
        &RegValue::Sz("bench".into()),
        &RegValue::Absent,
        &RegValue::Sz(".\\bench".into()),
    );
    assert_eq!(
        c,
        LogonConfig {
            auto_admin_logon: true,
            default_user_name: Some("bench".into()),
            default_password_present: false,
            microsoft_account: false,
        }
    );
}

#[test]
fn flags_plain_text_password_and_microsoft_account() {
    let c = logon_config(
        &RegValue::Sz("1".into()),
        &RegValue::Absent,
        &RegValue::Sz("hunter2".into()),
        &RegValue::Sz("MicrosoftAccount\\a@b.c".into()),
    );
    assert!(c.default_password_present && c.microsoft_account);
    assert_eq!(c.default_user_name, None);
}

#[test]
fn secure_boot_is_none_when_the_state_key_is_absent() {
    assert_eq!(secure_boot_from(&RegValue::Absent), None);
    assert_eq!(secure_boot_from(&RegValue::Dword(1)), Some(true));
    assert_eq!(secure_boot_from(&RegValue::Dword(0)), Some(false));
    assert_eq!(secure_boot_from(&RegValue::Sz("1".into())), None);
    let k = secure_boot_read();
    assert_eq!(k.subkey, "SYSTEM\\CurrentControlSet\\Control\\SecureBoot\\State");
    assert_eq!(k.value_name, "UEFISecureBootEnabled");
}

#[test]
fn autologon_needs_the_string_one_and_an_empty_user_is_none() {
    let c = logon_config(&RegValue::Sz(" 1 ".into()), &RegValue::Sz("".into()), &RegValue::Absent, &RegValue::Absent);
    assert!(c.auto_admin_logon);
    assert_eq!(c.default_user_name, None);
    assert!(!c.microsoft_account);
    let c = logon_config(&RegValue::Dword(1), &RegValue::Absent, &RegValue::Absent, &RegValue::ExpandSz("microsoftaccount\\x".into()));
    assert!(!c.auto_admin_logon);
    assert!(c.microsoft_account);
    let c = logon_config(&RegValue::Sz("10".into()), &RegValue::Absent, &RegValue::Dword(0), &RegValue::Absent);
    assert!(!c.auto_admin_logon);
    assert!(c.default_password_present);
}

#[test]
fn the_four_logon_values_are_read_in_order() {
    let keys = logon_reads();
    let names: Vec<&str> = keys.iter().map(|k| k.value_name.as_str()).collect();
    assert_eq!(names, vec!["AutoAdminLogon", "DefaultUserName", "DefaultPassword", "LastLoggedOnUser"]);
    assert!(keys.iter().all(|k| k.hive == Hive::Hklm));
    assert_eq!(keys[0].subkey, WINLOGON);
    assert_eq!(keys[3].subkey, LOGON_UI);
}
