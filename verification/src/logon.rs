//! The AutoLogon and Secure Boot facts a reboot run depends on, read from
//! the registry: which values are read, and what they mean.

use crate::module::Hive;
use crate::registry::{RegKey, RegValue, RegValueModel};
use crate::text::{chars_of, lower, lower_chars, trim_ws, trim_ws_chars};
use vstd::prelude::*;

verus! {

broadcast use vstd::string::group_string_axioms;

pub const WINLOGON: &'static str = "SOFTWARE\\Microsoft\\Windows NT\\CurrentVersion\\Winlogon";
pub const LOGON_UI: &'static str = "SOFTWARE\\Microsoft\\Windows\\CurrentVersion\\Authentication\\LogonUI";
pub const SECURE_BOOT_STATE: &'static str = "SYSTEM\\CurrentControlSet\\Control\\SecureBoot\\State";

/// How Windows logs back on after a reboot.
#[derive(Clone, Debug, PartialEq, Eq)]
pub struct LogonConfig {
    /// `AutoAdminLogon` is "1".
    pub auto_admin_logon: bool,
    pub default_user_name: Option<String>,
    /// A plain-text `DefaultPassword` value exists (Sysinternals AutoLogon
    /// stores it as an LSA secret instead, which leaves this false).
    pub default_password_present: bool,
    /// `LastLoggedOnUser` starts with `MicrosoftAccount\`.
    pub microsoft_account: bool,
}

/// An `HKLM` key.
fn hklm(subkey: &str, value_name: &str) -> (k: RegKey)
    ensures
        k.hive == Hive::Hklm,
        k.subkey@ == subkey@,
        k.value_name@ == value_name@,
{
    RegKey { hive: Hive::Hklm, subkey: subkey.to_owned(), value_name: value_name.to_owned() }
}

/// The values AutoLogon is read from, in the order they are read:
/// `AutoAdminLogon`, `DefaultUserName` and `DefaultPassword` under
/// Winlogon, then `LastLoggedOnUser` under LogonUI (all `HKLM`).
pub fn logon_reads() -> (r: Vec<RegKey>)
    ensures
        r@.len() == 4,
        forall|i: int| 0 <= i < 4 ==> (#[trigger] r@[i]).hive == Hive::Hklm,
        r@[0].subkey@ == WINLOGON@ && r@[0].value_name@ == "AutoAdminLogon"@,
        r@[1].subkey@ == WINLOGON@ && r@[1].value_name@ == "DefaultUserName"@,
        r@[2].subkey@ == WINLOGON@ && r@[2].value_name@ == "DefaultPassword"@,
        r@[3].subkey@ == LOGON_UI@ && r@[3].value_name@ == "LastLoggedOnUser"@,
{
    let mut v: Vec<RegKey> = Vec::new();
    v.push(hklm(WINLOGON, "AutoAdminLogon"));
    v.push(hklm(WINLOGON, "DefaultUserName"));
    v.push(hklm(WINLOGON, "DefaultPassword"));
    v.push(hklm(LOGON_UI, "LastLoggedOnUser"));
    v
}

/// The text of a string value (`REG_SZ` or `REG_EXPAND_SZ`).
pub open spec fn string_value(v: RegValueModel) -> Option<Seq<char>> {
    match v {
        RegValueModel::Sz(s) => Some(s),
        RegValueModel::ExpandSz(s) => Some(s),
        _ => None,
    }
}

fn string_of(v: &RegValue) -> (r: Option<&String>)
    ensures
        match r {
            Some(s) => string_value(v.model()) == Some(s@),
            None => string_value(v.model()) is None,
        },
{
    match v {
        RegValue::Sz(s) => Some(s),
        RegValue::ExpandSz(s) => Some(s),
        _ => None,
    }
}

/// The account prefix of a Microsoft account, lower-cased.
pub open spec fn msa_prefix() -> Seq<char> {
    "microsoftaccount\\"@
}

/// The AutoLogon facts from what the four values of [`logon_reads`] held:
/// AutoLogon is on when `AutoAdminLogon` is the string "1" (whitespace
/// aside); the user name is a non-empty `DefaultUserName` string; a
/// plain-text password is any `DefaultPassword` value at all; the account
/// is a Microsoft account when `LastLoggedOnUser` starts, in any case,
/// with `MicrosoftAccount\`.
pub open spec fn logon_config_spec(
    auto: RegValueModel,
    user: RegValueModel,
    password: RegValueModel,
    last_user: RegValueModel,
) -> (bool, Option<Seq<char>>, bool, bool) {
    (
        string_value(auto) matches Some(s) && trim_ws(s) == "1"@,
        match string_value(user) {
            Some(u) => if u.len() > 0 {
                Some(u)
            } else {
                None
            },
            None => None,
        },
        password != RegValueModel::Absent,
        string_value(last_user) matches Some(l) && msa_prefix().is_prefix_of(lower(l)),
    )
}

pub open spec fn logon_view(c: LogonConfig) -> (bool, Option<Seq<char>>, bool, bool) {
    (
        c.auto_admin_logon,
        match c.default_user_name {
            Some(u) => Some(u@),
            None => None,
        },
        c.default_password_present,
        c.microsoft_account,
    )
}

/// Reads the AutoLogon facts out of the values of [`logon_reads`], in
/// that order (see [`logon_config_spec`]).
pub fn logon_config(auto: &RegValue, user: &RegValue, password: &RegValue, last_user: &RegValue) -> (c: LogonConfig)
    ensures
        logon_view(c) == logon_config_spec(auto.model(), user.model(), password.model(), last_user.model()),
{
    let auto_admin_logon = match string_of(auto) {
        Some(s) => {
            let t = trim_ws_chars(&chars_of(s.as_str()));
            proof {
                reveal_strlit("1");
            }
            t.len() == 1 && t[0] == '1'
        },
        None => false,
    };
    proof {
        reveal_strlit("1");
        if let Some(s) = string_value(auto.model()) {
            if trim_ws(s) == "1"@ {
                assert(trim_ws(s).len() == 1 && trim_ws(s)[0] == '1');
            }
            if trim_ws(s).len() == 1 && trim_ws(s)[0] == '1' {
                assert(trim_ws(s) =~= "1"@);
            }
        }
    }
    let default_user_name = match string_of(user) {
        Some(u) => if chars_of(u.as_str()).len() > 0 {
            Some(u.clone())
        } else {
            None
        },
        None => None,
    };
    let default_password_present = match password {
        RegValue::Absent => false,
        _ => true,
    };
    let microsoft_account = match string_of(last_user) {
        Some(l) => {
            let low = lower_chars(&chars_of(l.as_str()));
            let p = chars_of("microsoftaccount\\");
            proof {
                reveal_strlit("microsoftaccount\\");
            }
            let mut ok = low.len() >= p.len();
            let mut i: usize = 0;
            while ok && i < p.len()
                invariant
                    i <= p.len(),
                    p@ == msa_prefix(),
                    ok ==> low.len() >= p.len(),
                    ok == (low.len() >= p.len() && forall|j: int| 0 <= j < i ==> low@[j] == p@[j]),
                decreases p.len() - i,
            {
                if low[i] != p[i] {
                    ok = false;
                }
                i += 1;
            }
            proof {
                if ok {
                    assert(forall|j: int| 0 <= j < p.len() ==> low@[j] == p@[j]);
                }
                if msa_prefix().is_prefix_of(low@) {
                    assert(low.len() >= p.len());
                    assert(forall|j: int| 0 <= j < p.len() ==> low@[j] == p@[j]);
                }
            }
            ok
        },
        None => false,
    };
    LogonConfig { auto_admin_logon, default_user_name, default_password_present, microsoft_account }
}

/// The value Secure Boot's state is read from.
pub fn secure_boot_read() -> (k: RegKey)
    ensures
        k.hive == Hive::Hklm,
        k.subkey@ == SECURE_BOOT_STATE@,
        k.value_name@ == "UEFISecureBootEnabled"@,
{
    hklm(SECURE_BOOT_STATE, "UEFISecureBootEnabled")
}

/// Whether Secure Boot is on: `Some` only for a `DWORD` state value,
/// true when it is 1.
pub fn secure_boot_from(v: &RegValue) -> (r: Option<bool>)
    ensures
        r == match v.model() {
            RegValueModel::Dword(x) => Some(x == 1),
            _ => None,
        },
{
    match v {
        RegValue::Dword(x) => Some(*x == 1),
        _ => None,
    }
}

} // verus!
