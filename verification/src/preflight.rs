//! Pre-flight facts and the pure evaluator that turns them into a report:
//! blocking checks (Steam, CS2 install, workshop map, disk), warnings
//! (build-id drift, stale ETW session, scenarios that would be no-ops) and,
//! for projects with reboot scenarios, the AutoLogon / DefaultPassword /
//! BitLocker / Secure Boot checks.

use crate::logon::LogonConfig;
use crate::text::{decimal, decimal_chars, join, join_with, push_chars, push_str, string_from_chars, view_strings};
use vstd::prelude::*;

verus! {

broadcast use vstd::string::group_string_axioms;

/// BitLocker protection of the system volume.
#[derive(Clone, Copy, Debug, PartialEq, Eq, Structural)]
pub enum BitlockerStatus {
    On,
    Off,
    Unknown,
}

/// Raw facts gathered before a run. [`PreflightFacts::all_ok`] builds a
/// set in which every check passes.
#[derive(Clone, Debug)]
pub struct PreflightFacts {
    pub steam_running: bool,
    pub steam_logged_in: bool,
    pub steam_elevated: bool,
    pub cs2_installed: bool,
    pub cs2_state_flags: u32,
    /// Whether the Dust2 Workshop map is installed; `None` when the
    /// benchmark kind never loads it.
    pub workshop_map_subscribed: Option<bool>,
    pub cs2_build_id: Option<String>,
    pub last_known_build_id: Option<String>,
    pub stale_etw_session: bool,
    pub free_disk_bytes: u64,
    pub min_free_bytes: u64,
    /// Names of enabled scenarios whose power plan is the one active now.
    pub noop_power_plan_scenarios: Vec<String>,
    /// Names of enabled scenarios whose launch options equal the current
    /// ones (whitespace-normalized, reserved tokens stripped).
    pub noop_launch_args_scenarios: Vec<String>,
    /// Whether any enabled scenario needs a reboot.
    pub has_reboot_scenarios: bool,
    /// `None` when not gathered (no reboot scenarios).
    pub logon: Option<LogonConfig>,
    pub bitlocker: Option<BitlockerStatus>,
    /// Outer `None`: not gathered. Inner `None`: no Secure Boot state key.
    pub secure_boot: Option<Option<bool>>,
    /// (scenario name, would need a reboot) for enabled scenarios whose
    /// registry modules already match the live values.
    pub noop_registry_scenarios: Vec<(String, bool)>,
    pub sleep_inhibited: bool,
}

#[derive(Clone, Copy, Debug, PartialEq, Eq, Structural)]
pub enum CheckStatus {
    Pass,
    Warn,
    Block,
    Deferred,
}

#[derive(Clone, Debug)]
pub struct Check {
    pub id: String,
    pub status: CheckStatus,
    pub detail: String,
}

#[derive(Clone, Debug)]
pub struct PreflightReport {
    pub checks: Vec<Check>,
}

/// A check as plain values: id, status, detail.
pub open spec fn check_view(c: Check) -> (Seq<char>, CheckStatus, Seq<char>) {
    (c.id@, c.status, c.detail@)
}

pub open spec fn checks_view(cs: Seq<Check>) -> Seq<(Seq<char>, CheckStatus, Seq<char>)> {
    cs.map_values(|c: Check| check_view(c))
}

/// The checks among `cs` with status `st`, in order.
pub open spec fn with_status(cs: Seq<(Seq<char>, CheckStatus, Seq<char>)>, st: CheckStatus) -> Seq<
    (Seq<char>, CheckStatus, Seq<char>),
>
    decreases cs.len(),
{
    if cs.len() == 0 {
        seq![]
    } else if cs.last().1 == st {
        with_status(cs.drop_last(), st).push(cs.last())
    } else {
        with_status(cs.drop_last(), st)
    }
}

pub const MSG_STEAM_NOT_RUNNING: &'static str = "Steam is not running — open Steam normally, or enable Steam's \"Start Steam when computer starts\" option, and try again";
pub const MSG_STEAM_NOT_LOGGED_IN: &'static str = "Steam must be running and logged in";
pub const MSG_STEAM_ELEVATED: &'static str = "Steam is running elevated — the CS2 it launches will be elevated too; VOIDFRAME never closes an already-running Steam just to fix this";
pub const MSG_STEAM_OK: &'static str = "Steam is running, logged in, and not elevated";
pub const MSG_CS2_OK: &'static str = "CS2 is installed and up to date";
pub const MSG_CS2_NOT_READY: &'static str = "CS2 not fully installed / currently updating (StateFlags=";
pub const MSG_MAP_OK: &'static str = "Benchmark workshop map is subscribed";
pub const MSG_MAP_MISSING: &'static str = "Subscribe to workshop map 3240880604";
pub const MSG_MAP_NOT_NEEDED: &'static str = "Not needed for the AveYo benchmark.cfg v2 benchmark";
pub const MSG_DISK_OK: &'static str = "Enough free disk space for run artifacts";
pub const MSG_DISK_LOW: &'static str = "Not enough free disk space for run artifacts";
pub const MSG_BUILD_CHANGED: &'static str = "CS2 build changed since last run (";
pub const MSG_BUILD_CHANGED_END: &'static str = ") — re-baseline recommended";
pub const MSG_BUILD_OK: &'static str = "CS2 build id unchanged";
pub const MSG_ETW_STALE: &'static str = "A stale PresentMon ETW session was found and will be cleared";
pub const MSG_ETW_OK: &'static str = "No stale PresentMon ETW session";
pub const MSG_PLAN_OK: &'static str = "No scenario's power plan matches the system's current active plan";
pub const MSG_PLAN_NOOP: &'static str = " already target the system's current active power plan -- they won't show a difference from baseline on this dimension unless the active plan changes before the run starts";
pub const MSG_ARGS_OK: &'static str = "No scenario's launch options match the system's current launch options";
pub const MSG_ARGS_NOOP: &'static str = " already match your current CS2 launch options -- they won't show a difference from baseline on this dimension unless your launch options change before the run starts";
pub const MSG_NO_REBOOT: &'static str = "no reboot scenarios in this project";
pub const MSG_AUTOLOGON_OFF: &'static str = "AutoLogon is not configured -- you'll need to manually log back in after each reboot to resume the run (the deadman recovery will still safely revert everything if you don't within ~10 minutes). See docs/guides/autologon-setup.md to set up unattended AutoLogon instead.";
pub const MSG_AUTOLOGON_MSA: &'static str = "AutoLogon is configured for a Microsoft account -- Windows Hello or a password change can break unattended logon; a local account is safer for overnight runs";
pub const MSG_AUTOLOGON_OK: &'static str = "AutoLogon configured for ";
pub const MSG_CURRENT_USER: &'static str = "the current user";
pub const MSG_PASSWORD_PLAIN: &'static str = "DefaultPassword is stored in plain text in the registry -- use Sysinternals Autologon, which stores it as an LSA secret, and delete the plain-text value";
pub const MSG_PASSWORD_OK: &'static str = "No plain-text DefaultPassword in the registry";
pub const MSG_BITLOCKER_ON: &'static str = "BitLocker protects the system volume -- a boot-configuration change could trigger the recovery prompt and stall an overnight run. HAGS does not change boot configuration; keep your recovery key at hand anyway";
pub const MSG_BITLOCKER_UNKNOWN: &'static str = "BitLocker status could not be determined";
pub const MSG_BITLOCKER_OFF: &'static str = "BitLocker is off on the system volume";
pub const MSG_SECURE_BOOT_ON: &'static str = "Secure Boot is enabled -- boot-configuration changes may be rejected; HAGS is unaffected";
pub const MSG_SECURE_BOOT_OFF: &'static str = "Secure Boot is off or not applicable";
pub const MSG_REGISTRY_OK: &'static str = "No registry module already matches the live value";
pub const MSG_REGISTRY_REBOOT: &'static str = " would reboot only to set a registry value that is already set -- that is your baseline; remove the module or choose the other value";
pub const MSG_REGISTRY_NOOP: &'static str = " already match the live registry value -- they won't differ from baseline on that dimension";
pub const MSG_SLEEP_OK: &'static str = "Sleep and display timeout are inhibited for the run";
pub const MSG_SLEEP_FAIL: &'static str = "Could not inhibit sleep -- set the power plan's sleep timeout to Never before an overnight run";
pub const MSG_DEFERRED: &'static str = " — evaluated in milestone M4";
pub const LABEL_ANTICHEAT: &'static str = "Third-party kernel anti-cheat conflicts";
pub const LABEL_THERMAL: &'static str = "Thermal baseline calibration";

pub open spec fn cv(id: &str, st: CheckStatus, detail: Seq<char>) -> (Seq<char>, CheckStatus, Seq<char>) {
    (id@, st, detail)
}

pub open spec fn steam_check(f: PreflightFacts) -> (Seq<char>, CheckStatus, Seq<char>) {
    if !f.steam_running {
        cv("steam", CheckStatus::Block, MSG_STEAM_NOT_RUNNING@)
    } else if !f.steam_logged_in {
        cv("steam", CheckStatus::Block, MSG_STEAM_NOT_LOGGED_IN@)
    } else if f.steam_elevated {
        cv("steam", CheckStatus::Warn, MSG_STEAM_ELEVATED@)
    } else {
        cv("steam", CheckStatus::Pass, MSG_STEAM_OK@)
    }
}

pub open spec fn cs2_install_check(f: PreflightFacts) -> (Seq<char>, CheckStatus, Seq<char>) {
    if f.cs2_installed && f.cs2_state_flags == 4 {
        cv("cs2_install", CheckStatus::Pass, MSG_CS2_OK@)
    } else {
        cv(
            "cs2_install",
            CheckStatus::Block,
            MSG_CS2_NOT_READY@ + decimal(f.cs2_state_flags as nat) + seq![')'],
        )
    }
}

pub open spec fn workshop_map_check(f: PreflightFacts) -> (Seq<char>, CheckStatus, Seq<char>) {
    match f.workshop_map_subscribed {
        Some(true) => cv("workshop_map", CheckStatus::Pass, MSG_MAP_OK@),
        Some(false) => cv("workshop_map", CheckStatus::Block, MSG_MAP_MISSING@),
        None => cv("workshop_map", CheckStatus::Pass, MSG_MAP_NOT_NEEDED@),
    }
}

pub open spec fn disk_check(f: PreflightFacts) -> (Seq<char>, CheckStatus, Seq<char>) {
    if f.free_disk_bytes >= f.min_free_bytes {
        cv("disk", CheckStatus::Pass, MSG_DISK_OK@)
    } else {
        cv("disk", CheckStatus::Block, MSG_DISK_LOW@)
    }
}

pub open spec fn build_check(f: PreflightFacts) -> (Seq<char>, CheckStatus, Seq<char>) {
    match (f.cs2_build_id, f.last_known_build_id) {
        (Some(cur), Some(prev)) => if cur@ != prev@ {
            cv(
                "cs2_build",
                CheckStatus::Warn,
                MSG_BUILD_CHANGED@ + prev@ + " -> "@ + cur@ + MSG_BUILD_CHANGED_END@,
            )
        } else {
            cv("cs2_build", CheckStatus::Pass, MSG_BUILD_OK@)
        },
        _ => cv("cs2_build", CheckStatus::Pass, MSG_BUILD_OK@),
    }
}

pub open spec fn etw_check(f: PreflightFacts) -> (Seq<char>, CheckStatus, Seq<char>) {
    if f.stale_etw_session {
        cv("etw", CheckStatus::Warn, MSG_ETW_STALE@)
    } else {
        cv("etw", CheckStatus::Pass, MSG_ETW_OK@)
    }
}

pub open spec fn power_plan_check(f: PreflightFacts) -> (Seq<char>, CheckStatus, Seq<char>) {
    if f.noop_power_plan_scenarios@.len() == 0 {
        cv("power_plan_noop_vs_active", CheckStatus::Pass, MSG_PLAN_OK@)
    } else {
        cv(
            "power_plan_noop_vs_active",
            CheckStatus::Warn,
            join(view_strings(f.noop_power_plan_scenarios@), ", "@) + MSG_PLAN_NOOP@,
        )
    }
}

pub open spec fn launch_args_check(f: PreflightFacts) -> (Seq<char>, CheckStatus, Seq<char>) {
    if f.noop_launch_args_scenarios@.len() == 0 {
        cv("launch_args_noop_vs_active", CheckStatus::Pass, MSG_ARGS_OK@)
    } else {
        cv(
            "launch_args_noop_vs_active",
            CheckStatus::Warn,
            join(view_strings(f.noop_launch_args_scenarios@), ", "@) + MSG_ARGS_NOOP@,
        )
    }
}

/// The logon configuration the reboot checks judge: the gathered one, or
/// "nothing configured" when none was gathered.
pub open spec fn effective_logon(f: PreflightFacts) -> LogonConfig {
    match f.logon {
        Some(l) => l,
        None => LogonConfig {
            auto_admin_logon: false,
            default_user_name: None,
            default_password_present: false,
            microsoft_account: false,
        },
    }
}

pub open spec fn autologon_check(l: LogonConfig) -> (Seq<char>, CheckStatus, Seq<char>) {
    if !l.auto_admin_logon {
        cv("autologon", CheckStatus::Warn, MSG_AUTOLOGON_OFF@)
    } else if l.microsoft_account {
        cv("autologon", CheckStatus::Warn, MSG_AUTOLOGON_MSA@)
    } else {
        cv(
            "autologon",
            CheckStatus::Pass,
            MSG_AUTOLOGON_OK@ + match l.default_user_name {
                Some(u) => u@,
                None => MSG_CURRENT_USER@,
            },
        )
    }
}

pub open spec fn password_check(l: LogonConfig) -> (Seq<char>, CheckStatus, Seq<char>) {
    if l.default_password_present {
        cv("default_password", CheckStatus::Warn, MSG_PASSWORD_PLAIN@)
    } else {
        cv("default_password", CheckStatus::Pass, MSG_PASSWORD_OK@)
    }
}

pub open spec fn bitlocker_check(f: PreflightFacts) -> (Seq<char>, CheckStatus, Seq<char>) {
    match f.bitlocker {
        Some(BitlockerStatus::On) => cv("bitlocker", CheckStatus::Warn, MSG_BITLOCKER_ON@),
        Some(BitlockerStatus::Unknown) => cv(
            "bitlocker",
            CheckStatus::Warn,
            MSG_BITLOCKER_UNKNOWN@,
        ),
        _ => cv("bitlocker", CheckStatus::Pass, MSG_BITLOCKER_OFF@),
    }
}

pub open spec fn secure_boot_check(f: PreflightFacts) -> (Seq<char>, CheckStatus, Seq<char>) {
    match f.secure_boot {
        Some(Some(true)) => cv("secure_boot", CheckStatus::Warn, MSG_SECURE_BOOT_ON@),
        _ => cv("secure_boot", CheckStatus::Pass, MSG_SECURE_BOOT_OFF@),
    }
}

/// The four reboot-readiness checks.
pub open spec fn reboot_checks(f: PreflightFacts) -> Seq<(Seq<char>, CheckStatus, Seq<char>)> {
    if !f.has_reboot_scenarios {
        seq![
            cv("autologon", CheckStatus::Pass, MSG_NO_REBOOT@),
            cv("default_password", CheckStatus::Pass, MSG_NO_REBOOT@),
            cv("bitlocker", CheckStatus::Pass, MSG_NO_REBOOT@),
            cv("secure_boot", CheckStatus::Pass, MSG_NO_REBOOT@),
        ]
    } else {
        seq![
            autologon_check(effective_logon(f)),
            password_check(effective_logon(f)),
            bitlocker_check(f),
            secure_boot_check(f),
        ]
    }
}

/// The names of the registry no-op scenarios, all of them or only those
/// that would reboot.
pub open spec fn registry_names(rs: Seq<(String, bool)>, only_reboot: bool) -> Seq<Seq<char>>
    decreases rs.len(),
{
    if rs.len() == 0 {
        seq![]
    } else if !only_reboot || rs.last().1 {
        registry_names(rs.drop_last(), only_reboot).push(rs.last().0@)
    } else {
        registry_names(rs.drop_last(), only_reboot)
    }
}

pub open spec fn any_reboot(rs: Seq<(String, bool)>) -> bool {
    exists|i: int| 0 <= i < rs.len() && #[trigger] rs[i].1
}

pub open spec fn registry_check(f: PreflightFacts) -> (Seq<char>, CheckStatus, Seq<char>) {
    let rs = f.noop_registry_scenarios@;
    if rs.len() == 0 {
        cv("registry_noop_vs_active", CheckStatus::Pass, MSG_REGISTRY_OK@)
    } else if any_reboot(rs) {
        cv(
            "registry_noop_vs_active",
            CheckStatus::Block,
            join(registry_names(rs, true), ", "@) + MSG_REGISTRY_REBOOT@,
        )
    } else {
        cv(
            "registry_noop_vs_active",
            CheckStatus::Warn,
            join(registry_names(rs, false), ", "@) + MSG_REGISTRY_NOOP@,
        )
    }
}

pub open spec fn sleep_check(f: PreflightFacts) -> (Seq<char>, CheckStatus, Seq<char>) {
    if f.sleep_inhibited {
        cv("sleep", CheckStatus::Pass, MSG_SLEEP_OK@)
    } else {
        cv("sleep", CheckStatus::Warn, MSG_SLEEP_FAIL@)
    }
}

/// Every check `evaluate` reports for `f`, in report order.
pub open spec fn expected_checks(f: PreflightFacts) -> Seq<(Seq<char>, CheckStatus, Seq<char>)> {
    seq![
        steam_check(f),
        cs2_install_check(f),
        workshop_map_check(f),
        disk_check(f),
        build_check(f),
        etw_check(f),
        power_plan_check(f),
        launch_args_check(f),
    ] + reboot_checks(f) + seq![
        registry_check(f),
        sleep_check(f),
        cv("anticheat", CheckStatus::Deferred, LABEL_ANTICHEAT@ + MSG_DEFERRED@),
        cv("thermal", CheckStatus::Deferred, LABEL_THERMAL@ + MSG_DEFERRED@),
    ]
}

fn check(id: &str, status: CheckStatus, detail: String) -> (c: Check)
    ensures
        check_view(c) == cv(id, status, detail@),
{
    Check { id: id.to_owned(), status, detail }
}

fn text(s: &str) -> (r: String)
    ensures
        r@ == s@,
{
    s.to_owned()
}

/// `a + b` as a new string.
fn concat2(a: &str, b: &str) -> (r: String)
    ensures
        r@ == a@ + b@,
{
    let mut out: Vec<char> = Vec::new();
    push_str(&mut out, a);
    push_str(&mut out, b);
    string_from_chars(&out)
}

fn steam_check_exec(f: &PreflightFacts) -> (c: Check)
    ensures
        check_view(c) == steam_check(*f),
{
    if !f.steam_running {
        check("steam", CheckStatus::Block, text(MSG_STEAM_NOT_RUNNING))
    } else if !f.steam_logged_in {
        check("steam", CheckStatus::Block, text(MSG_STEAM_NOT_LOGGED_IN))
    } else if f.steam_elevated {
        check("steam", CheckStatus::Warn, text(MSG_STEAM_ELEVATED))
    } else {
        check("steam", CheckStatus::Pass, text(MSG_STEAM_OK))
    }
}

fn cs2_install_check_exec(f: &PreflightFacts) -> (c: Check)
    ensures
        check_view(c) == cs2_install_check(*f),
{
    if f.cs2_installed && f.cs2_state_flags == 4 {
        check("cs2_install", CheckStatus::Pass, text(MSG_CS2_OK))
    } else {
        let mut out: Vec<char> = Vec::new();
        push_str(&mut out, MSG_CS2_NOT_READY);
        let digits = decimal_chars(f.cs2_state_flags as u64);
        push_chars(&mut out, &digits);
        out.push(')');
        check("cs2_install", CheckStatus::Block, string_from_chars(&out))
    }
}

fn workshop_map_check_exec(f: &PreflightFacts) -> (c: Check)
    ensures
        check_view(c) == workshop_map_check(*f),
{
    match f.workshop_map_subscribed {
        Some(true) => check("workshop_map", CheckStatus::Pass, text(MSG_MAP_OK)),
        Some(false) => check("workshop_map", CheckStatus::Block, text(MSG_MAP_MISSING)),
        None => check("workshop_map", CheckStatus::Pass, text(MSG_MAP_NOT_NEEDED)),
    }
}

fn disk_check_exec(f: &PreflightFacts) -> (c: Check)
    ensures
        check_view(c) == disk_check(*f),
{
    if f.free_disk_bytes >= f.min_free_bytes {
        check("disk", CheckStatus::Pass, text(MSG_DISK_OK))
    } else {
        check("disk", CheckStatus::Block, text(MSG_DISK_LOW))
    }
}

fn build_check_exec(f: &PreflightFacts) -> (c: Check)
    ensures
        check_view(c) == build_check(*f),
{
    match (&f.cs2_build_id, &f.last_known_build_id) {
        (Some(cur), Some(prev)) => {
            if !(*cur == *prev) {
                let mut out: Vec<char> = Vec::new();
                push_str(&mut out, MSG_BUILD_CHANGED);
                push_str(&mut out, prev.as_str());
                push_str(&mut out, " -> ");
                push_str(&mut out, cur.as_str());
                push_str(&mut out, MSG_BUILD_CHANGED_END);
                check("cs2_build", CheckStatus::Warn, string_from_chars(&out))
            } else {
                check("cs2_build", CheckStatus::Pass, text(MSG_BUILD_OK))
            }
        },
        _ => check("cs2_build", CheckStatus::Pass, text(MSG_BUILD_OK)),
    }
}

fn etw_check_exec(f: &PreflightFacts) -> (c: Check)
    ensures
        check_view(c) == etw_check(*f),
{
    if f.stale_etw_session {
        check("etw", CheckStatus::Warn, text(MSG_ETW_STALE))
    } else {
        check("etw", CheckStatus::Pass, text(MSG_ETW_OK))
    }
}

fn power_plan_check_exec(f: &PreflightFacts) -> (c: Check)
    ensures
        check_view(c) == power_plan_check(*f),
{
    if f.noop_power_plan_scenarios.len() == 0 {
        check("power_plan_noop_vs_active", CheckStatus::Pass, text(MSG_PLAN_OK))
    } else {
        let names = join_with(&f.noop_power_plan_scenarios, ", ");
        check(
            "power_plan_noop_vs_active",
            CheckStatus::Warn,
            concat2(names.as_str(), MSG_PLAN_NOOP),
        )
    }
}

fn launch_args_check_exec(f: &PreflightFacts) -> (c: Check)
    ensures
        check_view(c) == launch_args_check(*f),
{
    if f.noop_launch_args_scenarios.len() == 0 {
        check("launch_args_noop_vs_active", CheckStatus::Pass, text(MSG_ARGS_OK))
    } else {
        let names = join_with(&f.noop_launch_args_scenarios, ", ");
        check(
            "launch_args_noop_vs_active",
            CheckStatus::Warn,
            concat2(names.as_str(), MSG_ARGS_NOOP),
        )
    }
}

fn autologon_check_exec(l: &LogonConfig) -> (c: Check)
    ensures
        check_view(c) == autologon_check(*l),
{
    if !l.auto_admin_logon {
        check("autologon", CheckStatus::Warn, text(MSG_AUTOLOGON_OFF))
    } else if l.microsoft_account {
        check("autologon", CheckStatus::Warn, text(MSG_AUTOLOGON_MSA))
    } else {
        let detail = match &l.default_user_name {
            Some(u) => concat2(MSG_AUTOLOGON_OK, u.as_str()),
            None => concat2(MSG_AUTOLOGON_OK, MSG_CURRENT_USER),
        };
        check("autologon", CheckStatus::Pass, detail)
    }
}

fn password_check_exec(l: &LogonConfig) -> (c: Check)
    ensures
        check_view(c) == password_check(*l),
{
    if l.default_password_present {
        check("default_password", CheckStatus::Warn, text(MSG_PASSWORD_PLAIN))
    } else {
        check("default_password", CheckStatus::Pass, text(MSG_PASSWORD_OK))
    }
}

fn bitlocker_check_exec(f: &PreflightFacts) -> (c: Check)
    ensures
        check_view(c) == bitlocker_check(*f),
{
    match f.bitlocker {
        Some(BitlockerStatus::On) => check("bitlocker", CheckStatus::Warn, text(MSG_BITLOCKER_ON)),
        Some(BitlockerStatus::Unknown) => check(
            "bitlocker",
            CheckStatus::Warn,
            text(MSG_BITLOCKER_UNKNOWN),
        ),
        _ => check("bitlocker", CheckStatus::Pass, text(MSG_BITLOCKER_OFF)),
    }
}

fn secure_boot_check_exec(f: &PreflightFacts) -> (c: Check)
    ensures
        check_view(c) == secure_boot_check(*f),
{
    match f.secure_boot {
        Some(Some(true)) => check("secure_boot", CheckStatus::Warn, text(MSG_SECURE_BOOT_ON)),
        _ => check("secure_boot", CheckStatus::Pass, text(MSG_SECURE_BOOT_OFF)),
    }
}

/// The names of the registry no-op scenarios (only those that would reboot,
/// or all), and whether any would reboot.
fn registry_names_exec(rs: &Vec<(String, bool)>, only_reboot: bool) -> (r: (Vec<String>, bool))
    ensures
        view_strings(r.0@) == registry_names(rs@, only_reboot),
        r.1 == any_reboot(rs@),
{
    let mut names: Vec<String> = Vec::new();
    let mut any = false;
    let mut i: usize = 0;
    while i < rs.len()
        invariant
            i <= rs.len(),
            view_strings(names@) == registry_names(rs@.take(i as int), only_reboot),
            any == any_reboot(rs@.take(i as int)),
        decreases rs.len() - i,
    {
        let ghost before = names@;
        assert(rs@.take(i + 1).drop_last() =~= rs@.take(i as int));
        assert(rs@.take(i + 1).last() == rs@[i as int]);
        if !only_reboot || rs[i].1 {
            names.push(rs[i].0.clone());
            assert(view_strings(names@) =~= view_strings(before).push(rs@[i as int].0@));
        }
        proof {
            let t = rs@.take(i + 1);
            if any_reboot(t) {
                let w = choose|w: int| 0 <= w < t.len() && #[trigger] t[w].1;
                if w < i {
                    assert(rs@.take(i as int)[w] == t[w]);
                }
            }
            if any_reboot(rs@.take(i as int)) {
                let w = choose|w: int| 0 <= w < i && #[trigger] rs@.take(i as int)[w].1;
                assert(t[w] == rs@.take(i as int)[w]);
            }
            if rs@[i as int].1 {
                assert(t[i as int].1);
            }
        }
        any = any || rs[i].1;
        i += 1;
    }
    assert(rs@.take(rs.len() as int) =~= rs@);
    (names, any)
}

fn registry_check_exec(f: &PreflightFacts) -> (c: Check)
    ensures
        check_view(c) == registry_check(*f),
{
    if f.noop_registry_scenarios.len() == 0 {
        check("registry_noop_vs_active", CheckStatus::Pass, text(MSG_REGISTRY_OK))
    } else {
        let (reboot_names, any) = registry_names_exec(&f.noop_registry_scenarios, true);
        if any {
            let names = join_with(&reboot_names, ", ");
            check(
                "registry_noop_vs_active",
                CheckStatus::Block,
                concat2(names.as_str(), MSG_REGISTRY_REBOOT),
            )
        } else {
            let (all_names, _) = registry_names_exec(&f.noop_registry_scenarios, false);
            let names = join_with(&all_names, ", ");
            check(
                "registry_noop_vs_active",
                CheckStatus::Warn,
                concat2(names.as_str(), MSG_REGISTRY_NOOP),
            )
        }
    }
}

fn sleep_check_exec(f: &PreflightFacts) -> (c: Check)
    ensures
        check_view(c) == sleep_check(*f),
{
    if f.sleep_inhibited {
        check("sleep", CheckStatus::Pass, text(MSG_SLEEP_OK))
    } else {
        check("sleep", CheckStatus::Warn, text(MSG_SLEEP_FAIL))
    }
}

/// Turns the gathered facts into the pre-flight report: one check per
/// concern, in a fixed order, each with its status and an explanation.
/// Deterministic and free of side effects.
pub fn evaluate(f: &PreflightFacts) -> (r: PreflightReport)
    ensures
        checks_view(r.checks@) == expected_checks(*f),
{
    let mut checks: Vec<Check> = Vec::new();
    checks.push(steam_check_exec(f));
    checks.push(cs2_install_check_exec(f));
    checks.push(workshop_map_check_exec(f));
    checks.push(disk_check_exec(f));
    checks.push(build_check_exec(f));
    checks.push(etw_check_exec(f));
    checks.push(power_plan_check_exec(f));
    checks.push(launch_args_check_exec(f));
    if !f.has_reboot_scenarios {
        checks.push(check("autologon", CheckStatus::Pass, text(MSG_NO_REBOOT)));
        checks.push(check("default_password", CheckStatus::Pass, text(MSG_NO_REBOOT)));
        checks.push(check("bitlocker", CheckStatus::Pass, text(MSG_NO_REBOOT)));
        checks.push(check("secure_boot", CheckStatus::Pass, text(MSG_NO_REBOOT)));
    } else {
        match &f.logon {
            Some(l) => {
                checks.push(autologon_check_exec(l));
                checks.push(password_check_exec(l));
            },
            None => {
                let none = LogonConfig {
                    auto_admin_logon: false,
                    default_user_name: None,
                    default_password_present: false,
                    microsoft_account: false,
                };
                checks.push(autologon_check_exec(&none));
                checks.push(password_check_exec(&none));
            },
        }
        checks.push(bitlocker_check_exec(f));
        checks.push(secure_boot_check_exec(f));
    }
    checks.push(registry_check_exec(f));
    checks.push(sleep_check_exec(f));
    checks.push(check("anticheat", CheckStatus::Deferred, concat2(LABEL_ANTICHEAT, MSG_DEFERRED)));
    checks.push(check("thermal", CheckStatus::Deferred, concat2(LABEL_THERMAL, MSG_DEFERRED)));
    assert(checks_view(checks@) =~= expected_checks(*f));
    PreflightReport { checks }
}

impl PreflightFacts {
    /// A set of facts on which every check passes.
    pub fn all_ok() -> (f: Self)
        ensures
            f.steam_running && f.steam_logged_in && !f.steam_elevated,
            f.cs2_installed && f.cs2_state_flags == 4,
            f.workshop_map_subscribed == Some(true),
            f.cs2_build_id matches Some(b) && b@ == "199"@,
            f.last_known_build_id matches Some(b) && b@ == "199"@,
            !f.stale_etw_session,
            f.free_disk_bytes == 50_000_000_000,
            f.min_free_bytes == 2_000_000_000,
            f.noop_power_plan_scenarios@.len() == 0,
            f.noop_launch_args_scenarios@.len() == 0,
            !f.has_reboot_scenarios,
            f.logon is None,
            f.bitlocker is None,
            f.secure_boot is None,
            f.noop_registry_scenarios@.len() == 0,
            f.sleep_inhibited,
    {
        PreflightFacts {
            steam_running: true,
            steam_logged_in: true,
            steam_elevated: false,
            cs2_installed: true,
            cs2_state_flags: 4,
            workshop_map_subscribed: Some(true),
            cs2_build_id: Some(text("199")),
            last_known_build_id: Some(text("199")),
            stale_etw_session: false,
            free_disk_bytes: 50_000_000_000,
            min_free_bytes: 2_000_000_000,
            noop_power_plan_scenarios: Vec::new(),
            noop_launch_args_scenarios: Vec::new(),
            has_reboot_scenarios: false,
            logon: None,
            bitlocker: None,
            secure_boot: None,
            noop_registry_scenarios: Vec::new(),
            sleep_inhibited: true,
        }
    }
}

pub open spec fn ref_checks_view(cs: Seq<&Check>) -> Seq<(Seq<char>, CheckStatus, Seq<char>)> {
    cs.map_values(|c: &Check| check_view(*c))
}

impl PreflightReport {
    fn with_status_refs(&self, st: CheckStatus) -> (r: Vec<&Check>)
        ensures
            ref_checks_view(r@) == with_status(checks_view(self.checks@), st),
    {
        let ghost all = checks_view(self.checks@);
        let mut out: Vec<&Check> = Vec::new();
        let mut i: usize = 0;
        while i < self.checks.len()
            invariant
                i <= self.checks.len(),
                all == checks_view(self.checks@),
                ref_checks_view(out@) == with_status(all.take(i as int), st),
            decreases self.checks.len() - i,
        {
            assert(all.take(i + 1).drop_last() =~= all.take(i as int));
            assert(all.take(i + 1).last() == check_view(self.checks@[i as int]));
            let c = &self.checks[i];
            if c.status == st {
                let ghost before = out@;
                out.push(c);
                assert(ref_checks_view(out@) =~= ref_checks_view(before).push(check_view(*c)));
            }
            i += 1;
        }
        assert(all.take(i as int) =~= all);
        out
    }

    /// The checks that block the run, in report order.
    pub fn blocking(&self) -> (r: Vec<&Check>)
        ensures
            ref_checks_view(r@) == with_status(checks_view(self.checks@), CheckStatus::Block),
    {
        self.with_status_refs(CheckStatus::Block)
    }

    /// Whether any check blocks the run.
    pub fn is_blocked(&self) -> (b: bool)
        ensures
            b == (with_status(checks_view(self.checks@), CheckStatus::Block).len() > 0),
    {
        let bl = self.blocking();
        assert(ref_checks_view(bl@).len() == bl@.len());
        bl.len() > 0
    }

    /// The checks that only warn, in report order.
    pub fn warnings(&self) -> (r: Vec<&Check>)
        ensures
            ref_checks_view(r@) == with_status(checks_view(self.checks@), CheckStatus::Warn),
    {
        self.with_status_refs(CheckStatus::Warn)
    }
}

/// The ids of a list of checks.
pub open spec fn check_ids(cs: Seq<(Seq<char>, CheckStatus, Seq<char>)>) -> Seq<Seq<char>> {
    cs.map_values(|c: (Seq<char>, CheckStatus, Seq<char>)| c.0)
}

/// The report always lists the same checks, in the same order, whatever
/// the facts: a check that does not apply passes with an explanation
/// instead of disappearing.
pub proof fn lemma_report_lists_every_check(f: PreflightFacts, g: PreflightFacts)
    ensures
        check_ids(expected_checks(f)) == check_ids(expected_checks(g)),
        expected_checks(f).len() == 16,
{
    assert(check_ids(expected_checks(f)) =~= check_ids(expected_checks(g)));
}

/// Exactly these facts block a run: Steam not running or not logged in,
/// CS2 not installed or updating, the workshop map needed but missing, too
/// little disk space, or a scenario that would reboot only to set registry
/// values that are already set. Everything else at most warns.
#[verifier::spinoff_prover]
#[verifier::rlimit(50)]
pub proof fn lemma_blocked_exactly_when(f: PreflightFacts)
    ensures
        (with_status(expected_checks(f), CheckStatus::Block).len() > 0) == (!f.steam_running
            || !f.steam_logged_in || !(f.cs2_installed && f.cs2_state_flags == 4)
            || f.workshop_map_subscribed == Some(false) || f.free_disk_bytes < f.min_free_bytes
            || (f.noop_registry_scenarios@.len() > 0 && any_reboot(f.noop_registry_scenarios@))),
{
    let cs = expected_checks(f);
    reveal_with_fuel(with_status, 17);
    let blocked = !f.steam_running || !f.steam_logged_in || !(f.cs2_installed
        && f.cs2_state_flags == 4) || f.workshop_map_subscribed == Some(false)
        || f.free_disk_bytes < f.min_free_bytes || (f.noop_registry_scenarios@.len() > 0
        && any_reboot(f.noop_registry_scenarios@));
    lemma_with_status_nonempty(cs, CheckStatus::Block);
    if blocked {
        if !f.steam_running || !f.steam_logged_in {
            assert(cs[0].1 == CheckStatus::Block);
        } else if !(f.cs2_installed && f.cs2_state_flags == 4) {
            assert(cs[1].1 == CheckStatus::Block);
        } else if f.workshop_map_subscribed == Some(false) {
            assert(cs[2].1 == CheckStatus::Block);
        } else if f.free_disk_bytes < f.min_free_bytes {
            assert(cs[3].1 == CheckStatus::Block);
        } else {
            assert(cs[12].1 == CheckStatus::Block);
        }
    } else {
        assert forall|i: int| 0 <= i < cs.len() implies cs[i].1 != CheckStatus::Block by {
            if 8 <= i < 12 {
                assert(reboot_checks(f)[i - 8].1 != CheckStatus::Block);
            }
        }
    }
}

/// A list has a check with status `st` exactly when filtering by `st`
/// keeps something.
proof fn lemma_with_status_nonempty(cs: Seq<(Seq<char>, CheckStatus, Seq<char>)>, st: CheckStatus)
    ensures
        (with_status(cs, st).len() > 0) == (exists|i: int| 0 <= i < cs.len() && #[trigger] cs[i].1 == st),
    decreases cs.len(),
{
    if cs.len() > 0 {
        lemma_with_status_nonempty(cs.drop_last(), st);
        if exists|i: int| 0 <= i < cs.len() && #[trigger] cs[i].1 == st {
            let i = choose|i: int| 0 <= i < cs.len() && #[trigger] cs[i].1 == st;
            if i < cs.len() - 1 {
                assert(cs.drop_last()[i] == cs[i]);
            }
        }
        if exists|i: int| 0 <= i < cs.drop_last().len() && #[trigger] cs.drop_last()[i].1 == st {
            let i = choose|i: int| 0 <= i < cs.drop_last().len() && #[trigger] cs.drop_last()[i].1 == st;
            assert(cs[i] == cs.drop_last()[i]);
        }
    }
}

/// On a project with reboot scenarios, the report's bitlocker check (the
/// eleventh) passes only when BitLocker is not known to protect the system
/// volume and its status was not left undetermined: `On` warns, and an
/// `Unknown` status warns that it could not be determined.
pub proof fn lemma_bitlocker_passes_only_when_off(f: PreflightFacts, r: PreflightReport)
    requires
        checks_view(r.checks@) == expected_checks(f),
        f.has_reboot_scenarios,
    ensures
        r.checks@.len() > 10,
        r.checks@[10].id@ == "bitlocker"@,
        (r.checks@[10].status == CheckStatus::Pass) <==> (f.bitlocker != Some(BitlockerStatus::On) && f.bitlocker
            != Some(BitlockerStatus::Unknown)),
        f.bitlocker == Some(BitlockerStatus::On) ==> r.checks@[10].status == CheckStatus::Warn,
        f.bitlocker == Some(BitlockerStatus::Unknown) ==> r.checks@[10].status == CheckStatus::Warn
            && r.checks@[10].detail@ == "BitLocker status could not be determined"@,
{
    assert(checks_view(r.checks@).len() == r.checks@.len());
    assert(expected_checks(f)[10] == bitlocker_check(f));
    assert(checks_view(r.checks@)[10] == check_view(r.checks@[10]));
}

/// What each check of the report says, by status: sixteen checks in a
/// fixed order, each blocking, warning or passing on the facts it is about.
/// A missing Steam session, a CS2 install that is not fully installed
/// (state flags other than 4), a missing workshop map, low disk space and a
/// registry no-op that would reboot block; a changed build, a stale ETW
/// session, power-plan, launch-option and other registry no-ops, and an
/// uninhibited sleep warn; on a reboot project, AutoLogon that is off or on
/// a Microsoft account, a plain-text password and Secure Boot warn.
pub proof fn lemma_preflight_statuses(f: PreflightFacts, r: PreflightReport)
    requires
        checks_view(r.checks@) == expected_checks(f),
    ensures
        r.checks@.len() == 16,
        r.checks@[0].status == if !f.steam_running || !f.steam_logged_in {
            CheckStatus::Block
        } else if f.steam_elevated {
            CheckStatus::Warn
        } else {
            CheckStatus::Pass
        },
        r.checks@[1].status == if f.cs2_installed && f.cs2_state_flags == 4 {
            CheckStatus::Pass
        } else {
            CheckStatus::Block
        },
        r.checks@[2].status == if f.workshop_map_subscribed == Some(false) {
            CheckStatus::Block
        } else {
            CheckStatus::Pass
        },
        r.checks@[3].status == if f.free_disk_bytes < f.min_free_bytes {
            CheckStatus::Block
        } else {
            CheckStatus::Pass
        },
        r.checks@[4].status == if (f.cs2_build_id matches Some(c) && f.last_known_build_id matches Some(p)
            && c@ != p@) {
            CheckStatus::Warn
        } else {
            CheckStatus::Pass
        },
        r.checks@[5].status == if f.stale_etw_session {
            CheckStatus::Warn
        } else {
            CheckStatus::Pass
        },
        r.checks@[6].status == if f.noop_power_plan_scenarios@.len() > 0 {
            CheckStatus::Warn
        } else {
            CheckStatus::Pass
        },
        r.checks@[7].status == if f.noop_launch_args_scenarios@.len() > 0 {
            CheckStatus::Warn
        } else {
            CheckStatus::Pass
        },
        r.checks@[8].status == if f.has_reboot_scenarios && !(f.logon matches Some(l) && l.auto_admin_logon
            && !l.microsoft_account) {
            CheckStatus::Warn
        } else {
            CheckStatus::Pass
        },
        r.checks@[9].status == if f.has_reboot_scenarios && (f.logon matches Some(l)
            && l.default_password_present) {
            CheckStatus::Warn
        } else {
            CheckStatus::Pass
        },
        r.checks@[10].status == if f.has_reboot_scenarios && (f.bitlocker == Some(BitlockerStatus::On)
            || f.bitlocker == Some(BitlockerStatus::Unknown)) {
            CheckStatus::Warn
        } else {
            CheckStatus::Pass
        },
        r.checks@[11].status == if f.has_reboot_scenarios && f.secure_boot == Some(Some(true)) {
            CheckStatus::Warn
        } else {
            CheckStatus::Pass
        },
        r.checks@[12].status == if exists|i: int|
            0 <= i < f.noop_registry_scenarios@.len() && #[trigger] f.noop_registry_scenarios@[i].1 {
            CheckStatus::Block
        } else if f.noop_registry_scenarios@.len() > 0 {
            CheckStatus::Warn
        } else {
            CheckStatus::Pass
        },
        r.checks@[13].status == if f.sleep_inhibited {
            CheckStatus::Pass
        } else {
            CheckStatus::Warn
        },
        r.checks@[14].status == CheckStatus::Deferred,
        r.checks@[15].status == CheckStatus::Deferred,
{
    let cs = checks_view(r.checks@);
    assert(cs.len() == r.checks@.len());
    assert forall|i: int| 0 <= i < 16 implies #[trigger] cs[i].1 == r.checks@[i].status by {
        assert(cs[i] == check_view(r.checks@[i]));
    }
    assert(cs[0] == steam_check(f));
    assert(cs[1] == cs2_install_check(f));
    assert(cs[2] == workshop_map_check(f));
    assert(cs[3] == disk_check(f));
    assert(cs[4] == build_check(f));
    assert(cs[5] == etw_check(f));
    assert(cs[6] == power_plan_check(f));
    assert(cs[7] == launch_args_check(f));
    assert(cs[8] == reboot_checks(f)[0]);
    assert(cs[9] == reboot_checks(f)[1]);
    assert(cs[10] == reboot_checks(f)[2]);
    assert(cs[11] == reboot_checks(f)[3]);
    assert(cs[12] == registry_check(f));
    assert(cs[13] == sleep_check(f));
    assert(cs[14].1 == CheckStatus::Deferred);
    assert(cs[15].1 == CheckStatus::Deferred);
}

} // verus!
