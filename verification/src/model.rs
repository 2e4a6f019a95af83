//! The project model: settings, configuration, projects and scenarios, run
//! progress markers, and the checks a project must pass before it runs.

use crate::error::{err_msg, err_msg_chars, err_view, msg_view, Error, ErrorTag};
use crate::module::{debug_quoted, str_debug, utf8_len_over, Module};
use crate::text::{chars_of, decimal, decimal_chars, push_chars, push_str, str_eq, string_from_chars};
use vstd::prelude::*;

verus! {

broadcast use vstd::string::group_string_axioms;

/// The schema version of project, progress and results documents.
pub const SCHEMA_VERSION: &'static str = "2.0.0";

/// Whether `c` may appear in an id.
pub open spec fn is_id_char(c: char) -> bool {
    ('a' <= c && c <= 'z') || ('A' <= c && c <= 'Z') || ('0' <= c && c <= '9') || c == '-' || c
        == '_'
}

/// Whether `id` is a valid id: 1 to 128 bytes of ASCII letters, digits,
/// `-` or `_` (so it can never name a path outside its directory).
pub open spec fn valid_id(id: Seq<char>) -> bool {
    id.len() > 0 && vstd::utf8::encode_utf8(id).len() <= 128 && forall|i: int|
        0 <= i < id.len() ==> is_id_char(#[trigger] id[i])
}

pub open spec fn id_error_message(id: Seq<char>) -> Seq<char> {
    "invalid id "@ + str_debug(id)
        + ": ids must be 1-128 characters of ASCII letters, digits, '-' or '_'"@
}

fn is_id_char_exec(c: char) -> (b: bool)
    ensures
        b == is_id_char(c),
{
    ('a' <= c && c <= 'z') || ('A' <= c && c <= 'Z') || ('0' <= c && c <= '9') || c == '-' || c
        == '_'
}

/// Accepts an id that is safe to use as one path segment: 1-128 ASCII
/// letters, digits, `-` or `_`.
pub fn validate_id_segment(id: &str) -> (r: Result<(), Error>)
    ensures
        match r {
            Ok(()) => valid_id(id@),
            Err(e) => !valid_id(id@) && err_view(e) == msg_view(id_error_message(id@)),
        },
{
    let cs = chars_of(id);
    let mut ok = cs.len() > 0 && !utf8_len_over(&cs, 128);
    let mut i: usize = 0;
    while i < cs.len()
        invariant
            i <= cs.len(),
            cs@ == id@,
            ok == (cs.len() > 0 && vstd::utf8::encode_utf8(id@).len() <= 128 && forall|j: int|
                0 <= j < i ==> is_id_char(#[trigger] id@[j])),
        decreases cs.len() - i,
    {
        ok = ok && is_id_char_exec(cs[i]);
        i += 1;
    }
    if ok {
        Ok(())
    } else {
        let mut out: Vec<char> = Vec::new();
        push_str(&mut out, "invalid id ");
        let d = debug_quoted(id);
        push_str(&mut out, d.as_str());
        push_str(
            &mut out,
            ": ids must be 1-128 characters of ASCII letters, digits, '-' or '_'",
        );
        Err(err_msg_chars(&out))
    }
}

/// A valid id is a single plain path segment: it holds no path separator,
/// no drive colon and no dot, so it can be neither `.`, `..` nor a path of
/// its own, and joining it under a directory stays in that directory.
pub proof fn lemma_valid_id_is_one_segment(id: Seq<char>)
    requires
        valid_id(id),
    ensures
        id.len() > 0,
        forall|i: int|
            0 <= i < id.len() ==> {
                let c = #[trigger] id[i];
                c != '/' && c != '\\' && c != ':' && c != '.' && c != '\0'
            },
{
    assert forall|i: int| 0 <= i < id.len() implies {
        let c = #[trigger] id[i];
        c != '/' && c != '\\' && c != ':' && c != '.' && c != '\0'
    } by {
        assert(is_id_char(id[i]));
    }
}

/// Which benchmark drives a run.
#[derive(Clone, Copy, Debug, PartialEq, Eq, Structural)]
pub enum BenchmarkKind {
    /// The Dust2 benchmark map from the Steam Workshop (the default).
    WorkshopDust2,
    /// AveYo's `benchmark.cfg` v2, triggered by a console config.
    AveYoCfgV2,
}

/// Seconds the AveYo benchmark settles before capture.
pub const AVEYO_SETTLE_SECONDS: u64 = 5;
/// The longest capture that fits the AveYo benchmark's scripted run.
pub const AVEYO_MAX_CAPTURE_SECONDS: u32 = 57;

/// The measurement-loop counts the statistics are calibrated for.
pub open spec fn calibrated_ladder() -> Seq<u32> {
    seq![3u32, 5u32, 8u32]
}

/// Project-level run settings.
#[derive(Clone, Debug)]
pub struct Settings {
    pub schema_version: String,
    pub measure_loops: u32,
    pub warmup_loops: u32,
    pub capture_seconds: u32,
    pub map_id: String,
    pub watchdog_seconds: u32,
    pub netcon_port: Option<u16>,
    pub benchmark_kind: BenchmarkKind,
}

/// Whether `s` is a non-empty run of ASCII digits.
pub open spec fn is_numeric_id(s: Seq<char>) -> bool {
    s.len() > 0 && forall|i: int| 0 <= i < s.len() ==> '0' <= #[trigger] s[i] && s[i] <= '9'
}

/// Why settings are refused when a project loads, if they are.
pub open spec fn settings_error(s: Settings) -> Option<Seq<char>> {
    if !calibrated_ladder().contains(s.measure_loops) {
        Some(
            "measure_loops must be one of [3, 5, 8] (this crate's calibrated WCPS v3 ladder) -- got "@
                + decimal(s.measure_loops as nat),
        )
    } else if s.benchmark_kind == BenchmarkKind::WorkshopDust2 && !is_numeric_id(s.map_id@) {
        Some("map_id must be a non-empty numeric Steam workshop addon id"@)
    } else {
        None
    }
}

/// Why the capture window does not fit the benchmark, if it does not.
pub open spec fn capture_window_error(s: Settings) -> Option<Seq<char>> {
    if s.benchmark_kind == BenchmarkKind::AveYoCfgV2 && s.capture_seconds > AVEYO_MAX_CAPTURE_SECONDS {
        Some(
            "capture_seconds must be at most 57 for the AveYo benchmark.cfg v2 benchmark (its scripted run ends ~58s in, and the 5s settle before capture counts against that window) -- got "@
                + decimal(s.capture_seconds as nat),
        )
    } else {
        None
    }
}

impl Settings {
    /// The settings a project document without any gets: 3 measure loops,
    /// 2 warm-up loops, 105 s captures on the Dust2 workshop map
    /// `3240880604`, a 120 s watchdog, no netcon port.
    pub fn defaults() -> (s: Settings)
        ensures
            s.schema_version@ == SCHEMA_VERSION@,
            s.measure_loops == 3,
            s.warmup_loops == 2,
            s.capture_seconds == 105,
            s.map_id@ == "3240880604"@,
            s.watchdog_seconds == 120,
            s.netcon_port is None,
            s.benchmark_kind == BenchmarkKind::WorkshopDust2,
    {
        Settings {
            schema_version: SCHEMA_VERSION.to_owned(),
            measure_loops: 3,
            warmup_loops: 2,
            capture_seconds: 105,
            map_id: "3240880604".to_owned(),
            watchdog_seconds: 120,
            netcon_port: None,
            benchmark_kind: BenchmarkKind::WorkshopDust2,
        }
    }

    /// Load-time validation: `measure_loops` must be on the calibrated
    /// ladder (3, 5 or 8), and for the Dust2 workshop benchmark `map_id`
    /// must be a numeric workshop id (so it cannot smuggle in console
    /// commands).
    pub fn validate(&self) -> (r: Result<(), Error>)
        ensures
            match r {
                Ok(()) => settings_error(*self) is None,
                Err(e) => settings_error(*self) == Some(err_view(e).1) && err_view(e).0
                    == ErrorTag::Msg,
            },
    {
        let n = self.measure_loops;
        if !(n == 3 || n == 5 || n == 8) {
            proof {
                let l = calibrated_ladder();
                if l.contains(n) {
                    let w = choose|w: int| 0 <= w < l.len() && l[w] == n;
                    assert(w == 0 || w == 1 || w == 2);
                }
            }
            let mut out: Vec<char> = Vec::new();
            push_str(&mut out, "measure_loops must be one of [3, 5, 8] (this crate's calibrated WCPS v3 ladder) -- got ");
            let d = decimal_chars(n as u64);
            push_chars(&mut out, &d);
            return Err(err_msg_chars(&out));
        }
        assert(calibrated_ladder().contains(n)) by {
            let l = calibrated_ladder();
            if n == 3 {
                assert(l[0] == n);
            } else if n == 5 {
                assert(l[1] == n);
            } else {
                assert(l[2] == n);
            }
        }
        match self.benchmark_kind {
            BenchmarkKind::WorkshopDust2 => {
                let cs = chars_of(self.map_id.as_str());
                let mut ok = cs.len() > 0;
                let mut i: usize = 0;
                while i < cs.len()
                    invariant
                        i <= cs.len(),
                        cs@ == self.map_id@,
                        ok == (cs.len() > 0 && forall|j: int|
                            0 <= j < i ==> '0' <= #[trigger] cs@[j] && cs@[j] <= '9'),
                    decreases cs.len() - i,
                {
                    ok = ok && '0' <= cs[i] && cs[i] <= '9';
                    i += 1;
                }
                if !ok {
                    return Err(err_msg("map_id must be a non-empty numeric Steam workshop addon id"));
                }
            },
            BenchmarkKind::AveYoCfgV2 => {},
        }
        Ok(())
    }

    /// Run-readiness check: an AveYo capture must fit inside its scripted
    /// benchmark (at most 57 s).
    pub fn validate_capture_window(&self) -> (r: Result<(), Error>)
        ensures
            match r {
                Ok(()) => capture_window_error(*self) is None,
                Err(e) => capture_window_error(*self) == Some(err_view(e).1) && err_view(e).0
                    == ErrorTag::Msg,
            },
    {
        match self.benchmark_kind {
            BenchmarkKind::AveYoCfgV2 => {
                if self.capture_seconds > AVEYO_MAX_CAPTURE_SECONDS {
                    let mut out: Vec<char> = Vec::new();
                    push_str(&mut out, "capture_seconds must be at most 57 for the AveYo benchmark.cfg v2 benchmark (its scripted run ends ~58s in, and the 5s settle before capture counts against that window) -- got ");
                    let d = decimal_chars(self.capture_seconds as u64);
                    push_chars(&mut out, &d);
                    return Err(err_msg_chars(&out));
                }
                Ok(())
            },
            BenchmarkKind::WorkshopDust2 => Ok(()),
        }
    }
}

/// `exe_dir` joined with `exe_name` the way a Windows path joins: a `\`
/// between them unless the directory is empty or already ends in a
/// separator.
pub open spec fn joined_path(exe_dir: Seq<char>, exe_name: Seq<char>) -> Seq<char> {
    if exe_dir.len() == 0 || exe_dir.last() == '\\' || exe_dir.last() == '/' {
        exe_dir + exe_name
    } else {
        exe_dir + seq!['\\'] + exe_name
    }
}

/// The path of a tool that ships next to the executable in `exe_dir`.
pub fn tool_path_under(exe_dir: &str, exe_name: &str) -> (r: String)
    ensures
        r@ == joined_path(exe_dir@, exe_name@),
{
    let d = chars_of(exe_dir);
    let mut out: Vec<char> = Vec::new();
    push_chars(&mut out, &d);
    if !(d.len() == 0 || d[d.len() - 1] == '\\' || d[d.len() - 1] == '/') {
        out.push('\\');
    }
    push_str(&mut out, exe_name);
    string_from_chars(&out)
}

/// Where a bundled tool is expected: next to the executable when its
/// directory is known, else the given fallback.
pub open spec fn installed_tool(exe_dir: Option<Seq<char>>, exe_name: Seq<char>, fallback: Seq<char>) -> Seq<char> {
    match exe_dir {
        Some(d) => joined_path(d, exe_name),
        None => fallback,
    }
}

pub fn installed_tool_path(exe_dir: Option<&str>, exe_name: &str, fallback: &str) -> (r: String)
    ensures
        r@ == installed_tool(crate::affinity::opt_view(exe_dir), exe_name@, fallback@),
{
    match exe_dir {
        Some(d) => tool_path_under(d, exe_name),
        None => fallback.to_owned(),
    }
}

/// The PresentMon path to use when none is configured.
pub fn default_presentmon_path(exe_dir: Option<&str>) -> (r: String)
    ensures
        r@ == installed_tool(crate::affinity::opt_view(exe_dir), "presentmon.exe"@, "C:\\presentmon.exe"@),
{
    installed_tool_path(exe_dir, "presentmon.exe", "C:\\presentmon.exe")
}

/// The HWiNFO path to use when none is configured.
pub fn default_hwinfo_path(exe_dir: Option<&str>) -> (r: Option<String>)
    ensures
        r matches Some(p) && p@ == installed_tool(crate::affinity::opt_view(exe_dir), "hwinfo64.exe"@, "C:\\hwinfo64.exe"@),
{
    Some(installed_tool_path(exe_dir, "hwinfo64.exe", "C:\\hwinfo64.exe"))
}

/// Application configuration.
#[derive(Clone, Debug)]
pub struct Config {
    pub presentmon_path: String,
    pub dry_run_default: bool,
    pub last_known_cs2_build_id: Option<String>,
    pub hwinfo_path: Option<String>,
    pub thermal_cooldown_enabled: bool,
    pub shutdown_when_complete_default: bool,
    pub post_boot_settle_seconds: u32,
    pub custom_script_warning_seen: bool,
}

impl Config {
    /// The default configuration for an executable in `exe_dir` (when
    /// known): bundled PresentMon and HWiNFO paths next to it, thermal
    /// cooldown on, a 180 s post-boot settle, everything else off.
    pub fn default_for(exe_dir: Option<&str>) -> (c: Config)
        ensures
            c.presentmon_path@ == installed_tool(crate::affinity::opt_view(exe_dir), "presentmon.exe"@, "C:\\presentmon.exe"@),
            !c.dry_run_default,
            c.last_known_cs2_build_id is None,
            c.hwinfo_path matches Some(p) && p@ == installed_tool(crate::affinity::opt_view(exe_dir), "hwinfo64.exe"@, "C:\\hwinfo64.exe"@),
            c.thermal_cooldown_enabled,
            !c.shutdown_when_complete_default,
            c.post_boot_settle_seconds == 180,
            !c.custom_script_warning_seen,
    {
        Config {
            presentmon_path: default_presentmon_path(exe_dir),
            dry_run_default: false,
            last_known_cs2_build_id: None,
            hwinfo_path: default_hwinfo_path(exe_dir),
            thermal_cooldown_enabled: true,
            shutdown_when_complete_default: false,
            post_boot_settle_seconds: 180,
            custom_script_warning_seen: false,
        }
    }

    /// Replaces a configured tool path that no longer names a file with the
    /// default one: PresentMon when `presentmon_is_file` is false, HWiNFO
    /// (when one is configured) when `hwinfo_is_file` is false.
    pub fn heal_stale_tool_paths(&mut self, presentmon_is_file: bool, hwinfo_is_file: bool, exe_dir: Option<&str>)
        ensures
            final(self).presentmon_path@ == if presentmon_is_file {
                old(self).presentmon_path@
            } else {
                installed_tool(crate::affinity::opt_view(exe_dir), "presentmon.exe"@, "C:\\presentmon.exe"@)
            },
            old(self).hwinfo_path is None ==> final(self).hwinfo_path is None,
            old(self).hwinfo_path matches Some(h) ==> (final(self).hwinfo_path matches Some(p) && p@ == if hwinfo_is_file {
                h@
            } else {
                installed_tool(crate::affinity::opt_view(exe_dir), "hwinfo64.exe"@, "C:\\hwinfo64.exe"@)
            }),
            final(self).dry_run_default == old(self).dry_run_default,
            final(self).last_known_cs2_build_id == old(self).last_known_cs2_build_id,
            final(self).thermal_cooldown_enabled == old(self).thermal_cooldown_enabled,
            final(self).shutdown_when_complete_default == old(self).shutdown_when_complete_default,
            final(self).post_boot_settle_seconds == old(self).post_boot_settle_seconds,
            final(self).custom_script_warning_seen == old(self).custom_script_warning_seen,
    {
        if !presentmon_is_file {
            self.presentmon_path = default_presentmon_path(exe_dir);
        }
        if self.hwinfo_path.is_some() && !hwinfo_is_file {
            self.hwinfo_path = default_hwinfo_path(exe_dir);
        }
    }
}

#[derive(Clone, Debug)]
pub struct Baseline {
    pub name: String,
    pub description: String,
}

/// One scenario: a named set of modules compared against the baseline.
#[derive(Debug)]
pub struct Scenario {
    pub id: String,
    pub name: String,
    pub description: String,
    pub enabled: bool,
    pub modules: Vec<Module>,
}

impl Scenario {
    pub open spec fn spec_requires_reboot(&self) -> bool {
        exists|i: int| 0 <= i < self.modules@.len() && #[trigger] self.modules@[i].spec_requires_reboot()
    }

    /// Whether any of the scenario's modules needs a reboot.
    pub fn requires_reboot(&self) -> (b: bool)
        ensures
            b == self.spec_requires_reboot(),
    {
        let mut i: usize = 0;
        while i < self.modules.len()
            invariant
                i <= self.modules.len(),
                forall|j: int| 0 <= j < i ==> !(#[trigger] self.modules@[j]).spec_requires_reboot(),
            decreases self.modules.len() - i,
        {
            if self.modules[i].requires_reboot() {
                return true;
            }
            i += 1;
        }
        false
    }
}

/// A benchmark project.
#[derive(Debug)]
pub struct Project {
    pub schema_version: String,
    pub id: String,
    pub name: String,
    pub description: String,
    pub created_at: String,
    pub settings: Settings,
    pub baseline: Baseline,
    pub scenarios: Vec<Scenario>,
}

/// The first refusal among modules `j..` of a scenario.
pub open spec fn modules_error(ms: Seq<Module>, j: int) -> Option<(ErrorTag, Seq<char>)>
    decreases ms.len() - j,
{
    if j < 0 || j >= ms.len() {
        None
    } else {
        match ms[j].m1_error() {
            Some(e) => Some(e),
            None => modules_error(ms, j + 1),
        }
    }
}

/// The first refusal among scenarios `i..`: a bad id, then a refused
/// module, scenario by scenario (disabled scenarios too).
pub open spec fn scenarios_error(scs: Seq<Scenario>, i: int) -> Option<(ErrorTag, Seq<char>)>
    decreases scs.len() - i,
{
    if i < 0 || i >= scs.len() {
        None
    } else if !valid_id(scs[i].id@) {
        Some(msg_view(id_error_message(scs[i].id@)))
    } else {
        match modules_error(scs[i].modules@, 0) {
            Some(e) => Some(e),
            None => scenarios_error(scs, i + 1),
        }
    }
}

/// Why a project's structure is refused, if it is.
pub open spec fn structure_error(p: Project) -> Option<(ErrorTag, Seq<char>)> {
    match settings_error(p.settings) {
        Some(m) => Some(msg_view(m)),
        None => scenarios_error(p.scenarios@, 0),
    }
}

pub open spec fn has_enabled(scs: Seq<Scenario>) -> bool {
    exists|i: int| 0 <= i < scs.len() && #[trigger] scs[i].enabled
}

/// Why a project cannot run, if it cannot.
pub open spec fn project_error(p: Project) -> Option<(ErrorTag, Seq<char>)> {
    match structure_error(p) {
        Some(e) => Some(e),
        None => if !has_enabled(p.scenarios@) {
            Some(msg_view("project has no enabled scenarios"@))
        } else {
            None
        },
    }
}

/// The schema-version refusal of a document written as `found`.
pub open spec fn schema_error(found: Seq<char>) -> (ErrorTag, Seq<char>) {
    (ErrorTag::SchemaVersion, "schema_version mismatch: expected "@ + SCHEMA_VERSION@ + ", found "@ + found)
}

/// Why a parsed project document is refused when it loads, if it is: a
/// schema version other than this engine's, then its structure.
pub open spec fn load_error(p: Project) -> Option<(ErrorTag, Seq<char>)> {
    if p.schema_version@ != SCHEMA_VERSION@ {
        Some(schema_error(p.schema_version@))
    } else {
        structure_error(p)
    }
}

impl Project {
    /// Load-time validation: the settings, every scenario id (enabled or
    /// not) and every module; a draft with no scenarios passes.
    pub fn validate_structure(&self) -> (r: Result<(), Error>)
        ensures
            match r {
                Ok(()) => structure_error(*self) is None,
                Err(e) => structure_error(*self) == Some(err_view(e)),
            },
    {
        match self.settings.validate() {
            Err(e) => return Err(e),
            Ok(()) => {},
        }
        let mut i: usize = 0;
        while i < self.scenarios.len()
            invariant
                i <= self.scenarios.len(),
                settings_error(self.settings) is None,
                structure_error(*self) == scenarios_error(self.scenarios@, i as int),
            decreases self.scenarios.len() - i,
        {
            let sc = &self.scenarios[i];
            match validate_id_segment(sc.id.as_str()) {
                Err(e) => return Err(e),
                Ok(()) => {},
            }
            let mut j: usize = 0;
            while j < sc.modules.len()
                invariant
                    i < self.scenarios.len(),
                    sc == self.scenarios@[i as int],
                    j <= sc.modules.len(),
                    valid_id(sc.id@),
                    structure_error(*self) == scenarios_error(self.scenarios@, i as int),
                    modules_error(sc.modules@, 0) == modules_error(sc.modules@, j as int),
                decreases sc.modules.len() - j,
            {
                match sc.modules[j].require_m1_supported() {
                    Err(e) => return Err(e),
                    Ok(()) => {},
                }
                j += 1;
            }
            i += 1;
        }
        Ok(())
    }

    /// The checks a parsed project document must pass to load: this
    /// engine's schema version, then [`Project::validate_structure`]. A
    /// draft with no enabled scenario loads.
    pub fn check_loaded(&self) -> (r: Result<(), Error>)
        ensures
            match r {
                Ok(()) => load_error(*self) is None,
                Err(e) => load_error(*self) == Some(err_view(e)),
            },
    {
        match check_schema_version(self.schema_version.as_str()) {
            Err(e) => return Err(e),
            Ok(()) => {},
        }
        self.validate_structure()
    }

    /// Run-readiness: the structure, and at least one enabled scenario.
    pub fn validate(&self) -> (r: Result<(), Error>)
        ensures
            match r {
                Ok(()) => project_error(*self) is None,
                Err(e) => project_error(*self) == Some(err_view(e)),
            },
    {
        match self.validate_structure() {
            Err(e) => return Err(e),
            Ok(()) => {},
        }
        let mut i: usize = 0;
        while i < self.scenarios.len()
            invariant
                i <= self.scenarios.len(),
                structure_error(*self) is None,
                forall|j: int| 0 <= j < i ==> !(#[trigger] self.scenarios@[j]).enabled,
            decreases self.scenarios.len() - i,
        {
            if self.scenarios[i].enabled {
                assert(self.scenarios@[i as int].enabled);
                return Ok(());
            }
            i += 1;
        }
        Err(err_msg("project has no enabled scenarios"))
    }

    /// The enabled scenarios, in order.
    pub fn enabled_scenarios(&self) -> (r: Vec<&Scenario>)
        ensures
            r@.map_values(|s: &Scenario| *s) == enabled_of(self.scenarios@),
    {
        let mut out: Vec<&Scenario> = Vec::new();
        let mut i: usize = 0;
        while i < self.scenarios.len()
            invariant
                i <= self.scenarios.len(),
                out@.map_values(|s: &Scenario| *s) == enabled_of(self.scenarios@.take(i as int)),
            decreases self.scenarios.len() - i,
        {
            assert(self.scenarios@.take(i + 1).drop_last() =~= self.scenarios@.take(i as int));
            let ghost before = out@;
            if self.scenarios[i].enabled {
                out.push(&self.scenarios[i]);
                assert(out@.map_values(|s: &Scenario| *s) =~= before.map_values(|s: &Scenario| *s).push(self.scenarios@[i as int]));
            }
            i += 1;
        }
        assert(self.scenarios@.take(i as int) =~= self.scenarios@);
        out
    }
}

/// The enabled scenarios among `scs`, in order.
pub open spec fn enabled_of(scs: Seq<Scenario>) -> Seq<Scenario>
    decreases scs.len(),
{
    if scs.len() == 0 {
        seq![]
    } else if scs.last().enabled {
        enabled_of(scs.drop_last()).push(scs.last())
    } else {
        enabled_of(scs.drop_last())
    }
}

/// Accepts a document's schema version only when it is this engine's.
pub fn check_schema_version(found: &str) -> (r: Result<(), Error>)
    ensures
        match r {
            Ok(()) => found@ == SCHEMA_VERSION@,
            Err(e) => found@ != SCHEMA_VERSION@ && (e.kind() matches crate::error::ErrorKind::SchemaVersion { expected, found: f } && expected@ == SCHEMA_VERSION@ && f@ == found@),
        },
{
    if str_eq(found, SCHEMA_VERSION) {
        Ok(())
    } else {
        Err(Error::schema_version(SCHEMA_VERSION.to_owned(), found.to_owned()))
    }
}

/// A scenario set aside after a non-clean boot, with why.
#[derive(Clone, Debug)]
pub struct UnstableScenario {
    pub scenario_id: String,
    pub reason: String,
}

/// Where a scenario is in its apply / measure / revert cycle.
#[derive(Clone, Copy, Debug, PartialEq, Eq, Structural)]
pub enum Stage {
    Apply,
    Measure,
    Revert,
    Done,
}

/// The run's position: which scenario, and which stage of it.
#[derive(Clone, Copy, Debug, PartialEq, Eq, Structural)]
pub struct Cursor {
    pub index: u32,
    pub stage: Stage,
}

/// A reboot the run started and has not yet come back from: why (by the
/// reason's wire name, such as `apply_next`), for which scenario, when
/// (`YYYY-MM-DDTHH:MM:SSZ`), and the boot count at that moment.
#[derive(Clone, Debug)]
pub struct PendingReboot {
    pub reason: String,
    pub scenario_id: String,
    pub initiated_at: String,
    pub boot_count: u32,
}

} // verus!
