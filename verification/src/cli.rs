//! The command-line front end's decisions: which sound cue an engine event
//! plays, the `validate` command's summary, and whether a dry run was
//! clean.

use crate::error::{err_view, Error};
use crate::model::{enabled_of, load_error, Project, Scenario};
use crate::text::{decimal, decimal_chars, push_chars, push_str, str_eq, string_from_chars};
use vstd::prelude::*;

verus! {

broadcast use vstd::string::group_string_axioms;

/// An event the engine reports while a run goes on.
#[derive(Clone, Debug)]
pub enum EngineEvent {
    PhaseChanged { phase: String },
    LogLine { text: String },
    CapturePending,
    CaptureResumed,
    RecordingStarted,
    RecordingStopped,
    OperatorPrompt { message: String },
    RollbackProgress { reverted: u32 },
    RunComplete { run_id: String },
    RunFailed { reason: String },
}

/// A sound the front end plays.
#[derive(Clone, Copy, Debug, PartialEq, Eq, Structural)]
pub enum SoundCue {
    Start,
    Stop,
}

/// The cue for an event: a recording starting or stopping; nothing for
/// any other event.
pub fn sound_cue_for_event(ev: &EngineEvent) -> (r: Option<SoundCue>)
    ensures
        r == match ev {
            EngineEvent::RecordingStarted => Some(SoundCue::Start),
            EngineEvent::RecordingStopped => Some(SoundCue::Stop),
            _ => None,
        },
{
    match ev {
        EngineEvent::RecordingStarted => Some(SoundCue::Start),
        EngineEvent::RecordingStopped => Some(SoundCue::Stop),
        _ => None,
    }
}

/// What the `run` command does with an event besides printing it: the
/// cue to play (only when sounds are on), whether the run has failed, and
/// whether to acknowledge an operator prompt (nobody is there to do it).
#[derive(Clone, Copy, Debug, PartialEq, Eq, Structural)]
pub struct EventResponse {
    pub cue: Option<SoundCue>,
    pub failed: bool,
    pub acknowledge: bool,
}

/// The `run` command's response to an event.
pub fn event_response(ev: &EngineEvent, sound_enabled: bool) -> (r: EventResponse)
    ensures
        r.cue == if sound_enabled {
            match ev {
                EngineEvent::RecordingStarted => Some(SoundCue::Start),
                EngineEvent::RecordingStopped => Some(SoundCue::Stop),
                _ => None,
            }
        } else {
            None
        },
        r.failed == (ev is RunFailed),
        r.acknowledge == (ev is OperatorPrompt),
{
    let cue = if sound_enabled {
        sound_cue_for_event(ev)
    } else {
        None
    };
    let failed = match ev {
        EngineEvent::RunFailed { .. } => true,
        _ => false,
    };
    let acknowledge = match ev {
        EngineEvent::OperatorPrompt { .. } => true,
        _ => false,
    };
    EventResponse { cue, failed, acknowledge }
}

/// The first enabled scenario among `scs` that needs a reboot.
pub open spec fn first_reboot_scenario(scs: Seq<Scenario>) -> Option<Scenario>
    decreases scs.len(),
{
    if scs.len() == 0 {
        None
    } else if scs[0].enabled && scs[0].spec_requires_reboot() {
        Some(scs[0])
    } else {
        first_reboot_scenario(scs.drop_first())
    }
}

/// The refusal of the `run` command for a project it cannot finish: with
/// the real controller and not a dry run, a scenario that reboots would
/// leave the machine changed, because this program cannot answer the
/// resume and recovery tasks a reboot registers.
pub open spec fn reboot_refusal_text(project: Project, controller: Seq<char>, dry_run: bool) -> Option<Seq<char>> {
    if controller == "windows"@ && !dry_run {
        match first_reboot_scenario(project.scenarios@) {
            Some(sc) => Some(
                "scenario '"@ + sc.name@
                    + "' requires a reboot, which voidframe-cli cannot resume from (its own binary rejects the `--resume`/`--recover` tasks the engine would register); run reboot projects from the VOIDFRAME app, or pass --dry-run"@,
            ),
            None => None,
        }
    } else {
        None
    }
}

/// Why the `run` command refuses a project before touching the machine,
/// if it does (see [`reboot_refusal_text`]).
pub fn reboot_refusal(project: &Project, controller: &str, dry_run: bool) -> (r: Option<String>)
    ensures
        match r {
            Some(m) => reboot_refusal_text(*project, controller@, dry_run) == Some(m@),
            None => reboot_refusal_text(*project, controller@, dry_run) is None,
        },
{
    if !str_eq(controller, "windows") || dry_run {
        proof {
            reveal_strlit("windows");
        }
        return None;
    }
    let mut i: usize = 0;
    assert(project.scenarios@.skip(0) =~= project.scenarios@);
    while i < project.scenarios.len()
        invariant
            i <= project.scenarios.len(),
            controller@ == "windows"@,
            !dry_run,
            first_reboot_scenario(project.scenarios@) == first_reboot_scenario(project.scenarios@.skip(i as int)),
        decreases project.scenarios.len() - i,
    {
        let sc = &project.scenarios[i];
        assert(project.scenarios@.skip(i as int)[0] == *sc);
        assert(project.scenarios@.skip(i as int).drop_first() =~= project.scenarios@.skip(i + 1));
        if sc.enabled && sc.requires_reboot() {
            let mut out: Vec<char> = Vec::new();
            push_str(&mut out, "scenario '");
            push_str(&mut out, sc.name.as_str());
            push_str(&mut out, "' requires a reboot, which voidframe-cli cannot resume from (its own binary rejects the `--resume`/`--recover` tasks the engine would register); run reboot projects from the VOIDFRAME app, or pass --dry-run");
            return Some(string_from_chars(&out));
        }
        i += 1;
    }
    None
}

/// The number of modules of the given scenarios.
pub open spec fn module_count(scs: Seq<Scenario>) -> int
    decreases scs.len(),
{
    if scs.len() == 0 {
        0
    } else {
        module_count(scs.drop_last()) + scs.last().modules@.len()
    }
}

/// The `validate` command's report for a project that loaded.
pub open spec fn validate_summary(p: Project) -> Seq<char> {
    "OK: "@ + p.name@ + " — "@ + decimal(enabled_of(p.scenarios@).len()) + " enabled scenario(s), "@
        + decimal(module_count(enabled_of(p.scenarios@)) as nat) + " module(s)"@
}

proof fn lemma_module_count_bound(scs: Seq<Scenario>)
    ensures
        module_count(scs) >= 0,
    decreases scs.len(),
{
    if scs.len() > 0 {
        lemma_module_count_bound(scs.drop_last());
    }
}

/// The `validate` command for a parsed project document: the refusal a
/// load gives it (see [`Project::check_loaded`]), else a report of its
/// name, how many scenarios are enabled, and how many modules they hold.
pub fn run(project: &Project) -> (r: Result<String, Error>)
    requires
        module_count(enabled_of(project.scenarios@)) <= u64::MAX,
    ensures
        match r {
            Ok(s) => load_error(*project) is None && s@ == validate_summary(*project),
            Err(e) => load_error(*project) == Some(err_view(e)),
        },
{
    match project.check_loaded() {
        Err(e) => return Err(e),
        Ok(()) => {},
    }
    let en = project.enabled_scenarios();
    let ghost es = en@.map_values(|s: &Scenario| *s);
    let mut modules: u64 = 0;
    let mut i: usize = 0;
    while i < en.len()
        invariant
            i <= en.len(),
            es == en@.map_values(|s: &Scenario| *s),
            es == enabled_of(project.scenarios@),
            module_count(es) <= u64::MAX,
            modules == module_count(es.take(i as int)),
        decreases en.len() - i,
    {
        assert(es.take(i + 1).drop_last() =~= es.take(i as int));
        proof {
            lemma_module_count_prefix(es, i + 1);
        }
        modules = modules + en[i].modules.len() as u64;
        i += 1;
    }
    assert(es.take(i as int) =~= es);
    let mut out: Vec<char> = Vec::new();
    push_str(&mut out, "OK: ");
    push_str(&mut out, project.name.as_str());
    push_str(&mut out, " — ");
    let n = decimal_chars(en.len() as u64);
    push_chars(&mut out, &n);
    push_str(&mut out, " enabled scenario(s), ");
    let m = decimal_chars(modules);
    push_chars(&mut out, &m);
    push_str(&mut out, " module(s)");
    Ok(string_from_chars(&out))
}

proof fn lemma_module_count_prefix(scs: Seq<Scenario>, k: int)
    requires
        0 <= k <= scs.len(),
    ensures
        module_count(scs.take(k)) <= module_count(scs),
    decreases scs.len() - k,
{
    if k < scs.len() {
        lemma_module_count_prefix(scs, k + 1);
        assert(scs.take(k + 1).drop_last() =~= scs.take(k));
    } else {
        assert(scs.take(k) =~= scs);
    }
}

/// The `i`-th synthetic calibration scenario (0-based): a no-op, enabled,
/// named for the run it measures (the baseline is run 1).
pub open spec fn calibration_scenario_ok(s: Scenario, i: nat) -> bool {
    &&& s.id@ == "calib-"@ + decimal(i)
    &&& s.name@ == "Calibration iteration "@ + decimal(i + 2)
    &&& s.description@ == "No-op -- calibration sample point (fresh CS2 launch)"@
    &&& s.enabled
    &&& s.modules@.len() == 0
}

/// `n` no-op scenarios, one fresh CS2 launch each, for a calibration run
/// that measures run-to-run noise.
pub fn build_fresh_cs2_scenarios(n: u32) -> (r: Vec<Scenario>)
    requires
        n < u32::MAX,
    ensures
        r@.len() == n,
        forall|i: int| 0 <= i < n ==> calibration_scenario_ok(#[trigger] r@[i], i as nat),
{
    let mut out: Vec<Scenario> = Vec::new();
    let mut i: u32 = 0;
    while i < n
        invariant
            i <= n,
            n < u32::MAX,
            out@.len() == i,
            forall|k: int| 0 <= k < i ==> calibration_scenario_ok(#[trigger] out@[k], k as nat),
        decreases n - i,
    {
        let mut id: Vec<char> = Vec::new();
        push_str(&mut id, "calib-");
        let d = decimal_chars(i as u64);
        push_chars(&mut id, &d);
        let mut name: Vec<char> = Vec::new();
        push_str(&mut name, "Calibration iteration ");
        let d2 = decimal_chars(i as u64 + 2);
        push_chars(&mut name, &d2);
        out.push(Scenario {
            id: string_from_chars(&id),
            name: string_from_chars(&name),
            description: "No-op -- calibration sample point (fresh CS2 launch)".to_owned(),
            enabled: true,
            modules: Vec::new(),
        });
        i += 1;
    }
    out
}

/// What a dry run of one scenario did.
#[derive(Clone, Debug)]
pub struct ScenarioOutcome {
    pub id: String,
    pub planned: Vec<String>,
    pub reverted: u32,
    pub verify_failures: Vec<String>,
}

/// What a dry run of a project did.
#[derive(Clone, Debug)]
pub struct DryRunOutcome {
    pub scenarios: Vec<ScenarioOutcome>,
}

impl DryRunOutcome {
    /// Whether every scenario reverted without a verification failure.
    pub fn all_clean(&self) -> (b: bool)
        ensures
            b == forall|i: int| 0 <= i < self.scenarios@.len() ==> (#[trigger] self.scenarios@[i]).verify_failures@.len() == 0,
    {
        let mut i: usize = 0;
        while i < self.scenarios.len()
            invariant
                i <= self.scenarios.len(),
                forall|j: int| 0 <= j < i ==> (#[trigger] self.scenarios@[j]).verify_failures@.len() == 0,
            decreases self.scenarios.len() - i,
        {
            if self.scenarios[i].verify_failures.len() > 0 {
                return false;
            }
            i += 1;
        }
        true
    }
}

} // verus!
