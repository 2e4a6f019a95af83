//! What pre-flight derives from the system's answers: which enabled
//! scenarios would change nothing (their power plan, launch options or
//! registry values are already in place), whether any scenario reboots,
//! and the facts record the evaluator reads.
//!
//! Reading the system is the caller's part; it asks in the order the
//! functions here are listed, so that the first failure it meets is the
//! one reported.

use crate::error::{err_view, Error, ErrorTag};
use crate::keybind_cfg::{strip_reserved, strip_reserved_spec};
use crate::logon::LogonConfig;
use crate::model::{BenchmarkKind, Scenario};
use crate::module::{Module, RegistryPayload};
use crate::preflight::{BitlockerStatus, PreflightFacts};
use crate::registry::{
    payload_value, regkey, regvalue_from_payload, RegKey, RegValue,
    RegValueModel,
};
use crate::text::{chars_eq, chars_of, split_words, str_eq, view_strings, view_words, words};
use vstd::prelude::*;

verus! {

broadcast use vstd::string::group_string_axioms;

// ---------------------------------------------------------------------------
// Power plan and launch options already in place
// ---------------------------------------------------------------------------

pub open spec fn module_sets_plan(m: Module, guid: Seq<char>) -> bool {
    match m {
        Module::PowerPlan(p) => p.plan_guid@ == guid,
        _ => false,
    }
}

/// Whether the scenario has a power-plan module for plan `guid`.
pub open spec fn sets_plan(s: Scenario, guid: Seq<char>) -> bool {
    exists|i: int| 0 <= i < s.modules@.len() && #[trigger] module_sets_plan(s.modules@[i], guid)
}

/// The names of the enabled scenarios that would activate plan `guid`.
pub open spec fn noop_plan_names(scs: Seq<Scenario>, guid: Seq<char>) -> Seq<Seq<char>>
    decreases scs.len(),
{
    if scs.len() == 0 {
        seq![]
    } else if scs.last().enabled && sets_plan(scs.last(), guid) {
        noop_plan_names(scs.drop_last(), guid).push(scs.last().name@)
    } else {
        noop_plan_names(scs.drop_last(), guid)
    }
}

pub open spec fn module_sets_args(m: Module, live: Seq<Seq<char>>) -> bool {
    match m {
        Module::LaunchArgs { args } => words(args@) == live,
        _ => false,
    }
}

/// Whether the scenario has a launch-options module whose words are `live`.
pub open spec fn sets_args(s: Scenario, live: Seq<Seq<char>>) -> bool {
    exists|i: int| 0 <= i < s.modules@.len() && #[trigger] module_sets_args(s.modules@[i], live)
}

/// The names of the enabled scenarios whose launch options are, word for
/// word, `live`.
pub open spec fn noop_args_names(scs: Seq<Scenario>, live: Seq<Seq<char>>) -> Seq<Seq<char>>
    decreases scs.len(),
{
    if scs.len() == 0 {
        seq![]
    } else if scs.last().enabled && sets_args(scs.last(), live) {
        noop_args_names(scs.drop_last(), live).push(scs.last().name@)
    } else {
        noop_args_names(scs.drop_last(), live)
    }
}

/// The words of launch options as the user wrote them: the engine's own
/// reserved tokens left out.
pub open spec fn user_words(launch_options: Seq<char>) -> Seq<Seq<char>> {
    words(strip_reserved_spec(launch_options))
}

fn scenario_sets_plan(s: &Scenario, guid: &str) -> (b: bool)
    ensures
        b == sets_plan(*s, guid@),
{
    let mut i: usize = 0;
    while i < s.modules.len()
        invariant
            i <= s.modules.len(),
            forall|k: int| 0 <= k < i ==> !#[trigger] module_sets_plan(s.modules@[k], guid@),
        decreases s.modules.len() - i,
    {
        match &s.modules[i] {
            Module::PowerPlan(p) => {
                if str_eq(p.plan_guid.as_str(), guid) {
                    assert(module_sets_plan(s.modules@[i as int], guid@));
                    return true;
                }
            },
            _ => {},
        }
        i += 1;
    }
    false
}

fn words_eq(a: &Vec<Vec<char>>, b: &Vec<Vec<char>>) -> (r: bool)
    ensures
        r == (view_words(a@) == view_words(b@)),
{
    if a.len() != b.len() {
        assert(view_words(a@).len() != view_words(b@).len());
        return false;
    }
    let mut i: usize = 0;
    while i < a.len()
        invariant
            i <= a.len(),
            a.len() == b.len(),
            forall|j: int| 0 <= j < i ==> a@[j]@ == b@[j]@,
        decreases a.len() - i,
    {
        if !chars_eq(&a[i], &b[i]) {
            assert(view_words(a@)[i as int] != view_words(b@)[i as int]);
            return false;
        }
        i += 1;
    }
    assert(view_words(a@) =~= view_words(b@));
    true
}

fn scenario_sets_args(s: &Scenario, live: &Vec<Vec<char>>) -> (b: bool)
    ensures
        b == sets_args(*s, view_words(live@)),
{
    let mut i: usize = 0;
    while i < s.modules.len()
        invariant
            i <= s.modules.len(),
            forall|k: int| 0 <= k < i ==> !#[trigger] module_sets_args(s.modules@[k], view_words(live@)),
        decreases s.modules.len() - i,
    {
        match &s.modules[i] {
            Module::LaunchArgs { args } => {
                let ws = split_words(&chars_of(args.as_str()));
                if words_eq(&ws, live) {
                    assert(module_sets_args(s.modules@[i as int], view_words(live@)));
                    return true;
                }
            },
            _ => {},
        }
        i += 1;
    }
    false
}

/// The enabled scenarios that would activate the power plan that is
/// already active (`active_plan_guid`), by name.
pub fn noop_power_plan_scenarios(scenarios: &[Scenario], active_plan_guid: &str) -> (r: Vec<String>)
    ensures
        view_strings(r@) == noop_plan_names(scenarios@, active_plan_guid@),
{
    let mut out: Vec<String> = Vec::new();
    let mut i: usize = 0;
    while i < scenarios.len()
        invariant
            i <= scenarios.len(),
            view_strings(out@) == noop_plan_names(scenarios@.take(i as int), active_plan_guid@),
        decreases scenarios.len() - i,
    {
        assert(scenarios@.take(i + 1).drop_last() =~= scenarios@.take(i as int));
        let s = &scenarios[i];
        if s.enabled && scenario_sets_plan(s, active_plan_guid) {
            let ghost before = out@;
            out.push(s.name.clone());
            assert(view_strings(out@) =~= view_strings(before).push(s.name@));
        }
        i += 1;
    }
    assert(scenarios@.take(i as int) =~= scenarios@);
    out
}

/// The enabled scenarios whose launch options equal, word for word, the
/// current ones (`launch_options`, read raw; the engine's reserved tokens
/// are left out before comparing), by name.
pub fn noop_launch_args_scenarios(scenarios: &[Scenario], launch_options: &str) -> (r: Vec<String>)
    ensures
        view_strings(r@) == noop_args_names(scenarios@, user_words(launch_options@)),
{
    let stripped = strip_reserved(launch_options);
    let live = split_words(&chars_of(stripped.as_str()));
    let mut out: Vec<String> = Vec::new();
    let mut i: usize = 0;
    while i < scenarios.len()
        invariant
            i <= scenarios.len(),
            view_words(live@) == user_words(launch_options@),
            view_strings(out@) == noop_args_names(scenarios@.take(i as int), user_words(launch_options@)),
        decreases scenarios.len() - i,
    {
        assert(scenarios@.take(i + 1).drop_last() =~= scenarios@.take(i as int));
        let s = &scenarios[i];
        if s.enabled && scenario_sets_args(s, &live) {
            let ghost before = out@;
            out.push(s.name.clone());
            assert(view_strings(out@) =~= view_strings(before).push(s.name@));
        }
        i += 1;
    }
    assert(scenarios@.take(i as int) =~= scenarios@);
    out
}

/// Whether an enabled scenario needs a reboot.
pub open spec fn any_reboot(scs: Seq<Scenario>) -> bool {
    exists|i: int| 0 <= i < scs.len() && scs[i].enabled && #[trigger] scs[i].spec_requires_reboot()
}

/// Whether any enabled scenario needs a reboot; the AutoLogon, BitLocker
/// and Secure Boot facts are read only then.
pub fn has_reboot_scenarios(scenarios: &[Scenario]) -> (b: bool)
    ensures
        b == any_reboot(scenarios@),
{
    let mut i: usize = 0;
    while i < scenarios.len()
        invariant
            i <= scenarios.len(),
            forall|k: int| 0 <= k < i ==> !(scenarios@[k].enabled && #[trigger] scenarios@[k].spec_requires_reboot()),
        decreases scenarios.len() - i,
    {
        if scenarios[i].enabled && scenarios[i].requires_reboot() {
            return true;
        }
        i += 1;
    }
    false
}

// ---------------------------------------------------------------------------
// Registry values already in place
// ---------------------------------------------------------------------------

/// The registry modules among `ms`, in order.
pub open spec fn reg_payloads(ms: Seq<Module>) -> Seq<RegistryPayload>
    decreases ms.len(),
{
    if ms.len() == 0 {
        seq![]
    } else {
        match ms.last() {
            Module::Registry(p) => reg_payloads(ms.drop_last()).push(p),
            _ => reg_payloads(ms.drop_last()),
        }
    }
}

/// The registry modules of the enabled scenarios, scenario by scenario:
/// the values pre-flight reads, in the order it reads them.
pub open spec fn enabled_reg_payloads(scs: Seq<Scenario>) -> Seq<RegistryPayload>
    decreases scs.len(),
{
    if scs.len() == 0 {
        seq![]
    } else if scs.last().enabled {
        enabled_reg_payloads(scs.drop_last()) + reg_payloads(scs.last().modules@)
    } else {
        enabled_reg_payloads(scs.drop_last())
    }
}

/// A registry read as plain values: the value, or the error's kind and
/// message.
pub open spec fn live_view(r: Result<RegValue, Error>) -> Result<RegValueModel, (ErrorTag, Seq<char>)> {
    match r {
        Ok(v) => Ok(v.model()),
        Err(e) => Err(err_view(e)),
    }
}

pub open spec fn live_views(v: Seq<Result<RegValue, Error>>) -> Seq<Result<RegValueModel, (ErrorTag, Seq<char>)>> {
    v.map_values(|r: Result<RegValue, Error>| live_view(r))
}

/// For registry modules `ps` and their live values (aligned), whether
/// there is one, whether one needs a reboot, whether every one is already
/// set, and whether every one that needs a reboot is; or the first failure,
/// module by module: the read, then the module's own value.
pub open spec fn reg_flags(
    ps: Seq<RegistryPayload>,
    live: Seq<Result<RegValueModel, (ErrorTag, Seq<char>)>>,
) -> Result<(bool, bool, bool, bool), (ErrorTag, Seq<char>)>
    decreases ps.len(),
{
    if ps.len() == 0 {
        Ok((false, false, true, true))
    } else {
        match reg_flags(ps.drop_last(), live) {
            Err(e) => Err(e),
            Ok((has_reg, has_reboot, all_same, reboot_same)) => {
                let p = ps.last();
                match live[ps.len() - 1] {
                    Err(e) => Err(e),
                    Ok(v) => match payload_value(p.value_type, p.value.model()) {
                        Err(m) => Err((ErrorTag::Msg, m)),
                        Ok(want) => Ok(
                            (
                                true,
                                has_reboot || p.requires_reboot,
                                all_same && v == want,
                                reboot_same && (!p.requires_reboot || v == want),
                            ),
                        ),
                    },
                }
            },
        }
    }
}

/// What one enabled scenario contributes: `(name, true)` when every
/// registry module that needs a reboot is already set (a reboot would be
/// spent for nothing), else `(name, false)` when every registry module is,
/// else nothing.
pub open spec fn scenario_noop(
    name: Seq<char>,
    ps: Seq<RegistryPayload>,
    live: Seq<Result<RegValueModel, (ErrorTag, Seq<char>)>>,
) -> Result<Seq<(Seq<char>, bool)>, (ErrorTag, Seq<char>)> {
    match reg_flags(ps, live) {
        Err(e) => Err(e),
        Ok((has_reg, has_reboot, all_same, reboot_same)) => Ok(
            if has_reboot && reboot_same {
                seq![(name, true)]
            } else if has_reg && all_same {
                seq![(name, false)]
            } else {
                seq![]
            },
        ),
    }
}

/// The registry no-op list for scenarios `scs`, with `live` the values read
/// for [`enabled_reg_payloads`] of the whole project.
pub open spec fn noop_registry(
    scs: Seq<Scenario>,
    live: Seq<Result<RegValueModel, (ErrorTag, Seq<char>)>>,
) -> Result<Seq<(Seq<char>, bool)>, (ErrorTag, Seq<char>)>
    decreases scs.len(),
{
    if scs.len() == 0 {
        Ok(seq![])
    } else {
        match noop_registry(scs.drop_last(), live) {
            Err(e) => Err(e),
            Ok(rest) => if !scs.last().enabled {
                Ok(rest)
            } else {
                let off = enabled_reg_payloads(scs.drop_last()).len() as int;
                let ps = reg_payloads(scs.last().modules@);
                match scenario_noop(scs.last().name@, ps, live.subrange(off, off + ps.len())) {
                    Err(e) => Err(e),
                    Ok(here) => Ok(rest + here),
                }
            },
        }
    }
}

/// The value a registry module would write, when its payload is valid.
pub open spec fn wanted(p: RegistryPayload) -> RegValueModel {
    payload_value(p.value_type, p.value.model())->Ok_0
}

/// When every read succeeded and every module's value is valid, the flags
/// say: there is a registry module; one needs a reboot; every module's
/// live value is the one it would write; every module that needs a reboot
/// has it. So one module already in place never hides another that is
/// not: a scenario is a wasted reboot exactly when each of its reboot
/// modules is already set.
pub proof fn lemma_registry_flags(
    ps: Seq<RegistryPayload>,
    live: Seq<Result<RegValueModel, (ErrorTag, Seq<char>)>>,
)
    requires
        live.len() >= ps.len(),
        forall|k: int| 0 <= k < ps.len() ==> (#[trigger] live[k]) is Ok,
        forall|k: int|
            0 <= k < ps.len() ==> payload_value((#[trigger] ps[k]).value_type, ps[k].value.model()) is Ok,
    ensures
        reg_flags(ps, live) matches Ok((has_reg, has_reboot, all_same, reboot_same)) && {
            &&& has_reg == (ps.len() > 0)
            &&& has_reboot == exists|k: int| 0 <= k < ps.len() && (#[trigger] ps[k]).requires_reboot
            &&& all_same == forall|k: int| 0 <= k < ps.len() ==> live[k]->Ok_0 == wanted(#[trigger] ps[k])
            &&& reboot_same == forall|k: int|
                0 <= k < ps.len() && (#[trigger] ps[k]).requires_reboot ==> live[k]->Ok_0 == wanted(ps[k])
        },
    decreases ps.len(),
{
    if ps.len() > 0 {
        let q = ps.drop_last();
        assert forall|k: int| 0 <= k < q.len() implies payload_value((#[trigger] q[k]).value_type, q[k].value.model()) is Ok by {
            assert(q[k] == ps[k]);
        }
        lemma_registry_flags(q, live);
        let last = ps.len() - 1;
        assert(ps[last] == ps.last());
        assert forall|k: int| 0 <= k < q.len() implies #[trigger] q[k] == ps[k] by {}
        if exists|k: int| 0 <= k < ps.len() && (#[trigger] ps[k]).requires_reboot {
            let k = choose|k: int| 0 <= k < ps.len() && (#[trigger] ps[k]).requires_reboot;
            if k < last {
                assert(q[k].requires_reboot);
            }
        }
        if exists|k: int| 0 <= k < q.len() && (#[trigger] q[k]).requires_reboot {
            let k = choose|k: int| 0 <= k < q.len() && (#[trigger] q[k]).requires_reboot;
            assert(ps[k].requires_reboot);
        }
        if !(forall|k: int| 0 <= k < ps.len() ==> live[k]->Ok_0 == wanted(#[trigger] ps[k])) {
            let k = choose|k: int| !(0 <= k < ps.len() ==> live[k]->Ok_0 == wanted(#[trigger] ps[k]));
            if k < last {
                assert(!(live[k]->Ok_0 == wanted(q[k])));
            }
        }
        if !(forall|k: int| 0 <= k < ps.len() && (#[trigger] ps[k]).requires_reboot ==> live[k]->Ok_0 == wanted(ps[k])) {
            let k = choose|k: int| !(0 <= k < ps.len() && (#[trigger] ps[k]).requires_reboot ==> live[k]->Ok_0 == wanted(ps[k]));
            if k < last {
                assert(q[k].requires_reboot && !(live[k]->Ok_0 == wanted(q[k])));
            }
        }
    }
}

pub open spec fn pairs_view(v: Seq<(String, bool)>) -> Seq<(Seq<char>, bool)> {
    v.map_values(|x: (String, bool)| (x.0@, x.1))
}

proof fn lemma_erp_prefix(scs: Seq<Scenario>, j: int, k: int)
    requires
        0 <= j <= k <= scs.len(),
    ensures
        enabled_reg_payloads(scs.take(j)).len() <= enabled_reg_payloads(scs.take(k)).len(),
        forall|x: int|
            0 <= x < enabled_reg_payloads(scs.take(j)).len() ==> #[trigger] enabled_reg_payloads(
                scs.take(k),
            )[x] == enabled_reg_payloads(scs.take(j))[x],
    decreases k - j,
{
    if j < k {
        lemma_erp_prefix(scs, j, k - 1);
        assert(scs.take(k).drop_last() =~= scs.take(k - 1));
    }
}

proof fn lemma_noop_err_stays(
    scs: Seq<Scenario>,
    live: Seq<Result<RegValueModel, (ErrorTag, Seq<char>)>>,
    j: int,
    k: int,
    e: (ErrorTag, Seq<char>),
)
    requires
        0 <= j <= k <= scs.len(),
        noop_registry(scs.take(j), live) == Err::<Seq<(Seq<char>, bool)>, (ErrorTag, Seq<char>)>(e),
    ensures
        noop_registry(scs.take(k), live) == Err::<Seq<(Seq<char>, bool)>, (ErrorTag, Seq<char>)>(e),
    decreases k - j,
{
    if j < k {
        lemma_noop_err_stays(scs, live, j, k - 1, e);
        assert(scs.take(k).drop_last() =~= scs.take(k - 1));
    }
}

proof fn lemma_flags_err_stays(
    ps: Seq<RegistryPayload>,
    live: Seq<Result<RegValueModel, (ErrorTag, Seq<char>)>>,
    j: int,
    k: int,
    e: (ErrorTag, Seq<char>),
)
    requires
        0 <= j <= k <= ps.len(),
        reg_flags(ps.take(j), live) == Err::<(bool, bool, bool, bool), (ErrorTag, Seq<char>)>(e),
    ensures
        reg_flags(ps.take(k), live) == Err::<(bool, bool, bool, bool), (ErrorTag, Seq<char>)>(e),
    decreases k - j,
{
    if j < k {
        lemma_flags_err_stays(ps, live, j, k - 1, e);
        assert(ps.take(k).drop_last() =~= ps.take(k - 1));
    }
}

pub open spec fn payloads_of(v: Seq<&RegistryPayload>) -> Seq<RegistryPayload> {
    v.map_values(|p: &RegistryPayload| *p)
}

/// The registry modules among `ms`, in order.
fn registry_payloads(ms: &Vec<Module>) -> (r: Vec<&RegistryPayload>)
    ensures
        payloads_of(r@) == reg_payloads(ms@),
{
    let mut out: Vec<&RegistryPayload> = Vec::new();
    let mut i: usize = 0;
    while i < ms.len()
        invariant
            i <= ms.len(),
            payloads_of(out@) == reg_payloads(ms@.take(i as int)),
        decreases ms.len() - i,
    {
        assert(ms@.take(i + 1).drop_last() =~= ms@.take(i as int));
        match &ms[i] {
            Module::Registry(p) => {
                let ghost before = out@;
                out.push(p);
                assert(payloads_of(out@) =~= payloads_of(before).push(*p));
            },
            _ => {},
        }
        i += 1;
    }
    assert(ms@.take(i as int) =~= ms@);
    out
}

/// The registry keys pre-flight reads, in order: one for each registry
/// module of each enabled scenario (see [`enabled_reg_payloads`]).
pub fn registry_reads(scenarios: &[Scenario]) -> (r: Vec<RegKey>)
    ensures
        r@.len() == enabled_reg_payloads(scenarios@).len(),
        forall|i: int|
            0 <= i < r@.len() ==> {
                let p = #[trigger] enabled_reg_payloads(scenarios@)[i];
                r@[i].hive == p.hive && r@[i].subkey@ == p.subkey@ && r@[i].value_name@
                    == p.value_name@
            },
{
    let mut out: Vec<RegKey> = Vec::new();
    let mut i: usize = 0;
    while i < scenarios.len()
        invariant
            i <= scenarios.len(),
            out@.len() == enabled_reg_payloads(scenarios@.take(i as int)).len(),
            forall|x: int|
                0 <= x < out@.len() ==> {
                    let p = #[trigger] enabled_reg_payloads(scenarios@.take(i as int))[x];
                    out@[x].hive == p.hive && out@[x].subkey@ == p.subkey@ && out@[x].value_name@
                        == p.value_name@
                },
        decreases scenarios.len() - i,
    {
        assert(scenarios@.take(i + 1).drop_last() =~= scenarios@.take(i as int));
        let ghost prev = enabled_reg_payloads(scenarios@.take(i as int));
        if scenarios[i].enabled {
            let ps = registry_payloads(&scenarios[i].modules);
            let ghost pv = payloads_of(ps@);
            let ghost base = out@.len();
            let mut k: usize = 0;
            while k < ps.len()
                invariant
                    k <= ps.len(),
                    pv == payloads_of(ps@),
                    base == prev.len(),
                    out@.len() == base + k,
                    forall|x: int|
                        0 <= x < base ==> {
                            let p = #[trigger] prev[x];
                            out@[x].hive == p.hive && out@[x].subkey@ == p.subkey@
                                && out@[x].value_name@ == p.value_name@
                        },
                    forall|x: int|
                        0 <= x < k ==> {
                            let p = #[trigger] pv[x];
                            out@[base + x].hive == p.hive && out@[base + x].subkey@ == p.subkey@
                                && out@[base + x].value_name@ == p.value_name@
                        },
                decreases ps.len() - k,
            {
                out.push(regkey(ps[k]));
                k += 1;
            }
            let ghost now = enabled_reg_payloads(scenarios@.take(i + 1));
            assert(now =~= prev + pv);
            assert forall|x: int| 0 <= x < out@.len() implies {
                let p = #[trigger] now[x];
                out@[x].hive == p.hive && out@[x].subkey@ == p.subkey@ && out@[x].value_name@
                    == p.value_name@
            } by {
                if x < base {
                    assert(now[x] == prev[x]);
                } else {
                    assert(now[x] == pv[x - base]);
                }
            }
        }
        i += 1;
    }
    assert(scenarios@.take(i as int) =~= scenarios@);
    out
}

fn bytes_eq(a: &Vec<u8>, b: &Vec<u8>) -> (r: bool)
    ensures
        r == (a@ == b@),
{
    if a.len() != b.len() {
        return false;
    }
    let mut i: usize = 0;
    while i < a.len()
        invariant
            i <= a.len(),
            a.len() == b.len(),
            forall|j: int| 0 <= j < i ==> a@[j] == b@[j],
        decreases a.len() - i,
    {
        if a[i] != b[i] {
            return false;
        }
        i += 1;
    }
    assert(a@ =~= b@);
    true
}

fn strings_eq(a: &Vec<String>, b: &Vec<String>) -> (r: bool)
    ensures
        r == (view_strings(a@) == view_strings(b@)),
{
    if a.len() != b.len() {
        assert(view_strings(a@).len() != view_strings(b@).len());
        return false;
    }
    let mut i: usize = 0;
    while i < a.len()
        invariant
            i <= a.len(),
            a.len() == b.len(),
            forall|j: int| 0 <= j < i ==> a@[j]@ == b@[j]@,
        decreases a.len() - i,
    {
        if !str_eq(a[i].as_str(), b[i].as_str()) {
            assert(view_strings(a@)[i as int] != view_strings(b@)[i as int]);
            return false;
        }
        i += 1;
    }
    assert(view_strings(a@) =~= view_strings(b@));
    true
}

/// Whether two registry values are the same.
pub fn reg_value_eq(a: &RegValue, b: &RegValue) -> (r: bool)
    ensures
        r == (a.model() == b.model()),
{
    match (a, b) {
        (RegValue::Dword(x), RegValue::Dword(y)) => *x == *y,
        (RegValue::Qword(x), RegValue::Qword(y)) => *x == *y,
        (RegValue::Sz(x), RegValue::Sz(y)) => str_eq(x.as_str(), y.as_str()),
        (RegValue::ExpandSz(x), RegValue::ExpandSz(y)) => str_eq(x.as_str(), y.as_str()),
        (RegValue::Binary(x), RegValue::Binary(y)) => bytes_eq(x, y),
        (RegValue::MultiSz(x), RegValue::MultiSz(y)) => strings_eq(x, y),
        (RegValue::Absent, RegValue::Absent) => true,
        _ => false,
    }
}

/// The live values the last `len` entries of `rev` hold, last entry
/// first.
pub open spec fn reversed_live(rev: Seq<Result<RegValue, Error>>, len: int) -> Seq<
    Result<RegValueModel, (ErrorTag, Seq<char>)>,
> {
    Seq::new(len as nat, |k: int| live_view(rev[rev.len() - 1 - k]))
}

/// Takes the live values of registry modules `ps` off the end of `rev`
/// (the first module's value last) and folds them as [`reg_flags`] does.
fn scan_modules(ps: &Vec<&RegistryPayload>, rev: &mut Vec<Result<RegValue, Error>>) -> (r: Result<
    (bool, bool, bool, bool),
    Error,
>)
    requires
        old(rev)@.len() >= ps@.len(),
    ensures
        r matches Ok(f) ==> reg_flags(
            payloads_of(ps@),
            reversed_live(old(rev)@, ps@.len() as int),
        ) == Ok::<(bool, bool, bool, bool), (ErrorTag, Seq<char>)>(f),
        r is Ok ==> final(rev)@ == old(rev)@.take(old(rev)@.len() - ps@.len()),
        r matches Err(e) ==> reg_flags(
            payloads_of(ps@),
            reversed_live(old(rev)@, ps@.len() as int),
        ) == Err::<(bool, bool, bool, bool), (ErrorTag, Seq<char>)>(err_view(e)),
{
    let ghost pv = payloads_of(ps@);
    let ghost l = reversed_live(old(rev)@, ps@.len() as int);
    let ghost o = old(rev)@;
    let mut has_reg = false;
    let mut has_reboot = false;
    let mut all_same = true;
    let mut reboot_same = true;
    let mut k: usize = 0;
    while k < ps.len()
        invariant
            k <= ps.len(),
            pv == payloads_of(ps@),
            l == reversed_live(o, ps@.len() as int),
            o == old(rev)@,
            o.len() >= ps@.len(),
            rev@ == o.take(o.len() - k),
            reg_flags(pv.take(k as int), l) == Ok::<(bool, bool, bool, bool), (ErrorTag, Seq<char>)>(
                (has_reg, has_reboot, all_same, reboot_same),
            ),
        decreases ps.len() - k,
    {
        let p = ps[k];
        assert(pv.take(k + 1).drop_last() =~= pv.take(k as int));
        assert(pv.take(k + 1).last() == *p);
        let got = rev.pop().unwrap();
        assert(rev@ =~= o.take(o.len() - (k + 1)));
        assert(l[k as int] == live_view(got));
        match got {
            Err(e) => {
                assert(reg_flags(pv.take(k + 1), l) == Err::<(bool, bool, bool, bool), (ErrorTag, Seq<char>)>(err_view(e)));
                proof {
                    lemma_flags_err_stays(pv, l, k + 1, pv.len() as int, err_view(e));
                    assert(pv.take(pv.len() as int) =~= pv);
                }
                assert(reg_flags(pv, l) == Err::<(bool, bool, bool, bool), (ErrorTag, Seq<char>)>(err_view(e)));
                return Err(e);
            },
            Ok(v) => {
                match regvalue_from_payload(p) {
                    Err(e) => {
                        assert(reg_flags(pv.take(k + 1), l) == Err::<(bool, bool, bool, bool), (ErrorTag, Seq<char>)>(err_view(e)));
                        proof {
                            lemma_flags_err_stays(pv, l, k + 1, pv.len() as int, err_view(e));
                            assert(pv.take(pv.len() as int) =~= pv);
                        }
                        assert(reg_flags(pv, l) == Err::<(bool, bool, bool, bool), (ErrorTag, Seq<char>)>(err_view(e)));
                        return Err(e);
                    },
                    Ok(want) => {
                        let same = reg_value_eq(&v, &want);
                        has_reg = true;
                        has_reboot = has_reboot || p.requires_reboot;
                        all_same = all_same && same;
                        reboot_same = reboot_same && (!p.requires_reboot || same);
                    },
                }
            },
        }
        k += 1;
    }
    assert(pv.take(k as int) =~= pv);
    Ok((has_reg, has_reboot, all_same, reboot_same))
}

/// The enabled scenarios whose registry modules are already set on the
/// machine, as `(name, would spend a reboot)`; see [`scenario_noop`].
/// `live` holds what was read for each key of [`registry_reads`], in that
/// order; the first failure, module by module (its read, then its own
/// value), is returned.
pub fn noop_registry_scenarios(scenarios: &[Scenario], live: Vec<Result<RegValue, Error>>) -> (r:
    Result<Vec<(String, bool)>, Error>)
    requires
        live@.len() == enabled_reg_payloads(scenarios@).len(),
    ensures
        match r {
            Ok(v) => noop_registry(scenarios@, live_views(live@)) == Ok::<
                Seq<(Seq<char>, bool)>,
                (ErrorTag, Seq<char>),
            >(pairs_view(v@)),
            Err(e) => noop_registry(scenarios@, live_views(live@)) == Err::<
                Seq<(Seq<char>, bool)>,
                (ErrorTag, Seq<char>),
            >(err_view(e)),
        },
{
    let ghost all = enabled_reg_payloads(scenarios@);
    let ghost lv = live_views(live@);
    let ghost orig = live@;
    let ghost n = orig.len();
    let mut rev = reversed(live);
    let total = rev.len();
    assert(total == n);
    let mut out: Vec<(String, bool)> = Vec::new();
    let mut pos: usize = 0;
    let mut i: usize = 0;
    assert(scenarios@.take(0) =~= Seq::<Scenario>::empty());
    assert(pairs_view(out@) =~= Seq::<(Seq<char>, bool)>::empty());
    while i < scenarios.len()
        invariant
            i <= scenarios.len(),
            all == enabled_reg_payloads(scenarios@),
            orig == live@,
            lv == live_views(orig),
            orig.len() == n,
            n == all.len(),
            n == total,
            pos == enabled_reg_payloads(scenarios@.take(i as int)).len(),
            pos <= n,
            rev@.len() == n - pos,
            forall|k: int| 0 <= k < rev@.len() ==> #[trigger] rev@[k] == orig[n - 1 - k],
            noop_registry(scenarios@.take(i as int), lv) == Ok::<
                Seq<(Seq<char>, bool)>,
                (ErrorTag, Seq<char>),
            >(pairs_view(out@)),
        decreases scenarios.len() - i,
    {
        let ghost prefix = scenarios@.take(i as int);
        let ghost next = scenarios@.take(i + 1);
        assert(next.drop_last() =~= prefix);
        assert(next.last() == scenarios@[i as int]);
        proof {
            lemma_erp_prefix(scenarios@, i + 1, scenarios@.len() as int);
            assert(scenarios@.take(scenarios@.len() as int) =~= scenarios@);
        }
        let s = &scenarios[i];
        if s.enabled {
            let ps = registry_payloads(&s.modules);
            let ghost pv = payloads_of(ps@);
            let ghost slice = lv.subrange(pos as int, pos + pv.len());
            let ghost rev0 = rev@;
            assert(enabled_reg_payloads(next) =~= enabled_reg_payloads(prefix) + pv);
            assert(pos + pv.len() <= n);
            assert(reversed_live(rev0, ps@.len() as int) =~= slice) by {
                assert forall|k: int| 0 <= k < ps@.len() implies #[trigger] reversed_live(
                    rev0,
                    ps@.len() as int,
                )[k] == slice[k] by {
                    assert(rev0[rev0.len() - 1 - k] == orig[pos + k]);
                }
            }
            let ghost here_view = scenario_noop(s.name@, pv, slice);
            match scan_modules(&ps, &mut rev) {
                Err(e) => {
                    assert(noop_registry(next, lv) == Err::<
                        Seq<(Seq<char>, bool)>,
                        (ErrorTag, Seq<char>),
                    >(err_view(e)));
                    proof {
                        lemma_noop_err_stays(
                            scenarios@,
                            lv,
                            i + 1,
                            scenarios@.len() as int,
                            err_view(e),
                        );
                    }
                    return Err(e);
                },
                Ok((has_reg, has_reboot, all_same, reboot_same)) => {
                    let ghost before = out@;
                    if has_reboot && reboot_same {
                        out.push((s.name.clone(), true));
                        assert(pairs_view(out@) =~= pairs_view(before) + seq![(s.name@, true)]);
                    } else if has_reg && all_same {
                        out.push((s.name.clone(), false));
                        assert(pairs_view(out@) =~= pairs_view(before) + seq![(s.name@, false)]);
                    } else {
                        assert(pairs_view(out@) =~= pairs_view(before) + Seq::<
                            (Seq<char>, bool),
                        >::empty());
                    }
                    assert(rev@ =~= rev0.take(rev0.len() - ps@.len()));
                    assert(pv.len() == ps@.len());
                    pos = pos + ps.len();
                },
            }
        } else {
            assert(enabled_reg_payloads(next) =~= enabled_reg_payloads(prefix));
        }
        i += 1;
    }
    assert(scenarios@.take(i as int) =~= scenarios@);
    Ok(out)
}

/// `v` back to front.
fn reversed(v: Vec<Result<RegValue, Error>>) -> (r: Vec<Result<RegValue, Error>>)
    ensures
        r@.len() == v@.len(),
        forall|k: int| 0 <= k < r@.len() ==> #[trigger] r@[k] == v@[v@.len() - 1 - k],
{
    let ghost orig = v@;
    let mut src = v;
    let mut out: Vec<Result<RegValue, Error>> = Vec::new();
    while src.len() > 0
        invariant
            src@.len() + out@.len() == orig.len(),
            forall|k: int| 0 <= k < src@.len() ==> #[trigger] src@[k] == orig[k],
            forall|k: int| 0 <= k < out@.len() ==> #[trigger] out@[k] == orig[orig.len() - 1 - k],
        decreases src.len(),
    {
        let x = src.pop().unwrap();
        out.push(x);
    }
    out
}

// ---------------------------------------------------------------------------
// The facts record
// ---------------------------------------------------------------------------

/// What pre-flight asked the system, as plain values.
#[derive(Clone, Debug)]
pub struct SystemAnswers {
    pub steam_running: bool,
    pub steam_elevated: bool,
    /// CS2's app manifest when there is one: its build id and its state
    /// flags, each when present.
    pub manifest: Option<(Option<String>, Option<u32>)>,
    pub free_disk_bytes: u64,
    /// The GUID of the active power plan.
    pub active_plan_guid: String,
    /// CS2's launch options as stored (reserved tokens included).
    pub launch_options: String,
    /// Read only when [`has_reboot_scenarios`] holds.
    pub logon: Option<LogonConfig>,
    /// Read only when [`has_reboot_scenarios`] holds; `Unknown` when the
    /// query failed.
    pub bitlocker: Option<BitlockerStatus>,
    /// Read only when [`has_reboot_scenarios`] holds.
    pub secure_boot: Option<Option<bool>>,
    /// Read only for the Dust2 workshop benchmark: whether its map is
    /// installed.
    pub workshop_installed: Option<bool>,
}

/// What the pre-flight facts say, from the system's answers: every fact
/// of [`gather_facts`] but the registry no-ops.
pub open spec fn facts_from_answers(
    f: PreflightFacts,
    answers: SystemAnswers,
    last_known_build_id: Option<Seq<char>>,
    min_free_bytes: u64,
    scenarios: Seq<Scenario>,
    benchmark_kind: BenchmarkKind,
) -> bool {
    &&& f.steam_running == answers.steam_running
    &&& f.steam_logged_in == answers.steam_running
    &&& f.steam_elevated == answers.steam_elevated
    &&& f.cs2_state_flags == match answers.manifest {
            Some((_, Some(flags))) => flags,
            _ => 0u32,
        }
    &&& f.cs2_installed == (f.cs2_state_flags != 0)
    &&& f.cs2_build_id == match answers.manifest {
            Some((b, _)) => b,
            None => None,
        }
    &&& match last_known_build_id {
            Some(b) => f.last_known_build_id matches Some(x) && x@ == b,
            None => f.last_known_build_id is None,
        }
    &&& !f.stale_etw_session
    &&& f.free_disk_bytes == answers.free_disk_bytes
    &&& f.min_free_bytes == min_free_bytes
    &&& view_strings(f.noop_power_plan_scenarios@) == noop_plan_names(
            scenarios,
            answers.active_plan_guid@,
        )
    &&& view_strings(f.noop_launch_args_scenarios@) == noop_args_names(
            scenarios,
            user_words(answers.launch_options@),
        )
    &&& f.has_reboot_scenarios == any_reboot(scenarios)
    &&& f.logon == if any_reboot(scenarios) {
            answers.logon
        } else {
            None
        }
    &&& f.bitlocker == if any_reboot(scenarios) {
            answers.bitlocker
        } else {
            None
        }
    &&& f.secure_boot == if any_reboot(scenarios) {
            answers.secure_boot
        } else {
            None
        }
    &&& f.workshop_map_subscribed == match benchmark_kind {
            BenchmarkKind::WorkshopDust2 => answers.workshop_installed,
            BenchmarkKind::AveYoCfgV2 => None,
        }
    &&& f.sleep_inhibited
}

/// The pre-flight facts from the system's answers: Steam counts as logged
/// in when it runs, CS2 as installed when its state flags are non-zero
/// (0 without a manifest), the reboot-only facts only for a project with
/// reboot scenarios, the workshop map only for the Dust2 benchmark; no
/// stale ETW session is tracked, and sleep is inhibited by the run itself.
pub fn gather_facts(
    answers: SystemAnswers,
    noop_registry_scenarios: Vec<(String, bool)>,
    last_known_build_id: Option<&str>,
    min_free_bytes: u64,
    scenarios: &[Scenario],
    benchmark_kind: BenchmarkKind,
) -> (f: PreflightFacts)
    ensures
        facts_from_answers(
            f,
            answers,
            match last_known_build_id {
                Some(b) => Some(b@),
                None => None,
            },
            min_free_bytes,
            scenarios@,
            benchmark_kind,
        ),
        f.noop_registry_scenarios == noop_registry_scenarios,
{
    let noop_plans = noop_power_plan_scenarios(scenarios, answers.active_plan_guid.as_str());
    let noop_args = noop_launch_args_scenarios(scenarios, answers.launch_options.as_str());
    let reboot = has_reboot_scenarios(scenarios);
    let (build_id, state_flags) = match answers.manifest {
        Some((b, flags)) => (
            b,
            match flags {
                Some(x) => x,
                None => 0,
            },
        ),
        None => (None, 0),
    };
    let (logon, bitlocker, secure_boot) = if reboot {
        (answers.logon, answers.bitlocker, answers.secure_boot)
    } else {
        (None, None, None)
    };
    PreflightFacts {
        steam_running: answers.steam_running,
        steam_logged_in: answers.steam_running,
        steam_elevated: answers.steam_elevated,
        cs2_installed: state_flags != 0,
        cs2_state_flags: state_flags,
        workshop_map_subscribed: match benchmark_kind {
            BenchmarkKind::WorkshopDust2 => answers.workshop_installed,
            BenchmarkKind::AveYoCfgV2 => None,
        },
        cs2_build_id: build_id,
        last_known_build_id: match last_known_build_id {
            Some(b) => Some(b.to_owned()),
            None => None,
        },
        stale_etw_session: false,
        free_disk_bytes: answers.free_disk_bytes,
        min_free_bytes,
        noop_power_plan_scenarios: noop_plans,
        noop_launch_args_scenarios: noop_args,
        has_reboot_scenarios: reboot,
        logon,
        bitlocker,
        secure_boot,
        noop_registry_scenarios,
        sleep_inhibited: true,
    }
}

/// The pre-flight facts from the system's answers and the live values of
/// the enabled scenarios' registry modules (one read per module, in the
/// order of [`registry_reads`]): the registry no-ops of
/// [`noop_registry_scenarios`], whose error (a failed read, or a payload
/// that does not encode) is the error here, with every other fact of
/// [`gather_facts`].
pub fn preflight_facts(
    answers: SystemAnswers,
    live: Vec<Result<RegValue, Error>>,
    last_known_build_id: Option<&str>,
    min_free_bytes: u64,
    scenarios: &[Scenario],
    benchmark_kind: BenchmarkKind,
) -> (r: Result<PreflightFacts, Error>)
    requires
        live@.len() == enabled_reg_payloads(scenarios@).len(),
    ensures
        match r {
            Ok(f) => noop_registry(scenarios@, live_views(live@)) == Ok::<
                Seq<(Seq<char>, bool)>,
                (ErrorTag, Seq<char>),
            >(pairs_view(f.noop_registry_scenarios@)) && facts_from_answers(
                f,
                answers,
                match last_known_build_id {
                    Some(b) => Some(b@),
                    None => None,
                },
                min_free_bytes,
                scenarios@,
                benchmark_kind,
            ),
            Err(e) => noop_registry(scenarios@, live_views(live@)) == Err::<
                Seq<(Seq<char>, bool)>,
                (ErrorTag, Seq<char>),
            >(err_view(e)),
        },
{
    match noop_registry_scenarios(scenarios, live) {
        Ok(noop) => Ok(gather_facts(answers, noop, last_known_build_id, min_free_bytes, scenarios, benchmark_kind)),
        Err(e) => Err(e),
    }
}

} // verus!
