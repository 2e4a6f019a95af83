//! Recovery after a crash or an unplanned reboot: which project a run
//! belongs to, and whether a run is still alive (its heartbeat is fresh).

use crate::error::{err_msg, err_view, msg_view, Error};
use crate::journal::RevertReport;
use crate::model::{valid_id, validate_id_segment};
use crate::text::{push_str, string_from_chars};
use vstd::prelude::*;

verus! {

broadcast use vstd::string::group_string_axioms;

pub const HEARTBEAT_FILE: &'static str = "heartbeat";
pub const RECOVERED_MARKER: &'static str = "recovered.json";
/// A heartbeat younger than this many seconds means the run is alive.
pub const HEARTBEAT_FRESH_SECS: u64 = 120;

/// What a recovery did.
#[derive(Clone, Debug)]
pub struct RecoverReport {
    pub run_id: String,
    pub reverted: u32,
    pub verify_failures: Vec<String>,
    pub skipped_fresh_heartbeat: bool,
}

impl RecoverReport {
    /// A recovery that has done nothing yet.
    pub fn started(run_id: String) -> (r: Self)
        ensures
            r.run_id == run_id,
            r.reverted == 0,
            r.verify_failures@.len() == 0,
            !r.skipped_fresh_heartbeat,
    {
        RecoverReport { run_id, reverted: 0, verify_failures: Vec::new(), skipped_fresh_heartbeat: false }
    }

    /// A recovery that left the run alone: its heartbeat is fresh.
    pub fn skipped(run_id: String) -> (r: Self)
        ensures
            r.run_id == run_id,
            r.reverted == 0,
            r.verify_failures@.len() == 0,
            r.skipped_fresh_heartbeat,
    {
        RecoverReport { run_id, reverted: 0, verify_failures: Vec::new(), skipped_fresh_heartbeat: true }
    }

    /// Adds what replaying one journal did.
    pub fn absorb(&mut self, replay: RevertReport)
        requires
            old(self).reverted + replay.reverted <= u32::MAX,
        ensures
            final(self).run_id == old(self).run_id,
            final(self).skipped_fresh_heartbeat == old(self).skipped_fresh_heartbeat,
            final(self).reverted == old(self).reverted + replay.reverted,
            final(self).verify_failures@ == old(self).verify_failures@ + replay.verify_failures@,
    {
        self.reverted = self.reverted + replay.reverted;
        let mut more = replay.verify_failures;
        self.verify_failures.append(&mut more);
    }

    /// Reports that a step failed: `<what> failed: <error>`.
    pub fn note_failure(&mut self, what: &str, error: &str)
        ensures
            final(self).run_id == old(self).run_id,
            final(self).skipped_fresh_heartbeat == old(self).skipped_fresh_heartbeat,
            final(self).reverted == old(self).reverted,
            final(self).verify_failures@.len() == old(self).verify_failures@.len() + 1,
            final(self).verify_failures@.drop_last() == old(self).verify_failures@,
            final(self).verify_failures@.last()@ == what@ + " failed: "@ + error@,
    {
        let mut out: Vec<char> = Vec::new();
        push_str(&mut out, what);
        push_str(&mut out, " failed: ");
        push_str(&mut out, error);
        self.verify_failures.push(string_from_chars(&out));
        assert(self.verify_failures@.drop_last() =~= old(self).verify_failures@);
    }
}

/// The run to recover: the one the state file names, else the most recent
/// run that still has a progress file.
pub fn choose_run_id(from_state: Option<String>, most_recent: Option<String>) -> (r: Result<String, Error>)
    ensures
        match r {
            Ok(id) => match from_state {
                Some(s) => id@ == s@,
                None => most_recent matches Some(m) && id@ == m@,
            },
            Err(e) => from_state is None && most_recent is None && err_view(e) == msg_view(
                "no run to recover"@,
            ),
        },
{
    match from_state {
        Some(s) => Ok(s),
        None => match most_recent {
            Some(m) => Ok(m),
            None => Err(err_msg("no run to recover")),
        },
    }
}

/// Whether entry `i` of `runs` (modification time, run id) is the one
/// recovery picks: the latest time, the first listed among equals.
pub open spec fn is_latest(runs: Seq<(u128, String)>, i: int) -> bool {
    &&& 0 <= i < runs.len()
    &&& forall|j: int| 0 <= j < i ==> #[trigger] runs[j].0 < runs[i].0
    &&& forall|j: int| i < j < runs.len() ==> #[trigger] runs[j].0 <= runs[i].0
}

/// The most recently modified run among `runs` (modification time, run
/// id), the first listed among equal times; `None` for no runs.
pub fn latest_run(runs: &Vec<(u128, String)>) -> (r: Option<String>)
    ensures
        match r {
            Some(id) => exists|i: int| is_latest(runs@, i) && id@ == runs@[i].1@,
            None => runs@.len() == 0,
        },
{
    if runs.len() == 0 {
        return None;
    }
    let mut best: usize = 0;
    let mut i: usize = 1;
    while i < runs.len()
        invariant
            1 <= i <= runs.len(),
            best < i,
            forall|j: int| 0 <= j < best ==> #[trigger] runs@[j].0 < runs@[best as int].0,
            forall|j: int| best < j < i ==> #[trigger] runs@[j].0 <= runs@[best as int].0,
        decreases runs.len() - i,
    {
        if runs[i].0 > runs[best].0 {
            best = i;
        }
        i += 1;
    }
    assert(is_latest(runs@, best as int));
    Some(runs[best].1.clone())
}

/// Whether a heartbeat of the given age (whole seconds since it was
/// written; `None` when it is missing, unreadable or in the future) shows
/// a live run: younger than two minutes.
pub fn heartbeat_age_is_fresh(age_secs: Option<u64>) -> (b: bool)
    ensures
        b == (age_secs matches Some(a) && a < 120),
{
    match age_secs {
        Some(a) => a < HEARTBEAT_FRESH_SECS,
        None => false,
    }
}

/// The project a run belongs to: the id its progress file names, else the
/// one its results file names; `None` when neither is readable or the id
/// is not a safe path segment.
pub open spec fn run_project_id(progress_project_id: Option<Seq<char>>, results_project_id: Option<Seq<char>>) -> Option<Seq<char>> {
    let id = match progress_project_id {
        Some(p) => Some(p),
        None => results_project_id,
    };
    match id {
        Some(i) => if valid_id(i) {
            Some(i)
        } else {
            None
        },
        None => None,
    }
}

/// Picks the project id for a run from what its progress and results
/// files name (see [`run_project_id`]).
pub fn project_id_for_run(progress_project_id: Option<String>, results_project_id: Option<String>) -> (r: Option<String>)
    ensures
        match r {
            Some(i) => run_project_id(
                match progress_project_id { Some(p) => Some(p@), None => None },
                match results_project_id { Some(p) => Some(p@), None => None },
            ) == Some(i@),
            None => run_project_id(
                match progress_project_id { Some(p) => Some(p@), None => None },
                match results_project_id { Some(p) => Some(p@), None => None },
            ) is None,
        },
{
    let id = match progress_project_id {
        Some(p) => p,
        None => match results_project_id {
            Some(r) => r,
            None => return None,
        },
    };
    match validate_id_segment(id.as_str()) {
        Ok(()) => Some(id),
        Err(_) => None,
    }
}

} // verus!
