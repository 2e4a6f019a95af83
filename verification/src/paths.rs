//! The data directory layout, and reading the instance lock.

use crate::model::joined_path;
use crate::model::tool_path_under;
use vstd::prelude::*;

verus! {

broadcast use vstd::string::group_string_axioms;

/// The root of VOIDFRAME's data directory; every other location is a
/// fixed child of it.
#[derive(Clone, Debug)]
pub struct DataRoot(pub String);

impl DataRoot {
    pub open spec fn base(&self) -> Seq<char> {
        self.0@
    }

    /// The root itself.
    pub fn path(&self) -> (r: &str)
        ensures
            r@ == self.base(),
    {
        self.0.as_str()
    }

    /// `projects`
    pub fn projects_dir(&self) -> (r: String)
        ensures
            r@ == joined_path(self.base(), "projects"@),
    {
        tool_path_under(self.0.as_str(), "projects")
    }

    /// `runs`
    pub fn runs_dir(&self) -> (r: String)
        ensures
            r@ == joined_path(self.base(), "runs"@),
    {
        tool_path_under(self.0.as_str(), "runs")
    }

    /// `runs\<run_id>`
    pub fn run_dir(&self, run_id: &str) -> (r: String)
        ensures
            r@ == joined_path(joined_path(self.base(), "runs"@), run_id@),
    {
        let runs = self.runs_dir();
        tool_path_under(runs.as_str(), run_id)
    }

    /// `state`
    pub fn state_dir(&self) -> (r: String)
        ensures
            r@ == joined_path(self.base(), "state"@),
    {
        tool_path_under(self.0.as_str(), "state")
    }

    /// `logs`
    pub fn logs_dir(&self) -> (r: String)
        ensures
            r@ == joined_path(self.base(), "logs"@),
    {
        tool_path_under(self.0.as_str(), "logs")
    }

    /// `config.json`
    pub fn config_path(&self) -> (r: String)
        ensures
            r@ == joined_path(self.base(), "config.json"@),
    {
        tool_path_under(self.0.as_str(), "config.json")
    }
}

/// The process id an instance lock file names: its text, trimmed of
/// whitespace, as a decimal `u32` (`str::parse`, so a leading `+` is
/// accepted); `None` for anything else.
pub open spec fn lock_pid_of(text: Seq<char>) -> Option<u32> {
    let t = crate::text::trim_ws(text);
    let d = if t.len() > 0 && t[0] == '+' {
        t.drop_first()
    } else {
        t
    };
    if d.len() > 0 && crate::results::all_digits(d) && crate::results::digits_value(d) <= u32::MAX {
        Some(crate::results::digits_value(d) as u32)
    } else {
        None
    }
}

/// Reads the process id out of an instance lock file's text.
pub fn lock_pid(text: &str) -> (r: Option<u32>)
    ensures
        r == lock_pid_of(text@),
{
    let cs = crate::text::chars_of(text);
    let t = crate::text::trim_ws_chars(&cs);
    let start: usize = if t.len() > 0 && t[0] == '+' {
        1
    } else {
        0
    };
    let ghost d = t@.skip(start as int);
    assert(d =~= (if t@.len() > 0 && t@[0] == '+' {
        t@.drop_first()
    } else {
        t@
    }));
    if start == t.len() {
        return None;
    }
    let mut val: u64 = 0;
    let mut k: usize = start;
    while k < t.len()
        invariant
            start <= k <= t.len(),
            start < t.len(),
            d == t@.skip(start as int),
            t@ == crate::text::trim_ws(text@),
            lock_pid_of(text@) == (if crate::results::all_digits(d) && crate::results::digits_value(d) <= u32::MAX {
                Some(crate::results::digits_value(d) as u32)
            } else {
                None
            }),
            crate::results::all_digits(d.take(k - start)),
            val as int == crate::results::digits_value(d.take(k - start)),
            val <= u32::MAX,
        decreases t.len() - k,
    {
        let ghost prev = d.take(k - start);
        let ghost next = d.take(k - start + 1);
        assert(next.drop_last() =~= prev);
        assert(next.last() == t@[k as int]);
        let c = t[k];
        if !('0' <= c && c <= '9') {
            assert(d[k - start] == c);
            return None;
        }
        assert(crate::results::all_digits(next)) by {
            assert forall|i: int| 0 <= i < next.len() implies crate::results::is_digit(#[trigger] next[i]) by {
                if i < next.len() - 1 {
                    assert(next[i] == prev[i]);
                }
            }
        }
        val = val * 10 + (c as u64 - 48);
        if val > 4294967295 {
            proof {
                lemma_digits_prefix_le(d, k - start + 1);
            }
            return None;
        }
        k += 1;
    }
    assert(d.take(k - start) =~= d);
    Some(val as u32)
}

proof fn lemma_digits_prefix_le(cs: Seq<char>, k: int)
    requires
        0 <= k <= cs.len(),
        crate::results::all_digits(cs.take(k)),
    ensures
        crate::results::all_digits(cs) ==> crate::results::digits_value(cs.take(k)) <= crate::results::digits_value(cs),
    decreases cs.len() - k,
{
    if k < cs.len() {
        if crate::results::all_digits(cs) {
            let t = cs.take(k + 1);
            assert(t.drop_last() =~= cs.take(k));
            assert(crate::results::is_digit(cs[k]));
            assert(t.last() == cs[k]);
            assert(crate::results::all_digits(t)) by {
                assert forall|i: int| 0 <= i < t.len() implies crate::results::is_digit(#[trigger] t[i]) by {
                    assert(t[i] == cs[i]);
                }
            }
            assert(crate::results::digits_value(cs.take(k)) >= 0) by {
                crate::results::lemma_digits_value_bounds(cs.take(k));
            }
            lemma_digits_prefix_le(cs, k + 1);
        }
    } else {
        assert(cs.take(k) =~= cs);
    }
}

} // verus!
