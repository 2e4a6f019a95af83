//! The conflict check on a scenario's modules: no two registry modules may
//! target the same value, and a kind marked singleton may appear only once.

use crate::error::{Error, ErrorKind};
use crate::module::Module;
use crate::text::{push_str, string_from_chars, view_strings};
use vstd::prelude::*;

verus! {

broadcast use vstd::string::group_string_axioms;

/// Module `j` targets a registry value an earlier module targets too.
pub open spec fn repeats_target(ms: Seq<Module>, j: int) -> bool {
    ms[j].spec_registry_target() is Some && exists|i: int|
        0 <= i < j && #[trigger] ms[i].spec_registry_target() == ms[j].spec_registry_target()
}

/// Module `j` is of a singleton kind an earlier module has too.
pub open spec fn repeats_singleton(ms: Seq<Module>, singles: Seq<Seq<char>>, j: int) -> bool {
    singles.contains(ms[j].spec_kind()) && exists|i: int|
        0 <= i < j && #[trigger] ms[i].spec_kind() == ms[j].spec_kind()
}

/// The first module from `j` on that repeats a registry target.
pub open spec fn first_repeated_target(ms: Seq<Module>, j: int) -> Option<int>
    decreases ms.len() - j,
{
    if j < 0 || j >= ms.len() {
        None
    } else if repeats_target(ms, j) {
        Some(j)
    } else {
        first_repeated_target(ms, j + 1)
    }
}

/// The first module from `j` on that repeats a singleton kind.
pub open spec fn first_repeated_singleton(ms: Seq<Module>, singles: Seq<Seq<char>>, j: int) -> Option<int>
    decreases ms.len() - j,
{
    if j < 0 || j >= ms.len() {
        None
    } else if repeats_singleton(ms, singles, j) {
        Some(j)
    } else {
        first_repeated_singleton(ms, singles, j + 1)
    }
}

/// The conflict message for a scenario's modules, if there is a conflict.
pub open spec fn conflict_message(ms: Seq<Module>, singles: Seq<Seq<char>>) -> Option<Seq<char>> {
    match first_repeated_target(ms, 0) {
        Some(j) => Some("two modules target "@ + ms[j].spec_registry_target()->0),
        None => match first_repeated_singleton(ms, singles, 0) {
            Some(j) => Some(
                "two modules of kind "@ + ms[j].spec_kind()
                    + " in the same scenario (at most one allowed)"@,
            ),
            None => None,
        },
    }
}

proof fn lemma_first_from(ms: Seq<Module>, j: int)
    requires
        0 <= j <= ms.len(),
        forall|q: int| 0 <= q < j ==> !repeats_target(ms, q),
    ensures
        first_repeated_target(ms, 0) == first_repeated_target(ms, j),
    decreases j,
{
    if j > 0 {
        lemma_first_from(ms, j - 1);
    }
}

proof fn lemma_first_single_from(ms: Seq<Module>, singles: Seq<Seq<char>>, j: int)
    requires
        0 <= j <= ms.len(),
        forall|q: int| 0 <= q < j ==> !repeats_singleton(ms, singles, q),
    ensures
        first_repeated_singleton(ms, singles, 0) == first_repeated_singleton(ms, singles, j),
    decreases j,
{
    if j > 0 {
        lemma_first_single_from(ms, singles, j - 1);
    }
}

fn option_str_eq(a: &Option<String>, b: &Option<String>) -> (r: bool)
    ensures
        r == (match (a, b) {
            (Some(x), Some(y)) => x@ == y@,
            (None, None) => true,
            _ => false,
        }),
{
    match (a, b) {
        (Some(x), Some(y)) => crate::text::str_eq(x.as_str(), y.as_str()),
        (None, None) => true,
        _ => false,
    }
}

fn contains_str(v: &[String], s: &str) -> (b: bool)
    ensures
        b == view_strings(v@).contains(s@),
{
    let ghost vs = view_strings(v@);
    let mut i: usize = 0;
    while i < v.len()
        invariant
            i <= v.len(),
            vs == view_strings(v@),
            forall|j: int| 0 <= j < i ==> vs[j] != s@,
        decreases v.len() - i,
    {
        if crate::text::str_eq(v[i].as_str(), s) {
            assert(vs[i as int] == s@);
            return true;
        }
        i += 1;
    }
    false
}

/// Refuses a scenario whose modules conflict: two registry modules that
/// target the same value, or two modules of a kind that `singleton_kinds`
/// (the catalog's singleton kinds) allows only once. The first conflict in
/// module order is reported.
pub fn conflict_check(modules: &[Module], singleton_kinds: &[String]) -> (r: Result<(), Error>)
    ensures
        match r {
            Ok(()) => conflict_message(modules@, view_strings(singleton_kinds@)) is None,
            Err(e) => e.kind() matches ErrorKind::Conflict(m) && conflict_message(
                modules@,
                view_strings(singleton_kinds@),
            ) == Some(m@),
        },
{
    let ghost ms = modules@;
    let mut j: usize = 0;
    while j < modules.len()
        invariant
            j <= modules.len(),
            ms == modules@,
            forall|q: int| 0 <= q < j ==> !repeats_target(ms, q),
        decreases modules.len() - j,
    {
        let tj = modules[j].registry_target();
        if tj.is_some() {
            let mut i: usize = 0;
            while i < j
                invariant
                    i <= j,
                    j < modules.len(),
                    ms == modules@,
                    tj matches Some(t) && ms[j as int].spec_registry_target() == Some(t@),
                    forall|q: int| 0 <= q < j ==> !repeats_target(ms, q),
                    forall|q: int| 0 <= q < i ==> #[trigger] ms[q].spec_registry_target() != ms[j as int].spec_registry_target(),
                decreases j - i,
            {
                let ti = modules[i].registry_target();
                if option_str_eq(&ti, &tj) {
                    proof {
                        assert(ms[i as int].spec_registry_target() == ms[j as int].spec_registry_target());
                        assert(repeats_target(ms, j as int));
                        lemma_first_from(ms, j as int);
                    }
                    let mut out: Vec<char> = Vec::new();
                    push_str(&mut out, "two modules target ");
                    match &tj {
                        Some(t) => push_str(&mut out, t.as_str()),
                        None => {},
                    }
                    return Err(Error::conflict(string_from_chars(&out)));
                }
                i += 1;
            }
        }
        j += 1;
    }
    proof {
        lemma_first_from(ms, ms.len() as int);
    }
    let ghost singles = view_strings(singleton_kinds@);
    let mut j: usize = 0;
    while j < modules.len()
        invariant
            j <= modules.len(),
            ms == modules@,
            singles == view_strings(singleton_kinds@),
            first_repeated_target(ms, 0) is None,
            forall|q: int| 0 <= q < j ==> !repeats_singleton(ms, singles, q),
        decreases modules.len() - j,
    {
        let kj = modules[j].kind();
        if contains_str(singleton_kinds, kj) {
            let mut i: usize = 0;
            while i < j
                invariant
                    i <= j,
                    j < modules.len(),
                    ms == modules@,
                    singles == view_strings(singleton_kinds@),
                    singles.contains(kj@),
                    kj@ == ms[j as int].spec_kind(),
                    first_repeated_target(ms, 0) is None,
                    forall|q: int| 0 <= q < j ==> !repeats_singleton(ms, singles, q),
                    forall|q: int| 0 <= q < i ==> #[trigger] ms[q].spec_kind() != ms[j as int].spec_kind(),
                decreases j - i,
            {
                if crate::text::str_eq(modules[i].kind(), kj) {
                    proof {
                        assert(repeats_singleton(ms, singles, j as int));
                        lemma_first_single_from(ms, singles, j as int);
                    }
                    let mut out: Vec<char> = Vec::new();
                    push_str(&mut out, "two modules of kind ");
                    push_str(&mut out, kj);
                    push_str(&mut out, " in the same scenario (at most one allowed)");
                    return Err(Error::conflict(string_from_chars(&out)));
                }
                i += 1;
            }
        }
        j += 1;
    }
    proof {
        lemma_first_single_from(ms, singles, ms.len() as int);
    }
    Ok(())
}

} // verus!
