//! Reading CS2's `console.log`: which line marks which moment of a
//! benchmark (map loaded, benchmark started or ended, the engine's own FPS
//! report, the main menu ready for input), by the regular expressions of a
//! [`Signatures`] set; and when a tailed log was replaced under the reader.
//!
//! The FPS figures of a `[VProf]` line are handed back as the text the
//! expression captured: turning them into numbers is floating point, which
//! the caller does (a figure that does not parse makes the line count for
//! nothing).

use crate::error::{err_view, Error, ErrorTag};
use vstd::prelude::*;

verus! {

broadcast use vstd::string::group_string_axioms;

#[verifier::external_type_specification]
#[verifier::external_body]
pub struct ExRegex(regex::Regex);

/// Why `regex::Regex::new` refuses `pattern` (its error's text), or `None`
/// when it compiles.
pub uninterp spec fn regex_error(pattern: Seq<char>) -> Option<Seq<char>>;

/// Whether the compiled `pattern` matches somewhere in `haystack`
/// (`regex::Regex::is_match`).
pub uninterp spec fn regex_matches(pattern: Seq<char>, haystack: Seq<char>) -> bool;

/// The text the named group `group` took in the leftmost-first match of
/// `pattern` in `haystack` (`regex::Regex::captures`, then
/// `regex::Captures::name`); `None` when there is no match or the group
/// did not take part in it.
pub uninterp spec fn regex_group(pattern: Seq<char>, haystack: Seq<char>, group: Seq<char>) -> Option<Seq<char>>;

/// A regular expression compiled from its source text. The only way to
/// make one is [`LinePattern::compile`], so the compiled expression is
/// always that of `source`.
pub struct LinePattern {
    source: String,
    re: regex::Regex,
}

impl LinePattern {
    /// The source text the expression was compiled from.
    pub closed spec fn pattern(&self) -> Seq<char> {
        self.source@
    }

    /// Compiles `pattern` with `regex::Regex::new`. The contract states the
    /// outcome by name only: which patterns compile, and the refusal's
    /// text, are the regex crate's.
    #[verifier::external_body]
    fn compile(pattern: &str) -> (r: Result<LinePattern, String>)
        ensures
            match r {
                Ok(p) => regex_error(pattern@) is None && p.pattern() == pattern@,
                Err(m) => regex_error(pattern@) == Some(m@),
            },
    {
        match regex::Regex::new(pattern) {
            Ok(re) => Ok(LinePattern { source: pattern.to_owned(), re }),
            Err(e) => Err(e.to_string()),
        }
    }

    /// `regex::Regex::is_match`: whether the expression matches somewhere
    /// in `line`.
    #[verifier::external_body]
    fn is_match(&self, line: &str) -> (b: bool)
        ensures
            b == regex_matches(self.pattern(), line@),
    {
        self.re.is_match(line)
    }

    /// `regex::Regex::captures` then `regex::Captures::name`: the text of
    /// group `group` in the first match in `line`. The regex crate returns
    /// captures exactly when the expression matches, so a group's text
    /// only ever comes with a match.
    #[verifier::external_body]
    fn named_group(&self, line: &str, group: &str) -> (r: Option<String>)
        ensures
            match r {
                Some(s) => regex_group(self.pattern(), line@, group@) == Some(s@),
                None => regex_group(self.pattern(), line@, group@) is None,
            },
            r is Some ==> regex_matches(self.pattern(), line@),
    {
        self.re.captures(line).and_then(|c| c.name(group)).map(|m| m.as_str().to_owned())
    }
}

/// The expressions that mark the moments of a benchmark in `console.log`.
#[derive(Clone, Debug)]
pub struct Signatures {
    /// A map load; captures `map` and `addon`.
    pub map_loaded: String,
    pub benchmark_started: String,
    pub benchmark_ended: String,
    /// The engine's FPS report; captures `avg` and `p1`.
    pub vprof_fps: String,
    /// The main menu's background scene is loaded and the relay network
    /// check is done: the game now takes input.
    pub menu_ready: String,
}

/// What a log line marks.
#[derive(Clone, Debug, PartialEq, Eq)]
pub enum DetectedLine {
    MapLoaded { map: String, addon: String },
    BenchmarkStarted,
    BenchmarkEnded,
    /// The FPS report, with the figures as captured.
    VProfFps { avg: String, p1: String },
    MenuReady,
}

/// A detected line as plain values.
pub enum DetectedModel {
    MapLoaded(Seq<char>, Seq<char>),
    BenchmarkStarted,
    BenchmarkEnded,
    VProfFps(Seq<char>, Seq<char>),
    MenuReady,
}

pub open spec fn detected_view(d: DetectedLine) -> DetectedModel {
    match d {
        DetectedLine::MapLoaded { map, addon } => DetectedModel::MapLoaded(map@, addon@),
        DetectedLine::BenchmarkStarted => DetectedModel::BenchmarkStarted,
        DetectedLine::BenchmarkEnded => DetectedModel::BenchmarkEnded,
        DetectedLine::VProfFps { avg, p1 } => DetectedModel::VProfFps(avg@, p1@),
        DetectedLine::MenuReady => DetectedModel::MenuReady,
    }
}

/// A set of signatures compiled, in the order they are tried on a line.
pub struct Detector {
    map_loaded: LinePattern,
    benchmark_started: LinePattern,
    benchmark_ended: LinePattern,
    vprof_fps: LinePattern,
    menu_ready: LinePattern,
}

/// The five expressions of a signature set, in the order they are tried.
pub open spec fn signature_patterns(s: Signatures) -> Seq<Seq<char>> {
    seq![s.map_loaded@, s.benchmark_started@, s.benchmark_ended@, s.vprof_fps@, s.menu_ready@]
}

/// Why a signature set does not compile: the first expression's refusal.
pub open spec fn signatures_error(s: Signatures) -> Option<Seq<char>> {
    let ps = signature_patterns(s);
    if regex_error(ps[0]) is Some {
        regex_error(ps[0])
    } else if regex_error(ps[1]) is Some {
        regex_error(ps[1])
    } else if regex_error(ps[2]) is Some {
        regex_error(ps[2])
    } else if regex_error(ps[3]) is Some {
        regex_error(ps[3])
    } else {
        regex_error(ps[4])
    }
}

/// What a line marks under the expressions `ps` (map, start, end, FPS,
/// menu), the first that matches deciding. A map-load or FPS line whose
/// expression matched without capturing both of its groups marks nothing.
pub open spec fn classified(ps: Seq<Seq<char>>, line: Seq<char>) -> Option<DetectedModel> {
    if regex_matches(ps[0], line) {
        match (regex_group(ps[0], line, "map"@), regex_group(ps[0], line, "addon"@)) {
            (Some(m), Some(a)) => Some(DetectedModel::MapLoaded(m, a)),
            _ => None,
        }
    } else if regex_matches(ps[1], line) {
        Some(DetectedModel::BenchmarkStarted)
    } else if regex_matches(ps[2], line) {
        Some(DetectedModel::BenchmarkEnded)
    } else if regex_matches(ps[3], line) {
        match (regex_group(ps[3], line, "avg"@), regex_group(ps[3], line, "p1"@)) {
            (Some(a), Some(p)) => Some(DetectedModel::VProfFps(a, p)),
            _ => None,
        }
    } else if regex_matches(ps[4], line) {
        Some(DetectedModel::MenuReady)
    } else {
        None
    }
}

fn compile_or_error(pattern: &str) -> (r: Result<LinePattern, Error>)
    ensures
        match r {
            Ok(p) => regex_error(pattern@) is None && p.pattern() == pattern@,
            Err(e) => regex_error(pattern@) matches Some(m) && err_view(e) == (ErrorTag::Msg, m),
        },
{
    match LinePattern::compile(pattern) {
        Ok(p) => Ok(p),
        Err(m) => Err(Error::msg(m)),
    }
}

impl Detector {
    /// The expressions this detector tries, in order.
    pub closed spec fn patterns(&self) -> Seq<Seq<char>> {
        seq![
            self.map_loaded.pattern(),
            self.benchmark_started.pattern(),
            self.benchmark_ended.pattern(),
            self.vprof_fps.pattern(),
            self.menu_ready.pattern(),
        ]
    }

    /// Compiles a signature set; the first expression that does not
    /// compile is the error (a `msg` error with the regex crate's text).
    pub fn new(sigs: &Signatures) -> (r: Result<Detector, Error>)
        ensures
            match r {
                Ok(d) => signatures_error(*sigs) is None && d.patterns() == signature_patterns(*sigs),
                Err(e) => signatures_error(*sigs) matches Some(m) && err_view(e) == (ErrorTag::Msg, m),
            },
    {
        let map_loaded = match compile_or_error(sigs.map_loaded.as_str()) {
            Ok(p) => p,
            Err(e) => return Err(e),
        };
        let benchmark_started = match compile_or_error(sigs.benchmark_started.as_str()) {
            Ok(p) => p,
            Err(e) => return Err(e),
        };
        let benchmark_ended = match compile_or_error(sigs.benchmark_ended.as_str()) {
            Ok(p) => p,
            Err(e) => return Err(e),
        };
        let vprof_fps = match compile_or_error(sigs.vprof_fps.as_str()) {
            Ok(p) => p,
            Err(e) => return Err(e),
        };
        let menu_ready = match compile_or_error(sigs.menu_ready.as_str()) {
            Ok(p) => p,
            Err(e) => return Err(e),
        };
        let d = Detector { map_loaded, benchmark_started, benchmark_ended, vprof_fps, menu_ready };
        assert(d.patterns() =~= signature_patterns(*sigs));
        Ok(d)
    }

    /// What `line` marks: the first expression that matches decides (see
    /// [`classified`]).
    pub fn classify(&self, line: &str) -> (r: Option<DetectedLine>)
        ensures
            match r {
                Some(d) => classified(self.patterns(), line@) == Some(detected_view(d)),
                None => classified(self.patterns(), line@) is None,
            },
    {
        if self.map_loaded.is_match(line) {
            let map = match self.map_loaded.named_group(line, "map") {
                Some(m) => m,
                None => return None,
            };
            let addon = match self.map_loaded.named_group(line, "addon") {
                Some(a) => a,
                None => return None,
            };
            return Some(DetectedLine::MapLoaded { map, addon });
        }
        if self.benchmark_started.is_match(line) {
            return Some(DetectedLine::BenchmarkStarted);
        }
        if self.benchmark_ended.is_match(line) {
            return Some(DetectedLine::BenchmarkEnded);
        }
        if self.vprof_fps.is_match(line) {
            let avg = match self.vprof_fps.named_group(line, "avg") {
                Some(a) => a,
                None => return None,
            };
            let p1 = match self.vprof_fps.named_group(line, "p1") {
                Some(p) => p,
                None => return None,
            };
            return Some(DetectedLine::VProfFps { avg, p1 });
        }
        if self.menu_ready.is_match(line) {
            return Some(DetectedLine::MenuReady);
        }
        None
    }
}

/// Whether the log a tail reads was replaced under it: the file now at its
/// path was created at another time than the one open (`created_differs`,
/// when both times are known), or is shorter than the position the tail
/// has read to; then the tail reopens it from the start.
pub fn tail_was_replaced(created_differs: bool, fresh_len: Option<u64>, pos: u64) -> (b: bool)
    ensures
        b == (created_differs || (fresh_len matches Some(len) && len < pos)),
{
    let shrunk = match fresh_len {
        Some(len) => len < pos,
        None => false,
    };
    created_differs || shrunk
}

} // verus!
