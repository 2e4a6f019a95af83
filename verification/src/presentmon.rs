//! The PresentMon command line a capture runs with.

use crate::error::{err_msg_chars, err_view, msg_view, Error};
use crate::text::{
    chars_of, decimal, decimal_chars, join, push_chars, push_str, string_from_chars, trim_ws,
    trim_ws_chars, view_strings,
};
use vstd::prelude::*;

verus! {

broadcast use vstd::string::group_string_axioms;

/// What one capture asks PresentMon for.
#[derive(Clone, Debug)]
pub struct PmArgs {
    pub process_name: String,
    pub output_file: String,
    pub timed_seconds: u32,
}

/// The arguments PresentMon is started with, in order.
pub open spec fn presentmon_args(a: PmArgs) -> Seq<Seq<char>> {
    seq![
        "--process_name"@,
        a.process_name@,
        "--output_file"@,
        a.output_file@,
        "--timed"@,
        decimal(a.timed_seconds as nat),
        "--terminate_after_timed"@,
        "--set_circular_buffer_size"@,
        "4096"@,
    ]
}

/// PresentMon's command line for a capture: the process to watch, the CSV
/// to write, a timed capture that terminates PresentMon afterwards, and a
/// 4096-entry circular buffer.
pub fn build_presentmon_args(args: &PmArgs) -> (r: Vec<String>)
    ensures
        view_strings(r@) == presentmon_args(*args),
{
    let mut v: Vec<String> = Vec::new();
    v.push("--process_name".to_owned());
    v.push(args.process_name.clone());
    v.push("--output_file".to_owned());
    v.push(args.output_file.clone());
    v.push("--timed".to_owned());
    let d = decimal_chars(args.timed_seconds as u64);
    v.push(string_from_chars(&d));
    v.push("--terminate_after_timed".to_owned());
    v.push("--set_circular_buffer_size".to_owned());
    v.push("4096".to_owned());
    assert(view_strings(v@) =~= presentmon_args(*args));
    v
}

/// What is appended to a capture error to show PresentMon's own output
/// (its standard output then its standard error, `raw`): nothing when
/// that is blank, else ` -- PresentMon output: ` and the text, trimmed.
pub open spec fn output_suffix_text(raw: Seq<char>) -> Seq<char> {
    if trim_ws(raw).len() == 0 {
        seq![]
    } else {
        " -- PresentMon output: "@ + trim_ws(raw)
    }
}

/// The suffix of a capture error for PresentMon's output `raw` (see
/// [`output_suffix_text`]).
pub fn output_suffix(raw: &str) -> (r: String)
    ensures
        r@ == output_suffix_text(raw@),
{
    let t = trim_ws_chars(&chars_of(raw));
    let mut out: Vec<char> = Vec::new();
    if t.len() > 0 {
        push_str(&mut out, " -- PresentMon output: ");
        push_chars(&mut out, &t);
    }
    string_from_chars(&out)
}

/// The error for a PresentMon that exited unsuccessfully: its exit status
/// (as the system words it), the invocation, and its output suffix.
pub fn exit_failure_error(status: &str, exe_path: &str, cli_args: &Vec<String>, suffix: &str) -> (e: Error)
    ensures
        err_view(e) == msg_view(
            "PresentMon exited with status "@ + status@ + " (invocation: "@ + exe_path@ + " "@
                + join(view_strings(cli_args@), " "@) + ")"@ + suffix@,
        ),
{
    let mut out: Vec<char> = Vec::new();
    push_str(&mut out, "PresentMon exited with status ");
    push_str(&mut out, status);
    push_str(&mut out, " (invocation: ");
    push_str(&mut out, exe_path);
    push_str(&mut out, " ");
    let joined = crate::text::join_with(cli_args, " ");
    push_str(&mut out, joined.as_str());
    push_str(&mut out, ")");
    push_str(&mut out, suffix);
    err_msg_chars(&out)
}

/// The error for a PresentMon that exited cleanly without writing its
/// output file: the capture target most likely exited during the window.
pub fn missing_output_error(args: &PmArgs, suffix: &str) -> (e: Error)
    ensures
        err_view(e) == msg_view(
            "PresentMon exited successfully but never wrote its output file ("@ + args.output_file@
                + ") -- its capture target (\""@ + args.process_name@ + "\") likely exited before or during the "@
                + decimal(args.timed_seconds as nat) + "s capture window"@ + suffix@,
        ),
{
    let mut out: Vec<char> = Vec::new();
    push_str(&mut out, "PresentMon exited successfully but never wrote its output file (");
    push_str(&mut out, args.output_file.as_str());
    push_str(&mut out, ") -- its capture target (\"");
    push_str(&mut out, args.process_name.as_str());
    push_str(&mut out, "\") likely exited before or during the ");
    let d = decimal_chars(args.timed_seconds as u64);
    push_chars(&mut out, &d);
    push_str(&mut out, "s capture window");
    push_str(&mut out, suffix);
    err_msg_chars(&out)
}

/// Runs PresentMon from a fixed executable path.
#[derive(Clone, Debug)]
pub struct PresentMonController {
    pub exe_path: String,
}

impl PresentMonController {
    pub fn new(exe_path: String) -> (c: Self)
        ensures
            c.exe_path == exe_path,
    {
        PresentMonController { exe_path }
    }
}

/// The capture runner that drives a real PresentMon.
#[derive(Clone, Debug)]
pub struct RealCaptureRunner {
    pub inner: PresentMonController,
}

impl RealCaptureRunner {
    pub fn new(exe_path: String) -> (r: Self)
        ensures
            r.inner.exe_path == exe_path,
    {
        RealCaptureRunner { inner: PresentMonController::new(exe_path) }
    }
}

} // verus!
