//! A scenario's modules ([`Module`]) and which of them this engine runs.

use crate::cs2_config::VideoSettings;
use crate::error::{err_msg_chars, err_view, msg_view, Error, ErrorTag};
use crate::json::JsonValue;
use crate::text::{chars_of, lower, lower_chars, push_chars, push_str, split_at_seps, split_by, string_from_chars, view_words};
use vstd::prelude::*;

verus! {

broadcast use vstd::string::group_string_axioms;

#[derive(Clone, Copy, Debug, PartialEq, Eq, Structural)]
pub enum Hive {
    Hklm,
    Hkcu,
}

impl Hive {
    pub open spec fn spec_str(self) -> Seq<char> {
        match self {
            Hive::Hklm => "HKLM"@,
            Hive::Hkcu => "HKCU"@,
        }
    }

    /// `HKLM` or `HKCU`.
    pub fn as_str(&self) -> (s: &'static str)
        ensures
            s@ == self.spec_str(),
    {
        match self {
            Hive::Hklm => "HKLM",
            Hive::Hkcu => "HKCU",
        }
    }
}

#[derive(Clone, Copy, Debug, PartialEq, Eq, Structural)]
pub enum RegType {
    Dword,
    Qword,
    Sz,
    Binary,
    ExpandSz,
    MultiSz,
}

#[derive(Clone, Copy, Debug, PartialEq, Eq, Structural)]
pub enum AffinityMode {
    PcoreOnly,
    Ccd0,
    ExcludeCore0,
    ExplicitMask,
}

#[derive(Debug)]
pub struct RegistryPayload {
    pub hive: Hive,
    pub subkey: String,
    pub value_name: String,
    pub value_type: RegType,
    /// The value's data; its shape depends on `value_type`.
    pub value: JsonValue,
    /// The value only takes effect after a reboot.
    pub requires_reboot: bool,
}

#[derive(Clone, Debug)]
pub struct PowerPlanPayload {
    pub plan_guid: String,
    pub friendly_name: Option<String>,
    pub create_if_missing: bool,
}

#[derive(Clone, Debug)]
pub struct AffinityCpuPayload {
    pub mode: AffinityMode,
    pub mask_hex: Option<String>,
}

#[derive(Clone, Debug)]
pub struct CustomScriptPayload {
    pub apply_script: String,
    pub revert_script: String,
    pub requires_reboot: bool,
    pub description: String,
}

#[derive(Debug)]
pub struct Cs2ConfigPayload {
    pub settings: VideoSettings,
}

/// One tweak. A document naming a type this engine does not know becomes
/// [`Module::Unsupported`], which [`Module::require_m1_supported`] rejects.
#[derive(Debug)]
pub enum Module {
    Registry(RegistryPayload),
    Powercfg { sub: String, setting: String, value: u32 },
    PowerPlan(PowerPlanPayload),
    AffinityCpu(AffinityCpuPayload),
    LaunchArgs { args: String },
    CustomScript(CustomScriptPayload),
    Cs2Config(Cs2ConfigPayload),
    Unsupported,
}

/// The `type` tags a module document can name.
pub open spec fn known_module_types() -> Seq<Seq<char>> {
    seq![
        "registry"@,
        "powercfg"@,
        "power_plan"@,
        "affinity_cpu"@,
        "launch_args"@,
        "custom_script"@,
        "cs2_config"@,
    ]
}

/// Whether `t` is one of the module `type` tags this engine reads; a
/// document with any other (or no) tag is read as [`Module::Unsupported`].
pub fn is_known_module_type(t: &str) -> (b: bool)
    ensures
        b == known_module_types().contains(t@),
{
    let known = [
        "registry",
        "powercfg",
        "power_plan",
        "affinity_cpu",
        "launch_args",
        "custom_script",
        "cs2_config",
    ];
    let ghost kv = known_module_types();
    let mut i: usize = 0;
    while i < 7
        invariant
            i <= 7,
            kv == known_module_types(),
            forall|j: int| 0 <= j < 7 ==> (#[trigger] known@[j])@ == kv[j],
            forall|j: int| 0 <= j < i ==> kv[j] != t@,
        decreases 7 - i,
    {
        if crate::text::str_eq(known[i], t) {
            assert(kv[i as int] == t@);
            return true;
        }
        i += 1;
    }
    proof {
        if kv.contains(t@) {
            let j = choose|j: int| 0 <= j < kv.len() && kv[j] == t@;
            assert(j < 7);
        }
    }
    false
}

/// The longest a registry path component may be, in bytes.
pub const MAX_REGISTRY_COMPONENT_LEN: usize = 512;

/// Why a registry path component is refused, if it is: a NUL character,
/// more than 512 bytes, or (for a subkey) a `..` segment.
pub open spec fn registry_component_error(s: Seq<char>, field: Seq<char>, reject_dotdot: bool) -> Option<
    Seq<char>,
> {
    if s.contains('\0') {
        Some("registry "@ + field + " must not contain a NUL byte"@)
    } else if vstd::utf8::encode_utf8(s).len() > 512 {
        Some("registry "@ + field + " exceeds 512 characters"@)
    } else if reject_dotdot && split_by(s, seq!['\\', '\\']).contains(".."@) {
        Some("registry "@ + field + " must not contain a `..` segment"@)
    } else {
        None
    }
}

fn contains_char(s: &Vec<char>, c: char) -> (b: bool)
    ensures
        b == s@.contains(c),
{
    let mut i: usize = 0;
    while i < s.len()
        invariant
            i <= s.len(),
            forall|j: int| 0 <= j < i ==> s@[j] != c,
        decreases s.len() - i,
    {
        if s[i] == c {
            assert(s@[i as int] == c);
            return true;
        }
        i += 1;
    }
    false
}

/// Whether one of the pieces is exactly `..`.
fn has_dotdot(segs: &Vec<Vec<char>>) -> (b: bool)
    ensures
        b == view_words(segs@).contains(".."@),
{
    let dd = chars_of("..");
    let ghost vw = view_words(segs@);
    let mut i: usize = 0;
    while i < segs.len()
        invariant
            i <= segs.len(),
            dd@ == ".."@,
            vw == view_words(segs@),
            forall|j: int| 0 <= j < i ==> vw[j] != ".."@,
        decreases segs.len() - i,
    {
        if crate::text::chars_eq(&segs[i], &dd) {
            assert(vw[i as int] == ".."@);
            return true;
        }
        i += 1;
    }
    false
}

/// Builds `prefix + field + suffix`.
fn field_message(prefix: &str, field: &str, suffix: &str) -> (r: Vec<char>)
    ensures
        r@ == prefix@ + field@ + suffix@,
{
    let mut out: Vec<char> = Vec::new();
    push_str(&mut out, prefix);
    push_str(&mut out, field);
    push_str(&mut out, suffix);
    out
}

/// The number of bytes `c` takes in UTF-8.
pub open spec fn utf8_width(c: char) -> nat {
    if (c as u32) <= 0x7F {
        1
    } else if (c as u32) <= 0x7FF {
        2
    } else if (c as u32) <= 0xFFFF {
        3
    } else {
        4
    }
}

proof fn lemma_encode_step(s: Seq<char>, i: int)
    requires
        0 <= i < s.len(),
    ensures
        vstd::utf8::encode_utf8(s.skip(i)).len() == utf8_width(s[i]) + vstd::utf8::encode_utf8(
            s.skip(i + 1),
        ).len(),
{
    assert(s.skip(i)[0] == s[i]);
    assert(s.skip(i).drop_first() =~= s.skip(i + 1));
    let c = s[i] as u32;
    vstd::utf8::char_is_scalar(s[i]);
    assert(vstd::utf8::encode_scalar(c).len() == utf8_width(s[i]));
    assert(vstd::utf8::encode_utf8(s.skip(i)) == vstd::utf8::encode_scalar(c)
        + vstd::utf8::encode_utf8(s.skip(i + 1)));
}

/// Whether `s` takes more than `limit` bytes in UTF-8 (`str::len() > limit`).
pub(crate) fn utf8_len_over(s: &Vec<char>, limit: usize) -> (b: bool)
    ensures
        b == (vstd::utf8::encode_utf8(s@).len() > limit),
{
    let mut i: usize = s.len();
    let mut count: usize = 0;
    assert(s@.skip(s.len() as int) =~= Seq::<char>::empty());
    while i > 0
        invariant
            i <= s.len(),
            count <= limit,
            count == vstd::utf8::encode_utf8(s@.skip(i as int)).len(),
            vstd::utf8::encode_utf8(s@).len() >= vstd::utf8::encode_utf8(s@.skip(i as int)).len()
                ==> true,
        decreases i,
    {
        proof {
            lemma_encode_step(s@, i - 1);
        }
        let c = s[i - 1];
        let w: usize = if (c as u32) <= 0x7F {
            1
        } else if (c as u32) <= 0x7FF {
            2
        } else if (c as u32) <= 0xFFFF {
            3
        } else {
            4
        };
        i -= 1;
        if w > limit - count {
            proof {
                lemma_encode_suffix_le(s@, 0, i as int);
                assert(s@.skip(0) =~= s@);
            }
            return true;
        }
        count += w;
    }
    assert(s@.skip(0) =~= s@);
    false
}

proof fn lemma_encode_suffix_le(s: Seq<char>, i: int, j: int)
    requires
        0 <= i <= j <= s.len(),
    ensures
        vstd::utf8::encode_utf8(s.skip(i)).len() >= vstd::utf8::encode_utf8(s.skip(j)).len(),
    decreases j - i,
{
    if i < j {
        lemma_encode_step(s, i);
        lemma_encode_suffix_le(s, i + 1, j);
    }
}

/// NUL / length / (`subkey` only) `..`-segment hygiene for a registry path
/// component.
fn validate_registry_component(s: &str, field: &str, reject_dotdot_segments: bool) -> (r: Result<(), Error>)
    ensures
        match r {
            Ok(()) => registry_component_error(s@, field@, reject_dotdot_segments) is None,
            Err(e) => registry_component_error(s@, field@, reject_dotdot_segments) == Some(
                err_view(e).1,
            ) && err_view(e).0 == ErrorTag::Msg,
        },
{
    let cs = chars_of(s);
    if contains_char(&cs, '\0') {
        return Err(err_msg_chars(&field_message("registry ", field, " must not contain a NUL byte")));
    }
    if utf8_len_over(&cs, MAX_REGISTRY_COMPONENT_LEN) {
        return Err(err_msg_chars(&field_message("registry ", field, " exceeds 512 characters")));
    }
    if reject_dotdot_segments {
        let segs = split_at_seps(&cs, '\\', '\\');
        if has_dotdot(&segs) {
            return Err(
                err_msg_chars(&field_message("registry ", field, " must not contain a `..` segment")),
            );
        }
    }
    Ok(())
}

/// The characters a custom-script filename may hold.
pub open spec fn is_filename_char(c: char) -> bool {
    ('a' <= c && c <= 'z') || ('A' <= c && c <= 'Z') || ('0' <= c && c <= '9') || c == '_' || c
        == '-' || c == '.'
}

/// The index of the last `c` in `s`, or -1.
pub open spec fn last_index_of(s: Seq<char>, c: char) -> int
    decreases s.len(),
{
    if s.len() == 0 {
        -1
    } else if s.last() == c {
        s.len() - 1
    } else {
        last_index_of(s.drop_last(), c)
    }
}

/// The extension of a file name without separators, as
/// `std::path::Path::extension` gives it: what follows the last `.`, unless
/// that `.` is the first character (or the name is `.` or `..`).
pub open spec fn extension(p: Seq<char>) -> Option<Seq<char>> {
    let k = last_index_of(p, '.');
    if p == "."@ || p == ".."@ || k <= 0 {
        None
    } else {
        Some(p.subrange(k + 1, p.len() as int))
    }
}

/// `{:?}` of a string: the text in double quotes, with escapes.
pub uninterp spec fn str_debug(s: Seq<char>) -> Seq<char>;

/// `format!("{s:?}")`: std's `Debug` for `str` (the text in double
/// quotes, with quotes, backslashes and control characters escaped). Its
/// contract only names the result; the escaping rules are std's.
#[verifier::external_body]
pub(crate) fn debug_quoted(s: &str) -> (r: String)
    ensures
        r@ == str_debug(s@),
{
    format!("{s:?}")
}

/// Why a custom-script path is refused, if it is: it must be a single flat
/// filename (letters, digits, `_`, `-`, `.`), not `..`, ending in `.bat`,
/// `.cmd` or `.ps1` (any case).
pub open spec fn script_path_error(p: Seq<char>, field: Seq<char>) -> Option<Seq<char>> {
    if p.contains('\0') {
        Some("custom_script "@ + field + " must not contain a NUL byte"@)
    } else if !(forall|i: int| 0 <= i < p.len() ==> is_filename_char(#[trigger] p[i])) {
        Some(
            "custom_script "@ + field
                + " must be a flat filename containing only letters, digits, `_`, `-`, or `.` (no path separators), got "@
                + str_debug(p),
        )
    } else if split_by(p, seq!['\\', '/']).contains(".."@) {
        Some("custom_script "@ + field + " must not contain a `..` segment, got "@ + str_debug(p))
    } else if !(extension(p) matches Some(e) && (lower(e) == "bat"@ || lower(e) == "cmd"@ || lower(e)
        == "ps1"@)) {
        Some("custom_script "@ + field + " must end in .bat, .cmd, or .ps1, got "@ + str_debug(p))
    } else {
        None
    }
}

/// An accepted script path is one flat file name of letters, digits, `_`,
/// `-` and `.`: no path separator or drive colon (so not absolute and not
/// in a subdirectory), no `..`, and none of the characters `cmd.exe` gives
/// a meaning to inside the restore script's quoted `call` line.
pub proof fn lemma_accepted_script_is_flat(p: Seq<char>, field: Seq<char>)
    requires
        script_path_error(p, field) is None,
    ensures
        p != ".."@,
        forall|i: int|
            0 <= i < p.len() ==> {
                let c = #[trigger] p[i];
                &&& c != '/' && c != '\\' && c != ':'
                &&& c != '"' && c != '&' && c != '|' && c != '%' && c != '^' && c != '<' && c != '>'
                &&& c != ' ' && c != '\0'
            },
{
    assert forall|i: int| 0 <= i < p.len() implies {
        let c = #[trigger] p[i];
        &&& c != '/' && c != '\\' && c != ':'
        &&& c != '"' && c != '&' && c != '|' && c != '%' && c != '^' && c != '<' && c != '>'
        &&& c != ' ' && c != '\0'
    } by {
        assert(is_filename_char(p[i]));
    }
    if p == ".."@ {
        assert(extension(p) is None || !(lower(extension(p)->Some_0) == "bat"@ || lower(extension(p)->Some_0) == "cmd"@ || lower(extension(p)->Some_0) == "ps1"@)) by {
            reveal_strlit("..");
        }
    }
}

fn is_filename_char_exec(c: char) -> (b: bool)
    ensures
        b == is_filename_char(c),
{
    ('a' <= c && c <= 'z') || ('A' <= c && c <= 'Z') || ('0' <= c && c <= '9') || c == '_' || c
        == '-' || c == '.'
}

/// One past the index of the last `.` in `p` (zero when there is none).
fn last_dot_end(p: &Vec<char>) -> (k: usize)
    ensures
        k <= p.len(),
        k as int - 1 == last_index_of(p@, '.'),
{
    let mut k: usize = p.len();
    assert(p@.take(k as int) =~= p@);
    while k > 0 && p[k - 1] != '.'
        invariant
            k <= p.len(),
            last_index_of(p@, '.') == last_index_of(p@.take(k as int), '.'),
        decreases k,
    {
        assert(p@.take(k as int).drop_last() =~= p@.take(k - 1));
        k -= 1;
    }
    if k > 0 {
        assert(p@.take(k as int).last() == '.');
    } else {
        assert(p@.take(0) =~= Seq::<char>::empty());
    }
    k
}

fn extension_exec(p: &Vec<char>) -> (r: Option<Vec<char>>)
    ensures
        match r {
            Some(e) => extension(p@) == Some(e@),
            None => extension(p@) is None,
        },
{
    let k = last_dot_end(p);
    let dot = chars_of(".");
    let dotdot = chars_of("..");
    let is_dot = crate::text::chars_eq(p, &dot);
    let is_dotdot = crate::text::chars_eq(p, &dotdot);
    if is_dot || is_dotdot || k <= 1 {
        return None;
    }
    Some(crate::cs2_config::sub_chars(p, k, p.len()))
}

fn script_message(field: &str, text: &str, p: &str) -> (r: Vec<char>)
    ensures
        r@ == "custom_script "@ + field@ + text@ + str_debug(p@),
{
    let mut out: Vec<char> = Vec::new();
    push_str(&mut out, "custom_script ");
    push_str(&mut out, field);
    push_str(&mut out, text);
    let d = debug_quoted(p);
    push_str(&mut out, d.as_str());
    out
}

/// Custom-script path hygiene: see [`script_path_error`].
fn validate_script_path(p: &str, field: &str) -> (r: Result<(), Error>)
    ensures
        match r {
            Ok(()) => script_path_error(p@, field@) is None,
            Err(e) => script_path_error(p@, field@) == Some(err_view(e).1) && err_view(e).0
                == ErrorTag::Msg,
        },
{
    let cs = chars_of(p);
    if contains_char(&cs, '\0') {
        return Err(err_msg_chars(&field_message("custom_script ", field, " must not contain a NUL byte")));
    }
    let mut i: usize = 0;
    while i < cs.len()
        invariant
            i <= cs.len(),
            cs@ == p@,
            !p@.contains('\0'),
            forall|j: int| 0 <= j < i ==> is_filename_char(#[trigger] cs@[j]),
        decreases cs.len() - i,
    {
        if !is_filename_char_exec(cs[i]) {
            assert(!is_filename_char(p@[i as int]));
            return Err(
                err_msg_chars(
                    &script_message(
                        field,
                        " must be a flat filename containing only letters, digits, `_`, `-`, or `.` (no path separators), got ",
                        p,
                    ),
                ),
            );
        }
        i += 1;
    }
    let segs = split_at_seps(&cs, '\\', '/');
    if has_dotdot(&segs) {
        return Err(err_msg_chars(&script_message(field, " must not contain a `..` segment, got ", p)));
    }
    let ok = match extension_exec(&cs) {
        Some(e) => {
            let le = lower_chars(&e);
            let bat = chars_of("bat");
            let cmd = chars_of("cmd");
            let ps1 = chars_of("ps1");
            crate::text::chars_eq(&le, &bat) || crate::text::chars_eq(&le, &cmd)
                || crate::text::chars_eq(&le, &ps1)
        },
        None => false,
    };
    if !ok {
        return Err(
            err_msg_chars(&script_message(field, " must end in .bat, .cmd, or .ps1, got ", p)),
        );
    }
    Ok(())
}

/// Why this milestone cannot execute a module, without the module's own
/// text.
pub const M1_REASON: &'static str = "reboot-required / driver / SYSTEM-token modules arrive in milestone M3";

/// The `module type ... is not supported` message.
pub open spec fn unsupported_message(kind: Seq<char>, reason: Seq<char>) -> Seq<char> {
    "module type `"@ + kind + "` is not supported in M1: "@ + reason
}

/// The reason a registry module under `\Enum\` is refused.
pub open spec fn enum_reason() -> Seq<char> {
    "keys under \\Enum\\ need a SYSTEM token — milestone M3. ("@ + M1_REASON@ + ")"@
}

/// Whether a subkey has a path segment equal to `Enum` in any ASCII case.
pub open spec fn has_enum_segment(subkey: Seq<char>) -> bool {
    let segs = backslash_segments(subkey);
    exists|i: int| 0 <= i < segs.len() && lower(#[trigger] segs[i]) == "enum"@
}

/// The `\`-separated segments of a registry path.
pub open spec fn backslash_segments(s: Seq<char>) -> Seq<Seq<char>> {
    split_by(s, seq!['\\', '\\'])
}

/// Why a registry module with this subkey and value name is refused, if
/// it is.
pub open spec fn registry_m1_error(subkey: Seq<char>, value_name: Seq<char>) -> Option<(ErrorTag, Seq<char>)> {
    match registry_component_error(subkey, "subkey"@, true) {
        Some(m) => Some(msg_view(m)),
        None => match registry_component_error(value_name, "value_name"@, false) {
            Some(m) => Some(msg_view(m)),
            None => if has_enum_segment(subkey) {
                Some((ErrorTag::UnsupportedModule, unsupported_message("registry"@, enum_reason())))
            } else {
                None
            },
        },
    }
}

/// Why a custom-script module with these script paths is refused, if it
/// is.
pub open spec fn script_m1_error(apply: Seq<char>, revert: Seq<char>) -> Option<(ErrorTag, Seq<char>)> {
    match script_path_error(apply, "apply_script"@) {
        Some(m) => Some(msg_view(m)),
        None => match script_path_error(revert, "revert_script"@) {
            Some(m) => Some(msg_view(m)),
            None => None,
        },
    }
}

impl Module {
    pub open spec fn spec_kind(&self) -> Seq<char> {
        match self {
            Module::Registry(_) => "registry"@,
            Module::Powercfg { .. } => "powercfg"@,
            Module::PowerPlan(_) => "power_plan"@,
            Module::AffinityCpu(_) => "affinity_cpu"@,
            Module::LaunchArgs { .. } => "launch_args"@,
            Module::CustomScript(_) => "custom_script"@,
            Module::Cs2Config(_) => "cs2_config"@,
            Module::Unsupported => "unsupported"@,
        }
    }

    /// The module's `type` tag.
    pub fn kind(&self) -> (k: &'static str)
        ensures
            k@ == self.spec_kind(),
    {
        match self {
            Module::Registry(_) => "registry",
            Module::Powercfg { .. } => "powercfg",
            Module::PowerPlan(_) => "power_plan",
            Module::AffinityCpu(_) => "affinity_cpu",
            Module::LaunchArgs { .. } => "launch_args",
            Module::CustomScript(_) => "custom_script",
            Module::Cs2Config(_) => "cs2_config",
            Module::Unsupported => "unsupported",
        }
    }

    pub open spec fn spec_requires_reboot(&self) -> bool {
        match self {
            Module::Registry(p) => p.requires_reboot,
            Module::CustomScript(p) => p.requires_reboot,
            _ => false,
        }
    }

    /// Whether the module only takes effect after a reboot: a registry or
    /// custom-script module that says so; never any other kind.
    pub fn requires_reboot(&self) -> (b: bool)
        ensures
            b == self.spec_requires_reboot(),
    {
        match self {
            Module::Registry(p) => p.requires_reboot,
            Module::CustomScript(p) => p.requires_reboot,
            _ => false,
        }
    }

    /// Why this milestone refuses the module, if it does: the error's kind
    /// and message.
    pub open spec fn m1_error(&self) -> Option<(ErrorTag, Seq<char>)> {
        match self {
            Module::Unsupported => Some(
                (ErrorTag::UnsupportedModule, unsupported_message("unsupported"@, M1_REASON@)),
            ),
            Module::Registry(p) => registry_m1_error(p.subkey@, p.value_name@),
            Module::CustomScript(p) => script_m1_error(p.apply_script@, p.revert_script@),
            _ => None,
        }
    }

    /// `Ok` for the module kinds this milestone can execute. Refused: an
    /// unsupported module; a registry module with a malformed subkey or
    /// value name (NUL, more than 512 bytes, a `..` subkey segment) or a
    /// subkey with an `Enum` segment (device-instance keys need a SYSTEM
    /// token); a custom-script module whose script paths are not flat
    /// `.bat`/`.cmd`/`.ps1` file names.
    pub fn require_m1_supported(&self) -> (r: Result<(), Error>)
        ensures
            match r {
                Ok(()) => self.m1_error() is None,
                Err(e) => self.m1_error() == Some(err_view(e)),
            },
    {
        match self {
            Module::Unsupported => Err(
                Error::unsupported_module("unsupported".to_owned(), M1_REASON.to_owned()),
            ),
            Module::Registry(p) => {
                match validate_registry_component(p.subkey.as_str(), "subkey", true) {
                    Err(e) => return Err(e),
                    Ok(()) => {},
                }
                match validate_registry_component(p.value_name.as_str(), "value_name", false) {
                    Err(e) => return Err(e),
                    Ok(()) => {},
                }
                if has_enum_segment_exec(p.subkey.as_str()) {
                    let mut reason: Vec<char> = Vec::new();
                    push_str(&mut reason, "keys under \\Enum\\ need a SYSTEM token — milestone M3. (");
                    push_str(&mut reason, M1_REASON);
                    push_str(&mut reason, ")");
                    return Err(
                        Error::unsupported_module(
                            "registry".to_owned(),
                            string_from_chars(&reason),
                        ),
                    );
                }
                Ok(())
            },
            Module::CustomScript(p) => {
                match validate_script_path(p.apply_script.as_str(), "apply_script") {
                    Err(e) => return Err(e),
                    Ok(()) => {},
                }
                match validate_script_path(p.revert_script.as_str(), "revert_script") {
                    Err(e) => return Err(e),
                    Ok(()) => {},
                }
                Ok(())
            },
            _ => Ok(()),
        }
    }

    pub open spec fn spec_registry_target(&self) -> Option<Seq<char>> {
        match self {
            Module::Registry(p) => Some(
                p.hive.spec_str() + seq!['\\'] + p.subkey@ + seq!['\\'] + p.value_name@,
            ),
            _ => None,
        }
    }

    /// `HIVE\subkey\value_name` for a registry module (what the conflict
    /// check compares); `None` for every other kind.
    pub fn registry_target(&self) -> (r: Option<String>)
        ensures
            match r {
                Some(t) => self.spec_registry_target() == Some(t@),
                None => self.spec_registry_target() is None,
            },
    {
        match self {
            Module::Registry(p) => {
                let mut out: Vec<char> = Vec::new();
                push_str(&mut out, p.hive.as_str());
                out.push('\\');
                push_str(&mut out, p.subkey.as_str());
                out.push('\\');
                push_str(&mut out, p.value_name.as_str());
                Some(string_from_chars(&out))
            },
            _ => None,
        }
    }
}

fn has_enum_segment_exec(subkey: &str) -> (b: bool)
    ensures
        b == has_enum_segment(subkey@),
{
    let cs = chars_of(subkey);
    let segs = split_at_seps(&cs, '\\', '\\');
    let ghost vw = view_words(segs@);
    let en = chars_of("enum");
    let mut i: usize = 0;
    while i < segs.len()
        invariant
            i <= segs.len(),
            vw == view_words(segs@),
            vw == backslash_segments(subkey@),
            en@ == "enum"@,
            forall|j: int| 0 <= j < i ==> lower(#[trigger] vw[j]) != "enum"@,
        decreases segs.len() - i,
    {
        let l = lower_chars(&segs[i]);
        if crate::text::chars_eq(&l, &en) {
            assert(lower(vw[i as int]) == "enum"@);
            return true;
        }
        i += 1;
    }
    false
}

} // verus!
