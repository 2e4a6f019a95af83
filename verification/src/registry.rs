//! Registry values: reading a registry module's payload into a typed value,
//! and the JSON form in which a value is journaled and read back for a
//! revert.

use crate::error::{err_msg, err_view, msg_view, Error, ErrorTag};
use crate::json::{json_object1, json_object2, json_str, model_get, model_index, model_str, JsonList, JsonModel, JsonValue};
use crate::module::{Hive, RegType, RegistryPayload};
use vstd::prelude::*;

verus! {

broadcast use vstd::string::group_string_axioms;

/// A registry value as the system holds it; `Absent` when there is none.
#[derive(Debug, PartialEq, Eq)]
pub enum RegValue {
    Dword(u32),
    Qword(u64),
    Sz(String),
    Binary(Vec<u8>),
    ExpandSz(String),
    MultiSz(Vec<String>),
    Absent,
}

/// A registry value as plain data.
pub enum RegValueModel {
    Dword(u32),
    Qword(u64),
    Sz(Seq<char>),
    Binary(Seq<u8>),
    ExpandSz(Seq<char>),
    MultiSz(Seq<Seq<char>>),
    Absent,
}

impl RegValue {
    pub open spec fn model(&self) -> RegValueModel {
        match self {
            RegValue::Dword(n) => RegValueModel::Dword(*n),
            RegValue::Qword(n) => RegValueModel::Qword(*n),
            RegValue::Sz(s) => RegValueModel::Sz(s@),
            RegValue::Binary(b) => RegValueModel::Binary(b@),
            RegValue::ExpandSz(s) => RegValueModel::ExpandSz(s@),
            RegValue::MultiSz(v) => RegValueModel::MultiSz(crate::text::view_strings(v@)),
            RegValue::Absent => RegValueModel::Absent,
        }
    }
}

/// Where a registry value lives.
#[derive(Clone, Debug)]
pub struct RegKey {
    pub hive: Hive,
    pub subkey: String,
    pub value_name: String,
}

/// The key a registry module writes.
pub fn regkey(p: &RegistryPayload) -> (k: RegKey)
    ensures
        k.hive == p.hive,
        k.subkey@ == p.subkey@,
        k.value_name@ == p.value_name@,
{
    RegKey { hive: p.hive, subkey: p.subkey.clone(), value_name: p.value_name.clone() }
}

/// The value of an ASCII hexadecimal digit byte.
pub open spec fn hex_byte(c: u8) -> Option<int> {
    if 48 <= c && c <= 57 {
        Some(c - 48)
    } else if 97 <= c && c <= 102 {
        Some(c - 87)
    } else if 65 <= c && c <= 70 {
        Some(c - 55)
    } else {
        None
    }
}

/// `u8::from_str_radix` of a two-byte string: two hex digits, or `+` and
/// one hex digit.
pub open spec fn pair_value(b0: u8, b1: u8) -> Option<u8> {
    if b0 == 43 {
        match hex_byte(b1) {
            Some(v) => Some(v as u8),
            None => None,
        }
    } else {
        match (hex_byte(b0), hex_byte(b1)) {
            (Some(h), Some(l)) => Some((h * 16 + l) as u8),
            _ => None,
        }
    }
}

/// Whether byte index `k` starts a character (`str::is_char_boundary`).
pub open spec fn boundary(b: Seq<u8>, k: int) -> bool {
    k == 0 || k == b.len() || (0 <= k < b.len() && !(0x80 <= b[k] && b[k] <= 0xbf))
}

/// The bytes of an even-length hex text read pair by pair from byte `i`,
/// stopping at the first pair that is not hex (`None`).
pub open spec fn strict_hex(b: Seq<u8>, i: int) -> Option<Seq<u8>>
    decreases b.len() - i,
{
    if i < 0 || i + 1 >= b.len() {
        Some(seq![])
    } else {
        match pair_value(b[i], b[i + 1]) {
            None => None,
            Some(v) => match strict_hex(b, i + 2) {
                Some(rest) => Some(seq![v] + rest),
                None => None,
            },
        }
    }
}

/// The bytes of a hex text read pair by pair from byte `i`, skipping every
/// pair that is not hex or does not fall on character boundaries (and a
/// trailing odd byte).
pub open spec fn lenient_hex(b: Seq<u8>, i: int) -> Seq<u8>
    decreases b.len() - i,
{
    if i < 0 || i + 2 > b.len() {
        seq![]
    } else if boundary(b, i) && boundary(b, i + 2) && pair_value(b[i], b[i + 1])
        is Some {
        seq![pair_value(b[i], b[i + 1])->0] + lenient_hex(b, i + 2)
    } else {
        lenient_hex(b, i + 2)
    }
}

/// The bytes of a string in UTF-8.
pub open spec fn utf8(s: Seq<char>) -> Seq<u8> {
    vstd::utf8::encode_utf8(s)
}

/// The strings among a list of JSON values, in order.
pub open spec fn strings_of(vs: Seq<JsonModel>) -> Seq<Seq<char>>
    decreases vs.len(),
{
    if vs.len() == 0 {
        seq![]
    } else {
        match vs[0] {
            JsonModel::Str(s) => seq![s] + strings_of(vs.drop_first()),
            _ => strings_of(vs.drop_first()),
        }
    }
}

/// Whether every element of a list of JSON values is a string.
pub open spec fn all_strings(vs: Seq<JsonModel>) -> bool {
    forall|i: int| 0 <= i < vs.len() ==> #[trigger] vs[i] is Str
}

/// The typed value a registry payload describes, checked against its
/// declared type, or the message of why it does not.
pub open spec fn payload_value(value_type: RegType, value: JsonModel) -> Result<RegValueModel, Seq<char>> {
    match value_type {
        RegType::Dword => match value {
            JsonModel::UInt(n) => if n <= u32::MAX {
                Ok(RegValueModel::Dword(n as u32))
            } else {
                Err("registry DWORD value must be an integer that fits in 32 bits"@)
            },
            _ => Err("registry DWORD value must be an integer"@),
        },
        RegType::Qword => match value {
            JsonModel::UInt(n) => Ok(RegValueModel::Qword(n)),
            _ => Err("registry QWORD value must be an integer"@),
        },
        RegType::Sz => match value {
            JsonModel::Str(s) => Ok(RegValueModel::Sz(s)),
            _ => Err("registry SZ value must be a string"@),
        },
        RegType::Binary => match value {
            JsonModel::Str(s) => if utf8(s).len() % 2 != 0 {
                Err("registry BINARY value must have an even number of hex digits"@)
            } else {
                match strict_hex(utf8(s), 0) {
                    Some(b) => Ok(RegValueModel::Binary(b)),
                    None => Err("registry BINARY value is not valid hex"@),
                }
            },
            _ => Err("registry BINARY value must be a hex string"@),
        },
        RegType::ExpandSz => match value {
            JsonModel::Str(s) => Ok(RegValueModel::ExpandSz(s)),
            _ => Err("registry EXPAND_SZ value must be a string"@),
        },
        RegType::MultiSz => match value {
            JsonModel::Array(vs) => if all_strings(vs) {
                Ok(RegValueModel::MultiSz(strings_of(vs)))
            } else {
                Err("registry MULTI_SZ value must be an array of strings"@)
            },
            _ => Err("registry MULTI_SZ value must be an array of strings"@),
        },
    }
}

/// A lowercase hexadecimal digit.
pub open spec fn hex_char(d: int) -> char {
    if d < 10 {
        (d + 48) as char
    } else {
        (d + 87) as char
    }
}

/// Bytes as lowercase hex, two digits each.
pub open spec fn hex_text(b: Seq<u8>) -> Seq<char> {
    Seq::new(
        2 * b.len(),
        |i: int|
            if i % 2 == 0 {
                hex_char((b[i / 2] / 16) as int)
            } else {
                hex_char((b[i / 2] % 16) as int)
            },
    )
}

/// The journal form of a registry value: `{"type": ..., "value": ...}`.
pub open spec fn value_json(v: RegValueModel) -> JsonModel {
    match v {
        RegValueModel::Dword(n) => JsonModel::Object(
            seq![("type"@, JsonModel::Str("DWORD"@)), ("value"@, JsonModel::UInt(n as u64))],
        ),
        RegValueModel::Qword(n) => JsonModel::Object(
            seq![("type"@, JsonModel::Str("QWORD"@)), ("value"@, JsonModel::UInt(n))],
        ),
        RegValueModel::Sz(s) => JsonModel::Object(
            seq![("type"@, JsonModel::Str("SZ"@)), ("value"@, JsonModel::Str(s))],
        ),
        RegValueModel::Binary(b) => JsonModel::Object(
            seq![("type"@, JsonModel::Str("BINARY"@)), ("value"@, JsonModel::Str(hex_text(b)))],
        ),
        RegValueModel::ExpandSz(s) => JsonModel::Object(
            seq![("type"@, JsonModel::Str("EXPAND_SZ"@)), ("value"@, JsonModel::Str(s))],
        ),
        RegValueModel::MultiSz(ss) => JsonModel::Object(
            seq![
                ("type"@, JsonModel::Str("MULTI_SZ"@)),
                ("value"@, JsonModel::Array(ss.map_values(|s: Seq<char>| JsonModel::Str(s)))),
            ],
        ),
        RegValueModel::Absent => JsonModel::Object(seq![("type"@, JsonModel::Str("ABSENT"@))]),
    }
}

/// The registry value a journaled JSON value names (missing or mistyped
/// fields read as zero or empty), or the message of why it names none.
pub open spec fn journal_value(v: JsonModel) -> Result<RegValueModel, Seq<char>> {
    let val = model_index(v, "value"@);
    let text = match model_str(val) {
        Some(s) => s,
        None => Seq::<char>::empty(),
    };
    match model_get(v, "type"@) {
        Some(JsonModel::Str(t)) => if t == "DWORD"@ {
            Ok(
                RegValueModel::Dword(
                    match val {
                        JsonModel::UInt(n) => n as u32,
                        _ => 0,
                    },
                ),
            )
        } else if t == "QWORD"@ {
            Ok(
                RegValueModel::Qword(
                    match val {
                        JsonModel::UInt(n) => n,
                        _ => 0,
                    },
                ),
            )
        } else if t == "SZ"@ {
            Ok(RegValueModel::Sz(text))
        } else if t == "BINARY"@ {
            Ok(RegValueModel::Binary(lenient_hex(utf8(text), 0)))
        } else if t == "EXPAND_SZ"@ {
            Ok(RegValueModel::ExpandSz(text))
        } else if t == "MULTI_SZ"@ {
            Ok(
                RegValueModel::MultiSz(
                    match val {
                        JsonModel::Array(vs) => strings_of(vs),
                        _ => seq![],
                    },
                ),
            )
        } else if t == "ABSENT"@ {
            Ok(RegValueModel::Absent)
        } else {
            Err("journal registry value has no recognised type"@)
        },
        _ => Err("journal registry value has no recognised type"@),
    }
}

fn hex_char_exec(d: u8) -> (c: char)
    requires
        d < 16,
    ensures
        c == hex_char(d as int),
{
    if d < 10 {
        (d + 48) as char
    } else {
        (d + 87) as char
    }
}

/// Bytes as lowercase hex, two digits each.
pub fn hex(b: &[u8]) -> (r: String)
    ensures
        r@ == hex_text(b@),
{
    let mut out: Vec<char> = Vec::new();
    let mut i: usize = 0;
    while i < b.len()
        invariant
            i <= b.len(),
            out@ == hex_text(b@.take(i as int)),
        decreases b.len() - i,
    {
        let x = b[i];
        out.push(hex_char_exec(x / 16));
        out.push(hex_char_exec(x % 16));
        i += 1;
        assert(out@ =~= hex_text(b@.take(i as int)));
    }
    assert(b@.take(i as int) =~= b@);
    crate::text::string_from_chars(&out)
}

fn msg_result(text: &str) -> (r: Result<RegValue, Error>)
    ensures
        r matches Err(e) && err_view(e) == msg_view(text@),
{
    Err(err_msg(text))
}

fn hex_byte_exec(c: u8) -> (r: Option<u8>)
    ensures
        match r {
            Some(v) => hex_byte(c) == Some(v as int) && v < 16,
            None => hex_byte(c) is None,
        },
{
    if 48 <= c && c <= 57 {
        Some(c - 48)
    } else if 97 <= c && c <= 102 {
        Some(c - 87)
    } else if 65 <= c && c <= 70 {
        Some(c - 55)
    } else {
        None
    }
}

fn pair_value_exec(b0: u8, b1: u8) -> (r: Option<u8>)
    ensures
        r == pair_value(b0, b1),
{
    if b0 == 43 {
        hex_byte_exec(b1)
    } else {
        match (hex_byte_exec(b0), hex_byte_exec(b1)) {
            (Some(h), Some(l)) => Some(h * 16 + l),
            _ => None,
        }
    }
}

/// Reads an even-length hex text pair by pair; `None` at the first pair
/// that is not hex.
fn strict_hex_exec(b: &[u8]) -> (r: Option<Vec<u8>>)
    requires
        b.len() % 2 == 0,
    ensures
        match r {
            Some(v) => strict_hex(b@, 0) == Some(v@),
            None => strict_hex(b@, 0) is None,
        },
{
    let mut out: Vec<u8> = Vec::new();
    let mut i: usize = 0;
    while i < b.len()
        invariant
            i <= b.len(),
            i % 2 == 0,
            b.len() % 2 == 0,
            strict_hex(b@, 0) == match strict_hex(b@, i as int) {
                Some(rest) => Some(out@ + rest),
                None => None::<Seq<u8>>,
            },
        decreases b.len() - i,
    {
        match pair_value_exec(b[i], b[i + 1]) {
            None => return None,
            Some(v) => {
                let ghost before = out@;
                out.push(v);
                proof {
                    match strict_hex(b@, i + 2) {
                        Some(rest) => {
                            assert(before + (seq![v] + rest) =~= out@ + rest);
                        },
                        None => {},
                    }
                }
            },
        }
        i += 2;
    }
    assert(strict_hex(b@, i as int) == Some(Seq::<u8>::empty()));
    assert(out@ + Seq::<u8>::empty() =~= out@);
    Some(out)
}

/// Reads a hex text pair by pair, skipping every pair that is not hex or
/// not on character boundaries.
fn lenient_hex_exec(b: &[u8]) -> (r: Vec<u8>)
    ensures
        r@ == lenient_hex(b@, 0),
{
    let mut out: Vec<u8> = Vec::new();
    let mut i: usize = 0;
    assert(out@ + lenient_hex(b@, 0) =~= lenient_hex(b@, 0));
    while i < b.len() && b.len() - i >= 2
        invariant
            i % 2 == 0,
            i <= b.len(),
            lenient_hex(b@, 0) == out@ + lenient_hex(b@, i as int),
        decreases b.len() - i,
    {
        let ok_start = i == 0 || !(0x80 <= b[i] && b[i] <= 0xbf);
        let ok_end = i + 2 == b.len() || !(0x80 <= b[i + 2] && b[i + 2] <= 0xbf);
        if ok_start && ok_end {
            match pair_value_exec(b[i], b[i + 1]) {
                Some(v) => {
                    let ghost before = out@;
                    out.push(v);
                    assert(before + (seq![v] + lenient_hex(b@, i + 2)) =~= out@ + lenient_hex(
                        b@,
                        i + 2,
                    ));
                },
                None => {},
            }
        }
        i += 2;
    }
    assert(lenient_hex(b@, i as int) =~= Seq::<u8>::empty());
    assert(out@ + Seq::<u8>::empty() =~= out@);
    out
}

/// Collects the strings of a JSON list; `None` when an element is not a
/// string (when `all` is asked for), or skipping such elements.
fn list_strings(l: &JsonList, all: bool) -> (r: Option<Vec<String>>)
    ensures
        all ==> match r {
            Some(v) => all_strings(l.models()) && crate::text::view_strings(v@) == strings_of(
                l.models(),
            ),
            None => !all_strings(l.models()),
        },
        !all ==> (r matches Some(v) && crate::text::view_strings(v@) == strings_of(l.models())),
    decreases l,
{
    match l {
        JsonList::Nil => {
            let v: Vec<String> = Vec::new();
            assert(crate::text::view_strings(v@) =~= Seq::<Seq<char>>::empty());
            Some(v)
        },
        JsonList::Cons(h, t) => {
            let ghost ms = l.models();
            assert(ms.drop_first() =~= t.models());
            assert(ms[0] == h.model());
            let rest = match list_strings(t, all) {
                Some(r) => r,
                None => {
                    proof {
                        let w = choose|w: int| 0 <= w < t.models().len() && !(#[trigger] t.models()[w] is Str);
                        assert(ms[w + 1] == t.models()[w]);
                    }
                    return None;
                },
            };
            match &**h {
                JsonValue::Str(s) => {
                    let mut v: Vec<String> = Vec::new();
                    v.push(s.clone());
                    let mut k: usize = 0;
                    while k < rest.len()
                        invariant
                            k <= rest.len(),
                            crate::text::view_strings(v@) == seq![s@] + crate::text::view_strings(
                                rest@,
                            ).take(k as int),
                        decreases rest.len() - k,
                    {
                        let ghost before = v@;
                        v.push(rest[k].clone());
                        assert(crate::text::view_strings(v@) =~= crate::text::view_strings(before).push(rest@[k as int]@));
                        assert(crate::text::view_strings(rest@).take(k + 1) =~= crate::text::view_strings(rest@).take(k as int).push(rest@[k as int]@));
                        k += 1;
                        assert(crate::text::view_strings(v@) =~= seq![s@] + crate::text::view_strings(
                            rest@,
                        ).take(k as int));
                    }
                    assert(crate::text::view_strings(rest@).take(k as int) =~= crate::text::view_strings(rest@));
                    proof {
                        if all {
                            assert forall|i: int| 0 <= i < ms.len() implies #[trigger] ms[i] is Str by {
                                if i > 0 {
                                    assert(ms[i] == t.models()[i - 1]);
                                }
                            }
                        }
                    }
                    Some(v)
                },
                _ => {
                    if all {
                        assert(!(ms[0] is Str));
                        return None;
                    }
                    Some(rest)
                },
            }
        },
    }
}

/// The typed value a registry module's payload describes, checked against
/// its declared type: a DWORD needs a non-negative integer that fits in 32
/// bits, a QWORD a non-negative integer, SZ and EXPAND_SZ a string, BINARY
/// an even-length hex string (any other text, non-ASCII text too, is not
/// valid hex), MULTI_SZ an array of strings.
pub fn regvalue_from_payload(p: &RegistryPayload) -> (r: Result<RegValue, Error>)
    ensures
        match r {
            Ok(v) => payload_value(p.value_type, p.value.model()) == Ok::<RegValueModel, Seq<char>>(
                v.model(),
            ),
            Err(e) => err_view(e).0 == ErrorTag::Msg && payload_value(p.value_type, p.value.model())
                == Err::<RegValueModel, Seq<char>>(err_view(e).1),
        },
{
    match p.value_type {
        RegType::Dword => match p.value.as_u64() {
            Some(n) => if n <= u32::MAX as u64 {
                Ok(RegValue::Dword(n as u32))
            } else {
                msg_result("registry DWORD value must be an integer that fits in 32 bits")
            },
            None => msg_result("registry DWORD value must be an integer"),
        },
        RegType::Qword => match p.value.as_u64() {
            Some(n) => Ok(RegValue::Qword(n)),
            None => msg_result("registry QWORD value must be an integer"),
        },
        RegType::Sz => match p.value.as_str() {
            Some(s) => Ok(RegValue::Sz(s.to_owned())),
            None => msg_result("registry SZ value must be a string"),
        },
        RegType::ExpandSz => match p.value.as_str() {
            Some(s) => Ok(RegValue::ExpandSz(s.to_owned())),
            None => msg_result("registry EXPAND_SZ value must be a string"),
        },
        RegType::Binary => match p.value.as_str() {
            None => msg_result("registry BINARY value must be a hex string"),
            Some(s) => {
                let b = s.as_bytes();
                if b.len() % 2 != 0 {
                    return msg_result("registry BINARY value must have an even number of hex digits");
                }
                match strict_hex_exec(b) {
                    Some(bytes) => Ok(RegValue::Binary(bytes)),
                    None => msg_result("registry BINARY value is not valid hex"),
                }
            },
        },
        RegType::MultiSz => match &p.value {
            JsonValue::Array(l) => match list_strings(l, true) {
                Some(v) => Ok(RegValue::MultiSz(v)),
                None => msg_result("registry MULTI_SZ value must be an array of strings"),
            },
            _ => msg_result("registry MULTI_SZ value must be an array of strings"),
        },
    }
}

fn strings_to_json(v: &Vec<String>) -> (r: JsonValue)
    ensures
        r.model() == JsonModel::Array(
            crate::text::view_strings(v@).map_values(|s: Seq<char>| JsonModel::Str(s)),
        ),
{
    let ghost target = crate::text::view_strings(v@).map_values(|s: Seq<char>| JsonModel::Str(s));
    let mut list = JsonList::Nil;
    let mut k: usize = v.len();
    assert(target.skip(k as int) =~= Seq::<JsonModel>::empty());
    while k > 0
        invariant
            k <= v.len(),
            target == crate::text::view_strings(v@).map_values(|s: Seq<char>| JsonModel::Str(s)),
            list.models() == target.skip(k as int),
        decreases k,
    {
        let ghost prev = list.models();
        let e = JsonValue::Str(v[k - 1].clone());
        assert(e.model() == JsonModel::Str(v@[k - 1]@));
        list = JsonList::Cons(Box::new(e), Box::new(list));
        assert(list.models() =~= seq![JsonModel::Str(v@[k - 1]@)] + prev);
        assert(target.skip(k - 1) =~= seq![target[k - 1]] + target.skip(k as int));
        k -= 1;
    }
    assert(target.skip(0) =~= target);
    JsonValue::Array(list)
}

/// The journal form of a registry value: `{"type": ..., "value": ...}`
/// (`{"type": "ABSENT"}` for no value), a BINARY value as lowercase hex.
pub fn value_to_json(v: &RegValue) -> (r: JsonValue)
    ensures
        r.model() == value_json(v.model()),
{
    match v {
        RegValue::Dword(n) => json_object2("type", json_str("DWORD"), "value", JsonValue::UInt(*n as u64)),
        RegValue::Qword(n) => json_object2("type", json_str("QWORD"), "value", JsonValue::UInt(*n)),
        RegValue::Sz(s) => json_object2("type", json_str("SZ"), "value", json_str(s.as_str())),
        RegValue::Binary(b) => {
            let h = hex(b.as_slice());
            json_object2("type", json_str("BINARY"), "value", json_str(h.as_str()))
        },
        RegValue::ExpandSz(s) => json_object2(
            "type",
            json_str("EXPAND_SZ"),
            "value",
            json_str(s.as_str()),
        ),
        RegValue::MultiSz(ss) => json_object2("type", json_str("MULTI_SZ"), "value", strings_to_json(ss)),
        RegValue::Absent => json_object1("type", json_str("ABSENT")),
    }
}

fn member_of<'a>(v: &'a JsonValue, key: &str) -> (r: Option<&'a JsonValue>)
    ensures
        match r {
            Some(m) => model_get(v.model(), key@) == Some(m.model()),
            None => model_get(v.model(), key@) is None,
        },
{
    proof {
        if let JsonValue::Object(m) = v {
            crate::json::lemma_lookup_model(*m, key@);
        }
    }
    v.get(key)
}

/// Reads back a journaled registry value (see [`journal_value`]).
pub fn json_to_value(v: &JsonValue) -> (r: Result<RegValue, Error>)
    ensures
        match r {
            Ok(x) => journal_value(v.model()) == Ok::<RegValueModel, Seq<char>>(x.model()),
            Err(e) => err_view(e).0 == ErrorTag::Msg && journal_value(v.model()) == Err::<
                RegValueModel,
                Seq<char>,
            >(err_view(e).1),
        },
{
    let null = JsonValue::Null;
    let val: &JsonValue = match member_of(v, "value") {
        Some(m) => m,
        None => &null,
    };
    let text: &str = match val.as_str() {
        Some(s) => s,
        None => "",
    };
    proof {
        reveal_strlit("");
    }
    let ghost spec_text = match model_str(model_index(v.model(), "value"@)) {
        Some(s) => s,
        None => Seq::<char>::empty(),
    };
    assert(text@ == spec_text);
    let t = match member_of(v, "type") {
        Some(t) => match t.as_str() {
            Some(t) => t,
            None => return msg_result("journal registry value has no recognised type"),
        },
        None => return msg_result("journal registry value has no recognised type"),
    };
    if crate::text::str_eq(t, "DWORD") {
        let n32: u32 = match val.as_u64() {
            Some(n) => n as u32,
            None => 0,
        };
        assert(n32 == match val.model() {
            JsonModel::UInt(n) => n as u32,
            _ => 0,
        });
        Ok(RegValue::Dword(n32))
    } else if crate::text::str_eq(t, "QWORD") {
        let r = RegValue::Qword(match val.as_u64() { Some(n) => n, None => 0 });
        assert(journal_value(v.model()) == Ok::<RegValueModel, Seq<char>>(r.model()));
        Ok(r)
    } else if crate::text::str_eq(t, "SZ") {
        let r = RegValue::Sz(text.to_owned());
        assert(journal_value(v.model()) == Ok::<RegValueModel, Seq<char>>(r.model()));
        Ok(r)
    } else if crate::text::str_eq(t, "BINARY") {
        let r = RegValue::Binary(lenient_hex_exec(text.as_bytes()));
        assert(journal_value(v.model()) == Ok::<RegValueModel, Seq<char>>(r.model()));
        Ok(r)
    } else if crate::text::str_eq(t, "EXPAND_SZ") {
        let r = RegValue::ExpandSz(text.to_owned());
        assert(journal_value(v.model()) == Ok::<RegValueModel, Seq<char>>(r.model()));
        Ok(r)
    } else if crate::text::str_eq(t, "MULTI_SZ") {
        match val {
            JsonValue::Array(l) => match list_strings(l, false) {
                Some(ss) => Ok(RegValue::MultiSz(ss)),
                None => Ok(RegValue::MultiSz(Vec::new())),
            },
            _ => {
                let empty: Vec<String> = Vec::new();
                assert(crate::text::view_strings(empty@) =~= Seq::<Seq<char>>::empty());
                Ok(RegValue::MultiSz(empty))
            },
        }
    } else if crate::text::str_eq(t, "ABSENT") {
        let r = RegValue::Absent;
        assert(journal_value(v.model()) == Ok::<RegValueModel, Seq<char>>(r.model()));
        Ok(r)
    } else {
        msg_result("journal registry value has no recognised type")
    }
}

proof fn lemma_lenient_of_hex(b: Seq<u8>, k: int)
    requires
        0 <= k <= b.len(),
    ensures
        lenient_hex(utf8(hex_text(b)), 2 * k) == b.skip(k),
    decreases b.len() - k,
{
    let t = hex_text(b);
    assert(vstd::utf8::is_ascii_chars(t)) by {
        assert forall|i: int| 0 <= i < t.len() implies '\0' <= #[trigger] t[i] <= '\u{7f}' by {
            let x = b[i / 2];
            assert(x / 16 < 16 && x % 16 < 16);
        }
    }
    vstd::utf8::is_ascii_chars_encode_utf8(t);
    let u = utf8(t);
    if k < b.len() {
        lemma_lenient_of_hex(b, k + 1);
        let x = b[k];
        assert(t[2 * k] == hex_char((x / 16) as int));
        assert(t[2 * k + 1] == hex_char((x % 16) as int));
        assert(u[2 * k] == t[2 * k] as u8);
        assert(u[2 * k + 1] == t[2 * k + 1] as u8);
        assert(pair_value(u[2 * k], u[2 * k + 1]) == Some(x)) by {
            assert((x / 16) * 16 + x % 16 == x);
        }
        assert(boundary(u, 2 * k));
        assert(boundary(u, 2 * k + 2)) by {
            if 2 * k + 2 < u.len() {
                assert(u[2 * k + 2] == t[2 * k + 2] as u8);
            }
        }
        assert(b.skip(k) =~= seq![x] + b.skip(k + 1));
    } else {
        assert(b.skip(k) =~= Seq::<u8>::empty());
    }
}

proof fn lemma_strings_of_strs(ss: Seq<Seq<char>>)
    ensures
        strings_of(ss.map_values(|s: Seq<char>| JsonModel::Str(s))) == ss,
    decreases ss.len(),
{
    let m = ss.map_values(|s: Seq<char>| JsonModel::Str(s));
    if ss.len() > 0 {
        lemma_strings_of_strs(ss.drop_first());
        assert(m.drop_first() =~= ss.drop_first().map_values(|s: Seq<char>| JsonModel::Str(s)));
        assert(ss =~= seq![ss[0]] + ss.drop_first());
    } else {
        assert(ss =~= Seq::<Seq<char>>::empty());
    }
}

proof fn lemma_member2(k1: Seq<char>, v1: JsonModel, k2: Seq<char>, v2: JsonModel, key: Seq<char>)
    ensures
        crate::json::model_member(seq![(k1, v1), (k2, v2)], key) == if k1 == key {
            Some(v1)
        } else if k2 == key {
            Some(v2)
        } else {
            None
        },
{
    reveal_with_fuel(crate::json::model_member, 3);
    let ms = seq![(k1, v1), (k2, v2)];
    assert(ms.drop_first() =~= seq![(k2, v2)]);
    assert(ms.drop_first().drop_first() =~= Seq::<(Seq<char>, JsonModel)>::empty());
}

/// Reading back the journal form of a registry value gives the same value:
/// what a revert writes is exactly what was there before.
pub proof fn lemma_journal_round_trip(v: RegValueModel)
    ensures
        journal_value(value_json(v)) == Ok::<RegValueModel, Seq<char>>(v),
{
    reveal_strlit("type");
    reveal_strlit("value");
    reveal_strlit("DWORD");
    reveal_strlit("QWORD");
    reveal_strlit("SZ");
    reveal_strlit("BINARY");
    reveal_strlit("EXPAND_SZ");
    reveal_strlit("MULTI_SZ");
    reveal_strlit("ABSENT");
    let j = value_json(v);
    let t = "type"@;
    let k = "value"@;
    assert(t.len() == 4 && k.len() == 5);
    assert(t != k);
    assert("QWORD"@[0] != "DWORD"@[0]);
    assert("QWORD"@ != "DWORD"@);
    assert("ABSENT"@[0] != "BINARY"@[0]);
    assert("ABSENT"@ != "BINARY"@);
    assert("SZ"@.len() == 2 && "DWORD"@.len() == 5 && "QWORD"@.len() == 5);
    assert("BINARY"@.len() == 6 && "EXPAND_SZ"@.len() == 9 && "MULTI_SZ"@.len() == 8);
    assert("ABSENT"@.len() == 6);
    match v {
        RegValueModel::Dword(n) => {
            assert(((n as u64) as u32) == n) by (bit_vector);
            lemma_member2(t, JsonModel::Str("DWORD"@), k, JsonModel::UInt(n as u64), t);
            lemma_member2(t, JsonModel::Str("DWORD"@), k, JsonModel::UInt(n as u64), k);
            assert(j == JsonModel::Object(seq![(t, JsonModel::Str("DWORD"@)), (k, JsonModel::UInt(n as u64))]));
            assert(model_get(j, t) == Some(JsonModel::Str("DWORD"@)));
            assert(model_get(j, k) == Some(JsonModel::UInt(n as u64)));
            assert(model_index(j, k) == JsonModel::UInt(n as u64));
            let m: u64 = n as u64;
            assert((m as u32) == n);
            assert(journal_value(j) == Ok::<RegValueModel, Seq<char>>(RegValueModel::Dword(m as u32)));
            assert(journal_value(j) == Ok::<RegValueModel, Seq<char>>(v));
        },
        RegValueModel::Qword(n) => {
            lemma_member2(t, JsonModel::Str("QWORD"@), k, JsonModel::UInt(n), t);
            lemma_member2(t, JsonModel::Str("QWORD"@), k, JsonModel::UInt(n), k);
            assert(journal_value(j) == Ok::<RegValueModel, Seq<char>>(v));
        },
        RegValueModel::Sz(x) => {
            lemma_member2(t, JsonModel::Str("SZ"@), k, JsonModel::Str(x), t);
            lemma_member2(t, JsonModel::Str("SZ"@), k, JsonModel::Str(x), k);
            assert(journal_value(j) == Ok::<RegValueModel, Seq<char>>(v));
        },
        RegValueModel::ExpandSz(x) => {
            lemma_member2(t, JsonModel::Str("EXPAND_SZ"@), k, JsonModel::Str(x), t);
            lemma_member2(t, JsonModel::Str("EXPAND_SZ"@), k, JsonModel::Str(x), k);
            assert(journal_value(j) == Ok::<RegValueModel, Seq<char>>(v));
        },
        RegValueModel::Binary(b) => {
            lemma_member2(t, JsonModel::Str("BINARY"@), k, JsonModel::Str(hex_text(b)), t);
            lemma_member2(t, JsonModel::Str("BINARY"@), k, JsonModel::Str(hex_text(b)), k);
            lemma_lenient_of_hex(b, 0);
            assert(b.skip(0) =~= b);
            assert(journal_value(j) == Ok::<RegValueModel, Seq<char>>(v));
        },
        RegValueModel::MultiSz(ss) => {
            let arr = JsonModel::Array(ss.map_values(|s: Seq<char>| JsonModel::Str(s)));
            lemma_member2(t, JsonModel::Str("MULTI_SZ"@), k, arr, t);
            lemma_member2(t, JsonModel::Str("MULTI_SZ"@), k, arr, k);
            lemma_strings_of_strs(ss);
            assert(journal_value(j) == Ok::<RegValueModel, Seq<char>>(v));
        },
        RegValueModel::Absent => {
            reveal_with_fuel(crate::json::model_member, 2);
            assert(seq![(t, JsonModel::Str("ABSENT"@))].drop_first() =~= Seq::<(Seq<char>, JsonModel)>::empty());
            assert(journal_value(j) == Ok::<RegValueModel, Seq<char>>(v));
        },
    }
}

/// The strings among a JSON list's elements, in order.
pub(crate) fn list_strings_lenient(l: &JsonList) -> (r: Vec<String>)
    ensures
        crate::text::view_strings(r@) == strings_of(l.models()),
{
    match list_strings(l, false) {
        Some(v) => v,
        None => Vec::new(),
    }
}

} // verus!
