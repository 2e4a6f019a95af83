//! The JSON values the engine reads and writes (registry payload values,
//! journal targets and inverses), as plain data.

use vstd::prelude::*;

verus! {

broadcast use vstd::string::group_string_axioms;

/// A JSON value. Integers are kept exactly; any other number is kept as its
/// JSON text. Arrays and objects are lists, an object's members in order,
/// each key once.
#[derive(Debug)]
pub enum JsonValue {
    Null,
    Bool(bool),
    /// A non-negative integer that fits a `u64`.
    UInt(u64),
    /// A negative integer that fits an `i64`.
    NegInt(i64),
    /// Any other number, as its JSON text.
    Float(String),
    Str(String),
    Array(JsonList),
    Object(JsonMembers),
}

/// The elements of a JSON array.
#[derive(Debug)]
pub enum JsonList {
    Nil,
    Cons(Box<JsonValue>, Box<JsonList>),
}

/// The members of a JSON object.
#[derive(Debug)]
pub enum JsonMembers {
    Nil,
    Cons(String, Box<JsonValue>, Box<JsonMembers>),
}

impl JsonList {
    /// The elements in order.
    pub open spec fn items(self) -> Seq<JsonValue>
        decreases self,
    {
        match self {
            JsonList::Nil => seq![],
            JsonList::Cons(h, t) => seq![*h] + t.items(),
        }
    }
}

impl JsonMembers {
    /// The members in order, keys by their characters.
    pub open spec fn entries(self) -> Seq<(Seq<char>, JsonValue)>
        decreases self,
    {
        match self {
            JsonMembers::Nil => seq![],
            JsonMembers::Cons(k, v, t) => seq![(k@, *v)] + t.entries(),
        }
    }

    /// The value of the first member named `key`.
    pub open spec fn lookup(self, key: Seq<char>) -> Option<JsonValue>
        decreases self,
    {
        match self {
            JsonMembers::Nil => None,
            JsonMembers::Cons(k, v, t) => if k@ == key {
                Some(*v)
            } else {
                t.lookup(key)
            },
        }
    }

    /// The member named `key`.
    pub fn get(&self, key: &str) -> (r: Option<&JsonValue>)
        ensures
            match r {
                Some(v) => self.lookup(key@) == Some(*v),
                None => self.lookup(key@) is None,
            },
        decreases self,
    {
        match self {
            JsonMembers::Nil => None,
            JsonMembers::Cons(k, v, t) => {
                if crate::text::str_eq(k.as_str(), key) {
                    Some(&**v)
                } else {
                    t.get(key)
                }
            },
        }
    }
}

impl JsonValue {
    /// `serde_json::Value::get(key)`: the member of an object.
    pub open spec fn spec_get(&self, key: Seq<char>) -> Option<JsonValue> {
        match self {
            JsonValue::Object(m) => m.lookup(key),
            _ => None,
        }
    }

    /// `value[key]`: the member, or `Null` when absent or not an object.
    pub open spec fn member(&self, key: Seq<char>) -> JsonValue {
        match self.spec_get(key) {
            Some(v) => v,
            None => JsonValue::Null,
        }
    }

    /// The member `key` of an object.
    pub fn get(&self, key: &str) -> (r: Option<&JsonValue>)
        ensures
            match r {
                Some(v) => self.spec_get(key@) == Some(*v),
                None => self.spec_get(key@) is None,
            },
    {
        match self {
            JsonValue::Object(m) => m.get(key),
            _ => None,
        }
    }

    /// The string, if this is one.
    pub fn as_str(&self) -> (r: Option<&str>)
        ensures
            match self {
                JsonValue::Str(s) => r matches Some(t) && t@ == s@,
                _ => r is None,
            },
    {
        match self {
            JsonValue::Str(s) => Some(s.as_str()),
            _ => None,
        }
    }

    /// The integer, if this is a non-negative one that fits a `u64`.
    pub fn as_u64(&self) -> (r: Option<u64>)
        ensures
            match self {
                JsonValue::UInt(n) => r == Some(*n),
                _ => r is None,
            },
    {
        match self {
            JsonValue::UInt(n) => Some(*n),
            _ => None,
        }
    }
}

/// A copy of a JSON value.
pub fn clone_json(v: &JsonValue) -> (r: JsonValue)
    ensures
        r == *v,
    decreases v,
{
    match v {
        JsonValue::Null => JsonValue::Null,
        JsonValue::Bool(b) => JsonValue::Bool(*b),
        JsonValue::UInt(n) => JsonValue::UInt(*n),
        JsonValue::NegInt(n) => JsonValue::NegInt(*n),
        JsonValue::Float(t) => JsonValue::Float(t.clone()),
        JsonValue::Str(s) => JsonValue::Str(s.clone()),
        JsonValue::Array(l) => JsonValue::Array(clone_list(l)),
        JsonValue::Object(m) => JsonValue::Object(clone_members(m)),
    }
}

fn clone_list(l: &JsonList) -> (r: JsonList)
    ensures
        r == *l,
    decreases l,
{
    match l {
        JsonList::Nil => JsonList::Nil,
        JsonList::Cons(h, t) => JsonList::Cons(Box::new(clone_json(h)), Box::new(clone_list(t))),
    }
}

fn clone_members(m: &JsonMembers) -> (r: JsonMembers)
    ensures
        r == *m,
    decreases m,
{
    match m {
        JsonMembers::Nil => JsonMembers::Nil,
        JsonMembers::Cons(k, v, t) => JsonMembers::Cons(
            k.clone(),
            Box::new(clone_json(v)),
            Box::new(clone_members(t)),
        ),
    }
}

/// A JSON value as plain data.
pub enum JsonModel {
    Null,
    Bool(bool),
    UInt(u64),
    NegInt(i64),
    Float(Seq<char>),
    Str(Seq<char>),
    Array(Seq<JsonModel>),
    Object(Seq<(Seq<char>, JsonModel)>),
}

impl JsonValue {
    /// The value as plain data.
    pub open spec fn model(&self) -> JsonModel
        decreases self,
    {
        match self {
            JsonValue::Null => JsonModel::Null,
            JsonValue::Bool(b) => JsonModel::Bool(*b),
            JsonValue::UInt(n) => JsonModel::UInt(*n),
            JsonValue::NegInt(n) => JsonModel::NegInt(*n),
            JsonValue::Float(t) => JsonModel::Float(t@),
            JsonValue::Str(s) => JsonModel::Str(s@),
            JsonValue::Array(l) => JsonModel::Array(l.models()),
            JsonValue::Object(m) => JsonModel::Object(m.models()),
        }
    }
}

impl JsonList {
    pub open spec fn models(&self) -> Seq<JsonModel>
        decreases self,
    {
        match self {
            JsonList::Nil => seq![],
            JsonList::Cons(h, t) => seq![h.model()] + t.models(),
        }
    }
}

impl JsonMembers {
    pub open spec fn models(&self) -> Seq<(Seq<char>, JsonModel)>
        decreases self,
    {
        match self {
            JsonMembers::Nil => seq![],
            JsonMembers::Cons(k, v, t) => seq![(k@, v.model())] + t.models(),
        }
    }
}

/// The value of the first member named `key`.
pub open spec fn model_member(ms: Seq<(Seq<char>, JsonModel)>, key: Seq<char>) -> Option<JsonModel>
    decreases ms.len(),
{
    if ms.len() == 0 {
        None
    } else if ms[0].0 == key {
        Some(ms[0].1)
    } else {
        model_member(ms.drop_first(), key)
    }
}

/// `value.get(key)` on plain data.
pub open spec fn model_get(v: JsonModel, key: Seq<char>) -> Option<JsonModel> {
    match v {
        JsonModel::Object(ms) => model_member(ms, key),
        _ => None,
    }
}

/// `value[key]` on plain data: the member, or `Null`.
pub open spec fn model_index(v: JsonModel, key: Seq<char>) -> JsonModel {
    match model_get(v, key) {
        Some(m) => m,
        None => JsonModel::Null,
    }
}

/// `value.as_str()` on plain data.
pub open spec fn model_str(v: JsonModel) -> Option<Seq<char>> {
    match v {
        JsonModel::Str(s) => Some(s),
        _ => None,
    }
}

pub proof fn lemma_lookup_model(m: JsonMembers, key: Seq<char>)
    ensures
        match m.lookup(key) {
            Some(v) => model_member(m.models(), key) == Some(v.model()),
            None => model_member(m.models(), key) is None,
        },
    decreases m,
{
    match m {
        JsonMembers::Nil => {},
        JsonMembers::Cons(k, v, t) => {
            assert((seq![(k@, v.model())] + t.models()).drop_first() =~= t.models());
            lemma_lookup_model(*t, key);
        },
    }
}

/// A string value.
pub fn json_str(s: &str) -> (r: JsonValue)
    ensures
        r.model() == JsonModel::Str(s@),
{
    JsonValue::Str(s.to_owned())
}

/// An object with the given two members, in that order.
pub fn json_object2(k1: &str, v1: JsonValue, k2: &str, v2: JsonValue) -> (r: JsonValue)
    ensures
        r.model() == JsonModel::Object(seq![(k1@, v1.model()), (k2@, v2.model())]),
{
    let ghost m1 = v1.model();
    let ghost m2 = v2.model();
    let m = JsonMembers::Cons(
        k1.to_owned(),
        Box::new(v1),
        Box::new(JsonMembers::Cons(k2.to_owned(), Box::new(v2), Box::new(JsonMembers::Nil))),
    );
    proof {
        reveal_with_fuel(JsonMembers::models, 3);
    }
    assert(m.models() =~= seq![(k1@, m1), (k2@, m2)]);
    JsonValue::Object(m)
}

/// An object with the given three members, in that order.
pub fn json_object3(k1: &str, v1: JsonValue, k2: &str, v2: JsonValue, k3: &str, v3: JsonValue) -> (r: JsonValue)
    ensures
        r.model() == JsonModel::Object(seq![(k1@, v1.model()), (k2@, v2.model()), (k3@, v3.model())]),
{
    let ghost m1 = v1.model();
    let ghost m2 = v2.model();
    let ghost m3 = v3.model();
    let m = JsonMembers::Cons(
        k1.to_owned(),
        Box::new(v1),
        Box::new(
            JsonMembers::Cons(
                k2.to_owned(),
                Box::new(v2),
                Box::new(JsonMembers::Cons(k3.to_owned(), Box::new(v3), Box::new(JsonMembers::Nil))),
            ),
        ),
    );
    proof {
        reveal_with_fuel(JsonMembers::models, 4);
    }
    assert(m.models() =~= seq![(k1@, m1), (k2@, m2), (k3@, m3)]);
    JsonValue::Object(m)
}

/// An object with one member.
pub fn json_object1(k1: &str, v1: JsonValue) -> (r: JsonValue)
    ensures
        r.model() == JsonModel::Object(seq![(k1@, v1.model())]),
{
    let ghost m1 = v1.model();
    let m = JsonMembers::Cons(k1.to_owned(), Box::new(v1), Box::new(JsonMembers::Nil));
    proof {
        reveal_with_fuel(JsonMembers::models, 2);
    }
    assert(m.models() =~= seq![(k1@, m1)]);
    JsonValue::Object(m)
}

#[verifier::external_type_specification]
#[verifier::external_body]
pub struct ExSerdeValue(serde_json::Value);

/// `serde_json::Value::Null`. Nothing is claimed of the value: it is opaque here.
#[verifier::external_body]
fn serde_null() -> (r: serde_json::Value) {
    serde_json::Value::Null
}

/// `serde_json::Value::Bool(b)`. Nothing is claimed of the value.
#[verifier::external_body]
fn serde_bool(b: bool) -> (r: serde_json::Value) {
    serde_json::Value::Bool(b)
}

/// `serde_json::Value::from(n)` for a `u64`. Nothing is claimed of the value.
#[verifier::external_body]
fn serde_u64(n: u64) -> (r: serde_json::Value) {
    serde_json::Value::from(n)
}

/// `serde_json::Value::from(n)` for an `i64`. Nothing is claimed of the value.
#[verifier::external_body]
fn serde_i64(n: i64) -> (r: serde_json::Value) {
    serde_json::Value::from(n)
}

/// `serde_json::from_str(text)`: the value a number's JSON text reads as,
/// `None` on serde_json's error. Nothing is claimed of which.
#[verifier::external_body]
fn serde_number_text(text: &str) -> (r: Option<serde_json::Value>) {
    serde_json::from_str(text).ok()
}

/// `serde_json::Value::String(s)`. Nothing is claimed of the value.
#[verifier::external_body]
fn serde_string(s: String) -> (r: serde_json::Value) {
    serde_json::Value::String(s)
}

/// `serde_json::Value::Array(items)`. Nothing is claimed of the value.
#[verifier::external_body]
fn serde_array(items: Vec<serde_json::Value>) -> (r: serde_json::Value) {
    serde_json::Value::Array(items)
}

/// `serde_json::Value::Object` of `members`, collected into serde_json's
/// map in order. Nothing is claimed of the value.
#[verifier::external_body]
fn serde_object(members: Vec<(String, serde_json::Value)>) -> (r: serde_json::Value) {
    serde_json::Value::Object(members.into_iter().collect())
}

/// `serde_json`'s own value for one of ours, node for node. A `Float` only
/// ever holds the text serde_json printed for a number, which reads back;
/// text that would not (never built by this library) becomes `null`.
fn to_serde(v: &JsonValue) -> serde_json::Value
    decreases v,
{
    match v {
        JsonValue::Null => serde_null(),
        JsonValue::Bool(b) => serde_bool(*b),
        JsonValue::UInt(n) => serde_u64(*n),
        JsonValue::NegInt(n) => serde_i64(*n),
        JsonValue::Float(t) => match serde_number_text(t.as_str()) {
            Some(x) => x,
            None => serde_null(),
        },
        JsonValue::Str(s) => serde_string(s.clone()),
        JsonValue::Array(l) => {
            let mut items: Vec<serde_json::Value> = Vec::new();
            list_to_serde(l, &mut items);
            serde_array(items)
        },
        JsonValue::Object(m) => {
            let mut members: Vec<(String, serde_json::Value)> = Vec::new();
            members_to_serde(m, &mut members);
            serde_object(members)
        },
    }
}

/// Appends serde_json's value of each element of `l`, in order.
fn list_to_serde(l: &JsonList, out: &mut Vec<serde_json::Value>)
    ensures
        final(out)@.len() == old(out)@.len() + l.items().len(),
    decreases l,
{
    match l {
        JsonList::Nil => {},
        JsonList::Cons(h, t) => {
            out.push(to_serde(&**h));
            list_to_serde(&**t, out);
        },
    }
}

/// Appends each member of `m`, its key and serde_json's value, in order.
fn members_to_serde(m: &JsonMembers, out: &mut Vec<(String, serde_json::Value)>)
    ensures
        final(out)@.len() == old(out)@.len() + m.entries().len(),
        forall|i: int| 0 <= i < old(out)@.len() ==> (#[trigger] final(out)@[i]).0 == old(out)@[i].0,
        forall|i: int| 0 <= i < m.entries().len() ==> (#[trigger] final(out)@[old(out)@.len() + i]).0@ == m.entries()[i].0,
    decreases m,
{
    match m {
        JsonMembers::Nil => {},
        JsonMembers::Cons(k, v, t) => {
            let ghost n0 = out@.len();
            let ghost before = out@;
            out.push((k.clone(), to_serde(&**v)));
            let ghost mid = out@;
            members_to_serde(&**t, out);
            assert(m.entries() == seq![(k@, **v)] + t.entries());
            assert forall|i: int| 0 <= i < m.entries().len() implies (#[trigger] out@[n0 + i]).0@ == m.entries()[i].0 by {
                if i > 0 {
                    assert(out@[(n0 + 1) + (i - 1)].0@ == t.entries()[i - 1].0);
                }
            }
        },
    }
}

/// `serde_json::Value`'s `Display`: the value as compact JSON text.
pub uninterp spec fn json_display(v: JsonModel) -> Seq<char>;

/// The value as compact JSON text, as `serde_json::Value`'s `Display`
/// writes it (`to_string()` of the value [`to_serde`] builds node for
/// node). The contract names the result, and states
/// only that a non-negative integer is written in decimal: the rest of the
/// text (strings' escapes, other numbers, arrays and objects) is
/// serde_json's.
#[verifier::external_body]
pub(crate) fn json_text(v: &JsonValue) -> (r: String)
    ensures
        r@ == json_display(v.model()),
        v.model() matches JsonModel::UInt(n) ==> r@ == crate::text::decimal(n as nat),
{
    to_serde(v).to_string()
}

} // verus!
