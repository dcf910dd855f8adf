//! JSON values as the notebook reader walks them: objects keep their members in
//! order, numbers keep their text.

use vstd::prelude::*;
use crate::text;
use crate::text::{push_all, str_chars};

verus! {

/// A JSON value.
#[derive(Debug)]
pub enum JsonValue {
    Null,
    Bool(bool),
    Number(String),
    String(String),
    Array(Vec<JsonValue>),
    Object(Vec<(String, JsonValue)>),
}

/// The value of the first member named `key` among `members`, from `i` on.
pub open spec fn member_from(members: Seq<(String, JsonValue)>, key: Seq<char>, i: nat) -> Option<JsonValue>
    decreases members.len() - i,
{
    if i >= members.len() {
        None
    } else if members[i as int].0@ == key {
        Some(members[i as int].1)
    } else {
        member_from(members, key, i + 1)
    }
}

/// The member `key` of an object; nothing for another value.
pub open spec fn json_get(v: JsonValue, key: Seq<char>) -> Option<JsonValue> {
    match v {
        JsonValue::Object(members) => member_from(members@, key, 0),
        _ => None,
    }
}

/// The member `key` of `v`, when `v` is present.
pub open spec fn get_in(v: Option<JsonValue>, key: Seq<char>) -> Option<JsonValue> {
    match v {
        Some(x) => json_get(x, key),
        None => None,
    }
}

/// The text of a string.
pub open spec fn json_str(v: Option<JsonValue>) -> Option<Seq<char>> {
    match v {
        Some(JsonValue::String(s)) => Some(s@),
        _ => None,
    }
}

/// The items of an array.
pub open spec fn json_array(v: Option<JsonValue>) -> Option<Seq<JsonValue>> {
    match v {
        Some(JsonValue::Array(items)) => Some(items@),
        _ => None,
    }
}

/// The strings among `items`, one after the other.
pub open spec fn concat_strs(items: Seq<JsonValue>) -> Seq<char>
    decreases items.len(),
{
    if items.len() == 0 {
        seq![]
    } else {
        concat_strs(items.drop_last()) + match items.last() {
            JsonValue::String(s) => s@,
            _ => seq![],
        }
    }
}

/// Notebook source text: a string, or the strings of an array joined; nothing
/// for another value.
pub open spec fn source_of(v: JsonValue) -> Seq<char> {
    match v {
        JsonValue::String(s) => s@,
        JsonValue::Array(items) => concat_strs(items@),
        _ => seq![],
    }
}

impl JsonValue {
    /// The member `key` of an object (`serde_json::Value::get`).
    pub fn get<'a>(&'a self, key: &str) -> (r: Option<&'a JsonValue>)
        ensures
            r matches Some(x) ==> json_get(*self, key@) == Some(*x),
            r is None ==> json_get(*self, key@) is None,
    {
        match self {
            JsonValue::Object(members) => {
                let k = str_chars(key);
                assert(json_get(*self, key@) == member_from(members@, key@, 0));
                let mut i: usize = 0;
                while i < members.len()
                    invariant
                        i <= members@.len(),
                        k@ == key@,
                        json_get(*self, key@) == member_from(members@, key@, 0),
                        member_from(members@, key@, 0) == member_from(members@, key@, i as nat),
                    decreases members@.len() - i,
                {
                    let name = str_chars(members[i].0.as_str());
                    if text::slice_eq(name.as_slice(), k.as_slice()) {
                        assert(members@[i as int].0@ == key@);
                        assert(member_from(members@, key@, i as nat) == Some(members@[i as int].1));
                        return Some(&members[i].1);
                    }
                    i = i + 1;
                }
                None
            },
            _ => None,
        }
    }

    /// The text of a string (`serde_json::Value::as_str`).
    pub fn as_str(&self) -> (r: Option<&str>)
        ensures
            r matches Some(s) ==> json_str(Some(*self)) == Some(s@),
            r is None ==> json_str(Some(*self)) is None,
    {
        match self {
            JsonValue::String(s) => Some(s.as_str()),
            _ => None,
        }
    }

    /// The items of an array (`serde_json::Value::as_array`).
    pub fn as_array(&self) -> (r: Option<&Vec<JsonValue>>)
        ensures
            r matches Some(a) ==> json_array(Some(*self)) == Some(a@),
            r is None ==> json_array(Some(*self)) is None,
    {
        match self {
            JsonValue::Array(items) => Some(items),
            _ => None,
        }
    }
}

/// The member `key` of `v`, when `v` is present.
pub fn get_opt<'a>(v: Option<&'a JsonValue>, key: &str) -> (r: Option<&'a JsonValue>)
    ensures
        r matches Some(x) ==> get_in(opt_val(v), key@) == Some(*x),
        r is None ==> get_in(opt_val(v), key@) is None,
{
    match v {
        Some(x) => x.get(key),
        None => None,
    }
}

/// The value behind an optional reference.
pub open spec fn opt_val(v: Option<&JsonValue>) -> Option<JsonValue> {
    match v {
        Some(x) => Some(*x),
        None => None,
    }
}

/// Notebook source text: a string, or the strings of an array joined.
pub fn extract_source(v: &JsonValue) -> (r: Vec<char>)
    ensures
        r@ == source_of(*v),
{
    match v {
        JsonValue::String(s) => str_chars(s.as_str()),
        JsonValue::Array(items) => {
            let mut out: Vec<char> = Vec::new();
            let mut k: usize = 0;
            while k < items.len()
                invariant
                    k <= items@.len(),
                    out@ == concat_strs(items@.take(k as int)),
                decreases items@.len() - k,
            {
                assert(items@.take(k + 1).drop_last() =~= items@.take(k as int));
                match &items[k] {
                    JsonValue::String(s) => {
                        let c = str_chars(s.as_str());
                        push_all(&mut out, c.as_slice());
                    },
                    _ => {
                        assert(out@ + Seq::<char>::empty() =~= out@);
                    },
                }
                k = k + 1;
            }
            assert(items@.take(k as int) =~= items@);
            out
        },
        _ => Vec::new(),
    }
}


/// The mathematical value of a JSON value.
pub enum JsonView {
    Null,
    Bool(bool),
    Number(Seq<char>),
    Str(Seq<char>),
    Array(Seq<JsonView>),
    Object(Seq<(Seq<char>, JsonView)>),
}

/// The value of a JSON value.
pub open spec fn jview(v: JsonValue) -> JsonView
    decreases v, 1nat,
{
    match v {
        JsonValue::Null => JsonView::Null,
        JsonValue::Bool(b) => JsonView::Bool(b),
        JsonValue::Number(n) => JsonView::Number(n@),
        JsonValue::String(s) => JsonView::Str(s@),
        JsonValue::Array(items) => JsonView::Array(items_view(items@)),
        JsonValue::Object(members) => JsonView::Object(members_view(members@)),
    }
}

/// The values of array items.
pub open spec fn items_view(s: Seq<JsonValue>) -> Seq<JsonView>
    decreases s, 0nat,
{
    if s.len() == 0 {
        seq![]
    } else {
        items_view(s.drop_last()).push(jview(s.last()))
    }
}

/// The values of object members.
pub open spec fn members_view(m: Seq<(String, JsonValue)>) -> Seq<(Seq<char>, JsonView)>
    decreases m, 0nat,
{
    if m.len() == 0 {
        seq![]
    } else {
        members_view(m.drop_last()).push((m.last().0@, jview(m.last().1)))
    }
}

/// A copy of a JSON value.
pub fn copy_json(v: &JsonValue) -> (r: JsonValue)
    ensures
        jview(r) == jview(*v),
    decreases v,
{
    match v {
        JsonValue::Null => JsonValue::Null,
        JsonValue::Bool(b) => JsonValue::Bool(*b),
        JsonValue::Number(n) => JsonValue::Number(n.clone()),
        JsonValue::String(s) => JsonValue::String(s.clone()),
        JsonValue::Array(items) => JsonValue::Array(copy_items(items)),
        JsonValue::Object(members) => JsonValue::Object(copy_members(members)),
    }
}

/// Copies of array items.
pub(crate) fn copy_items(items: &Vec<JsonValue>) -> (r: Vec<JsonValue>)
    ensures
        items_view(r@) == items_view(items@),
    decreases items,
{
    let mut r: Vec<JsonValue> = Vec::new();
    let mut k: usize = 0;
    assert(items@.take(0) =~= Seq::<JsonValue>::empty());
    assert(r@ =~= Seq::<JsonValue>::empty());
    while k < items.len()
        invariant
            k <= items@.len(),
            items_view(r@) == items_view(items@.take(k as int)),
        decreases items@.len() - k,
    {
        assert(items@.take(k + 1).drop_last() =~= items@.take(k as int));
        assert(items@.take(k + 1).last() == items@[k as int]);
        let c = copy_json(&items[k]);
        let ghost before = r@;
        r.push(c);
        assert(r@.drop_last() =~= before);
        k = k + 1;
    }
    assert(items@.take(k as int) =~= items@);
    r
}

/// Copies of object members.
fn copy_members(members: &Vec<(String, JsonValue)>) -> (r: Vec<(String, JsonValue)>)
    ensures
        members_view(r@) == members_view(members@),
    decreases members,
{
    let mut r: Vec<(String, JsonValue)> = Vec::new();
    let mut k: usize = 0;
    assert(members@.take(0) =~= Seq::<(String, JsonValue)>::empty());
    assert(r@ =~= Seq::<(String, JsonValue)>::empty());
    while k < members.len()
        invariant
            k <= members@.len(),
            members_view(r@) == members_view(members@.take(k as int)),
        decreases members@.len() - k,
    {
        assert(members@.take(k + 1).drop_last() =~= members@.take(k as int));
        assert(members@.take(k + 1).last() == members@[k as int]);
        let c = copy_json(&members[k].1);
        let ghost before = r@;
        r.push((members[k].0.clone(), c));
        assert(r@.drop_last() =~= before);
        k = k + 1;
    }
    assert(members@.take(k as int) =~= members@);
    r
}


// ---------------------------------------------------------------------------
// Reading and writing JSON text with `serde_json`
// ---------------------------------------------------------------------------

/// A value of `serde_json`, read and built through the functions below.
#[verifier::external_type_specification]
#[verifier::external_body]
pub struct ExSerdeJsonValue(serde_json::Value);

/// The kind of a parsed JSON value, with its scalar where it has one.
pub enum JsonShape {
    Null,
    Bool(bool),
    Number(String),
    String(String),
    Array,
    Object,
}

/// Tells the variants of `serde_json::Value` apart; a number is written by its
/// `Display` impl.
#[verifier::external_body]
fn json_shape(v: &serde_json::Value) -> JsonShape {
    match v {
        serde_json::Value::Null => JsonShape::Null,
        serde_json::Value::Bool(b) => JsonShape::Bool(*b),
        serde_json::Value::Number(n) => JsonShape::Number(n.to_string()),
        serde_json::Value::String(t) => JsonShape::String(t.clone()),
        serde_json::Value::Array(_) => JsonShape::Array,
        serde_json::Value::Object(_) => JsonShape::Object,
    }
}

/// The items of a `serde_json::Value::Array`, in order; none for other values.
#[verifier::external_body]
fn json_items(v: &serde_json::Value) -> Vec<serde_json::Value> {
    match v {
        serde_json::Value::Array(items) => items.clone(),
        _ => Vec::new(),
    }
}

/// The members of a `serde_json::Value::Object`, in the map's order; none for
/// other values.
#[verifier::external_body]
fn json_members(v: &serde_json::Value) -> Vec<(String, serde_json::Value)> {
    match v {
        serde_json::Value::Object(m) => m.iter().map(|(k, x)| (k.clone(), x.clone())).collect(),
        _ => Vec::new(),
    }
}

/// A parsed JSON value in the library's form; `depth` bounds how deep the walk
/// goes (JSON text does not nest deeper than its length).
fn json_tree(v: &serde_json::Value, depth: usize) -> JsonValue
    decreases depth,
{
    match json_shape(v) {
        JsonShape::Null => JsonValue::Null,
        JsonShape::Bool(b) => JsonValue::Bool(b),
        JsonShape::Number(n) => JsonValue::Number(n),
        JsonShape::String(t) => JsonValue::String(t),
        JsonShape::Array => {
            let items = json_items(v);
            let mut out: Vec<JsonValue> = Vec::new();
            let mut k: usize = 0;
            while depth > 0 && k < items.len()
                decreases items.len() - k,
            {
                out.push(json_tree(&items[k], depth - 1));
                k = k + 1;
            }
            JsonValue::Array(out)
        },
        JsonShape::Object => {
            let members = json_members(v);
            let mut out: Vec<(String, JsonValue)> = Vec::new();
            let mut k: usize = 0;
            while depth > 0 && k < members.len()
                decreases members.len() - k,
            {
                let value = json_tree(&members[k].1, depth - 1);
                out.push((members[k].0.clone(), value));
                k = k + 1;
            }
            JsonValue::Object(out)
        },
    }
}

/// What `serde_json::from_slice::<serde_json::Value>` reads from `bytes`, in the
/// library's form, or the text of its error.
pub uninterp spec fn json_parsed(bytes: Seq<u8>) -> Result<JsonValue, Seq<char>>;

/// `serde_json::from_slice::<serde_json::Value>`: the value `bytes` hold in the
/// library's form, or the text of the error. The claim is that the result
/// depends on the bytes alone.
#[verifier::external_body]
fn json_from_slice(bytes: &[u8]) -> (r: Result<JsonValue, String>)
    ensures
        match r {
            Ok(v) => json_parsed(bytes@) == Ok::<JsonValue, Seq<char>>(v),
            Err(m) => json_parsed(bytes@) == Err::<JsonValue, Seq<char>>(m@),
        },
{
    match serde_json::from_slice::<serde_json::Value>(bytes) {
        Ok(v) => Ok(json_tree(&v, bytes.len())),
        Err(e) => Err(e.to_string()),
    }
}

/// JSON bytes parsed, or the text of the parser's error.
pub fn parse_json(bytes: &[u8]) -> (r: Result<JsonValue, String>)
    ensures
        match r {
            Ok(v) => json_parsed(bytes@) == Ok::<JsonValue, Seq<char>>(v),
            Err(m) => json_parsed(bytes@) == Err::<JsonValue, Seq<char>>(m@),
        },
{
    json_from_slice(bytes)
}

/// `serde_json::Value::Null`.
#[verifier::external_body]
fn serde_null() -> serde_json::Value {
    serde_json::Value::Null
}

/// `serde_json::Value::Bool`.
#[verifier::external_body]
fn serde_bool(b: bool) -> serde_json::Value {
    serde_json::Value::Bool(b)
}

/// `serde_json::Number`'s `FromStr`: the number written `text` (null where it is
/// not a JSON number).
#[verifier::external_body]
fn serde_number(text: &str) -> serde_json::Value {
    match text.parse::<serde_json::Number>() {
        Ok(n) => serde_json::Value::Number(n),
        Err(_) => serde_json::Value::Null,
    }
}

/// `serde_json::Value::String`.
#[verifier::external_body]
fn serde_string(t: &str) -> serde_json::Value {
    serde_json::Value::String(t.to_string())
}

/// `serde_json::Value::Array`.
#[verifier::external_body]
fn serde_array(items: Vec<serde_json::Value>) -> serde_json::Value {
    serde_json::Value::Array(items)
}

/// `serde_json::Value::Object`, built from `members` by `serde_json::Map`'s
/// `FromIterator`.
#[verifier::external_body]
fn serde_object(members: Vec<(String, serde_json::Value)>) -> serde_json::Value {
    serde_json::Value::Object(members.into_iter().collect())
}

/// A library JSON value in `serde_json`'s form.
fn to_serde(v: &JsonValue) -> serde_json::Value
    decreases v,
{
    match v {
        JsonValue::Null => serde_null(),
        JsonValue::Bool(b) => serde_bool(*b),
        JsonValue::Number(n) => serde_number(n.as_str()),
        JsonValue::String(t) => serde_string(t.as_str()),
        JsonValue::Array(items) => {
            let mut out: Vec<serde_json::Value> = Vec::new();
            let mut k: usize = 0;
            while k < items.len()
                invariant
                    forall|j: int| 0 <= j < items@.len() ==> decreases_to!(*v => items@[j]),
                decreases items.len() - k,
            {
                out.push(to_serde(&items[k]));
                k = k + 1;
            }
            serde_array(out)
        },
        JsonValue::Object(members) => {
            let mut out: Vec<(String, serde_json::Value)> = Vec::new();
            let mut k: usize = 0;
            while k < members.len()
                invariant
                    forall|j: int| 0 <= j < members@.len() ==> decreases_to!(*v => members@[j].1),
                decreases members.len() - k,
            {
                let value = to_serde(&members[k].1);
                out.push((members[k].0.clone(), value));
                k = k + 1;
            }
            serde_object(out)
        },
    }
}

/// The JSON text `serde_json` writes (by `serde_json::Value`'s `Display` impl)
/// for a value in the library's form.
pub uninterp spec fn json_rendered(v: JsonView) -> Seq<char>;

/// `serde_json::Value`'s `Display` impl: the compact JSON text of `v`. The claim
/// is that the text depends on the value alone.
#[verifier::external_body]
pub(crate) fn json_text(v: &JsonValue) -> (r: String)
    ensures
        r@ == json_rendered(jview(*v)),
{
    to_serde(v).to_string()
}
} // verus!
