//! JSON values: `serde_json::Value` behind a mathematical reading of what a
//! value holds.

use serde_json::Value;
use vstd::prelude::*;

verus! {

/// What a JSON value holds. A number is an integer, or the bit pattern of a
/// float; an object is its fields and the order in which it lists them.
#[verifier::ext_equal]
pub enum Json {
    Null,
    Bool(bool),
    Int(int),
    Float(u64),
    Text(Seq<char>),
    Array(Seq<Json>),
    Object { fields: Map<Seq<char>, Json>, order: Seq<Seq<char>> },
}

/// The value of an object's field; `None` where there is no such field, or
/// where the value is no object.
pub open spec fn field(j: Json, key: Seq<char>) -> Option<Json> {
    match j {
        Json::Object { fields, .. } => if fields.contains_key(key) {
            Some(fields[key])
        } else {
            None
        },
        _ => None,
    }
}

/// The fields of a JSON object.
pub open spec fn fields_in(j: Json) -> Option<Map<Seq<char>, Json>> {
    match j {
        Json::Object { fields, .. } => Some(fields),
        _ => None,
    }
}

/// The text that a JSON string holds.
pub open spec fn text_in(j: Json) -> Option<Seq<char>> {
    match j {
        Json::Text(s) => Some(s),
        _ => None,
    }
}

/// The number that a JSON number holds, where it is an integer that `u64` can
/// hold.
pub open spec fn u64_in(j: Json) -> Option<u64> {
    match j {
        Json::Int(i) => if 0 <= i <= u64::MAX {
            Some(i as u64)
        } else {
            None
        },
        _ => None,
    }
}

/// The number that a JSON number holds, where it is an integer that `i64` can
/// hold.
pub open spec fn i64_in(j: Json) -> Option<i64> {
    match j {
        Json::Int(i) => if i64::MIN <= i <= i64::MAX {
            Some(i as i64)
        } else {
            None
        },
        _ => None,
    }
}

/// The truth value that a JSON boolean holds.
pub open spec fn bool_in(j: Json) -> Option<bool> {
    match j {
        Json::Bool(b) => Some(b),
        _ => None,
    }
}

/// The text of the field `key`.
pub open spec fn text_field(j: Json, key: Seq<char>) -> Option<Seq<char>> {
    match field(j, key) {
        Some(v) => text_in(v),
        None => None,
    }
}

/// The views of a sequence of JSON values.
pub open spec fn json_seq(v: Seq<Value>) -> Seq<Json> {
    Seq::new(v.len(), |i: int| json_of(v[i]))
}

/// What an optional JSON value holds.
pub open spec fn json_opt(v: Option<Value>) -> Option<Json> {
    match v {
        Some(x) => Some(json_of(x)),
        None => None,
    }
}

/// `serde_json::Value`, opaque but for what [`json_of`] says it holds.
#[verifier::external_type_specification]
#[verifier::external_body]
pub struct ExValue(Value);

/// What a `serde_json::Value` holds.
pub uninterp spec fn json_of(v: Value) -> Json;

/// `Value::clone` gives a value that holds the same.
pub assume_specification[ <Value as Clone>::clone ](v: &Value) -> (r: Value)
    ensures
        json_of(r) == json_of(*v),
;

/// `Value::as_str` gives the text of a JSON string and `None` for any other
/// value.
pub assume_specification[ Value::as_str ](v: &Value) -> (r: Option<&str>)
    ensures
        match r {
            Some(s) => text_in(json_of(*v)) == Some(s@),
            None => text_in(json_of(*v)) is None,
        },
;

/// `Value::as_u64` gives a number that is an integer in the range of `u64`.
pub assume_specification[ Value::as_u64 ](v: &Value) -> (r: Option<u64>)
    ensures
        r == u64_in(json_of(*v)),
;

/// `Value::as_i64` gives a number that is an integer in the range of `i64`.
pub assume_specification[ Value::as_i64 ](v: &Value) -> (r: Option<i64>)
    ensures
        r == i64_in(json_of(*v)),
;

/// `Value::as_bool` gives the truth value of a JSON boolean.
pub assume_specification[ Value::as_bool ](v: &Value) -> (r: Option<bool>)
    ensures
        r == bool_in(json_of(*v)),
;

/// `Value::as_array` gives the elements of a JSON array.
pub assume_specification[ Value::as_array ](v: &Value) -> (r: Option<&Vec<Value>>)
    ensures
        match r {
            Some(a) => json_of(*v) == Json::Array(json_seq(a@)),
            None => !(json_of(*v) is Array),
        },
;

/// Calls `Value::get` with a string index: the field of that name, `None`
/// where there is none or the value is no object.
#[verifier::external_body]
pub(crate) fn get<'a>(v: &'a Value, key: &str) -> (r: Option<&'a Value>)
    ensures
        match r {
            Some(x) => field(json_of(*v), key@) == Some(json_of(*x)),
            None => field(json_of(*v), key@) is None,
        },
{
    v.get(key)
}

/// The JSON text of a value, as `Value::to_string` writes it.
pub uninterp spec fn json_text(j: Json) -> Seq<char>;

/// Calls `Value::to_string`, which writes a value as compact JSON text; the
/// text depends on what the value holds alone.
#[verifier::external_body]
pub(crate) fn text_of(v: &Value) -> (r: String)
    ensures
        r@ == json_text(json_of(*v)),
{
    v.to_string()
}

/// What `serde_json::from_str` reads from a text: a value, or what it says of
/// the text that it cannot read.
pub uninterp spec fn json_parsed(text: Seq<char>) -> Result<Json, Seq<char>>;

/// Calls `serde_json::from_str` for a `Value`; the result depends on the text
/// alone. An error is given as the text it prints.
#[verifier::external_body]
pub(crate) fn parse(text: &str) -> (r: Result<Value, String>)
    ensures
        match r {
            Ok(v) => json_parsed(text@) == Ok::<Json, Seq<char>>(json_of(v)),
            Err(e) => json_parsed(text@) == Err::<Json, Seq<char>>(e@),
        },
{
    serde_json::from_str(text).map_err(|e| e.to_string())
}

/// The value that a text stands for, or null where it stands for none.
pub open spec fn parsed_or_null(text: Seq<char>) -> Json {
    match json_parsed(text) {
        Ok(j) => j,
        Err(_) => Json::Null,
    }
}

/// The value that a text stands for, or null where it stands for none.
pub(crate) fn parse_or_null(text: &str) -> (r: Value)
    ensures
        json_of(r) == parsed_or_null(text@),
{
    match parse(text) {
        Ok(v) => v,
        Err(_) => null(),
    }
}

/// Builds `Value::String`.
#[verifier::external_body]
pub(crate) fn string(s: String) -> (r: Value)
    ensures
        json_of(r) == Json::Text(s@),
{
    Value::String(s)
}

/// Builds `Value::Null`.
#[verifier::external_body]
pub(crate) fn null() -> (r: Value)
    ensures
        json_of(r) == Json::Null,
{
    Value::Null
}

/// Builds a JSON number from an integer.
#[verifier::external_body]
pub(crate) fn integer(n: u64) -> (r: Value)
    ensures
        json_of(r) == Json::Int(n as int),
{
    Value::from(n)
}

/// Builds a JSON number from an integer that may be negative.
#[verifier::external_body]
pub(crate) fn signed_integer(n: i64) -> (r: Value)
    ensures
        json_of(r) == Json::Int(n as int),
{
    Value::from(n)
}

/// Builds `Value::Array`.
#[verifier::external_body]
pub(crate) fn array(items: Vec<Value>) -> (r: Value)
    ensures
        json_of(r) == Json::Array(json_seq(items@)),
{
    Value::Array(items)
}

/// Builds `Value::Object` from its fields, whose names differ: each name holds
/// the value given with it, and there are no others. The order in which the
/// object lists them is left open.
#[verifier::external_body]
pub(crate) fn object(fields: Vec<(String, Value)>) -> (r: Value)
    requires
        distinct_fields(fields@),
    ensures
        fields_in(json_of(r)) == Some(fields_map(fields@)),
{
    Value::Object(fields.into_iter().collect())
}

/// The fields that a list of named values stands for.
pub open spec fn fields_map(s: Seq<(String, Value)>) -> Map<Seq<char>, Json>
    decreases s.len(),
{
    if s.len() == 0 {
        Map::empty()
    } else {
        fields_map(s.drop_last()).insert(s.last().0@, json_of(s.last().1))
    }
}

/// No two of the named values have the same name.
pub open spec fn distinct_fields(s: Seq<(String, Value)>) -> bool {
    forall|i: int, j: int| 0 <= i < j < s.len() ==> (#[trigger] s[i]).0@ != (#[trigger] s[j]).0@
}

/// The text of the field `key`, where `v` is an object that has it and it is a
/// string.
pub fn str_field<'a>(v: &'a Value, key: &str) -> (r: Option<&'a str>)
    ensures
        match r {
            Some(s) => text_field(json_of(*v), key@) == Some(s@),
            None => text_field(json_of(*v), key@) is None,
        },
{
    match get(v, key) {
        Some(x) => x.as_str(),
        None => None,
    }
}

/// An object without fields.
pub(crate) fn empty_object() -> (r: Value)
    ensures
        fields_in(json_of(r)) == Some(Map::<Seq<char>, Json>::empty()),
{
    let v: Vec<(String, Value)> = Vec::new();
    object(v)
}

/// An object with one field.
pub(crate) fn object1(name: &str, value: Value) -> (r: Value)
    ensures
        fields_in(json_of(r)) == Some(
            Map::<Seq<char>, Json>::empty().insert(name@, json_of(value)),
        ),
{
    let mut v: Vec<(String, Value)> = Vec::new();
    v.push((name.to_owned(), value));
    assert(v@.drop_last() =~= Seq::empty());
    assert(fields_map(v@.drop_last()) =~= Map::empty());
    object(v)
}

/// An object with two fields.
pub(crate) fn object2(name1: &str, value1: Value, name2: &str, value2: Value) -> (r: Value)
    requires
        name1@ != name2@,
    ensures
        fields_in(json_of(r)) == Some(
            Map::<Seq<char>, Json>::empty().insert(name1@, json_of(value1)).insert(
                name2@,
                json_of(value2),
            ),
        ),
{
    let mut v: Vec<(String, Value)> = Vec::new();
    v.push((name1.to_owned(), value1));
    let ghost first = v@;
    v.push((name2.to_owned(), value2));
    proof {
        assert(v@.drop_last() =~= first);
        assert(first.drop_last() =~= Seq::empty());
        assert(fields_map(first.drop_last()) =~= Map::empty());
        assert(fields_map(first) == Map::<Seq<char>, Json>::empty().insert(name1@, json_of(value1)));
    }
    object(v)
}

/// An object with three fields.
pub(crate) fn object3(
    name1: &str,
    value1: Value,
    name2: &str,
    value2: Value,
    name3: &str,
    value3: Value,
) -> (r: Value)
    requires
        name1@ != name2@,
        name1@ != name3@,
        name2@ != name3@,
    ensures
        fields_in(json_of(r)) == Some(
            Map::<Seq<char>, Json>::empty().insert(name1@, json_of(value1)).insert(
                name2@,
                json_of(value2),
            ).insert(name3@, json_of(value3)),
        ),
{
    let mut v: Vec<(String, Value)> = Vec::new();
    v.push((name1.to_owned(), value1));
    let ghost first = v@;
    v.push((name2.to_owned(), value2));
    let ghost second = v@;
    v.push((name3.to_owned(), value3));
    proof {
        assert(v@.drop_last() =~= second);
        assert(second.drop_last() =~= first);
        assert(first.drop_last() =~= Seq::empty());
        assert(fields_map(first.drop_last()) =~= Map::empty());
        assert(fields_map(first) == Map::<Seq<char>, Json>::empty().insert(name1@, json_of(value1)));
        assert(fields_map(second) == fields_map(first).insert(name2@, json_of(value2)));
    }
    object(v)
}

/// What is read of a value: a field only of an object, a text only of a string,
/// a number only of an integer that fits, a truth value only of one.
pub proof fn law_values_are_read(j: Json, key: Seq<char>)
    ensures
        field(j, key) is Some <==> j is Object && j->fields.contains_key(key),
        field(j, key) is Some ==> field(j, key)->0 == j->fields[key],
        text_in(j) is Some <==> j is Text,
        text_in(j) is Some ==> text_in(j)->0 == j->Text_0,
        u64_in(j) is Some <==> j is Int && 0 <= j->Int_0 <= u64::MAX,
        u64_in(j) is Some ==> u64_in(j)->0 == j->Int_0,
        i64_in(j) is Some <==> j is Int && i64::MIN <= j->Int_0 <= i64::MAX,
        i64_in(j) is Some ==> i64_in(j)->0 == j->Int_0,
        bool_in(j) is Some <==> j is Bool,
        bool_in(j) is Some ==> bool_in(j)->0 == j->Bool_0,
        text_field(j, key) is Some <==> field(j, key) is Some && field(j, key)->0 is Text,
        text_field(j, key) is Some ==> text_field(j, key)->0 == field(j, key)->0->Text_0,
{
}

} // verus!
