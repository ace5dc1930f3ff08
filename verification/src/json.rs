//! JSON values: the data that scenarios and recipe steps carry.
//!
//! `JsonValue` is the library's own tree of plain values. Its text form is that of
//! `serde_json`, which the last part of this module calls.
use crate::numeral::{decimal, signed_decimal, write_decimal, write_signed};
use crate::string_map::{ascending, lemma_value_decreases, StringMap};
use crate::text::{lemma_text_order, to_chars, views};
use vstd::prelude::*;

verus! {

broadcast use lemma_value_decreases;

/// A JSON number.
#[derive(Debug, PartialEq)]
pub enum Number {
    /// An integer that is not negative.
    Unsigned(u64),
    /// An integer.
    Signed(i64),
    /// A number with a fraction or an exponent, in the text form that
    /// `serde_json` prints it in.
    Float(String),
}

/// A JSON value.
#[derive(Debug, PartialEq)]
pub enum JsonValue {
    Null,
    Bool(bool),
    Number(Number),
    String(String),
    Array(Vec<JsonValue>),
    Object(StringMap<JsonValue>),
}

/// The model of a JSON number.
pub enum JsonNumber {
    Unsigned(u64),
    Signed(i64),
    Float(Seq<char>),
}

/// The model of a JSON value.
#[verifier::ext_equal]
pub enum Json {
    Null,
    Bool(bool),
    Number(JsonNumber),
    String(Seq<char>),
    Array(Seq<Json>),
    Object(Map<Seq<char>, Json>),
}

impl View for Number {
    type V = JsonNumber;

    open spec fn view(&self) -> JsonNumber {
        match self {
            Number::Unsigned(n) => JsonNumber::Unsigned(*n),
            Number::Signed(n) => JsonNumber::Signed(*n),
            Number::Float(text) => JsonNumber::Float(text@),
        }
    }
}

impl JsonValue {
    /// The tree that this value is.
    pub open spec fn json(self) -> Json
        decreases self,
    {
        match self {
            JsonValue::Null => Json::Null,
            JsonValue::Bool(b) => Json::Bool(b),
            JsonValue::Number(n) => Json::Number(n@),
            JsonValue::String(s) => Json::String(s@),
            JsonValue::Array(items) => Json::Array(
                Seq::new(
                    items@.len(),
                    |i: int|
                        if 0 <= i < items@.len() {
                            items@[i].json()
                        } else {
                            Json::Null
                        },
                ),
            ),
            JsonValue::Object(fields) => Json::Object(
                Map::new(
                    |key: Seq<char>| fields.has(key),
                    |key: Seq<char>|
                        if fields.has(key) {
                            fields.at(key).json()
                        } else {
                            Json::Null
                        },
                ),
            ),
        }
    }
}

impl View for JsonValue {
    type V = Json;

    open spec fn view(&self) -> Json {
        self.json()
    }
}

/// The trees of a list of values.
pub open spec fn jsons(items: Seq<JsonValue>) -> Seq<Json> {
    items.map_values(|v: JsonValue| v@)
}

/// The trees of a map of values.
pub open spec fn json_fields(fields: Map<Seq<char>, JsonValue>) -> Map<Seq<char>, Json> {
    fields.map_values(|v: JsonValue| v@)
}

/// The field of an object; nothing where there is none or `json` is no object.
pub open spec fn field(json: Json, key: Seq<char>) -> Option<Json> {
    match json {
        Json::Object(fields) if fields.contains_key(key) => Some(fields[key]),
        _ => None,
    }
}

/// The text of a string value; nothing for a value of another kind.
pub open spec fn string_of(json: Json) -> Option<Seq<char>> {
    match json {
        Json::String(s) => Some(s),
        _ => None,
    }
}

/// The text of a field that holds a string.
pub open spec fn string_field(json: Json, key: Seq<char>) -> Option<Seq<char>> {
    match field(json, key) {
        Some(v) => string_of(v),
        None => None,
    }
}

/// An array value is the list of its items' trees.
pub proof fn lemma_array_view(items: Vec<JsonValue>)
    ensures
        JsonValue::Array(items)@ == Json::Array(jsons(items@)),
{
    assert(JsonValue::Array(items)@->Array_0 =~= jsons(items@));
}

/// An object value is the map of its fields' trees.
pub proof fn lemma_object_view(fields: StringMap<JsonValue>)
    ensures
        JsonValue::Object(fields)@ == Json::Object(json_fields(fields@)),
{
    assert(JsonValue::Object(fields)@->Object_0 =~= json_fields(fields@));
}

impl Clone for Number {
    fn clone(&self) -> (copy: Self)
        ensures
            copy == *self,
    {
        match self {
            Number::Unsigned(n) => Number::Unsigned(*n),
            Number::Signed(n) => Number::Signed(*n),
            Number::Float(text) => Number::Float(text.clone()),
        }
    }
}

impl Clone for JsonValue {
    fn clone(&self) -> (copy: Self)
        ensures
            copy@ == self@,
        decreases self,
    {
        match self {
            JsonValue::Null => JsonValue::Null,
            JsonValue::Bool(b) => JsonValue::Bool(*b),
            JsonValue::Number(n) => JsonValue::Number(n.clone()),
            JsonValue::String(s) => JsonValue::String(s.clone()),
            JsonValue::Array(items) => {
                let mut copies: Vec<JsonValue> = Vec::new();
                let mut i: usize = 0;
                while i < items.len()
                    invariant
                        i <= items@.len(),
                        *self == JsonValue::Array(*items),
                        copies@.len() == i,
                        forall|j: int| 0 <= j < i ==> (#[trigger] copies@[j])@ == items@[j]@,
                    decreases items@.len() - i,
                {
                    assert(decreases_to!(*self => self->Array_0));
                    assert(decreases_to!(*items => items@));
                    assert(decreases_to!(items@ => items@[i as int]));
                    copies.push(items[i].clone());
                    i += 1;
                }
                proof {
                    lemma_array_view(*items);
                    lemma_array_view(copies);
                    assert(jsons(copies@) =~= jsons(items@));
                }
                JsonValue::Array(copies)
            },
            JsonValue::Object(fields) => {
                let mut copies: StringMap<JsonValue> = StringMap::new();
                let n: usize = fields.len();
                let mut i: usize = 0;
                while i < n
                    invariant
                        i <= n == fields.entries().len(),
                        *self == JsonValue::Object(*fields),
                        forall|key: Seq<char>| #[trigger]
                            copies@.contains_key(key) <==> exists|j: int|
                                0 <= j < i && #[trigger] fields.keys()[j] == key,
                        forall|key: Seq<char>| #[trigger]
                            copies@.contains_key(key) ==> copies@[key]@ == fields@[key]@,
                    decreases n - i,
                {
                    let key = fields.key_at(i).clone();
                    let value = fields.value_at(i);
                    assert(fields.has(key@));
                    assert(decreases_to!(*self => self->Object_0));
                    let copy = value.clone();
                    let ghost before = copies@;
                    copies.insert(key, copy);
                    assert forall|k: Seq<char>| #[trigger] copies@.contains_key(k) <==> exists|j: int|
                        0 <= j < i + 1 && #[trigger] fields.keys()[j] == k by {
                        if k == key@ {
                            assert(fields.keys()[i as int] == k);
                        } else if before.contains_key(k) {
                            let j = choose|j: int| 0 <= j < i && #[trigger] fields.keys()[j] == k;
                            assert(fields.keys()[j] == k);
                        }
                    }
                    i += 1;
                }
                proof {
                    lemma_object_view(*fields);
                    lemma_object_view(copies);
                    assert forall|key: Seq<char>| copies@.contains_key(key) == fields@.contains_key(
                        key,
                    ) by {
                        if fields.has(key) {
                            let j = choose|j: int|
                                0 <= j < fields.entries().len() && #[trigger] fields.keys()[j] == key;
                            assert(0 <= j < n && fields.keys()[j] == key);
                        }
                    }
                    assert(json_fields(copies@) =~= json_fields(fields@));
                }
                JsonValue::Object(copies)
            },
        }
    }
}

impl JsonValue {
    /// The field `key` of an object.
    pub fn get(&self, key: &str) -> (value: Option<&JsonValue>)
        ensures
            match value {
                Some(v) => field(self@, key@) == Some(v@),
                None => field(self@, key@) is None,
            },
    {
        match self {
            JsonValue::Object(fields) => {
                proof {
                    lemma_object_view(*fields);
                }
                fields.get(key)
            },
            _ => None,
        }
    }

    /// The text of a string.
    pub fn as_str(&self) -> (text: Option<&str>)
        ensures
            match text {
                Some(s) => string_of(self@) == Some(s@),
                None => string_of(self@) is None,
            },
    {
        match self {
            JsonValue::String(s) => Some(s.as_str()),
            _ => None,
        }
    }

    /// The text of the string that the field `key` holds.
    pub fn str_field(&self, key: &str) -> (text: Option<&str>)
        ensures
            match text {
                Some(s) => string_field(self@, key@) == Some(s@),
                None => string_field(self@, key@) is None,
            },
    {
        match self.get(key) {
            Some(v) => v.as_str(),
            None => None,
        }
    }
}

/// The string value with the text `text`.
pub fn string_value(text: &str) -> (value: JsonValue)
    ensures
        value@ == Json::String(text@),
{
    JsonValue::String(text.to_string())
}

/// The integer `n` as a JSON number.
pub open spec fn integer_json(n: int) -> Json {
    if n >= 0 {
        Json::Number(JsonNumber::Unsigned(n as u64))
    } else {
        Json::Number(JsonNumber::Signed(n as i64))
    }
}

/// The integer `n` as a JSON number.
pub fn integer_value(n: i32) -> (value: JsonValue)
    ensures
        value@ == integer_json(n as int),
{
    if n >= 0 {
        JsonValue::Number(Number::Unsigned(n as u64))
    } else {
        JsonValue::Number(Number::Signed(n as i64))
    }
}

/// The array of the values `items`.
pub fn array_value(items: &Vec<JsonValue>) -> (value: JsonValue)
    ensures
        value@ == Json::Array(jsons(items@)),
{
    let mut copies: Vec<JsonValue> = Vec::new();
    let mut i: usize = 0;
    while i < items.len()
        invariant
            i == copies@.len() <= items@.len(),
            forall|j: int| 0 <= j < i ==> (#[trigger] copies@[j])@ == items@[j]@,
        decreases items@.len() - i,
    {
        copies.push(items[i].clone());
        i += 1;
    }
    proof {
        lemma_array_view(copies);
        assert(jsons(copies@) =~= jsons(items@));
    }
    JsonValue::Array(copies)
}

/// The array of string values with the texts `items`.
pub open spec fn strings_json(items: Seq<Seq<char>>) -> Json {
    Json::Array(items.map_values(|text: Seq<char>| Json::String(text)))
}

/// The array of string values with the texts `items`.
pub fn strings_value(items: &Vec<String>) -> (value: JsonValue)
    ensures
        value@ == strings_json(views(items@)),
{
    let mut values: Vec<JsonValue> = Vec::new();
    let mut i: usize = 0;
    while i < items.len()
        invariant
            i == values@.len() <= items@.len(),
            forall|j: int| 0 <= j < i ==> (#[trigger] values@[j])@ == Json::String(items@[j]@),
        decreases items@.len() - i,
    {
        values.push(string_value(items[i].as_str()));
        i += 1;
    }
    proof {
        lemma_array_view(values);
        assert(jsons(values@) =~= views(items@).map_values(|text: Seq<char>| Json::String(text)));
    }
    JsonValue::Array(values)
}

/// The object with the fields `fields`.
pub fn object_value(fields: StringMap<JsonValue>) -> (value: JsonValue)
    ensures
        value@ == Json::Object(json_fields(fields@)),
{
    proof {
        lemma_object_view(fields);
    }
    JsonValue::Object(fields)
}

/// No fields.
pub fn no_fields() -> (fields: StringMap<JsonValue>)
    ensures
        json_fields(fields@) == Map::<Seq<char>, Json>::empty(),
{
    let fields: StringMap<JsonValue> = StringMap::new();
    assert(json_fields(fields@) =~= Map::<Seq<char>, Json>::empty());
    fields
}

/// Sets the field `key` to `value`.
pub fn put_field(fields: &mut StringMap<JsonValue>, key: &str, value: JsonValue)
    ensures
        json_fields(final(fields)@) == json_fields(old(fields)@).insert(key@, value@),
{
    let ghost before = fields@;
    let ghost set = value@;
    fields.insert(key.to_string(), value);
    assert(json_fields(fields@) =~= json_fields(before).insert(key@, set));
}

/// Sets every field that `more` has to the value that it has there.
pub fn put_fields(fields: &mut StringMap<JsonValue>, more: &StringMap<JsonValue>)
    ensures
        json_fields(final(fields)@) == json_fields(old(fields)@).union_prefer_right(
            json_fields(more@),
        ),
{
    let ghost before = json_fields(fields@);
    let n: usize = more.len();
    let mut i: usize = 0;
    while i < n
        invariant
            i <= n == more.entries().len(),
            ascending(more.keys()),
            forall|key: Seq<char>| #[trigger]
                json_fields(fields@).contains_key(key) <==> before.contains_key(key) || exists|
                    j: int,
                |
                    0 <= j < i && #[trigger] more.keys()[j] == key,
            forall|j: int|
                0 <= j < i ==> json_fields(fields@)[#[trigger] more.keys()[j]]
                    == json_fields(more@)[more.keys()[j]],
            forall|key: Seq<char>|
                before.contains_key(key) && !(exists|j: int|
                    0 <= j < i && #[trigger] more.keys()[j] == key) ==> #[trigger] json_fields(
                    fields@,
                )[key] == before[key],
        decreases n - i,
    {
        let key = more.key_at(i);
        let value = more.value_at(i);
        let ghost previous = json_fields(fields@);
        put_field(fields, key.as_str(), value.clone());
        proof {
            let now = json_fields(fields@);
            assert(now == previous.insert(key@, value@));
            assert forall|k: Seq<char>| #[trigger] now.contains_key(k) <==> before.contains_key(k)
                || exists|j: int| 0 <= j < i + 1 && #[trigger] more.keys()[j] == k by {
                if k == key@ {
                    assert(more.keys()[i as int] == k);
                } else if previous.contains_key(k) && !before.contains_key(k) {
                    let j = choose|j: int| 0 <= j < i && #[trigger] more.keys()[j] == k;
                    assert(more.keys()[j] == k);
                }
            }
            assert forall|j: int| 0 <= j < i + 1 implies now[#[trigger] more.keys()[j]]
                == json_fields(more@)[more.keys()[j]] by {
                if j < i {
                    lemma_text_order(more.keys()[j], more.keys()[i as int], more.keys()[j]);
                }
            }
            assert forall|k: Seq<char>|
                before.contains_key(k) && !(exists|j: int|
                    0 <= j < i + 1 && #[trigger] more.keys()[j] == k) implies #[trigger] now[k]
                == before[k] by {
                assert(more.keys()[i as int] != k);
            }
        }
        i += 1;
    }
    proof {
        let now = json_fields(fields@);
        let both = before.union_prefer_right(json_fields(more@));
        assert forall|k: Seq<char>| now.contains_key(k) == both.contains_key(k) && (
        now.contains_key(k) ==> now[k] == both[k]) by {
            if more.has(k) {
                let j = choose|j: int|
                    0 <= j < more.entries().len() && #[trigger] more.keys()[j] == k;
                assert(0 <= j < n && more.keys()[j] == k);
            } else {
                assert(!(exists|j: int| 0 <= j < n && #[trigger] more.keys()[j] == k));
            }
        }
        assert(now =~= both);
    }
}

// ---------------------------------------------------------------------------
// Text forms, as `serde_json` prints them
// ---------------------------------------------------------------------------

/// `serde_json::Value`, carried from the constructors below to the printer.
#[verifier::external_type_specification]
#[verifier::external_body]
pub struct ExSerdeValue(serde_json::Value);

/// What a `serde_json::Value` holds: it was built from `json`, each kind of
/// value by the constructor of that kind.
pub uninterp spec fn represents(outside: serde_json::Value, json: Json) -> bool;

/// The compact JSON text that the `Display` of `serde_json::Value` prints for
/// the value built from `json`.
pub uninterp spec fn json_text(json: Json) -> Seq<char>;

/// `serde_json::Value::from(())` is the null value.
#[verifier::external_body]
fn outside_null() -> (outside: serde_json::Value)
    ensures
        represents(outside, Json::Null),
{
    serde_json::Value::from(())
}

/// `serde_json::Value::from(bool)` is that boolean.
#[verifier::external_body]
fn outside_bool(b: bool) -> (outside: serde_json::Value)
    ensures
        represents(outside, Json::Bool(b)),
{
    serde_json::Value::from(b)
}

/// `serde_json::Value::from(u64)` is that integer.
#[verifier::external_body]
fn outside_unsigned(n: u64) -> (outside: serde_json::Value)
    ensures
        represents(outside, Json::Number(JsonNumber::Unsigned(n))),
{
    serde_json::Value::from(n)
}

/// `serde_json::Value::from(i64)` is that integer.
#[verifier::external_body]
fn outside_signed(n: i64) -> (outside: serde_json::Value)
    ensures
        represents(outside, Json::Number(JsonNumber::Signed(n))),
{
    serde_json::Value::from(n)
}

/// `serde_json::Number::from_f64` of the float that the text denotes.
#[verifier::external_body]
fn outside_float(text: &str) -> (outside: serde_json::Value)
    ensures
        represents(outside, Json::Number(JsonNumber::Float(text@))),
{
    serde_json::Value::from(text.parse().ok().and_then(serde_json::Number::from_f64))
}

/// `serde_json::Value::from(String)` is that string.
#[verifier::external_body]
fn outside_string(s: String) -> (outside: serde_json::Value)
    ensures
        represents(outside, Json::String(s@)),
{
    serde_json::Value::from(s)
}

/// `serde_json::Value::from(Vec)` is the array of those values.
#[verifier::external_body]
fn outside_array(items: Vec<serde_json::Value>) -> (outside: serde_json::Value)
    ensures
        forall|json: Seq<Json>|
            json.len() == items@.len() && (forall|i: int|
                0 <= i < json.len() ==> represents(items@[i], #[trigger] json[i]))
                ==> #[trigger] represents(outside, Json::Array(json)),
{
    serde_json::Value::from(items)
}

/// `serde_json::Value::from_iter` over pairs is the object with those fields.
/// Nothing is said of keys that occur more than once.
#[verifier::external_body]
fn outside_object(fields: Vec<(String, serde_json::Value)>) -> (outside: serde_json::Value)
    ensures
        forall|json: Map<Seq<char>, Json>|
            fields_represent(fields@, json) ==> #[trigger] represents(outside, Json::Object(json)),
{
    serde_json::Value::from_iter(fields)
}

/// The `Display` of `serde_json::Value` prints the compact JSON text of the value.
#[verifier::external_body]
fn outside_text(outside: &serde_json::Value) -> (text: String)
    ensures
        forall|json: Json| #[trigger] represents(*outside, json) ==> text@ == json_text(json),
{
    outside.to_string()
}

/// Whether `fields` lists each key of `json` once, with a value that was built
/// from what `json` holds for it.
pub open spec fn fields_represent(
    fields: Seq<(String, serde_json::Value)>,
    json: Map<Seq<char>, Json>,
) -> bool {
    &&& forall|i: int, j: int|
        0 <= i < j < fields.len() ==> (#[trigger] fields[i]).0@ != (#[trigger] fields[j]).0@
    &&& forall|i: int|
        0 <= i < fields.len() ==> json.contains_key((#[trigger] fields[i]).0@) && represents(
            fields[i].1,
            json[fields[i].0@],
        )
    &&& forall|key: Seq<char>| #[trigger]
        json.contains_key(key) ==> exists|i: int|
            0 <= i < fields.len() && (#[trigger] fields[i]).0@ == key
}

fn to_outside(value: &JsonValue) -> (outside: serde_json::Value)
    ensures
        represents(outside, value@),
    decreases value,
{
    match value {
        JsonValue::Null => outside_null(),
        JsonValue::Bool(b) => outside_bool(*b),
        JsonValue::Number(Number::Unsigned(n)) => outside_unsigned(*n),
        JsonValue::Number(Number::Signed(n)) => outside_signed(*n),
        JsonValue::Number(Number::Float(text)) => outside_float(text.as_str()),
        JsonValue::String(s) => outside_string(s.clone()),
        JsonValue::Array(items) => {
            let mut built: Vec<serde_json::Value> = Vec::new();
            let mut i: usize = 0;
            while i < items.len()
                invariant
                    i <= items@.len(),
                    *value == JsonValue::Array(*items),
                    built@.len() == i,
                    forall|j: int| 0 <= j < i ==> represents(#[trigger] built@[j], items@[j]@),
                decreases items@.len() - i,
            {
                assert(decreases_to!(*value => value->Array_0));
                assert(decreases_to!(*items => items@));
                assert(decreases_to!(items@ => items@[i as int]));
                built.push(to_outside(&items[i]));
                i += 1;
            }
            proof {
                lemma_array_view(*items);
                assert forall|i: int| 0 <= i < items@.len() implies represents(
                    built@[i],
                    #[trigger] jsons(items@)[i],
                ) by {
                    assert(jsons(items@)[i] == items@[i]@);
                }
            }
            outside_array(built)
        },
        JsonValue::Object(fields) => {
            let mut built: Vec<(String, serde_json::Value)> = Vec::new();
            let n: usize = fields.len();
            let mut i: usize = 0;
            while i < n
                invariant
                    i <= n == fields.entries().len(),
                    *value == JsonValue::Object(*fields),
                    built@.len() == i,
                    forall|j: int|
                        0 <= j < i ==> (#[trigger] built@[j]).0@ == fields.keys()[j]
                            && fields@.contains_key(fields.keys()[j]) && represents(
                            built@[j].1,
                            fields@[fields.keys()[j]]@,
                        ),
                decreases n - i,
            {
                let key = fields.key_at(i).clone();
                assert(fields.has(key@));
                assert(decreases_to!(*value => value->Object_0));
                let item = to_outside(fields.value_at(i));
                built.push((key, item));
                i += 1;
            }
            proof {
                lemma_object_view(*fields);
                let json = json_fields(fields@);
                assert forall|i: int, j: int| 0 <= i < j < built@.len() implies (
                #[trigger] built@[i]).0@ != (#[trigger] built@[j]).0@ by {
                    let (a, b) = (fields.keys()[i], fields.keys()[j]);
                    lemma_text_order(a, b, a);
                }
                assert forall|key: Seq<char>| #[trigger] json.contains_key(key) implies exists|i: int|
                    0 <= i < built@.len() && (#[trigger] built@[i]).0@ == key by {
                    let j = choose|j: int|
                        0 <= j < fields.entries().len() && #[trigger] fields.keys()[j] == key;
                    assert(built@[j].0@ == key);
                }
                assert(fields_represent(built@, json));
            }
            outside_object(built)
        },
    }
}

/// The text form of a number.
pub open spec fn number_text(number: JsonNumber) -> Seq<char> {
    match number {
        JsonNumber::Unsigned(n) => decimal(n as nat),
        JsonNumber::Signed(n) => signed_decimal(n as int),
        JsonNumber::Float(text) => text,
    }
}

/// Whether a number is other than zero. A float is zero where no digit in
/// front of its exponent is other than `0`.
pub open spec fn number_nonzero(number: JsonNumber) -> bool {
    match number {
        JsonNumber::Unsigned(n) => n != 0,
        JsonNumber::Signed(n) => n != 0,
        JsonNumber::Float(text) => exists|i: int|
            0 <= i < text.len() && '1' <= #[trigger] text[i] <= '9' && !text.take(i).contains('e')
                && !text.take(i).contains('E'),
    }
}

impl Number {
    /// The text form of this number.
    pub fn text(&self) -> (text: String)
        ensures
            text@ == number_text(self@),
    {
        match self {
            Number::Unsigned(n) => write_decimal(*n),
            Number::Signed(n) => write_signed(*n),
            Number::Float(text) => text.clone(),
        }
    }

    /// Whether this number is other than zero.
    pub fn is_nonzero(&self) -> (r: bool)
        ensures
            r == number_nonzero(self@),
    {
        match self {
            Number::Unsigned(n) => *n != 0,
            Number::Signed(n) => *n != 0,
            Number::Float(text) => {
                let chars = to_chars(text.as_str());
                let mut i: usize = 0;
                while i < chars.len()
                    invariant
                        i <= chars@.len(),
                        chars@ == text@,
                        *self == Number::Float(*text),
                        !text@.take(i as int).contains('e'),
                        !text@.take(i as int).contains('E'),
                        forall|j: int| 0 <= j < i ==> !('1' <= #[trigger] text@[j] <= '9'),
                    decreases chars@.len() - i,
                {
                    let c = chars[i];
                    if '1' <= c && c <= '9' {
                        assert(self@ == JsonNumber::Float(text@));
                        assert(text@[i as int] == c);
                        return true;
                    }
                    if c == 'e' || c == 'E' {
                        proof {
                            assert forall|j: int| i < j < text@.len() implies text@.take(
                                j,
                            ).contains(c) by {
                                assert(text@.take(j)[i as int] == c);
                            }
                        }
                        return false;
                    }
                    assert(text@.take(i + 1) =~= text@.take(i as int).push(c));
                    i += 1;
                }
                false
            },
        }
    }
}

impl JsonValue {
    /// The compact JSON text of this value.
    pub fn to_json_text(&self) -> (text: String)
        ensures
            text@ == json_text(self@),
    {
        outside_text(&to_outside(self))
    }
}

// ---------------------------------------------------------------------------
// Laws
// ---------------------------------------------------------------------------


/// The model of a value: scalars as they are, arrays item by item, objects field by field.
pub proof fn law_model_of_values(
    b: bool,
    n: Number,
    s: String,
    items: Vec<JsonValue>,
    fields: StringMap<JsonValue>,
)
    ensures
        JsonValue::Null@ == Json::Null,
        JsonValue::Bool(b)@ == Json::Bool(b),
        JsonValue::Number(n)@ == Json::Number(n@),
        JsonValue::String(s)@ == Json::String(s@),
        JsonValue::Array(items)@ matches Json::Array(list) && list.len() == items@.len() && forall|
            i: int,
        |
            0 <= i < items@.len() ==> #[trigger] list[i] == items@[i]@,
        JsonValue::Object(fields)@ matches Json::Object(map) && (forall|key: Seq<char>| #[trigger]
            map.contains_key(key) <==> fields@.contains_key(key)) && (forall|key: Seq<char>|
            fields@.contains_key(key) ==> #[trigger] map[key] == fields@[key]@),
        jsons(items@) == JsonValue::Array(items)@->Array_0,
        json_fields(fields@) == JsonValue::Object(fields)@->Object_0,
{
    lemma_array_view(items);
    lemma_object_view(fields);
    assert(jsons(items@) =~= JsonValue::Array(items)@->Array_0);
    assert(json_fields(fields@) =~= JsonValue::Object(fields)@->Object_0);
}

/// The model of a number is the integer itself, or the text of a number with a fraction.
pub proof fn law_model_of_numbers(u: u64, i: i64, text: String)
    ensures
        Number::Unsigned(u)@ == JsonNumber::Unsigned(u),
        Number::Signed(i)@ == JsonNumber::Signed(i),
        Number::Float(text)@ == JsonNumber::Float(text@),
{
}

/// A field is what an object holds under that name, and its text is that of a string
/// that it holds there; values of other kinds have neither.
pub proof fn law_fields(json: Json, fields: Map<Seq<char>, Json>, key: Seq<char>, text: Seq<char>)
    ensures
        fields.contains_key(key) ==> field(Json::Object(fields), key) == Some(fields[key]),
        !fields.contains_key(key) ==> field(Json::Object(fields), key) is None,
        !(json is Object) ==> field(json, key) is None,
        string_field(Json::Object(fields), key) == Some(text) <==> fields.contains_key(key)
            && fields[key] == Json::String(text),
        !(json is Object) ==> string_field(json, key) is None,
        string_of(json) == Some(text) <==> json == Json::String(text),
{
}

/// An integer is written as its numeral, and is other than zero if it is; a number with a
/// fraction is written as its text.
pub proof fn law_numbers(u: u64, i: i64, text: Seq<char>)
    ensures
        number_text(JsonNumber::Unsigned(u)) == decimal(u as nat),
        number_text(JsonNumber::Signed(i)) == signed_decimal(i as int),
        number_text(JsonNumber::Float(text)) == text,
        number_nonzero(JsonNumber::Unsigned(u)) <==> u != 0,
        number_nonzero(JsonNumber::Signed(i)) <==> i != 0,
{
}

/// A number with a fraction is other than zero if and only if a digit in front of its
/// exponent is.
pub proof fn law_fraction_nonzero(front: Seq<char>, exponent: Seq<char>, k: int)
    requires
        !front.contains('e'),
        !front.contains('E'),
        exponent.len() > 0 ==> exponent[0] == 'e' || exponent[0] == 'E',
    ensures
        0 <= k < front.len() && '1' <= front[k] <= '9' ==> number_nonzero(
            JsonNumber::Float(front + exponent),
        ),
        (forall|i: int| 0 <= i < front.len() ==> !('1' <= #[trigger] front[i] <= '9'))
            ==> !number_nonzero(JsonNumber::Float(front + exponent)),
{
    let text = front + exponent;
    if 0 <= k < front.len() && '1' <= front[k] <= '9' {
        assert(text[k] == front[k]);
        assert forall|c: char| text.take(k).contains(c) implies front.contains(c) by {
            let i = choose|i: int| 0 <= i < k && text.take(k)[i] == c;
            assert(front[i] == c);
        }
        assert(!text.take(k).contains('e') && !text.take(k).contains('E'));
        assert(0 <= k < text.len() && '1' <= text[k] <= '9');
        let number = JsonNumber::Float(text);
        let held = number->Float_0;
        assert(held == text);
        assert('1' <= held[k] <= '9' && !held.take(k).contains('e') && !held.take(k).contains('E'));
        assert(number_nonzero(number));
    }
    if (forall|i: int| 0 <= i < front.len() ==> !('1' <= #[trigger] front[i] <= '9'))
        && number_nonzero(JsonNumber::Float(text)) {
        let i = choose|i: int|
            0 <= i < text.len() && '1' <= #[trigger] text[i] <= '9' && !text.take(i).contains('e')
                && !text.take(i).contains('E');
        if i < front.len() {
            assert(text[i] == front[i]);
        } else {
            assert(i > front.len());
            assert(text.take(i)[front.len() as int] == exponent[0]);
            assert(text.take(i).contains(exponent[0]));
        }
        assert(false);
    }
}

/// An integer becomes the number that it is, and a list of texts the array of them.
pub proof fn law_built_values(n: int, texts: Seq<Seq<char>>)
    ensures
        0 <= n <= u64::MAX ==> integer_json(n) == Json::Number(JsonNumber::Unsigned(n as u64)),
        i64::MIN <= n < 0 ==> integer_json(n) == Json::Number(JsonNumber::Signed(n as i64)),
        strings_json(texts) matches Json::Array(items) && items.len() == texts.len() && forall|
            i: int,
        |
            0 <= i < texts.len() ==> #[trigger] items[i] == Json::String(texts[i]),
{
}

} // verus!
