//! JSON, read by `serde_json`, as far as tokenizer files need it.

use serde_json::Value;
use serde_with::rust::maps_duplicate_key_is_error;
use std::collections::BTreeMap;
use vstd::prelude::*;

verus! {

/// `serde_json::Value`, whose inside stays hidden.
#[verifier::external_type_specification]
#[verifier::external_body]
pub struct ExValue(Value);

/// What JSON says. A number is held where it is a whole one that is not negative and
/// fits in 64 bits. The entries of an object have different keys.
pub enum Json {
    Null,
    Flag(bool),
    Number(Option<u64>),
    Text(Seq<char>),
    List(Seq<Json>),
    Object(Seq<(Seq<char>, Json)>),
}

/// The outermost level of a JSON value.
pub enum Level<'a> {
    Null,
    Flag(bool),
    Number(Option<u64>),
    Text(&'a String),
    List(&'a Vec<Value>),
    Object(Vec<(&'a String, &'a Value)>),
}

/// What a JSON value says.
pub uninterp spec fn json_of(value: Value) -> Json;

/// What a text in JSON says, where it begins with an object that has no key twice.
pub uninterp spec fn json_in(bytes: Seq<u8>) -> Option<Json>;

/// What the values of a list say.
pub open spec fn jsons(values: Seq<Value>) -> Seq<Json> {
    Seq::new(values.len(), |i: int| json_of(values[i]))
}

/// What the entries of an object say.
pub open spec fn members(entries: Seq<(&String, &Value)>) -> Seq<(Seq<char>, Json)> {
    Seq::new(entries.len(), |i: int| (entries[i].0@, json_of(*entries[i].1)))
}

impl<'a> View for Level<'a> {
    type V = Json;

    open spec fn view(&self) -> Json {
        match *self {
            Level::Null => Json::Null,
            Level::Flag(b) => Json::Flag(b),
            Level::Number(n) => Json::Number(n),
            Level::Text(s) => Json::Text(s@),
            Level::List(values) => Json::List(jsons(values@)),
            Level::Object(entries) => Json::Object(members(entries@)),
        }
    }
}

/// The variants of `serde_json::Value`, with `Number::as_u64` and `Map::iter`: the
/// outermost level of a value.
#[verifier::external_body]
pub(crate) fn level<'a>(value: &'a Value) -> (r: Level<'a>)
    ensures
        r@ == json_of(*value),
{
    match value {
        Value::Null => Level::Null,
        Value::Bool(b) => Level::Flag(*b),
        Value::Number(n) => Level::Number(n.as_u64()),
        Value::String(s) => Level::Text(s),
        Value::Array(values) => Level::List(values),
        Value::Object(map) => Level::Object(map.iter().collect()),
    }
}

/// `serde_with`'s `maps_duplicate_key_is_error::deserialize` on a
/// `serde_json::Deserializer`: the object with which a text in JSON begins. There is
/// none where the text does not begin with an object, or where the object has a key
/// twice. In objects that it holds the last entry of a key counts.
#[verifier::external_body]
pub(crate) fn parse_object(bytes: &Vec<u8>) -> (r: Option<Value>)
    ensures
        match r {
            Some(value) => json_in(bytes@) == Some(json_of(value)),
            None => json_in(bytes@) is None,
        },
{
    let mut reader = serde_json::Deserializer::from_slice(bytes);
    let entries: BTreeMap<String, Value> =
        maps_duplicate_key_is_error::deserialize(&mut reader).ok()?;
    Some(Value::Object(entries.into_iter().collect()))
}

/// What the entry of a key says, or null where there is none.
pub open spec fn member(entries: Seq<(Seq<char>, Json)>, key: Seq<char>) -> Json
    decreases entries.len(),
{
    if entries.len() == 0 {
        Json::Null
    } else if entries.last().0 == key {
        entries.last().1
    } else {
        member(entries.drop_last(), key)
    }
}

/// Whether two strings are the same.
pub(crate) fn same(a: &str, b: &str) -> (r: bool)
    ensures
        r == (a@ == b@),
{
    let len: usize = a.unicode_len();
    if len != b.unicode_len() {
        return false;
    }
    for i in 0..len
        invariant
            len == a@.len(),
            len == b@.len(),
            forall|j: int| 0 <= j < i ==> a@[j] == b@[j],
    {
        if a.get_char(i) != b.get_char(i) {
            return false;
        }
    }
    assert(a@ =~= b@);
    true
}

/// The outermost level of the entry of a key.
pub(crate) fn find<'a>(entries: &Vec<(&'a String, &'a Value)>, key: &str) -> (r: Level<'a>)
    ensures
        r@ == member(members(entries@), key@),
{
    let mut i: usize = entries.len();
    let ghost all = members(entries@);
    assert(all.take(i as int) =~= all);
    while i > 0
        invariant
            i <= entries@.len(),
            all == members(entries@),
            member(all, key@) == member(all.take(i as int), key@),
        decreases i,
    {
        i = i - 1;
        proof {
            assert(all.take(i + 1).drop_last() =~= all.take(i as int));
            assert(all.take(i + 1).last() == all[i as int]);
        }
        if same(entries[i].0.as_str(), key) {
            return level(entries[i].1);
        }
    }
    Level::Null
}

/// The entry of a key is the last one with that key, and null where there is none.
pub proof fn members_are_found_by_key(entries: Seq<(Seq<char>, Json)>, key: Seq<char>, i: int)
    ensures
        0 <= i < entries.len() && entries[i].0 == key && (forall|j: int|
            i < j < entries.len() ==> (#[trigger] entries[j]).0 != key) ==> member(entries, key)
            == entries[i].1,
        (forall|j: int| 0 <= j < entries.len() ==> (#[trigger] entries[j]).0 != key) ==> member(
            entries,
            key,
        ) is Null,
    decreases entries.len(),
{
    if entries.len() > 0 {
        let rest = entries.drop_last();
        members_are_found_by_key(rest, key, i);
        assert(entries[entries.len() - 1] == entries.last());
        assert(forall|j: int| 0 <= j < rest.len() ==> rest[j] == entries[j]);
    }
}

} // verus!
