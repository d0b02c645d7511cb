//! JSON values and documents, as `serde_json` has them.
//!
//! A `serde_json::Value` is opaque here. What it holds has a name, `json_tree`, and each method of
//! the crate that the library calls is specified over that name. What a document reads as has a
//! name too, `json_document`: the grammar of JSON is the crate's business.

use crate::text::{view_opt, view_ref, views};
use serde_json::Value;
use vstd::prelude::*;

verus! {

broadcast use vstd::string::group_string_axioms;

/// `serde_json::Value`, carried through without a look inside.
#[verifier::external_type_specification]
#[verifier::external_body]
pub struct ExValue(serde_json::Value);

/// What a JSON value holds.
pub enum JsonTree {
    Null,
    Bool(bool),
    /// A number, with its value where that is an integer of 64 bits.
    Number(Option<i64>),
    Text(Seq<char>),
    Array(Seq<JsonTree>),
    Object(Map<Seq<char>, JsonTree>),
}

/// What `value` holds.
pub uninterp spec fn json_tree(value: Value) -> JsonTree;

/// What `serde_json` reads in `text`, where `text` is one JSON document.
pub uninterp spec fn json_document(text: Seq<char>) -> Option<JsonTree>;

/// The member `key` of an object.
pub open spec fn member(tree: JsonTree, key: Seq<char>) -> Option<JsonTree> {
    match tree {
        JsonTree::Object(members) => if members.contains_key(key) {
            Some(members[key])
        } else {
            None
        },
        _ => None,
    }
}

/// The characters of a string.
pub open spec fn text_of(tree: JsonTree) -> Option<Seq<char>> {
    match tree {
        JsonTree::Text(s) => Some(s),
        _ => None,
    }
}

/// The member `key` of an object, where it is a string.
pub open spec fn text_member(tree: JsonTree, key: Seq<char>) -> Option<Seq<char>> {
    match member(tree, key) {
        Some(t) => text_of(t),
        None => None,
    }
}

/// A truth value.
pub open spec fn bool_of(tree: JsonTree) -> Option<bool> {
    match tree {
        JsonTree::Bool(b) => Some(b),
        _ => None,
    }
}

/// The member `key` of an object, where it is a truth value.
pub open spec fn bool_member(tree: JsonTree, key: Seq<char>) -> Option<bool> {
    match member(tree, key) {
        Some(t) => bool_of(t),
        None => None,
    }
}

/// The value of a number that is an integer of 64 bits.
pub open spec fn integer_of(tree: JsonTree) -> Option<i64> {
    match tree {
        JsonTree::Number(n) => n,
        _ => None,
    }
}

/// The member `key` of an object, where it is an integer of 64 bits.
pub open spec fn integer_member(tree: JsonTree, key: Seq<char>) -> Option<i64> {
    match member(tree, key) {
        Some(t) => integer_of(t),
        None => None,
    }
}

/// What the values of a list hold.
pub open spec fn trees(values: Seq<Value>) -> Seq<JsonTree> {
    Seq::new(values.len(), |i: int| json_tree(values[i]))
}

/// What named values hold.
pub open spec fn field_views(fields: Seq<(String, Value)>) -> Seq<(Seq<char>, JsonTree)> {
    Seq::new(fields.len(), |i: int| (fields[i].0@, json_tree(fields[i].1)))
}

/// No two fields have one name.
pub open spec fn has_distinct_names(fields: Seq<(Seq<char>, JsonTree)>) -> bool {
    forall|i: int, j: int|
        0 <= i < j < fields.len() ==> (#[trigger] fields[i]).0 != (#[trigger] fields[j]).0
}

/// The members that `fields` make.
pub open spec fn members_of(fields: Seq<(Seq<char>, JsonTree)>) -> Map<Seq<char>, JsonTree>
    decreases fields.len(),
{
    if fields.len() == 0 {
        Map::empty()
    } else {
        members_of(fields.drop_last()).insert(fields.last().0, fields.last().1)
    }
}

/// The object with these members.
pub open spec fn object_tree(fields: Seq<(Seq<char>, JsonTree)>) -> JsonTree {
    JsonTree::Object(members_of(fields))
}

/// A string, or null where there is none.
pub open spec fn text_or_null(text: Option<Seq<char>>) -> JsonTree {
    match text {
        Some(text) => JsonTree::Text(text),
        None => JsonTree::Null,
    }
}

/// An integer, or null where there is none.
pub open spec fn integer_or_null(n: Option<i64>) -> JsonTree {
    match n {
        Some(n) => JsonTree::Number(Some(n)),
        None => JsonTree::Null,
    }
}

/// Strings as a list.
pub open spec fn text_list(list: Seq<Seq<char>>) -> JsonTree {
    JsonTree::Array(Seq::new(list.len(), |i: int| JsonTree::Text(list[i])))
}

/// Fields with different names are the members of the object.
pub proof fn lemma_member(fields: Seq<(Seq<char>, JsonTree)>, i: int)
    requires
        0 <= i < fields.len(),
        has_distinct_names(fields),
    ensures
        member(object_tree(fields), fields[i].0) == Some(fields[i].1),
    decreases fields.len(),
{
    if i < fields.len() - 1 {
        let shorter = fields.drop_last();
        assert forall|j: int, k: int| 0 <= j < k < shorter.len() implies (#[trigger] shorter[j]).0
            != (#[trigger] shorter[k]).0 by {
            assert(fields[j].0 != fields[k].0);
        }
        lemma_member(shorter, i);
        assert(fields[i].0 != fields[fields.len() - 1].0);
    }
}

/// A key that no field has is no member of the object.
pub proof fn lemma_no_member(fields: Seq<(Seq<char>, JsonTree)>, key: Seq<char>)
    requires
        forall|j: int| 0 <= j < fields.len() ==> (#[trigger] fields[j]).0 != key,
    ensures
        member(object_tree(fields), key) is None,
    decreases fields.len(),
{
    if fields.len() > 0 {
        let shorter = fields.drop_last();
        assert forall|j: int| 0 <= j < shorter.len() implies (#[trigger] shorter[j]).0 != key by {
            assert(fields[j].0 != key);
        }
        lemma_no_member(shorter, key);
        assert(fields[fields.len() - 1].0 != key);
    }
}

/// A value without parts whose text gives it back: no fraction, no number beyond 64 bits.
pub open spec fn is_plain(tree: JsonTree) -> bool {
    match tree {
        JsonTree::Number(n) => n is Some,
        JsonTree::Array(_) => false,
        JsonTree::Object(_) => false,
        _ => true,
    }
}

/// A list of plain values.
pub open spec fn is_plain_list(tree: JsonTree) -> bool {
    tree matches JsonTree::Array(items) && forall|i: int|
        0 <= i < items.len() ==> is_plain(#[trigger] items[i])
}

/// A plain value or a list of such.
pub open spec fn is_simple(tree: JsonTree) -> bool {
    is_plain(tree) || is_plain_list(tree)
}

/// An object whose members are plain values and lists of such.
pub open spec fn is_record(tree: JsonTree) -> bool {
    tree matches JsonTree::Object(members) && forall|key: Seq<char>|
        members.contains_key(key) ==> is_simple(#[trigger] members[key])
}

/// Fields that hold plain values and lists of such make a record.
pub proof fn lemma_record(fields: Seq<(Seq<char>, JsonTree)>)
    requires
        forall|j: int| 0 <= j < fields.len() ==> is_simple((#[trigger] fields[j]).1),
    ensures
        is_record(object_tree(fields)),
    decreases fields.len(),
{
    if fields.len() > 0 {
        let shorter = fields.drop_last();
        assert forall|j: int| 0 <= j < shorter.len() implies is_simple(
            (#[trigger] shorter[j]).1,
        ) by {
            assert(is_simple(fields[j].1));
        }
        lemma_record(shorter);
        assert(is_simple(fields[fields.len() - 1].1));
        let before = members_of(shorter);
        let members = members_of(fields);
        assert forall|key: Seq<char>| members.contains_key(key) implies is_simple(
            #[trigger] members[key],
        ) by {
            if key != fields.last().0 {
                let tree = object_tree(shorter);
                assert(tree->Object_0.contains_key(key));
                assert(is_simple(tree->Object_0[key]));
            }
        }
    }
}

/// `serde_json::from_str::<Value>`: what `text` reads as, or nothing where it is no document.
#[verifier::external_body]
pub(crate) fn json_parse(text: &str) -> (r: Option<Value>)
    ensures
        r is Some == json_document(text@) is Some,
        r matches Some(v) ==> json_document(text@) == Some(json_tree(v)),
{
    serde_json::from_str::<Value>(text).ok()
}

/// `Value::get` with a key: the member of an object, and nothing for any other value.
#[verifier::external_body]
pub(crate) fn json_get<'a>(value: &'a Value, key: &str) -> (r: Option<&'a Value>)
    ensures
        r is Some == member(json_tree(*value), key@) is Some,
        r matches Some(v) ==> member(json_tree(*value), key@) == Some(json_tree(*v)),
{
    value.get(key)
}

/// `Value::as_str` gives the characters of a string, and nothing for any other value.
pub assume_specification[ Value::as_str ](value: &Value) -> (r: Option<&str>)
    ensures
        view_ref(r) == text_of(json_tree(*value)),
;

/// `Value::as_i64` gives a number that is an integer of 64 bits, and nothing for any other value.
pub assume_specification[ Value::as_i64 ](value: &Value) -> (r: Option<i64>)
    ensures
        r == integer_of(json_tree(*value)),
;

/// `Value::as_bool` gives a truth value, and nothing for any other value.
pub assume_specification[ Value::as_bool ](value: &Value) -> (r: Option<bool>)
    ensures
        r == bool_of(json_tree(*value)),
;

/// `Value::as_array` gives the values of a list, and nothing for any other value.
pub assume_specification[ Value::as_array ](value: &Value) -> (r: Option<&Vec<Value>>)
    ensures
        r is Some == json_tree(*value) is Array,
        r matches Some(items) ==> json_tree(*value) == JsonTree::Array(trees(items@)),
;

/// `Value::String` around a copy of `text`.
#[verifier::external_body]
pub(crate) fn json_string(text: &str) -> (r: Value)
    ensures
        json_tree(r) == JsonTree::Text(text@),
{
    Value::String(text.to_string())
}

/// `Value::from` of an integer.
#[verifier::external_body]
pub(crate) fn json_integer(n: i64) -> (r: Value)
    ensures
        json_tree(r) == JsonTree::Number(Some(n)),
{
    Value::from(n)
}

/// A count as a number: one beyond the integers of 64 bits has no value among them.
pub open spec fn count_tree(n: u64) -> JsonTree {
    JsonTree::Number(
        if n <= i64::MAX {
            Some(n as i64)
        } else {
            None
        },
    )
}

/// `Value::from` of a count.
#[verifier::external_body]
pub(crate) fn json_count(n: u64) -> (r: Value)
    ensures
        json_tree(r) == count_tree(n),
{
    Value::from(n)
}

/// `Value::Bool`.
#[verifier::external_body]
pub(crate) fn json_bool(b: bool) -> (r: Value)
    ensures
        json_tree(r) == JsonTree::Bool(b),
{
    Value::Bool(b)
}

/// `Value::Null`.
#[verifier::external_body]
pub(crate) fn json_null() -> (r: Value)
    ensures
        json_tree(r) == JsonTree::Null,
{
    Value::Null
}

/// `Value::Array` around `items`.
#[verifier::external_body]
pub(crate) fn json_array(items: Vec<Value>) -> (r: Value)
    ensures
        json_tree(r) == JsonTree::Array(trees(items@)),
{
    Value::Array(items)
}

/// `Value::Object` around the `serde_json::Map` collected from `fields`, which have different names.
#[verifier::external_body]
pub(crate) fn json_object(fields: Vec<(String, Value)>) -> (r: Value)
    requires
        has_distinct_names(field_views(fields@)),
    ensures
        json_tree(r) == object_tree(field_views(fields@)),
{
    Value::Object(fields.into_iter().collect())
}

/// `serde_json::to_string`: a record on one line. The text reads back as the record; it starts
/// with the brace of the object and, as control characters are escaped in strings, holds no line
/// ending.
#[verifier::external_body]
pub(crate) fn json_line(value: &Value) -> (r: Option<String>)
    requires
        is_record(json_tree(*value)),
    ensures
        r is Some,
        r matches Some(text) ==> {
            &&& json_document(text@) == Some(json_tree(*value))
            &&& text@.len() > 0
            &&& text@[0] == '{'
            &&& !text@.contains('\n')
            &&& !text@.contains('\r')
        },
{
    serde_json::to_string(value).ok()
}

/// `serde_json::to_string_pretty`: a record over several lines. The text reads back as the record.
#[verifier::external_body]
pub(crate) fn json_pretty(value: &Value) -> (r: Option<String>)
    requires
        is_record(json_tree(*value)),
    ensures
        r is Some,
        r matches Some(text) ==> json_document(text@) == Some(json_tree(*value)),
{
    serde_json::to_string_pretty(value).ok()
}

/// The member `key` of `value`, where `value` is an object and the member a string.
pub fn get_text(value: &Value, key: &str) -> (r: Option<String>)
    ensures
        view_opt(r) == text_member(json_tree(*value), key@),
{
    match json_get(value, key) {
        Some(found) => match found.as_str() {
            Some(s) => Some(s.to_string()),
            None => None,
        },
        None => None,
    }
}

/// The member `key` of `value`, where `value` is an object and the member a truth value.
pub fn get_bool(value: &Value, key: &str) -> (r: Option<bool>)
    ensures
        r == bool_member(json_tree(*value), key@),
{
    match json_get(value, key) {
        Some(found) => found.as_bool(),
        None => None,
    }
}

/// A string, or null where there is none.
pub(crate) fn json_opt_string(text: &Option<String>) -> (r: Value)
    ensures
        json_tree(r) == text_or_null(view_opt(*text)),
{
    match text {
        Some(text) => json_string(text.as_str()),
        None => json_null(),
    }
}

/// An integer, or null where there is none.
pub(crate) fn json_opt_integer(n: Option<i64>) -> (r: Value)
    ensures
        json_tree(r) == integer_or_null(n),
{
    match n {
        Some(n) => json_integer(n),
        None => json_null(),
    }
}

/// Strings as a list.
pub(crate) fn json_strings(list: &Vec<String>) -> (r: Value)
    ensures
        json_tree(r) == text_list(views(list@)),
{
    let mut items: Vec<Value> = Vec::new();
    let mut i: usize = 0;
    while i < list.len()
        invariant
            i <= list@.len(),
            items@.len() == i,
            forall|k: int|
                0 <= k < i ==> json_tree(#[trigger] items@[k]) == JsonTree::Text(list@[k]@),
        decreases list@.len() - i,
    {
        items.push(json_string(list[i].as_str()));
        i += 1;
    }
    assert(JsonTree::Array(trees(items@)) == text_list(views(list@))) by {
        assert(trees(items@) =~= Seq::new(
            views(list@).len(),
            |i: int| JsonTree::Text(views(list@)[i]),
        ));
    }
    json_array(items)
}

/// The value `value` under the name `key`.
pub(crate) fn field(key: &str, value: Value) -> (r: (String, Value))
    ensures
        r.0@ == key@,
        r.1 == value,
{
    (key.to_string(), value)
}

/// The member `key` of `value`, where `value` is an object and the member an integer.
pub fn get_integer(value: &Value, key: &str) -> (r: Option<i64>)
    ensures
        r == integer_member(json_tree(*value), key@),
{
    match json_get(value, key) {
        Some(found) => found.as_i64(),
        None => None,
    }
}

} // verus!
