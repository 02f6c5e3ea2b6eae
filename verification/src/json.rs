//! Reading a JSON document: the member under a key, and a member taken as
//! text, a flag, a count or a list.

use vstd::prelude::*;
use crate::panels::JsonValue;
use crate::text::str_eq;

verus! {

/// The member listed under `key`: the first one, when a document names a key
/// twice.
pub open spec fn member_of(fields: Seq<(String, JsonValue)>, key: Seq<char>) -> Option<JsonValue>
    decreases fields.len(),
{
    if fields.len() == 0 {
        None
    } else if fields[0].0@ == key {
        Some(fields[0].1)
    } else {
        member_of(fields.drop_first(), key)
    }
}

/// The member of an object listed under `key`; nothing for any other value.
pub open spec fn field(value: JsonValue, key: Seq<char>) -> Option<JsonValue> {
    match value {
        JsonValue::Object(fields) => member_of(fields@, key),
        _ => None,
    }
}

/// A value's text, when it is a string.
pub open spec fn text_of(value: Option<JsonValue>) -> Option<Seq<char>> {
    match value {
        Some(JsonValue::Text(text)) => Some(text@),
        _ => None,
    }
}

/// A value's truth, when it is a boolean; false for anything else.
pub open spec fn flag_of(value: Option<JsonValue>) -> bool {
    match value {
        Some(JsonValue::Bool(flag)) => flag,
        _ => false,
    }
}

/// A value as an unsigned number, when it is a whole number that is not
/// negative; zero for anything else.
pub open spec fn count_of(value: Option<JsonValue>) -> u64 {
    match value {
        Some(JsonValue::Integer(number)) => if number >= 0 {
            number as u64
        } else {
            0
        },
        _ => 0,
    }
}

/// A value's items, when it is an array; none for anything else.
pub open spec fn items_of(value: Option<JsonValue>) -> Seq<JsonValue> {
    match value {
        Some(JsonValue::Array(items)) => items@,
        _ => Seq::empty(),
    }
}

/// The member of `value` under `key`, when `value` is an object that has one.
pub fn get<'a>(value: &'a JsonValue, key: &str) -> (found: Option<&'a JsonValue>)
    ensures
        match found {
            Some(member) => field(*value, key@) == Some(*member),
            None => field(*value, key@) is None,
        },
{
    match value {
        JsonValue::Object(fields) => {
            let mut i: usize = 0;
            assert(fields@.skip(0) =~= fields@);
            while i < fields.len()
                invariant
                    i <= fields@.len(),
                    field(*value, key@) == member_of(fields@, key@),
                    member_of(fields@, key@) == member_of(fields@.skip(i as int), key@),
                decreases fields.len() - i,
            {
                assert(fields@.skip(i as int).drop_first() =~= fields@.skip(i + 1));
                assert(fields@.skip(i as int)[0] == fields@[i as int]);
                if str_eq(fields[i].0.as_str(), key) {
                    assert(fields@.skip(i as int).len() > 0);
                    assert(member_of(fields@.skip(i as int), key@) == Some(fields@[i as int].1));
                    return Some(&fields[i].1);
                }
                i += 1;
            }
            None
        },
        _ => None,
    }
}

/// The text of the member under `key`, when it is a string.
pub fn get_text<'a>(value: &'a JsonValue, key: &str) -> (text: Option<&'a String>)
    ensures
        match text {
            Some(t) => text_of(field(*value, key@)) == Some(t@),
            None => text_of(field(*value, key@)) is None,
        },
{
    match get(value, key) {
        Some(JsonValue::Text(text)) => Some(text),
        _ => None,
    }
}

/// The member under `key` as a flag: false unless it is `true`.
pub fn get_flag(value: &JsonValue, key: &str) -> (flag: bool)
    ensures
        flag == flag_of(field(*value, key@)),
{
    match get(value, key) {
        Some(JsonValue::Bool(flag)) => *flag,
        _ => false,
    }
}

/// The member under `key` as an unsigned number: zero unless it is a whole
/// number that is not negative.
pub fn get_count(value: &JsonValue, key: &str) -> (count: u64)
    ensures
        count == count_of(field(*value, key@)),
{
    match get(value, key) {
        Some(JsonValue::Integer(number)) => if *number >= 0 {
            *number as u64
        } else {
            0
        },
        _ => 0,
    }
}

/// The items of the member under `key`: none unless it is an array.
pub fn get_items<'a>(value: &'a JsonValue, key: &str) -> (items: &'a [JsonValue])
    ensures
        items@ == items_of(field(*value, key@)),
{
    match get(value, key) {
        Some(JsonValue::Array(items)) => items.as_slice(),
        _ => &[],
    }
}

/// Whether two documents hold the same: the same kind of value, the same
/// scalars and texts, and the same items and members in the same order.
pub open spec fn same_json(a: JsonValue, b: JsonValue) -> bool
    decreases a,
{
    match (a, b) {
        (JsonValue::Null, JsonValue::Null) => true,
        (JsonValue::Bool(x), JsonValue::Bool(y)) => x == y,
        (JsonValue::Integer(x), JsonValue::Integer(y)) => x == y,
        (JsonValue::Number(x), JsonValue::Number(y)) => x@ == y@,
        (JsonValue::Text(x), JsonValue::Text(y)) => x@ == y@,
        (JsonValue::Array(x), JsonValue::Array(y)) => x@.len() == y@.len() && forall|i: int|
            0 <= i < x@.len() ==> same_json(#[trigger] x@[i], y@[i]),
        (JsonValue::Object(x), JsonValue::Object(y)) => x@.len() == y@.len() && forall|i: int|
            0 <= i < x@.len() ==> (#[trigger] x@[i]).0@ == y@[i].0@ && same_json(x@[i].1, y@[i].1),
        _ => false,
    }
}

/// A copy of a document.
pub fn copy_json(value: &JsonValue) -> (copy: JsonValue)
    ensures
        same_json(*value, copy),
    decreases value,
{
    match value {
        JsonValue::Null => JsonValue::Null,
        JsonValue::Bool(b) => JsonValue::Bool(*b),
        JsonValue::Integer(n) => JsonValue::Integer(*n),
        JsonValue::Number(text) => JsonValue::Number(text.clone()),
        JsonValue::Text(text) => JsonValue::Text(text.clone()),
        JsonValue::Array(items) => {
            let mut out: Vec<JsonValue> = Vec::new();
            let mut i: usize = 0;
            while i < items.len()
                invariant
                    value is Array,
                    value->Array_0 === *items,
                    i <= items@.len(),
                    out@.len() == i,
                    forall|j: int| 0 <= j < i ==> same_json(#[trigger] items@[j], out@[j]),
                decreases items.len() - i,
            {
                proof {
                    assert(decreases_to!(*value => value->Array_0));
                    assert(decreases_to!(*items => items@));
                    assert(decreases_to!(items@ => items@[i as int]));
                }
                let item = copy_json(&items[i]);
                out.push(item);
                i += 1;
            }
            JsonValue::Array(out)
        },
        JsonValue::Object(members) => {
            let mut out: Vec<(String, JsonValue)> = Vec::new();
            let mut i: usize = 0;
            while i < members.len()
                invariant
                    value is Object,
                    value->Object_0 === *members,
                    i <= members@.len(),
                    out@.len() == i,
                    forall|j: int|
                        0 <= j < i ==> (#[trigger] members@[j]).0@ == out@[j].0@ && same_json(members@[j].1, out@[j].1),
                decreases members.len() - i,
            {
                proof {
                    assert(decreases_to!(*value => value->Object_0));
                    assert(decreases_to!(*members => members@));
                    assert(decreases_to!(members@ => members@[i as int]));
                    assert(decreases_to!(members@[i as int] => members@[i as int].1));
                }
                let item = copy_json(&members[i].1);
                out.push((members[i].0.clone(), item));
                i += 1;
            }
            JsonValue::Object(out)
        },
    }
}

/// The member under `key` of a value that may be missing.
pub open spec fn field_of(value: Option<JsonValue>, key: Seq<char>) -> Option<JsonValue> {
    match value {
        Some(v) => field(v, key),
        None => None,
    }
}

/// A copy of an object's members.
pub fn copy_members(members: &Vec<(String, JsonValue)>) -> (copy: Vec<(String, JsonValue)>)
    ensures
        copy@.len() == members@.len(),
        forall|i: int|
            0 <= i < members@.len() ==> (#[trigger] members@[i]).0@ == copy@[i].0@ && same_json(members@[i].1, copy@[i].1),
{
    let mut out: Vec<(String, JsonValue)> = Vec::new();
    let mut i: usize = 0;
    while i < members.len()
        invariant
            i <= members@.len(),
            out@.len() == i,
            forall|j: int|
                0 <= j < i ==> (#[trigger] members@[j]).0@ == out@[j].0@ && same_json(members@[j].1, out@[j].1),
        decreases members.len() - i,
    {
        let item = copy_json(&members[i].1);
        out.push((members[i].0.clone(), item));
        i += 1;
    }
    out
}

/// Whether two documents hold the same.
pub fn json_equal(a: &JsonValue, b: &JsonValue) -> (same: bool)
    ensures
        same == same_json(*a, *b),
    decreases a,
{
    match (a, b) {
        (JsonValue::Null, JsonValue::Null) => true,
        (JsonValue::Bool(x), JsonValue::Bool(y)) => *x == *y,
        (JsonValue::Integer(x), JsonValue::Integer(y)) => *x == *y,
        (JsonValue::Number(x), JsonValue::Number(y)) => *x == *y,
        (JsonValue::Text(x), JsonValue::Text(y)) => *x == *y,
        (JsonValue::Array(x), JsonValue::Array(y)) => {
            if x.len() != y.len() {
                return false;
            }
            let mut i: usize = 0;
            while i < x.len()
                invariant
                    *a is Array,
                    a->Array_0 === *x,
                    *b is Array,
                    b->Array_0 === *y,
                    x@.len() == y@.len(),
                    i <= x@.len(),
                    forall|j: int| 0 <= j < i ==> same_json(#[trigger] x@[j], y@[j]),
                decreases x.len() - i,
            {
                proof {
                    assert(decreases_to!(*a => a->Array_0));
                    assert(decreases_to!(*x => x@));
                    assert(decreases_to!(x@ => x@[i as int]));
                }
                if !json_equal(&x[i], &y[i]) {
                    return false;
                }
                i += 1;
            }
            true
        },
        (JsonValue::Object(x), JsonValue::Object(y)) => {
            if x.len() != y.len() {
                return false;
            }
            let mut i: usize = 0;
            while i < x.len()
                invariant
                    *a is Object,
                    a->Object_0 === *x,
                    *b is Object,
                    b->Object_0 === *y,
                    x@.len() == y@.len(),
                    i <= x@.len(),
                    forall|j: int|
                        0 <= j < i ==> (#[trigger] x@[j]).0@ == y@[j].0@ && same_json(x@[j].1, y@[j].1),
                decreases x.len() - i,
            {
                proof {
                    assert(decreases_to!(*a => a->Object_0));
                    assert(decreases_to!(*x => x@));
                    assert(decreases_to!(x@ => x@[i as int]));
                    assert(decreases_to!(x@[i as int] => x@[i as int].1));
                }
                if x[i].0 != y[i].0 || !json_equal(&x[i].1, &y[i].1) {
                    return false;
                }
                i += 1;
            }
            true
        },
        _ => false,
    }
}

} // verus!
