//! JSON documents: what they say, and the calls into `serde_json` that read,
//! change and write them.
use vstd::prelude::*;

verus! {

// --- What a document says ---

/// What a JSON document says. An object lists its members in order.
pub enum Json {
    Null,
    Bool(bool),
    /// A number without fraction or exponent that 64 bits hold.
    Int(int),
    /// Any other number, as it is printed.
    Float(Seq<char>),
    Text(Seq<char>),
    Array(Seq<Json>),
    Object(Seq<(Seq<char>, Json)>),
}

/// The place of the member `key`, or the number of members.
pub open spec fn place(list: Seq<(Seq<char>, Json)>, key: Seq<char>) -> int
    decreases list.len(),
{
    if list.len() == 0 || list[0].0 == key {
        0
    } else {
        1 + place(list.drop_first(), key)
    }
}

/// Whether there is a member `key`.
pub open spec fn has(list: Seq<(Seq<char>, Json)>, key: Seq<char>) -> bool {
    place(list, key) < list.len()
}

/// The value of the member `key`.
pub open spec fn lookup(list: Seq<(Seq<char>, Json)>, key: Seq<char>) -> Option<Json> {
    if has(list, key) {
        Some(list[place(list, key)].1)
    } else {
        None
    }
}

/// The members with `key` set to `value`: in its place where there is such a
/// member, at the end where there is none.
pub open spec fn put(
    list: Seq<(Seq<char>, Json)>,
    key: Seq<char>,
    value: Json,
) -> Seq<(Seq<char>, Json)> {
    if has(list, key) {
        list.update(place(list, key), (key, value))
    } else {
        list.push((key, value))
    }
}

/// The members without `key`. The others keep their order.
pub open spec fn take_out(
    list: Seq<(Seq<char>, Json)>,
    key: Seq<char>,
) -> Seq<(Seq<char>, Json)> {
    if has(list, key) {
        list.remove(place(list, key))
    } else {
        list
    }
}

/// Whether no two members have the same key.
pub open spec fn distinct_keys(list: Seq<(Seq<char>, Json)>) -> bool {
    forall|i: int, j: int|
        0 <= i < j < list.len() ==> (#[trigger] list[i]).0 != (#[trigger] list[j]).0
}

/// Whether no object in the document has two members with the same key.
pub open spec fn keyed(j: Json) -> bool
    decreases j,
{
    match j {
        Json::Array(list) => forall|i: int| 0 <= i < list.len() ==> keyed(#[trigger] list[i]),
        Json::Object(list) => distinct_keys(list) && forall|i: int|
            0 <= i < list.len() ==> keyed((#[trigger] list[i]).1),
        _ => true,
    }
}

/// Whether arrays and objects nest at most `depth` deep in the document.
pub open spec fn nests_within(j: Json, depth: int) -> bool
    decreases j,
{
    match j {
        Json::Array(list) => depth > 0 && forall|i: int|
            0 <= i < list.len() ==> nests_within(#[trigger] list[i], depth - 1),
        Json::Object(list) => depth > 0 && forall|i: int|
            0 <= i < list.len() ==> nests_within((#[trigger] list[i]).1, depth - 1),
        _ => true,
    }
}

/// Whether every number in the document is one that 64 bits hold exactly.
pub open spec fn exact_numbers(j: Json) -> bool
    decreases j,
{
    match j {
        Json::Float(_) => false,
        Json::Array(list) => forall|i: int|
            0 <= i < list.len() ==> exact_numbers(#[trigger] list[i]),
        Json::Object(list) => forall|i: int|
            0 <= i < list.len() ==> exact_numbers((#[trigger] list[i]).1),
        _ => true,
    }
}

/// Whether the document is one that the reader can produce: its objects hold
/// each key once, and it does not nest beyond the reader's limit.
pub open spec fn readable(j: Json) -> bool {
    keyed(j) && nests_within(j, 127)
}

/// Whether the text of the document reads back as the same document: it is one
/// that the reader can produce, and it holds no fraction, which the reader may
/// round.
pub open spec fn storable(j: Json) -> bool {
    readable(j) && exact_numbers(j)
}

// --- Members ---

/// The place that holds `key` with no `key` before it is the one that
/// [`place`] names.
proof fn lemma_place(list: Seq<(Seq<char>, Json)>, key: Seq<char>, i: int)
    requires
        0 <= i <= list.len(),
        i < list.len() ==> list[i].0 == key,
        forall|j: int| 0 <= j < i ==> (#[trigger] list[j]).0 != key,
    ensures
        place(list, key) == i,
    decreases list.len(),
{
    if i > 0 {
        assert(list[0].0 != key);
        assert forall|j: int| 0 <= j < i - 1 implies (#[trigger] list.drop_first()[j]).0
            != key by {
            assert(list.drop_first()[j] == list[j + 1]);
        }
        lemma_place(list.drop_first(), key, i - 1);
    }
}

/// What [`place`] names is within the list; nothing before it has the key.
pub proof fn lemma_place_bounds(list: Seq<(Seq<char>, Json)>, key: Seq<char>)
    ensures
        0 <= place(list, key) <= list.len(),
        has(list, key) ==> list[place(list, key)].0 == key,
        forall|j: int| 0 <= j < place(list, key) ==> (#[trigger] list[j]).0 != key,
        has(list, key) <==> exists|j: int| 0 <= j < list.len() && (#[trigger] list[j]).0 == key,
    decreases list.len(),
{
    if list.len() > 0 && list[0].0 != key {
        lemma_place_bounds(list.drop_first(), key);
        assert forall|j: int| 0 <= j < place(list, key) implies (#[trigger] list[j]).0 != key by {
            if j > 0 {
                assert(list.drop_first()[j - 1] == list[j]);
            }
        }
        if has(list, key) {
            assert(list[place(list, key)] == list.drop_first()[place(list, key) - 1]);
        }
    }
}

/// What is put is found in its place, no other member changes, and keys stay
/// distinct.
pub proof fn lemma_put(list: Seq<(Seq<char>, Json)>, key: Seq<char>, value: Json)
    ensures
        lookup(put(list, key, value), key) == Some(value),
        place(put(list, key, value), key) == place(list, key),
        forall|other: Seq<char>|
            other != key ==> #[trigger] lookup(put(list, key, value), other) == lookup(list, other),
        distinct_keys(list) ==> distinct_keys(put(list, key, value)),
{
    lemma_place_bounds(list, key);
    let after = put(list, key, value);
    let at = place(list, key);
    assert forall|j: int| 0 <= j < at implies (#[trigger] after[j]).0 != key by {
        assert(after[j] == list[j]);
    }
    lemma_place(after, key, at);
    assert forall|other: Seq<char>| other != key implies #[trigger] lookup(after, other)
        == lookup(list, other) by {
        lemma_place_bounds(list, other);
        let o = place(list, other);
        assert forall|j: int| 0 <= j < o implies (#[trigger] after[j]).0 != other by {
            if j != at {
                assert(after[j] == list[j]);
            }
        }
        if o < list.len() {
            assert(after[o] == list[o]);
            lemma_place(after, other, o);
        } else {
            assert forall|j: int| 0 <= j < after.len() implies (#[trigger] after[j]).0 != other by {
                if j != at {
                    assert(after[j] == list[j]);
                }
            }
            lemma_place(after, other, after.len() as int);
        }
    }
    if distinct_keys(list) {
        assert forall|i: int, j: int| 0 <= i < j < after.len() implies (#[trigger] after[i]).0 != (
        #[trigger] after[j]).0 by {
            if i != at && j != at {
                assert(after[i] == list[i] && after[j] == list[j]);
            } else if i != at {
                assert(after[i] == list[i]);
                if at < list.len() {
                    assert(list[i].0 != list[at].0);
                }
            } else {
                assert(after[j] == list[j]);
                assert(list[at].0 != list[j].0);
            }
        }
    }
}

/// Of two values put under one key the second counts.
pub proof fn lemma_put_twice(
    list: Seq<(Seq<char>, Json)>,
    key: Seq<char>,
    first: Json,
    second: Json,
)
    ensures
        put(put(list, key, first), key, second) == put(list, key, second),
{
    lemma_place_bounds(list, key);
    lemma_put(list, key, first);
    assert(put(put(list, key, first), key, second) =~= put(list, key, second));
}

/// Putting back what is there changes nothing.
pub proof fn lemma_put_back(list: Seq<(Seq<char>, Json)>, key: Seq<char>)
    ensures
        has(list, key) ==> put(list, key, lookup(list, key)->0) == list,
{
    lemma_place_bounds(list, key);
    if has(list, key) {
        assert(put(list, key, lookup(list, key)->0) =~= list);
    }
}

/// A document stays readable, and exact where it is, when a value that is so one
/// level down is put into it.
pub proof fn lemma_put_readable(list: Seq<(Seq<char>, Json)>, key: Seq<char>, value: Json, depth: int)
    requires
        keyed(Json::Object(list)),
        nests_within(Json::Object(list), depth),
        keyed(value),
        nests_within(value, depth - 1),
    ensures
        keyed(Json::Object(put(list, key, value))),
        nests_within(Json::Object(put(list, key, value)), depth),
        exact_numbers(Json::Object(list)) && exact_numbers(value) ==> exact_numbers(
            Json::Object(put(list, key, value)),
        ),
{
    lemma_put(list, key, value);
    lemma_place_bounds(list, key);
    let after = put(list, key, value);
    assert forall|i: int| 0 <= i < after.len() implies keyed((#[trigger] after[i]).1)
        && nests_within(after[i].1, depth - 1) && (exact_numbers(Json::Object(list))
        && exact_numbers(value) ==> exact_numbers(after[i].1)) by {
        if i != place(list, key) {
            assert(after[i] == list[i]);
            assert(keyed(list[i].1));
        }
    }
}

/// A document stays readable, and exact where it is, when a member is taken
/// out.
pub proof fn lemma_take_out_readable(list: Seq<(Seq<char>, Json)>, key: Seq<char>, depth: int)
    requires
        keyed(Json::Object(list)),
        nests_within(Json::Object(list), depth),
    ensures
        keyed(Json::Object(take_out(list, key))),
        nests_within(Json::Object(take_out(list, key)), depth),
        exact_numbers(Json::Object(list)) ==> exact_numbers(Json::Object(take_out(list, key))),
{
    lemma_take_out(list, key);
    lemma_place_bounds(list, key);
    let after = take_out(list, key);
    assert forall|i: int| 0 <= i < after.len() implies keyed((#[trigger] after[i]).1)
        && nests_within(after[i].1, depth - 1) && (exact_numbers(Json::Object(list))
        ==> exact_numbers(after[i].1)) by {
        let k = if has(list, key) && i >= place(list, key) {
            i + 1
        } else {
            i
        };
        assert(after[i] == list[k]);
        assert(keyed(list[k].1));
    }
}

/// What is taken out is gone, no other member changes, and keys stay distinct.
pub proof fn lemma_take_out(list: Seq<(Seq<char>, Json)>, key: Seq<char>)
    requires
        distinct_keys(list),
    ensures
        lookup(take_out(list, key), key) is None,
        forall|other: Seq<char>|
            other != key ==> #[trigger] lookup(take_out(list, key), other) == lookup(list, other),
        distinct_keys(take_out(list, key)),
{
    lemma_place_bounds(list, key);
    if has(list, key) {
        let at = place(list, key);
        let after = take_out(list, key);
        assert forall|j: int| 0 <= j < after.len() implies #[trigger] after[j] == (if j < at {
            list[j]
        } else {
            list[j + 1]
        }) by {}
        assert forall|j: int| 0 <= j < after.len() implies (#[trigger] after[j]).0 != key by {
            if j < at {
                assert(list[j].0 != list[at].0);
            } else {
                assert(list[at].0 != list[j + 1].0);
            }
        }
        lemma_place(after, key, after.len() as int);
        assert forall|i: int, j: int| 0 <= i < j < after.len() implies (#[trigger] after[i]).0 != (
        #[trigger] after[j]).0 by {
            let from_i = if i < at {
                i
            } else {
                i + 1
            };
            let from_j = if j < at {
                j
            } else {
                j + 1
            };
            assert(list[from_i].0 != list[from_j].0);
        }
        assert forall|other: Seq<char>| other != key implies #[trigger] lookup(after, other)
            == lookup(list, other) by {
            lemma_place_bounds(list, other);
            let o = place(list, other);
            if o < list.len() {
                let moved = if o < at {
                    o
                } else {
                    o - 1
                };
                assert(after[moved] == list[o]);
                assert forall|j: int| 0 <= j < moved implies (#[trigger] after[j]).0 != other by {
                    assert(after[j].0 != after[moved].0);
                }
                lemma_place(after, other, moved);
            } else {
                assert forall|j: int| 0 <= j < after.len() implies (#[trigger] after[j]).0
                    != other by {
                    let from = if j < at {
                        j
                    } else {
                        j + 1
                    };
                    assert(list[from].0 != other);
                }
                lemma_place(after, other, after.len() as int);
            }
        }
    }
}

// --- The types of `serde_json` ---

#[verifier::external_type_specification]
#[verifier::external_body]
pub struct ExValue(serde_json::Value);

#[verifier::external_type_specification]
#[verifier::external_body]
#[verifier::reject_recursive_types(K)]
#[verifier::reject_recursive_types(V)]
pub struct ExMap<K, V>(serde_json::Map<K, V>);

#[verifier::external_type_specification]
#[verifier::external_body]
pub struct ExError(serde_json::Error);

/// What a value says.
pub uninterp spec fn document(value: serde_json::Value) -> Json;

/// The members of an object, in order.
pub uninterp spec fn members(
    object: serde_json::Map<String, serde_json::Value>,
) -> Seq<(Seq<char>, Json)>;

/// What each value of a list says.
pub open spec fn documents(list: Seq<serde_json::Value>) -> Seq<Json> {
    list.map_values(|v: serde_json::Value| document(v))
}

// --- Reading and writing text ---

/// What [`serde_json::from_str`] reads from a text; `None` where the text is
/// no JSON document that it accepts.
pub uninterp spec fn read_text(text: Seq<char>) -> Option<Json>;

/// What [`serde_json::to_string_pretty`] writes for a document.
pub uninterp spec fn pretty_text(j: Json) -> Seq<char>;

/// [`serde_json::from_str`] into a [`serde_json::Value`]: the result is a
/// function of the text, its objects hold each key once, and it refuses a text
/// that nests deeper than its limit.
#[verifier::external_body]
pub(crate) fn parse(text: &str) -> (r: Result<serde_json::Value, serde_json::Error>)
    ensures
        match r {
            Ok(value) => read_text(text@) == Some(document(value)) && readable(document(value)),
            Err(_) => read_text(text@) is None,
        },
{
    serde_json::from_str(text)
}

/// [`serde_json::to_string_pretty`] of a [`serde_json::Value`]: it succeeds,
/// the text is a function of the value, and [`serde_json::from_str`] reads the
/// same value back from it where numbers are 64-bit integers and nesting does
/// not pass the reader's limit.
#[verifier::external_body]
pub(crate) fn print(value: &serde_json::Value) -> (r: Result<String, serde_json::Error>)
    ensures
        r is Ok,
        r matches Ok(s) ==> s@ == pretty_text(document(*value)),
        storable(document(*value)) ==> (r matches Ok(s) ==> read_text(s@) == Some(
            document(*value),
        )),
{
    serde_json::to_string_pretty(value)
}

// --- Values ---

/// [`serde_json::Value::as_object`]: the object, where the value is one.
#[verifier::external_body]
pub(crate) fn as_object(value: &serde_json::Value) -> (r: Option<
    &serde_json::Map<String, serde_json::Value>,
>)
    ensures
        match r {
            Some(object) => document(*value) == Json::Object(members(*object)),
            None => !(document(*value) is Object),
        },
{
    value.as_object()
}

/// [`serde_json::Value::as_object_mut`]: the object, where the value is one,
/// to be changed in place.
#[verifier::external_body]
pub(crate) fn as_object_mut(value: &mut serde_json::Value) -> (r: Option<
    &mut serde_json::Map<String, serde_json::Value>,
>)
    ensures
        match r {
            Some(object) => document(*old(value)) == Json::Object(members(*object)) && document(
                *final(value),
            ) == Json::Object(members(*final(object))),
            None => !(document(*old(value)) is Object) && *final(value) == *old(value),
        },
{
    value.as_object_mut()
}

/// [`serde_json::Value::as_array`]: the elements, where the value is an array.
#[verifier::external_body]
pub(crate) fn as_array(value: &serde_json::Value) -> (r: Option<&Vec<serde_json::Value>>)
    ensures
        match r {
            Some(list) => document(*value) == Json::Array(documents(list@)),
            None => !(document(*value) is Array),
        },
{
    value.as_array()
}

/// [`serde_json::Value::as_str`]: the text, where the value is one.
#[verifier::external_body]
pub(crate) fn as_str(value: &serde_json::Value) -> (r: Option<&str>)
    ensures
        match r {
            Some(s) => document(*value) == Json::Text(s@),
            None => !(document(*value) is Text),
        },
{
    value.as_str()
}

/// [`serde_json::Value::String`]: the value of a text.
#[verifier::external_body]
pub(crate) fn text_value(s: String) -> (r: serde_json::Value)
    ensures
        document(r) == Json::Text(s@),
{
    serde_json::Value::String(s)
}

/// [`serde_json::Value::Array`]: the value of a list of values.
#[verifier::external_body]
pub(crate) fn array_value(list: Vec<serde_json::Value>) -> (r: serde_json::Value)
    ensures
        document(r) == Json::Array(documents(list@)),
{
    serde_json::Value::Array(list)
}

/// [`serde_json::Value::Object`]: the value of an object.
#[verifier::external_body]
pub(crate) fn object_value(object: serde_json::Map<String, serde_json::Value>) -> (r:
    serde_json::Value)
    ensures
        document(r) == Json::Object(members(object)),
{
    serde_json::Value::Object(object)
}

// --- Objects ---

/// [`serde_json::Map::new`]: an object without members.
#[verifier::external_body]
pub(crate) fn new_object() -> (r: serde_json::Map<String, serde_json::Value>)
    ensures
        members(r) == Seq::<(Seq<char>, Json)>::empty(),
{
    serde_json::Map::new()
}

/// [`serde_json::Map`]'s `clone`: an object with the same members.
#[verifier::external_body]
pub(crate) fn copy_object(object: &serde_json::Map<String, serde_json::Value>) -> (r:
    serde_json::Map<String, serde_json::Value>)
    ensures
        members(r) == members(*object),
{
    object.clone()
}

/// [`serde_json::Map::get`]: the value of a member.
#[verifier::external_body]
pub(crate) fn get<'a>(
    object: &'a serde_json::Map<String, serde_json::Value>,
    key: &str,
) -> (r: Option<&'a serde_json::Value>)
    ensures
        match r {
            Some(value) => lookup(members(*object), key@) == Some(document(*value)),
            None => lookup(members(*object), key@) is None,
        },
{
    object.get(key)
}

/// [`serde_json::Map::get_mut`]: the value of a member, to be changed in
/// place.
#[verifier::external_body]
pub(crate) fn get_mut<'a>(
    object: &'a mut serde_json::Map<String, serde_json::Value>,
    key: &str,
) -> (r: Option<&'a mut serde_json::Value>)
    ensures
        match r {
            Some(value) => lookup(members(*old(object)), key@) == Some(document(*value))
                && members(*final(object)) == put(
                members(*old(object)),
                key@,
                document(*final(value)),
            ),
            None => lookup(members(*old(object)), key@) is None && *final(object) == *old(object),
        },
{
    object.get_mut(key)
}

/// [`serde_json::Map::contains_key`]: whether there is such a member.
#[verifier::external_body]
pub(crate) fn contains_key(
    object: &serde_json::Map<String, serde_json::Value>,
    key: &str,
) -> (r: bool)
    ensures
        r == has(members(*object), key@),
{
    object.contains_key(key)
}

/// [`serde_json::Map::insert`], which with the `preserve_order` feature keeps
/// the place of a member that is there and adds a new one at the end.
#[verifier::external_body]
pub(crate) fn insert(
    object: &mut serde_json::Map<String, serde_json::Value>,
    key: String,
    value: serde_json::Value,
)
    ensures
        members(*final(object)) == put(members(*old(object)), key@, document(value)),
{
    object.insert(key, value);
}

/// [`serde_json::Map::shift_remove`]: takes a member out, where there is one,
/// and moves those behind it up, so that the others keep their order.
#[verifier::external_body]
pub(crate) fn remove(object: &mut serde_json::Map<String, serde_json::Value>, key: &str)
    ensures
        members(*final(object)) == take_out(members(*old(object)), key@),
{
    object.shift_remove(key);
}

/// [`serde_json::Map::iter`]: the members, in order.
#[verifier::external_body]
pub(crate) fn member_list(object: &serde_json::Map<String, serde_json::Value>) -> (r: Vec<
    (&String, &serde_json::Value),
>)
    ensures
        r@.map_values(|m: (&String, &serde_json::Value)| (m.0@, document(*m.1))) == members(
            *object,
        ),
{
    object.iter().collect()
}

}
