//! JSON values, which `serde_json` makes, reads, compares and writes out.
use crate::ordered::OrderedMap;
use serde_json::Value;
use vstd::prelude::*;

verus! {

/// A JSON value of `serde_json`, carried without being looked into.
#[verifier::external_type_specification]
#[verifier::external_body]
pub struct JsonValue(serde_json::Value);

/// What `serde_json` says when it cannot write a value out.
#[verifier::external_type_specification]
#[verifier::external_body]
pub struct JsonError(serde_json::Error);

/// `Value::clone` hands back the value it was given, as the derived impl does.
pub assume_specification[ <serde_json::Value as Clone>::clone ](value: &serde_json::Value) -> (copy:
    serde_json::Value)
    ensures
        copy == *value,
;

/// The members of a JSON object by their names. Any other value has none.
pub uninterp spec fn json_members(value: Value) -> Map<Seq<char>, Value>;

/// The JSON object that has the given members.
pub uninterp spec fn json_object(members: Map<Seq<char>, Value>) -> Value;

/// Whether `serde_json` takes two values to be equal.
pub uninterp spec fn json_equal(a: Value, b: Value) -> bool;

/// The bytes that `serde_json` writes for a value, or its reason not to.
pub uninterp spec fn json_encoding(value: Value) -> Result<Seq<u8>, serde_json::Error>;

/// The text of an error of `serde_json`.
pub uninterp spec fn json_error_text(error: serde_json::Error) -> Seq<char>;

/// The members that a list of pairs gives, a later pair before an earlier one
/// of the same name.
pub open spec fn gathered(entries: Seq<(String, Value)>) -> Map<Seq<char>, Value>
    decreases entries.len(),
{
    if entries.len() == 0 {
        Map::empty()
    } else {
        gathered(entries.drop_last()).insert(entries.last().0@, entries.last().1)
    }
}

/// Collects pairs into a `serde_json::Map`, by its `FromIterator`, and wraps it
/// as `Value::Object`. No two pairs may have the same name. The object has the
/// members that the pairs give, and is the object of those members: the map is a
/// `BTreeMap`, which keeps no trace of the order in which it was filled.
#[verifier::external_body]
fn collect_object(entries: Vec<(String, Value)>) -> (object: Value)
    requires
        entries@.map_values(|entry: (String, Value)| entry.0@).no_duplicates(),
    ensures
        object == json_object(gathered(entries@)),
        json_members(object) == gathered(entries@),
{
    Value::Object(entries.into_iter().collect())
}

/// `Value::get` with a text: the member of that name, if the value is an object
/// and has one.
#[verifier::external_body]
pub(crate) fn member<'a>(value: &'a Value, name: &str) -> (found: Option<&'a Value>)
    ensures
        match found {
            Some(inner) => {
                &&& json_members(*value).contains_key(name@)
                &&& *inner == json_members(*value)[name@]
            },
            None => !json_members(*value).contains_key(name@),
        },
{
    value.get(name)
}

/// `==` of two values. A value equals itself: its numbers are never NaN.
#[verifier::external_body]
fn same_json(a: &Value, b: &Value) -> (same: bool)
    ensures
        same == json_equal(*a, *b),
        *a == *b ==> same,
{
    a == b
}

/// Whether two values are the same, or equal as `serde_json` has it.
pub open spec fn json_alike(a: Value, b: Value) -> bool {
    a == b || json_equal(a, b)
}

/// Compares two values.
pub fn alike_json(a: &Value, b: &Value) -> (alike: bool)
    ensures
        alike == json_alike(*a, *b),
{
    same_json(a, b)
}

/// `serde_json::to_vec`: the bytes of a value, or the reason why there are none.
#[verifier::external_body]
pub(crate) fn encode(value: &Value) -> (encoded: Result<Vec<u8>, serde_json::Error>)
    ensures
        match encoded {
            Ok(bytes) => json_encoding(*value) == Ok::<Seq<u8>, serde_json::Error>(bytes@),
            Err(error) => json_encoding(*value) == Err::<Seq<u8>, serde_json::Error>(error),
        },
{
    serde_json::to_vec(value)
}

/// `to_string` of an error of `serde_json`.
#[verifier::external_body]
pub(crate) fn error_text(error: &serde_json::Error) -> (text: String)
    ensures
        text@ == json_error_text(*error),
{
    error.to_string()
}

proof fn lemma_gathered(entries: Seq<(String, Value)>, map: Map<Seq<char>, Value>)
    requires
        entries.map_values(|entry: (String, Value)| entry.0@).no_duplicates(),
        forall|i: int|
            0 <= i < entries.len() ==> {
                &&& map.contains_key((#[trigger] entries[i]).0@)
                &&& map[entries[i].0@] == entries[i].1
            },
    ensures
        gathered(entries) == map.restrict(
            entries.map_values(|entry: (String, Value)| entry.0@).to_set(),
        ),
    decreases entries.len(),
{
    let names = entries.map_values(|entry: (String, Value)| entry.0@);
    if entries.len() == 0 {
        assert(map.restrict(names.to_set()) =~= Map::<Seq<char>, Value>::empty());
    } else {
        let rest = entries.drop_last();
        let fewer = rest.map_values(|entry: (String, Value)| entry.0@);
        assert(fewer =~= names.drop_last());
        lemma_gathered(rest, map);
        assert(names =~= fewer.push(entries.last().0@));
        assert(names.to_set() =~= fewer.to_set().insert(entries.last().0@)) by {
            assert forall|name: Seq<char>| names.contains(name) == (fewer.contains(name) || name
                == entries.last().0@) by {
                if fewer.contains(name) {
                    let i = choose|i: int| 0 <= i < fewer.len() && fewer[i] == name;
                    assert(names[i] == name);
                }
                if name == entries.last().0@ {
                    assert(names[names.len() - 1] == name);
                }
            }
        }
        assert(map[entries[entries.len() - 1].0@] == entries.last().1);
        assert(gathered(entries) =~= map.restrict(names.to_set()));
    }
}

/// The object whose members a map holds.
pub fn object_of(map: OrderedMap<String, Value>) -> (object: Value)
    ensures
        object == json_object(map@),
        json_members(object) == map@,
{
    let ghost members = map@;
    let count = map.len();
    let entries = map.into_entries();
    proof {
        let names = entries@.map_values(|entry: (String, Value)| entry.0@);
        assert forall|i: int| 0 <= i < entries@.len() implies members.contains_key(
            (#[trigger] entries@[i]).0@,
        ) by {
            assert(names.contains(names[i]));
            assert(names.to_set().contains(names[i]));
        }
        lemma_gathered(entries@, members);
        assert(gathered(entries@) =~= members);
    }
    collect_object(entries)
}

/// The input that a step is given: what the run was given, under `run_input`,
/// and what the steps before it put out, under `dependencies`.
pub open spec fn step_input(run_input: Value, dependencies: Map<Seq<char>, Value>) -> Value {
    json_object(
        Map::<Seq<char>, Value>::empty().insert("run_input"@, run_input).insert(
            "dependencies"@,
            json_object(dependencies),
        ),
    )
}

/// Builds the input of a step.
pub fn build_step_input(run_input: &Value, dependencies: OrderedMap<String, Value>) -> (input:
    Value)
    ensures
        input == step_input(*run_input, dependencies@),
        json_members(input) == Map::<Seq<char>, Value>::empty().insert(
            "run_input"@,
            *run_input,
        ).insert("dependencies"@, json_object(dependencies@)),
{
    let mut input = OrderedMap::new();
    input.insert("run_input".to_owned(), run_input.clone());
    input.insert("dependencies".to_owned(), object_of(dependencies));
    object_of(input)
}

} // verus!
