//! JSON values, as `serde_json` reads and writes them.
//!
//! The library never looks into JSON text itself: `serde_json` parses it
//! into a `serde_json::Value` and writes such a value out again. What a
//! value holds is modelled by [`JsonTree`]; the functions of this module
//! are thin calls into `serde_json` whose contracts say, on that model,
//! what the crate's source shows them to do.

use vstd::prelude::*;

verus! {

/// A JSON number: an integer from zero up, a negative integer, or any other
/// number, given by the bits of its 64-bit floating-point form.
pub enum JsonNumber {
    Unsigned(u64),
    Negative(i64),
    Fraction(u64),
}

/// The model of a JSON value. The members of an object stand in the order
/// in which they were inserted; their names differ from one another.
pub enum JsonTree {
    Null,
    Bool(bool),
    Number(JsonNumber),
    Text(Seq<char>),
    Array(Seq<JsonTree>),
    Object(Seq<(Seq<char>, JsonTree)>),
}

/// Whether `members` has a member of the name `key` at index `i`.
pub open spec fn is_member(members: Seq<(Seq<char>, JsonTree)>, key: Seq<char>, i: int) -> bool {
    0 <= i < members.len() && members[i].0 == key
}

impl JsonTree {
    /// The member `key` of an object; nothing for a value that is no object
    /// or has no such member.
    pub open spec fn field(self, key: Seq<char>) -> Option<JsonTree> {
        match self {
            JsonTree::Object(members) => if exists|i: int| is_member(members, key, i) {
                Some(members[choose|i: int| is_member(members, key, i)].1)
            } else {
                None
            },
            _ => None,
        }
    }

    /// The text of a string value.
    pub open spec fn as_text(self) -> Option<Seq<char>> {
        match self {
            JsonTree::Text(text) => Some(text),
            _ => None,
        }
    }

    /// The value of a number that is an integer from zero up.
    pub open spec fn as_unsigned(self) -> Option<u64> {
        match self {
            JsonTree::Number(JsonNumber::Unsigned(n)) => Some(n),
            _ => None,
        }
    }

    /// The items of an array.
    pub open spec fn as_items(self) -> Option<Seq<JsonTree>> {
        match self {
            JsonTree::Array(items) => Some(items),
            _ => None,
        }
    }
}

/// A value of `serde_json`. Nothing is known of its inside but through
/// [`json_tree`].
#[verifier::external_type_specification]
#[verifier::external_body]
pub struct ExValue(serde_json::Value);

/// What a `serde_json::Value` holds.
pub uninterp spec fn json_tree(value: serde_json::Value) -> JsonTree;

/// What `serde_json::from_str` makes of a text: the value it parses to, or
/// nothing where it reports an error.
pub uninterp spec fn json_parse(text: Seq<char>) -> Option<JsonTree>;

/// What `serde_json::to_string` makes of a value: the text it writes, or
/// nothing where it reports an error.
pub uninterp spec fn json_text(tree: JsonTree) -> Option<Seq<char>>;

/// The trees of a sequence of values.
pub open spec fn json_trees(values: Seq<serde_json::Value>) -> Seq<JsonTree> {
    values.map_values(|v: serde_json::Value| json_tree(v))
}

/// The members that a list of named values makes, in the order of the
/// list.
pub open spec fn json_members(fields: Seq<(String, serde_json::Value)>) -> Seq<
    (Seq<char>, JsonTree),
> {
    fields.map_values(|field: (String, serde_json::Value)| (field.0@, json_tree(field.1)))
}

/// No two of the named values have the same name.
pub open spec fn distinct_names(fields: Seq<(String, serde_json::Value)>) -> bool {
    forall|i: int, j: int|
        0 <= i < j < fields.len() ==> (#[trigger] fields[i]).0@ != (#[trigger] fields[j]).0@
}

/// Parses a text with `serde_json::from_str` into a `serde_json::Value`.
/// An error of the parser is given as `None`. The result is named by
/// [`json_parse`]; nothing else is claimed of it.
#[verifier::external_body]
pub(crate) fn parse(text: &str) -> (value: Option<serde_json::Value>)
    ensures
        match json_parse(text@) {
            Some(tree) => value is Some && json_tree(value->Some_0) == tree,
            None => value is None,
        },
{
    serde_json::from_str::<serde_json::Value>(text).ok()
}

/// Writes a value with `serde_json::to_string`. An error of the writer is
/// given as `None`. The result is named by [`json_text`]: what is written,
/// and whether anything is, depends on the value alone. Nothing else is
/// claimed of it.
#[verifier::external_body]
pub(crate) fn render(value: &serde_json::Value) -> (text: Option<String>)
    ensures
        match json_text(json_tree(*value)) {
            Some(t) => text is Some && text->Some_0@ == t,
            None => text is None,
        },
{
    serde_json::to_string(value).ok()
}

/// `Value::get` with a text index: the member of that name where the value
/// is an object that has one, else nothing. An object has no two members of
/// one name, so there is no choice of which.
#[verifier::external_body]
pub(crate) fn member<'a>(value: &'a serde_json::Value, key: &str) -> (found: Option<
    &'a serde_json::Value,
>)
    ensures
        match json_tree(*value).field(key@) {
            Some(tree) => found is Some && json_tree(*found->Some_0) == tree,
            None => found is None,
        },
{
    value.get(key)
}

/// `Value::as_str`: the text where the value is a string, else nothing.
#[verifier::external_body]
pub(crate) fn text_of<'a>(value: &'a serde_json::Value) -> (text: Option<&'a str>)
    ensures
        match json_tree(*value).as_text() {
            Some(t) => text is Some && text->Some_0@ == t,
            None => text is None,
        },
{
    value.as_str()
}

/// `Value::as_u64`: the number where the value is an integer from zero up,
/// else nothing.
#[verifier::external_body]
pub(crate) fn unsigned_of(value: &serde_json::Value) -> (n: Option<u64>)
    ensures
        n == json_tree(*value).as_unsigned(),
{
    value.as_u64()
}

/// `Value::as_array`: the items where the value is an array, else nothing.
#[verifier::external_body]
pub(crate) fn items_of<'a>(value: &'a serde_json::Value) -> (items: Option<
    &'a Vec<serde_json::Value>,
>)
    ensures
        match json_tree(*value).as_items() {
            Some(trees) => items is Some && json_trees(items->Some_0@) == trees,
            None => items is None,
        },
{
    value.as_array()
}

/// `Value::is_null`: whether the value is JSON's `null`.
#[verifier::external_body]
pub(crate) fn is_null(value: &serde_json::Value) -> (null: bool)
    ensures
        null == (json_tree(*value) is Null),
{
    value.is_null()
}

/// The value `Value::Null`.
#[verifier::external_body]
pub(crate) fn null_value() -> (value: serde_json::Value)
    ensures
        json_tree(value) == JsonTree::Null,
{
    serde_json::Value::Null
}

/// The value `Value::String` of a text.
#[verifier::external_body]
pub(crate) fn text_value(text: String) -> (value: serde_json::Value)
    ensures
        json_tree(value) == JsonTree::Text(text@),
{
    serde_json::Value::String(text)
}

/// The value that `Value::from` makes of a `u64`: that number.
#[verifier::external_body]
pub(crate) fn unsigned_value(n: u64) -> (value: serde_json::Value)
    ensures
        json_tree(value) == JsonTree::Number(JsonNumber::Unsigned(n)),
{
    serde_json::Value::from(n)
}

/// The value `Value::Array` of the items.
#[verifier::external_body]
pub(crate) fn array_value(items: Vec<serde_json::Value>) -> (value: serde_json::Value)
    ensures
        json_tree(value) == JsonTree::Array(json_trees(items@)),
{
    serde_json::Value::Array(items)
}

/// The value `Value::Object` of the map that the named values are
/// collected into, which keeps them in the order of the list. The names are
/// required to differ, so that no member replaces another.
#[verifier::external_body]
pub(crate) fn object_value(fields: Vec<(String, serde_json::Value)>) -> (value: serde_json::Value)
    requires
        distinct_names(fields@),
    ensures
        json_tree(value) == JsonTree::Object(json_members(fields@)),
{
    serde_json::Value::Object(fields.into_iter().collect())
}

} // verus!
