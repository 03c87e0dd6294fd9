//! JSON values as `serde_json` holds them, and what the rest of the crate knows of them.
use crate::text::decimal;
use serde_json::Value;
use vstd::prelude::*;

pub mod laws;

verus! {

/// What a JSON value holds. A number stands as the text that it prints as.
pub enum Json {
    Null,
    Bool(bool),
    Number(Seq<char>),
    String(Seq<char>),
    Array(Seq<Json>),
    Object(Map<Seq<char>, Json>),
}

impl Json {
    /// The member `key` of an object.
    pub open spec fn member(self, key: Seq<char>) -> Option<Json> {
        match self {
            Json::Object(members) => if members.dom().contains(key) {
                Some(members[key])
            } else {
                None
            },
            _ => None,
        }
    }

    /// Whether arrays and objects stand within each other at most `levels` deep.
    pub open spec fn nested_within(self, levels: nat) -> bool
        decreases levels,
    {
        match self {
            Json::Array(items) => levels > 0 && forall|i: int|
                0 <= i < items.len() ==> (#[trigger] items[i]).nested_within((levels - 1) as nat),
            Json::Object(members) => levels > 0 && forall|key: Seq<char>| #[trigger]
                members.dom().contains(key) ==> members[key].nested_within((levels - 1) as nat),
            _ => true,
        }
    }

    /// Whether every number is an integer that fits in an `i64` or a `u64`, in a value that is
    /// finite and nested at most `levels` deep.
    pub open spec fn whole_within(self, levels: nat) -> bool
        decreases levels,
    {
        match self {
            Json::Number(text) => exists|n: int|
                i64::MIN <= n <= u64::MAX && text == #[trigger] integer(n),
            Json::Array(items) => levels > 0 && forall|i: int|
                0 <= i < items.len() ==> (#[trigger] items[i]).whole_within((levels - 1) as nat),
            Json::Object(members) => levels > 0 && members.dom().finite() && forall|
                key: Seq<char>,
            | #[trigger]
                members.dom().contains(key) ==> members[key].whole_within((levels - 1) as nat),
            _ => true,
        }
    }
}

/// An integer in decimal digits, behind a sign where it is negative.
pub open spec fn integer(n: int) -> Seq<char> {
    if n < 0 {
        "-"@ + decimal((-n) as nat)
    } else {
        decimal(n as nat)
    }
}

/// How deep the arrays and objects of a text may stand within each other for it to be read.
pub const MAX_NESTING: usize = 127;

/// An object without members.
pub open spec fn empty_object() -> Json {
    Json::Object(Map::empty())
}

/// Whether no key stands twice.
pub open spec fn has_distinct_keys(entries: Seq<(String, Value)>) -> bool {
    forall|i: int, j: int|
        0 <= i < j < entries.len() ==> (#[trigger] entries[i]).0@ != (#[trigger] entries[j]).0@
}

/// The members of an object that is made of `entries`.
pub open spec fn members_of(entries: Seq<(String, Value)>) -> Map<Seq<char>, Json>
    decreases entries.len(),
{
    if entries.len() == 0 {
        Map::empty()
    } else {
        members_of(entries.drop_last()).insert(entries.last().0@, contents(entries.last().1))
    }
}

/// `serde_json::Value`, carried as it is.
#[verifier::external_type_specification]
#[verifier::external_body]
pub struct ExValue(Value);

/// What a `serde_json::Value` holds.
pub uninterp spec fn contents(value: Value) -> Json;

/// What `serde_json::from_str` reads from a text as a value, `None` where it reports an error.
pub uninterp spec fn parsed(text: Seq<char>) -> Option<Json>;

/// The compact text of a value, as its `Display` writes it: the members of an object come in
/// the order of their keys, so that the text follows from the contents.
pub uninterp spec fn printed(value: Json) -> Seq<char>;

/// What is read from the text of a value that is not nested too deep.
pub open spec fn reread(value: Json) -> Json {
    parsed(printed(value)).unwrap()
}

/// An object with each member as it is read from its text.
pub open spec fn reread_members(value: Json) -> Json {
    Json::Object(value->Object_0.map_values(|member: Json| reread(member)))
}

/// Whether a text is read as an object.
pub open spec fn reads_as_object(text: Seq<char>) -> bool {
    parsed(text) matches Some(value) && value is Object
}

/// `serde_json::from_str` into a `Value`: what is read is a function of the text alone. Nothing
/// is read from a text that is nested too deep. The text of a value that is not, and whose
/// numbers are integers, is read as that value; a fraction may be read as its neighbour. In the
/// text of an object each member is read as it is from its own text.
#[verifier::external_body]
pub(crate) fn from_str(text: &str) -> (r: Option<Value>)
    ensures
        r is Some <==> parsed(text@) is Some,
        r matches Some(value) ==> parsed(text@) == Some(contents(value)),
        r matches Some(value) ==> contents(value).nested_within(MAX_NESTING as nat),
        r matches Some(value) ==> forall|written: Json|
            text@ == #[trigger] printed(written) && written.whole_within(MAX_NESTING as nat)
                ==> contents(value) == written,
        r is None ==> forall|written: Json|
            written.whole_within(MAX_NESTING as nat) ==> text@ != #[trigger] printed(written),
        r matches Some(value) ==> forall|written: Value|
            text@ == #[trigger] printed(contents(written)) && contents(written) is Object
                && contents(written).nested_within(MAX_NESTING as nat) ==> contents(value)
                == reread_members(contents(written)),
        r is None ==> forall|written: Value|
            contents(written) is Object && contents(written).nested_within(MAX_NESTING as nat)
                ==> text@ != #[trigger] printed(contents(written)),
{
    serde_json::from_str(text).ok()
}

/// `to_string` on a `Value`: the text is a function of the contents alone, on one line. An
/// object is written between braces, and an empty one as the two braces. The text of an object
/// that is not nested too deep is read as an object.
#[verifier::external_body]
pub(crate) fn to_string(value: &Value) -> (r: String)
    ensures
        r@ == printed(contents(*value)),
        contents(*value) is Object ==> r@.len() >= 2 && r@[0] == '{' && r@.last() == '}',
        contents(*value) is Object && contents(*value).nested_within(MAX_NESTING as nat)
            ==> reads_as_object(r@),
        r@ == printed(empty_object()) ==> r@ == "{}"@,
        !r@.contains('\n') && !r@.contains('\r'),
{
    value.to_string()
}

/// `Value::get` with a text as the index: the member of that name, where the value is an
/// object that has one.
#[verifier::external_body]
pub(crate) fn get<'a>(value: &'a Value, key: &str) -> (r: Option<&'a Value>)
    ensures
        r is Some <==> contents(*value).member(key@) is Some,
        r matches Some(member) ==> contents(*value).member(key@) == Some(contents(*member)),
{
    value.get(key)
}

/// `Value::as_str`: the text of a string, nothing for a value of another kind.
pub assume_specification[ Value::as_str ](value: &Value) -> (r: Option<&str>)
    ensures
        r is Some <==> contents(*value) is String,
        r matches Some(text) ==> contents(*value) == Json::String(text@),
;

/// `Value::is_object`.
pub assume_specification[ Value::is_object ](value: &Value) -> (r: bool)
    ensures
        r <==> contents(*value) is Object,
;

/// `Clone` of a `Value`: the copy holds what the original holds.
pub assume_specification[ <Value as Clone>::clone ](value: &Value) -> (r: Value)
    ensures
        contents(r) == contents(*value),
;

/// The variant `Value::String`.
#[verifier::external_body]
pub(crate) fn string(text: String) -> (r: Value)
    ensures
        contents(r) == Json::String(text@),
{
    Value::String(text)
}

/// `Value` collected from pairs of a key and a value, by its `FromIterator`: an object with
/// those members. Which value is kept of a key that stands twice is left open.
#[verifier::external_body]
pub(crate) fn object(entries: Vec<(String, Value)>) -> (r: Value)
    requires
        has_distinct_keys(entries@),
    ensures
        contents(r) == Json::Object(members_of(entries@)),
{
    Value::from_iter(entries)
}

/// What is nested within some levels is nested within more.
pub proof fn lemma_nested_within(value: Json, levels: nat, more: nat)
    requires
        value.nested_within(levels),
        levels <= more,
    ensures
        value.nested_within(more),
    decreases levels,
{
    match value {
        Json::Array(items) => {
            assert forall|i: int| 0 <= i < items.len() implies (
            #[trigger] items[i]).nested_within((more - 1) as nat) by {
                lemma_nested_within(items[i], (levels - 1) as nat, (more - 1) as nat);
            }
        },
        Json::Object(members) => {
            assert forall|key: Seq<char>| #[trigger] members.dom().contains(key) implies
                members[key].nested_within((more - 1) as nat) by {
                lemma_nested_within(members[key], (levels - 1) as nat, (more - 1) as nat);
            }
        },
        _ => {},
    }
}

/// What is whole within some levels is whole within more.
pub proof fn lemma_whole_within(value: Json, levels: nat, more: nat)
    requires
        value.whole_within(levels),
        levels <= more,
    ensures
        value.whole_within(more),
    decreases levels,
{
    match value {
        Json::Array(items) => {
            assert forall|i: int| 0 <= i < items.len() implies (
            #[trigger] items[i]).whole_within((more - 1) as nat) by {
                lemma_whole_within(items[i], (levels - 1) as nat, (more - 1) as nat);
            }
        },
        Json::Object(members) => {
            assert forall|key: Seq<char>| #[trigger] members.dom().contains(key) implies
                members[key].whole_within((more - 1) as nat) by {
                lemma_whole_within(members[key], (levels - 1) as nat, (more - 1) as nat);
            }
        },
        _ => {},
    }
}

} // verus!
