//! What is said of JSON values, told by their parts.
use super::{
    contents, integer, members_of, parsed, printed, reads_as_object, reread_members, Json,
    MAX_NESTING,
};
use crate::text::laws::{law_decimal_stands_for_its_number, value_of};
use serde_json::Value;
use vstd::prelude::*;

verus! {

/// A member of an object is what the object holds under the key, and nothing else has members.
pub proof fn law_members(members: Map<Seq<char>, Json>, key: Seq<char>, value: Json)
    ensures
        members.dom().contains(key) ==> Json::Object(members).member(key) == Some(members[key]),
        !members.dom().contains(key) ==> Json::Object(members).member(key) is None,
        !(value is Object) ==> value.member(key) is None,
{
}

/// Texts are read where they are nested at most 127 deep.
pub proof fn law_depth()
    ensures
        MAX_NESTING == 127,
{
}

/// An integer is written in digits that stand for it, behind a sign where it is negative.
pub proof fn law_integers(n: int)
    ensures
        n >= 0 ==> value_of(integer(n)) == n,
        n < 0 ==> integer(n).len() > 1 && integer(n)[0] == '-' && value_of(integer(n).skip(1))
            == -n,
{
    reveal_strlit("-");
    if n >= 0 {
        law_decimal_stands_for_its_number(n as nat);
    } else {
        law_decimal_stands_for_its_number((-n) as nat);
        assert(integer(n).skip(1) == crate::text::decimal((-n) as nat));
    }
}

/// An array or an object is nested one level deeper than what it holds, and nothing else is
/// nested.
pub proof fn law_nesting(value: Json, levels: nat)
    ensures
        value matches Json::Array(items) ==> (value.nested_within(levels) <==> levels > 0 && forall|i: int|
            0 <= i < items.len() ==> (#[trigger] items[i]).nested_within((levels - 1) as nat)),
        value matches Json::Object(members) ==> (value.nested_within(levels) <==> levels > 0 && forall|
            key: Seq<char>,
        | #[trigger]
            members.dom().contains(key) ==> members[key].nested_within((levels - 1) as nat)),
        !(value is Array) && !(value is Object) ==> value.nested_within(levels),
{
}

/// Values that are no numbers, and the integers of an `i64` or a `u64`, are whole, and so are
/// arrays and finite objects of what is whole, one level deeper.
pub proof fn law_wholeness(value: Json, levels: nat)
    ensures
        value matches Json::Array(items) ==> (value.whole_within(levels) <==> levels > 0 && forall|i: int|
            0 <= i < items.len() ==> (#[trigger] items[i]).whole_within((levels - 1) as nat)),
        value matches Json::Object(members) ==> (value.whole_within(levels) <==> levels > 0 && members.dom().finite() && forall|
            key: Seq<char>,
        | #[trigger]
            members.dom().contains(key) ==> members[key].whole_within((levels - 1) as nat)),
        value is Null || value is Bool || value is String ==> value.whole_within(levels),
        forall|n: int|
            -0x8000_0000_0000_0000 <= n <= 0xffff_ffff_ffff_ffff && value == Json::Number(
                #[trigger] integer(n),
            ) ==> value.whole_within(levels),
{
}

/// A text is read as an object where it is read, and what is read is one.
pub proof fn law_reading_objects(text: Seq<char>)
    ensures
        reads_as_object(text) <==> parsed(text) is Some && parsed(text).unwrap() is Object,
{
}

/// An object is read member by member, under the same keys.
pub proof fn law_rereading(members: Map<Seq<char>, Json>, key: Seq<char>)
    ensures
        reread_members(Json::Object(members)) is Object,
        reread_members(Json::Object(members))->Object_0.dom() == members.dom(),
        members.dom().contains(key) ==> reread_members(Json::Object(members))->Object_0[key]
            == parsed(printed(members[key])).unwrap(),
{
    assert(reread_members(Json::Object(members))->Object_0.dom() == members.dom());
}

/// An object is made of its entries, one by one.
pub proof fn law_entries(entries: Seq<(String, Value)>, entry: (String, Value))
    ensures
        members_of(Seq::empty()) == Map::<Seq<char>, Json>::empty(),
        members_of(entries.push(entry)) == members_of(entries).insert(entry.0@, contents(entry.1)),
{
    assert(entries.push(entry).drop_last() == entries);
}

} // verus!
