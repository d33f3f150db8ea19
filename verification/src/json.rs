//! JSON values, as far as they are looked into.
use crate::text::same_text;
use vstd::prelude::*;

verus! {

/// A JSON value.
#[derive(Debug)]
pub enum Json {
    Null,
    Bool(bool),
    Number,
    Text(String),
    Array(Vec<Json>),
    Object(Vec<(String, Json)>),
}

/// The value of the first member with that name.
pub open spec fn member_in(members: Seq<(String, Json)>, name: Seq<char>) -> Option<Json>
    decreases members.len(),
{
    if members.len() == 0 {
        None
    } else if members[0].0@ == name {
        Some(members[0].1)
    } else {
        member_in(members.skip(1), name)
    }
}

/// The member of an object with that name; nothing of any other value.
pub open spec fn member_spec(value: Option<Json>, name: Seq<char>) -> Option<Json> {
    match value {
        Some(Json::Object(members)) => member_in(members@, name),
        _ => None,
    }
}

/// The first item of an array; nothing of any other value.
pub open spec fn first_spec(value: Option<Json>) -> Option<Json> {
    match value {
        Some(Json::Array(items)) => if items@.len() > 0 {
            Some(items@[0])
        } else {
            None
        },
        _ => None,
    }
}

/// The text of a text value; nothing of any other value.
pub open spec fn text_spec(value: Option<Json>) -> Option<Seq<char>> {
    match value {
        Some(Json::Text(t)) => Some(t@),
        _ => None,
    }
}

/// What an optional reference refers to.
pub open spec fn target_of(value: Option<&Json>) -> Option<Json> {
    match value {
        Some(v) => Some(*v),
        None => None,
    }
}

/// The member of an object with that name.
pub fn member<'a>(value: Option<&'a Json>, name: &str) -> (r: Option<&'a Json>)
    ensures
        target_of(r) == member_spec(target_of(value), name@),
{
    match value {
        Some(Json::Object(members)) => {
            let mut i: usize = 0;
            proof {
                assert(members@.skip(0) =~= members@);
            }
            while i < members.len()
                invariant
                    i <= members.len(),
                    target_of(value) == Some(Json::Object(*members)),
                    member_in(members@, name@) == member_in(members@.skip(i as int), name@),
                decreases members.len() - i,
            {
                if same_text(members[i].0.as_str(), name) {
                    return Some(&members[i].1);
                }
                proof {
                    assert(members@.skip(i as int).skip(1) =~= members@.skip(i + 1));
                }
                i = i + 1;
            }
            None
        },
        _ => None,
    }
}

/// The first item of an array.
pub fn first<'a>(value: Option<&'a Json>) -> (r: Option<&'a Json>)
    ensures
        target_of(r) == first_spec(target_of(value)),
{
    match value {
        Some(Json::Array(items)) => if items.len() > 0 {
            Some(&items[0])
        } else {
            None
        },
        _ => None,
    }
}

/// The text of a text value.
pub fn text(value: Option<&Json>) -> (r: Option<String>)
    ensures
        r is Some <==> text_spec(target_of(value)) is Some,
        r is Some ==> r->0@ == text_spec(target_of(value))->0,
{
    match value {
        Some(Json::Text(t)) => Some(t.clone()),
        _ => None,
    }
}

/// What is found in an object is the value of the first member with the name, and nothing is
/// found exactly if no member has it.
pub proof fn members_are_found_by_name(members: Seq<(String, Json)>, name: Seq<char>)
    ensures
        member_in(members, name) is None <==> forall|k: int|
            0 <= k < members.len() ==> (#[trigger] members[k]).0@ != name,
        member_in(members, name) matches Some(v) ==> exists|i: int|
            0 <= i < members.len() && (#[trigger] members[i]).0@ == name && members[i].1 == v
                && forall|j: int| 0 <= j < i ==> (#[trigger] members[j]).0@ != name,
    decreases members.len(),
{
    if members.len() > 0 && members[0].0@ != name {
        let rest = members.skip(1);
        members_are_found_by_name(rest, name);
        assert forall|k: int| 0 < k < members.len() implies #[trigger] members[k] == rest[k
            - 1] by {}
        assert forall|k: int| 0 <= k < rest.len() implies #[trigger] rest[k] == members[k + 1] by {}
        if member_in(rest, name) is Some {
            let v = member_in(rest, name)->0;
            let i = choose|i: int|
                0 <= i < rest.len() && (#[trigger] rest[i]).0@ == name && rest[i].1 == v && forall|
                    j: int,
                |
                    0 <= j < i ==> (#[trigger] rest[j]).0@ != name;
            assert(members[i + 1].0@ == name);
            assert forall|j: int| 0 <= j < i + 1 implies (#[trigger] members[j]).0@ != name by {
                if j > 0 {
                    assert(rest[j - 1].0@ != name);
                }
            }
        }
    }
}

/// Members are those of objects, first items those of arrays that are not empty, and texts
/// those of text values; every other value has none.
pub proof fn values_are_looked_into_by_kind(value: Json, name: Seq<char>)
    ensures
        member_spec(Some(value), name) == match value {
            Json::Object(members) => member_in(members@, name),
            _ => None,
        },
        first_spec(Some(value)) is Some <==> (value matches Json::Array(items) && items@.len() > 0),
        value matches Json::Array(items) ==> items@.len() > 0 ==> first_spec(Some(value)) == Some(
            items@[0],
        ),
        text_spec(Some(value)) is Some <==> value is Text,
        value matches Json::Text(t) ==> text_spec(Some(value)) == Some(t@),
        member_spec(None, name) is None,
        first_spec(None) is None,
        text_spec(None) is None,
{
}

} // verus!
