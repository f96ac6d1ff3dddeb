//! JSON documents that the node reads: the bulletin, the records of rejected
//! packages, and the protocol bindings of a package.

use vstd::prelude::*;

use crate::text::same_text;

verus! {

/// A JSON value.
#[derive(Debug)]
pub enum JsonValue {
    Null,
    Bool(bool),
    /// A number that is an integer in the range of `i64`.
    Integer(i64),
    /// Any other number, as it is written.
    Number(String),
    Text(String),
    Array(Vec<JsonValue>),
    /// The members of an object, each name once.
    Object(Vec<(String, JsonValue)>),
}

/// The value of the first member of that name.
pub open spec fn first_member(
    members: Seq<(String, JsonValue)>,
    name: Seq<char>,
) -> Option<JsonValue>
    decreases members.len(),
{
    if members.len() == 0 {
        None
    } else if members[0].0@ == name {
        Some(members[0].1)
    } else {
        first_member(members.drop_first(), name)
    }
}

/// The member of that name, where the value is an object that has one.
pub open spec fn member(value: JsonValue, name: Seq<char>) -> Option<JsonValue> {
    match value {
        JsonValue::Object(members) => first_member(members@, name),
        _ => None,
    }
}

/// The text that a value is, where it is one.
pub open spec fn text_value(value: JsonValue) -> Option<Seq<char>> {
    match value {
        JsonValue::Text(text) => Some(text@),
        _ => None,
    }
}

/// The text that the member of that name is, where there is such a member.
pub open spec fn text_member(value: JsonValue, name: Seq<char>) -> Option<Seq<char>> {
    match member(value, name) {
        Some(found) => text_value(found),
        None => None,
    }
}

/// The integer that the member of that name is, where there is such a member.
pub open spec fn integer_member(value: JsonValue, name: Seq<char>) -> Option<i64> {
    match member(value, name) {
        Some(JsonValue::Integer(number)) => Some(number),
        _ => None,
    }
}

/// The elements of the array that the member of that name is, where there is
/// such a member.
pub open spec fn array_member(value: JsonValue, name: Seq<char>) -> Option<Seq<JsonValue>> {
    match member(value, name) {
        Some(JsonValue::Array(items)) => Some(items@),
        _ => None,
    }
}

/// The text behind an optional reference to a string.
pub open spec fn referenced_text(value: Option<&String>) -> Option<Seq<char>> {
    match value {
        Some(text) => Some(text@),
        None => None,
    }
}

impl JsonValue {
    /// The member of that name, where the value is an object that has one.
    pub fn get(&self, name: &str) -> (found: Option<&JsonValue>)
        ensures
            found is Some <==> member(*self, name@) is Some,
            found matches Some(value) ==> member(*self, name@) == Some(*value),
    {
        match self {
            JsonValue::Object(members) => {
                let mut i: usize = 0;
                assert(members@.skip(0) =~= members@);
                while i < members.len()
                    invariant
                        i <= members@.len(),
                        member(*self, name@) == first_member(members@, name@),
                        first_member(members@, name@) == first_member(
                            members@.skip(i as int),
                            name@,
                        ),
                    decreases members@.len() - i,
                {
                    assert(members@.skip(i as int).drop_first() =~= members@.skip(i as int + 1));
                    if same_text(&members[i].0, name) {
                        return Some(&members[i].1);
                    }
                    i = i + 1;
                }
                None
            },
            _ => None,
        }
    }

    /// The text that the value is, where it is one.
    pub fn as_text(&self) -> (text: Option<&String>)
        ensures
            referenced_text(text) == text_value(*self),
    {
        match self {
            JsonValue::Text(text) => Some(text),
            _ => None,
        }
    }

    /// The text that the member of that name is, where there is such a member.
    pub fn get_text(&self, name: &str) -> (text: Option<&String>)
        ensures
            referenced_text(text) == text_member(*self, name@),
    {
        match self.get(name) {
            Some(value) => value.as_text(),
            None => None,
        }
    }

    /// The integer that the member of that name is, where there is such a member.
    pub fn get_integer(&self, name: &str) -> (number: Option<i64>)
        ensures
            number == integer_member(*self, name@),
    {
        match self.get(name) {
            Some(JsonValue::Integer(number)) => Some(*number),
            _ => None,
        }
    }

    /// The array that the member of that name is, where there is such a member.
    pub fn get_array(&self, name: &str) -> (items: Option<&Vec<JsonValue>>)
        ensures
            items is Some <==> array_member(*self, name@) is Some,
            items matches Some(values) ==> array_member(*self, name@) == Some(values@),
    {
        match self.get(name) {
            Some(JsonValue::Array(items)) => Some(items),
            _ => None,
        }
    }
}

/// Looking a name up finds the first member of that name, and nothing just
/// where no member has it.
proof fn lemma_first_member(members: Seq<(String, JsonValue)>, name: Seq<char>, at: int)
    requires
        0 <= at < members.len(),
        members[at].0@ == name,
        forall|i: int| 0 <= i < at ==> (#[trigger] members[i]).0@ != name,
    ensures
        first_member(members, name) == Some(members[at].1),
    decreases at,
{
    if at > 0 {
        let rest = members.drop_first();
        assert(members[0].0@ != name);
        assert forall|i: int| 0 <= i < at - 1 implies (#[trigger] rest[i]).0@ != name by {
            assert(rest[i] == members[i + 1]);
        }
        lemma_first_member(rest, name, at - 1);
    }
}

/// No member has that name.
proof fn lemma_no_member(members: Seq<(String, JsonValue)>, name: Seq<char>)
    requires
        forall|i: int| 0 <= i < members.len() ==> (#[trigger] members[i]).0@ != name,
    ensures
        first_member(members, name) is None,
    decreases members.len(),
{
    if members.len() > 0 {
        let rest = members.drop_first();
        assert forall|i: int| 0 <= i < rest.len() implies (#[trigger] rest[i]).0@ != name by {
            assert(rest[i] == members[i + 1]);
        }
        assert(members[0].0@ != name);
        lemma_no_member(rest, name);
    }
}

/// Looking a name up in an object finds the first member of that name: its
/// value, and the text, integer or list that the value is.
pub proof fn law_members_are_found_by_name(
    value: JsonValue,
    members: Vec<(String, JsonValue)>,
    at: int,
)
    requires
        value == JsonValue::Object(members),
        0 <= at < members@.len(),
        forall|i: int| 0 <= i < at ==> (#[trigger] members@[i]).0@ != members@[at].0@,
    ensures
        member(value, members@[at].0@) == Some(members@[at].1),
        members@[at].1 matches JsonValue::Text(text) ==> text_member(value, members@[at].0@)
            == Some(text@),
        !(members@[at].1 is Text) ==> text_member(value, members@[at].0@) is None,
        members@[at].1 matches JsonValue::Integer(number) ==> integer_member(
            value,
            members@[at].0@,
        ) == Some(number),
        !(members@[at].1 is Integer) ==> integer_member(value, members@[at].0@) is None,
        members@[at].1 matches JsonValue::Array(items) ==> array_member(value, members@[at].0@)
            == Some(items@),
        !(members@[at].1 is Array) ==> array_member(value, members@[at].0@) is None,
{
    lemma_first_member(members@, members@[at].0@, at);
}

/// A name that no member has, and any name in what is no object, is not found.
pub proof fn law_missing_members_are_not_found(value: JsonValue, name: Seq<char>)
    requires
        value matches JsonValue::Object(members) ==> forall|i: int|
            0 <= i < members@.len() ==> (#[trigger] members@[i]).0@ != name,
    ensures
        member(value, name) is None,
        text_member(value, name) is None,
        integer_member(value, name) is None,
        array_member(value, name) is None,
{
    if let JsonValue::Object(members) = value {
        lemma_no_member(members@, name);
    }
}

} // verus!
