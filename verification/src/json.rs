//! JSON values, as far as requests and messages are read.

use vstd::prelude::*;
use vstd::string::*;

use crate::text::text;

verus! {

/// A JSON value.
///
/// The names of an object's members are distinct.
#[derive(Debug, PartialEq, Eq)]
pub enum Json {
    Null,
    Bool(bool),
    Number(JsonNumber),
    Text(String),
    List(Vec<Json>),
    Object(Vec<(String, Json)>),
}

/// A JSON number, by what can be read of it.
#[derive(Debug, PartialEq, Eq, Structural, Clone, Copy)]
pub struct JsonNumber {
    /// The number as an unsigned integer, if it is written as one that fits.
    pub unsigned: Option<u64>,
    /// The number as a signed integer, if it is written as one that fits.
    pub signed: Option<i64>,
    /// The bits of the number as a double.
    pub bits: u64,
}

/// The first member with a name.
pub open spec fn member_of(members: Seq<(String, Json)>, name: Seq<char>) -> Option<Json>
    decreases members.len(),
{
    if members.len() == 0 {
        None
    } else if members[0].0@ == name {
        Some(members[0].1)
    } else {
        member_of(members.drop_first(), name)
    }
}

/// The member of an object with a name. Other values have no members.
pub open spec fn member(value: Json, name: Seq<char>) -> Option<Json> {
    match value {
        Json::Object(members) => member_of(members@, name),
        _ => None,
    }
}

/// A value as an unsigned integer.
pub open spec fn unsigned_of(value: Json) -> Option<u64> {
    match value {
        Json::Number(n) => n.unsigned,
        _ => None,
    }
}

/// A value as the bits of a double.
pub open spec fn double_of(value: Json) -> Option<u64> {
    match value {
        Json::Number(n) => Some(n.bits),
        _ => None,
    }
}

/// A value as text.
pub open spec fn text_of(value: Json) -> Option<Seq<char>> {
    match value {
        Json::Text(s) => Some(s@),
        _ => None,
    }
}

impl Json {
    /// The member of an object with a name.
    pub fn get(&self, name: &str) -> (res: Option<&Json>)
        ensures
            match res {
                Some(v) => member(*self, name@) == Some(*v),
                None => member(*self, name@) is None,
            },
    {
        match self {
            Json::Object(members) => {
                let wanted: String = text(name);
                let ghost all = members@;
                let mut i: usize = 0;
                assert(all.skip(0) =~= all);
                while i < members.len()
                    invariant
                        i <= members@.len(),
                        *self == Json::Object(*members),
                        all == members@,
                        wanted@ == name@,
                        member_of(all, name@) == member_of(all.skip(i as int), name@),
                    decreases members@.len() - i,
                {
                    assert(all.skip(i as int)[0] == all[i as int]);
                    if members[i].0 == wanted {
                        return Some(&members[i].1);
                    }
                    assert(all.skip(i as int).drop_first() =~= all.skip(i + 1));
                    i += 1;
                }
                assert(all.skip(i as int).len() == 0);
                None
            },
            _ => None,
        }
    }

    /// The items of a list.
    pub fn as_list(&self) -> (res: Option<&Vec<Json>>)
        ensures
            match res {
                Some(items) => *self == Json::List(*items),
                None => !(self is List),
            },
    {
        match self {
            Json::List(items) => Some(items),
            _ => None,
        }
    }

    /// The members of an object.
    pub fn as_object(&self) -> (res: Option<&Vec<(String, Json)>>)
        ensures
            match res {
                Some(members) => *self == Json::Object(*members),
                None => !(self is Object),
            },
    {
        match self {
            Json::Object(members) => Some(members),
            _ => None,
        }
    }

    /// The value as an unsigned integer.
    pub fn as_unsigned(&self) -> (res: Option<u64>)
        ensures
            res == unsigned_of(*self),
    {
        match self {
            Json::Number(n) => n.unsigned,
            _ => None,
        }
    }

    /// The value as the bits of a double.
    pub fn as_double(&self) -> (res: Option<u64>)
        ensures
            res == double_of(*self),
    {
        match self {
            Json::Number(n) => Some(n.bits),
            _ => None,
        }
    }

    /// The value as text.
    pub fn as_text(&self) -> (res: Option<&String>)
        ensures
            match res {
                Some(s) => *self == Json::Text(*s),
                None => !(self is Text),
            },
    {
        match self {
            Json::Text(s) => Some(s),
            _ => None,
        }
    }
}

// ── Laws ────────────────────────────────────────────────────

/// The member of an object with a name is the first one of that name.
pub proof fn member_is_the_first_of_its_name(members: Vec<(String, Json)>, name: Seq<char>, i: int)
    requires
        0 <= i < members@.len(),
        members@[i].0@ == name,
        forall|j: int| 0 <= j < i ==> (#[trigger] members@[j]).0@ != name,
    ensures
        member(Json::Object(members), name) == Some(members@[i].1),
{
    lemma_member_at(members@, name, i);
}

/// Where a member stands.
proof fn lemma_member_at(members: Seq<(String, Json)>, name: Seq<char>, i: int)
    requires
        0 <= i < members.len(),
        members[i].0@ == name,
        forall|j: int| 0 <= j < i ==> (#[trigger] members[j]).0@ != name,
    ensures
        member_of(members, name) == Some(members[i].1),
    decreases members.len(),
{
    if i > 0 {
        let rest = members.drop_first();
        assert(members[0].0@ != name);
        assert(rest[i - 1] == members[i]);
        assert forall|j: int| 0 <= j < i - 1 implies (#[trigger] rest[j]).0@ != name by {
            assert(rest[j] == members[j + 1]);
        }
        lemma_member_at(rest, name, i - 1);
    }
}

/// An object without a member of a name has none, and other values have no
/// members at all.
pub proof fn missing_member_is_none(value: Json, name: Seq<char>)
    requires
        value matches Json::Object(members) ==> forall|j: int|
            0 <= j < members@.len() ==> (#[trigger] members@[j]).0@ != name,
    ensures
        member(value, name) is None,
{
    if let Json::Object(members) = value {
        lemma_no_member(members@, name);
    }
}

/// Where no member has a name there is none.
proof fn lemma_no_member(members: Seq<(String, Json)>, name: Seq<char>)
    requires
        forall|j: int| 0 <= j < members.len() ==> (#[trigger] members[j]).0@ != name,
    ensures
        member_of(members, name) is None,
    decreases members.len(),
{
    if members.len() > 0 {
        let rest = members.drop_first();
        assert(members[0].0@ != name);
        assert forall|j: int| 0 <= j < rest.len() implies (#[trigger] rest[j]).0@ != name by {
            assert(rest[j] == members[j + 1]);
        }
        lemma_no_member(rest, name);
    }
}

/// A number is read as it is written, a text as its characters, and nothing
/// else is either.
pub proof fn scalars_are_read_as_they_are(value: Json)
    ensures
        match value {
            Json::Number(n) => unsigned_of(value) == n.unsigned && double_of(value) == Some(n.bits)
                && text_of(value) is None,
            Json::Text(s) => text_of(value) == Some(s@) && unsigned_of(value) is None && double_of(
                value,
            ) is None,
            _ => unsigned_of(value) is None && double_of(value) is None && text_of(value) is None,
        },
{
}

} // verus!
