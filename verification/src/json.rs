//! What is read of JSON documents: the members of the objects in the top-level object.

use vstd::prelude::*;

use crate::text;

verus! {

/// One member of an inner object: its name, and its value where that is a string or an
/// integer that fits an `i64`.
#[derive(Clone, Debug)]
pub struct JsonField {
    pub name: String,
    pub text: Option<String>,
    pub integer: Option<i64>,
}

/// One member of the top-level object: its name, and the members of its value where
/// that is an object.
#[derive(Clone, Debug)]
pub struct JsonMember {
    pub name: String,
    pub fields: Option<Vec<JsonField>>,
}

/// The model of a [`JsonField`].
pub struct Field {
    pub name: Seq<char>,
    pub text: Option<Seq<char>>,
    pub integer: Option<i64>,
}

/// The model of a [`JsonMember`].
pub struct Member {
    pub name: Seq<char>,
    pub fields: Option<Seq<Field>>,
}

impl View for JsonField {
    type V = Field;

    open spec fn view(&self) -> Field {
        Field {
            name: self.name@,
            text: match self.text {
                Some(text) => Some(text@),
                None => None,
            },
            integer: self.integer,
        }
    }
}

impl View for JsonMember {
    type V = Member;

    open spec fn view(&self) -> Member {
        Member {
            name: self.name@,
            fields: match self.fields {
                Some(fields) => Some(fields@.map_values(|field: JsonField| field@)),
                None => None,
            },
        }
    }
}

/// The models of a list of members.
pub open spec fn members_view(members: Seq<JsonMember>) -> Seq<Member> {
    members.map_values(|member: JsonMember| member@)
}

/// The members of the JSON object that `content` writes, as `serde_json` reads them;
/// nothing if it is no JSON or no object.
pub uninterp spec fn json_members(content: Seq<char>) -> Option<Seq<Member>>;

/// `serde_json::from_str` into a `serde_json::Value`, whose two upper levels are handed
/// out: of a value that is an object its members, and of those their name, `as_str` and
/// `as_i64`. What comes out depends on `content` alone.
#[verifier::external_body]
pub(crate) fn read_members(content: &str) -> (members: Option<Vec<JsonMember>>)
    ensures
        members is Some == json_members(content@) is Some,
        members matches Some(list) ==> json_members(content@) == Some(members_view(list@)),
{
    let json: serde_json::Value = serde_json::from_str(content).ok()?;
    let field = |(name, v): (&String, &serde_json::Value)| JsonField {
        name: name.clone(),
        text: v.as_str().map(str::to_string),
        integer: v.as_i64(),
    };
    let member = |(name, v): (&String, &serde_json::Value)| JsonMember {
        name: name.clone(),
        fields: v.as_object().map(|inner| inner.iter().map(field).collect()),
    };
    json.as_object().map(|outer| outer.iter().map(member).collect())
}

/// The first member with the given name.
pub open spec fn member_named(members: Seq<Member>, name: Seq<char>) -> Option<Member>
    decreases members.len(),
{
    if members.len() == 0 {
        None
    } else if members[0].name == name {
        Some(members[0])
    } else {
        member_named(members.drop_first(), name)
    }
}

/// The first field with the given name.
pub open spec fn field_named(fields: Seq<Field>, name: Seq<char>) -> Option<Field>
    decreases fields.len(),
{
    if fields.len() == 0 {
        None
    } else if fields[0].name == name {
        Some(fields[0])
    } else {
        field_named(fields.drop_first(), name)
    }
}

/// Finds a member by its name.
pub fn find_member<'a>(members: &'a Vec<JsonMember>, name: &str) -> (found: Option<&'a JsonMember>)
    ensures
        found is Some == member_named(members_view(members@), name@) is Some,
        found matches Some(m) ==> member_named(members_view(members@), name@) == Some(m@),
{
    let ghost model = members_view(members@);
    let mut i: usize = 0;
    assert(model.skip(0) == model);
    while i < members.len()
        invariant
            i <= members@.len(),
            model == members_view(members@),
            member_named(model, name@) == member_named(model.skip(i as int), name@),
        decreases members@.len() - i,
    {
        assert(model.skip(i as int)[0] == members@[i as int]@);
        assert(model.skip(i as int).drop_first() == model.skip(i + 1));
        if text::same_text(members[i].name.as_str(), name) {
            return Some(&members[i]);
        }
        i += 1;
    }
    None
}

/// Finds a field by its name.
pub fn find_field<'a>(fields: &'a Vec<JsonField>, name: &str) -> (found: Option<&'a JsonField>)
    ensures
        found is Some == field_named(
            fields@.map_values(|field: JsonField| field@),
            name@,
        ) is Some,
        found matches Some(f) ==> field_named(
            fields@.map_values(|field: JsonField| field@),
            name@,
        ) == Some(f@),
{
    let ghost model = fields@.map_values(|field: JsonField| field@);
    let mut i: usize = 0;
    assert(model.skip(0) == model);
    while i < fields.len()
        invariant
            i <= fields@.len(),
            model == fields@.map_values(|field: JsonField| field@),
            field_named(model, name@) == field_named(model.skip(i as int), name@),
        decreases fields@.len() - i,
    {
        assert(model.skip(i as int)[0] == fields@[i as int]@);
        assert(model.skip(i as int).drop_first() == model.skip(i + 1));
        if text::same_text(fields[i].name.as_str(), name) {
            return Some(&fields[i]);
        }
        i += 1;
    }
    None
}

/// The member that is found by a name is the first one that has it; none is found exactly if
/// none has it.
pub proof fn law_member_named_is_the_first(members: Seq<Member>, name: Seq<char>, i: int)
    requires
        0 <= i <= members.len(),
        forall|j: int| 0 <= j < i ==> (#[trigger] members[j]).name != name,
        i < members.len() ==> members[i].name == name,
    ensures
        member_named(members, name) == (if i < members.len() {
            Some(members[i])
        } else {
            None
        }),
    decreases members.len(),
{
    if members.len() > 0 && i > 0 {
        let rest = members.drop_first();
        assert forall|j: int| 0 <= j < i - 1 implies (#[trigger] rest[j]).name != name by {
            assert(rest[j] == members[j + 1]);
        }
        assert(members[0].name != name);
        law_member_named_is_the_first(rest, name, i - 1);
    }
}

/// The field that is found by a name is the first one that has it; none is found exactly if
/// none has it.
pub proof fn law_field_named_is_the_first(fields: Seq<Field>, name: Seq<char>, i: int)
    requires
        0 <= i <= fields.len(),
        forall|j: int| 0 <= j < i ==> (#[trigger] fields[j]).name != name,
        i < fields.len() ==> fields[i].name == name,
    ensures
        field_named(fields, name) == (if i < fields.len() {
            Some(fields[i])
        } else {
            None
        }),
    decreases fields.len(),
{
    if fields.len() > 0 && i > 0 {
        let rest = fields.drop_first();
        assert forall|j: int| 0 <= j < i - 1 implies (#[trigger] rest[j]).name != name by {
            assert(rest[j] == fields[j + 1]);
        }
        assert(fields[0].name != name);
        law_field_named_is_the_first(rest, name, i - 1);
    }
}

} // verus!
