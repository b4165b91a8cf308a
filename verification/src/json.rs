//! JSON documents as the library reads them: the members of a top-level object,
//! each with its text or its unsigned number.

use crate::text;
use vstd::prelude::*;

verus! {

/// One member of a JSON object: its name, its value where that is a string, and
/// its value where that is an unsigned integer.
pub struct JsonMember {
    pub name: String,
    pub text: Option<String>,
    pub number: Option<u64>,
}

/// The view of a `JsonMember`.
pub struct JsonField {
    pub name: Seq<char>,
    pub text: Option<Seq<char>>,
    pub number: Option<u64>,
}

impl View for JsonMember {
    type V = JsonField;

    open spec fn view(&self) -> JsonField {
        JsonField {
            name: self.name@,
            text: match self.text {
                Some(t) => Some(t@),
                None => None,
            },
            number: self.number,
        }
    }
}

/// The fields that a list of members stands for.
pub open spec fn fields_of(members: Seq<JsonMember>) -> Seq<JsonField> {
    members.map_values(|m: JsonMember| m@)
}

/// The fields of an optional list of members.
pub open spec fn document_of(members: Option<Vec<JsonMember>>) -> Option<Seq<JsonField>> {
    match members {
        Some(list) => Some(fields_of(list@)),
        None => None,
    }
}

/// The first field with the given name.
pub open spec fn field(fields: Seq<JsonField>, name: Seq<char>) -> Option<JsonField>
    decreases fields.len(),
{
    if fields.len() == 0 {
        None
    } else if fields[0].name == name {
        Some(fields[0])
    } else {
        field(fields.drop_first(), name)
    }
}

/// The string that stands under a name.
pub open spec fn text_at(fields: Seq<JsonField>, name: Seq<char>) -> Option<Seq<char>> {
    match field(fields, name) {
        Some(f) => f.text,
        None => None,
    }
}

/// The unsigned number that stands under a name.
pub open spec fn number_at(fields: Seq<JsonField>, name: Seq<char>) -> Option<u64> {
    match field(fields, name) {
        Some(f) => f.number,
        None => None,
    }
}

/// Whether no two fields share a name.
pub open spec fn distinct_names(fields: Seq<JsonField>) -> bool {
    forall|i: int, j: int|
        0 <= i < j < fields.len() ==> (#[trigger] fields[i]).name != (#[trigger] fields[j]).name
}

/// What `serde_json::from_str` reads in a text: nothing where the text is not
/// JSON, else the members of the top-level object (none for any other value).
pub uninterp spec fn json_of_text(content: Seq<char>) -> Option<Seq<JsonField>>;

/// What `serde_json::from_slice` reads in bytes: nothing where they are not
/// JSON, else the members of the top-level object (none for any other value).
pub uninterp spec fn json_of_bytes(content: Seq<u8>) -> Option<Seq<JsonField>>;

/// `serde_json::from_str` into a `serde_json::Value`, whose object members are
/// taken over with `Value::as_str` and `Value::as_u64`. The contract names what
/// is read, and says that no two members of an object share a name.
#[verifier::external_body]
pub(crate) fn parse_text(content: &str) -> (r: Option<Vec<JsonMember>>)
    ensures
        document_of(r) == json_of_text(content@),
        r matches Some(members) ==> distinct_names(fields_of(members@)),
{
    match serde_json::from_str::<serde_json::Value>(content) {
        Ok(serde_json::Value::Object(map)) => Some(
            map.iter().map(
                |(name, value)|
                    JsonMember {
                        name: name.clone(),
                        text: value.as_str().map(str::to_string),
                        number: value.as_u64(),
                    },
            ).collect(),
        ),
        Ok(_) => Some(Vec::new()),
        Err(_) => None,
    }
}

/// `serde_json::from_slice` into a `serde_json::Value`, whose object members are
/// taken over with `Value::as_str` and `Value::as_u64`. The contract names what
/// is read, and says that no two members of an object share a name.
#[verifier::external_body]
pub(crate) fn parse_bytes(content: &[u8]) -> (r: Option<Vec<JsonMember>>)
    ensures
        document_of(r) == json_of_bytes(content@),
        r matches Some(members) ==> distinct_names(fields_of(members@)),
{
    match serde_json::from_slice::<serde_json::Value>(content) {
        Ok(serde_json::Value::Object(map)) => Some(
            map.iter().map(
                |(name, value)|
                    JsonMember {
                        name: name.clone(),
                        text: value.as_str().map(str::to_string),
                        number: value.as_u64(),
                    },
            ).collect(),
        ),
        Ok(_) => Some(Vec::new()),
        Err(_) => None,
    }
}

fn find_member<'a>(members: &'a Vec<JsonMember>, name: &str) -> (r: Option<&'a JsonMember>)
    ensures
        match r {
            Some(m) => field(fields_of(members@), name@) == Some(m@),
            None => field(fields_of(members@), name@) is None,
        },
{
    let ghost fields = fields_of(members@);
    let n: usize = members.len();
    let mut i: usize = 0;
    assert(fields.skip(0) =~= fields);
    while i < n
        invariant
            i <= n,
            n == members@.len(),
            fields == fields_of(members@),
            field(fields, name@) == field(fields.skip(i as int), name@),
        decreases n - i,
    {
        assert(fields.skip(i as int)[0] == members@[i as int]@);
        assert(fields.skip(i as int).drop_first() =~= fields.skip(i + 1));
        if text::same_text(members[i].name.as_str(), name) {
            return Some(&members[i]);
        }
        i = i + 1;
    }
    None
}

/// The string that stands under a name.
pub fn member_text(members: &Vec<JsonMember>, name: &str) -> (r: Option<String>)
    ensures
        match r {
            Some(t) => text_at(fields_of(members@), name@) == Some(t@),
            None => text_at(fields_of(members@), name@) is None,
        },
{
    match find_member(members, name) {
        Some(member) => match &member.text {
            Some(t) => Some(t.clone()),
            None => None,
        },
        None => None,
    }
}

/// The unsigned number that stands under a name.
pub fn member_number(members: &Vec<JsonMember>, name: &str) -> (r: Option<u64>)
    ensures
        r == number_at(fields_of(members@), name@),
{
    match find_member(members, name) {
        Some(member) => member.number,
        None => None,
    }
}

/// Where no two fields share a name, the field under a name is the one that
/// bears it, wherever it stands.
pub proof fn law_field_order_is_irrelevant(fields: Seq<JsonField>, i: int)
    requires
        distinct_names(fields),
        0 <= i < fields.len(),
    ensures
        field(fields, fields[i].name) == Some(fields[i]),
    decreases fields.len(),
{
    if i > 0 {
        let rest = fields.drop_first();
        assert(fields[0].name != fields[i].name);
        assert forall|a: int, b: int| 0 <= a < b < rest.len() implies (#[trigger] rest[a]).name != (
        #[trigger] rest[b]).name by {
            assert(rest[a] == fields[a + 1] && rest[b] == fields[b + 1]);
        }
        law_field_order_is_irrelevant(rest, i - 1);
    }
}

/// What is read under a name is the text and the number of the first field that bears
/// it, and nothing where none does.
pub proof fn law_fields_are_read_by_name(fields: Seq<JsonField>, name: Seq<char>, i: int)
    requires
        0 <= i <= fields.len(),
        forall|j: int| 0 <= j < i ==> (#[trigger] fields[j]).name != name,
        i < fields.len() ==> fields[i].name == name,
    ensures
        i < fields.len() ==> text_at(fields, name) == fields[i].text && number_at(fields, name)
            == fields[i].number,
        i == fields.len() ==> text_at(fields, name) is None && number_at(fields, name) is None,
    decreases fields.len(),
{
    if fields.len() > 0 && i > 0 {
        let rest = fields.drop_first();
        assert(fields[0].name != name);
        assert forall|j: int| 0 <= j < i - 1 implies (#[trigger] rest[j]).name != name by {
            assert(rest[j] == fields[j + 1]);
        }
        law_fields_are_read_by_name(rest, name, i - 1);
    }
}

} // verus!
