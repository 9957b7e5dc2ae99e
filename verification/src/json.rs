//! The strings in a JSON object, one level deep.

use crate::text;
use vstd::prelude::*;

verus! {

/// A member of an object within an object.
#[derive(Debug, Clone)]
pub struct Field {
    pub name: String,
    /// The value, if it is a string.
    pub text: Option<String>,
}

/// A member of a JSON object.
#[derive(Debug, Clone)]
pub struct Member {
    pub name: String,
    /// The value, if it is a string.
    pub text: Option<String>,
    /// The members of the value, if it is an object.
    pub fields: Vec<Field>,
}

/// A name and, if its value is a string, that string.
pub type FieldView = (Seq<char>, Option<Seq<char>>);

/// A name, its value if it is a string, and the fields of its value if it is an object.
pub type MemberView = (Seq<char>, Option<Seq<char>>, Seq<FieldView>);

/// What fields hold.
pub open spec fn fields_view(v: Seq<Field>) -> Seq<FieldView> {
    v.map_values(|f: Field| (f.name@, text::opt_string(f.text)))
}

/// What members hold.
pub open spec fn members_view(v: Seq<Member>) -> Seq<MemberView> {
    v.map_values(|m: Member| (m.name@, text::opt_string(m.text), fields_view(m.fields@)))
}

/// The members of an optional object.
pub open spec fn object_view(o: Option<Vec<Member>>) -> Option<Seq<MemberView>> {
    match o {
        Some(v) => Some(members_view(v@)),
        None => None,
    }
}

/// `serde_json::Error`: why a text is not JSON.
#[verifier::external_type_specification]
#[verifier::external_body]
pub struct ExJsonError(serde_json::Error);

/// What `serde_json::from_str` makes of a text: nothing if it is not JSON, no members if it is
/// not an object, and otherwise its members, as far as they are strings or hold strings.
pub uninterp spec fn json_object(raw: Seq<char>) -> Option<Option<Seq<MemberView>>>;

/// Calls `serde_json::from_str` and hands out the members of the object that it returns, in the
/// order in which `serde_json::Map` gives them. Claims that this depends on the text alone.
#[verifier::external_body]
pub(crate) fn parse_object(raw: &str) -> (r: Result<Option<Vec<Member>>, serde_json::Error>)
    ensures
        match r {
            Ok(o) => json_object(raw@) == Some(object_view(o)),
            Err(_) => json_object(raw@) is None,
        },
{
    let text = |v: &serde_json::Value| v.as_str().map(String::from);
    let field = |(n, v): (&String, &serde_json::Value)| Field { name: n.clone(), text: text(v) };
    let member = |(n, v): (&String, &serde_json::Value)| Member {
        name: n.clone(),
        text: text(v),
        fields: v.as_object().map(|o| o.iter().map(field).collect()).unwrap_or_default(),
    };
    let value: serde_json::Value = serde_json::from_str(raw)?;
    Ok(value.as_object().map(|o| o.iter().map(member).collect()))
}

/// The string that the first of `fs` named `name` holds.
pub open spec fn field_text(fs: Seq<FieldView>, name: Seq<char>) -> Option<Seq<char>>
    decreases fs.len(),
{
    if fs.len() == 0 {
        None
    } else if fs[0].0 == name {
        fs[0].1
    } else {
        field_text(fs.skip(1), name)
    }
}

/// The string that the first of `ms` named `name` holds.
pub open spec fn member_text(ms: Seq<MemberView>, name: Seq<char>) -> Option<Seq<char>>
    decreases ms.len(),
{
    if ms.len() == 0 {
        None
    } else if ms[0].0 == name {
        ms[0].1
    } else {
        member_text(ms.skip(1), name)
    }
}

fn copy_text(s: &Option<String>) -> (r: Option<String>)
    ensures
        text::opt_string(r) == text::opt_string(*s),
{
    match s {
        Some(t) => Some(t.clone()),
        None => None,
    }
}

/// Finds the string that a field holds.
pub fn get_field(fs: &Vec<Field>, name: &str) -> (r: Option<String>)
    ensures
        text::opt_string(r) == field_text(fields_view(fs@), name@),
{
    let mut i: usize = 0;
    let ghost all = fields_view(fs@);
    assert(all.skip(0) =~= all);
    while i < fs.len()
        invariant
            i <= fs.len(),
            all == fields_view(fs@),
            field_text(all, name@) == field_text(all.skip(i as int), name@),
        decreases fs.len() - i,
    {
        assert(all.skip(i as int)[0] == all[i as int]);
        assert(all.skip(i as int).skip(1) =~= all.skip(i as int + 1));
        if text::same(fs[i].name.as_str(), name) {
            return copy_text(&fs[i].text);
        }
        i += 1;
    }
    None
}

/// Finds the string that a member holds.
pub fn get_text(ms: &Vec<Member>, name: &str) -> (r: Option<String>)
    ensures
        text::opt_string(r) == member_text(members_view(ms@), name@),
{
    let mut i: usize = 0;
    let ghost all = members_view(ms@);
    assert(all.skip(0) =~= all);
    while i < ms.len()
        invariant
            i <= ms.len(),
            all == members_view(ms@),
            member_text(all, name@) == member_text(all.skip(i as int), name@),
        decreases ms.len() - i,
    {
        assert(all.skip(i as int)[0] == all[i as int]);
        assert(all.skip(i as int).skip(1) =~= all.skip(i as int + 1));
        if text::same(ms[i].name.as_str(), name) {
            return copy_text(&ms[i].text);
        }
        i += 1;
    }
    None
}

/// Of several members with one name the first counts, and a name that no member has gives nothing.
pub proof fn the_first_member_counts(
    before: Seq<MemberView>,
    m: MemberView,
    behind: Seq<MemberView>,
    name: Seq<char>,
)
    requires
        forall|i: int| 0 <= i < before.len() ==> (#[trigger] before[i]).0 != name,
        m.0 == name,
    ensures
        member_text(before + seq![m] + behind, name) == m.1,
        member_text(before, name) is None,
    decreases before.len(),
{
    let all = before + seq![m] + behind;
    if before.len() == 0 {
        assert(all[0] == m);
    } else {
        assert(all[0] == before[0]);
        let less = before.skip(1);
        assert(all.skip(1) =~= less + seq![m] + behind);
        assert forall|i: int| 0 <= i < less.len() implies (#[trigger] less[i]).0 != name by {
            assert(less[i] == before[i + 1]);
        }
        the_first_member_counts(less, m, behind, name);
    }
}

/// The same holds of the fields of a member.
pub proof fn the_first_field_counts(
    before: Seq<FieldView>,
    f: FieldView,
    behind: Seq<FieldView>,
    name: Seq<char>,
)
    requires
        forall|i: int| 0 <= i < before.len() ==> (#[trigger] before[i]).0 != name,
        f.0 == name,
    ensures
        field_text(before + seq![f] + behind, name) == f.1,
        field_text(before, name) is None,
    decreases before.len(),
{
    let all = before + seq![f] + behind;
    if before.len() == 0 {
        assert(all[0] == f);
    } else {
        assert(all[0] == before[0]);
        let less = before.skip(1);
        assert(all.skip(1) =~= less + seq![f] + behind);
        assert forall|i: int| 0 <= i < less.len() implies (#[trigger] less[i]).0 != name by {
            assert(less[i] == before[i + 1]);
        }
        the_first_field_counts(less, f, behind, name);
    }
}

} // verus!
