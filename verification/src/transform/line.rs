//! The lines of a completion cache: one JSON object each, with the format
//! version, the key and the output. Other members are ignored, an array of the
//! three is read as well, and a line that repeats one of the three, or that says
//! anything else, holds no entry.

use super::cache::FORMAT_VERSION;
use crate::json::{
    first_value, is_plain, item_texts, json_first, json_parsed, json_quoted, json_text, member_texts,
    nests_within, parse_view, same_json, starts_with_value, JsonValue, JsonView, MAX_NESTING,
};
use crate::text::lines::joined;
use crate::text::number::{decimal, signed_decimal};
use crate::text::{owned, same_text};
use vstd::prelude::*;
use vstd::string::*;

verus! {

/// The JSON of one line.
pub open spec fn line_view(key: Seq<char>, output: JsonView) -> JsonView {
    JsonView::Object(
        seq![
            ("v"@, JsonView::Number(decimal(FORMAT_VERSION as nat))),
            ("key"@, JsonView::Text(key)),
            ("output"@, output),
        ],
    )
}

/// Whether a character is whitespace in JSON.
pub open spec fn is_space(c: char) -> bool {
    c == ' ' || c == '\t' || c == '\n' || c == '\r'
}

/// A text without the whitespace before it.
pub open spec fn unspaced(s: Seq<char>) -> Seq<char>
    decreases s.len(),
{
    if s.len() > 0 && is_space(s[0]) {
        unspaced(s.skip(1))
    } else {
        s
    }
}

/// Whether a text is nothing but whitespace.
pub open spec fn is_blank(s: Seq<char>) -> bool {
    forall|i: int| 0 <= i < s.len() ==> is_space(#[trigger] s[i])
}

/// Whether a text starts with a character.
pub open spec fn starts(s: Seq<char>, c: char) -> bool {
    s.len() > 0 && s[0] == c
}

/// A member of an object: its name, the text of its value, and what follows.
pub struct FieldView {
    /// The name.
    pub name: Seq<char>,
    /// The text of the value.
    pub value: Seq<char>,
    /// The text from the comma or the closing bracket on.
    pub rest: Seq<char>,
}

/// The member that a text starts with.
pub open spec fn field_of(text: Seq<char>) -> Option<FieldView> {
    match json_first(text) {
        Some(n) => match json_parsed(text.take(n as int)) {
            Ok(JsonView::Text(name)) => {
                let colon = unspaced(text.skip(n as int));
                let at = colon.skip(1);
                match (starts(colon, ':'), json_first(at)) {
                    (true, Some(m)) => Some(
                        FieldView {
                            name,
                            value: at.take(m as int),
                            rest: unspaced(at.skip(m as int)),
                        },
                    ),
                    _ => None,
                }
            },
            _ => None,
        },
        None => None,
    }
}

/// The members of an object, given the text after its opening bracket: their
/// names and the texts of their values.
pub open spec fn fields_of(text: Seq<char>) -> Option<Seq<(Seq<char>, Seq<char>)>>
    decreases text.len(),
{
    match field_of(text) {
        Some(field) => {
            let first = seq![(field.name, field.value)];
            if starts(field.rest, ',') && field.rest.len() <= text.len() {
                prepended(first, fields_of(field.rest.skip(1)))
            } else if starts(field.rest, '}') {
                Some(first)
            } else {
                None
            }
        },
        None => None,
    }
}

/// A list with another one in front.
pub open spec fn prepended<A>(front: Seq<A>, list: Option<Seq<A>>) -> Option<Seq<A>> {
    match list {
        Some(l) => Some(front + l),
        None => None,
    }
}

/// The texts of the values of the members named `name`.
pub open spec fn uses(fields: Seq<(Seq<char>, Seq<char>)>, name: Seq<char>) -> Seq<Seq<char>>
    decreases fields.len(),
{
    if fields.len() == 0 {
        Seq::empty()
    } else {
        let before = uses(fields.drop_last(), name);
        if fields.last().0 == name {
            before.push(fields.last().1)
        } else {
            before
        }
    }
}

/// What a version, a key and a list of one output say, as they were parsed.
pub open spec fn parsed_entry(
    version: Result<JsonView, Seq<char>>,
    key: Result<JsonView, Seq<char>>,
    listed: Result<JsonView, Seq<char>>,
) -> Option<(Seq<char>, JsonView)> {
    match (version, key, listed) {
        (Ok(v), Ok(JsonView::Text(k)), Ok(JsonView::Array(items))) => if v == JsonView::Number(
            decimal(FORMAT_VERSION as nat),
        ) && items.len() == 1 {
            Some((k, items[0]))
        } else {
            None
        },
        _ => None,
    }
}

/// What the texts of a version, a key and an output say. The output is parsed as
/// an item of an array, so that it may nest as deep as in the line.
pub open spec fn parts_entry(version: Seq<char>, key: Seq<char>, output: Seq<char>) -> Option<
    (Seq<char>, JsonView),
> {
    parsed_entry(
        json_parsed(version),
        json_parsed(key),
        json_parsed(seq!['['] + output + seq![']']),
    )
}

/// What an object in this release's line format says: its key and its output.
/// Each of the three members stands in it once.
pub open spec fn fields_entry(fields: Seq<(Seq<char>, Seq<char>)>) -> Option<
    (Seq<char>, JsonView),
> {
    let (versions, keys, outputs) = (
        uses(fields, "v"@),
        uses(fields, "key"@),
        uses(fields, "output"@),
    );
    if versions.len() == 1 && keys.len() == 1 && outputs.len() == 1 {
        parts_entry(versions[0], keys[0], outputs[0])
    } else {
        None
    }
}

/// What an array of a version, a key and an output says.
pub open spec fn items_entry(items: Seq<JsonView>) -> Option<(Seq<char>, JsonView)> {
    if items.len() == 3 && items[0] == JsonView::Number(decimal(FORMAT_VERSION as nat)) {
        match items[1] {
            JsonView::Text(key) => Some((key, items[2])),
            _ => None,
        }
    } else {
        None
    }
}

/// The entry that a JSON value holds.
pub open spec fn value_entry(text: Seq<char>) -> Option<(Seq<char>, JsonView)> {
    let value = unspaced(text);
    if starts(value, '{') {
        match fields_of(value.skip(1)) {
            Some(fields) => fields_entry(fields),
            None => None,
        }
    } else {
        match json_parsed(text) {
            Ok(JsonView::Array(items)) => items_entry(items),
            _ => None,
        }
    }
}

/// The entry that a line holds, if it is one JSON value in this release's
/// format.
pub open spec fn entry_of(line: Seq<char>) -> Option<(Seq<char>, JsonView)> {
    match json_first(line) {
        Some(n) => if is_blank(line.skip(n as int)) {
            value_entry(line.take(n as int))
        } else {
            None
        },
        None => None,
    }
}

/// Whether an output can be stored and read back: its numbers stand in the text
/// that parsing gives back, its objects repeat no name, and it doesn't nest too
/// deep.
pub open spec fn storable(output: JsonView) -> bool {
    is_plain(output) && nests_within(output, (MAX_NESTING - 1) as nat)
}

/// What is known of reading one line.
pub open spec fn line_read(line: Seq<char>) -> bool {
    &&& forall|key: Seq<char>, output: JsonView|
        line == #[trigger] json_text(line_view(key, output)) && storable(output) ==> (entry_of(
            line,
        ) matches Some((k, o)) && k == key && same_json(output, o))
    &&& forall|key: Seq<char>, output: JsonView, n: int|
        is_plain(output) && 0 <= n < json_text(line_view(key, output)).len() && line
            == #[trigger] json_text(line_view(key, output)).take(n) ==> entry_of(line) is None
    &&& line.len() > 0 && line.last() == '\r' ==> entry_of(line) == entry_of(line.drop_last())
}

/// The compact text of the members of an object, from the first name to the
/// closing bracket.
pub open spec fn tail_text(members: Seq<(Seq<char>, JsonView)>) -> Seq<char>
    decreases members.len(),
{
    if members.len() == 0 {
        Seq::empty()
    } else {
        json_quoted(members[0].0) + seq![':'] + json_text(members[0].1) + if members.len() == 1 {
            seq!['}']
        } else {
            seq![','] + tail_text(members.skip(1))
        }
    }
}

/// The names of members and the compact texts of their values.
pub open spec fn written_fields(members: Seq<(Seq<char>, JsonView)>) -> Seq<
    (Seq<char>, Seq<char>),
> {
    members.map_values(|member: (Seq<char>, JsonView)| (member.0, json_text(member.1)))
}

/// Whether an object has members, whose values all read back.
pub open spec fn plain_members(members: Seq<(Seq<char>, JsonView)>) -> bool {
    members.len() > 0 && forall|i: int|
        0 <= i < members.len() ==> is_plain((#[trigger] members[i]).1)
}

/// The line of a plain output is plain JSON.
pub(crate) proof fn lemma_line_plain(key: Seq<char>, output: JsonView)
    requires
        is_plain(output),
    ensures
        is_plain(line_view(key, output)),
        plain_members(line_view(key, output)->Object_0),
{
    reveal_strlit("v");
    reveal_strlit("key");
    reveal_strlit("output");
    let members = line_view(key, output)->Object_0;
    let version = members[0].1;
    assert(version->Number_0 == signed_decimal(FORMAT_VERSION as int));
    assert(is_plain(version));
    assert(members[0].0.len() == 1);
    assert(members[1].0.len() == 3);
    assert(members[2].0.len() == 6);
    assert forall|i: int| 0 <= i < members.len() implies is_plain((#[trigger] members[i]).1) by {
        if i == 1 {
            assert(is_plain(JsonView::Text(key)));
        }
    }
    assert forall|i: int, j: int| 0 <= i < j < members.len() implies (#[trigger] members[i]).0 != (
    #[trigger] members[j]).0 by {
        assert(members[i].0.len() != members[j].0.len());
    }
}

/// Skips whitespace.
fn skip_space<'a>(text: &'a str) -> (r: &'a str)
    ensures
        r@ == unspaced(text@),
        r@.len() <= text@.len(),
{
    let mut rest = text;
    while !rest.is_empty()
        invariant
            unspaced(rest@) == unspaced(text@),
            rest@.len() <= text@.len(),
        ensures
            rest@ == unspaced(text@),
            rest@.len() <= text@.len(),
        decreases rest@.len(),
    {
        let c = rest.get_char(0);
        if !(c == ' ' || c == '\t' || c == '\n' || c == '\r') {
            break;
        }
        rest = after_first(rest);
    }
    rest
}

/// What follows the first character of a text.
fn after_first<'a>(text: &'a str) -> (r: &'a str)
    requires
        text@.len() > 0,
    ensures
        r@ == text@.skip(1),
{
    let r = text.substring_char(1, text.unicode_len());
    proof {
        assert(r@ =~= text@.skip(1));
    }
    r
}

/// Whether a text starts with a character.
fn starts_with_char(text: &str, c: char) -> (r: bool)
    ensures
        r == starts(text@, c),
{
    !text.is_empty() && text.get_char(0) == c
}

/// Whether a text is nothing but whitespace.
fn only_space(text: &str) -> (r: bool)
    ensures
        r == is_blank(text@),
{
    let rest = skip_space(text);
    proof {
        lemma_unspaced(text@);
    }
    rest.is_empty()
}

/// What is left without the whitespace before it is nothing just where there is
/// nothing but whitespace.
proof fn lemma_unspaced(s: Seq<char>)
    ensures
        is_blank(s) <==> unspaced(s).len() == 0,
    decreases s.len(),
{
    if s.len() > 0 {
        if is_space(s[0]) {
            let rest = s.skip(1);
            lemma_unspaced(rest);
            if is_blank(s) {
                assert forall|i: int| 0 <= i < rest.len() implies is_space(#[trigger] rest[i]) by {
                    assert(is_space(s[i + 1]));
                }
            }
            if is_blank(rest) {
                assert forall|i: int| 0 <= i < s.len() implies is_space(#[trigger] s[i]) by {
                    if i > 0 {
                        assert(is_space(rest[i - 1]));
                    }
                }
            }
        }
    }
}

/// What follows the first member in the compact text of some.
pub open spec fn rest_text(members: Seq<(Seq<char>, JsonView)>) -> Seq<char> {
    if members.len() == 1 {
        seq!['}']
    } else {
        seq![','] + tail_text(members.skip(1))
    }
}

/// How the compact text of some members starts.
spec fn is_tail(text: Seq<char>, members: Seq<(Seq<char>, JsonView)>) -> bool {
    let name = JsonView::Text(members[0].0);
    let value = members[0].1;
    let colon = text.skip(json_text(name).len() as int);
    let at = colon.skip(1);
    &&& starts_with_value(text, name)
    &&& is_plain(name)
    &&& nests_within(name, MAX_NESTING as nat)
    &&& starts(colon, ':')
    &&& unspaced(colon) == colon
    &&& starts_with_value(at, value)
    &&& is_plain(value)
    &&& at.skip(json_text(value).len() as int) == rest_text(members)
    &&& unspaced(rest_text(members)) == rest_text(members)
}

/// The compact text of some members starts with the name and the value of the
/// first.
proof fn lemma_is_tail(members: Seq<(Seq<char>, JsonView)>)
    requires
        plain_members(members),
    ensures
        is_tail(tail_text(members), members),
{
    let text = tail_text(members);
    let name = JsonView::Text(members[0].0);
    let quoted = json_text(name);
    let value = json_text(members[0].1);
    let rest = rest_text(members);
    assert(is_plain(members[0].1));
    assert(text =~= quoted + seq![':'] + value + rest);
    assert(text.take(quoted.len() as int) =~= quoted);
    let colon = text.skip(quoted.len() as int);
    assert(colon =~= seq![':'] + value + rest);
    let at = colon.skip(1);
    assert(at =~= value + rest);
    assert(at.take(value.len() as int) =~= value);
    assert(at.skip(value.len() as int) =~= rest);
}

/// Reads the member that a text starts with: its name, the text of its value,
/// and what follows.
fn read_field<'a>(text: &'a str) -> (r: Option<(String, &'a str, &'a str)>)
    ensures
        match r {
            Some((name, value, rest)) => field_of(text@) == Some(
                FieldView { name: name@, value: value@, rest: rest@ },
            ) && rest@.len() <= text@.len(),
            None => field_of(text@) is None,
        },
        forall|members: Seq<(Seq<char>, JsonView)>| #[trigger]
            tail_text(members) == text@ && plain_members(members) ==> (r matches Some(
                (name, value, rest),
            ) && name@ == members[0].0 && value@ == json_text(members[0].1) && rest@ == rest_text(
                members,
            )),
{
    proof {
        assert forall|members: Seq<(Seq<char>, JsonView)>| #[trigger]
            tail_text(members) == text@ && plain_members(members) implies is_tail(
            text@,
            members,
        ) by {
            lemma_is_tail(members);
        }
    }
    match first_value(text) {
        Some((head, after)) => {
            proof {
                assert(text@.take(head@.len() as int) =~= head@);
                assert(text@.skip(head@.len() as int) =~= after@);
            }
            let parsed = JsonValue::parse(head);
            let colon = skip_space(after);
            match parsed {
                Ok(JsonValue::Text(name)) => {
                    proof {
                        assert(json_parsed(head@) == Ok::<JsonView, Seq<char>>(
                            JsonView::Text(name@),
                        ));
                    }
                    if !starts_with_char(colon, ':') {
                        return None;
                    }
                    let at = after_first(colon);
                    match first_value(at) {
                        Some((value, more)) => {
                            proof {
                                assert(at@.take(value@.len() as int) =~= value@);
                                assert(at@.skip(value@.len() as int) =~= more@);
                            }
                            Some((name, value, skip_space(more)))
                        },
                        None => None,
                    }
                },
                _ => None,
            }
        },
        None => None,
    }
}

/// The models of members as they were read.
pub open spec fn field_views(fields: Seq<(String, String)>) -> Seq<(Seq<char>, Seq<char>)> {
    fields.map_values(|field: (String, String)| (field.0@, field.1@))
}

/// Reads the members of an object, given the text after its opening bracket.
fn read_fields(text: &str) -> (r: Option<Vec<(String, String)>>)
    ensures
        match r {
            Some(fields) => fields_of(text@) == Some(field_views(fields@)),
            None => fields_of(text@) is None,
        },
        forall|members: Seq<(Seq<char>, JsonView)>| #[trigger]
            tail_text(members) == text@ && plain_members(members) ==> fields_of(text@) == Some(
                written_fields(members),
            ),
{
    let mut fields: Vec<(String, String)> = Vec::new();
    let mut rest = text;
    proof {
        assert(prepended(field_views(fields@), fields_of(text@)) =~= fields_of(text@)) by {
            if let Some(list) = fields_of(text@) {
                assert(field_views(fields@) + list =~= list);
            }
        }
        assert forall|members: Seq<(Seq<char>, JsonView)>| #[trigger]
            tail_text(members) == text@ && plain_members(members) implies is_at(
            members,
            field_views(fields@),
            rest@,
        ) by {
            assert(members.skip(0) =~= members);
            assert(field_views(fields@) =~= written_fields(members.take(0)));
        }
    }
    loop
        invariant
            fields_of(text@) == prepended(field_views(fields@), fields_of(rest@)),
            forall|members: Seq<(Seq<char>, JsonView)>| #[trigger]
                tail_text(members) == text@ && plain_members(members) ==> is_at(
                    members,
                    field_views(fields@),
                    rest@,
                ),
        decreases rest@.len(),
    {
        let ghost before = field_views(fields@);
        let ghost here = rest@;
        let read = read_field(rest);
        proof {
            assert forall|members: Seq<(Seq<char>, JsonView)>| #[trigger]
                tail_text(members) == text@ && plain_members(members) implies (read matches Some(
                (name, value, after),
            ) && is_next(members, before, name@, value@, after@)) by {
                lemma_next(members, before, here);
            }
        }
        match read {
            Some((name, value, after)) => {
                fields.push((name, owned(value)));
                proof {
                    assert(field_views(fields@) =~= before.push((name@, value@)));
                    lemma_prepended_twice(before, (name@, value@), fields_of(after@.skip(1)));
                }
                if starts_with_char(after, ',') {
                    rest = after_first(after);
                    proof {
                        assert forall|members: Seq<(Seq<char>, JsonView)>| #[trigger]
                            tail_text(members) == text@ && plain_members(members) implies is_at(
                            members,
                            field_views(fields@),
                            rest@,
                        ) by {
                            assert(is_next(members, before, name@, value@, after@));
                            if members.len() > before.len() + 1 {
                                assert(rest@ =~= tail_text(
                                    members.skip((before.len() + 1) as int),
                                ));
                            }
                        }
                    }
                } else {
                    proof {
                        assert forall|members: Seq<(Seq<char>, JsonView)>| #[trigger]
                            tail_text(members) == text@ && plain_members(members) implies starts(
                            after@,
                            '}',
                        ) && field_views(fields@) == written_fields(members) by {
                            assert(is_next(members, before, name@, value@, after@));
                            assert(members.take(members.len() as int) =~= members);
                        }
                    }
                    if starts_with_char(after, '}') {
                        proof {
                            assert(before + seq![(name@, value@)] =~= field_views(fields@));
                        }
                        return Some(fields);
                    }
                    return None;
                }
            },
            None => {
                return None;
            },
        }
    }
}

/// Whether the first members were read, and `rest` is the text of the others.
spec fn is_at(
    members: Seq<(Seq<char>, JsonView)>,
    fields: Seq<(Seq<char>, Seq<char>)>,
    rest: Seq<char>,
) -> bool {
    let n = fields.len() as int;
    &&& n < members.len()
    &&& rest == tail_text(members.skip(n))
    &&& fields == written_fields(members.take(n))
}

/// Whether the next member is read, before what follows it.
spec fn is_next(
    members: Seq<(Seq<char>, JsonView)>,
    fields: Seq<(Seq<char>, Seq<char>)>,
    name: Seq<char>,
    value: Seq<char>,
    after: Seq<char>,
) -> bool {
    let n = fields.len() as int;
    &&& n < members.len()
    &&& fields.push((name, value)) == written_fields(members.take(n + 1))
    &&& after == if members.len() == n + 1 {
        seq!['}']
    } else {
        seq![','] + tail_text(members.skip(n + 1))
    }
}

/// The member that is next is the first of the others.
proof fn lemma_next(
    members: Seq<(Seq<char>, JsonView)>,
    fields: Seq<(Seq<char>, Seq<char>)>,
    rest: Seq<char>,
)
    requires
        plain_members(members),
        is_at(members, fields, rest),
    ensures
        ({
            let others = members.skip(fields.len() as int);
            &&& plain_members(others)
            &&& rest == tail_text(others)
            &&& is_next(
                members,
                fields,
                others[0].0,
                json_text(others[0].1),
                rest_text(others),
            )
        }),
{
    let n = fields.len() as int;
    let others = members.skip(n);
    assert forall|i: int| 0 <= i < others.len() implies is_plain((#[trigger] others[i]).1) by {
        assert(is_plain(members[n + i].1));
    }
    assert(fields.push((others[0].0, json_text(others[0].1))) =~= written_fields(
        members.take(n + 1),
    ));
    assert(others.skip(1) =~= members.skip(n + 1));
}

/// What is put in front one by one is put in front together.
proof fn lemma_prepended_twice<A>(front: Seq<A>, item: A, list: Option<Seq<A>>)
    ensures
        prepended(front, prepended(seq![item], list)) == prepended(front.push(item), list),
{
    if let Some(l) = list {
        assert(front + (seq![item] + l) =~= front.push(item) + l);
    }
}

/// The text of the value of the only member named `name`.
fn only<'a>(fields: &'a Vec<(String, String)>, name: &str) -> (r: Option<&'a str>)
    ensures
        match r {
            Some(value) => uses(field_views(fields@), name@) == seq![value@],
            None => uses(field_views(fields@), name@).len() != 1,
        },
{
    let ghost all = field_views(fields@);
    let mut count: usize = 0;
    let mut at: usize = 0;
    let mut i: usize = 0;
    proof {
        assert(all.take(0) =~= Seq::empty());
    }
    while i < fields.len()
        invariant
            i <= fields@.len(),
            all == field_views(fields@),
            count <= i,
            count == uses(all.take(i as int), name@).len(),
            count > 0 ==> at < fields@.len() && uses(all.take(i as int), name@).last()
                == fields@[at as int].1@,
        decreases fields@.len() - i,
    {
        proof {
            assert(all.take(i + 1).drop_last() =~= all.take(i as int));
            assert(all.take(i + 1).last() == (fields@[i as int].0@, fields@[i as int].1@));
        }
        if same_text(fields[i].0.as_str(), name) {
            count += 1;
            at = i;
        }
        i += 1;
    }
    proof {
        assert(all.take(i as int) =~= all);
    }
    if count == 1 {
        let value = fields[at].1.as_str();
        proof {
            assert(uses(all, name@) =~= seq![value@]);
        }
        Some(value)
    } else {
        None
    }
}

/// Whether a value is the version of this release's line format.
fn is_current(version: &JsonValue) -> (r: bool)
    ensures
        r == (version@ == JsonView::Number(decimal(FORMAT_VERSION as nat))),
{
    match version {
        JsonValue::Number(text) => {
            let current = crate::text::number::to_decimal(FORMAT_VERSION as u128);
            same_text(text.as_str(), current.as_str())
        },
        _ => false,
    }
}

/// The entry of a version, a key and a list of one output, given what parsing
/// them gave.
pub fn entry_of_parts(
    version: Result<JsonValue, String>,
    key: Result<JsonValue, String>,
    listed: Result<JsonValue, String>,
) -> (r: Option<(String, JsonValue)>)
    ensures
        match r {
            Some((k, o)) => parsed_entry(
                parse_view(version),
                parse_view(key),
                parse_view(listed),
            ) == Some((k@, o@)),
            None => parsed_entry(parse_view(version), parse_view(key), parse_view(listed)) is None,
        },
{
    match (version, key, listed) {
        (Ok(v), Ok(JsonValue::Text(k)), Ok(JsonValue::Array(items))) => {
            let ghost list = JsonValue::Array(items)@;
            proof {
                assert(JsonValue::Text(k)@ == JsonView::Text(k@));
                assert(list->Array_0.len() == items@.len());
                assert(forall|i: int|
                    0 <= i < items@.len() ==> list->Array_0[i] == (#[trigger] items@[i])@);
            }
            if is_current(&v) && items.len() == 1 {
                Some((k, items[0].copy()))
            } else {
                None
            }
        },
        _ => None,
    }
}

/// The entry of a line that is an array.
pub fn entry_of_items(items: &Vec<JsonValue>) -> (r: Option<(String, JsonValue)>)
    ensures
        match r {
            Some((key, output)) => items_entry(views_of(items@)) == Some((key@, output@)),
            None => items_entry(views_of(items@)) is None,
        },
{
    if items.len() != 3 || !is_current(&items[0]) {
        return None;
    }
    match &items[1] {
        JsonValue::Text(key) => Some((key.clone(), items[2].copy())),
        _ => None,
    }
}

/// The models of a list of values.
pub open spec fn views_of(items: Seq<JsonValue>) -> Seq<JsonView> {
    items.map_values(|item: JsonValue| item@)
}

/// Whether these are the compact texts of this release's version, a key and an
/// output.
spec fn are_parts(
    version: Seq<char>,
    key: Seq<char>,
    output: Seq<char>,
    k: Seq<char>,
    o: JsonView,
) -> bool {
    &&& version == json_text(JsonView::Number(decimal(FORMAT_VERSION as nat)))
    &&& key == json_text(JsonView::Text(k))
    &&& output == json_text(o)
}

/// Reads the texts of a version, a key and an output.
fn read_parts(version: &str, key: &str, output: &str) -> (r: Option<(String, JsonValue)>)
    ensures
        match r {
            Some((k, o)) => parts_entry(version@, key@, output@) == Some((k@, o@)),
            None => parts_entry(version@, key@, output@) is None,
        },
        forall|k: Seq<char>, o: JsonView| #[trigger]
            are_parts(version@, key@, output@, k, o) && storable(o) ==> (r matches Some((rk, ro))
                && rk@ == k && same_json(o, ro@)),
{
    let mut listed = owned("[");
    listed.append(output);
    listed.append("]");
    proof {
        reveal_strlit("[");
        reveal_strlit("]");
        assert(listed@ =~= seq!['['] + output@ + seq![']']);
        assert forall|k: Seq<char>, o: JsonView| #[trigger]
            are_parts(version@, key@, output@, k, o) && storable(o) implies {
            &&& is_plain(JsonView::Number(decimal(FORMAT_VERSION as nat)))
            &&& is_plain(JsonView::Text(k))
            &&& listed@ == json_text(JsonView::Array(seq![o]))
            &&& is_plain(JsonView::Array(seq![o]))
            &&& nests_within(JsonView::Array(seq![o]), MAX_NESTING as nat)
        } by {
            lemma_listed(o);
            assert(decimal(FORMAT_VERSION as nat) == signed_decimal(FORMAT_VERSION as int));
        }
    }
    entry_of_parts(
        JsonValue::parse(version),
        JsonValue::parse(key),
        JsonValue::parse(listed.as_str()),
    )
}

/// An array of one output.
proof fn lemma_listed(output: JsonView)
    ensures
        json_text(JsonView::Array(seq![output])) == seq!['['] + json_text(output) + seq![']'],
        storable(output) ==> is_plain(JsonView::Array(seq![output])) && nests_within(
            JsonView::Array(seq![output]),
            MAX_NESTING as nat,
        ),
{
    let items = seq![output];
    reveal_with_fuel(item_texts, 2);
    assert(items.drop_last() =~= Seq::empty());
    assert(item_texts(items) =~= seq![json_text(output)]);
}

/// The compact text of a line.
proof fn lemma_line_text(key: Seq<char>, output: JsonView)
    ensures
        json_text(line_view(key, output)) == seq!['{'] + tail_text(
            line_view(key, output)->Object_0,
        ),
{
    reveal_strlit(",");
    reveal_with_fuel(member_texts, 4);
    reveal_with_fuel(joined, 3);
    reveal_with_fuel(tail_text, 3);
    let members = line_view(key, output)->Object_0;
    let text = |i: int| json_quoted(members[i].0) + seq![':'] + json_text(members[i].1);
    let two = members.drop_last();
    let one = two.drop_last();
    assert(one.drop_last() =~= Seq::empty());
    assert(two =~= seq![members[0], members[1]]);
    assert(one =~= seq![members[0]]);
    let texts = member_texts(members);
    assert(texts =~= seq![text(0), text(1), text(2)]);
    assert(texts.drop_last() =~= seq![text(0), text(1)]);
    assert(texts.drop_last().drop_last() =~= seq![text(0)]);
    assert(joined(texts, ","@) =~= text(0) + seq![','] + text(1) + seq![','] + text(2));
    assert(members.skip(1).skip(1) =~= seq![members[2]]);
    assert(members.skip(1) =~= seq![members[1], members[2]]);
    assert(tail_text(members) =~= text(0) + seq![','] + text(1) + seq![','] + text(2) + seq!['}']);
    assert(json_text(line_view(key, output)) =~= seq!['{'] + tail_text(members));
}

/// Each of the three members of a line stands in it once.
proof fn lemma_line_uses(key: Seq<char>, output: JsonView)
    ensures
        ({
            let members = line_view(key, output)->Object_0;
            let fields = written_fields(members);
            &&& uses(fields, "v"@) == seq![json_text(members[0].1)]
            &&& uses(fields, "key"@) == seq![json_text(members[1].1)]
            &&& uses(fields, "output"@) == seq![json_text(members[2].1)]
        }),
{
    reveal_strlit("v");
    reveal_strlit("key");
    reveal_strlit("output");
    reveal_with_fuel(uses, 4);
    let members = line_view(key, output)->Object_0;
    let fields = written_fields(members);
    assert(fields[0].0.len() == 1);
    assert(fields[1].0.len() == 3);
    assert(fields[2].0.len() == 6);
    let two = fields.drop_last();
    let one = two.drop_last();
    assert(two.last() == fields[1]);
    assert(one.last() == fields[0]);
    assert(one.drop_last() =~= Seq::empty());
    assert(uses(fields, "v"@) =~= seq![fields[0].1]);
    assert(uses(fields, "key"@) =~= seq![fields[1].1]);
    assert(uses(fields, "output"@) =~= seq![fields[2].1]);
}

/// Reads the entry that a JSON value holds.
fn read_value(text: &str) -> (r: Option<(String, JsonValue)>)
    ensures
        match r {
            Some((key, output)) => value_entry(text@) == Some((key@, output@)),
            None => value_entry(text@) is None,
        },
        forall|key: Seq<char>, output: JsonView|
            text@ == #[trigger] json_text(line_view(key, output)) && storable(output) ==> (
            value_entry(text@) matches Some((k, o)) && k == key && same_json(output, o)),
{
    proof {
        assert forall|key: Seq<char>, output: JsonView|
            text@ == #[trigger] json_text(line_view(key, output)) && storable(output) implies {
            let members = line_view(key, output)->Object_0;
            &&& plain_members(members)
            &&& unspaced(text@) == text@
            &&& starts(text@, '{')
            &&& text@.skip(1) == tail_text(members)
        } by {
            lemma_line_plain(key, output);
            lemma_line_text(key, output);
            assert(text@.skip(1) =~= tail_text(line_view(key, output)->Object_0));
        }
    }
    let value = skip_space(text);
    if starts_with_char(value, '{') {
        let inner = after_first(value);
        let read = read_fields(inner);
        proof {
            assert forall|key: Seq<char>, output: JsonView|
                text@ == #[trigger] json_text(line_view(key, output)) && storable(
                    output,
                ) implies fields_of(inner@) == Some(
                written_fields(line_view(key, output)->Object_0),
            ) && are_parts(
                uses(fields_of(inner@)->0, "v"@)[0],
                uses(fields_of(inner@)->0, "key"@)[0],
                uses(fields_of(inner@)->0, "output"@)[0],
                key,
                output,
            ) && uses(fields_of(inner@)->0, "v"@).len() == 1 && uses(
                fields_of(inner@)->0,
                "key"@,
            ).len() == 1 && uses(fields_of(inner@)->0, "output"@).len() == 1 by {
                let members = line_view(key, output)->Object_0;
                assert(tail_text(members) == inner@);
                lemma_line_uses(key, output);
            }
        }
        match read {
            Some(fields) => match (
                only(&fields, "v"),
                only(&fields, "key"),
                only(&fields, "output"),
            ) {
                (Some(version), Some(key), Some(output)) => read_parts(version, key, output),
                _ => None,
            },
            None => None,
        }
    } else {
        match JsonValue::parse(text) {
            Ok(JsonValue::Array(items)) => {
                proof {
                    assert(JsonValue::Array(items)@->Array_0 =~= views_of(items@));
                }
                entry_of_items(&items)
            },
            _ => None,
        }
    }
}

/// Reads one line.
pub(crate) fn read_line(line: &str) -> (r: Option<(String, JsonValue)>)
    ensures
        match r {
            Some((key, output)) => entry_of(line@) == Some((key@, output@)),
            None => entry_of(line@) is None,
        },
        line_read(line@),
{
    proof {
        assert forall|key: Seq<char>, output: JsonView|
            line@ == #[trigger] json_text(line_view(key, output)) && storable(
                output,
            ) implies is_plain(line_view(key, output)) && starts_with_value(
            line@,
            line_view(key, output),
        ) by {
            lemma_line_plain(key, output);
            assert(line@.take(line@.len() as int) =~= line@);
        }
        assert forall|key: Seq<char>, output: JsonView, n: int|
            is_plain(output) && 0 <= n < json_text(line_view(key, output)).len() && line@
                == #[trigger] json_text(line_view(key, output)).take(n) implies is_plain(
            line_view(key, output),
        ) by {
            lemma_line_plain(key, output);
        }
    }
    match first_value(line) {
        Some((value, rest)) => {
            proof {
                assert(line@.take(value@.len() as int) =~= value@);
                assert(line@.skip(value@.len() as int) =~= rest@);
                if line@.len() > 0 && line@.last() == '\r' {
                    let n = value@.len() as int;
                    let shorter = line@.drop_last();
                    assert(shorter.take(n) =~= value@);
                    assert(shorter.skip(n) =~= rest@.drop_last());
                    assert(rest@.last() == '\r');
                    lemma_blank_ended(rest@);
                }
                assert forall|key: Seq<char>, output: JsonView|
                    line@ == #[trigger] json_text(line_view(key, output)) && storable(
                        output,
                    ) implies value@ == line@ && is_blank(rest@) by {
                    assert(value@ =~= line@);
                }
            }
            let read = read_value(value);
            if only_space(rest) {
                read
            } else {
                None
            }
        },
        None => None,
    }
}

/// A carriage return at the end is whitespace.
proof fn lemma_blank_ended(s: Seq<char>)
    requires
        s.len() > 0,
        s.last() == '\r',
    ensures
        is_blank(s) <==> is_blank(s.drop_last()),
{
    let shorter = s.drop_last();
    if is_blank(s) {
        assert forall|i: int| 0 <= i < shorter.len() implies is_space(#[trigger] shorter[i]) by {
            assert(is_space(s[i]));
        }
    }
    if is_blank(shorter) {
        assert forall|i: int| 0 <= i < s.len() implies is_space(#[trigger] s[i]) by {
            if i < shorter.len() {
                assert(is_space(shorter[i]));
            }
        }
    }
}

} // verus!
