//! JSON values.
//!
//! A [`JsonValue`] holds the members of an object in order, and a number by
//! its text. Its model is a [`JsonView`]. Strings are quoted, and text is
//! parsed, by `serde_json`.

use crate::text::lines::{join, joined, lemma_views_push, views};
use crate::text::number::{decimal, hex_digit, signed_decimal, to_decimal};
use crate::text::order::{
    lemma_order_is_transitive, lemma_texts_ordered, precedes, precedes_text,
};
use crate::text::{owned, same_text};
use vstd::prelude::*;
use vstd::string::*;

verus! {

/// A JSON value.
#[derive(Debug)]
pub enum JsonValue {
    /// `null`.
    Null,
    /// `true` or `false`.
    Bool(bool),
    /// A number, by its JSON text.
    Number(String),
    /// A string.
    Text(String),
    /// An array.
    Array(Vec<JsonValue>),
    /// An object, as its members in order.
    Object(Vec<(String, JsonValue)>),
}

/// The model of a [`JsonValue`].
pub enum JsonView {
    /// `null`.
    Null,
    /// `true` or `false`.
    Bool(bool),
    /// A number, by its JSON text.
    Number(Seq<char>),
    /// A string.
    Text(Seq<char>),
    /// An array.
    Array(Seq<JsonView>),
    /// An object, as its members in order.
    Object(Seq<(Seq<char>, JsonView)>),
}

/// What stands for a character in a quoted string: quotes, backslashes and the
/// control characters below U+0020 are escaped.
pub open spec fn escaped_char(c: char) -> Seq<char> {
    if c == '"' || c == '\\' {
        seq!['\\', c]
    } else if c == '\u{8}' {
        seq!['\\', 'b']
    } else if c == '\t' {
        seq!['\\', 't']
    } else if c == '\n' {
        seq!['\\', 'n']
    } else if c == '\u{c}' {
        seq!['\\', 'f']
    } else if c == '\r' {
        seq!['\\', 'r']
    } else if (c as u32) < 0x20 {
        seq!['\\', 'u', '0', '0', hex_digit(c as int / 16), hex_digit(c as int % 16)]
    } else {
        seq![c]
    }
}

/// What stands for the characters of a string when it is quoted.
pub open spec fn escaped_chars(s: Seq<char>) -> Seq<char>
    decreases s.len(),
{
    if s.len() == 0 {
        Seq::empty()
    } else {
        escaped_chars(s.drop_last()) + escaped_char(s.last())
    }
}

/// A string quoted as JSON.
pub open spec fn json_quoted(s: Seq<char>) -> Seq<char> {
    seq!['"'] + escaped_chars(s) + seq!['"']
}

/// What `serde_json` gives when it parses a text: the value, or the message
/// of the error.
pub uninterp spec fn json_parsed(text: Seq<char>) -> Result<JsonView, Seq<char>>;

/// The compact JSON text of a value.
pub open spec fn json_text(v: JsonView) -> Seq<char>
    decreases v,
{
    match v {
        JsonView::Null => "null"@,
        JsonView::Bool(b) => if b {
            "true"@
        } else {
            "false"@
        },
        JsonView::Number(n) => n,
        JsonView::Text(s) => json_quoted(s),
        JsonView::Array(items) => seq!['['] + joined(item_texts(items), ","@) + seq![']'],
        JsonView::Object(members) => seq!['{'] + joined(member_texts(members), ","@) + seq!['}'],
    }
}

/// The texts of the items of an array.
pub open spec fn item_texts(items: Seq<JsonView>) -> Seq<Seq<char>>
    decreases items,
{
    if items.len() == 0 {
        Seq::empty()
    } else {
        item_texts(items.drop_last()).push(json_text(items.last()))
    }
}

/// The texts of the members of an object.
pub open spec fn member_texts(members: Seq<(Seq<char>, JsonView)>) -> Seq<Seq<char>>
    decreases members,
{
    if members.len() == 0 {
        Seq::empty()
    } else {
        member_texts(members.drop_last()).push(
            json_quoted(members.last().0) + seq![':'] + json_text(members.last().1),
        )
    }
}

/// How many characters a JSON value at the start of a text takes, together with
/// the whitespace before it, as `serde_json` delimits values; `None` when the
/// text doesn't start with one.
pub uninterp spec fn json_first(text: Seq<char>) -> Option<nat>;

/// Whether a text starts with the compact text of `v`, which ends there: with
/// the text, or before a comma, a colon or a closing bracket.
pub open spec fn starts_with_value(text: Seq<char>, v: JsonView) -> bool {
    let n = json_text(v).len() as int;
    &&& n <= text.len()
    &&& text.take(n) == json_text(v)
    &&& n == text.len() || text[n] == ',' || text[n] == ':' || text[n] == '}' || text[n] == ']'
}

/// Whether a text holds no control character below U+0020.
pub open spec fn is_printable(s: Seq<char>) -> bool {
    forall|i: int| 0 <= i < s.len() ==> (#[trigger] s[i]) as u32 >= 0x20
}

/// How deep arrays and objects are nested in `v`.
pub open spec fn nests_within(v: JsonView, depth: nat) -> bool
    decreases v,
{
    match v {
        JsonView::Array(items) => depth > 0 && forall|i: int|
            0 <= i < items.len() ==> nests_within(#[trigger] items[i], (depth - 1) as nat),
        JsonView::Object(members) => depth > 0 && forall|i: int|
            0 <= i < members.len() ==> nests_within((#[trigger] members[i]).1, (depth - 1) as nat),
        _ => true,
    }
}

/// Whether a number stands in the text that parsing it gives back: an integer
/// of 64 bits in its shortest text does, and any other that the parser gives
/// back as it stands.
pub open spec fn is_plain_number(n: Seq<char>) -> bool {
    ||| exists|k: int| i64::MIN <= k <= u64::MAX && n == #[trigger] signed_decimal(k)
    ||| is_printable(n) && json_parsed(n) == Ok::<JsonView, Seq<char>>(JsonView::Number(n))
}

/// Whether every number in `v` stands in the text that parsing it gives back
/// and no object in `v` has two members of the same name.
pub open spec fn is_plain(v: JsonView) -> bool
    decreases v,
{
    match v {
        JsonView::Number(n) => is_plain_number(n),
        JsonView::Array(items) => forall|i: int|
            0 <= i < items.len() ==> is_plain(#[trigger] items[i]),
        JsonView::Object(members) => {
            &&& forall|i: int| 0 <= i < members.len() ==> is_plain((#[trigger] members[i]).1)
            &&& forall|i: int, j: int|
                0 <= i < j < members.len() ==> (#[trigger] members[i]).0 != (
                #[trigger] members[j]).0
        },
        _ => true,
    }
}

/// Whether two values are the same JSON: equal but for the order of the
/// members of their objects.
pub open spec fn same_json(v: JsonView, w: JsonView) -> bool
    decreases v,
{
    match (v, w) {
        (JsonView::Array(a), JsonView::Array(b)) => a.len() == b.len() && forall|i: int|
            0 <= i < a.len() ==> same_json(#[trigger] a[i], b[i]),
        (JsonView::Object(a), JsonView::Object(b)) => a.len() == b.len() && forall|i: int|
            0 <= i < a.len() ==> member_of((#[trigger] a[i]).0, b) is Some && same_json(
                a[i].1,
                member_of(a[i].0, b)->0,
            ),
        (JsonView::Array(_), _) => false,
        (JsonView::Object(_), _) => false,
        _ => v == w,
    }
}

/// The value of the last member named `name`, if there is one.
pub open spec fn member_of(name: Seq<char>, members: Seq<(Seq<char>, JsonView)>) -> Option<JsonView>
    decreases members.len(),
{
    if members.len() == 0 {
        None
    } else if members.last().0 == name {
        Some(members.last().1)
    } else {
        member_of(name, members.drop_last())
    }
}

/// The model of what parsing gives.
pub open spec fn parse_view(r: Result<JsonValue, String>) -> Result<JsonView, Seq<char>> {
    match r {
        Ok(value) => Ok(value@),
        Err(message) => Err(message@),
    }
}

/// The deepest nesting that `serde_json` reads back.
pub const MAX_NESTING: u64 = 127;

/// Quotes `text` as a JSON string. Calls the `Display` of
/// `serde_json::Value::String`.
///
/// Claims that the string is quoted, with the escapes of
/// [`escaped_char`] and every other character as it is.
#[verifier::external_body]
fn quote(text: &str) -> (r: String)
    ensures
        r@ == json_quoted(text@),
{
    serde_json::Value::String(text.to_string()).to_string()
}

/// `serde_json::Value`, carried between the parser and the conversion.
#[verifier::external_type_specification]
#[verifier::external_body]
pub struct ExSerdeValue(serde_json::Value);

/// The [`JsonValue`] of a `serde_json::Value`: the same variants and contents,
/// with a number held by its `Display` text and the members of an object in
/// the order of the map.
#[verifier::external_body]
fn from_serde(value: serde_json::Value) -> (r: JsonValue)
{
    match value {
        serde_json::Value::Null => JsonValue::Null,
        serde_json::Value::Bool(b) => JsonValue::Bool(b),
        serde_json::Value::Number(n) => JsonValue::Number(n.to_string()),
        serde_json::Value::String(s) => JsonValue::Text(s),
        serde_json::Value::Array(items) => JsonValue::Array(
            items.into_iter().map(from_serde).collect(),
        ),
        serde_json::Value::Object(map) => JsonValue::Object(
            map.into_iter().map(|(name, value)| (name, from_serde(value))).collect(),
        ),
    }
}

/// Parses a JSON text. Calls `serde_json::from_str` for a
/// `serde_json::Value`.
///
/// Claims that the result depends on the text alone, and that the compact text
/// of a value whose numbers stand in the text that parsing gives back and whose
/// objects repeat no name reads back as that value, when arrays and objects nest
/// no deeper than the parser allows.
#[verifier::external_body]
fn parse_text(text: &str) -> (r: Result<JsonValue, String>)
    ensures
        parse_view(r) == json_parsed(text@),
        forall|v: JsonView|
            text@ == #[trigger] json_text(v) && is_plain(v) && nests_within(v, MAX_NESTING as nat)
                ==> r is Ok && same_json(v, r->Ok_0@),
{
    serde_json::from_str::<serde_json::Value>(text).map(from_serde).map_err(|e| e.to_string())
}

/// How much of a text is before the split.
pub open spec fn split_at(r: Option<(&str, &str)>) -> Option<nat> {
    match r {
        Some((value, _)) => Some(value@.len()),
        None => None,
    }
}

/// Splits a text after the JSON value that it starts with. Calls the iterator of
/// `serde_json::Deserializer::from_str` over `serde::de::IgnoredAny`, which
/// checks how a value is written but not what its numbers and escapes stand
/// for, and its `byte_offset`.
///
/// Claims that where the split is depends on the text alone, and three things
/// more. A carriage return at the end, being whitespace that no token can hold,
/// doesn't move it and stands after it. The compact text of a value is delimited as written when a
/// comma, a colon, a closing bracket or nothing follows it. And the compact text
/// of an object starts with no value once its end is cut off, since the object
/// is then never closed.
#[verifier::external_body]
pub(crate) fn first_value(text: &str) -> (r: Option<(&str, &str)>)
    ensures
        split_at(r) == json_first(text@),
        r matches Some((value, rest)) ==> text@ == value@ + rest@,
        text@.len() > 0 && text@.last() == '\r' ==> split_at(r) == json_first(text@.drop_last())
            && (r matches Some((_, rest)) ==> rest@.len() > 0),
        forall|v: JsonView| #[trigger]
            starts_with_value(text@, v) && is_plain(v) ==> split_at(r) == Some(json_text(v).len()),
        forall|v: JsonView, n: int|
            v is Object && is_plain(v) && 0 <= n < json_text(v).len() && text@
                == #[trigger] json_text(v).take(n) ==> r is None,
{
    let mut values = serde_json::Deserializer::from_str(text).into_iter::<serde::de::IgnoredAny>();
    match values.next() {
        Some(Ok(_)) => Some(text.split_at(values.byte_offset())),
        _ => None,
    }
}

/// What stands for a character in a quoted string is printable.
proof fn lemma_escape_printable(c: char)
    ensures
        is_printable(escaped_char(c)),
{
    if (c as u32) < 0x20 {
        let (high, low) = (c as int / 16, c as int % 16);
        assert(0 <= high < 2);
        assert(hex_digit(high) as int == 0x30 + high);
        assert(0 <= low < 16);
        assert(hex_digit(low) as int >= 0x30);
    }
}

/// A quoted string is printable.
proof fn lemma_quoted_printable(s: Seq<char>)
    ensures
        is_printable(json_quoted(s)),
        is_printable(escaped_chars(s)),
    decreases s.len(),
{
    if s.len() > 0 {
        lemma_quoted_printable(s.drop_last());
        lemma_escape_printable(s.last());
    }
}

/// Decimal digits are printable.
proof fn lemma_decimal_printable(n: nat)
    ensures
        is_printable(decimal(n)),
    decreases n,
{
    if n >= 10 {
        lemma_decimal_printable(n / 10);
    }
}

/// Printable texts joined with a comma are printable.
proof fn lemma_joined_printable(list: Seq<Seq<char>>)
    requires
        forall|i: int| 0 <= i < list.len() ==> is_printable(#[trigger] list[i]),
    ensures
        is_printable(joined(list, ","@)),
    decreases list.len(),
{
    reveal_strlit(",");
    if list.len() > 1 {
        assert forall|i: int| 0 <= i < list.drop_last().len() implies is_printable(
            #[trigger] list.drop_last()[i],
        ) by {
            assert(is_printable(list[i]));
        }
        lemma_joined_printable(list.drop_last());
        assert(is_printable(list[list.len() - 1]));
        let head = joined(list.drop_last(), ","@);
        let all = joined(list, ","@);
        assert forall|i: int| 0 <= i < all.len() implies (#[trigger] all[i]) as u32 >= 0x20 by {
            if i < head.len() {
                assert(all[i] == head[i]);
            } else if i > head.len() {
                assert(all[i] == list.last()[i - head.len() - 1]);
            }
        }
    } else if list.len() == 1 {
        assert(is_printable(list[0]));
    }
}

/// The items of an array are smaller than the array.
proof fn lemma_items_smaller(value: JsonValue, i: int)
    requires
        value is Array,
        0 <= i < value->Array_0@.len(),
    ensures
        decreases_to!(value => value->Array_0@[i]),
{
    assert(decreases_to!(value => value->Array_0));
    assert(decreases_to!(value->Array_0 => value->Array_0@));
    assert(decreases_to!(value->Array_0@ => value->Array_0@[i]));
}

/// The values of the members of an object are smaller than the object.
proof fn lemma_members_smaller(value: JsonValue, i: int)
    requires
        value is Object,
        0 <= i < value->Object_0@.len(),
    ensures
        decreases_to!(value => value->Object_0@[i].1),
{
    assert(decreases_to!(value => value->Object_0));
    assert(decreases_to!(value->Object_0 => value->Object_0@));
    assert(decreases_to!(value->Object_0@ => value->Object_0@[i]));
    assert(decreases_to!(value->Object_0@[i] => value->Object_0@[i].1));
}

impl JsonValue {
    /// The model of this value.
    pub open spec fn view(&self) -> JsonView
        decreases self,
    {
        match self {
            JsonValue::Null => JsonView::Null,
            JsonValue::Bool(b) => JsonView::Bool(*b),
            JsonValue::Number(n) => JsonView::Number(n@),
            JsonValue::Text(s) => JsonView::Text(s@),
            JsonValue::Array(items) => JsonView::Array(
                Seq::new(
                    items@.len(),
                    |i: int|
                        if 0 <= i < items@.len() {
                            items@[i].view()
                        } else {
                            JsonView::Null
                        },
                ),
            ),
            JsonValue::Object(members) => JsonView::Object(
                Seq::new(
                    members@.len(),
                    |i: int|
                        if 0 <= i < members@.len() {
                            (members@[i].0@, members@[i].1.view())
                        } else {
                            (Seq::empty(), JsonView::Null)
                        },
                ),
            ),
        }
    }

    /// Parses a JSON text, giving the parser's message when it is malformed.
    pub fn parse(text: &str) -> (r: Result<JsonValue, String>)
        ensures
            parse_view(r) == json_parsed(text@),
            forall|v: JsonView|
                text@ == #[trigger] json_text(v) && is_plain(v) && nests_within(
                    v,
                    MAX_NESTING as nat,
                ) ==> r is Ok && same_json(v, r->Ok_0@),
    {
        parse_text(text)
    }

    /// The compact JSON text of this value. It stands on one line.
    pub fn text(&self) -> (out: String)
        ensures
            out@ == json_text(self@),
            is_plain(self@) ==> is_printable(out@),
        decreases self,
    {
        proof {
            reveal_strlit("null");
            reveal_strlit("true");
            reveal_strlit("false");
        }
        match self {
            JsonValue::Null => owned("null"),
            JsonValue::Bool(b) => if *b {
                owned("true")
            } else {
                owned("false")
            },
            JsonValue::Number(n) => {
                proof {
                    if is_plain(self@) && !is_printable(n@) {
                        let k = choose|k: int|
                            i64::MIN <= k <= u64::MAX && n@ == #[trigger] signed_decimal(k);
                        if k < 0 {
                            lemma_decimal_printable((-k) as nat);
                        } else {
                            lemma_decimal_printable(k as nat);
                        }
                    }
                }
                n.clone()
            },
            JsonValue::Text(s) => {
                proof {
                    lemma_quoted_printable(s@);
                }
                quote(s.as_str())
            },
            JsonValue::Array(items) => {
                let ghost listed = self@->Array_0;
                let mut parts: Vec<String> = Vec::new();
                let mut i: usize = 0;
                proof {
                    assert(listed.take(0) =~= Seq::empty());
                    assert(views(parts@) =~= Seq::empty());
                }
                while i < items.len()
                    invariant
                        i <= items@.len(),
                        *self == JsonValue::Array(*items),
                        listed == self@->Array_0,
                        listed.len() == items@.len(),
                        views(parts@) == item_texts(listed.take(i as int)),
                        is_plain(self@) ==> forall|j: int|
                            0 <= j < parts@.len() ==> is_printable((#[trigger] parts@[j])@),
                    decreases items@.len() - i,
                {
                    proof {
                        lemma_items_smaller(*self, i as int);
                    }
                    let part = items[i].text();
                    proof {
                        lemma_views_push(parts@, part);
                        assert(listed.take(i + 1).drop_last() =~= listed.take(i as int));
                        assert(listed.take(i + 1).last() == items@[i as int]@);
                        assert(listed[i as int] == items@[i as int]@);
                    }
                    parts.push(part);
                    i += 1;
                }
                let inner = join(&parts, ",");
                let mut out = String::new();
                out.push('[');
                out.append(inner.as_str());
                out.push(']');
                proof {
                    assert(listed.take(listed.len() as int) =~= listed);
                    assert(out@ =~= json_text(self@));
                    if is_plain(self@) {
                        lemma_joined_printable(views(parts@));
                    }
                }
                out
            },
            JsonValue::Object(members) => {
                let ghost listed = self@->Object_0;
                let mut parts: Vec<String> = Vec::new();
                let mut i: usize = 0;
                proof {
                    assert(listed.take(0) =~= Seq::empty());
                    assert(views(parts@) =~= Seq::empty());
                }
                while i < members.len()
                    invariant
                        i <= members@.len(),
                        *self == JsonValue::Object(*members),
                        listed == self@->Object_0,
                        listed.len() == members@.len(),
                        views(parts@) == member_texts(listed.take(i as int)),
                        is_plain(self@) ==> forall|j: int|
                            0 <= j < parts@.len() ==> is_printable((#[trigger] parts@[j])@),
                    decreases members@.len() - i,
                {
                    proof {
                        lemma_members_smaller(*self, i as int);
                    }
                    proof {
                        lemma_quoted_printable(members@[i as int].0@);
                    }
                    let mut part = quote(members[i].0.as_str());
                    part.push(':');
                    let value = members[i].1.text();
                    part.append(value.as_str());
                    proof {
                        let member = members@[i as int];
                        assert(part@ =~= json_quoted(member.0@) + seq![':'] + json_text(member.1@));
                        lemma_views_push(parts@, part);
                        assert(listed.take(i + 1).drop_last() =~= listed.take(i as int));
                        assert(listed.take(i + 1).last() == (member.0@, member.1@));
                        assert(listed[i as int] == (member.0@, member.1@));
                    }
                    parts.push(part);
                    i += 1;
                }
                let inner = join(&parts, ",");
                let mut out = String::new();
                out.push('{');
                out.append(inner.as_str());
                out.push('}');
                proof {
                    assert(listed.take(listed.len() as int) =~= listed);
                    assert(out@ =~= json_text(self@));
                    if is_plain(self@) {
                        lemma_joined_printable(views(parts@));
                    }
                }
                out
            },
        }
    }

    /// A copy of this value.
    pub fn copy(&self) -> (out: JsonValue)
        ensures
            out@ == self@,
        decreases self,
    {
        match self {
            JsonValue::Null => JsonValue::Null,
            JsonValue::Bool(b) => JsonValue::Bool(*b),
            JsonValue::Number(n) => JsonValue::Number(n.clone()),
            JsonValue::Text(s) => JsonValue::Text(s.clone()),
            JsonValue::Array(items) => {
                let mut copies: Vec<JsonValue> = Vec::new();
                let mut i: usize = 0;
                while i < items.len()
                    invariant
                        i <= items@.len(),
                        *self == JsonValue::Array(*items),
                        copies@.len() == i,
                        forall|j: int| 0 <= j < i ==> (#[trigger] copies@[j])@ == items@[j]@,
                    decreases items@.len() - i,
                {
                    proof {
                        lemma_items_smaller(*self, i as int);
                    }
                    let item = items[i].copy();
                    copies.push(item);
                    i += 1;
                }
                let out = JsonValue::Array(copies);
                proof {
                    assert(out@->Array_0 =~= self@->Array_0);
                }
                out
            },
            JsonValue::Object(members) => {
                let mut copies: Vec<(String, JsonValue)> = Vec::new();
                let mut i: usize = 0;
                while i < members.len()
                    invariant
                        i <= members@.len(),
                        *self == JsonValue::Object(*members),
                        copies@.len() == i,
                        forall|j: int|
                            0 <= j < i ==> (#[trigger] copies@[j]).0@ == members@[j].0@
                                && copies@[j].1@ == members@[j].1@,
                    decreases members@.len() - i,
                {
                    proof {
                        lemma_members_smaller(*self, i as int);
                    }
                    let value = members[i].1.copy();
                    copies.push((members[i].0.clone(), value));
                    i += 1;
                }
                let out = JsonValue::Object(copies);
                proof {
                    assert(out@->Object_0 =~= self@->Object_0);
                }
                out
            },
        }
    }

    /// The value of the last member named `name`, if this is an object that
    /// has one.
    pub fn member(&self, name: &str) -> (r: Option<&JsonValue>)
        ensures
            match self@ {
                JsonView::Object(members) => match r {
                    Some(value) => member_of(name@, members) == Some(value@),
                    None => member_of(name@, members) is None,
                },
                _ => r is None,
            },
    {
        match self {
            JsonValue::Object(members) => {
                let mut i: usize = members.len();
                let ghost listed = self@->Object_0;
                proof {
                    assert(listed.take(i as int) =~= listed);
                }
                while 0 < i
                    invariant
                        i <= members@.len(),
                        *self == JsonValue::Object(*members),
                        listed == self@->Object_0,
                        listed.len() == members@.len(),
                        member_of(name@, listed.take(i as int)) == member_of(name@, listed),
                    decreases i,
                {
                    proof {
                        assert(listed.take(i as int).last() == (
                            members@[i - 1].0@,
                            members@[i - 1].1@,
                        ));
                        assert(listed.take(i as int).drop_last() =~= listed.take(i - 1));
                    }
                    if same_text(members[i - 1].0.as_str(), name) {
                        return Some(&members[i - 1].1);
                    }
                    i -= 1;
                }
                proof {
                    assert(listed.take(0) =~= Seq::empty());
                }
                None
            },
            _ => None,
        }
    }

    /// The value as a string, if it is one.
    pub fn as_text(&self) -> (r: Option<&str>)
        ensures
            match self@ {
                JsonView::Text(s) => r matches Some(t) && t@ == s,
                _ => r is None,
            },
    {
        match self {
            JsonValue::Text(s) => Some(s.as_str()),
            _ => None,
        }
    }

    /// Whether the value is an object.
    pub fn is_object(&self) -> (r: bool)
        ensures
            r == (self@ is Object),
    {
        match self {
            JsonValue::Object(_) => true,
            _ => false,
        }
    }

    /// A string value.
    pub fn string(s: &str) -> (r: JsonValue)
        ensures
            r@ == JsonView::Text(s@),
    {
        JsonValue::Text(owned(s))
    }

    /// A whole number.
    pub fn whole(n: u64) -> (r: JsonValue)
        ensures
            r@ == JsonView::Number(signed_decimal(n as int)),
    {
        JsonValue::Number(to_decimal(n as u128))
    }
}

/// The models of the members of an object.
pub open spec fn pairs(members: Seq<(String, JsonValue)>) -> Seq<(Seq<char>, JsonView)> {
    members.map_values(|member: (String, JsonValue)| (member.0@, member.1@))
}

/// The members of an object, kept in the order of their names, after one is
/// set.
pub open spec fn with_member(
    members: Seq<(Seq<char>, JsonView)>,
    name: Seq<char>,
    value: JsonView,
) -> Seq<(Seq<char>, JsonView)>
    decreases members.len(),
{
    if members.len() == 0 {
        seq![(name, value)]
    } else if precedes_text(members[0].0, name) {
        seq![members[0]] + with_member(members.drop_first(), name, value)
    } else if members[0].0 == name {
        members.update(0, (name, value))
    } else {
        seq![(name, value)] + members
    }
}

/// Sets a member of an object, keeping the members in the order of their
/// names.
pub fn set_member(members: &mut Vec<(String, JsonValue)>, name: &str, value: JsonValue)
    ensures
        pairs(final(members)@) == with_member(pairs(old(members)@), name@, value@),
{
    let ghost before = pairs(members@);
    let mut at: usize = 0;
    proof {
        assert(before.skip(0) =~= before);
        assert(before.take(0) + with_member(before, name@, value@) =~= with_member(
            before,
            name@,
            value@,
        ));
    }
    while at < members.len() && precedes(members[at].0.as_str(), name)
        invariant
            at <= members@.len(),
            members@ == old(members)@,
            before == pairs(old(members)@),
            before.take(at as int) + with_member(before.skip(at as int), name@, value@)
                == with_member(before, name@, value@),
        decreases members@.len() - at,
    {
        proof {
            let rest = before.skip(at as int);
            assert(rest[0] == (members@[at as int].0@, members@[at as int].1@));
            assert(rest.drop_first() =~= before.skip(at + 1));
            assert(before.take(at as int) + (seq![rest[0]] + with_member(
                before.skip(at + 1),
                name@,
                value@,
            )) =~= before.take(at + 1) + with_member(before.skip(at + 1), name@, value@));
        }
        at += 1;
    }
    let ghost rest = before.skip(at as int);
    if at < members.len() && same_text(members[at].0.as_str(), name) {
        members.set(at, (owned(name), value));
        proof {
            assert(pairs(members@) =~= before.take(at as int) + rest.update(0, (name@, value@)));
        }
    } else {
        members.insert(at, (owned(name), value));
        proof {
            assert(pairs(members@) =~= before.take(at as int) + (seq![(name@, value@)] + rest));
            if rest.len() == 0 {
                assert(seq![(name@, value@)] + rest =~= seq![(name@, value@)]);
            }
        }
    }
}

/// Whether members stand in the order of their names, none twice.
pub open spec fn in_name_order(members: Seq<(Seq<char>, JsonView)>) -> bool {
    forall|i: int, j: int|
        0 <= i < j < members.len() ==> precedes_text((#[trigger] members[i]).0, (
        #[trigger] members[j]).0)
}

/// Setting a member keeps the order of the names, gives the name its value and
/// leaves every other name its own.
pub proof fn lemma_member_is_set(
    members: Seq<(Seq<char>, JsonView)>,
    name: Seq<char>,
    value: JsonView,
)
    requires
        in_name_order(members),
    ensures
        in_name_order(with_member(members, name, value)),
        forall|n: Seq<char>, v: JsonView|
            with_member(members, name, value).contains((n, v)) <==> if n == name {
                v == value
            } else {
                members.contains((n, v))
            },
    decreases members.len(),
{
    let after = with_member(members, name, value);
    if members.len() == 0 {
        assert(after[0] == (name, value));
        assert forall|n: Seq<char>, v: JsonView|
            after.contains((n, v)) <==> if n == name {
                v == value
            } else {
                members.contains((n, v))
            } by {
            if n == name && v == value {
                assert(after.contains(after[0]));
            }
            if after.contains((n, v)) {
                assert(after[0] == (n, v));
            }
        }
    } else {
        let first = members[0];
        let rest = members.drop_first();
        assert forall|i: int, j: int| 0 <= i < j < rest.len() implies precedes_text(
            (#[trigger] rest[i]).0,
            (#[trigger] rest[j]).0,
        ) by {
            assert(precedes_text(members[i + 1].0, members[j + 1].0));
        }
        assert(members =~= seq![first] + rest);
        assert forall|i: int| 0 <= i < rest.len() implies precedes_text(
            first.0,
            (#[trigger] rest[i]).0,
        ) by {
            assert(precedes_text(members[0].0, members[i + 1].0));
        }
        lemma_texts_ordered(first.0, name);
        if precedes_text(first.0, name) {
            let tail = with_member(rest, name, value);
            lemma_member_is_set(rest, name, value);
            assert forall|i: int| 0 <= i < tail.len() implies precedes_text(
                first.0,
                (#[trigger] tail[i]).0,
            ) by {
                assert(tail.contains((tail[i].0, tail[i].1)));
                if tail[i].0 != name {
                    let k = choose|k: int|
                        0 <= k < rest.len() && rest[k] == (tail[i].0, tail[i].1);
                    assert(precedes_text(first.0, rest[k].0));
                }
            }
            lemma_prepended_in_order(first, tail);
            lemma_contains_prepended(first, tail);
            lemma_contains_prepended(first, rest);
            assert(after == seq![first] + tail);
            assert forall|n: Seq<char>, v: JsonView|
                after.contains((n, v)) <==> if n == name {
                    v == value
                } else {
                    members.contains((n, v))
                } by {
                assert(tail.contains((n, v)) <==> if n == name {
                    v == value
                } else {
                    rest.contains((n, v))
                });
            }
        } else if first.0 == name {
            assert(after =~= seq![(name, value)] + rest);
            lemma_prepended_in_order((name, value), rest);
            lemma_contains_prepended((name, value), rest);
            lemma_contains_prepended(first, rest);
            assert forall|n: Seq<char>, v: JsonView| rest.contains((n, v)) implies n != name by {
                let k = choose|k: int| 0 <= k < rest.len() && rest[k] == (n, v);
                lemma_texts_ordered(first.0, rest[k].0);
            }
            assert forall|n: Seq<char>, v: JsonView|
                after.contains((n, v)) <==> if n == name {
                    v == value
                } else {
                    members.contains((n, v))
                } by {
                assert(rest.contains((n, v)) ==> n != name);
                assert((n, v) == (name, value) <==> n == name && v == value);
            }
        } else {
            assert forall|i: int| 0 <= i < members.len() implies precedes_text(
                name,
                (#[trigger] members[i]).0,
            ) by {
                if i > 0 {
                    assert(rest[i - 1] == members[i]);
                    lemma_order_is_transitive(name, first.0, members[i].0);
                }
            }
            lemma_prepended_in_order((name, value), members);
            lemma_contains_prepended((name, value), members);
            assert forall|n: Seq<char>, v: JsonView| members.contains((n, v)) implies n != name by {
                let k = choose|k: int| 0 <= k < members.len() && members[k] == (n, v);
                assert(precedes_text(name, members[k].0));
                lemma_texts_ordered(name, members[k].0);
            }
            assert(after == seq![(name, value)] + members);
            assert forall|n: Seq<char>, v: JsonView|
                after.contains((n, v)) <==> if n == name {
                    v == value
                } else {
                    members.contains((n, v))
                } by {
                assert(members.contains((n, v)) ==> n != name);
                assert((n, v) == (name, value) <==> n == name && v == value);
            }
        }
    }
}

/// A member whose name stands before all others may come first.
proof fn lemma_prepended_in_order(
    first: (Seq<char>, JsonView),
    rest: Seq<(Seq<char>, JsonView)>,
)
    requires
        in_name_order(rest),
        forall|i: int| 0 <= i < rest.len() ==> precedes_text(first.0, (#[trigger] rest[i]).0),
    ensures
        in_name_order(seq![first] + rest),
{
    let all = seq![first] + rest;
    assert forall|i: int, j: int| 0 <= i < j < all.len() implies precedes_text(
        (#[trigger] all[i]).0,
        (#[trigger] all[j]).0,
    ) by {
        assert(all[j] == rest[j - 1]);
        if i > 0 {
            assert(all[i] == rest[i - 1]);
        }
    }
}

/// What a list with one more in front contains.
proof fn lemma_contains_prepended<A>(first: A, rest: Seq<A>)
    ensures
        forall|x: A| (seq![first] + rest).contains(x) <==> x == first || rest.contains(x),
{
    let all = seq![first] + rest;
    assert forall|x: A| x == first || rest.contains(x) implies all.contains(x) by {
        if x == first {
            assert(all[0] == x);
        } else {
            let k = choose|k: int| 0 <= k < rest.len() && rest[k] == x;
            assert(all[k + 1] == x);
        }
    }
    assert forall|x: A| all.contains(x) implies x == first || rest.contains(x) by {
        let k = choose|k: int| 0 <= k < all.len() && all[k] == x;
        if k > 0 {
            assert(rest[k - 1] == x);
        }
    }
}

} // verus!
