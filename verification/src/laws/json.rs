//! JSON values: their texts, their members and their copies.

use crate::json::{
    escaped_char, escaped_chars, in_name_order, item_texts, json_quoted, json_text,
    lemma_member_is_set, member_of, member_texts, pairs, set_member, JsonValue, JsonView,
};
use crate::text::lines::{join, views};
use crate::text::number::to_decimal;
use vstd::prelude::*;
use vstd::string::*;

verus! {

/// A scalar stands as it is: a number in its own text, whole.
pub proof fn lemma_scalar_texts(value: &JsonValue, r: String)
    requires
        call_ensures(JsonValue::text, (value,), r),
    ensures
        *value is Null ==> r@ == "null"@,
        *value == JsonValue::Bool(true) ==> r@ == "true"@,
        *value == JsonValue::Bool(false) ==> r@ == "false"@,
        value matches JsonValue::Number(n) ==> r@ == n@,
{
}

/// Whether a character stands for itself in a quoted string.
pub open spec fn is_plain_char(c: char) -> bool {
    ' ' <= c && c != '"' && c != '\\'
}

/// A string is put between quotes, whole, where nothing in it has to be
/// escaped.
pub proof fn lemma_string_texts(value: &JsonValue, r: String)
    requires
        call_ensures(JsonValue::text, (value,), r),
        value matches JsonValue::Text(s) && forall|i: int|
            0 <= i < s@.len() ==> is_plain_char(#[trigger] s@[i]),
    ensures
        value matches JsonValue::Text(s) && r@ == seq!['"'] + s@ + seq!['"'],
{
    if let JsonValue::Text(s) = value {
        lemma_plain_chars(s@);
    }
}

/// Plain characters are kept.
proof fn lemma_plain_chars(s: Seq<char>)
    requires
        forall|i: int| 0 <= i < s.len() ==> is_plain_char(#[trigger] s[i]),
    ensures
        escaped_chars(s) == s,
    decreases s.len(),
{
    if s.len() > 0 {
        let rest = s.drop_last();
        assert forall|i: int| 0 <= i < rest.len() implies is_plain_char(#[trigger] rest[i]) by {
            assert(rest[i] == s[i]);
        }
        lemma_plain_chars(rest);
        assert(is_plain_char(s[s.len() - 1]));
        lemma_plain_char(s.last());
        assert(escaped_chars(s) =~= s);
    } else {
        assert(escaped_chars(s) =~= s);
    }
}

/// A plain character is kept.
proof fn lemma_plain_char(c: char)
    requires
        is_plain_char(c),
    ensures
        escaped_char(c) == seq![c],
{
}

/// A longer string has a longer text, with the same start: no character is
/// dropped.
pub proof fn lemma_no_character_is_dropped(
    value: &JsonValue,
    longer: &JsonValue,
    r: String,
    s: String,
)
    requires
        call_ensures(JsonValue::text, (value,), r),
        call_ensures(JsonValue::text, (longer,), s),
        value matches JsonValue::Text(a) && longer matches JsonValue::Text(b) && b@.len() == a@.len()
            + 1 && b@.drop_last() == a@,
    ensures
        s@.len() > r@.len(),
        s@.take(r@.len() - 1) == r@.drop_last(),
{
    if let JsonValue::Text(a) = value {
        if let JsonValue::Text(b) = longer {
            assert(escaped_chars(b@) == escaped_chars(a@) + escaped_char(b@.last()));
            assert(s@.take(r@.len() - 1) =~= r@.drop_last());
        }
    }
}

/// An array is the texts of all its items, in order, between brackets and with
/// commas between them.
pub proof fn lemma_array_texts(
    value: &JsonValue,
    texts: &Vec<String>,
    inner: String,
    r: String,
)
    requires
        call_ensures(JsonValue::text, (value,), r),
        value matches JsonValue::Array(items) && texts@.len() == items@.len() && forall|i: int|
            0 <= i < items@.len() ==> call_ensures(
                JsonValue::text,
                (&items@[i],),
                #[trigger] texts@[i],
            ),
        call_ensures(join, (texts, ","), inner),
    ensures
        r@ == seq!['['] + inner@ + seq![']'],
{
    if let JsonValue::Array(items) = value {
        let listed = value@->Array_0;
        assert forall|i: int| 0 <= i < listed.len() implies json_text(#[trigger] listed[i])
            == texts@[i]@ by {
            assert(call_ensures(JsonValue::text, (&items@[i],), texts@[i]));
        }
        lemma_item_texts(listed);
        assert(item_texts(listed) =~= views(texts@));
    }
}

/// The texts of items, one by one.
proof fn lemma_item_texts(items: Seq<JsonView>)
    ensures
        item_texts(items).len() == items.len(),
        forall|i: int|
            0 <= i < items.len() ==> #[trigger] item_texts(items)[i] == json_text(items[i]),
    decreases items.len(),
{
    if items.len() > 0 {
        let rest = items.drop_last();
        lemma_item_texts(rest);
        assert forall|i: int| 0 <= i < items.len() implies #[trigger] item_texts(items)[i]
            == json_text(items[i]) by {
            if i < rest.len() {
                assert(item_texts(items)[i] == item_texts(rest)[i]);
            }
        }
    }
}

/// Whether a text is that of a member: its quoted name, a colon and its value.
pub open spec fn is_member_text(member: (String, JsonValue), text: Seq<char>) -> bool {
    exists|name: String, value: String|
        #![trigger call_ensures(JsonValue::text, (&JsonValue::Text(member.0),), name), call_ensures(JsonValue::text, (&member.1,), value)]
        call_ensures(JsonValue::text, (&JsonValue::Text(member.0),), name) && call_ensures(
            JsonValue::text,
            (&member.1,),
            value,
        ) && text == name@ + seq![':'] + value@
}

/// An object is the texts of all its members, in order, between braces and with
/// commas between them.
pub proof fn lemma_object_texts(
    value: &JsonValue,
    texts: &Vec<String>,
    inner: String,
    r: String,
)
    requires
        call_ensures(JsonValue::text, (value,), r),
        value matches JsonValue::Object(members) && texts@.len() == members@.len() && forall|i: int|
            0 <= i < members@.len() ==> is_member_text(#[trigger] members@[i], texts@[i]@),
        call_ensures(join, (texts, ","), inner),
    ensures
        r@ == seq!['{'] + inner@ + seq!['}'],
{
    if let JsonValue::Object(members) = value {
        let listed = value@->Object_0;
        assert forall|i: int| 0 <= i < listed.len() implies json_quoted((#[trigger] listed[i]).0)
            + seq![':'] + json_text(listed[i].1) == texts@[i]@ by {
            assert(is_member_text(members@[i], texts@[i]@));
            let (name, text) = choose|name: String, text: String|
                #![trigger call_ensures(JsonValue::text, (&JsonValue::Text(members@[i].0),), name), call_ensures(JsonValue::text, (&members@[i].1,), text)]
                call_ensures(JsonValue::text, (&JsonValue::Text(members@[i].0),), name)
                    && call_ensures(JsonValue::text, (&members@[i].1,), text) && texts@[i]@ == name@
                    + seq![':'] + text@;
            assert(JsonValue::Text(members@[i].0)@ == JsonView::Text(members@[i].0@));
            assert(name@ == json_quoted(members@[i].0@));
        }
        lemma_member_texts(listed);
        assert(member_texts(listed) =~= views(texts@));
    }
}

/// The texts of members, one by one.
proof fn lemma_member_texts(members: Seq<(Seq<char>, JsonView)>)
    ensures
        member_texts(members).len() == members.len(),
        forall|i: int|
            0 <= i < members.len() ==> #[trigger] member_texts(members)[i] == json_quoted(
                members[i].0,
            ) + seq![':'] + json_text(members[i].1),
    decreases members.len(),
{
    if members.len() > 0 {
        let rest = members.drop_last();
        lemma_member_texts(rest);
        assert forall|i: int| 0 <= i < members.len() implies #[trigger] member_texts(members)[i]
            == json_quoted(members[i].0) + seq![':'] + json_text(members[i].1) by {
            if i < rest.len() {
                assert(member_texts(members)[i] == member_texts(rest)[i]);
            }
        }
    }
}

/// A copy is the same value, and reads the same.
pub proof fn lemma_copies_are_the_same(value: &JsonValue, copy: &JsonValue, r: String, s: String)
    requires
        call_ensures(JsonValue::copy, (value,), *copy),
        call_ensures(JsonValue::text, (value,), r),
        call_ensures(JsonValue::text, (copy,), s),
    ensures
        copy@ == value@,
        r@ == s@,
{
}

/// Whether `i` is the last member of a name.
pub open spec fn is_last_named(
    members: Seq<(Seq<char>, JsonView)>,
    name: Seq<char>,
    i: int,
) -> bool {
    &&& 0 <= i < members.len()
    &&& members[i].0 == name
    &&& forall|j: int| i < j < members.len() ==> (#[trigger] members[j]).0 != name
}

/// A member is found by its name, the last one where there are several; a name
/// that no member has finds nothing.
pub proof fn lemma_members_are_found(value: &JsonValue, name: &str, r: Option<&JsonValue>)
    requires
        call_ensures(JsonValue::member, (value, name), r),
    ensures
        value@ !is Object ==> r is None,
        value@ matches JsonView::Object(members) ==> match r {
            Some(found) => exists|i: int| #[trigger]
                is_last_named(members, name@, i) && members[i].1 == found@,
            None => forall|i: int| 0 <= i < members.len() ==> (#[trigger] members[i]).0 != name@,
        },
{
    if let JsonView::Object(members) = value@ {
        lemma_last_named(members, name@);
    }
}

/// What a name finds among members.
pub proof fn lemma_last_named(members: Seq<(Seq<char>, JsonView)>, name: Seq<char>)
    ensures
        match member_of(name, members) {
            Some(found) => exists|i: int| #[trigger]
                is_last_named(members, name, i) && members[i].1 == found,
            None => forall|i: int| 0 <= i < members.len() ==> (#[trigger] members[i]).0 != name,
        },
    decreases members.len(),
{
    if members.len() > 0 {
        if members.last().0 == name {
            assert(is_last_named(members, name, members.len() - 1));
        } else {
            let rest = members.drop_last();
            lemma_last_named(rest, name);
            if member_of(name, members) is Some {
                let i = choose|i: int| #[trigger]
                    is_last_named(rest, name, i) && rest[i].1 == member_of(name, rest)->0;
                assert forall|j: int| i < j < members.len() implies (#[trigger] members[j]).0
                    != name by {
                    if j < rest.len() {
                        assert(rest[j] == members[j]);
                    }
                }
                assert(is_last_named(members, name, i));
            } else {
                assert forall|i: int| 0 <= i < members.len() implies (#[trigger] members[i]).0
                    != name by {
                    if i < rest.len() {
                        assert(rest[i] == members[i]);
                    }
                }
            }
        }
    }
}

/// Setting a member gives the name its value and leaves every other name its
/// own.
pub proof fn lemma_members_are_set(
    members: &mut Vec<(String, JsonValue)>,
    name: &str,
    value: JsonValue,
)
    requires
        in_name_order(pairs(members@)),
        call_ensures(set_member, (members, name, value), ()),
    ensures
        in_name_order(pairs(final(members)@)),
        forall|n: Seq<char>, v: JsonView|
            #![trigger pairs(final(members)@).contains((n, v))]
            pairs(final(members)@).contains((n, v)) <==> (if n == name@ {
                v == value@
            } else {
                pairs(old(members)@).contains((n, v))
            }),
{
    lemma_member_is_set(pairs(members@), name@, value@);
}

/// A value made of a text gives the text back; one that isn't a text gives
/// none.
pub proof fn lemma_texts_are_given_back(
    s: &str,
    made: &JsonValue,
    back: Option<&str>,
    value: &JsonValue,
    r: Option<&str>,
)
    requires
        call_ensures(JsonValue::string, (s,), *made),
        call_ensures(JsonValue::as_text, (made,), back),
        call_ensures(JsonValue::as_text, (value,), r),
    ensures
        back matches Some(t) && t@ == s@,
        r is Some <==> *value is Text,
{
}

/// A whole number stands in its digits.
pub proof fn lemma_whole_numbers(n: u64, made: &JsonValue, digits: String, r: String)
    requires
        call_ensures(JsonValue::whole, (n,), *made),
        call_ensures(to_decimal, (n as u128,), digits),
        call_ensures(JsonValue::text, (made,), r),
    ensures
        r@ == digits@,
        made@ is Number,
{
}

/// Which values are objects.
pub proof fn lemma_objects(value: &JsonValue, r: bool)
    requires
        call_ensures(JsonValue::is_object, (value,), r),
    ensures
        r <==> *value is Object,
{
}

} // verus!
