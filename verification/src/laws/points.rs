//! What becomes of a record's fields, and of the points of many records.

use crate::db::payload::Payload;
use crate::json::{in_name_order, lemma_member_is_set, JsonValue, JsonView};
use crate::points::{
    describe, description_lines, group_by_category, has_group, item_payload, non_empty, rule_of,
    stored_members, CategoryGroup, FieldRule, IntoDescriptionValue, PointError, VectorDatabase,
    VectorDatabaseItem, VectorPointDraft,
};
use crate::text::lines::{joined, views};
use crate::text::number::{to_decimal, to_signed_decimal};
use crate::text::order::precedes_text;
use vstd::prelude::*;
use vstd::string::*;

verus! {

/// Whether `i` is the first rule for a field.
pub open spec fn is_first_rule(rules: Seq<FieldRule>, field: Seq<char>, i: int) -> bool {
    &&& 0 <= i < rules.len()
    &&& rules[i].field@ == field
    &&& forall|j: int| 0 <= j < i ==> (#[trigger] rules[j]).field@ != field
}

/// Whether no rule speaks of a field.
pub open spec fn has_no_rule(rules: Seq<FieldRule>, field: Seq<char>) -> bool {
    forall|i: int| 0 <= i < rules.len() ==> (#[trigger] rules[i]).field@ != field
}

/// Whether a field is stored under a key: under its own name where no rule
/// speaks of it, under the key of the first rule that does otherwise.
pub open spec fn is_stored_as(rules: Seq<FieldRule>, field: Seq<char>, key: Seq<char>) -> bool {
    ||| has_no_rule(rules, field) && key == field
    ||| exists|i: int| #[trigger]
        is_first_rule(rules, field, i) && (rules[i].rename matches Some(other) && other@ == key)
}

/// Whether a field is left out: the first rule that speaks of it names no key.
pub open spec fn is_left_out(rules: Seq<FieldRule>, field: Seq<char>) -> bool {
    exists|i: int| #[trigger] is_first_rule(rules, field, i) && rules[i].rename is None
}

/// The first rule for a field is found.
proof fn lemma_first_rule(rules: Seq<FieldRule>, field: Seq<char>)
    ensures
        match rule_of(rules, field) {
            None => has_no_rule(rules, field),
            Some(Some(key)) => exists|i: int| #[trigger]
                is_first_rule(rules, field, i) && (rules[i].rename matches Some(other) && other@
                    == key),
            Some(None) => exists|i: int| #[trigger]
                is_first_rule(rules, field, i) && rules[i].rename is None,
        },
    decreases rules.len(),
{
    if rules.len() > 0 {
        if rules[0].field@ == field {
            assert(is_first_rule(rules, field, 0));
        } else {
            let rest = rules.drop_first();
            lemma_first_rule(rest, field);
            match rule_of(rest, field) {
                None => {
                    assert forall|i: int| 0 <= i < rules.len() implies (#[trigger] rules[i]).field@
                        != field by {
                        if i > 0 {
                            assert(rest[i - 1] == rules[i]);
                        }
                    }
                },
                Some(_) => {
                    let i = choose|i: int| #[trigger]
                        is_first_rule(rest, field, i) && match rule_of(rest, field) {
                            Some(Some(key)) => rest[i].rename matches Some(other) && other@ == key,
                            _ => rest[i].rename is None,
                        };
                    assert(rules[i + 1] == rest[i]);
                    assert forall|j: int| 0 <= j < i + 1 implies (#[trigger] rules[j]).field@
                        != field by {
                        if j > 0 {
                            assert(rest[j - 1] == rules[j]);
                        }
                    }
                    assert(is_first_rule(rules, field, i + 1));
                },
            }
        }
    }
}

/// A field has one first rule.
proof fn lemma_one_first_rule(rules: Seq<FieldRule>, field: Seq<char>, i: int, j: int)
    requires
        is_first_rule(rules, field, i),
        is_first_rule(rules, field, j),
    ensures
        i == j,
{
}

/// A field goes where its rule says.
proof fn lemma_where_a_field_goes(rules: Seq<FieldRule>, field: Seq<char>)
    ensures
        forall|key: Seq<char>|
            #![trigger is_stored_as(rules, field, key)]
            is_stored_as(rules, field, key) <==> (match rule_of(rules, field) {
                None => key == field,
                Some(Some(other)) => key == other,
                Some(None) => false,
            }),
        is_left_out(rules, field) <==> rule_of(rules, field) == Some(None::<Seq<char>>),
{
    lemma_first_rule(rules, field);
    if rule_of(rules, field) is Some {
        let i = choose|i: int| #[trigger]
            is_first_rule(rules, field, i) && match rule_of(rules, field) {
                Some(Some(key)) => rules[i].rename matches Some(other) && other@ == key,
                _ => rules[i].rename is None,
            };
        assert(!has_no_rule(rules, field)) by {
            assert(rules[i].field@ == field);
        }
        assert forall|key: Seq<char>|
            #![trigger is_stored_as(rules, field, key)]
            is_stored_as(rules, field, key) <==> (match rule_of(rules, field) {
                None => key == field,
                Some(Some(other)) => key == other,
                Some(None) => false,
            }) by {
            if is_stored_as(rules, field, key) {
                let j = choose|j: int| #[trigger]
                    is_first_rule(rules, field, j) && (rules[j].rename matches Some(other)
                        && other@ == key);
                lemma_one_first_rule(rules, field, i, j);
            }
        }
        if is_left_out(rules, field) {
            let j = choose|j: int| #[trigger]
                is_first_rule(rules, field, j) && rules[j].rename is None;
            lemma_one_first_rule(rules, field, i, j);
        }
    }
}

/// Whether a value is that of the last field stored under a key.
pub open spec fn is_value_under(
    fields: Seq<(Seq<char>, JsonView)>,
    rules: Seq<FieldRule>,
    key: Seq<char>,
    value: JsonView,
) -> bool {
    exists|i: int| #[trigger] is_last_under(fields, rules, key, i) && fields[i].1 == value
}

/// Whether `i` is the last field stored under a key.
pub open spec fn is_last_under(
    fields: Seq<(Seq<char>, JsonView)>,
    rules: Seq<FieldRule>,
    key: Seq<char>,
    i: int,
) -> bool {
    &&& 0 <= i < fields.len()
    &&& is_stored_as(rules, fields[i].0, key)
    &&& forall|j: int| i < j < fields.len() ==> !is_stored_as(rules, (#[trigger] fields[j]).0, key)
}

/// The stored fields are those that a rule stores.
proof fn lemma_stored(fields: Seq<(Seq<char>, JsonView)>, rules: Seq<FieldRule>)
    ensures
        in_name_order(stored_members(fields, rules)),
        forall|key: Seq<char>, value: JsonView|
            #![trigger stored_members(fields, rules).contains((key, value))]
            stored_members(fields, rules).contains((key, value)) <==> is_value_under(
                fields,
                rules,
                key,
                value,
            ),
    decreases fields.len(),
{
    let all = stored_members(fields, rules);
    if fields.len() > 0 {
        let before = fields.drop_last();
        let rest = stored_members(before, rules);
        let (name, last) = fields.last();
        let at = fields.len() - 1;
        lemma_stored(before, rules);
        lemma_where_a_field_goes(rules, name);
        match rule_of(rules, name) {
            None => lemma_member_is_set(rest, name, last),
            Some(Some(key)) => lemma_member_is_set(rest, key, last),
            Some(None) => {},
        }
        assert forall|key: Seq<char>, value: JsonView|
            #![trigger all.contains((key, value))]
            all.contains((key, value)) <==> is_value_under(fields, rules, key, value) by {
            assert(rest.contains((key, value)) <==> is_value_under(before, rules, key, value));
            if is_stored_as(rules, name, key) {
                assert(is_last_under(fields, rules, key, at));
                assert(all.contains((key, value)) <==> value == last);
                if is_value_under(fields, rules, key, value) {
                    let i = choose|i: int| #[trigger]
                        is_last_under(fields, rules, key, i) && fields[i].1 == value;
                    assert(i == at) by {
                        if i < at {
                            assert(!is_stored_as(rules, fields[at].0, key));
                        }
                    }
                }
            } else {
                assert(all.contains((key, value)) <==> rest.contains((key, value)));
                if is_value_under(before, rules, key, value) {
                    let i = choose|i: int| #[trigger]
                        is_last_under(before, rules, key, i) && before[i].1 == value;
                    assert forall|j: int| i < j < fields.len() implies !is_stored_as(
                        rules,
                        (#[trigger] fields[j]).0,
                        key,
                    ) by {
                        if j < at {
                            assert(before[j] == fields[j]);
                        }
                    }
                    assert(is_last_under(fields, rules, key, i));
                }
                if is_value_under(fields, rules, key, value) {
                    let i = choose|i: int| #[trigger]
                        is_last_under(fields, rules, key, i) && fields[i].1 == value;
                    assert(i < at);
                    assert forall|j: int| i < j < before.len() implies !is_stored_as(
                        rules,
                        (#[trigger] before[j]).0,
                        key,
                    ) by {
                        assert(before[j] == fields[j]);
                    }
                    assert(is_last_under(before, rules, key, i));
                }
            }
        }
    } else {
        assert forall|key: Seq<char>, value: JsonView|
            #![trigger all.contains((key, value))]
            all.contains((key, value)) <==> is_value_under(fields, rules, key, value) by {
            assert(all.len() == 0);
        }
    }
}

/// Whether a payload holds a category under `category`, under every other key
/// the last field stored there, and nothing else.
pub open spec fn holds_fields(
    payload: Seq<(Seq<char>, JsonView)>,
    fields: Seq<(Seq<char>, JsonView)>,
    rules: Seq<FieldRule>,
    category: Seq<char>,
) -> bool {
    &&& in_name_order(payload)
    &&& forall|key: Seq<char>, v: JsonView|
        #![trigger payload.contains((key, v))]
        payload.contains((key, v)) <==> (if key == "category"@ {
            v == JsonView::Text(category)
        } else {
            is_value_under(fields, rules, key, v)
        })
}

/// The payload of a record holds its category under `category`; under every
/// other key it holds the value of the last field stored there, whatever kind
/// of value that is; and it holds nothing else. A record that isn't an object
/// has no payload.
pub proof fn lemma_payload_holds_the_fields(
    value: JsonValue,
    rules: &Vec<FieldRule>,
    category: &str,
    r: Result<Payload, PointError>,
)
    requires
        call_ensures(item_payload, (value, rules, category), r),
    ensures
        r is Ok <==> value@ is Object,
        r matches Err(e) ==> e is Payload,
        value@ matches JsonView::Object(fields) ==> (r matches Ok(payload) && holds_fields(
            payload@,
            fields,
            rules@,
            category@,
        )),
{
    if let JsonView::Object(fields) = value@ {
        lemma_stored(fields, rules@);
        lemma_member_is_set(
            stored_members(fields, rules@),
            "category"@,
            JsonView::Text(category@),
        );
        if let Ok(payload) = r {
            let stored = stored_members(fields, rules@);
            assert forall|key: Seq<char>, v: JsonView|
                #![trigger payload@.contains((key, v))]
                payload@.contains((key, v)) <==> (if key == "category"@ {
                    v == JsonView::Text(category@)
                } else {
                    is_value_under(fields, rules@, key, v)
                }) by {
                assert(stored.contains((key, v)) <==> is_value_under(fields, rules@, key, v));
            }
        }
    }
}

/// Whether no two fields are stored under one key, and none under the key of
/// the category.
pub open spec fn keys_are_apart(
    fields: Seq<(Seq<char>, JsonView)>,
    rules: Seq<FieldRule>,
) -> bool {
    &&& forall|i: int, j: int, key: Seq<char>|
        0 <= i < fields.len() && 0 <= j < fields.len() && #[trigger] is_stored_as(
            rules,
            fields[i].0,
            key,
        ) && #[trigger] is_stored_as(rules, fields[j].0, key) ==> i == j
    &&& forall|i: int|
        0 <= i < fields.len() ==> !is_stored_as(rules, (#[trigger] fields[i]).0, "category"@)
}

/// Every field that no rule leaves out reaches the payload with its value: one
/// without a rule under its own name, one that is renamed under its new key.
/// This holds of any kind of value, where no two fields share a key and none
/// takes that of the category.
pub proof fn lemma_every_field_is_stored(
    value: JsonValue,
    rules: &Vec<FieldRule>,
    category: &str,
    r: Result<Payload, PointError>,
)
    requires
        call_ensures(item_payload, (value, rules, category), r),
        value@ matches JsonView::Object(fields) && keys_are_apart(fields, rules@),
    ensures
        r is Ok,
        value@ matches JsonView::Object(fields) ==> (r matches Ok(payload) && payload@.contains(
            ("category"@, JsonView::Text(category@)),
        ) && (forall|i: int|
            0 <= i < fields.len() && has_no_rule(rules@, (#[trigger] fields[i]).0)
                ==> payload@.contains(fields[i])) && (forall|i: int, key: Seq<char>|
            0 <= i < fields.len() && #[trigger] is_stored_as(rules@, fields[i].0, key)
                ==> payload@.contains((key, fields[i].1)))),
{
    lemma_payload_holds_the_fields(value, rules, category, r);
    if let JsonView::Object(fields) = value@ {
        if let Ok(payload) = r {
            assert forall|i: int, key: Seq<char>|
                0 <= i < fields.len() && #[trigger] is_stored_as(
                    rules@,
                    fields[i].0,
                    key,
                ) implies payload@.contains((key, fields[i].1)) by {
                assert(key != "category"@);
                assert(is_last_under(fields, rules@, key, i));
                assert(is_value_under(fields, rules@, key, fields[i].1));
            }
            assert forall|i: int|
                0 <= i < fields.len() && has_no_rule(
                    rules@,
                    (#[trigger] fields[i]).0,
                ) implies payload@.contains(fields[i]) by {
                assert(is_stored_as(rules@, fields[i].0, fields[i].0));
                assert(payload@.contains((fields[i].0, fields[i].1)));
            }
        }
    }
}

/// Without rules a record keeps all of its fields.
pub proof fn lemma_without_rules_every_field_is_stored(
    value: JsonValue,
    rules: &Vec<FieldRule>,
    category: &str,
    r: Result<Payload, PointError>,
)
    requires
        call_ensures(item_payload, (value, rules, category), r),
        rules@.len() == 0,
        value@ matches JsonView::Object(fields) && in_name_order(fields) && forall|i: int|
            0 <= i < fields.len() ==> (#[trigger] fields[i]).0 != "category"@,
    ensures
        value@ matches JsonView::Object(fields) && r matches Ok(payload) && forall|i: int|
            0 <= i < fields.len() ==> payload@.contains(#[trigger] fields[i]),
{
    if let JsonView::Object(fields) = value@ {
        assert forall|i: int, j: int, key: Seq<char>|
            0 <= i < fields.len() && 0 <= j < fields.len() && #[trigger] is_stored_as(
                rules@,
                fields[i].0,
                key,
            ) && #[trigger] is_stored_as(rules@, fields[j].0, key) implies i == j by {
            crate::text::order::lemma_texts_ordered(fields[i].0, fields[j].0);
            if i < j {
                assert(precedes_text(fields[i].0, fields[j].0));
            } else if j < i {
                assert(precedes_text(fields[j].0, fields[i].0));
                crate::text::order::lemma_texts_ordered(fields[j].0, fields[i].0);
            }
        }
        lemma_every_field_is_stored(value, rules, category, r);
    }
}

/// A field that is left out, and whose name no other field takes, is not in the
/// payload.
pub proof fn lemma_left_out_fields_are_not_stored(
    value: JsonValue,
    rules: &Vec<FieldRule>,
    category: &str,
    r: Result<Payload, PointError>,
    field: Seq<char>,
)
    requires
        call_ensures(item_payload, (value, rules, category), r),
        is_left_out(rules@, field),
        field != "category"@,
        value@ matches JsonView::Object(fields) ==> forall|i: int|
            0 <= i < fields.len() && (#[trigger] fields[i]).0 != field ==> !is_stored_as(
                rules@,
                fields[i].0,
                field,
            ),
    ensures
        r matches Ok(payload) ==> forall|v: JsonView| !#[trigger] payload@.contains((field, v)),
{
    lemma_payload_holds_the_fields(value, rules, category, r);
    lemma_where_a_field_goes(rules@, field);
    if let JsonView::Object(fields) = value@ {
        if let Ok(payload) = r {
            assert forall|v: JsonView| !#[trigger] payload@.contains((field, v)) by {
                if payload@.contains((field, v)) {
                    let i = choose|i: int| #[trigger]
                        is_last_under(fields, rules@, field, i) && fields[i].1 == v;
                    assert(is_stored_as(rules@, fields[i].0, field));
                    assert(fields[i].0 == field);
                }
            }
        }
    }
}

/// The payload of a record without rules of its own is its JSON, member by
/// member.
pub proof fn lemma_default_payload_is_the_record(
    value: JsonValue,
    r: Result<Payload, String>,
)
    requires
        call_ensures(Payload::from_value, (value,), r),
    ensures
        value@ matches JsonView::Object(fields) ==> (r matches Ok(payload) && payload@ == fields),
        value@ !is Object ==> r is Err,
{
}

/// Every item has its draft, at its place: the item's own category, description
/// and payload.
pub proof fn lemma_every_item_has_its_draft<I: VectorDatabaseItem>(
    items: &Vec<I>,
    r: Result<Vec<VectorPointDraft>, PointError>,
)
    requires
        call_ensures(<Vec<I> as VectorDatabase>::point_drafts, (items,), r),
    ensures
        r matches Ok(drafts) ==> drafts@.len() == items@.len() && forall|i: int|
            0 <= i < items@.len() ==> {
                &&& call_ensures(I::category, (&items@[i],), (#[trigger] drafts@[i]).category)
                &&& call_ensures(I::into_description, (&items@[i],), drafts@[i].description)
                &&& call_ensures(I::into_payload, (&items@[i],), Ok(drafts@[i].payload))
            },
        r matches Err(e) ==> exists|i: int|
            0 <= i < items@.len() && #[trigger] fails_at(items@, i, e),
{
    if let Ok(drafts) = r {
        assert forall|i: int| 0 <= i < items@.len() implies {
            &&& call_ensures(I::category, (&items@[i],), (#[trigger] drafts@[i]).category)
            &&& call_ensures(I::into_description, (&items@[i],), drafts@[i].description)
            &&& call_ensures(I::into_payload, (&items@[i],), Ok(drafts@[i].payload))
        } by {
            assert(crate::points::is_draft_of(items@[i], Ok(drafts@[i])));
        }
    }
    if let Err(e) = r {
        let drafts = choose|drafts: Seq<VectorPointDraft>| #[trigger]
            crate::points::are_drafts_of(items@, drafts) && drafts.len() < items@.len()
                && crate::points::is_draft_of(items@[drafts.len() as int], Err(e));
        assert(fails_at(items@, drafts.len() as int, e));
    }
}

/// Whether the payload of an item can't be built.
pub open spec fn fails_at<I: VectorDatabaseItem>(items: Seq<I>, i: int, e: PointError) -> bool {
    call_ensures(I::into_payload, (&items[i],), Err(e))
}

/// A description has its texts one below the other. An empty text changes
/// nothing; any other one is added whole, on a line of its own.
pub proof fn lemma_description_grows_by_a_text(
    texts: &Vec<String>,
    more: &Vec<String>,
    short: String,
    long: String,
)
    requires
        call_ensures(describe, (texts,), short),
        call_ensures(describe, (more,), long),
        more@.len() == texts@.len() + 1,
        more@.drop_last() == texts@,
    ensures
        more@.last()@.len() == 0 ==> long@ == short@,
        more@.last()@.len() > 0 ==> long@ == if short@.len() == 0 {
            more@.last()@
        } else {
            short@ + "\n"@ + more@.last()@
        },
{
    let all = views(more@);
    assert(all.drop_last() =~= views(texts@));
    assert(all.last() == more@.last()@);
    let kept = non_empty(views(texts@));
    crate::points::lemma_no_empty_lines(views(texts@));
    if all.last().len() > 0 {
        assert(non_empty(all) == kept.push(all.last()));
        lemma_joined_push(kept, all.last());
    }
}

/// A joined list with one more text.
proof fn lemma_joined_push(list: Seq<Seq<char>>, last: Seq<char>)
    requires
        forall|i: int| 0 <= i < list.len() ==> (#[trigger] list[i]).len() > 0,
    ensures
        joined(list.push(last), "\n"@) == if joined(list, "\n"@).len() == 0 {
            last
        } else {
            joined(list, "\n"@) + "\n"@ + last
        },
        list.len() > 0 ==> joined(list, "\n"@).len() > 0,
    decreases list.len(),
{
    let all = list.push(last);
    assert(all.drop_last() =~= list);
    if list.len() > 0 {
        assert(list[list.len() - 1].len() > 0);
        lemma_joined_push(list.drop_last(), list.last());
        assert(list.drop_last().push(list.last()) =~= list);
    }
}

/// No texts give no description.
pub proof fn lemma_no_texts_no_description(texts: &Vec<String>, r: String)
    requires
        call_ensures(describe, (texts,), r),
        texts@.len() == 0,
    ensures
        r@.len() == 0,
{
}

/// An absent field is left out of a description; one that is there reads as its
/// value does.
pub proof fn lemma_optional_description<T: IntoDescriptionValue>(field: &Option<T>, r: String)
    requires
        call_ensures(<Option<T> as IntoDescriptionValue>::into_description_value, (field,), r),
    ensures
        field is None ==> r@.len() == 0,
        field matches Some(inner) ==> call_ensures(T::into_description_value, (&inner,), r),
{
}

/// A text reads as it is.
pub proof fn lemma_text_description(field: &String, r: String)
    requires
        call_ensures(<String as IntoDescriptionValue>::into_description_value, (field,), r),
    ensures
        r@ == field@,
{
}

/// A list reads as the description of what its items read as.
pub proof fn lemma_list_description<T: IntoDescriptionValue>(
    field: &Vec<T>,
    r: String,
) -> (texts: Seq<String>)
    requires
        call_ensures(<Vec<T> as IntoDescriptionValue>::into_description_value, (field,), r),
    ensures
        texts.len() == field@.len(),
        forall|i: int|
            0 <= i < field@.len() ==> call_ensures(
                T::into_description_value,
                (&field@[i],),
                #[trigger] texts[i],
            ),
        forall|list: &Vec<String>, d: String|
            list@ == texts && #[trigger] call_ensures(describe, (list,), d) ==> d@ == r@,
{
    let texts = choose|texts: Seq<String>|
        texts.len() == field@.len() && (forall|i: int|
            0 <= i < field@.len() ==> call_ensures(
                T::into_description_value,
                (&field@[i],),
                #[trigger] texts[i],
            )) && r@ == description_lines(#[trigger] views(texts));
    texts
}

/// Whether a draft stands in the group of its category.
pub open spec fn is_in_its_group(groups: Seq<CategoryGroup>, draft: VectorPointDraft) -> bool {
    exists|i: int|
        0 <= i < groups.len() && (#[trigger] groups[i]).category@ == draft.category@
            && groups[i].drafts@.contains(draft)
}

/// Every draft stands in the group of its category, and a group has the drafts
/// of its category and no others, in the order they had. There is one group per
/// category, in order.
pub proof fn lemma_groups_hold_the_drafts(
    drafts: Vec<VectorPointDraft>,
    groups: Vec<CategoryGroup>,
)
    requires
        call_ensures(group_by_category, (drafts,), groups),
    ensures
        forall|k: int| 0 <= k < drafts@.len() ==> #[trigger] is_in_its_group(groups@, drafts@[k]),
        forall|i: int|
            0 <= i < groups@.len() ==> (#[trigger] groups@[i]).drafts@ == drafts@.filter(
                |draft: VectorPointDraft| draft.category@ == groups@[i].category@,
            ) && groups@[i].drafts@.len() > 0,
        forall|i: int, j: int|
            0 <= i < j < groups@.len() ==> precedes_text(
                (#[trigger] groups@[i]).category@,
                (#[trigger] groups@[j]).category@,
            ),
{
    assert forall|k: int| 0 <= k < drafts@.len() implies #[trigger] is_in_its_group(
        groups@,
        drafts@[k],
    ) by {
        assert(has_group(groups@, drafts@[k].category@));
        let i = choose|i: int|
            0 <= i < groups@.len() && (#[trigger] groups@[i]).category@ == drafts@[k].category@;
        let keep = |draft: VectorPointDraft| draft.category@ == groups@[i].category@;
        assert(crate::points::of_category(drafts@, groups@[i].category@) == drafts@.filter(keep));
        drafts@.lemma_filter_contains(keep, k);
    }
    assert forall|i: int| 0 <= i < groups@.len() implies (#[trigger] groups@[i]).drafts@
        == drafts@.filter(
        |draft: VectorPointDraft| draft.category@ == groups@[i].category@,
    ) && groups@[i].drafts@.len() > 0 by {
        assert(groups@[i].drafts@ == crate::points::of_category(drafts@, groups@[i].category@));
    }
}

/// A record's draft has its own category, its own description and its own
/// payload.
pub proof fn lemma_drafts_are_of_their_record<I: VectorDatabaseItem>(
    item: &I,
    r: Result<VectorPointDraft, PointError>,
)
    requires
        call_ensures(I::try_into_database_item, (item,), r),
    ensures
        r matches Ok(draft) ==> {
            &&& call_ensures(I::category, (item,), draft.category)
            &&& call_ensures(I::into_description, (item,), draft.description)
            &&& call_ensures(I::into_payload, (item,), Ok(draft.payload))
        },
        r matches Err(e) ==> call_ensures(I::into_payload, (item,), Err(e)),
{
}

/// Unsigned numbers are described by all of their digits.
pub proof fn lemma_unsigned_descriptions(
    a: &u8,
    b: &u16,
    c: &u32,
    d: &u64,
    e: &u128,
    f: &usize,
    n: u128,
    digits: String,
    r: String,
)
    requires
        call_ensures(to_decimal, (n,), digits),
        ({
            ||| *a == n && call_ensures(
                <u8 as IntoDescriptionValue>::into_description_value,
                (a,),
                r,
            )
            ||| *b == n && call_ensures(
                <u16 as IntoDescriptionValue>::into_description_value,
                (b,),
                r,
            )
            ||| *c == n && call_ensures(
                <u32 as IntoDescriptionValue>::into_description_value,
                (c,),
                r,
            )
            ||| *d == n && call_ensures(
                <u64 as IntoDescriptionValue>::into_description_value,
                (d,),
                r,
            )
            ||| *e == n && call_ensures(
                <u128 as IntoDescriptionValue>::into_description_value,
                (e,),
                r,
            )
            ||| *f == n && call_ensures(
                <usize as IntoDescriptionValue>::into_description_value,
                (f,),
                r,
            )
        }),
    ensures
        r@ == digits@,
{
}

/// Signed numbers are described by their sign and all of their digits.
pub proof fn lemma_signed_descriptions(
    a: &i8,
    b: &i16,
    c: &i32,
    d: &i64,
    e: &i128,
    f: &isize,
    n: i128,
    digits: String,
    r: String,
)
    requires
        call_ensures(to_signed_decimal, (n,), digits),
        ({
            ||| *a == n && call_ensures(
                <i8 as IntoDescriptionValue>::into_description_value,
                (a,),
                r,
            )
            ||| *b == n && call_ensures(
                <i16 as IntoDescriptionValue>::into_description_value,
                (b,),
                r,
            )
            ||| *c == n && call_ensures(
                <i32 as IntoDescriptionValue>::into_description_value,
                (c,),
                r,
            )
            ||| *d == n && call_ensures(
                <i64 as IntoDescriptionValue>::into_description_value,
                (d,),
                r,
            )
            ||| *e == n && call_ensures(
                <i128 as IntoDescriptionValue>::into_description_value,
                (e,),
                r,
            )
            ||| *f == n && call_ensures(
                <isize as IntoDescriptionValue>::into_description_value,
                (f,),
                r,
            )
        }),
    ensures
        r@ == digits@,
{
}

/// A record without rules of its own is stored as its JSON, member by member;
/// one that isn't an object, or that can't be serialized, isn't stored, and the
/// serializer's message is kept.
pub proof fn lemma_records_are_stored_as_json(
    value: Result<JsonValue, String>,
    r: Result<Payload, PointError>,
)
    requires
        crate::points::is_payload_of(crate::json::parse_view(value), r),
    ensures
        value matches Ok(json) ==> (json@ matches JsonView::Object(fields) ==> (r matches Ok(payload)
            && payload@ == fields)) && (!(json@ is Object) ==> (r matches Err(e) && e is Payload)),
        value matches Err(why) ==> (r matches Err(PointError::Serialize(message)) && message@
            == why@),
{
}

/// The text of a point's error is its message.
pub proof fn lemma_point_errors_tell_why(e: &PointError, r: String)
    requires
        call_ensures(PointError::display, (e,), r),
    ensures
        e matches PointError::Serialize(message) ==> r@ == message@,
        e matches PointError::Payload(message) ==> r@ == message@,
{
}

} // verus!
