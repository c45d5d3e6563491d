//! Turn typed records into vector points.
//!
//! A [`VectorDatabaseItem`] is a record that becomes one point: a category, a
//! text description to embed, and a [`Payload`] to store next to the vector. A
//! [`VectorDatabase`] holds items and lists all of their points at once. Both
//! produce [`VectorPointDraft`]s.

use crate::db::payload::{Payload, NOT_AN_OBJECT_MESSAGE};
use crate::json::{
    in_name_order, lemma_member_is_set, parse_view, with_member, JsonValue, JsonView,
};
use crate::text::lines::{join, joined, lemma_views_push, views};
use crate::text::number::{decimal, signed_decimal, to_decimal, to_signed_decimal};
use crate::text::order::{lemma_order_is_transitive, lemma_texts_ordered, precedes, precedes_text};
use crate::text::{option_view, same_text};
use vstd::prelude::*;
use vstd::string::*;

verus! {

/// Why a record's point couldn't be built.
#[derive(Debug)]
pub enum PointError {
    /// The record couldn't be serialized as JSON.
    Serialize(String),
    /// The record doesn't serialize to a JSON object.
    Payload(String),
}

impl PointError {
    /// The message.
    pub open spec fn message_view(self) -> Seq<char> {
        match self {
            PointError::Serialize(message) => message@,
            PointError::Payload(message) => message@,
        }
    }

    /// The text of this error.
    pub fn display(&self) -> (r: String)
        ensures
            r@ == self.message_view(),
    {
        match self {
            PointError::Serialize(message) => message.clone(),
            PointError::Payload(message) => message.clone(),
        }
    }
}

/// A vector point before embedding: what to embed and what to store with it.
#[derive(Debug)]
pub struct VectorPointDraft {
    /// The kind of record, from [`VectorDatabaseItem::category`].
    pub category: String,
    /// The text to embed.
    pub description: String,
    /// The data stored next to the vector.
    pub payload: Payload,
}

impl VectorPointDraft {
    /// Creates a draft from its parts.
    pub fn new(category: String, description: String, payload: Payload) -> (r: VectorPointDraft)
        ensures
            r == (VectorPointDraft { category, description, payload }),
    {
        VectorPointDraft { category, description, payload }
    }
}

/// Whether `r` is the payload of a record that serializes as `value`.
pub open spec fn is_payload_of(
    value: Result<JsonView, Seq<char>>,
    r: Result<Payload, PointError>,
) -> bool {
    match value {
        Ok(JsonView::Object(members)) => r matches Ok(payload) && payload@ == members,
        Ok(_) => r matches Err(e) && e is Payload && e.message_view() == NOT_AN_OBJECT_MESSAGE@,
        Err(message) => r matches Err(e) && e is Serialize && e.message_view() == message,
    }
}

/// A record that becomes one vector point.
pub trait VectorDatabaseItem: Sized {
    /// The kind of record, used to group or filter points.
    fn category(&self) -> String;

    /// The text to embed for this record.
    fn into_description(&self) -> String;

    /// The record serialized as JSON, or why it can't be.
    fn to_value(&self) -> Result<JsonValue, String>;

    /// The data stored next to the vector. Defaults to the record's JSON,
    /// which must be an object.
    fn into_payload(&self) -> (r: Result<Payload, PointError>)
        default_ensures
            exists|value: Result<JsonValue, String>|
                call_ensures(Self::to_value, (self,), value) && #[trigger] is_payload_of(
                    parse_view(value),
                    r,
                ),
    {
        let value = self.to_value();
        let ghost given = value;
        let r = match value {
            Ok(value) => match Payload::from_value(value) {
                Ok(payload) => Ok(payload),
                Err(message) => Err(PointError::Payload(message)),
            },
            Err(message) => Err(PointError::Serialize(message)),
        };
        proof {
            assert(is_payload_of(parse_view(given), r));
        }
        r
    }

    /// Builds this record's [`VectorPointDraft`]: its category, its
    /// description and its payload, or the error of the payload.
    fn try_into_database_item(&self) -> (r: Result<VectorPointDraft, PointError>)
        ensures
            match r {
                Ok(draft) => call_ensures(Self::category, (self,), draft.category) && call_ensures(
                    Self::into_description,
                    (self,),
                    draft.description,
                ) && call_ensures(Self::into_payload, (self,), Ok(draft.payload)),
                Err(e) => call_ensures(Self::into_payload, (self,), Err(e)),
            },
    {
        match self.into_payload() {
            Ok(payload) => {
                let category = self.category();
                let description = self.into_description();
                Ok(VectorPointDraft { category, description, payload })
            },
            Err(e) => Err(e),
        }
    }
}

/// Whether `r` can be the draft of an item.
pub open spec fn is_draft_of<I: VectorDatabaseItem>(
    item: I,
    r: Result<VectorPointDraft, PointError>,
) -> bool {
    match r {
        Ok(draft) => call_ensures(I::category, (&item,), draft.category) && call_ensures(
            I::into_description,
            (&item,),
            draft.description,
        ) && call_ensures(I::into_payload, (&item,), Ok(draft.payload)),
        Err(e) => call_ensures(I::into_payload, (&item,), Err(e)),
    }
}

/// Whether `drafts` can be the drafts of the first items.
pub open spec fn are_drafts_of<I: VectorDatabaseItem>(
    items: Seq<I>,
    drafts: Seq<VectorPointDraft>,
) -> bool {
    &&& drafts.len() <= items.len()
    &&& forall|i: int|
        0 <= i < drafts.len() ==> is_draft_of(items[i], Ok(#[trigger] drafts[i]))
}

/// Whether an error is that of an item whose predecessors have their drafts.
pub open spec fn stops_with<I: VectorDatabaseItem>(items: Seq<I>, e: PointError) -> bool {
    exists|drafts: Seq<VectorPointDraft>| #[trigger]
        are_drafts_of(items, drafts) && drafts.len() < items.len() && is_draft_of(
            items[drafts.len() as int],
            Err(e),
        )
}

/// A container of [`VectorDatabaseItem`]s that lists all of their points.
pub trait VectorDatabase {
    /// One draft per item, in field order, or the error of the first item whose
    /// payload can't be built.
    fn point_drafts(&self) -> Result<Vec<VectorPointDraft>, PointError>;
}

impl<I: VectorDatabaseItem> VectorDatabase for Vec<I> {
    fn point_drafts(&self) -> (r: Result<Vec<VectorPointDraft>, PointError>)
        ensures
            match r {
                Ok(drafts) => drafts@.len() == self@.len() && are_drafts_of(self@, drafts@),
                Err(e) => stops_with(self@, e),
            },
    {
        let mut drafts: Vec<VectorPointDraft> = Vec::new();
        let mut i: usize = 0;
        while i < self.len()
            invariant
                i <= self@.len(),
                drafts@.len() == i,
                are_drafts_of(self@, drafts@),
            decreases self@.len() - i,
        {
            match self[i].try_into_database_item() {
                Ok(draft) => drafts.push(draft),
                Err(e) => {
                    proof {
                        assert(are_drafts_of(self@, drafts@));
                    }
                    return Err(e);
                },
            }
            i += 1;
        }
        Ok(drafts)
    }
}

/// Renders a field as text for a description.
pub trait IntoDescriptionValue {
    /// The text for this value. An empty string leaves the field out of the
    /// description.
    fn into_description_value(&self) -> String;
}

/// The texts that aren't empty, in order.
pub open spec fn non_empty(texts: Seq<Seq<char>>) -> Seq<Seq<char>>
    decreases texts.len(),
{
    if texts.len() == 0 {
        Seq::empty()
    } else {
        let rest = non_empty(texts.drop_last());
        if texts.last().len() == 0 {
            rest
        } else {
            rest.push(texts.last())
        }
    }
}

/// One line per text that isn't empty.
pub open spec fn description_lines(texts: Seq<Seq<char>>) -> Seq<char> {
    joined(non_empty(texts), "\n"@)
}

/// The description made of the texts of a record's description fields: one
/// line per text that isn't empty.
pub fn describe(texts: &Vec<String>) -> (r: String)
    ensures
        r@ == description_lines(views(texts@)),
{
    let ghost all = views(texts@);
    let mut kept: Vec<String> = Vec::new();
    let mut i: usize = 0;
    proof {
        assert(all.take(0) =~= Seq::empty());
        assert(views(kept@) =~= Seq::empty());
    }
    while i < texts.len()
        invariant
            i <= texts@.len(),
            all == views(texts@),
            views(kept@) == non_empty(all.take(i as int)),
        decreases texts@.len() - i,
    {
        proof {
            assert(all.take(i + 1).drop_last() =~= all.take(i as int));
            assert(all.take(i + 1).last() == texts@[i as int]@);
        }
        if !texts[i].as_str().is_empty() {
            let text = texts[i].clone();
            proof {
                lemma_views_push(kept@, text);
            }
            kept.push(text);
        }
        i += 1;
    }
    proof {
        assert(all.take(all.len() as int) =~= all);
    }
    join(&kept, "\n")
}

/// Nothing empty is left among the lines of a description.
pub proof fn lemma_no_empty_lines(texts: Seq<Seq<char>>)
    ensures
        forall|i: int|
            0 <= i < non_empty(texts).len() ==> (#[trigger] non_empty(texts)[i]).len() > 0,
    decreases texts.len(),
{
    if texts.len() > 0 {
        let rest = non_empty(texts.drop_last());
        lemma_no_empty_lines(texts.drop_last());
        assert forall|i: int| 0 <= i < non_empty(texts).len() implies (#[trigger] non_empty(
            texts,
        )[i]).len() > 0 by {
            if i < rest.len() {
                assert(non_empty(texts)[i] == rest[i]);
            }
        }
    }
}

impl IntoDescriptionValue for String {
    fn into_description_value(&self) -> (r: String)
        ensures
            r@ == self@,
    {
        self.clone()
    }
}

impl<T: IntoDescriptionValue> IntoDescriptionValue for Option<T> {
    fn into_description_value(&self) -> (r: String)
        ensures
            match self {
                Some(inner) => call_ensures(T::into_description_value, (inner,), r),
                None => r@.len() == 0,
            },
    {
        match self {
            Some(inner) => inner.into_description_value(),
            None => String::new(),
        }
    }
}

impl<T: IntoDescriptionValue> IntoDescriptionValue for Vec<T> {
    fn into_description_value(&self) -> (r: String)
        ensures
            exists|texts: Seq<String>|
                texts.len() == self@.len() && (forall|i: int|
                    0 <= i < self@.len() ==> call_ensures(
                        T::into_description_value,
                        (&self@[i],),
                        #[trigger] texts[i],
                    )) && r@ == description_lines(#[trigger] views(texts)),
    {
        let mut texts: Vec<String> = Vec::new();
        let mut i: usize = 0;
        while i < self.len()
            invariant
                i <= self@.len(),
                texts@.len() == i,
                forall|j: int|
                    0 <= j < i ==> call_ensures(
                        T::into_description_value,
                        (&self@[j],),
                        #[trigger] texts@[j],
                    ),
            decreases self@.len() - i,
        {
            texts.push(self[i].into_description_value());
            i += 1;
        }
        describe(&texts)
    }
}

impl IntoDescriptionValue for u8 {
    fn into_description_value(&self) -> (r: String)
        ensures
            r@ == decimal(*self as nat),
    {
        to_decimal(*self as u128)
    }
}

impl IntoDescriptionValue for u16 {
    fn into_description_value(&self) -> (r: String)
        ensures
            r@ == decimal(*self as nat),
    {
        to_decimal(*self as u128)
    }
}

impl IntoDescriptionValue for u32 {
    fn into_description_value(&self) -> (r: String)
        ensures
            r@ == decimal(*self as nat),
    {
        to_decimal(*self as u128)
    }
}

impl IntoDescriptionValue for u64 {
    fn into_description_value(&self) -> (r: String)
        ensures
            r@ == decimal(*self as nat),
    {
        to_decimal(*self as u128)
    }
}

impl IntoDescriptionValue for u128 {
    fn into_description_value(&self) -> (r: String)
        ensures
            r@ == decimal(*self as nat),
    {
        to_decimal(*self as u128)
    }
}

impl IntoDescriptionValue for usize {
    fn into_description_value(&self) -> (r: String)
        ensures
            r@ == decimal(*self as nat),
    {
        to_decimal(*self as u128)
    }
}

impl IntoDescriptionValue for i8 {
    fn into_description_value(&self) -> (r: String)
        ensures
            r@ == signed_decimal(*self as int),
    {
        to_signed_decimal(*self as i128)
    }
}

impl IntoDescriptionValue for i16 {
    fn into_description_value(&self) -> (r: String)
        ensures
            r@ == signed_decimal(*self as int),
    {
        to_signed_decimal(*self as i128)
    }
}

impl IntoDescriptionValue for i32 {
    fn into_description_value(&self) -> (r: String)
        ensures
            r@ == signed_decimal(*self as int),
    {
        to_signed_decimal(*self as i128)
    }
}

impl IntoDescriptionValue for i64 {
    fn into_description_value(&self) -> (r: String)
        ensures
            r@ == signed_decimal(*self as int),
    {
        to_signed_decimal(*self as i128)
    }
}

impl IntoDescriptionValue for i128 {
    fn into_description_value(&self) -> (r: String)
        ensures
            r@ == signed_decimal(*self as int),
    {
        to_signed_decimal(*self as i128)
    }
}

impl IntoDescriptionValue for isize {
    fn into_description_value(&self) -> (r: String)
        ensures
            r@ == signed_decimal(*self as int),
    {
        to_signed_decimal(*self as i128)
    }
}

/// What becomes of a field in the payload of its record. Fields without a rule
/// are stored under their own names.
#[derive(Debug, Clone)]
pub struct FieldRule {
    /// The field.
    pub field: String,
    /// The key it is stored under instead; `None` leaves it out.
    pub rename: Option<String>,
}

/// The key that the first rule for a field gives it, or that it is left out, if
/// there is a rule.
pub open spec fn rule_of(rules: Seq<FieldRule>, field: Seq<char>) -> Option<Option<Seq<char>>>
    decreases rules.len(),
{
    if rules.len() == 0 {
        None
    } else if rules[0].field@ == field {
        Some(option_view(rules[0].rename))
    } else {
        rule_of(rules.drop_first(), field)
    }
}

/// The fields of a record by the keys that they are stored under.
pub open spec fn stored_members(
    members: Seq<(Seq<char>, JsonView)>,
    rules: Seq<FieldRule>,
) -> Seq<(Seq<char>, JsonView)>
    decreases members.len(),
{
    if members.len() == 0 {
        Seq::empty()
    } else {
        let rest = stored_members(members.drop_last(), rules);
        let (name, value) = members.last();
        match rule_of(rules, name) {
            None => with_member(rest, name, value),
            Some(Some(key)) => with_member(rest, key, value),
            Some(None) => rest,
        }
    }
}

/// The members of the payload of a record: its fields by their rules, and its
/// category.
pub open spec fn item_members(
    members: Seq<(Seq<char>, JsonView)>,
    rules: Seq<FieldRule>,
    category: Seq<char>,
) -> Seq<(Seq<char>, JsonView)> {
    with_member(stored_members(members, rules), "category"@, JsonView::Text(category))
}

/// The first rule for a field.
fn find_rule<'a>(rules: &'a Vec<FieldRule>, field: &str) -> (r: Option<&'a FieldRule>)
    ensures
        match r {
            Some(rule) => rule_of(rules@, field@) == Some(option_view(rule.rename)),
            None => rule_of(rules@, field@) is None,
        },
{
    let mut i: usize = 0;
    proof {
        assert(rules@.skip(0) =~= rules@);
    }
    while i < rules.len()
        invariant
            i <= rules@.len(),
            rule_of(rules@.skip(i as int), field@) == rule_of(rules@, field@),
        decreases rules@.len() - i,
    {
        proof {
            assert(rules@.skip(i as int).drop_first() =~= rules@.skip(i + 1));
        }
        if same_text(rules[i].field.as_str(), field) {
            return Some(&rules[i]);
        }
        i += 1;
    }
    None
}

/// The payload of a record that serializes as `value`: the fields that the
/// rules don't leave out, under their new keys, and the category. The value
/// must be an object.
pub fn item_payload(value: JsonValue, rules: &Vec<FieldRule>, category: &str) -> (r: Result<
    Payload,
    PointError,
>)
    ensures
        match value@ {
            JsonView::Object(members) => r matches Ok(payload) && payload@ == item_members(
                members,
                rules@,
                category@,
            ),
            _ => r matches Err(e) && e is Payload && e.message_view() == NOT_AN_OBJECT_MESSAGE@,
        },
{
    let fields = match Payload::from_value(value) {
        Ok(fields) => fields,
        Err(message) => {
            return Err(PointError::Payload(message));
        },
    };
    let ghost all = fields@;
    let mut payload = Payload { members: Vec::new() };
    let mut i: usize = 0;
    proof {
        assert(all.take(0) =~= Seq::empty());
        assert(payload@ =~= Seq::empty());
    }
    while i < fields.members.len()
        invariant
            i <= fields.members@.len(),
            all == fields@,
            payload@ == stored_members(all.take(i as int), rules@),
        decreases fields.members@.len() - i,
    {
        proof {
            assert(all.take(i + 1).drop_last() =~= all.take(i as int));
            assert(all.take(i + 1).last() == (
                fields.members@[i as int].0@,
                fields.members@[i as int].1@,
            ));
        }
        let name = fields.members[i].0.as_str();
        match find_rule(rules, name) {
            None => payload.insert(name, fields.members[i].1.copy()),
            Some(rule) => match &rule.rename {
                Some(key) => payload.insert(key.as_str(), fields.members[i].1.copy()),
                None => {},
            },
        }
        i += 1;
    }
    proof {
        assert(all.take(all.len() as int) =~= all);
    }
    payload.insert("category", JsonValue::string(category));
    Ok(payload)
}

/// Whether some rule stores a field under a key.
pub open spec fn is_rename_target(rules: Seq<FieldRule>, key: Seq<char>) -> bool {
    exists|i: int| 0 <= i < rules.len() && option_view((#[trigger] rules[i]).rename) == Some(key)
}

/// A rule that is found is one of the rules.
proof fn lemma_rule_is_there(rules: Seq<FieldRule>, field: Seq<char>)
    ensures
        rule_of(rules, field) matches Some(Some(key)) ==> is_rename_target(rules, key),
    decreases rules.len(),
{
    if rules.len() > 0 {
        let rest = rules.drop_first();
        lemma_rule_is_there(rest, field);
        if rules[0].field@ != field {
            if let Some(Some(key)) = rule_of(rules, field) {
                let i = choose|i: int|
                    0 <= i < rest.len() && option_view((#[trigger] rest[i]).rename) == Some(key);
                assert(rules[i + 1] == rest[i]);
            }
        } else {
            assert(option_view(rules[0].rename) == rule_of(rules, field)->0);
        }
    }
}

/// The stored fields stand in the order of their keys, and a field that is left
/// out is not among them.
proof fn lemma_stored_members(
    members: Seq<(Seq<char>, JsonView)>,
    rules: Seq<FieldRule>,
    field: Seq<char>,
)
    ensures
        in_name_order(stored_members(members, rules)),
        rule_of(rules, field) == Some(None::<Seq<char>>) && !is_rename_target(rules, field)
            ==> forall|v: JsonView| !stored_members(members, rules).contains((field, v)),
    decreases members.len(),
{
    if members.len() > 0 {
        let rest = stored_members(members.drop_last(), rules);
        let (name, value) = members.last();
        lemma_stored_members(members.drop_last(), rules, field);
        lemma_rule_is_there(rules, name);
        match rule_of(rules, name) {
            None => lemma_member_is_set(rest, name, value),
            Some(Some(key)) => lemma_member_is_set(rest, key, value),
            Some(None) => {},
        }
    }
}

/// A field that the rules leave out never reaches the payload, unless another
/// field or the category takes its key.
pub proof fn lemma_skipped_fields_stay_out(
    members: Seq<(Seq<char>, JsonView)>,
    rules: Seq<FieldRule>,
    category: Seq<char>,
    field: Seq<char>,
)
    requires
        rule_of(rules, field) == Some(None::<Seq<char>>),
        !is_rename_target(rules, field),
        field != "category"@,
    ensures
        forall|v: JsonView| !item_members(members, rules, category).contains((field, v)),
{
    lemma_stored_members(members, rules, field);
    lemma_member_is_set(stored_members(members, rules), "category"@, JsonView::Text(category));
}

/// Every payload holds its category, and its keys stand in order, none twice.
pub proof fn lemma_payloads_hold_their_category(
    members: Seq<(Seq<char>, JsonView)>,
    rules: Seq<FieldRule>,
    category: Seq<char>,
)
    ensures
        in_name_order(item_members(members, rules, category)),
        item_members(members, rules, category).contains(
            ("category"@, JsonView::Text(category)),
        ),
{
    lemma_stored_members(members, rules, Seq::empty());
    lemma_member_is_set(stored_members(members, rules), "category"@, JsonView::Text(category));
}

/// Drafts of one category.
#[derive(Debug)]
pub struct CategoryGroup {
    /// The category.
    pub category: String,
    /// Its drafts.
    pub drafts: Vec<VectorPointDraft>,
}

/// The drafts of a category, in order.
pub open spec fn of_category(drafts: Seq<VectorPointDraft>, category: Seq<char>) -> Seq<
    VectorPointDraft,
> {
    drafts.filter(|draft: VectorPointDraft| draft.category@ == category)
}

/// Whether `groups` are `drafts` by category: one group per category, in the
/// order of the categories, each with its drafts in the order they had.
pub open spec fn is_grouped(drafts: Seq<VectorPointDraft>, groups: Seq<CategoryGroup>) -> bool {
    &&& forall|i: int, j: int|
        0 <= i < j < groups.len() ==> precedes_text(
            (#[trigger] groups[i]).category@,
            (#[trigger] groups[j]).category@,
        )
    &&& forall|i: int|
        0 <= i < groups.len() ==> (#[trigger] groups[i]).drafts@ == of_category(
            drafts,
            groups[i].category@,
        ) && groups[i].drafts@.len() > 0
    &&& forall|k: int| 0 <= k < drafts.len() ==> #[trigger] has_group(groups, drafts[k].category@)
}

/// Whether a category has a group.
pub open spec fn has_group(groups: Seq<CategoryGroup>, category: Seq<char>) -> bool {
    exists|i: int| 0 <= i < groups.len() && (#[trigger] groups[i]).category@ == category
}

/// Adding a draft to its group keeps the others.
proof fn lemma_grouped_push(
    drafts: Seq<VectorPointDraft>,
    draft: VectorPointDraft,
    groups: Seq<CategoryGroup>,
    after: Seq<CategoryGroup>,
    at: int,
)
    requires
        is_grouped(drafts, groups),
        0 <= at < after.len(),
        after[at].category@ == draft.category@,
        ({
            ||| at < groups.len() && groups[at].category@ == draft.category@ && after.len()
                == groups.len() && after[at].drafts@ == groups[at].drafts@.push(draft) && forall|
                i: int,
            |
                0 <= i < groups.len() && i != at ==> #[trigger] after[i] == groups[i]
            ||| after == groups.insert(at, after[at]) && at <= groups.len() && after[at].drafts@
                == seq![draft] && (forall|i: int|
                0 <= i < at ==> precedes_text((#[trigger] groups[i]).category@, draft.category@))
                && (forall|i: int|
                at <= i < groups.len() ==> precedes_text(
                    draft.category@,
                    (#[trigger] groups[i]).category@,
                ))
        }),
    ensures
        is_grouped(drafts.push(draft), after),
{
    let all = drafts.push(draft);
    let c = draft.category@;
    assert(all.drop_last() =~= drafts);
    assert forall|category: Seq<char>| #[trigger] of_category(all, category) == if category == c {
        of_category(drafts, category).push(draft)
    } else {
        of_category(drafts, category)
    } by {
        reveal(Seq::filter);
    }
    let grew = at < groups.len() && groups[at].category@ == c && after.len() == groups.len();
    if grew {
        assert forall|i: int, j: int| 0 <= i < j < after.len() implies precedes_text(
            (#[trigger] after[i]).category@,
            (#[trigger] after[j]).category@,
        ) by {
            assert(after[i].category@ == groups[i].category@);
            assert(after[j].category@ == groups[j].category@);
        }
        assert forall|i: int| 0 <= i < after.len() implies (#[trigger] after[i]).drafts@
            == of_category(all, after[i].category@) && after[i].drafts@.len() > 0 by {
            assert(groups[i].drafts@ == of_category(drafts, groups[i].category@));
            if i != at {
                if i < at {
                    lemma_texts_ordered(groups[i].category@, groups[at].category@);
                } else {
                    lemma_texts_ordered(groups[at].category@, groups[i].category@);
                }
            }
        }
        assert forall|k: int| 0 <= k < all.len() implies #[trigger] has_group(
            after,
            all[k].category@,
        ) by {
            if k < drafts.len() {
                assert(has_group(groups, drafts[k].category@));
                let i = choose|i: int|
                    0 <= i < groups.len() && (#[trigger] groups[i]).category@
                        == drafts[k].category@;
                assert(after[i].category@ == groups[i].category@);
            } else {
                assert(after[at].category@ == c);
            }
        }
    } else {
        assert forall|i: int| 0 <= i < after.len() implies (#[trigger] after[i]) == if i < at {
            groups[i]
        } else if i == at {
            after[at]
        } else {
            groups[i - 1]
        } by {}
        assert forall|k: int| 0 <= k < drafts.len() implies (#[trigger] drafts[k]).category@ != c by {
            assert(has_group(groups, drafts[k].category@));
            let i = choose|i: int|
                0 <= i < groups.len() && (#[trigger] groups[i]).category@ == drafts[k].category@;
            if i < at {
                lemma_texts_ordered(groups[i].category@, c);
            } else {
                lemma_texts_ordered(c, groups[i].category@);
            }
        }
        lemma_none_of_category(drafts, c);
        assert forall|i: int, j: int| 0 <= i < j < after.len() implies precedes_text(
            (#[trigger] after[i]).category@,
            (#[trigger] after[j]).category@,
        ) by {
            if i < at && j < at {
                assert(precedes_text(groups[i].category@, groups[j].category@));
            } else if i < at && j == at {
                assert(precedes_text(groups[i].category@, c));
            } else if i < at {
                assert(precedes_text(groups[i].category@, groups[j - 1].category@));
            } else if i == at {
                assert(precedes_text(c, groups[j - 1].category@));
            } else {
                assert(precedes_text(groups[i - 1].category@, groups[j - 1].category@));
            }
        }
        assert forall|i: int| 0 <= i < after.len() implies (#[trigger] after[i]).drafts@
            == of_category(all, after[i].category@) && after[i].drafts@.len() > 0 by {
            if i == at {
                assert(of_category(drafts, c) =~= Seq::empty());
                assert(after[at].drafts@ =~= of_category(all, c));
            } else {
                let k = if i < at {
                    i
                } else {
                    i - 1
                };
                assert(after[i] == groups[k]);
                if i < at {
                    lemma_texts_ordered(groups[k].category@, c);
                } else {
                    lemma_texts_ordered(c, groups[k].category@);
                }
            }
        }
        assert forall|k: int| 0 <= k < all.len() implies #[trigger] has_group(
            after,
            all[k].category@,
        ) by {
            if k < drafts.len() {
                assert(has_group(groups, drafts[k].category@));
                let i = choose|i: int|
                    0 <= i < groups.len() && (#[trigger] groups[i]).category@
                        == drafts[k].category@;
                if i < at {
                    assert(after[i] == groups[i]);
                } else {
                    assert(after[i + 1] == groups[i]);
                }
            } else {
                assert(after[at].category@ == c);
            }
        }
    }
}

/// A category that no draft has, has no drafts.
proof fn lemma_none_of_category(drafts: Seq<VectorPointDraft>, category: Seq<char>)
    requires
        forall|k: int| 0 <= k < drafts.len() ==> (#[trigger] drafts[k]).category@ != category,
    ensures
        of_category(drafts, category).len() == 0,
    decreases drafts.len(),
{
    reveal(Seq::filter);
    if drafts.len() > 0 {
        assert(drafts[drafts.len() - 1].category@ != category);
        let rest = drafts.drop_last();
        assert forall|k: int| 0 <= k < rest.len() implies (#[trigger] rest[k]).category@
            != category by {
            assert(drafts[k].category@ != category);
        }
        lemma_none_of_category(rest, category);
    }
}

/// Groups drafts by category.
pub fn group_by_category(drafts: Vec<VectorPointDraft>) -> (groups: Vec<CategoryGroup>)
    ensures
        is_grouped(drafts@, groups@),
{
    let mut groups: Vec<CategoryGroup> = Vec::new();
    let ghost mut seen: Seq<VectorPointDraft> = Seq::empty();
    for draft in it: drafts
        invariant
            it.seq() == drafts@,
            seen == drafts@.take(it.index()),
            is_grouped(seen, groups@),
    {
        let ghost before = groups@;
        let ghost given = draft;
        let mut at: usize = 0;
        while at < groups.len() && precedes(
            groups[at].category.as_str(),
            draft.category.as_str(),
        )
            invariant
                at <= groups@.len(),
                forall|i: int|
                    0 <= i < at ==> precedes_text(
                        (#[trigger] groups@[i]).category@,
                        draft.category@,
                    ),
            decreases groups@.len() - at,
        {
            at += 1;
        }
        if at < groups.len() && same_text(groups[at].category.as_str(), draft.category.as_str()) {
            groups[at].drafts.push(draft);
        } else {
            proof {
                assert forall|i: int| at <= i < groups@.len() implies precedes_text(
                    draft.category@,
                    (#[trigger] groups@[i]).category@,
                ) by {
                    lemma_texts_ordered(groups@[at as int].category@, draft.category@);
                    if i > at {
                        lemma_order_is_transitive(
                            draft.category@,
                            groups@[at as int].category@,
                            groups@[i].category@,
                        );
                    }
                }
            }
            let category = draft.category.clone();
            let mut list: Vec<VectorPointDraft> = Vec::new();
            list.push(draft);
            groups.insert(at, CategoryGroup { category, drafts: list });
            proof {
                assert(groups@[at as int].drafts@ =~= seq![given]);
            }
        }
        proof {
            lemma_grouped_push(seen, given, before, groups@, at as int);
            seen = seen.push(given);
        }
    }
    proof {
        assert(drafts@.take(drafts@.len() as int) =~= drafts@);
    }
    groups
}

} // verus!
