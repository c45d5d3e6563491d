//! When the points of a portfolio pass.

use super::intake::lemma_blank;
use super::texts::all_white;
use crate::intake::debug_text;
use crate::json::{member_of, JsonView};
use crate::points::{CategoryGroup, VectorPointDraft};
use crate::portfolio::{
    draft_problems, expected_categories, field_problems, first_draft, group_of, group_problems,
    has_key, missing_categories, no_points, preflight, problems_of, skill_problems, unless,
};
use crate::text::lines::{join, views};
use crate::text::search::{ascii_lowered, has_part};
use vstd::prelude::*;
use vstd::string::*;

verus! {

/// Whether `i` is the first group of a category.
pub open spec fn is_first_group(groups: Seq<CategoryGroup>, category: Seq<char>, i: int) -> bool {
    &&& 0 <= i < groups.len()
    &&& groups[i].category@ == category
    &&& forall|j: int| 0 <= j < i ==> (#[trigger] groups[j]).category@ != category
}

/// Whether a draft is the first of its category.
pub open spec fn is_first_draft(
    groups: Seq<CategoryGroup>,
    category: Seq<char>,
    draft: VectorPointDraft,
) -> bool {
    exists|i: int| #[trigger]
        is_first_group(groups, category, i) && groups[i].drafts@.len() > 0 && groups[i].drafts@[0]
            == draft
}

/// Whether a payload has a key.
pub open spec fn has_member(payload: Seq<(Seq<char>, JsonView)>, key: Seq<char>) -> bool {
    exists|i: int| 0 <= i < payload.len() && (#[trigger] payload[i]).0 == key
}

/// Whether the first draft of a category has a key.
pub open spec fn first_has(
    groups: Seq<CategoryGroup>,
    category: Seq<char>,
    key: Seq<char>,
) -> bool {
    exists|draft: VectorPointDraft| #[trigger]
        is_first_draft(groups, category, draft) && has_member(draft.payload@, key)
}

/// Whether a category has a group.
pub open spec fn has_points(groups: Seq<CategoryGroup>, category: Seq<char>) -> bool {
    exists|i: int| 0 <= i < groups.len() && (#[trigger] groups[i]).category@ == category
}

/// Whether a draft has something to embed, and its category in its payload.
pub open spec fn is_usable(draft: VectorPointDraft) -> bool {
    !all_white(draft.description@) && has_member(draft.payload@, "category"@)
}

/// Whether a text is some text, a part and some more.
pub open spec fn mentions(text: Seq<char>, part: Seq<char>) -> bool {
    exists|i: int| 0 <= i && i + part.len() <= text.len() && #[trigger] is_at(text, part, i)
}

/// Whether a part stands at a position.
pub open spec fn is_at(text: Seq<char>, part: Seq<char>, i: int) -> bool {
    forall|j: int| 0 <= j < part.len() ==> text[i + j] == #[trigger] part[j]
}

/// Whether a text is another but for the case of ASCII letters, and has no
/// capitals.
pub open spec fn is_lower_of(lower: Seq<char>, text: Seq<char>) -> bool {
    &&& lower.len() == text.len()
    &&& forall|i: int|
        0 <= i < text.len() ==> if 'A' <= #[trigger] text[i] <= 'Z' {
            lower[i] as int == text[i] as int + 32
        } else {
            lower[i] == text[i]
        }
}

/// Whether a text mentions a part in any case.
pub open spec fn mentions_in_any_case(text: Seq<char>, part: Seq<char>) -> bool {
    exists|lower: Seq<char>| #[trigger] is_lower_of(lower, text) && mentions(lower, part)
}

/// Whether the points of a portfolio are as they should be: every category has
/// points, every draft is usable, fields that are left out are not there and
/// those that are renamed are, and the first skill is described by its name and
/// its level.
pub open spec fn is_sound(groups: Seq<CategoryGroup>) -> bool {
    &&& has_points(groups, "Contact"@) && has_points(groups, "Skill"@) && has_points(
        groups,
        "Position"@,
    ) && has_points(groups, "Project"@) && has_points(groups, "Publication"@) && has_points(
        groups,
        "Credential"@,
    ) && has_points(groups, "Interest"@)
    &&& forall|g: int, d: int|
        #![trigger groups[g].drafts@[d]]
        0 <= g < groups.len() && 0 <= d < groups[g].drafts@.len() ==> is_usable(
            groups[g].drafts@[d],
        )
    &&& !first_has(groups, "Contact"@, "phone"@)
    &&& !first_has(groups, "Skill"@, "internal_id"@)
    &&& first_has(groups, "Skill"@, "years"@)
    &&& !first_has(groups, "Skill"@, "years_of_experience"@)
    &&& first_has(groups, "Position"@, "role"@)
    &&& first_has(groups, "Project"@, "stack"@)
    &&& !first_has(groups, "Project"@, "private_notes"@)
    &&& first_has(groups, "Publication"@, "abstract"@)
    &&& first_has(groups, "Interest"@, "0"@) || exists|draft: VectorPointDraft| #[trigger]
        is_first_draft(groups, "Interest"@, draft) && draft.payload@.len() > 1
    &&& exists|draft: VectorPointDraft| #[trigger]
        is_first_draft(groups, "Skill"@, draft) && mentions(draft.description@, "Rust"@)
            && mentions_in_any_case(draft.description@, "expert"@)
}

/// A portfolio has no problems exactly when its points are as they should be.
pub proof fn lemma_sound_portfolios_pass(groups: &Vec<CategoryGroup>, problems: Vec<String>)
    requires
        call_ensures(preflight, (groups,), problems),
    ensures
        problems@.len() == 0 <==> is_sound(groups@),
{
    let all = groups@;
    assert(views(problems@).len() == problems@.len());
    assert(problems_of(all).len() == missing_categories(all, expected_categories()).len()
        + group_problems(all).len() + field_problems(all).len() + skill_problems(all).len());
    lemma_categories(all);
    lemma_groups(all);
    lemma_fields(all);
    lemma_skill(all);
}

/// The group of a category is its first.
proof fn lemma_group_of(groups: Seq<CategoryGroup>, category: Seq<char>)
    ensures
        match group_of(groups, category) {
            Some(group) => exists|i: int| #[trigger]
                is_first_group(groups, category, i) && groups[i] == group,
            None => !has_points(groups, category),
        },
    decreases groups.len(),
{
    if groups.len() > 0 {
        if groups[0].category@ == category {
            assert(is_first_group(groups, category, 0));
        } else {
            let rest = groups.drop_first();
            lemma_group_of(rest, category);
            match group_of(rest, category) {
                Some(group) => {
                    let i = choose|i: int| #[trigger]
                        is_first_group(rest, category, i) && rest[i] == group;
                    assert(rest[i] == groups[i + 1]);
                    assert forall|j: int| 0 <= j < i + 1 implies (#[trigger] groups[j]).category@
                        != category by {
                        if j > 0 {
                            assert(rest[j - 1] == groups[j]);
                        }
                    }
                    assert(is_first_group(groups, category, i + 1));
                },
                None => {
                    assert forall|i: int| 0 <= i < groups.len() implies (
                    #[trigger] groups[i]).category@ != category by {
                        if i > 0 {
                            assert(rest[i - 1] == groups[i]);
                        }
                    }
                },
            }
        }
    }
}

/// A category that is found has points.
proof fn lemma_has_points(groups: Seq<CategoryGroup>, category: Seq<char>)
    ensures
        has_points(groups, category) == (group_of(groups, category) is Some),
{
    lemma_group_of(groups, category);
    if let Some(group) = group_of(groups, category) {
        let i = choose|i: int| #[trigger]
            is_first_group(groups, category, i) && groups[i] == group;
        assert(groups[i].category@ == category);
    }
}

/// The first draft of a category.
proof fn lemma_first_draft(groups: Seq<CategoryGroup>, category: Seq<char>)
    ensures
        forall|draft: VectorPointDraft| #[trigger]
            is_first_draft(groups, category, draft) <==> first_draft(groups, category) == Some(
                draft,
            ),
{
    lemma_group_of(groups, category);
    assert forall|draft: VectorPointDraft| #[trigger]
        is_first_draft(groups, category, draft) <==> first_draft(groups, category) == Some(
            draft,
        ) by {
        if is_first_draft(groups, category, draft) {
            let i = choose|i: int| #[trigger]
                is_first_group(groups, category, i) && groups[i].drafts@.len() > 0
                    && groups[i].drafts@[0] == draft;
            assert(groups[i].category@ == category);
            assert(has_points(groups, category));
            let group = group_of(groups, category)->0;
            let k = choose|k: int| #[trigger]
                is_first_group(groups, category, k) && groups[k] == group;
            assert(i == k);
        }
        if first_draft(groups, category) == Some(draft) {
            let group = group_of(groups, category)->0;
            let k = choose|k: int| #[trigger]
                is_first_group(groups, category, k) && groups[k] == group;
            assert(is_first_group(groups, category, k));
        }
    }
}

/// A member is found exactly when it is there.
proof fn lemma_has_member(payload: Seq<(Seq<char>, JsonView)>, key: Seq<char>)
    ensures
        has_member(payload, key) == (member_of(key, payload) is Some),
{
    super::json::lemma_last_named(payload, key);
    if member_of(key, payload) is Some {
        let i = choose|i: int| #[trigger]
            super::json::is_last_named(payload, key, i) && payload[i].1 == member_of(
                key,
                payload,
            )->0;
        assert(payload[i].0 == key);
    }
}

/// The first draft of a category has a key.
proof fn lemma_first_has(groups: Seq<CategoryGroup>, category: Seq<char>, key: Seq<char>)
    ensures
        first_has(groups, category, key) == has_key(groups, category, key),
{
    lemma_first_draft(groups, category);
    if let Some(draft) = first_draft(groups, category) {
        assert(is_first_draft(groups, category, draft));
        lemma_has_member(draft.payload@, key);
    }
    if first_has(groups, category, key) {
        let draft = choose|draft: VectorPointDraft| #[trigger]
            is_first_draft(groups, category, draft) && has_member(draft.payload@, key);
        assert(first_draft(groups, category) == Some(draft));
    }
}

/// No category is missing.
proof fn lemma_categories(groups: Seq<CategoryGroup>)
    ensures
        missing_categories(groups, expected_categories()).len() == 0 <==> has_points(
            groups,
            "Contact"@,
        ) && has_points(groups, "Skill"@) && has_points(groups, "Position"@) && has_points(
            groups,
            "Project"@,
        ) && has_points(groups, "Publication"@) && has_points(groups, "Credential"@) && has_points(
            groups,
            "Interest"@,
        ),
{
    let names = expected_categories();
    assert(names.len() == 7);
    lemma_missing(groups, names);
    assert(names[0] == "Contact"@);
    assert(names[1] == "Skill"@);
    assert(names[2] == "Position"@);
    assert(names[3] == "Project"@);
    assert(names[4] == "Publication"@);
    assert(names[5] == "Credential"@);
    assert(names[6] == "Interest"@);
}

/// No name is missing.
proof fn lemma_missing(groups: Seq<CategoryGroup>, names: Seq<Seq<char>>)
    ensures
        missing_categories(groups, names).len() == 0 <==> forall|i: int|
            0 <= i < names.len() ==> has_points(groups, #[trigger] names[i]),
    decreases names.len(),
{
    if names.len() > 0 {
        let rest = names.drop_last();
        lemma_missing(groups, rest);
        lemma_has_points(groups, names.last());
        assert forall|i: int| 0 <= i < rest.len() implies #[trigger] rest[i] == names[i] by {}
        if missing_categories(groups, names).len() == 0 {
            assert forall|i: int| 0 <= i < names.len() implies has_points(
                groups,
                #[trigger] names[i],
            ) by {
                if i < rest.len() {
                    assert(has_points(groups, rest[i]));
                }
            }
        }
        if forall|i: int| 0 <= i < names.len() ==> has_points(groups, #[trigger] names[i]) {
            assert(has_points(groups, names[names.len() - 1]));
            assert forall|i: int| 0 <= i < rest.len() implies has_points(
                groups,
                #[trigger] rest[i],
            ) by {
                assert(has_points(groups, names[i]));
            }
        }
    }
}

/// Drafts have no problems exactly when all are usable.
proof fn lemma_drafts(category: Seq<char>, drafts: Seq<VectorPointDraft>)
    ensures
        draft_problems(category, drafts).len() == 0 <==> forall|d: int|
            0 <= d < drafts.len() ==> is_usable(#[trigger] drafts[d]),
    decreases drafts.len(),
{
    if drafts.len() > 0 {
        let rest = drafts.drop_last();
        let last = drafts.last();
        lemma_drafts(category, rest);
        lemma_blank(last.description@);
        lemma_has_member(last.payload@, "category"@);
        if draft_problems(category, drafts).len() == 0 {
            assert forall|d: int| 0 <= d < drafts.len() implies is_usable(#[trigger] drafts[d]) by {
                if d < rest.len() {
                    assert(is_usable(rest[d]));
                }
            }
        }
        if forall|d: int| 0 <= d < drafts.len() ==> is_usable(#[trigger] drafts[d]) {
            assert(is_usable(drafts[drafts.len() - 1]));
            assert forall|d: int| 0 <= d < rest.len() implies is_usable(#[trigger] rest[d]) by {
                assert(is_usable(drafts[d]));
            }
        }
    }
}

/// Whether all drafts of a group are usable.
pub open spec fn all_usable(group: CategoryGroup) -> bool {
    forall|d: int| 0 <= d < group.drafts@.len() ==> is_usable(#[trigger] group.drafts@[d])
}

/// Groups have no problems exactly when all of their drafts are usable.
proof fn lemma_groups(groups: Seq<CategoryGroup>)
    ensures
        group_problems(groups).len() == 0 <==> forall|g: int, d: int|
            #![trigger groups[g].drafts@[d]]
            0 <= g < groups.len() && 0 <= d < groups[g].drafts@.len() ==> is_usable(
                groups[g].drafts@[d],
            ),
{
    lemma_all_groups(groups);
    if group_problems(groups).len() == 0 {
        assert forall|g: int, d: int|
            #![trigger groups[g].drafts@[d]]
            0 <= g < groups.len() && 0 <= d < groups[g].drafts@.len() implies is_usable(
            groups[g].drafts@[d],
        ) by {
            assert(all_usable(groups[g]));
        }
    } else {
        let g = choose|g: int| 0 <= g < groups.len() && !all_usable(#[trigger] groups[g]);
        let d = choose|d: int|
            0 <= d < groups[g].drafts@.len() && !is_usable(#[trigger] groups[g].drafts@[d]);
        assert(!is_usable(groups[g].drafts@[d]));
    }
}

/// The same, group by group.
proof fn lemma_all_groups(groups: Seq<CategoryGroup>)
    ensures
        group_problems(groups).len() == 0 <==> forall|g: int|
            0 <= g < groups.len() ==> all_usable(#[trigger] groups[g]),
    decreases groups.len(),
{
    if groups.len() > 0 {
        let rest = groups.drop_last();
        lemma_all_groups(rest);
        lemma_drafts(groups.last().category@, groups.last().drafts@);
        if group_problems(groups).len() == 0 {
            assert forall|g: int| 0 <= g < groups.len() implies all_usable(
                #[trigger] groups[g],
            ) by {
                if g < rest.len() {
                    assert(all_usable(rest[g]));
                }
            }
        }
        if forall|g: int| 0 <= g < groups.len() ==> all_usable(#[trigger] groups[g]) {
            assert(all_usable(groups[groups.len() - 1]));
            assert forall|g: int| 0 <= g < rest.len() implies all_usable(#[trigger] rest[g]) by {
                assert(all_usable(groups[g]));
            }
        }
    }
}

/// No field is where it should not be.
proof fn lemma_fields(groups: Seq<CategoryGroup>)
    ensures
        field_problems(groups).len() == 0 <==> {
            &&& !first_has(groups, "Contact"@, "phone"@)
            &&& !first_has(groups, "Skill"@, "internal_id"@)
            &&& first_has(groups, "Skill"@, "years"@)
            &&& !first_has(groups, "Skill"@, "years_of_experience"@)
            &&& first_has(groups, "Position"@, "role"@)
            &&& first_has(groups, "Project"@, "stack"@)
            &&& !first_has(groups, "Project"@, "private_notes"@)
            &&& first_has(groups, "Publication"@, "abstract"@)
            &&& first_has(groups, "Interest"@, "0"@) || exists|draft: VectorPointDraft| #[trigger]
                is_first_draft(groups, "Interest"@, draft) && draft.payload@.len() > 1
        },
{
    lemma_first_has(groups, "Contact"@, "phone"@);
    lemma_first_has(groups, "Skill"@, "internal_id"@);
    lemma_first_has(groups, "Skill"@, "years"@);
    lemma_first_has(groups, "Skill"@, "years_of_experience"@);
    lemma_first_has(groups, "Position"@, "role"@);
    lemma_first_has(groups, "Project"@, "stack"@);
    lemma_first_has(groups, "Project"@, "private_notes"@);
    lemma_first_has(groups, "Publication"@, "abstract"@);
    lemma_first_has(groups, "Interest"@, "0"@);
    lemma_first_draft(groups, "Interest"@);
    if let Some(draft) = first_draft(groups, "Interest"@) {
        assert(is_first_draft(groups, "Interest"@, draft));
    }
}

/// The first skill is described by its name and its level.
proof fn lemma_skill(groups: Seq<CategoryGroup>)
    ensures
        skill_problems(groups).len() == 0 <==> exists|draft: VectorPointDraft| #[trigger]
            is_first_draft(groups, "Skill"@, draft) && mentions(draft.description@, "Rust"@)
                && mentions_in_any_case(draft.description@, "expert"@),
{
    lemma_first_draft(groups, "Skill"@);
    if let Some(draft) = first_draft(groups, "Skill"@) {
        let text = draft.description@;
        assert(is_first_draft(groups, "Skill"@, draft));
        lemma_mentions(text, "Rust"@);
        lemma_lowered(text);
        lemma_mentions(ascii_lowered(text), "expert"@);
        if mentions_in_any_case(text, "expert"@) {
            let lower = choose|lower: Seq<char>| #[trigger]
                is_lower_of(lower, text) && mentions(lower, "expert"@);
            assert forall|i: int| 0 <= i < text.len() implies lower[i] == ascii_lowered(
                text,
            )[i] by {
                lemma_same_char(text[i], lower[i], ascii_lowered(text)[i]);
            }
            assert(lower =~= ascii_lowered(text));
        }
    }
}

/// A part is found exactly when it is there.
proof fn lemma_mentions(text: Seq<char>, part: Seq<char>)
    ensures
        mentions(text, part) == has_part(text, part),
{
    if mentions(text, part) {
        let i = choose|i: int|
            0 <= i && i + part.len() <= text.len() && #[trigger] is_at(text, part, i);
        assert(text.subrange(i, i + part.len()) =~= part);
    }
    if has_part(text, part) {
        let i = choose|i: int|
            0 <= i <= text.len() - part.len() && #[trigger] text.subrange(i, i + part.len())
                == part;
        assert forall|j: int| 0 <= j < part.len() implies text[i + j] == #[trigger] part[j] by {
            assert(text.subrange(i, i + part.len())[j] == text[i + j]);
        }
        assert(is_at(text, part, i));
    }
}

/// The lowered text is the text in lower case.
proof fn lemma_lowered(text: Seq<char>)
    ensures
        is_lower_of(ascii_lowered(text), text),
{
    assert forall|i: int| 0 <= i < text.len() implies if 'A' <= #[trigger] text[i] <= 'Z' {
        ascii_lowered(text)[i] as int == text[i] as int + 32
    } else {
        ascii_lowered(text)[i] == text[i]
    } by {
        super::texts::lemma_lower_char(text[i]);
    }
}

/// Two small letters of one letter are the same.
proof fn lemma_same_char(c: char, a: char, b: char)
    requires
        if 'A' <= c <= 'Z' {
            a as int == c as int + 32
        } else {
            a == c
        },
        if 'A' <= c <= 'Z' {
            b as int == c as int + 32
        } else {
            b == c
        },
    ensures
        a == b,
{
}

/// Every draft that isn't usable is told of, under its category.
pub proof fn lemma_unusable_drafts_are_told_of(
    groups: &Vec<CategoryGroup>,
    problems: Vec<String>,
    g: int,
    d: int,
)
    requires
        call_ensures(preflight, (groups,), problems),
        0 <= g < groups@.len(),
        0 <= d < groups@[g].drafts@.len(),
    ensures
        all_white(groups@[g].drafts@[d].description@) ==> views(problems@).contains(
            groups@[g].category@ + ": empty description"@,
        ),
        !has_member(groups@[g].drafts@[d].payload@, "category"@) ==> views(problems@).contains(
            groups@[g].category@ + ": payload has no `category` key"@,
        ),
{
    let all = groups@;
    let group = all[g];
    lemma_told_of_draft(group.category@, group.drafts@, d);
    lemma_told_of_group(all, g);
    let told = group_problems(all);
    let found = problems_of(all);
    let skip = missing_categories(all, expected_categories()).len() as int;
    assert forall|p: Seq<char>| #[trigger] told.contains(p) implies found.contains(p) by {
        let k = choose|k: int| 0 <= k < told.len() && told[k] == p;
        assert(found[skip + k] == p);
    }
}

/// What is told of a group is told of all.
proof fn lemma_told_of_group(groups: Seq<CategoryGroup>, g: int)
    requires
        0 <= g < groups.len(),
    ensures
        forall|p: Seq<char>| #[trigger]
            draft_problems(groups[g].category@, groups[g].drafts@).contains(p) ==> group_problems(
                groups,
            ).contains(p),
    decreases groups.len(),
{
    let rest = groups.drop_last();
    let told = group_problems(groups);
    let own = draft_problems(groups[g].category@, groups[g].drafts@);
    if g < rest.len() {
        lemma_told_of_group(rest, g);
        assert(rest[g] == groups[g]);
        assert forall|p: Seq<char>| #[trigger] own.contains(p) implies told.contains(p) by {
            let before = group_problems(rest);
            assert(before.contains(p));
            let k = choose|k: int| 0 <= k < before.len() && before[k] == p;
            assert(told[k] == p);
        }
    } else {
        assert forall|p: Seq<char>| #[trigger] own.contains(p) implies told.contains(p) by {
            let k = choose|k: int| 0 <= k < own.len() && own[k] == p;
            assert(told[group_problems(rest).len() + k] == p);
        }
    }
}

/// What is wrong with a draft is told of its group.
proof fn lemma_told_of_draft(category: Seq<char>, drafts: Seq<VectorPointDraft>, d: int)
    requires
        0 <= d < drafts.len(),
    ensures
        all_white(drafts[d].description@) ==> draft_problems(category, drafts).contains(
            category + ": empty description"@,
        ),
        !has_member(drafts[d].payload@, "category"@) ==> draft_problems(category, drafts).contains(
            category + ": payload has no `category` key"@,
        ),
    decreases drafts.len(),
{
    let rest = drafts.drop_last();
    let told = draft_problems(category, drafts);
    let before = draft_problems(category, rest);
    let empty = category + ": empty description"@;
    let unnamed = category + ": payload has no `category` key"@;
    if d < rest.len() {
        lemma_told_of_draft(category, rest, d);
        assert(rest[d] == drafts[d]);
        assert forall|p: Seq<char>| #[trigger] before.contains(p) implies told.contains(p) by {
            let k = choose|k: int| 0 <= k < before.len() && before[k] == p;
            assert(told[k] == p);
        }
    } else {
        lemma_blank(drafts[d].description@);
        lemma_has_member(drafts[d].payload@, "category"@);
        if all_white(drafts[d].description@) {
            assert(told[before.len() as int] == empty);
        }
        if !has_member(drafts[d].payload@, "category"@) {
            assert(told[told.len() - 1] == unnamed);
        }
    }
}

/// Every field that is where it should not be, or isn't where it should be, is
/// told of.
pub proof fn lemma_misplaced_fields_are_told_of(
    groups: &Vec<CategoryGroup>,
    problems: Vec<String>,
)
    requires
        call_ensures(preflight, (groups,), problems),
    ensures
        first_has(groups@, "Contact"@, "phone"@) ==> views(problems@).contains(
            "Contact: skipped `phone` leaked into payload"@,
        ),
        first_has(groups@, "Skill"@, "internal_id"@) ==> views(problems@).contains(
            "Skill: skipped `internal_id` leaked into payload"@,
        ),
        !first_has(groups@, "Skill"@, "years"@) ==> views(problems@).contains(
            "Skill: rename -> `years` not applied"@,
        ),
        first_has(groups@, "Skill"@, "years_of_experience"@) ==> views(problems@).contains(
            "Skill: original name `years_of_experience` still present"@,
        ),
        !first_has(groups@, "Position"@, "role"@) ==> views(problems@).contains(
            "Position: rename -> `role` not applied (stacked attribute)"@,
        ),
        !first_has(groups@, "Project"@, "stack"@) ==> views(problems@).contains(
            "Project: rename -> `stack` not applied"@,
        ),
        first_has(groups@, "Project"@, "private_notes"@) ==> views(problems@).contains(
            "Project: skipped `private_notes` leaked into payload"@,
        ),
        !first_has(groups@, "Publication"@, "abstract"@) ==> views(problems@).contains(
            "Publication: #[serde(rename = \"abstract\")] ignored in payload"@,
        ),
{
    let all = groups@;
    lemma_first_has(all, "Contact"@, "phone"@);
    lemma_first_has(all, "Skill"@, "internal_id"@);
    lemma_first_has(all, "Skill"@, "years"@);
    lemma_first_has(all, "Skill"@, "years_of_experience"@);
    lemma_first_has(all, "Position"@, "role"@);
    lemma_first_has(all, "Project"@, "stack"@);
    lemma_first_has(all, "Project"@, "private_notes"@);
    lemma_first_has(all, "Publication"@, "abstract"@);
    lemma_first_has(all, "Interest"@, "0"@);
    let p0 = unless(!has_key(all, "Contact"@, "phone"@), "Contact: skipped `phone` leaked into payload"@);
    let p1 = unless(!has_key(all, "Skill"@, "internal_id"@), "Skill: skipped `internal_id` leaked into payload"@);
    let p2 = unless(has_key(all, "Skill"@, "years"@), "Skill: rename -> `years` not applied"@);
    let p3 = unless(!has_key(all, "Skill"@, "years_of_experience"@), "Skill: original name `years_of_experience` still present"@);
    let p4 = unless(has_key(all, "Position"@, "role"@), "Position: rename -> `role` not applied (stacked attribute)"@);
    let p5 = unless(has_key(all, "Project"@, "stack"@), "Project: rename -> `stack` not applied"@);
    let p6 = unless(!has_key(all, "Project"@, "private_notes"@), "Project: skipped `private_notes` leaked into payload"@);
    let p7 = unless(has_key(all, "Publication"@, "abstract"@), "Publication: #[serde(rename = \"abstract\")] ignored in payload"@);
    let p8 = unless(
        has_key(all, "Interest"@, "0"@) || (first_draft(all, "Interest"@) matches Some(draft)
            && draft.payload@.len() > 1),
        "Interest: newtype field missing from payload"@,
    );
    let s1 = p0 + p1;
    let s2 = s1 + p2;
    let s3 = s2 + p3;
    let s4 = s3 + p4;
    let s5 = s4 + p5;
    let s6 = s5 + p6;
    let s7 = s6 + p7;
    let s8 = s7 + p8;
    lemma_either(p0, p1);
    lemma_either(s1, p2);
    lemma_either(s2, p3);
    lemma_either(s3, p4);
    lemma_either(s4, p5);
    lemma_either(s5, p6);
    lemma_either(s6, p7);
    lemma_either(s7, p8);
    assert(s8 == field_problems(all));
    let head = missing_categories(all, expected_categories()) + group_problems(all);
    lemma_either(head, s8);
    lemma_either(head + s8, skill_problems(all));
    assert(views(problems@) == head + s8 + skill_problems(all));
    lemma_unless(!has_key(all, "Contact"@, "phone"@), "Contact: skipped `phone` leaked into payload"@);
    lemma_unless(!has_key(all, "Skill"@, "internal_id"@), "Skill: skipped `internal_id` leaked into payload"@);
    lemma_unless(has_key(all, "Skill"@, "years"@), "Skill: rename -> `years` not applied"@);
    lemma_unless(!has_key(all, "Skill"@, "years_of_experience"@), "Skill: original name `years_of_experience` still present"@);
    lemma_unless(has_key(all, "Position"@, "role"@), "Position: rename -> `role` not applied (stacked attribute)"@);
    lemma_unless(has_key(all, "Project"@, "stack"@), "Project: rename -> `stack` not applied"@);
    lemma_unless(!has_key(all, "Project"@, "private_notes"@), "Project: skipped `private_notes` leaked into payload"@);
    lemma_unless(has_key(all, "Publication"@, "abstract"@), "Publication: #[serde(rename = \"abstract\")] ignored in payload"@);
}

/// What is in a list of problems is in the list with more before or behind.
proof fn lemma_either(a: Seq<Seq<char>>, b: Seq<Seq<char>>)
    ensures
        forall|p: Seq<char>| #![trigger a.contains(p)] a.contains(p) ==> (a + b).contains(p),
        forall|p: Seq<char>| #![trigger b.contains(p)] b.contains(p) ==> (a + b).contains(p),
{
    assert forall|p: Seq<char>| #![trigger a.contains(p)] a.contains(p) implies (a + b).contains(
        p,
    ) by {
        let k = choose|k: int| 0 <= k < a.len() && a[k] == p;
        assert((a + b)[k] == p);
    }
    assert forall|p: Seq<char>| #![trigger b.contains(p)] b.contains(p) implies (a + b).contains(
        p,
    ) by {
        let k = choose|k: int| 0 <= k < b.len() && b[k] == p;
        assert((a + b)[a.len() + k] == p);
    }
}

/// A check that didn't pass is a problem.
proof fn lemma_unless(ok: bool, problem: Seq<char>)
    ensures
        !ok ==> unless(ok, problem).contains(problem),
{
    if !ok {
        assert(unless(ok, problem)[0] == problem);
    }
}

/// Every category without points is told of, with the categories that there are.
pub proof fn lemma_missing_categories_are_told_of(
    groups: &Vec<CategoryGroup>,
    problems: Vec<String>,
    k: int,
    names: &Vec<String>,
    got: String,
)
    requires
        call_ensures(preflight, (groups,), problems),
        0 <= k < expected_categories().len(),
        !has_points(groups@, expected_categories()[k]),
        names@.len() == groups@.len(),
        forall|i: int|
            0 <= i < names@.len() ==> (#[trigger] names@[i])@ == debug_text(groups@[i].category@),
        call_ensures(join, (names, ", "), got),
    ensures
        views(problems@).contains(
            "no points with category "@ + debug_text(expected_categories()[k]) + " (got "@ + ("["@
                + got@ + "]"@) + ")"@,
        ),
{
    let all = groups@;
    let expected = expected_categories();
    assert(views(names@) =~= all.map_values(
        |group: CategoryGroup| debug_text(group.category@),
    ));
    lemma_told_of_category(all, expected, k);
    let told = missing_categories(all, expected);
    let i = choose|i: int| 0 <= i < told.len() && told[i] == no_points(all, expected[k]);
    assert(views(problems@)[i] == told[i]);
}

/// What is missing is told of.
proof fn lemma_told_of_category(groups: Seq<CategoryGroup>, names: Seq<Seq<char>>, k: int)
    requires
        0 <= k < names.len(),
        !has_points(groups, names[k]),
    ensures
        missing_categories(groups, names).contains(no_points(groups, names[k])),
    decreases names.len(),
{
    let rest = names.drop_last();
    let told = missing_categories(groups, names);
    let before = missing_categories(groups, rest);
    if k < rest.len() {
        assert(rest[k] == names[k]);
        lemma_told_of_category(groups, rest, k);
        let i = choose|i: int| 0 <= i < before.len() && before[i] == no_points(groups, names[k]);
        assert(told[i] == before[i]);
    } else {
        lemma_has_points(groups, names[k]);
        assert(told[before.len() as int] == no_points(groups, names[k]));
    }
}

/// A portfolio has points of seven categories.
pub proof fn lemma_categories_of_a_portfolio()
    ensures
        expected_categories().len() == 7,
        expected_categories()[0] == "Contact"@,
        expected_categories()[1] == "Skill"@,
        expected_categories()[2] == "Position"@,
        expected_categories()[3] == "Project"@,
        expected_categories()[4] == "Publication"@,
        expected_categories()[5] == "Credential"@,
        expected_categories()[6] == "Interest"@,
{
}

} // verus!
