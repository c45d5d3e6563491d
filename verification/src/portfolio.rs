//! Checks on the points of a portfolio before they are uploaded.

use crate::intake::{debug_quote, debug_text};
use crate::json::member_of;
use crate::points::{CategoryGroup, VectorPointDraft};
use crate::text::lines::{join, joined, lemma_views_push, views};
use crate::text::search::{ascii_lowered, contains, has_part, to_ascii_lower};
use crate::text::trim::{trim, trimmed};
use crate::text::{owned, same_text};
use vstd::prelude::*;
use vstd::string::*;

verus! {

/// The group of a category, if it has one.
pub open spec fn group_of(groups: Seq<CategoryGroup>, category: Seq<char>) -> Option<CategoryGroup>
    decreases groups.len(),
{
    if groups.len() == 0 {
        None
    } else if groups[0].category@ == category {
        Some(groups[0])
    } else {
        group_of(groups.drop_first(), category)
    }
}

/// The first draft of a category, if it has one.
pub open spec fn first_draft(groups: Seq<CategoryGroup>, category: Seq<char>) -> Option<
    VectorPointDraft,
> {
    match group_of(groups, category) {
        Some(group) => if group.drafts@.len() > 0 {
            Some(group.drafts@[0])
        } else {
            None
        },
        None => None,
    }
}

/// Whether the payload of the first draft of a category has a key.
pub open spec fn has_key(groups: Seq<CategoryGroup>, category: Seq<char>, key: Seq<char>) -> bool {
    first_draft(groups, category) matches Some(draft) && member_of(key, draft.payload@) is Some
}

/// A problem, unless the check passed.
pub open spec fn unless(ok: bool, problem: Seq<char>) -> Seq<Seq<char>> {
    if ok {
        Seq::empty()
    } else {
        seq![problem]
    }
}

/// The categories that a portfolio has points of.
pub open spec fn expected_categories() -> Seq<Seq<char>> {
    seq![
        "Contact"@,
        "Skill"@,
        "Position"@,
        "Project"@,
        "Publication"@,
        "Credential"@,
        "Interest"@,
    ]
}

/// The `Debug` text of the categories of some groups.
pub open spec fn categories_text(groups: Seq<CategoryGroup>) -> Seq<char> {
    "["@ + joined(
        groups.map_values(|group: CategoryGroup| debug_text(group.category@)),
        ", "@,
    ) + "]"@
}

/// The problem of a category without points.
pub open spec fn no_points(groups: Seq<CategoryGroup>, category: Seq<char>) -> Seq<char> {
    "no points with category "@ + debug_text(category) + " (got "@ + categories_text(groups) + ")"@
}

/// The problems of missing categories.
pub open spec fn missing_categories(
    groups: Seq<CategoryGroup>,
    categories: Seq<Seq<char>>,
) -> Seq<Seq<char>>
    decreases categories.len(),
{
    if categories.len() == 0 {
        Seq::empty()
    } else {
        missing_categories(groups, categories.drop_last()) + unless(
            group_of(groups, categories.last()) is Some,
            no_points(groups, categories.last()),
        )
    }
}

/// The problems of some drafts of a category.
pub open spec fn draft_problems(category: Seq<char>, drafts: Seq<VectorPointDraft>) -> Seq<
    Seq<char>,
>
    decreases drafts.len(),
{
    if drafts.len() == 0 {
        Seq::empty()
    } else {
        draft_problems(category, drafts.drop_last()) + unless(
            trimmed(drafts.last().description@).len() > 0,
            category + ": empty description"@,
        ) + unless(
            member_of("category"@, drafts.last().payload@) is Some,
            category + ": payload has no `category` key"@,
        )
    }
}

/// The problems of the drafts of every group.
pub open spec fn group_problems(groups: Seq<CategoryGroup>) -> Seq<Seq<char>>
    decreases groups.len(),
{
    if groups.len() == 0 {
        Seq::empty()
    } else {
        group_problems(groups.drop_last()) + draft_problems(
            groups.last().category@,
            groups.last().drafts@,
        )
    }
}

/// The problems with what the fields of the items should have become.
pub open spec fn field_problems(groups: Seq<CategoryGroup>) -> Seq<Seq<char>> {
    unless(
        !has_key(groups, "Contact"@, "phone"@),
        "Contact: skipped `phone` leaked into payload"@,
    ) + unless(
        !has_key(groups, "Skill"@, "internal_id"@),
        "Skill: skipped `internal_id` leaked into payload"@,
    ) + unless(
        has_key(groups, "Skill"@, "years"@),
        "Skill: rename -> `years` not applied"@,
    ) + unless(
        !has_key(groups, "Skill"@, "years_of_experience"@),
        "Skill: original name `years_of_experience` still present"@,
    ) + unless(
        has_key(groups, "Position"@, "role"@),
        "Position: rename -> `role` not applied (stacked attribute)"@,
    ) + unless(
        has_key(groups, "Project"@, "stack"@),
        "Project: rename -> `stack` not applied"@,
    ) + unless(
        !has_key(groups, "Project"@, "private_notes"@),
        "Project: skipped `private_notes` leaked into payload"@,
    ) + unless(
        has_key(groups, "Publication"@, "abstract"@),
        "Publication: #[serde(rename = \"abstract\")] ignored in payload"@,
    ) + unless(
        has_key(groups, "Interest"@, "0"@) || (first_draft(groups, "Interest"@) matches Some(draft)
            && draft.payload@.len() > 1),
        "Interest: newtype field missing from payload"@,
    )
}

/// The description of the first skill, if there is one.
pub open spec fn skill_description(groups: Seq<CategoryGroup>) -> Option<Seq<char>> {
    match first_draft(groups, "Skill"@) {
        Some(draft) => Some(draft.description@),
        None => None,
    }
}

/// The problem with the description of the first skill, if there is one.
pub open spec fn skill_problems(groups: Seq<CategoryGroup>) -> Seq<Seq<char>> {
    let shown = match skill_description(groups) {
        Some(text) => "Some("@ + debug_text(text) + ")"@,
        None => "None"@,
    };
    unless(
        skill_description(groups) matches Some(text) && has_part(text, "Rust"@) && has_part(
            ascii_lowered(text),
            "expert"@,
        ),
        "Skill: description should mention name and level, got "@ + shown,
    )
}

/// Every problem with the points of a portfolio.
pub open spec fn problems_of(groups: Seq<CategoryGroup>) -> Seq<Seq<char>> {
    missing_categories(groups, expected_categories()) + group_problems(groups) + field_problems(
        groups,
    ) + skill_problems(groups)
}

/// The group of a category.
fn find_group<'a>(groups: &'a Vec<CategoryGroup>, category: &str) -> (r: Option<&'a CategoryGroup>)
    ensures
        match r {
            Some(group) => group_of(groups@, category@) == Some(*group),
            None => group_of(groups@, category@) is None,
        },
{
    let mut i: usize = 0;
    proof {
        assert(groups@.skip(0) =~= groups@);
    }
    while i < groups.len()
        invariant
            i <= groups@.len(),
            group_of(groups@.skip(i as int), category@) == group_of(groups@, category@),
        decreases groups@.len() - i,
    {
        proof {
            let rest = groups@.skip(i as int);
            assert(rest[0] == groups@[i as int]);
            assert(rest.drop_first() =~= groups@.skip(i + 1));
        }
        if same_text(groups[i].category.as_str(), category) {
            return Some(&groups[i]);
        }
        i += 1;
    }
    proof {
        assert(groups@.skip(i as int).len() == 0);
    }
    None
}

/// The first draft of a category.
fn find_draft<'a>(groups: &'a Vec<CategoryGroup>, category: &str) -> (r: Option<
    &'a VectorPointDraft,
>)
    ensures
        match r {
            Some(draft) => first_draft(groups@, category@) == Some(*draft),
            None => first_draft(groups@, category@) is None,
        },
{
    match find_group(groups, category) {
        Some(group) => if group.drafts.len() > 0 {
            Some(&group.drafts[0])
        } else {
            None
        },
        None => None,
    }
}

/// Whether a draft's payload has a key.
fn payload_has(draft: &VectorPointDraft, key: &str) -> (r: bool)
    ensures
        r == (member_of(key@, draft.payload@) is Some),
{
    let value = draft.payload.to_value();
    let found = match value.member(key) {
        Some(_) => true,
        None => false,
    };
    found
}

/// Whether the payload of the first draft of a category has a key.
fn has(groups: &Vec<CategoryGroup>, category: &str, key: &str) -> (r: bool)
    ensures
        r == has_key(groups@, category@, key@),
{
    match find_draft(groups, category) {
        Some(draft) => payload_has(draft, key),
        None => false,
    }
}

/// Notes a problem, unless the check passed.
fn expect(problems: &mut Vec<String>, ok: bool, problem: &str)
    ensures
        views(final(problems)@) == views(old(problems)@) + unless(ok, problem@),
{
    let ghost before = views(problems@);
    if !ok {
        let text = owned(problem);
        proof {
            lemma_views_push(problems@, text);
        }
        problems.push(text);
        proof {
            assert(before.push(problem@) =~= before + seq![problem@]);
        }
    } else {
        proof {
            assert(before + Seq::<Seq<char>>::empty() =~= before);
        }
    }
}

/// The problems noted so far and one more check's.
proof fn noted_after(before: Seq<Seq<char>>, noted: Seq<Seq<char>>, more: Seq<Seq<char>>) -> (r: Seq<
    Seq<char>,
>)
    ensures
        r == noted + more,
        before + noted + more == before + r,
{
    assert(before + noted + more =~= before + (noted + more));
    noted + more
}

/// The `Debug` text of the categories of some groups.
fn show_categories(groups: &Vec<CategoryGroup>) -> (r: String)
    ensures
        r@ == categories_text(groups@),
{
    let mut names: Vec<String> = Vec::new();
    let mut i: usize = 0;
    while i < groups.len()
        invariant
            i <= groups@.len(),
            names@.len() == i,
            forall|j: int|
                0 <= j < i ==> (#[trigger] names@[j])@ == debug_text(groups@[j].category@),
        decreases groups@.len() - i,
    {
        names.push(debug_quote(groups[i].category.as_str()));
        i += 1;
    }
    proof {
        assert(views(names@) =~= groups@.map_values(
            |group: CategoryGroup| debug_text(group.category@),
        ));
    }
    let mut out = owned("[");
    let list = join(&names, ", ");
    out.append(list.as_str());
    out.append("]");
    out
}

/// Notes a category that has no points.
fn expect_category(problems: &mut Vec<String>, groups: &Vec<CategoryGroup>, category: &str)
    ensures
        views(final(problems)@) == views(old(problems)@) + unless(
            group_of(groups@, category@) is Some,
            no_points(groups@, category@),
        ),
{
    let ok = match find_group(groups, category) {
        Some(_) => true,
        None => false,
    };
    let mut problem = owned("no points with category ");
    let quoted = debug_quote(category);
    problem.append(quoted.as_str());
    problem.append(" (got ");
    let got = show_categories(groups);
    problem.append(got.as_str());
    problem.append(")");
    expect(problems, ok, problem.as_str());
}

/// Notes the problems of missing categories.
fn check_categories(problems: &mut Vec<String>, groups: &Vec<CategoryGroup>)
    ensures
        views(final(problems)@) == views(old(problems)@) + missing_categories(
            groups@,
            expected_categories(),
        ),
{
    let ghost before = views(problems@);
    let mut names: Vec<String> = Vec::new();
    names.push(owned("Contact"));
    names.push(owned("Skill"));
    names.push(owned("Position"));
    names.push(owned("Project"));
    names.push(owned("Publication"));
    names.push(owned("Credential"));
    names.push(owned("Interest"));
    let ghost expected = expected_categories();
    proof {
        assert(views(names@) =~= expected);
        assert(expected.take(0) =~= Seq::empty());
        assert(before + missing_categories(groups@, expected.take(0)) =~= before);
    }
    let mut i: usize = 0;
    while i < names.len()
        invariant
            i <= names@.len(),
            views(names@) == expected,
            views(problems@) == before + missing_categories(groups@, expected.take(i as int)),
        decreases names@.len() - i,
    {
        proof {
            assert(expected.len() == names@.len());
            assert(expected[i as int] == names@[i as int]@);
            assert(expected.take(i + 1).drop_last() =~= expected.take(i as int));
            assert(expected.take(i + 1).last() == names@[i as int]@);
        }
        expect_category(problems, groups, names[i].as_str());
        proof {
            assert(views(problems@) =~= before + missing_categories(groups@, expected.take(i + 1)));
        }
        i += 1;
    }
    proof {
        assert(expected.take(expected.len() as int) =~= expected);
    }
}

/// Notes the problems of the drafts of a group.
fn check_drafts(problems: &mut Vec<String>, group: &CategoryGroup)
    ensures
        views(final(problems)@) == views(old(problems)@) + draft_problems(
            group.category@,
            group.drafts@,
        ),
{
    let ghost before = views(problems@);
    let ghost all = group.drafts@;
    let mut empty = group.category.clone();
    empty.append(": empty description");
    let mut unnamed = group.category.clone();
    unnamed.append(": payload has no `category` key");
    let mut i: usize = 0;
    proof {
        assert(all.take(0) =~= Seq::empty());
        assert(before + draft_problems(group.category@, all.take(0)) =~= before);
    }
    while i < group.drafts.len()
        invariant
            i <= group.drafts@.len(),
            all == group.drafts@,
            empty@ == group.category@ + ": empty description"@,
            unnamed@ == group.category@ + ": payload has no `category` key"@,
            views(problems@) == before + draft_problems(group.category@, all.take(i as int)),
        decreases group.drafts@.len() - i,
    {
        proof {
            assert(all.take(i + 1).drop_last() =~= all.take(i as int));
            assert(all.take(i + 1).last() == all[i as int]);
        }
        let draft = &group.drafts[i];
        let described = !trim(draft.description.as_str()).is_empty();
        expect(problems, described, empty.as_str());
        let named = payload_has(draft, "category");
        expect(problems, named, unnamed.as_str());
        proof {
            assert(views(problems@) =~= before + draft_problems(group.category@, all.take(i + 1)));
        }
        i += 1;
    }
    proof {
        assert(all.take(all.len() as int) =~= all);
    }
}

/// Notes the problems of the drafts of every group.
fn check_groups(problems: &mut Vec<String>, groups: &Vec<CategoryGroup>)
    ensures
        views(final(problems)@) == views(old(problems)@) + group_problems(groups@),
{
    let ghost before = views(problems@);
    let ghost all = groups@;
    let mut i: usize = 0;
    proof {
        assert(all.take(0) =~= Seq::empty());
        assert(before + group_problems(all.take(0)) =~= before);
    }
    while i < groups.len()
        invariant
            i <= groups@.len(),
            all == groups@,
            views(problems@) == before + group_problems(all.take(i as int)),
        decreases groups@.len() - i,
    {
        proof {
            assert(all.take(i + 1).drop_last() =~= all.take(i as int));
            assert(all.take(i + 1).last() == all[i as int]);
        }
        check_drafts(problems, &groups[i]);
        proof {
            assert(views(problems@) =~= before + group_problems(all.take(i + 1)));
        }
        i += 1;
    }
    proof {
        assert(all.take(all.len() as int) =~= all);
    }
}

/// Notes the problems with what the fields of the items should have become.
fn check_fields(problems: &mut Vec<String>, groups: &Vec<CategoryGroup>)
    ensures
        views(final(problems)@) == views(old(problems)@) + field_problems(groups@),
{
    let ghost before = views(problems@);
    let phone = has(groups, "Contact", "phone");
    expect(problems, !phone, "Contact: skipped `phone` leaked into payload");
    let ghost noted = unless(!phone, "Contact: skipped `phone` leaked into payload"@);
    let internal_id = has(groups, "Skill", "internal_id");
    expect(problems, !internal_id, "Skill: skipped `internal_id` leaked into payload");
    let ghost noted = noted_after(before, noted, unless(!internal_id, "Skill: skipped `internal_id` leaked into payload"@));
    let years = has(groups, "Skill", "years");
    expect(problems, years, "Skill: rename -> `years` not applied");
    let ghost noted = noted_after(before, noted, unless(years, "Skill: rename -> `years` not applied"@));
    let unrenamed = has(groups, "Skill", "years_of_experience");
    expect(problems, !unrenamed, "Skill: original name `years_of_experience` still present");
    let ghost noted = noted_after(before, noted, unless(!unrenamed, "Skill: original name `years_of_experience` still present"@));
    let role = has(groups, "Position", "role");
    expect(problems, role, "Position: rename -> `role` not applied (stacked attribute)");
    let ghost noted = noted_after(before, noted, unless(role, "Position: rename -> `role` not applied (stacked attribute)"@));
    let stack = has(groups, "Project", "stack");
    expect(problems, stack, "Project: rename -> `stack` not applied");
    let ghost noted = noted_after(before, noted, unless(stack, "Project: rename -> `stack` not applied"@));
    let notes = has(groups, "Project", "private_notes");
    expect(problems, !notes, "Project: skipped `private_notes` leaked into payload");
    let ghost noted = noted_after(before, noted, unless(!notes, "Project: skipped `private_notes` leaked into payload"@));
    let summary = has(groups, "Publication", "abstract");
    expect(problems, summary, "Publication: #[serde(rename = \"abstract\")] ignored in payload");
    let ghost noted = noted_after(before, noted, unless(summary, "Publication: #[serde(rename = \"abstract\")] ignored in payload"@));
    let zero = has(groups, "Interest", "0");
    let several = match find_draft(groups, "Interest") {
        Some(draft) => draft.payload.members.len() > 1,
        None => false,
    };
    expect(problems, zero || several, "Interest: newtype field missing from payload");
    let ghost noted = noted_after(
        before,
        noted,
        unless(zero || several, "Interest: newtype field missing from payload"@),
    );
    proof {
        assert(noted == field_problems(groups@));
    }
}

/// Notes the problem with the description of the first skill.
fn check_skill(problems: &mut Vec<String>, groups: &Vec<CategoryGroup>)
    ensures
        views(final(problems)@) == views(old(problems)@) + skill_problems(groups@),
{
    let mut problem = owned("Skill: description should mention name and level, got ");
    let ok = match find_draft(groups, "Skill") {
        Some(draft) => {
            let text = draft.description.as_str();
            let mut shown = owned("Some(");
            let quoted = debug_quote(text);
            shown.append(quoted.as_str());
            shown.append(")");
            problem.append(shown.as_str());
            let lower = to_ascii_lower(text);
            contains(text, "Rust") && contains(lower.as_str(), "expert")
        },
        None => {
            problem.append("None");
            false
        },
    };
    expect(problems, ok, problem.as_str());
}

/// Checks what the attributes of a portfolio's items promise. Reports every
/// problem instead of stopping at the first one.
pub fn preflight(groups: &Vec<CategoryGroup>) -> (problems: Vec<String>)
    ensures
        views(problems@) == problems_of(groups@),
{
    let mut problems: Vec<String> = Vec::new();
    proof {
        assert(views(problems@) =~= Seq::empty());
    }
    check_categories(&mut problems, groups);
    check_groups(&mut problems, groups);
    check_fields(&mut problems, groups);
    check_skill(&mut problems, groups);
    proof {
        assert(views(problems@) =~= problems_of(groups@));
    }
    problems
}

} // verus!
