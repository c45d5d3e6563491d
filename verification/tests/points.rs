//! Records as vector points, and checks before they are uploaded.

use lvv::db::payload::Payload;
use lvv::json::JsonValue;
use lvv::points::{
    describe, group_by_category, item_payload, FieldRule, IntoDescriptionValue, PointError,
    VectorDatabase, VectorDatabaseItem, VectorPointDraft,
};
use lvv::portfolio::preflight;

struct Skill {
    name: String,
    years: Option<u8>,
    tags: Vec<String>,
}

impl VectorDatabaseItem for Skill {
    fn category(&self) -> String {
        "skill".to_string()
    }

    fn into_description(&self) -> String {
        describe(&vec![
            self.name.into_description_value(),
            self.years.into_description_value(),
            self.tags.into_description_value(),
        ])
    }

    fn to_value(&self) -> Result<JsonValue, String> {
        match self.name.as_str() {
            "broken" => Err("key must be a string".to_string()),
            "bare" => Ok(JsonValue::string("bare")),
            name => JsonValue::parse(&format!("{{\"name\":{name:?}}}")),
        }
    }
}

fn skill(name: &str) -> Skill {
    Skill { name: name.to_string(), years: Some(3), tags: Vec::new() }
}

#[test]
fn items_become_drafts() {
    let skill = Skill {
        name: "Rust".to_string(),
        years: None,
        tags: vec!["systems".to_string(), String::new(), "safe".to_string()],
    };
    let draft = skill.try_into_database_item().unwrap();
    assert_eq!(draft.category, "skill");
    assert_eq!(draft.description, "Rust\nsystems\nsafe");
    assert_eq!(draft.payload.to_value().text(), "{\"name\":\"Rust\"}");
}

#[test]
fn payloads_that_cannot_be_built_are_errors() {
    let err = skill("broken").try_into_database_item().unwrap_err();
    assert!(matches!(&err, PointError::Serialize(_)));
    assert_eq!(err.display(), "key must be a string");
    let err = skill("bare").try_into_database_item().unwrap_err();
    assert!(matches!(&err, PointError::Payload(_)));
    assert_eq!(
        err.display(),
        "JSON cannot be converted to payload, only JSON objects are supported"
    );
}

#[test]
fn a_list_gives_one_draft_per_item() {
    let drafts = vec![skill("a"), skill("b")].point_drafts().unwrap();
    let descriptions: Vec<&str> = drafts.iter().map(|d| d.description.as_str()).collect();
    assert_eq!(descriptions, vec!["a\n3", "b\n3"]);
    let err = vec![skill("a"), skill("bare"), skill("broken")].point_drafts().unwrap_err();
    assert!(matches!(err, PointError::Payload(_)));
}

#[test]
fn values_render_as_text() {
    assert_eq!("x".to_string().into_description_value(), "x");
    assert_eq!(Some(7u64).into_description_value(), "7");
    assert_eq!(None::<u64>.into_description_value(), "");
    assert_eq!(vec![1u8, 2].into_description_value(), "1\n2");
    assert_eq!(u128::MAX.into_description_value(), u128::MAX.to_string());
    assert_eq!(i128::MIN.into_description_value(), i128::MIN.to_string());
    assert_eq!((-1i8).into_description_value(), "-1");
    assert_eq!(0i16.into_description_value(), "0");
    assert_eq!(i32::MAX.into_description_value(), "2147483647");
    assert_eq!(i64::MIN.into_description_value(), "-9223372036854775808");
    assert_eq!(9isize.into_description_value(), "9");
    assert_eq!(65535u16.into_description_value(), "65535");
    assert_eq!(1u32.into_description_value(), "1");
    assert_eq!(1usize.into_description_value(), "1");
}

#[test]
fn empty_texts_leave_no_lines() {
    let texts = ["", "a", "", "b c", ""].map(|t| t.to_string()).to_vec();
    assert_eq!(describe(&texts), "a\nb c");
    assert_eq!(describe(&Vec::new()), "");
}

fn draft(category: &str, description: &str, payload: &str) -> VectorPointDraft {
    let payload = Payload::from_value(JsonValue::parse(payload).unwrap()).unwrap();
    VectorPointDraft::new(category.to_string(), description.to_string(), payload)
}

#[test]
fn drafts_are_grouped_by_category_in_order() {
    let drafts = vec![
        draft("b", "1", "{}"),
        draft("a", "2", "{}"),
        draft("b", "3", "{}"),
        draft("c", "4", "{}"),
    ];
    let groups = group_by_category(drafts);
    let shown: Vec<(String, Vec<String>)> = groups
        .into_iter()
        .map(|g| (g.category, g.drafts.into_iter().map(|d| d.description).collect()))
        .collect();
    let list = |items: &[&str]| items.iter().map(|i| i.to_string()).collect::<Vec<_>>();
    assert_eq!(
        shown,
        vec![
            ("a".to_string(), list(&["2"])),
            ("b".to_string(), list(&["1", "3"])),
            ("c".to_string(), list(&["4"])),
        ]
    );
}

fn sample() -> Vec<VectorPointDraft> {
    vec![
        draft("Contact", "Ana", "{\"category\":\"Contact\"}"),
        draft("Skill", "Rust\nEXPERT", "{\"category\":\"Skill\",\"years\":6}"),
        draft("Position", "Engineer", "{\"category\":\"Position\",\"role\":\"x\"}"),
        draft("Project", "lvv", "{\"category\":\"Project\",\"stack\":[]}"),
        draft("Publication", "Retrieval", "{\"abstract\":\"x\",\"category\":\"Publication\"}"),
        draft("Credential", "PhD", "{\"category\":\"Credential\"}"),
        draft("Interest", "retrieval", "{\"0\":\"retrieval\",\"category\":\"Interest\"}"),
    ]
}

#[test]
fn a_portfolio_without_problems_passes() {
    assert_eq!(preflight(&group_by_category(sample())), Vec::<String>::new());
}

#[test]
fn every_problem_is_reported() {
    let mut drafts = sample();
    drafts[0] = draft("Contact", " ", "{\"phone\":\"1\"}");
    drafts[1] = draft("Skill", "Rust", "{\"category\":\"Skill\",\"years_of_experience\":6}");
    drafts.pop();
    assert_eq!(
        preflight(&group_by_category(drafts)),
        vec![
            "no points with category \"Interest\" (got [\"Contact\", \"Credential\", \"Position\", \
             \"Project\", \"Publication\", \"Skill\"])",
            "Contact: empty description",
            "Contact: payload has no `category` key",
            "Contact: skipped `phone` leaked into payload",
            "Skill: rename -> `years` not applied",
            "Skill: original name `years_of_experience` still present",
            "Interest: newtype field missing from payload",
            "Skill: description should mention name and level, got Some(\"Rust\")",
        ]
    );
    let problems = preflight(&Vec::new());
    assert_eq!(problems.len(), 7 + 5 + 1);
    assert_eq!(
        problems.last().unwrap(),
        "Skill: description should mention name and level, got None"
    );
}

#[test]
fn payloads_follow_the_field_rules() {
    let value = JsonValue::parse(
        "{\"jobTitle\":\"Researcher\",\"organization\":\"UNLP\",\"startedOn\":\"2020-03-01\",\
         \"internal_id\":42}",
    )
    .unwrap();
    let rules = vec![
        FieldRule { field: "jobTitle".to_string(), rename: Some("role".to_string()) },
        FieldRule { field: "internal_id".to_string(), rename: None },
    ];
    let payload = item_payload(value, &rules, "Position").unwrap();
    assert_eq!(
        payload.to_value().text(),
        "{\"category\":\"Position\",\"organization\":\"UNLP\",\"role\":\"Researcher\",\
         \"startedOn\":\"2020-03-01\"}"
    );
    let err = item_payload(JsonValue::Bool(true), &rules, "Position").unwrap_err();
    assert!(matches!(err, PointError::Payload(_)));
}
