//! The embedding cache and the completion cache.

use lvv::backend::{BackendIdentity, OutputSchema};
use lvv::cache::cache_embeddings::{Cache, CacheError, CACHE_FORMAT_VERSION};
use lvv::cache::hash_key;
use lvv::cache::merge::join_caches;
use lvv::json::JsonValue;
use lvv::store::TextMap;
use lvv::transform::cache::CompletionCache;
use lvv::transform::line::{entry_of_items, entry_of_parts};
use sha2::Digest;

fn texts(list: &[&str]) -> Vec<String> {
    list.iter().map(|t| t.to_string()).collect()
}

#[test]
fn parts_are_length_prefixed() {
    let ab_c = hash_key(&[b"ab".as_slice(), b"c".as_slice()]);
    let a_bc = hash_key(&[b"a".as_slice(), b"bc".as_slice()]);
    assert_ne!(ab_c, a_bc);
    assert_eq!(ab_c.len(), 64);
    assert_eq!(ab_c, hash_key(&[b"ab".as_slice(), b"c".as_slice()]));
}

#[test]
fn keys_are_the_sha256_of_the_framed_parts() {
    // Nothing at all is hashed without parts.
    assert_eq!(
        hash_key(&[]),
        "e3b0c44298fc1c149afbf4c8996fb92427ae41e4649b934ca495991b7852b855"
    );
    let mut hasher = sha2::Sha256::new();
    for part in ["ab", "", "c"] {
        hasher.update((part.len() as u64).to_le_bytes());
        hasher.update(part);
    }
    let expected: String = hasher.finalize().iter().map(|b| format!("{b:02x}")).collect();
    assert_eq!(hash_key(&[b"ab".as_slice(), b"".as_slice(), b"c".as_slice()]), expected);
}

#[test]
fn keys_depend_on_model_and_inputs() {
    let mut cache = Cache::new();
    cache.add_embedding("m".into(), &vec!["x".into()], vec![vec![1.0f32]]);
    assert_eq!(cache.get_embedding("other".into(), &vec!["x".into()]), None);
    assert_eq!(cache.get_embedding("m".into(), &vec!["y".into()]), None);
}

#[test]
fn embeddings_are_found_again_and_the_first_stay() {
    let mut cache = Cache::default();
    cache.add_embedding("embed-model", &texts(&["first record"]), vec![vec![0.1f32, 0.2]]);
    assert_eq!(
        cache.get_embedding("embed-model", &texts(&["first record"])),
        Some(&vec![vec![0.1, 0.2]])
    );
    cache.add_embedding("embed-model", &texts(&["first record"]), vec![vec![9.0]]);
    assert_eq!(
        cache.get_embedding("embed-model", &texts(&["first record"])),
        Some(&vec![vec![0.1, 0.2]])
    );
    cache.add_embedding("embed-model", &texts(&["first", "record"]), vec![vec![3.0]]);
    assert_eq!(cache.display(), "Cache with 2 entries\n");
}

#[test]
fn a_file_from_an_older_release_misses() {
    let mut entries = TextMap::new();
    entries.insert("1234567890".to_string(), vec![vec![0.1f32, 0.2]]);
    let cache = Cache { version: 0, cache: entries }.loaded();
    assert_eq!(cache.cache.len(), 0);
    assert_eq!(cache.version, CACHE_FORMAT_VERSION);
    assert_eq!(cache.get_embedding("m", &texts(&["x"])), None);
}

#[test]
fn a_file_from_this_release_hits() {
    let mut cache = Cache::new();
    cache.add_embedding("m", &texts(&["x"]), vec![vec![1.0f32]]);
    let loaded = cache.loaded();
    assert_eq!(loaded.get_embedding("m", &texts(&["x"])), Some(&vec![vec![1.0]]));
}

#[test]
fn cache_errors_name_the_file() {
    let io = CacheError::Io { path: "c.json".to_string(), message: "gone".to_string() };
    assert_eq!(io.display(), "cache file c.json: gone");
    let json = CacheError::Json { path: "c.json".to_string(), message: "bad".to_string() };
    assert_eq!(json.display(), "cache file c.json is not valid JSON: bad");
}

#[test]
fn joined_caches_keep_the_last_of_equal_keys() {
    let cache = |entries: &[(&str, u32)]| {
        let mut map = TextMap::new();
        for (key, value) in entries {
            map.insert(key.to_string(), *value);
        }
        Cache { version: CACHE_FORMAT_VERSION, cache: map }
    };
    let joined = join_caches(
        cache(&[("a", 1), ("b", 2)]),
        vec![cache(&[("b", 3), ("c", 4)]), cache(&[("c", 5)])],
    );
    let value = |key: &str| joined.cache.get(key).copied();
    assert_eq!((value("a"), value("b"), value("c")), (Some(1), Some(3), Some(5)));
    assert_eq!(joined.cache.len(), 3);
    let keys: Vec<&str> = (0..3).map(|i| joined.cache.entry(i).0).collect();
    assert_eq!(keys, vec!["a", "b", "c"]);
}

fn identity(model: &str) -> BackendIdentity {
    BackendIdentity {
        kind: "ollama".to_string(),
        base_url: "http://x".to_string(),
        model: model.to_string(),
    }
}

#[test]
fn keys_change_with_every_part() {
    let identity = identity("m");
    let base = CompletionCache::key(&identity, "p", None, "i");
    assert_eq!(base, CompletionCache::key(&identity, "p", None, "i"));
    assert_ne!(base, CompletionCache::key(&identity, "p2", None, "i"));
    assert_ne!(base, CompletionCache::key(&identity, "p", None, "i2"));
    let other_model = BackendIdentity { model: "m2".to_string(), ..identity.clone() };
    assert_ne!(base, CompletionCache::key(&other_model, "p", None, "i"));
    let schema = OutputSchema {
        name: "T".to_string(),
        schema: JsonValue::parse("{}").unwrap(),
    };
    assert_ne!(base, CompletionCache::key(&identity, "p", Some(&schema), "i"));
    let renamed = OutputSchema {
        name: "U".to_string(),
        schema: JsonValue::parse("{}").unwrap(),
    };
    assert_ne!(
        CompletionCache::key(&identity, "p", Some(&schema), "i"),
        CompletionCache::key(&identity, "p", Some(&renamed), "i")
    );
}

/// Appends an entry to a file's text, as a run does.
fn append(file: &mut String, cache: &mut CompletionCache, key: &str, output: JsonValue) {
    file.push_str(&CompletionCache::line(key, &output));
    cache.insert(key.to_string(), output, Ok(())).unwrap();
}

fn stored(cache: &CompletionCache, key: &str) -> Option<String> {
    cache.get(key).map(|value| value.text())
}

#[test]
fn entries_survive_reopening() {
    let mut file = String::new();
    let (mut cache, ends_mid_line) = CompletionCache::open("f", None);
    assert!(!ends_mid_line);
    append(&mut file, &mut cache, "a", JsonValue::string("one"));
    append(&mut file, &mut cache, "b", JsonValue::string("two"));
    assert_eq!(
        file,
        "{\"v\":1,\"key\":\"a\",\"output\":\"one\"}\n{\"v\":1,\"key\":\"b\",\"output\":\"two\"}\n"
    );
    let (cache, ends_mid_line) = CompletionCache::open("f", Some(&file));
    assert!(!ends_mid_line);
    assert_eq!(stored(&cache, "a").as_deref(), Some("\"one\""));
    assert_eq!(stored(&cache, "b").as_deref(), Some("\"two\""));
}

#[test]
fn numbers_survive_reopening() {
    for text in ["0.5", "-1.25e30", "1e-7", "18446744073709551615", "[{\"a\":2.75}]"] {
        let value = JsonValue::parse(text).unwrap();
        let line = CompletionCache::line("k", &value);
        let (cache, _) = CompletionCache::open("c.jsonl", Some(&line));
        assert_eq!(cache.get("k").map(|v| v.text()), Some(value.text()), "{text}");
        for end in 1..line.len() - 1 {
            let (cut, _) = CompletionCache::open("c.jsonl", Some(&line[..end]));
            assert!(cut.get("k").is_none());
        }
    }
}

#[test]
fn a_truncated_last_line_is_skipped_and_not_glued_to_the_next() {
    let mut file =
        "{\"v\":1,\"key\":\"a\",\"output\":\"one\"}\n{\"v\":1,\"key\":\"b\",\"outp".to_string();
    let (mut cache, ends_mid_line) = CompletionCache::open("f", Some(&file));
    assert_eq!(cache.len(), 1);
    assert!(ends_mid_line);
    file.push('\n');
    append(&mut file, &mut cache, "c", JsonValue::string("three"));
    let (cache, _) = CompletionCache::open("f", Some(&file));
    assert_eq!(cache.len(), 2);
    assert_eq!(stored(&cache, "c").as_deref(), Some("\"three\""));
}

#[test]
fn a_last_line_that_ends_in_a_carriage_return_still_counts() {
    let mut file = "{\"v\":1,\"key\":\"a\",\"output\":1}\r".to_string();
    let (mut cache, ends_mid_line) = CompletionCache::open("f", Some(&file));
    assert_eq!((cache.len(), ends_mid_line), (1, true));
    file.push('\n');
    append(&mut file, &mut cache, "b", JsonValue::Null);
    let (cache, _) = CompletionCache::open("f", Some(&file));
    assert_eq!(stored(&cache, "a").as_deref(), Some("1"));
    assert_eq!(stored(&cache, "b").as_deref(), Some("null"));
}

#[test]
fn every_cut_of_a_written_line_is_skipped() {
    let whole = CompletionCache::line("k", &JsonValue::parse("{\"a\":[1,\"}\"]}").unwrap());
    let line = whole.trim_end();
    for n in 0..line.len() {
        let (cache, _) = CompletionCache::open("f", Some(&line[..n]));
        assert_eq!(cache.len(), 0, "cut at {n}");
    }
    let (cache, _) = CompletionCache::open("f", Some(line));
    assert_eq!(cache.len(), 1);
}

#[test]
fn unreadable_and_foreign_lines_are_skipped() {
    let file = "\n  \nnot json\n{\"v\":2,\"key\":\"x\",\"output\":1}\n\
                {\"v\":1,\"key\":\"y\"}\n{\"v\":1,\"output\":1}\n{\"v\":1.0,\"key\":\"z\",\"output\":1}\n\
                [1,\"s\",\"from a sequence\"]\n[1,\"t\"]\n\
                {\"v\":1,\"key\":\"k\",\"output\":1,\"more\":2}\r\n{\"v\":1,\"key\":\"k\",\"output\":2}\n";
    let (cache, _) = CompletionCache::open("f", Some(file));
    assert_eq!(cache.len(), 2);
    assert_eq!(stored(&cache, "k").as_deref(), Some("2"));
    assert_eq!(stored(&cache, "s").as_deref(), Some("\"from a sequence\""));
}

#[test]
fn lines_that_repeat_a_member_are_skipped() {
    let count = |line: &str| CompletionCache::open("f", Some(line)).0.len();
    assert_eq!(count(r#"{"v":1,"key":"a","output":1,"key":"b"}"#), 0);
    assert_eq!(count(r#"{"v":1,"v":1,"key":"a","output":1}"#), 0);
    assert_eq!(count(r#"{"v":1,"key":"a","output":1,"\u006futput":1}"#), 0);
    assert_eq!(count(r#"{"v":1,"key":"a","output":1} x"#), 0);
    assert_eq!(count(r#"{"v":1,"key":"a","output":1}}"#), 0);
    assert_eq!(count("{}"), 0);
    // Members that mean nothing here may repeat.
    assert_eq!(count(r#"{"n":0,"v":1,"key":"a","output":1,"n":[]}"#), 1);
}

#[test]
fn members_that_mean_nothing_here_are_only_skipped_over() {
    let open = |line: &str| CompletionCache::open("f", Some(line)).0;
    let line = " { \"note\" : [\"\\ud800\", 1e999, {\"key\":\"x\"}] ,\t\"output\" : {\"a\":[1 , 2]} \
                , \"\\u006bey\":\"a\\nb\" , \"v\" : 1 } ";
    let cache = open(line);
    assert_eq!(stored(&cache, "a\nb").as_deref(), Some("{\"a\":[1,2]}"));
    let deep = format!("{}{}", "[".repeat(500), "]".repeat(500));
    assert_eq!(open(&format!("{{\"x\":{deep},\"v\":1,\"key\":\"k\",\"output\":0}}")).len(), 1);
    // The three that count are read in full.
    assert_eq!(open(&format!("{{\"v\":1,\"key\":\"k\",\"output\":{deep}}}")).len(), 0);
    assert_eq!(open(r#"{"v":1,"key":"k","output":"\ud800"}"#).len(), 0);
    assert_eq!(open(r#"{"v":1,"key":"k","output":1e999}"#).len(), 0);
    assert_eq!(open(r#"{"v":1,"key":"k","output":1,"\ud800":2}"#).len(), 0);
    let nested = |n: usize| format!("{}{}", "[".repeat(n), "]".repeat(n));
    let line = |n: usize| format!("{{\"v\":1,\"key\":\"k\",\"output\":{}}}", nested(n));
    assert_eq!((open(&line(126)).len(), open(&line(127)).len()), (1, 0));
}

#[test]
fn parsed_lines_hold_a_version_a_key_and_an_output() {
    let parse = |text: &str| JsonValue::parse(text);
    let entry = |version: &str, key: &str, listed: &str| {
        entry_of_parts(parse(version), parse(key), parse(listed)).map(|(k, o)| (k, o.text()))
    };
    assert_eq!(entry("1", "\"k\"", "[{\"a\":2}]"), Some(("k".into(), "{\"a\":2}".into())));
    assert_eq!(entry("2", "\"k\"", "[0]"), None);
    assert_eq!(entry("1", "7", "[0]"), None);
    assert_eq!(entry("1", "\"k\"", "[0,0]"), None);
    assert_eq!(entry("1", "\"k\"", "["), None);
    let items = |text: &str| match parse(text).unwrap() {
        JsonValue::Array(items) => entry_of_items(&items).map(|(k, o)| (k, o.text())),
        _ => unreachable!(),
    };
    assert_eq!(items("[1,\"k\",null]"), Some(("k".into(), "null".into())));
    assert_eq!(items("[1,\"k\"]"), None);
    assert_eq!(items("[1,\"k\",0,0]"), None);
    assert_eq!(items("[2,\"k\",0]"), None);
}

#[test]
fn a_failed_write_is_not_noted() {
    let (mut cache, _) = CompletionCache::open("f.jsonl", None);
    let err = cache
        .insert("k".to_string(), JsonValue::Null, Err("disk full".to_string()))
        .unwrap_err();
    assert_eq!(err.display(), "completion cache f.jsonl: disk full");
    assert_eq!(cache.len(), 0);
}
