//! What the caches remember.

use super::texts::{is_hex_of, is_white, lemma_hex_at};
use crate::backend::{BackendIdentity, OutputSchema};
use crate::cache::cache_embeddings::{
    embedding_key, embedding_key_parts, lemma_embedding_key_parts_injective, Cache, CacheError,
    CACHE_FORMAT_VERSION,
};
use crate::cache::merge::{join_caches, joined_entries};
use crate::cache::{framed, hash_key, lemma_framed_injective, sha256_digest, slices_view};
use crate::json::{json_first, json_parsed, json_text, same_json, JsonValue, JsonView};
use crate::store::TextMap;
use crate::text::lines::{lemma_one_line, lines_of, views};
use crate::text::number::{hex_of, to_decimal};
use crate::transform::cache::{
    completion_key_parts, entries_of, file_entries, lemma_appended_line_counts,
    lemma_completion_key_parts_injective, lemma_stored_output_reads_back, CompletionCache,
};
use crate::transform::error::CompletionCacheError;
use crate::transform::line::{
    entry_of, entry_of_items, entry_of_parts, fields_of, is_blank, is_space, line_view, storable, uses,
    value_entry,
};
use vstd::prelude::*;
use vstd::string::*;

verus! {

/// Whether SHA-256 gives two different inputs the same digest.
pub open spec fn digests_collide() -> bool {
    exists|a: Seq<u8>, b: Seq<u8>|
        a != b && #[trigger] sha256_digest(a) == #[trigger] sha256_digest(b)
}

/// Hexadecimal digits give back their bytes.
proof fn lemma_hex_injective(a: Seq<u8>, b: Seq<u8>)
    requires
        hex_of(a) == hex_of(b),
    ensures
        a == b,
{
    lemma_hex_at(a);
    lemma_hex_at(b);
    assert(a.len() == b.len());
    reveal_strlit("0123456789abcdef");
    assert forall|i: int| 0 <= i < a.len() implies a[i] == b[i] by {
        assert(is_hex_of(hex_of(a)[2 * i], hex_of(a)[2 * i + 1], a[i]));
        assert(is_hex_of(hex_of(b)[2 * i], hex_of(b)[2 * i + 1], b[i]));
        lemma_one_digit(a[i] as int / 16, b[i] as int / 16);
        lemma_one_digit(a[i] as int % 16, b[i] as int % 16);
    }
    assert(a =~= b);
}

/// The sixteen digits are told apart.
proof fn lemma_one_digit(d: int, e: int)
    requires
        0 <= d < 16,
        0 <= e < 16,
        "0123456789abcdef"@[d] == "0123456789abcdef"@[e],
    ensures
        d == e,
{
    reveal_strlit("0123456789abcdef");
}

/// Keys are equal only for equal parts, unless SHA-256 has a collision: no byte
/// of any part is left out, and no byte can move from one part to the next.
pub proof fn lemma_keys_tell_parts_apart(
    parts: &[&[u8]],
    others: &[&[u8]],
    r: String,
    s: String,
)
    requires
        call_ensures(hash_key, (parts,), r),
        call_ensures(hash_key, (others,), s),
        forall|i: int| 0 <= i < parts@.len() ==> (#[trigger] parts@[i])@.len() <= u64::MAX,
        forall|i: int| 0 <= i < others@.len() ==> (#[trigger] others@[i])@.len() <= u64::MAX,
    ensures
        r@.len() == 64,
        slices_view(parts@) == slices_view(others@) ==> r@ == s@,
        r@ == s@ ==> slices_view(parts@) == slices_view(others@) || digests_collide(),
{
    let (a, b) = (slices_view(parts@), slices_view(others@));
    assert forall|i: int| 0 <= i < a.len() implies (#[trigger] a[i]).len() <= u64::MAX by {
        assert(parts@[i]@.len() <= u64::MAX);
    }
    assert forall|i: int| 0 <= i < b.len() implies (#[trigger] b[i]).len() <= u64::MAX by {
        assert(others@[i]@.len() <= u64::MAX);
    }
    if r@ == s@ {
        lemma_hex_injective(sha256_digest(framed(a)), sha256_digest(framed(b)));
        if framed(a) == framed(b) {
            lemma_framed_injective(a, b);
        } else {
            assert(sha256_digest(framed(a)) == sha256_digest(framed(b)));
        }
    }
}

/// Whether every text that is hashed for a request is shorter than 2^64 bytes.
pub open spec fn hashes_short_texts(model: Seq<char>, data: Seq<Seq<char>>) -> bool {
    forall|i: int|
        0 <= i < embedding_key_parts(model, data).len() ==> (#[trigger] embedding_key_parts(
            model,
            data,
        )[i]).len() <= u64::MAX
}

/// Different requests have different keys, but for a collision.
proof fn lemma_requests_told_apart(
    model: Seq<char>,
    data: Seq<Seq<char>>,
    other: Seq<char>,
    others: Seq<Seq<char>>,
)
    requires
        hashes_short_texts(model, data),
        hashes_short_texts(other, others),
        embedding_key(model, data) == embedding_key(other, others),
    ensures
        model == other && data == others || digests_collide(),
{
    let (a, b) = (embedding_key_parts(model, data), embedding_key_parts(other, others));
    lemma_hex_injective(sha256_digest(framed(a)), sha256_digest(framed(b)));
    if framed(a) == framed(b) {
        lemma_embedding_key_parts_injective(model, data, other, others);
    } else {
        assert(sha256_digest(framed(a)) == sha256_digest(framed(b)));
    }
}

/// What is added for a model and its inputs is found for them again, and the
/// first that was added stays. What any other model or inputs find is what they
/// found before, unless SHA-256 has a collision.
pub proof fn lemma_added_embeddings_are_found<V>(
    cache: &mut Cache<V>,
    before: &Cache<V>,
    after: &Cache<V>,
    model: &str,
    data: &Vec<String>,
    embeddings: V,
    had: Option<&V>,
    has: Option<&V>,
    other: &str,
    others: &Vec<String>,
    other_had: Option<&V>,
    other_has: Option<&V>,
)
    requires
        *before == *old(cache),
        *after == *final(cache),
        call_ensures(Cache::<V>::add_embedding, (cache, model, data, embeddings), ()),
        call_ensures(Cache::<V>::get_embedding, (before, model, data), had),
        call_ensures(Cache::<V>::get_embedding, (after, model, data), has),
        call_ensures(Cache::<V>::get_embedding, (before, other, others), other_had),
        call_ensures(Cache::<V>::get_embedding, (after, other, others), other_has),
        hashes_short_texts(model@, views(data@)),
        hashes_short_texts(other@, views(others@)),
    ensures
        had is None ==> has == Some(&embeddings),
        had is Some ==> has == had,
        model@ != other@ || views(data@) != views(others@) ==> other_has == other_had
            || digests_collide(),
        after.version == before.version,
{
    if embedding_key(model@, views(data@)) == embedding_key(other@, views(others@)) {
        lemma_requests_told_apart(model@, views(data@), other@, views(others@));
    }
}

/// A new cache finds nothing.
pub proof fn lemma_new_caches_are_empty<V>(
    cache: &Cache<V>,
    model: &str,
    data: &Vec<String>,
    r: Option<&V>,
)
    requires
        call_ensures(Cache::<V>::new, (), *cache) || call_ensures(
            <Cache<V> as Default>::default,
            (),
            *cache,
        ),
        call_ensures(Cache::<V>::get_embedding, (cache, model, data), r),
    ensures
        r is None,
        cache.version == CACHE_FORMAT_VERSION,
{
}

/// A cache file of this format is loaded whole; one of another format is loaded
/// as an empty cache.
pub proof fn lemma_caches_are_loaded<V>(
    file: Cache<V>,
    held: &Cache<V>,
    loaded: &Cache<V>,
    model: &str,
    data: &Vec<String>,
    had: Option<&V>,
    has: Option<&V>,
)
    requires
        call_ensures(Cache::<V>::loaded, (file,), *loaded),
        *held == file,
        call_ensures(Cache::<V>::get_embedding, (held, model, data), had),
        call_ensures(Cache::<V>::get_embedding, (loaded, model, data), has),
    ensures
        file.version == CACHE_FORMAT_VERSION ==> has == had,
        file.version != CACHE_FORMAT_VERSION ==> has is None,
        loaded.version == CACHE_FORMAT_VERSION,
{
}

/// A copy of a cache finds copies of what the cache finds, and nothing else.
pub proof fn lemma_copied_caches_find_the_same<V: Clone>(
    cache: &Cache<V>,
    copy: &Cache<V>,
    model: &str,
    data: &Vec<String>,
    had: Option<&V>,
    has: Option<&V>,
)
    requires
        call_ensures(Cache::<V>::copy, (cache,), *copy),
        call_ensures(Cache::<V>::get_embedding, (cache, model, data), had),
        call_ensures(Cache::<V>::get_embedding, (copy, model, data), has),
    ensures
        had is None ==> has is None,
        had matches Some(a) ==> (has matches Some(b) && cloned(*a, *b)),
        copy.version == cache.version,
{
    let key = embedding_key(model@, views(data@));
    assert(cache.cache@.contains_key(key) == cache.cache@.dom().contains(key));
    assert(copy.cache@.contains_key(key) == copy.cache@.dom().contains(key));
}

/// The text of a cache tells how many entries it has.
pub proof fn lemma_cache_text<V>(cache: &Cache<V>, n: usize, digits: String, r: String)
    requires
        call_ensures(Cache::<V>::display, (cache,), r),
        call_ensures(TextMap::<V>::len, (&cache.cache,), n),
        call_ensures(to_decimal, (n as u128,), digits),
    ensures
        r@ == "Cache with "@ + digits@ + " entries\n"@,
{
}

/// Whether `i` is the last of some caches that has a key.
pub open spec fn is_last_with<V>(caches: Seq<Cache<V>>, key: Seq<char>, i: int) -> bool {
    &&& 0 <= i < caches.len()
    &&& caches[i].cache@.contains_key(key)
    &&& forall|j: int|
        i < j < caches.len() ==> !(#[trigger] caches[j]).cache@.contains_key(key)
}

/// Joined caches have every entry of each: under a key the entry of the last
/// cache that has one, or that of the base where no other has. They have no
/// other keys.
pub proof fn lemma_joined_caches_keep_every_entry<V>(
    base: Cache<V>,
    others: Vec<Cache<V>>,
    r: Cache<V>,
    key: Seq<char>,
)
    requires
        call_ensures(join_caches::<V>, (base, others), r),
    ensures
        r.version == base.version,
        forall|i: int| #[trigger]
            is_last_with(others@, key, i) ==> r.cache@.contains_key(key) && r.cache@[key]
                == others@[i].cache@[key],
        (forall|i: int|
            0 <= i < others@.len() ==> !(#[trigger] others@[i]).cache@.contains_key(key)) ==> (
        r.cache@.contains_key(key) == base.cache@.contains_key(key) && (base.cache@.contains_key(
            key,
        ) ==> r.cache@[key] == base.cache@[key])),
{
    lemma_joined(base.cache@, others@, key);
}

/// What a key has in joined caches.
proof fn lemma_joined<V>(base: Map<Seq<char>, V>, others: Seq<Cache<V>>, key: Seq<char>)
    ensures
        forall|i: int| #[trigger]
            is_last_with(others, key, i) ==> joined_entries(base, others).contains_key(key)
                && joined_entries(base, others)[key] == others[i].cache@[key],
        (forall|i: int|
            0 <= i < others.len() ==> !(#[trigger] others[i]).cache@.contains_key(key)) ==> (
        joined_entries(base, others).contains_key(key) == base.contains_key(key) && (
        base.contains_key(key) ==> joined_entries(base, others)[key] == base[key])),
    decreases others.len(),
{
    if others.len() > 0 {
        let rest = others.drop_last();
        let at = others.len() - 1;
        let all = joined_entries(base, others);
        lemma_joined(base, rest, key);
        assert forall|i: int| #[trigger] is_last_with(others, key, i) implies all.contains_key(key)
            && all[key] == others[i].cache@[key] by {
            if i < at {
                assert(!others[at].cache@.contains_key(key));
                assert forall|j: int| i < j < rest.len() implies !(
                #[trigger] rest[j]).cache@.contains_key(key) by {
                    assert(rest[j] == others[j]);
                }
                assert(is_last_with(rest, key, i));
            }
        }
        if forall|i: int|
            0 <= i < others.len() ==> !(#[trigger] others[i]).cache@.contains_key(key) {
            assert forall|i: int| 0 <= i < rest.len() implies !(
            #[trigger] rest[i]).cache@.contains_key(key) by {
                assert(rest[i] == others[i]);
            }
            assert(!others[at].cache@.contains_key(key));
        }
    }
}

/// The text of a cache error names the file and tells what went wrong.
pub proof fn lemma_cache_errors_tell_all(e: &CacheError, r: String)
    requires
        call_ensures(CacheError::display, (e,), r),
    ensures
        e matches CacheError::Io { path, message } ==> r@ == "cache file "@ + path@ + ": "@
            + message@,
        e matches CacheError::Json { path, message } ==> r@ == "cache file "@ + path@
            + " is not valid JSON: "@ + message@,
{
}

/// Whether every text that is hashed for a completion is shorter than 2^64
/// bytes.
pub open spec fn hashes_short_parts(
    identity: &BackendIdentity,
    prompt: &str,
    schema: Option<&OutputSchema>,
    input: &str,
) -> bool {
    are_short(
        completion_key_parts(
            identity@,
            prompt@,
            match schema {
                Some(s) => Some(s@),
                None => None,
            },
            input@,
        ),
    )
}

/// Whether all parts are shorter than 2^64 bytes.
pub open spec fn are_short(parts: Seq<Seq<u8>>) -> bool {
    forall|i: int| 0 <= i < parts.len() ==> (#[trigger] parts[i]).len() <= u64::MAX
}

/// Whether the name of a schema holds no NUL.
pub open spec fn is_named_plainly(schema: Option<&OutputSchema>) -> bool {
    schema matches Some(s) ==> forall|i: int| 0 <= i < s.name@.len() ==> (#[trigger] s.name@[i])
        != '\0'
}

/// Two completions have one key only if nothing that affects the output differs,
/// or SHA-256 has a collision: neither the backend's kind, endpoint and model,
/// nor the prompt, the schema and the input.
pub proof fn lemma_completions_are_told_apart(
    identity: &BackendIdentity,
    prompt: &str,
    schema: Option<&OutputSchema>,
    input: &str,
    other_identity: &BackendIdentity,
    other_prompt: &str,
    other_schema: Option<&OutputSchema>,
    other_input: &str,
    r: String,
    s: String,
)
    requires
        call_ensures(CompletionCache::key, (identity, prompt, schema, input), r),
        call_ensures(
            CompletionCache::key,
            (other_identity, other_prompt, other_schema, other_input),
            s,
        ),
        hashes_short_parts(identity, prompt, schema, input),
        hashes_short_parts(other_identity, other_prompt, other_schema, other_input),
        is_named_plainly(schema),
        is_named_plainly(other_schema),
    ensures
        r@ == s@ ==> digests_collide() || {
            &&& identity.kind@ == other_identity.kind@
            &&& identity.base_url@ == other_identity.base_url@
            &&& identity.model@ == other_identity.model@
            &&& prompt@ == other_prompt@
            &&& input@ == other_input@
            &&& schema is Some <==> other_schema is Some
            &&& schema is Some ==> schema->0.name@ == other_schema->0.name@ && json_text(
                schema->0.schema@,
            ) == json_text(other_schema->0.schema@)
        },
{
    let view = match schema {
        Some(s) => Some(s@),
        None => None,
    };
    let other_view = match other_schema {
        Some(s) => Some(s@),
        None => None,
    };
    let a = completion_key_parts(identity@, prompt@, view, input@);
    let b = completion_key_parts(other_identity@, other_prompt@, other_view, other_input@);
    if r@ == s@ {
        lemma_hex_injective(sha256_digest(framed(a)), sha256_digest(framed(b)));
        if framed(a) == framed(b) {
            lemma_completion_key_parts_injective(
                identity@,
                prompt@,
                view,
                input@,
                other_identity@,
                other_prompt@,
                other_view,
                other_input@,
            );
        } else {
            assert(sha256_digest(framed(a)) == sha256_digest(framed(b)));
        }
    }
}

/// The same completion has the same key.
pub proof fn lemma_completions_are_found_again(
    identity: &BackendIdentity,
    prompt: &str,
    schema: Option<&OutputSchema>,
    input: &str,
    r: String,
    s: String,
)
    requires
        call_ensures(CompletionCache::key, (identity, prompt, schema, input), r),
        call_ensures(CompletionCache::key, (identity, prompt, schema, input), s),
    ensures
        r@ == s@,
        r@.len() == s@.len(),
{
}

/// An output that was written is found under its key, whole; every other key
/// finds what it found before. What couldn't be written is not remembered.
pub proof fn lemma_written_outputs_are_found(
    cache: &mut CompletionCache,
    before: &CompletionCache,
    after: &CompletionCache,
    key: String,
    output: JsonValue,
    written: Result<(), String>,
    r: Result<(), CompletionCacheError>,
    asked: &str,
    had: Option<&JsonValue>,
    has: Option<&JsonValue>,
)
    requires
        *before == *old(cache),
        *after == *final(cache),
        call_ensures(CompletionCache::insert, (cache, key, output, written), r),
        call_ensures(CompletionCache::get, (before, asked), had),
        call_ensures(CompletionCache::get, (after, asked), has),
    ensures
        r is Ok <==> written is Ok,
        written is Ok && asked@ == key@ ==> (has matches Some(found) && found@ == output@),
        written is Err || asked@ != key@ ==> match had {
            Some(a) => has matches Some(b) && b@ == a@,
            None => has is None,
        },
        r matches Err(e) ==> e.path@ == before.path@ && written == Err::<(), String>(e.source),
{
}

/// The line of an entry is the JSON text of an object with its format, its key
/// and its output, and a line feed.
pub proof fn lemma_lines_hold_their_entries(
    key: &str,
    output: &JsonValue,
    r: String,
    value: &JsonValue,
    text: String,
)
    requires
        call_ensures(CompletionCache::line, (key, output), r),
        value@ == JsonView::Object(
            seq![
                ("v"@, JsonView::Number(seq!['1'])),
                ("key"@, JsonView::Text(key@)),
                ("output"@, output@),
            ],
        ),
        call_ensures(JsonValue::text, (value,), text),
    ensures
        r@ == text@ + seq!['\n'],
{
    assert(crate::text::number::signed_decimal(1) =~= seq!['1']);
    assert(value@ == line_view(key@, output@));
}

/// A file that a line was appended to holds its entry, but for the order of the
/// members of objects, and every other entry that it held before.
pub proof fn lemma_appended_entries_are_read_back(
    path: &str,
    text: &str,
    longer: &str,
    key: &str,
    output: &JsonValue,
    line: String,
    before: (CompletionCache, bool),
    after: (CompletionCache, bool),
)
    requires
        call_ensures(CompletionCache::open, (path, Some(text)), before),
        call_ensures(CompletionCache::open, (path, Some(longer)), after),
        call_ensures(CompletionCache::line, (key, output), line),
        storable(output@),
        text@.len() == 0 || text@.last() == '\n',
        longer@ == text@ + line@,
    ensures
        after.0@.contains_key(key@),
        same_json(output@, after.0@[key@]),
        forall|other: Seq<char>|
            #![trigger after.0@.contains_key(other)]
            other != key@ ==> after.0@.contains_key(other) == before.0@.contains_key(other) && (
            before.0@.contains_key(other) ==> after.0@[other] == before.0@[other]),
        !before.1 && !after.1,
{
    let whole = json_text(line_view(key@, output@));
    assert(line@.drop_last() =~= whole);
    assert(longer@ =~= text@ + whole + seq!['\n']);
    assert(whole[0] == '{');
    crate::text::trim::lemma_not_blank(whole);
    lemma_appended_line_counts(text@, whole);
    let list = lines_of(longer@);
    let at = list.len() - 1;
    assert(list[at] == whole);
    lemma_stored_output_reads_back(text@, key@, output@);
    let now = file_entries(longer@);
    let was = file_entries(text@);
    assert forall|other: Seq<char>| #![trigger now.contains_key(other)] other != key@ implies
        now.contains_key(other) == was.contains_key(other) && (was.contains_key(other)
        ==> now[other] == was[other]) by {
        assert(now.remove(key@).contains_key(other) == was.remove(key@).contains_key(other));
        if was.contains_key(other) {
            assert(now.remove(key@)[other] == was.remove(key@)[other]);
        }
    }
}

/// A cache without a file is empty; a file whose last line isn't ended is told
/// of; the path is kept.
pub proof fn lemma_opened_caches(
    path: &str,
    text: Option<&str>,
    r: (CompletionCache, bool),
)
    requires
        call_ensures(CompletionCache::open, (path, text), r),
    ensures
        r.0.path@ == path@,
        text is None ==> !r.1 && forall|key: Seq<char>| !#[trigger] r.0@.contains_key(key),
        text matches Some(t) ==> (r.1 <==> t@.len() > 0 && t@[t@.len() - 1] != '\n'),
{
}

/// A map gives a key what was put under it last, and the others keep theirs.
pub proof fn lemma_maps_keep_their_entries<V>(
    map: &mut TextMap<V>,
    before: &TextMap<V>,
    after: &TextMap<V>,
    key: String,
    value: V,
    asked: &str,
    had: Option<&V>,
    has: Option<&V>,
)
    requires
        *before == *old(map),
        *after == *final(map),
        call_ensures(TextMap::<V>::insert, (map, key, value), ()),
        call_ensures(TextMap::<V>::get, (before, asked), had),
        call_ensures(TextMap::<V>::get, (after, asked), has),
    ensures
        asked@ == key@ ==> has == Some(&value),
        asked@ != key@ ==> has == had,
{
}

/// What a line of parts says is its key and its output, both whole; it says
/// nothing in another format, without a text for a key, or with anything but one
/// output.
pub proof fn lemma_entries_are_read_whole(
    version: Result<JsonValue, String>,
    key: Result<JsonValue, String>,
    listed: Result<JsonValue, String>,
    r: Option<(String, JsonValue)>,
)
    requires
        call_ensures(entry_of_parts, (version, key, listed), r),
    ensures
        r is Some <==> is_version_one(version) && (key is Ok && key->Ok_0@ is Text) && (
        listed is Ok && listed->Ok_0@ is Array && listed->Ok_0@->Array_0.len() == 1),
        r matches Some((k, o)) ==> key->Ok_0@ == JsonView::Text(k@) && listed->Ok_0@->Array_0[0]
            == o@,
{
    assert(crate::text::number::decimal(1) =~= seq!['1']);
}

/// Whether a version is that of this format.
pub open spec fn is_version_one(version: Result<JsonValue, String>) -> bool {
    version is Ok && version->Ok_0@ == JsonView::Number(seq!['1'])
}

/// The same holds of a line that is an array of the three.
pub proof fn lemma_listed_entries_are_read_whole(
    items: &Vec<JsonValue>,
    r: Option<(String, JsonValue)>,
)
    requires
        call_ensures(entry_of_items, (items,), r),
    ensures
        r is Some <==> items@.len() == 3 && items@[0]@ == JsonView::Number(seq!['1'])
            && items@[1]@ is Text,
        r matches Some((k, o)) ==> items@[1]@ == JsonView::Text(k@) && items@[2]@ == o@,
{
    assert(crate::text::number::decimal(1) =~= seq!['1']);
    assert(crate::transform::line::views_of(items@).len() == items@.len());
    if items@.len() == 3 {
        assert(crate::transform::line::views_of(items@)[0] == items@[0]@);
        assert(crate::transform::line::views_of(items@)[1] == items@[1]@);
        assert(crate::transform::line::views_of(items@)[2] == items@[2]@);
    }
}

/// Whether a text is one line that isn't blank.
pub open spec fn is_one_line(text: Seq<char>) -> bool {
    &&& text.len() > 0 && !is_white(text[0])
    &&& forall|i: int| 0 <= i < text.len() ==> (#[trigger] text[i]) != '\n'
}

/// Whether a line is one JSON value, and whitespace behind it.
pub open spec fn is_one_value(line: Seq<char>, n: nat) -> bool {
    &&& json_first(line) == Some(n)
    &&& n <= line.len()
    &&& forall|i: int|
        n <= i < line.len() ==> (#[trigger] line[i] == ' ' || line[i] == '\t' || line[i] == '\r')
}

/// What a file of one line holds.
proof fn lemma_one_line_file(text: Seq<char>, n: nat)
    requires
        is_one_line(text),
        is_one_value(text, n),
    ensures
        file_entries(text) == match value_entry(text.take(n as int)) {
            Some((key, output)) => Map::<Seq<char>, JsonView>::empty().insert(key, output),
            None => Map::empty(),
        },
{
    lemma_one_line(text);
    super::intake::lemma_blank(text);
    assert(!super::texts::all_white(text)) by {
        assert(!is_white(text[0]));
    }
    let list = lines_of(text);
    assert(list =~= seq![text]);
    assert(list.drop_last() =~= Seq::empty());
    assert(list.last() == text);
    let rest = text.skip(n as int);
    assert forall|i: int| 0 <= i < rest.len() implies is_space(#[trigger] rest[i]) by {
        assert(rest[i] == text[n + i]);
    }
    assert(is_blank(rest));
    assert(entries_of(list.drop_last()) =~= Map::empty());
    assert(entries_of(list) == match entry_of(text) {
        Some((key, output)) => Map::<Seq<char>, JsonView>::empty().insert(key, output),
        None => Map::empty(),
    });
}

/// A line that is an array of the format, a key and an output holds the output
/// under the key, whole.
pub proof fn lemma_array_lines_are_read(
    path: &str,
    text: &str,
    n: nat,
    key: Seq<char>,
    output: JsonView,
    r: (CompletionCache, bool),
)
    requires
        call_ensures(CompletionCache::open, (path, Some(text)), r),
        is_one_line(text@),
        is_one_value(text@, n),
        text@[0] == '[' && n > 0,
        json_parsed(text@.take(n as int)) == Ok::<JsonView, Seq<char>>(
            JsonView::Array(seq![JsonView::Number(seq!['1']), JsonView::Text(key), output]),
        ),
    ensures
        r.0@.contains_key(key),
        r.0@[key] == output,
        forall|other: Seq<char>| #[trigger] r.0@.contains_key(other) ==> other == key,
{
    lemma_one_line_file(text@, n);
    assert(crate::text::number::decimal(1) =~= seq!['1']);
    assert(text@.take(n as int)[0] == '[');
}

/// Whether the member at `i` is the only one of a name, with a text for a value.
pub open spec fn is_only_field(
    fields: Seq<(Seq<char>, Seq<char>)>,
    name: Seq<char>,
    i: int,
) -> bool {
    &&& 0 <= i < fields.len()
    &&& forall|j: int| 0 <= j < fields.len() ==> ((#[trigger] fields[j]).0 == name <==> j == i)
}

/// The uses of a name that stands once.
proof fn lemma_only_use(fields: Seq<(Seq<char>, Seq<char>)>, name: Seq<char>, i: int)
    requires
        is_only_field(fields, name, i),
    ensures
        uses(fields, name) == seq![fields[i].1],
    decreases fields.len(),
{
    let rest = fields.drop_last();
    let last = fields.len() - 1;
    if i < last {
        assert(fields[last].0 != name);
        assert forall|j: int| 0 <= j < rest.len() implies ((#[trigger] rest[j]).0 == name <==> j
            == i) by {
            assert(rest[j] == fields[j]);
        }
        lemma_only_use(rest, name, i);
    } else {
        lemma_no_use(rest, fields, name);
        assert(fields[last].0 == name);
        assert(uses(fields, name) =~= seq![fields[i].1]);
    }
}

/// The uses of a name that doesn't stand.
proof fn lemma_no_use(
    rest: Seq<(Seq<char>, Seq<char>)>,
    fields: Seq<(Seq<char>, Seq<char>)>,
    name: Seq<char>,
)
    requires
        rest.len() <= fields.len(),
        forall|j: int|
            0 <= j < rest.len() ==> (#[trigger] rest[j]) == fields[j] && fields[j].0 != name,
    ensures
        uses(rest, name) == Seq::<Seq<char>>::empty(),
    decreases rest.len(),
{
    if rest.len() > 0 {
        assert(rest[rest.len() - 1].0 != name);
        let before = rest.drop_last();
        assert forall|j: int| 0 <= j < before.len() implies (#[trigger] before[j]) == fields[j]
            && fields[j].0 != name by {
            assert(before[j] == rest[j]);
        }
        lemma_no_use(before, fields, name);
    }
}

/// A line that is an object holds the output under the key wherever the format,
/// the key and the output stand in it, and whatever other members stand beside
/// them.
pub proof fn lemma_members_stand_in_any_order(
    path: &str,
    text: &str,
    n: nat,
    fields: Seq<(Seq<char>, Seq<char>)>,
    v: int,
    k: int,
    o: int,
    key: Seq<char>,
    output: JsonView,
    r: (CompletionCache, bool),
)
    requires
        call_ensures(CompletionCache::open, (path, Some(text)), r),
        is_one_line(text@),
        is_one_value(text@, n),
        text@[0] == '{' && n > 0,
        fields_of(text@.subrange(1, n as int)) == Some(fields),
        is_only_field(fields, "v"@, v),
        is_only_field(fields, "key"@, k),
        is_only_field(fields, "output"@, o),
        json_parsed(fields[v].1) == Ok::<JsonView, Seq<char>>(JsonView::Number(seq!['1'])),
        json_parsed(fields[k].1) == Ok::<JsonView, Seq<char>>(JsonView::Text(key)),
        json_parsed(seq!['['] + fields[o].1 + seq![']']) == Ok::<JsonView, Seq<char>>(
            JsonView::Array(seq![output]),
        ),
    ensures
        r.0@.contains_key(key),
        r.0@[key] == output,
        forall|other: Seq<char>| #[trigger] r.0@.contains_key(other) ==> other == key,
{
    lemma_one_line_file(text@, n);
    assert(crate::text::number::decimal(1) =~= seq!['1']);
    let value = text@.take(n as int);
    assert(value[0] == '{');
    assert(value.skip(1) =~= text@.subrange(1, n as int));
    lemma_only_use(fields, "v"@, v);
    lemma_only_use(fields, "key"@, k);
    lemma_only_use(fields, "output"@, o);
}

} // verus!
