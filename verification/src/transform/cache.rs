//! Completed outputs, one JSON line each, keyed by everything that affects the
//! output: backend, model, prompt, schema and input.
//!
//! Lines are only ever appended, so an interrupted run leaves at most one
//! broken last line, which the next run skips.

use super::error::CompletionCacheError;
use super::line::{entry_of, lemma_line_plain, line_read, line_view, read_line, storable};
use crate::backend::{member, object, BackendIdentity, IdentityView, OutputSchema, SchemaView};
use crate::cache::{
    framed, hash_key, key_of, le_bytes, lemma_framed_injective, slices_view, to_le,
};
use crate::json::{is_plain, is_printable, json_text, same_json, JsonValue, JsonView};
use crate::store::TextMap;
use crate::text::lines::{
    lemma_lines_concat, lemma_lines_ended, lemma_one_line, lines, lines_of, views, without_cr,
};
use crate::text::search::strip_suffix;
use crate::text::trim::{lemma_not_blank, lemma_trailing_space, trim, trimmed};
use crate::text::owned;
use vstd::prelude::*;
use vstd::string::*;
use vstd::utf8::{encode_utf8, encode_utf8_decode_utf8};

verus! {

/// The line format this release reads and writes.
pub const FORMAT_VERSION: u32 = 1;

/// What the schema adds to a key: its name, a NUL and its JSON text, or
/// nothing without a schema.
pub open spec fn schema_part(schema: Option<SchemaView>) -> Seq<char> {
    match schema {
        Some(s) => s.name + seq!['\0'] + json_text(s.schema),
        None => Seq::empty(),
    }
}

/// What is hashed for one completion.
pub open spec fn completion_key_parts(
    identity: IdentityView,
    prompt: Seq<char>,
    schema: Option<SchemaView>,
    input: Seq<char>,
) -> Seq<Seq<u8>> {
    seq![
        encode_utf8("lvv-completion-cache"@),
        le_bytes(FORMAT_VERSION as nat, 4),
        encode_utf8(identity.kind),
        encode_utf8(identity.base_url),
        encode_utf8(identity.model),
        encode_utf8(prompt),
        encode_utf8(schema_part(schema)),
        encode_utf8(input),
    ]
}

/// The key of one completion.
pub open spec fn completion_key(
    identity: IdentityView,
    prompt: Seq<char>,
    schema: Option<SchemaView>,
    input: Seq<char>,
) -> Seq<char> {
    key_of(completion_key_parts(identity, prompt, schema, input))
}

/// Whether a schema's name holds no NUL.
pub open spec fn plainly_named(schema: Option<SchemaView>) -> bool {
    schema matches Some(s) ==> forall|i: int|
        0 <= i < s.name.len() ==> (#[trigger] s.name[i]) != '\0'
}

/// Completions that differ in the backend's kind, endpoint or model, in the
/// prompt, in the schema's name or text, or in the input are hashed from
/// different bytes. Every text is shorter than 2^64 bytes.
pub proof fn lemma_completion_key_parts_injective(
    identity: IdentityView,
    prompt: Seq<char>,
    schema: Option<SchemaView>,
    input: Seq<char>,
    other_identity: IdentityView,
    other_prompt: Seq<char>,
    other_schema: Option<SchemaView>,
    other_input: Seq<char>,
)
    requires
        framed(completion_key_parts(identity, prompt, schema, input)) == framed(
            completion_key_parts(other_identity, other_prompt, other_schema, other_input),
        ),
        plainly_named(schema),
        plainly_named(other_schema),
        forall|i: int|
            0 <= i < 8 ==> (#[trigger] completion_key_parts(
                identity,
                prompt,
                schema,
                input,
            )[i]).len() <= u64::MAX,
        forall|i: int|
            0 <= i < 8 ==> (#[trigger] completion_key_parts(
                other_identity,
                other_prompt,
                other_schema,
                other_input,
            )[i]).len() <= u64::MAX,
    ensures
        identity == other_identity,
        prompt == other_prompt,
        input == other_input,
        schema is Some <==> other_schema is Some,
        schema matches Some(s) ==> other_schema matches Some(t) && s.name == t.name && json_text(
            s.schema,
        ) == json_text(t.schema),
{
    let a = completion_key_parts(identity, prompt, schema, input);
    let b = completion_key_parts(other_identity, other_prompt, other_schema, other_input);
    lemma_framed_injective(a, b);
    assert(a[2] == b[2]);
    assert(a[3] == b[3]);
    assert(a[4] == b[4]);
    assert(a[5] == b[5]);
    assert(a[6] == b[6]);
    assert(a[7] == b[7]);
    encode_utf8_decode_utf8(identity.kind);
    encode_utf8_decode_utf8(other_identity.kind);
    encode_utf8_decode_utf8(identity.base_url);
    encode_utf8_decode_utf8(other_identity.base_url);
    encode_utf8_decode_utf8(identity.model);
    encode_utf8_decode_utf8(other_identity.model);
    encode_utf8_decode_utf8(prompt);
    encode_utf8_decode_utf8(other_prompt);
    encode_utf8_decode_utf8(schema_part(schema));
    encode_utf8_decode_utf8(schema_part(other_schema));
    encode_utf8_decode_utf8(input);
    encode_utf8_decode_utf8(other_input);
    let whole = schema_part(schema);
    assert(whole == schema_part(other_schema));
    if schema is Some && other_schema is Some {
        let s = schema->0;
        let t = other_schema->0;
        assert(whole[s.name.len() as int] == '\0');
        assert(whole[t.name.len() as int] == '\0');
        if s.name.len() < t.name.len() {
            assert(t.name[s.name.len() as int] == whole[s.name.len() as int]);
        } else if t.name.len() < s.name.len() {
            assert(s.name[t.name.len() as int] == whole[t.name.len() as int]);
        }
        let n = s.name.len() as int;
        assert(whole.take(n) =~= s.name);
        assert(whole.take(n) =~= t.name);
        assert(whole.skip(n + 1) =~= json_text(s.schema));
        assert(whole.skip(n + 1) =~= json_text(t.schema));
    } else if schema is Some {
        assert(whole[schema->0.name.len() as int] == '\0');
    } else if other_schema is Some {
        assert(whole[other_schema->0.name.len() as int] == '\0');
    }
}

/// The entries that lines hold. Blank lines and lines that hold none are
/// skipped, and the later of two lines with the same key counts.
pub open spec fn entries_of(list: Seq<Seq<char>>) -> Map<Seq<char>, JsonView>
    decreases list.len(),
{
    if list.len() == 0 {
        Map::empty()
    } else {
        let before = entries_of(list.drop_last());
        let line = list.last();
        if trimmed(line).len() == 0 {
            before
        } else {
            match entry_of(line) {
                Some((key, output)) => before.insert(key, output),
                None => before,
            }
        }
    }
}

/// The entries that a cache file holds.
pub open spec fn file_entries(text: Seq<char>) -> Map<Seq<char>, JsonView> {
    entries_of(lines_of(text))
}

/// The models of the values of a map.
pub open spec fn value_views(entries: Map<Seq<char>, JsonValue>) -> Map<Seq<char>, JsonView> {
    entries.map_values(|value: JsonValue| value@)
}

/// Completed outputs, and the file that holds them.
pub struct CompletionCache {
    /// The cache file.
    pub path: String,
    /// The outputs by their keys.
    pub entries: TextMap<JsonValue>,
}

impl View for CompletionCache {
    type V = Map<Seq<char>, JsonView>;

    open spec fn view(&self) -> Map<Seq<char>, JsonView> {
        value_views(self.entries@)
    }
}

impl CompletionCache {
    /// Whether the cache is well formed.
    pub open spec fn wf(&self) -> bool {
        self.entries.wf()
    }

    /// The cache of the file at `path` that holds `text`; `None` means that
    /// there is no such file.
    ///
    /// Also tells whether a line feed has to be written before the next entry:
    /// a broken last line is finished so that the entry starts on its own.
    pub fn open(path: &str, text: Option<&str>) -> (r: (CompletionCache, bool))
        ensures
            r.0.wf(),
            r.0.path@ == path@,
            r.0@ == match text {
                Some(t) => file_entries(t@),
                None => Map::empty(),
            },
            r.1 == (text matches Some(t) && t@.len() > 0 && t@.last() != '\n'),
            text matches Some(t) ==> forall|i: int|
                0 <= i < lines_of(t@).len() && trimmed(#[trigger] lines_of(t@)[i]).len() > 0
                    ==> line_read(lines_of(t@)[i]),
    {
        match text {
            Some(t) => {
                let entries = parse_lines(t);
                let ends_mid_line = !t.is_empty() && !ends_line(t);
                (CompletionCache { path: owned(path), entries }, ends_mid_line)
            },
            None => {
                let r = CompletionCache { path: owned(path), entries: TextMap::new() };
                proof {
                    assert(r@ =~= Map::empty());
                }
                (r, false)
            },
        }
    }

    /// The key of one completion.
    pub fn key(
        identity: &BackendIdentity,
        prompt: &str,
        schema: Option<&OutputSchema>,
        input: &str,
    ) -> (r: String)
        ensures
            r@ == completion_key(
                identity@,
                prompt@,
                match schema {
                    Some(s) => Some(s@),
                    None => None,
                },
                input@,
            ),
    {
        let mut part = String::new();
        match schema {
            Some(s) => {
                part.append(s.name.as_str());
                part.push('\0');
                let text = s.schema.text();
                part.append(text.as_str());
            },
            None => {},
        }
        let version = to_le(FORMAT_VERSION as u64, 4);
        let mut parts: Vec<&[u8]> = Vec::new();
        parts.push("lvv-completion-cache".as_bytes());
        parts.push(version.as_slice());
        parts.push(identity.kind.as_str().as_bytes());
        parts.push(identity.base_url.as_str().as_bytes());
        parts.push(identity.model.as_str().as_bytes());
        parts.push(prompt.as_bytes());
        parts.push(part.as_str().as_bytes());
        parts.push(input.as_bytes());
        proof {
            let view = match schema {
                Some(s) => Some(s@),
                None => None,
            };
            assert(part@ =~= schema_part(view));
            assert(slices_view(parts@) =~= completion_key_parts(identity@, prompt@, view, input@));
        }
        hash_key(parts.as_slice())
    }

    /// The stored output of `key`, if there is one.
    pub fn get(&self, key: &str) -> (r: Option<&JsonValue>)
        requires
            self.wf(),
        ensures
            match r {
                Some(output) => self@.contains_key(key@) && output@ == self@[key@],
                None => !self@.contains_key(key@),
            },
    {
        self.entries.get(key)
    }

    /// The line to append to the file for an entry.
    pub fn line(key: &str, output: &JsonValue) -> (r: String)
        ensures
            r@ == json_text(line_view(key@, output@)) + seq!['\n'],
            is_plain(output@) ==> is_printable(r@.drop_last()),
    {
        let mut members: Vec<(String, JsonValue)> = Vec::new();
        members.push(member("v", JsonValue::whole(FORMAT_VERSION as u64)));
        members.push(member("key", JsonValue::string(key)));
        members.push(member("output", output.copy()));
        let value = object(members);
        proof {
            assert(value@->Object_0 =~= line_view(key@, output@)->Object_0);
            if is_plain(output@) {
                lemma_line_plain(key@, output@);
            }
        }
        let mut line = value.text();
        let ghost text = line@;
        line.push('\n');
        proof {
            assert(line@ =~= text + seq!['\n']);
            assert(line@.drop_last() =~= text);
        }
        line
    }

    /// Takes note of an entry once its line was written, given what writing
    /// and flushing it gave. Nothing is noted when that failed.
    pub fn insert(&mut self, key: String, output: JsonValue, written: Result<(), String>) -> (r:
        Result<(), CompletionCacheError>)
        requires
            old(self).wf(),
        ensures
            final(self).wf(),
            final(self).path == old(self).path,
            match written {
                Ok(_) => r is Ok && final(self)@ == old(self)@.insert(key@, output@),
                Err(message) => final(self)@ == old(self)@ && (r matches Err(e) && e.path@
                    == old(self).path@ && e.source == message),
            },
    {
        match written {
            Ok(_) => {
                let ghost before = self.entries@;
                self.entries.insert(key, output);
                proof {
                    assert(value_views(self.entries@) =~= value_views(before).insert(
                        key@,
                        output@,
                    ));
                }
                Ok(())
            },
            Err(source) => Err(CompletionCacheError { path: self.path.clone(), source }),
        }
    }

    /// How many outputs are stored.
    pub fn len(&self) -> (r: usize)
        requires
            self.wf(),
        ensures
            r == self@.dom().len(),
    {
        proof {
            assert(self@.dom() =~= self.entries@.dom());
        }
        self.entries.len()
    }
}

/// Whether a text ends with a line feed.
fn ends_line(text: &str) -> (r: bool)
    ensures
        r == (text@.len() > 0 && text@.last() == '\n'),
{
    proof {
        reveal_strlit("\n");
    }
    match strip_suffix(text, "\n") {
        Some(_) => {
            proof {
                assert(text@.skip(text@.len() - 1)[0] == '\n');
            }
            true
        },
        None => {
            proof {
                if text@.len() > 0 && text@.last() == '\n' {
                    assert(text@.skip(text@.len() - 1) =~= "\n"@);
                }
            }
            false
        },
    }
}

/// The entries of a cache file.
fn parse_lines(text: &str) -> (entries: TextMap<JsonValue>)
    ensures
        entries.wf(),
        value_views(entries@) == file_entries(text@),
        forall|i: int|
            0 <= i < lines_of(text@).len() && trimmed(#[trigger] lines_of(text@)[i]).len() > 0
                ==> line_read(lines_of(text@)[i]),
{
    let list = lines(text);
    let ghost texts = lines_of(text@);
    let mut entries: TextMap<JsonValue> = TextMap::new();
    let mut i: usize = 0;
    proof {
        assert(texts.take(0) =~= Seq::empty());
        assert(value_views(entries@) =~= Map::empty());
    }
    while i < list.len()
        invariant
            i <= list@.len(),
            texts == lines_of(text@),
            views(list@) == texts,
            entries.wf(),
            value_views(entries@) == entries_of(texts.take(i as int)),
            forall|j: int|
                0 <= j < i && trimmed(#[trigger] texts[j]).len() > 0 ==> line_read(texts[j]),
        decreases list@.len() - i,
    {
        let line = list[i].as_str();
        proof {
            assert(texts.len() == list@.len());
            assert(texts[i as int] == line@);
            assert(texts.take(i + 1).drop_last() =~= texts.take(i as int));
            assert(texts.take(i + 1).last() == line@);
        }
        if !trim(line).is_empty() {
            match read_line(line) {
                Some((key, output)) => {
                    let ghost before = entries@;
                    entries.insert(key, output);
                    proof {
                        assert(value_views(entries@) =~= value_views(before).insert(
                            key@,
                            output@,
                        ));
                    }
                },
                None => {},
            }
        }
        i += 1;
    }
    proof {
        assert(texts.take(texts.len() as int) =~= texts);
    }
    entries
}

/// Appending a line to a file whose last line is ended adds its entry and
/// keeps the others.
pub proof fn lemma_appended_line_counts(text: Seq<char>, line: Seq<char>)
    requires
        text.len() == 0 || text.last() == '\n',
        is_printable(line),
        trimmed(line).len() > 0,
    ensures
        file_entries(text + line + seq!['\n']) == match entry_of(line) {
            Some((key, output)) => file_entries(text).insert(key, output),
            None => file_entries(text),
        },
        lines_of(text + line + seq!['\n']) == lines_of(text).push(line),
{
    assert(text + line + seq!['\n'] =~= text + (line + seq!['\n']));
    lemma_lines_concat(text, line + seq!['\n']);
    assert forall|i: int| 0 <= i < line.len() implies (#[trigger] line[i]) != '\n' by {}
    lemma_one_line(line);
    assert(without_cr(line) == line);
    let list = lines_of(text + line + seq!['\n']);
    assert(list =~= lines_of(text).push(line));
    assert(list.drop_last() =~= lines_of(text));
}

/// Finishing a broken last line before the next entry keeps the entries of the
/// file and lets the entry stand on its own line. `line_read` is what opening
/// the file establishes of each of its lines.
pub proof fn lemma_broken_line_is_not_glued(text: Seq<char>, line: Seq<char>)
    requires
        text.len() > 0,
        text.last() != '\n',
        trimmed(lines_of(text).last()).len() > 0 ==> line_read(lines_of(text).last()),
        is_printable(line),
        trimmed(line).len() > 0,
    ensures
        file_entries(text + seq!['\n']) == file_entries(text),
        file_entries(text + seq!['\n'] + line + seq!['\n']) == match entry_of(line) {
            Some((key, output)) => file_entries(text).insert(key, output),
            None => file_entries(text),
        },
{
    lemma_lines_ended(text);
    let broken = lines_of(text).last();
    let finished = lines_of(text + seq!['\n']);
    assert(finished.drop_last() =~= lines_of(text).drop_last());
    if broken.last() == '\r' {
        lemma_trailing_space(broken);
    } else {
        assert(finished =~= lines_of(text));
    }
    lemma_appended_line_counts(text + seq!['\n'], line);
}

/// A last line that was cut off while it was written is skipped: the file
/// holds what it held before that line. `line_read` is what opening the file
/// establishes of each of its lines.
pub proof fn lemma_cut_line_is_skipped(
    text: Seq<char>,
    key: Seq<char>,
    output: JsonView,
    n: int,
)
    requires
        text.len() == 0 || text.last() == '\n',
        is_plain(output),
        is_printable(json_text(line_view(key, output))),
        0 <= n < json_text(line_view(key, output)).len(),
        line_read(json_text(line_view(key, output)).take(n)),
    ensures
        file_entries(text + json_text(line_view(key, output)).take(n)) == file_entries(text),
{
    let whole = json_text(line_view(key, output));
    let part = whole.take(n);
    lemma_lines_concat(text, part);
    assert forall|i: int| 0 <= i < part.len() implies (#[trigger] part[i]) != '\n' by {
        assert(part[i] == whole[i]);
    }
    lemma_one_line(part);
    if n == 0 {
        assert(text + part =~= text);
    } else {
        let list = lines_of(text + part);
        assert(list =~= lines_of(text).push(part));
        assert(list.drop_last() =~= lines_of(text));
        assert(entry_of(part) is None);
    }
}

/// What a run appends is found again when the file is opened: the key has the
/// output, but for the order of the members of its objects. `line_read` is
/// what opening the file establishes of each of its lines.
pub proof fn lemma_stored_output_reads_back(text: Seq<char>, key: Seq<char>, output: JsonView)
    requires
        text.len() == 0 || text.last() == '\n',
        storable(output),
        is_printable(json_text(line_view(key, output))),
        line_read(json_text(line_view(key, output))),
    ensures
        ({
            let after = file_entries(text + json_text(line_view(key, output)) + seq!['\n']);
            &&& after.contains_key(key)
            &&& same_json(output, after[key])
            &&& after.remove(key) == file_entries(text).remove(key)
        }),
{
    let line = json_text(line_view(key, output));
    assert(line[0] == '{');
    lemma_not_blank(line);
    lemma_appended_line_counts(text, line);
    let after = file_entries(text + line + seq!['\n']);
    assert(after.remove(key) =~= file_entries(text).remove(key));
}

} // verus!
