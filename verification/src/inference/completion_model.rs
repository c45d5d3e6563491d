//! Sending records to a chat model one at a time, each in its own chat.

use crate::backend::ollama::DEFAULT_OLLAMA_URL;
use crate::backend::openai::OPENAI_BASE_URL;
use crate::store::TextMap;
use crate::text::owned;
use vstd::prelude::*;
use vstd::string::*;

verus! {

/// A chat model that transforms records before they are embedded.
///
/// The prompt is the system prompt. Each record is sent in its own chat, one
/// record at a time. Every chat also carries two fixed messages that introduce
/// the record as input for summarization, whatever the system prompt asks for.
#[derive(Debug, Clone)]
pub struct CompletionModel {
    /// The endpoint.
    pub base_url: String,
    /// The model name.
    pub model: String,
    /// The system prompt.
    pub prompt: String,
    /// The key, if one is needed.
    pub api_key: Option<String>,
}

/// Receives the response for one record.
pub trait FieldEnhanceable {
    /// Stores the response text in the record.
    fn set_field(&mut self, modifications: String);
}

/// Applies a generated value of type `T` to one field of a value.
pub trait FieldEnhanceableG<T> {
    /// Updates the implementation-defined field.
    fn set_field(&mut self, modifications: T);
}

/// Applies generated values to several named fields.
pub trait FieldsEnhanceable<T> {
    /// Updates fields identified by the keys of `modifications`.
    fn set_fields(&mut self, modifications: TextMap<Box<dyn FieldEnhanceableG<T>>>);
}

/// Who says a message.
#[derive(Debug, Clone, Copy, PartialEq, Eq, Structural)]
pub enum Role {
    /// The model.
    Assistant,
    /// The user.
    User,
}

/// The message that asks for the record.
pub const ASSISTANT_MESSAGE: &'static str = "Please provide me with the information I need for summarization";

/// The message that announces the record.
pub const ANNOUNCEMENT: &'static str = "you will find it in the next message";

/// Why a model couldn't be set up.
#[derive(Debug)]
pub enum SetupError {
    /// There is no `.env` file.
    EnvAbsent(String),
    /// `OPENAI_API_KEY` is missing.
    ApiKeyAbsent(String),
}

impl CompletionModel {
    /// An Ollama chat model whose system prompt is `prompt`, at `ollama_url`,
    /// the value of the `OLLAMA_URL` variable, or at
    /// `http://127.0.0.1:11434`.
    pub fn new(model: &str, prompt: &str, ollama_url: Option<&str>) -> (r: CompletionModel)
        ensures
            r.base_url@ == match ollama_url {
                Some(url) => url@,
                None => DEFAULT_OLLAMA_URL@,
            },
            r.model@ == model@,
            r.prompt@ == prompt@,
            r.api_key is None,
    {
        let base_url = match ollama_url {
            Some(url) => owned(url),
            None => owned(DEFAULT_OLLAMA_URL),
        };
        CompletionModel { base_url, model: owned(model), prompt: owned(prompt), api_key: None }
    }

    /// An OpenAI chat model whose system prompt is `prompt`. `load_dotenv`
    /// loads a `.env` file, which has to be there even when the key is set, and
    /// `lookup` then reads `OPENAI_API_KEY`.
    pub fn new_openai<
        D: FnOnce() -> Result<(), String>,
        L: FnOnce() -> Result<String, String>,
    >(model: &str, prompt: &str, load_dotenv: D, lookup: L) -> (r: Result<
        CompletionModel,
        SetupError,
    >)
        requires
            call_requires(load_dotenv, ()),
            forall|loaded: Result<(), String>| #[trigger]
                call_ensures(load_dotenv, (), loaded) && loaded is Ok ==> call_requires(lookup, ()),
        ensures
            exists|loaded: Result<(), String>| #[trigger]
                call_ensures(load_dotenv, (), loaded) && match loaded {
                    Err(message) => r == Err::<CompletionModel, _>(SetupError::EnvAbsent(message)),
                    Ok(_) => exists|key: Result<String, String>| #[trigger]
                        call_ensures(lookup, (), key) && match key {
                            Err(message) => r == Err::<CompletionModel, _>(
                                SetupError::ApiKeyAbsent(message),
                            ),
                            Ok(found) => r matches Ok(m) && m.base_url@ == OPENAI_BASE_URL@
                                && m.model@ == model@ && m.prompt@ == prompt@ && m.api_key == Some(
                                found,
                            ),
                        },
                },
    {
        match load_dotenv() {
            Err(message) => Err(SetupError::EnvAbsent(message)),
            Ok(_) => match lookup() {
                Err(message) => Err(SetupError::ApiKeyAbsent(message)),
                Ok(key) => Ok(
                    CompletionModel {
                        base_url: owned(OPENAI_BASE_URL),
                        model: owned(model),
                        prompt: owned(prompt),
                        api_key: Some(key),
                    },
                ),
            },
        }
    }

    /// The messages of the chat for one record, which follow the system prompt.
    pub fn messages(&self, record: &str) -> (r: Vec<(Role, String)>)
        ensures
            r@.len() == 3,
            r@[0].0 == Role::Assistant && r@[0].1@ == ASSISTANT_MESSAGE@,
            r@[1].0 == Role::User && r@[1].1@ == ANNOUNCEMENT@,
            r@[2].0 == Role::User && r@[2].1@ == record@,
    {
        let mut list: Vec<(Role, String)> = Vec::new();
        list.push((Role::Assistant, owned(ASSISTANT_MESSAGE)));
        list.push((Role::User, owned(ANNOUNCEMENT)));
        list.push((Role::User, owned(record)));
        list
    }

    /// Begins sending records one at a time.
    pub fn perform_completion(&self) -> (r: Completions)
        ensures
            r.responses@.len() == 0,
            r.failed@.len() == 0,
            r.sent == 0,
            r.tokens == 0,
    {
        Completions { responses: Vec::new(), failed: Vec::new(), sent: 0, tokens: 0 }
    }

    /// Begins sending records one at a time and keeping the updated ones.
    pub fn perform_completion_dump_inelegant<T>(&self) -> (r: DumpedCompletions<T>)
        ensures
            r.completions.responses@.len() == 0,
            r.completions.failed@.len() == 0,
            r.completions.sent == 0,
            r.completions.tokens == 0,
            r.objects@.len() == 0,
    {
        DumpedCompletions { completions: self.perform_completion(), objects: Vec::new() }
    }
}

/// A response to a chat.
#[derive(Debug)]
pub struct Response {
    /// Its text, if it has one.
    pub text: Option<String>,
    /// The tokens it took, if they are reported.
    pub total_tokens: Option<u32>,
}

/// The response texts so far, in record order. Records that failed, or whose
/// response has no text, are left out, so compare the number of responses with
/// the number of records.
#[derive(Debug)]
pub struct Completions {
    /// The response texts.
    pub responses: Vec<String>,
    /// The positions of the records that failed.
    pub failed: Vec<usize>,
    /// How many records were sent.
    pub sent: usize,
    /// Tokens used so far.
    pub tokens: u32,
}

/// The tokens after a reply.
pub open spec fn tokens_after(tokens: u32, reply: Result<Response, String>) -> int {
    match reply {
        Ok(response) => tokens + match response.total_tokens {
            Some(used) => used as int,
            None => 0,
        },
        Err(_) => tokens as int,
    }
}

/// The text of a reply, if it has one.
pub open spec fn reply_text(reply: Result<Response, String>) -> Option<String> {
    match reply {
        Ok(response) => response.text,
        Err(_) => None,
    }
}

impl Completions {
    /// Takes the reply to the next record.
    pub fn on_reply(&mut self, reply: Result<Response, String>)
        requires
            old(self).sent < usize::MAX,
            tokens_after(old(self).tokens, reply) <= u32::MAX,
        ensures
            final(self).sent == old(self).sent + 1,
            final(self).tokens == tokens_after(old(self).tokens, reply),
            final(self).responses@ == match reply_text(reply) {
                Some(text) => old(self).responses@.push(text),
                None => old(self).responses@,
            },
            final(self).failed@ == match reply {
                Ok(_) => old(self).failed@,
                Err(_) => old(self).failed@.push(old(self).sent),
            },
    {
        match reply {
            Ok(response) => {
                match response.text {
                    Some(text) => self.responses.push(text),
                    None => {},
                }
                match response.total_tokens {
                    Some(used) => {
                        self.tokens = self.tokens + used;
                    },
                    None => {},
                }
            },
            Err(_) => self.failed.push(self.sent),
        }
        self.sent = self.sent + 1;
    }
}

/// The response texts so far, and the records updated with them.
#[derive(Debug)]
pub struct DumpedCompletions<T> {
    /// The response texts.
    pub completions: Completions,
    /// The updated records, in record order.
    pub objects: Vec<T>,
}

impl<T: FieldEnhanceable> DumpedCompletions<T> {
    /// Takes the reply to the next record. When it has a text, the text is
    /// stored in the record, and the updated records are to be saved again.
    pub fn on_reply(&mut self, record: T, reply: Result<Response, String>) -> (save: bool)
        requires
            old(self).completions.sent < usize::MAX,
            tokens_after(old(self).completions.tokens, reply) <= u32::MAX,
        ensures
            final(self).completions.sent == old(self).completions.sent + 1,
            final(self).completions.tokens == tokens_after(old(self).completions.tokens, reply),
            final(self).completions.responses@ == match reply_text(reply) {
                Some(text) => old(self).completions.responses@.push(text),
                None => old(self).completions.responses@,
            },
            final(self).completions.failed@ == match reply {
                Ok(_) => old(self).completions.failed@,
                Err(_) => old(self).completions.failed@.push(old(self).completions.sent),
            },
            save == (reply_text(reply) is Some),
            !save ==> final(self).objects@ == old(self).objects@,
            save ==> final(self).objects@.len() == old(self).objects@.len() + 1,
            save ==> final(self).objects@.drop_last() == old(self).objects@,
            reply_text(reply) matches Some(text) ==> exists|r: &mut T, given: String| #[trigger]
                call_ensures(T::set_field, (r, given), ()) && given == text && *r == record
                    && *final(r) == final(self).objects@.last(),
    {
        let mut record = record;
        let save = match &reply {
            Ok(response) => match &response.text {
                Some(text) => {
                    record.set_field(text.clone());
                    self.objects.push(record);
                    true
                },
                None => false,
            },
            Err(_) => false,
        };
        self.completions.on_reply(reply);
        proof {
            if save {
                assert(self.objects@.drop_last() =~= old(self).objects@);
            }
        }
        save
    }
}

} // verus!
