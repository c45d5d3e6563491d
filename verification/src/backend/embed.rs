//! The clients as embedding backends.

use super::ollama::OllamaClient;
use super::openai::OpenAiCompatClient;
use super::{BackendIdentity, EmbedBackend, IdentityView};
use crate::text::owned;
use vstd::prelude::*;
use vstd::string::*;

verus! {

impl EmbedBackend for OllamaClient {
    fn identity(&self) -> (r: BackendIdentity)
        ensures
            r@ == (IdentityView { kind: "ollama"@, base_url: self.base_url@, model: self.model@ }),
    {
        BackendIdentity {
            kind: owned("ollama"),
            base_url: self.base_url.clone(),
            model: self.model.clone(),
        }
    }
}

impl EmbedBackend for OpenAiCompatClient {
    fn identity(&self) -> (r: BackendIdentity)
        ensures
            r@ == (IdentityView { kind: "openai"@, base_url: self.base_url@, model: self.model@ }),
    {
        BackendIdentity {
            kind: owned("openai"),
            base_url: self.base_url.clone(),
            model: self.model.clone(),
        }
    }
}

} // verus!
