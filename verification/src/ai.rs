//! Selection of the model an AI-summarization collaborator asks for.
//!
//! Building and sending the summarization request is the embedding
//! program's affair; the library only fixes which chat-completion backend
//! a provider defaults to.

use vstd::prelude::*;

verus! {

/// A chat-completion API provider.
pub enum ApiProvider {
    OpenRouter,
    OpenAI,
}

impl ApiProvider {
    /// The model requested when the caller names none.
    pub fn default_model(&self) -> (r: &'static str)
        ensures
            self is OpenAI ==> r@ == "gpt-3.5-turbo"@,
            self is OpenRouter ==> r@ == "openrouter/auto"@,
    {
        match self {
            ApiProvider::OpenAI => "gpt-3.5-turbo",
            ApiProvider::OpenRouter => "openrouter/auto",
        }
    }
}

} // verus!
