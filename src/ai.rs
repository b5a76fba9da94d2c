//! The data of an inline-assist request: what the prompt template is given, and
//! what the completion services answer.

use vstd::prelude::*;

verus! {

/// What the prompt template of an inline-assist request is rendered with.
#[derive(Clone, Debug)]
pub struct InlineAssistTemplateContext {
    pub language_id: String,
    pub text: String,
    pub include_workspace_files: bool,
    /// Path and contents of each workspace file included.
    pub files: Vec<(String, String)>,
}

/// The code that a completion service proposes.
#[derive(Clone, Debug)]
pub struct InlineAssistResponse {
    pub provider: String,
    pub model: String,
    pub code: String,
}

/// Who wrote a chat message.
#[derive(Clone, Copy, Debug, PartialEq, Eq, Structural)]
pub enum OpenAIRole {
    System,
    User,
    Assistant,
}

#[derive(Clone, Debug)]
pub struct OpenAIChatCompletionChoiceMessage {
    pub content: String,
    pub role: OpenAIRole,
}

#[derive(Clone, Debug)]
pub struct OpenAIChatCompletionChoice {
    pub finish_reason: String,
    pub index: u64,
    pub message: OpenAIChatCompletionChoiceMessage,
}

#[derive(Clone, Debug)]
pub struct OpenAIChatCompletion {
    pub choices: Vec<OpenAIChatCompletionChoice>,
    pub created: u64,
    pub id: String,
    pub model: String,
    pub object: String,
    pub system_fingerprint: String,
}

#[derive(Clone, Debug)]
pub struct OllamaChatCompletion {
    pub model: String,
    pub created_at: String,
    pub response: String,
    pub done: bool,
}

impl InlineAssistTemplateContext {
    /// The context for a selection of a document, without workspace files.
    pub fn new(language_id: String, text: String) -> (r: Self)
        ensures
            r.language_id == language_id,
            r.text == text,
            !r.include_workspace_files,
            r.files@.len() == 0,
    {
        InlineAssistTemplateContext { language_id, text, include_workspace_files: false, files: Vec::new() }
    }
}

impl OpenAIChatCompletion {
    /// The content of the first choice, if there is one.
    pub fn first_content(&self) -> (r: Option<String>)
        ensures
            match r {
                Some(c) => self.choices@.len() > 0 && c == self.choices@[0].message.content,
                None => self.choices@.len() == 0,
            },
    {
        if self.choices.len() == 0 {
            None
        } else {
            Some(self.choices[0].message.content.clone())
        }
    }
}

} // verus!
