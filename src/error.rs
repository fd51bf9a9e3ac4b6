use vstd::prelude::*;
use vstd::string::StringExecFns;
use crate::prompt::PromptError;
use crate::registry::RegistryError;

verus! {

/// A failure that reaches the boundary of the service. The variants that come
/// from outside libraries carry their message.
#[derive(Debug, PartialEq, Eq)]
pub enum AppError {
    Io(String),
    SerdeJson(String),
    Zip(String),
    Candle(String),
    Axum(String),
    Multipart(String),
    Anyhow(String),
    Message(String),
    Prompt(PromptError),
    Registry(RegistryError),
}

/// The HTTP status of a failure: request data the service cannot use is the
/// client's fault (400), a taken voice id a conflict (409), the rest the server's (500).
pub open spec fn status_of(e: AppError) -> u16 {
    match e {
        AppError::SerdeJson(_) => 400,
        AppError::Prompt(_) => 400,
        AppError::Registry(RegistryError::Prompt(_)) => 400,
        AppError::Registry(RegistryError::DuplicateVoice) => 409,
        _ => 500,
    }
}

/// The stable kind of a failure, as reported to clients.
pub open spec fn kind_of(e: AppError) -> Seq<char> {
    match e {
        AppError::Io(_) => "io"@,
        AppError::SerdeJson(_) => "serde_json"@,
        AppError::Zip(_) => "zip"@,
        AppError::Candle(_) => "candle"@,
        AppError::Axum(_) => "axum"@,
        AppError::Multipart(_) => "multipart"@,
        AppError::Anyhow(_) => "anyhow"@,
        AppError::Message(_) => "message"@,
        AppError::Prompt(_) => "prompt"@,
        AppError::Registry(RegistryError::DuplicateVoice) => "duplicate_voice"@,
        AppError::Registry(RegistryError::NoVoices) => "no_voices"@,
        AppError::Registry(RegistryError::Io) => "io"@,
        AppError::Registry(RegistryError::Prompt(_)) => "prompt"@,
    }
}

/// What a prompt failure says.
pub open spec fn prompt_text(e: PromptError) -> Seq<char> {
    match e {
        PromptError::NoChunks => "no text chunks to encode"@,
        PromptError::CodebookMismatch { .. } => "codebook count does not match the model"@,
        PromptError::RaggedTokens => "token rows differ in length"@,
        PromptError::Tokenization => "text could not be tokenized"@,
    }
}

/// The human-readable message of a failure.
pub open spec fn message_of(e: AppError) -> Seq<char> {
    match e {
        AppError::Io(s) => "I/O error: "@ + s@,
        AppError::SerdeJson(s) => "Serialization error: "@ + s@,
        AppError::Zip(s) => "Zip error: "@ + s@,
        AppError::Candle(s) => "Candle error: "@ + s@,
        AppError::Axum(s) => "Axum error: "@ + s@,
        AppError::Multipart(s) => "Multipart error: "@ + s@,
        AppError::Anyhow(s) => s@,
        AppError::Message(s) => "Application error: "@ + s@,
        AppError::Prompt(p) => "Prompt error: "@ + prompt_text(p),
        AppError::Registry(RegistryError::DuplicateVoice) => "Voice already exists"@,
        AppError::Registry(RegistryError::NoVoices) => "No speakers found in voices directory"@,
        AppError::Registry(RegistryError::Io) => "Voice file could not be read or written"@,
        AppError::Registry(RegistryError::Prompt(p)) => "Prompt error: "@ + prompt_text(p),
    }
}

fn prompt_message(e: PromptError) -> (r: &'static str)
    ensures
        r@ == prompt_text(e),
{
    match e {
        PromptError::NoChunks => "no text chunks to encode",
        PromptError::CodebookMismatch { .. } => "codebook count does not match the model",
        PromptError::RaggedTokens => "token rows differ in length",
        PromptError::Tokenization => "text could not be tokenized",
    }
}

fn prefixed(prefix: &str, s: &str) -> (r: String)
    ensures
        r@ == prefix@ + s@,
{
    String::from_str(prefix).concat(s)
}

impl AppError {
    pub fn status_code(&self) -> (r: u16)
        ensures
            r == status_of(*self),
    {
        match self {
            AppError::SerdeJson(_) => 400,
            AppError::Prompt(_) => 400,
            AppError::Registry(RegistryError::Prompt(_)) => 400,
            AppError::Registry(RegistryError::DuplicateVoice) => 409,
            _ => 500,
        }
    }

    pub fn kind(&self) -> (r: &'static str)
        ensures
            r@ == kind_of(*self),
    {
        match self {
            AppError::Io(_) => "io",
            AppError::SerdeJson(_) => "serde_json",
            AppError::Zip(_) => "zip",
            AppError::Candle(_) => "candle",
            AppError::Axum(_) => "axum",
            AppError::Multipart(_) => "multipart",
            AppError::Anyhow(_) => "anyhow",
            AppError::Message(_) => "message",
            AppError::Prompt(_) => "prompt",
            AppError::Registry(RegistryError::DuplicateVoice) => "duplicate_voice",
            AppError::Registry(RegistryError::NoVoices) => "no_voices",
            AppError::Registry(RegistryError::Io) => "io",
            AppError::Registry(RegistryError::Prompt(_)) => "prompt",
        }
    }

    /// The message shown to clients.
    pub fn message(&self) -> (r: String)
        ensures
            r@ == message_of(*self),
    {
        match self {
            AppError::Io(s) => prefixed("I/O error: ", s.as_str()),
            AppError::SerdeJson(s) => prefixed("Serialization error: ", s.as_str()),
            AppError::Zip(s) => prefixed("Zip error: ", s.as_str()),
            AppError::Candle(s) => prefixed("Candle error: ", s.as_str()),
            AppError::Axum(s) => prefixed("Axum error: ", s.as_str()),
            AppError::Multipart(s) => prefixed("Multipart error: ", s.as_str()),
            AppError::Anyhow(s) => s.clone(),
            AppError::Message(s) => prefixed("Application error: ", s.as_str()),
            AppError::Prompt(p) => prefixed("Prompt error: ", prompt_message(*p)),
            AppError::Registry(RegistryError::DuplicateVoice) => String::from_str(
                "Voice already exists",
            ),
            AppError::Registry(RegistryError::NoVoices) => String::from_str(
                "No speakers found in voices directory",
            ),
            AppError::Registry(RegistryError::Io) => String::from_str(
                "Voice file could not be read or written",
            ),
            AppError::Registry(RegistryError::Prompt(p)) => prefixed(
                "Prompt error: ",
                prompt_message(*p),
            ),
        }
    }
}

impl From<RegistryError> for AppError {
    fn from(e: RegistryError) -> (r: AppError) {
        AppError::Registry(e)
    }
}

impl vstd::std_specs::convert::FromSpecImpl<RegistryError> for AppError {
    open spec fn obeys_from_spec() -> bool {
        true
    }

    open spec fn from_spec(e: RegistryError) -> AppError {
        AppError::Registry(e)
    }
}

impl From<PromptError> for AppError {
    fn from(e: PromptError) -> (r: AppError) {
        AppError::Prompt(e)
    }
}

impl vstd::std_specs::convert::FromSpecImpl<PromptError> for AppError {
    open spec fn obeys_from_spec() -> bool {
        true
    }

    open spec fn from_spec(e: PromptError) -> AppError {
        AppError::Prompt(e)
    }
}

} // verus!
