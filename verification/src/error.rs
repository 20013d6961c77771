//! The errors of the library.

use vstd::prelude::*;
use vstd::string::StringExecFns;

verus! {

/// What can go wrong. Every kind carries the text of its cause.
#[derive(Debug, Clone)]
pub enum Error {
    ModelNotFound(String),
    ModelLoadError(String),
    DownloadError(String),
    TokenizationError(String),
    InferenceError(String),
    AudioError(String),
    ConfigError(String),
    IoError(String),
    SerializationError(String),
    HttpError(String),
    HfHubError(String),
    SafetensorsError(String),
    MlxError(String),
    UnsupportedPlatform(String),
}

impl Error {
    /// What the message of an error begins with.
    pub open spec fn spec_prefix(&self) -> Seq<char> {
        match self {
            Error::ModelNotFound(_) => "Model not found: "@,
            Error::ModelLoadError(_) => "Model loading failed: "@,
            Error::DownloadError(_) => "Download failed: "@,
            Error::TokenizationError(_) => "Tokenization error: "@,
            Error::InferenceError(_) => "Inference error: "@,
            Error::AudioError(_) => "Audio encoding error: "@,
            Error::ConfigError(_) => "Configuration error: "@,
            Error::IoError(_) => "IO error: "@,
            Error::SerializationError(_) => "Serialization error: "@,
            Error::HttpError(_) => "HTTP error: "@,
            Error::HfHubError(_) => "HuggingFace Hub error: "@,
            Error::SafetensorsError(_) => "Safetensors error: "@,
            Error::MlxError(_) => "MLX error: "@,
            Error::UnsupportedPlatform(_) => "Unsupported platform: "@,
        }
    }

    /// The text of the cause.
    pub open spec fn spec_cause(&self) -> Seq<char> {
        match self {
            Error::ModelNotFound(cause) => cause@,
            Error::ModelLoadError(cause) => cause@,
            Error::DownloadError(cause) => cause@,
            Error::TokenizationError(cause) => cause@,
            Error::InferenceError(cause) => cause@,
            Error::AudioError(cause) => cause@,
            Error::ConfigError(cause) => cause@,
            Error::IoError(cause) => cause@,
            Error::SerializationError(cause) => cause@,
            Error::HttpError(cause) => cause@,
            Error::HfHubError(cause) => cause@,
            Error::SafetensorsError(cause) => cause@,
            Error::MlxError(cause) => cause@,
            Error::UnsupportedPlatform(cause) => cause@,
        }
    }

    /// What the message of an error begins with.
    pub fn prefix(&self) -> (prefix: &'static str)
        ensures
            prefix@ == self.spec_prefix(),
    {
        match self {
            Error::ModelNotFound(_) => "Model not found: ",
            Error::ModelLoadError(_) => "Model loading failed: ",
            Error::DownloadError(_) => "Download failed: ",
            Error::TokenizationError(_) => "Tokenization error: ",
            Error::InferenceError(_) => "Inference error: ",
            Error::AudioError(_) => "Audio encoding error: ",
            Error::ConfigError(_) => "Configuration error: ",
            Error::IoError(_) => "IO error: ",
            Error::SerializationError(_) => "Serialization error: ",
            Error::HttpError(_) => "HTTP error: ",
            Error::HfHubError(_) => "HuggingFace Hub error: ",
            Error::SafetensorsError(_) => "Safetensors error: ",
            Error::MlxError(_) => "MLX error: ",
            Error::UnsupportedPlatform(_) => "Unsupported platform: ",
        }
    }

    /// The text of the cause.
    pub fn cause(&self) -> (cause: &String)
        ensures
            cause@ == self.spec_cause(),
    {
        match self {
            Error::ModelNotFound(cause) => cause,
            Error::ModelLoadError(cause) => cause,
            Error::DownloadError(cause) => cause,
            Error::TokenizationError(cause) => cause,
            Error::InferenceError(cause) => cause,
            Error::AudioError(cause) => cause,
            Error::ConfigError(cause) => cause,
            Error::IoError(cause) => cause,
            Error::SerializationError(cause) => cause,
            Error::HttpError(cause) => cause,
            Error::HfHubError(cause) => cause,
            Error::SafetensorsError(cause) => cause,
            Error::MlxError(cause) => cause,
            Error::UnsupportedPlatform(cause) => cause,
        }
    }

    /// The message of an error: the words for its kind, then the cause.
    pub fn message(&self) -> (message: String)
        ensures
            message@ == self.spec_prefix() + self.spec_cause(),
    {
        let start = String::from_str(self.prefix());
        start.concat(self.cause().as_str())
    }
}

} // verus!
