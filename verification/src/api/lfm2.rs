//! The endpoints of the audio daemon: what each of them answers to a
//! reply of the daemon, or to the failure to reach it.

use vstd::prelude::*;

verus! {

/// Request for a transcription.
#[derive(Debug, Clone)]
pub struct LFM2ASRRequest {
    pub audio_base64: String,
    pub max_new_tokens: Option<u32>,
}

/// Speech made from text.
#[derive(Debug, Clone)]
pub struct LFM2TTSResponse {
    pub audio_base64: String,
    pub sample_rate: u32,
    pub format: String,
}

/// Text made from speech.
#[derive(Debug, Clone)]
pub struct LFM2ASRResponse {
    pub transcription: String,
}

/// Answer of an audio chat.
#[derive(Debug, Clone)]
pub struct LFM2AudioChatResponse {
    pub text: String,
    pub audio_base64: Option<String>,
    pub sample_rate: u32,
    pub format: String,
}

/// State of the daemon.
#[derive(Debug, Clone)]
pub struct LFM2StatusResponse {
    pub status: String,
    pub device: Option<String>,
    pub cached_models: Vec<String>,
    pub voices: Vec<String>,
}

/// Body of an error answer.
#[derive(Debug, Clone)]
pub struct ErrorResponse {
    pub error: ErrorDetail,
}

#[derive(Debug, Clone)]
pub struct ErrorDetail {
    pub message: String,
}

/// The fields of a daemon's reply that the endpoints read; a field that
/// is absent, or not of the expected kind, is `None`.
#[derive(Debug, Clone)]
pub struct DaemonReply {
    pub error: Option<String>,
    pub status: Option<String>,
    pub device: Option<String>,
    pub cached_models: Option<Vec<String>>,
    pub voices: Option<Vec<String>>,
    pub audio_base64: Option<String>,
    pub sample_rate: Option<u64>,
    pub format: Option<String>,
    pub transcription: Option<String>,
    pub text: Option<String>,
}

/// An error answer with its HTTP status code.
#[derive(Debug, Clone)]
pub struct ApiFailure {
    pub status: u16,
    pub body: ErrorResponse,
}

/// HTTP status of an error that the daemon reported.
pub const INTERNAL_SERVER_ERROR: u16 = 500;

/// HTTP status of a daemon that cannot be reached.
pub const SERVICE_UNAVAILABLE: u16 = 503;

/// The voice of a request that names none.
pub fn default_voice() -> (voice: String)
    ensures
        voice@ == "us_female"@,
{
    "us_female".to_string()
}

/// The voices of a daemon that lists none.
pub fn default_voices() -> (voices: Vec<String>)
    ensures
        voices@.len() == 4,
        voices@[0]@ == "us_male"@,
        voices@[1]@ == "us_female"@,
        voices@[2]@ == "uk_male"@,
        voices@[3]@ == "uk_female"@,
{
    let mut voices: Vec<String> = Vec::new();
    voices.push("us_male".to_string());
    voices.push("us_female".to_string());
    voices.push("uk_male".to_string());
    voices.push("uk_female".to_string());
    voices
}

/// A sample rate as the daemon gives it, cut to 32 bits; 24000 where it
/// gives none.
pub open spec fn spec_sample_rate(given: Option<u64>) -> u32 {
    match given {
        Some(rate) => (rate % 0x1_0000_0000) as u32,
        None => 24000,
    }
}

/// A sample rate as the daemon gives it, cut to 32 bits; 24000 where it
/// gives none.
pub fn sample_rate_of(given: Option<u64>) -> (rate: u32)
    ensures
        rate == spec_sample_rate(given),
{
    match given {
        Some(rate) => (rate % 0x1_0000_0000) as u32,
        None => 24000,
    }
}

/// The text of a field, or `fallback` where the field is absent.
pub fn text_or(field: Option<String>, fallback: &str) -> (text: String)
    ensures
        text@ == match field {
            Some(given) => given@,
            None => fallback@,
        },
{
    match field {
        Some(given) => given,
        None => fallback.to_string(),
    }
}

/// The failure that an endpoint answers with: status 503 where the daemon
/// could not be reached, status 500 where it reported an error; `None`
/// where it replied without one.
pub fn failure_of(link: &Result<DaemonReply, String>) -> (failure: Option<ApiFailure>)
    ensures
        match failure {
            Some(f) => match link {
                Ok(reply) => f.status == 500 && reply.error == Some(f.body.error.message),
                Err(e) => f.status == 503 && f.body.error.message == e,
            },
            None => link is Ok && link->Ok_0.error is None,
        },
{
    match link {
        Ok(reply) => match &reply.error {
            Some(message) => Some(
                ApiFailure {
                    status: INTERNAL_SERVER_ERROR,
                    body: ErrorResponse { error: ErrorDetail { message: message.clone() } },
                },
            ),
            None => None,
        },
        Err(e) => Some(
            ApiFailure {
                status: SERVICE_UNAVAILABLE,
                body: ErrorResponse { error: ErrorDetail { message: e.clone() } },
            },
        ),
    }
}

/// The answer of the status endpoint.
pub fn status_answer(link: Result<DaemonReply, String>) -> (answer: Result<
    LFM2StatusResponse,
    ApiFailure,
>)
    ensures
        match answer {
            Ok(r) => link is Ok && link->Ok_0.error is None && r.status@ == (match link->Ok_0.status {
                Some(s) => s@,
                None => "unknown"@,
            }) && r.device == link->Ok_0.device && (match link->Ok_0.cached_models {
                Some(models) => r.cached_models == models,
                None => r.cached_models@.len() == 0,
            }) && (match link->Ok_0.voices {
                Some(voices) => r.voices == voices,
                None => r.voices@.len() == 4 && r.voices@[0]@ == "us_male"@ && r.voices@[1]@
                    == "us_female"@ && r.voices@[2]@ == "uk_male"@ && r.voices@[3]@
                    == "uk_female"@,
            }),
            Err(f) => match link {
                Ok(reply) => f.status == 500 && reply.error == Some(f.body.error.message),
                Err(e) => f.status == 503 && f.body.error.message == e,
            },
        },
{
    match failure_of(&link) {
        Some(failure) => {
            return Err(failure);
        },
        None => {},
    }
    match link {
        Ok(reply) => Ok(
            LFM2StatusResponse {
                status: text_or(reply.status, "unknown"),
                device: reply.device,
                cached_models: match reply.cached_models {
                    Some(models) => models,
                    None => Vec::new(),
                },
                voices: match reply.voices {
                    Some(voices) => voices,
                    None => default_voices(),
                },
            },
        ),
        Err(e) => Err(
            ApiFailure {
                status: SERVICE_UNAVAILABLE,
                body: ErrorResponse { error: ErrorDetail { message: e } },
            },
        ),
    }
}

/// The answer of the text-to-speech endpoint.
pub fn tts_answer(link: Result<DaemonReply, String>) -> (answer: Result<LFM2TTSResponse, ApiFailure>)
    ensures
        match answer {
            Ok(r) => link is Ok && link->Ok_0.error is None && r.audio_base64@ == (match link->Ok_0.audio_base64 {
                Some(s) => s@,
                None => ""@,
            }) && r.sample_rate == spec_sample_rate(link->Ok_0.sample_rate) && r.format@ == (match link->Ok_0.format {
                Some(s) => s@,
                None => "wav"@,
            }),
            Err(f) => match link {
                Ok(reply) => f.status == 500 && reply.error == Some(f.body.error.message),
                Err(e) => f.status == 503 && f.body.error.message == e,
            },
        },
{
    match failure_of(&link) {
        Some(failure) => {
            return Err(failure);
        },
        None => {},
    }
    match link {
        Ok(reply) => Ok(
            LFM2TTSResponse {
                audio_base64: text_or(reply.audio_base64, ""),
                sample_rate: sample_rate_of(reply.sample_rate),
                format: text_or(reply.format, "wav"),
            },
        ),
        Err(e) => Err(
            ApiFailure {
                status: SERVICE_UNAVAILABLE,
                body: ErrorResponse { error: ErrorDetail { message: e } },
            },
        ),
    }
}

/// The answer of the transcription endpoint.
pub fn asr_answer(link: Result<DaemonReply, String>) -> (answer: Result<LFM2ASRResponse, ApiFailure>)
    ensures
        match answer {
            Ok(r) => link is Ok && link->Ok_0.error is None && r.transcription@ == (match link->Ok_0.transcription {
                Some(s) => s@,
                None => ""@,
            }),
            Err(f) => match link {
                Ok(reply) => f.status == 500 && reply.error == Some(f.body.error.message),
                Err(e) => f.status == 503 && f.body.error.message == e,
            },
        },
{
    match failure_of(&link) {
        Some(failure) => {
            return Err(failure);
        },
        None => {},
    }
    match link {
        Ok(reply) => Ok(LFM2ASRResponse { transcription: text_or(reply.transcription, "") }),
        Err(e) => Err(
            ApiFailure {
                status: SERVICE_UNAVAILABLE,
                body: ErrorResponse { error: ErrorDetail { message: e } },
            },
        ),
    }
}

/// The answer of the audio chat endpoint.
pub fn chat_answer(link: Result<DaemonReply, String>) -> (answer: Result<
    LFM2AudioChatResponse,
    ApiFailure,
>)
    ensures
        match answer {
            Ok(r) => link is Ok && link->Ok_0.error is None && r.text@ == (match link->Ok_0.text {
                Some(s) => s@,
                None => ""@,
            }) && r.audio_base64 == link->Ok_0.audio_base64 && r.sample_rate == spec_sample_rate(
                link->Ok_0.sample_rate,
            ) && r.format@ == (match link->Ok_0.format {
                Some(s) => s@,
                None => "wav"@,
            }),
            Err(f) => match link {
                Ok(reply) => f.status == 500 && reply.error == Some(f.body.error.message),
                Err(e) => f.status == 503 && f.body.error.message == e,
            },
        },
{
    match failure_of(&link) {
        Some(failure) => {
            return Err(failure);
        },
        None => {},
    }
    match link {
        Ok(reply) => Ok(
            LFM2AudioChatResponse {
                text: text_or(reply.text, ""),
                audio_base64: reply.audio_base64,
                sample_rate: sample_rate_of(reply.sample_rate),
                format: text_or(reply.format, "wav"),
            },
        ),
        Err(e) => Err(
            ApiFailure {
                status: SERVICE_UNAVAILABLE,
                body: ErrorResponse { error: ErrorDetail { message: e } },
            },
        ),
    }
}

} // verus!
