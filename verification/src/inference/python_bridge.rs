//! What goes to the text-to-speech script and what is made of its answer.

use vstd::prelude::*;

verus! {

/// Request to the inference script.
#[derive(Debug, Clone)]
pub struct PythonTTSRequest {
    pub command: String,
    pub model_path: String,
    pub text: String,
    pub speaker: Option<String>,
    pub language: Option<String>,
    pub instruct: Option<String>,
}

/// Response from the inference script.
#[derive(Debug, Clone)]
pub struct PythonTTSResponse {
    pub audio_base64: Option<String>,
    pub sample_rate: Option<u32>,
    pub format: Option<String>,
    pub error: Option<String>,
    pub status: Option<String>,
}

/// Where the script and its interpreter are found.
#[derive(Debug, Clone)]
pub struct PythonBridge {
    script_path: String,
    python_cmd: String,
}

/// Why a response holds no audio.
#[derive(Debug, Clone)]
pub enum AudioError {
    /// The script reported an error.
    Remote(String),
    /// The response has no audio field.
    NoAudio,
    /// The audio field is no base64 text.
    Undecodable,
}

/// The bytes that `text` stands for in standard base64 with padding, if it
/// is such a text.
pub uninterp spec fn base64_standard(text: Seq<char>) -> Option<Seq<u8>>;

#[verifier::external_type_specification]
#[verifier::external_body]
pub struct ExDecodeError(base64::DecodeError);

/// Calls `base64::Engine::decode` on the engine
/// `base64::engine::general_purpose::STANDARD`. The result depends on the
/// text alone: the decoded bytes, or an error where the text is not
/// canonical base64 of the standard alphabet.
#[verifier::external_body]
fn decode_standard(text: &String) -> (decoded: Result<Vec<u8>, base64::DecodeError>)
    ensures
        match decoded {
            Ok(bytes) => base64_standard(text@) == Some(bytes@),
            Err(_) => base64_standard(text@) is None,
        },
{
    base64::Engine::decode(&base64::engine::general_purpose::STANDARD, text)
}

/// The sample rate of a response that names none.
pub const DEFAULT_SAMPLE_RATE: u32 = 24000;

impl PythonBridge {
    pub closed spec fn spec_script_path(&self) -> Seq<char> {
        self.script_path@
    }

    pub closed spec fn spec_python_cmd(&self) -> Seq<char> {
        self.python_cmd@
    }

    /// A bridge to the script at `script_path`, run by `python3`.
    pub fn at(script_path: String) -> (bridge: Self)
        ensures
            bridge.spec_script_path() == script_path@,
            bridge.spec_python_cmd() == "python3"@,
    {
        PythonBridge { script_path, python_cmd: "python3".to_string() }
    }

    /// Path of the script.
    pub fn script_path(&self) -> (path: &String)
        ensures
            path@ == self.spec_script_path(),
    {
        &self.script_path
    }

    /// Name of the interpreter.
    pub fn python_cmd(&self) -> (cmd: &String)
        ensures
            cmd@ == self.spec_python_cmd(),
    {
        &self.python_cmd
    }

    /// The request that asks the script to speak `text`.
    pub fn generate_request(
        model_path: String,
        text: String,
        speaker: Option<String>,
        language: Option<String>,
        instruct: Option<String>,
    ) -> (request: PythonTTSRequest)
        ensures
            request.command@ == "generate"@,
            request.model_path == model_path,
            request.text == text,
            request.speaker == speaker,
            request.language == language,
            request.instruct == instruct,
    {
        PythonTTSRequest {
            command: "generate".to_string(),
            model_path,
            text,
            speaker,
            language,
            instruct,
        }
    }

    /// Whether the answer to a check says that the script can run: it came
    /// at all and its status is `ok`.
    pub fn dependencies_available(answer: Option<&PythonTTSResponse>) -> (available: bool)
        ensures
            available == match answer {
                Some(response) => match response.status {
                    Some(status) => status@ == "ok"@,
                    None => false,
                },
                None => false,
            },
    {
        match answer {
            Some(response) => match &response.status {
                Some(status) => {
                    let ok = "ok".to_string();
                    *status == ok
                },
                None => false,
            },
            None => false,
        }
    }

    /// The audio of a response whose audio field was decoded already.
    pub fn payload_of(decoded: Option<Vec<u8>>, sample_rate: Option<u32>) -> (payload: Result<
        (Vec<u8>, u32),
        AudioError,
    >)
        ensures
            match payload {
                Ok((bytes, rate)) => decoded == Some(bytes) && rate == match sample_rate {
                    Some(rate) => rate,
                    None => 24000u32,
                },
                Err(e) => decoded is None && e is Undecodable,
            },
    {
        match decoded {
            Some(bytes) => {
                let rate: u32 = match sample_rate {
                    Some(rate) => rate,
                    None => DEFAULT_SAMPLE_RATE,
                };
                Ok((bytes, rate))
            },
            None => Err(AudioError::Undecodable),
        }
    }

    /// The audio bytes and the sample rate of a response. An error that
    /// the script reported comes first; next a missing audio field; next
    /// an audio field that is no base64.
    pub fn audio_of(response: &PythonTTSResponse) -> (payload: Result<(Vec<u8>, u32), AudioError>)
        ensures
            match payload {
                Ok((bytes, rate)) => response.error is None && response.audio_base64 is Some
                    && base64_standard(response.audio_base64->0@) == Some(bytes@) && rate
                    == match response.sample_rate {
                    Some(rate) => rate,
                    None => 24000u32,
                },
                Err(AudioError::Remote(message)) => response.error == Some(message),
                Err(AudioError::NoAudio) => response.error is None && response.audio_base64
                    is None,
                Err(AudioError::Undecodable) => response.error is None && response.audio_base64
                    is Some && base64_standard(response.audio_base64->0@) is None,
            },
    {
        match &response.error {
            Some(message) => {
                return Err(AudioError::Remote(message.clone()));
            },
            None => {},
        }
        let text = match &response.audio_base64 {
            Some(text) => text,
            None => {
                return Err(AudioError::NoAudio);
            },
        };
        let decoded = match decode_standard(text) {
            Ok(bytes) => Some(bytes),
            Err(_) => None,
        };
        Self::payload_of(decoded, response.sample_rate)
    }
}

} // verus!
