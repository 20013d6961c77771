//! What goes to the speech-recognition daemon, what is made of its
//! answer, and the decisions of starting and stopping it.

use vstd::prelude::*;

verus! {

/// Request to the daemon.
#[derive(Debug, Clone)]
pub struct AsrRequest {
    pub command: String,
    pub audio_base64: Option<String>,
    pub model_id: Option<String>,
    pub language: Option<String>,
}

impl Default for AsrRequest {
    fn default() -> (request: Self)
        ensures
            request.command@.len() == 0,
            request.audio_base64 is None,
            request.model_id is None,
            request.language is None,
    {
        AsrRequest { command: String::new(), audio_base64: None, model_id: None, language: None }
    }
}

impl AsrRequest {
    /// A request that carries a command and nothing else.
    pub fn command(command: String) -> (request: Self)
        ensures
            request.command == command,
            request.audio_base64 is None,
            request.model_id is None,
            request.language is None,
    {
        AsrRequest { command, audio_base64: None, model_id: None, language: None }
    }

    /// The request that asks for the text of a recording.
    pub fn transcribe(audio_base64: String, model_id: Option<String>, language: Option<String>) -> (request: Self)
        ensures
            request.command@ == "transcribe"@,
            request.audio_base64 == Some(audio_base64),
            request.model_id == model_id,
            request.language == language,
    {
        AsrRequest {
            command: "transcribe".to_string(),
            audio_base64: Some(audio_base64),
            model_id,
            language,
        }
    }
}

/// Response from the daemon.
#[derive(Debug, Clone)]
pub struct AsrResponse {
    pub transcription: Option<String>,
    pub language: Option<String>,
    pub error: Option<String>,
    pub status: Option<String>,
    pub device: Option<String>,
    pub cached_models: Option<Vec<String>>,
}

impl AsrResponse {
    /// The response, unless it reports an error; the error otherwise.
    pub fn checked(self) -> (outcome: Result<AsrResponse, String>)
        ensures
            match outcome {
                Ok(response) => self.error is None && response == self,
                Err(message) => self.error == Some(message),
            },
    {
        if self.error.is_some() {
            match self.error {
                Some(message) => Err(message),
                None => Ok(self),
            }
        } else {
            Ok(self)
        }
    }
}

/// Number of times the daemon is asked whether it is up before the start
/// counts as failed.
pub const STARTUP_POLLS: u32 = 100;

/// Number of times the socket is looked for before the daemon is killed.
pub const SHUTDOWN_POLLS: u32 = 50;

/// What to do next while the daemon starts.
#[derive(Debug, Clone, Copy, PartialEq, Eq, Structural)]
pub enum StartupAction {
    /// The daemon answered: it is up.
    Ready,
    /// Sleep and ask again.
    Wait,
    /// The daemon did not come up in time.
    GiveUp,
}

/// What to do next while the daemon stops.
#[derive(Debug, Clone, Copy, PartialEq, Eq, Structural)]
pub enum ShutdownAction {
    /// The socket is gone: the daemon has stopped.
    Stopped,
    /// Sleep and look again.
    Wait,
    /// The daemon did not stop in time: kill its process.
    Kill,
}

/// The next action after poll number `polls_done` (counted from one) of a
/// starting daemon, which answered the poll or not.
pub fn startup_step(polls_done: u32, answered: bool) -> (action: StartupAction)
    ensures
        action == if answered {
            StartupAction::Ready
        } else if polls_done < 100 {
            StartupAction::Wait
        } else {
            StartupAction::GiveUp
        },
{
    if answered {
        StartupAction::Ready
    } else if polls_done < STARTUP_POLLS {
        StartupAction::Wait
    } else {
        StartupAction::GiveUp
    }
}

/// The next action after look number `polls_done` (counted from one) at
/// the socket of a stopping daemon.
pub fn shutdown_step(polls_done: u32, socket_gone: bool) -> (action: ShutdownAction)
    ensures
        action == if socket_gone {
            ShutdownAction::Stopped
        } else if polls_done < 50 {
            ShutdownAction::Wait
        } else {
            ShutdownAction::Kill
        },
{
    if socket_gone {
        ShutdownAction::Stopped
    } else if polls_done < SHUTDOWN_POLLS {
        ShutdownAction::Wait
    } else {
        ShutdownAction::Kill
    }
}

} // verus!
