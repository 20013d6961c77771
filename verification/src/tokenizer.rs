//! Special tokens of the text tokenizer.

use vstd::prelude::*;
use vstd::string::StringExecFns;

verus! {

/// Identifiers of the tokens with a fixed meaning, where the vocabulary
/// has them.
#[derive(Debug, Clone, Copy)]
pub struct SpecialTokens {
    pub bos_id: Option<u32>,
    pub eos_id: Option<u32>,
    pub pad_id: Option<u32>,
    pub audio_start_id: Option<u32>,
    pub audio_end_id: Option<u32>,
}

impl Default for SpecialTokens {
    fn default() -> (tokens: Self)
        ensures
            tokens == (SpecialTokens {
                bos_id: None,
                eos_id: None,
                pad_id: None,
                audio_start_id: None,
                audio_end_id: None,
            }),
    {
        SpecialTokens {
            bos_id: None,
            eos_id: None,
            pad_id: None,
            audio_start_id: None,
            audio_end_id: None,
        }
    }
}

impl SpecialTokens {
    /// Whether a token ends generation.
    pub fn is_end(&self, token: u32) -> (end: bool)
        ensures
            end == (self.eos_id == Some(token) || self.audio_end_id == Some(token)),
    {
        let text_end = match self.eos_id {
            Some(id) => id == token,
            None => false,
        };
        let audio_end = match self.audio_end_id {
            Some(id) => id == token,
            None => false,
        };
        text_end || audio_end
    }
}

/// The prompt that asks a speaker to say a text: the speaker's tag in
/// square brackets, a blank, the text.
pub open spec fn tts_prompt(text: Seq<char>, speaker: Option<Seq<char>>) -> Seq<char> {
    "[speaker:"@ + (match speaker {
        Some(name) => name,
        None => "default"@,
    }) + "] "@ + text
}

/// The prompt that asks a speaker to say a text; the speaker `default`
/// where none is named.
pub fn format_tts_prompt(text: &str, speaker: Option<&str>) -> (prompt: String)
    ensures
        prompt@ == tts_prompt(
            text@,
            match speaker {
                Some(name) => Some(name@),
                None => None,
            },
        ),
{
    let speaker_tag: &str = match speaker {
        Some(name) => name,
        None => "default",
    };
    let prompt = String::from_str("[speaker:");
    let prompt = prompt.concat(speaker_tag);
    let prompt = prompt.concat("] ");
    prompt.concat(text)
}

} // verus!
