//! The transcription services a transcript may come from.

use vstd::prelude::*;
use crate::chars::{chars_of, chars_eq};

verus! {

/// A speech-to-text service.
#[derive(Clone, Copy, Debug, PartialEq, Eq, Structural)]
pub enum TranscriptionProvider {
    Whisper,
    AssemblyAI,
}

/// Whether a string and a literal hold the same characters.
pub fn str_equals(s: &str, literal: &str) -> (eq: bool)
    ensures
        eq == (s@ == literal@),
{
    let a = chars_of(s);
    let b = chars_of(literal);
    chars_eq(&a, &b)
}

impl TranscriptionProvider {
    /// The provider of the given name; Whisper for any name but
    /// `assemblyai`.
    pub fn from_str(s: &str) -> (p: TranscriptionProvider)
        ensures
            p == if s@ == "assemblyai"@ {
                TranscriptionProvider::AssemblyAI
            } else {
                TranscriptionProvider::Whisper
            },
    {
        if str_equals(s, "assemblyai") {
            TranscriptionProvider::AssemblyAI
        } else {
            TranscriptionProvider::Whisper
        }
    }

    /// The name of the environment variable that holds the provider's key.
    pub fn api_key_name(&self) -> (name: &'static str)
        ensures
            name@ == match self {
                TranscriptionProvider::Whisper => "OPENAI_API_KEY"@,
                TranscriptionProvider::AssemblyAI => "ASSEMBLYAI_API_KEY"@,
            },
    {
        match self {
            TranscriptionProvider::Whisper => "OPENAI_API_KEY",
            TranscriptionProvider::AssemblyAI => "ASSEMBLYAI_API_KEY",
        }
    }
}

} // verus!
