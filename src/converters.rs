//! What the converters report when raw input cannot be read, and the audio formats they know.
use vstd::prelude::*;
use crate::text::text_chars;

verus! {

broadcast use vstd::string::group_string_axioms;

/// Why a source could not be turned into digits.
#[derive(Debug)]
pub enum ConvertError {
    InvalidInput(String),
    ConversionFailed(String),
}

impl ConvertError {
    /// A human-readable description of the error.
    pub fn message(&self) -> (r: String)
        ensures
            r@ == match self {
                ConvertError::InvalidInput(m) => "Invalid input data: "@ + m@,
                ConvertError::ConversionFailed(m) => "Conversion failed: "@ + m@,
            },
    {
        match self {
            ConvertError::InvalidInput(m) => {
                let mut r = String::from_str("Invalid input data: ");
                r.append(m.as_str());
                r
            },
            ConvertError::ConversionFailed(m) => {
                let mut r = String::from_str("Conversion failed: ");
                r.append(m.as_str());
                r
            },
        }
    }
}

/// The audio file formats that can be decoded.
#[derive(Clone, Copy, Debug, PartialEq, Eq, Structural)]
pub enum AudioFormat {
    Wav,
    Mp3,
}

/// Whether `ext` reads "wav" in any mix of ASCII case.
pub open spec fn is_wav_extension(ext: Seq<char>) -> bool {
    &&& ext.len() == 3
    &&& (ext[0] == 'w' || ext[0] == 'W')
    &&& (ext[1] == 'a' || ext[1] == 'A')
    &&& (ext[2] == 'v' || ext[2] == 'V')
}

/// Whether `ext` reads "mp3" in any mix of ASCII case.
pub open spec fn is_mp3_extension(ext: Seq<char>) -> bool {
    &&& ext.len() == 3
    &&& (ext[0] == 'm' || ext[0] == 'M')
    &&& (ext[1] == 'p' || ext[1] == 'P')
    &&& ext[2] == '3'
}

/// The format a file extension names.
pub open spec fn format_of_extension(ext: Seq<char>) -> Option<AudioFormat> {
    if is_wav_extension(ext) {
        Some(AudioFormat::Wav)
    } else if is_mp3_extension(ext) {
        Some(AudioFormat::Mp3)
    } else {
        None
    }
}

/// The audio format of a file extension; any other extension is an invalid input.
pub fn audio_format(ext: &str) -> (r: Result<AudioFormat, ConvertError>)
    ensures
        match r {
            Ok(f) => format_of_extension(ext@) == Some(f),
            Err(e) => {
                &&& format_of_extension(ext@) is None
                &&& e is InvalidInput
                &&& e->InvalidInput_0@ == "Unsupported audio format: "@ + ext@
            },
        },
{
    let e = text_chars(ext);
    let three = e.len() == 3;
    if three && (e[0] == 'w' || e[0] == 'W') && (e[1] == 'a' || e[1] == 'A') && (e[2] == 'v'
        || e[2] == 'V') {
        Ok(AudioFormat::Wav)
    } else if three && (e[0] == 'm' || e[0] == 'M') && (e[1] == 'p' || e[1] == 'P') && e[2]
        == '3' {
        Ok(AudioFormat::Mp3)
    } else {
        let mut m = String::from_str("Unsupported audio format: ");
        m.append(ext);
        Err(ConvertError::InvalidInput(m))
    }
}

} // verus!
