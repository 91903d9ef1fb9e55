//! The ways in which reading or repacking a container can fail.

use vstd::prelude::*;

verus! {

/// Why a buffer could not be read as a container header.
#[derive(Clone, Copy, Debug, PartialEq, Eq, Structural)]
pub enum ParseError {
    /// A block does not start with its magic, holds text that is not
    /// well-formed, or is otherwise damaged at a structural boundary.
    BadSignature,
    /// The buffer ends before a region that has to be read.
    Truncated,
}

impl ParseError {
    /// A short description for a person.
    pub fn message(&self) -> (r: &'static str)
        ensures
            *self == ParseError::BadSignature ==> r@ == "not a Sega FILM container"@,
            *self == ParseError::Truncated ==> r@ == "the container header is truncated"@,
    {
        match self {
            ParseError::BadSignature => "not a Sega FILM container",
            ParseError::Truncated => "the container header is truncated",
        }
    }
}

/// Why a replacement track could not be put into a container.
#[derive(Clone, Copy, Debug, PartialEq, Eq, Structural)]
pub enum RemuxError {
    /// The replacement track ends before an audio sample has its bytes.
    InsufficientAudio {
        /// Position of the sample in the sample table.
        index: usize,
        /// The length of the sample in bytes.
        required: usize,
        /// How many of the bytes that the sample takes are missing.
        shortfall: usize,
    },
    /// The container ends before its header does, or before the bytes of
    /// a video sample.
    Truncated,
    /// The container stores stereo sound at a resolution for which no
    /// frame size is known.
    UnsupportedFormat {
        /// The resolution that the format block declares, in bits.
        audio_resolution: u8,
    },
}

} // verus!
