//! The format block: how the video and the audio of a container are coded.

use crate::bytes::{read_u16, read_u32, spec_u16_be, spec_u32_be};
use crate::error::ParseError;
use crate::text::{fdsc_magic, lemma_ascii_text, lemma_magic_words, starts_with, text_at};
use vstd::prelude::*;
use vstd::string::StringSliceAdditionalSpecFns;
use vstd::utf8::{decode_utf8, encode_utf8, encode_utf8_decode_utf8, valid_utf8};

verus! {

/// The format block of a container. It is 32 bytes long whatever the
/// number of channels.
#[derive(Clone, Debug, PartialEq, Eq)]
pub struct FDSC {
    /// Always `FDSC`.
    pub signature: String,
    /// The size that the block declares for itself.
    pub length: u32,
    /// The four-character code of the video codec.
    pub fourcc: String,
    /// Height of a frame in pixels.
    pub height: u32,
    /// Width of a frame in pixels.
    pub width: u32,
    /// Bits per pixel; in practice always 24.
    pub bpp: u8,
    /// Audio channels: 1 is mono, 2 is stereo.
    pub channels: u8,
    /// Bits per audio sample: 8 or 16.
    pub audio_resolution: u8,
    /// The audio codec; see [`FDSC::audio_codec`].
    pub audio_compression: u8,
    /// Audio samples per second.
    pub audio_sampling_rate: u16,
}

/// A format block as plain values.
pub struct FDSCView {
    pub signature: Seq<char>,
    pub length: nat,
    pub fourcc: Seq<char>,
    pub height: nat,
    pub width: nat,
    pub bpp: u8,
    pub channels: u8,
    pub audio_resolution: u8,
    pub audio_compression: u8,
    pub audio_sampling_rate: nat,
}

/// The value of `audio_compression` that stands for uncompressed PCM.
pub const AUDIO_PCM: u8 = 0;

/// The value of `audio_compression` that stands for ADX.
pub const AUDIO_ADX: u8 = 2;

/// The bytes `cvid`, the four-character code of Cinepak video.
pub open spec fn cinepak_fourcc() -> Seq<u8> {
    seq![0x63u8, 0x76u8, 0x69u8, 0x64u8]
}

impl FDSCView {
    /// The short name of the audio codec.
    pub open spec fn audio_codec(self) -> Seq<char> {
        if self.audio_compression == AUDIO_PCM {
            "pcm"@
        } else if self.audio_compression == AUDIO_ADX {
            "adx"@
        } else {
            "unknown"@
        }
    }

    /// The name of the video codec for a reader.
    pub open spec fn human_readable_fourcc(self) -> Seq<char> {
        if self.fourcc == "cvid"@ {
            "Cinepak"@
        } else {
            "Unknown"@
        }
    }

    /// Whether the container stores its audio as two planes, all of the
    /// left channel of a chunk before all of the right: that is so for
    /// uncompressed stereo, and for nothing else.
    pub open spec fn stores_planar_audio(self) -> bool {
        self.channels == 2 && self.audio_compression == AUDIO_PCM
    }
}

impl View for FDSC {
    type V = FDSCView;

    open spec fn view(&self) -> FDSCView {
        FDSCView {
            signature: self.signature@,
            length: self.length as nat,
            fourcc: self.fourcc@,
            height: self.height as nat,
            width: self.width as nat,
            bpp: self.bpp,
            channels: self.channels,
            audio_resolution: self.audio_resolution,
            audio_compression: self.audio_compression,
            audio_sampling_rate: self.audio_sampling_rate as nat,
        }
    }
}

/// What reading a format block from `data` gives.
pub open spec fn spec_parse_fdsc(data: Seq<u8>) -> Result<FDSCView, ParseError> {
    if data.len() < 4 {
        Err(ParseError::Truncated)
    } else if data.subrange(0, 4) != fdsc_magic() {
        Err(ParseError::BadSignature)
    } else if data.len() < 32 {
        Err(ParseError::Truncated)
    } else if !valid_utf8(data.subrange(8, 12)) {
        Err(ParseError::BadSignature)
    } else {
        Ok(
            FDSCView {
                signature: "FDSC"@,
                length: spec_u32_be(data.subrange(4, 8)),
                fourcc: decode_utf8(data.subrange(8, 12)),
                height: spec_u32_be(data.subrange(12, 16)),
                width: spec_u32_be(data.subrange(16, 20)),
                bpp: data[20],
                channels: data[21],
                audio_resolution: data[22],
                audio_compression: data[23],
                audio_sampling_rate: spec_u16_be(data.subrange(24, 26)),
            },
        )
    }
}

impl FDSC {
    /// Reads a format block from the start of `data`.
    pub fn parse(data: &[u8]) -> (r: Result<FDSC, ParseError>)
        ensures
            match r {
                Ok(f) => spec_parse_fdsc(data@) == Ok::<FDSCView, ParseError>(f@),
                Err(e) => spec_parse_fdsc(data@) == Err::<FDSCView, ParseError>(e),
            },
    {
        if data.len() < 4 {
            return Err(ParseError::Truncated);
        }
        if !starts_with(data, 0x46, 0x44, 0x53, 0x43) {
            return Err(ParseError::BadSignature);
        }
        if data.len() < 32 {
            return Err(ParseError::Truncated);
        }
        proof {
            lemma_magic_words();
        }
        let signature = match text_at(data, 0, 4) {
            Some(s) => s,
            None => {
                return Err(ParseError::BadSignature);
            },
        };
        let fourcc = match text_at(data, 8, 12) {
            Some(s) => s,
            None => {
                return Err(ParseError::BadSignature);
            },
        };
        Ok(
            FDSC {
                signature,
                length: read_u32(data, 4),
                fourcc,
                height: read_u32(data, 12),
                width: read_u32(data, 16),
                bpp: data[20],
                channels: data[21],
                audio_resolution: data[22],
                audio_compression: data[23],
                audio_sampling_rate: read_u16(data, 24),
            },
        )
    }

    /// The short name of the audio codec: `pcm`, `adx` or `unknown`.
    pub fn audio_codec(&self) -> (r: &'static str)
        ensures
            r@ == self@.audio_codec(),
    {
        if self.audio_compression == AUDIO_PCM {
            "pcm"
        } else if self.audio_compression == AUDIO_ADX {
            "adx"
        } else {
            "unknown"
        }
    }

    /// The name of the video codec for a reader: `Cinepak` for `cvid`,
    /// `Unknown` for every other code.
    pub fn human_readable_fourcc(&self) -> (r: &'static str)
        ensures
            r@ == self@.human_readable_fourcc(),
    {
        let code = self.fourcc.as_str().as_bytes();
        let cinepak = code.len() == 4 && starts_with(code, 0x63, 0x76, 0x69, 0x64);
        proof {
            reveal_strlit("cvid");
            lemma_ascii_text("cvid"@, cinepak_fourcc());
            encode_utf8_decode_utf8(self.fourcc@);
            assert(code@ == encode_utf8(self.fourcc@));
            if cinepak {
                assert(code@ =~= code@.subrange(0, 4));
                assert(code@ == cinepak_fourcc());
                assert(self.fourcc@ == "cvid"@);
            } else if self.fourcc@ == "cvid"@ {
                assert(code@ == cinepak_fourcc());
                assert(code@.subrange(0, 4) =~= code@);
            }
        }
        if cinepak {
            "Cinepak"
        } else {
            "Unknown"
        }
    }

    /// Whether the container stores its audio as two planes per chunk.
    pub fn stores_planar_audio(&self) -> (r: bool)
        ensures
            r == self@.stores_planar_audio(),
    {
        self.channels == 2 && self.audio_compression == AUDIO_PCM
    }
}

} // verus!
