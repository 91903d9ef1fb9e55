//! The sample table: one record for every chunk of the data region.

use crate::bytes::{read_u32, spec_u32_be};
use crate::error::ParseError;
use crate::text::{lemma_magic_words, stab_magic, starts_with, text_at};
use vstd::prelude::*;
use vstd::slice::slice_subrange;

verus! {

/// One chunk of the data region: a video frame or a buffer of audio.
#[derive(Clone, Copy, Debug, PartialEq, Eq)]
pub struct Sample {
    /// Where the chunk starts, counted from the first byte after the header.
    pub offset: u32,
    /// How many bytes the chunk holds.
    pub length: u32,
    /// First info word; all ones for audio.
    pub info1: [u8; 4],
    /// Second info word, kept as it was read.
    pub info2: [u8; 4],
}

/// A sample as plain values.
pub struct SampleView {
    pub offset: nat,
    pub length: nat,
    pub info1: Seq<u8>,
    pub info2: Seq<u8>,
}

/// The first info word of every audio chunk.
pub open spec fn audio_tag() -> Seq<u8> {
    seq![1u8, 1u8, 1u8, 1u8]
}

impl SampleView {
    /// Whether the chunk holds audio; every other chunk is video.
    pub open spec fn is_audio(self) -> bool {
        self.info1 == audio_tag()
    }
}

impl View for Sample {
    type V = SampleView;

    open spec fn view(&self) -> SampleView {
        SampleView {
            offset: self.offset as nat,
            length: self.length as nat,
            info1: self.info1@,
            info2: self.info2@,
        }
    }
}

/// The sample that a 16-byte record spells.
pub open spec fn spec_sample(record: Seq<u8>) -> SampleView
    recommends
        record.len() == 16,
{
    SampleView {
        offset: spec_u32_be(record.subrange(0, 4)),
        length: spec_u32_be(record.subrange(4, 8)),
        info1: record.subrange(8, 12),
        info2: record.subrange(12, 16),
    }
}

/// What reading a sample from `data` gives: the record in its first 16
/// bytes, or `Truncated` if there are fewer.
pub open spec fn spec_parse_sample(data: Seq<u8>) -> Result<SampleView, ParseError> {
    if data.len() < 16 {
        Err(ParseError::Truncated)
    } else {
        Ok(spec_sample(data.subrange(0, 16)))
    }
}

impl Sample {
    /// Reads one sample record from the start of `data`.
    pub fn parse(data: &[u8]) -> (r: Result<Sample, ParseError>)
        ensures
            match r {
                Ok(s) => spec_parse_sample(data@) == Ok::<SampleView, ParseError>(s@),
                Err(e) => spec_parse_sample(data@) == Err::<SampleView, ParseError>(e),
            },
    {
        if data.len() < 16 {
            return Err(ParseError::Truncated);
        }
        let sample = Sample {
            offset: read_u32(data, 0),
            length: read_u32(data, 4),
            info1: [data[8], data[9], data[10], data[11]],
            info2: [data[12], data[13], data[14], data[15]],
        };
        proof {
            let record = data@.subrange(0, 16);
            assert(record.subrange(0, 4) =~= data@.subrange(0, 4));
            assert(record.subrange(4, 8) =~= data@.subrange(4, 8));
            assert(sample.info1@ =~= record.subrange(8, 12));
            assert(sample.info2@ =~= record.subrange(12, 16));
        }
        Ok(sample)
    }

    /// Whether the chunk holds audio. Nothing else about a chunk's kind
    /// matters when a track is replaced.
    pub fn is_audio(&self) -> (r: bool)
        ensures
            r == self@.is_audio(),
    {
        let r = self.info1[0] == 1 && self.info1[1] == 1 && self.info1[2] == 1 && self.info1[3]
            == 1;
        proof {
            let tag = audio_tag();
            if r {
                assert(self.info1@ =~= tag);
            } else {
                assert(tag[0] == 1 && tag[1] == 1 && tag[2] == 1 && tag[3] == 1);
            }
        }
        r
    }
}

/// The sample table of a container.
#[derive(Clone, Debug, PartialEq, Eq)]
pub struct STAB {
    /// Always `STAB`.
    pub signature: String,
    /// The size that the table declares for itself.
    pub length: u32,
    /// Ticks per second.
    pub framerate: u32,
    /// How many 16-byte slots the table declares.
    pub entries: u32,
    /// The samples, in file order.
    pub sample_table: Vec<Sample>,
}

/// A sample table as plain values.
pub struct STABView {
    pub signature: Seq<char>,
    pub length: nat,
    pub framerate: nat,
    pub entries: nat,
    pub sample_table: Seq<SampleView>,
}

impl View for STAB {
    type V = STABView;

    open spec fn view(&self) -> STABView {
        STABView {
            signature: self.signature@,
            length: self.length as nat,
            framerate: self.framerate as nat,
            entries: self.entries as nat,
            sample_table: Seq::new(self.sample_table@.len(), |k: int| self.sample_table@[k]@),
        }
    }
}

/// The `i`-th 16-byte slot of a table. Slots are counted from the first
/// byte of the table, so slot 0 is the table's own header.
pub open spec fn slot(data: Seq<u8>, i: int) -> Seq<u8> {
    data.subrange(16 * i, 16 * i + 16)
}

/// What reading a sample table from `data` gives.
///
/// A table of `entries` slots holds `entries - 1` samples: slot 0 is never
/// a sample, and sample `k` is read from slot `k + 1`. A table that declares
/// no slot at all is damaged.
pub open spec fn spec_parse_stab(data: Seq<u8>) -> Result<STABView, ParseError> {
    if data.len() < 4 {
        Err(ParseError::Truncated)
    } else if data.subrange(0, 4) != stab_magic() {
        Err(ParseError::BadSignature)
    } else if data.len() < 16 {
        Err(ParseError::Truncated)
    } else {
        let entries = spec_u32_be(data.subrange(12, 16));
        if entries == 0 {
            Err(ParseError::BadSignature)
        } else if data.len() < 16 * entries {
            Err(ParseError::Truncated)
        } else {
            Ok(
                STABView {
                    signature: "STAB"@,
                    length: spec_u32_be(data.subrange(4, 8)),
                    framerate: spec_u32_be(data.subrange(8, 12)),
                    entries,
                    sample_table: Seq::new(
                        (entries - 1) as nat,
                        |k: int| spec_sample(slot(data, k + 1)),
                    ),
                },
            )
        }
    }
}

impl STAB {
    /// Reads a sample table from the start of `data`.
    pub fn parse(data: &[u8]) -> (r: Result<STAB, ParseError>)
        ensures
            match r {
                Ok(t) => spec_parse_stab(data@) == Ok::<STABView, ParseError>(t@),
                Err(e) => spec_parse_stab(data@) == Err::<STABView, ParseError>(e),
            },
    {
        if data.len() < 4 {
            return Err(ParseError::Truncated);
        }
        if !starts_with(data, 0x53, 0x54, 0x41, 0x42) {
            return Err(ParseError::BadSignature);
        }
        if data.len() < 16 {
            return Err(ParseError::Truncated);
        }
        let entries = read_u32(data, 12);
        if entries == 0 {
            return Err(ParseError::BadSignature);
        }
        if (data.len() as u64) < 16 * (entries as u64) {
            return Err(ParseError::Truncated);
        }
        proof {
            lemma_magic_words();
        }
        let signature = match text_at(data, 0, 4) {
            Some(s) => s,
            None => {
                return Err(ParseError::BadSignature);
            },
        };
        let n = entries as usize;
        let mut samples: Vec<Sample> = Vec::new();
        // Slot 0 is the table's own header: the first sample is slot 1.
        let mut i: usize = 1;
        while i < n
            invariant
                1 <= i <= n,
                16 * n <= data@.len() <= usize::MAX,
                samples@.len() == i - 1,
                forall|k: int|
                    0 <= k < i - 1 ==> (#[trigger] samples@[k])@ == spec_sample(
                        slot(data@, k + 1),
                    ),
            decreases n - i,
        {
            let at = i * 16;
            let record = slice_subrange(data, at, at + 16);
            match Sample::parse(record) {
                Ok(sample) => {
                    assert(record@.subrange(0, 16) =~= slot(data@, i as int));
                    samples.push(sample);
                },
                Err(_) => {
                    // A record of 16 bytes always reads.
                    assert(false);
                },
            }
            i += 1;
        }
        let table = STAB {
            signature,
            length: read_u32(data, 4),
            framerate: read_u32(data, 8),
            entries,
            sample_table: samples,
        };
        proof {
            let want = Seq::new((entries - 1) as nat, |k: int| spec_sample(slot(data@, k + 1)));
            assert(table@.sample_table =~= want);
        }
        Ok(table)
    }
}

/// A table of `entries` slots yields `entries - 1` samples, and sample `k`
/// is what slot `k + 1` spells: slot 0 is never among them.
pub proof fn lemma_first_slot_is_skipped(data: Seq<u8>, table: STABView)
    requires
        spec_parse_stab(data) == Ok::<STABView, ParseError>(table),
    ensures
        table.entries >= 1,
        table.entries == spec_u32_be(data.subrange(12, 16)),
        table.sample_table.len() == table.entries - 1,
        forall|k: int|
            0 <= k < table.sample_table.len() ==> #[trigger] table.sample_table[k] == spec_sample(
                data.subrange(16 * (k + 1), 16 * (k + 2)),
            ),
{
    assert forall|k: int| 0 <= k < table.sample_table.len() implies #[trigger] table.sample_table[k]
        == spec_sample(data.subrange(16 * (k + 1), 16 * (k + 2))) by {
        assert(slot(data, k + 1) == data.subrange(16 * (k + 1), 16 * (k + 2)));
    }
}

} // verus!
