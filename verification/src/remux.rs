//! Putting a replacement audio track into a container.
//!
//! The output has the header and every video chunk of the container as
//! they were, and in place of every audio chunk the next bytes of the
//! replacement track, laid out as the container stores them. Chunks are
//! written in the order of the sample table.

use crate::audio::{
    append_range, spec_half_frame, spec_left_channel, spec_right_channel, split_channels,
    AudioStream, AudioStreamView,
};
use crate::error::RemuxError;
use crate::format::{FDSCView, FDSC};
use crate::header::{FILMHeader, FILMHeaderView};
use crate::table::{Sample, SampleView};
use vstd::prelude::*;

verus! {

/// A replacement track, ready to be read chunk by chunk: one stream where
/// the track is passed through as it is, a left and a right stream where
/// the container stores two planes.
#[derive(Debug)]
pub struct AudioData {
    planar: bool,
    left: AudioStream,
    right: AudioStream,
}

/// A replacement track as plain values. Where `planar` is false, all of
/// the track is in `left` and `right` is empty.
pub struct AudioDataView {
    pub planar: bool,
    pub left: AudioStreamView,
    pub right: AudioStreamView,
}

/// How many of `n` bytes a stream cannot supply.
pub open spec fn spec_missing(stream: AudioStreamView, n: nat) -> nat {
    if stream.remaining() < n {
        (n - stream.remaining()) as nat
    } else {
        0
    }
}

impl AudioDataView {
    /// How many bytes a sample of `length` bytes takes from `left`.
    pub open spec fn left_share(self, length: nat) -> nat {
        if self.planar {
            length / 2
        } else {
            length
        }
    }

    /// How many bytes a sample of `length` bytes takes from `right`.
    pub open spec fn right_share(self, length: nat) -> nat {
        if self.planar {
            length / 2
        } else {
            0
        }
    }

    /// Whether both streams hold what a sample of `length` bytes takes.
    pub open spec fn can_supply(self, length: nat) -> bool {
        self.left_share(length) <= self.left.remaining() && self.right_share(length)
            <= self.right.remaining()
    }

    /// How many of the bytes that a sample of `length` bytes takes are
    /// missing from the two streams.
    pub open spec fn shortfall(self, length: nat) -> nat {
        spec_missing(self.left, self.left_share(length)) + spec_missing(
            self.right,
            self.right_share(length),
        )
    }

    /// The bytes that stand for an audio sample of `length` bytes: its
    /// share of the left stream, then its share of the right.
    pub open spec fn chunk(self, length: nat) -> Seq<u8> {
        self.left.next(self.left_share(length)) + self.right.next(self.right_share(length))
    }

    /// The track after an audio sample of `length` bytes has taken its
    /// bytes.
    pub open spec fn after(self, length: nat) -> AudioDataView {
        AudioDataView {
            planar: self.planar,
            left: self.left.advance(self.left_share(length)),
            right: self.right.advance(self.right_share(length)),
        }
    }
}

/// The streams that a replacement track is read from, for a container of
/// the given format. Stereo PCM is parted into its channels, which needs
/// a resolution of 8 or 16 bits; every other format takes the track as it
/// is.
pub open spec fn spec_audio_data(format: FDSCView, track: Seq<u8>) -> Result<
    AudioDataView,
    RemuxError,
> {
    if !format.stores_planar_audio() {
        Ok(
            AudioDataView {
                planar: false,
                left: AudioStreamView::fresh(track),
                right: AudioStreamView::fresh(Seq::empty()),
            },
        )
    } else {
        match spec_half_frame(format.audio_resolution) {
            None => Err(
                RemuxError::UnsupportedFormat { audio_resolution: format.audio_resolution },
            ),
            Some(half) => Ok(
                AudioDataView {
                    planar: true,
                    left: AudioStreamView::fresh(spec_left_channel(track, half)),
                    right: AudioStreamView::fresh(spec_right_channel(track, half)),
                },
            ),
        }
    }
}

/// What one sample adds to the output, and the replacement track after
/// it. A video sample is copied from the data region, which starts at
/// `start`, and leaves the track alone. An audio sample takes its bytes
/// from the track, all or none.
pub open spec fn spec_copy_sample(
    start: nat,
    index: usize,
    sample: SampleView,
    cpk: Seq<u8>,
    audio: AudioDataView,
) -> Result<(Seq<u8>, AudioDataView), RemuxError> {
    if sample.is_audio() {
        if audio.can_supply(sample.length) {
            Ok((audio.chunk(sample.length), audio.after(sample.length)))
        } else {
            Err(
                RemuxError::InsufficientAudio {
                    index,
                    required: sample.length as usize,
                    shortfall: audio.shortfall(sample.length) as usize,
                },
            )
        }
    } else if start + sample.offset + sample.length <= cpk.len() {
        Ok(
            (
                cpk.subrange(
                    (start + sample.offset) as int,
                    (start + sample.offset + sample.length) as int,
                ),
                audio,
            ),
        )
    } else {
        Err(RemuxError::Truncated)
    }
}

/// What the first `n` samples add to the output, in table order, and the
/// replacement track after them. The first sample that fails decides the
/// error.
pub open spec fn spec_copy_samples(
    start: nat,
    samples: Seq<SampleView>,
    n: nat,
    cpk: Seq<u8>,
    audio: AudioDataView,
) -> Result<(Seq<u8>, AudioDataView), RemuxError>
    decreases n,
{
    if n == 0 {
        Ok((Seq::empty(), audio))
    } else {
        match spec_copy_samples(start, samples, (n - 1) as nat, cpk, audio) {
            Err(e) => Err(e),
            Ok((written, track)) => match spec_copy_sample(
                start,
                (n - 1) as usize,
                samples[n - 1],
                cpk,
                track,
            ) {
                Err(e) => Err(e),
                Ok((chunk, rest)) => Ok((written + chunk, rest)),
            },
        }
    }
}

/// The container that has `track` for its audio: the header of `cpk`,
/// then one chunk for every sample of the table.
pub open spec fn spec_remux(cpk: Seq<u8>, header: FILMHeaderView, track: Seq<u8>) -> Result<
    Seq<u8>,
    RemuxError,
> {
    if cpk.len() < header.length {
        Err(RemuxError::Truncated)
    } else {
        match spec_audio_data(header.fdsc, track) {
            Err(e) => Err(e),
            Ok(audio) => match spec_copy_samples(
                header.length,
                header.stab.sample_table,
                header.stab.sample_table.len(),
                cpk,
                audio,
            ) {
                Err(e) => Err(e),
                Ok((chunks, _)) => Ok(cpk.subrange(0, header.length as int) + chunks),
            },
        }
    }
}

/// Once a sample has failed, taking more samples into account changes
/// nothing: the first failure is the result.
pub proof fn lemma_failure_is_final(
    start: nat,
    samples: Seq<SampleView>,
    n: nat,
    m: nat,
    cpk: Seq<u8>,
    audio: AudioDataView,
)
    requires
        n <= m,
        spec_copy_samples(start, samples, n, cpk, audio) is Err,
    ensures
        spec_copy_samples(start, samples, m, cpk, audio) == spec_copy_samples(
            start,
            samples,
            n,
            cpk,
            audio,
        ),
    decreases m,
{
    if n < m {
        lemma_failure_is_final(start, samples, n, (m - 1) as nat, cpk, audio);
    }
}

impl View for AudioData {
    type V = AudioDataView;

    closed spec fn view(&self) -> AudioDataView {
        AudioDataView { planar: self.planar, left: self.left@, right: self.right@ }
    }
}

impl AudioData {
    /// Prepares a replacement track for a container of the given format.
    pub fn new(format: &FDSC, track: Vec<u8>) -> (r: Result<AudioData, RemuxError>)
        ensures
            match r {
                Ok(audio) => spec_audio_data(format@, track@) == Ok::<AudioDataView, RemuxError>(
                    audio@,
                ),
                Err(e) => spec_audio_data(format@, track@) == Err::<AudioDataView, RemuxError>(e),
            },
    {
        if !format.stores_planar_audio() {
            return Ok(
                AudioData {
                    planar: false,
                    left: AudioStream::new(track),
                    right: AudioStream::new(Vec::new()),
                },
            );
        }
        // One frame holds a sample of each channel: four bytes of 16-bit
        // sound, two bytes of 8-bit sound.
        let half: usize = if format.audio_resolution == 16 {
            2
        } else if format.audio_resolution == 8 {
            1
        } else {
            return Err(
                RemuxError::UnsupportedFormat { audio_resolution: format.audio_resolution },
            );
        };
        let (left, right) = split_channels(track.as_slice(), half);
        Ok(AudioData { planar: true, left: AudioStream::new(left), right: AudioStream::new(right) })
    }

    /// Whether the track was parted into a left and a right stream.
    pub fn is_planar(&self) -> (r: bool)
        ensures
            r == self@.planar,
    {
        self.planar
    }

    /// How many bytes of the left stream, or of the only stream, are
    /// still to be read.
    pub fn left_remaining(&self) -> (r: usize)
        ensures
            r == self@.left.remaining(),
    {
        self.left.remaining()
    }

    /// How many bytes of the right stream are still to be read.
    pub fn right_remaining(&self) -> (r: usize)
        ensures
            r == self@.right.remaining(),
    {
        self.right.remaining()
    }
}

/// Appends to `out` the chunk that stands for one sample: for a video
/// sample its bytes in the container, whose data region starts at
/// `start_of_data`; for an audio sample the next bytes of the replacement
/// track. `index` is the position of the sample in the sample table.
///
/// On failure nothing is appended and the track stays where it was.
pub fn copy_sample(
    start_of_data: usize,
    index: usize,
    sample: &Sample,
    cpk_data: &[u8],
    audio: &mut AudioData,
    out: &mut Vec<u8>,
) -> (r: Result<(), RemuxError>)
    ensures
        match spec_copy_sample(start_of_data as nat, index, sample@, cpk_data@, old(audio)@) {
            Ok((chunk, rest)) => r is Ok && final(out)@ == old(out)@ + chunk && final(audio)@
                == rest,
            Err(e) => r == Err::<(), RemuxError>(e) && final(out)@ == old(out)@ && final(audio)@
                == old(audio)@,
        },
{
    let length = sample.length as usize;
    if !sample.is_audio() {
        // Video goes through as it is.
        let offset = sample.offset as usize;
        let size = cpk_data.len();
        if start_of_data > size || offset > size - start_of_data || length > size - start_of_data
            - offset {
            return Err(RemuxError::Truncated);
        }
        let from = start_of_data + offset;
        append_range(out, cpk_data, from, from + length);
        return Ok(());
    }
    let left_share = if audio.planar {
        length / 2
    } else {
        length
    };
    let right_share = if audio.planar {
        length / 2
    } else {
        0
    };
    let left_remaining = audio.left.remaining();
    let right_remaining = audio.right.remaining();
    if left_share > left_remaining || right_share > right_remaining {
        let left_missing = if left_share > left_remaining {
            left_share - left_remaining
        } else {
            0
        };
        let right_missing = if right_share > right_remaining {
            right_share - right_remaining
        } else {
            0
        };
        return Err(
            RemuxError::InsufficientAudio {
                index,
                required: length,
                shortfall: left_missing + right_missing,
            },
        );
    }
    let ghost before = out@;
    let ghost track = audio@;
    audio.left.read_into(left_share, out);
    audio.right.read_into(right_share, out);
    assert(out@ =~= before + track.chunk(sample@.length));
    Ok(())
}

/// Builds the container that has `track` for its audio.
///
/// The output starts with the header of `cpk_data`, `header.length` bytes,
/// and goes on with one chunk per sample, in table order. Nothing is
/// returned unless every sample had its bytes.
pub fn remux(cpk_data: &[u8], header: &FILMHeader, track: Vec<u8>) -> (r: Result<
    Vec<u8>,
    RemuxError,
>)
    ensures
        match r {
            Ok(out) => spec_remux(cpk_data@, header@, track@) == Ok::<Seq<u8>, RemuxError>(out@),
            Err(e) => spec_remux(cpk_data@, header@, track@) == Err::<Seq<u8>, RemuxError>(e),
        },
{
    if cpk_data.len() < header.length {
        return Err(RemuxError::Truncated);
    }
    let ghost replacement = track@;
    let mut audio = match AudioData::new(&header.fdsc, track) {
        Ok(a) => a,
        Err(e) => {
            return Err(e);
        },
    };
    let mut out: Vec<u8> = Vec::new();
    append_range(&mut out, cpk_data, 0, header.length);
    let ghost head = out@;
    let ghost fresh = audio@;
    let ghost samples = header@.stab.sample_table;
    let count = header.stab.sample_table.len();
    let mut i: usize = 0;
    while i < count
        invariant
            i <= count,
            count == header.stab.sample_table@.len(),
            samples == header@.stab.sample_table,
            header.length <= cpk_data@.len(),
            spec_audio_data(header@.fdsc, replacement) == Ok::<AudioDataView, RemuxError>(fresh),
            replacement == track@,
            head == cpk_data@.subrange(0, header.length as int),
            spec_copy_samples(header.length as nat, samples, i as nat, cpk_data@, fresh) is Ok,
            out@ == head + spec_copy_samples(
                header.length as nat,
                samples,
                i as nat,
                cpk_data@,
                fresh,
            )->Ok_0.0,
            audio@ == spec_copy_samples(
                header.length as nat,
                samples,
                i as nat,
                cpk_data@,
                fresh,
            )->Ok_0.1,
        decreases count - i,
    {
        match copy_sample(
            header.length,
            i,
            &header.stab.sample_table[i],
            cpk_data,
            &mut audio,
            &mut out,
        ) {
            Ok(()) => {},
            Err(e) => {
                proof {
                    assert(spec_copy_samples(
                        header.length as nat,
                        samples,
                        (i + 1) as nat,
                        cpk_data@,
                        fresh,
                    ) == Err::<(Seq<u8>, AudioDataView), RemuxError>(e));
                    lemma_failure_is_final(
                        header.length as nat,
                        samples,
                        (i + 1) as nat,
                        count as nat,
                        cpk_data@,
                        fresh,
                    );
                }
                return Err(e);
            },
        }
        i += 1;
    }
    Ok(out)
}

} // verus!
