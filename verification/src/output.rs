//! What the output of a remux looks like.
//!
//! The output is the header of the container followed by one chunk per
//! sample. This module says how long the chunks are, where in the output
//! each of them lies, and which bytes it holds: those of the container
//! for a video sample, the next bytes of the replacement track for an
//! audio sample.

use crate::header::FILMHeaderView;
use crate::remux::{
    spec_audio_data, spec_copy_sample, spec_copy_samples, spec_remux, AudioDataView,
};
use crate::table::SampleView;
use vstd::prelude::*;

verus! {

/// How many bytes the chunk for a sample has. An audio sample of odd
/// length in a container that stores two planes loses its last byte,
/// because both planes take the same number of bytes.
pub open spec fn spec_chunk_len(sample: SampleView, planar: bool) -> nat {
    if sample.is_audio() && planar {
        2 * (sample.length / 2)
    } else {
        sample.length
    }
}

/// How many bytes the chunks for the first `n` samples have together.
/// With `planar` false this is the sum of their lengths.
pub open spec fn spec_chunks_len(samples: Seq<SampleView>, n: nat, planar: bool) -> nat
    decreases n,
{
    if n == 0 {
        0
    } else {
        spec_chunks_len(samples, (n - 1) as nat, planar) + spec_chunk_len(samples[n - 1], planar)
    }
}

/// How many bytes a sample takes from the left stream (`right` false) or
/// from the right stream (`right` true). A video sample takes none.
pub open spec fn spec_share(sample: SampleView, planar: bool, right: bool) -> nat {
    if !sample.is_audio() {
        0
    } else if planar {
        sample.length / 2
    } else if right {
        0
    } else {
        sample.length
    }
}

/// How many bytes the first `n` samples take from the left stream (`right`
/// false) or from the right stream (`right` true).
pub open spec fn spec_taken(samples: Seq<SampleView>, n: nat, planar: bool, right: bool) -> nat
    decreases n,
{
    if n == 0 {
        0
    } else {
        spec_taken(samples, (n - 1) as nat, planar, right) + spec_share(
            samples[n - 1],
            planar,
            right,
        )
    }
}

/// What the first `n` samples add to the output, where they all succeed.
pub open spec fn spec_written(
    start: nat,
    samples: Seq<SampleView>,
    n: nat,
    cpk: Seq<u8>,
    audio: AudioDataView,
) -> Seq<u8> {
    match spec_copy_samples(start, samples, n, cpk, audio) {
        Ok((written, _)) => written,
        Err(_) => Seq::empty(),
    }
}

/// The replacement track after the first `n` samples, where they all
/// succeed.
pub open spec fn spec_track_after(
    start: nat,
    samples: Seq<SampleView>,
    n: nat,
    cpk: Seq<u8>,
    audio: AudioDataView,
) -> AudioDataView {
    match spec_copy_samples(start, samples, n, cpk, audio) {
        Ok((_, rest)) => rest,
        Err(_) => audio,
    }
}

/// In a container that stores two planes, an audio sample of even length
/// takes half its bytes from each stream: the first half of its chunk is
/// what it drew from the left stream, the second half what it drew from
/// the right.
pub proof fn lemma_planar_sample_takes_both_halves(
    start: nat,
    index: usize,
    sample: SampleView,
    cpk: Seq<u8>,
    audio: AudioDataView,
)
    requires
        audio.planar,
        sample.is_audio(),
        sample.length % 2 == 0,
        spec_copy_sample(start, index, sample, cpk, audio) is Ok,
    ensures
        ({
            let (chunk, rest) = spec_copy_sample(start, index, sample, cpk, audio)->Ok_0;
            let half = (sample.length / 2) as int;
            &&& (rest.left.pos - audio.left.pos) + (rest.right.pos - audio.right.pos)
                == sample.length
            &&& rest.left.pos - audio.left.pos == half
            &&& chunk.len() == sample.length
            &&& chunk.subrange(0, half) == audio.left.data.subrange(
                audio.left.pos as int,
                audio.left.pos + half,
            )
            &&& chunk.subrange(half, 2 * half) == audio.right.data.subrange(
                audio.right.pos as int,
                audio.right.pos + half,
            )
        }),
{
    let (chunk, rest) = spec_copy_sample(start, index, sample, cpk, audio)->Ok_0;
    let half = (sample.length / 2) as int;
    assert(chunk.subrange(0, half) =~= audio.left.next(half as nat));
    assert(chunk.subrange(half, 2 * half) =~= audio.right.next(half as nat));
}

/// A sample that succeeds adds a chunk of the expected length and moves
/// each stream by its share.
pub proof fn lemma_copy_sample_shape(
    start: nat,
    index: usize,
    sample: SampleView,
    cpk: Seq<u8>,
    audio: AudioDataView,
)
    requires
        spec_copy_sample(start, index, sample, cpk, audio) is Ok,
    ensures
        ({
            let (chunk, rest) = spec_copy_sample(start, index, sample, cpk, audio)->Ok_0;
            &&& chunk.len() == spec_chunk_len(sample, audio.planar)
            &&& rest.planar == audio.planar
            &&& rest.left.data == audio.left.data
            &&& rest.right.data == audio.right.data
            &&& sample.is_audio() ==> rest == audio.after(sample.length) && chunk == audio.chunk(
                sample.length,
            )
            &&& !sample.is_audio() ==> rest == audio && chunk == cpk.subrange(
                (start + sample.offset) as int,
                (start + sample.offset + sample.length) as int,
            )
        }),
{
}

/// Where the first `n` samples succeed, what they add has the length of
/// their chunks, and each stream has moved by what they took from it.
pub proof fn lemma_copy_samples_shape(
    start: nat,
    samples: Seq<SampleView>,
    n: nat,
    cpk: Seq<u8>,
    audio: AudioDataView,
)
    requires
        spec_copy_samples(start, samples, n, cpk, audio) is Ok,
    ensures
        spec_written(start, samples, n, cpk, audio).len() == spec_chunks_len(
            samples,
            n,
            audio.planar,
        ),
        spec_track_after(start, samples, n, cpk, audio) == (AudioDataView {
            planar: audio.planar,
            left: audio.left.advance(spec_taken(samples, n, audio.planar, false)),
            right: audio.right.advance(spec_taken(samples, n, audio.planar, true)),
        }),
    decreases n,
{
    if n > 0 {
        let m = (n - 1) as nat;
        lemma_copy_samples_shape(start, samples, m, cpk, audio);
        let track = spec_track_after(start, samples, m, cpk, audio);
        lemma_copy_sample_shape(start, m as usize, samples[m as int], cpk, track);
    }
}

/// Where the first `n` samples succeed, so do the first `k` of them, and
/// what those add is the beginning of what all `n` add. The chunk of
/// sample `k` follows at once.
pub proof fn lemma_chunk_in_place(
    start: nat,
    samples: Seq<SampleView>,
    n: nat,
    cpk: Seq<u8>,
    audio: AudioDataView,
    k: nat,
)
    requires
        k < n,
        spec_copy_samples(start, samples, n, cpk, audio) is Ok,
    ensures
        spec_copy_samples(start, samples, k, cpk, audio) is Ok,
        spec_copy_sample(
            start,
            k as usize,
            samples[k as int],
            cpk,
            spec_track_after(start, samples, k, cpk, audio),
        ) is Ok,
        ({
            let all = spec_written(start, samples, n, cpk, audio);
            let before = spec_written(start, samples, k, cpk, audio);
            let chunk = spec_copy_sample(
                start,
                k as usize,
                samples[k as int],
                cpk,
                spec_track_after(start, samples, k, cpk, audio),
            )->Ok_0.0;
            &&& before.len() + chunk.len() <= all.len()
            &&& all.subrange(0, before.len() as int) == before
            &&& all.subrange(before.len() as int, (before.len() + chunk.len()) as int) == chunk
        }),
    decreases n,
{
    let m = (n - 1) as nat;
    let all = spec_written(start, samples, n, cpk, audio);
    let most = spec_written(start, samples, m, cpk, audio);
    let last = spec_copy_sample(
        start,
        m as usize,
        samples[m as int],
        cpk,
        spec_track_after(start, samples, m, cpk, audio),
    )->Ok_0.0;
    assert(all == most + last);
    if k < m {
        lemma_chunk_in_place(start, samples, m, cpk, audio, k);
        let before = spec_written(start, samples, k, cpk, audio);
        let chunk = spec_copy_sample(
            start,
            k as usize,
            samples[k as int],
            cpk,
            spec_track_after(start, samples, k, cpk, audio),
        )->Ok_0.0;
        assert(all.subrange(0, before.len() as int) =~= most.subrange(0, before.len() as int));
        assert(all.subrange(before.len() as int, (before.len() + chunk.len()) as int)
            =~= most.subrange(
            before.len() as int,
            (before.len() + chunk.len()) as int,
        ));
    } else {
        assert(all.subrange(0, most.len() as int) =~= most);
        assert(all.subrange(most.len() as int, (most.len() + last.len()) as int) =~= last);
    }
}

/// Where no audio sample of a two-plane container has an odd length, the
/// chunks have the lengths of their samples.
pub proof fn lemma_chunks_len_is_total(samples: Seq<SampleView>, n: nat, planar: bool)
    requires
        n <= samples.len(),
        forall|k: int|
            0 <= k < n && planar && (#[trigger] samples[k]).is_audio() ==> samples[k].length % 2
                == 0,
    ensures
        spec_chunks_len(samples, n, planar) == spec_chunks_len(samples, n, false),
    decreases n,
{
    if n > 0 {
        lemma_chunks_len_is_total(samples, (n - 1) as nat, planar);
    }
}

/// The output of a remux starts with the header of the container and has,
/// after it, the bytes of one chunk per sample.
pub proof fn lemma_remux_len(cpk: Seq<u8>, header: FILMHeaderView, track: Seq<u8>)
    requires
        spec_remux(cpk, header, track) is Ok,
    ensures
        ({
            let out = spec_remux(cpk, header, track)->Ok_0;
            let samples = header.stab.sample_table;
            &&& header.length <= cpk.len()
            &&& out.len() == header.length + spec_chunks_len(
                samples,
                samples.len(),
                header.fdsc.stores_planar_audio(),
            )
            &&& out.subrange(0, header.length as int) == cpk.subrange(0, header.length as int)
        }),
{
    let out = spec_remux(cpk, header, track)->Ok_0;
    let samples = header.stab.sample_table;
    let audio = spec_audio_data(header.fdsc, track)->Ok_0;
    lemma_copy_samples_shape(header.length, samples, samples.len(), cpk, audio);
    assert(out.subrange(0, header.length as int) =~= cpk.subrange(0, header.length as int));
}

/// Where no audio sample of a two-plane container has an odd length, the
/// output of a remux is as long as the header and all samples together.
pub proof fn lemma_remux_total_len(cpk: Seq<u8>, header: FILMHeaderView, track: Seq<u8>)
    requires
        spec_remux(cpk, header, track) is Ok,
        forall|k: int|
            0 <= k < header.stab.sample_table.len() && header.fdsc.stores_planar_audio() && (
            #[trigger] header.stab.sample_table[k]).is_audio()
                ==> header.stab.sample_table[k].length % 2 == 0,
    ensures
        spec_remux(cpk, header, track)->Ok_0.len() == header.length + spec_chunks_len(
            header.stab.sample_table,
            header.stab.sample_table.len(),
            false,
        ),
{
    let samples = header.stab.sample_table;
    lemma_remux_len(cpk, header, track);
    lemma_chunks_len_is_total(samples, samples.len(), header.fdsc.stores_planar_audio());
}

/// A remux copies every video sample as it is: its chunk in the output,
/// which follows the chunks of the samples before it, holds the bytes
/// that the sample has in the container.
pub proof fn lemma_remux_keeps_video(
    cpk: Seq<u8>,
    header: FILMHeaderView,
    track: Seq<u8>,
    k: nat,
)
    requires
        spec_remux(cpk, header, track) is Ok,
        k < header.stab.sample_table.len(),
        !header.stab.sample_table[k as int].is_audio(),
    ensures
        ({
            let out = spec_remux(cpk, header, track)->Ok_0;
            let samples = header.stab.sample_table;
            let sample = samples[k as int];
            let at = header.length + spec_chunks_len(
                samples,
                k,
                header.fdsc.stores_planar_audio(),
            );
            &&& at + sample.length <= out.len()
            &&& header.length + sample.offset + sample.length <= cpk.len()
            &&& out.subrange(at as int, (at + sample.length) as int) == cpk.subrange(
                (header.length + sample.offset) as int,
                (header.length + sample.offset + sample.length) as int,
            )
        }),
{
    let out = spec_remux(cpk, header, track)->Ok_0;
    let samples = header.stab.sample_table;
    let audio = spec_audio_data(header.fdsc, track)->Ok_0;
    let start = header.length;
    lemma_chunk_in_place(start, samples, samples.len(), cpk, audio, k);
    lemma_copy_samples_shape(start, samples, k, cpk, audio);
    let all = spec_written(start, samples, samples.len(), cpk, audio);
    let before = spec_written(start, samples, k, cpk, audio);
    let sample = samples[k as int];
    let at = start + before.len();
    assert(out.subrange(at as int, (at + sample.length) as int) =~= all.subrange(
        before.len() as int,
        (before.len() + sample.length) as int,
    ));
}

/// A remux gives every audio sample the next bytes of the replacement
/// track: its chunk in the output holds its share of the left stream,
/// from where the samples before it stopped, and then its share of the
/// right stream.
pub proof fn lemma_remux_places_audio(
    cpk: Seq<u8>,
    header: FILMHeaderView,
    track: Seq<u8>,
    k: nat,
)
    requires
        spec_remux(cpk, header, track) is Ok,
        k < header.stab.sample_table.len(),
        header.stab.sample_table[k as int].is_audio(),
    ensures
        ({
            let out = spec_remux(cpk, header, track)->Ok_0;
            let samples = header.stab.sample_table;
            let planar = header.fdsc.stores_planar_audio();
            let audio = spec_audio_data(header.fdsc, track)->Ok_0;
            let sample = samples[k as int];
            let at = header.length + spec_chunks_len(samples, k, planar);
            let left_at = spec_taken(samples, k, planar, false);
            let right_at = spec_taken(samples, k, planar, true);
            let left_share = audio.left_share(sample.length);
            let right_share = audio.right_share(sample.length);
            &&& audio.planar == planar
            &&& at + left_share + right_share <= out.len()
            &&& left_at + left_share <= audio.left.data.len()
            &&& right_at + right_share <= audio.right.data.len()
            &&& out.subrange(at as int, (at + left_share) as int) == audio.left.data.subrange(
                left_at as int,
                (left_at + left_share) as int,
            )
            &&& out.subrange((at + left_share) as int, (at + left_share + right_share) as int)
                == audio.right.data.subrange(right_at as int, (right_at + right_share) as int)
        }),
{
    let out = spec_remux(cpk, header, track)->Ok_0;
    let samples = header.stab.sample_table;
    let audio = spec_audio_data(header.fdsc, track)->Ok_0;
    let start = header.length;
    lemma_chunk_in_place(start, samples, samples.len(), cpk, audio, k);
    lemma_copy_samples_shape(start, samples, k, cpk, audio);
    let all = spec_written(start, samples, samples.len(), cpk, audio);
    let before = spec_written(start, samples, k, cpk, audio);
    let sample = samples[k as int];
    let now = spec_track_after(start, samples, k, cpk, audio);
    let chunk = now.chunk(sample.length);
    let at = start + before.len();
    let left_share = audio.left_share(sample.length);
    let right_share = audio.right_share(sample.length);
    assert(all.subrange(before.len() as int, (before.len() + chunk.len()) as int) == chunk);
    assert(out.subrange(at as int, (at + left_share) as int) =~= chunk.subrange(
        0,
        left_share as int,
    ));
    assert(out.subrange((at + left_share) as int, (at + left_share + right_share) as int)
        =~= chunk.subrange(
        left_share as int,
        (left_share + right_share) as int,
    ));
    assert(chunk.subrange(0, left_share as int) =~= now.left.next(left_share));
    assert(chunk.subrange(left_share as int, (left_share + right_share) as int) =~= now.right.next(
        right_share,
    ));
}

} // verus!
