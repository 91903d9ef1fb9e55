//! The audio that a container already holds.
//!
//! Taking the audio chunks out of a container, joining their left and
//! right planes into one interleaved track, and putting that track back
//! gives the container byte for byte. This holds of a container whose
//! samples lie one after another and fill the data region, and whose
//! audio chunks hold whole frames.

use crate::audio::{lemma_split_of_interleave, spec_half_frame, spec_interleave, AudioStreamView};
use crate::error::RemuxError;
use crate::header::FILMHeaderView;
use crate::output::{spec_chunks_len, spec_share, spec_taken};
use crate::remux::{
    spec_audio_data, spec_copy_sample, spec_copy_samples, spec_remux, AudioDataView,
};
use crate::table::SampleView;
use vstd::prelude::*;

verus! {

/// The bytes that one sample holds for the left stream (`right` false) or
/// for the right stream (`right` true): of an audio chunk in two planes
/// its first or its second half, of any other audio chunk all or nothing,
/// of a video chunk nothing.
pub open spec fn spec_own_piece(
    cpk: Seq<u8>,
    start: nat,
    sample: SampleView,
    planar: bool,
    right: bool,
) -> Seq<u8> {
    if !sample.is_audio() {
        Seq::empty()
    } else {
        let skip: int = if right {
            spec_share(sample, planar, false) as int
        } else {
            0
        };
        let from: int = start + sample.offset + skip;
        cpk.subrange(from, from + spec_share(sample, planar, right))
    }
}

/// The bytes that the first `n` samples hold for one stream, in table
/// order.
pub open spec fn spec_own_plane(
    cpk: Seq<u8>,
    start: nat,
    samples: Seq<SampleView>,
    n: nat,
    planar: bool,
    right: bool,
) -> Seq<u8>
    decreases n,
{
    if n == 0 {
        Seq::empty()
    } else {
        spec_own_plane(cpk, start, samples, (n - 1) as nat, planar, right) + spec_own_piece(
            cpk,
            start,
            samples[n - 1],
            planar,
            right,
        )
    }
}

/// The track that a container holds: its audio chunks one after another,
/// and, where it stores two planes, the two planes of all chunks joined
/// frame by frame.
pub open spec fn spec_own_audio(cpk: Seq<u8>, header: FILMHeaderView) -> Seq<u8> {
    let samples = header.stab.sample_table;
    let planar = header.fdsc.stores_planar_audio();
    let left = spec_own_plane(cpk, header.length, samples, samples.len(), planar, false);
    let right = spec_own_plane(cpk, header.length, samples, samples.len(), planar, true);
    if planar {
        match spec_half_frame(header.fdsc.audio_resolution) {
            Some(half) => spec_interleave(left, right, half),
            None => left,
        }
    } else {
        left
    }
}

/// Sample `k` starts where the samples before it end.
pub open spec fn spec_follows(samples: Seq<SampleView>, k: int) -> bool {
    samples[k].offset == spec_chunks_len(samples, k as nat, false)
}

/// The samples lie one after another from the start of the data region.
pub open spec fn spec_in_a_row(samples: Seq<SampleView>) -> bool {
    forall|k: int| 0 <= k < samples.len() ==> #[trigger] spec_follows(samples, k)
}

/// The container ends where its last sample ends.
pub open spec fn spec_filled(cpk: Seq<u8>, header: FILMHeaderView) -> bool {
    cpk.len() == header.length + spec_chunks_len(
        header.stab.sample_table,
        header.stab.sample_table.len(),
        false,
    )
}

/// Every audio chunk of `samples` holds whole frames of `2 * half` bytes.
pub open spec fn spec_whole_frames(samples: Seq<SampleView>, half: int) -> bool {
    forall|k: int|
        0 <= k < samples.len() && (#[trigger] samples[k]).is_audio() ==> (samples[k].length as int)
            % (2 * half) == 0
}

/// The chunks of more samples are not shorter.
proof fn lemma_chunks_len_grows(samples: Seq<SampleView>, k: nat, n: nat, planar: bool)
    requires
        k <= n,
    ensures
        spec_chunks_len(samples, k, planar) <= spec_chunks_len(samples, n, planar),
    decreases n,
{
    if k < n {
        lemma_chunks_len_grows(samples, k, (n - 1) as nat, planar);
    }
}

/// A sample of a container that is filled by samples in a row lies within
/// the container.
proof fn lemma_sample_within(cpk: Seq<u8>, header: FILMHeaderView, k: nat)
    requires
        spec_in_a_row(header.stab.sample_table),
        spec_filled(cpk, header),
        k < header.stab.sample_table.len(),
    ensures
        header.length + header.stab.sample_table[k as int].offset
            + header.stab.sample_table[k as int].length <= cpk.len(),
{
    let samples = header.stab.sample_table;
    assert(spec_follows(samples, k as int));
    assert(spec_chunks_len(samples, k + 1, false) == spec_chunks_len(samples, k, false)
        + samples[k as int].length);
    lemma_chunks_len_grows(samples, k + 1, samples.len(), false);
}

/// Whether each of the first `n` samples lies within the container.
spec fn spec_within(cpk: Seq<u8>, start: nat, samples: Seq<SampleView>, n: nat) -> bool {
    forall|k: int|
        0 <= k < n ==> start + (#[trigger] samples[k]).offset + samples[k].length <= cpk.len()
}

/// The bytes that the first `n` samples hold for a stream are as many as
/// they take from it.
proof fn lemma_own_plane_len(
    cpk: Seq<u8>,
    start: nat,
    samples: Seq<SampleView>,
    n: nat,
    planar: bool,
    right: bool,
)
    requires
        n <= samples.len(),
        spec_within(cpk, start, samples, n),
    ensures
        spec_own_plane(cpk, start, samples, n, planar, right).len() == spec_taken(
            samples,
            n,
            planar,
            right,
        ),
    decreases n,
{
    if n > 0 {
        lemma_own_plane_len(cpk, start, samples, (n - 1) as nat, planar, right);
        let sample = samples[n - 1];
        assert(start + sample.offset + sample.length <= cpk.len());
    }
}

/// What sample `k` holds for a stream lies, in what the first `m` samples
/// hold for it, where the samples before `k` stop.
proof fn lemma_own_plane_piece(
    cpk: Seq<u8>,
    start: nat,
    samples: Seq<SampleView>,
    k: nat,
    m: nat,
    planar: bool,
    right: bool,
)
    requires
        k < m <= samples.len(),
        spec_within(cpk, start, samples, m),
    ensures
        ({
            let plane = spec_own_plane(cpk, start, samples, m, planar, right);
            let at = spec_taken(samples, k, planar, right);
            let share = spec_share(samples[k as int], planar, right);
            &&& at + share <= plane.len()
            &&& plane.subrange(at as int, (at + share) as int) == spec_own_piece(
                cpk,
                start,
                samples[k as int],
                planar,
                right,
            )
        }),
    decreases m,
{
    let last = (m - 1) as nat;
    let plane = spec_own_plane(cpk, start, samples, m, planar, right);
    let most = spec_own_plane(cpk, start, samples, last, planar, right);
    let piece = spec_own_piece(cpk, start, samples[last as int], planar, right);
    let at = spec_taken(samples, k, planar, right);
    let share = spec_share(samples[k as int], planar, right);
    assert(plane == most + piece);
    lemma_own_plane_len(cpk, start, samples, last, planar, right);
    lemma_own_plane_len(cpk, start, samples, m, planar, right);
    if k < last {
        lemma_own_plane_piece(cpk, start, samples, k, last, planar, right);
        assert(plane.subrange(at as int, (at + share) as int) =~= most.subrange(
            at as int,
            (at + share) as int,
        ));
    } else {
        assert(plane.subrange(at as int, (at + share) as int) =~= piece);
    }
}

/// A multiple of a frame of two or four bytes is even, and half of it is
/// a multiple of the half-frame.
proof fn lemma_half_of_whole_frames(length: int, half: int)
    requires
        0 <= length,
        half == 1 || half == 2,
        length % (2 * half) == 0,
    ensures
        length % 2 == 0,
        (length / 2) % half == 0,
{
    if half == 1 {
        assert(length % 2 == 0 && (length / 2) % half == 0) by (nonlinear_arith)
            requires
                half == 1,
                length % (2 * half) == 0,
        ;
    } else {
        assert(length % 2 == 0 && (length / 2) % half == 0) by (nonlinear_arith)
            requires
                half == 2,
                length % (2 * half) == 0,
        ;
    }
}

/// In two planes both streams give the same number of bytes, and with
/// whole frames that number is a multiple of the half-frame.
proof fn lemma_planes_match(samples: Seq<SampleView>, n: nat, half: int)
    requires
        n <= samples.len(),
        half == 1 || half == 2,
        spec_whole_frames(samples, half),
    ensures
        spec_taken(samples, n, true, false) == spec_taken(samples, n, true, true),
        (spec_taken(samples, n, true, false) as int) % half == 0,
    decreases n,
{
    if n > 0 {
        lemma_planes_match(samples, (n - 1) as nat, half);
        let sample = samples[n - 1];
        let before = spec_taken(samples, (n - 1) as nat, true, false) as int;
        let share = spec_share(sample, true, false) as int;
        if sample.is_audio() {
            lemma_half_of_whole_frames(sample.length as int, half);
        }
        assert((before + share) % half == 0) by (nonlinear_arith)
            requires
                half == 1 || half == 2,
                before % half == 0,
                share % half == 0,
        ;
    } else {
        assert(0int % half == 0) by (nonlinear_arith)
            requires
                half == 1 || half == 2,
        ;
    }
}

/// Without planes the right stream gets nothing.
proof fn lemma_no_right_plane(cpk: Seq<u8>, start: nat, samples: Seq<SampleView>, n: nat)
    requires
        n <= samples.len(),
        spec_within(cpk, start, samples, n),
    ensures
        spec_taken(samples, n, false, true) == 0,
        spec_own_plane(cpk, start, samples, n, false, true) == Seq::<u8>::empty(),
    decreases n,
{
    if n > 0 {
        lemma_no_right_plane(cpk, start, samples, (n - 1) as nat);
    }
    lemma_own_plane_len(cpk, start, samples, n, false, true);
    assert(spec_own_plane(cpk, start, samples, n, false, true) =~= Seq::<u8>::empty());
}

/// The streams that hold a container's own audio.
spec fn spec_own_streams(cpk: Seq<u8>, header: FILMHeaderView) -> AudioDataView {
    let samples = header.stab.sample_table;
    let planar = header.fdsc.stores_planar_audio();
    AudioDataView {
        planar,
        left: AudioStreamView::fresh(
            spec_own_plane(cpk, header.length, samples, samples.len(), planar, false),
        ),
        right: AudioStreamView::fresh(
            spec_own_plane(cpk, header.length, samples, samples.len(), planar, true),
        ),
    }
}

/// A sample whose own bytes are next in the two streams gives back its
/// own chunk and moves each stream by its share.
proof fn lemma_own_sample_refills(
    cpk: Seq<u8>,
    start: nat,
    index: usize,
    sample: SampleView,
    audio: AudioDataView,
)
    requires
        start + sample.offset + sample.length <= cpk.len(),
        audio.planar && sample.is_audio() ==> sample.length % 2 == 0,
        audio.left.pos + spec_share(sample, audio.planar, false) <= audio.left.data.len(),
        audio.right.pos + spec_share(sample, audio.planar, true) <= audio.right.data.len(),
        audio.left.next(spec_share(sample, audio.planar, false)) == spec_own_piece(
            cpk,
            start,
            sample,
            audio.planar,
            false,
        ),
        audio.right.next(spec_share(sample, audio.planar, true)) == spec_own_piece(
            cpk,
            start,
            sample,
            audio.planar,
            true,
        ),
    ensures
        spec_copy_sample(start, index, sample, cpk, audio) == Ok::<
            (Seq<u8>, AudioDataView),
            RemuxError,
        >(
            (
                cpk.subrange(
                    (start + sample.offset) as int,
                    (start + sample.offset + sample.length) as int,
                ),
                AudioDataView {
                    planar: audio.planar,
                    left: audio.left.advance(spec_share(sample, audio.planar, false)),
                    right: audio.right.advance(spec_share(sample, audio.planar, true)),
                },
            ),
        ),
{
    let whole = cpk.subrange(
        (start + sample.offset) as int,
        (start + sample.offset + sample.length) as int,
    );
    if sample.is_audio() {
        assert(audio.chunk(sample.length) =~= whole);
    } else {
        assert(audio.left.advance(0) == audio.left);
        assert(audio.right.advance(0) == audio.right);
    }
}

/// Fed with a container's own audio, the first `n` samples give back the
/// first `n` chunks of the data region.
proof fn lemma_own_audio_refills(cpk: Seq<u8>, header: FILMHeaderView, n: nat)
    requires
        n <= header.stab.sample_table.len(),
        spec_in_a_row(header.stab.sample_table),
        spec_filled(cpk, header),
        header.fdsc.stores_planar_audio() ==> spec_whole_frames(header.stab.sample_table, 1),
    ensures
        ({
            let samples = header.stab.sample_table;
            let planar = header.fdsc.stores_planar_audio();
            let audio = spec_own_streams(cpk, header);
            spec_copy_samples(header.length, samples, n, cpk, audio) == Ok::<
                (Seq<u8>, AudioDataView),
                RemuxError,
            >(
                (
                    cpk.subrange(
                        header.length as int,
                        (header.length + spec_chunks_len(samples, n, false)) as int,
                    ),
                    AudioDataView {
                        planar,
                        left: audio.left.advance(spec_taken(samples, n, planar, false)),
                        right: audio.right.advance(spec_taken(samples, n, planar, true)),
                    },
                ),
            )
        }),
    decreases n,
{
    let samples = header.stab.sample_table;
    let count = samples.len();
    let planar = header.fdsc.stores_planar_audio();
    let start = header.length;
    let audio = spec_own_streams(cpk, header);
    if n == 0 {
        assert(cpk.subrange(start as int, (start + spec_chunks_len(samples, 0, false)) as int)
            =~= Seq::<u8>::empty());
        assert(audio.left.advance(0) == audio.left);
        assert(audio.right.advance(0) == audio.right);
    } else {
        let m = (n - 1) as nat;
        lemma_own_audio_refills(cpk, header, m);
        let sample = samples[m as int];
        let done = spec_chunks_len(samples, m, false);
        let left_at = spec_taken(samples, m, planar, false);
        let right_at = spec_taken(samples, m, planar, true);
        let now = AudioDataView {
            planar,
            left: audio.left.advance(left_at),
            right: audio.right.advance(right_at),
        };
        assert(spec_follows(samples, m as int));
        lemma_sample_within(cpk, header, m);
        assert(planar && sample.is_audio() ==> sample.length % 2 == 0) by {
            if planar && sample.is_audio() {
                assert((sample.length as int) % (2 * 1int) == 0);
            }
        }
        assert(spec_within(cpk, start, samples, count)) by {
            assert forall|k: int| 0 <= k < count implies start + (#[trigger] samples[k]).offset
                + samples[k].length <= cpk.len() by {
                lemma_sample_within(cpk, header, k as nat);
            }
        }
        lemma_own_plane_piece(cpk, start, samples, m, count, planar, false);
        lemma_own_plane_piece(cpk, start, samples, m, count, planar, true);
        lemma_own_sample_refills(cpk, start, m as usize, sample, now);
        let written = cpk.subrange(start as int, (start + done) as int);
        let chunk = cpk.subrange((start + done) as int, (start + done + sample.length) as int);
        assert(written + chunk =~= cpk.subrange(
            start as int,
            (start + done + sample.length) as int,
        ));
        assert(now.left.advance(spec_share(sample, planar, false)) == audio.left.advance(
            spec_taken(samples, n, planar, false),
        ));
        assert(now.right.advance(spec_share(sample, planar, true)) == audio.right.advance(
            spec_taken(samples, n, planar, true),
        ));
    }
}

/// Putting a container's own audio back gives the container byte for
/// byte, where its samples lie in a row and fill it and, if it stores two
/// planes, its resolution is 8 or 16 bits and its audio chunks hold whole
/// frames.
pub proof fn lemma_remux_of_own_audio(cpk: Seq<u8>, header: FILMHeaderView)
    requires
        spec_in_a_row(header.stab.sample_table),
        spec_filled(cpk, header),
        header.fdsc.stores_planar_audio() ==> spec_half_frame(header.fdsc.audio_resolution)
            is Some && spec_whole_frames(
            header.stab.sample_table,
            spec_half_frame(header.fdsc.audio_resolution)->Some_0,
        ),
    ensures
        spec_remux(cpk, header, spec_own_audio(cpk, header)) == Ok::<Seq<u8>, RemuxError>(cpk),
{
    let samples = header.stab.sample_table;
    let count = samples.len();
    let planar = header.fdsc.stores_planar_audio();
    let start = header.length;
    let track = spec_own_audio(cpk, header);
    let audio = spec_own_streams(cpk, header);
    assert(spec_within(cpk, start, samples, count)) by {
        assert forall|k: int| 0 <= k < count implies start + (#[trigger] samples[k]).offset
            + samples[k].length <= cpk.len() by {
            lemma_sample_within(cpk, header, k as nat);
        }
    }
    if planar {
        let half = spec_half_frame(header.fdsc.audio_resolution)->Some_0;
        lemma_planes_match(samples, count, half);
        lemma_own_plane_len(cpk, start, samples, count, planar, false);
        lemma_own_plane_len(cpk, start, samples, count, planar, true);
        lemma_split_of_interleave(audio.left.data, audio.right.data, half);
        assert(spec_whole_frames(samples, 1)) by {
            assert forall|k: int| 0 <= k < samples.len() && (#[trigger] samples[k]).is_audio()
                implies (samples[k].length as int) % (2 * 1int) == 0 by {
                lemma_half_of_whole_frames(samples[k].length as int, half);
            }
        }
    } else {
        lemma_no_right_plane(cpk, start, samples, count);
    }
    assert(spec_audio_data(header.fdsc, track) == Ok::<AudioDataView, RemuxError>(audio));
    lemma_own_audio_refills(cpk, header, count);
    assert(cpk.subrange(0, start as int) + cpk.subrange(
        start as int,
        (start + spec_chunks_len(samples, count, false)) as int,
    ) =~= cpk);
}

} // verus!
