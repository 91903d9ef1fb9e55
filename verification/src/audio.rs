//! Replacement audio: splitting an interleaved track into the two planes
//! that a container stores, and reading the planes chunk by chunk.
//!
//! Most audio sources alternate the channels frame by frame:
//! `L R L R L R`. A container keeps, within every chunk, all of the left
//! channel before all of the right: `L L L R R R`. A stereo track is
//! therefore first parted into a left and a right stream, and each chunk
//! then takes the same number of bytes from both.

use vstd::arithmetic::div_mod::{
    lemma_fundamental_div_mod, lemma_fundamental_div_mod_converse, lemma_mod_pos_bound,
};
use vstd::prelude::*;

verus! {

/// How many bytes one channel takes in one frame of a stereo track: two
/// for 16-bit sound, one for 8-bit sound. No other resolution is known.
pub open spec fn spec_half_frame(audio_resolution: u8) -> Option<int> {
    if audio_resolution == 16 {
        Some(2)
    } else if audio_resolution == 8 {
        Some(1)
    } else {
        None
    }
}

/// The bytes that lie `shift` bytes into each of the first `frames` frames
/// of `track`, `half` bytes from every frame, in track order. A frame is
/// `2 * half` bytes long.
pub open spec fn spec_plane(track: Seq<u8>, half: int, shift: int, frames: int) -> Seq<u8> {
    Seq::new((frames * half) as nat, |i: int| track[(i / half) * (2 * half) + shift + i % half])
}

/// How many whole frames `track` holds. Bytes after the last whole frame
/// belong to neither channel.
pub open spec fn spec_frames(track: Seq<u8>, half: int) -> int {
    (track.len() as int) / (2 * half)
}

/// The left channel of an interleaved stereo track: the first half of
/// every frame.
pub open spec fn spec_left_channel(track: Seq<u8>, half: int) -> Seq<u8> {
    spec_plane(track, half, 0, spec_frames(track, half))
}

/// The right channel of an interleaved stereo track: the second half of
/// every frame.
pub open spec fn spec_right_channel(track: Seq<u8>, half: int) -> Seq<u8> {
    spec_plane(track, half, half, spec_frames(track, half))
}

/// The stereo track whose frames alternate `half` bytes of `left` and
/// `half` bytes of `right`.
pub open spec fn spec_interleave(left: Seq<u8>, right: Seq<u8>, half: int) -> Seq<u8> {
    Seq::new(
        2 * left.len(),
        |p: int|
            if p % (2 * half) < half {
                left[(p / (2 * half)) * half + p % (2 * half)]
            } else {
                right[(p / (2 * half)) * half + p % (2 * half) - half]
            },
    )
}

/// Byte `j` of frame `k` is byte `k * half + j` of its plane.
proof fn lemma_plane_index(half: int, k: int, j: int)
    requires
        1 <= half,
        0 <= j < half,
    ensures
        (k * half + j) / half == k,
        (k * half + j) % half == j,
{
    lemma_fundamental_div_mod_converse(k * half + j, half, k, j);
}

/// Taking one more frame into account adds `half` bytes to a plane.
proof fn lemma_plane_grows(track: Seq<u8>, half: int, shift: int, k: int)
    requires
        1 <= half,
        0 <= shift <= half,
        0 <= k,
        (k + 1) * (2 * half) <= track.len(),
    ensures
        0 <= k * (2 * half),
        (k + 1) * (2 * half) == k * (2 * half) + 2 * half,
        spec_plane(track, half, shift, k + 1) == spec_plane(track, half, shift, k)
            + track.subrange(k * (2 * half) + shift, k * (2 * half) + shift + half),
{
    let frame = 2 * half;
    assert((k + 1) * frame == k * frame + frame) by (nonlinear_arith);
    assert((k + 1) * half == k * half + half) by (nonlinear_arith);
    assert(0 <= k * frame && 0 <= k * half) by (nonlinear_arith)
        requires
            0 <= k,
            1 <= half,
            frame == 2 * half,
    ;
    let more = spec_plane(track, half, shift, k + 1);
    let less = spec_plane(track, half, shift, k);
    let piece = track.subrange(k * frame + shift, k * frame + shift + half);
    assert(more.len() == less.len() + piece.len());
    assert forall|i: int| 0 <= i < more.len() implies more[i] == (less + piece)[i] by {
        if i >= k * half {
            lemma_plane_index(half, k, i - k * half);
        }
    }
    assert(more =~= less + piece);
}

/// Parting the interleaving of two streams gives the two streams back,
/// where they are equally long and hold whole half-frames.
pub proof fn lemma_split_of_interleave(left: Seq<u8>, right: Seq<u8>, half: int)
    requires
        1 <= half,
        left.len() == right.len(),
        (left.len() as int) % half == 0,
    ensures
        spec_interleave(left, right, half).len() == 2 * left.len(),
        spec_left_channel(spec_interleave(left, right, half), half) == left,
        spec_right_channel(spec_interleave(left, right, half), half) == right,
{
    let track = spec_interleave(left, right, half);
    let n = left.len() as int;
    let frame = 2 * half;
    let q = n / half;
    lemma_fundamental_div_mod(n, half);
    assert(n == q * half) by (nonlinear_arith)
        requires
            n == half * q + 0,
    ;
    assert(2 * n == q * frame) by (nonlinear_arith)
        requires
            n == q * half,
            frame == 2 * half,
    ;
    lemma_fundamental_div_mod_converse(2 * n, frame, q, 0);
    assert(spec_frames(track, half) == q);
    let got_left = spec_left_channel(track, half);
    let got_right = spec_right_channel(track, half);
    assert forall|i: int| 0 <= i < n implies got_left[i] == left[i] && got_right[i]
        == right[i] by {
        let a = i / half;
        let b = i % half;
        lemma_fundamental_div_mod(i, half);
        lemma_mod_pos_bound(i, half);
        assert(i == a * half + b) by (nonlinear_arith)
            requires
                i == half * a + b,
        ;
        assert(0 <= a < q) by (nonlinear_arith)
            requires
                i == a * half + b,
                0 <= i < q * half,
                0 <= b < half,
                1 <= half,
        ;
        assert((a + 1) * frame <= q * frame && 0 <= a * frame && (a + 1) * frame == a * frame
            + frame) by (nonlinear_arith)
            requires
                0 <= a < q,
                1 <= frame,
        ;
        lemma_fundamental_div_mod_converse(a * frame + b, frame, a, b);
        lemma_fundamental_div_mod_converse(a * frame + half + b, frame, a, half + b);
    }
    assert(got_left =~= left);
    assert(got_right =~= right);
}

/// Appends `data[from..to]` to `out`.
pub(crate) fn append_range(out: &mut Vec<u8>, data: &[u8], from: usize, to: usize)
    requires
        from <= to <= data@.len(),
    ensures
        final(out)@ == old(out)@ + data@.subrange(from as int, to as int),
{
    let mut i = from;
    while i < to
        invariant
            from <= i <= to <= data@.len(),
            out@ == old(out)@ + data@.subrange(from as int, i as int),
        decreases to - i,
    {
        out.push(data[i]);
        i += 1;
        assert(out@ =~= old(out)@ + data@.subrange(from as int, i as int));
    }
}

/// Parts an interleaved stereo track into its left and its right channel.
/// A frame is `2 * half` bytes; what follows the last whole frame is left
/// out of both.
pub fn split_channels(track: &[u8], half: usize) -> (r: (Vec<u8>, Vec<u8>))
    requires
        1 <= half <= usize::MAX / 2,
    ensures
        r.0@ == spec_left_channel(track@, half as int),
        r.1@ == spec_right_channel(track@, half as int),
{
    let frame = 2 * half;
    let frames = track.len() / frame;
    let mut left: Vec<u8> = Vec::new();
    let mut right: Vec<u8> = Vec::new();
    proof {
        lemma_fundamental_div_mod(track@.len() as int, frame as int);
        lemma_mod_pos_bound(track@.len() as int, frame as int);
        assert(frames * frame == frame * frames) by (nonlinear_arith);
        assert(left@ =~= spec_plane(track@, half as int, 0, 0));
        assert(right@ =~= spec_plane(track@, half as int, half as int, 0));
    }
    let mut k: usize = 0;
    while k < frames
        invariant
            1 <= half,
            frame == 2 * half,
            k <= frames,
            frames * frame <= track@.len() <= usize::MAX,
            frames == spec_frames(track@, half as int),
            left@ == spec_plane(track@, half as int, 0, k as int),
            right@ == spec_plane(track@, half as int, half as int, k as int),
        decreases frames - k,
    {
        proof {
            assert((k + 1) * frame <= frames * frame) by (nonlinear_arith)
                requires
                    k < frames,
                    0 < frame,
            ;
            lemma_plane_grows(track@, half as int, 0, k as int);
            lemma_plane_grows(track@, half as int, half as int, k as int);
        }
        let base = k * frame;
        append_range(&mut left, track, base, base + half);
        append_range(&mut right, track, base + half, base + frame);
        k += 1;
    }
    (left, right)
}

/// A stream of audio bytes that is read from front to back and never
/// rewound.
#[derive(Debug)]
pub struct AudioStream {
    data: Vec<u8>,
    pos: usize,
}

/// A stream as plain values: its bytes, and how many have been read.
pub struct AudioStreamView {
    pub data: Seq<u8>,
    pub pos: nat,
}

impl AudioStreamView {
    /// A stream over `data` of which nothing has been read.
    pub open spec fn fresh(data: Seq<u8>) -> AudioStreamView {
        AudioStreamView { data, pos: 0 }
    }

    /// How many bytes are still to be read.
    pub open spec fn remaining(self) -> int {
        self.data.len() - self.pos
    }

    /// The next `n` bytes.
    pub open spec fn next(self, n: nat) -> Seq<u8> {
        self.data.subrange(self.pos as int, (self.pos + n) as int)
    }

    /// The stream after `n` bytes have been read.
    pub open spec fn advance(self, n: nat) -> AudioStreamView {
        AudioStreamView { data: self.data, pos: self.pos + n }
    }
}

impl View for AudioStream {
    type V = AudioStreamView;

    closed spec fn view(&self) -> AudioStreamView {
        AudioStreamView { data: self.data@, pos: self.pos as nat }
    }
}

impl AudioStream {
    #[verifier::type_invariant]
    spec fn within(&self) -> bool {
        self.pos <= self.data@.len()
    }

    /// A stream over `data`, positioned at its first byte.
    pub fn new(data: Vec<u8>) -> (s: AudioStream)
        ensures
            s@ == AudioStreamView::fresh(data@),
    {
        AudioStream { data, pos: 0 }
    }

    /// How many bytes are still to be read.
    pub fn remaining(&self) -> (r: usize)
        ensures
            r == self@.remaining(),
            self@.pos <= self@.data.len(),
    {
        proof {
            use_type_invariant(self);
        }
        self.data.len() - self.pos
    }

    /// Reads exactly `n` bytes and appends them to `out`, or, where fewer
    /// than `n` are left, reads nothing and leaves `out` as it is.
    pub fn read_into(&mut self, n: usize, out: &mut Vec<u8>) -> (r: bool)
        ensures
            r == (n <= old(self)@.remaining()),
            r ==> final(self)@ == old(self)@.advance(n as nat) && final(out)@ == old(out)@
                + old(self)@.next(n as nat),
            !r ==> final(self)@ == old(self)@ && final(out)@ == old(out)@,
    {
        proof {
            use_type_invariant(&*self);
        }
        if n > self.data.len() - self.pos {
            return false;
        }
        append_range(out, self.data.as_slice(), self.pos, self.pos + n);
        self.pos = self.pos + n;
        true
    }
}

} // verus!
