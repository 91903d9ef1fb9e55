use cinerepak::audio::{split_channels, AudioStream};
use cinerepak::{copy_sample, remux, AudioData, FILMHeader, RemuxError, Sample, FDSC};

const AUDIO: [u8; 4] = [1, 1, 1, 1];
const VIDEO: [u8; 4] = [0, 0, 0, 0];

fn format(channels: u8, resolution: u8, compression: u8) -> FDSC {
    FDSC {
        signature: String::from("FDSC"),
        length: 32,
        fourcc: String::from("cvid"),
        height: 224,
        width: 320,
        bpp: 24,
        channels,
        audio_resolution: resolution,
        audio_compression: compression,
        audio_sampling_rate: 22050,
    }
}

/// A container with the given samples, each with its kind and its bytes,
/// laid out one after another.
fn container(
    channels: u8,
    resolution: u8,
    compression: u8,
    chunks: &[([u8; 4], Vec<u8>)],
) -> Vec<u8> {
    let entries = chunks.len() as u32 + 1;
    let mut bytes = Vec::new();
    bytes.extend_from_slice(b"FILM");
    bytes.extend_from_slice(&(48 + 16 * entries).to_be_bytes());
    bytes.extend_from_slice(b"1.09");
    bytes.extend_from_slice(&[0, 0, 0, 0]);
    bytes.extend_from_slice(b"FDSC");
    bytes.extend_from_slice(&32u32.to_be_bytes());
    bytes.extend_from_slice(b"cvid");
    bytes.extend_from_slice(&224u32.to_be_bytes());
    bytes.extend_from_slice(&320u32.to_be_bytes());
    bytes.extend_from_slice(&[24, channels, resolution, compression]);
    bytes.extend_from_slice(&22050u16.to_be_bytes());
    bytes.extend_from_slice(&[0; 6]);
    bytes.extend_from_slice(b"STAB");
    bytes.extend_from_slice(&(16 * entries).to_be_bytes());
    bytes.extend_from_slice(&600u32.to_be_bytes());
    bytes.extend_from_slice(&entries.to_be_bytes());
    let mut offset = 0u32;
    for (kind, data) in chunks {
        bytes.extend_from_slice(&offset.to_be_bytes());
        bytes.extend_from_slice(&(data.len() as u32).to_be_bytes());
        bytes.extend_from_slice(kind);
        bytes.extend_from_slice(&[0, 0, 0, 0]);
        offset += data.len() as u32;
    }
    for (_, data) in chunks {
        bytes.extend_from_slice(data);
    }
    bytes
}

fn interleave(left: &[u8], right: &[u8], half: usize) -> Vec<u8> {
    let mut track = Vec::new();
    for (l, r) in left.chunks(half).zip(right.chunks(half)) {
        track.extend_from_slice(l);
        track.extend_from_slice(r);
    }
    track
}

#[test]
fn split_channels_parts_sixteen_bit_frames() {
    let track = [0xa0, 0xa1, 0xb0, 0xb1, 0xa2, 0xa3, 0xb2, 0xb3];
    let (left, right) = split_channels(&track, 2);
    assert_eq!(left, vec![0xa0, 0xa1, 0xa2, 0xa3]);
    assert_eq!(right, vec![0xb0, 0xb1, 0xb2, 0xb3]);
}

#[test]
fn split_channels_parts_eight_bit_frames() {
    let track = [1, 2, 3, 4, 5, 6];
    let (left, right) = split_channels(&track, 1);
    assert_eq!(left, vec![1, 3, 5]);
    assert_eq!(right, vec![2, 4, 6]);
}

#[test]
fn split_channels_leaves_out_a_broken_last_frame() {
    let (left, right) = split_channels(&[1, 2, 3, 4, 5, 6, 7], 2);
    assert_eq!(left, vec![1, 2]);
    assert_eq!(right, vec![3, 4]);
    let (left, right) = split_channels(&[1, 2, 3], 1);
    assert_eq!(left, vec![1]);
    assert_eq!(right, vec![2]);
    let (left, right) = split_channels(&[1, 2, 3], 2);
    assert!(left.is_empty() && right.is_empty());
    let (left, right) = split_channels(&[], 2);
    assert!(left.is_empty() && right.is_empty());
}

#[test]
fn split_channels_undoes_interleaving() {
    let left: Vec<u8> = (0..40).collect();
    let right: Vec<u8> = (100..140).collect();
    for half in [1usize, 2] {
        let track = interleave(&left, &right, half);
        assert_eq!(track.len(), 80);
        let (l, r) = split_channels(&track, half);
        assert_eq!(l, left);
        assert_eq!(r, right);
    }
}

#[test]
fn audio_stream_reads_all_or_nothing() {
    let mut stream = AudioStream::new(vec![1, 2, 3, 4, 5]);
    let mut out = vec![9];
    assert_eq!(stream.remaining(), 5);
    assert!(stream.read_into(2, &mut out));
    assert_eq!(out, vec![9, 1, 2]);
    assert_eq!(stream.remaining(), 3);
    assert!(!stream.read_into(4, &mut out));
    assert_eq!(out, vec![9, 1, 2]);
    assert_eq!(stream.remaining(), 3);
    assert!(stream.read_into(0, &mut out));
    assert!(stream.read_into(3, &mut out));
    assert_eq!(out, vec![9, 1, 2, 3, 4, 5]);
    assert_eq!(stream.remaining(), 0);
    assert!(!stream.read_into(1, &mut out));
    assert!(stream.read_into(0, &mut out));
}

#[test]
fn stereo_sixteen_bit_chunk_is_planar() {
    // One audio sample of 8 bytes at offset 0, one video sample of 4
    // bytes at offset 8.
    let cpk = container(
        2,
        16,
        0,
        &[(AUDIO, vec![0; 8]), (VIDEO, vec![0xde, 0xad, 0xbe, 0xef])],
    );
    let header = FILMHeader::parse(&cpk).unwrap();
    assert_eq!(header.stab.sample_table[0].offset, 0);
    assert_eq!(header.stab.sample_table[0].length, 8);
    assert_eq!(header.stab.sample_table[1].offset, 8);
    assert_eq!(header.stab.sample_table[1].length, 4);
    let (l0, r0, l1, r1) = (0x10, 0x20, 0x11, 0x21);
    let track = vec![l0, l0, r0, r0, l1, l1, r1, r1];
    let out = remux(&cpk, &header, track).unwrap();
    assert_eq!(out.len(), cpk.len());
    assert_eq!(&out[..header.length], &cpk[..header.length]);
    assert_eq!(&out[header.length..header.length + 8], &[l0, l0, l1, l1, r0, r0, r1, r1]);
    assert_eq!(&out[header.length + 8..], &[0xde, 0xad, 0xbe, 0xef]);
}

#[test]
fn stereo_eight_bit_chunk_is_planar() {
    let cpk = container(2, 8, 0, &[(VIDEO, vec![7, 7]), (AUDIO, vec![0; 6])]);
    let header = FILMHeader::parse(&cpk).unwrap();
    let out = remux(&cpk, &header, vec![1, 2, 3, 4, 5, 6]).unwrap();
    assert_eq!(&out[header.length..], &[7, 7, 1, 3, 5, 2, 4, 6]);
}

#[test]
fn mono_track_passes_through() {
    let cpk = container(
        1,
        16,
        0,
        &[(AUDIO, vec![0; 3]), (VIDEO, vec![0xaa, 0xbb]), (AUDIO, vec![0; 4])],
    );
    let header = FILMHeader::parse(&cpk).unwrap();
    let out = remux(&cpk, &header, vec![1, 2, 3, 4, 5, 6, 7, 8, 9]).unwrap();
    assert_eq!(&out[..header.length], &cpk[..header.length]);
    assert_eq!(&out[header.length..], &[1, 2, 3, 0xaa, 0xbb, 4, 5, 6, 7]);
}

#[test]
fn compressed_stereo_passes_through() {
    let cpk = container(2, 16, 2, &[(AUDIO, vec![0; 8])]);
    let header = FILMHeader::parse(&cpk).unwrap();
    let track = vec![1, 2, 3, 4, 5, 6, 7, 8];
    let out = remux(&cpk, &header, track.clone()).unwrap();
    assert_eq!(&out[header.length..], &track[..]);
    // A resolution without a frame size does no harm where nothing is
    // parted.
    let cpk = container(1, 32, 0, &[(AUDIO, vec![0; 8])]);
    let header = FILMHeader::parse(&cpk).unwrap();
    let out = remux(&cpk, &header, track.clone()).unwrap();
    assert_eq!(&out[header.length..], &track[..]);
}

#[test]
fn short_track_is_insufficient_audio() {
    let cpk = container(
        1,
        8,
        0,
        &[(AUDIO, vec![0; 4]), (VIDEO, vec![9; 3]), (AUDIO, vec![0; 4]), (AUDIO, vec![0; 4])],
    );
    let header = FILMHeader::parse(&cpk).unwrap();
    assert_eq!(
        remux(&cpk, &header, vec![1, 2, 3, 4, 5, 6]),
        Err(RemuxError::InsufficientAudio { index: 2, required: 4, shortfall: 2 })
    );
    assert_eq!(
        remux(&cpk, &header, vec![]),
        Err(RemuxError::InsufficientAudio { index: 0, required: 4, shortfall: 4 })
    );
    assert_eq!(
        remux(&cpk, &header, vec![0; 11]),
        Err(RemuxError::InsufficientAudio { index: 3, required: 4, shortfall: 1 })
    );
    assert!(remux(&cpk, &header, vec![0; 12]).is_ok());
}

#[test]
fn short_track_writes_nothing_for_the_failing_chunk() {
    let cpk = container(2, 16, 0, &[(AUDIO, vec![0; 8]), (AUDIO, vec![0; 8])]);
    let header = FILMHeader::parse(&cpk).unwrap();
    // Three frames: enough for the first sample, not for the second.
    let track: Vec<u8> = (1..=12).collect();
    let mut audio = AudioData::new(&header.fdsc, track).unwrap();
    assert!(audio.is_planar());
    assert_eq!((audio.left_remaining(), audio.right_remaining()), (6, 6));
    let mut out = Vec::new();
    let samples = &header.stab.sample_table;
    assert_eq!(copy_sample(header.length, 0, &samples[0], &cpk, &mut audio, &mut out), Ok(()));
    assert_eq!(out, vec![1, 2, 5, 6, 3, 4, 7, 8]);
    assert_eq!((audio.left_remaining(), audio.right_remaining()), (2, 2));
    assert_eq!(
        copy_sample(header.length, 1, &samples[1], &cpk, &mut audio, &mut out),
        Err(RemuxError::InsufficientAudio { index: 1, required: 8, shortfall: 4 })
    );
    assert_eq!(out, vec![1, 2, 5, 6, 3, 4, 7, 8]);
    assert_eq!((audio.left_remaining(), audio.right_remaining()), (2, 2));
}

#[test]
fn planar_sample_takes_half_from_each_stream() {
    let format = format(2, 16, 0);
    let left: Vec<u8> = (0..20).collect();
    let right: Vec<u8> = (100..120).collect();
    let mut audio = AudioData::new(&format, interleave(&left, &right, 2)).unwrap();
    let mut taken = 0usize;
    for (index, length) in [4u32, 12, 0, 8, 16].into_iter().enumerate() {
        let sample = Sample { offset: 0, length, info1: AUDIO, info2: [0; 4] };
        let before = (audio.left_remaining(), audio.right_remaining());
        let mut out = Vec::new();
        assert_eq!(copy_sample(0, index, &sample, &[], &mut audio, &mut out), Ok(()));
        let after = (audio.left_remaining(), audio.right_remaining());
        let half = length as usize / 2;
        assert_eq!((before.0 - after.0) + (before.1 - after.1), length as usize);
        assert_eq!(out.len(), length as usize);
        assert_eq!(&out[..half], &left[taken..taken + half]);
        assert_eq!(&out[half..], &right[taken..taken + half]);
        taken += half;
    }
    assert_eq!((audio.left_remaining(), audio.right_remaining()), (0, 0));
}

#[test]
fn planar_sample_of_odd_length_loses_a_byte() {
    let format = format(2, 8, 0);
    let mut audio = AudioData::new(&format, vec![1, 2, 3, 4, 5, 6]).unwrap();
    let sample = Sample { offset: 0, length: 5, info1: AUDIO, info2: [0; 4] };
    let mut out = Vec::new();
    assert_eq!(copy_sample(0, 0, &sample, &[], &mut audio, &mut out), Ok(()));
    assert_eq!(out, vec![1, 3, 2, 4]);
    assert_eq!((audio.left_remaining(), audio.right_remaining()), (1, 1));
}

#[test]
fn video_sample_leaves_the_track_alone() {
    let format = format(2, 16, 0);
    let mut audio = AudioData::new(&format, vec![1, 2, 3, 4]).unwrap();
    let cpk = [10, 11, 12, 13, 14, 15, 16, 17];
    let sample = Sample { offset: 3, length: 2, info1: VIDEO, info2: [0; 4] };
    let mut out = vec![0xff];
    assert_eq!(copy_sample(2, 0, &sample, &cpk, &mut audio, &mut out), Ok(()));
    assert_eq!(out, vec![0xff, 15, 16]);
    assert_eq!((audio.left_remaining(), audio.right_remaining()), (2, 2));
    let last = Sample { offset: 3, length: 3, info1: VIDEO, info2: [0; 4] };
    assert_eq!(copy_sample(2, 1, &last, &cpk, &mut audio, &mut out), Ok(()));
    assert_eq!(out, vec![0xff, 15, 16, 15, 16, 17]);
}

#[test]
fn video_sample_beyond_the_container_is_truncated() {
    let format = format(1, 8, 0);
    let mut audio = AudioData::new(&format, vec![1, 2, 3, 4]).unwrap();
    let cpk = [10, 11, 12, 13, 14, 15, 16, 17];
    let mut out = vec![0xff];
    for (start, offset, length) in [
        (2usize, 3u32, 4u32),
        (2, 7, 0),
        (9, 0, 0),
        (0, 0, 9),
        (usize::MAX, 1, 1),
        (0, u32::MAX, u32::MAX),
    ] {
        let sample = Sample { offset, length, info1: VIDEO, info2: [0; 4] };
        assert_eq!(
            copy_sample(start, 0, &sample, &cpk, &mut audio, &mut out),
            Err(RemuxError::Truncated)
        );
        assert_eq!(out, vec![0xff]);
        assert_eq!(audio.left_remaining(), 4);
    }
    let empty = Sample { offset: 6, length: 0, info1: VIDEO, info2: [0; 4] };
    assert_eq!(copy_sample(2, 0, &empty, &cpk, &mut audio, &mut out), Ok(()));
    assert_eq!(out, vec![0xff]);
}

#[test]
fn remux_of_a_cut_container_is_truncated() {
    let cpk = container(1, 8, 0, &[(AUDIO, vec![0; 2]), (VIDEO, vec![5; 4])]);
    let header = FILMHeader::parse(&cpk).unwrap();
    assert_eq!(remux(&cpk[..cpk.len() - 1], &header, vec![1, 2]), Err(RemuxError::Truncated));
    assert_eq!(remux(&cpk[..header.length - 1], &header, vec![1, 2]), Err(RemuxError::Truncated));
    // The first sample that fails decides.
    assert_eq!(
        remux(&cpk[..cpk.len() - 1], &header, vec![1]),
        Err(RemuxError::InsufficientAudio { index: 0, required: 2, shortfall: 1 })
    );
    // Audio chunks of the container itself are never read.
    let cpk = container(1, 8, 0, &[(VIDEO, vec![5; 4]), (AUDIO, vec![0; 2])]);
    let header = FILMHeader::parse(&cpk).unwrap();
    let out = remux(&cpk[..cpk.len() - 2], &header, vec![1, 2]).unwrap();
    assert_eq!(&out[header.length..], &[5, 5, 5, 5, 1, 2]);
}

#[test]
fn stereo_pcm_of_unknown_resolution_is_unsupported() {
    for resolution in [0u8, 4, 24, 32] {
        let cpk = container(2, resolution, 0, &[(VIDEO, vec![1])]);
        let header = FILMHeader::parse(&cpk).unwrap();
        assert_eq!(
            remux(&cpk, &header, vec![1, 2, 3, 4]),
            Err(RemuxError::UnsupportedFormat { audio_resolution: resolution })
        );
        assert_eq!(
            AudioData::new(&format(2, resolution, 0), vec![]).err(),
            Some(RemuxError::UnsupportedFormat { audio_resolution: resolution })
        );
    }
}

#[test]
fn remux_output_has_header_and_all_chunks() {
    let chunks = vec![
        (VIDEO, vec![1; 5]),
        (AUDIO, vec![0; 8]),
        (VIDEO, vec![2; 7]),
        (AUDIO, vec![0; 4]),
        (VIDEO, vec![]),
        (AUDIO, vec![0; 12]),
    ];
    let cpk = container(2, 16, 0, &chunks);
    let header = FILMHeader::parse(&cpk).unwrap();
    let total: usize = header.stab.sample_table.iter().map(|s| s.length as usize).sum();
    let out = remux(&cpk, &header, (0..24).collect()).unwrap();
    assert_eq!(out.len(), header.length + total);
    assert_eq!(out.len(), cpk.len());
    // More audio than the table asks for is left over.
    let longer = remux(&cpk, &header, (0..30).collect()).unwrap();
    assert_eq!(longer, out);
}

#[test]
fn remux_of_own_audio_gives_the_container_back() {
    let first: Vec<u8> = (1..=8).collect();
    let second: Vec<u8> = (50..=61).collect();
    let chunks = vec![
        (VIDEO, vec![0xa1, 0xa2, 0xa3]),
        (AUDIO, first.clone()),
        (VIDEO, vec![0xb1]),
        (AUDIO, second.clone()),
    ];
    // Two planes, 16 bits: the left planes of all chunks against their
    // right planes.
    let cpk = container(2, 16, 0, &chunks);
    let header = FILMHeader::parse(&cpk).unwrap();
    let left = [&first[..4], &second[..6]].concat();
    let right = [&first[4..], &second[6..]].concat();
    let own = interleave(&left, &right, 2);
    assert_eq!(remux(&cpk, &header, own), Ok(cpk));
    // Two planes, 8 bits.
    let cpk = container(2, 8, 0, &chunks);
    let header = FILMHeader::parse(&cpk).unwrap();
    let own = interleave(&left, &right, 1);
    assert_eq!(remux(&cpk, &header, own), Ok(cpk));
    // One stream: the audio chunks one after another.
    let cpk = container(1, 16, 0, &chunks);
    let header = FILMHeader::parse(&cpk).unwrap();
    let own = [&first[..], &second[..]].concat();
    assert_eq!(remux(&cpk, &header, own), Ok(cpk));
}

#[test]
fn remux_of_a_container_without_samples_is_its_header() {
    let cpk = container(2, 16, 0, &[]);
    let header = FILMHeader::parse(&cpk).unwrap();
    assert_eq!(header.length, 64);
    assert_eq!(remux(&cpk, &header, vec![1, 2, 3]), Ok(cpk));
}
