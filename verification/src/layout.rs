//! Where the fields of a header lie in its bytes.
//!
//! Reading a header loses nothing of its fields: written back at their
//! fixed offsets, they give the bytes that were read. The few bytes that
//! no field covers (byte 11, and bytes 26 to 31 of the format block) are
//! not kept.

use crate::bytes::{
    lemma_u16_be_bytes_of_value, lemma_u32_be_bytes_of_value, spec_u16_be_bytes,
    spec_u32_be_bytes,
};
use crate::error::ParseError;
use crate::format::{spec_parse_fdsc, FDSCView};
use crate::header::{spec_parse_header, FILMHeaderView};
use crate::table::{slot, spec_parse_stab, spec_sample, STABView, SampleView};
use crate::text::lemma_magic_words;
use vstd::prelude::*;
use vstd::utf8::{decode_utf8_encode_utf8, encode_utf8, encode_utf8_decode_utf8};

verus! {

/// The 16 bytes of a sample record.
pub open spec fn spec_sample_bytes(s: SampleView) -> Seq<u8> {
    spec_u32_be_bytes(s.offset) + spec_u32_be_bytes(s.length) + s.info1 + s.info2
}

/// The 26 bytes that the fields of a format block take.
pub open spec fn spec_fdsc_bytes(f: FDSCView) -> Seq<u8> {
    encode_utf8(f.signature) + spec_u32_be_bytes(f.length) + encode_utf8(f.fourcc)
        + spec_u32_be_bytes(f.height) + spec_u32_be_bytes(f.width) + seq![
        f.bpp,
        f.channels,
        f.audio_resolution,
        f.audio_compression,
    ] + spec_u16_be_bytes(f.audio_sampling_rate)
}

/// The records of a sequence of samples, one after another.
pub open spec fn spec_samples_bytes(samples: Seq<SampleView>) -> Seq<u8> {
    Seq::new(16 * samples.len(), |i: int| spec_sample_bytes(samples[i / 16])[i % 16])
}

/// The bytes of a sample table: its own 16 bytes, then its records.
pub open spec fn spec_stab_bytes(t: STABView) -> Seq<u8> {
    encode_utf8(t.signature) + spec_u32_be_bytes(t.length) + spec_u32_be_bytes(t.framerate)
        + spec_u32_be_bytes(t.entries) + spec_samples_bytes(t.sample_table)
}

/// The first 11 bytes of a header: magic, length and version.
pub open spec fn spec_header_bytes(h: FILMHeaderView) -> Seq<u8> {
    encode_utf8(h.signature) + spec_u32_be_bytes(h.length) + encode_utf8(h.version)
}

/// A sample written back gives the record that it was read from.
pub proof fn lemma_sample_round_trip(record: Seq<u8>)
    requires
        record.len() == 16,
    ensures
        spec_sample_bytes(spec_sample(record)) == record,
{
    lemma_u32_be_bytes_of_value(record.subrange(0, 4));
    lemma_u32_be_bytes_of_value(record.subrange(4, 8));
    assert(spec_sample_bytes(spec_sample(record)) =~= record);
}

/// A format block written back gives the first 26 bytes that it was read
/// from.
pub proof fn lemma_fdsc_round_trip(data: Seq<u8>, f: FDSCView)
    requires
        spec_parse_fdsc(data) == Ok::<FDSCView, ParseError>(f),
    ensures
        spec_fdsc_bytes(f) == data.subrange(0, 26),
{
    lemma_magic_words();
    encode_utf8_decode_utf8("FDSC"@);
    decode_utf8_encode_utf8(data.subrange(0, 4));
    decode_utf8_encode_utf8(data.subrange(8, 12));
    lemma_u32_be_bytes_of_value(data.subrange(4, 8));
    lemma_u32_be_bytes_of_value(data.subrange(12, 16));
    lemma_u32_be_bytes_of_value(data.subrange(16, 20));
    lemma_u16_be_bytes_of_value(data.subrange(24, 26));
    assert(encode_utf8(f.signature) == data.subrange(0, 4));
    assert(encode_utf8(f.fourcc) == data.subrange(8, 12));
    assert(spec_fdsc_bytes(f) =~= data.subrange(0, 26));
}

/// A sample table written back gives the bytes that it was read from, up
/// to the end of its last record.
pub proof fn lemma_stab_round_trip(data: Seq<u8>, t: STABView)
    requires
        spec_parse_stab(data) == Ok::<STABView, ParseError>(t),
    ensures
        16 * t.entries <= data.len(),
        spec_stab_bytes(t) == data.subrange(0, 16 * t.entries as int),
{
    lemma_magic_words();
    decode_utf8_encode_utf8(data.subrange(0, 4));
    lemma_u32_be_bytes_of_value(data.subrange(4, 8));
    lemma_u32_be_bytes_of_value(data.subrange(8, 12));
    lemma_u32_be_bytes_of_value(data.subrange(12, 16));
    assert(encode_utf8(t.signature) == data.subrange(0, 4));
    let records = spec_samples_bytes(t.sample_table);
    assert forall|i: int| 0 <= i < records.len() implies records[i] == data[16 + i] by {
        let k = i / 16;
        lemma_sample_round_trip(slot(data, k + 1));
        assert(t.sample_table[k] == spec_sample(slot(data, k + 1)));
        assert(slot(data, k + 1)[i % 16] == data[16 * (k + 1) + i % 16]);
    }
    assert(spec_stab_bytes(t) =~= data.subrange(0, 16 * t.entries as int));
}

/// A header written back gives the bytes that it was read from: magic,
/// length and version in the first 11 bytes, the unknown word in bytes 12
/// to 15, the format block from byte 16, the sample table from byte 48.
pub proof fn lemma_header_round_trip(data: Seq<u8>, h: FILMHeaderView)
    requires
        spec_parse_header(data) == Ok::<FILMHeaderView, ParseError>(h),
    ensures
        48 + 16 * h.stab.entries <= h.length <= data.len(),
        spec_header_bytes(h) == data.subrange(0, 11),
        h.unknown == data.subrange(12, 16),
        spec_fdsc_bytes(h.fdsc) == data.subrange(16, 42),
        spec_stab_bytes(h.stab) == data.subrange(48, 48 + 16 * h.stab.entries as int),
{
    lemma_magic_words();
    decode_utf8_encode_utf8(data.subrange(0, 4));
    decode_utf8_encode_utf8(data.subrange(8, 11));
    lemma_u32_be_bytes_of_value(data.subrange(4, 8));
    assert(encode_utf8(h.signature) == data.subrange(0, 4));
    assert(spec_header_bytes(h) =~= data.subrange(0, 11));
    let block = data.subrange(16, 48);
    lemma_fdsc_round_trip(block, h.fdsc);
    assert(block.subrange(0, 26) =~= data.subrange(16, 42));
    let table = data.subrange(48, h.length as int);
    lemma_stab_round_trip(table, h.stab);
    assert(table.subrange(0, 16 * h.stab.entries as int) =~= data.subrange(
        48,
        48 + 16 * h.stab.entries as int,
    ));
}

} // verus!
