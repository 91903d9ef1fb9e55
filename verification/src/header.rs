//! The container header, and what can be told from its first bytes.

use crate::bytes::{read_u32, spec_u32_be};
use crate::error::ParseError;
use crate::format::{spec_parse_fdsc, FDSCView, FDSC};
use crate::table::{spec_parse_stab, STABView, STAB};
use crate::text::{film_magic, lemma_magic_words, starts_with, text_at};
use vstd::prelude::*;
use vstd::slice::{slice_subrange, slice_to_vec};
use vstd::utf8::{decode_utf8, valid_utf8};

verus! {

/// The header of a container: everything before the data region.
#[derive(Clone, Debug, PartialEq, Eq)]
pub struct FILMHeader {
    /// Always `FILM`.
    pub signature: String,
    /// The size of the whole header in bytes, as the file declares it. The
    /// data region starts at this offset.
    pub length: usize,
    /// The version tag, three characters.
    pub version: String,
    /// Four bytes of unknown meaning, kept as they were read.
    pub unknown: Vec<u8>,
    /// The format block.
    pub fdsc: FDSC,
    /// The sample table.
    pub stab: STAB,
}

/// A container header as plain values.
pub struct FILMHeaderView {
    pub signature: Seq<char>,
    pub length: nat,
    pub version: Seq<char>,
    pub unknown: Seq<u8>,
    pub fdsc: FDSCView,
    pub stab: STABView,
}

impl View for FILMHeader {
    type V = FILMHeaderView;

    open spec fn view(&self) -> FILMHeaderView {
        FILMHeaderView {
            signature: self.signature@,
            length: self.length as nat,
            version: self.version@,
            unknown: self.unknown@,
            fdsc: self.fdsc@,
            stab: self.stab@,
        }
    }
}

/// Whether the bytes open with the magic of a container.
pub open spec fn spec_looks_like_container(prefix: Seq<u8>) -> bool {
    prefix.len() >= 4 && prefix.subrange(0, 4) == film_magic()
}

/// The header length that the first eight bytes of a file declare.
pub open spec fn spec_header_length(prefix: Seq<u8>) -> nat
    recommends
        prefix.len() >= 8,
{
    spec_u32_be(prefix.subrange(4, 8))
}

/// What reading a header from `data` gives.
///
/// The declared length is read first; the format block and the sample
/// table are then taken from the first `length` bytes, and the table runs
/// from byte 48 to the end of them. A buffer that ends before the declared
/// length, or a declared length that leaves no room for the format block,
/// is `Truncated`.
pub open spec fn spec_parse_header(data: Seq<u8>) -> Result<FILMHeaderView, ParseError> {
    if data.len() < 4 {
        Err(ParseError::Truncated)
    } else if data.subrange(0, 4) != film_magic() {
        Err(ParseError::BadSignature)
    } else if data.len() < 8 {
        Err(ParseError::Truncated)
    } else {
        let length = spec_header_length(data);
        if data.len() < length || length < 48 {
            Err(ParseError::Truncated)
        } else if !valid_utf8(data.subrange(8, 11)) {
            Err(ParseError::BadSignature)
        } else {
            match spec_parse_fdsc(data.subrange(16, 48)) {
                Err(e) => Err(e),
                Ok(fdsc) => match spec_parse_stab(data.subrange(48, length as int)) {
                    Err(e) => Err(e),
                    Ok(stab) => Ok(
                        FILMHeaderView {
                            signature: "FILM"@,
                            length,
                            version: decode_utf8(data.subrange(8, 11)),
                            unknown: data.subrange(12, 16),
                            fdsc,
                            stab,
                        },
                    ),
                },
            }
        }
    }
}

impl FILMHeader {
    /// Reads the header of a container from the start of `data`, which
    /// has to hold at least as many bytes as the header declares.
    pub fn parse(data: &[u8]) -> (r: Result<FILMHeader, ParseError>)
        ensures
            match r {
                Ok(h) => spec_parse_header(data@) == Ok::<FILMHeaderView, ParseError>(h@),
                Err(e) => spec_parse_header(data@) == Err::<FILMHeaderView, ParseError>(e),
            },
    {
        if !looks_like_container(data) {
            if data.len() < 4 {
                return Err(ParseError::Truncated);
            }
            return Err(ParseError::BadSignature);
        }
        if data.len() < 8 {
            return Err(ParseError::Truncated);
        }
        let length = probe_header_length(data);
        if data.len() < length || length < 48 {
            return Err(ParseError::Truncated);
        }
        let version = match text_at(data, 8, 11) {
            Some(v) => v,
            None => {
                return Err(ParseError::BadSignature);
            },
        };
        let fdsc = match FDSC::parse(slice_subrange(data, 16, 48)) {
            Ok(f) => f,
            Err(e) => {
                return Err(e);
            },
        };
        let stab = match STAB::parse(slice_subrange(data, 48, length)) {
            Ok(t) => t,
            Err(e) => {
                return Err(e);
            },
        };
        proof {
            lemma_magic_words();
        }
        let signature = match text_at(data, 0, 4) {
            Some(s) => s,
            None => {
                return Err(ParseError::BadSignature);
            },
        };
        let unknown = slice_to_vec(slice_subrange(data, 12, 16));
        Ok(FILMHeader { signature, length, version, unknown, fdsc, stab })
    }
}

/// Whether a file that starts with `prefix` can be a container: its first
/// four bytes are the magic. Fewer than four bytes never are.
pub fn looks_like_container(prefix: &[u8]) -> (r: bool)
    ensures
        r == spec_looks_like_container(prefix@),
{
    starts_with(prefix, 0x46, 0x49, 0x4c, 0x4d)
}

/// The size of the whole header, read from the first eight bytes of a
/// file. A caller reads that many bytes to have all of the header.
pub fn probe_header_length(prefix: &[u8]) -> (r: usize)
    requires
        prefix@.len() >= 8,
    ensures
        r == spec_header_length(prefix@),
{
    read_u32(prefix, 4) as usize
}

/// The first bytes of a file and the whole of it never disagree: if the
/// file reads as a container, every prefix of four bytes or more looks
/// like one, and every prefix of eight bytes or more declares the length
/// that the header then has.
pub proof fn lemma_probe_agrees_with_parse(file: Seq<u8>, n: int, header: FILMHeaderView)
    requires
        0 <= n <= file.len(),
        spec_parse_header(file) == Ok::<FILMHeaderView, ParseError>(header),
    ensures
        n >= 4 ==> spec_looks_like_container(file.subrange(0, n)),
        n >= 8 ==> spec_header_length(file.subrange(0, n)) == header.length,
        header.length == spec_header_length(file),
        48 <= header.length <= file.len(),
{
    let prefix = file.subrange(0, n);
    if n >= 4 {
        assert(prefix.subrange(0, 4) =~= file.subrange(0, 4));
    }
    if n >= 8 {
        assert(prefix.subrange(4, 8) =~= file.subrange(4, 8));
    }
}

/// Fewer than four bytes never look like a container, whatever they are.
pub proof fn lemma_short_prefix_is_unlike(prefix: Seq<u8>)
    requires
        prefix.len() < 4,
    ensures
        !spec_looks_like_container(prefix),
{
}

/// A file of which some four bytes or more do not look like a container
/// does not read as one: its magic is wrong.
pub proof fn lemma_unlike_container_fails(file: Seq<u8>, n: int)
    requires
        4 <= n <= file.len(),
        !spec_looks_like_container(file.subrange(0, n)),
    ensures
        spec_parse_header(file) == Err::<FILMHeaderView, ParseError>(ParseError::BadSignature),
{
    assert(file.subrange(0, n).subrange(0, 4) =~= file.subrange(0, 4));
}

} // verus!
