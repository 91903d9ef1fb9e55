//! Text fields and the magic words that open each block of a header.

use vstd::prelude::*;
use vstd::slice::{slice_subrange, slice_to_vec};
use vstd::utf8::{
    decode_utf8, encode_utf8, encode_utf8_decode_utf8, encode_utf8_valid_utf8, is_ascii_chars,
    is_ascii_chars_encode_utf8, valid_utf8,
};

verus! {

/// The bytes `FILM`, which open a container.
pub open spec fn film_magic() -> Seq<u8> {
    seq![0x46u8, 0x49u8, 0x4cu8, 0x4du8]
}

/// The bytes `FDSC`, which open the format block.
pub open spec fn fdsc_magic() -> Seq<u8> {
    seq![0x46u8, 0x44u8, 0x53u8, 0x43u8]
}

/// The bytes `STAB`, which open the sample table.
pub open spec fn stab_magic() -> Seq<u8> {
    seq![0x53u8, 0x54u8, 0x41u8, 0x42u8]
}

/// `String::from_utf8` of the standard library. It accepts exactly the byte
/// strings that are well-formed UTF-8, and the string it returns is the
/// text that those bytes encode. Nothing here is proved: the contract
/// restates the documentation of that function.
#[verifier::external_body]
fn string_from_utf8(bytes: Vec<u8>) -> (r: Option<String>)
    ensures
        r is Some <==> valid_utf8(bytes@),
        r matches Some(s) ==> s@ == decode_utf8(bytes@),
{
    match String::from_utf8(bytes) {
        Ok(s) => Some(s),
        Err(_) => None,
    }
}

/// The text that `data[from..to]` encodes, if those bytes are well-formed.
pub(crate) fn text_at(data: &[u8], from: usize, to: usize) -> (r: Option<String>)
    requires
        from <= to <= data@.len(),
    ensures
        r is Some <==> valid_utf8(data@.subrange(from as int, to as int)),
        r matches Some(s) ==> s@ == decode_utf8(data@.subrange(from as int, to as int)),
{
    let piece = slice_subrange(data, from, to);
    string_from_utf8(slice_to_vec(piece))
}

/// Whether `data` starts with the four given bytes.
pub(crate) fn starts_with(data: &[u8], a: u8, b: u8, c: u8, d: u8) -> (r: bool)
    ensures
        r == (data@.len() >= 4 && data@.subrange(0, 4) == seq![a, b, c, d]),
{
    if data.len() < 4 {
        return false;
    }
    let r = data[0] == a && data[1] == b && data[2] == c && data[3] == d;
    proof {
        let head = data@.subrange(0, 4);
        let word = seq![a, b, c, d];
        if r {
            assert(head =~= word);
        } else {
            assert(head[0] == data@[0] && head[1] == data@[1] && head[2] == data@[2] && head[3]
                == data@[3]);
            assert(word[0] == a && word[1] == b && word[2] == c && word[3] == d);
        }
    }
    r
}

/// Plain ASCII text is well-formed, and its bytes decode to its characters.
pub proof fn lemma_ascii_text(chars: Seq<char>, bytes: Seq<u8>)
    requires
        is_ascii_chars(chars),
        bytes.len() == chars.len(),
        forall|i: int| 0 <= i < chars.len() ==> chars[i] as u8 == #[trigger] bytes[i],
    ensures
        valid_utf8(bytes),
        decode_utf8(bytes) == chars,
        encode_utf8(chars) == bytes,
{
    is_ascii_chars_encode_utf8(chars);
    assert(encode_utf8(chars) =~= bytes);
    encode_utf8_valid_utf8(chars);
    encode_utf8_decode_utf8(chars);
}

/// The three magic words are well-formed text and read `FILM`, `FDSC` and
/// `STAB`.
pub proof fn lemma_magic_words()
    ensures
        valid_utf8(film_magic()),
        decode_utf8(film_magic()) == "FILM"@,
        valid_utf8(fdsc_magic()),
        decode_utf8(fdsc_magic()) == "FDSC"@,
        valid_utf8(stab_magic()),
        decode_utf8(stab_magic()) == "STAB"@,
{
    reveal_strlit("FILM");
    reveal_strlit("FDSC");
    reveal_strlit("STAB");
    lemma_ascii_text("FILM"@, film_magic());
    lemma_ascii_text("FDSC"@, fdsc_magic());
    lemma_ascii_text("STAB"@, stab_magic());
}

} // verus!
