//! Base32 names for mount points, and reading bytes as text.
use vstd::prelude::*;
use vstd::utf8::{valid_utf8, decode_utf8, encode_utf8};

verus! {

/// The RFC 4648 base32 symbol for the five-bit value `k`: `A` to `Z`, then `2` to `7`.
pub open spec fn base32_symbol(k: int) -> char {
    if k < 26 {
        (('A' as int) + k) as char
    } else {
        (('2' as int) + k - 26) as char
    }
}

/// Bit `j` of the byte `x`, counting from the most significant (`j` from 0 to 7).
pub open spec fn byte_bit(x: u8, j: int) -> int {
    let d: int = if j == 0 {
        128
    } else if j == 1 {
        64
    } else if j == 2 {
        32
    } else if j == 3 {
        16
    } else if j == 4 {
        8
    } else if j == 5 {
        4
    } else if j == 6 {
        2
    } else {
        1
    };
    (x as int / d) % 2
}

/// Bit `k` of the bytes `b` read as one string of bits, most significant first; zero past
/// the end.
pub open spec fn bytes_bit(b: Seq<u8>, k: int) -> int {
    if 0 <= k < 8 * b.len() {
        byte_bit(b[k / 8], k % 8)
    } else {
        0
    }
}

/// The unpadded RFC 4648 base32 encoding of bytes: each five bits, the last group filled
/// up with zero bits, give one symbol.
pub open spec fn base32_of_bytes(b: Seq<u8>) -> Seq<char> {
    Seq::new(
        ((8 * b.len() + 4) / 5) as nat,
        |i: int|
            base32_symbol(
                16 * bytes_bit(b, 5 * i) + 8 * bytes_bit(b, 5 * i + 1) + 4 * bytes_bit(b, 5 * i + 2) + 2
                    * bytes_bit(b, 5 * i + 3) + bytes_bit(b, 5 * i + 4),
            ),
    )
}

/// The unpadded RFC 4648 base32 encoding of the UTF-8 bytes of a string, as
/// `data_encoding::BASE32_NOPAD` gives it.
pub open spec fn base32_nopad(s: Seq<char>) -> Seq<char> {
    base32_of_bytes(encode_utf8(s))
}

/// Calls `data_encoding::BASE32_NOPAD.encode` on the UTF-8 bytes of `s`, which encodes
/// them as RFC 4648 base32 without padding (`base32_nopad`). The crate documents that decoding what it encodes gives the initial data back, and
/// `BASE32_NOPAD_NOCASE` decodes with the same symbols (lower case letters added), so
/// decoding the result with it gives the bytes of `s`.
#[verifier::external_body]
pub(crate) fn base32_encode(s: &str) -> (r: String)
    ensures
        r@ == base32_nopad(s@),
        base32_nocase_decoded(r@) == Some(encode_utf8(s@)),
{
    data_encoding::BASE32_NOPAD.encode(s.as_bytes())
}

/// The bytes that a base32 text (unpadded, either case) decodes to, as
/// `data_encoding::BASE32_NOPAD_NOCASE` gives them, or `None` where it refuses the text.
pub uninterp spec fn base32_nocase_decoded(s: Seq<char>) -> Option<Seq<u8>>;

/// Calls `data_encoding::BASE32_NOPAD_NOCASE.decode` on the UTF-8 bytes of `s`; an error
/// becomes `None`.
#[verifier::external_body]
pub(crate) fn base32_decode(s: &str) -> (r: Option<Vec<u8>>)
    ensures
        match r {
            Some(v) => base32_nocase_decoded(s@) == Some(v@),
            None => base32_nocase_decoded(s@) is None,
        },
{
    data_encoding::BASE32_NOPAD_NOCASE.decode(s.as_bytes()).ok()
}

/// Calls `String::from_utf8`, which accepts exactly the valid UTF-8 byte sequences and
/// gives the characters they encode.
#[verifier::external_body]
pub(crate) fn text_from_utf8(v: Vec<u8>) -> (r: Option<String>)
    ensures
        r is Some <==> valid_utf8(v@),
        r matches Some(s) ==> s@ == decode_utf8(v@),
{
    String::from_utf8(v).ok()
}

} // verus!
