//! The string encoding of WLD files: text XORed with a fixed 8-byte key.
use vstd::prelude::*;
use vstd::utf8::{valid_utf8, decode_utf8, encode_utf8};
use crate::text::{trim_trailing_zeros, trim_zeros, string_from_utf8_lossy, utf8_lossy};

verus! {

/// Byte `i` of the repeating key.
pub open spec fn key_byte(i: int) -> u8 {
    let k = i % 8;
    if k == 0 {
        0x95
    } else if k == 1 {
        0x3a
    } else if k == 2 {
        0xc5
    } else if k == 3 {
        0x2a
    } else if k == 4 {
        0x95
    } else if k == 5 {
        0x7a
    } else if k == 6 {
        0x95
    } else {
        0x6a
    }
}

/// `s` XORed with the key, byte by byte.
pub open spec fn xor_key(s: Seq<u8>) -> Seq<u8> {
    Seq::new(s.len(), |i: int| s[i] ^ key_byte(i))
}

/// The text stored in the encoded bytes `s`: decoded, with its trailing NUL
/// characters dropped.
pub open spec fn spec_decoded_text(s: Seq<u8>) -> Seq<u8> {
    trim_trailing_zeros(xor_key(s))
}

fn key_at(i: usize) -> (r: u8)
    ensures
        r == key_byte(i as int),
{
    let k = i % 8;
    if k == 0 {
        0x95
    } else if k == 1 {
        0x3a
    } else if k == 2 {
        0xc5
    } else if k == 3 {
        0x2a
    } else if k == 4 {
        0x95
    } else if k == 5 {
        0x7a
    } else if k == 6 {
        0x95
    } else {
        0x6a
    }
}

/// XORs `input` with the key.
pub fn apply_key(input: &[u8]) -> (r: Vec<u8>)
    ensures
        r@ == xor_key(input@),
{
    let mut out: Vec<u8> = Vec::new();
    let mut i: usize = 0;
    while i < input.len()
        invariant
            i <= input@.len(),
            out@ == xor_key(input@).take(i as int),
        decreases input@.len() - i,
    {
        out.push(input[i] ^ key_at(i));
        i = i + 1;
        proof {
            assert(out@ =~= xor_key(input@).take(i as int));
        }
    }
    proof {
        assert(xor_key(input@).take(i as int) =~= xor_key(input@));
    }
    out
}

/// Applying the key twice gives the bytes back.
pub proof fn lemma_xor_key_twice(s: Seq<u8>)
    ensures
        xor_key(xor_key(s)) == s,
{
    assert forall|i: int| 0 <= i < s.len() implies #[trigger] xor_key(xor_key(s))[i] == s[i] by {
        let a = s[i];
        let k = key_byte(i);
        assert((a ^ k) ^ k == a) by (bit_vector);
    }
    assert(xor_key(xor_key(s)) =~= s);
}

/// Decodes an encoded string: the key is removed, trailing NUL characters are
/// dropped and the bytes are read as UTF-8 (invalid sequences are replaced).
pub fn decode_string(input: &[u8]) -> (r: String)
    ensures
        r@ == utf8_lossy(spec_decoded_text(input@)),
        valid_utf8(spec_decoded_text(input@)) ==> r@ == decode_utf8(spec_decoded_text(input@)),
{
    let mut bytes = apply_key(input);
    trim_zeros(&mut bytes);
    string_from_utf8_lossy(bytes)
}

/// Encodes `text`: its UTF-8 bytes XORed with the key.
pub fn encode_string(text: &str) -> (r: Vec<u8>)
    ensures
        r@ == xor_key(encode_utf8(text@)),
{
    let bytes = text.as_bytes();
    apply_key(bytes)
}

} // verus!
