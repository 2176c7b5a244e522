//! Bitmap filenames as fragments store them: a length and an encoded,
//! NUL-terminated name.
use vstd::prelude::*;
use vstd::utf8::{valid_utf8, decode_utf8, encode_utf8};
use crate::bytes::{le_u16, u16_at, push_u16};
use crate::wld::parse::{WResult, u16_field, rest, too_short};
use crate::text::utf8_lossy;
use crate::wld::strings::{xor_key, spec_decoded_text, decode_string, encode_string};

verus! {

/// A bitmap filename entry of a `BmInfo` or palette file fragment.
#[derive(Debug, PartialEq)]
pub struct EncodedFilename {
    /// The length of the stored name in bytes, terminator included.
    pub name_length: u16,
    /// The decoded name, without its terminator.
    pub file_name: String,
}

/// The first filename stored in `s`: its length field, its encoded bytes and
/// how many bytes it takes; `None` when `s` is too short.
pub open spec fn spec_filename_at(s: Seq<u8>) -> Option<(u16, Seq<u8>, nat)> {
    if s.len() < 2 {
        None
    } else {
        let n = u16_at(s, 0);
        if s.len() < 2 + n {
            None
        } else {
            Some((n, s.subrange(2, 2 + n), (2 + n) as nat))
        }
    }
}

/// `count` filenames stored one after another in `s`, and the bytes they take.
pub open spec fn spec_filenames(s: Seq<u8>, count: nat) -> Option<(Seq<(u16, Seq<u8>)>, nat)>
    decreases count,
{
    if count == 0 {
        Some((Seq::empty(), 0))
    } else {
        match spec_filenames(s, (count - 1) as nat) {
            None => None,
            Some((es, n)) => match spec_filename_at(s.skip(n as int)) {
                None => None,
                Some((l, b, m)) => Some((es.push((l, b)), n + m)),
            },
        }
    }
}

impl EncodedFilename {
    /// Whether this entry is what the length `len` and the encoded bytes
    /// `encoded` stand for (the name as far as the bytes are valid UTF-8).
    pub open spec fn describes(&self, len: u16, encoded: Seq<u8>) -> bool {
        &&& self.name_length == len
        &&& valid_utf8(spec_decoded_text(encoded)) ==> self.file_name@ == decode_utf8(spec_decoded_text(encoded))
    }

    /// The stored form: the length field, then the name and a NUL, encoded.
    pub open spec fn spec_to_bytes(&self) -> Seq<u8> {
        le_u16(self.name_length) + xor_key(encode_utf8(self.file_name@).push(0u8))
    }

    pub fn parse(input: &[u8]) -> (r: WResult<'_, EncodedFilename>)
        ensures
            match spec_filename_at(input@) {
                Some((l, b, n)) => r matches Ok((rest, e)) && e.describes(l, b) && e.name_length == l
                    && e.file_name@ == utf8_lossy(spec_decoded_text(b))
                    && (valid_utf8(spec_decoded_text(b)) ==> e.file_name@ == decode_utf8(spec_decoded_text(b)))
                    && rest@ == input@.skip(n as int),
                None => r is Err,
            },
    {
        let n = match u16_field(input, 0) {
            Some(n) => n,
            None => return Err(too_short(input)),
        };
        if input.len() - 2 < n as usize {
            return Err(too_short(input));
        }
        let (_, tail) = input.split_at(2);
        let (name, _) = tail.split_at(n as usize);
        proof {
            assert(name@ =~= input@.subrange(2, 2 + n));
        }
        let file_name = decode_string(name);
        Ok((rest(input, 2 + n as usize), EncodedFilename { name_length: n, file_name }))
    }

    pub fn into_bytes(&self) -> (r: Vec<u8>)
        ensures
            r@ == self.spec_to_bytes(),
    {
        let mut out = Vec::new();
        push_u16(&mut out, self.name_length);
        let mut name = self.file_name.clone();
        crate::text::string_push(&mut name, '\0');
        let enc = encode_string(name.as_str());
        proof {
            assert(name@ == self.file_name@.push('\0'));
            lemma_encode_nul(self.file_name@);
        }
        let mut i: usize = 0;
        let ghost start = out@;
        while i < enc.len()
            invariant
                i <= enc@.len(),
                out@ == start + enc@.take(i as int),
            decreases enc@.len() - i,
        {
            out.push(enc[i]);
            i = i + 1;
            proof {
                assert(out@ =~= start + enc@.take(i as int));
            }
        }
        proof {
            assert(enc@.take(i as int) =~= enc@);
        }
        out
    }
}

/// Encoding one more character appends its encoding.
proof fn lemma_encode_push(chars: Seq<char>, c: char)
    ensures
        encode_utf8(chars.push(c)) == encode_utf8(chars) + vstd::utf8::encode_scalar(c as u32),
    decreases chars.len(),
{
    if chars.len() == 0 {
        reveal_with_fuel(encode_utf8, 2);
        assert(chars.push(c).drop_first() =~= Seq::<char>::empty());
        assert(chars.push(c)[0] == c);
        assert(encode_utf8(chars) =~= Seq::<u8>::empty());
        assert(encode_utf8(chars.push(c)) =~= vstd::utf8::encode_scalar(c as u32));
    } else {
        lemma_encode_push(chars.drop_first(), c);
        assert(chars.push(c).drop_first() =~= chars.drop_first().push(c));
        assert(encode_utf8(chars.push(c)) =~= encode_utf8(chars) + vstd::utf8::encode_scalar(c as u32));
    }
}

/// A NUL character encodes as one zero byte.
proof fn lemma_encode_nul(chars: Seq<char>)
    ensures
        encode_utf8(chars.push('\0')) == encode_utf8(chars).push(0u8),
{
    lemma_encode_push(chars, '\0');
    assert(('\0' as u32) == 0);
    assert(0u32 & 0x7Fu32 == 0u32) by (bit_vector);
    assert(vstd::utf8::encode_scalar('\0' as u32) =~= seq![0u8]);
    assert(encode_utf8(chars) + seq![0u8] =~= encode_utf8(chars).push(0u8));
}

/// The UTF-8 encoding of a name that does not end in a NUL does not end in a
/// zero byte.
proof fn lemma_encode_last_nonzero(chars: Seq<char>)
    requires
        chars.len() > 0,
        chars.last() != '\0',
    ensures
        encode_utf8(chars).len() > 0,
        encode_utf8(chars).last() != 0,
{
    let init = chars.drop_last();
    let c = chars.last();
    assert(init.push(c) =~= chars);
    lemma_encode_push(init, c);
    vstd::utf8::char_is_scalar(c);
    let v = c as u32;
    if v == 0 {
        vstd::utf8::char_u32_cast(c, v);
        vstd::utf8::char_u32_cast('\0', ('\0' as u32));
        assert(('\0' as u32) == 0);
        assert(false);
    }
    if vstd::utf8::has_width_1_encoding(v) {
        assert(vstd::utf8::leading_byte_width_1(v) != 0) by (bit_vector)
            requires
                vstd::utf8::has_width_1_encoding(v),
                v != 0,
        ;
    } else {
        assert(vstd::utf8::last_continuation_byte(v) != 0) by (bit_vector);
    }
}

/// An entry whose length field counts its name's UTF-8 bytes and the NUL
/// after them, and whose name does not end in a NUL, is read back from its
/// stored form, whatever follows it: `parse` returns an entry with the same
/// length and the same name (the stored name is valid UTF-8), and the bytes
/// after the stored form as the rest.
pub proof fn lemma_encoded_filename_round_trip(e: EncodedFilename, tail: Seq<u8>)
    requires
        e.name_length == encode_utf8(e.file_name@).len() + 1,
        e.file_name@.len() > 0 ==> e.file_name@.last() != '\0',
    ensures
        ({
            let s = e.spec_to_bytes() + tail;
            &&& spec_filename_at(s) matches Some((l, b, n))
            &&& l == e.name_length
            &&& valid_utf8(spec_decoded_text(b))
            &&& decode_utf8(spec_decoded_text(b)) == e.file_name@
            &&& e.describes(l, b)
            &&& n == e.spec_to_bytes().len()
            &&& s.skip(n as int) == tail
            &&& forall|p: EncodedFilename| #[trigger] p.describes(l, b) ==> p.name_length == e.name_length
                && p.file_name@ == e.file_name@
        }),
{
    let s = e.spec_to_bytes() + tail;
    let en = encode_utf8(e.file_name@);
    let z = en.push(0u8);
    crate::bytes::lemma_u16_roundtrip(e.name_length);
    assert(s.subrange(0, 2) =~= le_u16(e.name_length));
    crate::bytes::lemma_u16_field(s, 0, e.name_length);
    let b = s.subrange(2, 2 + e.name_length);
    assert(b =~= xor_key(z));
    crate::wld::strings::lemma_xor_key_twice(z);
    assert(z.drop_last() =~= en);
    if e.file_name@.len() > 0 {
        lemma_encode_last_nonzero(e.file_name@);
    } else {
        assert(en =~= Seq::<u8>::empty());
    }
    assert(crate::text::trim_trailing_zeros(en) == en);
    assert(spec_decoded_text(b) == en);
    vstd::utf8::encode_utf8_valid_utf8(e.file_name@);
    vstd::utf8::encode_utf8_decode_utf8(e.file_name@);
    assert(s.skip(e.spec_to_bytes().len() as int) =~= tail);
}

/// The serialized forms of `es`, one after another.
pub open spec fn filenames_bytes(es: Seq<EncodedFilename>) -> Seq<u8>
    decreases es.len(),
{
    if es.len() == 0 {
        Seq::empty()
    } else {
        filenames_bytes(es.drop_last()) + es.last().spec_to_bytes()
    }
}

/// Whether each of `es` is what the corresponding stored filename stands for.
pub open spec fn describe_all(es: Seq<EncodedFilename>, stored: Seq<(u16, Seq<u8>)>) -> bool {
    &&& es.len() == stored.len()
    &&& forall|i: int| 0 <= i < es.len() ==> #[trigger] es[i].describes(stored[i].0, stored[i].1)
}

/// Reads `count` filenames stored one after another from `pos`; returns them
/// and where they end.
pub fn parse_filenames(input: &[u8], pos: usize, count: u64) -> (r: Option<(Vec<EncodedFilename>, usize)>)
    requires
        pos <= input@.len(),
    ensures
        r matches Some((_, end)) ==> end <= input@.len(),
        match spec_filenames(input@.skip(pos as int), count as nat) {
            Some((stored, n)) => r matches Some((es, end)) && describe_all(es@, stored) && end == pos + n,
            None => r is None,
        },
{
    let ghost s = input@.skip(pos as int);
    let mut es: Vec<EncodedFilename> = Vec::new();
    let mut at = pos;
    let mut k: u64 = 0;
    while k < count
        invariant
            pos <= at <= input@.len(),
            k <= count,
            s == input@.skip(pos as int),
            spec_filenames(s, k as nat) matches Some((stored, n)) && describe_all(es@, stored) && at == pos + n,
        decreases count - k,
    {
        let (_, tail) = input.split_at(at);
        proof {
            assert(tail@ =~= s.skip(at - pos));
        }
        let (rest_bytes, e) = match EncodedFilename::parse(tail) {
            Ok(x) => x,
            Err(_) => {
                proof {
                    lemma_filenames_none(s, (k + 1) as nat, count as nat);
                }
                return None;
            },
        };
        let used = tail.len() - rest_bytes.len();
        proof {
            let (stored, n) = spec_filenames(s, k as nat)->Some_0;
            let (l, b, m) = spec_filename_at(tail@)->Some_0;
            assert(used == m);
            assert(tail@.len() == input@.len() - at);
            assert(at + used <= input@.len());
            assert(spec_filename_at(s.skip(n as int)) == Some((l, b, m)));
            let stored2 = stored.push((l, b));
            assert forall|i: int| 0 <= i < es@.push(e).len() implies #[trigger] es@.push(e)[i].describes(stored2[i].0, stored2[i].1) by {
                if i < es@.len() {
                    assert(es@.push(e)[i] == es@[i]);
                }
            }
        }
        es.push(e);
        let total = input.len();
        assert(at + used <= total);
        at = at + used;
        k = k + 1;
    }
    Some((es, at))
}

/// Once a filename is missing, a longer list is missing too.
proof fn lemma_filenames_none(s: Seq<u8>, k: nat, count: nat)
    requires
        k <= count,
        spec_filenames(s, k) is None,
    ensures
        spec_filenames(s, count) is None,
    decreases count - k,
{
    if k < count {
        lemma_filenames_none(s, k + 1, count);
    }
}

/// Appends the serialized forms of `es`.
pub fn push_filenames(out: &mut Vec<u8>, es: &Vec<EncodedFilename>)
    ensures
        final(out)@ == old(out)@ + filenames_bytes(es@),
{
    let mut k: usize = 0;
    while k < es.len()
        invariant
            k <= es@.len(),
            out@ == old(out)@ + filenames_bytes(es@.take(k as int)),
        decreases es@.len() - k,
    {
        let b = es[k].into_bytes();
        crate::wld::parse::append_bytes(out, b.as_slice());
        k = k + 1;
        proof {
            assert(es@.take(k as int).drop_last() =~= es@.take(k - 1));
            assert(out@ =~= old(out)@ + filenames_bytes(es@.take(k as int)));
        }
    }
    proof {
        assert(es@.take(k as int) =~= es@);
    }
}

} // verus!
