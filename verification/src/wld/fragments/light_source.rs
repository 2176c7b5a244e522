//! The light source fragment (0x1b, older form): a light's level or color.
use vstd::prelude::*;
use crate::bytes::{i32_bits, bits_to_i32, i32_to_bits, lemma_i32_bits, lemma_bits_i32};
use crate::wld::parse::{WResult, WldDocError, rest, too_short, u32s_bytes, push_u32s};
use crate::wld::words::{words_of, word, word_list, word_name, opt_word};
use crate::wld::fragments::{Fragment, StringReference, too_short_spec};

verus! {

/// A light source. When bit 4 of the flags is clear it holds a level (the
/// bits of an `f32`); when it is set, a color as four bytes.
///
/// **Type ID:** 0x1b
#[derive(Debug, Clone, Copy, PartialEq, Eq, Structural)]
pub struct LightSourceFragment {
    pub name_reference: StringReference,
    pub flags: u32,
    /// _Unknown_ - usually 1.
    pub params2: u32,
    /// The bits of the `f32` level; there when bit 4 of the flags is clear.
    pub params3a: Option<u32>,
    /// _Unknown_; there when bits 3 and 4 of the flags are set.
    pub params3b: Option<u32>,
    /// _Unknown_; this and the color are there when bit 4 of the flags is set.
    pub params4: Option<u8>,
    pub red: Option<u8>,
    pub green: Option<u8>,
    pub blue: Option<u8>,
}

/// The byte of word `x` that starts at bit `shift` (0, 8, 16 or 24).
pub open spec fn word_byte(x: u32, shift: u32) -> u8 {
    ((x >> shift) & 0xffu32) as u8
}

/// The word whose little-endian bytes are `a`, `b`, `c`, `d`.
pub open spec fn pack_bytes(a: u8, b: u8, c: u8, d: u8) -> u32 {
    (a as u32) | ((b as u32) << 8u32) | ((c as u32) << 16u32) | ((d as u32) << 24u32)
}

/// The bytes of a word packed from bytes are those bytes.
pub proof fn lemma_pack_bytes(a: u8, b: u8, c: u8, d: u8)
    ensures
        word_byte(pack_bytes(a, b, c, d), 0u32) == a,
        word_byte(pack_bytes(a, b, c, d), 8u32) == b,
        word_byte(pack_bytes(a, b, c, d), 16u32) == c,
        word_byte(pack_bytes(a, b, c, d), 24u32) == d,
{
    let x = pack_bytes(a, b, c, d);
    assert(((x >> 0u32) & 0xffu32) as u8 == a) by (bit_vector)
        requires
            x == (a as u32) | ((b as u32) << 8u32) | ((c as u32) << 16u32) | ((d as u32) << 24u32),
    ;
    assert(((x >> 8u32) & 0xffu32) as u8 == b) by (bit_vector)
        requires
            x == (a as u32) | ((b as u32) << 8u32) | ((c as u32) << 16u32) | ((d as u32) << 24u32),
    ;
    assert(((x >> 16u32) & 0xffu32) as u8 == c) by (bit_vector)
        requires
            x == (a as u32) | ((b as u32) << 8u32) | ((c as u32) << 16u32) | ((d as u32) << 24u32),
    ;
    assert(((x >> 24u32) & 0xffu32) as u8 == d) by (bit_vector)
        requires
            x == (a as u32) | ((b as u32) << 8u32) | ((c as u32) << 16u32) | ((d as u32) << 24u32),
    ;
}

/// A word is packed from its bytes.
pub proof fn lemma_unpack_bytes(x: u32)
    ensures
        pack_bytes(word_byte(x, 0u32), word_byte(x, 8u32), word_byte(x, 16u32), word_byte(x, 24u32)) == x,
{
    assert((((x >> 0u32) & 0xffu32) as u8 as u32) | ((((x >> 8u32) & 0xffu32) as u8 as u32) << 8u32) | ((((x
        >> 16u32) & 0xffu32) as u8 as u32) << 16u32) | ((((x >> 24u32) & 0xffu32) as u8 as u32) << 24u32) == x)
        by (bit_vector);
}

/// The word whose little-endian bytes are `a`, `b`, `c`, `d`.
pub fn pack(a: u8, b: u8, c: u8, d: u8) -> (r: u32)
    ensures
        r == pack_bytes(a, b, c, d),
{
    (a as u32) | ((b as u32) << 8u32) | ((c as u32) << 16u32) | ((d as u32) << 24u32)
}

/// The four little-endian bytes of `x`.
pub fn unpack(x: u32) -> (r: (u8, u8, u8, u8))
    ensures
        r == (word_byte(x, 0u32), word_byte(x, 8u32), word_byte(x, 16u32), word_byte(x, 24u32)),
{
    (
        ((x >> 0u32) & 0xffu32) as u8,
        ((x >> 8u32) & 0xffu32) as u8,
        ((x >> 16u32) & 0xffu32) as u8,
        ((x >> 24u32) & 0xffu32) as u8,
    )
}

impl LightSourceFragment {
    pub const TYPE_ID: u32 = 0x1b;

    /// The light held by words `w`, and how many words it takes, if `w`
    /// holds it all: three words, the level if bit 4 of the flags is clear,
    /// the unknown word if bits 3 and 4 are set, the color word if bit 4 is
    /// set.
    pub open spec fn from_words(w: Seq<u32>) -> Option<(Self, nat)> {
        if w.len() < 3 {
            None
        } else {
            let flags = w[1];
            let has_a = flags & 0x10 == 0x00;
            let has_b = flags & 0x18 == 0x18;
            let has_c = flags & 0x10 == 0x10;
            let pa = 3int;
            let pb = if has_a { pa + 1 } else { pa };
            let pc = if has_b { pb + 1 } else { pb };
            let end = if has_c { pc + 1 } else { pc };
            if w.len() < end {
                None
            } else {
                Some((LightSourceFragment {
                    name_reference: word_name(w[0]),
                    flags,
                    params2: w[2],
                    params3a: if has_a { Some(w[pa]) } else { None },
                    params3b: if has_b { Some(w[pb]) } else { None },
                    params4: if has_c { Some(word_byte(w[pc], 0u32)) } else { None },
                    red: if has_c { Some(word_byte(w[pc], 8u32)) } else { None },
                    green: if has_c { Some(word_byte(w[pc], 16u32)) } else { None },
                    blue: if has_c { Some(word_byte(w[pc], 24u32)) } else { None },
                }, end as nat))
            }
        }
    }

    /// The words of the color, when it is there.
    pub open spec fn color_words(&self) -> Seq<u32> {
        match (self.params4, self.red, self.green, self.blue) {
            (Some(a), Some(b), Some(c), Some(d)) => seq![pack_bytes(a, b, c, d)],
            _ => Seq::empty(),
        }
    }

    /// The words of the stored form.
    pub open spec fn words(&self) -> Seq<u32> {
        seq![i32_bits(self.name_reference.0), self.flags, self.params2] + opt_word(self.params3a) + opt_word(
            self.params3b,
        ) + self.color_words()
    }

    pub open spec fn spec_to_bytes(&self) -> Seq<u8> {
        u32s_bytes(self.words())
    }

    /// Each optional part is there exactly when the flags say.
    pub open spec fn wf(&self) -> bool {
        &&& (self.params3a is Some <==> self.flags & 0x10 == 0x00)
        &&& (self.params3b is Some <==> self.flags & 0x18 == 0x18)
        &&& (self.params4 is Some <==> self.flags & 0x10 == 0x10)
        &&& (self.red is Some <==> self.flags & 0x10 == 0x10)
        &&& (self.green is Some <==> self.flags & 0x10 == 0x10)
        &&& (self.blue is Some <==> self.flags & 0x10 == 0x10)
    }

    pub fn parse(input: &[u8]) -> (r: WResult<'_, LightSourceFragment>)
        ensures
            match Self::from_words(words_of(input@)) {
                Some((f, n)) => r == Ok::<(&[u8], LightSourceFragment), WldDocError>((r->Ok_0.0, f))
                    && r->Ok_0.0@ == input@.skip(4 * n as int),
                None => r == Err::<(&[u8], LightSourceFragment), WldDocError>(too_short_spec(input@)),
            },
    {
        let head = match word_list(input, 0, 3) {
            Some(v) => v,
            None => return Err(too_short(input)),
        };
        let flags = head[1];
        let mut p: usize = 3;
        let params3a = if flags & 0x10 == 0x00 {
            let x = match word(input, p) {
                Some(x) => x,
                None => return Err(too_short(input)),
            };
            p = p + 1;
            Some(x)
        } else {
            None
        };
        let params3b = if flags & 0x18 == 0x18 {
            let x = match word(input, p) {
                Some(x) => x,
                None => return Err(too_short(input)),
            };
            p = p + 1;
            Some(x)
        } else {
            None
        };
        let (params4, red, green, blue) = if flags & 0x10 == 0x10 {
            let x = match word(input, p) {
                Some(x) => x,
                None => return Err(too_short(input)),
            };
            p = p + 1;
            (
                Some(((x >> 0u32) & 0xffu32) as u8),
                Some(((x >> 8u32) & 0xffu32) as u8),
                Some(((x >> 16u32) & 0xffu32) as u8),
                Some(((x >> 24u32) & 0xffu32) as u8),
            )
        } else {
            (None, None, None, None)
        };
        assert(4 * p <= input@.len()) by (nonlinear_arith)
            requires
                p <= input@.len() / 4,
        ;
        let f = LightSourceFragment {
            name_reference: StringReference::new(bits_to_i32(head[0])),
            flags,
            params2: head[2],
            params3a,
            params3b,
            params4,
            red,
            green,
            blue,
        };
        Ok((rest(input, 4 * p), f))
    }
}

impl Fragment for LightSourceFragment {
    open spec fn spec_into_bytes(&self) -> Seq<u8> {
        self.spec_to_bytes()
    }

    open spec fn spec_serializable(&self) -> bool {
        true
    }

    fn into_bytes(&self) -> (r: Vec<u8>) {
        let mut w: Vec<u32> = vec![i32_to_bits(self.name_reference.0), self.flags, self.params2];
        let ghost a = w@;
        match self.params3a {
            Some(x) => w.push(x),
            None => {},
        }
        let ghost b = w@;
        match self.params3b {
            Some(x) => w.push(x),
            None => {},
        }
        let ghost c = w@;
        match (self.params4, self.red, self.green, self.blue) {
            (Some(p4), Some(r), Some(g), Some(bl)) => w.push(pack(p4, r, g, bl)),
            _ => {},
        }
        let mut out: Vec<u8> = Vec::new();
        push_u32s(&mut out, &w);
        proof {
            assert(b =~= a + opt_word(self.params3a));
            assert(c =~= b + opt_word(self.params3b));
            assert(w@ =~= c + self.color_words());
            assert(w@ =~= self.words());
        }
        out
    }

    fn name_ref(&self) -> (r: &StringReference)
        ensures
            *r == self.name_reference,
    {
        &self.name_reference
    }

    fn type_id(&self) -> (r: u32)
        ensures
            r == 0x1b,
    {
        Self::TYPE_ID
    }
}

/// Reading back the words of a well-formed light source gives the same
/// light source, whatever follows them.
pub proof fn lemma_light_source_round_trip(f: LightSourceFragment, tail: Seq<u32>)
    requires
        f.wf(),
    ensures
        LightSourceFragment::from_words(f.words() + tail) == Some((f, f.words().len())),
{
    lemma_i32_bits(f.name_reference.0);
    if f.flags & 0x10 == 0x10 {
        lemma_pack_bytes(f.params4->0, f.red->0, f.green->0, f.blue->0);
    }
    let w = f.words() + tail;
    assert(LightSourceFragment::from_words(w) is Some);
    assert(LightSourceFragment::from_words(w).unwrap().0 == f);
}

/// The words of the light source read from `w` are the words it was read
/// from, and it is well formed.
pub proof fn lemma_light_source_words(w: Seq<u32>)
    requires
        LightSourceFragment::from_words(w) is Some,
    ensures
        ({
            let (f, n) = LightSourceFragment::from_words(w).unwrap();
            f.words() == w.take(n as int) && f.wf()
        }),
{
    let (f, n) = LightSourceFragment::from_words(w).unwrap();
    lemma_bits_i32(w[0]);
    if w[1] & 0x10 == 0x10 {
        lemma_unpack_bytes(w[(n - 1) as int]);
    }
    assert(f.words() =~= w.take(n as int));
}

} // verus!
