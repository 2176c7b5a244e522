//! The blit sprite fragment: a reference to a blit sprite definition.
use vstd::prelude::*;
use crate::bytes::{u32_at, i32_at, i32_bits, read_u32, read_i32, i32_to_bits, lemma_i32_bits, lemma_bits_i32};
use crate::wld::parse::{WResult, WldDocError, rest, too_short, u32s_bytes, u32s_at, push_u32s, lemma_u32s_at,
    lemma_u32s_bytes};
use crate::wld::fragments::{Fragment, StringReference, too_short_spec};

verus! {

/// The blit sprite fragment (BLITSPRITE TAG).
///
/// **Type ID:** 0x27
#[derive(Debug, Clone, Copy, PartialEq, Eq, Structural)]
pub struct BlitSprite {
    pub name_reference: StringReference,
    /// The index of the blit sprite definition.
    pub blit_sprite_reference: u32,
    /// _Unknown_.
    pub unknown: i32,
}

impl BlitSprite {
    pub const TYPE_ID: u32 = 0x27;

    /// The fragment stored at the start of `s`.
    pub open spec fn decode(s: Seq<u8>) -> Self {
        BlitSprite {
            name_reference: StringReference(i32_at(s, 0)),
            blit_sprite_reference: u32_at(s, 4),
            unknown: i32_at(s, 8),
        }
    }

    /// The three 32-bit words of the stored form.
    pub open spec fn words(&self) -> Seq<u32> {
        seq![i32_bits(self.name_reference.0), self.blit_sprite_reference, i32_bits(self.unknown)]
    }

    /// The stored form: name reference, definition reference, unknown value.
    pub open spec fn spec_to_bytes(&self) -> Seq<u8> {
        u32s_bytes(self.words())
    }

    pub fn parse(input: &[u8]) -> (r: WResult<'_, BlitSprite>)
        ensures
            input@.len() >= 12 ==> r == Ok::<(&[u8], BlitSprite), WldDocError>((r->Ok_0.0, Self::decode(input@)))
                && r->Ok_0.0@ == input@.skip(12),
            input@.len() < 12 ==> r == Err::<(&[u8], BlitSprite), WldDocError>(too_short_spec(input@)),
    {
        if input.len() < 12 {
            return Err(too_short(input));
        }
        let name_reference = StringReference::new(read_i32(input, 0));
        let blit_sprite_reference = read_u32(input, 4);
        let unknown = read_i32(input, 8);
        Ok((rest(input, 12), BlitSprite { name_reference, blit_sprite_reference, unknown }))
    }

    pub fn to_bytes(&self) -> (r: Vec<u8>)
        ensures
            r@ == self.spec_to_bytes(),
    {
        let ws: Vec<u32> = vec![i32_to_bits(self.name_reference.0), self.blit_sprite_reference, i32_to_bits(self.unknown)];
        let mut out: Vec<u8> = Vec::new();
        push_u32s(&mut out, &ws);
        proof {
            assert(ws@ =~= self.words());
            assert(out@ =~= self.spec_to_bytes());
        }
        out
    }
}

impl Fragment for BlitSprite {
    open spec fn spec_into_bytes(&self) -> Seq<u8> {
        self.spec_to_bytes()
    }

    open spec fn spec_serializable(&self) -> bool {
        true
    }

    fn into_bytes(&self) -> (r: Vec<u8>) {
        self.to_bytes()
    }

    fn name_ref(&self) -> (r: &StringReference)
        ensures
            *r == self.name_reference,
    {
        &self.name_reference
    }

    fn type_id(&self) -> (r: u32)
        ensures
            r == 0x27,
    {
        Self::TYPE_ID
    }
}

/// Reading back a serialized blit sprite gives the same fragment, whatever
/// follows it.
pub proof fn lemma_blit_sprite_round_trip(f: BlitSprite, tail: Seq<u8>)
    ensures
        BlitSprite::decode(f.spec_to_bytes() + tail) == f,
        f.spec_to_bytes().len() == 12,
{
    let w = f.words();
    lemma_u32s_at(w, tail);
    lemma_u32s_at(w, Seq::empty());
    assert(u32s_bytes(w) + Seq::<u8>::empty() =~= u32s_bytes(w));
    assert(u32_at(u32s_bytes(w) + tail, 0) == w[0]);
    assert(u32_at(u32s_bytes(w) + tail, 4) == w[1]);
    assert(u32_at(u32s_bytes(w) + tail, 8) == w[2]);
    lemma_i32_bits(f.name_reference.0);
    lemma_i32_bits(f.unknown);
}

/// Serializing the blit sprite read from `s` gives back the bytes it was
/// read from.
pub proof fn lemma_blit_sprite_bytes(s: Seq<u8>)
    requires
        s.len() >= 12,
    ensures
        BlitSprite::decode(s).spec_to_bytes() == s.take(12),
{
    lemma_bits_i32(u32_at(s, 0));
    lemma_bits_i32(u32_at(s, 8));
    lemma_u32s_bytes(s, 0, 3);
    assert(BlitSprite::decode(s).words() =~= u32s_at(s, 0, 3));
    assert(s.subrange(0, 12) =~= s.take(12));
}

} // verus!
