//! The blit sprite definition fragment (0x26) and its flags.
use vstd::prelude::*;
use crate::bytes::{le_u32, u32_at, i32_at, i32_bits, push_u32, read_u32, read_i32, i32_to_bits, lemma_i32_bits,
    lemma_bits_i32};
use crate::wld::parse::{WResult, WldDocError, u32_field, rest, too_short, u32s_bytes, u32s_at, push_u32s,
    lemma_u32s_at, lemma_u32s_bytes};
use crate::wld::fragments::{Fragment, StringReference, too_short_spec};

verus! {

/// The blit sprite definition (BLITSPRITEDEFINITION).
///
/// **Type ID:** 0x26
#[derive(Debug, Clone, Copy, PartialEq, Eq, Structural)]
pub struct BlitSpriteDefinitionFragment {
    pub name_reference: StringReference,
    pub flags: BlitSpriteDefFlags,
    /// The index of the blit sprite.
    pub blit_sprite_reference: u32,
    /// _Unknown_.
    pub unknown: i32,
}

impl BlitSpriteDefinitionFragment {
    pub const TYPE_ID: u32 = 0x26;

    /// The fragment stored at the start of `s`.
    pub open spec fn decode(s: Seq<u8>) -> Self {
        BlitSpriteDefinitionFragment {
            name_reference: StringReference(i32_at(s, 0)),
            flags: BlitSpriteDefFlags(u32_at(s, 4)),
            blit_sprite_reference: u32_at(s, 8),
            unknown: i32_at(s, 12),
        }
    }

    /// The four 32-bit words of the stored form.
    pub open spec fn words(&self) -> Seq<u32> {
        seq![i32_bits(self.name_reference.0), self.flags.0, self.blit_sprite_reference, i32_bits(self.unknown)]
    }

    /// The stored form: name reference, flags, blit sprite reference, unknown value.
    pub open spec fn spec_to_bytes(&self) -> Seq<u8> {
        u32s_bytes(self.words())
    }

    pub fn parse(input: &[u8]) -> (r: WResult<'_, BlitSpriteDefinitionFragment>)
        ensures
            input@.len() >= 16 ==> r == Ok::<(&[u8], BlitSpriteDefinitionFragment), WldDocError>(
                (r->Ok_0.0, Self::decode(input@)),
            ) && r->Ok_0.0@ == input@.skip(16),
            input@.len() < 16 ==> r == Err::<(&[u8], BlitSpriteDefinitionFragment), WldDocError>(
                too_short_spec(input@),
            ),
    {
        if input.len() < 16 {
            return Err(too_short(input));
        }
        let name_reference = StringReference::new(read_i32(input, 0));
        let flags = BlitSpriteDefFlags::new(read_u32(input, 4));
        let blit_sprite_reference = read_u32(input, 8);
        let unknown = read_i32(input, 12);
        Ok((rest(input, 16), BlitSpriteDefinitionFragment { name_reference, flags, blit_sprite_reference, unknown }))
    }
}

impl Fragment for BlitSpriteDefinitionFragment {
    open spec fn spec_into_bytes(&self) -> Seq<u8> {
        self.spec_to_bytes()
    }

    open spec fn spec_serializable(&self) -> bool {
        true
    }

    fn into_bytes(&self) -> (r: Vec<u8>) {
        let ws: Vec<u32> = vec![
            i32_to_bits(self.name_reference.0),
            self.flags.0,
            self.blit_sprite_reference,
            i32_to_bits(self.unknown),
        ];
        let mut out: Vec<u8> = Vec::new();
        push_u32s(&mut out, &ws);
        proof {
            assert(ws@ =~= self.words());
            assert(out@ =~= self.spec_to_bytes());
        }
        out
    }

    fn name_ref(&self) -> (r: &StringReference)
        ensures
            *r == self.name_reference,
    {
        &self.name_reference
    }

    fn type_id(&self) -> (r: u32)
        ensures
            r == 0x26,
    {
        Self::TYPE_ID
    }
}

/// Reading back a serialized definition gives the same fragment, whatever
/// follows it.
pub proof fn lemma_blit_sprite_definition_round_trip(f: BlitSpriteDefinitionFragment, tail: Seq<u8>)
    ensures
        BlitSpriteDefinitionFragment::decode(f.spec_to_bytes() + tail) == f,
        f.spec_to_bytes().len() == 16,
{
    let w = f.words();
    lemma_u32s_at(w, tail);
    lemma_u32s_at(w, Seq::empty());
    assert(u32s_bytes(w) + Seq::<u8>::empty() =~= u32s_bytes(w));
    assert(u32_at(u32s_bytes(w) + tail, 0) == w[0]);
    assert(u32_at(u32s_bytes(w) + tail, 4) == w[1]);
    assert(u32_at(u32s_bytes(w) + tail, 8) == w[2]);
    assert(u32_at(u32s_bytes(w) + tail, 12) == w[3]);
    lemma_i32_bits(f.name_reference.0);
    lemma_i32_bits(f.unknown);
}

/// Serializing the definition read from `s` gives back the bytes it was
/// read from.
pub proof fn lemma_blit_sprite_definition_bytes(s: Seq<u8>)
    requires
        s.len() >= 16,
    ensures
        BlitSpriteDefinitionFragment::decode(s).spec_to_bytes() == s.take(16),
{
    lemma_bits_i32(u32_at(s, 0));
    lemma_bits_i32(u32_at(s, 12));
    lemma_u32s_bytes(s, 0, 4);
    assert(BlitSpriteDefinitionFragment::decode(s).words() =~= u32s_at(s, 0, 4));
    assert(s.subrange(0, 16) =~= s.take(16));
}

/// The flags of a blit sprite definition.
#[derive(Debug, Clone, Copy, PartialEq, Eq, Structural)]
pub struct BlitSpriteDefFlags(pub u32);

impl BlitSpriteDefFlags {
    const TRANSPARENT: u32 = 0x100;

    pub fn new(flags: u32) -> (r: Self)
        ensures
            r.0 == flags,
    {
        Self(flags)
    }

    pub fn parse(input: &[u8]) -> (r: WResult<'_, Self>)
        ensures
            input@.len() >= 4 ==> (r matches Ok((rest, f)) && f.0 == u32_at(input@, 0) && rest@ == input@.skip(4)),
            input@.len() < 4 ==> r is Err,
    {
        match u32_field(input, 0) {
            Some(v) => Ok((rest(input, 4), Self(v))),
            None => Err(too_short(input)),
        }
    }

    pub fn into_bytes(&self) -> (r: Vec<u8>)
        ensures
            r@ == le_u32(self.0),
    {
        let mut out = Vec::new();
        push_u32(&mut out, self.0);
        out
    }

    /// Whether the sprite is drawn transparent.
    pub fn transparent(&self) -> (r: bool)
        ensures
            r == (self.0 & 0x100 == 0x100),
    {
        self.0 & Self::TRANSPARENT == Self::TRANSPARENT
    }
}
} // verus!
