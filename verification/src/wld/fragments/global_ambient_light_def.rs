//! The global ambient light definition fragment: a name reference alone.
use vstd::prelude::*;
use crate::bytes::{i32_at, lemma_u32_roundtrip, lemma_u32_bytes, lemma_i32_bits, lemma_bits_i32, i32_bits};
use crate::wld::parse::{WResult, WldDocError};
use crate::wld::fragments::{Fragment, StringReference, too_short_spec};

verus! {

/// The global ambient light definition; its name reference holds the light's
/// color.
///
/// **Type ID:** 0x35
#[derive(Debug, Clone, Copy, PartialEq, Eq, Structural)]
pub struct GlobalAmbientLightDef {
    pub name_reference: StringReference,
}

impl GlobalAmbientLightDef {
    pub const TYPE_ID: u32 = 0x35;

    pub open spec fn spec_to_bytes(&self) -> Seq<u8> {
        self.name_reference.spec_to_bytes()
    }

    pub fn parse(input: &[u8]) -> (r: WResult<'_, GlobalAmbientLightDef>)
        ensures
            input@.len() >= 4 ==> (r matches Ok((rest, f)) && f.name_reference.0 == i32_at(input@, 0)
                && rest@ == input@.skip(4)),
            input@.len() < 4 ==> r == Err::<(&[u8], GlobalAmbientLightDef), WldDocError>(too_short_spec(input@)),
    {
        match StringReference::parse(input) {
            Ok((rest, name_reference)) => Ok((rest, GlobalAmbientLightDef { name_reference })),
            Err(e) => Err(e),
        }
    }
}

impl Fragment for GlobalAmbientLightDef {
    open spec fn spec_into_bytes(&self) -> Seq<u8> {
        self.spec_to_bytes()
    }

    open spec fn spec_serializable(&self) -> bool {
        true
    }

    fn into_bytes(&self) -> (r: Vec<u8>) {
        self.name_reference.into_bytes()
    }

    fn name_ref(&self) -> (r: &StringReference)
        ensures
            *r == self.name_reference,
    {
        &self.name_reference
    }

    fn type_id(&self) -> (r: u32)
        ensures
            r == 0x35,
    {
        Self::TYPE_ID
    }
}

/// Reading back a serialized fragment gives the same fragment.
pub proof fn lemma_global_ambient_light_def_round_trip(f: GlobalAmbientLightDef, tail: Seq<u8>)
    ensures
        i32_at(f.spec_to_bytes() + tail, 0) == f.name_reference.0,
        f.spec_to_bytes().len() == 4,
{
    lemma_u32_roundtrip(i32_bits(f.name_reference.0));
    lemma_i32_bits(f.name_reference.0);
    assert(crate::bytes::u32_at(f.spec_to_bytes() + tail, 0) == crate::bytes::u32_at(f.spec_to_bytes(), 0));
}

/// Serializing the fragment read from `s` gives back the bytes it was read from.
pub proof fn lemma_global_ambient_light_def_bytes(s: Seq<u8>)
    requires
        s.len() >= 4,
    ensures
        (GlobalAmbientLightDef { name_reference: StringReference(i32_at(s, 0)) }).spec_to_bytes() == s.take(4),
{
    lemma_u32_bytes(s, 0);
    lemma_bits_i32(crate::bytes::u32_at(s, 0));
    assert((GlobalAmbientLightDef { name_reference: StringReference(i32_at(s, 0)) }).spec_to_bytes() =~= s.take(4));
}

} // verus!
