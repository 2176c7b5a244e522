//! The point light fragment (0x28) and its flags.
use vstd::prelude::*;
use crate::bytes::{le_u32, u32_at, push_u32, i32_bits, bits_to_i32, i32_to_bits, lemma_i32_bits,
    lemma_bits_i32};
use crate::wld::parse::{WResult, u32_field, rest, too_short, WldDocError, u32s_bytes, push_u32s};
use crate::wld::words::{words_of, word_list, word_name, word_ref, ref_word, fragment_ref_word,
    lemma_ref_word, lemma_word_ref};
use crate::wld::fragments::{Fragment, FragmentRef, StringReference, too_short_spec};

verus! {

/// The flags of a point light.
#[derive(Debug, Clone, Copy, PartialEq, Eq, Structural)]
pub struct PointLightFlags(pub u32);

impl PointLightFlags {
    const IS_STATIC: u32 = 0x20;
    const STATIC_INFLUENCE: u32 = 0x40;
    const HAS_REGIONS: u32 = 0x80;

    fn parse(input: &[u8]) -> (r: WResult<'_, Self>)
        ensures
            input@.len() >= 4 ==> (r matches Ok((rest, f)) && f.0 == u32_at(input@, 0) && rest@ == input@.skip(4)),
            input@.len() < 4 ==> r is Err,
    {
        match u32_field(input, 0) {
            Some(v) => Ok((rest(input, 4), Self(v))),
            None => Err(too_short(input)),
        }
    }

    fn into_bytes(&self) -> (r: Vec<u8>)
        ensures
            r@ == le_u32(self.0),
    {
        let mut out = Vec::new();
        push_u32(&mut out, self.0);
        out
    }

    /// Whether the light is static.
    pub fn is_static(&self) -> (r: bool)
        ensures
            r == (self.0 & 0x20 == 0x20),
    {
        self.0 & Self::IS_STATIC == Self::IS_STATIC
    }

    /// Whether the light has a static influence.
    pub fn static_influene(&self) -> (r: bool)
        ensures
            r == (self.0 & 0x40 == 0x40),
    {
        self.0 & Self::STATIC_INFLUENCE == Self::STATIC_INFLUENCE
    }

    /// Whether a list of regions follows.
    pub fn has_regions(&self) -> (r: bool)
        ensures
            r == (self.0 & 0x80 == 0x80),
    {
        self.0 & Self::HAS_REGIONS == Self::HAS_REGIONS
    }
}

/// A point light: where a light (0x1c) shines and how far.
///
/// **Type ID:** 0x28
#[derive(Debug, Clone, Copy, PartialEq, Eq, Structural)]
pub struct LightInfoFragment {
    pub name_reference: StringReference,
    /// The light (0x1c).
    pub reference: FragmentRef,
    pub flags: PointLightFlags,
    /// The bits of the `f32` x coordinate.
    pub x: u32,
    /// The bits of the `f32` y coordinate.
    pub y: u32,
    /// The bits of the `f32` z coordinate.
    pub z: u32,
    /// The bits of the `f32` radius of the light.
    pub radius: u32,
}

impl LightInfoFragment {
    pub const TYPE_ID: u32 = 0x28;

    /// The fragment held by the first 7 words of `w`, if there are that many.
    pub open spec fn from_words(w: Seq<u32>) -> Option<(Self, nat)> {
        if w.len() < 7 {
            None
        } else {
            Some((LightInfoFragment {
                name_reference: word_name(w[0]),
                reference: word_ref(w[1]),
                flags: PointLightFlags(w[2]),
                x: w[3],
                y: w[4],
                z: w[5],
                radius: w[6],
            }, 7))
        }
    }

    /// The words of the stored form, one per field.
    pub open spec fn words(&self) -> Seq<u32> {
        seq![i32_bits(self.name_reference.0), ref_word(self.reference), self.flags.0, self.x, self.y, self.z, self.radius]
    }

    pub open spec fn spec_to_bytes(&self) -> Seq<u8> {
        u32s_bytes(self.words())
    }

    /// Its references are as `FragmentRef::new` makes them.
    pub open spec fn wf(&self) -> bool {
        self.reference.wf()
    }

    pub fn parse(input: &[u8]) -> (r: WResult<'_, LightInfoFragment>)
        ensures
            match Self::from_words(words_of(input@)) {
                Some((f, n)) => r == Ok::<(&[u8], LightInfoFragment), WldDocError>((r->Ok_0.0, f)) && r->Ok_0.0@ == input@.skip(4 * n as int),
                None => r == Err::<(&[u8], LightInfoFragment), WldDocError>(too_short_spec(input@)),
            },
    {
        let w = match word_list(input, 0, 7) {
            Some(w) => w,
            None => return Err(too_short(input)),
        };
        assert(4 * 7 <= input@.len()) by (nonlinear_arith)
            requires
                7 <= input@.len() / 4,
        ;
        let f = LightInfoFragment {
            name_reference: StringReference::new(bits_to_i32(w[0])),
            reference: FragmentRef::new(bits_to_i32(w[1])),
            flags: PointLightFlags(w[2]),
            x: w[3],
            y: w[4],
            z: w[5],
            radius: w[6],
        };
        Ok((rest(input, 28), f))
    }

    fn to_words_bytes(&self) -> (r: Vec<u8>)
        ensures
            r@ == self.spec_to_bytes(),
    {
        let w: Vec<u32> = vec![i32_to_bits(self.name_reference.0), fragment_ref_word(&self.reference), self.flags.0, self.x, self.y, self.z, self.radius];
        let mut out: Vec<u8> = Vec::new();
        push_u32s(&mut out, &w);
        proof {
            assert(w@ =~= self.words());
            assert(out@ =~= self.spec_to_bytes());
        }
        out
    }
}

impl Fragment for LightInfoFragment {
    open spec fn spec_into_bytes(&self) -> Seq<u8> {
        self.spec_to_bytes()
    }

    open spec fn spec_serializable(&self) -> bool {
        true
    }

    fn into_bytes(&self) -> (r: Vec<u8>) {
        self.to_words_bytes()
    }

    fn name_ref(&self) -> (r: &StringReference)
        ensures
            *r == self.name_reference,
    {
        &self.name_reference
    }

    fn type_id(&self) -> (r: u32)
        ensures
            r == 0x28,
    {
        Self::TYPE_ID
    }
}

/// Reading back the words of a fragment gives the same fragment, whatever
/// follows them.
pub proof fn lemma_light_info_round_trip(f: LightInfoFragment, tail: Seq<u32>)
    requires
        f.wf(),
    ensures
        LightInfoFragment::from_words(f.words() + tail) == Some((f, f.words().len())),
        f.words().len() == 7,
{
    lemma_i32_bits(f.name_reference.0);
    lemma_ref_word(f.reference);
}

/// The words of the fragment read from `w` are the words it was read from.
pub proof fn lemma_light_info_words(w: Seq<u32>)
    requires
        w.len() >= 7,
    ensures
        LightInfoFragment::from_words(w).unwrap().0.words() == w.take(7),
        LightInfoFragment::from_words(w).unwrap().0.wf(),
{
    lemma_bits_i32(w[0]);
    lemma_word_ref(w[1]);
    assert(LightInfoFragment::from_words(w).unwrap().0.words() =~= w.take(7));
}

} // verus!
