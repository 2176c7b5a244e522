//! The directional light fragment (0x2b) and its flags.
use vstd::prelude::*;
use crate::bytes::{le_u32, u32_at, push_u32, i32_bits, bits_to_i32, i32_to_bits, lemma_i32_bits};
use crate::wld::parse::{WResult, WldDocError, u32_field, rest, too_short, u32s_bytes, push_u32s};
use crate::wld::words::{words_of, word_list, word_name, word_ref, ref_word, fragment_ref_word, push_words,
    lemma_ref_word, lemma_word_ref};
use crate::wld::fragments::{Fragment, FragmentRef, StringReference, too_short_spec};

verus! {

/// The flags of a directional light.
#[derive(Debug, Clone, Copy, PartialEq, Eq, Structural)]
pub struct DirectionalLightFlags(pub u32);

impl DirectionalLightFlags {
    const IS_STATIC: u32 = 0x20;

    fn parse(input: &[u8]) -> (r: WResult<'_, Self>)
        ensures
            input@.len() >= 4 ==> (r matches Ok((rest, f)) && f.0 == u32_at(input@, 0) && rest@ == input@.skip(4)),
            input@.len() < 4 ==> r is Err,
    {
        match u32_field(input, 0) {
            Some(v) => Ok((rest(input, 4), Self(v))),
            None => Err(too_short(input)),
        }
    }

    fn to_bytes(&self) -> (r: Vec<u8>)
        ensures
            r@ == le_u32(self.0),
    {
        let mut out = Vec::new();
        push_u32(&mut out, self.0);
        out
    }

    /// Whether the light is static.
    pub fn is_static(&self) -> (r: bool)
        ensures
            r == (self.0 & 0x20 == 0x20),
    {
        self.0 & Self::IS_STATIC == Self::IS_STATIC
    }
}

/// A light that shines in one direction on a list of regions. The normal is
/// kept as the bits of its `f32` coordinates.
///
/// **Type ID:** 0x2b
#[derive(Debug, PartialEq)]
pub struct DirectionalLight {
    pub name_reference: StringReference,
    /// The light (0x1c).
    pub light_reference: FragmentRef,
    pub flags: DirectionalLightFlags,
    /// The bits of the `f32` coordinates of the light's direction.
    pub normal: (u32, u32, u32),
    pub num_regions: u32,
    /// The regions the light shines on; `num_regions` of them.
    pub regions: Vec<u32>,
}

impl DirectionalLight {
    pub const TYPE_ID: u32 = 0x2b;

    /// How many words the light held by `w` takes, if `w` holds it all:
    /// seven, then one per region.
    pub open spec fn size(w: Seq<u32>) -> Option<nat> {
        if w.len() < 7 || w.len() < 7 + w[6] {
            None
        } else {
            Some((7 + w[6]) as nat)
        }
    }

    /// Whether `f` is the light held by `w`.
    pub open spec fn read_from(w: Seq<u32>, f: DirectionalLight) -> bool {
        &&& f.name_reference == word_name(w[0])
        &&& f.light_reference == word_ref(w[1])
        &&& f.flags == DirectionalLightFlags(w[2])
        &&& f.normal == (w[3], w[4], w[5])
        &&& f.num_regions == w[6]
        &&& f.regions@ == w.subrange(7, 7 + w[6])
    }

    /// The words of the stored form.
    pub open spec fn words(&self) -> Seq<u32> {
        seq![
            i32_bits(self.name_reference.0),
            ref_word(self.light_reference),
            self.flags.0,
            self.normal.0,
            self.normal.1,
            self.normal.2,
            self.num_regions,
        ] + self.regions@
    }

    pub open spec fn spec_to_bytes(&self) -> Seq<u8> {
        u32s_bytes(self.words())
    }

    /// The reference is as `FragmentRef::new` makes it, and the count is the
    /// number of regions.
    pub open spec fn wf(&self) -> bool {
        self.light_reference.wf() && self.regions@.len() == self.num_regions
    }

    pub fn parse(input: &[u8]) -> (r: WResult<'_, DirectionalLight>)
        ensures
            match Self::size(words_of(input@)) {
                Some(n) => r matches Ok((rest, f)) && Self::read_from(words_of(input@), f)
                    && rest@ == input@.skip(4 * n as int),
                None => r == Err::<(&[u8], DirectionalLight), WldDocError>(too_short_spec(input@)),
            },
    {
        let head = match word_list(input, 0, 7) {
            Some(v) => v,
            None => return Err(too_short(input)),
        };
        let regions = match word_list(input, 7, head[6]) {
            Some(v) => v,
            None => return Err(too_short(input)),
        };
        let total = input.len() / 4;
        assert(7 + head@[6] <= total);
        let end = 7 + head[6] as usize;
        assert(4 * end <= input@.len()) by (nonlinear_arith)
            requires
                end <= input@.len() / 4,
        ;
        let f = DirectionalLight {
            name_reference: StringReference::new(bits_to_i32(head[0])),
            light_reference: FragmentRef::new(bits_to_i32(head[1])),
            flags: DirectionalLightFlags(head[2]),
            normal: (head[3], head[4], head[5]),
            num_regions: head[6],
            regions,
        };
        Ok((rest(input, 4 * end), f))
    }

    pub fn to_bytes(&self) -> (r: Vec<u8>)
        ensures
            r@ == self.spec_to_bytes(),
    {
        let mut w: Vec<u32> = vec![
            i32_to_bits(self.name_reference.0),
            fragment_ref_word(&self.light_reference),
            self.flags.0,
            self.normal.0,
            self.normal.1,
            self.normal.2,
            self.num_regions,
        ];
        push_words(&mut w, &self.regions);
        let mut out: Vec<u8> = Vec::new();
        push_u32s(&mut out, &w);
        proof {
            assert(w@ =~= self.words());
        }
        out
    }
}

impl Fragment for DirectionalLight {
    open spec fn spec_into_bytes(&self) -> Seq<u8> {
        self.spec_to_bytes()
    }

    open spec fn spec_serializable(&self) -> bool {
        true
    }

    fn into_bytes(&self) -> (r: Vec<u8>) {
        self.to_bytes()
    }

    fn name_ref(&self) -> (r: &StringReference)
        ensures
            *r == self.name_reference,
    {
        &self.name_reference
    }

    fn type_id(&self) -> (r: u32)
        ensures
            r == 0x2b,
    {
        Self::TYPE_ID
    }
}

/// Reading back the words of a well-formed light gives the same light,
/// whatever follows them.
pub proof fn lemma_directional_light_round_trip(f: DirectionalLight, tail: Seq<u32>)
    requires
        f.wf(),
    ensures
        DirectionalLight::size(f.words() + tail) == Some(f.words().len()),
        DirectionalLight::read_from(f.words() + tail, f),
{
    lemma_i32_bits(f.name_reference.0);
    lemma_ref_word(f.light_reference);
    let w = f.words() + tail;
    assert(w[6] == f.num_regions);
    assert(w.subrange(7, 7 + w[6]) =~= f.regions@);
}

/// The words of the light read from `w` are the words it was read from, and
/// it is well formed.
pub proof fn lemma_directional_light_words(w: Seq<u32>, f: DirectionalLight)
    requires
        DirectionalLight::size(w) is Some,
        DirectionalLight::read_from(w, f),
    ensures
        f.words() == w.take(DirectionalLight::size(w)->0 as int),
        f.wf(),
{
    crate::bytes::lemma_bits_i32(w[0]);
    lemma_word_ref(w[1]);
    assert(f.words() =~= w.take(DirectionalLight::size(w)->0 as int));
}

} // verus!
