//! The polyhedron reference fragment (0x18) and its flags.
use vstd::prelude::*;
use crate::bytes::{le_u32, u32_at, push_u32, i32_bits, bits_to_i32, i32_to_bits, lemma_i32_bits,
    lemma_bits_i32};
use crate::wld::parse::{WResult, u32_field, rest, too_short, WldDocError, u32s_bytes, push_u32s};
use crate::wld::words::{words_of, word_list, word_name, word_ref, ref_word, fragment_ref_word,
    lemma_ref_word, lemma_word_ref, word};
use crate::wld::fragments::{Fragment, FragmentRef, StringReference, too_short_spec};

verus! {

/// The flags of a polyhedron.
#[derive(Debug, Clone, Copy, PartialEq, Eq, Structural)]
pub struct PolyhedronFlags(pub u32);

impl PolyhedronFlags {
    const HAS_SCALE_FACTOR: u32 = 0x01;

    fn parse(input: &[u8]) -> (r: WResult<'_, Self>)
        ensures
            input@.len() >= 4 ==> (r matches Ok((rest, f)) && f.0 == u32_at(input@, 0) && rest@ == input@.skip(4)),
            input@.len() < 4 ==> r is Err,
    {
        match u32_field(input, 0) {
            Some(v) => Ok((rest(input, 4), Self(v))),
            None => Err(too_short(input)),
        }
    }

    fn into_bytes(&self) -> (r: Vec<u8>)
        ensures
            r@ == le_u32(self.0),
    {
        let mut out = Vec::new();
        push_u32(&mut out, self.0);
        out
    }

    /// Whether a scale factor follows.
    pub fn has_scale_factor(&self) -> (r: bool)
        ensures
            r == (self.0 & 0x01 == 0x01),
    {
        self.0 & Self::HAS_SCALE_FACTOR == Self::HAS_SCALE_FACTOR
    }
}

/// A reference to a polyhedron (polygon animation) fragment, with an optional scale.
///
/// **Type ID:** 0x18
#[derive(Debug, Clone, Copy, PartialEq, Eq, Structural)]
pub struct PolygonAnimationReferenceFragment {
    pub name_reference: StringReference,
    /// The polyhedron.
    pub reference: FragmentRef,
    pub flags: PolyhedronFlags,
    /// The bits of the `f32` scale; there when bit 0 of the flags is set.
    pub scale_factor: Option<u32>,
}

impl PolygonAnimationReferenceFragment {
    pub const TYPE_ID: u32 = 0x18;

    /// The fragment held by words `w`, and how many words it takes, if `w` holds it
    /// all: the fields in order, each optional group there when its flag bit is set.
    pub open spec fn from_words(w: Seq<u32>) -> Option<(Self, nat)> {
        if w.len() < 3 {
            None
        } else {
            let flags = w[2];
            let p3: int = 3;
            let has_scale_factor = flags & 0x01 == 0x01;
            let end: int = (if has_scale_factor { p3 + 1 } else { p3 });
            if w.len() < end {
                None
            } else {
                Some((PolygonAnimationReferenceFragment {
                    name_reference: word_name(w[0]),
                    reference: word_ref(w[1]),
                    flags: PolyhedronFlags(w[2]),
                    scale_factor: if has_scale_factor { Some(w[p3]) } else { None },
                }, end as nat))
            }
        }
    }

    /// The words of the stored form: the fields in order, each optional group
    /// when it is there.
    pub open spec fn words(&self) -> Seq<u32> {
        seq![i32_bits(self.name_reference.0), ref_word(self.reference), self.flags.0]
            + (match self.scale_factor { Some(x) => seq![x], None => Seq::empty() })
    }

    pub open spec fn spec_to_bytes(&self) -> Seq<u8> {
        u32s_bytes(self.words())
    }

    /// Its references are as `FragmentRef::new` makes them, and each optional
    /// group is there exactly when its flag bit is set.
    pub open spec fn wf(&self) -> bool {
        self.reference.wf()
        && (self.scale_factor is Some <==> self.flags.0 & 0x01 == 0x01)
    }

    pub fn parse(input: &[u8]) -> (r: WResult<'_, PolygonAnimationReferenceFragment>)
        ensures
            match Self::from_words(words_of(input@)) {
                Some((f, n)) => r == Ok::<(&[u8], PolygonAnimationReferenceFragment), WldDocError>((r->Ok_0.0, f)) && r->Ok_0.0@ == input@.skip(4 * n as int),
                None => r == Err::<(&[u8], PolygonAnimationReferenceFragment), WldDocError>(too_short_spec(input@)),
            },
    {
        let ghost w = words_of(input@);
        let head = match word_list(input, 0, 3) {
            Some(v) => v,
            None => return Err(too_short(input)),
        };
        let flags = head[2];
        let mut p: usize = 3;
        let scale_factor = if flags & 0x01 == 0x01 {
            let x0 = match word(input, p + 0) {
                Some(x) => x,
                None => return Err(too_short(input)),
            };
            p = p + 1;
            Some(x0)
        } else {
            None
        };
        assert(4 * p <= input@.len()) by (nonlinear_arith)
            requires
                p <= input@.len() / 4,
        ;
        let f = PolygonAnimationReferenceFragment {
            name_reference: StringReference::new(bits_to_i32(head[0])),
            reference: FragmentRef::new(bits_to_i32(head[1])),
            flags: PolyhedronFlags(head[2]),
            scale_factor: scale_factor,
        };
        Ok((rest(input, 4 * p), f))
    }

    fn to_words_bytes(&self) -> (r: Vec<u8>)
        ensures
            r@ == self.spec_to_bytes(),
    {
        let mut w: Vec<u32> = Vec::new();
        let ghost start = w@;
        proof {
            assert(start =~= Seq::<u32>::empty());
        }
        w.push(i32_to_bits(self.name_reference.0));
        w.push(fragment_ref_word(&self.reference));
        w.push(self.flags.0);
        match self.scale_factor {
            Some(x) => {
                w.push(x);
            },
            None => {},
        }
        let mut out: Vec<u8> = Vec::new();
        push_u32s(&mut out, &w);
        proof {
            assert(w@ =~= self.words());
            assert(out@ =~= self.spec_to_bytes());
        }
        out
    }
}

impl Fragment for PolygonAnimationReferenceFragment {
    open spec fn spec_into_bytes(&self) -> Seq<u8> {
        self.spec_to_bytes()
    }

    open spec fn spec_serializable(&self) -> bool {
        true
    }

    fn into_bytes(&self) -> (r: Vec<u8>) {
        self.to_words_bytes()
    }

    fn name_ref(&self) -> (r: &StringReference)
        ensures
            *r == self.name_reference,
    {
        &self.name_reference
    }

    fn type_id(&self) -> (r: u32)
        ensures
            r == 0x18,
    {
        Self::TYPE_ID
    }
}

/// Reading back the words of a well-formed fragment gives the same
/// fragment, whatever follows them.
pub proof fn lemma_polygon_animation_reference_round_trip(f: PolygonAnimationReferenceFragment, tail: Seq<u32>)
    requires
        f.wf(),
    ensures
        PolygonAnimationReferenceFragment::from_words(f.words() + tail) == Some((f, f.words().len())),
{
    lemma_i32_bits(f.name_reference.0);
    lemma_ref_word(f.reference);
    let w = f.words() + tail;
    let g = PolygonAnimationReferenceFragment::from_words(w).unwrap().0;
    assert(PolygonAnimationReferenceFragment::from_words(w) is Some);
    assert(g == f);
}

/// The words of the fragment read from `w` are the words it was read from,
/// and it is well formed.
pub proof fn lemma_polygon_animation_reference_words(w: Seq<u32>)
    requires
        PolygonAnimationReferenceFragment::from_words(w) is Some,
    ensures
        ({
            let (f, n) = PolygonAnimationReferenceFragment::from_words(w).unwrap();
            f.words() == w.take(n as int) && f.wf()
        }),
{
    let (f, n) = PolygonAnimationReferenceFragment::from_words(w).unwrap();
    lemma_bits_i32(w[0]);
    lemma_word_ref(w[1]);
    assert(f.words() =~= w.take(n as int));
}

} // verus!
