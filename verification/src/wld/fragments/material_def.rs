//! The material definition fragment (0x30).
use vstd::prelude::*;
use crate::wld::fragments::common::render_info::{RenderMethod, lemma_render_method_round_trip,
    lemma_render_method_value};
use crate::bytes::{i32_bits, bits_to_i32, i32_to_bits, lemma_i32_bits, lemma_bits_i32};
use crate::wld::parse::{WResult, WldDocError, rest, too_short, u32s_bytes, push_u32s};
use crate::wld::words::{words_of, word_list, word_name, word_ref, ref_word, fragment_ref_word,
    lemma_ref_word, lemma_word_ref, word};
use crate::wld::fragments::{Fragment, FragmentRef, StringReference, too_short_spec};

verus! {

/// A material: how a texture (simple sprite) is rendered.
///
/// **Type ID:** 0x30
#[derive(Debug, Clone, Copy, PartialEq, Eq)]
pub struct MaterialDef {
    pub name_reference: StringReference,
    /// Bit 1 set: `pair` is there.
    pub flags: u32,
    /// How the material is rendered.
    pub render_method: RenderMethod,
    /// The color, as RGB bytes.
    pub rgb_pen: u32,
    /// The bits of the `f32` brightness.
    pub brightness: u32,
    /// The bits of the `f32` scaled ambient light.
    pub scaled_ambient: u32,
    /// The simple sprite (texture).
    pub reference: FragmentRef,
    /// _Unknown_ value and the bits of an `f32`; there when bit 1 of the flags is set.
    pub pair: Option<(u32, u32)>,
}

impl MaterialDef {
    pub const TYPE_ID: u32 = 0x30;

    /// The fragment held by words `w`, and how many words it takes, if `w` holds it
    /// all: the fields in order, each optional group there when its flag bit is set.
    pub open spec fn from_words(w: Seq<u32>) -> Option<(Self, nat)> {
        if w.len() < 7 {
            None
        } else {
            let flags = w[1];
            let p7: int = 7;
            let has_pair = flags & 0x2 == 0x2;
            let end: int = (if has_pair { p7 + 2 } else { p7 });
            if w.len() < end {
                None
            } else {
                Some((MaterialDef {
                    name_reference: word_name(w[0]),
                    flags: w[1],
                    render_method: RenderMethod::spec_from_u32(w[2]),
                    rgb_pen: w[3],
                    brightness: w[4],
                    scaled_ambient: w[5],
                    reference: word_ref(w[6]),
                    pair: if has_pair { Some((w[p7], w[p7 + 1])) } else { None },
                }, end as nat))
            }
        }
    }

    /// The words of the stored form: the fields in order, each optional group
    /// when it is there.
    pub open spec fn words(&self) -> Seq<u32> {
        seq![i32_bits(self.name_reference.0), self.flags, self.render_method.spec_as_u32(), self.rgb_pen, self.brightness, self.scaled_ambient, ref_word(self.reference)]
            + (match self.pair { Some(x) => seq![x.0, x.1], None => Seq::empty() })
    }

    pub open spec fn spec_to_bytes(&self) -> Seq<u8> {
        u32s_bytes(self.words())
    }

    /// Its references are as `FragmentRef::new` makes them, and each optional
    /// group is there exactly when its flag bit is set.
    pub open spec fn wf(&self) -> bool {
        self.reference.wf()
        && (self.pair is Some <==> self.flags & 0x2 == 0x2)
        && self.render_method.wf()
    }

    /// Reads a material. The render method must be one that `RenderMethod`
    /// can stand for.
    pub fn parse(input: &[u8]) -> (r: WResult<'_, MaterialDef>)
        requires
            words_of(input@).len() >= 3 ==> RenderMethod::is_known(words_of(input@)[2]),
        ensures
            match Self::from_words(words_of(input@)) {
                Some((f, n)) => r == Ok::<(&[u8], MaterialDef), WldDocError>((r->Ok_0.0, f)) && r->Ok_0.0@ == input@.skip(4 * n as int),
                None => r == Err::<(&[u8], MaterialDef), WldDocError>(too_short_spec(input@)),
            },
    {
        let ghost w = words_of(input@);
        let head = match word_list(input, 0, 7) {
            Some(v) => v,
            None => return Err(too_short(input)),
        };
        let flags = head[1];
        let mut p: usize = 7;
        let pair = if flags & 0x2 == 0x2 {
            let x0 = match word(input, p + 0) {
                Some(x) => x,
                None => return Err(too_short(input)),
            };
            let x1 = match word(input, p + 1) {
                Some(x) => x,
                None => return Err(too_short(input)),
            };
            p = p + 2;
            Some((x0, x1))
        } else {
            None
        };
        assert(4 * p <= input@.len()) by (nonlinear_arith)
            requires
                p <= input@.len() / 4,
        ;
        let f = MaterialDef {
            name_reference: StringReference::new(bits_to_i32(head[0])),
            flags: head[1],
            render_method: RenderMethod::from_u32(head[2]),
            rgb_pen: head[3],
            brightness: head[4],
            scaled_ambient: head[5],
            reference: FragmentRef::new(bits_to_i32(head[6])),
            pair: pair,
        };
        Ok((rest(input, 4 * p), f))
    }

    fn to_words_bytes(&self) -> (r: Vec<u8>)
        ensures
            r@ == self.spec_to_bytes(),
    {
        let mut w: Vec<u32> = Vec::new();
        let ghost start = w@;
        proof {
            assert(start =~= Seq::<u32>::empty());
        }
        w.push(i32_to_bits(self.name_reference.0));
        w.push(self.flags);
        w.push(self.render_method.as_u32());
        w.push(self.rgb_pen);
        w.push(self.brightness);
        w.push(self.scaled_ambient);
        w.push(fragment_ref_word(&self.reference));
        match self.pair {
            Some(x) => {
                w.push(x.0);
                w.push(x.1);
            },
            None => {},
        }
        let mut out: Vec<u8> = Vec::new();
        push_u32s(&mut out, &w);
        proof {
            assert(w@ =~= self.words());
            assert(out@ =~= self.spec_to_bytes());
        }
        out
    }
}

impl Fragment for MaterialDef {
    open spec fn spec_into_bytes(&self) -> Seq<u8> {
        self.spec_to_bytes()
    }

    open spec fn spec_serializable(&self) -> bool {
        true
    }

    fn into_bytes(&self) -> (r: Vec<u8>) {
        self.to_words_bytes()
    }

    fn name_ref(&self) -> (r: &StringReference)
        ensures
            *r == self.name_reference,
    {
        &self.name_reference
    }

    fn type_id(&self) -> (r: u32)
        ensures
            r == 0x30,
    {
        Self::TYPE_ID
    }
}

/// Reading back the words of a well-formed fragment gives the same
/// fragment, whatever follows them.
pub proof fn lemma_material_def_round_trip(f: MaterialDef, tail: Seq<u32>)
    requires
        f.wf(),
    ensures
        MaterialDef::from_words(f.words() + tail) == Some((f, f.words().len())),
{
    lemma_i32_bits(f.name_reference.0);
    lemma_render_method_round_trip(f.render_method);
    lemma_ref_word(f.reference);
    let w = f.words() + tail;
    let g = MaterialDef::from_words(w).unwrap().0;
    assert(MaterialDef::from_words(w) is Some);
    assert(g == f);
}

/// The words of the fragment read from `w` are the words it was read from,
/// and it is well formed.
pub proof fn lemma_material_def_words(w: Seq<u32>)
    requires
        MaterialDef::from_words(w) is Some,
        RenderMethod::is_known(w[2]),
    ensures
        ({
            let (f, n) = MaterialDef::from_words(w).unwrap();
            f.words() == w.take(n as int) && f.wf()
        }),
{
    let (f, n) = MaterialDef::from_words(w).unwrap();
    lemma_bits_i32(w[0]);
    lemma_render_method_value(w[2]);
    let raw = w[2];
    assert((raw >> 11u32) & 0xfffffu32 <= 0xfffffu32) by (bit_vector);
    lemma_word_ref(w[6]);
    assert(f.words() =~= w.take(n as int));
}

} // verus!
