//! The particle sprite definition fragment (0x0c) and its flags.
use vstd::prelude::*;
use crate::bytes::{le_u32, u32_at, push_u32, i32_bits, bits_to_i32, i32_to_bits, lemma_i32_bits,
    lemma_bits_i32};
use crate::wld::parse::{WResult, u32_field, rest, too_short, WldDocError, u32s_bytes, push_u32s};
use crate::wld::words::{words_of, word, word_list, word_triples, word_name, triples, flat3, opt_word,
    push_words, push_triples, lemma_triples_flat3, lemma_flat3_triples};
use crate::wld::fragments::{Fragment, StringReference, too_short_spec};
use crate::wld::fragments::common::render_info::{RenderMethod, lemma_render_method_round_trip,
    lemma_render_method_value};
use crate::wld::fragments::common::render::{RenderInfo, part_len, render_info_end, render_info_fits,
    render_info_at, lemma_render_info_round_trip, lemma_render_info_words};

verus! {

/// The flags of a particle sprite definition.
#[derive(Debug, Clone, Copy, PartialEq, Eq, Structural)]
pub struct ParticleSpriteDefFlags(pub u32);

impl ParticleSpriteDefFlags {
    const HAS_CENTER_OFFSET: u32 = 0x01;
    const HAS_BOUNDING_RADIUS: u32 = 0x02;

    fn parse(input: &[u8]) -> (r: WResult<'_, Self>)
        ensures
            input@.len() >= 4 ==> (r matches Ok((rest, f)) && f.0 == u32_at(input@, 0) && rest@ == input@.skip(4)),
            input@.len() < 4 ==> r is Err,
    {
        match u32_field(input, 0) {
            Some(v) => Ok((rest(input, 4), Self(v))),
            None => Err(too_short(input)),
        }
    }

    fn into_bytes(&self) -> (r: Vec<u8>)
        ensures
            r@ == le_u32(self.0),
    {
        let mut out = Vec::new();
        push_u32(&mut out, self.0);
        out
    }

    /// Whether a center offset follows.
    pub fn has_center_offset(&self) -> (r: bool)
        ensures
            r == (self.0 & 0x01 == 0x01),
    {
        self.0 & Self::HAS_CENTER_OFFSET == Self::HAS_CENTER_OFFSET
    }

    /// Whether a bounding radius follows.
    pub fn has_bounding_radius(&self) -> (r: bool)
        ensures
            r == (self.0 & 0x02 == 0x02),
    {
        self.0 & Self::HAS_BOUNDING_RADIUS == Self::HAS_BOUNDING_RADIUS
    }
}

/// A particle sprite: its vertices, how it is rendered, and a pen per
/// vertex. Coordinates and the radius are kept as the bits of their `f32`s.
///
/// **Type ID:** 0x0c
#[derive(Debug, PartialEq)]
pub struct ParticleSpriteDef {
    pub name_reference: StringReference,
    /// Bit 0: `center_offset` is there; bit 1: `bounding_radius`.
    pub flags: ParticleSpriteDefFlags,
    pub num_vertices: u32,
    /// _Unknown_.
    pub unknown: u32,
    pub center_offset: Option<(u32, u32, u32)>,
    pub bounding_radius: Option<u32>,
    /// `num_vertices` vertices.
    pub vertices: Vec<(u32, u32, u32)>,
    pub render_method: RenderMethod,
    pub render_info: RenderInfo,
    /// A pen per vertex.
    pub pen: Vec<u32>,
}

/// The words of an optional three-word part.
pub open spec fn opt_triple(o: Option<(u32, u32, u32)>) -> Seq<u32> {
    match o {
        Some(c) => seq![c.0, c.1, c.2],
        None => Seq::empty(),
    }
}

impl ParticleSpriteDef {
    pub const TYPE_ID: u32 = 0x0c;

    /// Where the vertices of the sprite held by `w` begin: after the four
    /// header words and the center offset (three words) and radius that are
    /// there.
    pub open spec fn vertices_at(w: Seq<u32>) -> int {
        4 + part_len(w[1], 0x01, 3) + part_len(w[1], 0x02, 1)
    }

    /// Where the render method of the sprite held by `w` is: after a vertex
    /// (three words) per vertex.
    pub open spec fn method_at(w: Seq<u32>) -> int {
        Self::vertices_at(w) + 3 * w[2]
    }

    /// Where the pens of the sprite held by `w` begin: after the render info
    /// that follows the render method.
    pub open spec fn pens_at(w: Seq<u32>) -> int {
        render_info_end(w, Self::method_at(w) + 1)
    }

    /// How many words the sprite held by `w` takes, if `w` holds it all.
    pub open spec fn size(w: Seq<u32>) -> Option<nat> {
        if w.len() < 4 || w.len() < Self::method_at(w) + 1 || !render_info_fits(w, Self::method_at(w) + 1)
            || w.len() < Self::pens_at(w) + w[2] {
            None
        } else {
            Some((Self::pens_at(w) + w[2]) as nat)
        }
    }

    /// Whether `f` is the sprite held by `w`.
    pub open spec fn read_from(w: Seq<u32>, f: ParticleSpriteDef) -> bool {
        let flags = w[1];
        let n = w[2];
        let m = Self::method_at(w);
        let e = Self::pens_at(w);
        &&& f.name_reference == word_name(w[0])
        &&& f.flags == ParticleSpriteDefFlags(flags)
        &&& f.num_vertices == n
        &&& f.unknown == w[3]
        &&& f.center_offset == if flags & 0x01 == 0x01 { Some((w[4], w[5], w[6])) } else { None }
        &&& f.bounding_radius == if flags & 0x02 == 0x02 { Some(w[4 + part_len(flags, 0x01, 3)]) } else { None }
        &&& f.vertices@ == triples(w.skip(Self::vertices_at(w)), n as nat)
        &&& f.render_method == RenderMethod::spec_from_u32(w[m])
        &&& render_info_at(w, m + 1, f.render_info)
        &&& f.pen@ == w.subrange(e, e + n)
    }

    /// The words of the stored form.
    pub open spec fn words(&self) -> Seq<u32> {
        seq![i32_bits(self.name_reference.0), self.flags.0, self.num_vertices, self.unknown]
            + opt_triple(self.center_offset) + opt_word(self.bounding_radius) + flat3(self.vertices@)
            + seq![self.render_method.spec_as_u32()] + self.render_info.words() + self.pen@
    }

    pub open spec fn spec_to_bytes(&self) -> Seq<u8> {
        u32s_bytes(self.words())
    }

    /// The optional parts are there exactly when their flag bits are set,
    /// there are a vertex and a pen per vertex, and the render method and
    /// info are as they are read.
    pub open spec fn wf(&self) -> bool {
        &&& (self.center_offset is Some <==> self.flags.0 & 0x01 == 0x01)
        &&& (self.bounding_radius is Some <==> self.flags.0 & 0x02 == 0x02)
        &&& self.vertices@.len() == self.num_vertices
        &&& self.pen@.len() == self.num_vertices
        &&& self.render_method.wf()
        &&& self.render_info.wf()
    }

    /// Reads a particle sprite. Its render method must be one that
    /// `RenderMethod` can stand for.
    #[verifier::rlimit(40)]
    pub fn parse(input: &[u8]) -> (r: WResult<'_, ParticleSpriteDef>)
        requires
            words_of(input@).len() >= 4 && words_of(input@).len() >= Self::method_at(words_of(input@)) + 1
                ==> RenderMethod::is_known(words_of(input@)[Self::method_at(words_of(input@))]),
        ensures
            match Self::size(words_of(input@)) {
                Some(n) => r matches Ok((rest, f)) && Self::read_from(words_of(input@), f)
                    && rest@ == input@.skip(4 * n as int),
                None => r == Err::<(&[u8], ParticleSpriteDef), WldDocError>(too_short_spec(input@)),
            },
    {
        let ghost w = words_of(input@);
        let total = input.len() / 4;
        let head = match word_list(input, 0, 4) {
            Some(v) => v,
            None => return Err(too_short(input)),
        };
        let flags = head[1];
        let n = head[2];
        let mut p: usize = 4;
        let center_offset = if flags & 0x01 == 0x01 {
            let v = match word_list(input, 4, 3) {
                Some(v) => v,
                None => return Err(too_short(input)),
            };
            p = 7;
            Some((v[0], v[1], v[2]))
        } else {
            None
        };
        let bounding_radius = if flags & 0x02 == 0x02 {
            let x = match word(input, p) {
                Some(x) => x,
                None => return Err(too_short(input)),
            };
            p = p + 1;
            Some(x)
        } else {
            None
        };
        assert(p == Self::vertices_at(w));
        let vertices = match word_triples(input, p, n) {
            Some(v) => v,
            None => return Err(too_short(input)),
        };
        assert(p + 3 * n <= total);
        p = p + 3 * n as usize;
        let m = match word(input, p) {
            Some(x) => x,
            None => return Err(too_short(input)),
        };
        let render_method = RenderMethod::from_u32(m);
        let (render_info, e) = match RenderInfo::parse_at(input, p + 1) {
            Some(x) => x,
            None => return Err(too_short(input)),
        };
        let pen = match word_list(input, e, n) {
            Some(v) => v,
            None => return Err(too_short(input)),
        };
        assert(e + n <= total);
        let end = e + n as usize;
        assert(4 * end <= input@.len()) by (nonlinear_arith)
            requires
                end <= input@.len() / 4,
        ;
        let f = ParticleSpriteDef {
            name_reference: StringReference::new(bits_to_i32(head[0])),
            flags: ParticleSpriteDefFlags(flags),
            num_vertices: n,
            unknown: head[3],
            center_offset,
            bounding_radius,
            vertices,
            render_method,
            render_info,
            pen,
        };
        Ok((rest(input, 4 * end), f))
    }
}

impl Fragment for ParticleSpriteDef {
    open spec fn spec_into_bytes(&self) -> Seq<u8> {
        self.spec_to_bytes()
    }

    open spec fn spec_serializable(&self) -> bool {
        true
    }

    fn into_bytes(&self) -> (r: Vec<u8>) {
        let mut w: Vec<u32> = vec![i32_to_bits(self.name_reference.0), self.flags.0, self.num_vertices, self.unknown];
        let ghost a = w@;
        match self.center_offset {
            Some(c) => {
                w.push(c.0);
                w.push(c.1);
                w.push(c.2);
            },
            None => {},
        }
        let ghost b = w@;
        match self.bounding_radius {
            Some(x) => w.push(x),
            None => {},
        }
        let ghost c = w@;
        push_triples(&mut w, &self.vertices);
        w.push(self.render_method.as_u32());
        self.render_info.push_words(&mut w);
        push_words(&mut w, &self.pen);
        let mut out: Vec<u8> = Vec::new();
        push_u32s(&mut out, &w);
        proof {
            assert(b =~= a + opt_triple(self.center_offset));
            assert(c =~= b + opt_word(self.bounding_radius));
            assert(w@ =~= self.words());
        }
        out
    }

    fn name_ref(&self) -> (r: &StringReference)
        ensures
            *r == self.name_reference,
    {
        &self.name_reference
    }

    fn type_id(&self) -> (r: u32)
        ensures
            r == 0x0c,
    {
        Self::TYPE_ID
    }
}

/// Reading back the words of a well-formed particle sprite gives the same
/// sprite, whatever follows them.
#[verifier::rlimit(80)]
#[verifier::spinoff_prover]
pub proof fn lemma_particle_sprite_def_round_trip(f: ParticleSpriteDef, tail: Seq<u32>)
    requires
        f.wf(),
    ensures
        ParticleSpriteDef::size(f.words() + tail) == Some(f.words().len()),
        ParticleSpriteDef::read_from(f.words() + tail, f),
{
    lemma_i32_bits(f.name_reference.0);
    lemma_render_method_round_trip(f.render_method);
    let h = seq![i32_bits(f.name_reference.0), f.flags.0, f.num_vertices, f.unknown];
    let c = opt_triple(f.center_offset);
    let b = opt_word(f.bounding_radius);
    let v = flat3(f.vertices@);
    let m = seq![f.render_method.spec_as_u32()];
    let ri = f.render_info.words();
    let w = f.words() + tail;
    lemma_triples_flat3(f.vertices@, m + ri + f.pen@ + tail);
    assert(w =~= h + c + b + v + m + ri + f.pen@ + tail);
    assert(ParticleSpriteDef::vertices_at(w) == (h + c + b).len());
    assert(w.skip(ParticleSpriteDef::vertices_at(w)) =~= v + (m + ri + f.pen@ + tail));
    let mp = ParticleSpriteDef::method_at(w);
    assert(mp == (h + c + b + v).len());
    assert(w[mp] == f.render_method.spec_as_u32());
    lemma_render_info_round_trip(h + c + b + v + m, f.render_info, f.pen@ + tail);
    assert(h + c + b + v + m + ri + (f.pen@ + tail) =~= w);
    let e = ParticleSpriteDef::pens_at(w);
    assert(e == (h + c + b + v + m + ri).len());
    assert(w.subrange(e, e + f.num_vertices) =~= f.pen@);
}

/// The words of the particle sprite read from `w` are the words it was read
/// from, and it is well formed.
#[verifier::rlimit(40)]
pub proof fn lemma_particle_sprite_def_words(w: Seq<u32>, f: ParticleSpriteDef)
    requires
        ParticleSpriteDef::size(w) is Some,
        ParticleSpriteDef::read_from(w, f),
        RenderMethod::is_known(w[ParticleSpriteDef::method_at(w)]),
    ensures
        f.words() == w.take(ParticleSpriteDef::size(w)->0 as int),
        f.wf(),
{
    lemma_bits_i32(w[0]);
    let vp = ParticleSpriteDef::vertices_at(w);
    let mp = ParticleSpriteDef::method_at(w);
    let raw = w[mp];
    lemma_render_method_value(raw);
    assert((raw >> 11u32) & 0xfffffu32 <= 0xfffffu32) by (bit_vector);
    lemma_flat3_triples(w.skip(vp), w[2] as nat);
    assert(w.skip(vp).take(3 * w[2]) =~= w.subrange(vp, mp));
    lemma_render_info_words(w, mp + 1, f.render_info);
    assert(f.words() =~= w.take(ParticleSpriteDef::size(w)->0 as int));
}

} // verus!
