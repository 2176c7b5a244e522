//! The particle cloud definition fragment (0x34) and how its particles move.
use vstd::prelude::*;
use crate::bytes::{u32_at, push_u32, i32_bits, bits_to_i32, i32_to_bits, lemma_i32_bits, lemma_bits_i32};
use crate::wld::parse::{u32_field, WResult, WldDocError, rest, too_short, u32s_bytes, push_u32s};
use crate::wld::fragments::light_source::{word_byte, pack_bytes, pack, unpack, lemma_pack_bytes,
    lemma_unpack_bytes};
use crate::wld::words::{words_of, word_list, word_name, word_ref, ref_word, fragment_ref_word,
    lemma_ref_word, lemma_word_ref};
use crate::wld::fragments::{Fragment, FragmentRef, StringReference, too_short_spec};

verus! {

/// How the particles of a cloud move.
#[derive(Debug, Clone, Copy, PartialEq, Eq, Structural)]
pub enum ParticleMovement {
    Sphere,
    Plane,
    Stream,
    NoMovement,
}

impl ParticleMovement {
    /// The movement that the stored value stands for, if any.
    pub open spec fn spec_from(v: u32) -> Option<ParticleMovement> {
        if v == 1 {
            Some(ParticleMovement::Sphere)
        } else if v == 2 {
            Some(ParticleMovement::Plane)
        } else if v == 3 {
            Some(ParticleMovement::Stream)
        } else if v == 4 {
            Some(ParticleMovement::NoMovement)
        } else {
            Option::None
        }
    }

    /// The stored value of the movement.
    pub open spec fn spec_value(&self) -> u32 {
        match self {
            ParticleMovement::Sphere => 1,
            ParticleMovement::Plane => 2,
            ParticleMovement::Stream => 3,
            ParticleMovement::NoMovement => 4,
        }
    }

    pub fn from_u32(v: u32) -> (r: Option<ParticleMovement>)
        ensures
            r == Self::spec_from(v),
    {
        if v == 1 {
            Some(ParticleMovement::Sphere)
        } else if v == 2 {
            Some(ParticleMovement::Plane)
        } else if v == 3 {
            Some(ParticleMovement::Stream)
        } else if v == 4 {
            Some(ParticleMovement::NoMovement)
        } else {
            Option::None
        }
    }

    /// The movement a known value stands for.
    pub fn from_known(v: u32) -> (r: ParticleMovement)
        requires
            Self::spec_from(v) is Some,
        ensures
            Self::spec_from(v) == Some(r),
    {
        if v == 1 {
            ParticleMovement::Sphere
        } else if v == 2 {
            ParticleMovement::Plane
        } else if v == 3 {
            ParticleMovement::Stream
        } else {
            ParticleMovement::NoMovement
        }
    }

    pub fn to_u32(&self) -> (r: u32)
        ensures
            r == self.spec_value(),
    {
        match self {
            ParticleMovement::Sphere => 1,
            ParticleMovement::Plane => 2,
            ParticleMovement::Stream => 3,
            ParticleMovement::NoMovement => 4,
        }
    }

    /// Reads a movement; its value must be one of the four.
    pub fn parse(input: &[u8]) -> (r: WResult<'_, ParticleMovement>)
        requires
            input@.len() >= 4 ==> Self::spec_from(u32_at(input@, 0)) is Some,
        ensures
            input@.len() >= 4 ==> (r matches Ok((rest, m)) && Some(m) == Self::spec_from(u32_at(input@, 0))
                && rest@ == input@.skip(4)),
            input@.len() < 4 ==> r == Err::<(&[u8], ParticleMovement), WldDocError>(too_short_spec(input@)),
    {
        match u32_field(input, 0) {
            Some(v) => Ok((rest(input, 4), Self::from_known(v))),
            Option::None => Err(too_short(input)),
        }
    }

    pub fn to_bytes(self) -> (r: Vec<u8>)
        ensures
            r@ == crate::bytes::le_u32(self.spec_value()),
    {
        let mut out: Vec<u8> = Vec::new();
        push_u32(&mut out, self.to_u32());
        out
    }
}

/// The particle movements and their numbers.
/// Each particle movement is stored as the number the format gives it (listed here
/// variant by variant), reading a stored number gives the particle movement whose number
/// it is, and no other number is read as one.
pub proof fn lemma_particle_movement_codes()
    ensures
        ParticleMovement::Sphere.spec_value() == 1,
        ParticleMovement::Plane.spec_value() == 2,
        ParticleMovement::Stream.spec_value() == 3,
        ParticleMovement::NoMovement.spec_value() == 4,
        forall|v: u32| #[trigger] ParticleMovement::spec_from(v) is Some ==> ParticleMovement::spec_from(v)->Some_0.spec_value() == v,
        forall|t: ParticleMovement| #[trigger] ParticleMovement::spec_from(t.spec_value()) == Some(t),
{
    assert forall|t: ParticleMovement| #[trigger] ParticleMovement::spec_from(t.spec_value()) == Some(t) by {
        match t {
            ParticleMovement::Sphere => {},
            ParticleMovement::Plane => {},
            ParticleMovement::Stream => {},
            ParticleMovement::NoMovement => {},
        }
    }
}

/// The movement held by a known word.
pub open spec fn word_movement(w: u32) -> ParticleMovement {
    ParticleMovement::spec_from(w)->Some_0
}

/// The color held by a word, byte by byte.
pub open spec fn word_color(w: u32) -> (u8, u8, u8, u8) {
    (word_byte(w, 0u32), word_byte(w, 8u32), word_byte(w, 16u32), word_byte(w, 24u32))
}

/// A particle cloud: how particles spawn and move, and the blit sprite they are drawn with.
///
/// **Type ID:** 0x34
#[derive(Debug, Clone, Copy, PartialEq, Eq)]
pub struct ParticleCloudDef {
    pub name_reference: StringReference,
    /// _Unknown_.
    pub unknown_1: u32,
    /// _Unknown_.
    pub unknown_2: u32,
    /// How the particles move.
    pub particle_movement: ParticleMovement,
    pub flags: u32,
    /// How many particles are alive at once.
    pub simultaneous_particles: u32,
    pub unknown_6: u32,
    pub unknown_7: u32,
    pub unknown_8: u32,
    pub unknown_9: u32,
    pub unknown_10: u32,
    /// The bits of the `f32` spawn radius.
    pub spawn_radius: u32,
    /// The bits of the `f32` spawn angle.
    pub spawn_angle: u32,
    /// The lifespan of a particle.
    pub spawn_lifespan: u32,
    /// The bits of the `f32` spawn velocity.
    pub spawn_velocity: u32,
    /// The bits of the `f32` z of the spawn normal.
    pub spawn_normal_z: u32,
    /// The bits of the `f32` x of the spawn normal.
    pub spawn_normal_x: u32,
    /// The bits of the `f32` y of the spawn normal.
    pub spawn_normal_y: u32,
    /// How many particles spawn.
    pub spawn_rate: u32,
    /// The bits of the `f32` scale of a particle.
    pub spawn_scale: u32,
    /// The color, byte by byte.
    pub color: (u8, u8, u8, u8),
    /// The blit sprite definition.
    pub blitsprite: FragmentRef,
}

impl ParticleCloudDef {
    pub const TYPE_ID: u32 = 0x34;

    /// The fragment held by the first 22 words of `w`, if there are that many.
    pub open spec fn from_words(w: Seq<u32>) -> Option<(Self, nat)> {
        if w.len() < 22 {
            None
        } else {
            Some((ParticleCloudDef {
                name_reference: word_name(w[0]),
                unknown_1: w[1],
                unknown_2: w[2],
                particle_movement: word_movement(w[3]),
                flags: w[4],
                simultaneous_particles: w[5],
                unknown_6: w[6],
                unknown_7: w[7],
                unknown_8: w[8],
                unknown_9: w[9],
                unknown_10: w[10],
                spawn_radius: w[11],
                spawn_angle: w[12],
                spawn_lifespan: w[13],
                spawn_velocity: w[14],
                spawn_normal_z: w[15],
                spawn_normal_x: w[16],
                spawn_normal_y: w[17],
                spawn_rate: w[18],
                spawn_scale: w[19],
                color: word_color(w[20]),
                blitsprite: word_ref(w[21]),
            }, 22))
        }
    }

    /// The words of the stored form, one per field.
    pub open spec fn words(&self) -> Seq<u32> {
        seq![i32_bits(self.name_reference.0), self.unknown_1, self.unknown_2, self.particle_movement.spec_value(), self.flags, self.simultaneous_particles, self.unknown_6, self.unknown_7, self.unknown_8, self.unknown_9, self.unknown_10, self.spawn_radius, self.spawn_angle, self.spawn_lifespan, self.spawn_velocity, self.spawn_normal_z, self.spawn_normal_x, self.spawn_normal_y, self.spawn_rate, self.spawn_scale, pack_bytes(self.color.0, self.color.1, self.color.2, self.color.3), ref_word(self.blitsprite)]
    }

    pub open spec fn spec_to_bytes(&self) -> Seq<u8> {
        u32s_bytes(self.words())
    }

    /// Its references are as `FragmentRef::new` makes them.
    pub open spec fn wf(&self) -> bool {
        self.blitsprite.wf()
    }

    /// Reads a particle cloud; its movement must be one of the four.
    pub fn parse(input: &[u8]) -> (r: WResult<'_, ParticleCloudDef>)
        requires
            words_of(input@).len() >= 4 ==> ParticleMovement::spec_from(words_of(input@)[3]) is Some,
        ensures
            match Self::from_words(words_of(input@)) {
                Some((f, n)) => r == Ok::<(&[u8], ParticleCloudDef), WldDocError>((r->Ok_0.0, f)) && r->Ok_0.0@ == input@.skip(4 * n as int),
                None => r == Err::<(&[u8], ParticleCloudDef), WldDocError>(too_short_spec(input@)),
            },
    {
        let w = match word_list(input, 0, 22) {
            Some(w) => w,
            None => return Err(too_short(input)),
        };
        assert(4 * 22 <= input@.len()) by (nonlinear_arith)
            requires
                22 <= input@.len() / 4,
        ;
        let f = ParticleCloudDef {
            name_reference: StringReference::new(bits_to_i32(w[0])),
            unknown_1: w[1],
            unknown_2: w[2],
            particle_movement: ParticleMovement::from_known(w[3]),
            flags: w[4],
            simultaneous_particles: w[5],
            unknown_6: w[6],
            unknown_7: w[7],
            unknown_8: w[8],
            unknown_9: w[9],
            unknown_10: w[10],
            spawn_radius: w[11],
            spawn_angle: w[12],
            spawn_lifespan: w[13],
            spawn_velocity: w[14],
            spawn_normal_z: w[15],
            spawn_normal_x: w[16],
            spawn_normal_y: w[17],
            spawn_rate: w[18],
            spawn_scale: w[19],
            color: unpack(w[20]),
            blitsprite: FragmentRef::new(bits_to_i32(w[21])),
        };
        Ok((rest(input, 88), f))
    }

    pub fn to_bytes(&self) -> (r: Vec<u8>)
        ensures
            r@ == self.spec_to_bytes(),
    {
        let w: Vec<u32> = vec![i32_to_bits(self.name_reference.0), self.unknown_1, self.unknown_2, self.particle_movement.to_u32(), self.flags, self.simultaneous_particles, self.unknown_6, self.unknown_7, self.unknown_8, self.unknown_9, self.unknown_10, self.spawn_radius, self.spawn_angle, self.spawn_lifespan, self.spawn_velocity, self.spawn_normal_z, self.spawn_normal_x, self.spawn_normal_y, self.spawn_rate, self.spawn_scale, pack(self.color.0, self.color.1, self.color.2, self.color.3), fragment_ref_word(&self.blitsprite)];
        let mut out: Vec<u8> = Vec::new();
        push_u32s(&mut out, &w);
        proof {
            assert(w@ =~= self.words());
            assert(out@ =~= self.spec_to_bytes());
        }
        out
    }
}

impl Fragment for ParticleCloudDef {
    open spec fn spec_into_bytes(&self) -> Seq<u8> {
        self.spec_to_bytes()
    }

    open spec fn spec_serializable(&self) -> bool {
        true
    }

    fn into_bytes(&self) -> (r: Vec<u8>) {
        self.to_bytes()
    }

    fn name_ref(&self) -> (r: &StringReference)
        ensures
            *r == self.name_reference,
    {
        &self.name_reference
    }

    fn type_id(&self) -> (r: u32)
        ensures
            r == 0x34,
    {
        Self::TYPE_ID
    }
}

/// Reading back the words of a fragment gives the same fragment, whatever
/// follows them.
pub proof fn lemma_particle_cloud_def_round_trip(f: ParticleCloudDef, tail: Seq<u32>)
    requires
        f.wf(),
    ensures
        ParticleCloudDef::from_words(f.words() + tail) == Some((f, f.words().len())),
        f.words().len() == 22,
{
    lemma_i32_bits(f.name_reference.0);
    lemma_pack_bytes(f.color.0, f.color.1, f.color.2, f.color.3);
    lemma_ref_word(f.blitsprite);
}

/// The words of the fragment read from `w` are the words it was read from.
pub proof fn lemma_particle_cloud_def_words(w: Seq<u32>)
    requires
        w.len() >= 22,
        ParticleMovement::spec_from(w[3]) is Some,
    ensures
        ParticleCloudDef::from_words(w).unwrap().0.words() == w.take(22),
        ParticleCloudDef::from_words(w).unwrap().0.wf(),
{
    lemma_bits_i32(w[0]);
    lemma_unpack_bytes(w[20]);
    lemma_word_ref(w[21]);
    assert(ParticleCloudDef::from_words(w).unwrap().0.words() =~= w.take(22));
}

} // verus!
