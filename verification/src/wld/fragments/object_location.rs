//! The actor instance fragment (0x15) and its flags.
use vstd::prelude::*;
use crate::bytes::{le_u32, u32_at, push_u32, i32_bits, i32_of_bits, bits_to_i32, i32_to_bits, lemma_i32_bits,
    lemma_bits_i32};
use crate::wld::parse::{WResult, u32_field, rest, too_short, WldDocError, u32s_bytes, push_u32s};
use crate::wld::words::{words_of, word_list, word_name, word};
use crate::wld::fragments::common::location::Location;
use crate::wld::fragments::{Fragment, FragmentRef, StringReference, too_short_spec};

verus! {

/// The flags of a placed actor instance.
#[derive(Debug, Clone, Copy, PartialEq, Eq, Structural)]
pub struct ActorInstFlags(pub u32);

impl ActorInstFlags {
    const HAS_CURRENT_ACTION: u32 = 0x01;
    const HAS_LOCATION: u32 = 0x02;
    const HAS_BOUNDING_RADIUS: u32 = 0x04;
    const HAS_SCALE_FACTOR: u32 = 0x08;
    const HAS_SOUND: u32 = 0x10;
    const ACTIVE: u32 = 0x20;
    const SPRITE_VOLUME_ONLY: u32 = 0x80;

    fn parse(input: &[u8]) -> (r: WResult<'_, Self>)
        ensures
            input@.len() >= 4 ==> (r matches Ok((rest, f)) && f.0 == u32_at(input@, 0) && rest@ == input@.skip(4)),
            input@.len() < 4 ==> r is Err,
    {
        match u32_field(input, 0) {
            Some(v) => Ok((rest(input, 4), Self(v))),
            None => Err(too_short(input)),
        }
    }

    fn into_bytes(&self) -> (r: Vec<u8>)
        ensures
            r@ == le_u32(self.0),
    {
        let mut out = Vec::new();
        push_u32(&mut out, self.0);
        out
    }

    /// Whether a current action follows.
    pub fn has_current_action(&self) -> (r: bool)
        ensures
            r == (self.0 & 0x01 == 0x01),
    {
        self.0 & Self::HAS_CURRENT_ACTION == Self::HAS_CURRENT_ACTION
    }

    /// Whether a location follows.
    pub fn has_location(&self) -> (r: bool)
        ensures
            r == (self.0 & 0x02 == 0x02),
    {
        self.0 & Self::HAS_LOCATION == Self::HAS_LOCATION
    }

    /// Whether a bounding radius follows.
    pub fn has_bounding_radius(&self) -> (r: bool)
        ensures
            r == (self.0 & 0x04 == 0x04),
    {
        self.0 & Self::HAS_BOUNDING_RADIUS == Self::HAS_BOUNDING_RADIUS
    }

    /// Whether a scale factor follows.
    pub fn has_scale_factor(&self) -> (r: bool)
        ensures
            r == (self.0 & 0x08 == 0x08),
    {
        self.0 & Self::HAS_SCALE_FACTOR == Self::HAS_SCALE_FACTOR
    }

    /// Whether a sound reference follows.
    pub fn has_sound(&self) -> (r: bool)
        ensures
            r == (self.0 & 0x10 == 0x10),
    {
        self.0 & Self::HAS_SOUND == Self::HAS_SOUND
    }

    /// Whether the instance is active.
    pub fn active(&self) -> (r: bool)
        ensures
            r == (self.0 & 0x20 == 0x20),
    {
        self.0 & Self::ACTIVE == Self::ACTIVE
    }

    /// Whether only the sprite volume is used.
    pub fn sprite_volume_only(&self) -> (r: bool)
        ensures
            r == (self.0 & 0x80 == 0x80),
    {
        self.0 & Self::SPRITE_VOLUME_ONLY == Self::SPRITE_VOLUME_ONLY
    }
}

/// A placed actor instance: which actor definition, where, how large.
///
/// **Type ID:** 0x15
#[derive(Debug, Clone, Copy, PartialEq, Eq, Structural)]
pub struct ObjectLocationFragment {
    pub name_reference: StringReference,
    /// The actor definition, by name.
    pub actor_def_reference: StringReference,
    pub flags: ActorInstFlags,
    /// The collision sphere.
    pub sphere_reference: u32,
    /// There when bit 0 of the flags is set.
    pub current_action: Option<u32>,
    /// There when bit 1 of the flags is set.
    pub location: Option<Location>,
    /// The bits of the `f32` radius; there when bit 2 of the flags is set.
    pub bounding_radius: Option<u32>,
    /// The bits of the `f32` scale; there when bit 3 of the flags is set.
    pub scale_factor: Option<u32>,
    /// There when bit 4 of the flags is set.
    pub sound_name_reference: Option<StringReference>,
    /// Typically 30 in main zone files and 0 for placed objects.
    pub unknown: i32,
}

impl ObjectLocationFragment {
    pub const TYPE_ID: u32 = 0x15;

    /// The fragment held by words `w`, and how many words it takes, if `w` holds it
    /// all: the fields in order, each optional group there when its flag bit is set.
    pub open spec fn from_words(w: Seq<u32>) -> Option<(Self, nat)> {
        if w.len() < 4 {
            None
        } else {
            let flags = w[2];
            let p4: int = 4;
            let has_current_action = flags & 0x01 == 0x01;
            let p5: int = (if has_current_action { p4 + 1 } else { p4 });
            let has_location = flags & 0x02 == 0x02;
            let p6: int = (if has_location { p5 + 7 } else { p5 });
            let has_bounding_radius = flags & 0x04 == 0x04;
            let p7: int = (if has_bounding_radius { p6 + 1 } else { p6 });
            let has_scale_factor = flags & 0x08 == 0x08;
            let p8: int = (if has_scale_factor { p7 + 1 } else { p7 });
            let has_sound_name_reference = flags & 0x10 == 0x10;
            let p9: int = (if has_sound_name_reference { p8 + 1 } else { p8 });
            let end: int = p9 + 1;
            if w.len() < end {
                None
            } else {
                Some((ObjectLocationFragment {
                    name_reference: word_name(w[0]),
                    actor_def_reference: word_name(w[1]),
                    flags: ActorInstFlags(w[2]),
                    sphere_reference: w[3],
                    current_action: if has_current_action { Some(w[p4]) } else { None },
                    location: if has_location { Some(Location { x: w[p5], y: w[p5 + 1], z: w[p5 + 2], rotate_z: w[p5 + 3], rotate_y: w[p5 + 4], rotate_x: w[p5 + 5], unknown: w[p5 + 6] }) } else { None },
                    bounding_radius: if has_bounding_radius { Some(w[p6]) } else { None },
                    scale_factor: if has_scale_factor { Some(w[p7]) } else { None },
                    sound_name_reference: if has_sound_name_reference { Some(word_name(w[p8])) } else { None },
                    unknown: i32_of_bits(w[p9]),
                }, end as nat))
            }
        }
    }

    /// The words of the stored form: the fields in order, each optional group
    /// when it is there.
    pub open spec fn words(&self) -> Seq<u32> {
        seq![i32_bits(self.name_reference.0), i32_bits(self.actor_def_reference.0), self.flags.0, self.sphere_reference]
            + (match self.current_action { Some(x) => seq![x], None => Seq::empty() })
            + (match self.location { Some(x) => seq![x.x, x.y, x.z, x.rotate_z, x.rotate_y, x.rotate_x, x.unknown], None => Seq::empty() })
            + (match self.bounding_radius { Some(x) => seq![x], None => Seq::empty() })
            + (match self.scale_factor { Some(x) => seq![x], None => Seq::empty() })
            + (match self.sound_name_reference { Some(x) => seq![i32_bits(x.0)], None => Seq::empty() })
            + seq![i32_bits(self.unknown)]
    }

    pub open spec fn spec_to_bytes(&self) -> Seq<u8> {
        u32s_bytes(self.words())
    }

    /// Its references are as `FragmentRef::new` makes them, and each optional
    /// group is there exactly when its flag bit is set.
    pub open spec fn wf(&self) -> bool {
        (self.current_action is Some <==> self.flags.0 & 0x01 == 0x01)
        && (self.location is Some <==> self.flags.0 & 0x02 == 0x02)
        && (self.bounding_radius is Some <==> self.flags.0 & 0x04 == 0x04)
        && (self.scale_factor is Some <==> self.flags.0 & 0x08 == 0x08)
        && (self.sound_name_reference is Some <==> self.flags.0 & 0x10 == 0x10)
    }

    pub fn parse(input: &[u8]) -> (r: WResult<'_, ObjectLocationFragment>)
        ensures
            match Self::from_words(words_of(input@)) {
                Some((f, n)) => r == Ok::<(&[u8], ObjectLocationFragment), WldDocError>((r->Ok_0.0, f)) && r->Ok_0.0@ == input@.skip(4 * n as int),
                None => r == Err::<(&[u8], ObjectLocationFragment), WldDocError>(too_short_spec(input@)),
            },
    {
        let ghost w = words_of(input@);
        let head = match word_list(input, 0, 4) {
            Some(v) => v,
            None => return Err(too_short(input)),
        };
        let flags = head[2];
        let mut p: usize = 4;
        let current_action = if flags & 0x01 == 0x01 {
            let x0 = match word(input, p + 0) {
                Some(x) => x,
                None => return Err(too_short(input)),
            };
            p = p + 1;
            Some(x0)
        } else {
            None
        };
        let location = if flags & 0x02 == 0x02 {
            let x0 = match word(input, p + 0) {
                Some(x) => x,
                None => return Err(too_short(input)),
            };
            let x1 = match word(input, p + 1) {
                Some(x) => x,
                None => return Err(too_short(input)),
            };
            let x2 = match word(input, p + 2) {
                Some(x) => x,
                None => return Err(too_short(input)),
            };
            let x3 = match word(input, p + 3) {
                Some(x) => x,
                None => return Err(too_short(input)),
            };
            let x4 = match word(input, p + 4) {
                Some(x) => x,
                None => return Err(too_short(input)),
            };
            let x5 = match word(input, p + 5) {
                Some(x) => x,
                None => return Err(too_short(input)),
            };
            let x6 = match word(input, p + 6) {
                Some(x) => x,
                None => return Err(too_short(input)),
            };
            p = p + 7;
            Some(Location { x: x0, y: x1, z: x2, rotate_z: x3, rotate_y: x4, rotate_x: x5, unknown: x6 })
        } else {
            None
        };
        let bounding_radius = if flags & 0x04 == 0x04 {
            let x0 = match word(input, p + 0) {
                Some(x) => x,
                None => return Err(too_short(input)),
            };
            p = p + 1;
            Some(x0)
        } else {
            None
        };
        let scale_factor = if flags & 0x08 == 0x08 {
            let x0 = match word(input, p + 0) {
                Some(x) => x,
                None => return Err(too_short(input)),
            };
            p = p + 1;
            Some(x0)
        } else {
            None
        };
        let sound_name_reference = if flags & 0x10 == 0x10 {
            let x0 = match word(input, p + 0) {
                Some(x) => x,
                None => return Err(too_short(input)),
            };
            p = p + 1;
            Some(StringReference::new(bits_to_i32(x0)))
        } else {
            None
        };
        let unknown_w = match word(input, p) {
            Some(x) => x,
            None => return Err(too_short(input)),
        };
        p = p + 1;
        assert(4 * p <= input@.len()) by (nonlinear_arith)
            requires
                p <= input@.len() / 4,
        ;
        let f = ObjectLocationFragment {
            name_reference: StringReference::new(bits_to_i32(head[0])),
            actor_def_reference: StringReference::new(bits_to_i32(head[1])),
            flags: ActorInstFlags(head[2]),
            sphere_reference: head[3],
            current_action: current_action,
            location: location,
            bounding_radius: bounding_radius,
            scale_factor: scale_factor,
            sound_name_reference: sound_name_reference,
            unknown: bits_to_i32(unknown_w),
        };
        Ok((rest(input, 4 * p), f))
    }

    fn to_words_bytes(&self) -> (r: Vec<u8>)
        ensures
            r@ == self.spec_to_bytes(),
    {
        let mut w: Vec<u32> = Vec::new();
        let ghost start = w@;
        proof {
            assert(start =~= Seq::<u32>::empty());
        }
        w.push(i32_to_bits(self.name_reference.0));
        w.push(i32_to_bits(self.actor_def_reference.0));
        w.push(self.flags.0);
        w.push(self.sphere_reference);
        match self.current_action {
            Some(x) => {
                w.push(x);
            },
            None => {},
        }
        match self.location {
            Some(x) => {
                w.push(x.x);
                w.push(x.y);
                w.push(x.z);
                w.push(x.rotate_z);
                w.push(x.rotate_y);
                w.push(x.rotate_x);
                w.push(x.unknown);
            },
            None => {},
        }
        match self.bounding_radius {
            Some(x) => {
                w.push(x);
            },
            None => {},
        }
        match self.scale_factor {
            Some(x) => {
                w.push(x);
            },
            None => {},
        }
        match self.sound_name_reference {
            Some(x) => {
                w.push(i32_to_bits(x.0));
            },
            None => {},
        }
        w.push(i32_to_bits(self.unknown));
        let mut out: Vec<u8> = Vec::new();
        push_u32s(&mut out, &w);
        proof {
            assert(w@ =~= self.words());
            assert(out@ =~= self.spec_to_bytes());
        }
        out
    }
}

impl Fragment for ObjectLocationFragment {
    open spec fn spec_into_bytes(&self) -> Seq<u8> {
        self.spec_to_bytes()
    }

    open spec fn spec_serializable(&self) -> bool {
        true
    }

    fn into_bytes(&self) -> (r: Vec<u8>) {
        self.to_words_bytes()
    }

    fn name_ref(&self) -> (r: &StringReference)
        ensures
            *r == self.name_reference,
    {
        &self.name_reference
    }

    fn type_id(&self) -> (r: u32)
        ensures
            r == 0x15,
    {
        Self::TYPE_ID
    }
}

/// Reading back the words of a well-formed fragment gives the same
/// fragment, whatever follows them.
#[verifier::spinoff_prover]
#[verifier::rlimit(50)]
pub proof fn lemma_object_location_round_trip(f: ObjectLocationFragment, tail: Seq<u32>)
    requires
        f.wf(),
    ensures
        ObjectLocationFragment::from_words(f.words() + tail) == Some((f, f.words().len())),
{
    lemma_i32_bits(f.name_reference.0);
    lemma_i32_bits(f.actor_def_reference.0);
    match f.sound_name_reference {
        Some(x) => {
            lemma_i32_bits(x.0);
        },
        None => {},
    }
    lemma_i32_bits(f.unknown);
    let w = f.words() + tail;
    let g = ObjectLocationFragment::from_words(w).unwrap().0;
    assert(ObjectLocationFragment::from_words(w) is Some);
    assert(g == f);
}

/// The words of the fragment read from `w` are the words it was read from,
/// and it is well formed.
pub proof fn lemma_object_location_words(w: Seq<u32>)
    requires
        ObjectLocationFragment::from_words(w) is Some,
    ensures
        ({
            let (f, n) = ObjectLocationFragment::from_words(w).unwrap();
            f.words() == w.take(n as int) && f.wf()
        }),
{
    let (f, n) = ObjectLocationFragment::from_words(w).unwrap();
    lemma_bits_i32(w[0]);
    lemma_bits_i32(w[1]);
    assert(f.words() =~= w.take(n as int));
}

} // verus!
