//! WLD fragments: the records a WLD file is made of, each parsed from and
//! written back to its bytes.
use vstd::prelude::*;
use crate::bytes::{le_i32, le_u32, u32_at, i32_at, i32_bits, i32_of_bits, push_i32, push_u32, lemma_u32_roundtrip, lemma_u32_bytes, lemma_i32_bits, lemma_bits_i32};
use crate::wld::parse::{WResult, i32_field, rest, too_short};

pub mod common;
pub mod dm_sprite_def;
pub mod dm_sprite_def_laws;
pub mod dm_sprite_def_2;
pub mod dm_sprite_def_2_laws;
pub mod mob_skeleton_piece_track;
pub mod mob_skeleton_piece_track_reference;
pub mod dm_track_def_2;
pub mod bm_info;
pub mod bm_info_rtk;
pub mod default_palette_file;
pub mod region_flag;
pub mod ambient_light;
pub mod global_ambient_light_def;
pub mod dm_rgb_track;
pub mod dm_track;
pub mod mesh_animated_vertices_reference;
pub mod simple_sprite;
pub mod skeleton_track_set_reference;
pub mod blit_sprite_definition;
pub mod directional_light;
pub mod hierarchical_sprite_def;
pub mod light_def;
pub mod light_info;
pub mod model;
pub mod object_location;
pub mod particle_sprite_def;
pub mod polygon_animation_reference;
pub mod region;
pub mod region_laws;
pub mod light;
pub mod particle_sprite;
pub mod blit_sprite;
pub mod material_def;
pub mod light_source;
pub mod particle_cloud_def;
pub mod bsp_tree;
pub mod alternate_mesh;
pub mod alternate_mesh_laws;
pub mod dm_track_def;

verus! {

/// A reference to a string in the file's string table: the negated offset
/// of the string.
#[derive(Debug, Clone, Copy, PartialEq, Eq, Structural)]
pub struct StringReference(pub i32);

impl StringReference {
    pub fn new(idx: i32) -> (r: Self)
        ensures
            r.0 == idx,
    {
        StringReference(idx)
    }

    pub open spec fn spec_to_bytes(&self) -> Seq<u8> {
        le_i32(self.0)
    }

    pub fn parse(input: &[u8]) -> (r: WResult<'_, Self>)
        ensures
            input@.len() >= 4 ==> (r matches Ok((rest, s)) && s.0 == i32_at(input@, 0) && rest@ == input@.skip(4)),
            input@.len() < 4 ==> r == Err::<(&[u8], Self), _>(too_short_spec(input@)),
    {
        match i32_field(input, 0) {
            Some(v) => Ok((rest(input, 4), StringReference(v))),
            None => Err(too_short(input)),
        }
    }

    pub fn into_bytes(&self) -> (r: Vec<u8>)
        ensures
            r@ == self.spec_to_bytes(),
    {
        let mut out = Vec::new();
        push_i32(&mut out, self.0);
        out
    }

    pub fn to_bytes(&self) -> (r: Vec<u8>)
        ensures
            r@ == self.spec_to_bytes(),
    {
        self.into_bytes()
    }
}

/// The error for a record that does not fit in `s`.
pub open spec fn too_short_spec(s: Seq<u8>) -> crate::wld::parse::WldDocError {
    crate::wld::parse::WldDocError::Parse { input_len: s.len() as usize }
}

/// A reference to another fragment: by its (1-based) index when positive,
/// else by name, through a string reference.
#[derive(Debug, Clone, Copy, PartialEq, Eq, Structural)]
pub enum FragmentRef {
    Name(StringReference),
    Index(u32),
}

impl FragmentRef {
    /// The reference that the stored value `idx` stands for.
    pub open spec fn spec_new(idx: i32) -> FragmentRef {
        if idx > 0 {
            FragmentRef::Index(idx as u32)
        } else {
            FragmentRef::Name(StringReference(idx))
        }
    }

    /// References as `new` makes them: an index is positive and at most
    /// `i32::MAX`, a name's value is at most 0.
    pub open spec fn wf(&self) -> bool {
        match self {
            FragmentRef::Index(i) => 0 < *i <= i32::MAX,
            FragmentRef::Name(s) => s.0 <= 0,
        }
    }

    pub open spec fn spec_to_bytes(&self) -> Seq<u8> {
        match self {
            FragmentRef::Name(s) => s.spec_to_bytes(),
            FragmentRef::Index(i) => le_u32(*i),
        }
    }

    pub fn new(idx: i32) -> (r: FragmentRef)
        ensures
            r == Self::spec_new(idx),
    {
        if idx > 0 {
            FragmentRef::Index(idx as u32)
        } else {
            FragmentRef::Name(StringReference::new(idx))
        }
    }

    pub fn parse(input: &[u8]) -> (r: WResult<'_, FragmentRef>)
        ensures
            input@.len() >= 4 ==> (r matches Ok((rest, f)) && f == Self::spec_new(i32_at(input@, 0))
                && rest@ == input@.skip(4)),
            input@.len() < 4 ==> r == Err::<(&[u8], FragmentRef), _>(too_short_spec(input@)),
    {
        match i32_field(input, 0) {
            Some(v) => Ok((rest(input, 4), FragmentRef::new(v))),
            None => Err(too_short(input)),
        }
    }

    pub fn into_bytes(&self) -> (r: Vec<u8>)
        ensures
            r@ == self.spec_to_bytes(),
    {
        match self {
            FragmentRef::Name(s) => s.into_bytes(),
            FragmentRef::Index(i) => {
                let mut out = Vec::new();
                push_u32(&mut out, *i);
                out
            },
        }
    }

    pub fn to_bytes(&self) -> (r: Vec<u8>)
        ensures
            r@ == self.spec_to_bytes(),
    {
        self.into_bytes()
    }
}

/// The stored form of a reference is its value as a little-endian `i32`,
/// whichever variant it is.
pub proof fn lemma_fragment_ref_bytes(idx: i32)
    ensures
        FragmentRef::spec_new(idx).spec_to_bytes() == le_i32(idx),
        FragmentRef::spec_new(idx).wf(),
{
}

/// A well-formed reference is what its stored value stands for.
pub proof fn lemma_fragment_ref_value(f: FragmentRef)
    requires
        f.wf(),
    ensures
        FragmentRef::spec_new(i32_of_bits(match f {
            FragmentRef::Name(s) => i32_bits(s.0),
            FragmentRef::Index(i) => i,
        })) == f,
{
}

/// A name reference, a well-formed fragment reference and a `u32`, written
/// one after another, read back as they were.
pub proof fn lemma_ref_fields(n: StringReference, f: FragmentRef, x: u32, tail: Seq<u8>)
    requires
        f.wf(),
    ensures
        ({
            let s = n.spec_to_bytes() + f.spec_to_bytes() + le_u32(x) + tail;
            &&& StringReference(i32_at(s, 0)) == n
            &&& FragmentRef::spec_new(i32_at(s, 4)) == f
            &&& u32_at(s, 8) == x
            &&& (n.spec_to_bytes() + f.spec_to_bytes() + le_u32(x)).len() == 12
        }),
{
    let s = n.spec_to_bytes() + f.spec_to_bytes() + le_u32(x) + tail;
    lemma_u32_roundtrip(i32_bits(n.0));
    lemma_i32_bits(n.0);
    lemma_u32_roundtrip(x);
    match f {
        FragmentRef::Name(r) => {
            lemma_u32_roundtrip(i32_bits(r.0));
            lemma_i32_bits(r.0);
            assert(u32_at(s, 4) == u32_at(le_u32(i32_bits(r.0)), 0));
        },
        FragmentRef::Index(i) => {
            lemma_u32_roundtrip(i);
            assert(u32_at(s, 4) == u32_at(le_u32(i), 0));
        },
    }
    assert(u32_at(s, 0) == u32_at(le_u32(i32_bits(n.0)), 0));
    assert(u32_at(s, 8) == u32_at(le_u32(x), 0));
}

/// The twelve bytes read as a name reference, a fragment reference and a
/// `u32` are written back as they were.
pub proof fn lemma_ref_fields_bytes(s: Seq<u8>)
    requires
        s.len() >= 12,
    ensures
        StringReference(i32_at(s, 0)).spec_to_bytes() + FragmentRef::spec_new(i32_at(s, 4)).spec_to_bytes()
            + le_u32(u32_at(s, 8)) == s.take(12),
{
    lemma_u32_bytes(s, 0);
    lemma_u32_bytes(s, 4);
    lemma_u32_bytes(s, 8);
    lemma_bits_i32(u32_at(s, 0));
    lemma_bits_i32(u32_at(s, 4));
    lemma_fragment_ref_bytes(i32_at(s, 4));
    assert(StringReference(i32_at(s, 0)).spec_to_bytes() + FragmentRef::spec_new(i32_at(s, 4)).spec_to_bytes()
        + le_u32(u32_at(s, 8)) =~= s.take(12));
}

/// What every fragment offers: its bytes, its name and its type.
pub trait Fragment {
    /// The serialized fragment body.
    spec fn spec_into_bytes(&self) -> Seq<u8>;

    /// Whether the fragment can be serialized (its counts fit their fields).
    spec fn spec_serializable(&self) -> bool;

    fn into_bytes(&self) -> (r: Vec<u8>)
        requires
            self.spec_serializable(),
        ensures
            r@ == self.spec_into_bytes(),
    ;

    /// The reference to the fragment's name.
    fn name_ref(&self) -> (r: &StringReference);

    /// The fragment's type id.
    fn type_id(&self) -> (r: u32);
}

/// The games whose WLD files differ in places.
#[derive(Debug, PartialEq, Eq, Structural)]
pub enum FragmentGame {
    EverQuest,
    Tanarus,
    ReturnToKrondor,
}

} // verus!
