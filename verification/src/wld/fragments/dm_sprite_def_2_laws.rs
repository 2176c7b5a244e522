//! What a mesh's stored form and its reading have to do with each other:
//! reading a mesh and writing it again gives back the bytes it was read
//! from, and a well-formed mesh is read back from its stored form.
use vstd::prelude::*;
use crate::bytes::{le_u16, le_u32, u16_at, u32_at, i32_at, i32_bits, lemma_u32_bytes, lemma_u16_bytes,
    lemma_bits_i32, lemma_u32_field, lemma_u16_field, lemma_u32_roundtrip, lemma_u16_roundtrip};
use crate::wld::fragments::{FragmentRef, lemma_fragment_ref_bytes};
use crate::wld::fragments::dm_sprite_def_2::{triple_bytes, triple_at, DmSpriteDef2, DmSpriteDef2FaceEntry,
    DmSpriteDef2MeshOpEntry, sprite2_offsets, sprite2_fits};
use crate::wld::pieces::{lemma_join, lemma_i32_field, lemma_ref_field, lemma_records_section, lemma_regroup};
use crate::wld::records::{records_at, records_bytes, lemma_records_bytes, lemma_records_bytes_len};

verus! {

/// The name, flags and references of a mesh whose references are well
/// formed are read back from their stored form, whatever follows it.
#[verifier::spinoff_prover]
#[verifier::rlimit(100)]
proof fn lemma_sprite2_refs_read(f: DmSpriteDef2, rest: Seq<u8>)
    requires
        f.material_list_ref.wf(),
        f.animation_ref.wf(),
        f.fragment3.wf(),
        f.fragment4.wf(),
    ensures
        ({
            let s = f.spec_header_refs() + rest;
            &&& f.spec_header_refs().len() == 24
            &&& i32_at(s, 0) == f.name_reference.0
            &&& u32_at(s, 4) == f.flags
            &&& FragmentRef::spec_new(i32_at(s, 8)) == f.material_list_ref
            &&& FragmentRef::spec_new(i32_at(s, 12)) == f.animation_ref
            &&& FragmentRef::spec_new(i32_at(s, 16)) == f.fragment3
            &&& FragmentRef::spec_new(i32_at(s, 20)) == f.fragment4
        }),
{
    let s = f.spec_header_refs() + rest;
    lemma_fragment_ref_bytes(0);
    lemma_u32_roundtrip(i32_bits(f.name_reference.0));
    lemma_u32_roundtrip(f.flags);
    assert(s.subrange(0, 4) =~= f.name_reference.spec_to_bytes());
    lemma_i32_field(s, 0, f.name_reference.0);
    assert(s.subrange(4, 8) =~= le_u32(f.flags));
    lemma_u32_field(s, 4, f.flags);
    assert(s.subrange(8, 12) =~= f.material_list_ref.spec_to_bytes());
    lemma_ref_field(s, 8, f.material_list_ref);
    assert(s.subrange(12, 16) =~= f.animation_ref.spec_to_bytes());
    lemma_ref_field(s, 12, f.animation_ref);
    assert(s.subrange(16, 20) =~= f.fragment3.spec_to_bytes());
    lemma_ref_field(s, 16, f.fragment3);
    assert(s.subrange(20, 24) =~= f.fragment4.spec_to_bytes());
    lemma_ref_field(s, 20, f.fragment4);
}

/// Three values stored one after another are read back, whatever stands
/// before and after them.
#[verifier::spinoff_prover]
proof fn lemma_triple_read(pre: Seq<u8>, t: (u32, u32, u32), rest: Seq<u8>)
    ensures
        ({
            let s = pre + triple_bytes(t) + rest;
            let p = pre.len() as int;
            &&& triple_bytes(t).len() == 12
            &&& u32_at(s, p) == t.0
            &&& u32_at(s, p + 4) == t.1
            &&& u32_at(s, p + 8) == t.2
        }),
{
    let s = pre + triple_bytes(t) + rest;
    let p = pre.len() as int;
    lemma_u32_roundtrip(t.0);
    lemma_u32_roundtrip(t.1);
    lemma_u32_roundtrip(t.2);
    assert(s.subrange(p, p + 4) =~= le_u32(t.0));
    lemma_u32_field(s, p, t.0);
    assert(s.subrange(p + 4, p + 8) =~= le_u32(t.1));
    lemma_u32_field(s, p + 4, t.1);
    assert(s.subrange(p + 8, p + 12) =~= le_u32(t.2));
    lemma_u32_field(s, p + 8, t.2);
}

/// The center, parameters, largest distance and bounding box of a mesh are
/// read back from their stored form, after the first 24 bytes.
proof fn lemma_sprite2_shape_read(f: DmSpriteDef2, pre: Seq<u8>, rest: Seq<u8>)
    requires
        pre.len() == 24,
    ensures
        ({
            let s = pre + f.spec_header_shape() + rest;
            &&& f.spec_header_shape().len() == 52
            &&& triple_at(s, 24) == f.center
            &&& triple_at(s, 36) == f.params2
            &&& u32_at(s, 48) == f.max_distance
            &&& triple_at(s, 52) == f.min
            &&& triple_at(s, 64) == f.max
        }),
{
    let s = pre + f.spec_header_shape() + rest;
    let c = triple_bytes(f.center);
    let q = triple_bytes(f.params2);
    let d = le_u32(f.max_distance);
    let lo = triple_bytes(f.min);
    let hi = triple_bytes(f.max);
    lemma_u32_roundtrip(f.max_distance);
    assert(s == pre + c + (q + d + lo + hi + rest)) by {
        assert(s =~= pre + c + (q + d + lo + hi + rest));
    }
    lemma_triple_read(pre, f.center, q + d + lo + hi + rest);
    assert(s == pre + c + q + (d + lo + hi + rest)) by {
        assert(s =~= pre + c + q + (d + lo + hi + rest));
    }
    lemma_triple_read(pre + c, f.params2, d + lo + hi + rest);
    assert(s.subrange(48, 52) =~= d);
    lemma_u32_field(s, 48, f.max_distance);
    assert(s == pre + c + q + d + lo + (hi + rest)) by {
        assert(s =~= pre + c + q + d + lo + (hi + rest));
    }
    lemma_triple_read(pre + c + q + d, f.min, hi + rest);
    lemma_triple_read(pre + c + q + d + lo, f.max, rest);
}

/// The counts and scale of a mesh are read back from their stored form,
/// after the first 76 bytes.
#[verifier::spinoff_prover]
#[verifier::rlimit(100)]
proof fn lemma_sprite2_counts_read(f: DmSpriteDef2, pre: Seq<u8>, rest: Seq<u8>)
    requires
        pre.len() == 76,
    ensures
        ({
            let s = pre + f.spec_header_counts() + rest;
            &&& f.spec_header_counts().len() == 20
            &&& u16_at(s, 76) == f.position_count
            &&& u16_at(s, 78) == f.texture_coordinate_count
            &&& u16_at(s, 80) == f.normal_count
            &&& u16_at(s, 82) == f.color_count
            &&& u16_at(s, 84) == f.face_count
            &&& u16_at(s, 86) == f.skin_assignment_groups_count
            &&& u16_at(s, 88) == f.face_material_groups_count
            &&& u16_at(s, 90) == f.vertex_material_groups_count
            &&& u16_at(s, 92) == f.meshop_count
            &&& u16_at(s, 94) == f.scale
        }),
{
    let s = pre + f.spec_header_counts() + rest;
    lemma_fragment_ref_bytes(0);
    lemma_u16_roundtrip(f.position_count);
    lemma_u16_roundtrip(f.texture_coordinate_count);
    lemma_u16_roundtrip(f.normal_count);
    lemma_u16_roundtrip(f.color_count);
    lemma_u16_roundtrip(f.face_count);
    lemma_u16_roundtrip(f.skin_assignment_groups_count);
    lemma_u16_roundtrip(f.face_material_groups_count);
    lemma_u16_roundtrip(f.vertex_material_groups_count);
    lemma_u16_roundtrip(f.meshop_count);
    lemma_u16_roundtrip(f.scale);
    assert(s.subrange(76, 78) =~= le_u16(f.position_count));
    lemma_u16_field(s, 76, f.position_count);
    assert(s.subrange(78, 80) =~= le_u16(f.texture_coordinate_count));
    lemma_u16_field(s, 78, f.texture_coordinate_count);
    assert(s.subrange(80, 82) =~= le_u16(f.normal_count));
    lemma_u16_field(s, 80, f.normal_count);
    assert(s.subrange(82, 84) =~= le_u16(f.color_count));
    lemma_u16_field(s, 82, f.color_count);
    assert(s.subrange(84, 86) =~= le_u16(f.face_count));
    lemma_u16_field(s, 84, f.face_count);
    assert(s.subrange(86, 88) =~= le_u16(f.skin_assignment_groups_count));
    lemma_u16_field(s, 86, f.skin_assignment_groups_count);
    assert(s.subrange(88, 90) =~= le_u16(f.face_material_groups_count));
    lemma_u16_field(s, 88, f.face_material_groups_count);
    assert(s.subrange(90, 92) =~= le_u16(f.vertex_material_groups_count));
    lemma_u16_field(s, 90, f.vertex_material_groups_count);
    assert(s.subrange(92, 94) =~= le_u16(f.meshop_count));
    lemma_u16_field(s, 92, f.meshop_count);
    assert(s.subrange(94, 96) =~= le_u16(f.scale));
    lemma_u16_field(s, 94, f.scale);
}

/// Three pieces and what follows them, grouped in the ways the readers of
/// the pieces need.
proof fn lemma_three(a: Seq<u8>, b: Seq<u8>, c: Seq<u8>, rest: Seq<u8>)
    ensures
        a + b + c + rest == a + (b + c + rest),
        a + b + c + rest == a + b + (c + rest),
{
    assert(a + b + c + rest =~= a + (b + c + rest));
    assert(a + b + c + rest =~= a + b + (c + rest));
}

/// The header of a mesh whose references are well formed is read back from
/// its stored form, whatever follows it.
proof fn lemma_sprite2_header_read(f: DmSpriteDef2, rest: Seq<u8>)
    requires
        f.material_list_ref.wf(),
        f.animation_ref.wf(),
        f.fragment3.wf(),
        f.fragment4.wf(),
    ensures
        ({
            let s = f.spec_header() + rest;
            &&& f.spec_header().len() == 96
            &&& i32_at(s, 0) == f.name_reference.0
            &&& u32_at(s, 4) == f.flags
            &&& FragmentRef::spec_new(i32_at(s, 8)) == f.material_list_ref
            &&& FragmentRef::spec_new(i32_at(s, 12)) == f.animation_ref
            &&& FragmentRef::spec_new(i32_at(s, 16)) == f.fragment3
            &&& FragmentRef::spec_new(i32_at(s, 20)) == f.fragment4
            &&& triple_at(s, 24) == f.center
            &&& triple_at(s, 36) == f.params2
            &&& u32_at(s, 48) == f.max_distance
            &&& triple_at(s, 52) == f.min
            &&& triple_at(s, 64) == f.max
            &&& u16_at(s, 76) == f.position_count
            &&& u16_at(s, 78) == f.texture_coordinate_count
            &&& u16_at(s, 80) == f.normal_count
            &&& u16_at(s, 82) == f.color_count
            &&& u16_at(s, 84) == f.face_count
            &&& u16_at(s, 86) == f.skin_assignment_groups_count
            &&& u16_at(s, 88) == f.face_material_groups_count
            &&& u16_at(s, 90) == f.vertex_material_groups_count
            &&& u16_at(s, 92) == f.meshop_count
            &&& u16_at(s, 94) == f.scale
        }),
{
    let r = f.spec_header_refs();
    let g = f.spec_header_shape();
    let c = f.spec_header_counts();
    lemma_three(r, g, c, rest);
    lemma_sprite2_refs_read(f, g + c + rest);
    lemma_sprite2_shape_read(f, r, c + rest);
    lemma_sprite2_counts_read(f, r + g, rest);
}

/// The header of a DmSpriteDef2 read from `s` is stored as the first 96 bytes of
/// `s`.
#[verifier::spinoff_prover]
#[verifier::rlimit(100)]
proof fn lemma_sprite2_header_bytes(s: Seq<u8>, f: DmSpriteDef2)
    requires
        s.len() >= 96,
        DmSpriteDef2::read_from(s, f),
    ensures
        f.spec_header() == s.take(96),
{
    lemma_u32_bytes(s, 0);
    lemma_bits_i32(u32_at(s, 0));
    lemma_u32_bytes(s, 4);
    lemma_u32_bytes(s, 8);
    lemma_bits_i32(u32_at(s, 8));
    lemma_fragment_ref_bytes(i32_at(s, 8));
    lemma_u32_bytes(s, 12);
    lemma_bits_i32(u32_at(s, 12));
    lemma_fragment_ref_bytes(i32_at(s, 12));
    lemma_u32_bytes(s, 16);
    lemma_bits_i32(u32_at(s, 16));
    lemma_fragment_ref_bytes(i32_at(s, 16));
    lemma_u32_bytes(s, 20);
    lemma_bits_i32(u32_at(s, 20));
    lemma_fragment_ref_bytes(i32_at(s, 20));
    lemma_u32_bytes(s, 24);
    lemma_u32_bytes(s, 28);
    lemma_u32_bytes(s, 32);
    lemma_u32_bytes(s, 36);
    lemma_u32_bytes(s, 40);
    lemma_u32_bytes(s, 44);
    lemma_u32_bytes(s, 48);
    lemma_u32_bytes(s, 52);
    lemma_u32_bytes(s, 56);
    lemma_u32_bytes(s, 60);
    lemma_u32_bytes(s, 64);
    lemma_u32_bytes(s, 68);
    lemma_u32_bytes(s, 72);
    lemma_u16_bytes(s, 76);
    lemma_u16_bytes(s, 78);
    lemma_u16_bytes(s, 80);
    lemma_u16_bytes(s, 82);
    lemma_u16_bytes(s, 84);
    lemma_u16_bytes(s, 86);
    lemma_u16_bytes(s, 88);
    lemma_u16_bytes(s, 90);
    lemma_u16_bytes(s, 92);
    lemma_u16_bytes(s, 94);
    assert(f.spec_header() == s.subrange(0, 4) + s.subrange(4, 8) + s.subrange(8, 12) + s.subrange(12, 16) + s.subrange(16, 20) + s.subrange(20, 24) + s.subrange(24, 28) + s.subrange(28, 32) + s.subrange(32, 36) + s.subrange(36, 40) + s.subrange(40, 44) + s.subrange(44, 48) + s.subrange(48, 52) + s.subrange(52, 56) + s.subrange(56, 60) + s.subrange(60, 64) + s.subrange(64, 68) + s.subrange(68, 72) + s.subrange(72, 76) + s.subrange(76, 78) + s.subrange(78, 80) + s.subrange(80, 82) + s.subrange(82, 84) + s.subrange(84, 86) + s.subrange(86, 88) + s.subrange(88, 90) + s.subrange(90, 92) + s.subrange(92, 94) + s.subrange(94, 96));
    lemma_join(s, 0, 4, 8);
    lemma_join(s, 0, 8, 12);
    lemma_join(s, 0, 12, 16);
    lemma_join(s, 0, 16, 20);
    lemma_join(s, 0, 20, 24);
    lemma_join(s, 0, 24, 28);
    lemma_join(s, 0, 28, 32);
    lemma_join(s, 0, 32, 36);
    lemma_join(s, 0, 36, 40);
    lemma_join(s, 0, 40, 44);
    lemma_join(s, 0, 44, 48);
    lemma_join(s, 0, 48, 52);
    lemma_join(s, 0, 52, 56);
    lemma_join(s, 0, 56, 60);
    lemma_join(s, 0, 60, 64);
    lemma_join(s, 0, 64, 68);
    lemma_join(s, 0, 68, 72);
    lemma_join(s, 0, 72, 76);
    lemma_join(s, 0, 76, 78);
    lemma_join(s, 0, 78, 80);
    lemma_join(s, 0, 80, 82);
    lemma_join(s, 0, 82, 84);
    lemma_join(s, 0, 84, 86);
    lemma_join(s, 0, 86, 88);
    lemma_join(s, 0, 88, 90);
    lemma_join(s, 0, 90, 92);
    lemma_join(s, 0, 92, 94);
    lemma_join(s, 0, 94, 96);
    assert(s.subrange(0, 96) =~= s.take(96));
}

/// A mesh read from `s` is well formed, and writing it gives back the bytes
/// it was read from (the padding after it aside).
#[verifier::spinoff_prover]
#[verifier::rlimit(100)]
pub proof fn lemma_dm_sprite_def_2_bytes(s: Seq<u8>, f: DmSpriteDef2)
    requires
        sprite2_fits(s),
        DmSpriteDef2::read_from(s, f),
    ensures
        f.wf(),
        f.spec_body() == s.take(sprite2_offsets(s)[9]),
{
    let o = sprite2_offsets(s);
    lemma_sprite2_header_bytes(s, f);
    lemma_fragment_ref_bytes(i32_at(s, 8));
    lemma_fragment_ref_bytes(i32_at(s, 12));
    lemma_fragment_ref_bytes(i32_at(s, 16));
    lemma_fragment_ref_bytes(i32_at(s, 20));
    lemma_records_bytes::<(i16, i16, i16)>(s, o[0], f.position_count as nat);
    lemma_records_bytes::<(i16, i16)>(s, o[1], f.texture_coordinate_count as nat);
    lemma_records_bytes::<(i8, i8, i8)>(s, o[2], f.normal_count as nat);
    lemma_records_bytes::<u32>(s, o[3], f.color_count as nat);
    lemma_records_bytes::<DmSpriteDef2FaceEntry>(s, o[4], f.face_count as nat);
    lemma_records_bytes::<(u16, u16)>(s, o[5], f.skin_assignment_groups_count as nat);
    lemma_records_bytes::<(u16, u16)>(s, o[6], f.face_material_groups_count as nat);
    lemma_records_bytes::<(u16, u16)>(s, o[7], f.vertex_material_groups_count as nat);
    lemma_records_bytes::<DmSpriteDef2MeshOpEntry>(s, o[8], f.meshop_count as nat);
    lemma_join(s, 0, o[0], o[1]);
    lemma_join(s, 0, o[1], o[2]);
    lemma_join(s, 0, o[2], o[3]);
    lemma_join(s, 0, o[3], o[4]);
    lemma_join(s, 0, o[4], o[5]);
    lemma_join(s, 0, o[5], o[6]);
    lemma_join(s, 0, o[6], o[7]);
    lemma_join(s, 0, o[7], o[8]);
    lemma_join(s, 0, o[8], o[9]);
    assert(s.subrange(0, 96) == s.take(96));
    assert(s.subrange(0, o[9]) == s.take(o[9]));
}

/// Eleven pieces written one after another, grouped to the right after the
/// first.
proof fn lemma_split11(h: Seq<u8>, a: Seq<u8>, b: Seq<u8>, c: Seq<u8>, d: Seq<u8>, e: Seq<u8>, g: Seq<u8>,
    i: Seq<u8>, j: Seq<u8>, o: Seq<u8>, rest: Seq<u8>)
    ensures
        h + (a + b + c + d + e + g + i + j) + o + rest == h + a + (b + (c + (d + (e + (g + (i + (j + (o
            + rest)))))))),
        h + (a + b + c + d + e + g + i + j) + o + rest == h + (a + b + c + d + e + g + i + j + o + rest),
{
    assert(h + (a + b + c + d + e + g + i + j) + o + rest =~= h + a + (b + (c + (d + (e + (g + (i + (j + (o
        + rest)))))))));
    assert(h + (a + b + c + d + e + g + i + j) + o + rest =~= h + (a + b + c + d + e + g + i + j + o + rest));
}

/// The counts of a mesh, as stored in the header at the start of `s`.
spec fn sprite2_counts_hold(s: Seq<u8>, f: DmSpriteDef2) -> bool {
    &&& u16_at(s, 76) == f.position_count
    &&& u16_at(s, 78) == f.texture_coordinate_count
    &&& u16_at(s, 80) == f.normal_count
    &&& u16_at(s, 82) == f.color_count
    &&& u16_at(s, 84) == f.face_count
    &&& u16_at(s, 86) == f.skin_assignment_groups_count
    &&& u16_at(s, 88) == f.face_material_groups_count
    &&& u16_at(s, 90) == f.vertex_material_groups_count
    &&& u16_at(s, 92) == f.meshop_count
}

/// Where the lists of the mesh stored at the start of `s` begin, written
/// out.
proof fn lemma_sprite2_offsets(s: Seq<u8>)
    ensures
        sprite2_offsets(s)[0] == 96,
        sprite2_offsets(s)[1] == 96 + 6 * u16_at(s, 76),
        sprite2_offsets(s)[2] == 96 + 6 * u16_at(s, 76) + 4 * u16_at(s, 78),
        sprite2_offsets(s)[3] == 96 + 6 * u16_at(s, 76) + 4 * u16_at(s, 78) + 3 * u16_at(s, 80),
        sprite2_offsets(s)[4] == 96 + 6 * u16_at(s, 76) + 4 * u16_at(s, 78) + 3 * u16_at(s, 80) + 4 * u16_at(s, 82),
        sprite2_offsets(s)[5] == 96 + 6 * u16_at(s, 76) + 4 * u16_at(s, 78) + 3 * u16_at(s, 80) + 4 * u16_at(s, 82) + 8 * u16_at(s, 84),
        sprite2_offsets(s)[6] == 96 + 6 * u16_at(s, 76) + 4 * u16_at(s, 78) + 3 * u16_at(s, 80) + 4 * u16_at(s, 82) + 8 * u16_at(s, 84) + 4 * u16_at(s, 86),
        sprite2_offsets(s)[7] == 96 + 6 * u16_at(s, 76) + 4 * u16_at(s, 78) + 3 * u16_at(s, 80) + 4 * u16_at(s, 82) + 8 * u16_at(s, 84) + 4 * u16_at(s, 86) + 4 * u16_at(s, 88),
        sprite2_offsets(s)[8] == 96 + 6 * u16_at(s, 76) + 4 * u16_at(s, 78) + 3 * u16_at(s, 80) + 4 * u16_at(s, 82) + 8 * u16_at(s, 84) + 4 * u16_at(s, 86) + 4 * u16_at(s, 88) + 4 * u16_at(s, 90),
        sprite2_offsets(s)[9] == 96 + 6 * u16_at(s, 76) + 4 * u16_at(s, 78) + 3 * u16_at(s, 80) + 4 * u16_at(s, 82) + 8 * u16_at(s, 84) + 4 * u16_at(s, 86) + 4 * u16_at(s, 88) + 4 * u16_at(s, 90) + 6 * u16_at(s, 92),
{
}

/// The vertex lists of a well-formed mesh are read back from where the
/// layout of the mesh puts them.
#[verifier::spinoff_prover]
#[verifier::rlimit(100)]
proof fn lemma_sprite2_vertices_in(s: Seq<u8>, f: DmSpriteDef2, tail: Seq<u8>)
    requires
        f.wf(),
        s == f.spec_body() + tail,
        f.spec_header().len() == 96,
        sprite2_counts_hold(s, f),
    ensures
        f.positions@ == records_at::<(i16, i16, i16)>(s, sprite2_offsets(s)[0], f.position_count as nat),
        f.texture_coordinates@ == records_at::<(i16, i16)>(s, sprite2_offsets(s)[1], f.texture_coordinate_count as nat),
        f.vertex_normals@ == records_at::<(i8, i8, i8)>(s, sprite2_offsets(s)[2], f.normal_count as nat),
        f.vertex_colors@ == records_at::<u32>(s, sprite2_offsets(s)[3], f.color_count as nat),
{
    lemma_sprite2_offsets(s);
    let h = f.spec_header();
    let a = records_bytes(f.positions@);
    let b = records_bytes(f.texture_coordinates@);
    let c = records_bytes(f.vertex_normals@);
    let d = records_bytes(f.vertex_colors@);
    let e = records_bytes(f.faces@);
    let g = records_bytes(f.skin_assignment_groups@);
    let i = records_bytes(f.face_material_groups@);
    let j = records_bytes(f.vertex_material_groups@);
    let o = records_bytes(f.meshops@);
    assert(f.spec_lists() == a + b + c + d + e + g + i + j);
    lemma_split11(h, a, b, c, d, e, g, i, j, o, tail);
    let q8 = o + tail;
    let q7 = j + q8;
    let q6 = i + q7;
    let q5 = g + q6;
    let q4 = e + q5;
    let q3 = d + q4;
    let q2 = c + q3;
    let q1 = b + q2;
    lemma_records_section::<(i16, i16, i16)>(s, h, f.positions@, q1);
    lemma_regroup(h, a, b, q2);
    lemma_records_section::<(i16, i16)>(s, h + a, f.texture_coordinates@, q2);
    lemma_regroup(h + a, b, c, q3);
    lemma_records_section::<(i8, i8, i8)>(s, h + a + b, f.vertex_normals@, q3);
    lemma_regroup(h + a + b, c, d, q4);
    lemma_records_section::<u32>(s, h + a + b + c, f.vertex_colors@, q4);
}

/// The faces and skin assignment groups of a well-formed mesh are read
/// back from where the layout of the mesh puts them.
#[verifier::spinoff_prover]
#[verifier::rlimit(100)]
proof fn lemma_sprite2_faces_in(s: Seq<u8>, f: DmSpriteDef2, tail: Seq<u8>)
    requires
        f.wf(),
        s == f.spec_body() + tail,
        f.spec_header().len() == 96,
        sprite2_counts_hold(s, f),
    ensures
        f.faces@ == records_at::<DmSpriteDef2FaceEntry>(s, sprite2_offsets(s)[4], f.face_count as nat),
        f.skin_assignment_groups@ == records_at::<(u16, u16)>(s, sprite2_offsets(s)[5], f.skin_assignment_groups_count as nat),
{
    lemma_sprite2_offsets(s);
    let h = f.spec_header();
    let a = records_bytes(f.positions@);
    let b = records_bytes(f.texture_coordinates@);
    let c = records_bytes(f.vertex_normals@);
    let d = records_bytes(f.vertex_colors@);
    let e = records_bytes(f.faces@);
    let g = records_bytes(f.skin_assignment_groups@);
    let i = records_bytes(f.face_material_groups@);
    let j = records_bytes(f.vertex_material_groups@);
    let o = records_bytes(f.meshops@);
    assert(f.spec_lists() == a + b + c + d + e + g + i + j);
    lemma_split11(h, a, b, c, d, e, g, i, j, o, tail);
    let q8 = o + tail;
    let q7 = j + q8;
    let q6 = i + q7;
    let q5 = g + q6;
    let q4 = e + q5;
    let q3 = d + q4;
    let q2 = c + q3;
    let q1 = b + q2;
    lemma_records_bytes_len(f.positions@);
    lemma_records_bytes_len(f.texture_coordinates@);
    lemma_records_bytes_len(f.vertex_normals@);
    lemma_records_bytes_len(f.vertex_colors@);
    lemma_regroup(h, a, b, q2);
    lemma_regroup(h + a, b, c, q3);
    lemma_regroup(h + a + b, c, d, q4);
    lemma_regroup(h + a + b + c, d, e, q5);
    lemma_regroup(h + a + b + c + d, e, g, q6);
    lemma_records_section::<DmSpriteDef2FaceEntry>(s, h + a + b + c + d, f.faces@, q5);
    lemma_records_section::<(u16, u16)>(s, h + a + b + c + d + e, f.skin_assignment_groups@, q6);
}

/// The material groups of a well-formed mesh are read back from where the
/// layout of the mesh puts them.
#[verifier::spinoff_prover]
#[verifier::rlimit(100)]
proof fn lemma_sprite2_groups_in(s: Seq<u8>, f: DmSpriteDef2, tail: Seq<u8>)
    requires
        f.wf(),
        s == f.spec_body() + tail,
        f.spec_header().len() == 96,
        sprite2_counts_hold(s, f),
    ensures
        f.face_material_groups@ == records_at::<(u16, u16)>(s, sprite2_offsets(s)[6], f.face_material_groups_count as nat),
        f.vertex_material_groups@ == records_at::<(u16, u16)>(s, sprite2_offsets(s)[7], f.vertex_material_groups_count as nat),
{
    lemma_sprite2_offsets(s);
    let h = f.spec_header();
    let a = records_bytes(f.positions@);
    let b = records_bytes(f.texture_coordinates@);
    let c = records_bytes(f.vertex_normals@);
    let d = records_bytes(f.vertex_colors@);
    let e = records_bytes(f.faces@);
    let g = records_bytes(f.skin_assignment_groups@);
    let i = records_bytes(f.face_material_groups@);
    let j = records_bytes(f.vertex_material_groups@);
    let o = records_bytes(f.meshops@);
    assert(f.spec_lists() == a + b + c + d + e + g + i + j);
    lemma_split11(h, a, b, c, d, e, g, i, j, o, tail);
    let q8 = o + tail;
    let q7 = j + q8;
    let q6 = i + q7;
    let q5 = g + q6;
    let q4 = e + q5;
    let q3 = d + q4;
    let q2 = c + q3;
    let q1 = b + q2;
    lemma_records_bytes_len(f.positions@);
    lemma_records_bytes_len(f.texture_coordinates@);
    lemma_records_bytes_len(f.vertex_normals@);
    lemma_records_bytes_len(f.vertex_colors@);
    lemma_records_bytes_len(f.faces@);
    lemma_records_bytes_len(f.skin_assignment_groups@);
    lemma_regroup(h, a, b, q2);
    lemma_regroup(h + a, b, c, q3);
    lemma_regroup(h + a + b, c, d, q4);
    lemma_regroup(h + a + b + c, d, e, q5);
    lemma_regroup(h + a + b + c + d, e, g, q6);
    lemma_regroup(h + a + b + c + d + e, g, i, q7);
    lemma_regroup(h + a + b + c + d + e + g, i, j, q8);
    lemma_records_section::<(u16, u16)>(s, h + a + b + c + d + e + g, f.face_material_groups@, q7);
    lemma_records_section::<(u16, u16)>(s, h + a + b + c + d + e + g + i, f.vertex_material_groups@, q8);
}

/// The mesh operations of a well-formed mesh are read back from where the
/// layout of the mesh puts them, and the mesh ends after them.
#[verifier::spinoff_prover]
#[verifier::rlimit(100)]
proof fn lemma_sprite2_ops_in(s: Seq<u8>, f: DmSpriteDef2, tail: Seq<u8>)
    requires
        f.wf(),
        s == f.spec_body() + tail,
        f.spec_header().len() == 96,
        sprite2_counts_hold(s, f),
    ensures
        f.meshops@ == records_at::<DmSpriteDef2MeshOpEntry>(s, sprite2_offsets(s)[8], f.meshop_count as nat),
        sprite2_offsets(s)[9] == f.spec_body().len(),
{
    lemma_sprite2_offsets(s);
    let h = f.spec_header();
    let a = records_bytes(f.positions@);
    let b = records_bytes(f.texture_coordinates@);
    let c = records_bytes(f.vertex_normals@);
    let d = records_bytes(f.vertex_colors@);
    let e = records_bytes(f.faces@);
    let g = records_bytes(f.skin_assignment_groups@);
    let i = records_bytes(f.face_material_groups@);
    let j = records_bytes(f.vertex_material_groups@);
    let o = records_bytes(f.meshops@);
    assert(f.spec_lists() == a + b + c + d + e + g + i + j);
    lemma_split11(h, a, b, c, d, e, g, i, j, o, tail);
    let q8 = o + tail;
    let q7 = j + q8;
    let q6 = i + q7;
    let q5 = g + q6;
    let q4 = e + q5;
    let q3 = d + q4;
    let q2 = c + q3;
    let q1 = b + q2;
    lemma_records_bytes_len(f.positions@);
    lemma_records_bytes_len(f.texture_coordinates@);
    lemma_records_bytes_len(f.vertex_normals@);
    lemma_records_bytes_len(f.vertex_colors@);
    lemma_records_bytes_len(f.faces@);
    lemma_records_bytes_len(f.skin_assignment_groups@);
    lemma_records_bytes_len(f.face_material_groups@);
    lemma_records_bytes_len(f.vertex_material_groups@);
    lemma_regroup(h, a, b, q2);
    lemma_regroup(h + a, b, c, q3);
    lemma_regroup(h + a + b, c, d, q4);
    lemma_regroup(h + a + b + c, d, e, q5);
    lemma_regroup(h + a + b + c + d, e, g, q6);
    lemma_regroup(h + a + b + c + d + e, g, i, q7);
    lemma_regroup(h + a + b + c + d + e + g, i, j, q8);
    lemma_regroup(h + a + b + c + d + e + g + i, j, o, tail);
    lemma_records_section::<DmSpriteDef2MeshOpEntry>(s, h + a + b + c + d + e + g + i + j, f.meshops@, tail);
}

/// A well-formed mesh is read back from its stored form, whatever follows
/// it: the bytes hold all of it, reading gives the mesh, and the mesh ends
/// where its stored form (before padding) ends.
#[verifier::spinoff_prover]
#[verifier::rlimit(100)]
pub proof fn lemma_dm_sprite_def_2_round_trip(f: DmSpriteDef2, tail: Seq<u8>)
    requires
        f.wf(),
    ensures
        ({
            let s = f.spec_body() + tail;
            &&& sprite2_fits(s)
            &&& DmSpriteDef2::read_from(s, f)
            &&& sprite2_offsets(s)[9] == f.spec_body().len()
        }),
{
    let s = f.spec_body() + tail;
    let h = f.spec_header();
    let l = f.spec_lists();
    let o = records_bytes(f.meshops@);
    lemma_three(h, l, o, tail);
    lemma_sprite2_header_read(f, l + o + tail);
    lemma_sprite2_vertices_in(s, f, tail);
    lemma_sprite2_faces_in(s, f, tail);
    lemma_sprite2_groups_in(s, f, tail);
    lemma_sprite2_ops_in(s, f, tail);
}

} // verus!
