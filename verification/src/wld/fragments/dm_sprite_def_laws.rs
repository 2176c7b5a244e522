//! What the older mesh's stored form and its reading have to do with each
//! other: reading a mesh and writing it again gives back the bytes it was
//! read from.
use vstd::prelude::*;
use crate::bytes::{le_u16, le_u32, u16_at, u32_at, i16_at, i32_at, i16_bits, i32_bits, lemma_u32_bytes,
    lemma_u16_bytes, lemma_bits_i32, lemma_bits_i16, lemma_u32_roundtrip, lemma_u16_roundtrip,
    lemma_u32_field, lemma_u16_field, lemma_i16_bits};
use crate::wld::fragments::{FragmentRef, lemma_fragment_ref_bytes};
use crate::wld::fragments::dm_sprite_def::{DmSpriteDef, DmSpriteDefFaceEntry, DmSpriteDefMeshopEntry,
    sprite_layout, counted_part, counted_wf};
use crate::wld::pieces::{lemma_join, lemma_i32_field, lemma_ref_field, lemma_records_section, lemma_regroup};
use crate::wld::records::{FixedRecord, records_at, records_bytes, counted_end, counted_bytes,
    lemma_records_bytes, lemma_records_bytes_len};

verus! {

/// Where the parts of the mesh stored at the start of `s` begin, written out.
proof fn lemma_sprite_layout(s: Seq<u8>)
    requires
        sprite_layout(s) is Some,
    ensures
        ({
            let o = sprite_layout(s)->Some_0;
            let flags = u32_at(s, 4);
            &&& o.len() == 13
            &&& s.len() >= 68
            &&& o[0] == 68
            &&& o[1] == o[0] + 12 * u32_at(s, 8)
            &&& o[2] == o[1] + 8 * u32_at(s, 12)
            &&& o[3] == o[2] + 12 * u32_at(s, 16)
            &&& o[4] == o[3] + 4 * u32_at(s, 20)
            &&& o[5] == o[4] + 16 * u32_at(s, 24)
            &&& o[6] == o[5] + 12 * u16_at(s, 28)
            &&& o[7] == o[6] + 4 * u32_at(s, 32)
            &&& o[7] <= s.len()
            &&& o[8] == if flags & 0x200 == 0x200 { counted_end::<u32>(s, o[7])->Some_0 } else { o[7] }
            &&& (flags & 0x200 == 0x200 ==> counted_end::<u32>(s, o[7]) is Some)
            &&& o[9] == if flags & 0x800 == 0x800 { counted_end::<(u16, u16)>(s, o[8])->Some_0 } else { o[8] }
            &&& (flags & 0x800 == 0x800 ==> counted_end::<(u16, u16)>(s, o[8]) is Some)
            &&& o[10] == if flags & 0x1000 == 0x1000 { counted_end::<(u16, u16)>(s, o[9])->Some_0 } else { o[9] }
            &&& (flags & 0x1000 == 0x1000 ==> counted_end::<(u16, u16)>(s, o[9]) is Some)
            &&& o[11] == if flags & 0x2000 == 0x2000 { o[10] + 12 } else { o[10] }
            &&& o[12] == if flags & 0x4000 == 0x4000 { o[11] + 24 } else { o[11] }
            &&& o[12] <= s.len()
        }),
{
}

/// The header of a mesh read from `s` is stored as the first 68 bytes of
/// `s`.
#[verifier::spinoff_prover]
#[verifier::rlimit(100)]
proof fn lemma_sprite_header_bytes(s: Seq<u8>, o: Seq<int>, f: DmSpriteDef)
    requires
        s.len() >= 68,
        DmSpriteDef::read_from(s, o, f),
    ensures
        f.spec_header() == s.take(68),
{
    lemma_u32_bytes(s, 0);
    lemma_bits_i32(u32_at(s, 0));
    lemma_u32_bytes(s, 4);
    lemma_u32_bytes(s, 8);
    lemma_u32_bytes(s, 12);
    lemma_u32_bytes(s, 16);
    lemma_u32_bytes(s, 20);
    lemma_u32_bytes(s, 24);
    lemma_u16_bytes(s, 28);
    lemma_u16_bytes(s, 30);
    lemma_bits_i16(u16_at(s, 30));
    lemma_u32_bytes(s, 32);
    lemma_u32_bytes(s, 36);
    lemma_bits_i32(u32_at(s, 36));
    lemma_fragment_ref_bytes(i32_at(s, 36));
    lemma_u32_bytes(s, 40);
    <(u32, u32, u32) as FixedRecord>::lemma_encode_decode(s.skip(44));
    assert(s.skip(44).take(12) =~= s.subrange(44, 56));
    <(u32, u32, u32) as FixedRecord>::lemma_encode_decode(s.skip(56));
    assert(s.skip(56).take(12) =~= s.subrange(56, 68));
    assert(f.spec_header() == s.subrange(0, 4) + s.subrange(4, 8) + s.subrange(8, 12) + s.subrange(12, 16)
        + s.subrange(16, 20) + s.subrange(20, 24) + s.subrange(24, 28) + s.subrange(28, 30) + s.subrange(30, 32)
        + s.subrange(32, 36) + s.subrange(36, 40) + s.subrange(40, 44) + s.subrange(44, 56) + s.subrange(56, 68));
    lemma_join(s, 0, 4, 8);
    lemma_join(s, 0, 8, 12);
    lemma_join(s, 0, 12, 16);
    lemma_join(s, 0, 16, 20);
    lemma_join(s, 0, 20, 24);
    lemma_join(s, 0, 24, 28);
    lemma_join(s, 0, 28, 30);
    lemma_join(s, 0, 30, 32);
    lemma_join(s, 0, 32, 36);
    lemma_join(s, 0, 36, 40);
    lemma_join(s, 0, 40, 44);
    lemma_join(s, 0, 44, 56);
    lemma_join(s, 0, 56, 68);
    assert(s.subrange(0, 68) =~= s.take(68));
}

/// A counted part read from `p` is stored as the bytes it was read from,
/// and its records are well formed.
pub proof fn lemma_counted_part_bytes<T: FixedRecord>(present: bool, s: Seq<u8>, p: int, e: int, c: Option<u32>, v: Option<
    Vec<T>,
>)
    requires
        0 <= p <= e <= s.len(),
        present ==> counted_end::<T>(s, p) == Some(e),
        !present ==> e == p,
        counted_part::<T>(present, s, p, c, v),
    ensures
        counted_bytes(c, v) == s.subrange(p, e),
        v matches Some(x) ==> forall|i: int| 0 <= i < x@.len() ==> (#[trigger] x@[i]).spec_wf(),
{
    if present {
        lemma_u32_bytes(s, p);
        lemma_records_bytes::<T>(s, p + 4, u32_at(s, p) as nat);
        lemma_join(s, p, p + 4, e);
    } else {
        assert(counted_bytes(c, v) =~= s.subrange(p, e));
    }
}

/// The lists of a mesh read from `s` are stored as the bytes from the end
/// of the header to the optional parts.
#[verifier::spinoff_prover]
#[verifier::rlimit(100)]
proof fn lemma_sprite_lists_bytes(s: Seq<u8>, f: DmSpriteDef)
    requires
        sprite_layout(s) is Some,
        DmSpriteDef::read_from(s, sprite_layout(s)->Some_0, f),
    ensures
        f.spec_lists() == s.subrange(68, sprite_layout(s)->Some_0[7]),
{
    let o = sprite_layout(s)->Some_0;
    lemma_sprite_layout(s);
    lemma_records_bytes::<(u32, u32, u32)>(s, o[0], f.vertex_count as nat);
    lemma_records_bytes::<(u32, u32)>(s, o[1], f.texture_coordinate_count as nat);
    lemma_records_bytes::<(u32, u32, u32)>(s, o[2], f.normal_count as nat);
    lemma_records_bytes::<u32>(s, o[3], f.color_count as nat);
    lemma_records_bytes::<DmSpriteDefFaceEntry>(s, o[4], f.face_count as nat);
    lemma_records_bytes::<DmSpriteDefMeshopEntry>(s, o[5], f.meshop_count as nat);
    lemma_records_bytes::<(u16, u16)>(s, o[6], f.skin_assignment_group_count as nat);
    lemma_join(s, o[0], o[1], o[2]);
    lemma_join(s, o[0], o[2], o[3]);
    lemma_join(s, o[0], o[3], o[4]);
    lemma_join(s, o[0], o[4], o[5]);
    lemma_join(s, o[0], o[5], o[6]);
    lemma_join(s, o[0], o[6], o[7]);
}

/// The optional parts of a mesh read from `s` are stored as the bytes from
/// the end of the lists to the end of the mesh.
#[verifier::spinoff_prover]
#[verifier::rlimit(100)]
proof fn lemma_sprite_optional_bytes(s: Seq<u8>, f: DmSpriteDef)
    requires
        sprite_layout(s) is Some,
        DmSpriteDef::read_from(s, sprite_layout(s)->Some_0, f),
    ensures
        f.spec_optional() == s.subrange(sprite_layout(s)->Some_0[7], sprite_layout(s)->Some_0[12]),
{
    let o = sprite_layout(s)->Some_0;
    let flags = u32_at(s, 4);
    lemma_sprite_layout(s);
    lemma_counted_part_bytes::<u32>(flags & 0x200 == 0x200, s, o[7], o[8], f.size8, f.data8);
    lemma_counted_part_bytes::<(u16, u16)>(flags & 0x800 == 0x800, s, o[8], o[9], f.face_material_group_count,
        f.face_material_groups);
    lemma_counted_part_bytes::<(u16, u16)>(flags & 0x1000 == 0x1000, s, o[9], o[10], f.vertex_material_group_count,
        f.vertex_material_groups);
    let p2 = match f.params2 {
        Some(p) => p.spec_encode(),
        None => Seq::empty(),
    };
    if flags & 0x2000 == 0x2000 {
        <(u32, u32, u32) as FixedRecord>::lemma_encode_decode(s.skip(o[10]));
        assert(s.skip(o[10]).take(12) =~= s.subrange(o[10], o[11]));
    } else {
        assert(p2 =~= s.subrange(o[10], o[11]));
    }
    let p3 = match f.params3 {
        Some(p) => p.0.spec_encode() + p.1.spec_encode(),
        None => Seq::empty(),
    };
    if flags & 0x4000 == 0x4000 {
        <(u32, u32, u32) as FixedRecord>::lemma_encode_decode(s.skip(o[11]));
        assert(s.skip(o[11]).take(12) =~= s.subrange(o[11], o[11] + 12));
        <(u32, u32, u32) as FixedRecord>::lemma_encode_decode(s.skip(o[11] + 12));
        assert(s.skip(o[11] + 12).take(12) =~= s.subrange(o[11] + 12, o[12]));
        lemma_join(s, o[11], o[11] + 12, o[12]);
    } else {
        assert(p3 =~= s.subrange(o[11], o[12]));
    }
    assert(f.spec_params() == p2 + p3);
    lemma_join(s, o[10], o[11], o[12]);
    lemma_join(s, o[7], o[8], o[9]);
    lemma_join(s, o[7], o[9], o[10]);
    lemma_join(s, o[7], o[10], o[12]);
}

/// A mesh read from `s` is stored as the bytes it was read from, up to
/// where its layout ends.
pub proof fn lemma_dm_sprite_def_bytes(s: Seq<u8>, f: DmSpriteDef)
    requires
        sprite_layout(s) is Some,
        DmSpriteDef::read_from(s, sprite_layout(s)->Some_0, f),
    ensures
        f.spec_to_bytes() == s.take(sprite_layout(s)->Some_0[12]),
{
    let o = sprite_layout(s)->Some_0;
    lemma_sprite_layout(s);
    lemma_sprite_header_bytes(s, o, f);
    lemma_sprite_lists_bytes(s, f);
    lemma_sprite_optional_bytes(s, f);
    assert(s.take(68) == s.subrange(0, 68));
    lemma_join(s, 0, 68, o[7]);
    lemma_join(s, 0, o[7], o[12]);
    assert(s.subrange(0, o[12]) =~= s.take(o[12]));
}

/// The first header fields of a mesh whose reference is well formed are read
/// back from their stored form, whatever follows it.
#[verifier::spinoff_prover]
#[verifier::rlimit(100)]
proof fn lemma_sprite_fields_read(f: DmSpriteDef, rest: Seq<u8>)
    requires
        f.material_list_ref.wf(),
    ensures
        ({
            let s = f.spec_header_fields() + rest;
            &&& f.spec_header_fields().len() == 44
            &&& i32_at(s, 0) == f.name_reference.0
            &&& u32_at(s, 4) == f.flags
            &&& u32_at(s, 8) == f.vertex_count
            &&& u32_at(s, 12) == f.texture_coordinate_count
            &&& u32_at(s, 16) == f.normal_count
            &&& u32_at(s, 20) == f.color_count
            &&& u32_at(s, 24) == f.face_count
            &&& u16_at(s, 28) == f.meshop_count
            &&& i16_at(s, 30) == f.fragment1
            &&& u32_at(s, 32) == f.skin_assignment_group_count
            &&& FragmentRef::spec_new(i32_at(s, 36)) == f.material_list_ref
            &&& u32_at(s, 40) == f.fragment3
        }),
{
    let s = f.spec_header_fields() + rest;
    lemma_fragment_ref_bytes(0);
    lemma_u32_roundtrip(i32_bits(f.name_reference.0));
    assert(s.subrange(0, 4) =~= f.name_reference.spec_to_bytes());
    lemma_i32_field(s, 0, f.name_reference.0);
    lemma_u32_roundtrip(f.flags);
    assert(s.subrange(4, 8) =~= le_u32(f.flags));
    lemma_u32_field(s, 4, f.flags);
    lemma_u32_roundtrip(f.vertex_count);
    assert(s.subrange(8, 12) =~= le_u32(f.vertex_count));
    lemma_u32_field(s, 8, f.vertex_count);
    lemma_u32_roundtrip(f.texture_coordinate_count);
    assert(s.subrange(12, 16) =~= le_u32(f.texture_coordinate_count));
    lemma_u32_field(s, 12, f.texture_coordinate_count);
    lemma_u32_roundtrip(f.normal_count);
    assert(s.subrange(16, 20) =~= le_u32(f.normal_count));
    lemma_u32_field(s, 16, f.normal_count);
    lemma_u32_roundtrip(f.color_count);
    assert(s.subrange(20, 24) =~= le_u32(f.color_count));
    lemma_u32_field(s, 20, f.color_count);
    lemma_u32_roundtrip(f.face_count);
    assert(s.subrange(24, 28) =~= le_u32(f.face_count));
    lemma_u32_field(s, 24, f.face_count);
    lemma_u16_roundtrip(f.meshop_count);
    assert(s.subrange(28, 30) =~= le_u16(f.meshop_count));
    lemma_u16_field(s, 28, f.meshop_count);
    lemma_u16_roundtrip(i16_bits(f.fragment1));
    assert(s.subrange(30, 32) =~= le_u16(i16_bits(f.fragment1)));
    lemma_u16_field(s, 30, i16_bits(f.fragment1));
    lemma_i16_bits(f.fragment1);
    lemma_u32_roundtrip(f.skin_assignment_group_count);
    assert(s.subrange(32, 36) =~= le_u32(f.skin_assignment_group_count));
    lemma_u32_field(s, 32, f.skin_assignment_group_count);
    assert(s.subrange(36, 40) =~= f.material_list_ref.spec_to_bytes());
    lemma_ref_field(s, 36, f.material_list_ref);
    lemma_u32_roundtrip(f.fragment3);
    assert(s.subrange(40, 44) =~= le_u32(f.fragment3));
    lemma_u32_field(s, 40, f.fragment3);
}

/// A record stored after `pre` is read back from there.
pub proof fn lemma_record_at<T: FixedRecord>(s: Seq<u8>, pre: Seq<u8>, x: T, rest: Seq<u8>)
    requires
        x.spec_wf(),
        s == pre + x.spec_encode() + rest,
    ensures
        T::spec_decode(s.skip(pre.len() as int)) == x,
        x.spec_encode().len() == T::spec_size(),
{
    T::lemma_decode_encode(x, rest);
    assert(s.skip(pre.len() as int) =~= x.spec_encode() + rest);
}

/// An optional count and records stored after `pre` are read back from
/// there, and end where their stored form ends.
pub proof fn lemma_counted_read_back<T: FixedRecord>(present: bool, s: Seq<u8>, pre: Seq<u8>, c: Option<u32>, v: Option<
    Vec<T>,
>, rest: Seq<u8>)
    requires
        counted_wf(present, c, v),
        s == pre + counted_bytes(c, v) + rest,
    ensures
        counted_part::<T>(present, s, pre.len() as int, c, v),
        present ==> counted_end::<T>(s, pre.len() as int) == Some((pre.len() + counted_bytes(c, v).len()) as int),
        !present ==> counted_bytes(c, v).len() == 0,
{
    if present {
        let n = c->Some_0;
        let x = v->Some_0;
        let p = pre.len() as int;
        lemma_u32_roundtrip(n);
        assert(s == pre + le_u32(n) + records_bytes(x@) + rest) by {
            assert(s =~= pre + le_u32(n) + records_bytes(x@) + rest);
        }
        lemma_records_section::<T>(s, pre + le_u32(n), x@, rest);
        assert(s.subrange(p, p + 4) =~= le_u32(n));
        lemma_u32_field(s, p, n);
    } else {
        assert(counted_bytes(c, v) =~= Seq::<u8>::empty());
    }
}

/// Three pieces and what follows them, grouped in the ways the readers of
/// the pieces need.
pub proof fn lemma_three(a: Seq<u8>, b: Seq<u8>, c: Seq<u8>, rest: Seq<u8>)
    ensures
        a + b + c + rest == a + (b + c + rest),
        a + b + c + rest == a + b + (c + rest),
{
    assert(a + b + c + rest =~= a + (b + c + rest));
    assert(a + b + c + rest =~= a + b + (c + rest));
}

/// The header of a mesh whose reference is well formed is read back from its
/// stored form, whatever follows it.
proof fn lemma_sprite_header_read(f: DmSpriteDef, rest: Seq<u8>)
    requires
        f.material_list_ref.wf(),
    ensures
        ({
            let s = f.spec_header() + rest;
            &&& f.spec_header().len() == 68
            &&& i32_at(s, 0) == f.name_reference.0
            &&& u32_at(s, 4) == f.flags
            &&& u32_at(s, 8) == f.vertex_count
            &&& u32_at(s, 12) == f.texture_coordinate_count
            &&& u32_at(s, 16) == f.normal_count
            &&& u32_at(s, 20) == f.color_count
            &&& u32_at(s, 24) == f.face_count
            &&& u16_at(s, 28) == f.meshop_count
            &&& i16_at(s, 30) == f.fragment1
            &&& u32_at(s, 32) == f.skin_assignment_group_count
            &&& FragmentRef::spec_new(i32_at(s, 36)) == f.material_list_ref
            &&& u32_at(s, 40) == f.fragment3
            &&& <(u32, u32, u32) as FixedRecord>::spec_decode(s.skip(44)) == f.center
            &&& <(u32, u32, u32) as FixedRecord>::spec_decode(s.skip(56)) == f.params1
        }),
{
    let s = f.spec_header() + rest;
    let fl = f.spec_header_fields();
    let ce = f.center.spec_encode();
    let pe = f.params1.spec_encode();
    lemma_three(fl, ce, pe, rest);
    lemma_sprite_fields_read(f, ce + pe + rest);
    lemma_record_at::<(u32, u32, u32)>(s, fl, f.center, pe + rest);
    lemma_record_at::<(u32, u32, u32)>(s, fl + ce, f.params1, rest);
}

/// Nine pieces written one after another, grouped to the right after the
/// first.
proof fn lemma_split9(h: Seq<u8>, a: Seq<u8>, b: Seq<u8>, c: Seq<u8>, d: Seq<u8>, e: Seq<u8>, g: Seq<u8>, i: Seq<u8>,
    o: Seq<u8>, rest: Seq<u8>)
    ensures
        h + (a + b + c + d + e + g + i) + o + rest == h + a + (b + (c + (d + (e + (g + (i + (o + rest))))))),
{
    assert(h + (a + b + c + d + e + g + i) + o + rest =~= h + a + (b + (c + (d + (e + (g + (i + (o + rest))))))));
}

/// The vertex lists of a well-formed mesh are read back from their stored
/// form.
#[verifier::spinoff_prover]
#[verifier::rlimit(100)]
proof fn lemma_sprite_vertices_read(s: Seq<u8>, f: DmSpriteDef, tail: Seq<u8>)
    requires
        f.wf(),
        s == f.spec_to_bytes() + tail,
        f.spec_header().len() == 68,
    ensures
        f.vertices@ == records_at::<(u32, u32, u32)>(s, 68int, f.vertex_count as nat),
        f.texture_coordinates@ == records_at::<(u32, u32)>(s, 68int + 12 * f.vertex_count, f.texture_coordinate_count as nat),
        f.vertex_normals@ == records_at::<(u32, u32, u32)>(s, 68int + 12 * f.vertex_count + 8 * f.texture_coordinate_count, f.normal_count as nat),
        f.vertex_colors@ == records_at::<u32>(s, 68int + 12 * f.vertex_count + 8 * f.texture_coordinate_count + 12 * f.normal_count, f.color_count as nat),
{
    let h = f.spec_header();
    let o = f.spec_optional();
    let a = records_bytes(f.vertices@);
    let b = records_bytes(f.texture_coordinates@);
    let c = records_bytes(f.vertex_normals@);
    let d = records_bytes(f.vertex_colors@);
    let e = records_bytes(f.faces@);
    let g = records_bytes(f.meshops@);
    let i = records_bytes(f.skin_assignment_groups@);
    assert(f.spec_lists() == a + b + c + d + e + g + i);
    lemma_split9(h, a, b, c, d, e, g, i, o, tail);
    lemma_regroup(h, a, b, (c + (d + (e + (g + (i + (o + tail)))))));
    lemma_regroup(h + a, b, c, (d + (e + (g + (i + (o + tail))))));
    lemma_regroup(h + a + b, c, d, (e + (g + (i + (o + tail)))));
    lemma_records_section::<(u32, u32, u32)>(s, h, f.vertices@, (b + (c + (d + (e + (g + (i + (o + tail))))))));
    lemma_records_section::<(u32, u32)>(s, h + a, f.texture_coordinates@, (c + (d + (e + (g + (i + (o + tail)))))));
    lemma_records_section::<(u32, u32, u32)>(s, h + a + b, f.vertex_normals@, (d + (e + (g + (i + (o + tail))))));
    lemma_records_section::<u32>(s, h + a + b + c, f.vertex_colors@, (e + (g + (i + (o + tail)))));
}

/// The faces, mesh operations and skin assignment groups of a well-formed
/// mesh are read back from their stored form.
#[verifier::spinoff_prover]
#[verifier::rlimit(100)]
proof fn lemma_sprite_faces_read(s: Seq<u8>, f: DmSpriteDef, tail: Seq<u8>)
    requires
        f.wf(),
        s == f.spec_to_bytes() + tail,
        f.spec_header().len() == 68,
    ensures
        f.faces@ == records_at::<DmSpriteDefFaceEntry>(s, 68int + 12 * f.vertex_count + 8 * f.texture_coordinate_count + 12 * f.normal_count + 4 * f.color_count, f.face_count as nat),
        f.meshops@ == records_at::<DmSpriteDefMeshopEntry>(s, 68int + 12 * f.vertex_count + 8 * f.texture_coordinate_count + 12 * f.normal_count + 4 * f.color_count + 16 * f.face_count, f.meshop_count as nat),
        f.skin_assignment_groups@ == records_at::<(u16, u16)>(s, 68int + 12 * f.vertex_count + 8 * f.texture_coordinate_count + 12 * f.normal_count + 4 * f.color_count + 16 * f.face_count + 12 * f.meshop_count, f.skin_assignment_group_count as nat),
        f.spec_lists().len() == 68int + 12 * f.vertex_count + 8 * f.texture_coordinate_count + 12 * f.normal_count + 4 * f.color_count + 16 * f.face_count + 12 * f.meshop_count + 4 * f.skin_assignment_group_count - 68,
{
    let h = f.spec_header();
    let o = f.spec_optional();
    let a = records_bytes(f.vertices@);
    let b = records_bytes(f.texture_coordinates@);
    let c = records_bytes(f.vertex_normals@);
    let d = records_bytes(f.vertex_colors@);
    let e = records_bytes(f.faces@);
    let g = records_bytes(f.meshops@);
    let i = records_bytes(f.skin_assignment_groups@);
    assert(f.spec_lists() == a + b + c + d + e + g + i);
    lemma_split9(h, a, b, c, d, e, g, i, o, tail);
    lemma_records_bytes_len(f.vertices@);
    lemma_records_bytes_len(f.texture_coordinates@);
    lemma_records_bytes_len(f.vertex_normals@);
    lemma_records_bytes_len(f.vertex_colors@);
    lemma_regroup(h, a, b, (c + (d + (e + (g + (i + (o + tail)))))));
    lemma_regroup(h + a, b, c, (d + (e + (g + (i + (o + tail))))));
    lemma_regroup(h + a + b, c, d, (e + (g + (i + (o + tail)))));
    lemma_regroup(h + a + b + c, d, e, (g + (i + (o + tail))));
    lemma_regroup(h + a + b + c + d, e, g, (i + (o + tail)));
    lemma_regroup(h + a + b + c + d + e, g, i, (o + tail));
    lemma_records_section::<DmSpriteDefFaceEntry>(s, h + a + b + c + d, f.faces@, (g + (i + (o + tail))));
    lemma_records_section::<DmSpriteDefMeshopEntry>(s, h + a + b + c + d + e, f.meshops@, (i + (o + tail)));
    lemma_records_section::<(u16, u16)>(s, h + a + b + c + d + e + g, f.skin_assignment_groups@, (o + tail));
    lemma_records_bytes_len(f.skin_assignment_groups@);
}

/// Five pieces after a first, grouped to the right.
proof fn lemma_split_opt(hl: Seq<u8>, c1: Seq<u8>, c2: Seq<u8>, c3: Seq<u8>, pr: Seq<u8>, tail: Seq<u8>)
    ensures
        hl + (c1 + c2 + c3 + pr) + tail == hl + c1 + (c2 + (c3 + (pr + tail))),
{
    assert(hl + (c1 + c2 + c3 + pr) + tail =~= hl + c1 + (c2 + (c3 + (pr + tail))));
}

/// A piece made of two, and what follows it, regrouped.
pub proof fn lemma_pair(p: Seq<u8>, x: Seq<u8>, y: Seq<u8>, tail: Seq<u8>)
    ensures
        p + (x + y + tail) == p + x + (y + tail),
        p + x + (y + tail) == p + x + y + tail,
{
    assert(p + (x + y + tail) =~= p + x + (y + tail));
    assert(p + x + (y + tail) =~= p + x + y + tail);
}

/// The optional parts of a well-formed mesh are read back from their stored
/// form, after its header and lists.
#[verifier::spinoff_prover]
#[verifier::rlimit(100)]
proof fn lemma_sprite_optional_read(s: Seq<u8>, f: DmSpriteDef, tail: Seq<u8>)
    requires
        f.wf(),
        s == f.spec_to_bytes() + tail,
    ensures
        ({
            let flags = f.flags;
            let q0 = (f.spec_header() + f.spec_lists()).len() as int;
            let q1 = q0 + counted_bytes(f.size8, f.data8).len();
            let q2 = q1 + counted_bytes(f.face_material_group_count, f.face_material_groups).len();
            let q3 = q2 + counted_bytes(f.vertex_material_group_count, f.vertex_material_groups).len();
            let q4 = q3 + if flags & 0x2000 == 0x2000 { 12int } else { 0 };
            let q5 = q4 + if flags & 0x4000 == 0x4000 { 24int } else { 0 };
            &&& counted_part::<u32>(flags & 0x200 == 0x200, s, q0, f.size8, f.data8)
            &&& (flags & 0x200 == 0x200 ==> counted_end::<u32>(s, q0) == Some(q1))
            &&& (flags & 0x200 != 0x200 ==> q1 == q0)
            &&& counted_part::<(u16, u16)>(flags & 0x800 == 0x800, s, q1, f.face_material_group_count,
                f.face_material_groups)
            &&& (flags & 0x800 == 0x800 ==> counted_end::<(u16, u16)>(s, q1) == Some(q2))
            &&& (flags & 0x800 != 0x800 ==> q2 == q1)
            &&& counted_part::<(u16, u16)>(flags & 0x1000 == 0x1000, s, q2, f.vertex_material_group_count,
                f.vertex_material_groups)
            &&& (flags & 0x1000 == 0x1000 ==> counted_end::<(u16, u16)>(s, q2) == Some(q3))
            &&& (flags & 0x1000 != 0x1000 ==> q3 == q2)
            &&& f.params2 == if flags & 0x2000 == 0x2000 {
                Some(<(u32, u32, u32) as FixedRecord>::spec_decode(s.skip(q3)))
            } else {
                None::<(u32, u32, u32)>
            }
            &&& f.params3 == if flags & 0x4000 == 0x4000 {
                Some((<(u32, u32, u32) as FixedRecord>::spec_decode(s.skip(q4)),
                    <(u32, u32, u32) as FixedRecord>::spec_decode(s.skip(q4 + 12))))
            } else {
                None::<((u32, u32, u32), (u32, u32, u32))>
            }
            &&& f.spec_to_bytes().len() == q5
        }),
{
    let flags = f.flags;
    let hl = f.spec_header() + f.spec_lists();
    let c1 = counted_bytes(f.size8, f.data8);
    let c2 = counted_bytes(f.face_material_group_count, f.face_material_groups);
    let c3 = counted_bytes(f.vertex_material_group_count, f.vertex_material_groups);
    let p2 = match f.params2 {
        Some(p) => p.spec_encode(),
        None => Seq::empty(),
    };
    let p3 = match f.params3 {
        Some(p) => p.0.spec_encode() + p.1.spec_encode(),
        None => Seq::empty(),
    };
    let pr = p2 + p3;
    assert(f.spec_params() == pr);
    assert(f.spec_optional() == c1 + c2 + c3 + pr);
    lemma_split_opt(hl, c1, c2, c3, pr, tail);
    lemma_counted_read_back::<u32>(flags & 0x200 == 0x200, s, hl, f.size8, f.data8, c2 + (c3 + (pr + tail)));
    lemma_regroup(hl, c1, c2, c3 + (pr + tail));
    lemma_counted_read_back::<(u16, u16)>(flags & 0x800 == 0x800, s, hl + c1, f.face_material_group_count,
        f.face_material_groups, c3 + (pr + tail));
    lemma_regroup(hl + c1, c2, c3, pr + tail);
    lemma_counted_read_back::<(u16, u16)>(flags & 0x1000 == 0x1000, s, hl + c1 + c2, f.vertex_material_group_count,
        f.vertex_material_groups, pr + tail);
    let pp = hl + c1 + c2 + c3;
    lemma_pair(pp, p2, p3, tail);
    match f.params2 {
        Some(x) => {
            lemma_record_at::<(u32, u32, u32)>(s, pp, x, p3 + tail);
        },
        None => {},
    }
    match f.params3 {
        Some(x) => {
            lemma_pair(pp + p2, x.0.spec_encode(), x.1.spec_encode(), tail);
            lemma_record_at::<(u32, u32, u32)>(s, pp + p2, x.0, x.1.spec_encode() + tail);
            lemma_record_at::<(u32, u32, u32)>(s, pp + p2 + x.0.spec_encode(), x.1, tail);
        },
        None => {},
    }
}

/// The layout of the mesh stored at the start of `s`, when each of its
/// parts is there and the optional ones end where given.
#[verifier::spinoff_prover]
#[verifier::rlimit(100)]
proof fn lemma_sprite_layout_is(s: Seq<u8>, q1: int, q2: int, q3: int)
    requires
        s.len() >= 68,
        ({
            let flags = u32_at(s, 4);
            let q0 = 68 + 12 * u32_at(s, 8) + 8 * u32_at(s, 12) + 12 * u32_at(s, 16) + 4 * u32_at(s, 20) + 16 * u32_at(
                s,
                24,
            ) + 12 * u16_at(s, 28) + 4 * u32_at(s, 32);
            let q4 = q3 + if flags & 0x2000 == 0x2000 { 12int } else { 0 };
            let q5 = q4 + if flags & 0x4000 == 0x4000 { 24int } else { 0 };
            &&& q0 <= s.len()
            &&& (flags & 0x200 == 0x200 ==> counted_end::<u32>(s, q0) == Some(q1))
            &&& (flags & 0x200 != 0x200 ==> q1 == q0)
            &&& (flags & 0x800 == 0x800 ==> counted_end::<(u16, u16)>(s, q1) == Some(q2))
            &&& (flags & 0x800 != 0x800 ==> q2 == q1)
            &&& (flags & 0x1000 == 0x1000 ==> counted_end::<(u16, u16)>(s, q2) == Some(q3))
            &&& (flags & 0x1000 != 0x1000 ==> q3 == q2)
            &&& q5 <= s.len()
        }),
    ensures
        ({
            let flags = u32_at(s, 4);
            let o1 = 68 + 12 * u32_at(s, 8);
            let o2 = o1 + 8 * u32_at(s, 12);
            let o3 = o2 + 12 * u32_at(s, 16);
            let o4 = o3 + 4 * u32_at(s, 20);
            let o5 = o4 + 16 * u32_at(s, 24);
            let o6 = o5 + 12 * u16_at(s, 28);
            let q0 = o6 + 4 * u32_at(s, 32);
            let q4 = q3 + if flags & 0x2000 == 0x2000 { 12int } else { 0 };
            let q5 = q4 + if flags & 0x4000 == 0x4000 { 24int } else { 0 };
            let o = sprite_layout(s)->Some_0;
            &&& sprite_layout(s) is Some
            &&& o[0] == 68
            &&& o[1] == o1
            &&& o[2] == o2
            &&& o[3] == o3
            &&& o[4] == o4
            &&& o[5] == o5
            &&& o[6] == o6
            &&& o[7] == q0
            &&& o[8] == q1
            &&& o[9] == q2
            &&& o[10] == q3
            &&& o[11] == q4
            &&& o[12] == q5
        }),
{
    let flags = u32_at(s, 4);
    let o1 = 68 + 12 * u32_at(s, 8);
    let o2 = o1 + 8 * u32_at(s, 12);
    let o3 = o2 + 12 * u32_at(s, 16);
    let o4 = o3 + 4 * u32_at(s, 20);
    let o5 = o4 + 16 * u32_at(s, 24);
    let o6 = o5 + 12 * u16_at(s, 28);
    let q0 = o6 + 4 * u32_at(s, 32);
    let q4 = q3 + if flags & 0x2000 == 0x2000 { 12int } else { 0 };
    let q5 = q4 + if flags & 0x4000 == 0x4000 { 24int } else { 0 };
    assert(sprite_layout(s) == Some(seq![68int, o1, o2, o3, o4, o5, o6, q0, q1, q2, q3, q4, q5]));
}

/// A well-formed mesh is read back from its stored form, whatever follows
/// it: its layout is found, reading gives the mesh, and the mesh ends where
/// its stored form ends.
#[verifier::spinoff_prover]
#[verifier::rlimit(100)]
pub proof fn lemma_dm_sprite_def_round_trip(f: DmSpriteDef, tail: Seq<u8>)
    requires
        f.wf(),
    ensures
        ({
            let s = f.spec_to_bytes() + tail;
            &&& sprite_layout(s) is Some
            &&& DmSpriteDef::read_from(s, sprite_layout(s)->Some_0, f)
            &&& sprite_layout(s)->Some_0[12] == f.spec_to_bytes().len()
        }),
{
    let s = f.spec_to_bytes() + tail;
    let h = f.spec_header();
    let l = f.spec_lists();
    let o = f.spec_optional();
    lemma_three(h, l, o, tail);
    lemma_sprite_header_read(f, l + o + tail);
    lemma_sprite_vertices_read(s, f, tail);
    lemma_sprite_faces_read(s, f, tail);
    lemma_sprite_optional_read(s, f, tail);
    let q0 = (h + l).len() as int;
    let q1 = q0 + counted_bytes(f.size8, f.data8).len();
    let q2 = q1 + counted_bytes(f.face_material_group_count, f.face_material_groups).len();
    let q3 = q2 + counted_bytes(f.vertex_material_group_count, f.vertex_material_groups).len();
    lemma_sprite_layout_is(s, q1, q2, q3);
}

} // verus!
