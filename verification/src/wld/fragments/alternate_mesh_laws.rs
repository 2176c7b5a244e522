//! What the alternate mesh's stored form and its reading have to do with
//! each other: reading a mesh whose six extra parameters are absent and
//! writing it again gives back the bytes it was read from.
use vstd::prelude::*;
use crate::bytes::{le_u16, le_u32, u16_at, u32_at, i16_at, i32_at, i16_bits, i32_bits, lemma_u32_bytes,
    lemma_u16_bytes, lemma_bits_i32, lemma_bits_i16, lemma_u32_roundtrip, lemma_u16_roundtrip,
    lemma_u32_field, lemma_u16_field, lemma_i16_bits};
use crate::wld::fragments::alternate_mesh::{AlternateMeshFragment, AlternateMeshFragmentPolygonEntry,
    AlternateMeshFragmentData6Entry, alt_layout, alt_tail_layout, alt_groups_layout};
use crate::wld::fragments::dm_sprite_def::{counted_part};
use crate::wld::fragments::dm_sprite_def_laws::{lemma_counted_part_bytes, lemma_record_at,
    lemma_counted_read_back, lemma_three};
use crate::wld::pieces::{lemma_join, lemma_i32_field, lemma_records_section, lemma_regroup, lemma_shift};
use crate::wld::records::{FixedRecord, records_at, records_bytes, counted_end, counted_bytes,
    lemma_records_bytes, lemma_records_bytes_len};

verus! {

/// Where the parts of the mesh stored at the start of `s` begin, written out.
proof fn lemma_alt_layout(s: Seq<u8>)
    requires
        alt_layout(s) is Some,
    ensures
        ({
            let o = alt_layout(s)->Some_0;
            let flags = u32_at(s, 4);
            &&& o.len() == 15
            &&& s.len() >= 60
            &&& o[0] == 60
            &&& o[1] == o[0] + 12 * u32_at(s, 8)
            &&& o[2] == o[1] + 8 * u32_at(s, 12)
            &&& o[3] == o[2] + 12 * u32_at(s, 16)
            &&& o[4] == o[3] + 4 * u32_at(s, 20)
            &&& o[5] == o[4] + 16 * u32_at(s, 24)
            &&& o[6] == o[5] + 12 * u16_at(s, 28)
            &&& i16_at(s, 30) >= 0
            &&& o[7] == o[6] + 4 * i16_at(s, 30)
            &&& o[7] <= s.len()
            &&& o[8] == if flags & 0x200 == 0x200 { counted_end::<u32>(s, o[7])->Some_0 } else { o[7] }
            &&& (flags & 0x200 == 0x200 ==> counted_end::<u32>(s, o[7]) is Some)
            &&& o[9] == o[8] + 8
            &&& o[10] == if flags & 0x01 == 0x01 { o[9] } else { o[9] + 4 * u32_at(s, 32) }
            &&& o[10] <= s.len()
            &&& o[11] == if flags & 0x800 == 0x800 { counted_end::<(u16, u16)>(s, o[10])->Some_0 } else { o[10] }
            &&& (flags & 0x800 == 0x800 ==> counted_end::<(u16, u16)>(s, o[10]) is Some)
            &&& o[12] == if flags & 0x1000 == 0x1000 { counted_end::<(u16, u16)>(s, o[11])->Some_0 } else { o[11] }
            &&& (flags & 0x1000 == 0x1000 ==> counted_end::<(u16, u16)>(s, o[11]) is Some)
            &&& o[13] == if flags & 0x2000 == 0x2000 { o[12] + 12 } else { o[12] }
            &&& o[14] == if flags & 0x4000 == 0x4000 { o[13] + 24 } else { o[13] }
            &&& o[14] <= s.len()
        }),
{
    let flags = u32_at(s, 4);
    let o7 = 60 + 12 * u32_at(s, 8) + 8 * u32_at(s, 12) + 12 * u32_at(s, 16) + 4 * u32_at(s, 20) + 16 * u32_at(s, 24)
        + 12 * u16_at(s, 28) + 4 * i16_at(s, 30);
    let t = alt_tail_layout(s, o7, flags, u32_at(s, 32));
    assert(t is Some);
    let g = alt_groups_layout(s, o7, flags, u32_at(s, 32));
    assert(g is Some);
}

/// The header of a mesh read from `s` is stored as the first 60 bytes of
/// `s`.
#[verifier::spinoff_prover]
#[verifier::rlimit(100)]
proof fn lemma_alt_header_bytes(s: Seq<u8>, o: Seq<int>, f: AlternateMeshFragment)
    requires
        s.len() >= 60,
        AlternateMeshFragment::read_from(s, o, f),
    ensures
        f.spec_header() == s.take(60),
{
    lemma_u32_bytes(s, 0);
    lemma_bits_i32(u32_at(s, 0));
    lemma_u32_bytes(s, 4);
    lemma_u32_bytes(s, 8);
    lemma_u32_bytes(s, 12);
    lemma_u32_bytes(s, 16);
    lemma_u32_bytes(s, 20);
    lemma_u32_bytes(s, 24);
    lemma_u16_bytes(s, 28);
    lemma_u16_bytes(s, 30);
    lemma_bits_i16(u16_at(s, 30));
    lemma_u32_bytes(s, 32);
    lemma_u32_bytes(s, 36);
    lemma_u32_bytes(s, 40);
    <(u32, u32, u32) as FixedRecord>::lemma_encode_decode(s.skip(44));
    assert(s.skip(44).take(12) =~= s.subrange(44, 56));
    lemma_u32_bytes(s, 56);
    assert(f.spec_header() == s.subrange(0, 4) + s.subrange(4, 8) + s.subrange(8, 12) + s.subrange(12, 16)
        + s.subrange(16, 20) + s.subrange(20, 24) + s.subrange(24, 28) + s.subrange(28, 30) + s.subrange(30, 32)
        + s.subrange(32, 36) + s.subrange(36, 40) + s.subrange(40, 44) + s.subrange(44, 56) + s.subrange(56, 60));
    lemma_join(s, 0, 4, 8);
    lemma_join(s, 0, 8, 12);
    lemma_join(s, 0, 12, 16);
    lemma_join(s, 0, 16, 20);
    lemma_join(s, 0, 20, 24);
    lemma_join(s, 0, 24, 28);
    lemma_join(s, 0, 28, 30);
    lemma_join(s, 0, 30, 32);
    lemma_join(s, 0, 32, 36);
    lemma_join(s, 0, 36, 40);
    lemma_join(s, 0, 40, 44);
    lemma_join(s, 0, 44, 56);
    lemma_join(s, 0, 56, 60);
    assert(s.subrange(0, 60) =~= s.take(60));
}

/// The lists of a mesh read from `s` are stored as the bytes from the end of
/// the header to what follows them.
#[verifier::spinoff_prover]
#[verifier::rlimit(100)]
proof fn lemma_alt_lists_bytes(s: Seq<u8>, f: AlternateMeshFragment)
    requires
        alt_layout(s) is Some,
        AlternateMeshFragment::read_from(s, alt_layout(s)->Some_0, f),
    ensures
        f.spec_lists() == s.subrange(60, alt_layout(s)->Some_0[7]),
{
    let o = alt_layout(s)->Some_0;
    lemma_alt_layout(s);
    lemma_records_bytes::<(u32, u32, u32)>(s, o[0], f.vertex_count as nat);
    lemma_records_bytes::<(u32, u32)>(s, o[1], f.tex_coords_count as nat);
    lemma_records_bytes::<(u32, u32, u32)>(s, o[2], f.normals_count as nat);
    lemma_records_bytes::<u32>(s, o[3], f.size4 as nat);
    lemma_records_bytes::<AlternateMeshFragmentPolygonEntry>(s, o[4], f.polygon_count as nat);
    lemma_records_bytes::<AlternateMeshFragmentData6Entry>(s, o[5], f.size6 as nat);
    lemma_records_bytes::<(u16, u16)>(s, o[6], f.vertex_piece_count as nat);
    lemma_join(s, o[0], o[1], o[2]);
    lemma_join(s, o[0], o[2], o[3]);
    lemma_join(s, o[0], o[3], o[4]);
    lemma_join(s, o[0], o[4], o[5]);
    lemma_join(s, o[0], o[5], o[6]);
    lemma_join(s, o[0], o[6], o[7]);
}

/// What follows the lists of a mesh read from `s`, when its six extra
/// parameters are absent, is stored as the bytes from the end of the lists
/// to the end of the mesh.
#[verifier::spinoff_prover]
#[verifier::rlimit(100)]
proof fn lemma_alt_tail_bytes(s: Seq<u8>, f: AlternateMeshFragment)
    requires
        alt_layout(s) is Some,
        AlternateMeshFragment::read_from(s, alt_layout(s)->Some_0, f),
        u32_at(s, 4) & 0x4000 != 0x4000,
    ensures
        f.spec_tail() == s.subrange(alt_layout(s)->Some_0[7], alt_layout(s)->Some_0[14]),
{
    let o = alt_layout(s)->Some_0;
    let flags = u32_at(s, 4);
    lemma_alt_layout(s);
    lemma_counted_part_bytes::<u32>(flags & 0x200 == 0x200, s, o[7], o[8], f.size8, f.data8);
    lemma_records_bytes::<u16>(s, o[8], 4);
    lemma_records_bytes::<(u16, u16)>(s, o[9], if flags & 0x01 == 0x01 { 0 } else { f.fragment1 as nat });
    lemma_counted_part_bytes::<(u16, u16)>(flags & 0x800 == 0x800, s, o[10], o[11], f.polygontex_count,
        f.polygontex_entries);
    lemma_counted_part_bytes::<(u16, u16)>(flags & 0x1000 == 0x1000, s, o[11], o[12], f.vertex_material_count,
        f.vertex_materials);
    let p3 = match f.params3 {
        Some(p) => p.spec_encode(),
        None => Seq::empty(),
    };
    if flags & 0x2000 == 0x2000 {
        <(u32, u32, u32) as FixedRecord>::lemma_encode_decode(s.skip(o[12]));
        assert(s.skip(o[12]).take(12) =~= s.subrange(o[12], o[13]));
    } else {
        assert(p3 =~= s.subrange(o[12], o[13]));
    }
    lemma_join(s, o[7], o[8], o[9]);
    lemma_join(s, o[7], o[9], o[10]);
    lemma_join(s, o[7], o[10], o[11]);
    lemma_join(s, o[7], o[11], o[12]);
    lemma_join(s, o[7], o[12], o[13]);
}

/// A mesh read from `s` whose six extra parameters (bit 14 of its flags)
/// are absent is stored as the bytes it was read from, up to where its
/// layout ends.
pub proof fn lemma_alternate_mesh_bytes(s: Seq<u8>, f: AlternateMeshFragment)
    requires
        alt_layout(s) is Some,
        AlternateMeshFragment::read_from(s, alt_layout(s)->Some_0, f),
        u32_at(s, 4) & 0x4000 != 0x4000,
    ensures
        f.spec_to_bytes() == s.take(alt_layout(s)->Some_0[14]),
{
    let o = alt_layout(s)->Some_0;
    lemma_alt_layout(s);
    lemma_alt_header_bytes(s, o, f);
    lemma_alt_lists_bytes(s, f);
    lemma_alt_tail_bytes(s, f);
    assert(s.take(60) == s.subrange(0, 60));
    lemma_join(s, 0, 60, o[7]);
    lemma_join(s, 0, o[7], o[14]);
    assert(s.subrange(0, o[14]) =~= s.take(o[14]));
}

/// The first header fields of a mesh are read back from their stored form,
/// whatever follows it.
#[verifier::spinoff_prover]
#[verifier::rlimit(100)]
proof fn lemma_alt_fields_read(f: AlternateMeshFragment, rest: Seq<u8>)
    ensures
        ({
            let s = f.spec_header_fields() + rest;
            &&& f.spec_header_fields().len() == 44
            &&& i32_at(s, 0) == f.name_reference.0
            &&& u32_at(s, 4) == f.flags
            &&& u32_at(s, 8) == f.vertex_count
            &&& u32_at(s, 12) == f.tex_coords_count
            &&& u32_at(s, 16) == f.normals_count
            &&& u32_at(s, 20) == f.size4
            &&& u32_at(s, 24) == f.polygon_count
            &&& u16_at(s, 28) == f.size6
            &&& i16_at(s, 30) == f.vertex_piece_count
            &&& u32_at(s, 32) == f.fragment1
            &&& u32_at(s, 36) == f.fragment2
            &&& u32_at(s, 40) == f.fragment3
        }),
{
    let s = f.spec_header_fields() + rest;
    lemma_u32_roundtrip(i32_bits(f.name_reference.0));
    assert(s.subrange(0, 4) =~= f.name_reference.spec_to_bytes());
    lemma_i32_field(s, 0, f.name_reference.0);
    lemma_u32_roundtrip(f.flags);
    assert(s.subrange(4, 8) =~= le_u32(f.flags));
    lemma_u32_field(s, 4, f.flags);
    lemma_u32_roundtrip(f.vertex_count);
    assert(s.subrange(8, 12) =~= le_u32(f.vertex_count));
    lemma_u32_field(s, 8, f.vertex_count);
    lemma_u32_roundtrip(f.tex_coords_count);
    assert(s.subrange(12, 16) =~= le_u32(f.tex_coords_count));
    lemma_u32_field(s, 12, f.tex_coords_count);
    lemma_u32_roundtrip(f.normals_count);
    assert(s.subrange(16, 20) =~= le_u32(f.normals_count));
    lemma_u32_field(s, 16, f.normals_count);
    lemma_u32_roundtrip(f.size4);
    assert(s.subrange(20, 24) =~= le_u32(f.size4));
    lemma_u32_field(s, 20, f.size4);
    lemma_u32_roundtrip(f.polygon_count);
    assert(s.subrange(24, 28) =~= le_u32(f.polygon_count));
    lemma_u32_field(s, 24, f.polygon_count);
    lemma_u16_roundtrip(f.size6);
    assert(s.subrange(28, 30) =~= le_u16(f.size6));
    lemma_u16_field(s, 28, f.size6);
    lemma_u16_roundtrip(i16_bits(f.vertex_piece_count));
    assert(s.subrange(30, 32) =~= le_u16(i16_bits(f.vertex_piece_count)));
    lemma_u16_field(s, 30, i16_bits(f.vertex_piece_count));
    lemma_i16_bits(f.vertex_piece_count);
    lemma_u32_roundtrip(f.fragment1);
    assert(s.subrange(32, 36) =~= le_u32(f.fragment1));
    lemma_u32_field(s, 32, f.fragment1);
    lemma_u32_roundtrip(f.fragment2);
    assert(s.subrange(36, 40) =~= le_u32(f.fragment2));
    lemma_u32_field(s, 36, f.fragment2);
    lemma_u32_roundtrip(f.fragment3);
    assert(s.subrange(40, 44) =~= le_u32(f.fragment3));
    lemma_u32_field(s, 40, f.fragment3);
}

/// The header of a mesh is read back from its stored form, whatever follows
/// it.
proof fn lemma_alt_header_read(f: AlternateMeshFragment, rest: Seq<u8>)
    ensures
        ({
            let s = f.spec_header() + rest;
            &&& f.spec_header().len() == 60
            &&& i32_at(s, 0) == f.name_reference.0
            &&& u32_at(s, 4) == f.flags
            &&& u32_at(s, 8) == f.vertex_count
            &&& u32_at(s, 12) == f.tex_coords_count
            &&& u32_at(s, 16) == f.normals_count
            &&& u32_at(s, 20) == f.size4
            &&& u32_at(s, 24) == f.polygon_count
            &&& u16_at(s, 28) == f.size6
            &&& i16_at(s, 30) == f.vertex_piece_count
            &&& u32_at(s, 32) == f.fragment1
            &&& u32_at(s, 36) == f.fragment2
            &&& u32_at(s, 40) == f.fragment3
            &&& <(u32, u32, u32) as FixedRecord>::spec_decode(s.skip(44)) == f.center
            &&& u32_at(s, 56) == f.params2
        }),
{
    let s = f.spec_header() + rest;
    let fl = f.spec_header_fields();
    let ce = f.center.spec_encode();
    let pe = le_u32(f.params2);
    lemma_three(fl, ce, pe, rest);
    lemma_alt_fields_read(f, ce + pe + rest);
    lemma_record_at::<(u32, u32, u32)>(s, fl, f.center, pe + rest);
    lemma_u32_roundtrip(f.params2);
    assert(s.subrange(56, 60) =~= pe);
    lemma_u32_field(s, 56, f.params2);
}

/// Nine pieces written one after another, grouped to the right after the
/// first.
proof fn lemma_split9(h: Seq<u8>, a: Seq<u8>, b: Seq<u8>, c: Seq<u8>, d: Seq<u8>, e: Seq<u8>, g: Seq<u8>, i: Seq<u8>,
    o: Seq<u8>, rest: Seq<u8>)
    ensures
        h + (a + b + c + d + e + g + i) + o + rest == h + a + (b + (c + (d + (e + (g + (i + (o + rest))))))),
{
    assert(h + (a + b + c + d + e + g + i) + o + rest =~= h + a + (b + (c + (d + (e + (g + (i + (o + rest))))))));
}

/// The vertex lists of a well-formed mesh are read back from their stored
/// form.
#[verifier::spinoff_prover]
#[verifier::rlimit(100)]
proof fn lemma_alt_vertices_read(s: Seq<u8>, f: AlternateMeshFragment, tail: Seq<u8>)
    requires
        f.wf(),
        s == f.spec_to_bytes() + tail,
        f.spec_header().len() == 60,
    ensures
        f.vertices@ == records_at::<(u32, u32, u32)>(s, 60int, f.vertex_count as nat),
        f.texture_coords@ == records_at::<(u32, u32)>(s, 60int + 12 * f.vertex_count, f.tex_coords_count as nat),
        f.normals@ == records_at::<(u32, u32, u32)>(s, 60int + 12 * f.vertex_count + 8 * f.tex_coords_count, f.normals_count as nat),
        f.data4@ == records_at::<u32>(s, 60int + 12 * f.vertex_count + 8 * f.tex_coords_count + 12 * f.normals_count, f.size4 as nat),
{
    let h = f.spec_header();
    let o = f.spec_tail();
    let a = records_bytes(f.vertices@);
    let b = records_bytes(f.texture_coords@);
    let c = records_bytes(f.normals@);
    let d = records_bytes(f.data4@);
    let e = records_bytes(f.polygons@);
    let g = records_bytes(f.data6@);
    let i = records_bytes(f.vertex_pieces@);
    assert(f.spec_lists() == a + b + c + d + e + g + i);
    lemma_split9(h, a, b, c, d, e, g, i, o, tail);
    lemma_regroup(h, a, b, (c + (d + (e + (g + (i + (o + tail)))))));
    lemma_regroup(h + a, b, c, (d + (e + (g + (i + (o + tail))))));
    lemma_regroup(h + a + b, c, d, (e + (g + (i + (o + tail)))));
    lemma_records_section::<(u32, u32, u32)>(s, h, f.vertices@, (b + (c + (d + (e + (g + (i + (o + tail))))))));
    lemma_records_section::<(u32, u32)>(s, h + a, f.texture_coords@, (c + (d + (e + (g + (i + (o + tail)))))));
    lemma_records_section::<(u32, u32, u32)>(s, h + a + b, f.normals@, (d + (e + (g + (i + (o + tail))))));
    lemma_records_section::<u32>(s, h + a + b + c, f.data4@, (e + (g + (i + (o + tail)))));
}

/// The polygons, operations and vertex pieces of a well-formed mesh are read
/// back from their stored form.
#[verifier::spinoff_prover]
#[verifier::rlimit(100)]
proof fn lemma_alt_polygons_read(s: Seq<u8>, f: AlternateMeshFragment, tail: Seq<u8>)
    requires
        f.wf(),
        s == f.spec_to_bytes() + tail,
        f.spec_header().len() == 60,
    ensures
        f.polygons@ == records_at::<AlternateMeshFragmentPolygonEntry>(s, 60int + 12 * f.vertex_count + 8 * f.tex_coords_count + 12 * f.normals_count + 4 * f.size4, f.polygon_count as nat),
        f.data6@ == records_at::<AlternateMeshFragmentData6Entry>(s, 60int + 12 * f.vertex_count + 8 * f.tex_coords_count + 12 * f.normals_count + 4 * f.size4 + 16 * f.polygon_count, f.size6 as nat),
        f.vertex_pieces@ == records_at::<(u16, u16)>(s, 60int + 12 * f.vertex_count + 8 * f.tex_coords_count + 12 * f.normals_count + 4 * f.size4 + 16 * f.polygon_count + 12 * f.size6, f.vertex_piece_count as nat),
        f.spec_lists().len() == 60int + 12 * f.vertex_count + 8 * f.tex_coords_count + 12 * f.normals_count + 4 * f.size4 + 16 * f.polygon_count + 12 * f.size6 + 4 * f.vertex_piece_count - 60,
{
    let h = f.spec_header();
    let o = f.spec_tail();
    let a = records_bytes(f.vertices@);
    let b = records_bytes(f.texture_coords@);
    let c = records_bytes(f.normals@);
    let d = records_bytes(f.data4@);
    let e = records_bytes(f.polygons@);
    let g = records_bytes(f.data6@);
    let i = records_bytes(f.vertex_pieces@);
    assert(f.spec_lists() == a + b + c + d + e + g + i);
    lemma_split9(h, a, b, c, d, e, g, i, o, tail);
    lemma_records_bytes_len(f.vertices@);
    lemma_records_bytes_len(f.texture_coords@);
    lemma_records_bytes_len(f.normals@);
    lemma_records_bytes_len(f.data4@);
    lemma_regroup(h, a, b, (c + (d + (e + (g + (i + (o + tail)))))));
    lemma_regroup(h + a, b, c, (d + (e + (g + (i + (o + tail))))));
    lemma_regroup(h + a + b, c, d, (e + (g + (i + (o + tail)))));
    lemma_regroup(h + a + b + c, d, e, (g + (i + (o + tail))));
    lemma_regroup(h + a + b + c + d, e, g, (i + (o + tail)));
    lemma_regroup(h + a + b + c + d + e, g, i, (o + tail));
    lemma_records_section::<AlternateMeshFragmentPolygonEntry>(s, h + a + b + c + d, f.polygons@, (g + (i + (o + tail))));
    lemma_records_section::<AlternateMeshFragmentData6Entry>(s, h + a + b + c + d + e, f.data6@, (i + (o + tail)));
    lemma_records_section::<(u16, u16)>(s, h + a + b + c + d + e + g, f.vertex_pieces@, (o + tail));
}

/// Six pieces after a first, grouped to the right.
proof fn lemma_split_tail(hl: Seq<u8>, c1: Seq<u8>, r4: Seq<u8>, r9: Seq<u8>, c2: Seq<u8>, c3: Seq<u8>, p3: Seq<u8>,
    tail: Seq<u8>)
    ensures
        hl + (c1 + r4 + r9 + c2 + c3 + p3) + tail == hl + c1 + (r4 + (r9 + (c2 + (c3 + (p3 + tail))))),
{
    assert(hl + (c1 + r4 + r9 + c2 + c3 + p3) + tail =~= hl + c1 + (r4 + (r9 + (c2 + (c3 + (p3 + tail))))));
}

/// The counted words, the parameters and the pairs after the lists of a
/// well-formed mesh are read back from their stored form.
#[verifier::spinoff_prover]
#[verifier::rlimit(100)]
proof fn lemma_alt_words_read(s: Seq<u8>, f: AlternateMeshFragment, tail: Seq<u8>)
    requires
        f.wf(),
        s == f.spec_to_bytes() + tail,
    ensures
        ({
            let flags = f.flags;
            let q0 = (f.spec_header() + f.spec_lists()).len() as int;
            let q1 = q0 + counted_bytes(f.size8, f.data8).len();
            let q2 = q1 + 8;
            let q3 = q2 + 4 * f.data9@.len();
            let q4 = q3 + counted_bytes(f.polygontex_count, f.polygontex_entries).len();
            let q5 = q4 + counted_bytes(f.vertex_material_count, f.vertex_materials).len();
            let q6 = q5 + if flags & 0x2000 == 0x2000 { 12int } else { 0 };
            &&& counted_part::<u32>(flags & 0x200 == 0x200, s, q0, f.size8, f.data8)
            &&& (flags & 0x200 == 0x200 ==> counted_end::<u32>(s, q0) == Some(q1))
            &&& (flags & 0x200 != 0x200 ==> q1 == q0)
            &&& f.params4@ == records_at::<u16>(s, q1, 4)
            &&& f.data9@ == records_at::<(u16, u16)>(s, q2, f.data9@.len())
        }),
{
    let flags = f.flags;
    let hl = f.spec_header() + f.spec_lists();
    let c1 = counted_bytes(f.size8, f.data8);
    let r4 = records_bytes(f.params4@);
    let r9 = records_bytes(f.data9@);
    let c2 = counted_bytes(f.polygontex_count, f.polygontex_entries);
    let c3 = counted_bytes(f.vertex_material_count, f.vertex_materials);
    let p3 = match f.params3 {
        Some(p) => p.spec_encode(),
        None => Seq::empty(),
    };
    assert(f.spec_tail() == c1 + r4 + r9 + c2 + c3 + p3);
    lemma_split_tail(hl, c1, r4, r9, c2, c3, p3, tail);
    lemma_counted_read_back::<u32>(flags & 0x200 == 0x200, s, hl, f.size8, f.data8, r4 + (r9 + (c2 + (c3 + (p3
        + tail)))));
    lemma_regroup(hl, c1, r4, r9 + (c2 + (c3 + (p3 + tail))));
    lemma_records_section::<u16>(s, hl + c1, f.params4@, r9 + (c2 + (c3 + (p3 + tail))));
    lemma_regroup(hl + c1, r4, r9, c2 + (c3 + (p3 + tail)));
    lemma_records_section::<(u16, u16)>(s, hl + c1 + r4, f.data9@, c2 + (c3 + (p3 + tail)));
}

/// The counted groups after the pairs of a well-formed mesh are read back
/// from their stored form.
#[verifier::spinoff_prover]
#[verifier::rlimit(100)]
proof fn lemma_alt_groups_read(s: Seq<u8>, f: AlternateMeshFragment, tail: Seq<u8>)
    requires
        f.wf(),
        s == f.spec_to_bytes() + tail,
    ensures
        ({
            let flags = f.flags;
            let q0 = (f.spec_header() + f.spec_lists()).len() as int;
            let q1 = q0 + counted_bytes(f.size8, f.data8).len();
            let q2 = q1 + 8;
            let q3 = q2 + 4 * f.data9@.len();
            let q4 = q3 + counted_bytes(f.polygontex_count, f.polygontex_entries).len();
            let q5 = q4 + counted_bytes(f.vertex_material_count, f.vertex_materials).len();
            let q6 = q5 + if flags & 0x2000 == 0x2000 { 12int } else { 0 };
            &&& counted_part::<(u16, u16)>(flags & 0x800 == 0x800, s, q3, f.polygontex_count, f.polygontex_entries)
            &&& (flags & 0x800 == 0x800 ==> counted_end::<(u16, u16)>(s, q3) == Some(q4))
            &&& (flags & 0x800 != 0x800 ==> q4 == q3)
            &&& counted_part::<(u16, u16)>(flags & 0x1000 == 0x1000, s, q4, f.vertex_material_count, f.vertex_materials)
            &&& (flags & 0x1000 == 0x1000 ==> counted_end::<(u16, u16)>(s, q4) == Some(q5))
            &&& (flags & 0x1000 != 0x1000 ==> q5 == q4)
        }),
{
    let flags = f.flags;
    let hl = f.spec_header() + f.spec_lists();
    let c1 = counted_bytes(f.size8, f.data8);
    let r4 = records_bytes(f.params4@);
    let r9 = records_bytes(f.data9@);
    let c2 = counted_bytes(f.polygontex_count, f.polygontex_entries);
    let c3 = counted_bytes(f.vertex_material_count, f.vertex_materials);
    let p3 = match f.params3 {
        Some(p) => p.spec_encode(),
        None => Seq::empty(),
    };
    assert(f.spec_tail() == c1 + r4 + r9 + c2 + c3 + p3);
    lemma_split_tail(hl, c1, r4, r9, c2, c3, p3, tail);
    lemma_records_bytes_len(f.params4@);
    lemma_records_bytes_len(f.data9@);
    lemma_regroup(hl, c1, r4, r9 + (c2 + (c3 + (p3 + tail))));
    lemma_regroup(hl + c1, r4, r9, c2 + (c3 + (p3 + tail)));
    lemma_regroup(hl + c1 + r4, r9, c2, c3 + (p3 + tail));
    lemma_counted_read_back::<(u16, u16)>(flags & 0x800 == 0x800, s, hl + c1 + r4 + r9, f.polygontex_count,
        f.polygontex_entries, c3 + (p3 + tail));
    lemma_regroup(hl + c1 + r4 + r9, c2, c3, p3 + tail);
    lemma_counted_read_back::<(u16, u16)>(flags & 0x1000 == 0x1000, s, hl + c1 + r4 + r9 + c2,
        f.vertex_material_count, f.vertex_materials, p3 + tail);
}

/// The parameters at the end of a well-formed mesh are read back from their
/// stored form, and the mesh ends after them.
#[verifier::spinoff_prover]
#[verifier::rlimit(100)]
proof fn lemma_alt_params_read(s: Seq<u8>, f: AlternateMeshFragment, tail: Seq<u8>)
    requires
        f.params4@.len() == 4,
        f.params3 is Some <==> f.flags & 0x2000 == 0x2000,
        s == f.spec_to_bytes() + tail,
    ensures
        ({
            let flags = f.flags;
            let q0 = (f.spec_header() + f.spec_lists()).len() as int;
            let q1 = q0 + counted_bytes(f.size8, f.data8).len();
            let q2 = q1 + 8;
            let q3 = q2 + 4 * f.data9@.len();
            let q4 = q3 + counted_bytes(f.polygontex_count, f.polygontex_entries).len();
            let q5 = q4 + counted_bytes(f.vertex_material_count, f.vertex_materials).len();
            let q6 = q5 + if flags & 0x2000 == 0x2000 { 12int } else { 0 };
            &&& f.params3 == if flags & 0x2000 == 0x2000 {
                Some(<(u32, u32, u32) as FixedRecord>::spec_decode(s.skip(q5)))
            } else {
                None::<(u32, u32, u32)>
            }
        }),
{
    let hl = f.spec_header() + f.spec_lists();
    let a = counted_bytes(f.size8, f.data8) + records_bytes(f.params4@) + records_bytes(f.data9@) + counted_bytes(
        f.polygontex_count,
        f.polygontex_entries,
    ) + counted_bytes(f.vertex_material_count, f.vertex_materials);
    let p3 = match f.params3 {
        Some(p) => p.spec_encode(),
        None => Seq::empty(),
    };
    assert(f.spec_tail() == a + p3);
    lemma_shift(hl, a, p3);
    lemma_records_bytes_len(f.params4@);
    lemma_records_bytes_len(f.data9@);
    match f.params3 {
        Some(x) => {
            lemma_record_at::<(u32, u32, u32)>(s, hl + a, x, tail);
        },
        None => {},
    }
}

/// How long the stored form of a mesh is.
proof fn lemma_alt_len(f: AlternateMeshFragment)
    requires
        f.params4@.len() == 4,
        f.params3 is Some <==> f.flags & 0x2000 == 0x2000,
    ensures
        f.spec_to_bytes().len() == (f.spec_header() + f.spec_lists()).len() + counted_bytes(f.size8, f.data8).len()
            + 8 + 4 * f.data9@.len() + counted_bytes(f.polygontex_count, f.polygontex_entries).len() + counted_bytes(
            f.vertex_material_count,
            f.vertex_materials,
        ).len() + if f.flags & 0x2000 == 0x2000 { 12int } else { 0 },
{
    lemma_records_bytes_len(f.params4@);
    lemma_records_bytes_len(f.data9@);
    match f.params3 {
        Some(x) => {
            <(u32, u32, u32) as FixedRecord>::lemma_decode_encode(x, Seq::empty());
        },
        None => {},
    }
}

/// The layout of the mesh stored at the start of `s`, when each of its
/// parts is there and the optional ones end where given.
#[verifier::spinoff_prover]
#[verifier::rlimit(100)]
proof fn lemma_alt_layout_is(s: Seq<u8>, q1: int, q4: int, q5: int)
    requires
        s.len() >= 60,
        i16_at(s, 30) >= 0,
        ({
            let flags = u32_at(s, 4);
            let q0 = 60 + 12 * u32_at(s, 8) + 8 * u32_at(s, 12) + 12 * u32_at(s, 16) + 4 * u32_at(s, 20) + 16 * u32_at(
                s,
                24,
            ) + 12 * u16_at(s, 28) + 4 * i16_at(s, 30);
            let q2 = q1 + 8;
            let q3 = if flags & 0x01 == 0x01 { q2 } else { q2 + 4 * u32_at(s, 32) };
            let q6 = q5 + if flags & 0x2000 == 0x2000 { 12int } else { 0 };
            &&& q0 <= s.len()
            &&& (flags & 0x200 == 0x200 ==> counted_end::<u32>(s, q0) == Some(q1))
            &&& (flags & 0x200 != 0x200 ==> q1 == q0)
            &&& q3 <= s.len()
            &&& (flags & 0x800 == 0x800 ==> counted_end::<(u16, u16)>(s, q3) == Some(q4))
            &&& (flags & 0x800 != 0x800 ==> q4 == q3)
            &&& (flags & 0x1000 == 0x1000 ==> counted_end::<(u16, u16)>(s, q4) == Some(q5))
            &&& (flags & 0x1000 != 0x1000 ==> q5 == q4)
            &&& flags & 0x4000 != 0x4000
            &&& q6 <= s.len()
        }),
    ensures
        ({
            let flags = u32_at(s, 4);
            let o1 = 60 + 12 * u32_at(s, 8);
            let o2 = o1 + 8 * u32_at(s, 12);
            let o3 = o2 + 12 * u32_at(s, 16);
            let o4 = o3 + 4 * u32_at(s, 20);
            let o5 = o4 + 16 * u32_at(s, 24);
            let o6 = o5 + 12 * u16_at(s, 28);
            let q0 = o6 + 4 * i16_at(s, 30);
            let q2 = q1 + 8;
            let q3 = if flags & 0x01 == 0x01 { q2 } else { q2 + 4 * u32_at(s, 32) };
            let q6 = q5 + if flags & 0x2000 == 0x2000 { 12int } else { 0 };
            let o = alt_layout(s)->Some_0;
            &&& alt_layout(s) is Some
            &&& o[0] == 60
            &&& o[1] == o1
            &&& o[2] == o2
            &&& o[3] == o3
            &&& o[4] == o4
            &&& o[5] == o5
            &&& o[6] == o6
            &&& o[7] == q0
            &&& o[8] == q1
            &&& o[9] == q2
            &&& o[10] == q3
            &&& o[11] == q4
            &&& o[12] == q5
            &&& o[13] == q6
            &&& o[14] == q6
        }),
{
    let flags = u32_at(s, 4);
    let o1 = 60 + 12 * u32_at(s, 8);
    let o2 = o1 + 8 * u32_at(s, 12);
    let o3 = o2 + 12 * u32_at(s, 16);
    let o4 = o3 + 4 * u32_at(s, 20);
    let o5 = o4 + 16 * u32_at(s, 24);
    let o6 = o5 + 12 * u16_at(s, 28);
    let q0 = o6 + 4 * i16_at(s, 30);
    let q2 = q1 + 8;
    let q3 = if flags & 0x01 == 0x01 { q2 } else { q2 + 4 * u32_at(s, 32) };
    let q6 = q5 + if flags & 0x2000 == 0x2000 { 12int } else { 0 };
    assert(alt_groups_layout(s, q0, flags, u32_at(s, 32)) == Some(seq![q1, q2, q3, q4, q5]));
    assert(alt_tail_layout(s, q0, flags, u32_at(s, 32)) == Some(seq![q1, q2, q3, q4, q5, q6, q6]));
    assert(alt_layout(s) == Some(seq![60int, o1, o2, o3, o4, o5, o6, q0, q1, q2, q3, q4, q5, q6, q6]));
}

/// A well-formed mesh without the six extra parameters of bit 14 (which the
/// stored form leaves out) is read back from its stored form, whatever
/// follows it: its layout is found, reading gives the mesh, and the mesh
/// ends where its stored form ends.
#[verifier::spinoff_prover]
#[verifier::rlimit(100)]
pub proof fn lemma_alternate_mesh_round_trip(f: AlternateMeshFragment, tail: Seq<u8>)
    requires
        f.wf(),
        f.flags & 0x4000 != 0x4000,
    ensures
        ({
            let s = f.spec_to_bytes() + tail;
            &&& alt_layout(s) is Some
            &&& AlternateMeshFragment::read_from(s, alt_layout(s)->Some_0, f)
            &&& alt_layout(s)->Some_0[14] == f.spec_to_bytes().len()
        }),
{
    let s = f.spec_to_bytes() + tail;
    let h = f.spec_header();
    let l = f.spec_lists();
    let o = f.spec_tail();
    lemma_three(h, l, o, tail);
    lemma_alt_header_read(f, l + o + tail);
    lemma_alt_vertices_read(s, f, tail);
    lemma_alt_polygons_read(s, f, tail);
    lemma_alt_words_read(s, f, tail);
    lemma_alt_groups_read(s, f, tail);
    lemma_alt_params_read(s, f, tail);
    lemma_alt_len(f);
    let q0 = (h + l).len() as int;
    let q1 = q0 + counted_bytes(f.size8, f.data8).len();
    let q3 = q1 + 8 + 4 * f.data9@.len();
    let q4 = q3 + counted_bytes(f.polygontex_count, f.polygontex_entries).len();
    let q5 = q4 + counted_bytes(f.vertex_material_count, f.vertex_materials).len();
    lemma_alt_layout_is(s, q1, q4, q5);
}

} // verus!
