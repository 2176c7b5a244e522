//! The mesh fragment (0x36): a mesh's vertices, texture coordinates,
//! normals, colors, faces, groups and mesh operations.
use vstd::prelude::*;
use crate::bytes::{le_u16, le_u32, u16_at, u32_at, i32_at, push_u16, push_u32, read_u16, read_u32};
use crate::wld::parse::{WResult, WldDocError, rest, too_short, append_bytes};
use crate::wld::records::{FixedRecord, records_at, records_bytes, parse_records, push_records};
use crate::wld::fragments::{Fragment, FragmentRef, StringReference, too_short_spec};

verus! {

/// A triangle of the mesh.
#[derive(Debug, Clone, Copy, PartialEq, Eq)]
pub struct DmSpriteDef2FaceEntry {
    /// Bit 4 set: the face is passable.
    pub flags: u16,
    /// The indices of the face's three vertices.
    pub vertex_indexes: (u16, u16, u16),
}

impl FixedRecord for DmSpriteDef2FaceEntry {
    open spec fn spec_size() -> nat {
        8
    }

    open spec fn spec_decode(s: Seq<u8>) -> Self {
        DmSpriteDef2FaceEntry { flags: u16_at(s, 0), vertex_indexes: (u16_at(s, 2), u16_at(s, 4), u16_at(s, 6)) }
    }

    open spec fn spec_encode(&self) -> Seq<u8> {
        le_u16(self.flags) + le_u16(self.vertex_indexes.0) + le_u16(self.vertex_indexes.1) + le_u16(
            self.vertex_indexes.2,
        )
    }

    open spec fn spec_wf(&self) -> bool {
        true
    }

    proof fn lemma_decode_encode(x: Self, tail: Seq<u8>) {
        let s = x.spec_encode() + tail;
        crate::bytes::lemma_u16_roundtrip(x.flags);
        assert(s.subrange(0, 2) =~= le_u16(x.flags));
        crate::bytes::lemma_u16_field(s, 0, x.flags);
        crate::bytes::lemma_u16_roundtrip(x.vertex_indexes.0);
        assert(s.subrange(2, 4) =~= le_u16(x.vertex_indexes.0));
        crate::bytes::lemma_u16_field(s, 2, x.vertex_indexes.0);
        crate::bytes::lemma_u16_roundtrip(x.vertex_indexes.1);
        assert(s.subrange(4, 6) =~= le_u16(x.vertex_indexes.1));
        crate::bytes::lemma_u16_field(s, 4, x.vertex_indexes.1);
        crate::bytes::lemma_u16_roundtrip(x.vertex_indexes.2);
        assert(s.subrange(6, 8) =~= le_u16(x.vertex_indexes.2));
        crate::bytes::lemma_u16_field(s, 6, x.vertex_indexes.2);
    }

    proof fn lemma_encode_decode(s: Seq<u8>) {
        crate::bytes::lemma_u16_bytes(s, 0);
        crate::bytes::lemma_u16_bytes(s, 2);
        crate::bytes::lemma_u16_bytes(s, 4);
        crate::bytes::lemma_u16_bytes(s, 6);
        assert(Self::spec_decode(s).spec_encode() =~= s.take(8));
    }

    fn size() -> (r: usize) {
        8
    }

    fn read(input: &[u8], pos: usize) -> (r: Self) {
        let ghost t = input@.skip(pos as int);
        let len = input.len();
        let r = DmSpriteDef2FaceEntry {
            flags: read_u16(input, pos),
            vertex_indexes: (read_u16(input, pos + 2), read_u16(input, pos + 4), read_u16(input, pos + 6)),
        };
        assert(u16_at(input@, pos as int) == u16_at(t, 0));
        assert(u16_at(input@, pos + 2) == u16_at(t, 2));
        assert(u16_at(input@, pos + 4) == u16_at(t, 4));
        assert(u16_at(input@, pos + 6) == u16_at(t, 6));
        r
    }

    fn write(&self, out: &mut Vec<u8>) {
        push_u16(out, self.flags);
        push_u16(out, self.vertex_indexes.0);
        push_u16(out, self.vertex_indexes.1);
        push_u16(out, self.vertex_indexes.2);
        assert(out@ =~= old(out)@ + self.spec_encode());
    }
}

/// A mesh operation: two vertex indices, or (for type 4) an offset, the
/// float kept as its bits.
#[derive(Debug, Clone, Copy, PartialEq, Eq, Structural)]
pub struct DmSpriteDef2MeshOpEntry {
    pub index1: Option<u16>,
    pub index2: Option<u16>,
    /// The bits of the `f32` offset.
    pub offset: Option<u32>,
    pub param1: u8,
    pub type_field: u8,
}

impl FixedRecord for DmSpriteDef2MeshOpEntry {
    open spec fn spec_size() -> nat {
        6
    }

    /// Four bytes whose meaning depends on the type in the sixth byte, then
    /// the parameter and the type.
    open spec fn spec_decode(s: Seq<u8>) -> Self {
        if s[5] == 4 {
            DmSpriteDef2MeshOpEntry {
                index1: None,
                index2: None,
                offset: Some(u32_at(s, 0)),
                param1: s[4],
                type_field: s[5],
            }
        } else {
            DmSpriteDef2MeshOpEntry {
                index1: Some(u16_at(s, 0)),
                index2: Some(u16_at(s, 2)),
                offset: None,
                param1: s[4],
                type_field: s[5],
            }
        }
    }

    open spec fn spec_encode(&self) -> Seq<u8> {
        (match self.index1 {
            Some(i) => le_u16(i),
            None => Seq::empty(),
        }) + (match self.index2 {
            Some(i) => le_u16(i),
            None => Seq::empty(),
        }) + (match self.offset {
            Some(o) => le_u32(o),
            None => Seq::empty(),
        }) + seq![self.param1, self.type_field]
    }

    /// The type decides which of the first fields are there.
    open spec fn spec_wf(&self) -> bool {
        if self.type_field == 4 {
            self.index1 is None && self.index2 is None && self.offset is Some
        } else {
            self.index1 is Some && self.index2 is Some && self.offset is None
        }
    }

    proof fn lemma_decode_encode(x: Self, tail: Seq<u8>) {
        let s = x.spec_encode() + tail;
        if x.type_field == 4 {
            let o = x.offset->Some_0;
            crate::bytes::lemma_u32_roundtrip(o);
            assert(s.subrange(0, 4) =~= le_u32(o));
            crate::bytes::lemma_u32_field(s, 0, o);
        } else {
            let a = x.index1->Some_0;
            let b = x.index2->Some_0;
            crate::bytes::lemma_u16_roundtrip(a);
            crate::bytes::lemma_u16_roundtrip(b);
            assert(s.subrange(0, 2) =~= le_u16(a));
            crate::bytes::lemma_u16_field(s, 0, a);
            assert(s.subrange(2, 4) =~= le_u16(b));
            crate::bytes::lemma_u16_field(s, 2, b);
        }
        assert(s[4] == x.param1);
        assert(s[5] == x.type_field);
    }

    proof fn lemma_encode_decode(s: Seq<u8>) {
        crate::bytes::lemma_u32_bytes(s, 0);
        crate::bytes::lemma_u16_bytes(s, 0);
        crate::bytes::lemma_u16_bytes(s, 2);
        assert(Self::spec_decode(s).spec_encode() =~= s.take(6));
    }

    fn size() -> (r: usize) {
        6
    }

    fn read(input: &[u8], pos: usize) -> (r: Self) {
        let ghost t = input@.skip(pos as int);
        let len = input.len();
        let param1 = input[pos + 4];
        let type_field = input[pos + 5];
        if type_field == 4 {
            let o = read_u32(input, pos);
            assert(u32_at(input@, pos as int) == u32_at(t, 0));
            DmSpriteDef2MeshOpEntry { index1: None, index2: None, offset: Some(o), param1, type_field }
        } else {
            let a = read_u16(input, pos);
            let b = read_u16(input, pos + 2);
            assert(u16_at(input@, pos as int) == u16_at(t, 0));
            assert(u16_at(input@, pos + 2) == u16_at(t, 2));
            DmSpriteDef2MeshOpEntry { index1: Some(a), index2: Some(b), offset: None, param1, type_field }
        }
    }

    fn write(&self, out: &mut Vec<u8>) {
        let ghost start = out@;
        match self.index1 {
            Some(i) => push_u16(out, i),
            None => {},
        }
        let ghost a = out@;
        match self.index2 {
            Some(i) => push_u16(out, i),
            None => {},
        }
        let ghost b = out@;
        match self.offset {
            Some(o) => push_u32(out, o),
            None => {},
        }
        let ghost c = out@;
        out.push(self.param1);
        out.push(self.type_field);
        proof {
            assert(a =~= start + (match self.index1 { Some(i) => le_u16(i), None => Seq::<u8>::empty() }));
            assert(b =~= a + (match self.index2 { Some(i) => le_u16(i), None => Seq::<u8>::empty() }));
            assert(c =~= b + (match self.offset { Some(o) => le_u32(o), None => Seq::<u8>::empty() }));
            assert(out@ =~= start + self.spec_encode());
        }
    }
}

/// The mesh of a zone region or of an object.
///
/// **Type ID:** 0x36
#[derive(Debug, PartialEq)]
pub struct DmSpriteDef2 {
    pub name_reference: StringReference,
    pub flags: u32,
    /// The material palette.
    pub material_list_ref: FragmentRef,
    /// The animated vertices (a `DmTrack`), if any.
    pub animation_ref: FragmentRef,
    pub fragment3: FragmentRef,
    pub fragment4: FragmentRef,
    /// The bits of the `f32` coordinates of the center.
    pub center: (u32, u32, u32),
    pub params2: (u32, u32, u32),
    /// The bits of the `f32` largest distance from the center.
    pub max_distance: u32,
    /// The bits of the `f32` coordinates of the bounding box's corners.
    pub min: (u32, u32, u32),
    pub max: (u32, u32, u32),
    pub position_count: u16,
    pub texture_coordinate_count: u16,
    pub normal_count: u16,
    pub color_count: u16,
    pub face_count: u16,
    pub skin_assignment_groups_count: u16,
    pub face_material_groups_count: u16,
    pub vertex_material_groups_count: u16,
    pub meshop_count: u16,
    /// Positions are scaled by `1 / 2^scale`.
    pub scale: u16,
    pub positions: Vec<(i16, i16, i16)>,
    pub texture_coordinates: Vec<(i16, i16)>,
    pub vertex_normals: Vec<(i8, i8, i8)>,
    pub vertex_colors: Vec<u32>,
    pub faces: Vec<DmSpriteDef2FaceEntry>,
    pub skin_assignment_groups: Vec<(u16, u16)>,
    pub face_material_groups: Vec<(u16, u16)>,
    pub vertex_material_groups: Vec<(u16, u16)>,
    pub meshops: Vec<DmSpriteDef2MeshOpEntry>,
}

/// Where each list of the mesh stored at the start of `s` begins, and (last)
/// where the lists end: the header is 96 bytes, then positions (6 bytes
/// each), texture coordinates (4), normals (3), colors (4), faces (8), skin
/// assignment, face material and vertex material groups (4 each) and mesh
/// operations (6).
pub open spec fn sprite2_offsets(s: Seq<u8>) -> Seq<int> {
    let p0 = 96int;
    let p1 = p0 + 6 * u16_at(s, 76);
    let p2 = p1 + 4 * u16_at(s, 78);
    let p3 = p2 + 3 * u16_at(s, 80);
    let p4 = p3 + 4 * u16_at(s, 82);
    let p5 = p4 + 8 * u16_at(s, 84);
    let p6 = p5 + 4 * u16_at(s, 86);
    let p7 = p6 + 4 * u16_at(s, 88);
    let p8 = p7 + 4 * u16_at(s, 90);
    let p9 = p8 + 6 * u16_at(s, 92);
    seq![p0, p1, p2, p3, p4, p5, p6, p7, p8, p9]
}

/// Whether `s` holds a whole mesh.
pub open spec fn sprite2_fits(s: Seq<u8>) -> bool {
    s.len() >= 96 && s.len() >= sprite2_offsets(s)[9]
}

/// The three `u32`s at `pos`.
pub open spec fn triple_at(s: Seq<u8>, pos: int) -> (u32, u32, u32) {
    (u32_at(s, pos), u32_at(s, pos + 4), u32_at(s, pos + 8))
}

/// The stored form of three `u32`s.
pub open spec fn triple_bytes(t: (u32, u32, u32)) -> Seq<u8> {
    le_u32(t.0) + le_u32(t.1) + le_u32(t.2)
}

fn triple_field(input: &[u8], pos: usize) -> (r: (u32, u32, u32))
    requires
        pos + 12 <= input@.len(),
    ensures
        r == triple_at(input@, pos as int),
{
    let len = input.len();
    (read_u32(input, pos), read_u32(input, pos + 4), read_u32(input, pos + 8))
}

fn push_triple(out: &mut Vec<u8>, t: (u32, u32, u32))
    ensures
        final(out)@ == old(out)@ + triple_bytes(t),
{
    push_u32(out, t.0);
    push_u32(out, t.1);
    push_u32(out, t.2);
    assert(out@ =~= old(out)@ + triple_bytes(t));
}

impl DmSpriteDef2 {
    pub const TYPE_ID: u32 = 0x36;

    /// The first 24 bytes of the header: the name, the flags and the
    /// references.
    pub open spec fn spec_header_refs(&self) -> Seq<u8> {
        self.name_reference.spec_to_bytes() + le_u32(self.flags) + self.material_list_ref.spec_to_bytes()
            + self.animation_ref.spec_to_bytes() + self.fragment3.spec_to_bytes() + self.fragment4.spec_to_bytes()
    }

    /// The next 52 bytes: the center, the parameters, the largest distance
    /// and the bounding box.
    pub open spec fn spec_header_shape(&self) -> Seq<u8> {
        self.spec_header_center() + self.spec_header_box()
    }

    /// The center, the parameters and the largest distance.
    pub open spec fn spec_header_center(&self) -> Seq<u8> {
        triple_bytes(self.center) + triple_bytes(self.params2) + le_u32(self.max_distance)
    }

    /// The corners of the bounding box.
    pub open spec fn spec_header_box(&self) -> Seq<u8> {
        triple_bytes(self.min) + triple_bytes(self.max)
    }

    /// The last 20 bytes: the counts and the scale.
    pub open spec fn spec_header_counts(&self) -> Seq<u8> {
        le_u16(self.position_count) + le_u16(self.texture_coordinate_count) + le_u16(self.normal_count) + le_u16(
            self.color_count,
        ) + le_u16(self.face_count) + le_u16(self.skin_assignment_groups_count) + le_u16(
            self.face_material_groups_count,
        ) + le_u16(self.vertex_material_groups_count) + le_u16(self.meshop_count) + le_u16(self.scale)
    }

    /// The 96-byte header.
    pub open spec fn spec_header(&self) -> Seq<u8> {
        self.spec_header_refs() + self.spec_header_shape() + self.spec_header_counts()
    }

    /// The lists, one after another.
    pub open spec fn spec_lists(&self) -> Seq<u8> {
        records_bytes(self.positions@) + records_bytes(self.texture_coordinates@) + records_bytes(
            self.vertex_normals@,
        ) + records_bytes(self.vertex_colors@) + records_bytes(self.faces@) + records_bytes(
            self.skin_assignment_groups@,
        ) + records_bytes(self.face_material_groups@) + records_bytes(self.vertex_material_groups@)
    }

    /// The stored form: header, lists, mesh operations, then zero padding of
    /// the mesh operations to a multiple of four bytes.
    pub open spec fn spec_to_bytes(&self) -> Seq<u8> {
        let ops = records_bytes(self.meshops@);
        self.spec_header() + self.spec_lists() + ops + Seq::new(((4 - (ops.len() % 4) as int) % 4) as nat, |i: int| 0u8)
    }

    /// The references are well formed, the counts are the lengths of the
    /// lists, and each mesh operation has the fields its type calls for.
    pub open spec fn wf(&self) -> bool {
        &&& self.material_list_ref.wf()
        &&& self.animation_ref.wf()
        &&& self.fragment3.wf()
        &&& self.fragment4.wf()
        &&& self.positions@.len() == self.position_count
        &&& self.texture_coordinates@.len() == self.texture_coordinate_count
        &&& self.vertex_normals@.len() == self.normal_count
        &&& self.vertex_colors@.len() == self.color_count
        &&& self.faces@.len() == self.face_count
        &&& self.skin_assignment_groups@.len() == self.skin_assignment_groups_count
        &&& self.face_material_groups@.len() == self.face_material_groups_count
        &&& self.vertex_material_groups@.len() == self.vertex_material_groups_count
        &&& self.meshops@.len() == self.meshop_count
        &&& forall|i: int| 0 <= i < self.meshops@.len() ==> (#[trigger] self.meshops@[i]).spec_wf()
    }

    /// The stored mesh, before padding.
    pub open spec fn spec_body(&self) -> Seq<u8> {
        self.spec_header() + self.spec_lists() + records_bytes(self.meshops@)
    }

    /// Whether `f` is the mesh stored at the start of `s`.
    pub open spec fn read_from(s: Seq<u8>, f: DmSpriteDef2) -> bool {
        let o = sprite2_offsets(s);
        &&& f.name_reference.0 == i32_at(s, 0)
        &&& f.flags == u32_at(s, 4)
        &&& f.material_list_ref == FragmentRef::spec_new(i32_at(s, 8))
        &&& f.animation_ref == FragmentRef::spec_new(i32_at(s, 12))
        &&& f.fragment3 == FragmentRef::spec_new(i32_at(s, 16))
        &&& f.fragment4 == FragmentRef::spec_new(i32_at(s, 20))
        &&& f.center == triple_at(s, 24)
        &&& f.params2 == triple_at(s, 36)
        &&& f.max_distance == u32_at(s, 48)
        &&& f.min == triple_at(s, 52)
        &&& f.max == triple_at(s, 64)
        &&& f.position_count == u16_at(s, 76)
        &&& f.texture_coordinate_count == u16_at(s, 78)
        &&& f.normal_count == u16_at(s, 80)
        &&& f.color_count == u16_at(s, 82)
        &&& f.face_count == u16_at(s, 84)
        &&& f.skin_assignment_groups_count == u16_at(s, 86)
        &&& f.face_material_groups_count == u16_at(s, 88)
        &&& f.vertex_material_groups_count == u16_at(s, 90)
        &&& f.meshop_count == u16_at(s, 92)
        &&& f.scale == u16_at(s, 94)
        &&& f.positions@ == records_at::<(i16, i16, i16)>(s, o[0], f.position_count as nat)
        &&& f.texture_coordinates@ == records_at::<(i16, i16)>(s, o[1], f.texture_coordinate_count as nat)
        &&& f.vertex_normals@ == records_at::<(i8, i8, i8)>(s, o[2], f.normal_count as nat)
        &&& f.vertex_colors@ == records_at::<u32>(s, o[3], f.color_count as nat)
        &&& f.faces@ == records_at::<DmSpriteDef2FaceEntry>(s, o[4], f.face_count as nat)
        &&& f.skin_assignment_groups@ == records_at::<(u16, u16)>(s, o[5], f.skin_assignment_groups_count as nat)
        &&& f.face_material_groups@ == records_at::<(u16, u16)>(s, o[6], f.face_material_groups_count as nat)
        &&& f.vertex_material_groups@ == records_at::<(u16, u16)>(s, o[7], f.vertex_material_groups_count as nat)
        &&& f.meshops@ == records_at::<DmSpriteDef2MeshOpEntry>(s, o[8], f.meshop_count as nat)
    }

    /// Reads a mesh. Bytes after the last list (padding) are left unread.
    #[verifier::rlimit(60)]
    pub fn parse(input: &[u8]) -> (r: WResult<'_, DmSpriteDef2>)
        ensures
            sprite2_fits(input@) ==> (r matches Ok((rest, f)) && Self::read_from(input@, f) && rest@ == input@.skip(
                sprite2_offsets(input@)[9],
            )),
            !sprite2_fits(input@) ==> r == Err::<(&[u8], DmSpriteDef2), WldDocError>(too_short_spec(input@)),
    {
        if input.len() < 96 {
            return Err(too_short(input));
        }
        let name_reference = StringReference::new(crate::bytes::read_i32(input, 0));
        let flags = read_u32(input, 4);
        let material_list_ref = FragmentRef::new(crate::bytes::read_i32(input, 8));
        let animation_ref = FragmentRef::new(crate::bytes::read_i32(input, 12));
        let fragment3 = FragmentRef::new(crate::bytes::read_i32(input, 16));
        let fragment4 = FragmentRef::new(crate::bytes::read_i32(input, 20));
        let center = triple_field(input, 24);
        let params2 = triple_field(input, 36);
        let max_distance = read_u32(input, 48);
        let min = triple_field(input, 52);
        let max = triple_field(input, 64);
        let position_count = read_u16(input, 76);
        let texture_coordinate_count = read_u16(input, 78);
        let normal_count = read_u16(input, 80);
        let color_count = read_u16(input, 82);
        let face_count = read_u16(input, 84);
        let skin_assignment_groups_count = read_u16(input, 86);
        let face_material_groups_count = read_u16(input, 88);
        let vertex_material_groups_count = read_u16(input, 90);
        let meshop_count = read_u16(input, 92);
        let scale = read_u16(input, 94);
        let ghost o = sprite2_offsets(input@);
        let (positions, p1) = match parse_records::<(i16, i16, i16)>(input, 96, position_count as u32) {
            Some(x) => x,
            None => return Err(too_short(input)),
        };
        let (texture_coordinates, p2) = match parse_records::<(i16, i16)>(input, p1, texture_coordinate_count as u32) {
            Some(x) => x,
            None => return Err(too_short(input)),
        };
        let (vertex_normals, p3) = match parse_records::<(i8, i8, i8)>(input, p2, normal_count as u32) {
            Some(x) => x,
            None => return Err(too_short(input)),
        };
        let (vertex_colors, p4) = match parse_records::<u32>(input, p3, color_count as u32) {
            Some(x) => x,
            None => return Err(too_short(input)),
        };
        let (faces, p5) = match parse_records::<DmSpriteDef2FaceEntry>(input, p4, face_count as u32) {
            Some(x) => x,
            None => return Err(too_short(input)),
        };
        let (skin_assignment_groups, p6) = match parse_records::<(u16, u16)>(input, p5, skin_assignment_groups_count as u32) {
            Some(x) => x,
            None => return Err(too_short(input)),
        };
        let (face_material_groups, p7) = match parse_records::<(u16, u16)>(input, p6, face_material_groups_count as u32) {
            Some(x) => x,
            None => return Err(too_short(input)),
        };
        let (vertex_material_groups, p8) = match parse_records::<(u16, u16)>(input, p7, vertex_material_groups_count as u32) {
            Some(x) => x,
            None => return Err(too_short(input)),
        };
        let (meshops, p9) = match parse_records::<DmSpriteDef2MeshOpEntry>(input, p8, meshop_count as u32) {
            Some(x) => x,
            None => return Err(too_short(input)),
        };
        Ok((rest(input, p9), DmSpriteDef2 {
            name_reference,
            flags,
            material_list_ref,
            animation_ref,
            fragment3,
            fragment4,
            center,
            params2,
            max_distance,
            min,
            max,
            position_count,
            texture_coordinate_count,
            normal_count,
            color_count,
            face_count,
            skin_assignment_groups_count,
            face_material_groups_count,
            vertex_material_groups_count,
            meshop_count,
            scale,
            positions,
            texture_coordinates,
            vertex_normals,
            vertex_colors,
            faces,
            skin_assignment_groups,
            face_material_groups,
            vertex_material_groups,
            meshops,
        }))
    }

    #[verifier::spinoff_prover]
    #[verifier::rlimit(60)]
    pub fn to_bytes(&self) -> (r: Vec<u8>)
        ensures
            r@ == self.spec_to_bytes(),
    {
        let mut out = self.name_reference.into_bytes();
        push_u32(&mut out, self.flags);
        let b = self.material_list_ref.into_bytes();
        append_bytes(&mut out, b.as_slice());
        let b = self.animation_ref.into_bytes();
        append_bytes(&mut out, b.as_slice());
        let b = self.fragment3.into_bytes();
        append_bytes(&mut out, b.as_slice());
        let b = self.fragment4.into_bytes();
        append_bytes(&mut out, b.as_slice());
        let ghost h1 = out@;
        proof {
            assert(h1 =~= self.spec_header_refs());
        }
        push_triple(&mut out, self.center);
        push_triple(&mut out, self.params2);
        push_u32(&mut out, self.max_distance);
        push_triple(&mut out, self.min);
        push_triple(&mut out, self.max);
        let ghost h2 = out@;
        proof {
            assert(h2 =~= h1 + self.spec_header_shape());
        }
        push_u16(&mut out, self.position_count);
        push_u16(&mut out, self.texture_coordinate_count);
        push_u16(&mut out, self.normal_count);
        push_u16(&mut out, self.color_count);
        push_u16(&mut out, self.face_count);
        push_u16(&mut out, self.skin_assignment_groups_count);
        push_u16(&mut out, self.face_material_groups_count);
        push_u16(&mut out, self.vertex_material_groups_count);
        push_u16(&mut out, self.meshop_count);
        push_u16(&mut out, self.scale);
        let ghost h = out@;
        proof {
            assert(h =~= h2 + self.spec_header_counts());
            assert(h =~= self.spec_header());
        }
        push_records(&mut out, &self.positions);
        push_records(&mut out, &self.texture_coordinates);
        push_records(&mut out, &self.vertex_normals);
        push_records(&mut out, &self.vertex_colors);
        push_records(&mut out, &self.faces);
        push_records(&mut out, &self.skin_assignment_groups);
        push_records(&mut out, &self.face_material_groups);
        push_records(&mut out, &self.vertex_material_groups);
        let ghost l = out@;
        proof {
            assert(l =~= self.spec_header() + self.spec_lists());
        }
        let mut ops: Vec<u8> = Vec::new();
        push_records(&mut ops, &self.meshops);
        append_bytes(&mut out, ops.as_slice());
        let pad = (4 - ops.len() % 4) % 4;
        let ghost body = out@;
        let mut k: usize = 0;
        while k < pad
            invariant
                k <= pad,
                out@ == body + Seq::new(k as nat, |i: int| 0u8),
            decreases pad - k,
        {
            out.push(0u8);
            k = k + 1;
            proof {
                assert(out@ =~= body + Seq::new(k as nat, |i: int| 0u8));
            }
        }
        proof {
            assert(ops@ =~= records_bytes(self.meshops@));
        }
        out
    }
}

impl Fragment for DmSpriteDef2 {
    open spec fn spec_into_bytes(&self) -> Seq<u8> {
        self.spec_to_bytes()
    }

    open spec fn spec_serializable(&self) -> bool {
        true
    }

    fn into_bytes(&self) -> (r: Vec<u8>) {
        self.to_bytes()
    }

    fn name_ref(&self) -> (r: &StringReference)
        ensures
            *r == self.name_reference,
    {
        &self.name_reference
    }

    fn type_id(&self) -> (r: u32)
        ensures
            r == 0x36,
    {
        Self::TYPE_ID
    }
}

} // verus!
