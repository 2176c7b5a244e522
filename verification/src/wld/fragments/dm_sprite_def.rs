//! The older mesh fragment (0x2c), with float vertices and optional
//! sections chosen by its flags.
use vstd::prelude::*;
use crate::bytes::{le_u16, le_u32, le_i16, u16_at, u32_at, i16_at, i32_at, push_u16, push_u32, push_i16, read_u16,
    read_u32, read_i16};
use crate::wld::parse::{WResult, WldDocError, rest, too_short, append_bytes};
use crate::wld::records::{FixedRecord, records_at, records_bytes, parse_records, push_records, counted_end,
    parse_counted, push_counted, counted_bytes};
use crate::wld::fragments::{Fragment, FragmentRef, StringReference, too_short_spec};

verus! {

/// A polygon of the mesh.
#[derive(Debug, Clone, Copy, PartialEq, Eq)]
pub struct DmSpriteDefFaceEntry {
    pub flags: u16,
    /// _Unknown_.
    pub data: (u16, u16, u16, u16),
    pub vertex_indexes: (u16, u16, u16),
}

impl FixedRecord for DmSpriteDefFaceEntry {
    open spec fn spec_size() -> nat {
        16
    }

    open spec fn spec_decode(s: Seq<u8>) -> Self {
        DmSpriteDefFaceEntry {
            flags: u16_at(s, 0),
            data: (u16_at(s, 2), u16_at(s, 4), u16_at(s, 6), u16_at(s, 8)),
            vertex_indexes: (u16_at(s, 10), u16_at(s, 12), u16_at(s, 14)),
        }
    }

    open spec fn spec_encode(&self) -> Seq<u8> {
        le_u16(self.flags) + le_u16(self.data.0) + le_u16(self.data.1) + le_u16(self.data.2) + le_u16(self.data.3)
            + le_u16(self.vertex_indexes.0) + le_u16(self.vertex_indexes.1) + le_u16(self.vertex_indexes.2)
    }

    open spec fn spec_wf(&self) -> bool {
        true
    }

    proof fn lemma_decode_encode(x: Self, tail: Seq<u8>) {
        let s = x.spec_encode() + tail;
        crate::bytes::lemma_u16_roundtrip(x.flags);
        assert(s.subrange(0, 2) =~= le_u16(x.flags));
        crate::bytes::lemma_u16_field(s, 0, x.flags);
        crate::bytes::lemma_u16_roundtrip(x.data.0);
        assert(s.subrange(2, 4) =~= le_u16(x.data.0));
        crate::bytes::lemma_u16_field(s, 2, x.data.0);
        crate::bytes::lemma_u16_roundtrip(x.data.1);
        assert(s.subrange(4, 6) =~= le_u16(x.data.1));
        crate::bytes::lemma_u16_field(s, 4, x.data.1);
        crate::bytes::lemma_u16_roundtrip(x.data.2);
        assert(s.subrange(6, 8) =~= le_u16(x.data.2));
        crate::bytes::lemma_u16_field(s, 6, x.data.2);
        crate::bytes::lemma_u16_roundtrip(x.data.3);
        assert(s.subrange(8, 10) =~= le_u16(x.data.3));
        crate::bytes::lemma_u16_field(s, 8, x.data.3);
        crate::bytes::lemma_u16_roundtrip(x.vertex_indexes.0);
        assert(s.subrange(10, 12) =~= le_u16(x.vertex_indexes.0));
        crate::bytes::lemma_u16_field(s, 10, x.vertex_indexes.0);
        crate::bytes::lemma_u16_roundtrip(x.vertex_indexes.1);
        assert(s.subrange(12, 14) =~= le_u16(x.vertex_indexes.1));
        crate::bytes::lemma_u16_field(s, 12, x.vertex_indexes.1);
        crate::bytes::lemma_u16_roundtrip(x.vertex_indexes.2);
        assert(s.subrange(14, 16) =~= le_u16(x.vertex_indexes.2));
        crate::bytes::lemma_u16_field(s, 14, x.vertex_indexes.2);
    }

    proof fn lemma_encode_decode(s: Seq<u8>) {
        crate::bytes::lemma_u16_bytes(s, 0);
        crate::bytes::lemma_u16_bytes(s, 2);
        crate::bytes::lemma_u16_bytes(s, 4);
        crate::bytes::lemma_u16_bytes(s, 6);
        crate::bytes::lemma_u16_bytes(s, 8);
        crate::bytes::lemma_u16_bytes(s, 10);
        crate::bytes::lemma_u16_bytes(s, 12);
        crate::bytes::lemma_u16_bytes(s, 14);
        assert(Self::spec_decode(s).spec_encode() =~= s.take(16));
    }

    fn size() -> (r: usize) {
        16
    }

    fn read(input: &[u8], pos: usize) -> (r: Self) {
        let ghost t = input@.skip(pos as int);
        let len = input.len();
        let mut v: [u16; 8] = [0; 8];
        let mut k: usize = 0;
        while k < 8
            invariant
                k <= 8,
                len == input@.len(),
                pos + 16 <= len,
                t == input@.skip(pos as int),
                forall|i: int| 0 <= i < k ==> #[trigger] v@[i] == u16_at(t, 2 * i),
            decreases 8 - k,
        {
            let x = read_u16(input, pos + 2 * k);
            assert(u16_at(input@, pos + 2 * k) == u16_at(t, 2 * k));
            v[k] = x;
            k = k + 1;
        }
        DmSpriteDefFaceEntry { flags: v[0], data: (v[1], v[2], v[3], v[4]), vertex_indexes: (v[5], v[6], v[7]) }
    }

    fn write(&self, out: &mut Vec<u8>) {
        push_u16(out, self.flags);
        push_u16(out, self.data.0);
        push_u16(out, self.data.1);
        push_u16(out, self.data.2);
        push_u16(out, self.data.3);
        push_u16(out, self.vertex_indexes.0);
        push_u16(out, self.vertex_indexes.1);
        push_u16(out, self.vertex_indexes.2);
        assert(out@ =~= old(out)@ + self.spec_encode());
    }
}

/// A mesh operation: a vertex index, or (for type 4) an offset kept as the
/// bits of its `f32`.
#[derive(Debug, Clone, Copy, PartialEq, Eq, Structural)]
pub struct DmSpriteDefMeshopEntry {
    pub type_field: u32,
    pub vertex_index: Option<u32>,
    pub offset: Option<u32>,
    pub param1: u16,
    pub param2: u16,
}

impl FixedRecord for DmSpriteDefMeshopEntry {
    open spec fn spec_size() -> nat {
        12
    }

    open spec fn spec_decode(s: Seq<u8>) -> Self {
        let t = u32_at(s, 0);
        DmSpriteDefMeshopEntry {
            type_field: t,
            vertex_index: if t != 4 { Some(u32_at(s, 4)) } else { None },
            offset: if t == 4 { Some(u32_at(s, 4)) } else { None },
            param1: u16_at(s, 8),
            param2: u16_at(s, 10),
        }
    }

    open spec fn spec_encode(&self) -> Seq<u8> {
        le_u32(self.type_field) + (match self.vertex_index {
            Some(i) => le_u32(i),
            None => Seq::empty(),
        }) + (match self.offset {
            Some(o) => le_u32(o),
            None => Seq::empty(),
        }) + le_u16(self.param1) + le_u16(self.param2)
    }

    /// The type decides which of the index and the offset is there.
    open spec fn spec_wf(&self) -> bool {
        if self.type_field == 4 {
            self.vertex_index is None && self.offset is Some
        } else {
            self.vertex_index is Some && self.offset is None
        }
    }

    proof fn lemma_decode_encode(x: Self, tail: Seq<u8>) {
        let s = x.spec_encode() + tail;
        let v = if x.type_field == 4 { x.offset->Some_0 } else { x.vertex_index->Some_0 };
        crate::bytes::lemma_u32_roundtrip(x.type_field);
        crate::bytes::lemma_u32_roundtrip(v);
        crate::bytes::lemma_u16_roundtrip(x.param1);
        crate::bytes::lemma_u16_roundtrip(x.param2);
        assert(s.subrange(0, 4) =~= le_u32(x.type_field));
        crate::bytes::lemma_u32_field(s, 0, x.type_field);
        assert(s.subrange(4, 8) =~= le_u32(v));
        crate::bytes::lemma_u32_field(s, 4, v);
        assert(s.subrange(8, 10) =~= le_u16(x.param1));
        crate::bytes::lemma_u16_field(s, 8, x.param1);
        assert(s.subrange(10, 12) =~= le_u16(x.param2));
        crate::bytes::lemma_u16_field(s, 10, x.param2);
    }

    proof fn lemma_encode_decode(s: Seq<u8>) {
        crate::bytes::lemma_u32_bytes(s, 0);
        crate::bytes::lemma_u32_bytes(s, 4);
        crate::bytes::lemma_u16_bytes(s, 8);
        crate::bytes::lemma_u16_bytes(s, 10);
        assert(Self::spec_decode(s).spec_encode() =~= s.take(12));
    }

    fn size() -> (r: usize) {
        12
    }

    fn read(input: &[u8], pos: usize) -> (r: Self) {
        let ghost t = input@.skip(pos as int);
        let len = input.len();
        let type_field = read_u32(input, pos);
        let x = read_u32(input, pos + 4);
        let param1 = read_u16(input, pos + 8);
        let param2 = read_u16(input, pos + 10);
        assert(u32_at(input@, pos as int) == u32_at(t, 0));
        assert(u32_at(input@, pos + 4) == u32_at(t, 4));
        assert(u16_at(input@, pos + 8) == u16_at(t, 8));
        assert(u16_at(input@, pos + 10) == u16_at(t, 10));
        if type_field == 4 {
            DmSpriteDefMeshopEntry { type_field, vertex_index: None, offset: Some(x), param1, param2 }
        } else {
            DmSpriteDefMeshopEntry { type_field, vertex_index: Some(x), offset: None, param1, param2 }
        }
    }

    fn write(&self, out: &mut Vec<u8>) {
        let ghost start = out@;
        push_u32(out, self.type_field);
        let ghost a = out@;
        match self.vertex_index {
            Some(i) => push_u32(out, i),
            None => {},
        }
        let ghost b = out@;
        match self.offset {
            Some(o) => push_u32(out, o),
            None => {},
        }
        let ghost c = out@;
        push_u16(out, self.param1);
        push_u16(out, self.param2);
        proof {
            assert(b =~= a + (match self.vertex_index { Some(i) => le_u32(i), None => Seq::<u8>::empty() }));
            assert(c =~= b + (match self.offset { Some(o) => le_u32(o), None => Seq::<u8>::empty() }));
            assert(out@ =~= start + self.spec_encode());
        }
    }
}

/// The older mesh fragment. Float fields are kept as the bits of their
/// `f32`s.
///
/// **Type ID:** 0x2c
#[derive(Debug, PartialEq)]
pub struct DmSpriteDef {
    pub name_reference: StringReference,
    pub flags: u32,
    pub vertex_count: u32,
    pub texture_coordinate_count: u32,
    pub normal_count: u32,
    pub color_count: u32,
    pub face_count: u32,
    pub meshop_count: u16,
    pub fragment1: i16,
    pub skin_assignment_group_count: u32,
    pub material_list_ref: FragmentRef,
    pub fragment3: u32,
    pub center: (u32, u32, u32),
    pub params1: (u32, u32, u32),
    pub vertices: Vec<(u32, u32, u32)>,
    pub texture_coordinates: Vec<(u32, u32)>,
    pub vertex_normals: Vec<(u32, u32, u32)>,
    pub vertex_colors: Vec<u32>,
    pub faces: Vec<DmSpriteDefFaceEntry>,
    pub meshops: Vec<DmSpriteDefMeshopEntry>,
    pub skin_assignment_groups: Vec<(u16, u16)>,
    pub size8: Option<u32>,
    pub data8: Option<Vec<u32>>,
    pub face_material_group_count: Option<u32>,
    pub face_material_groups: Option<Vec<(u16, u16)>>,
    pub vertex_material_group_count: Option<u32>,
    pub vertex_material_groups: Option<Vec<(u16, u16)>>,
    pub params2: Option<(u32, u32, u32)>,
    pub params3: Option<((u32, u32, u32), (u32, u32, u32))>,
}

/// Where each part of the mesh stored at the start of `s` begins, and (last)
/// where it ends, if every part is there: the 68-byte header; vertices (12
/// bytes each), texture coordinates (8), normals (12), colors (4), faces
/// (16), mesh operations (12) and skin assignment groups (4); then, as the
/// flags' bits 9, 11, 12, 13 and 14 say, the counted extra data, the
/// counted face and vertex material groups (4 bytes each), three more
/// parameters and six more.
pub open spec fn sprite_layout(s: Seq<u8>) -> Option<Seq<int>> {
    if s.len() < 68 {
        None
    } else {
        let flags = u32_at(s, 4);
        let o0 = 68int;
        let o1 = o0 + 12 * u32_at(s, 8);
        let o2 = o1 + 8 * u32_at(s, 12);
        let o3 = o2 + 12 * u32_at(s, 16);
        let o4 = o3 + 4 * u32_at(s, 20);
        let o5 = o4 + 16 * u32_at(s, 24);
        let o6 = o5 + 12 * u16_at(s, 28);
        let o7 = o6 + 4 * u32_at(s, 32);
        if s.len() < o7 {
            None
        } else {
            let t1 = if flags & 0x200 == 0x200 { counted_end::<u32>(s, o7) } else { Some(o7) };
            match t1 {
                None => None,
                Some(t1) => {
                    let t2 = if flags & 0x800 == 0x800 { counted_end::<(u16, u16)>(s, t1) } else { Some(t1) };
                    match t2 {
                        None => None,
                        Some(t2) => {
                            let t3 = if flags & 0x1000 == 0x1000 { counted_end::<(u16, u16)>(s, t2) } else { Some(t2) };
                            match t3 {
                                None => None,
                                Some(t3) => {
                                    let t4 = if flags & 0x2000 == 0x2000 { t3 + 12 } else { t3 };
                                    let t5 = if flags & 0x4000 == 0x4000 { t4 + 24 } else { t4 };
                                    if s.len() < t5 {
                                        None
                                    } else {
                                        Some(seq![o0, o1, o2, o3, o4, o5, o6, o7, t1, t2, t3, t4, t5])
                                    }
                                },
                            }
                        },
                    }
                },
            }
        }
    }
}

/// Whether an optional count and records are there exactly when `present`,
/// the count being the number of records, each well formed.
pub open spec fn counted_wf<T: FixedRecord>(present: bool, c: Option<u32>, v: Option<Vec<T>>) -> bool {
    if present {
        &&& c is Some
        &&& v matches Some(x) && x@.len() == c->Some_0 && forall|i: int| 0 <= i < x@.len() ==> (#[trigger] x@[i]).spec_wf()
    } else {
        c is None && v is None
    }
}

/// Whether the optional part read from `p` when `present` is what the
/// count and records say.
pub open spec fn counted_part<T: FixedRecord>(present: bool, s: Seq<u8>, p: int, c: Option<u32>, v: Option<Vec<T>>) -> bool {
    if present {
        c == Some(u32_at(s, p)) && (v matches Some(x) && x@ == records_at::<T>(s, p + 4, u32_at(s, p) as nat))
    } else {
        c is None && v is None
    }
}

fn triple_at(input: &[u8], pos: usize) -> (r: (u32, u32, u32))
    requires
        pos + 12 <= input@.len(),
    ensures
        r == <(u32, u32, u32) as FixedRecord>::spec_decode(input@.skip(pos as int)),
{
    <(u32, u32, u32) as FixedRecord>::read(input, pos)
}

impl DmSpriteDef {
    pub const TYPE_ID: u32 = 0x2c;

    /// The first 44 bytes of the header: the name, the flags, the counts and
    /// the references.
    pub open spec fn spec_header_fields(&self) -> Seq<u8> {
        self.name_reference.spec_to_bytes() + le_u32(self.flags) + le_u32(self.vertex_count) + le_u32(
            self.texture_coordinate_count,
        ) + le_u32(self.normal_count) + le_u32(self.color_count) + le_u32(self.face_count) + le_u16(
            self.meshop_count,
        ) + le_i16(self.fragment1) + le_u32(self.skin_assignment_group_count)
            + self.material_list_ref.spec_to_bytes() + le_u32(self.fragment3)
    }

    /// The 68-byte header: the fields, the center and the first parameters.
    pub open spec fn spec_header(&self) -> Seq<u8> {
        self.spec_header_fields() + self.center.spec_encode() + self.params1.spec_encode()
    }

    pub open spec fn spec_lists(&self) -> Seq<u8> {
        records_bytes(self.vertices@) + records_bytes(self.texture_coordinates@) + records_bytes(
            self.vertex_normals@,
        ) + records_bytes(self.vertex_colors@) + records_bytes(self.faces@) + records_bytes(self.meshops@)
            + records_bytes(self.skin_assignment_groups@)
    }

    pub open spec fn spec_optional(&self) -> Seq<u8> {
        counted_bytes(self.size8, self.data8) + counted_bytes(self.face_material_group_count, self.face_material_groups)
            + counted_bytes(self.vertex_material_group_count, self.vertex_material_groups) + self.spec_params()
    }

    /// The stored form of the optional parameters.
    pub open spec fn spec_params(&self) -> Seq<u8> {
        (match self.params2 {
            Some(p) => p.spec_encode(),
            None => Seq::empty(),
        }) + (match self.params3 {
            Some(p) => p.0.spec_encode() + p.1.spec_encode(),
            None => Seq::empty(),
        })
    }

    /// The stored form: header, lists, then the optional parts present.
    pub open spec fn spec_to_bytes(&self) -> Seq<u8> {
        self.spec_header() + self.spec_lists() + self.spec_optional()
    }

    /// The reference is well formed, the counts are the lengths of the lists,
    /// each mesh operation has the fields its type calls for, and the
    /// optional parts are there exactly when the flags say.
    pub open spec fn wf(&self) -> bool {
        let flags = self.flags;
        &&& self.material_list_ref.wf()
        &&& self.vertices@.len() == self.vertex_count
        &&& self.texture_coordinates@.len() == self.texture_coordinate_count
        &&& self.vertex_normals@.len() == self.normal_count
        &&& self.vertex_colors@.len() == self.color_count
        &&& self.faces@.len() == self.face_count
        &&& self.meshops@.len() == self.meshop_count
        &&& (forall|i: int| 0 <= i < self.meshops@.len() ==> (#[trigger] self.meshops@[i]).spec_wf())
        &&& self.skin_assignment_groups@.len() == self.skin_assignment_group_count
        &&& counted_wf(flags & 0x200 == 0x200, self.size8, self.data8)
        &&& counted_wf(flags & 0x800 == 0x800, self.face_material_group_count, self.face_material_groups)
        &&& counted_wf(flags & 0x1000 == 0x1000, self.vertex_material_group_count, self.vertex_material_groups)
        &&& (self.params2 is Some <==> flags & 0x2000 == 0x2000)
        &&& (self.params3 is Some <==> flags & 0x4000 == 0x4000)
    }

    /// Whether `f` is the mesh stored at the start of `s`, whose layout is
    /// `o`.
    pub open spec fn read_from(s: Seq<u8>, o: Seq<int>, f: DmSpriteDef) -> bool {
        let flags = u32_at(s, 4);
        &&& f.name_reference.0 == i32_at(s, 0)
        &&& f.flags == flags
        &&& f.vertex_count == u32_at(s, 8)
        &&& f.texture_coordinate_count == u32_at(s, 12)
        &&& f.normal_count == u32_at(s, 16)
        &&& f.color_count == u32_at(s, 20)
        &&& f.face_count == u32_at(s, 24)
        &&& f.meshop_count == u16_at(s, 28)
        &&& f.fragment1 == i16_at(s, 30)
        &&& f.skin_assignment_group_count == u32_at(s, 32)
        &&& f.material_list_ref == FragmentRef::spec_new(i32_at(s, 36))
        &&& f.fragment3 == u32_at(s, 40)
        &&& f.center == <(u32, u32, u32) as FixedRecord>::spec_decode(s.skip(44))
        &&& f.params1 == <(u32, u32, u32) as FixedRecord>::spec_decode(s.skip(56))
        &&& f.vertices@ == records_at::<(u32, u32, u32)>(s, o[0], f.vertex_count as nat)
        &&& f.texture_coordinates@ == records_at::<(u32, u32)>(s, o[1], f.texture_coordinate_count as nat)
        &&& f.vertex_normals@ == records_at::<(u32, u32, u32)>(s, o[2], f.normal_count as nat)
        &&& f.vertex_colors@ == records_at::<u32>(s, o[3], f.color_count as nat)
        &&& f.faces@ == records_at::<DmSpriteDefFaceEntry>(s, o[4], f.face_count as nat)
        &&& f.meshops@ == records_at::<DmSpriteDefMeshopEntry>(s, o[5], f.meshop_count as nat)
        &&& f.skin_assignment_groups@ == records_at::<(u16, u16)>(s, o[6], f.skin_assignment_group_count as nat)
        &&& counted_part::<u32>(flags & 0x200 == 0x200, s, o[7], f.size8, f.data8)
        &&& counted_part::<(u16, u16)>(flags & 0x800 == 0x800, s, o[8], f.face_material_group_count, f.face_material_groups)
        &&& counted_part::<(u16, u16)>(flags & 0x1000 == 0x1000, s, o[9], f.vertex_material_group_count, f.vertex_material_groups)
        &&& f.params2 == if flags & 0x2000 == 0x2000 {
            Some(<(u32, u32, u32) as FixedRecord>::spec_decode(s.skip(o[10])))
        } else {
            None::<(u32, u32, u32)>
        }
        &&& f.params3 == if flags & 0x4000 == 0x4000 {
            Some((<(u32, u32, u32) as FixedRecord>::spec_decode(s.skip(o[11])),
                <(u32, u32, u32) as FixedRecord>::spec_decode(s.skip(o[11] + 12))))
        } else {
            None::<((u32, u32, u32), (u32, u32, u32))>
        }
    }

    #[verifier::rlimit(100)]
    #[verifier::spinoff_prover]
    pub fn parse(input: &[u8]) -> (r: WResult<'_, DmSpriteDef>)
        ensures
            match sprite_layout(input@) {
                None => r == Err::<(&[u8], DmSpriteDef), WldDocError>(too_short_spec(input@)),
                Some(o) => r matches Ok((rest, f)) && Self::read_from(input@, o, f) && rest@ == input@.skip(o[12]),
            },
    {
        if input.len() < 68 {
            return Err(too_short(input));
        }
        let ghost s = input@;
        let name_reference = StringReference::new(crate::bytes::read_i32(input, 0));
        let flags = read_u32(input, 4);
        let vertex_count = read_u32(input, 8);
        let texture_coordinate_count = read_u32(input, 12);
        let normal_count = read_u32(input, 16);
        let color_count = read_u32(input, 20);
        let face_count = read_u32(input, 24);
        let meshop_count = read_u16(input, 28);
        let fragment1 = read_i16(input, 30);
        let skin_assignment_group_count = read_u32(input, 32);
        let material_list_ref = FragmentRef::new(crate::bytes::read_i32(input, 36));
        let fragment3 = read_u32(input, 40);
        let center = triple_at(input, 44);
        let params1 = triple_at(input, 56);
        let (vertices, p1) = match parse_records::<(u32, u32, u32)>(input, 68, vertex_count) {
            Some(x) => x,
            None => return Err(too_short(input)),
        };
        let (texture_coordinates, p2) = match parse_records::<(u32, u32)>(input, p1, texture_coordinate_count) {
            Some(x) => x,
            None => return Err(too_short(input)),
        };
        let (vertex_normals, p3) = match parse_records::<(u32, u32, u32)>(input, p2, normal_count) {
            Some(x) => x,
            None => return Err(too_short(input)),
        };
        let (vertex_colors, p4) = match parse_records::<u32>(input, p3, color_count) {
            Some(x) => x,
            None => return Err(too_short(input)),
        };
        let (faces, p5) = match parse_records::<DmSpriteDefFaceEntry>(input, p4, face_count) {
            Some(x) => x,
            None => return Err(too_short(input)),
        };
        let (meshops, p6) = match parse_records::<DmSpriteDefMeshopEntry>(input, p5, meshop_count as u32) {
            Some(x) => x,
            None => return Err(too_short(input)),
        };
        let (skin_assignment_groups, p7) = match parse_records::<(u16, u16)>(input, p6, skin_assignment_group_count) {
            Some(x) => x,
            None => return Err(too_short(input)),
        };
        let (size8, data8, t1) = match parse_counted::<u32>(input, p7, flags & 0x200 == 0x200) {
            Some(x) => x,
            None => return Err(too_short(input)),
        };
        let (face_material_group_count, face_material_groups, t2) = match parse_counted::<(u16, u16)>(
            input,
            t1,
            flags & 0x800 == 0x800,
        ) {
            Some(x) => x,
            None => return Err(too_short(input)),
        };
        let (vertex_material_group_count, vertex_material_groups, t3) = match parse_counted::<(u16, u16)>(
            input,
            t2,
            flags & 0x1000 == 0x1000,
        ) {
            Some(x) => x,
            None => return Err(too_short(input)),
        };
        let len = input.len();
        let mut t4 = t3;
        let params2 = if flags & 0x2000 == 0x2000 {
            if len - t3 < 12 {
                return Err(too_short(input));
            }
            t4 = t3 + 12;
            Some(triple_at(input, t3))
        } else {
            None
        };
        let mut t5 = t4;
        let params3 = if flags & 0x4000 == 0x4000 {
            if len - t4 < 24 {
                return Err(too_short(input));
            }
            t5 = t4 + 24;
            Some((triple_at(input, t4), triple_at(input, t4 + 12)))
        } else {
            None
        };
        Ok((rest(input, t5), DmSpriteDef {
            name_reference,
            flags,
            vertex_count,
            texture_coordinate_count,
            normal_count,
            color_count,
            face_count,
            meshop_count,
            fragment1,
            skin_assignment_group_count,
            material_list_ref,
            fragment3,
            center,
            params1,
            vertices,
            texture_coordinates,
            vertex_normals,
            vertex_colors,
            faces,
            meshops,
            skin_assignment_groups,
            size8,
            data8,
            face_material_group_count,
            face_material_groups,
            vertex_material_group_count,
            vertex_material_groups,
            params2,
            params3,
        }))
    }
}

impl DmSpriteDef {
    fn header_bytes(&self) -> (r: Vec<u8>)
        ensures
            r@ == self.spec_header(),
    {
        let mut out = self.name_reference.into_bytes();
        push_u32(&mut out, self.flags);
        push_u32(&mut out, self.vertex_count);
        push_u32(&mut out, self.texture_coordinate_count);
        push_u32(&mut out, self.normal_count);
        push_u32(&mut out, self.color_count);
        push_u32(&mut out, self.face_count);
        push_u16(&mut out, self.meshop_count);
        push_i16(&mut out, self.fragment1);
        push_u32(&mut out, self.skin_assignment_group_count);
        let b = self.material_list_ref.into_bytes();
        append_bytes(&mut out, b.as_slice());
        push_u32(&mut out, self.fragment3);
        self.center.write(&mut out);
        self.params1.write(&mut out);
        proof {
            assert(out@ =~= self.spec_header());
        }
        out
    }

    fn push_lists(&self, out: &mut Vec<u8>)
        ensures
            final(out)@ == old(out)@ + self.spec_lists(),
    {
        push_records(out, &self.vertices);
        push_records(out, &self.texture_coordinates);
        push_records(out, &self.vertex_normals);
        push_records(out, &self.vertex_colors);
        push_records(out, &self.faces);
        push_records(out, &self.meshops);
        push_records(out, &self.skin_assignment_groups);
        proof {
            assert(out@ =~= old(out)@ + self.spec_lists());
        }
    }

    fn push_params(&self, out: &mut Vec<u8>)
        ensures
            final(out)@ == old(out)@ + self.spec_params(),
    {
        let ghost m = out@;
        match self.params2 {
            Some(p) => p.write(out),
            None => {},
        }
        let ghost n = out@;
        match self.params3 {
            Some(p) => {
                p.0.write(out);
                p.1.write(out);
            },
            None => {},
        }
        proof {
            assert(n =~= m + (match self.params2 { Some(p) => p.spec_encode(), None => Seq::<u8>::empty() }));
            assert(out@ =~= n + (match self.params3 {
                Some(p) => p.0.spec_encode() + p.1.spec_encode(),
                None => Seq::<u8>::empty(),
            }));
            assert(out@ =~= m + self.spec_params());
        }
    }

    fn push_optional(&self, out: &mut Vec<u8>)
        ensures
            final(out)@ == old(out)@ + self.spec_optional(),
    {
        let ghost o0 = out@;
        push_counted(out, self.size8, &self.data8);
        push_counted(out, self.face_material_group_count, &self.face_material_groups);
        push_counted(out, self.vertex_material_group_count, &self.vertex_material_groups);
        self.push_params(out);
        proof {
            assert(out@ =~= o0 + self.spec_optional());
        }
    }
}

impl Fragment for DmSpriteDef {
    open spec fn spec_into_bytes(&self) -> Seq<u8> {
        self.spec_to_bytes()
    }

    open spec fn spec_serializable(&self) -> bool {
        true
    }

    fn into_bytes(&self) -> (r: Vec<u8>) {
        let mut out = self.header_bytes();
        self.push_lists(&mut out);
        self.push_optional(&mut out);
        out
    }

    fn name_ref(&self) -> (r: &StringReference)
        ensures
            *r == self.name_reference,
    {
        &self.name_reference
    }

    fn type_id(&self) -> (r: u32)
        ensures
            r == 0x2c,
    {
        Self::TYPE_ID
    }
}

} // verus!
