//! The alternate layout of the older mesh fragment (0x2c), with its polygons
//! and its vertex pieces' operations.
use vstd::prelude::*;
use crate::bytes::{le_u16, le_u32, u16_at, u32_at, read_u16, read_u32, push_u16, push_u32, le_i16, i16_at,
    i32_at, read_i16, read_i32, push_i16};
use crate::wld::parse::{WResult, WldDocError, rest, too_short};
use crate::wld::records::{FixedRecord, records_at, records_bytes, parse_records, push_records, counted_end,
    parse_counted, push_counted, counted_bytes};
use crate::wld::fragments::{too_short_spec, Fragment, StringReference};
use crate::wld::fragments::dm_sprite_def::{counted_part, counted_wf};

verus! {

/// A polygon of an alternate mesh.
#[derive(Debug, Clone, Copy, PartialEq, Eq)]
pub struct AlternateMeshFragmentPolygonEntry {
    pub flags: u16,
    /// _Unknown_.
    pub data: (u16, u16, u16, u16),
    /// The indices of the polygon's three vertices.
    pub vertex_indexes: (u16, u16, u16),
}

impl FixedRecord for AlternateMeshFragmentPolygonEntry {
    open spec fn spec_size() -> nat {
        16
    }

    open spec fn spec_decode(s: Seq<u8>) -> Self {
        AlternateMeshFragmentPolygonEntry {
            flags: u16_at(s, 0),
            data: (u16_at(s, 2), u16_at(s, 4), u16_at(s, 6), u16_at(s, 8)),
            vertex_indexes: (u16_at(s, 10), u16_at(s, 12), u16_at(s, 14)),
        }
    }

    open spec fn spec_encode(&self) -> Seq<u8> {
        le_u16(self.flags) + le_u16(self.data.0) + le_u16(self.data.1) + le_u16(self.data.2) + le_u16(self.data.3)
            + le_u16(self.vertex_indexes.0) + le_u16(self.vertex_indexes.1) + le_u16(self.vertex_indexes.2)
    }

    open spec fn spec_wf(&self) -> bool {
        true
    }

    proof fn lemma_decode_encode(x: Self, tail: Seq<u8>) {
        let s = x.spec_encode() + tail;
        crate::bytes::lemma_u16_roundtrip(x.flags);
        assert(s.subrange(0, 2) =~= le_u16(x.flags));
        crate::bytes::lemma_u16_field(s, 0, x.flags);
        crate::bytes::lemma_u16_roundtrip(x.data.0);
        assert(s.subrange(2, 4) =~= le_u16(x.data.0));
        crate::bytes::lemma_u16_field(s, 2, x.data.0);
        crate::bytes::lemma_u16_roundtrip(x.data.1);
        assert(s.subrange(4, 6) =~= le_u16(x.data.1));
        crate::bytes::lemma_u16_field(s, 4, x.data.1);
        crate::bytes::lemma_u16_roundtrip(x.data.2);
        assert(s.subrange(6, 8) =~= le_u16(x.data.2));
        crate::bytes::lemma_u16_field(s, 6, x.data.2);
        crate::bytes::lemma_u16_roundtrip(x.data.3);
        assert(s.subrange(8, 10) =~= le_u16(x.data.3));
        crate::bytes::lemma_u16_field(s, 8, x.data.3);
        crate::bytes::lemma_u16_roundtrip(x.vertex_indexes.0);
        assert(s.subrange(10, 12) =~= le_u16(x.vertex_indexes.0));
        crate::bytes::lemma_u16_field(s, 10, x.vertex_indexes.0);
        crate::bytes::lemma_u16_roundtrip(x.vertex_indexes.1);
        assert(s.subrange(12, 14) =~= le_u16(x.vertex_indexes.1));
        crate::bytes::lemma_u16_field(s, 12, x.vertex_indexes.1);
        crate::bytes::lemma_u16_roundtrip(x.vertex_indexes.2);
        assert(s.subrange(14, 16) =~= le_u16(x.vertex_indexes.2));
        crate::bytes::lemma_u16_field(s, 14, x.vertex_indexes.2);
    }

    proof fn lemma_encode_decode(s: Seq<u8>) {
        crate::bytes::lemma_u16_bytes(s, 0);
        crate::bytes::lemma_u16_bytes(s, 2);
        crate::bytes::lemma_u16_bytes(s, 4);
        crate::bytes::lemma_u16_bytes(s, 6);
        crate::bytes::lemma_u16_bytes(s, 8);
        crate::bytes::lemma_u16_bytes(s, 10);
        crate::bytes::lemma_u16_bytes(s, 12);
        crate::bytes::lemma_u16_bytes(s, 14);
        assert(Self::spec_decode(s).spec_encode() =~= s.take(16));
    }

    fn size() -> (r: usize) {
        16
    }

    fn read(input: &[u8], pos: usize) -> (r: Self) {
        let ghost t = input@.skip(pos as int);
        let len = input.len();
        let flags = read_u16(input, pos);
        let d0 = read_u16(input, pos + 2);
        let d1 = read_u16(input, pos + 4);
        let d2 = read_u16(input, pos + 6);
        let d3 = read_u16(input, pos + 8);
        let v0 = read_u16(input, pos + 10);
        let v1 = read_u16(input, pos + 12);
        let v2 = read_u16(input, pos + 14);
        assert(u16_at(input@, pos as int) == u16_at(t, 0));
        assert(u16_at(input@, pos + 2) == u16_at(t, 2));
        assert(u16_at(input@, pos + 4) == u16_at(t, 4));
        assert(u16_at(input@, pos + 6) == u16_at(t, 6));
        assert(u16_at(input@, pos + 8) == u16_at(t, 8));
        assert(u16_at(input@, pos + 10) == u16_at(t, 10));
        assert(u16_at(input@, pos + 12) == u16_at(t, 12));
        assert(u16_at(input@, pos + 14) == u16_at(t, 14));
        AlternateMeshFragmentPolygonEntry { flags, data: (d0, d1, d2, d3), vertex_indexes: (v0, v1, v2) }
    }

    fn write(&self, out: &mut Vec<u8>) {
        push_u16(out, self.flags);
        push_u16(out, self.data.0);
        push_u16(out, self.data.1);
        push_u16(out, self.data.2);
        push_u16(out, self.data.3);
        push_u16(out, self.vertex_indexes.0);
        push_u16(out, self.vertex_indexes.1);
        push_u16(out, self.vertex_indexes.2);
        assert(out@ =~= old(out)@ + self.spec_encode());
    }
}

impl AlternateMeshFragmentPolygonEntry {
    pub fn parse(input: &[u8]) -> (r: WResult<'_, AlternateMeshFragmentPolygonEntry>)
        ensures
            input@.len() >= 16 ==> r == Ok::<(&[u8], AlternateMeshFragmentPolygonEntry), WldDocError>(
                (r->Ok_0.0, <Self as FixedRecord>::spec_decode(input@)),
            ) && r->Ok_0.0@ == input@.skip(16),
            input@.len() < 16 ==> r == Err::<(&[u8], AlternateMeshFragmentPolygonEntry), WldDocError>(
                too_short_spec(input@),
            ),
    {
        if input.len() < 16 {
            return Err(too_short(input));
        }
        let e = <Self as FixedRecord>::read(input, 0);
        assert(input@.skip(0) =~= input@);
        Ok((rest(input, 16), e))
    }

    pub fn into_bytes(&self) -> (r: Vec<u8>)
        ensures
            r@ == self.spec_encode(),
    {
        let mut out: Vec<u8> = Vec::new();
        self.write(&mut out);
        proof {
            assert(out@ =~= self.spec_encode());
        }
        out
    }
}

/// An operation on a vertex piece: a vertex index, or (for type 4) an
/// offset kept as the bits of its `f32`; then two parameters and the type.
#[derive(Debug, Clone, Copy, PartialEq, Eq, Structural)]
pub struct AlternateMeshFragmentData6Entry {
    pub vertex_index: Option<u32>,
    pub offset: Option<u32>,
    pub param1: u16,
    pub param2: u16,
    pub type_field: u32,
}

impl FixedRecord for AlternateMeshFragmentData6Entry {
    open spec fn spec_size() -> nat {
        12
    }

    /// Four bytes whose meaning the type (the last four bytes) decides,
    /// then the two parameters.
    open spec fn spec_decode(s: Seq<u8>) -> Self {
        let t = u32_at(s, 8);
        AlternateMeshFragmentData6Entry {
            vertex_index: if t != 4 { Some(u32_at(s, 0)) } else { None },
            offset: if t == 4 { Some(u32_at(s, 0)) } else { None },
            param1: u16_at(s, 4),
            param2: u16_at(s, 6),
            type_field: t,
        }
    }

    open spec fn spec_encode(&self) -> Seq<u8> {
        (match self.vertex_index {
            Some(i) => le_u32(i),
            None => Seq::empty(),
        }) + (match self.offset {
            Some(o) => le_u32(o),
            None => Seq::empty(),
        }) + le_u16(self.param1) + le_u16(self.param2) + le_u32(self.type_field)
    }

    /// The type decides which of the index and the offset is there.
    open spec fn spec_wf(&self) -> bool {
        if self.type_field == 4 {
            self.vertex_index is None && self.offset is Some
        } else {
            self.vertex_index is Some && self.offset is None
        }
    }

    proof fn lemma_decode_encode(x: Self, tail: Seq<u8>) {
        let s = x.spec_encode() + tail;
        let v = if x.type_field == 4 { x.offset->Some_0 } else { x.vertex_index->Some_0 };
        crate::bytes::lemma_u32_roundtrip(x.type_field);
        crate::bytes::lemma_u32_roundtrip(v);
        crate::bytes::lemma_u16_roundtrip(x.param1);
        crate::bytes::lemma_u16_roundtrip(x.param2);
        assert(s.subrange(8, 12) =~= le_u32(x.type_field));
        crate::bytes::lemma_u32_field(s, 8, x.type_field);
        assert(s.subrange(0, 4) =~= le_u32(v));
        crate::bytes::lemma_u32_field(s, 0, v);
        assert(s.subrange(4, 6) =~= le_u16(x.param1));
        crate::bytes::lemma_u16_field(s, 4, x.param1);
        assert(s.subrange(6, 8) =~= le_u16(x.param2));
        crate::bytes::lemma_u16_field(s, 6, x.param2);
    }

    proof fn lemma_encode_decode(s: Seq<u8>) {
        crate::bytes::lemma_u32_bytes(s, 8);
        crate::bytes::lemma_u32_bytes(s, 0);
        crate::bytes::lemma_u16_bytes(s, 4);
        crate::bytes::lemma_u16_bytes(s, 6);
        assert(Self::spec_decode(s).spec_encode() =~= s.take(12));
    }

    fn size() -> (r: usize) {
        12
    }

    fn read(input: &[u8], pos: usize) -> (r: Self) {
        let ghost t = input@.skip(pos as int);
        let len = input.len();
        let x = read_u32(input, pos);
        let param1 = read_u16(input, pos + 4);
        let param2 = read_u16(input, pos + 6);
        let type_field = read_u32(input, pos + 8);
        assert(u32_at(input@, pos as int) == u32_at(t, 0));
        assert(u16_at(input@, pos + 4) == u16_at(t, 4));
        assert(u16_at(input@, pos + 6) == u16_at(t, 6));
        assert(u32_at(input@, pos + 8) == u32_at(t, 8));
        if type_field == 4 {
            AlternateMeshFragmentData6Entry { vertex_index: None, offset: Some(x), param1, param2, type_field }
        } else {
            AlternateMeshFragmentData6Entry { vertex_index: Some(x), offset: None, param1, param2, type_field }
        }
    }

    fn write(&self, out: &mut Vec<u8>) {
        let ghost start = out@;
        match self.vertex_index {
            Some(i) => push_u32(out, i),
            None => {},
        }
        let ghost a = out@;
        match self.offset {
            Some(o) => push_u32(out, o),
            None => {},
        }
        let ghost b = out@;
        push_u16(out, self.param1);
        push_u16(out, self.param2);
        push_u32(out, self.type_field);
        proof {
            assert(a =~= start + (match self.vertex_index { Some(i) => le_u32(i), None => Seq::<u8>::empty() }));
            assert(b =~= a + (match self.offset { Some(o) => le_u32(o), None => Seq::<u8>::empty() }));
            assert(out@ =~= start + self.spec_encode());
        }
    }
}

/// The older mesh read with the alternate layout: a shorter header, then
/// the vertex pieces' operations and extra data as the flags say. Float
/// fields are kept as the bits of their `f32`s.
///
/// **Type ID:** 0x2c
#[derive(Debug, PartialEq)]
pub struct AlternateMeshFragment {
    pub name_reference: StringReference,
    pub flags: u32,
    pub vertex_count: u32,
    pub tex_coords_count: u32,
    pub normals_count: u32,
    pub size4: u32,
    pub polygon_count: u32,
    pub size6: u16,
    pub vertex_piece_count: i16,
    pub fragment1: u32,
    pub fragment2: u32,
    pub fragment3: u32,
    pub center: (u32, u32, u32),
    pub params2: u32,
    pub vertices: Vec<(u32, u32, u32)>,
    pub texture_coords: Vec<(u32, u32)>,
    pub normals: Vec<(u32, u32, u32)>,
    pub data4: Vec<u32>,
    pub polygons: Vec<AlternateMeshFragmentPolygonEntry>,
    pub data6: Vec<AlternateMeshFragmentData6Entry>,
    pub vertex_pieces: Vec<(u16, u16)>,
    pub size8: Option<u32>,
    pub data8: Option<Vec<u32>>,
    pub params4: Vec<u16>,
    /// `fragment1` entries when bit 0 of the flags is clear, else none.
    pub data9: Vec<(u16, u16)>,
    pub polygontex_count: Option<u32>,
    pub polygontex_entries: Option<Vec<(u16, u16)>>,
    pub vertex_material_count: Option<u32>,
    pub vertex_materials: Option<Vec<(u16, u16)>>,
    pub params3: Option<(u32, u32, u32)>,
    pub params5: Option<(u32, u32, u32, u32, u32, u32)>,
}

/// Where the vertex pieces' operations of the mesh stored at the start of
/// `s` begin: after the 60-byte header, the vertices (12 bytes each),
/// texture coordinates (8), normals (12), extra words (4) and polygons (16).
pub open spec fn alt_data6_at(s: Seq<u8>) -> int {
    60 + 12 * u32_at(s, 8) + 8 * u32_at(s, 12) + 12 * u32_at(s, 16) + 4 * u32_at(s, 20) + 16 * u32_at(s, 24)
}

/// Where each part of the mesh stored at the start of `s` begins, and
/// (last) where it ends, if every part is there: the lists, the vertex
/// pieces (4 bytes each; none fit when their count is negative), the
/// counted extra words (bit 9), four 16-bit parameters, `fragment1` pairs
/// (when bit 0 is clear), the counted polygon and vertex material groups
/// (bits 11 and 12), three parameters (bit 13) and six more (bit 14).
pub open spec fn alt_layout(s: Seq<u8>) -> Option<Seq<int>> {
    if s.len() < 60 {
        None
    } else {
        let flags = u32_at(s, 4);
        let vpc = i16_at(s, 30);
        let o0 = 60int;
        let o1 = o0 + 12 * u32_at(s, 8);
        let o2 = o1 + 8 * u32_at(s, 12);
        let o3 = o2 + 12 * u32_at(s, 16);
        let o4 = o3 + 4 * u32_at(s, 20);
        let o5 = o4 + 16 * u32_at(s, 24);
        let o6 = o5 + 12 * u16_at(s, 28);
        let o7 = o6 + 4 * vpc;
        if vpc < 0 || s.len() < o7 {
            None
        } else {
            match alt_tail_layout(s, o7, flags, u32_at(s, 32)) {
                None => None,
                Some(t) => Some(seq![o0, o1, o2, o3, o4, o5, o6, o7, t[0], t[1], t[2], t[3], t[4], t[5], t[6]]),
            }
        }
    }
}

/// Where each part after the vertex pieces, which end at `o7`, begins, and
/// (last) where the mesh ends, if every part is there.
pub open spec fn alt_tail_layout(s: Seq<u8>, o7: int, flags: u32, fragment1: u32) -> Option<Seq<int>> {
    match alt_groups_layout(s, o7, flags, fragment1) {
        None => None,
        Some(g) => {
            let t6 = if flags & 0x2000 == 0x2000 { g[4] + 12 } else { g[4] };
            let t7 = if flags & 0x4000 == 0x4000 { t6 + 24 } else { t6 };
            if s.len() < t7 {
                None
            } else {
                Some(seq![g[0], g[1], g[2], g[3], g[4], t6, t7])
            }
        },
    }
}

/// Where the counted words, the four parameters, the pairs and the counted
/// groups after the vertex pieces (which end at `o7`) begin, and (last)
/// where they end, if they are all there.
pub open spec fn alt_groups_layout(s: Seq<u8>, o7: int, flags: u32, fragment1: u32) -> Option<Seq<int>> {
    let t1 = if flags & 0x200 == 0x200 { counted_end::<u32>(s, o7) } else { Some(o7) };
    match t1 {
        None => None,
        Some(t1) => {
            let t2 = t1 + 8;
            let t3 = if flags & 0x01 == 0x01 { t2 } else { t2 + 4 * fragment1 };
            if s.len() < t3 {
                None
            } else {
                let t4 = if flags & 0x800 == 0x800 { counted_end::<(u16, u16)>(s, t3) } else { Some(t3) };
                match t4 {
                    None => None,
                    Some(t4) => {
                        let t5 = if flags & 0x1000 == 0x1000 {
                            counted_end::<(u16, u16)>(s, t4)
                        } else {
                            Some(t4)
                        };
                        match t5 {
                            None => None,
                            Some(t5) => Some(seq![t1, t2, t3, t4, t5]),
                        }
                    },
                }
            }
        },
    }
}

/// The counted words, parameters, pairs and counted groups after the vertex
/// pieces of a mesh with the alternate layout.
struct AltGroups {
    size8: Option<u32>,
    data8: Option<Vec<u32>>,
    params4: Vec<u16>,
    data9: Vec<(u16, u16)>,
    polygontex_count: Option<u32>,
    polygontex_entries: Option<Vec<(u16, u16)>>,
    vertex_material_count: Option<u32>,
    vertex_materials: Option<Vec<(u16, u16)>>,
    end: usize,
}

/// Reads the counted words, parameters, pairs and counted groups after the
/// vertex pieces, which end at `p`, as the flags and the first fragment field
/// say.
#[verifier::spinoff_prover]
#[verifier::rlimit(100)]
fn parse_alt_groups(input: &[u8], p: usize, flags: u32, fragment1: u32) -> (r: Option<AltGroups>)
    requires
        p <= input@.len(),
    ensures
        match alt_groups_layout(input@, p as int, flags, fragment1) {
            None => r is None,
            Some(g) => r matches Some(x) && {
                let s = input@;
                &&& counted_part::<u32>(flags & 0x200 == 0x200, s, p as int, x.size8, x.data8)
                &&& x.params4@ == records_at::<u16>(s, g[0], 4)
                &&& x.data9@ == records_at::<(u16, u16)>(s, g[1], if flags & 0x01 == 0x01 { 0 } else { fragment1 as nat })
                &&& counted_part::<(u16, u16)>(flags & 0x800 == 0x800, s, g[2], x.polygontex_count, x.polygontex_entries)
                &&& counted_part::<(u16, u16)>(flags & 0x1000 == 0x1000, s, g[3], x.vertex_material_count, x.vertex_materials)
                &&& x.end == g[4]
                &&& g[4] <= s.len()
            },
        },
{
    let (size8, data8, t1) = match parse_counted::<u32>(input, p, flags & 0x200 == 0x200) {
        Some(x) => x,
        None => return None,
    };
    let (params4, t2) = match parse_records::<u16>(input, t1, 4) {
        Some(x) => x,
        None => return None,
    };
    let n9: u32 = if flags & 0x01 == 0x01 { 0 } else { fragment1 };
    let (data9, t3) = match parse_records::<(u16, u16)>(input, t2, n9) {
        Some(x) => x,
        None => return None,
    };
    let (polygontex_count, polygontex_entries, t4) = match parse_counted::<(u16, u16)>(
        input,
        t3,
        flags & 0x800 == 0x800,
    ) {
        Some(x) => x,
        None => return None,
    };
    let (vertex_material_count, vertex_materials, t5) = match parse_counted::<(u16, u16)>(
        input,
        t4,
        flags & 0x1000 == 0x1000,
    ) {
        Some(x) => x,
        None => return None,
    };
    Some(AltGroups {
        size8,
        data8,
        params4,
        data9,
        polygontex_count,
        polygontex_entries,
        vertex_material_count,
        vertex_materials,
        end: t5,
    })
}

/// What follows the vertex pieces of a mesh with the alternate layout.
struct AltTail {
    size8: Option<u32>,
    data8: Option<Vec<u32>>,
    params4: Vec<u16>,
    data9: Vec<(u16, u16)>,
    polygontex_count: Option<u32>,
    polygontex_entries: Option<Vec<(u16, u16)>>,
    vertex_material_count: Option<u32>,
    vertex_materials: Option<Vec<(u16, u16)>>,
    params3: Option<(u32, u32, u32)>,
    params5: Option<(u32, u32, u32, u32, u32, u32)>,
    end: usize,
}

/// Reads what follows the vertex pieces, which end at `p`, as the flags and
/// the first fragment field say.
#[verifier::spinoff_prover]
#[verifier::rlimit(100)]
fn parse_alt_tail(input: &[u8], p: usize, flags: u32, fragment1: u32) -> (r: Option<AltTail>)
    requires
        p <= input@.len(),
    ensures
        match alt_tail_layout(input@, p as int, flags, fragment1) {
            None => r is None,
            Some(t) => r matches Some(x) && {
                let s = input@;
                &&& counted_part::<u32>(flags & 0x200 == 0x200, s, p as int, x.size8, x.data8)
                &&& x.params4@ == records_at::<u16>(s, t[0], 4)
                &&& x.data9@ == records_at::<(u16, u16)>(s, t[1], if flags & 0x01 == 0x01 { 0 } else { fragment1 as nat })
                &&& counted_part::<(u16, u16)>(flags & 0x800 == 0x800, s, t[2], x.polygontex_count, x.polygontex_entries)
                &&& counted_part::<(u16, u16)>(flags & 0x1000 == 0x1000, s, t[3], x.vertex_material_count, x.vertex_materials)
                &&& x.params3 == if flags & 0x2000 == 0x2000 {
                    Some(<(u32, u32, u32) as FixedRecord>::spec_decode(s.skip(t[4])))
                } else {
                    None::<(u32, u32, u32)>
                }
                &&& x.params5 == if flags & 0x4000 == 0x4000 {
                    Some(six_at(s, t[5]))
                } else {
                    None::<(u32, u32, u32, u32, u32, u32)>
                }
                &&& x.end == t[6]
            },
        },
{
    let len = input.len();
    let g = match parse_alt_groups(input, p, flags, fragment1) {
        Some(x) => x,
        None => return None,
    };
    let t5 = g.end;
    let mut t6 = t5;
    let params3 = if flags & 0x2000 == 0x2000 {
        if len - t5 < 12 {
            return None;
        }
        t6 = t5 + 12;
        Some(<(u32, u32, u32) as FixedRecord>::read(input, t5))
    } else {
        None
    };
    let mut t7 = t6;
    let params5 = if flags & 0x4000 == 0x4000 {
        if len - t6 < 24 {
            return None;
        }
        t7 = t6 + 24;
        Some((
            read_u32(input, t6),
            read_u32(input, t6 + 4),
            read_u32(input, t6 + 8),
            read_u32(input, t6 + 12),
            read_u32(input, t6 + 16),
            read_u32(input, t6 + 20),
        ))
    } else {
        None
    };
    Some(AltTail {
        size8: g.size8,
        data8: g.data8,
        params4: g.params4,
        data9: g.data9,
        polygontex_count: g.polygontex_count,
        polygontex_entries: g.polygontex_entries,
        vertex_material_count: g.vertex_material_count,
        vertex_materials: g.vertex_materials,
        params3,
        params5,
        end: t7,
    })
}

/// The six `u32`s stored from `p`.
pub open spec fn six_at(s: Seq<u8>, p: int) -> (u32, u32, u32, u32, u32, u32) {
    (u32_at(s, p), u32_at(s, p + 4), u32_at(s, p + 8), u32_at(s, p + 12), u32_at(s, p + 16), u32_at(s, p + 20))
}

impl AlternateMeshFragment {
    pub const TYPE_ID: u32 = 0x2c;

    /// The first 44 bytes of the header: the name, the flags, the counts and
    /// the fragment fields.
    pub open spec fn spec_header_fields(&self) -> Seq<u8> {
        self.name_reference.spec_to_bytes() + le_u32(self.flags) + le_u32(self.vertex_count) + le_u32(
            self.tex_coords_count,
        ) + le_u32(self.normals_count) + le_u32(self.size4) + le_u32(self.polygon_count) + le_u16(self.size6)
            + le_i16(self.vertex_piece_count) + le_u32(self.fragment1) + le_u32(self.fragment2) + le_u32(
            self.fragment3,
        )
    }

    /// The 60-byte header: the fields, the center and the second parameter.
    pub open spec fn spec_header(&self) -> Seq<u8> {
        self.spec_header_fields() + self.center.spec_encode() + le_u32(self.params2)
    }

    /// The counts agree with the lists, each operation has the fields its
    /// type calls for, and the optional parts are there exactly when the
    /// flags say.
    pub open spec fn wf(&self) -> bool {
        let flags = self.flags;
        &&& self.vertices@.len() == self.vertex_count
        &&& self.texture_coords@.len() == self.tex_coords_count
        &&& self.normals@.len() == self.normals_count
        &&& self.data4@.len() == self.size4
        &&& self.polygons@.len() == self.polygon_count
        &&& self.data6@.len() == self.size6
        &&& (forall|i: int| 0 <= i < self.data6@.len() ==> (#[trigger] self.data6@[i]).spec_wf())
        &&& self.vertex_piece_count >= 0
        &&& self.vertex_pieces@.len() == self.vertex_piece_count
        &&& counted_wf(flags & 0x200 == 0x200, self.size8, self.data8)
        &&& self.params4@.len() == 4
        &&& self.data9@.len() == if flags & 0x01 == 0x01 { 0 } else { self.fragment1 as int }
        &&& counted_wf(flags & 0x800 == 0x800, self.polygontex_count, self.polygontex_entries)
        &&& counted_wf(flags & 0x1000 == 0x1000, self.vertex_material_count, self.vertex_materials)
        &&& (self.params3 is Some <==> flags & 0x2000 == 0x2000)
        &&& (self.params5 is Some <==> flags & 0x4000 == 0x4000)
    }

    /// The lists after the header.
    pub open spec fn spec_lists(&self) -> Seq<u8> {
        records_bytes(self.vertices@) + records_bytes(self.texture_coords@) + records_bytes(self.normals@)
            + records_bytes(self.data4@) + records_bytes(self.polygons@) + records_bytes(self.data6@)
            + records_bytes(self.vertex_pieces@)
    }

    /// What follows the lists. The six parameters of bit 14 are not written.
    pub open spec fn spec_tail(&self) -> Seq<u8> {
        counted_bytes(self.size8, self.data8) + records_bytes(self.params4@) + records_bytes(self.data9@)
            + counted_bytes(self.polygontex_count, self.polygontex_entries) + counted_bytes(
            self.vertex_material_count,
            self.vertex_materials,
        ) + (match self.params3 {
            Some(p) => p.spec_encode(),
            None => Seq::empty(),
        })
    }

    /// The stored form: header, lists, then what follows them.
    pub open spec fn spec_to_bytes(&self) -> Seq<u8> {
        self.spec_header() + self.spec_lists() + self.spec_tail()
    }

    /// Whether `f` is the mesh stored at the start of `s`, whose layout is
    /// `o`.
    pub open spec fn read_from(s: Seq<u8>, o: Seq<int>, f: AlternateMeshFragment) -> bool {
        let flags = u32_at(s, 4);
        &&& f.name_reference.0 == i32_at(s, 0)
        &&& f.flags == flags
        &&& f.vertex_count == u32_at(s, 8)
        &&& f.tex_coords_count == u32_at(s, 12)
        &&& f.normals_count == u32_at(s, 16)
        &&& f.size4 == u32_at(s, 20)
        &&& f.polygon_count == u32_at(s, 24)
        &&& f.size6 == u16_at(s, 28)
        &&& f.vertex_piece_count == i16_at(s, 30)
        &&& f.fragment1 == u32_at(s, 32)
        &&& f.fragment2 == u32_at(s, 36)
        &&& f.fragment3 == u32_at(s, 40)
        &&& f.center == <(u32, u32, u32) as FixedRecord>::spec_decode(s.skip(44))
        &&& f.params2 == u32_at(s, 56)
        &&& f.vertices@ == records_at::<(u32, u32, u32)>(s, o[0], f.vertex_count as nat)
        &&& f.texture_coords@ == records_at::<(u32, u32)>(s, o[1], f.tex_coords_count as nat)
        &&& f.normals@ == records_at::<(u32, u32, u32)>(s, o[2], f.normals_count as nat)
        &&& f.data4@ == records_at::<u32>(s, o[3], f.size4 as nat)
        &&& f.polygons@ == records_at::<AlternateMeshFragmentPolygonEntry>(s, o[4], f.polygon_count as nat)
        &&& f.data6@ == records_at::<AlternateMeshFragmentData6Entry>(s, o[5], f.size6 as nat)
        &&& f.vertex_pieces@ == records_at::<(u16, u16)>(s, o[6], f.vertex_piece_count as nat)
        &&& counted_part::<u32>(flags & 0x200 == 0x200, s, o[7], f.size8, f.data8)
        &&& f.params4@ == records_at::<u16>(s, o[8], 4)
        &&& f.data9@ == records_at::<(u16, u16)>(
            s,
            o[9],
            if flags & 0x01 == 0x01 { 0 } else { f.fragment1 as nat },
        )
        &&& counted_part::<(u16, u16)>(flags & 0x800 == 0x800, s, o[10], f.polygontex_count, f.polygontex_entries)
        &&& counted_part::<(u16, u16)>(flags & 0x1000 == 0x1000, s, o[11], f.vertex_material_count, f.vertex_materials)
        &&& f.params3 == if flags & 0x2000 == 0x2000 {
            Some(<(u32, u32, u32) as FixedRecord>::spec_decode(s.skip(o[12])))
        } else {
            None::<(u32, u32, u32)>
        }
        &&& f.params5 == if flags & 0x4000 == 0x4000 {
            Some(six_at(s, o[13]))
        } else {
            None::<(u32, u32, u32, u32, u32, u32)>
        }
    }

    /// Reads a mesh with the alternate layout. An operation of a vertex
    /// piece that the input cuts off must keep at least its first four
    /// bytes.
    #[verifier::rlimit(100)]
    #[verifier::spinoff_prover]
    pub fn parse(input: &[u8]) -> (r: WResult<'_, AlternateMeshFragment>)
        requires
            input@.len() >= 60 && 0 <= alt_data6_at(input@) <= input@.len() < alt_data6_at(input@) + 12 * u16_at(
                input@,
                28,
            ) ==> (input@.len() - alt_data6_at(input@)) % 12 >= 4,
        ensures
            match alt_layout(input@) {
                None => r == Err::<(&[u8], AlternateMeshFragment), WldDocError>(too_short_spec(input@)),
                Some(o) => r matches Ok((rest, f)) && Self::read_from(input@, o, f) && rest@ == input@.skip(o[14]),
            },
    {
        if input.len() < 60 {
            return Err(too_short(input));
        }
        let len = input.len();
        let name_reference = StringReference::new(read_i32(input, 0));
        let flags = read_u32(input, 4);
        let vertex_count = read_u32(input, 8);
        let tex_coords_count = read_u32(input, 12);
        let normals_count = read_u32(input, 16);
        let size4 = read_u32(input, 20);
        let polygon_count = read_u32(input, 24);
        let size6 = read_u16(input, 28);
        let vertex_piece_count = read_i16(input, 30);
        let fragment1 = read_u32(input, 32);
        let fragment2 = read_u32(input, 36);
        let fragment3 = read_u32(input, 40);
        let center = <(u32, u32, u32) as FixedRecord>::read(input, 44);
        let params2 = read_u32(input, 56);
        let (vertices, p1) = match parse_records::<(u32, u32, u32)>(input, 60, vertex_count) {
            Some(x) => x,
            None => return Err(too_short(input)),
        };
        let (texture_coords, p2) = match parse_records::<(u32, u32)>(input, p1, tex_coords_count) {
            Some(x) => x,
            None => return Err(too_short(input)),
        };
        let (normals, p3) = match parse_records::<(u32, u32, u32)>(input, p2, normals_count) {
            Some(x) => x,
            None => return Err(too_short(input)),
        };
        let (data4, p4) = match parse_records::<u32>(input, p3, size4) {
            Some(x) => x,
            None => return Err(too_short(input)),
        };
        let (polygons, p5) = match parse_records::<AlternateMeshFragmentPolygonEntry>(input, p4, polygon_count) {
            Some(x) => x,
            None => return Err(too_short(input)),
        };
        let (data6, p6) = match parse_records::<AlternateMeshFragmentData6Entry>(input, p5, size6 as u32) {
            Some(x) => x,
            None => return Err(too_short(input)),
        };
        if vertex_piece_count < 0 {
            return Err(too_short(input));
        }
        let (vertex_pieces, p7) = match parse_records::<(u16, u16)>(input, p6, vertex_piece_count as u32) {
            Some(x) => x,
            None => return Err(too_short(input)),
        };
        let tail = match parse_alt_tail(input, p7, flags, fragment1) {
            Some(x) => x,
            None => return Err(too_short(input)),
        };
        Ok((rest(input, tail.end), AlternateMeshFragment {
            name_reference,
            flags,
            vertex_count,
            tex_coords_count,
            normals_count,
            size4,
            polygon_count,
            size6,
            vertex_piece_count,
            fragment1,
            fragment2,
            fragment3,
            center,
            params2,
            vertices,
            texture_coords,
            normals,
            data4,
            polygons,
            data6,
            vertex_pieces,
            size8: tail.size8,
            data8: tail.data8,
            params4: tail.params4,
            data9: tail.data9,
            polygontex_count: tail.polygontex_count,
            polygontex_entries: tail.polygontex_entries,
            vertex_material_count: tail.vertex_material_count,
            vertex_materials: tail.vertex_materials,
            params3: tail.params3,
            params5: tail.params5,
        }))
    }

    fn header_bytes(&self) -> (r: Vec<u8>)
        ensures
            r@ == self.spec_header(),
    {
        let mut out = self.name_reference.into_bytes();
        push_u32(&mut out, self.flags);
        push_u32(&mut out, self.vertex_count);
        push_u32(&mut out, self.tex_coords_count);
        push_u32(&mut out, self.normals_count);
        push_u32(&mut out, self.size4);
        push_u32(&mut out, self.polygon_count);
        push_u16(&mut out, self.size6);
        push_i16(&mut out, self.vertex_piece_count);
        push_u32(&mut out, self.fragment1);
        push_u32(&mut out, self.fragment2);
        push_u32(&mut out, self.fragment3);
        self.center.write(&mut out);
        push_u32(&mut out, self.params2);
        proof {
            assert(out@ =~= self.spec_header());
        }
        out
    }

    fn push_lists(&self, out: &mut Vec<u8>)
        ensures
            final(out)@ == old(out)@ + self.spec_lists(),
    {
        push_records(out, &self.vertices);
        push_records(out, &self.texture_coords);
        push_records(out, &self.normals);
        push_records(out, &self.data4);
        push_records(out, &self.polygons);
        push_records(out, &self.data6);
        push_records(out, &self.vertex_pieces);
        proof {
            assert(out@ =~= old(out)@ + self.spec_lists());
        }
    }

    fn push_tail(&self, out: &mut Vec<u8>)
        ensures
            final(out)@ == old(out)@ + self.spec_tail(),
    {
        let ghost o0 = out@;
        push_counted(out, self.size8, &self.data8);
        push_records(out, &self.params4);
        push_records(out, &self.data9);
        push_counted(out, self.polygontex_count, &self.polygontex_entries);
        push_counted(out, self.vertex_material_count, &self.vertex_materials);
        let ghost o5 = out@;
        match self.params3 {
            Some(p) => p.write(out),
            None => {},
        }
        proof {
            assert(out@ =~= o5 + (match self.params3 { Some(p) => p.spec_encode(), None => Seq::<u8>::empty() }));
            assert(out@ =~= o0 + self.spec_tail());
        }
    }
}

impl Fragment for AlternateMeshFragment {
    open spec fn spec_into_bytes(&self) -> Seq<u8> {
        self.spec_to_bytes()
    }

    open spec fn spec_serializable(&self) -> bool {
        true
    }

    fn into_bytes(&self) -> (r: Vec<u8>) {
        let mut out = self.header_bytes();
        self.push_lists(&mut out);
        self.push_tail(&mut out);
        out
    }

    fn name_ref(&self) -> (r: &StringReference)
        ensures
            *r == self.name_reference,
    {
        &self.name_reference
    }

    fn type_id(&self) -> (r: u32)
        ensures
            r == 0x2c,
    {
        Self::TYPE_ID
    }
}

} // verus!
