//! The region fragment (0x22): a leaf of a zone's BSP tree, with its walls,
//! obstacles, visibility tree and visible lists.
use vstd::prelude::*;
use crate::bytes::{le_u32, u32_at, push_u32, le_u16, u16_at, read_u16, push_u16, lemma_u16_roundtrip,
    lemma_u16_bytes, i32_bits, i32_of_bits, bits_to_i32, i32_to_bits, lemma_i32_bits, lemma_bits_i32, i32_at,
    read_i32, push_i32, le_i32, read_u32};
use crate::wld::parse::{WResult, u32_field, rest, too_short, WldDocError, u32s_bytes, push_u32s,
    append_bytes, lemma_u32s_len};
use crate::wld::fragments::{too_short_spec, Fragment, FragmentRef, StringReference};
use crate::wld::words::{words_of, word, word_list, opt_word, push_words, lemma_words_of_bytes,
    lemma_words_bytes};
use crate::wld::var_records::{VarRecord, var_offsets, vars_fit, vars_readable, vars_read, vars_bytes,
    parse_vars, push_vars};
use crate::wld::fragments::common::render_info::{RenderMethod, lemma_render_method_round_trip,
    lemma_render_method_value};
use crate::wld::fragments::common::render::{RenderInfo, render_info_end, render_info_fits, render_info_at,
    lemma_render_info_round_trip, lemma_render_info_words};
use crate::wld::records::{FixedRecord, records_at, records_bytes, parse_records, push_records};

verus! {

/// The flags of a BSP region.
#[derive(Debug, Clone, Copy, PartialEq, Eq, Structural)]
pub struct RegionFlags(pub u32);

impl RegionFlags {
    const HAS_SPHERE: u32 = 0x01;
    const HAS_REVERB_VOLUME: u32 = 0x02;
    const HAS_REVERB_OFFSET: u32 = 0x04;
    const REGION_FOG: u32 = 0x08;
    const ENABLE_GOURAUD2: u32 = 0x10;
    const ENCODED_VISIBILITY: u32 = 0x20;
    const HAS_BYTE_ENTRIES: u32 = 0x80;
    const HAS_MESH_REFERENCE: u32 = 0x100;

    fn parse(input: &[u8]) -> (r: WResult<'_, Self>)
        ensures
            input@.len() >= 4 ==> (r matches Ok((rest, f)) && f.0 == u32_at(input@, 0) && rest@ == input@.skip(4)),
            input@.len() < 4 ==> r is Err,
    {
        match u32_field(input, 0) {
            Some(v) => Ok((rest(input, 4), Self(v))),
            None => Err(too_short(input)),
        }
    }

    fn to_bytes(&self) -> (r: Vec<u8>)
        ensures
            r@ == le_u32(self.0),
    {
        let mut out = Vec::new();
        push_u32(&mut out, self.0);
        out
    }

    /// Whether a bounding sphere follows.
    pub fn has_sphere(&self) -> (r: bool)
        ensures
            r == (self.0 & 0x01 == 0x01),
    {
        self.0 & Self::HAS_SPHERE == Self::HAS_SPHERE
    }

    /// Whether a reverb volume follows.
    pub fn has_reverb_volume(&self) -> (r: bool)
        ensures
            r == (self.0 & 0x02 == 0x02),
    {
        self.0 & Self::HAS_REVERB_VOLUME == Self::HAS_REVERB_VOLUME
    }

    /// Whether a reverb offset follows.
    pub fn has_reverb_offset(&self) -> (r: bool)
        ensures
            r == (self.0 & 0x04 == 0x04),
    {
        self.0 & Self::HAS_REVERB_OFFSET == Self::HAS_REVERB_OFFSET
    }

    /// Whether the region has fog.
    pub fn region_fog(&self) -> (r: bool)
        ensures
            r == (self.0 & 0x08 == 0x08),
    {
        self.0 & Self::REGION_FOG == Self::REGION_FOG
    }

    /// Whether the second Gouraud shading is enabled.
    pub fn enable_gouraud2(&self) -> (r: bool)
        ensures
            r == (self.0 & 0x10 == 0x10),
    {
        self.0 & Self::ENABLE_GOURAUD2 == Self::ENABLE_GOURAUD2
    }

    /// Whether the visibility lists are run-length encoded.
    pub fn encoded_visibility(&self) -> (r: bool)
        ensures
            r == (self.0 & 0x20 == 0x20),
    {
        self.0 & Self::ENCODED_VISIBILITY == Self::ENCODED_VISIBILITY
    }

    /// Whether the visibility lists hold byte entries.
    pub fn has_byte_entries(&self) -> (r: bool)
        ensures
            r == (self.0 & 0x80 == 0x80),
    {
        self.0 & Self::HAS_BYTE_ENTRIES == Self::HAS_BYTE_ENTRIES
    }

    /// Whether a mesh reference follows.
    pub fn has_mesh_reference(&self) -> (r: bool)
        ensures
            r == (self.0 & 0x100 == 0x100),
    {
        self.0 & Self::HAS_MESH_REFERENCE == Self::HAS_MESH_REFERENCE
    }
}

/// The flags of a region wall.
#[derive(Debug, Clone, Copy, PartialEq, Eq, Structural)]
pub struct WallFlags(pub u32);

impl WallFlags {
    const HAS_FLOOR: u32 = 0x01;
    const HAS_METHOD_AND_NORMAL: u32 = 0x02;

    fn parse(input: &[u8]) -> (r: WResult<'_, Self>)
        ensures
            input@.len() >= 4 ==> (r matches Ok((rest, f)) && f.0 == u32_at(input@, 0) && rest@ == input@.skip(4)),
            input@.len() < 4 ==> r is Err,
    {
        match u32_field(input, 0) {
            Some(v) => Ok((rest(input, 4), Self(v))),
            None => Err(too_short(input)),
        }
    }

    fn to_bytes(&self) -> (r: Vec<u8>)
        ensures
            r@ == le_u32(self.0),
    {
        let mut out = Vec::new();
        push_u32(&mut out, self.0);
        out
    }

    /// Whether the wall is a floor.
    pub fn has_floor(&self) -> (r: bool)
        ensures
            r == (self.0 & 0x01 == 0x01),
    {
        self.0 & Self::HAS_FLOOR == Self::HAS_FLOOR
    }

    /// Whether a render method and a normal follow.
    pub fn has_method_and_normal(&self) -> (r: bool)
        ensures
            r == (self.0 & 0x02 == 0x02),
    {
        self.0 & Self::HAS_METHOD_AND_NORMAL == Self::HAS_METHOD_AND_NORMAL
    }
}

/// The flags of a region obstacle.
#[derive(Debug, Clone, Copy, PartialEq, Eq, Structural)]
pub struct ObstacleFlags(pub u32);

impl ObstacleFlags {
    const IS_FLOOR: u32 = 0x01;
    const IS_GEOMETRY_CUTTING: u32 = 0x02;
    const HAS_USER_DATA: u32 = 0x04;

    fn parse(input: &[u8]) -> (r: WResult<'_, Self>)
        ensures
            input@.len() >= 4 ==> (r matches Ok((rest, f)) && f.0 == u32_at(input@, 0) && rest@ == input@.skip(4)),
            input@.len() < 4 ==> r is Err,
    {
        match u32_field(input, 0) {
            Some(v) => Ok((rest(input, 4), Self(v))),
            None => Err(too_short(input)),
        }
    }

    fn to_bytes(&self) -> (r: Vec<u8>)
        ensures
            r@ == le_u32(self.0),
    {
        let mut out = Vec::new();
        push_u32(&mut out, self.0);
        out
    }

    /// Whether the obstacle is a floor.
    pub fn is_floor(&self) -> (r: bool)
        ensures
            r == (self.0 & 0x01 == 0x01),
    {
        self.0 & Self::IS_FLOOR == Self::IS_FLOOR
    }

    /// Whether the obstacle cuts geometry.
    pub fn is_geometry_cutting(&self) -> (r: bool)
        ensures
            r == (self.0 & 0x02 == 0x02),
    {
        self.0 & Self::IS_GEOMETRY_CUTTING == Self::IS_GEOMETRY_CUTTING
    }

    /// Whether user data follows.
    pub fn has_user_data(&self) -> (r: bool)
        ensures
            r == (self.0 & 0x04 == 0x04),
    {
        self.0 & Self::HAS_USER_DATA == Self::HAS_USER_DATA
    }
}

/// An entry of a visible list's run-length encoded stream: a byte or a
/// 16-bit word, as the region's flags say.
#[derive(Debug, Clone, Copy, PartialEq, Eq, Structural)]
pub enum RangeEntry {
    Byte(u8),
    Word(u16),
}

impl RangeEntry {
    /// The stored form of the entry.
    pub open spec fn spec_to_bytes(&self) -> Seq<u8> {
        match self {
            RangeEntry::Byte(b) => seq![*b],
            RangeEntry::Word(u) => le_u16(*u),
        }
    }

    pub fn to_bytes(&self) -> (r: Vec<u8>)
        ensures
            r@ == self.spec_to_bytes(),
    {
        let mut out: Vec<u8> = Vec::new();
        match self {
            RangeEntry::Byte(b) => out.push(*b),
            RangeEntry::Word(u) => push_u16(&mut out, *u),
        }
        proof {
            assert(out@ =~= self.spec_to_bytes());
        }
        out
    }
}

/// The stored forms of entries, one after another.
pub open spec fn ranges_bytes(v: Seq<RangeEntry>) -> Seq<u8>
    decreases v.len(),
{
    if v.len() == 0 {
        Seq::empty()
    } else {
        ranges_bytes(v.drop_last()) + v.last().spec_to_bytes()
    }
}

/// The list of regions near a region, run-length encoded: each entry skips
/// or includes a number of region ids.
#[derive(Debug, Clone, PartialEq, Eq)]
pub struct VisibleList {
    /// The number of entries.
    pub range_count: u16,
    /// The encoded stream; bytes or 16-bit words as the region's flags say.
    pub ranges: Vec<RangeEntry>,
}

/// How many bytes an entry takes: one for byte entries, else two.
pub open spec fn entry_size(byte_entries: bool) -> int {
    if byte_entries { 1 } else { 2 }
}

/// The entries of a visible list stored at the start of `s` with `n`
/// entries.
pub open spec fn ranges_at(s: Seq<u8>, n: nat, byte_entries: bool) -> Seq<RangeEntry> {
    Seq::new(n, |i: int| if byte_entries { RangeEntry::Byte(s[2 + i]) } else { RangeEntry::Word(u16_at(s, 2 + 2 * i)) })
}

impl VisibleList {
    /// How many bytes the list stored at the start of `s` takes: a 16-bit
    /// count, then the entries.
    pub open spec fn size(s: Seq<u8>, byte_entries: bool) -> int {
        2 + entry_size(byte_entries) * u16_at(s, 0)
    }

    /// The stored form: the count, then the entries.
    pub open spec fn spec_to_bytes(&self) -> Seq<u8> {
        le_u16(self.range_count) + ranges_bytes(self.ranges@)
    }

    /// The count is the number of entries, and every entry is of the kind
    /// given.
    pub open spec fn wf(&self, byte_entries: bool) -> bool {
        &&& self.ranges@.len() == self.range_count
        &&& forall|i: int| 0 <= i < self.ranges@.len() ==> (#[trigger] self.ranges@[i] is Byte) == byte_entries
    }

    /// Reads a list whose entries are bytes.
    pub fn parse_with_bytes(input: &[u8]) -> (r: WResult<'_, VisibleList>)
        ensures
            input@.len() >= 2 && input@.len() >= Self::size(input@, true) ==> (r matches Ok((rest, v))
                && v.range_count == u16_at(input@, 0) && v.ranges@ == ranges_at(input@, v.range_count as nat, true)
                && rest@ == input@.skip(Self::size(input@, true))),
            !(input@.len() >= 2 && input@.len() >= Self::size(input@, true)) ==> r == Err::<
                (&[u8], VisibleList),
                WldDocError,
            >(too_short_spec(input@)),
    {
        Self::parse(input, true)
    }

    /// Reads a list whose entries are 16-bit words.
    pub fn parse_with_words(input: &[u8]) -> (r: WResult<'_, VisibleList>)
        ensures
            input@.len() >= 2 && input@.len() >= Self::size(input@, false) ==> (r matches Ok((rest, v))
                && v.range_count == u16_at(input@, 0) && v.ranges@ == ranges_at(input@, v.range_count as nat, false)
                && rest@ == input@.skip(Self::size(input@, false))),
            !(input@.len() >= 2 && input@.len() >= Self::size(input@, false)) ==> r == Err::<
                (&[u8], VisibleList),
                WldDocError,
            >(too_short_spec(input@)),
    {
        Self::parse(input, false)
    }

    /// Reads a list with byte or word entries.
    pub fn parse(input: &[u8], byte_entries: bool) -> (r: WResult<'_, VisibleList>)
        ensures
            input@.len() >= 2 && input@.len() >= Self::size(input@, byte_entries) ==> (r matches Ok((rest, v))
                && v.range_count == u16_at(input@, 0) && v.ranges@ == ranges_at(
                input@,
                v.range_count as nat,
                byte_entries,
            ) && rest@ == input@.skip(Self::size(input@, byte_entries))),
            !(input@.len() >= 2 && input@.len() >= Self::size(input@, byte_entries)) ==> r == Err::<
                (&[u8], VisibleList),
                WldDocError,
            >(too_short_spec(input@)),
    {
        let len = input.len();
        if len < 2 {
            return Err(too_short(input));
        }
        let n = read_u16(input, 0);
        let each: usize = if byte_entries { 1 } else { 2 };
        if (len - 2) / each < n as usize {
            assert(len < 2 + entry_size(byte_entries) * n) by (nonlinear_arith)
                requires
                    (len - 2) / (each as int) < n,
                    each == entry_size(byte_entries),
                    each == 1 || each == 2,
                    len >= 2,
            ;
            return Err(too_short(input));
        }
        assert(2 + entry_size(byte_entries) * n <= len) by (nonlinear_arith)
            requires
                (len - 2) / (each as int) >= n,
                each == entry_size(byte_entries),
                each == 1 || each == 2,
                len >= 2,
        ;
        let mut ranges: Vec<RangeEntry> = Vec::new();
        let mut k: usize = 0;
        while k < n as usize
            invariant
                k <= n,
                len == input@.len(),
                each == entry_size(byte_entries),
                2 + each * n <= len,
                ranges@ == ranges_at(input@, k as nat, byte_entries),
            decreases n - k,
        {
            if byte_entries {
                ranges.push(RangeEntry::Byte(input[2 + k]));
            } else {
                assert(2 + 2 * k + 2 <= len) by (nonlinear_arith)
                    requires
                        k < n,
                        2 + 2 * n <= len,
                ;
                ranges.push(RangeEntry::Word(read_u16(input, 2 + 2 * k)));
            }
            k = k + 1;
            proof {
                assert(ranges@ =~= ranges_at(input@, k as nat, byte_entries));
            }
        }
        Ok((rest(input, 2 + each * n as usize), VisibleList { range_count: n, ranges }))
    }

    pub fn to_bytes(&self) -> (r: Vec<u8>)
        ensures
            r@ == self.spec_to_bytes(),
    {
        let mut out: Vec<u8> = Vec::new();
        push_u16(&mut out, self.range_count);
        let mut k: usize = 0;
        while k < self.ranges.len()
            invariant
                k <= self.ranges@.len(),
                out@ == le_u16(self.range_count) + ranges_bytes(self.ranges@.take(k as int)),
            decreases self.ranges@.len() - k,
        {
            let b = self.ranges[k].to_bytes();
            crate::wld::parse::append_bytes(&mut out, b.as_slice());
            k = k + 1;
            proof {
                assert(self.ranges@.take(k as int).drop_last() =~= self.ranges@.take(k - 1));
                assert(out@ =~= le_u16(self.range_count) + ranges_bytes(self.ranges@.take(k as int)));
            }
        }
        proof {
            assert(self.ranges@.take(k as int) =~= self.ranges@);
        }
        out
    }
}

/// Entries written one after another are read back, whatever follows them.
#[verifier::spinoff_prover]
pub proof fn lemma_ranges_read_back(v: Seq<RangeEntry>, byte_entries: bool, tail: Seq<u8>)
    requires
        forall|i: int| 0 <= i < v.len() ==> (#[trigger] v[i] is Byte) == byte_entries,
    ensures
        ranges_bytes(v).len() == entry_size(byte_entries) * v.len(),
        ranges_at(seq![0u8, 0u8] + ranges_bytes(v) + tail, v.len(), byte_entries) == v,
    decreases v.len(),
{
    if v.len() > 0 {
        let p = v.drop_last();
        let x = v.last();
        assert forall|i: int| 0 <= i < p.len() implies (#[trigger] p[i] is Byte) == byte_entries by {
            assert(p[i] == v[i]);
        }
        lemma_ranges_read_back(p, byte_entries, x.spec_to_bytes() + tail);
        let s = seq![0u8, 0u8] + ranges_bytes(v) + tail;
        assert(seq![0u8, 0u8] + ranges_bytes(p) + (x.spec_to_bytes() + tail) =~= s);
        let q: int = 2 + ranges_bytes(p).len() as int;
        assert(v[v.len() - 1] == x);
        assert((x is Byte) == byte_entries);
        assert(x.spec_to_bytes().len() == entry_size(byte_entries));
        assert(ranges_bytes(v) == ranges_bytes(p) + x.spec_to_bytes());
        if byte_entries {
            assert(entry_size(byte_entries) == 1);
            assert(ranges_bytes(p).len() == p.len()) by (nonlinear_arith)
                requires
                    ranges_bytes(p).len() == entry_size(byte_entries) * p.len(),
                    entry_size(byte_entries) == 1,
            ;
            assert(ranges_bytes(v).len() == v.len());
        } else {
            assert(entry_size(byte_entries) == 2);
            assert(ranges_bytes(p).len() == 2 * p.len()) by (nonlinear_arith)
                requires
                    ranges_bytes(p).len() == entry_size(byte_entries) * p.len(),
                    entry_size(byte_entries) == 2,
            ;
            assert(ranges_bytes(v).len() == 2 * v.len());
        }
        match x {
            RangeEntry::Byte(b) => {
                assert(s[q] == b);
            },
            RangeEntry::Word(u) => {
                lemma_u16_roundtrip(u);
                assert(u16_at(s, q) == u16_at(le_u16(u), 0));
            },
        }
        assert forall|i: int| 0 <= i < v.len() implies #[trigger] ranges_at(s, v.len(), byte_entries)[i] == v[i] by {
            if i < p.len() {
                assert(ranges_at(s, p.len(), byte_entries)[i] == p[i]);
            }
        }
        assert(ranges_at(s, v.len(), byte_entries) =~= v);
    } else {
        assert(ranges_at(seq![0u8, 0u8] + ranges_bytes(v) + tail, v.len(), byte_entries) =~= v);
    }
}

/// Reading back a well-formed visible list gives the same list, whatever
/// follows it.
pub proof fn lemma_visible_list_round_trip(l: VisibleList, byte_entries: bool, tail: Seq<u8>)
    requires
        l.wf(byte_entries),
    ensures
        ({
            let s = l.spec_to_bytes() + tail;
            &&& u16_at(s, 0) == l.range_count
            &&& VisibleList::size(s, byte_entries) == l.spec_to_bytes().len()
            &&& ranges_at(s, l.range_count as nat, byte_entries) == l.ranges@
        }),
{
    lemma_u16_roundtrip(l.range_count);
    lemma_ranges_read_back(l.ranges@, byte_entries, tail);
    let s = l.spec_to_bytes() + tail;
    assert(u16_at(s, 0) == u16_at(le_u16(l.range_count), 0));
    let z = seq![0u8, 0u8] + ranges_bytes(l.ranges@) + tail;
    assert forall|i: int| 0 <= i < l.range_count implies #[trigger] ranges_at(s, l.range_count as nat, byte_entries)[i]
        == ranges_at(z, l.range_count as nat, byte_entries)[i] by {
        if !byte_entries {
            assert(s[2 + 2 * i] == z[2 + 2 * i]);
            assert(s[2 + 2 * i + 1] == z[2 + 2 * i + 1]);
        }
    }
    assert(ranges_at(s, l.range_count as nat, byte_entries) =~= ranges_at(z, l.range_count as nat, byte_entries));
}

/// Writing back the list read from `s` gives back the bytes it was read
/// from.
pub proof fn lemma_visible_list_bytes(s: Seq<u8>, byte_entries: bool, n: nat)
    requires
        n <= u16_at(s, 0),
        2 + entry_size(byte_entries) * n <= s.len(),
    ensures
        ranges_bytes(ranges_at(s, n, byte_entries)) == s.subrange(2, 2 + entry_size(byte_entries) * n),
    decreases n,
{
    if n > 0 {
        lemma_visible_list_bytes(s, byte_entries, (n - 1) as nat);
        assert(ranges_at(s, n, byte_entries).drop_last() =~= ranges_at(s, (n - 1) as nat, byte_entries));
        if !byte_entries {
            lemma_u16_bytes(s, 2 + 2 * (n - 1));
        }
        assert(ranges_bytes(ranges_at(s, n, byte_entries)) =~= s.subrange(2, 2 + entry_size(byte_entries) * n));
    } else {
        assert(ranges_bytes(ranges_at(s, n, byte_entries)) =~= s.subrange(2, 2));
    }
}


/// The words of an optional four-word part.
pub open spec fn opt_quad(o: Option<(u32, u32, u32, u32)>) -> Seq<u32> {
    match o {
        Some(q) => seq![q.0, q.1, q.2, q.3],
        None => Seq::empty(),
    }
}

/// A wall of a region: its vertices and, when bit 1 of its flags is set,
/// how it is rendered and its plane (kept as the bits of its `f32`s).
#[derive(Debug, Clone, PartialEq, Eq)]
pub struct Wall {
    pub flags: WallFlags,
    pub num_vertices: u32,
    pub render_method: Option<RenderMethod>,
    pub render_info: Option<RenderInfo>,
    pub normal_abcd: Option<(u32, u32, u32, u32)>,
    /// `num_vertices` vertex indices.
    pub vertex_list: Vec<u32>,
}

impl Wall {
    /// Where the render info of the wall held by words `w` begins: after
    /// the flags, the count, the vertices and the render method.
    pub open spec fn info_at(w: Seq<u32>) -> int {
        3 + w[1]
    }

    /// How many words the wall held by `w` takes: the flags, the count and
    /// the vertices, then, when bit 1 of the flags is set, the render
    /// method, the render info and the plane.
    pub open spec fn size_words(w: Seq<u32>) -> int {
        if w[0] & 0x02 == 0x02 {
            render_info_end(w, Self::info_at(w)) + 4
        } else {
            2 + w[1]
        }
    }

    /// Whether words `w` hold the whole wall.
    pub open spec fn fits(w: Seq<u32>) -> bool {
        &&& w.len() >= 2
        &&& w.len() >= 2 + w[1]
        &&& w[0] & 0x02 == 0x02 ==> (w.len() >= Self::info_at(w) && render_info_fits(w, Self::info_at(w))
            && w.len() >= Self::size_words(w))
    }

    /// The words of the stored form.
    pub open spec fn words(&self) -> Seq<u32> {
        seq![self.flags.0, self.num_vertices] + self.vertex_list@ + (match self.render_method {
            Some(m) => seq![m.spec_as_u32()],
            None => Seq::empty(),
        }) + (match self.render_info {
            Some(ri) => ri.words(),
            None => Seq::empty(),
        }) + opt_quad(self.normal_abcd)
    }
}

impl VarRecord for Wall {
    open spec fn spec_size(s: Seq<u8>, ctx: u32) -> Option<nat> {
        let w = words_of(s);
        if Self::fits(w) {
            Some((4 * Self::size_words(w)) as nat)
        } else {
            None
        }
    }

    open spec fn spec_read(s: Seq<u8>, ctx: u32, x: Wall) -> bool {
        let w = words_of(s);
        let nv = w[1];
        let full = w[0] & 0x02 == 0x02;
        let e = render_info_end(w, Self::info_at(w));
        &&& x.flags == WallFlags(w[0])
        &&& x.num_vertices == nv
        &&& x.vertex_list@ == w.subrange(2, 2 + nv)
        &&& x.render_method == if full { Some(RenderMethod::spec_from_u32(w[2 + nv])) } else { None }
        &&& if full {
            x.render_info matches Some(ri) && render_info_at(w, Self::info_at(w), ri)
        } else {
            x.render_info is None
        }
        &&& x.normal_abcd == if full { Some((w[e], w[e + 1], w[e + 2], w[e + 3])) } else { None }
    }

    /// The render method of a wall that has one must be one that
    /// `RenderMethod` can stand for.
    open spec fn spec_readable(s: Seq<u8>, ctx: u32) -> bool {
        let w = words_of(s);
        w.len() >= 2 && w[0] & 0x02 == 0x02 && w.len() >= 3 + w[1] ==> RenderMethod::is_known(w[2 + w[1]])
    }

    open spec fn spec_bytes(&self) -> Seq<u8> {
        u32s_bytes(self.words())
    }

    open spec fn spec_wf(&self, ctx: u32) -> bool {
        let full = self.flags.0 & 0x02 == 0x02;
        &&& self.vertex_list@.len() == self.num_vertices
        &&& (self.render_method is Some <==> full)
        &&& (self.render_info is Some <==> full)
        &&& (self.normal_abcd is Some <==> full)
        &&& (self.render_method matches Some(m) ==> m.wf())
        &&& (self.render_info matches Some(ri) ==> ri.wf())
    }

    fn parse_var(input: &[u8], ctx: u32) -> (r: Option<(Wall, usize)>) {
        let ghost w = words_of(input@);
        let total = input.len() / 4;
        let head = match word_list(input, 0, 2) {
            Some(v) => v,
            None => return None,
        };
        let flags = head[0];
        let nv = head[1];
        let vertex_list = match word_list(input, 2, nv) {
            Some(v) => v,
            None => return None,
        };
        let mut end = 2 + nv as usize;
        let mut render_method: Option<RenderMethod> = None;
        let mut render_info: Option<RenderInfo> = None;
        let mut normal_abcd: Option<(u32, u32, u32, u32)> = None;
        if flags & 0x02 == 0x02 {
            let m = match word(input, end) {
                Some(m) => m,
                None => return None,
            };
            let (ri, e) = match RenderInfo::parse_at(input, end + 1) {
                Some(x) => x,
                None => return None,
            };
            let q = match word_list(input, e, 4) {
                Some(v) => v,
                None => return None,
            };
            render_method = Some(RenderMethod::from_u32(m));
            render_info = Some(ri);
            normal_abcd = Some((q[0], q[1], q[2], q[3]));
            end = e + 4;
        }
        assert(4 * end <= input@.len()) by (nonlinear_arith)
            requires
                end <= input@.len() / 4,
        ;
        Some((Wall { flags: WallFlags(flags), num_vertices: nv, render_method, render_info, normal_abcd, vertex_list }, 4 * end))
    }

    fn write_var(&self, out: &mut Vec<u8>) {
        let mut w: Vec<u32> = vec![self.flags.0, self.num_vertices];
        push_words(&mut w, &self.vertex_list);
        let ghost a = w@;
        match self.render_method {
            Some(m) => w.push(m.as_u32()),
            None => {},
        }
        let ghost b = w@;
        match &self.render_info {
            Some(ri) => ri.push_words(&mut w),
            None => {},
        }
        let ghost c = w@;
        match self.normal_abcd {
            Some(q) => {
                w.push(q.0);
                w.push(q.1);
                w.push(q.2);
                w.push(q.3);
            },
            None => {},
        }
        push_u32s(out, &w);
        proof {
            assert(b =~= a + (match self.render_method { Some(m) => seq![m.spec_as_u32()], None => Seq::<u32>::empty() }));
            assert(c =~= b + (match self.render_info { Some(ri) => ri.words(), None => Seq::<u32>::empty() }));
            assert(w@ =~= c + opt_quad(self.normal_abcd));
            assert(w@ =~= self.words());
        }
    }

    proof fn lemma_var_round_trip(x: Wall, ctx: u32, tail: Seq<u8>) {
        let ws = x.words();
        lemma_words_of_bytes(ws, tail);
        crate::wld::parse::lemma_u32s_len(ws);
        let w = ws + words_of(tail);
        let s = x.spec_bytes() + tail;
        assert(words_of(s) == w);
        let nv = x.num_vertices;
        assert(w[0] == x.flags.0);
        assert(w[1] == nv);
        assert(w.subrange(2, 2 + nv) =~= x.vertex_list@);
        if x.flags.0 & 0x02 == 0x02 {
            let m = x.render_method->0;
            let ri = x.render_info->0;
            lemma_render_method_round_trip(m);
            let pre = seq![x.flags.0, nv] + x.vertex_list@ + seq![m.spec_as_u32()];
            assert(w =~= pre + ri.words() + (opt_quad(x.normal_abcd) + words_of(tail)));
            lemma_render_info_round_trip(pre, ri, opt_quad(x.normal_abcd) + words_of(tail));
            assert(w[2 + nv] == m.spec_as_u32());
            assert(Wall::info_at(w) == pre.len());
        } else {
            assert(w =~= seq![x.flags.0, nv] + x.vertex_list@ + words_of(tail));
        }
    }

    proof fn lemma_var_bytes(s: Seq<u8>, ctx: u32, x: Wall) {
        let w = words_of(s);
        let n = Self::size_words(w);
        let nv = w[1];
        if w[0] & 0x02 == 0x02 {
            lemma_render_info_words(w, Self::info_at(w), x.render_info->0);
            let raw = w[2 + nv];
            assert(RenderMethod::spec_from_u32(raw).wf()) by {
                assert((raw >> 11u32) & 0xfffffu32 <= 0xfffffu32) by (bit_vector);
            }
            lemma_render_method_value(raw);
        }
        assert(x.words() =~= w.take(n));
        lemma_words_bytes(s, n as nat);
    }
}


/// The kind of an obstacle, which says what follows its first words.
#[derive(Debug, Clone, Copy, PartialEq, Eq, Structural)]
pub enum ObstacleType {
    XyVertex,
    XyzVertex,
    XyLine,
    XyEdge,
    XyzEdge,
    Plane,
    EdgePolygon,
    EdgeWall,
    EdgePolygonNormalAbcd,
}

impl ObstacleType {
    /// The kind that the stored value stands for, if any.
    pub open spec fn spec_from(v: i32) -> Option<ObstacleType> {
        if v == 8 {
            Some(ObstacleType::XyVertex)
        } else if v == 9 {
            Some(ObstacleType::XyzVertex)
        } else if v == 10 {
            Some(ObstacleType::XyLine)
        } else if v == 11 {
            Some(ObstacleType::XyEdge)
        } else if v == 12 {
            Some(ObstacleType::XyzEdge)
        } else if v == 13 {
            Some(ObstacleType::Plane)
        } else if v == 14 {
            Some(ObstacleType::EdgePolygon)
        } else if v == 18 {
            Some(ObstacleType::EdgeWall)
        } else if v == -15 {
            Some(ObstacleType::EdgePolygonNormalAbcd)
        } else {
            None
        }
    }

    /// The stored value of the kind.
    pub open spec fn spec_value(&self) -> i32 {
        match self {
            ObstacleType::XyVertex => 8i32,
            ObstacleType::XyzVertex => 9,
            ObstacleType::XyLine => 10,
            ObstacleType::XyEdge => 11,
            ObstacleType::XyzEdge => 12,
            ObstacleType::Plane => 13,
            ObstacleType::EdgePolygon => 14,
            ObstacleType::EdgeWall => 18,
            ObstacleType::EdgePolygonNormalAbcd => -15i32,
        }
    }

    /// The kind a known value stands for.
    pub fn from_known(v: i32) -> (r: ObstacleType)
        requires
            Self::spec_from(v) is Some,
        ensures
            Self::spec_from(v) == Some(r),
    {
        if v == 8 {
            ObstacleType::XyVertex
        } else if v == 9 {
            ObstacleType::XyzVertex
        } else if v == 10 {
            ObstacleType::XyLine
        } else if v == 11 {
            ObstacleType::XyEdge
        } else if v == 12 {
            ObstacleType::XyzEdge
        } else if v == 13 {
            ObstacleType::Plane
        } else if v == 14 {
            ObstacleType::EdgePolygon
        } else if v == 18 {
            ObstacleType::EdgeWall
        } else {
            ObstacleType::EdgePolygonNormalAbcd
        }
    }

    pub fn to_i32(&self) -> (r: i32)
        ensures
            r == self.spec_value(),
    {
        match self {
            ObstacleType::XyVertex => 8,
            ObstacleType::XyzVertex => 9,
            ObstacleType::XyLine => 10,
            ObstacleType::XyEdge => 11,
            ObstacleType::XyzEdge => 12,
            ObstacleType::Plane => 13,
            ObstacleType::EdgePolygon => 14,
            ObstacleType::EdgeWall => 18,
            ObstacleType::EdgePolygonNormalAbcd => -15,
        }
    }
}

/// The obstacle types and their numbers.
/// Each obstacle type is stored as the number the format gives it (listed here
/// variant by variant), reading a stored number gives the obstacle type whose number
/// it is, and no other number is read as one.
pub proof fn lemma_obstacle_type_codes()
    ensures
        ObstacleType::XyVertex.spec_value() == 8,
        ObstacleType::XyzVertex.spec_value() == 9,
        ObstacleType::XyLine.spec_value() == 10,
        ObstacleType::XyEdge.spec_value() == 11,
        ObstacleType::XyzEdge.spec_value() == 12,
        ObstacleType::Plane.spec_value() == 13,
        ObstacleType::EdgePolygon.spec_value() == 14,
        ObstacleType::EdgeWall.spec_value() == 18,
        ObstacleType::EdgePolygonNormalAbcd.spec_value() == -15,
        forall|v: i32| #[trigger] ObstacleType::spec_from(v) is Some ==> ObstacleType::spec_from(v)->Some_0.spec_value() == v,
        forall|t: ObstacleType| #[trigger] ObstacleType::spec_from(t.spec_value()) == Some(t),
{
    assert forall|t: ObstacleType| #[trigger] ObstacleType::spec_from(t.spec_value()) == Some(t) by {
        match t {
            ObstacleType::XyVertex => {},
            ObstacleType::XyzVertex => {},
            ObstacleType::XyLine => {},
            ObstacleType::XyEdge => {},
            ObstacleType::XyzEdge => {},
            ObstacleType::Plane => {},
            ObstacleType::EdgePolygon => {},
            ObstacleType::EdgeWall => {},
            ObstacleType::EdgePolygonNormalAbcd => {},
        }
    }
}

/// The bytes of `input` from `a` on, `n` of them.
fn bytes_at(input: &[u8], a: usize, n: usize) -> (r: Vec<u8>)
    requires
        a + n <= input@.len(),
    ensures
        r@ == input@.subrange(a as int, a + n),
{
    let len = input.len();
    let mut out: Vec<u8> = Vec::new();
    let mut k: usize = 0;
    while k < n
        invariant
            k <= n,
            len == input@.len(),
            a + n <= input@.len(),
            out@ == input@.subrange(a as int, a + k),
        decreases n - k,
    {
        out.push(input[a + k]);
        k = k + 1;
        proof {
            assert(out@ =~= input@.subrange(a as int, a + k));
        }
    }
    out
}

/// An obstacle of a region: its kind, its vertices or plane or edge as the
/// kind says, and user data when bit 2 of its flags is set. The plane is
/// kept as the bits of its `f32`s.
#[derive(Debug, Clone, PartialEq, Eq)]
pub struct Obstacle {
    pub flags: ObstacleFlags,
    pub next_region: i32,
    pub obstacle_type: ObstacleType,
    pub num_vertices: Option<u32>,
    pub vertex_list: Option<Vec<u32>>,
    pub normal_abcd: Option<(u32, u32, u32, u32)>,
    pub edge_wall: Option<u32>,
    pub user_data_size: Option<u32>,
    pub user_data: Option<Vec<u8>>,
}

impl Obstacle {
    /// Whether an obstacle of kind `t` lists vertices.
    pub open spec fn has_list(t: i32) -> bool {
        t == 14 || t == -15
    }

    /// Where each optional part of the obstacle held by words `w` begins,
    /// and (last) where the words end: the vertex count and vertices, the
    /// plane, the edge wall, the user data size.
    pub open spec fn offsets(w: Seq<u32>) -> Seq<int> {
        let t = i32_of_bits(w[2]);
        let p0 = 3int;
        let p1 = if Self::has_list(t) { p0 + 1 + w[3] } else { p0 };
        let p2 = if t == -15 { p1 + 4 } else { p1 };
        let p3 = if t == 18 { p2 + 1 } else { p2 };
        let p4 = if w[0] & 0x04 == 0x04 { p3 + 1 } else { p3 };
        seq![p0, p1, p2, p3, p4]
    }

    /// The words of the stored form; the user data bytes follow them.
    pub open spec fn words(&self) -> Seq<u32> {
        seq![self.flags.0, i32_bits(self.next_region), i32_bits(self.obstacle_type.spec_value())] + opt_word(
            self.num_vertices,
        ) + (match self.vertex_list {
            Some(v) => v@,
            None => Seq::empty(),
        }) + opt_quad(self.normal_abcd) + opt_word(self.edge_wall) + opt_word(self.user_data_size)
    }

    /// The user data bytes.
    pub open spec fn data(&self) -> Seq<u8> {
        match self.user_data {
            Some(d) => d@,
            None => Seq::empty(),
        }
    }
}

impl VarRecord for Obstacle {
    open spec fn spec_size(s: Seq<u8>, ctx: u32) -> Option<nat> {
        let w = words_of(s);
        let o = Self::offsets(w);
        let t = i32_of_bits(w[2]);
        if w.len() < 3 || (Self::has_list(t) && w.len() < 4) || w.len() < o[4] {
            None
        } else {
            let n = if w[0] & 0x04 == 0x04 { w[o[3]] as int } else { 0 };
            if s.len() < 4 * o[4] + n {
                None
            } else {
                Some((4 * o[4] + n) as nat)
            }
        }
    }

    open spec fn spec_read(s: Seq<u8>, ctx: u32, x: Obstacle) -> bool {
        let w = words_of(s);
        let o = Self::offsets(w);
        let t = i32_of_bits(w[2]);
        &&& x.flags == ObstacleFlags(w[0])
        &&& x.next_region == i32_of_bits(w[1])
        &&& Some(x.obstacle_type) == ObstacleType::spec_from(t)
        &&& x.num_vertices == if Self::has_list(t) { Some(w[3]) } else { None }
        &&& if Self::has_list(t) {
            x.vertex_list matches Some(v) && v@ == w.subrange(4, o[1])
        } else {
            x.vertex_list is None
        }
        &&& x.normal_abcd == if t == -15 { Some((w[o[1]], w[o[1] + 1], w[o[1] + 2], w[o[1] + 3])) } else { None }
        &&& x.edge_wall == if t == 18 { Some(w[o[2]]) } else { None }
        &&& if w[0] & 0x04 == 0x04 {
            &&& x.user_data_size == Some(w[o[3]])
            &&& x.user_data matches Some(d) && d@ == s.subrange(4 * o[4], 4 * o[4] + w[o[3]])
        } else {
            x.user_data_size is None && x.user_data is None
        }
    }

    /// The kind must be one of those `ObstacleType` stands for.
    open spec fn spec_readable(s: Seq<u8>, ctx: u32) -> bool {
        let w = words_of(s);
        w.len() >= 3 ==> ObstacleType::spec_from(i32_of_bits(w[2])) is Some
    }

    open spec fn spec_bytes(&self) -> Seq<u8> {
        u32s_bytes(self.words()) + self.data()
    }

    open spec fn spec_wf(&self, ctx: u32) -> bool {
        let t = self.obstacle_type.spec_value();
        &&& (self.num_vertices is Some <==> Self::has_list(t))
        &&& (self.vertex_list is Some <==> Self::has_list(t))
        &&& (self.vertex_list matches Some(v) ==> self.num_vertices == Some(v@.len() as u32) && v@.len() <= u32::MAX)
        &&& (self.normal_abcd is Some <==> t == -15)
        &&& (self.edge_wall is Some <==> t == 18)
        &&& (self.user_data_size is Some <==> self.flags.0 & 0x04 == 0x04)
        &&& (self.user_data is Some <==> self.flags.0 & 0x04 == 0x04)
        &&& (self.user_data matches Some(d) ==> self.user_data_size == Some(d@.len() as u32) && d@.len() <= u32::MAX)
    }

    fn parse_var(input: &[u8], ctx: u32) -> (r: Option<(Obstacle, usize)>) {
        let ghost w = words_of(input@);
        let ghost o = Self::offsets(w);
        let total = input.len() / 4;
        let len = input.len();
        let head = match word_list(input, 0, 3) {
            Some(v) => v,
            None => return None,
        };
        let flags = head[0];
        let t = bits_to_i32(head[2]);
        let obstacle_type = ObstacleType::from_known(t);
        let mut p: usize = 3;
        let mut num_vertices: Option<u32> = None;
        let mut vertex_list: Option<Vec<u32>> = None;
        if t == 14 || t == -15 {
            let nv = match word(input, 3) {
                Some(x) => x,
                None => return None,
            };
            let v = match word_list(input, 4, nv) {
                Some(v) => v,
                None => return None,
            };
            num_vertices = Some(nv);
            vertex_list = Some(v);
            p = 4 + nv as usize;
        }
        assert(p == o[1]);
        let normal_abcd = if t == -15 {
            let q = match word_list(input, p, 4) {
                Some(v) => v,
                None => return None,
            };
            p = p + 4;
            Some((q[0], q[1], q[2], q[3]))
        } else {
            None
        };
        let edge_wall = if t == 18 {
            let x = match word(input, p) {
                Some(x) => x,
                None => return None,
            };
            p = p + 1;
            Some(x)
        } else {
            None
        };
        assert(p == o[3]);
        let mut user_data_size: Option<u32> = None;
        let mut user_data: Option<Vec<u8>> = None;
        let mut n: usize = 0;
        if flags & 0x04 == 0x04 {
            let x = match word(input, p) {
                Some(x) => x,
                None => return None,
            };
            p = p + 1;
            assert(4 * p <= len) by (nonlinear_arith)
                requires
                    p <= len / 4,
            ;
            if len - 4 * p < x as usize {
                return None;
            }
            user_data_size = Some(x);
            user_data = Some(bytes_at(input, 4 * p, x as usize));
            n = x as usize;
        }
        assert(4 * p <= len) by (nonlinear_arith)
            requires
                p <= len / 4,
        ;
        Some((Obstacle {
            flags: ObstacleFlags(flags),
            next_region: bits_to_i32(head[1]),
            obstacle_type,
            num_vertices,
            vertex_list,
            normal_abcd,
            edge_wall,
            user_data_size,
            user_data,
        }, 4 * p + n))
    }

    #[verifier::spinoff_prover]
    #[verifier::rlimit(40)]
    fn write_var(&self, out: &mut Vec<u8>) {
        let mut w: Vec<u32> = vec![self.flags.0, i32_to_bits(self.next_region), i32_to_bits(self.obstacle_type.to_i32())];
        let ghost a = w@;
        match self.num_vertices {
            Some(x) => w.push(x),
            None => {},
        }
        let ghost b = w@;
        match &self.vertex_list {
            Some(v) => push_words(&mut w, v),
            None => {},
        }
        let ghost c = w@;
        match self.normal_abcd {
            Some(q) => {
                w.push(q.0);
                w.push(q.1);
                w.push(q.2);
                w.push(q.3);
            },
            None => {},
        }
        let ghost d = w@;
        match self.edge_wall {
            Some(x) => w.push(x),
            None => {},
        }
        let ghost e = w@;
        match self.user_data_size {
            Some(x) => w.push(x),
            None => {},
        }
        proof {
            assert(b =~= a + opt_word(self.num_vertices));
            assert(c =~= b + (match self.vertex_list { Some(v) => v@, None => Seq::<u32>::empty() }));
            assert(d =~= c + opt_quad(self.normal_abcd));
            assert(e =~= d + opt_word(self.edge_wall));
            assert(w@ =~= e + opt_word(self.user_data_size));
            assert(w@ =~= self.words());
        }
        push_u32s(out, &w);
        let ghost f = out@;
        match &self.user_data {
            Some(dd) => append_bytes(out, dd.as_slice()),
            None => {},
        }
        proof {
            assert(out@ =~= f + self.data());
        }
    }

    #[verifier::rlimit(40)]
    proof fn lemma_var_round_trip(x: Obstacle, ctx: u32, tail: Seq<u8>) {
        let ws = x.words();
        lemma_words_of_bytes(ws, x.data() + tail);
        lemma_u32s_len(ws);
        let s = x.spec_bytes() + tail;
        assert(s =~= u32s_bytes(ws) + (x.data() + tail));
        let w = ws + words_of(x.data() + tail);
        assert(words_of(s) == w);
        lemma_i32_bits(x.next_region);
        lemma_i32_bits(x.obstacle_type.spec_value());
        let t = x.obstacle_type.spec_value();
        assert(w[2] == i32_bits(t));
        let o = Obstacle::offsets(w);
        let a = opt_word(x.num_vertices);
        let b = match x.vertex_list { Some(v) => v@, None => Seq::<u32>::empty() };
        let c = opt_quad(x.normal_abcd);
        let d = opt_word(x.edge_wall);
        let e = opt_word(x.user_data_size);
        let h = seq![x.flags.0, i32_bits(x.next_region), i32_bits(t)];
        assert(ws =~= h + a + b + c + d + e);
        assert(o[1] == 3 + a.len() + b.len());
        assert(o[2] == o[1] + c.len());
        assert(o[3] == o[2] + d.len());
        assert(o[4] == ws.len());
        if Obstacle::has_list(t) {
            assert(w.subrange(4, o[1]) =~= b);
        }
        if x.flags.0 & 0x04 == 0x04 {
            assert(w[o[3]] == x.user_data_size->0);
            assert(s.subrange(4 * o[4], 4 * o[4] + w[o[3]]) =~= x.data());
        }
    }

    #[verifier::rlimit(40)]
    proof fn lemma_var_bytes(s: Seq<u8>, ctx: u32, x: Obstacle) {
        let w = words_of(s);
        let o = Self::offsets(w);
        lemma_bits_i32(w[1]);
        lemma_bits_i32(w[2]);
        let n4 = o[4];
        assert(x.words() =~= w.take(n4));
        lemma_words_bytes(s, n4 as nat);
        let sz = Self::spec_size(s, ctx)->0;
        assert(x.spec_bytes() =~= s.take(sz as int));
    }
}

/// A node of a region's visibility tree. Its plane is kept as the bits of
/// its `f32`s.
#[derive(Debug, Clone, Copy, PartialEq, Eq)]
pub struct VisNode {
    pub normal_abcd: (u32, u32, u32, u32),
    pub vis_list_index: u32,
    pub front_tree: u32,
    pub back_tree: u32,
}

impl FixedRecord for VisNode {
    open spec fn spec_size() -> nat {
        28
    }

    open spec fn spec_decode(s: Seq<u8>) -> Self {
        VisNode {
            normal_abcd: (u32_at(s, 0), u32_at(s, 4), u32_at(s, 8), u32_at(s, 12)),
            vis_list_index: u32_at(s, 16),
            front_tree: u32_at(s, 20),
            back_tree: u32_at(s, 24),
        }
    }

    open spec fn spec_encode(&self) -> Seq<u8> {
        le_u32(self.normal_abcd.0) + le_u32(self.normal_abcd.1) + le_u32(self.normal_abcd.2) + le_u32(
            self.normal_abcd.3,
        ) + le_u32(self.vis_list_index) + le_u32(self.front_tree) + le_u32(self.back_tree)
    }

    open spec fn spec_wf(&self) -> bool {
        true
    }

    proof fn lemma_decode_encode(x: Self, tail: Seq<u8>) {
        let s = x.spec_encode() + tail;
        crate::bytes::lemma_u32_roundtrip(x.normal_abcd.0);
        assert(s.subrange(0, 4) =~= le_u32(x.normal_abcd.0));
        crate::bytes::lemma_u32_field(s, 0, x.normal_abcd.0);
        crate::bytes::lemma_u32_roundtrip(x.normal_abcd.1);
        assert(s.subrange(4, 8) =~= le_u32(x.normal_abcd.1));
        crate::bytes::lemma_u32_field(s, 4, x.normal_abcd.1);
        crate::bytes::lemma_u32_roundtrip(x.normal_abcd.2);
        assert(s.subrange(8, 12) =~= le_u32(x.normal_abcd.2));
        crate::bytes::lemma_u32_field(s, 8, x.normal_abcd.2);
        crate::bytes::lemma_u32_roundtrip(x.normal_abcd.3);
        assert(s.subrange(12, 16) =~= le_u32(x.normal_abcd.3));
        crate::bytes::lemma_u32_field(s, 12, x.normal_abcd.3);
        crate::bytes::lemma_u32_roundtrip(x.vis_list_index);
        assert(s.subrange(16, 20) =~= le_u32(x.vis_list_index));
        crate::bytes::lemma_u32_field(s, 16, x.vis_list_index);
        crate::bytes::lemma_u32_roundtrip(x.front_tree);
        assert(s.subrange(20, 24) =~= le_u32(x.front_tree));
        crate::bytes::lemma_u32_field(s, 20, x.front_tree);
        crate::bytes::lemma_u32_roundtrip(x.back_tree);
        assert(s.subrange(24, 28) =~= le_u32(x.back_tree));
        crate::bytes::lemma_u32_field(s, 24, x.back_tree);
    }

    proof fn lemma_encode_decode(s: Seq<u8>) {
        crate::bytes::lemma_u32_bytes(s, 0);
        crate::bytes::lemma_u32_bytes(s, 4);
        crate::bytes::lemma_u32_bytes(s, 8);
        crate::bytes::lemma_u32_bytes(s, 12);
        crate::bytes::lemma_u32_bytes(s, 16);
        crate::bytes::lemma_u32_bytes(s, 20);
        crate::bytes::lemma_u32_bytes(s, 24);
        assert(Self::spec_decode(s).spec_encode() =~= s.take(28));
    }

    fn size() -> (r: usize) {
        28
    }

    fn read(input: &[u8], pos: usize) -> (r: Self) {
        let ghost t = input@.skip(pos as int);
        let len = input.len();
        let r = VisNode {
            normal_abcd: (
                crate::bytes::read_u32(input, pos),
                crate::bytes::read_u32(input, pos + 4),
                crate::bytes::read_u32(input, pos + 8),
                crate::bytes::read_u32(input, pos + 12),
            ),
            vis_list_index: crate::bytes::read_u32(input, pos + 16),
            front_tree: crate::bytes::read_u32(input, pos + 20),
            back_tree: crate::bytes::read_u32(input, pos + 24),
        };
        assert(u32_at(input@, pos as int) == u32_at(t, 0));
        assert(u32_at(input@, pos + 4) == u32_at(t, 4));
        assert(u32_at(input@, pos + 8) == u32_at(t, 8));
        assert(u32_at(input@, pos + 12) == u32_at(t, 12));
        assert(u32_at(input@, pos + 16) == u32_at(t, 16));
        assert(u32_at(input@, pos + 20) == u32_at(t, 20));
        assert(u32_at(input@, pos + 24) == u32_at(t, 24));
        r
    }

    fn write(&self, out: &mut Vec<u8>) {
        push_u32(out, self.normal_abcd.0);
        push_u32(out, self.normal_abcd.1);
        push_u32(out, self.normal_abcd.2);
        push_u32(out, self.normal_abcd.3);
        push_u32(out, self.vis_list_index);
        push_u32(out, self.front_tree);
        push_u32(out, self.back_tree);
        assert(out@ =~= old(out)@ + self.spec_encode());
    }
}

impl VarRecord for VisibleList {
    /// Bit 7 of the region's flags says whether the entries are bytes.
    open spec fn spec_size(s: Seq<u8>, ctx: u32) -> Option<nat> {
        let be = ctx & 0x80 == 0x80;
        if s.len() >= 2 && s.len() >= Self::size(s, be) {
            Some(Self::size(s, be) as nat)
        } else {
            None
        }
    }

    open spec fn spec_read(s: Seq<u8>, ctx: u32, x: VisibleList) -> bool {
        let be = ctx & 0x80 == 0x80;
        x.range_count == u16_at(s, 0) && x.ranges@ == ranges_at(s, x.range_count as nat, be)
    }

    open spec fn spec_readable(s: Seq<u8>, ctx: u32) -> bool {
        true
    }

    open spec fn spec_bytes(&self) -> Seq<u8> {
        self.spec_to_bytes()
    }

    open spec fn spec_wf(&self, ctx: u32) -> bool {
        self.wf(ctx & 0x80 == 0x80)
    }

    fn parse_var(input: &[u8], ctx: u32) -> (r: Option<(VisibleList, usize)>) {
        let be = ctx & 0x80 == 0x80;
        match Self::parse(input, be) {
            Ok((rest, v)) => {
                let e = input.len() - rest.len();
                Some((v, e))
            },
            Err(_) => None,
        }
    }

    fn write_var(&self, out: &mut Vec<u8>) {
        let b = self.to_bytes();
        append_bytes(out, b.as_slice());
    }

    proof fn lemma_var_round_trip(x: VisibleList, ctx: u32, tail: Seq<u8>) {
        let be = ctx & 0x80 == 0x80;
        lemma_visible_list_round_trip(x, be, tail);
        lemma_ranges_read_back(x.ranges@, be, tail);
        lemma_u16_roundtrip(x.range_count);
    }

    proof fn lemma_var_bytes(s: Seq<u8>, ctx: u32, x: VisibleList) {
        let be = ctx & 0x80 == 0x80;
        let n = u16_at(s, 0) as nat;
        lemma_visible_list_bytes(s, be, n);
        lemma_u16_bytes(s, 0);
        assert(x.spec_bytes() =~= s.take(Self::size(s, be)));
    }
}


/// A region of a zone (a leaf of its BSP tree). Coordinates, distances and
/// planes are kept as the bits of their `f32`s.
///
/// **Type ID:** 0x22
#[derive(Debug, PartialEq)]
pub struct Region {
    pub name_reference: StringReference,
    pub flags: RegionFlags,
    pub ambient_light: FragmentRef,
    pub num_region_vertex: u32,
    pub num_proximal_regions: u32,
    pub num_render_vertices: u32,
    pub num_walls: u32,
    pub num_obstacles: u32,
    pub num_cutting_obstacles: u32,
    pub num_vis_node: u32,
    pub num_vis_list: u32,
    pub region_vertices: Vec<(u32, u32, u32)>,
    /// Nearby regions and their distances.
    pub proximal_regions: Vec<(u32, u32)>,
    /// `num_render_vertices` of them when the region has no walls, else none.
    pub render_vertices: Vec<(u32, u32, u32)>,
    pub walls: Vec<Wall>,
    pub obstacles: Vec<Obstacle>,
    pub vis_nodes: Vec<VisNode>,
    pub visible_lists: Vec<VisibleList>,
    /// There when bit 0 of the flags is set.
    pub sphere: Option<(u32, u32, u32, u32)>,
    /// There when bit 1 of the flags is set.
    pub reverb_volume: Option<u32>,
    /// There when bit 2 of the flags is set.
    pub reverb_offset: Option<i32>,
    pub user_data_size: u32,
    pub user_data: Vec<u8>,
    /// The region's mesh; there when bit 8 of the flags is set.
    pub mesh_reference: Option<FragmentRef>,
}

/// How many bytes an optional part of `n` bytes takes under `flags`.
pub open spec fn opt_len(flags: u32, bit: u32, n: int) -> int {
    if flags & bit == bit { n } else { 0 }
}

impl Region {
    pub const TYPE_ID: u32 = 0x22;

    /// How many render vertices the region stored at the start of `s` has:
    /// their count when it has no walls, else none.
    pub open spec fn render_count(s: Seq<u8>) -> nat {
        if u32_at(s, 24) == 0 { u32_at(s, 20) as nat } else { 0 }
    }

    /// Where the walls of the region stored at the start of `s` begin: after
    /// the 44-byte header, the region vertices (12 bytes each), the nearby
    /// regions (8) and the render vertices (12).
    pub open spec fn walls_at(s: Seq<u8>) -> int {
        44 + 12 * u32_at(s, 12) + 8 * u32_at(s, 16) + 12 * Self::render_count(s)
    }

    /// Where the obstacles begin: after the walls.
    pub open spec fn obstacles_at(s: Seq<u8>) -> int {
        var_offsets::<Wall>(s, Self::walls_at(s), u32_at(s, 24) as nat, 0).last()
    }

    /// Where the nodes of the visibility tree begin: after the obstacles.
    pub open spec fn nodes_at(s: Seq<u8>) -> int {
        var_offsets::<Obstacle>(s, Self::obstacles_at(s), u32_at(s, 28) as nat, 0).last()
    }

    /// Where the visible lists begin: after the nodes (28 bytes each).
    pub open spec fn lists_at(s: Seq<u8>) -> int {
        Self::nodes_at(s) + 28 * u32_at(s, 36)
    }

    /// Where the sphere begins: after the visible lists.
    pub open spec fn sphere_at(s: Seq<u8>) -> int {
        var_offsets::<VisibleList>(s, Self::lists_at(s), u32_at(s, 40) as nat, u32_at(s, 4)).last()
    }

    /// Where the user data size is: after the sphere (16 bytes), the reverb
    /// volume and the reverb offset (4 each) that are there.
    pub open spec fn user_data_at(s: Seq<u8>) -> int {
        let flags = u32_at(s, 4);
        Self::sphere_at(s) + opt_len(flags, 0x01, 16) + opt_len(flags, 0x02, 4) + opt_len(flags, 0x04, 4)
    }

    /// Where the mesh reference is: after the user data.
    pub open spec fn mesh_at(s: Seq<u8>) -> int {
        Self::user_data_at(s) + 4 + u32_at(s, Self::user_data_at(s))
    }

    /// Where the region ends: after the mesh reference, if it is there.
    /// Padding that may follow is not part of it.
    pub open spec fn end(s: Seq<u8>) -> int {
        Self::mesh_at(s) + opt_len(u32_at(s, 4), 0x100, 4)
    }

    /// Whether `s` holds the whole region stored at its start.
    pub open spec fn fits(s: Seq<u8>) -> bool {
        &&& s.len() >= 44
        &&& s.len() >= Self::walls_at(s)
        &&& vars_fit::<Wall>(s, Self::walls_at(s), u32_at(s, 24) as nat, 0)
        &&& vars_fit::<Obstacle>(s, Self::obstacles_at(s), u32_at(s, 28) as nat, 0)
        &&& s.len() >= Self::lists_at(s)
        &&& vars_fit::<VisibleList>(s, Self::lists_at(s), u32_at(s, 40) as nat, u32_at(s, 4))
        &&& s.len() >= Self::user_data_at(s) + 4
        &&& s.len() >= Self::end(s)
    }

    /// Whether every wall and obstacle that is reached can be read: their
    /// render methods and kinds are ones the library stands for.
    pub open spec fn readable(s: Seq<u8>) -> bool {
        s.len() >= 44 && s.len() >= Self::walls_at(s) ==> {
            &&& vars_readable::<Wall>(s, Self::walls_at(s), u32_at(s, 24) as nat, 0)
            &&& vars_fit::<Wall>(s, Self::walls_at(s), u32_at(s, 24) as nat, 0) ==> vars_readable::<Obstacle>(
                s,
                Self::obstacles_at(s),
                u32_at(s, 28) as nat,
                0,
            )
        }
    }

    /// Whether `f` is the region stored at the start of `s`.
    pub open spec fn read_from(s: Seq<u8>, f: Region) -> bool {
        let flags = u32_at(s, 4);
        let u = Self::user_data_at(s);
        &&& f.name_reference == StringReference(i32_at(s, 0))
        &&& f.flags == RegionFlags(flags)
        &&& f.ambient_light == FragmentRef::spec_new(i32_at(s, 8))
        &&& f.num_region_vertex == u32_at(s, 12)
        &&& f.num_proximal_regions == u32_at(s, 16)
        &&& f.num_render_vertices == u32_at(s, 20)
        &&& f.num_walls == u32_at(s, 24)
        &&& f.num_obstacles == u32_at(s, 28)
        &&& f.num_cutting_obstacles == u32_at(s, 32)
        &&& f.num_vis_node == u32_at(s, 36)
        &&& f.num_vis_list == u32_at(s, 40)
        &&& f.region_vertices@ == records_at::<(u32, u32, u32)>(s, 44, u32_at(s, 12) as nat)
        &&& f.proximal_regions@ == records_at::<(u32, u32)>(s, 44 + 12 * u32_at(s, 12), u32_at(s, 16) as nat)
        &&& f.render_vertices@ == records_at::<(u32, u32, u32)>(
            s,
            44 + 12 * u32_at(s, 12) + 8 * u32_at(s, 16),
            Self::render_count(s),
        )
        &&& f.walls@.len() == u32_at(s, 24)
        &&& vars_read::<Wall>(s, Self::walls_at(s), 0, f.walls@)
        &&& f.obstacles@.len() == u32_at(s, 28)
        &&& vars_read::<Obstacle>(s, Self::obstacles_at(s), 0, f.obstacles@)
        &&& f.vis_nodes@ == records_at::<VisNode>(s, Self::nodes_at(s), u32_at(s, 36) as nat)
        &&& f.visible_lists@.len() == u32_at(s, 40)
        &&& vars_read::<VisibleList>(s, Self::lists_at(s), flags, f.visible_lists@)
        &&& f.sphere == if flags & 0x01 == 0x01 {
            let p = Self::sphere_at(s);
            Some((u32_at(s, p), u32_at(s, p + 4), u32_at(s, p + 8), u32_at(s, p + 12)))
        } else {
            None
        }
        &&& f.reverb_volume == if flags & 0x02 == 0x02 {
            Some(u32_at(s, Self::sphere_at(s) + opt_len(flags, 0x01, 16)))
        } else {
            None
        }
        &&& f.reverb_offset == if flags & 0x04 == 0x04 {
            Some(i32_at(s, Self::sphere_at(s) + opt_len(flags, 0x01, 16) + opt_len(flags, 0x02, 4)))
        } else {
            None
        }
        &&& f.user_data_size == u32_at(s, u)
        &&& f.user_data@ == s.subrange(u + 4, Self::mesh_at(s))
        &&& f.mesh_reference == if flags & 0x100 == 0x100 {
            Some(FragmentRef::spec_new(i32_at(s, Self::mesh_at(s))))
        } else {
            None
        }
    }

    /// The counts agree with the lists, the flags with the optional parts,
    /// and each wall, obstacle and visible list is well formed.
    pub open spec fn wf(&self) -> bool {
        let flags = self.flags.0;
        &&& self.ambient_light.wf()
        &&& self.region_vertices@.len() == self.num_region_vertex
        &&& self.proximal_regions@.len() == self.num_proximal_regions
        &&& self.render_vertices@.len() == if self.num_walls == 0 { self.num_render_vertices } else { 0 }
        &&& self.walls@.len() == self.num_walls
        &&& (forall|i: int| 0 <= i < self.walls@.len() ==> (#[trigger] self.walls@[i]).spec_wf(0))
        &&& self.obstacles@.len() == self.num_obstacles
        &&& (forall|i: int| 0 <= i < self.obstacles@.len() ==> (#[trigger] self.obstacles@[i]).spec_wf(0))
        &&& self.vis_nodes@.len() == self.num_vis_node
        &&& self.visible_lists@.len() == self.num_vis_list
        &&& (forall|i: int| 0 <= i < self.visible_lists@.len() ==> (#[trigger] self.visible_lists@[i]).spec_wf(flags))
        &&& (self.sphere is Some <==> flags & 0x01 == 0x01)
        &&& (self.reverb_volume is Some <==> flags & 0x02 == 0x02)
        &&& (self.reverb_offset is Some <==> flags & 0x04 == 0x04)
        &&& self.user_data@.len() == self.user_data_size
        &&& (self.mesh_reference is Some <==> flags & 0x100 == 0x100)
        &&& (self.mesh_reference matches Some(m) ==> m.wf())
    }

    /// The 44-byte header.
    pub open spec fn spec_header(&self) -> Seq<u8> {
        self.name_reference.spec_to_bytes() + le_u32(self.flags.0) + self.ambient_light.spec_to_bytes() + le_u32(
            self.num_region_vertex,
        ) + le_u32(self.num_proximal_regions) + le_u32(self.num_render_vertices) + le_u32(self.num_walls) + le_u32(
            self.num_obstacles,
        ) + le_u32(self.num_cutting_obstacles) + le_u32(self.num_vis_node) + le_u32(self.num_vis_list)
    }

    /// The lists after the header.
    pub open spec fn spec_lists(&self) -> Seq<u8> {
        records_bytes(self.region_vertices@) + records_bytes(self.proximal_regions@) + records_bytes(
            self.render_vertices@,
        ) + vars_bytes(self.walls@) + vars_bytes(self.obstacles@) + records_bytes(self.vis_nodes@) + vars_bytes(
            self.visible_lists@,
        )
    }

    /// The optional parts, the user data and the mesh reference.
    pub open spec fn spec_tail(&self) -> Seq<u8> {
        (match self.sphere {
            Some(q) => le_u32(q.0) + le_u32(q.1) + le_u32(q.2) + le_u32(q.3),
            None => Seq::empty(),
        }) + (match self.reverb_volume {
            Some(v) => le_u32(v),
            None => Seq::empty(),
        }) + (match self.reverb_offset {
            Some(v) => le_i32(v),
            None => Seq::empty(),
        }) + le_u32(self.user_data_size) + self.user_data@ + (match self.mesh_reference {
            Some(m) => m.spec_to_bytes(),
            None => Seq::empty(),
        })
    }

    /// The stored region, before padding.
    pub open spec fn spec_body(&self) -> Seq<u8> {
        self.spec_header() + self.spec_lists() + self.spec_tail()
    }

    /// The stored form: the region, then zeros up to a multiple of four
    /// bytes.
    pub open spec fn spec_to_bytes(&self) -> Seq<u8> {
        let b = self.spec_body();
        b + Seq::new(((4 - (b.len() % 4) as int) % 4) as nat, |i: int| 0u8)
    }

    /// Reads a region. Padding after it is left unread. Each wall and
    /// obstacle that is reached must have a render method and a kind that the
    /// library stands for.
    #[verifier::rlimit(100)]
    #[verifier::spinoff_prover]
    pub fn parse(input: &[u8]) -> (r: WResult<'_, Region>)
        requires
            Self::readable(input@),
        ensures
            Self::fits(input@) ==> (r matches Ok((rest, f)) && Self::read_from(input@, f)
                && rest@ == input@.skip(Self::end(input@))),
            !Self::fits(input@) ==> r == Err::<(&[u8], Region), WldDocError>(too_short_spec(input@)),
    {
        let ghost s = input@;
        let len = input.len();
        if len < 44 {
            return Err(too_short(input));
        }
        let name_reference = StringReference::new(read_i32(input, 0));
        let flags = read_u32(input, 4);
        let ambient_light = FragmentRef::new(read_i32(input, 8));
        let num_region_vertex = read_u32(input, 12);
        let num_proximal_regions = read_u32(input, 16);
        let num_render_vertices = read_u32(input, 20);
        let num_walls = read_u32(input, 24);
        let num_obstacles = read_u32(input, 28);
        let num_cutting_obstacles = read_u32(input, 32);
        let num_vis_node = read_u32(input, 36);
        let num_vis_list = read_u32(input, 40);
        let (region_vertices, p1) = match parse_records::<(u32, u32, u32)>(input, 44, num_region_vertex) {
            Some(x) => x,
            None => return Err(too_short(input)),
        };
        let (proximal_regions, p2) = match parse_records::<(u32, u32)>(input, p1, num_proximal_regions) {
            Some(x) => x,
            None => return Err(too_short(input)),
        };
        let render_count: u32 = if num_walls == 0 { num_render_vertices } else { 0 };
        let (render_vertices, p3) = match parse_records::<(u32, u32, u32)>(input, p2, render_count) {
            Some(x) => x,
            None => return Err(too_short(input)),
        };
        assert(p3 == Self::walls_at(s));
        let (walls, p4) = match parse_vars::<Wall>(input, p3, num_walls, 0) {
            Some(x) => x,
            None => return Err(too_short(input)),
        };
        let (obstacles, p5) = match parse_vars::<Obstacle>(input, p4, num_obstacles, 0) {
            Some(x) => x,
            None => return Err(too_short(input)),
        };
        let (vis_nodes, p6) = match parse_records::<VisNode>(input, p5, num_vis_node) {
            Some(x) => x,
            None => return Err(too_short(input)),
        };
        proof {
            lemma_visible_lists_readable(s, p6 as int, num_vis_list as nat, flags);
        }
        let (visible_lists, p7) = match parse_vars::<VisibleList>(input, p6, num_vis_list, flags) {
            Some(x) => x,
            None => return Err(too_short(input)),
        };
        let mut p = p7;
        let sphere = if flags & 0x01 == 0x01 {
            if len - p < 16 {
                return Err(too_short(input));
            }
            let q = (read_u32(input, p), read_u32(input, p + 4), read_u32(input, p + 8), read_u32(input, p + 12));
            p = p + 16;
            Some(q)
        } else {
            None
        };
        let reverb_volume = if flags & 0x02 == 0x02 {
            if len - p < 4 {
                return Err(too_short(input));
            }
            let v = read_u32(input, p);
            p = p + 4;
            Some(v)
        } else {
            None
        };
        let reverb_offset = if flags & 0x04 == 0x04 {
            if len - p < 4 {
                return Err(too_short(input));
            }
            let v = read_i32(input, p);
            p = p + 4;
            Some(v)
        } else {
            None
        };
        assert(p == Self::user_data_at(s));
        if len - p < 4 {
            return Err(too_short(input));
        }
        let user_data_size = read_u32(input, p);
        p = p + 4;
        if len - p < user_data_size as usize {
            return Err(too_short(input));
        }
        let user_data = bytes_at(input, p, user_data_size as usize);
        p = p + user_data_size as usize;
        let mesh_reference = if flags & 0x100 == 0x100 {
            if len - p < 4 {
                return Err(too_short(input));
            }
            let m = FragmentRef::new(read_i32(input, p));
            p = p + 4;
            Some(m)
        } else {
            None
        };
        Ok((rest(input, p), Region {
            name_reference,
            flags: RegionFlags(flags),
            ambient_light,
            num_region_vertex,
            num_proximal_regions,
            num_render_vertices,
            num_walls,
            num_obstacles,
            num_cutting_obstacles,
            num_vis_node,
            num_vis_list,
            region_vertices,
            proximal_regions,
            render_vertices,
            walls,
            obstacles,
            vis_nodes,
            visible_lists,
            sphere,
            reverb_volume,
            reverb_offset,
            user_data_size,
            user_data,
            mesh_reference,
        }))
    }

    fn push_header(&self, out: &mut Vec<u8>)
        ensures
            final(out)@ == old(out)@ + self.spec_header(),
    {
        let ghost o0 = out@;
        let a = self.name_reference.into_bytes();
        append_bytes(out, a.as_slice());
        push_u32(out, self.flags.0);
        let b = self.ambient_light.into_bytes();
        append_bytes(out, b.as_slice());
        push_u32(out, self.num_region_vertex);
        push_u32(out, self.num_proximal_regions);
        push_u32(out, self.num_render_vertices);
        push_u32(out, self.num_walls);
        push_u32(out, self.num_obstacles);
        push_u32(out, self.num_cutting_obstacles);
        push_u32(out, self.num_vis_node);
        push_u32(out, self.num_vis_list);
        proof {
            assert(out@ =~= o0 + self.spec_header());
        }
    }

    fn push_lists(&self, out: &mut Vec<u8>)
        ensures
            final(out)@ == old(out)@ + self.spec_lists(),
    {
        let ghost o0 = out@;
        push_records(out, &self.region_vertices);
        push_records(out, &self.proximal_regions);
        push_records(out, &self.render_vertices);
        push_vars(out, &self.walls);
        push_vars(out, &self.obstacles);
        push_records(out, &self.vis_nodes);
        push_vars(out, &self.visible_lists);
        proof {
            assert(out@ =~= o0 + self.spec_lists());
        }
    }

    fn push_tail(&self, out: &mut Vec<u8>)
        ensures
            final(out)@ == old(out)@ + self.spec_tail(),
    {
        let ghost o0 = out@;
        match self.sphere {
            Some(q) => {
                push_u32(out, q.0);
                push_u32(out, q.1);
                push_u32(out, q.2);
                push_u32(out, q.3);
            },
            None => {},
        }
        let ghost o1 = out@;
        match self.reverb_volume {
            Some(v) => push_u32(out, v),
            None => {},
        }
        let ghost o2 = out@;
        match self.reverb_offset {
            Some(v) => push_i32(out, v),
            None => {},
        }
        let ghost o3 = out@;
        push_u32(out, self.user_data_size);
        append_bytes(out, self.user_data.as_slice());
        let ghost o4 = out@;
        match &self.mesh_reference {
            Some(m) => {
                let b = m.into_bytes();
                append_bytes(out, b.as_slice());
            },
            None => {},
        }
        proof {
            assert(o1 =~= o0 + (match self.sphere {
                Some(q) => le_u32(q.0) + le_u32(q.1) + le_u32(q.2) + le_u32(q.3),
                None => Seq::<u8>::empty(),
            }));
            assert(o2 =~= o1 + (match self.reverb_volume { Some(v) => le_u32(v), None => Seq::<u8>::empty() }));
            assert(o3 =~= o2 + (match self.reverb_offset { Some(v) => le_i32(v), None => Seq::<u8>::empty() }));
            assert(out@ =~= o4 + (match self.mesh_reference { Some(m) => m.spec_to_bytes(), None => Seq::<u8>::empty() }));
            assert(out@ =~= o0 + self.spec_tail());
        }
    }

    pub fn to_bytes(&self) -> (r: Vec<u8>)
        ensures
            r@ == self.spec_to_bytes(),
    {
        let mut out: Vec<u8> = Vec::new();
        self.push_header(&mut out);
        self.push_lists(&mut out);
        self.push_tail(&mut out);
        let ghost b = out@;
        assert(b == self.spec_body());
        let pad = (4 - out.len() % 4) % 4;
        let mut k: usize = 0;
        while k < pad
            invariant
                k <= pad,
                pad == (4 - (b.len() % 4) as int) % 4,
                out@ == b + Seq::new(k as nat, |i: int| 0u8),
            decreases pad - k,
        {
            out.push(0u8);
            k = k + 1;
            proof {
                assert(out@ =~= b + Seq::new(k as nat, |i: int| 0u8));
            }
        }
        out
    }
}

impl Fragment for Region {
    open spec fn spec_into_bytes(&self) -> Seq<u8> {
        self.spec_to_bytes()
    }

    open spec fn spec_serializable(&self) -> bool {
        true
    }

    fn into_bytes(&self) -> (r: Vec<u8>) {
        self.to_bytes()
    }

    fn name_ref(&self) -> (r: &StringReference)
        ensures
            *r == self.name_reference,
    {
        &self.name_reference
    }

    fn type_id(&self) -> (r: u32)
        ensures
            r == 0x22,
    {
        Self::TYPE_ID
    }
}

/// Visible lists are readable wherever they are reached.
pub proof fn lemma_visible_lists_readable(s: Seq<u8>, p: int, c: nat, ctx: u32)
    ensures
        vars_readable::<VisibleList>(s, p, c, ctx),
{
}

} // verus!
