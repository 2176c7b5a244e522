//! The hierarchical sprite (skeleton) definition fragment (0x10), its dags
//! and its flags.
use vstd::prelude::*;
use crate::bytes::{le_u32, u32_at, push_u32, i32_bits, i32_of_bits, bits_to_i32, i32_to_bits, lemma_i32_bits,
    lemma_bits_i32};
use crate::wld::parse::{WResult, u32_field, rest, too_short, WldDocError, u32s_bytes, push_u32s};
use crate::wld::words::{words_of, word, word_list, word_name, push_words};
use crate::wld::fragments::{Fragment, StringReference, too_short_spec};

verus! {

/// The flags of a hierarchical sprite (skeleton) definition.
#[derive(Debug, Clone, Copy, PartialEq, Eq, Structural)]
pub struct HierarchicalSpriteDefFlags(pub u32);

impl HierarchicalSpriteDefFlags {
    const HAS_CENTER_OFFSET: u32 = 0x01;
    const HAS_BOUNDING_RADIUS: u32 = 0x02;
    const UNKNOWN_FLAG: u32 = 0x200;

    fn parse(input: &[u8]) -> (r: WResult<'_, Self>)
        ensures
            input@.len() >= 4 ==> (r matches Ok((rest, f)) && f.0 == u32_at(input@, 0) && rest@ == input@.skip(4)),
            input@.len() < 4 ==> r is Err,
    {
        match u32_field(input, 0) {
            Some(v) => Ok((rest(input, 4), Self(v))),
            None => Err(too_short(input)),
        }
    }

    fn into_bytes(&self) -> (r: Vec<u8>)
        ensures
            r@ == le_u32(self.0),
    {
        let mut out = Vec::new();
        push_u32(&mut out, self.0);
        out
    }

    /// Whether a center offset follows.
    pub fn has_center_offset(&self) -> (r: bool)
        ensures
            r == (self.0 & 0x01 == 0x01),
    {
        self.0 & Self::HAS_CENTER_OFFSET == Self::HAS_CENTER_OFFSET
    }

    /// Whether a bounding radius follows.
    pub fn has_bounding_radius(&self) -> (r: bool)
        ensures
            r == (self.0 & 0x02 == 0x02),
    {
        self.0 & Self::HAS_BOUNDING_RADIUS == Self::HAS_BOUNDING_RADIUS
    }

    /// Whether the flag of unknown meaning (0x200) is set.
    pub fn has_unknown_flag(&self) -> (r: bool)
        ensures
            r == (self.0 & 0x200 == 0x200),
    {
        self.0 & Self::UNKNOWN_FLAG == Self::UNKNOWN_FLAG
    }
}

/// An entry of a skeleton: one piece, its track and mesh, and the pieces
/// attached to it.
#[derive(Debug, PartialEq)]
pub struct Dag {
    /// The name of this or another skeleton fragment.
    pub name_reference: i32,
    /// _Unknown_ - usually 0.
    pub flags: u32,
    /// The track (0x13) that moves this piece.
    pub track_reference: u32,
    /// Sometimes a mesh reference (0x2d).
    pub mesh_or_sprite_reference: u32,
    pub num_sub_dags: u32,
    /// The indices of the pieces attached to this one; `num_sub_dags` of
    /// them.
    pub sub_dags: Vec<u32>,
}

/// Where the dag stored at word `q` of `w` ends: five words, then one per
/// attached piece.
pub open spec fn dag_end(w: Seq<u32>, q: int) -> int {
    q + 5 + w[q + 4]
}

/// Whether `w` holds the whole dag stored at word `q`.
pub open spec fn dag_fits(w: Seq<u32>, q: int) -> bool {
    0 <= q && q + 5 <= w.len() && dag_end(w, q) <= w.len()
}

/// Whether `d` is the dag stored at word `q` of `w`.
pub open spec fn dag_at(w: Seq<u32>, q: int, d: Dag) -> bool {
    &&& d.name_reference == i32_of_bits(w[q])
    &&& d.flags == w[q + 1]
    &&& d.track_reference == w[q + 2]
    &&& d.mesh_or_sprite_reference == w[q + 3]
    &&& d.num_sub_dags == w[q + 4]
    &&& d.sub_dags@ == w.subrange(q + 5, dag_end(w, q))
}

/// Where each of `c` dags stored one after another from word `p` of `w`
/// begins, and (last) where the last one ends.
pub open spec fn dag_offsets(w: Seq<u32>, p: int, c: nat) -> Seq<int>
    decreases c,
{
    if c == 0 {
        seq![p]
    } else {
        let o = dag_offsets(w, p, (c - 1) as nat);
        o.push(dag_end(w, o.last()))
    }
}

/// Whether `w` holds all of the `c` dags stored from word `p`.
pub open spec fn dags_fit(w: Seq<u32>, p: int, c: nat) -> bool {
    forall|i: int| 0 <= i < c ==> dag_fits(w, #[trigger] dag_offsets(w, p, c)[i])
}

impl Dag {
    /// The words of the stored form.
    pub open spec fn words(&self) -> Seq<u32> {
        seq![i32_bits(self.name_reference), self.flags, self.track_reference, self.mesh_or_sprite_reference,
            self.num_sub_dags] + self.sub_dags@
    }

    /// The count is the number of attached pieces.
    pub open spec fn wf(&self) -> bool {
        self.sub_dags@.len() == self.num_sub_dags
    }

    /// Reads the dag stored at word `q`, and where it ends.
    fn parse_at(input: &[u8], q: usize) -> (r: Option<(Dag, usize)>)
        ensures
            dag_fits(words_of(input@), q as int) ==> (r matches Some((d, e)) && dag_at(words_of(input@), q as int, d)
                && e == dag_end(words_of(input@), q as int)),
            !dag_fits(words_of(input@), q as int) ==> r is None,
    {
        let total = input.len() / 4;
        if q > total || total - q < 5 {
            return None;
        }
        let head = match word_list(input, q, 5) {
            Some(v) => v,
            None => return None,
        };
        let sub_dags = match word_list(input, q + 5, head[4]) {
            Some(v) => v,
            None => return None,
        };
        let e = q + 5 + head[4] as usize;
        Some((Dag {
            name_reference: bits_to_i32(head[0]),
            flags: head[1],
            track_reference: head[2],
            mesh_or_sprite_reference: head[3],
            num_sub_dags: head[4],
            sub_dags,
        }, e))
    }

    /// Appends the dag's words.
    fn push_words(&self, out: &mut Vec<u32>)
        ensures
            final(out)@ == old(out)@ + self.words(),
    {
        out.push(i32_to_bits(self.name_reference));
        out.push(self.flags);
        out.push(self.track_reference);
        out.push(self.mesh_or_sprite_reference);
        out.push(self.num_sub_dags);
        push_words(out, &self.sub_dags);
        proof {
            assert(out@ =~= old(out)@ + self.words());
        }
    }
}

/// The words of dags stored one after another.
pub open spec fn dags_words(ds: Seq<Dag>) -> Seq<u32>
    decreases ds.len(),
{
    if ds.len() == 0 {
        Seq::empty()
    } else {
        dags_words(ds.drop_last()) + ds.last().words()
    }
}

/// Reads `c` dags stored one after another from word `p`, and where they
/// end.
fn parse_dags(input: &[u8], p: usize, c: u32) -> (r: Option<(Vec<Dag>, usize)>)
    requires
        p <= words_of(input@).len(),
    ensures
        r matches Some((ds, e)) ==> e <= words_of(input@).len(),
        dags_fit(words_of(input@), p as int, c as nat) ==> (r matches Some((ds, e)) && ds@.len() == c
            && e == dag_offsets(words_of(input@), p as int, c as nat).last()
            && forall|i: int| 0 <= i < c ==> dag_at(words_of(input@), #[trigger] dag_offsets(words_of(input@), p as int, c as nat)[i], ds@[i])),
        !dags_fit(words_of(input@), p as int, c as nat) ==> r is None,
{
    let ghost w = words_of(input@);
    let mut ds: Vec<Dag> = Vec::new();
    let mut q = p;
    let mut i: u32 = 0;
    while i < c
        invariant
            i <= c,
            w == words_of(input@),
            q <= w.len(),
            ds@.len() == i,
            q == dag_offsets(w, p as int, i as nat).last(),
            forall|j: int| 0 <= j < i ==> dag_fits(w, #[trigger] dag_offsets(w, p as int, i as nat)[j]),
            forall|j: int| 0 <= j < i ==> dag_at(w, #[trigger] dag_offsets(w, p as int, i as nat)[j], ds@[j]),
        decreases c - i,
    {
        proof {
            lemma_dag_offsets_prefix(w, p as int, i as nat, (i + 1) as nat);
        }
        match Dag::parse_at(input, q) {
            Some((d, e)) => {
                ds.push(d);
                q = e;
            },
            None => {
                proof {
                    lemma_dag_offsets_prefix(w, p as int, i as nat, c as nat);
                    assert(!dag_fits(w, dag_offsets(w, p as int, c as nat)[i as int]));
                }
                return None;
            },
        }
        i = i + 1;
    }
    Some((ds, q))
}

/// The offsets of fewer dags are the first of those of more.
pub proof fn lemma_dag_offsets_prefix(w: Seq<u32>, p: int, a: nat, b: nat)
    requires
        a <= b,
    ensures
        dag_offsets(w, p, a).len() == a + 1,
        dag_offsets(w, p, b).len() == b + 1,
        forall|i: int| 0 <= i <= a ==> #[trigger] dag_offsets(w, p, a)[i] == dag_offsets(w, p, b)[i],
    decreases b,
{
    lemma_dag_offsets_len(w, p, a);
    lemma_dag_offsets_len(w, p, b);
    if b > a {
        lemma_dag_offsets_prefix(w, p, a, (b - 1) as nat);
    }
}

/// There is an offset per dag, and one more for the end.
pub proof fn lemma_dag_offsets_len(w: Seq<u32>, p: int, c: nat)
    ensures
        dag_offsets(w, p, c).len() == c + 1,
    decreases c,
{
    if c > 0 {
        lemma_dag_offsets_len(w, p, (c - 1) as nat);
    }
}

/// Appends the words of each dag.
fn push_dags(out: &mut Vec<u32>, ds: &Vec<Dag>)
    ensures
        final(out)@ == old(out)@ + dags_words(ds@),
{
    let mut k: usize = 0;
    while k < ds.len()
        invariant
            k <= ds@.len(),
            out@ == old(out)@ + dags_words(ds@.take(k as int)),
        decreases ds@.len() - k,
    {
        ds[k].push_words(out);
        k = k + 1;
        proof {
            assert(ds@.take(k as int).drop_last() =~= ds@.take(k - 1));
            assert(out@ =~= old(out)@ + dags_words(ds@.take(k as int)));
        }
    }
    proof {
        assert(ds@.take(k as int) =~= ds@);
    }
}

/// A skeleton: its pieces as a tree of dags, with optional bounds and the
/// meshes attached to it. The bounding radius is kept as the bits of its
/// `f32`.
///
/// **Type ID:** 0x10
#[derive(Debug, PartialEq)]
pub struct HierarchicalSpriteDef {
    pub name_reference: StringReference,
    /// Bit 0: `center_offset` is there; bit 1: `bounding_radius`; bit 9: the
    /// attached skins.
    pub flags: HierarchicalSpriteDefFlags,
    pub num_dags: u32,
    /// Optionally a polyhedron reference (0x18).
    pub collision_volume_reference: u32,
    pub center_offset: Option<(u32, u32, u32)>,
    pub bounding_radius: Option<u32>,
    /// `num_dags` pieces.
    pub dags: Vec<Dag>,
    pub num_attached_skins: Option<u32>,
    /// The meshes (0x2d) of the model; `num_attached_skins` of them.
    pub dm_sprites: Option<Vec<u32>>,
    /// _Unknown_ - as many as `dm_sprites`.
    pub link_skin_updates_to_dag_index: Option<Vec<u32>>,
}

impl HierarchicalSpriteDef {
    pub const TYPE_ID: u32 = 0x10;

    /// Where each part of the skeleton held by `w` begins, and (last) where
    /// it ends: the center offset (three words), the bounding radius, the
    /// dags, the number of skins, the skins and the links (a word per skin
    /// each), each optional part there as its flag bit says.
    pub open spec fn offsets(w: Seq<u32>) -> Seq<int> {
        let flags = w[1];
        let skins = flags & 0x200 == 0x200;
        let p0 = 4int;
        let p1 = if flags & 0x01 == 0x01 { p0 + 3 } else { p0 };
        let p2 = if flags & 0x02 == 0x02 { p1 + 1 } else { p1 };
        let p3 = dag_offsets(w, p2, w[2] as nat).last();
        let p4 = if skins { p3 + 1 } else { p3 };
        let n = if skins { w[p3] as int } else { 0 };
        seq![p0, p1, p2, p3, p4, p4 + n, p4 + 2 * n]
    }

    /// How many words the skeleton held by `w` takes, if `w` holds it all.
    pub open spec fn size(w: Seq<u32>) -> Option<nat> {
        if w.len() < 4 {
            None
        } else {
            let o = Self::offsets(w);
            if w.len() < o[2] || !dags_fit(w, o[2], w[2] as nat) || w.len() < o[4] || w.len() < o[6] {
                None
            } else {
                Some(o[6] as nat)
            }
        }
    }

    /// Whether `f` is the skeleton held by `w`.
    pub open spec fn read_from(w: Seq<u32>, f: HierarchicalSpriteDef) -> bool {
        let flags = w[1];
        let o = Self::offsets(w);
        let d = dag_offsets(w, o[2], w[2] as nat);
        &&& f.name_reference == word_name(w[0])
        &&& f.flags == HierarchicalSpriteDefFlags(flags)
        &&& f.num_dags == w[2]
        &&& f.collision_volume_reference == w[3]
        &&& f.center_offset == if flags & 0x01 == 0x01 { Some((w[4], w[5], w[6])) } else { None }
        &&& f.bounding_radius == if flags & 0x02 == 0x02 { Some(w[o[1]]) } else { None }
        &&& f.dags@.len() == w[2]
        &&& forall|i: int| 0 <= i < w[2] ==> dag_at(w, #[trigger] d[i], f.dags@[i])
        &&& if flags & 0x200 == 0x200 {
            &&& f.num_attached_skins == Some(w[o[3]])
            &&& f.dm_sprites matches Some(v) && v@ == w.subrange(o[4], o[5])
            &&& f.link_skin_updates_to_dag_index matches Some(v) && v@ == w.subrange(o[5], o[6])
        } else {
            &&& f.num_attached_skins is None
            &&& f.dm_sprites is None
            &&& f.link_skin_updates_to_dag_index is None
        }
    }

    /// The words of the stored form.
    pub open spec fn words(&self) -> Seq<u32> {
        seq![i32_bits(self.name_reference.0), self.flags.0, self.num_dags, self.collision_volume_reference]
            + (match self.center_offset { Some(c) => seq![c.0, c.1, c.2], None => Seq::empty() })
            + (match self.bounding_radius { Some(x) => seq![x], None => Seq::empty() })
            + dags_words(self.dags@)
            + (match self.num_attached_skins { Some(x) => seq![x], None => Seq::empty() })
            + (match self.dm_sprites { Some(v) => v@, None => Seq::empty() })
            + (match self.link_skin_updates_to_dag_index { Some(v) => v@, None => Seq::empty() })
    }

    pub open spec fn spec_to_bytes(&self) -> Seq<u8> {
        u32s_bytes(self.words())
    }

    pub fn parse(input: &[u8]) -> (r: WResult<'_, HierarchicalSpriteDef>)
        ensures
            match Self::size(words_of(input@)) {
                Some(n) => r matches Ok((rest, f)) && Self::read_from(words_of(input@), f)
                    && rest@ == input@.skip(4 * n as int),
                None => r == Err::<(&[u8], HierarchicalSpriteDef), WldDocError>(too_short_spec(input@)),
            },
    {
        let ghost w = words_of(input@);
        let ghost o = Self::offsets(w);
        let total = input.len() / 4;
        let head = match word_list(input, 0, 4) {
            Some(v) => v,
            None => return Err(too_short(input)),
        };
        let flags = head[1];
        let mut p: usize = 4;
        let center_offset = if flags & 0x01 == 0x01 {
            let v = match word_list(input, 4, 3) {
                Some(v) => v,
                None => return Err(too_short(input)),
            };
            p = 7;
            Some((v[0], v[1], v[2]))
        } else {
            None
        };
        let bounding_radius = if flags & 0x02 == 0x02 {
            let x = match word(input, p) {
                Some(x) => x,
                None => return Err(too_short(input)),
            };
            p = p + 1;
            Some(x)
        } else {
            None
        };
        assert(p == o[2]);
        let (dags, q) = match parse_dags(input, p, head[2]) {
            Some(x) => x,
            None => return Err(too_short(input)),
        };
        p = q;
        assert(p == o[3]);
        let mut num_attached_skins: Option<u32> = None;
        let mut dm_sprites: Option<Vec<u32>> = None;
        let mut link_skin_updates_to_dag_index: Option<Vec<u32>> = None;
        if flags & 0x200 == 0x200 {
            let n = match word(input, p) {
                Some(x) => x,
                None => return Err(too_short(input)),
            };
            p = p + 1;
            let v1 = match word_list(input, p, n) {
                Some(v) => v,
                None => return Err(too_short(input)),
            };
            p = p + n as usize;
            let v2 = match word_list(input, p, n) {
                Some(v) => v,
                None => return Err(too_short(input)),
            };
            p = p + n as usize;
            num_attached_skins = Some(n);
            dm_sprites = Some(v1);
            link_skin_updates_to_dag_index = Some(v2);
        }
        assert(p == o[6]);
        assert(4 * p <= input@.len()) by (nonlinear_arith)
            requires
                p <= input@.len() / 4,
        ;
        let f = HierarchicalSpriteDef {
            name_reference: StringReference::new(bits_to_i32(head[0])),
            flags: HierarchicalSpriteDefFlags(flags),
            num_dags: head[2],
            collision_volume_reference: head[3],
            center_offset,
            bounding_radius,
            dags,
            num_attached_skins,
            dm_sprites,
            link_skin_updates_to_dag_index,
        };
        Ok((rest(input, 4 * p), f))
    }
}

impl Fragment for HierarchicalSpriteDef {
    open spec fn spec_into_bytes(&self) -> Seq<u8> {
        self.spec_to_bytes()
    }

    open spec fn spec_serializable(&self) -> bool {
        true
    }

    fn into_bytes(&self) -> (r: Vec<u8>) {
        let mut w: Vec<u32> = vec![
            i32_to_bits(self.name_reference.0),
            self.flags.0,
            self.num_dags,
            self.collision_volume_reference,
        ];
        match self.center_offset {
            Some(c) => {
                w.push(c.0);
                w.push(c.1);
                w.push(c.2);
            },
            None => {},
        }
        match self.bounding_radius {
            Some(x) => w.push(x),
            None => {},
        }
        let ghost a = w@;
        push_dags(&mut w, &self.dags);
        let ghost b = w@;
        match self.num_attached_skins {
            Some(x) => w.push(x),
            None => {},
        }
        let ghost c = w@;
        match &self.dm_sprites {
            Some(v) => push_words(&mut w, v),
            None => {},
        }
        let ghost d = w@;
        match &self.link_skin_updates_to_dag_index {
            Some(v) => push_words(&mut w, v),
            None => {},
        }
        let mut out: Vec<u8> = Vec::new();
        push_u32s(&mut out, &w);
        proof {
            assert(c =~= b + (match self.num_attached_skins { Some(x) => seq![x], None => Seq::<u32>::empty() }));
            assert(d =~= c + (match self.dm_sprites { Some(v) => v@, None => Seq::<u32>::empty() }));
            assert(w@ =~= d + (match self.link_skin_updates_to_dag_index {
                Some(v) => v@,
                None => Seq::<u32>::empty(),
            }));
            assert(w@ =~= self.words());
        }
        out
    }

    fn name_ref(&self) -> (r: &StringReference)
        ensures
            *r == self.name_reference,
    {
        &self.name_reference
    }

    fn type_id(&self) -> (r: u32)
        ensures
            r == 0x10,
    {
        Self::TYPE_ID
    }
}


impl HierarchicalSpriteDef {
    /// Each optional part is there exactly when its flag bit is set, and each
    /// count is the number of what it counts.
    pub open spec fn wf(&self) -> bool {
        let flags = self.flags.0;
        let skins = flags & 0x200 == 0x200;
        &&& (self.center_offset is Some <==> flags & 0x01 == 0x01)
        &&& (self.bounding_radius is Some <==> flags & 0x02 == 0x02)
        &&& self.dags@.len() == self.num_dags
        &&& forall|i: int| 0 <= i < self.dags@.len() ==> (#[trigger] self.dags@[i]).wf()
        &&& (self.num_attached_skins is Some <==> skins)
        &&& (self.dm_sprites is Some <==> skins)
        &&& (self.link_skin_updates_to_dag_index is Some <==> skins)
        &&& (self.dm_sprites matches Some(v) ==> v@.len() == self.num_attached_skins->0)
        &&& (self.link_skin_updates_to_dag_index matches Some(v) ==> v@.len() == self.num_attached_skins->0)
    }
}

/// Dags written one after another are read back from where they were
/// written, whatever surrounds them.
pub proof fn lemma_dags_read_back(pre: Seq<u32>, ds: Seq<Dag>, tail: Seq<u32>)
    requires
        forall|i: int| 0 <= i < ds.len() ==> (#[trigger] ds[i]).wf(),
    ensures
        ({
            let w = pre + dags_words(ds) + tail;
            let o = dag_offsets(w, pre.len() as int, ds.len());
            &&& o.last() == pre.len() + dags_words(ds).len()
            &&& dags_fit(w, pre.len() as int, ds.len())
            &&& forall|i: int| 0 <= i < ds.len() ==> dag_at(w, #[trigger] o[i], ds[i])
        }),
    decreases ds.len(),
{
    let w = pre + dags_words(ds) + tail;
    let pl = pre.len() as int;
    lemma_dag_offsets_len(w, pl, ds.len());
    if ds.len() > 0 {
        let p = ds.drop_last();
        let x = ds.last();
        assert forall|i: int| 0 <= i < p.len() implies (#[trigger] p[i]).wf() by {
            assert(p[i] == ds[i]);
        }
        lemma_dags_read_back(pre, p, x.words() + tail);
        assert(pre + dags_words(p) + (x.words() + tail) =~= w);
        let q = pl + dags_words(p).len();
        let op = dag_offsets(w, pl, p.len());
        let o = dag_offsets(w, pl, ds.len());
        lemma_dag_offsets_prefix(w, pl, p.len(), ds.len());
        assert(o[p.len() as int] == q);
        assert(w.subrange(q, q + x.words().len()) =~= x.words());
        assert(w[q + 4] == x.num_sub_dags);
        assert(w.subrange(q + 5, dag_end(w, q)) =~= x.sub_dags@);
        assert(dag_at(w, q, x));
        assert forall|i: int| 0 <= i < ds.len() implies dag_at(w, #[trigger] o[i], ds[i]) by {
            if i < p.len() {
                assert(o[i] == op[i]);
                assert(ds[i] == p[i]);
            }
        }
        assert forall|i: int| 0 <= i < ds.len() implies dag_fits(w, #[trigger] o[i]) by {
            if i < p.len() {
                assert(o[i] == op[i]);
                assert(dag_fits(w, op[i]));
            }
        }
    }
}

/// Dags read one after another are written back as the words they were
/// read from, and each is well formed.
pub proof fn lemma_dags_words(w: Seq<u32>, p: int, ds: Seq<Dag>)
    requires
        0 <= p <= w.len(),
        dags_fit(w, p, ds.len()),
        forall|i: int| 0 <= i < ds.len() ==> dag_at(w, #[trigger] dag_offsets(w, p, ds.len())[i], ds[i]),
    ensures
        dags_words(ds) == w.subrange(p, dag_offsets(w, p, ds.len()).last()),
        forall|i: int| 0 <= i < ds.len() ==> (#[trigger] ds[i]).wf(),
        p <= dag_offsets(w, p, ds.len()).last(),
    decreases ds.len(),
{
    lemma_dag_offsets_len(w, p, ds.len());
    if ds.len() > 0 {
        let n = (ds.len() - 1) as nat;
        let pr = ds.drop_last();
        let x = ds.last();
        let o = dag_offsets(w, p, ds.len());
        let op = dag_offsets(w, p, n);
        lemma_dag_offsets_prefix(w, p, n, ds.len());
        assert forall|i: int| 0 <= i < n implies dag_fits(w, #[trigger] op[i]) by {
            assert(op[i] == o[i]);
            assert(dag_fits(w, o[i]));
        }
        assert forall|i: int| 0 <= i < n implies dag_at(w, #[trigger] op[i], pr[i]) by {
            assert(op[i] == o[i]);
            assert(pr[i] == ds[i]);
            assert(dag_at(w, o[i], ds[i]));
        }
        lemma_dags_words(w, p, pr);
        let q = op.last();
        assert(o[n as int] == q);
        assert(dag_fits(w, o[n as int]));
        assert(dag_at(w, o[n as int], ds[n as int]));
        crate::bytes::lemma_bits_i32(w[q]);
        assert(x.words() =~= w.subrange(q, dag_end(w, q)));
        assert(dags_words(ds) =~= w.subrange(p, o.last()));
        assert forall|i: int| 0 <= i < ds.len() implies (#[trigger] ds[i]).wf() by {
            if i < n {
                assert(ds[i] == pr[i]);
            }
        }
    } else {
        assert(dags_words(ds) =~= w.subrange(p, p));
    }
}

/// Reading back the words of a well-formed skeleton gives the same
/// skeleton, whatever follows them.
#[verifier::rlimit(40)]
pub proof fn lemma_hierarchical_sprite_def_round_trip(f: HierarchicalSpriteDef, tail: Seq<u32>)
    requires
        f.wf(),
    ensures
        HierarchicalSpriteDef::size(f.words() + tail) == Some(f.words().len()),
        HierarchicalSpriteDef::read_from(f.words() + tail, f),
{
    lemma_i32_bits(f.name_reference.0);
    let h = seq![i32_bits(f.name_reference.0), f.flags.0, f.num_dags, f.collision_volume_reference];
    let c = match f.center_offset { Some(c) => seq![c.0, c.1, c.2], None => Seq::<u32>::empty() };
    let b = match f.bounding_radius { Some(x) => seq![x], None => Seq::<u32>::empty() };
    let d = dags_words(f.dags@);
    let k = match f.num_attached_skins { Some(x) => seq![x], None => Seq::<u32>::empty() };
    let m = match f.dm_sprites { Some(v) => v@, None => Seq::<u32>::empty() };
    let l = match f.link_skin_updates_to_dag_index { Some(v) => v@, None => Seq::<u32>::empty() };
    let w = f.words() + tail;
    assert(w =~= h + c + b + d + k + m + l + tail);
    lemma_dags_read_back(h + c + b, f.dags@, k + m + l + tail);
    assert(h + c + b + d + (k + m + l + tail) =~= w);
    let o = HierarchicalSpriteDef::offsets(w);
    assert(o[2] == (h + c + b).len());
    assert(o[3] == (h + c + b + d).len());
    if f.flags.0 & 0x200 == 0x200 {
        assert(w[o[3]] == f.num_attached_skins->0);
        assert(w.subrange(o[4], o[5]) =~= m);
        assert(w.subrange(o[5], o[6]) =~= l);
    }
    assert(o[6] == w.len() - tail.len());
}

/// The words of the skeleton read from `w` are the words it was read from,
/// and it is well formed.
#[verifier::rlimit(40)]
pub proof fn lemma_hierarchical_sprite_def_words(w: Seq<u32>, f: HierarchicalSpriteDef)
    requires
        HierarchicalSpriteDef::size(w) is Some,
        HierarchicalSpriteDef::read_from(w, f),
    ensures
        f.words() == w.take(HierarchicalSpriteDef::size(w)->0 as int),
        f.wf(),
{
    lemma_bits_i32(w[0]);
    let o = HierarchicalSpriteDef::offsets(w);
    lemma_dags_words(w, o[2], f.dags@);
    assert(f.words() =~= w.take(o[6]));
}

} // verus!
