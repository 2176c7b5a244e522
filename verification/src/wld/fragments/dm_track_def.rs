//! The older vertex animation fragment (0x2e): the positions of a mesh's
//! vertices in each frame.
use vstd::prelude::*;
use crate::bytes::{i32_bits, bits_to_i32, i32_to_bits, lemma_i32_bits, lemma_bits_i32};
use crate::wld::parse::{WResult, WldDocError, rest, too_short, u32s_bytes, push_u32s};
use crate::wld::words::{words_of, word_list, word_triples, word_name, triples, flat3, push_triples,
    lemma_triples_flat3, lemma_flat3_triples};
use crate::wld::fragments::{Fragment, StringReference, too_short_spec};

verus! {

/// The animation of a mesh's vertices (DMTRACKDEF): for each frame, the
/// position of each vertex, kept as the bits of its `f32` coordinates.
///
/// **Type ID:** 0x2e
#[derive(Debug, PartialEq)]
pub struct DmTrackDef {
    pub name_reference: StringReference,
    pub flags: u32,
    pub vertex_count: u32,
    pub frame_count: u32,
    /// The milliseconds between frames.
    pub sleep: u32,
    /// _Unknown_.
    pub param1: u32,
    /// `frame_count` frames of `vertex_count` positions each.
    pub frames: Vec<Vec<(u32, u32, u32)>>,
}

/// The words of frames stored one after another.
pub open spec fn frames_words(v: Seq<Vec<(u32, u32, u32)>>) -> Seq<u32>
    decreases v.len(),
{
    if v.len() == 0 {
        Seq::empty()
    } else {
        frames_words(v.drop_last()) + flat3(v.last()@)
    }
}

impl DmTrackDef {
    pub const TYPE_ID: u32 = 0x2e;

    /// How many words the animation held by `w` takes, if `w` holds it all:
    /// six, then three per vertex in each frame.
    pub open spec fn size(w: Seq<u32>) -> Option<nat> {
        if w.len() < 6 || w.len() < 6 + 3 * w[2] * w[3] {
            None
        } else {
            Some((6 + 3 * w[2] * w[3]) as nat)
        }
    }

    /// Whether `f` is the animation held by `w`.
    pub open spec fn read_from(w: Seq<u32>, f: DmTrackDef) -> bool {
        let vc = w[2];
        &&& f.name_reference == word_name(w[0])
        &&& f.flags == w[1]
        &&& f.vertex_count == vc
        &&& f.frame_count == w[3]
        &&& f.sleep == w[4]
        &&& f.param1 == w[5]
        &&& f.frames@.len() == w[3]
        &&& forall|k: int| 0 <= k < w[3] ==> (#[trigger] f.frames@[k])@ == triples(w.skip(6 + 3 * vc * k), vc as nat)
    }

    pub open spec fn words(&self) -> Seq<u32> {
        seq![i32_bits(self.name_reference.0), self.flags, self.vertex_count, self.frame_count, self.sleep, self.param1]
            + frames_words(self.frames@)
    }

    pub open spec fn spec_to_bytes(&self) -> Seq<u8> {
        u32s_bytes(self.words())
    }

    /// There are `frame_count` frames of `vertex_count` positions each.
    pub open spec fn wf(&self) -> bool {
        &&& self.frames@.len() == self.frame_count
        &&& forall|k: int| 0 <= k < self.frames@.len() ==> (#[trigger] self.frames@[k])@.len() == self.vertex_count
    }

    pub fn parse(input: &[u8]) -> (r: WResult<'_, DmTrackDef>)
        ensures
            match Self::size(words_of(input@)) {
                Some(n) => r matches Ok((rest, f)) && Self::read_from(words_of(input@), f)
                    && rest@ == input@.skip(4 * n as int),
                None => r == Err::<(&[u8], DmTrackDef), WldDocError>(too_short_spec(input@)),
            },
    {
        let ghost w = words_of(input@);
        let total = input.len() / 4;
        let head = match word_list(input, 0, 6) {
            Some(v) => v,
            None => return Err(too_short(input)),
        };
        let vc = head[2];
        let fc = head[3];
        let need: u64 = match (vc as u64).checked_mul(fc as u64) {
            Some(x) => x,
            None => {
                assert(3 * vc * fc > total) by (nonlinear_arith)
                    requires
                        vc * fc > u64::MAX,
                        total <= usize::MAX,
                ;
                return Err(too_short(input));
            },
        };
        if need > (total as u64 - 6) / 3 {
            assert(6 + 3 * vc * fc > total) by (nonlinear_arith)
                requires
                    need == vc * fc,
                    need > (total - 6) / 3,
                    total >= 6,
            ;
            return Err(too_short(input));
        }
        assert(6 + 3 * vc * fc <= total) by (nonlinear_arith)
            requires
                need == vc * fc,
                need <= (total - 6) / 3,
                total >= 6,
        ;
        let mut frames: Vec<Vec<(u32, u32, u32)>> = Vec::new();
        let mut k: usize = 0;
        let mut p: usize = 6;
        while k < fc as usize
            invariant
                k <= fc,
                p == 6 + 3 * vc * k,
                6 + 3 * vc * fc <= total,
                total == w.len(),
                w == words_of(input@),
                frames@.len() == k,
                forall|j: int| 0 <= j < k ==> (#[trigger] frames@[j])@ == triples(w.skip(6 + 3 * vc * j), vc as nat),
            decreases fc - k,
        {
            assert(p + 3 * vc <= total) by (nonlinear_arith)
                requires
                    p == 6 + 3 * vc * k,
                    k < fc,
                    6 + 3 * vc * fc <= total,
            ;
            let frame = match word_triples(input, p, vc) {
                Some(v) => v,
                None => return Err(too_short(input)),
            };
            frames.push(frame);
            k = k + 1;
            assert(p + 3 * vc == 6 + 3 * vc * k) by (nonlinear_arith)
                requires
                    p == 6 + 3 * vc * (k - 1),
            ;
            p = p + 3 * vc as usize;
        }
        assert(4 * p <= input@.len()) by (nonlinear_arith)
            requires
                p <= input@.len() / 4,
        ;
        let f = DmTrackDef {
            name_reference: StringReference::new(bits_to_i32(head[0])),
            flags: head[1],
            vertex_count: vc,
            frame_count: fc,
            sleep: head[4],
            param1: head[5],
            frames,
        };
        Ok((rest(input, 4 * p), f))
    }
}

impl Fragment for DmTrackDef {
    open spec fn spec_into_bytes(&self) -> Seq<u8> {
        self.spec_to_bytes()
    }

    open spec fn spec_serializable(&self) -> bool {
        true
    }

    fn into_bytes(&self) -> (r: Vec<u8>) {
        let mut w: Vec<u32> = vec![
            i32_to_bits(self.name_reference.0),
            self.flags,
            self.vertex_count,
            self.frame_count,
            self.sleep,
            self.param1,
        ];
        let ghost start = w@;
        let mut k: usize = 0;
        while k < self.frames.len()
            invariant
                k <= self.frames@.len(),
                w@ == start + frames_words(self.frames@.take(k as int)),
            decreases self.frames@.len() - k,
        {
            push_triples(&mut w, &self.frames[k]);
            k = k + 1;
            proof {
                assert(self.frames@.take(k as int).drop_last() =~= self.frames@.take(k - 1));
                assert(w@ =~= start + frames_words(self.frames@.take(k as int)));
            }
        }
        proof {
            assert(self.frames@.take(k as int) =~= self.frames@);
        }
        let mut out: Vec<u8> = Vec::new();
        push_u32s(&mut out, &w);
        out
    }

    fn name_ref(&self) -> (r: &StringReference)
        ensures
            *r == self.name_reference,
    {
        &self.name_reference
    }

    fn type_id(&self) -> (r: u32)
        ensures
            r == 0x2e,
    {
        Self::TYPE_ID
    }
}

/// Frames written one after another are read back from where they were
/// written, whatever surrounds them.
pub proof fn lemma_frames_read_back(pre: Seq<u32>, v: Seq<Vec<(u32, u32, u32)>>, vc: nat, tail: Seq<u32>)
    requires
        forall|k: int| 0 <= k < v.len() ==> (#[trigger] v[k])@.len() == vc,
    ensures
        frames_words(v).len() == 3 * vc * v.len(),
        forall|k: int| 0 <= k < v.len() ==> triples((pre + frames_words(v) + tail).skip(pre.len() + 3 * vc * k), vc)
            == (#[trigger] v[k])@,
    decreases v.len(),
{
    if v.len() > 0 {
        let p = v.drop_last();
        let x = v.last();
        assert forall|k: int| 0 <= k < p.len() implies (#[trigger] p[k])@.len() == vc by {
            assert(p[k] == v[k]);
        }
        lemma_frames_read_back(pre, p, vc, flat3(x@) + tail);
        lemma_triples_flat3(x@, tail);
        let w = pre + frames_words(v) + tail;
        assert(pre + frames_words(p) + (flat3(x@) + tail) =~= w);
        assert(frames_words(v).len() == 3 * vc * v.len()) by (nonlinear_arith)
            requires
                frames_words(v).len() == frames_words(p).len() + 3 * vc,
                frames_words(p).len() == 3 * vc * p.len(),
                v.len() == p.len() + 1,
        ;
        assert forall|k: int| 0 <= k < v.len() implies triples(w.skip(pre.len() + 3 * vc * k), vc)
            == (#[trigger] v[k])@ by {
            if k < p.len() {
                assert(v[k] == p[k]);
            } else {
                assert(w.skip(pre.len() + 3 * vc * k) =~= flat3(x@) + tail);
            }
        }
    }
}

/// Frames read one after another are written back as the words they were
/// read from.
pub proof fn lemma_frames_words(w: Seq<u32>, v: Seq<Vec<(u32, u32, u32)>>, vc: nat)
    requires
        6 + 3 * vc * v.len() <= w.len(),
        forall|k: int| 0 <= k < v.len() ==> (#[trigger] v[k])@ == triples(w.skip(6 + 3 * vc * k), vc),
    ensures
        frames_words(v) == w.subrange(6, (6 + 3 * vc * v.len()) as int),
        forall|k: int| 0 <= k < v.len() ==> (#[trigger] v[k])@.len() == vc,
    decreases v.len(),
{
    if v.len() > 0 {
        let n = (v.len() - 1) as nat;
        let p = v.drop_last();
        assert(6 + 3 * vc * n <= 6 + 3 * vc * v.len()) by (nonlinear_arith)
            requires
                n < v.len(),
        ;
        assert forall|k: int| 0 <= k < p.len() implies (#[trigger] p[k])@ == triples(w.skip(6 + 3 * vc * k), vc) by {
            assert(p[k] == v[k]);
        }
        lemma_frames_words(w, p, vc);
        let q: int = (6 + 3 * vc * n) as int;
        assert(q + 3 * vc == 6 + 3 * vc * v.len()) by (nonlinear_arith)
            requires
                q == 6 + 3 * vc * n,
                n + 1 == v.len(),
        ;
        lemma_flat3_triples(w.skip(q), vc);
        assert(v[n as int] == v.last());
        assert(w.skip(q).take(3 * vc as int) =~= w.subrange(q, q + 3 * vc));
        assert(frames_words(v) =~= w.subrange(6, (6 + 3 * vc * v.len()) as int));
    } else {
        assert(frames_words(v) =~= w.subrange(6, 6));
    }
}

/// Reading back the words of a well-formed animation gives the same
/// animation, whatever follows them.
pub proof fn lemma_dm_track_def_round_trip(f: DmTrackDef, tail: Seq<u32>)
    requires
        f.wf(),
    ensures
        DmTrackDef::size(f.words() + tail) == Some(f.words().len()),
        DmTrackDef::read_from(f.words() + tail, f),
{
    lemma_i32_bits(f.name_reference.0);
    let h = seq![i32_bits(f.name_reference.0), f.flags, f.vertex_count, f.frame_count, f.sleep, f.param1];
    lemma_frames_read_back(h, f.frames@, f.vertex_count as nat, tail);
    let w = f.words() + tail;
    assert(h + frames_words(f.frames@) + tail =~= w);
}

/// The words of the animation read from `w` are the words it was read from,
/// and it is well formed.
pub proof fn lemma_dm_track_def_words(w: Seq<u32>, f: DmTrackDef)
    requires
        DmTrackDef::size(w) is Some,
        DmTrackDef::read_from(w, f),
    ensures
        f.words() == w.take(DmTrackDef::size(w)->0 as int),
        f.wf(),
{
    lemma_bits_i32(w[0]);
    lemma_frames_words(w, f.frames@, w[2] as nat);
    assert(f.words() =~= w.take(DmTrackDef::size(w)->0 as int));
}

} // verus!
