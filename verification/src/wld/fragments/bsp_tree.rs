//! The BSP tree fragment (0x21): the tree of planes that splits a zone into
//! regions.
use vstd::prelude::*;
use crate::bytes::{i32_bits, bits_to_i32, i32_to_bits, lemma_i32_bits, lemma_bits_i32};
use crate::wld::parse::{WResult, WldDocError, rest, too_short, u32s_bytes, push_u32s};
use crate::wld::words::{words_of, word_list, word_name, word_ref, ref_word, fragment_ref_word, lemma_ref_word,
    lemma_word_ref};
use crate::wld::fragments::{Fragment, FragmentRef, StringReference, too_short_spec};

verus! {

/// A node of the tree: a splitting plane, the region of a leaf, and the
/// nodes on either side. The plane is kept as the bits of its `f32`s.
#[derive(Debug, Clone, Copy, PartialEq, Eq)]
pub struct BspTreeFragmentEntry {
    pub normal: (u32, u32, u32),
    pub split_distance: u32,
    /// The region (0x22) of a leaf.
    pub region: FragmentRef,
    /// The nodes in front of and behind the plane.
    pub nodes: (FragmentRef, FragmentRef),
}

/// The node stored in the seven words of `w` from `q` on.
pub open spec fn bsp_entry_at(w: Seq<u32>, q: int) -> BspTreeFragmentEntry {
    BspTreeFragmentEntry {
        normal: (w[q], w[q + 1], w[q + 2]),
        split_distance: w[q + 3],
        region: word_ref(w[q + 4]),
        nodes: (word_ref(w[q + 5]), word_ref(w[q + 6])),
    }
}

impl BspTreeFragmentEntry {
    /// The stored words: the normal, the distance, the region, the nodes.
    pub open spec fn words(&self) -> Seq<u32> {
        seq![
            self.normal.0,
            self.normal.1,
            self.normal.2,
            self.split_distance,
            ref_word(self.region),
            ref_word(self.nodes.0),
            ref_word(self.nodes.1),
        ]
    }

    /// Its references are as `FragmentRef::new` makes them.
    pub open spec fn wf(&self) -> bool {
        self.region.wf() && self.nodes.0.wf() && self.nodes.1.wf()
    }

    fn push_words(&self, out: &mut Vec<u32>)
        ensures
            final(out)@ == old(out)@ + self.words(),
    {
        out.push(self.normal.0);
        out.push(self.normal.1);
        out.push(self.normal.2);
        out.push(self.split_distance);
        out.push(fragment_ref_word(&self.region));
        out.push(fragment_ref_word(&self.nodes.0));
        out.push(fragment_ref_word(&self.nodes.1));
        proof {
            assert(out@ =~= old(out)@ + self.words());
        }
    }
}

/// The words of nodes stored one after another.
pub open spec fn bsp_entries_words(v: Seq<BspTreeFragmentEntry>) -> Seq<u32>
    decreases v.len(),
{
    if v.len() == 0 {
        Seq::empty()
    } else {
        bsp_entries_words(v.drop_last()) + v.last().words()
    }
}

/// The BSP tree of a zone.
///
/// **Type ID:** 0x21
#[derive(Debug, PartialEq)]
pub struct BspTreeFragment {
    pub name_reference: StringReference,
    /// The number of nodes.
    pub size1: u32,
    /// `size1` nodes.
    pub entries: Vec<BspTreeFragmentEntry>,
}

impl BspTreeFragment {
    pub const TYPE_ID: u32 = 0x21;

    /// How many words the tree held by `w` takes, if `w` holds it all: two,
    /// then seven per node.
    pub open spec fn size(w: Seq<u32>) -> Option<nat> {
        if w.len() < 2 || w.len() < 2 + 7 * w[1] {
            None
        } else {
            Some((2 + 7 * w[1]) as nat)
        }
    }

    /// Whether `f` is the tree held by `w`.
    pub open spec fn read_from(w: Seq<u32>, f: BspTreeFragment) -> bool {
        &&& f.name_reference == word_name(w[0])
        &&& f.size1 == w[1]
        &&& f.entries@ == Seq::new(w[1] as nat, |i: int| bsp_entry_at(w, 2 + 7 * i))
    }

    pub open spec fn words(&self) -> Seq<u32> {
        seq![i32_bits(self.name_reference.0), self.size1] + bsp_entries_words(self.entries@)
    }

    pub open spec fn spec_to_bytes(&self) -> Seq<u8> {
        u32s_bytes(self.words())
    }

    /// The count is the number of nodes, and their references are as
    /// `FragmentRef::new` makes them.
    pub open spec fn wf(&self) -> bool {
        &&& self.entries@.len() == self.size1
        &&& forall|i: int| 0 <= i < self.entries@.len() ==> (#[trigger] self.entries@[i]).wf()
    }

    pub fn parse(input: &[u8]) -> (r: WResult<'_, BspTreeFragment>)
        ensures
            match Self::size(words_of(input@)) {
                Some(n) => r matches Ok((rest, f)) && Self::read_from(words_of(input@), f)
                    && rest@ == input@.skip(4 * n as int),
                None => r == Err::<(&[u8], BspTreeFragment), WldDocError>(too_short_spec(input@)),
            },
    {
        let ghost w = words_of(input@);
        let total = input.len() / 4;
        let head = match word_list(input, 0, 2) {
            Some(v) => v,
            None => return Err(too_short(input)),
        };
        let n = head[1];
        if (total - 2) / 7 < n as usize {
            assert(total < 2 + 7 * n) by (nonlinear_arith)
                requires
                    (total - 2) / 7 < n,
                    total >= 2,
            ;
            return Err(too_short(input));
        }
        assert(2 + 7 * n <= total) by (nonlinear_arith)
            requires
                (total - 2) / 7 >= n,
                total >= 2,
        ;
        let mut entries: Vec<BspTreeFragmentEntry> = Vec::new();
        let mut i: usize = 0;
        let mut p: usize = 2;
        while i < n as usize
            invariant
                i <= n,
                p == 2 + 7 * i,
                2 + 7 * n <= total,
                total == w.len(),
                w == words_of(input@),
                entries@ == Seq::new(i as nat, |k: int| bsp_entry_at(w, 2 + 7 * k)),
            decreases n - i,
        {
            let v = match word_list(input, p, 7) {
                Some(v) => v,
                None => return Err(too_short(input)),
            };
            entries.push(BspTreeFragmentEntry {
                normal: (v[0], v[1], v[2]),
                split_distance: v[3],
                region: FragmentRef::new(bits_to_i32(v[4])),
                nodes: (FragmentRef::new(bits_to_i32(v[5])), FragmentRef::new(bits_to_i32(v[6]))),
            });
            i = i + 1;
            p = p + 7;
            proof {
                assert(entries@ =~= Seq::new(i as nat, |k: int| bsp_entry_at(w, 2 + 7 * k)));
            }
        }
        assert(4 * p <= input@.len()) by (nonlinear_arith)
            requires
                p <= input@.len() / 4,
        ;
        let f = BspTreeFragment { name_reference: StringReference::new(bits_to_i32(head[0])), size1: n, entries };
        Ok((rest(input, 4 * p), f))
    }
}

impl Fragment for BspTreeFragment {
    open spec fn spec_into_bytes(&self) -> Seq<u8> {
        self.spec_to_bytes()
    }

    open spec fn spec_serializable(&self) -> bool {
        true
    }

    fn into_bytes(&self) -> (r: Vec<u8>) {
        let mut w: Vec<u32> = vec![i32_to_bits(self.name_reference.0), self.size1];
        let ghost start = w@;
        let mut k: usize = 0;
        while k < self.entries.len()
            invariant
                k <= self.entries@.len(),
                w@ == start + bsp_entries_words(self.entries@.take(k as int)),
            decreases self.entries@.len() - k,
        {
            self.entries[k].push_words(&mut w);
            k = k + 1;
            proof {
                assert(self.entries@.take(k as int).drop_last() =~= self.entries@.take(k - 1));
                assert(w@ =~= start + bsp_entries_words(self.entries@.take(k as int)));
            }
        }
        proof {
            assert(self.entries@.take(k as int) =~= self.entries@);
        }
        let mut out: Vec<u8> = Vec::new();
        push_u32s(&mut out, &w);
        out
    }

    fn name_ref(&self) -> (r: &StringReference)
        ensures
            *r == self.name_reference,
    {
        &self.name_reference
    }

    fn type_id(&self) -> (r: u32)
        ensures
            r == 0x21,
    {
        Self::TYPE_ID
    }
}

/// Nodes written one after another are read back from where they were
/// written, whatever surrounds them.
pub proof fn lemma_bsp_entries_read_back(pre: Seq<u32>, v: Seq<BspTreeFragmentEntry>, tail: Seq<u32>)
    requires
        forall|i: int| 0 <= i < v.len() ==> (#[trigger] v[i]).wf(),
    ensures
        bsp_entries_words(v).len() == 7 * v.len(),
        forall|i: int| 0 <= i < v.len() ==> bsp_entry_at(pre + bsp_entries_words(v) + tail, pre.len() + 7 * i)
            == #[trigger] v[i],
    decreases v.len(),
{
    if v.len() > 0 {
        let p = v.drop_last();
        let x = v.last();
        assert forall|i: int| 0 <= i < p.len() implies (#[trigger] p[i]).wf() by {
            assert(p[i] == v[i]);
        }
        lemma_bsp_entries_read_back(pre, p, x.words() + tail);
        let w = pre + bsp_entries_words(v) + tail;
        assert(pre + bsp_entries_words(p) + (x.words() + tail) =~= w);
        lemma_ref_word(x.region);
        lemma_ref_word(x.nodes.0);
        lemma_ref_word(x.nodes.1);
        let q: int = pre.len() as int + 7 * p.len() as int;
        assert(bsp_entry_at(w, q) == x);
        assert forall|i: int| 0 <= i < v.len() implies bsp_entry_at(w, pre.len() + 7 * i) == #[trigger] v[i] by {
            if i < p.len() {
                assert(v[i] == p[i]);
            } else {
                assert(i == p.len());
            }
        }
    }
}

/// Nodes read one after another are written back as the words they were
/// read from, and each is well formed.
pub proof fn lemma_bsp_entries_words(w: Seq<u32>, p: int, n: nat)
    requires
        0 <= p,
        p + 7 * n <= w.len(),
    ensures
        bsp_entries_words(Seq::new(n, |i: int| bsp_entry_at(w, p + 7 * i))) == w.subrange(p, p + 7 * n),
        forall|i: int| 0 <= i < n ==> #[trigger] bsp_entry_at(w, p + 7 * i).wf(),
    decreases n,
{
    let v = Seq::new(n, |i: int| bsp_entry_at(w, p + 7 * i));
    if n > 0 {
        let m = (n - 1) as nat;
        lemma_bsp_entries_words(w, p, m);
        assert(v.drop_last() =~= Seq::new(m, |i: int| bsp_entry_at(w, p + 7 * i)));
        let q = p + 7 * m;
        lemma_word_ref(w[q + 4]);
        lemma_word_ref(w[q + 5]);
        lemma_word_ref(w[q + 6]);
        assert(v.last().words() =~= w.subrange(q, q + 7));
        assert(bsp_entries_words(v) =~= w.subrange(p, p + 7 * n));
        assert forall|i: int| 0 <= i < n implies #[trigger] bsp_entry_at(w, p + 7 * i).wf() by {
            if i == m {
                assert(bsp_entry_at(w, p + 7 * i) == v.last());
            }
        }
    } else {
        assert(bsp_entries_words(v) =~= w.subrange(p, p));
    }
}

/// Reading back the words of a well-formed tree gives the same tree,
/// whatever follows them.
pub proof fn lemma_bsp_tree_round_trip(f: BspTreeFragment, tail: Seq<u32>)
    requires
        f.wf(),
    ensures
        BspTreeFragment::size(f.words() + tail) == Some(f.words().len()),
        BspTreeFragment::read_from(f.words() + tail, f),
{
    lemma_i32_bits(f.name_reference.0);
    let h = seq![i32_bits(f.name_reference.0), f.size1];
    lemma_bsp_entries_read_back(h, f.entries@, tail);
    let w = f.words() + tail;
    assert(h + bsp_entries_words(f.entries@) + tail =~= w);
    assert(f.entries@ =~= Seq::new(w[1] as nat, |i: int| bsp_entry_at(w, 2 + 7 * i)));
}

/// The words of the tree read from `w` are the words it was read from, and
/// it is well formed.
pub proof fn lemma_bsp_tree_words(w: Seq<u32>, f: BspTreeFragment)
    requires
        BspTreeFragment::size(w) is Some,
        BspTreeFragment::read_from(w, f),
    ensures
        f.words() == w.take(BspTreeFragment::size(w)->0 as int),
        f.wf(),
{
    lemma_bits_i32(w[0]);
    lemma_bsp_entries_words(w, 2, w[1] as nat);
    assert(f.words() =~= w.take(BspTreeFragment::size(w)->0 as int));
    assert forall|i: int| 0 <= i < f.entries@.len() implies (#[trigger] f.entries@[i]).wf() by {
        assert(f.entries@[i] == bsp_entry_at(w, 2 + 7 * i));
    }
}

} // verus!
