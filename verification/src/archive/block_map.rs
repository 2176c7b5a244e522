//! The blocks of an archive keyed by their offsets, and the order in which
//! they are stored.
use vstd::prelude::*;
use std::collections::BTreeMap;
use crate::pfs::block::Block;
use crate::archive::parser::archive_blocks_bytes;
use crate::wld::parse::append_bytes;

verus! {

/// Each offset of `ks` is below those after it.
pub open spec fn ascending(ks: Seq<usize>) -> bool {
    forall|i: int, j: int| 0 <= i < j < ks.len() ==> ks[i] < ks[j]
}

/// The offsets of `m`, ascending.
pub open spec fn block_offsets(m: Map<usize, Block>) -> Seq<usize> {
    choose|ks: Seq<usize>| ascending(ks) && ks.to_set() == m.dom()
}

/// The blocks of `m` with their offsets, in ascending order of offset.
pub open spec fn ordered_blocks(m: Map<usize, Block>) -> Seq<(usize, Block)> {
    block_offsets(m).map_values(|k: usize| (k, m[k]))
}

/// Two ascending sequences of the same offsets are the same sequence.
pub proof fn lemma_ascending_unique(a: Seq<usize>, b: Seq<usize>)
    requires
        ascending(a),
        ascending(b),
        a.to_set() == b.to_set(),
    ensures
        a == b,
    decreases a.len(),
{
    if a.len() == 0 {
        if b.len() > 0 {
            assert(b.to_set().contains(b[0]));
        }
        assert(a =~= b);
    } else {
        assert(a.to_set().contains(a[0]));
        assert(b.to_set().contains(a[0]));
        assert(b.len() > 0);
        assert(b.to_set().contains(b[0]));
        assert(a.to_set().contains(b[0]));
        let j = choose|j: int| 0 <= j < b.len() && b[j] == a[0];
        let i = choose|i: int| 0 <= i < a.len() && a[i] == b[0];
        assert(a[0] == b[0]) by {
            if j > 0 {
                assert(b[0] < b[j]);
            }
            if i > 0 {
                assert(a[0] < a[i]);
            }
        }
        let a1 = a.drop_first();
        let b1 = b.drop_first();
        assert(a1.to_set() =~= b1.to_set()) by {
            assert forall|x: usize| a1.to_set().contains(x) implies b1.to_set().contains(x) by {
                let k = choose|k: int| 0 <= k < a1.len() && a1[k] == x;
                assert(a[k + 1] == x);
                assert(b.to_set().contains(x));
                let m = choose|m: int| 0 <= m < b.len() && b[m] == x;
                assert(a[0] < a[k + 1]);
                assert(m != 0);
                assert(b1[m - 1] == x);
            }
            assert forall|x: usize| b1.to_set().contains(x) implies a1.to_set().contains(x) by {
                let k = choose|k: int| 0 <= k < b1.len() && b1[k] == x;
                assert(b[k + 1] == x);
                assert(a.to_set().contains(x));
                let m = choose|m: int| 0 <= m < a.len() && a[m] == x;
                assert(b[0] < b[k + 1]);
                assert(m != 0);
                assert(a1[m - 1] == x);
            }
        }
        lemma_ascending_unique(a1, b1);
        assert(a1.len() == b1.len());
        assert(a.len() == b.len());
        assert(a =~= b) by {
            assert forall|k: int| 0 <= k < a.len() implies a[k] == b[k] by {
                if k > 0 {
                    assert(a[k] == a1[k - 1]);
                    assert(b[k] == b1[k - 1]);
                }
            }
        }
    }
}

/// An ascending sequence of the map's offsets is its `block_offsets`.
pub proof fn lemma_block_offsets(m: Map<usize, Block>, ks: Seq<usize>)
    requires
        ascending(ks),
        ks.to_set() == m.dom(),
    ensures
        block_offsets(m) == ks,
{
    let c = block_offsets(m);
    assert(ascending(c) && c.to_set() == m.dom());
    lemma_ascending_unique(c, ks);
}

/// `usize` keys are ordered as a `BTreeMap` needs them to be.
proof fn lemma_usize_keys_ordered()
    ensures
        vstd::std_specs::btree::key_obeys_cmp_spec::<usize>(),
{
    broadcast use vstd::std_specs::btree::group_btree_axioms, vstd::laws_cmp::group_laws_cmp;
}

/// Offsets that a `BTreeMap` yields in increasing order are ascending.
proof fn lemma_increasing_ascending(ks: Seq<usize>)
    requires
        vstd::std_specs::btree::increasing_seq(ks),
    ensures
        ascending(ks),
{
    broadcast use vstd::std_specs::btree::group_btree_axioms, vstd::laws_cmp::group_laws_cmp;
    assert forall|i: int, j: int| 0 <= i < j < ks.len() implies ks[i] < ks[j] by {
        assert(vstd::std_specs::cmp::OrdSpec::cmp_spec(&ks[i], &ks[j]) is Less);
    }
}

/// The blocks of `m` serialized one after another in ascending order of
/// offset.
pub fn ordered_blocks_bytes(m: &BTreeMap<usize, Block>) -> (r: Vec<u8>)
    ensures
        r@ == archive_blocks_bytes(ordered_blocks(m@)),
{
    proof {
        lemma_usize_keys_ordered();
    }
    let vals = m.values();
    let ghost ks = choose|ks: Seq<usize>| {
        &&& vstd::std_specs::btree::increasing_seq(ks)
        &&& ks.to_set() == m@.dom()
        &&& ks.no_duplicates()
        &&& vstd::std_specs::iter::IteratorSpec::remaining(&vals) == ks.map(|i: int, k: usize| &m@[k])
    };
    proof {
        lemma_increasing_ascending(ks);
        lemma_block_offsets(m@, ks);
    }
    let ghost ob = ordered_blocks(m@);
    let mut out: Vec<u8> = Vec::new();
    for b in it: vals
        invariant
            ob == ordered_blocks(m@),
            ob == ks.map_values(|k: usize| (k, m@[k])),
            it.seq() == ks.map(|i: int, k: usize| &m@[k]),
            out@ == archive_blocks_bytes(ob.take(it.index())),
    {
        let bytes = b.to_bytes();
        let ghost prev = out@;
        append_bytes(&mut out, bytes.as_slice());
        proof {
            let k = it.index();
            assert(ob.take(k + 1).drop_last() =~= ob.take(k));
            assert(ob.take(k + 1).last() == ob[k]);
        }
    }
    proof {
        assert(ob.take(ob.len() as int) =~= ob);
    }
    out
}

/// Whether `usize` keys compare as integers do.
pub open spec fn usize_ordered() -> bool {
    vstd::laws_cmp::obeys_cmp::<usize>()
}

/// `usize` keys compare as integers do.
proof fn lemma_usize_ordered()
    ensures
        usize_ordered(),
{
    broadcast use vstd::laws_cmp::group_laws_cmp;
}

/// The offsets of `bs`, in order.
pub open spec fn offsets_of(bs: Seq<(usize, Block)>) -> Seq<usize> {
    bs.map_values(|p: (usize, Block)| p.0)
}

/// The blocks `bs`, whose offsets ascend, keyed by their offsets.
pub fn blocks_by_offset(bs: Vec<(usize, Block)>) -> (m: BTreeMap<usize, Block>)
    requires
        ascending(offsets_of(bs@)),
    ensures
        ordered_blocks(m@) == bs@,
{
    proof {
        lemma_usize_ordered();
    }
    let ghost all = bs@;
    let mut bs = bs;
    let mut m: BTreeMap<usize, Block> = BTreeMap::new();
    proof {
        assert(offsets_of(all).skip(all.len() as int).to_set() =~= m@.dom());
    }
    while bs.len() > 0
        invariant
            usize_ordered(),
            ascending(offsets_of(all)),
            bs@ == all.take(bs@.len() as int),
            bs@.len() <= all.len(),
            m@.dom() == offsets_of(all).skip(bs@.len() as int).to_set(),
            forall|i: int| bs@.len() <= i < all.len() ==> #[trigger] m@[all[i].0] == all[i].1,
        decreases bs@.len(),
    {
        let n = bs.len();
        let (k, b) = bs.pop().unwrap();
        let ghost i = (n - 1) as int;
        proof {
            assert(all[i] == (k, b));
        }
        m.insert(k, b);
        proof {
            let ks = offsets_of(all);
            assert(ks[i] == k);
            assert(ks.skip(i).to_set() =~= ks.skip(n as int).to_set().insert(k)) by {
                assert forall|x: usize| ks.skip(i).to_set().contains(x) implies ks.skip(n as int).to_set().insert(k).contains(x) by {
                    let t = choose|t: int| 0 <= t < ks.skip(i).len() && ks.skip(i)[t] == x;
                    if t > 0 {
                        assert(ks.skip(n as int)[t - 1] == x);
                    }
                }
                assert forall|x: usize| ks.skip(n as int).to_set().insert(k).contains(x) implies ks.skip(i).to_set().contains(x) by {
                    if x == k {
                        assert(ks.skip(i)[0] == x);
                    } else {
                        let t = choose|t: int| 0 <= t < ks.skip(n as int).len() && ks.skip(n as int)[t] == x;
                        assert(ks.skip(i)[t + 1] == x);
                    }
                }
            }
            assert(bs@ =~= all.take(i));
            assert forall|t: int| i <= t < all.len() implies #[trigger] m@[all[t].0] == all[t].1 by {
                if t > i {
                    assert(ks[i] < ks[t]);
                }
            }
        }
    }
    proof {
        let ks = offsets_of(all);
        assert(ks.skip(0) =~= ks);
        lemma_block_offsets(m@, ks);
        assert(ordered_blocks(m@) =~= all);
    }
    m
}

} // verus!
