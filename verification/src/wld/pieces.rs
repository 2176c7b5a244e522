//! Facts about bytes written one piece after another: where each piece
//! stands, and how values written as pieces are read back.
use vstd::prelude::*;
use crate::bytes::{le_u32, le_i32, i32_at, i32_bits, lemma_u32_field, lemma_i32_bits};
use crate::wld::fragments::{FragmentRef, lemma_fragment_ref_value};
use crate::wld::records::{FixedRecord, records_at, records_bytes, lemma_records_read_back};

verus! {

/// Moves a piece from the front of what follows to the end of what comes
/// before.
pub proof fn lemma_shift(a: Seq<u8>, b: Seq<u8>, c: Seq<u8>)
    ensures
        a + (b + c) == a + b + c,
{
    assert(a + (b + c) =~= a + b + c);
}

/// Moves the boundary between what comes before a piece and what follows
/// it one piece on.
pub proof fn lemma_regroup(p: Seq<u8>, x: Seq<u8>, y: Seq<u8>, q: Seq<u8>)
    ensures
        p + x + (y + q) == p + x + y + q,
{
    assert(p + x + (y + q) =~= p + x + y + q);
}

/// Two neighbouring stretches of `s` make one.
pub proof fn lemma_join(s: Seq<u8>, i: int, j: int, k: int)
    requires
        0 <= i <= j <= k <= s.len(),
    ensures
        s.subrange(i, j) + s.subrange(j, k) == s.subrange(i, k),
{
    assert(s.subrange(i, j) + s.subrange(j, k) =~= s.subrange(i, k));
}

/// A signed value stored at `p` is read back.
pub proof fn lemma_i32_field(s: Seq<u8>, p: int, x: i32)
    requires
        0 <= p,
        p + 4 <= s.len(),
        s.subrange(p, p + 4) == le_i32(x),
    ensures
        i32_at(s, p) == x,
{
    lemma_u32_field(s, p, i32_bits(x));
    lemma_i32_bits(x);
}

/// A well-formed fragment reference stored at `p` is read back.
pub proof fn lemma_ref_field(s: Seq<u8>, p: int, r: FragmentRef)
    requires
        r.wf(),
        0 <= p,
        p + 4 <= s.len(),
        s.subrange(p, p + 4) == r.spec_to_bytes(),
    ensures
        FragmentRef::spec_new(i32_at(s, p)) == r,
{
    let v = match r {
        FragmentRef::Name(n) => i32_bits(n.0),
        FragmentRef::Index(i) => i,
    };
    assert(r.spec_to_bytes() == le_u32(v));
    lemma_u32_field(s, p, v);
    lemma_fragment_ref_value(r);
}

/// Fixed-size records between `p` and `q` are read back.
pub proof fn lemma_records_section<T: FixedRecord>(s: Seq<u8>, p: Seq<u8>, v: Seq<T>, q: Seq<u8>)
    requires
        s == p + records_bytes(v) + q,
        forall|i: int| 0 <= i < v.len() ==> (#[trigger] v[i]).spec_wf(),
    ensures
        records_at::<T>(s, p.len() as int, v.len()) == v,
        records_bytes(v).len() == T::spec_size() * v.len(),
{
    lemma_records_read_back::<T>(p, v, q);
}

} // verus!
