//! Reading fixed-width fields out of a fragment's bytes.
use vstd::prelude::*;
use crate::bytes::{le_u32, u16_at, u32_at, i16_at, i32_at, read_u16, read_u32, read_i16, read_i32, push_u32, lemma_u32_roundtrip, lemma_u32_bytes};

verus! {

/// Why a WLD record could not be parsed.
#[derive(Debug, PartialEq, Eq, Structural)]
pub enum WldDocError {
    /// The input, of `input_len` bytes, ended before the record did.
    Parse { input_len: usize },
}

/// A parsed value with the bytes that follow it, or the reason it could not
/// be parsed.
pub type WResult<'a, T> = Result<(&'a [u8], T), WldDocError>;

/// The error for a record that does not fit in `input`.
pub fn too_short(input: &[u8]) -> (r: WldDocError)
    ensures
        r == (WldDocError::Parse { input_len: input@.len() as usize }),
{
    WldDocError::Parse { input_len: input.len() }
}

/// The bytes of `input` from `pos` on.
pub fn rest(input: &[u8], pos: usize) -> (r: &[u8])
    requires
        pos <= input@.len(),
    ensures
        r@ == input@.skip(pos as int),
{
    let (_, r) = input.split_at(pos);
    r
}

/// The little-endian `u32` at `pos`, if four bytes are there.
pub fn u32_field(input: &[u8], pos: usize) -> (r: Option<u32>)
    ensures
        pos + 4 <= input@.len() ==> r == Some(u32_at(input@, pos as int)),
        pos + 4 > input@.len() ==> r is None,
{
    if pos <= input.len() && input.len() - pos >= 4 {
        Some(read_u32(input, pos))
    } else {
        None
    }
}

/// The little-endian `i32` at `pos`, if four bytes are there.
pub fn i32_field(input: &[u8], pos: usize) -> (r: Option<i32>)
    ensures
        pos + 4 <= input@.len() ==> r == Some(i32_at(input@, pos as int)),
        pos + 4 > input@.len() ==> r is None,
{
    if pos <= input.len() && input.len() - pos >= 4 {
        Some(read_i32(input, pos))
    } else {
        None
    }
}

/// The little-endian `u16` at `pos`, if two bytes are there.
pub fn u16_field(input: &[u8], pos: usize) -> (r: Option<u16>)
    ensures
        pos + 2 <= input@.len() ==> r == Some(u16_at(input@, pos as int)),
        pos + 2 > input@.len() ==> r is None,
{
    if pos <= input.len() && input.len() - pos >= 2 {
        Some(read_u16(input, pos))
    } else {
        None
    }
}

/// The little-endian `i16` at `pos`, if two bytes are there.
pub fn i16_field(input: &[u8], pos: usize) -> (r: Option<i16>)
    ensures
        pos + 2 <= input@.len() ==> r == Some(i16_at(input@, pos as int)),
        pos + 2 > input@.len() ==> r is None,
{
    if pos <= input.len() && input.len() - pos >= 2 {
        Some(read_i16(input, pos))
    } else {
        None
    }
}

/// `count` little-endian `u32`s stored one after another from `pos`.
pub open spec fn u32s_at(s: Seq<u8>, pos: int, count: nat) -> Seq<u32> {
    Seq::new(count, |i: int| u32_at(s, pos + 4 * i))
}

/// Reads `count` little-endian `u32`s from `pos`, if they are all there.
pub fn u32_list(input: &[u8], pos: usize, count: u32) -> (r: Option<Vec<u32>>)
    ensures
        pos + 4 * count <= input@.len() ==> (r matches Some(v) && v@ == u32s_at(input@, pos as int, count as nat)),
        pos + 4 * count > input@.len() ==> r is None,
{
    if pos > input.len() || (input.len() - pos) / 4 < count as usize {
        return None;
    }
    let mut out: Vec<u32> = Vec::new();
    let mut i: usize = 0;
    while i < count as usize
        invariant
            i <= count,
            pos + 4 * count <= input@.len(),
            input@.len() <= usize::MAX,
            out@ == u32s_at(input@, pos as int, i as nat),
        decreases count - i,
    {
        assert(pos + 4 * i + 4 <= input@.len()) by (nonlinear_arith)
            requires
                i < count,
                pos + 4 * count <= input@.len(),
        ;
        out.push(read_u32(input, pos + 4 * i));
        i = i + 1;
        proof {
            assert(out@ =~= u32s_at(input@, pos as int, i as nat));
        }
    }
    Some(out)
}

/// The little-endian bytes of each value, one after another.
pub open spec fn u32s_bytes(v: Seq<u32>) -> Seq<u8>
    decreases v.len(),
{
    if v.len() == 0 {
        Seq::empty()
    } else {
        u32s_bytes(v.drop_last()) + le_u32(v.last())
    }
}

/// Appends `b` to `out`.
pub fn append_bytes(out: &mut Vec<u8>, b: &[u8])
    ensures
        final(out)@ == old(out)@ + b@,
{
    let mut k: usize = 0;
    while k < b.len()
        invariant
            k <= b@.len(),
            out@ == old(out)@ + b@.take(k as int),
        decreases b@.len() - k,
    {
        out.push(b[k]);
        k = k + 1;
        proof {
            assert(out@ =~= old(out)@ + b@.take(k as int));
        }
    }
    proof {
        assert(b@.take(k as int) =~= b@);
    }
}

/// Appends the little-endian bytes of each value of `v`.
pub fn push_u32s(out: &mut Vec<u8>, v: &Vec<u32>)
    ensures
        final(out)@ == old(out)@ + u32s_bytes(v@),
{
    let mut k: usize = 0;
    while k < v.len()
        invariant
            k <= v@.len(),
            out@ == old(out)@ + u32s_bytes(v@.take(k as int)),
        decreases v@.len() - k,
    {
        push_u32(out, v[k]);
        k = k + 1;
        proof {
            assert(v@.take(k as int).drop_last() =~= v@.take(k - 1));
            assert(out@ =~= old(out)@ + u32s_bytes(v@.take(k as int)));
        }
    }
    proof {
        assert(v@.take(k as int) =~= v@);
    }
}

/// The values' bytes take four bytes each.
pub proof fn lemma_u32s_len(v: Seq<u32>)
    ensures
        u32s_bytes(v).len() == 4 * v.len(),
    decreases v.len(),
{
    if v.len() > 0 {
        lemma_u32s_len(v.drop_last());
    }
}

/// The values written one after another are read back, whatever surrounds them.
pub proof fn lemma_u32s_round_trip(pre: Seq<u8>, v: Seq<u32>, tail: Seq<u8>)
    ensures
        u32s_at(pre + u32s_bytes(v) + tail, pre.len() as int, v.len()) == v,
    decreases v.len(),
{
    lemma_u32s_len(v);
    if v.len() > 0 {
        let w = v.drop_last();
        let x = v.last();
        lemma_u32s_round_trip(pre, w, le_u32(x) + tail);
        lemma_u32_roundtrip(x);
        lemma_u32s_len(w);
        let s = pre + u32s_bytes(v) + tail;
        assert(pre + u32s_bytes(w) + (le_u32(x) + tail) =~= s);
        assert(u32_at(s, (pre.len() + 4 * w.len()) as int) == u32_at(le_u32(x), 0));
        assert(u32s_at(s, pre.len() as int, w.len()) == w);
        assert forall|i: int| 0 <= i < v.len() implies #[trigger] u32s_at(s, pre.len() as int, v.len())[i] == v[i] by {
            if i < w.len() {
                assert(u32s_at(s, pre.len() as int, w.len())[i] == w[i]);
            }
        }
        assert(u32s_at(s, pre.len() as int, v.len()) =~= v);
    }
}

/// Writing back the values read from `s` gives back the bytes they were read from.
pub proof fn lemma_u32s_bytes(s: Seq<u8>, pos: int, n: nat)
    requires
        0 <= pos,
        pos + 4 * n <= s.len(),
    ensures
        u32s_bytes(u32s_at(s, pos, n)) == s.subrange(pos, pos + 4 * n),
    decreases n,
{
    if n > 0 {
        lemma_u32s_bytes(s, pos, (n - 1) as nat);
        lemma_u32_bytes(s, pos + 4 * (n - 1));
        assert(u32s_at(s, pos, n).drop_last() =~= u32s_at(s, pos, (n - 1) as nat));
        assert(u32s_bytes(u32s_at(s, pos, n)) =~= s.subrange(pos, pos + 4 * n));
    } else {
        assert(u32s_bytes(u32s_at(s, pos, n)) =~= s.subrange(pos, pos + 4 * n));
    }
}


/// Each value of `v` is read back from its place in `v`'s bytes, whatever
/// follows them.
pub proof fn lemma_u32s_at(v: Seq<u32>, tail: Seq<u8>)
    ensures
        (u32s_bytes(v) + tail).len() == 4 * v.len() + tail.len(),
        forall|k: int| #![trigger v[k]] 0 <= k < v.len() ==> u32_at(u32s_bytes(v) + tail, 4 * k) == v[k],
{
    lemma_u32s_len(v);
    lemma_u32s_round_trip(Seq::empty(), v, tail);
    assert(Seq::<u8>::empty() + u32s_bytes(v) + tail =~= u32s_bytes(v) + tail);
    assert forall|k: int| #![trigger v[k]] 0 <= k < v.len() implies u32_at(u32s_bytes(v) + tail, 4 * k) == v[k] by {
        assert(u32s_at(u32s_bytes(v) + tail, 0, v.len())[k] == v[k]);
    }
}

} // verus!
