//! Fragments made of 32-bit words: most fragments store nothing but
//! little-endian `u32`, `i32` and `f32` values, so their format is stated over
//! the sequence of words that their bytes hold.
use vstd::prelude::*;
use crate::bytes::{le_u32, u32_at, i32_bits, i32_of_bits, read_u32, i32_to_bits};
use crate::wld::parse::{u32s_bytes, u32s_at, lemma_u32s_len, lemma_u32s_at, lemma_u32s_bytes};
use crate::wld::fragments::{FragmentRef, StringReference};

verus! {

/// The little-endian 32-bit words that `s` holds, in order; a last part
/// shorter than a word is left out.
pub open spec fn words_of(s: Seq<u8>) -> Seq<u32> {
    Seq::new(s.len() / 4, |k: int| u32_at(s, 4 * k))
}

/// The word that stores a fragment reference: its value as an `i32`.
pub open spec fn ref_word(f: FragmentRef) -> u32 {
    match f {
        FragmentRef::Name(s) => i32_bits(s.0),
        FragmentRef::Index(i) => i,
    }
}

/// The reference that a stored word stands for.
pub open spec fn word_ref(w: u32) -> FragmentRef {
    FragmentRef::spec_new(i32_of_bits(w))
}

/// The name reference that a stored word stands for.
pub open spec fn word_name(w: u32) -> StringReference {
    StringReference(i32_of_bits(w))
}

/// Consecutive words taken three at a time.
pub open spec fn triples(w: Seq<u32>, n: nat) -> Seq<(u32, u32, u32)> {
    Seq::new(n, |i: int| (w[3 * i], w[3 * i + 1], w[3 * i + 2]))
}

/// The words of a list of triples, one triple after another.
pub open spec fn flat3(v: Seq<(u32, u32, u32)>) -> Seq<u32>
    decreases v.len(),
{
    if v.len() == 0 {
        Seq::empty()
    } else {
        flat3(v.drop_last()) + seq![v.last().0, v.last().1, v.last().2]
    }
}

/// The `k`th word of `input`, if it holds one.
pub fn word(input: &[u8], k: usize) -> (r: Option<u32>)
    ensures
        k < words_of(input@).len() ==> r == Some(words_of(input@)[k as int]),
        k >= words_of(input@).len() ==> r is None,
{
    if k < input.len() / 4 {
        assert(4 * k + 4 <= input@.len()) by (nonlinear_arith)
            requires
                k < input@.len() / 4,
        ;
        Some(read_u32(input, 4 * k))
    } else {
        None
    }
}

/// The `n` words of `input` from the `k`th on, if it holds them.
pub fn word_list(input: &[u8], k: usize, n: u32) -> (r: Option<Vec<u32>>)
    ensures
        k + n <= words_of(input@).len() ==> (r matches Some(v) && v@ == words_of(input@).subrange(k as int, k + n)),
        k + n > words_of(input@).len() ==> r is None,
{
    let total = input.len() / 4;
    if k > total || total - k < n as usize {
        return None;
    }
    let mut out: Vec<u32> = Vec::new();
    let mut i: usize = 0;
    while i < n as usize
        invariant
            i <= n,
            k + n <= total,
            total == words_of(input@).len(),
            out@ == words_of(input@).subrange(k as int, k + i),
        decreases n - i,
    {
        let x = match word(input, k + i) {
            Some(x) => x,
            None => return None,
        };
        out.push(x);
        i = i + 1;
        proof {
            assert(out@ =~= words_of(input@).subrange(k as int, k + i));
        }
    }
    Some(out)
}

/// The `n` triples of words of `input` from the `k`th word on, if it holds
/// them.
pub fn word_triples(input: &[u8], k: usize, n: u32) -> (r: Option<Vec<(u32, u32, u32)>>)
    ensures
        k + 3 * n <= words_of(input@).len() ==> (r matches Some(v) && v@ == triples(words_of(input@).skip(k as int), n as nat)),
        k + 3 * n > words_of(input@).len() ==> r is None,
{
    let total = input.len() / 4;
    if k > total || (total - k) / 3 < n as usize {
        assert(k + 3 * n > total) by (nonlinear_arith)
            requires
                k > total || (total - k) / 3 < n,
        ;
        return None;
    }
    assert(k + 3 * n <= total) by (nonlinear_arith)
        requires
            k <= total,
            (total - k) / 3 >= n,
    ;
    let ghost w = words_of(input@).skip(k as int);
    let mut out: Vec<(u32, u32, u32)> = Vec::new();
    let mut i: usize = 0;
    while i < n as usize
        invariant
            i <= n,
            k + 3 * n <= total,
            total == words_of(input@).len(),
            w == words_of(input@).skip(k as int),
            out@ == triples(w, i as nat),
        decreases n - i,
    {
        let a = match word(input, k + 3 * i) {
            Some(x) => x,
            None => return None,
        };
        let b = match word(input, k + 3 * i + 1) {
            Some(x) => x,
            None => return None,
        };
        let c = match word(input, k + 3 * i + 2) {
            Some(x) => x,
            None => return None,
        };
        out.push((a, b, c));
        i = i + 1;
        proof {
            assert(out@ =~= triples(w, i as nat));
        }
    }
    Some(out)
}

/// The word that stores `f`.
pub fn fragment_ref_word(f: &FragmentRef) -> (r: u32)
    ensures
        r == ref_word(*f),
{
    match f {
        FragmentRef::Name(s) => i32_to_bits(s.0),
        FragmentRef::Index(i) => *i,
    }
}

/// Appends the words of each triple of `v`.
pub fn push_triples(out: &mut Vec<u32>, v: &Vec<(u32, u32, u32)>)
    ensures
        final(out)@ == old(out)@ + flat3(v@),
{
    let mut k: usize = 0;
    while k < v.len()
        invariant
            k <= v@.len(),
            out@ == old(out)@ + flat3(v@.take(k as int)),
        decreases v@.len() - k,
    {
        let t = v[k];
        out.push(t.0);
        out.push(t.1);
        out.push(t.2);
        k = k + 1;
        proof {
            assert(v@.take(k as int).drop_last() =~= v@.take(k - 1));
            assert(out@ =~= old(out)@ + flat3(v@.take(k as int)));
        }
    }
    proof {
        assert(v@.take(k as int) =~= v@);
    }
}

/// Appends the words of `v`.
pub fn push_words(out: &mut Vec<u32>, v: &Vec<u32>)
    ensures
        final(out)@ == old(out)@ + v@,
{
    let mut k: usize = 0;
    while k < v.len()
        invariant
            k <= v@.len(),
            out@ == old(out)@ + v@.take(k as int),
        decreases v@.len() - k,
    {
        out.push(v[k]);
        k = k + 1;
        proof {
            assert(out@ =~= old(out)@ + v@.take(k as int));
        }
    }
    proof {
        assert(v@.take(k as int) =~= v@);
    }
}

/// The words of bytes that start with the bytes of words `w` start with `w`.
pub proof fn lemma_words_of_bytes(w: Seq<u32>, tail: Seq<u8>)
    ensures
        words_of(u32s_bytes(w) + tail) == w + words_of(tail),
{
    let s = u32s_bytes(w) + tail;
    lemma_u32s_at(w, tail);
    lemma_u32s_len(w);
    assert((4 * w.len() + tail.len()) / 4 == w.len() + tail.len() / 4) by (nonlinear_arith);
    assert forall|k: int| 0 <= k < words_of(s).len() implies #[trigger] words_of(s)[k] == (w + words_of(tail))[k] by {
        if k < w.len() {
            assert(u32_at(s, 4 * k) == w[k]);
        } else {
            let j = k - w.len();
            assert(0 <= j < tail.len() / 4);
            assert(4 * j + 4 <= tail.len()) by (nonlinear_arith)
                requires
                    0 <= j < tail.len() / 4,
            ;
            assert(u32_at(s, 4 * k) == u32_at(tail, 4 * j)) by {
                assert(s[4 * k] == tail[4 * j]);
                assert(s[4 * k + 1] == tail[4 * j + 1]);
                assert(s[4 * k + 2] == tail[4 * j + 2]);
                assert(s[4 * k + 3] == tail[4 * j + 3]);
            }
        }
    }
    assert(words_of(s) =~= w + words_of(tail));
}

/// Writing back the first `n` words of `s` gives back the bytes they were
/// read from.
pub proof fn lemma_words_bytes(s: Seq<u8>, n: nat)
    requires
        n <= words_of(s).len(),
    ensures
        u32s_bytes(words_of(s).take(n as int)) == s.take(4 * n as int),
        4 * n <= s.len(),
{
    assert(4 * n <= s.len()) by (nonlinear_arith)
        requires
            n <= s.len() / 4,
    ;
    lemma_u32s_bytes(s, 0, n);
    assert(words_of(s).take(n as int) =~= u32s_at(s, 0, n));
    assert(s.subrange(0, 4 * n as int) =~= s.take(4 * n as int));
}

/// The triples of the words of a list of triples are that list.
pub proof fn lemma_triples_flat3(v: Seq<(u32, u32, u32)>, tail: Seq<u32>)
    ensures
        triples(flat3(v) + tail, v.len()) == v,
        flat3(v).len() == 3 * v.len(),
    decreases v.len(),
{
    if v.len() > 0 {
        let p = v.drop_last();
        let x = v.last();
        lemma_triples_flat3(p, seq![x.0, x.1, x.2] + tail);
        assert(flat3(v) + tail =~= flat3(p) + (seq![x.0, x.1, x.2] + tail));
        let w = flat3(v) + tail;
        assert forall|i: int| 0 <= i < v.len() implies #[trigger] triples(w, v.len())[i] == v[i] by {
            if i < p.len() {
                assert(triples(w, p.len())[i] == p[i]);
            }
        }
        assert(triples(w, v.len()) =~= v);
    } else {
        assert(triples(flat3(v) + tail, v.len()) =~= v);
    }
}

/// Flattening the triples read from words gives back those words.
pub proof fn lemma_flat3_triples(w: Seq<u32>, n: nat)
    requires
        3 * n <= w.len(),
    ensures
        flat3(triples(w, n)) == w.take(3 * n as int),
    decreases n,
{
    if n > 0 {
        lemma_flat3_triples(w, (n - 1) as nat);
        assert(triples(w, n).drop_last() =~= triples(w, (n - 1) as nat));
        assert(flat3(triples(w, n)) =~= w.take(3 * n as int));
    } else {
        assert(flat3(triples(w, n)) =~= w.take(3 * n as int));
    }
}

/// A well-formed reference is what its word stands for.
pub proof fn lemma_ref_word(f: FragmentRef)
    requires
        f.wf(),
    ensures
        word_ref(ref_word(f)) == f,
        f.spec_to_bytes() == le_u32(ref_word(f)),
{
}

/// The word of the reference a word stands for is that word.
pub proof fn lemma_word_ref(w: u32)
    ensures
        ref_word(word_ref(w)) == w,
        word_ref(w).wf(),
{
    crate::bytes::lemma_bits_i32(w);
}

/// Consecutive words taken two at a time.
pub open spec fn pairs(w: Seq<u32>, n: nat) -> Seq<(u32, u32)> {
    Seq::new(n, |i: int| (w[2 * i], w[2 * i + 1]))
}

/// The words of a list of pairs, one pair after another.
pub open spec fn flat2(v: Seq<(u32, u32)>) -> Seq<u32>
    decreases v.len(),
{
    if v.len() == 0 {
        Seq::empty()
    } else {
        flat2(v.drop_last()) + seq![v.last().0, v.last().1]
    }
}

/// The `n` pairs of words of `input` from the `k`th word on, if it holds
/// them.
pub fn word_pairs(input: &[u8], k: usize, n: u32) -> (r: Option<Vec<(u32, u32)>>)
    ensures
        k + 2 * n <= words_of(input@).len() ==> (r matches Some(v) && v@ == pairs(words_of(input@).skip(k as int), n as nat)),
        k + 2 * n > words_of(input@).len() ==> r is None,
{
    let total = input.len() / 4;
    if k > total || (total - k) / 2 < n as usize {
        assert(k + 2 * n > total) by (nonlinear_arith)
            requires
                k > total || (total - k) / 2 < n,
        ;
        return None;
    }
    assert(k + 2 * n <= total) by (nonlinear_arith)
        requires
            k <= total,
            (total - k) / 2 >= n,
    ;
    let ghost w = words_of(input@).skip(k as int);
    let mut out: Vec<(u32, u32)> = Vec::new();
    let mut i: usize = 0;
    while i < n as usize
        invariant
            i <= n,
            k + 2 * n <= total,
            total == words_of(input@).len(),
            w == words_of(input@).skip(k as int),
            out@ == pairs(w, i as nat),
        decreases n - i,
    {
        let a = match word(input, k + 2 * i) {
            Some(x) => x,
            None => return None,
        };
        let b = match word(input, k + 2 * i + 1) {
            Some(x) => x,
            None => return None,
        };
        out.push((a, b));
        i = i + 1;
        proof {
            assert(out@ =~= pairs(w, i as nat));
        }
    }
    Some(out)
}

/// Appends the words of each pair of `v`.
pub fn push_pairs(out: &mut Vec<u32>, v: &Vec<(u32, u32)>)
    ensures
        final(out)@ == old(out)@ + flat2(v@),
{
    let mut k: usize = 0;
    while k < v.len()
        invariant
            k <= v@.len(),
            out@ == old(out)@ + flat2(v@.take(k as int)),
        decreases v@.len() - k,
    {
        let t = v[k];
        out.push(t.0);
        out.push(t.1);
        k = k + 1;
        proof {
            assert(v@.take(k as int).drop_last() =~= v@.take(k - 1));
            assert(out@ =~= old(out)@ + flat2(v@.take(k as int)));
        }
    }
    proof {
        assert(v@.take(k as int) =~= v@);
    }
}

/// The pairs of the words of a list of pairs are that list.
pub proof fn lemma_pairs_flat2(v: Seq<(u32, u32)>, tail: Seq<u32>)
    ensures
        pairs(flat2(v) + tail, v.len()) == v,
        flat2(v).len() == 2 * v.len(),
    decreases v.len(),
{
    if v.len() > 0 {
        let p = v.drop_last();
        let x = v.last();
        lemma_pairs_flat2(p, seq![x.0, x.1] + tail);
        assert(flat2(v) + tail =~= flat2(p) + (seq![x.0, x.1] + tail));
        let w = flat2(v) + tail;
        assert forall|i: int| 0 <= i < v.len() implies #[trigger] pairs(w, v.len())[i] == v[i] by {
            if i < p.len() {
                assert(pairs(w, p.len())[i] == p[i]);
            }
        }
        assert(pairs(w, v.len()) =~= v);
    } else {
        assert(pairs(flat2(v) + tail, v.len()) =~= v);
    }
}

/// Flattening the pairs read from words gives back those words.
pub proof fn lemma_flat2_pairs(w: Seq<u32>, n: nat)
    requires
        2 * n <= w.len(),
    ensures
        flat2(pairs(w, n)) == w.take(2 * n as int),
    decreases n,
{
    if n > 0 {
        lemma_flat2_pairs(w, (n - 1) as nat);
        assert(pairs(w, n).drop_last() =~= pairs(w, (n - 1) as nat));
        assert(flat2(pairs(w, n)) =~= w.take(2 * n as int));
    } else {
        assert(flat2(pairs(w, n)) =~= w.take(2 * n as int));
    }
}

/// The words of an optional one-word part: the word, or none.
pub open spec fn opt_word(o: Option<u32>) -> Seq<u32> {
    match o {
        Some(x) => seq![x],
        None => Seq::empty(),
    }
}

/// Reads the one-word part at word `q` if it is `present`, and where the
/// part ends.
pub fn read_opt(input: &[u8], q: usize, present: bool) -> (r: Option<(Option<u32>, usize)>)
    requires
        q <= words_of(input@).len(),
    ensures
        !present ==> r == Some((None::<u32>, q)),
        present && q < words_of(input@).len() ==> r == Some((Some(words_of(input@)[q as int]), (q + 1) as usize)),
        present && q >= words_of(input@).len() ==> r is None,
        r matches Some((o, e)) ==> opt_word(o) == words_of(input@).subrange(q as int, e as int) && q <= e
            <= words_of(input@).len() && (o is Some <==> present) && e == q + (if present { 1int } else { 0int }),
{
    let total = input.len() / 4;
    if !present {
        proof {
            assert(opt_word(None::<u32>) =~= words_of(input@).subrange(q as int, q as int));
        }
        return Some((None, q));
    }
    match word(input, q) {
        Some(x) => {
            proof {
                assert(opt_word(Some(x)) =~= words_of(input@).subrange(q as int, q + 1));
            }
            Some((Some(x), q + 1))
        },
        None => None,
    }
}

} // verus!
