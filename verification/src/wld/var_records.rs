//! Lists of records whose sizes vary: each record says, in its own bytes,
//! how long it is.
use vstd::prelude::*;

verus! {

/// A record whose size its own bytes give. `ctx` stands for what the
/// enclosing record says of the records' layout (its flags).
pub trait VarRecord: Sized {
    /// How many bytes the record stored at the start of `s` takes, if `s`
    /// holds it all.
    spec fn spec_size(s: Seq<u8>, ctx: u32) -> Option<nat>;

    /// Whether `x` is the record stored at the start of `s`.
    spec fn spec_read(s: Seq<u8>, ctx: u32, x: Self) -> bool;

    /// Whether the record stored at the start of `s` has a layout that can be
    /// read at all.
    spec fn spec_readable(s: Seq<u8>, ctx: u32) -> bool;

    /// The stored form of the record.
    spec fn spec_bytes(&self) -> Seq<u8>;

    /// Whether the record's counts and optional parts agree with its flags.
    spec fn spec_wf(&self, ctx: u32) -> bool;

    /// Reads the record stored at the start of `input`, and how many bytes
    /// it takes.
    fn parse_var(input: &[u8], ctx: u32) -> (r: Option<(Self, usize)>)
        requires
            Self::spec_readable(input@, ctx),
        ensures
            match Self::spec_size(input@, ctx) {
                Some(n) => r matches Some((x, e)) && e == n && e <= input@.len() && Self::spec_read(input@, ctx, x),
                None => r is None,
            },
    ;

    /// Appends the stored form of the record.
    fn write_var(&self, out: &mut Vec<u8>)
        ensures
            final(out)@ == old(out)@ + self.spec_bytes(),
    ;

    /// A record is read back from its stored form, whatever follows it.
    proof fn lemma_var_round_trip(x: Self, ctx: u32, tail: Seq<u8>)
        requires
            x.spec_wf(ctx),
        ensures
            Self::spec_size(x.spec_bytes() + tail, ctx) == Some(x.spec_bytes().len()),
            Self::spec_read(x.spec_bytes() + tail, ctx, x),
            Self::spec_readable(x.spec_bytes() + tail, ctx),
    ;

    /// The stored form of a record read from `s` is the bytes it was read
    /// from.
    proof fn lemma_var_bytes(s: Seq<u8>, ctx: u32, x: Self)
        requires
            Self::spec_size(s, ctx) is Some,
            Self::spec_read(s, ctx, x),
            Self::spec_readable(s, ctx),
        ensures
            Self::spec_size(s, ctx)->0 <= s.len(),
            x.spec_bytes() == s.take(Self::spec_size(s, ctx)->0 as int),
            x.spec_wf(ctx),
    ;
}

/// Where each of `c` records stored one after another from `p` in `s`
/// begins, and (last) where the last one ends.
pub open spec fn var_offsets<T: VarRecord>(s: Seq<u8>, p: int, c: nat, ctx: u32) -> Seq<int>
    decreases c,
{
    if c == 0 {
        seq![p]
    } else {
        let o = var_offsets::<T>(s, p, (c - 1) as nat, ctx);
        o.push(o.last() + T::spec_size(s.skip(o.last()), ctx)->0)
    }
}

/// Whether `s` holds all of the `c` records stored from `p`.
pub open spec fn vars_fit<T: VarRecord>(s: Seq<u8>, p: int, c: nat, ctx: u32) -> bool {
    forall|i: int| 0 <= i < c ==> #[trigger] T::spec_size(s.skip(var_offsets::<T>(s, p, c, ctx)[i]), ctx) is Some
}

/// Whether each of the `c` records stored from `p` that is reached (the
/// records before it are all there) can be read.
pub open spec fn vars_readable<T: VarRecord>(s: Seq<u8>, p: int, c: nat, ctx: u32) -> bool {
    forall|i: int|
        0 <= i < c && vars_fit::<T>(s, p, i as nat, ctx) ==> #[trigger] T::spec_readable(
            s.skip(var_offsets::<T>(s, p, c, ctx)[i]),
            ctx,
        )
}

/// Whether `v` are the records stored one after another from `p` in `s`.
pub open spec fn vars_read<T: VarRecord>(s: Seq<u8>, p: int, ctx: u32, v: Seq<T>) -> bool {
    forall|i: int| 0 <= i < v.len() ==> T::spec_read(s.skip(#[trigger] var_offsets::<T>(s, p, v.len(), ctx)[i]), ctx, v[i])
}

/// The stored forms of records, one after another.
pub open spec fn vars_bytes<T: VarRecord>(v: Seq<T>) -> Seq<u8>
    decreases v.len(),
{
    if v.len() == 0 {
        Seq::empty()
    } else {
        vars_bytes(v.drop_last()) + v.last().spec_bytes()
    }
}

/// There is an offset per record, and one more for the end; those of fewer
/// records are the first of those of more.
pub proof fn lemma_var_offsets_prefix<T: VarRecord>(s: Seq<u8>, p: int, a: nat, b: nat, ctx: u32)
    requires
        a <= b,
    ensures
        var_offsets::<T>(s, p, a, ctx).len() == a + 1,
        var_offsets::<T>(s, p, b, ctx).len() == b + 1,
        forall|i: int| 0 <= i <= a ==> #[trigger] var_offsets::<T>(s, p, a, ctx)[i] == var_offsets::<T>(s, p, b, ctx)[i],
    decreases b,
{
    if b > 0 {
        if a == b {
            lemma_var_offsets_prefix::<T>(s, p, (a - 1) as nat, (b - 1) as nat, ctx);
        } else {
            lemma_var_offsets_prefix::<T>(s, p, a, (b - 1) as nat, ctx);
            lemma_var_offsets_prefix::<T>(s, p, (b - 1) as nat, (b - 1) as nat, ctx);
        }
    }
}

/// Reads `c` records stored one after another from `p`, and where they
/// end.
pub fn parse_vars<T: VarRecord>(input: &[u8], p: usize, c: u32, ctx: u32) -> (r: Option<(Vec<T>, usize)>)
    requires
        p <= input@.len(),
        vars_readable::<T>(input@, p as int, c as nat, ctx),
    ensures
        vars_fit::<T>(input@, p as int, c as nat, ctx) ==> (r matches Some((v, e)) && v@.len() == c
            && e == var_offsets::<T>(input@, p as int, c as nat, ctx).last() && vars_read::<T>(input@, p as int, ctx, v@)),
        !vars_fit::<T>(input@, p as int, c as nat, ctx) ==> r is None,
        r matches Some((v, e)) ==> p <= e <= input@.len(),
{
    let ghost s = input@;
    let len = input.len();
    let mut v: Vec<T> = Vec::new();
    let mut q = p;
    let mut i: u32 = 0;
    while i < c
        invariant
            i <= c,
            s == input@,
            len == s.len(),
            p <= q <= s.len(),
            v@.len() == i,
            vars_readable::<T>(s, p as int, c as nat, ctx),
            q == var_offsets::<T>(s, p as int, i as nat, ctx).last(),
            vars_fit::<T>(s, p as int, i as nat, ctx),
            vars_read::<T>(s, p as int, ctx, v@),
        decreases c - i,
    {
        proof {
            lemma_var_offsets_prefix::<T>(s, p as int, i as nat, (i + 1) as nat, ctx);
            lemma_var_offsets_prefix::<T>(s, p as int, i as nat, c as nat, ctx);
            assert(T::spec_readable(s.skip(var_offsets::<T>(s, p as int, c as nat, ctx)[i as int]), ctx));
        }
        let tail = crate::wld::parse::rest(input, q);
        match T::parse_var(tail, ctx) {
            Some((x, e)) => {
                assert(T::spec_size(tail@, ctx) is Some);
                assert(e <= tail@.len());
                let ghost old_v = v@;
                v.push(x);
                proof {
                    let o1 = var_offsets::<T>(s, p as int, (i + 1) as nat, ctx);
                    let o0 = var_offsets::<T>(s, p as int, i as nat, ctx);
                    assert forall|j: int| 0 <= j < i + 1 implies #[trigger] T::spec_size(s.skip(o1[j]), ctx) is Some by {
                        if j < i {
                            assert(o1[j] == o0[j]);
                        }
                    }
                    assert forall|j: int| 0 <= j < v@.len() implies T::spec_read(s.skip(#[trigger] o1[j]), ctx, v@[j]) by {
                        if j < i {
                            assert(o1[j] == o0[j]);
                            assert(v@[j] == old_v[j]);
                        }
                    }
                }
                q = q + e;
            },
            None => {
                proof {
                    lemma_var_offsets_prefix::<T>(s, p as int, i as nat, c as nat, ctx);
                    assert(T::spec_size(s.skip(var_offsets::<T>(s, p as int, c as nat, ctx)[i as int]), ctx) is None);
                }
                return None;
            },
        }
        i = i + 1;
    }
    Some((v, q))
}

/// Appends the stored form of each record.
pub fn push_vars<T: VarRecord>(out: &mut Vec<u8>, v: &Vec<T>)
    ensures
        final(out)@ == old(out)@ + vars_bytes(v@),
{
    let mut k: usize = 0;
    while k < v.len()
        invariant
            k <= v@.len(),
            out@ == old(out)@ + vars_bytes(v@.take(k as int)),
        decreases v@.len() - k,
    {
        v[k].write_var(out);
        k = k + 1;
        proof {
            assert(v@.take(k as int).drop_last() =~= v@.take(k - 1));
            assert(out@ =~= old(out)@ + vars_bytes(v@.take(k as int)));
        }
    }
    proof {
        assert(v@.take(k as int) =~= v@);
    }
}

/// Records written one after another are read back from where they were
/// written, whatever surrounds them.
pub proof fn lemma_vars_read_back<T: VarRecord>(pre: Seq<u8>, v: Seq<T>, ctx: u32, tail: Seq<u8>)
    requires
        forall|i: int| 0 <= i < v.len() ==> (#[trigger] v[i]).spec_wf(ctx),
    ensures
        ({
            let s = pre + vars_bytes(v) + tail;
            let o = var_offsets::<T>(s, pre.len() as int, v.len(), ctx);
            &&& o.last() == pre.len() + vars_bytes(v).len()
            &&& vars_fit::<T>(s, pre.len() as int, v.len(), ctx)
            &&& vars_readable::<T>(s, pre.len() as int, v.len(), ctx)
            &&& vars_read::<T>(s, pre.len() as int, ctx, v)
        }),
    decreases v.len(),
{
    let s = pre + vars_bytes(v) + tail;
    let pl = pre.len() as int;
    lemma_var_offsets_prefix::<T>(s, pl, v.len(), v.len(), ctx);
    if v.len() > 0 {
        let pv = v.drop_last();
        let x = v.last();
        assert forall|i: int| 0 <= i < pv.len() implies (#[trigger] pv[i]).spec_wf(ctx) by {
            assert(pv[i] == v[i]);
        }
        lemma_vars_read_back::<T>(pre, pv, ctx, x.spec_bytes() + tail);
        assert(pre + vars_bytes(pv) + (x.spec_bytes() + tail) =~= s);
        let q = pl + vars_bytes(pv).len();
        let op = var_offsets::<T>(s, pl, pv.len(), ctx);
        let o = var_offsets::<T>(s, pl, v.len(), ctx);
        lemma_var_offsets_prefix::<T>(s, pl, pv.len(), v.len(), ctx);
        assert(s.skip(q) =~= x.spec_bytes() + tail);
        T::lemma_var_round_trip(x, ctx, tail);
        assert(o[pv.len() as int] == q);
        assert forall|i: int| 0 <= i < v.len() implies #[trigger] T::spec_size(s.skip(o[i]), ctx) is Some by {
            if i < pv.len() {
                assert(o[i] == op[i]);
            }
        }
        assert forall|i: int| 0 <= i < v.len() implies T::spec_read(s.skip(#[trigger] o[i]), ctx, v[i]) by {
            if i < pv.len() {
                assert(o[i] == op[i]);
                assert(v[i] == pv[i]);
            }
        }
        assert forall|i: int|
            0 <= i < v.len() && vars_fit::<T>(s, pl, i as nat, ctx) implies #[trigger] T::spec_readable(
            s.skip(o[i]),
            ctx,
        ) by {
            if i < pv.len() {
                assert(o[i] == op[i]);
                assert(vars_fit::<T>(s, pl, i as nat, ctx));
            }
        }
    }
}

/// Records read one after another are written back as the bytes they were
/// read from, and each is well formed.
pub proof fn lemma_vars_bytes<T: VarRecord>(s: Seq<u8>, p: int, v: Seq<T>, ctx: u32)
    requires
        0 <= p <= s.len(),
        vars_fit::<T>(s, p, v.len(), ctx),
        vars_read::<T>(s, p, ctx, v),
        forall|i: int| 0 <= i < v.len() ==> #[trigger] T::spec_readable(s.skip(var_offsets::<T>(s, p, v.len(), ctx)[i]), ctx),
    ensures
        p <= var_offsets::<T>(s, p, v.len(), ctx).last() <= s.len(),
        vars_bytes(v) == s.subrange(p, var_offsets::<T>(s, p, v.len(), ctx).last()),
        forall|i: int| 0 <= i < v.len() ==> (#[trigger] v[i]).spec_wf(ctx),
    decreases v.len(),
{
    lemma_var_offsets_prefix::<T>(s, p, v.len(), v.len(), ctx);
    if v.len() > 0 {
        let n = (v.len() - 1) as nat;
        let pv = v.drop_last();
        let x = v.last();
        let o = var_offsets::<T>(s, p, v.len(), ctx);
        let op = var_offsets::<T>(s, p, n, ctx);
        lemma_var_offsets_prefix::<T>(s, p, n, v.len(), ctx);
        assert forall|i: int| 0 <= i < n implies #[trigger] T::spec_size(s.skip(op[i]), ctx) is Some by {
            assert(op[i] == o[i]);
            assert(T::spec_size(s.skip(o[i]), ctx) is Some);
        }
        assert forall|i: int| 0 <= i < pv.len() implies T::spec_read(s.skip(#[trigger] op[i]), ctx, pv[i]) by {
            assert(op[i] == o[i]);
            assert(pv[i] == v[i]);
            assert(T::spec_read(s.skip(o[i]), ctx, v[i]));
        }
        assert forall|i: int| 0 <= i < pv.len() implies #[trigger] T::spec_readable(s.skip(op[i]), ctx) by {
            assert(op[i] == o[i]);
            assert(T::spec_readable(s.skip(o[i]), ctx));
        }
        lemma_vars_bytes::<T>(s, p, pv, ctx);
        let q = op.last();
        assert(o[n as int] == q);
        assert(T::spec_size(s.skip(o[n as int]), ctx) is Some);
        assert(T::spec_read(s.skip(o[n as int]), ctx, v[n as int]));
        assert(T::spec_readable(s.skip(o[n as int]), ctx));
        assert(v[n as int] == x);
        T::lemma_var_bytes(s.skip(q), ctx, x);
        let sz = T::spec_size(s.skip(q), ctx)->0;
        assert(x.spec_bytes() =~= s.subrange(q, q + sz));
        assert(vars_bytes(v) =~= s.subrange(p, o.last()));
        assert forall|i: int| 0 <= i < v.len() implies (#[trigger] v[i]).spec_wf(ctx) by {
            if i < n {
                assert(v[i] == pv[i]);
            }
        }
    } else {
        assert(vars_bytes(v) =~= s.subrange(p, p));
    }
}

/// When all of the records fit, each of them is reached, so each is
/// readable when the reached ones are.
pub proof fn lemma_vars_all_readable<T: VarRecord>(s: Seq<u8>, p: int, c: nat, ctx: u32)
    requires
        vars_fit::<T>(s, p, c, ctx),
        vars_readable::<T>(s, p, c, ctx),
    ensures
        forall|i: int| 0 <= i < c ==> #[trigger] T::spec_readable(s.skip(var_offsets::<T>(s, p, c, ctx)[i]), ctx),
{
    assert forall|i: int| 0 <= i < c implies #[trigger] T::spec_readable(s.skip(var_offsets::<T>(s, p, c, ctx)[i]), ctx) by {
        lemma_var_offsets_prefix::<T>(s, p, i as nat, c, ctx);
        assert forall|j: int| 0 <= j < i implies #[trigger] T::spec_size(s.skip(var_offsets::<T>(s, p, i as nat, ctx)[j]), ctx) is Some by {
            assert(var_offsets::<T>(s, p, i as nat, ctx)[j] == var_offsets::<T>(s, p, c, ctx)[j]);
        }
        assert(vars_fit::<T>(s, p, i as nat, ctx));
    }
}

} // verus!
