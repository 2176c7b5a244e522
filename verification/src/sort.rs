//! Stable sorting of keyed items, as `sort_by_key` does.
use vstd::prelude::*;

verus! {

/// The items are in ascending order of key.
pub open spec fn sorted_by_key<T>(s: Seq<(u32, T)>) -> bool {
    forall|i: int, j: int| 0 <= i < j < s.len() ==> #[trigger] s[i].0 <= #[trigger] s[j].0
}

/// `x` placed into `s` after every item whose key is at most its own: the
/// step of a stable insertion sort.
pub open spec fn insert_by_key<T>(s: Seq<(u32, T)>, x: (u32, T)) -> Seq<(u32, T)>
    decreases s.len(),
{
    if s.len() > 0 && s.last().0 > x.0 {
        insert_by_key(s.drop_last(), x).push(s.last())
    } else {
        s.push(x)
    }
}

/// The items stably sorted by key: items with equal keys keep their order.
pub open spec fn sort_seq_by_key<T>(s: Seq<(u32, T)>) -> Seq<(u32, T)>
    decreases s.len(),
{
    if s.len() == 0 {
        s
    } else {
        insert_by_key(sort_seq_by_key(s.drop_last()), s.last())
    }
}

/// Inserting at `j`, where every item from `j` on has a greater key and the
/// one before has not, is `insert_by_key`.
proof fn lemma_insert_at<T>(s: Seq<(u32, T)>, x: (u32, T), j: int)
    requires
        0 <= j <= s.len(),
        forall|i: int| j <= i < s.len() ==> #[trigger] s[i].0 > x.0,
        j > 0 ==> s[j - 1].0 <= x.0,
    ensures
        insert_by_key(s, x) == s.insert(j, x),
    decreases s.len(),
{
    if s.len() > 0 && s.last().0 > x.0 {
        lemma_insert_at(s.drop_last(), x, j);
        assert(s.drop_last().insert(j, x).push(s.last()) =~= s.insert(j, x));
    } else {
        assert(j == s.len());
        assert(s.push(x) =~= s.insert(j, x));
    }
}

/// Changing the items but not their keys commutes with inserting.
pub proof fn lemma_insert_map<T, U>(s: Seq<(u32, T)>, x: (u32, T), f: spec_fn(T) -> U)
    ensures
        insert_by_key(s, x).map_values(|p: (u32, T)| (p.0, f(p.1))) == insert_by_key(
            s.map_values(|p: (u32, T)| (p.0, f(p.1))),
            (x.0, f(x.1)),
        ),
    decreases s.len(),
{
    let g = |p: (u32, T)| (p.0, f(p.1));
    if s.len() > 0 && s.last().0 > x.0 {
        lemma_insert_map(s.drop_last(), x, f);
        assert(s.map_values(g).drop_last() =~= s.drop_last().map_values(g));
        assert(insert_by_key(s, x).map_values(g) =~= insert_by_key(s.drop_last(), x).map_values(g).push(g(s.last())));
    } else {
        assert(insert_by_key(s, x).map_values(g) =~= s.map_values(g).push(g(x)));
    }
}

/// Changing the items but not their keys commutes with sorting.
pub proof fn lemma_sort_map<T, U>(s: Seq<(u32, T)>, f: spec_fn(T) -> U)
    ensures
        sort_seq_by_key(s).map_values(|p: (u32, T)| (p.0, f(p.1))) == sort_seq_by_key(
            s.map_values(|p: (u32, T)| (p.0, f(p.1))),
        ),
    decreases s.len(),
{
    let g = |p: (u32, T)| (p.0, f(p.1));
    if s.len() > 0 {
        lemma_sort_map(s.drop_last(), f);
        lemma_insert_map(sort_seq_by_key(s.drop_last()), s.last(), f);
        assert(s.map_values(g).drop_last() =~= s.drop_last().map_values(g));
    } else {
        assert(s.map_values(g) =~= Seq::<(u32, U)>::empty());
    }
}

/// Inserting adds exactly the inserted item.
pub proof fn lemma_insert_contains<T>(s: Seq<(u32, T)>, y: (u32, T), x: (u32, T))
    ensures
        insert_by_key(s, y).contains(x) <==> (x == y || s.contains(x)),
        insert_by_key(s, y).len() == s.len() + 1,
    decreases s.len(),
{
    if s.len() > 0 && s.last().0 > y.0 {
        lemma_insert_contains(s.drop_last(), y, x);
        let t = insert_by_key(s.drop_last(), y);
        if s.contains(x) && x != y {
            let i = choose|i: int| 0 <= i < s.len() && s[i] == x;
            if i == s.len() - 1 {
                assert(t.push(s.last())[t.len() as int] == x);
            } else {
                assert(s.drop_last()[i] == x);
                let j = choose|j: int| 0 <= j < t.len() && t[j] == x;
                assert(t.push(s.last())[j] == x);
            }
        }
        if t.push(s.last()).contains(x) {
            let j = choose|j: int| 0 <= j < t.len() + 1 && t.push(s.last())[j] == x;
            if j == t.len() {
                assert(s[s.len() - 1] == x);
            } else {
                assert(t[j] == x);
                if x != y {
                    let i = choose|i: int| 0 <= i < s.drop_last().len() && s.drop_last()[i] == x;
                    assert(s[i] == x);
                }
            }
        }
        if x == y {
            let j = choose|j: int| 0 <= j < t.len() && t[j] == x;
            assert(t.push(s.last())[j] == x);
        }
    } else {
        if s.contains(x) {
            let i = choose|i: int| 0 <= i < s.len() && s[i] == x;
            assert(s.push(y)[i] == x);
        }
        if x == y {
            assert(s.push(y)[s.len() as int] == x);
        }
        if s.push(y).contains(x) && x != y {
            let j = choose|j: int| 0 <= j < s.len() + 1 && s.push(y)[j] == x;
            assert(s[j] == x);
        }
    }
}

/// Sorting keeps exactly the items there were, and as many.
pub proof fn lemma_sort_contains<T>(s: Seq<(u32, T)>, x: (u32, T))
    ensures
        sort_seq_by_key(s).contains(x) <==> s.contains(x),
        sort_seq_by_key(s).len() == s.len(),
    decreases s.len(),
{
    if s.len() > 0 {
        lemma_sort_contains(s.drop_last(), x);
        lemma_insert_contains(sort_seq_by_key(s.drop_last()), s.last(), x);
        if s.contains(x) && x != s.last() {
            let i = choose|i: int| 0 <= i < s.len() && s[i] == x;
            assert(s.drop_last()[i] == x);
        }
        if s.drop_last().contains(x) {
            let i = choose|i: int| 0 <= i < s.drop_last().len() && s.drop_last()[i] == x;
            assert(s[i] == x);
        }
        if x == s.last() {
            assert(s[s.len() - 1] == x);
        }
    }
}

/// Sorts `items` by key. Items with equal keys keep their order (each item
/// goes after the equal keys already placed).
pub fn sort_by_key<T>(items: Vec<(u32, T)>) -> (r: Vec<(u32, T)>)
    ensures
        r@ == sort_seq_by_key(items@),
        sorted_by_key(r@),
        r@.to_multiset() == items@.to_multiset(),
        r@.len() == items@.len(),
{
    broadcast use vstd::seq_lib::group_to_multiset_ensures;

    let ghost src = items@;
    let mut out: Vec<(u32, T)> = Vec::new();
    let mut rest = items;
    // Move the items out front to back, inserting each in place.
    proof {
        assert(src.take(0) =~= out@);
    }
    while rest.len() > 0
        invariant
            rest@.len() <= src.len(),
            rest@ == src.skip(src.len() - rest@.len()),
            sorted_by_key(out@),
            out@.to_multiset() == src.take(src.len() - rest@.len()).to_multiset(),
            out@.len() == src.len() - rest@.len(),
            out@ == sort_seq_by_key(src.take(src.len() - rest@.len())),
        decreases rest@.len(),
    {
        let ghost k = src.len() - rest@.len();
        let item = rest.remove(0);
        assert(item == src[k]);
        let mut j = out.len();
        while j > 0 && out[j - 1].0 > item.0
            invariant
                j <= out@.len(),
                j < out@.len() ==> out@[j as int].0 > item.0,
                forall|i: int| j <= i < out@.len() ==> #[trigger] out@[i].0 > item.0,
            decreases j,
        {
            j = j - 1;
        }
        let ghost before = out@;
        out.insert(j, item);
        proof {
            assert(out@ == before.insert(j as int, item));
            lemma_insert_at(before, item, j as int);
            assert(src.take(k + 1).drop_last() =~= src.take(k));
            assert(out@.remove(j as int) =~= before);
            assert(out@[j as int] == item);
            out@.to_multiset_ensures();
            src.take(k).to_multiset_ensures();
            assert(out@.contains(item));
            assert(out@.to_multiset().count(item) > 0);
            assert(before.to_multiset() == out@.to_multiset().remove(item));
            assert(out@.to_multiset() =~= before.to_multiset().insert(item));
            assert forall|a: int, b: int| 0 <= a < b < out@.len() implies #[trigger] out@[a].0
                <= #[trigger] out@[b].0 by {
                if b < j {
                    assert(out@[a] == before[a] && out@[b] == before[b]);
                } else if b == j {
                    assert(out@[a] == before[a]);
                } else if a == j {
                    assert(out@[b] == before[b - 1]);
                } else if a < j {
                    assert(out@[a] == before[a] && out@[b] == before[b - 1]);
                    assert(before[b - 1].0 > item.0 || b - 1 < j);
                } else {
                    assert(out@[a] == before[a - 1] && out@[b] == before[b - 1]);
                }
            }
            assert(src.take(k + 1) =~= src.take(k).push(src[k]));
            assert(rest@ =~= src.skip(src.len() - rest@.len()));
        }
    }
    proof {
        assert(src.take(src.len() as int) =~= src);
    }
    out
}

} // verus!
