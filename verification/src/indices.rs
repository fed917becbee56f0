//! Index-list updates used when selected channels are removed.

use vstd::prelude::*;
use vstd::relations::{sorted_by, total_ordering};

verus! {

/// `s` without the entries equal to `c`, with entries above `c` moved down
/// by one: the index list after the entry at `c` is removed from the list
/// it indexes.
pub open spec fn drop_ref(s: Seq<usize>, c: usize) -> Seq<usize>
    decreases s.len(),
{
    if s.len() == 0 {
        Seq::empty()
    } else {
        let r = drop_ref(s.drop_last(), c);
        let x = s.last();
        if x == c {
            r
        } else if x > c {
            r.push((x - 1) as usize)
        } else {
            r.push(x)
        }
    }
}

/// Number of distinct values in `r` below `x`.
pub open spec fn distinct_below(r: Seq<usize>, x: usize) -> nat
    decreases r.len(),
{
    if r.len() == 0 {
        0
    } else {
        distinct_below(r.drop_last(), x) + if r.last() < x && !r.drop_last().contains(r.last()) {
            1nat
        } else {
            0nat
        }
    }
}

/// `s` without the entries that occur in `r`, each remaining entry moved
/// down by the number of distinct values of `r` below it: the index list
/// after the entries at the positions in `r` are removed from the list it
/// indexes.
pub open spec fn drop_refs(s: Seq<usize>, r: Seq<usize>) -> Seq<usize>
    decreases s.len(),
{
    if s.len() == 0 {
        Seq::empty()
    } else {
        let rest = drop_refs(s.drop_last(), r);
        let x = s.last();
        if r.contains(x) {
            rest
        } else {
            rest.push((x - distinct_below(r, x)) as usize)
        }
    }
}

/// `s` without the entries equal to `c`.
pub open spec fn without(s: Seq<usize>, c: usize) -> Seq<usize>
    decreases s.len(),
{
    if s.len() == 0 {
        Seq::empty()
    } else {
        let r = without(s.drop_last(), c);
        if s.last() == c {
            r
        } else {
            r.push(s.last())
        }
    }
}

pub proof fn lemma_distinct_below_step(r: Seq<usize>, x: usize)
    requires
        x < usize::MAX,
    ensures
        distinct_below(r, (x + 1) as usize) == distinct_below(r, x) + if r.contains(x) {
            1nat
        } else {
            0nat
        },
    decreases r.len(),
{
    if r.len() > 0 {
        let p = r.drop_last();
        lemma_distinct_below_step(p, x);
        assert(r == p.push(r.last()));
        if r.contains(x) && !p.contains(x) {
            assert(r.last() == x) by {
                let k = choose|k: int| 0 <= k < r.len() && r[k] == x;
                if k < p.len() {
                    assert(p[k] == x);
                }
            }
        }
        if p.contains(x) {
            let k = choose|k: int| 0 <= k < p.len() && p[k] == x;
            assert(r[k] == x);
        }
        if r.last() == x {
            assert(r[r.len() - 1] == x);
        }
    }
}

/// The number of distinct values below `x` is at most `x`.
pub proof fn lemma_distinct_below_bound(r: Seq<usize>, x: usize)
    ensures
        distinct_below(r, x) <= x,
    decreases x,
{
    if x == 0 {
        lemma_distinct_below_zero(r);
    } else {
        lemma_distinct_below_bound(r, (x - 1) as usize);
        lemma_distinct_below_step(r, (x - 1) as usize);
    }
}

proof fn lemma_distinct_below_zero(r: Seq<usize>)
    ensures
        distinct_below(r, 0) == 0,
    decreases r.len(),
{
    if r.len() > 0 {
        lemma_distinct_below_zero(r.drop_last());
    }
}

/// Between `y` and `z` at most `z - y` distinct values can lie.
pub proof fn lemma_distinct_below_gap(r: Seq<usize>, y: usize, z: usize)
    requires
        y <= z,
    ensures
        distinct_below(r, z) <= distinct_below(r, y) + (z - y),
    decreases z - y,
{
    if y < z {
        lemma_distinct_below_gap(r, y, (z - 1) as usize);
        lemma_distinct_below_step(r, (z - 1) as usize);
    }
}

/// A sequence of distinct values below `n` has all of them below `n`.
pub proof fn lemma_distinct_below_all(r: Seq<usize>, n: usize)
    requires
        r.no_duplicates(),
        forall|k: int| 0 <= k < r.len() ==> #[trigger] r[k] < n,
    ensures
        distinct_below(r, n) == r.len(),
    decreases r.len(),
{
    if r.len() > 0 {
        let p = r.drop_last();
        assert forall|k: int| 0 <= k < p.len() implies #[trigger] p[k] < n by {
            assert(p[k] == r[k]);
        }
        assert(p.no_duplicates()) by {
            assert forall|i: int, j: int| 0 <= i < p.len() && 0 <= j < p.len() && i != j implies p[i]
                != p[j] by {
                assert(p[i] == r[i] && p[j] == r[j]);
            }
        }
        lemma_distinct_below_all(p, n);
        assert(r.last() == r[r.len() - 1]);
        if p.contains(r.last()) {
            let k = choose|k: int| 0 <= k < p.len() && p[k] == r.last();
            assert(r[k] == r[r.len() - 1]);
        }
    }
}

/// After removing the distinct positions `r` (all below `n`) from a list of
/// `n` entries, every remaining reference is below `n - r.len()`.
pub proof fn lemma_drop_refs_bound(s: Seq<usize>, r: Seq<usize>, n: usize)
    requires
        r.no_duplicates(),
        forall|k: int| 0 <= k < r.len() ==> #[trigger] r[k] < n,
        forall|k: int| 0 <= k < s.len() ==> #[trigger] s[k] < n,
    ensures
        forall|k: int|
            0 <= k < drop_refs(s, r).len() ==> #[trigger] drop_refs(s, r)[k] < n - r.len(),
    decreases s.len(),
{
    if s.len() > 0 {
        let p = s.drop_last();
        assert forall|k: int| 0 <= k < p.len() implies #[trigger] p[k] < n by {
            assert(p[k] == s[k]);
        }
        lemma_drop_refs_bound(p, r, n);
        let x = s.last();
        assert(x == s[s.len() - 1]);
        let rest = drop_refs(p, r);
        let d = drop_refs(s, r);
        if !r.contains(x) {
            lemma_distinct_below_all(r, n);
            lemma_distinct_below_step(r, x);
            lemma_distinct_below_gap(r, (x + 1) as usize, n);
            lemma_distinct_below_bound(r, x);
        }
        assert forall|k: int| 0 <= k < d.len() implies #[trigger] d[k] < n - r.len() by {
            if k < rest.len() {
                assert(d[k] == rest[k]);
            }
        }
    }
}

/// Whether `r` contains `x`.
pub fn contains_index(r: &Vec<usize>, x: usize) -> (b: bool)
    ensures
        b == r@.contains(x),
{
    let mut i: usize = 0;
    while i < r.len()
        invariant
            i <= r.len(),
            forall|k: int| 0 <= k < i ==> r@[k] != x,
        decreases r.len() - i,
    {
        if r[i] == x {
            return true;
        }
        i = i + 1;
    }
    false
}

/// Number of distinct values in `r` below `x`.
pub fn count_distinct_below(r: &Vec<usize>, x: usize) -> (n: usize)
    ensures
        n == distinct_below(r@, x),
{
    let mut n: usize = 0;
    let mut i: usize = 0;
    assert(r@.take(0) =~= Seq::<usize>::empty());
    while i < r.len()
        invariant
            i <= r.len(),
            n == distinct_below(r@.take(i as int), x),
        decreases r.len() - i,
    {
        let v = r[i];
        let ghost p = r@.take(i as int);
        assert(r@.take(i + 1).drop_last() =~= p);
        proof {
            lemma_distinct_below_bound(r@.take(i + 1), x);
        }
        let mut seen = false;
        let mut j: usize = 0;
        while j < i
            invariant
                j <= i < r.len(),
                p == r@.take(i as int),
                seen == exists|k: int| 0 <= k < j && p[k] == v,
            decreases i - j,
        {
            assert(p[j as int] == r@[j as int]);
            if r[j] == v {
                seen = true;
            }
            j = j + 1;
        }
        assert(seen == p.contains(v));
        if v < x && !seen {
            n = n + 1;
        }
        i = i + 1;
    }
    assert(r@.take(r.len() as int) =~= r@);
    n
}

/// `s` after the entry at `c` of the list it indexes is removed.
pub fn drop_ref_exec(s: &Vec<usize>, c: usize) -> (res: Vec<usize>)
    ensures
        res@ == drop_ref(s@, c),
{
    let mut res: Vec<usize> = Vec::new();
    let mut i: usize = 0;
    assert(s@.take(0) =~= Seq::<usize>::empty());
    while i < s.len()
        invariant
            i <= s.len(),
            res@ == drop_ref(s@.take(i as int), c),
        decreases s.len() - i,
    {
        assert(s@.take(i + 1).drop_last() =~= s@.take(i as int));
        let x = s[i];
        if x > c {
            res.push(x - 1);
        } else if x < c {
            res.push(x);
        }
        i = i + 1;
    }
    assert(s@.take(s.len() as int) =~= s@);
    res
}

/// `s` after the entries at the positions in `r` of the list it indexes are
/// removed.
pub fn drop_refs_exec(s: &Vec<usize>, r: &Vec<usize>) -> (res: Vec<usize>)
    ensures
        res@ == drop_refs(s@, r@),
{
    let mut res: Vec<usize> = Vec::new();
    let mut i: usize = 0;
    assert(s@.take(0) =~= Seq::<usize>::empty());
    while i < s.len()
        invariant
            i <= s.len(),
            res@ == drop_refs(s@.take(i as int), r@),
        decreases s.len() - i,
    {
        assert(s@.take(i + 1).drop_last() =~= s@.take(i as int));
        let x = s[i];
        if !contains_index(r, x) {
            let shift = count_distinct_below(r, x);
            proof {
                lemma_distinct_below_bound(r@, x);
            }
            res.push(x - shift);
        }
        i = i + 1;
    }
    assert(s@.take(s.len() as int) =~= s@);
    res
}

/// `s` without the entries equal to `c`.
pub fn without_exec(s: &Vec<usize>, c: usize) -> (res: Vec<usize>)
    ensures
        res@ == without(s@, c),
{
    let mut res: Vec<usize> = Vec::new();
    let mut i: usize = 0;
    assert(s@.take(0) =~= Seq::<usize>::empty());
    while i < s.len()
        invariant
            i <= s.len(),
            res@ == without(s@.take(i as int), c),
        decreases s.len() - i,
    {
        assert(s@.take(i + 1).drop_last() =~= s@.take(i as int));
        if s[i] != c {
            res.push(s[i]);
        }
        i = i + 1;
    }
    assert(s@.take(s.len() as int) =~= s@);
    res
}

/// Descending order on indices.
pub open spec fn descending() -> spec_fn(usize, usize) -> bool {
    |a: usize, b: usize| a >= b
}

/// `descending` is a total order.
pub proof fn lemma_descending_total()
    ensures
        total_ordering(descending()),
{
    let leq = descending();
    assert(vstd::relations::reflexive(leq));
    assert(vstd::relations::antisymmetric(leq));
    assert(vstd::relations::transitive(leq));
    assert(vstd::relations::strongly_connected(leq));
}

/// The entries of `r` in descending order.
pub fn sort_descending(r: &Vec<usize>) -> (res: Vec<usize>)
    ensures
        res@ == r@.sort_by(descending()),
{
    broadcast use vstd::seq_lib::group_to_multiset_ensures;

    let mut res: Vec<usize> = Vec::new();
    let mut i: usize = 0;
    assert(r@.take(0) =~= Seq::<usize>::empty());
    while i < r.len()
        invariant
            i <= r.len(),
            sorted_by(res@, descending()),
            res@.to_multiset() == r@.take(i as int).to_multiset(),
        decreases r.len() - i,
    {
        let x = r[i];
        let mut pos: usize = 0;
        while pos < res.len() && res[pos] >= x
            invariant
                pos <= res.len(),
                forall|j: int| 0 <= j < pos ==> res@[j] >= x,
            decreases res.len() - pos,
        {
            pos = pos + 1;
        }
        let ghost before = res@;
        res.insert(pos, x);
        proof {
            assert(res@ == before.insert(pos as int, x));
            assert forall|a: int, b: int| 0 <= a < b < res@.len() implies #[trigger] (descending())(
                res@[a],
                res@[b],
            ) by {
                if b < pos {
                } else if a < pos && b == pos {
                } else if a < pos && b > pos {
                    assert(res@[b] == before[b - 1]);
                    if pos < before.len() {
                        assert((descending())(before[pos as int], before[b - 1]));
                    }
                } else if a == pos {
                    assert(res@[b] == before[b - 1]);
                    if pos < before.len() {
                        assert((descending())(before[pos as int], before[b - 1]));
                    }
                } else {
                    assert(res@[a] == before[a - 1]);
                    assert(res@[b] == before[b - 1]);
                }
            }
            assert(r@.take(i + 1) =~= r@.take(i as int).push(x));
            vstd::seq_lib::to_multiset_insert(before, pos as int, x);
            vstd::seq_lib::to_multiset_build(r@.take(i as int), x);
        }
        i = i + 1;
    }
    proof {
        assert(r@.take(r.len() as int) =~= r@);
        lemma_descending_total();
        r@.lemma_sort_by_ensures(descending());
        vstd::seq_lib::lemma_sorted_unique(res@, r@.sort_by(descending()), descending());
    }
    res
}

} // verus!
