//! Grouping of sorted indices into runs.

use std::ops::RangeInclusive;
use vstd::prelude::*;

verus! {

/// The integers `start..=end` in increasing order.
pub open spec fn run_values(start: int, end: int) -> Seq<int> {
    Seq::new((end - start + 1) as nat, |k: int| start + k)
}

/// The integers of all runs, one run after the other.
pub open spec fn flatten_runs(runs: Seq<(int, int)>) -> Seq<int>
    decreases runs.len(),
{
    if runs.len() == 0 {
        Seq::<int>::empty()
    } else {
        flatten_runs(runs.drop_last()) + run_values(runs.last().0, runs.last().1)
    }
}

/// `runs` splits `values` into maximal runs of consecutive integers: read one
/// after the other the runs give back `values`, no run is empty, and no run
/// could be joined with the run that follows it.
pub open spec fn is_run_decomposition(values: Seq<int>, runs: Seq<(int, int)>) -> bool {
    &&& flatten_runs(runs) == values
    &&& forall|k: int| 0 <= k < runs.len() ==> (#[trigger] runs[k]).0 <= runs[k].1
    &&& forall|k: int| 0 <= k < runs.len() - 1 ==> #[trigger] runs[k + 1].0 != runs[k].1 + 1
}

/// Runs with machine bounds, as runs of integers.
pub open spec fn int_runs(runs: Seq<(usize, usize)>) -> Seq<(int, int)> {
    Seq::new(runs.len(), |k: int| (runs[k].0 as int, runs[k].1 as int))
}

/// The runs of a vector of ranges.
pub open spec fn range_bounds(ranges: Seq<RangeInclusive<usize>>) -> Seq<(int, int)> {
    Seq::new(ranges.len(), |k: int| (ranges[k]@.start as int, ranges[k]@.end as int))
}

/// Groups neighbouring indices into inclusive ranges: `[0, 1, 2, 6]` gives
/// `[0..=2, 6..=6]`. The indices are meant to be sorted; for any input the
/// ranges read one after the other give the input back.
pub fn group_indices(indices: Vec<usize>) -> (res: Vec<RangeInclusive<usize>>)
    requires
        forall|k: int| 0 <= k < indices@.len() - 1 ==> indices@[k] < usize::MAX,
    ensures
        is_run_decomposition(indices@.map_values(|x: usize| x as int), range_bounds(res@)),
        forall|k: int| 0 <= k < res@.len() ==> !(#[trigger] res@[k])@.exhausted,
{
    let ghost vals = indices@.map_values(|x: usize| x as int);
    let n = indices.len();
    let mut runs: Vec<(usize, usize)> = Vec::new();
    let mut i: usize = 0;
    assert(vals.take(0) =~= Seq::<int>::empty());
    assert(int_runs(runs@) =~= Seq::<(int, int)>::empty());
    while i < n
        invariant
            n == indices@.len(),
            vals == indices@.map_values(|x: usize| x as int),
            forall|k: int| 0 <= k < indices@.len() - 1 ==> indices@[k] < usize::MAX,
            i <= n,
            i > 0 ==> runs@.len() > 0 && runs@.last().1 == indices@[i - 1],
            is_run_decomposition(
                vals.take(i as int),
                int_runs(runs@),
            ),
        decreases n - i,
    {
        let x = indices[i];
        let ghost old_runs = int_runs(runs@);
        assert(vals.take(i + 1) =~= vals.take(i as int).push(x as int));
        let len = runs.len();
        if len > 0 && runs[len - 1].1 + 1 == x {
            let (s, _) = runs[len - 1];
            runs.set(len - 1, (s, x));
            let ghost new_runs = int_runs(runs@);
            assert(new_runs.drop_last() =~= old_runs.drop_last());
            assert(run_values(s as int, x as int) =~= run_values(s as int, x - 1).push(x as int));
            assert(flatten_runs(old_runs) == flatten_runs(old_runs.drop_last()) + run_values(s as int, x - 1));
            assert(flatten_runs(new_runs) =~= flatten_runs(old_runs).push(x as int));
            assert forall|k: int| 0 <= k < new_runs.len() - 1 implies #[trigger] new_runs[k + 1].0
                != new_runs[k].1 + 1 by {
                assert(new_runs[k] == old_runs[k]);
                assert(new_runs[k + 1].0 == old_runs[k + 1].0);
            }
            assert forall|k: int| 0 <= k < new_runs.len() implies (#[trigger] new_runs[k]).0
                <= new_runs[k].1 by {
                if k < new_runs.len() - 1 {
                    assert(new_runs[k] == old_runs[k]);
                }
            }
        } else {
            runs.push((x, x));
            let ghost new_runs = int_runs(runs@);
            assert(new_runs.drop_last() =~= old_runs);
            assert(run_values(x as int, x as int) =~= seq![x as int]);
            assert(flatten_runs(new_runs) =~= flatten_runs(old_runs).push(x as int));
            assert forall|k: int| 0 <= k < new_runs.len() - 1 implies #[trigger] new_runs[k + 1].0
                != new_runs[k].1 + 1 by {
                assert(new_runs[k] == old_runs[k]);
                if k + 1 < old_runs.len() {
                    assert(new_runs[k + 1] == old_runs[k + 1]);
                }
            }
            assert forall|k: int| 0 <= k < new_runs.len() implies (#[trigger] new_runs[k]).0
                <= new_runs[k].1 by {
                if k < new_runs.len() - 1 {
                    assert(new_runs[k] == old_runs[k]);
                }
            }
        }
        i = i + 1;
    }
    assert(vals.take(n as int) =~= vals);
    let ghost final_runs = int_runs(runs@);
    let mut res: Vec<RangeInclusive<usize>> = Vec::new();
    let m = runs.len();
    let mut j: usize = 0;
    while j < m
        invariant
            m == runs@.len(),
            j <= m,
            res@.len() == j,
            forall|k: int| 0 <= k < j ==> (#[trigger] res@[k])@.start == runs@[k].0 && res@[k]@.end == runs@[k].1 && !res@[k]@.exhausted,
        decreases m - j,
    {
        let (s, e) = runs[j];
        res.push(RangeInclusive::new(s, e));
        j = j + 1;
    }
    assert(range_bounds(res@) =~= final_runs);
    res
}

/// The places where `values` does not go on by one: the number of
/// neighbours `values[k]`, `values[k + 1]` with `values[k + 1] != values[k] + 1`.
pub open spec fn breaks(values: Seq<int>) -> nat
    decreases values.len(),
{
    if values.len() <= 1 {
        0
    } else {
        breaks(values.drop_last()) + if values.last() == values[values.len() - 2] + 1 {
            0nat
        } else {
            1nat
        }
    }
}

/// `runs` covers `values` with runs of consecutive integers: read one after
/// the other they give back `values`, and none is empty.
pub open spec fn is_run_cover(values: Seq<int>, runs: Seq<(int, int)>) -> bool {
    &&& flatten_runs(runs) == values
    &&& forall|k: int| 0 <= k < runs.len() ==> (#[trigger] runs[k]).0 <= runs[k].1
}

proof fn lemma_breaks_concat(a: Seq<int>, b: Seq<int>)
    requires
        a.len() > 0,
        b.len() > 0,
    ensures
        breaks(a + b) == breaks(a) + breaks(b) + if b[0] == a.last() + 1 { 0nat } else { 1nat },
    decreases b.len(),
{
    if b.len() == 1 {
        assert((a + b).drop_last() =~= a);
    } else {
        let b2 = b.drop_last();
        lemma_breaks_concat(a, b2);
        assert((a + b).drop_last() =~= a + b2);
        assert(b2[0] == b[0]);
    }
}

proof fn lemma_run_values_no_breaks(s: int, e: int)
    requires
        s <= e,
    ensures
        breaks(run_values(s, e)) == 0,
    decreases e - s,
{
    if e > s {
        lemma_run_values_no_breaks(s, e - 1);
        assert(run_values(s, e).drop_last() =~= run_values(s, e - 1));
    }
}

proof fn lemma_cover_breaks(runs: Seq<(int, int)>)
    requires
        forall|k: int| 0 <= k < runs.len() ==> (#[trigger] runs[k]).0 <= runs[k].1,
    ensures
        runs.len() > 0 ==> flatten_runs(runs).len() > 0 && flatten_runs(runs).last() == runs.last().1,
        runs.len() > 0 ==> breaks(flatten_runs(runs)) <= runs.len() - 1,
        runs.len() > 0 && (forall|k: int| 0 <= k < runs.len() - 1 ==> #[trigger] runs[k + 1].0 != runs[k].1 + 1)
            ==> breaks(flatten_runs(runs)) == runs.len() - 1,
    decreases runs.len(),
{
    if runs.len() > 0 {
        let prev = runs.drop_last();
        assert forall|k: int| 0 <= k < prev.len() implies (#[trigger] prev[k]).0 <= prev[k].1 by {
            assert(prev[k] == runs[k]);
        }
        lemma_cover_breaks(prev);
        let l = runs.last();
        let rv = run_values(l.0, l.1);
        lemma_run_values_no_breaks(l.0, l.1);
        assert(rv.len() > 0 && rv[0] == l.0 && rv.last() == l.1);
        if prev.len() > 0 {
            lemma_breaks_concat(flatten_runs(prev), rv);
            if forall|k: int| 0 <= k < runs.len() - 1 ==> #[trigger] runs[k + 1].0 != runs[k].1 + 1 {
                let k = runs.len() - 2;
                assert(runs[k + 1].0 != runs[k].1 + 1);
                assert(prev.last() == runs[k]);
            }
        } else {
            assert(flatten_runs(runs) =~= rv);
        }
    }
}

/// The maximal runs are the fewest: every cover of the same values with
/// runs of consecutive integers has at least as many runs as the
/// decomposition `group_indices` gives.
pub proof fn lemma_fewest_runs(values: Seq<int>, runs: Seq<(int, int)>, cover: Seq<(int, int)>)
    requires
        is_run_decomposition(values, runs),
        is_run_cover(values, cover),
    ensures
        runs.len() <= cover.len(),
{
    lemma_cover_breaks(runs);
    lemma_cover_breaks(cover);
    if values.len() > 0 && runs.len() > 0 {
        assert(cover.len() > 0);
    }
}

} // verus!
