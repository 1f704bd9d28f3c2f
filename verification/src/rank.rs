//! Bounded top-N selection: a stable descending order over counts, with
//! ties broken by first-encountered position. The order is unique, so the
//! top-N prefix is fully determined by the counts.
use vstd::prelude::*;

verus! {

/// Position `a` outranks position `b`: a strictly larger count, or an
/// equal count seen earlier.
pub open spec fn outranks(counts: Seq<usize>, a: int, b: int) -> bool {
    counts[a] > counts[b] || (counts[a] == counts[b] && a < b)
}

/// `ord` lists every position of `counts` exactly once, highest count
/// first, ties in first-encountered order.
pub open spec fn is_stable_desc_order(counts: Seq<usize>, ord: Seq<usize>) -> bool {
    &&& ord.len() == counts.len()
    &&& forall|i: int| 0 <= i < ord.len() ==> (#[trigger] ord[i]) < counts.len()
    &&& forall|i: int, j: int|
        0 <= i < j < ord.len() ==> outranks(counts, #[trigger] ord[i] as int, #[trigger] ord[j] as int)
}

/// The first `limit` positions of the stable descending order.
pub open spec fn is_top_selection(counts: Seq<usize>, top: Seq<usize>, limit: int) -> bool {
    exists|ord: Seq<usize>|
        #[trigger] is_stable_desc_order(counts, ord) && top == ord.take(
            if limit < counts.len() {
                limit
            } else {
                counts.len() as int
            },
        )
}

/// Order the positions of `counts` by count, descending, stable.
#[verifier::loop_isolation(false)]
pub fn stable_desc_order(counts: &Vec<usize>) -> (ord: Vec<usize>)
    ensures
        is_stable_desc_order(counts@, ord@),
{
    let n = counts.len();
    let mut ord: Vec<usize> = Vec::new();
    let mut idx: usize = 0;
    while idx < n
        invariant
            idx <= n,
            ord@.len() == idx,
            forall|i: int| 0 <= i < ord@.len() ==> (#[trigger] ord@[i]) < idx,
            forall|i: int, j: int|
                0 <= i < j < ord@.len() ==> outranks(
                    counts@,
                    #[trigger] ord@[i] as int,
                    #[trigger] ord@[j] as int,
                ),
        decreases n - idx,
    {
        let c = counts[idx];
        // find the first position whose count is strictly smaller
        let mut p: usize = 0;
        while p < ord.len() && counts[ord[p]] >= c
            invariant
                p <= ord@.len(),
                forall|i: int| 0 <= i < p ==> counts@[#[trigger] ord@[i] as int] >= c,
            decreases ord@.len() - p,
        {
            p += 1;
        }
        let ghost before = ord@;
        ord.insert(p, idx);
        proof {
            assert forall|i: int, j: int|
                0 <= i < j < ord@.len() implies outranks(
                counts@,
                #[trigger] ord@[i] as int,
                #[trigger] ord@[j] as int,
            ) by {
                if j < p {
                    assert(ord@[i] == before[i] && ord@[j] == before[j]);
                } else if j == p {
                    assert(ord@[i] == before[i]);
                    assert(ord@[j] == idx);
                    assert(counts@[before[i] as int] >= c);
                    assert(before[i] < idx);
                } else {
                    assert(ord@[j] == before[j - 1]);
                    if i < p {
                        assert(ord@[i] == before[i]);
                    } else if i == p {
                        assert(ord@[i] == idx);
                        if j - 1 >= p {
                            if p < before.len() {
                                assert(counts@[before[p as int] as int] < c);
                                if j - 1 > p {
                                    assert(outranks(
                                        counts@,
                                        before[p as int] as int,
                                        before[j - 1] as int,
                                    ));
                                }
                            }
                        }
                    } else {
                        assert(ord@[i] == before[i - 1]);
                    }
                }
            }
        }
        idx += 1;
    }
    ord
}

/// The top-`limit` positions of `counts`, highest count first, stable.
#[verifier::loop_isolation(false)]
pub fn top_positions(counts: &Vec<usize>, limit: usize) -> (top: Vec<usize>)
    ensures
        is_top_selection(counts@, top@, limit as int),
        top@.len() == if (limit as int) < counts@.len() {
            limit as int
        } else {
            counts@.len() as int
        },
        forall|i: int| 0 <= i < top@.len() ==> (#[trigger] top@[i]) < counts@.len(),
        forall|i: int, j: int|
            0 <= i < j < top@.len() ==> outranks(
                counts@,
                #[trigger] top@[i] as int,
                #[trigger] top@[j] as int,
            ),
{
    let ord = stable_desc_order(counts);
    let keep = if limit < ord.len() {
        limit
    } else {
        ord.len()
    };
    let mut top: Vec<usize> = Vec::new();
    let mut i: usize = 0;
    while i < keep
        invariant
            i <= keep,
            keep <= ord@.len(),
            top@ == ord@.take(i as int),
        decreases keep - i,
    {
        top.push(ord[i]);
        proof {
            assert(top@ =~= ord@.take(i + 1));
        }
        i += 1;
    }
    proof {
        assert(is_stable_desc_order(counts@, ord@));
        assert(top@ == ord@.take(keep as int));
    }
    top
}

/// The selection keeps the largest counts: no position left out outranks
/// one kept. With the descending and stability clauses of
/// `top_positions`, the prefix is exactly the `limit` largest counts.
pub proof fn lemma_top_selection_complete(
    counts: Seq<usize>,
    top: Seq<usize>,
    limit: int,
    kept: int,
    out: int,
)
    requires
        is_top_selection(counts, top, limit),
        0 <= limit,
        0 <= kept < top.len(),
        0 <= out < counts.len(),
        forall|i: int| 0 <= i < top.len() ==> (#[trigger] top[i]) != out,
    ensures
        counts[out as int] <= counts[top[kept] as int],
{
    let ord = choose|ord: Seq<usize>|
        #[trigger] is_stable_desc_order(counts, ord) && top == ord.take(
            if limit < counts.len() {
                limit
            } else {
                counts.len() as int
            },
        );
    let k = if limit < counts.len() {
        limit
    } else {
        counts.len() as int
    };
    assert(0 <= k <= ord.len());
    assert(top.len() == k);
    assert(top[kept] == ord[kept]);
    // `out` appears somewhere in the full order, necessarily past the prefix
    assert(exists|j: int| 0 <= j < ord.len() && ord[j] == out) by {
        lemma_order_onto(counts, ord, out);
    }
    let j = choose|j: int| 0 <= j < ord.len() && ord[j] == out;
    assert(ord[j] == out);
    if j < k {
        assert(top[j] == ord[j]);
        assert(false);
    }
    assert(top[kept] == ord[kept]);
    assert(outranks(counts, ord[kept] as int, ord[j] as int));
}

/// A stable descending order reaches every position.
pub proof fn lemma_order_onto(counts: Seq<usize>, ord: Seq<usize>, target: int)
    requires
        is_stable_desc_order(counts, ord),
        0 <= target < counts.len(),
    ensures
        exists|j: int| 0 <= j < ord.len() && ord[j] == target,
{
    // ord is an injection of its positions into 0..counts.len() and has
    // full length, so it is onto: count the distinct values it takes.
    let s = Seq::new(ord.len(), |i: int| ord[i] as int);
    assert forall|i: int, j: int| 0 <= i < j < s.len() implies s[i] != s[j] by {
        assert(outranks(counts, ord[i] as int, ord[j] as int));
    }
    assert forall|i: int| 0 <= i < s.len() implies 0 <= #[trigger] s[i] < counts.len() by {}
    lemma_injective_onto(s, counts.len() as int, target);
    let j = choose|j: int| 0 <= j < s.len() && s[j] == target;
    assert(ord[j] == target);
}

/// A sequence of `n` distinct values drawn from `0..n` takes every value
/// of that range.
proof fn lemma_injective_onto(s: Seq<int>, n: int, target: int)
    requires
        s.len() == n,
        0 <= target < n,
        forall|i: int| 0 <= i < s.len() ==> 0 <= #[trigger] s[i] < n,
        forall|i: int, j: int| 0 <= i < j < s.len() ==> #[trigger] s[i] != #[trigger] s[j],
    ensures
        exists|i: int| 0 <= i < s.len() && #[trigger] s[i] == target,
    decreases n,
{
    let v = s.last();
    if v == target {
        assert(s[n - 1] == target);
    } else {
        // drop the last element and close the gap its value leaves: the
        // rest is a distinct sequence over a range one smaller
        let d = s.drop_last();
        let t = Seq::new(d.len(), |i: int| if d[i] > v { d[i] - 1 } else { d[i] });
        assert forall|i: int| 0 <= i < t.len() implies 0 <= #[trigger] t[i] < n - 1 by {
            assert(d[i] == s[i]);
            assert(s[i] != v);
        }
        assert forall|i: int, j: int| 0 <= i < j < t.len() implies #[trigger] t[i]
            != #[trigger] t[j] by {
            assert(d[i] == s[i] && d[j] == s[j]);
            assert(s[i] != s[j] && s[i] != v && s[j] != v);
        }
        let goal = if target > v {
            target - 1
        } else {
            target
        };
        lemma_injective_onto(t, n - 1, goal);
        let i = choose|i: int| 0 <= i < t.len() && #[trigger] t[i] == goal;
        assert(d[i] == s[i] && s[i] != v);
        assert(s[i] == target);
    }
}

} // verus!
