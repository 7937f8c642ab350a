//! The order in which the path table is walked: by path, and by position in
//! the table among entries of the same path.

use vstd::prelude::*;
use vstd::string::*;
use crate::document::PathEntry;
use crate::text::{compare_names, lemma_name_lt_transitive, lemma_name_order, name_lt, NameOrder};

verus! {

/// Whether entry `i` of the path table is walked before entry `j`.
pub open spec fn walked_before(paths: Seq<PathEntry>, i: int, j: int) -> bool {
    name_lt(paths[i].path@, paths[j].path@) || (paths[i].path@ == paths[j].path@ && i < j)
}

/// The position, from `from` on, of the first entry of `order` that is not
/// walked before entry `k`; the length of `order` if there is none.
pub open spec fn place_from(paths: Seq<PathEntry>, order: Seq<int>, k: int, from: int) -> int
    decreases order.len() - from,
{
    if from >= order.len() {
        order.len() as int
    } else if walked_before(paths, order[from], k) {
        place_from(paths, order, k, from + 1)
    } else {
        from
    }
}

/// The first `n` entries of the path table in the order of the walk.
pub open spec fn walk_order_upto(paths: Seq<PathEntry>, n: int) -> Seq<int>
    decreases n,
{
    if n <= 0 {
        Seq::empty()
    } else {
        let earlier = walk_order_upto(paths, n - 1);
        earlier.insert(place_from(paths, earlier, n - 1, 0), n - 1)
    }
}

/// The entries of the path table in the order of the walk.
pub open spec fn walk_order_of(paths: Seq<PathEntry>) -> Seq<int> {
    walk_order_upto(paths, paths.len() as int)
}

/// The positions that a vector of indices holds.
pub open spec fn indices(order: Seq<usize>) -> Seq<int> {
    Seq::new(order.len(), |k: int| order[k] as int)
}

/// What the place of an entry says: every entry of `order` from `from` up to
/// the place is walked before `k`, and the one at the place, if there is
/// one, is not.
pub proof fn lemma_place_splits(paths: Seq<PathEntry>, order: Seq<int>, k: int, from: int)
    requires
        0 <= from <= order.len(),
    ensures
        from <= place_from(paths, order, k, from) <= order.len(),
        forall|a: int|
            from <= a < place_from(paths, order, k, from) ==> walked_before(
                paths,
                #[trigger] order[a],
                k,
            ),
        place_from(paths, order, k, from) < order.len() ==> !walked_before(
            paths,
            order[place_from(paths, order, k, from)],
            k,
        ),
    decreases order.len() - from,
{
    if from < order.len() && walked_before(paths, order[from], k) {
        lemma_place_splits(paths, order, k, from + 1);
    }
}

/// Of two different entries one is walked before the other, and the
/// relation is transitive.
pub proof fn lemma_walked_before_orders(paths: Seq<PathEntry>, i: int, j: int, k: int)
    ensures
        i != j ==> walked_before(paths, i, j) || walked_before(paths, j, i),
        !(walked_before(paths, i, j) && walked_before(paths, j, i)),
        walked_before(paths, i, j) && walked_before(paths, j, k) ==> walked_before(paths, i, k),
{
    lemma_name_order(paths[i].path@, paths[j].path@);
    lemma_name_order(paths[j].path@, paths[i].path@);
    if name_lt(paths[i].path@, paths[j].path@) && name_lt(paths[j].path@, paths[k].path@) {
        lemma_name_lt_transitive(paths[i].path@, paths[j].path@, paths[k].path@, 0);
    }
}

/// The walk visits every entry of the path table exactly once, and visits
/// them by path: each entry is walked before all that follow it.
pub proof fn lemma_walk_order(paths: Seq<PathEntry>, n: int)
    requires
        0 <= n <= paths.len(),
    ensures
        walk_order_upto(paths, n).len() == n,
        forall|a: int| 0 <= a < n ==> 0 <= #[trigger] walk_order_upto(paths, n)[a] < n,
        forall|i: int| 0 <= i < n ==> walk_order_upto(paths, n).contains(i),
        forall|a: int, b: int|
            0 <= a < b < n ==> walked_before(
                paths,
                #[trigger] walk_order_upto(paths, n)[a],
                #[trigger] walk_order_upto(paths, n)[b],
            ),
    decreases n,
{
    if n > 0 {
        lemma_walk_order(paths, n - 1);
        let earlier = walk_order_upto(paths, n - 1);
        let p = place_from(paths, earlier, n - 1, 0);
        lemma_place_splits(paths, earlier, n - 1, 0);
        let order = walk_order_upto(paths, n);
        assert(order == earlier.insert(p, n - 1));
        earlier.insert_ensures(p, n - 1);
        assert forall|i: int| 0 <= i < n implies order.contains(i) by {
            if i == n - 1 {
                assert(order[p] == i);
            } else {
                assert(earlier.contains(i));
                let a = choose|a: int| 0 <= a < earlier.len() && earlier[a] == i;
                if a < p {
                    assert(order[a] == i);
                } else {
                    assert(order[a + 1] == i);
                }
            }
        }
        assert forall|a: int, b: int| 0 <= a < b < n implies walked_before(
            paths,
            #[trigger] order[a],
            #[trigger] order[b],
        ) by {
            if b == p {
                assert(order[a] == earlier[a]);
            } else if a == p {
                assert(order[b] == earlier[b - 1]);
                lemma_walked_before_orders(paths, earlier[p], n - 1, earlier[b - 1]);
                lemma_walked_before_orders(paths, n - 1, earlier[p], earlier[b - 1]);
            } else {
                let oa = if a < p {
                    a
                } else {
                    a - 1
                };
                let ob = if b < p {
                    b
                } else {
                    b - 1
                };
                assert(order[a] == earlier[oa]);
                assert(order[b] == earlier[ob]);
            }
        }
    }
}

/// Computes the order in which the path table is walked: every entry once,
/// each before all entries that are walked after it.
pub fn walk_order(paths: &Vec<PathEntry>) -> (order: Vec<usize>)
    ensures
        indices(order@) == walk_order_of(paths@),
        order.len() == paths.len(),
        forall|a: int| 0 <= a < order.len() ==> #[trigger] order@[a] < paths.len(),
        forall|i: int| 0 <= i < paths.len() ==> indices(order@).contains(i),
        forall|a: int, b: int|
            0 <= a < b < order.len() ==> walked_before(
                paths@,
                #[trigger] indices(order@)[a],
                #[trigger] indices(order@)[b],
            ),
{
    let mut order: Vec<usize> = Vec::new();
    let mut n: usize = 0;
    assert(indices(order@) =~= walk_order_upto(paths@, 0));
    while n < paths.len()
        invariant
            n <= paths.len(),
            order.len() == n,
            indices(order@) == walk_order_upto(paths@, n as int),
            forall|a: int| 0 <= a < order.len() ==> #[trigger] order@[a] < n,
        decreases paths.len() - n,
    {
        let ghost earlier = indices(order@);
        let mut p: usize = 0;
        let mut placed = false;
        while !placed && p < order.len()
            invariant
                p <= order.len(),
                order.len() == n,
                n < paths.len(),
                earlier == indices(order@),
                forall|a: int| 0 <= a < order.len() ==> #[trigger] order@[a] < n,
                place_from(paths@, earlier, n as int, 0) == place_from(
                    paths@,
                    earlier,
                    n as int,
                    p as int,
                ),
                placed ==> p < order.len() && !walked_before(paths@, earlier[p as int], n as int),
            decreases order.len() - p + if placed { 0int } else { 1int },
        {
            let at = order[p];
            assert(earlier[p as int] == at);
            proof {
                lemma_name_order(paths@[at as int].path@, paths@[n as int].path@);
                lemma_name_order(paths@[n as int].path@, paths@[at as int].path@);
            }
            match compare_names(paths[at].path.as_str(), paths[n].path.as_str()) {
                NameOrder::After => {
                    placed = true;
                },
                _ => {
                    p = p + 1;
                },
            }
        }
        order.insert(p, n);
        assert(indices(order@) =~= earlier.insert(p as int, n as int));
        n = n + 1;
    }
    proof {
        lemma_walk_order(paths@, paths@.len() as int);
    }
    order
}

} // verus!
