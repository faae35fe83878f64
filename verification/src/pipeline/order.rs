//! Topological order of a directed graph.
//!
//! The nodes are the numbers below `n`, an edge is a pair of them, source
//! first. A topological order lists every node once, each source before its
//! destinations. It exists exactly when the edges form no cycle.

use vstd::prelude::*;

verus! {

/// Every edge joins two nodes of the graph.
pub open spec fn edges_in_range(n: nat, edges: Seq<(usize, usize)>) -> bool {
    forall|e: int| 0 <= e < edges.len() ==> (#[trigger] edges[e]).0 < n && edges[e].1 < n
}

/// The node is somewhere in the list.
pub open spec fn occurs(order: Seq<usize>, node: usize) -> bool {
    exists|i: int| 0 <= i < order.len() && order[i] == node
}

/// The list holds every node exactly once, and the source of every edge
/// before its destination.
pub open spec fn is_topological_order(
    order: Seq<usize>,
    n: nat,
    edges: Seq<(usize, usize)>,
) -> bool {
    &&& forall|i: int| 0 <= i < order.len() ==> (#[trigger] order[i]) < n
    &&& forall|i: int, j: int| 0 <= i < j < order.len() ==> order[i] != order[j]
    &&& forall|node: usize| node < n ==> #[trigger] occurs(order, node)
    &&& forall|e: int, i: int, j: int|
        0 <= e < edges.len() && 0 <= i < order.len() && 0 <= j < order.len() && (
        #[trigger] order[i]) == (#[trigger] edges[e]).0 && (#[trigger] order[j]) == edges[e].1
            ==> i < j
}

/// Some list of the nodes is a topological order.
pub open spec fn admits_topological_order(n: nat, edges: Seq<(usize, usize)>) -> bool {
    exists|order: Seq<usize>| is_topological_order(order, n, edges)
}

/// `rank` gives for every node its place in `order`.
pub open spec fn is_rank_of(rank: Seq<usize>, order: Seq<usize>) -> bool {
    &&& rank.len() == order.len()
    &&& forall|i: int|
        0 <= i < order.len() ==> (#[trigger] order[i]) < rank.len() && rank[order[i] as int] == i
}

/// An edge leads from the node at the place `at` of the list to the next one.
pub open spec fn is_step(walk: Seq<usize>, edges: Seq<(usize, usize)>, at: int) -> bool {
    edges.contains((walk[at], walk[at + 1]))
}

/// A walk: each node of the list has an edge to the next one.
pub open spec fn is_walk(walk: Seq<usize>, n: nat, edges: Seq<(usize, usize)>) -> bool {
    &&& forall|k: int| 0 <= k < walk.len() ==> (#[trigger] walk[k]) < n
    &&& forall|k: int| 0 <= k < walk.len() - 1 ==> #[trigger] is_step(walk, edges, k)
}

/// A cycle: a walk of at least one edge that ends where it began.
pub open spec fn is_cycle(walk: Seq<usize>, n: nat, edges: Seq<(usize, usize)>) -> bool {
    &&& walk.len() >= 2
    &&& is_walk(walk, n, edges)
    &&& walk.first() == walk.last()
}

/// Along a walk the places in a topological order go up.
proof fn lemma_walk_goes_up(
    walk: Seq<usize>,
    n: nat,
    edges: Seq<(usize, usize)>,
    order: Seq<usize>,
    first: int,
    last: int,
)
    requires
        is_walk(walk, n, edges),
        is_topological_order(order, n, edges),
        walk.len() >= 2,
        0 <= first < order.len(),
        0 <= last < order.len(),
        order[first] == walk.first(),
        order[last] == walk.last(),
    ensures
        first < last,
    decreases walk.len(),
{
    let m = walk.len() - 1;
    let before = walk[m - 1];
    assert(is_step(walk, edges, m - 1));
    let e = choose|e: int| 0 <= e < edges.len() && edges[e] == (before, walk[m]);
    assert(edges[e].0 == before);
    assert(occurs(order, before));
    let mid = choose|i: int| 0 <= i < order.len() && order[i] == before;
    assert(mid < last);
    if walk.len() > 2 {
        let shorter = walk.drop_last();
        assert(is_walk(shorter, n, edges)) by {
            assert forall|k: int| 0 <= k < shorter.len() - 1 implies #[trigger] is_step(
                shorter,
                edges,
                k,
            ) by {
                assert(is_step(walk, edges, k));
            }
        }
        lemma_walk_goes_up(shorter, n, edges, order, first, mid);
    } else {
        assert(walk[0] == before);
        if first != mid {
            if first < mid {
                assert(order[first] != order[mid]);
            } else {
                assert(order[mid] != order[first]);
            }
        }
    }
}

/// A graph with a cycle has no topological order.
pub proof fn lemma_cycle_has_no_order(walk: Seq<usize>, n: nat, edges: Seq<(usize, usize)>)
    requires
        is_cycle(walk, n, edges),
    ensures
        !admits_topological_order(n, edges),
{
    if admits_topological_order(n, edges) {
        let order = choose|order: Seq<usize>| is_topological_order(order, n, edges);
        assert(occurs(order, walk.first()));
        let at = choose|i: int| 0 <= i < order.len() && order[i] == walk.first();
        lemma_walk_goes_up(walk, n, edges, order, at, at);
    }
}

/// Some walk through the graph is a cycle.
pub open spec fn has_cycle(n: nat, edges: Seq<(usize, usize)>) -> bool {
    exists|walk: Seq<usize>| is_cycle(walk, n, edges)
}

/// The numbers below `n`.
spec fn below(n: nat) -> Set<usize> {
    Set::new(|v: usize| (v as nat) < n)
}

proof fn lemma_below_is_small(n: nat)
    ensures
        below(n).finite(),
        below(n).len() <= n,
    decreases n,
{
    if n == 0 {
        assert(below(n) =~= Set::<usize>::empty());
    } else {
        lemma_below_is_small((n - 1) as nat);
        if n - 1 <= usize::MAX {
            assert(below(n) =~= below((n - 1) as nat).insert((n - 1) as usize));
        } else {
            assert(below(n) =~= below((n - 1) as nat));
        }
    }
}

/// A list of distinct numbers below `n` is not longer than `n`.
proof fn lemma_distinct_is_short(list: Seq<usize>, n: nat)
    requires
        forall|i: int| 0 <= i < list.len() ==> (#[trigger] list[i]) < n,
        forall|i: int, j: int| 0 <= i < j < list.len() ==> list[i] != list[j],
    ensures
        list.len() <= n,
{
    assert(list.no_duplicates()) by {
        assert forall|i: int, j: int|
            0 <= i < list.len() && 0 <= j < list.len() && i != j implies list[i] != list[j] by {
            if i < j {
                assert(list[i] != list[j]);
            } else {
                assert(list[j] != list[i]);
            }
        }
    }
    list.unique_seq_to_set();
    lemma_below_is_small(n);
    assert(list.to_set().subset_of(below(n))) by {
        assert forall|v: usize| list.to_set().contains(v) implies below(n).contains(v) by {
            let i = choose|i: int| 0 <= i < list.len() && list[i] == v;
            assert(list[i] < n);
        }
    }
    vstd::set_lib::lemma_len_subset(list.to_set(), below(n));
}

/// Where every node that is left waits for another one that is left, a walk
/// of any length ends at any node that is left, and passes only through
/// nodes that are left.
proof fn lemma_walk_back(
    n: nat,
    edges: Seq<(usize, usize)>,
    placed: Seq<bool>,
    end: usize,
    length: nat,
) -> (walk: Seq<usize>)
    requires
        placed.len() == n,
        edges_in_range(n, edges),
        forall|node: usize|
            node < n && !placed[node as int] ==> #[trigger] waits(
                edges,
                placed,
                node,
                edges.len() as int,
            ),
        end < n,
        !placed[end as int],
        length >= 1,
    ensures
        walk.len() == length,
        is_walk(walk, n, edges),
        walk.last() == end,
    decreases length,
{
    if length == 1 {
        seq![end]
    } else {
        assert(waits(edges, placed, end, edges.len() as int));
        let k = choose|k: int|
            0 <= k < edges.len() && (#[trigger] edges[k]).1 == end && !placed[edges[k].0 as int];
        let source = edges[k].0;
        let before = lemma_walk_back(n, edges, placed, source, (length - 1) as nat);
        let walk = before.push(end);
        assert(is_walk(walk, n, edges)) by {
            assert forall|i: int| 0 <= i < walk.len() - 1 implies #[trigger] is_step(
                walk,
                edges,
                i,
            ) by {
                if i < before.len() - 1 {
                    assert(is_step(before, edges, i));
                } else {
                    assert(edges[k] == (source, end));
                }
            }
        }
        walk
    }
}

/// In a list of more than `n` numbers below `n`, some number comes twice.
proof fn lemma_some_number_repeats(list: Seq<usize>, n: nat) -> (at: (int, int))
    requires
        list.len() > n,
        forall|i: int| 0 <= i < list.len() ==> (#[trigger] list[i]) < n,
    ensures
        0 <= at.0 < at.1 < list.len(),
        list[at.0] == list[at.1],
{
    if forall|i: int, j: int| 0 <= i < j < list.len() ==> list[i] != list[j] {
        lemma_distinct_is_short(list, n);
    }
    let (i, j) = choose|i: int, j: int| 0 <= i < j < list.len() && list[i] == list[j];
    (i, j)
}

/// The part of a walk between two visits of the same node is a cycle.
proof fn lemma_walk_holds_cycle(
    walk: Seq<usize>,
    n: nat,
    edges: Seq<(usize, usize)>,
    i: int,
    j: int,
)
    requires
        is_walk(walk, n, edges),
        0 <= i < j < walk.len(),
        walk[i] == walk[j],
    ensures
        is_cycle(walk.subrange(i, j + 1), n, edges),
{
    let cycle = walk.subrange(i, j + 1);
    assert forall|k: int| 0 <= k < cycle.len() implies (#[trigger] cycle[k]) < n by {
        assert(cycle[k] == walk[i + k]);
    }
    assert forall|k: int| 0 <= k < cycle.len() - 1 implies #[trigger] is_step(cycle, edges, k) by {
        assert(cycle[k] == walk[i + k]);
        assert(cycle[k + 1] == walk[i + k + 1]);
        assert(is_step(walk, edges, i + k));
    }
    assert(cycle.first() == walk[i]);
    assert(cycle.last() == walk[j]);
}

/// Where every node that is left waits for another one that is left, and
/// some node is left, the graph has a cycle.
proof fn lemma_waiting_nodes_form_cycle(
    n: nat,
    edges: Seq<(usize, usize)>,
    placed: Seq<bool>,
    left: usize,
)
    requires
        placed.len() == n,
        edges_in_range(n, edges),
        forall|node: usize|
            node < n && !placed[node as int] ==> #[trigger] waits(
                edges,
                placed,
                node,
                edges.len() as int,
            ),
        left < n,
        !placed[left as int],
    ensures
        has_cycle(n, edges),
{
    let walk = lemma_walk_back(n, edges, placed, left, n + 1);
    let at = lemma_some_number_repeats(walk, n);
    lemma_walk_holds_cycle(walk, n, edges, at.0, at.1);
}

/// The start of a topological order: distinct nodes, and before each of
/// them the sources of all connections that lead to it.
spec fn is_start_of_order(order: Seq<usize>, n: nat, edges: Seq<(usize, usize)>) -> bool {
    &&& forall|i: int| 0 <= i < order.len() ==> (#[trigger] order[i]) < n
    &&& forall|i: int, j: int| 0 <= i < j < order.len() ==> order[i] != order[j]
    &&& forall|e: int, j: int|
        0 <= e < edges.len() && 0 <= j < order.len() && (#[trigger] order[j]) == (
        #[trigger] edges[e]).1 ==> exists|i: int| 0 <= i < j && order[i] == edges[e].0
}

/// In a graph without a cycle, the start of a topological order can be
/// carried on to the end.
proof fn lemma_order_goes_on(n: nat, edges: Seq<(usize, usize)>, order: Seq<usize>)
    requires
        edges_in_range(n, edges),
        !has_cycle(n, edges),
        is_start_of_order(order, n, edges),
    ensures
        admits_topological_order(n, edges),
    decreases n - order.len(),
{
    lemma_distinct_is_short(order, n);
    let placed = Seq::new(n, |v: int| occurs(order, v as usize));
    if exists|node: usize| node < n && !occurs(order, node) {
        let left = choose|node: usize| node < n && !occurs(order, node);
        if exists|node: usize|
            node < n && !occurs(order, node) && !waits(edges, placed, node, edges.len() as int) {
            let node = choose|node: usize|
                node < n && !occurs(order, node) && !waits(
                    edges,
                    placed,
                    node,
                    edges.len() as int,
                );
            let longer = order.push(node);
            assert(is_start_of_order(longer, n, edges)) by {
                assert forall|i: int, j: int| 0 <= i < j < longer.len() implies longer[i]
                    != longer[j] by {
                    if j == order.len() {
                        if longer[i] == node {
                            assert(order[i] == node);
                            assert(occurs(order, node));
                        }
                    } else {
                        assert(order[i] != order[j]);
                    }
                }
                assert forall|e: int, j: int|
                    0 <= e < edges.len() && 0 <= j < longer.len() && (#[trigger] longer[j]) == (
                    #[trigger] edges[e]).1 implies exists|i: int|
                    0 <= i < j && longer[i] == edges[e].0 by {
                    if j == order.len() {
                        let source = edges[e].0;
                        if !occurs(order, source) {
                            assert(!placed[source as int]);
                            assert(edges[e].1 == node && !placed[edges[e].0 as int]);
                            assert(waits(edges, placed, node, edges.len() as int));
                        }
                        let i = choose|i: int| 0 <= i < order.len() && order[i] == source;
                        assert(longer[i] == edges[e].0);
                    } else {
                        assert(order[j] == edges[e].1);
                        let i = choose|i: int| 0 <= i < j && order[i] == edges[e].0;
                        assert(longer[i] == edges[e].0);
                    }
                }
            }
            lemma_distinct_is_short(longer, n);
            lemma_order_goes_on(n, edges, longer);
        } else {
            assert forall|node: usize| node < n && !placed[node as int] implies #[trigger] waits(
                edges,
                placed,
                node,
                edges.len() as int,
            ) by {
                assert(!occurs(order, node));
            }
            lemma_waiting_nodes_form_cycle(n, edges, placed, left);
        }
    } else {
        assert(is_topological_order(order, n, edges)) by {
            assert forall|e: int, i: int, j: int|
                0 <= e < edges.len() && 0 <= i < order.len() && 0 <= j < order.len() && (
                #[trigger] order[i]) == (#[trigger] edges[e]).0 && (#[trigger] order[j])
                    == edges[e].1 implies i < j by {
                let at = choose|at: int| 0 <= at < j && order[at] == edges[e].0;
                if at < i {
                    assert(order[at] != order[i]);
                } else if i < at {
                    assert(order[i] != order[at]);
                }
            }
        }
    }
}

/// A graph has a topological order exactly when it has no cycle.
pub proof fn lemma_order_or_cycle(n: nat, edges: Seq<(usize, usize)>)
    requires
        edges_in_range(n, edges),
    ensures
        admits_topological_order(n, edges) <==> !has_cycle(n, edges),
{
    if has_cycle(n, edges) {
        let walk = choose|walk: Seq<usize>| is_cycle(walk, n, edges);
        lemma_cycle_has_no_order(walk, n, edges);
    } else {
        lemma_order_goes_on(n, edges, Seq::empty());
    }
}

/// Number of entries that are `false`.
pub open spec fn count_false(flags: Seq<bool>) -> nat
    decreases flags.len(),
{
    if flags.len() == 0 {
        0
    } else {
        count_false(flags.drop_last()) + if flags.last() {
            0nat
        } else {
            1nat
        }
    }
}

proof fn lemma_count_after_set(flags: Seq<bool>, at: int)
    requires
        0 <= at < flags.len(),
        !flags[at],
    ensures
        count_false(flags.update(at, true)) + 1 == count_false(flags),
    decreases flags.len(),
{
    if at == flags.len() - 1 {
        assert(flags.update(at, true).drop_last() =~= flags.drop_last());
    } else {
        lemma_count_after_set(flags.drop_last(), at);
        assert(flags.update(at, true).drop_last() =~= flags.drop_last().update(at, true));
    }
}

proof fn lemma_count_bounds(flags: Seq<bool>)
    ensures
        count_false(flags) <= flags.len(),
        (forall|i: int| 0 <= i < flags.len() ==> !flags[i]) ==> count_false(flags) == flags.len(),
        (forall|i: int| 0 <= i < flags.len() ==> flags[i]) ==> count_false(flags) == 0,
    decreases flags.len(),
{
    if flags.len() > 0 {
        lemma_count_bounds(flags.drop_last());
        assert(forall|i: int|
            0 <= i < flags.drop_last().len() ==> flags.drop_last()[i] == flags[i]);
    }
}

/// Some edge leads to `node` from a node that is not placed, among the first
/// `upto` edges.
pub open spec fn waits(edges: Seq<(usize, usize)>, placed: Seq<bool>, node: usize, upto: int) -> bool {
    exists|k: int|
        0 <= k < upto && k < edges.len() && (#[trigger] edges[k]).1 == node && !placed[edges[k].0 as int]
}

/// Where every node that is left waits for another one that is left, the
/// nodes that were placed are the start of every topological order, and no
/// order can go on from there.
proof fn lemma_leading_nodes_are_placed(
    n: nat,
    edges: Seq<(usize, usize)>,
    placed: Seq<bool>,
    order: Seq<usize>,
    upto: int,
)
    requires
        placed.len() == n,
        edges_in_range(n, edges),
        forall|node: usize|
            node < n && !placed[node as int] ==> #[trigger] waits(
                edges,
                placed,
                node,
                edges.len() as int,
            ),
        is_topological_order(order, n, edges),
        0 <= upto <= order.len(),
    ensures
        forall|i: int| 0 <= i < upto ==> placed[(#[trigger] order[i]) as int],
    decreases upto,
{
    if upto > 0 {
        lemma_leading_nodes_are_placed(n, edges, placed, order, upto - 1);
        let node = order[upto - 1];
        if !placed[node as int] {
            assert(waits(edges, placed, node, edges.len() as int));
            let k = choose|k: int|
                0 <= k < edges.len() && (#[trigger] edges[k]).1 == node && !placed[edges[k].0 as int];
            let source = edges[k].0;
            assert(occurs(order, source));
            let at = choose|i: int| 0 <= i < order.len() && order[i] == source;
            assert(at < upto - 1);
            assert(placed[order[at] as int]);
        }
    }
}

fn filled_flags(n: usize) -> (flags: Vec<bool>)
    ensures
        flags@.len() == n,
        forall|i: int| 0 <= i < n ==> !flags@[i],
{
    let mut flags: Vec<bool> = Vec::new();
    while flags.len() < n
        invariant
            flags@.len() <= n,
            forall|i: int| 0 <= i < flags@.len() ==> !flags@[i],
        decreases n - flags@.len(),
    {
        flags.push(false);
    }
    flags
}

fn filled_ranks(n: usize) -> (ranks: Vec<usize>)
    ensures
        ranks@.len() == n,
{
    let mut ranks: Vec<usize> = Vec::new();
    while ranks.len() < n
        invariant
            ranks@.len() <= n,
        decreases n - ranks@.len(),
    {
        ranks.push(0);
    }
    ranks
}

/// What holds of the nodes placed so far.
spec fn partial_order(
    n: nat,
    edges: Seq<(usize, usize)>,
    placed: Seq<bool>,
    rank: Seq<usize>,
    order: Seq<usize>,
) -> bool {
    &&& placed.len() == n
    &&& rank.len() == n
    &&& order.len() + count_false(placed) == n
    &&& forall|i: int|
        0 <= i < order.len() ==> (#[trigger] order[i]) < n && placed[order[i] as int]
            && rank[order[i] as int] == i
    &&& forall|node: int|
        0 <= node < n && #[trigger] placed[node] ==> rank[node] < order.len()
            && order[rank[node] as int] == node
    &&& forall|e: int|
        0 <= e < edges.len() && placed[(#[trigger] edges[e]).1 as int] ==> placed[edges[e].0 as int]
            && rank[edges[e].0 as int] < rank[edges[e].1 as int]
}

/// Once every node is placed, the order is complete.
proof fn lemma_complete(
    n: nat,
    edges: Seq<(usize, usize)>,
    placed: Seq<bool>,
    rank: Seq<usize>,
    order: Seq<usize>,
)
    requires
        edges_in_range(n, edges),
        partial_order(n, edges, placed, rank, order),
        forall|node: int| 0 <= node < n ==> placed[node],
    ensures
        is_topological_order(order, n, edges),
        order.len() == n,
        is_rank_of(rank, order),
{
    lemma_count_bounds(placed);
    assert forall|i: int, j: int| 0 <= i < j < order.len() implies order[i] != order[j] by {
        assert(rank[order[i] as int] == i);
        assert(rank[order[j] as int] == j);
    }
    assert forall|node: usize| node < n implies #[trigger] occurs(order, node) by {
        assert(placed[node as int]);
        assert(order[rank[node as int] as int] == node);
    }
    assert forall|e: int, i: int, j: int|
        0 <= e < edges.len() && 0 <= i < order.len() && 0 <= j < order.len() && (
        #[trigger] order[i]) == (#[trigger] edges[e]).0 && (#[trigger] order[j])
            == edges[e].1 implies i < j by {
        assert(rank[order[i] as int] == i);
        assert(rank[order[j] as int] == j);
        assert(placed[edges[e].1 as int]);
    }
}

/// Puts the nodes of a graph in topological order, or finds that there is
/// none because the edges form a cycle. With the order comes the place of
/// every node in it.
///
/// The nodes are placed in rounds. A round places, in the order of their
/// numbers, the nodes that do not wait for a node that was still left when
/// the round began. When a round places nothing, what is left is held up by
/// a cycle.
pub fn topological_order(n: usize, edges: &Vec<(usize, usize)>) -> (r: Option<
    (Vec<usize>, Vec<usize>),
>)
    requires
        edges_in_range(n as nat, edges@),
    ensures
        match r {
            Some((order, rank)) => {
                &&& is_topological_order(order@, n as nat, edges@)
                &&& order@.len() == n
                &&& is_rank_of(rank@, order@)
            },
            None => !admits_topological_order(n as nat, edges@),
        },
{
    let mut placed = filled_flags(n);
    let mut rank = filled_ranks(n);
    let mut order: Vec<usize> = Vec::new();
    let mut progress = true;
    proof {
        lemma_count_bounds(placed@);
    }
    while progress
        invariant
            edges_in_range(n as nat, edges@),
            partial_order(n as nat, edges@, placed@, rank@, order@),
            !progress ==> forall|node: usize|
                node < n && !placed@[node as int] ==> #[trigger] waits(
                    edges@,
                    placed@,
                    node,
                    edges@.len() as int,
                ),
        decreases
                count_false(placed@) + if progress {
                    1nat
                } else {
                    0nat
                },
    {
        let mut blocked = filled_flags(n);
        let mut e: usize = 0;
        while e < edges.len()
            invariant
                e <= edges@.len(),
                edges_in_range(n as nat, edges@),
                placed@.len() == n,
                blocked@.len() == n,
                forall|node: usize|
                    node < n ==> (blocked@[node as int] <==> #[trigger] waits(
                        edges@,
                        placed@,
                        node,
                        e as int,
                    )),
            decreases edges@.len() - e,
        {
            let source = edges[e].0;
            let target = edges[e].1;
            let ghost before = blocked@;
            if !placed[source] {
                blocked.set(target, true);
            }
            proof {
                assert forall|node: usize| node < n implies (blocked@[node as int] <==> #[trigger] waits(
                    edges@,
                    placed@,
                    node,
                    e + 1,
                )) by {
                    assert(before[node as int] <==> waits(edges@, placed@, node, e as int));
                    if waits(edges@, placed@, node, e + 1) {
                        let k = choose|k: int|
                            0 <= k < e + 1 && k < edges@.len() && (#[trigger] edges@[k]).1 == node
                                && !placed@[edges@[k].0 as int];
                        if k < e {
                            assert(waits(edges@, placed@, node, e as int));
                        }
                    }
                    if waits(edges@, placed@, node, e as int) {
                        let k = choose|k: int|
                            0 <= k < e && k < edges@.len() && (#[trigger] edges@[k]).1 == node
                                && !placed@[edges@[k].0 as int];
                        assert(0 <= k < e + 1 && edges@[k].1 == node);
                    }
                    if node == target && !placed@[source as int] {
                        assert(edges@[e as int].1 == node);
                    }
                }
            }
            e = e + 1;
        }
        let ghost start = placed@;
        let before = order.len();
        let mut node: usize = 0;
        while node < n
            invariant
                node <= n,
                edges_in_range(n as nat, edges@),
                partial_order(n as nat, edges@, placed@, rank@, order@),
                start.len() == n,
                blocked@.len() == n,
                order@.len() >= before,
                order@.len() == before ==> placed@ == start,
                count_false(placed@) + (order@.len() - before) == count_false(start),
                forall|other: int| 0 <= other < n && start[other] ==> placed@[other],
                forall|other: int| node <= other < n ==> placed@[other] == start[other],
                forall|other: usize|
                    other < n ==> (blocked@[other as int] <==> #[trigger] waits(
                        edges@,
                        start,
                        other,
                        edges@.len() as int,
                    )),
                forall|other: usize| other < node && !placed@[other as int] ==> blocked@[other as int],
            decreases n - node,
        {
            if !placed[node] && !blocked[node] {
                let ghost old_placed = placed@;
                let ghost old_rank = rank@;
                let ghost old_order = order@;
                proof {
                    lemma_count_after_set(placed@, node as int);
                    lemma_count_bounds(placed@);
                }
                rank.set(node, order.len());
                order.push(node);
                placed.set(node, true);
                proof {
                    assert(!waits(edges@, start, node, edges@.len() as int));
                    assert forall|e: int|
                        0 <= e < edges@.len() && placed@[(#[trigger] edges@[e]).1 as int] implies placed@[edges@[e].0 as int]
                        && rank@[edges@[e].0 as int] < rank@[edges@[e].1 as int] by {
                        let source = edges@[e].0;
                        let target = edges@[e].1;
                        if target == node {
                            // The node did not wait: its source was placed
                            // when the round began, so it is not the node.
                            if !start[source as int] {
                                assert(waits(edges@, start, node, edges@.len() as int));
                            }
                            assert(old_placed[source as int]);
                            assert(source != node);
                            assert(old_rank[source as int] < old_order.len());
                        } else {
                            assert(old_placed[target as int]);
                            assert(old_placed[source as int]);
                            assert(source != node);
                        }
                    }
                    assert forall|i: int| 0 <= i < order@.len() implies (#[trigger] order@[i]) < n
                        && placed@[order@[i] as int] && rank@[order@[i] as int] == i by {
                        if i < old_order.len() {
                            assert(old_order[i] == order@[i]);
                            assert(old_placed[old_order[i] as int]);
                        }
                    }
                    assert forall|other: int|
                        0 <= other < n && #[trigger] placed@[other] implies rank@[other]
                        < order@.len() && order@[rank@[other] as int] == other by {
                        if other != node {
                            assert(old_placed[other]);
                        }
                    }
                }
            }
            node = node + 1;
        }
        progress = order.len() > before;
        proof {
            if !progress {
                assert forall|other: usize|
                    other < n && !placed@[other as int] implies #[trigger] waits(
                    edges@,
                    placed@,
                    other,
                    edges@.len() as int,
                ) by {
                    assert(blocked@[other as int]);
                }
            }
        }
    }
    let mut node: usize = 0;
    while node < n
        invariant
            node <= n,
            placed@.len() == n,
            edges_in_range(n as nat, edges@),
            forall|other: usize|
                other < n && !placed@[other as int] ==> #[trigger] waits(
                    edges@,
                    placed@,
                    other,
                    edges@.len() as int,
                ),
            forall|other: int| 0 <= other < node ==> placed@[other],
        decreases n - node,
    {
        if !placed[node] {
            proof {
                if admits_topological_order(n as nat, edges@) {
                    let any = choose|any: Seq<usize>| is_topological_order(any, n as nat, edges@);
                    lemma_leading_nodes_are_placed(
                        n as nat,
                        edges@,
                        placed@,
                        any,
                        any.len() as int,
                    );
                    assert(occurs(any, node));
                    let at = choose|i: int| 0 <= i < any.len() && any[i] == node;
                    assert(placed@[any[at] as int]);
                }
            }
            return None;
        }
        node = node + 1;
    }
    proof {
        lemma_complete(n as nat, edges@, placed@, rank@, order@);
    }
    Some((order, rank))
}

} // verus!
