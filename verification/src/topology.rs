//! Ordering the nodes of a graph so that each comes after what it
//! depends on.

use vstd::prelude::*;

verus! {

/// Whether every edge of a graph leads to one of its nodes. A graph is a
/// list of nodes, each with the list of the nodes it depends on.
pub open spec fn edges_in_range(graph: Seq<Vec<usize>>) -> bool {
    forall|i: int, k: int|
        0 <= i < graph.len() && 0 <= k < graph[i].len() ==> (#[trigger] graph[i][k]) < graph.len()
}

/// Whether `rank` gives every node a larger number than each node it
/// depends on.
pub open spec fn ranked(graph: Seq<Vec<usize>>, rank: Seq<nat>) -> bool {
    &&& rank.len() == graph.len()
    &&& forall|i: int, k: int|
        0 <= i < graph.len() && 0 <= k < graph[i].len() ==> rank[(#[trigger] graph[i][k]) as int]
            < rank[i]
}

/// Whether no node depends on itself, directly or through others.
pub open spec fn acyclic(graph: Seq<Vec<usize>>) -> bool {
    exists|rank: Seq<nat>| ranked(graph, rank)
}

/// Whether `order` lists every node once, each after the nodes it depends
/// on, and `position` says where in `order` each node stands.
pub open spec fn is_order(graph: Seq<Vec<usize>>, order: Seq<usize>, position: Seq<usize>) -> bool {
    &&& order.len() == graph.len()
    &&& position.len() == graph.len()
    &&& forall|p: int|
        0 <= p < order.len() ==> (#[trigger] order[p]) < graph.len() && position[order[p] as int]
            == p
    &&& forall|i: int|
        0 <= i < graph.len() ==> (#[trigger] position[i]) < graph.len() && order[position[i] as int]
            == i
    &&& forall|i: int, k: int|
        0 <= i < graph.len() && 0 <= k < graph[i].len() ==> position[(
        #[trigger] graph[i][k]) as int] < position[i]
}

/// How many of the first `n` marks are set.
pub open spec fn count_set(marks: Seq<bool>, n: int) -> int
    decreases n,
{
    if n <= 0 {
        0
    } else {
        count_set(marks, n - 1) + if marks[n - 1] {
            1int
        } else {
            0int
        }
    }
}

proof fn lemma_count_set_one_more(marks: Seq<bool>, i: int, n: int)
    requires
        0 <= i < marks.len(),
        0 <= n <= marks.len(),
        !marks[i],
    ensures
        count_set(marks.update(i, true), n) == count_set(marks, n) + if i < n {
            1int
        } else {
            0int
        },
    decreases n,
{
    if n > 0 {
        lemma_count_set_one_more(marks, i, n - 1);
    }
}

proof fn lemma_count_set_bounds(marks: Seq<bool>, n: int)
    requires
        0 <= n <= marks.len(),
    ensures
        0 <= count_set(marks, n) <= n,
        count_set(marks, n) == n ==> forall|i: int| 0 <= i < n ==> marks[i],
        count_set(marks, n) < n ==> exists|i: int| 0 <= i < n && !marks[i],
    decreases n,
{
    if n > 0 {
        lemma_count_set_bounds(marks, n - 1);
        if count_set(marks, n) < n {
            if !marks[n - 1] {
            } else {
                let i = choose|i: int| 0 <= i < n - 1 && !marks[i];
                assert(0 <= i < n && !marks[i]);
            }
        }
    }
}

/// Where every node that is not placed depends on one that is not placed
/// either, a graph with such a node cannot be ranked.
proof fn lemma_stuck_is_cyclic(graph: Seq<Vec<usize>>, placed: Seq<bool>, rank: Seq<nat>, u: int)
    requires
        edges_in_range(graph),
        placed.len() == graph.len(),
        rank.len() == graph.len(),
        0 <= u < graph.len(),
        !placed[u],
        forall|j: int|
            0 <= j < graph.len() && !placed[j] ==> exists|k: int|
                0 <= k < graph[j].len() && !placed[(#[trigger] graph[j][k]) as int],
    ensures
        !ranked(graph, rank),
    decreases rank[u],
{
    if ranked(graph, rank) {
        let k = choose|k: int| 0 <= k < graph[u].len() && !placed[(#[trigger] graph[u][k]) as int];
        let c = graph[u][k] as int;
        assert(rank[c] < rank[u]);
        lemma_stuck_is_cyclic(graph, placed, rank, c);
    }
}

fn all_placed(graph: &Vec<Vec<usize>>, placed: &Vec<bool>, i: usize) -> (res: bool)
    requires
        edges_in_range(graph@),
        placed.len() == graph.len(),
        i < graph.len(),
    ensures
        res == forall|k: int| 0 <= k < graph[i as int].len() ==> placed[(
        #[trigger] graph[i as int][k]) as int],
{
    let mut k: usize = 0;
    while k < graph[i].len()
        invariant
            k <= graph[i as int].len(),
            edges_in_range(graph@),
            placed.len() == graph.len(),
            i < graph.len(),
            forall|j: int| 0 <= j < k ==> placed[(#[trigger] graph[i as int][j]) as int],
        decreases graph[i as int].len() - k,
    {
        if !placed[graph[i][k]] {
            return false;
        }
        k += 1;
    }
    true
}

/// An order of the nodes of `graph` in which each comes after the nodes
/// it depends on, with the position of each node in it; `None` if and
/// only if a node depends on itself.
pub fn topological_order(graph: &Vec<Vec<usize>>) -> (res: Option<(Vec<usize>, Vec<usize>)>)
    requires
        edges_in_range(graph@),
    ensures
        res is Some == acyclic(graph@),
        res matches Some((order, position)) ==> is_order(graph@, order@, position@),
{
    let n = graph.len();
    let mut placed: Vec<bool> = Vec::new();
    let mut position: Vec<usize> = Vec::new();
    let mut i: usize = 0;
    while i < n
        invariant
            i <= n,
            placed.len() == i,
            position.len() == i,
            forall|j: int| 0 <= j < i ==> !placed[j],
            count_set(placed@, i as int) == 0,
        decreases n - i,
    {
        let ghost shorter = placed@;
        placed.push(false);
        position.push(0);
        proof {
            lemma_count_set_prefix(shorter, placed@, i as int);
        }
        i += 1;
    }
    let mut order: Vec<usize> = Vec::new();
    while order.len() < n
        invariant
            n == graph.len(),
            edges_in_range(graph@),
            placed.len() == n,
            position.len() == n,
            order.len() <= n,
            order.len() == count_set(placed@, n as int),
            forall|p: int|
                0 <= p < order.len() ==> (#[trigger] order[p]) < n && placed[order[p] as int]
                    && position[order[p] as int] == p,
            forall|j: int|
                0 <= j < n && placed[j] ==> (#[trigger] position[j]) < order.len()
                    && order[position[j] as int] == j,
            forall|j: int, k: int|
                0 <= j < n && placed[j] && 0 <= k < graph[j].len() ==> placed[(
                #[trigger] graph[j][k]) as int] && position[graph[j][k] as int] < position[j],
        decreases n - order.len(),
    {
        let before = order.len();
        let mut i: usize = 0;
        while i < n
            invariant
                i <= n,
                n == graph.len(),
                edges_in_range(graph@),
                placed.len() == n,
                position.len() == n,
                before <= order.len() <= n,
                order.len() == count_set(placed@, n as int),
                forall|p: int|
                    0 <= p < order.len() ==> (#[trigger] order[p]) < n && placed[order[p] as int]
                        && position[order[p] as int] == p,
                forall|j: int|
                    0 <= j < n && placed[j] ==> (#[trigger] position[j]) < order.len()
                        && order[position[j] as int] == j,
                forall|j: int, k: int|
                    0 <= j < n && placed[j] && 0 <= k < graph[j].len() ==> placed[(
                    #[trigger] graph[j][k]) as int] && position[graph[j][k] as int] < position[j],
                order.len() == before ==> forall|j: int|
                    0 <= j < i && !placed[j] ==> exists|k: int|
                        0 <= k < graph[j].len() && !placed[(#[trigger] graph[j][k]) as int],
            decreases n - i,
        {
            if !placed[i] && all_placed(graph, &placed, i) {
                proof {
                    lemma_count_set_one_more(placed@, i as int, n as int);
                    lemma_count_set_bounds(placed@.update(i as int, true), n as int);
                }
                let at = order.len();
                placed.set(i, true);
                position.set(i, at);
                order.push(i);
            }
            i += 1;
        }
        if order.len() == before {
            proof {
                lemma_count_set_bounds(placed@, n as int);
                let u = choose|u: int| 0 <= u < n && !placed[u];
                assert forall|rank: Seq<nat>| !ranked(graph@, rank) by {
                    if rank.len() == n {
                        lemma_stuck_is_cyclic(graph@, placed@, rank, u);
                    }
                }
            }
            return None;
        }
    }
    proof {
        lemma_count_set_bounds(placed@, n as int);
        let rank = Seq::new(n as nat, |i: int| position[i] as nat);
        assert(ranked(graph@, rank));
    }
    Some((order, position))
}

proof fn lemma_count_set_prefix(shorter: Seq<bool>, longer: Seq<bool>, m: int)
    requires
        0 <= m <= shorter.len() <= longer.len(),
        forall|i: int| 0 <= i < shorter.len() ==> shorter[i] == longer[i],
    ensures
        count_set(shorter, m) == count_set(longer, m),
    decreases m,
{
    if m > 0 {
        lemma_count_set_prefix(shorter, longer, m - 1);
    }
}

} // verus!
