//! Finding a dependency cycle, or proving that there is none.
//!
//! Nodes are numbered from 0; row `a` of the graph lists the nodes that `a`
//! depends on. The search first retires, round after round, every node
//! whose dependencies are all retired. If every node retires, the moments
//! of retirement rank the nodes, and a ranked graph has no cycle. If some
//! nodes remain, each of them depends on another that remains, and
//! following those dependencies must run into a cycle.

use vstd::prelude::*;

verus! {

/// A dependency list as stored, read as node numbers.
pub open spec fn node_numbers(deps: Seq<usize>) -> Seq<int> {
    Seq::new(deps.len(), |k: int| deps[k] as int)
}

/// A graph as stored, read as one list of node numbers per node.
pub open spec fn rows(deps: Seq<Vec<usize>>) -> Seq<Seq<int>> {
    Seq::new(deps.len(), |i: int| node_numbers(deps[i]@))
}

/// Every dependency is a node of the graph.
pub open spec fn closed_graph(deps: Seq<Seq<int>>) -> bool {
    forall|a: int, k: int|
        0 <= a < deps.len() && 0 <= k < deps[a].len() ==> 0 <= #[trigger] deps[a][k] < deps.len()
}

/// The node after position `k` when going round `cycle`.
pub open spec fn successor(cycle: Seq<int>, k: int) -> int {
    if k + 1 < cycle.len() {
        cycle[k + 1]
    } else {
        cycle[0]
    }
}

/// `cycle` is a non-empty round trip: each of its nodes depends on the
/// next, and the last on the first.
pub open spec fn is_node_cycle(deps: Seq<Seq<int>>, cycle: Seq<int>) -> bool {
    &&& cycle.len() > 0
    &&& forall|k: int|
        0 <= k < cycle.len() ==> 0 <= #[trigger] cycle[k] < deps.len() && deps[cycle[k]].contains(
            successor(cycle, k),
        )
}

/// No round trip exists.
pub open spec fn acyclic(deps: Seq<Seq<int>>) -> bool {
    forall|cycle: Seq<int>| !is_node_cycle(deps, cycle)
}

/// `rank` puts every node strictly above each of its dependencies.
pub open spec fn ranked(deps: Seq<Seq<int>>, rank: Seq<nat>) -> bool {
    &&& rank.len() == deps.len()
    &&& forall|a: int, k: int|
        0 <= a < deps.len() && 0 <= k < deps[a].len() ==> 0 <= #[trigger] deps[a][k] < deps.len()
            && rank[deps[a][k]] < rank[a]
}

/// The nodes can be ranked above their dependencies.
pub open spec fn rankable(deps: Seq<Seq<int>>) -> bool {
    exists|rank: Seq<nat>| ranked(deps, rank)
}

proof fn lemma_rank_descends(deps: Seq<Seq<int>>, rank: Seq<nat>, cycle: Seq<int>, k: int)
    requires
        ranked(deps, rank),
        is_node_cycle(deps, cycle),
        0 <= k < cycle.len(),
    ensures
        rank[cycle[k]] + k <= rank[cycle[0]],
    decreases k,
{
    if k > 0 {
        lemma_rank_descends(deps, rank, cycle, k - 1);
        let a = cycle[k - 1];
        assert(deps[a].contains(successor(cycle, k - 1)));
        let j = choose|j: int| 0 <= j < deps[a].len() && deps[a][j] == cycle[k];
        assert(rank[deps[a][j]] < rank[a]);
    }
}

/// A graph whose nodes can be ranked above their dependencies has no cycle.
pub proof fn lemma_ranked_is_acyclic(deps: Seq<Seq<int>>, rank: Seq<nat>)
    requires
        ranked(deps, rank),
    ensures
        acyclic(deps),
{
    assert forall|cycle: Seq<int>| !is_node_cycle(deps, cycle) by {
        if is_node_cycle(deps, cycle) {
            let last = cycle.len() - 1;
            lemma_rank_descends(deps, rank, cycle, last);
            let a = cycle[last];
            assert(deps[a].contains(successor(cycle, last)));
            let j = choose|j: int| 0 <= j < deps[a].len() && deps[a][j] == cycle[0];
            assert(rank[deps[a][j]] < rank[a]);
        }
    }
}

/// Number of `false` entries.
spec fn count_false(flags: Seq<bool>) -> nat
    decreases flags.len(),
{
    if flags.len() == 0 {
        0
    } else {
        count_false(flags.drop_last()) + if flags.last() {
            0nat
        } else {
            1nat
        }
    }
}

proof fn lemma_count_after_set(flags: Seq<bool>, at: int)
    requires
        0 <= at < flags.len(),
        !flags[at],
    ensures
        count_false(flags.update(at, true)) + 1 == count_false(flags),
    decreases flags.len(),
{
    if at == flags.len() - 1 {
        assert(flags.update(at, true).drop_last() =~= flags.drop_last());
    } else {
        assert(flags.update(at, true).drop_last() =~= flags.drop_last().update(at, true));
        lemma_count_after_set(flags.drop_last(), at);
    }
}

/// Some dependency in `row` is not retired.
spec fn has_open_dependency(row: Seq<int>, retired: Seq<bool>) -> bool {
    exists|k: int| 0 <= k < row.len() && !retired[#[trigger] row[k]]
}

fn first_open(row: &Vec<usize>, retired: &Vec<bool>) -> (found: Option<usize>)
    requires
        forall|k: int| 0 <= k < row@.len() ==> #[trigger] row@[k] < retired@.len(),
    ensures
        match found {
            Some(d) => d < retired@.len() && !retired@[d as int] && node_numbers(row@).contains(
                d as int,
            ),
            None => !has_open_dependency(node_numbers(row@), retired@),
        },
{
    let mut k: usize = 0;
    while k < row.len()
        invariant
            k <= row@.len(),
            forall|l: int| 0 <= l < row@.len() ==> #[trigger] row@[l] < retired@.len(),
            forall|l: int| 0 <= l < k ==> retired@[#[trigger] node_numbers(row@)[l]],
        decreases row@.len() - k,
    {
        let d = row[k];
        if !retired[d] {
            assert(node_numbers(row@)[k as int] == d as int);
            return Some(d);
        }
        assert(node_numbers(row@)[k as int] == d as int);
        k += 1;
    }
    None
}

/// A list of `n` flags, none of them set.
pub fn all_false(n: usize) -> (flags: Vec<bool>)
    ensures
        flags@.len() == n,
        forall|i: int| 0 <= i < n ==> !flags@[i],
{
    let mut flags: Vec<bool> = Vec::new();
    let mut i: usize = 0;
    while i < n
        invariant
            i <= n,
            flags@.len() == i,
            forall|j: int| 0 <= j < i ==> !flags@[j],
        decreases n - i,
    {
        flags.push(false);
        i += 1;
    }
    flags
}

/// Retires nodes until no further node can retire. Afterwards every node
/// that is left depends on a node that is left, and the retired nodes are
/// ranked above their dependencies.
fn retire_all(deps: &Vec<Vec<usize>>) -> (result: (Vec<bool>, Ghost<Seq<nat>>))
    requires
        closed_graph(rows(deps@)),
    ensures
        result.0@.len() == deps@.len(),
        result.1@.len() == deps@.len(),
        forall|a: int, k: int|
            0 <= a < deps@.len() && 0 <= k < rows(deps@)[a].len() && result.0@[a] ==> result.0@[rows(
                deps@,
            )[a][k]] && result.1@[#[trigger] rows(deps@)[a][k]] < result.1@[a],
        forall|a: int|
            0 <= a < deps@.len() && !result.0@[a] ==> has_open_dependency(
                #[trigger] rows(deps@)[a],
                result.0@,
            ),
{
    let n = deps.len();
    let ghost graph = rows(deps@);
    let mut retired = all_false(n);
    let ghost mut rank: Seq<nat> = Seq::new(n as nat, |i: int| 0nat);
    let ghost mut clock: nat = 1;
    let mut progress = true;
    while progress
        invariant
            n == deps@.len(),
            graph == rows(deps@),
            closed_graph(graph),
            retired@.len() == n,
            rank.len() == n,
            forall|a: int| 0 <= a < n && retired@[a] ==> rank[a] < clock,
            forall|a: int, k: int|
                0 <= a < n && 0 <= k < graph[a].len() && retired@[a] ==> retired@[graph[a][k]]
                    && rank[#[trigger] graph[a][k]] < rank[a],
            !progress ==> forall|a: int|
                0 <= a < n && !retired@[a] ==> has_open_dependency(#[trigger] graph[a], retired@),
        decreases
                count_false(retired@) + if progress {
                    1nat
                } else {
                    0nat
                },
    {
        let ghost at_start = retired@;
        progress = false;
        let mut i: usize = 0;
        while i < n
            invariant
                i <= n,
                n == deps@.len(),
                graph == rows(deps@),
                closed_graph(graph),
                retired@.len() == n,
                rank.len() == n,
                at_start.len() == n,
                forall|a: int| 0 <= a < n && retired@[a] ==> rank[a] < clock,
                forall|a: int, k: int|
                    0 <= a < n && 0 <= k < graph[a].len() && retired@[a] ==> retired@[graph[a][k]]
                        && rank[#[trigger] graph[a][k]] < rank[a],
                !progress ==> retired@ == at_start,
                !progress ==> forall|a: int|
                    0 <= a < i && !retired@[a] ==> has_open_dependency(
                        #[trigger] graph[a],
                        retired@,
                    ),
                progress ==> count_false(retired@) < count_false(at_start),
            decreases n - i,
        {
            if !retired[i] {
                assert forall|k: int| 0 <= k < deps@[i as int]@.len() implies #[trigger] deps@[i as int]@[k]
                    < retired@.len() by {
                    assert(graph[i as int][k] == deps@[i as int]@[k]);
                }
                match first_open(&deps[i], &retired) {
                    None => {
                        proof {
                            lemma_count_after_set(retired@, i as int);
                            assert forall|k: int| 0 <= k < graph[i as int].len() implies retired@[graph[i as int][k]]
                                && rank[#[trigger] graph[i as int][k]] < clock by {
                                assert(!has_open_dependency(graph[i as int], retired@));
                                assert(retired@[graph[i as int][k]]);
                            }
                            rank = rank.update(i as int, clock);
                            clock = clock + 1;
                        }
                        retired.set(i, true);
                        progress = true;
                    },
                    Some(_) => {
                        assert(has_open_dependency(graph[i as int], retired@));
                    },
                }
            }
            i += 1;
        }
    }
    (retired, Ghost(rank))
}

/// Searches the graph for a dependency cycle.
///
/// Returns a cycle if there is one, and `None` exactly when the graph has
/// none.
pub fn find_cycle(deps: &Vec<Vec<usize>>) -> (cycle: Option<Vec<usize>>)
    requires
        closed_graph(rows(deps@)),
    ensures
        match cycle {
            Some(found) => is_node_cycle(rows(deps@), node_numbers(found@)),
            None => acyclic(rows(deps@)) && rankable(rows(deps@)),
        },
{
    let n = deps.len();
    let ghost graph = rows(deps@);
    let (retired, Ghost(rank)) = retire_all(deps);
    let mut start: usize = 0;
    while start < n && retired[start]
        invariant
            start <= n,
            retired@.len() == n,
            forall|a: int| 0 <= a < start ==> retired@[a],
        decreases n - start,
    {
        start += 1;
    }
    if start == n {
        proof {
            assert(ranked(graph, rank));
            lemma_ranked_is_acyclic(graph, rank);
        }
        return None;
    }
    let mut on_path = all_false(n);
    let mut path: Vec<usize> = Vec::new();
    path.push(start);
    on_path.set(start, true);
    let mut current = start;
    assert(node_numbers(path@)[0] == start as int);
    loop
        invariant
            n == deps@.len(),
            graph == rows(deps@),
            closed_graph(graph),
            retired@.len() == n,
            on_path@.len() == n,
            path@.len() > 0,
            path@[path@.len() - 1] == current,
            forall|k: int| 0 <= k < path@.len() ==> #[trigger] path@[k] < n && !retired@[path@[k] as int],
            forall|k: int|
                0 <= k < path@.len() - 1 ==> graph[#[trigger] path@[k] as int].contains(
                    path@[k + 1] as int,
                ),
            forall|x: int| 0 <= x < n && #[trigger] on_path@[x] ==> node_numbers(path@).contains(x),
            forall|a: int|
                0 <= a < n && !retired@[a] ==> has_open_dependency(#[trigger] graph[a], retired@),
        decreases count_false(on_path@),
    {
        assert(path@[path@.len() - 1] < n);
        assert forall|k: int| 0 <= k < deps@[current as int]@.len() implies #[trigger] deps@[current as int]@[k]
            < retired@.len() by {
            assert(graph[current as int][k] == deps@[current as int]@[k]);
        }
        let next = match first_open(&deps[current], &retired) {
            Some(next) => next,
            None => {
                proof {
                    assert(has_open_dependency(graph[current as int], retired@));
                }
                return None;
            },
        };
        if on_path[next] {
            let len = path.len();
            let mut from: usize = 0;
            proof {
                let k = choose|k: int|
                    0 <= k < node_numbers(path@).len() && node_numbers(path@)[k] == next as int;
                assert(path@[k] == next);
            }
            while path[from] != next
                invariant
                    len == path@.len(),
                    from < len,
                    exists|k: int| from <= k < path@.len() && path@[k] == next,
                decreases len - from,
            {
                from += 1;
            }
            let mut found: Vec<usize> = Vec::new();
            let mut k: usize = from;
            while k < path.len()
                invariant
                    from <= k <= path@.len(),
                    found@ == path@.subrange(from as int, k as int),
                decreases path@.len() - k,
            {
                found.push(path[k]);
                assert(path@.subrange(from as int, k + 1) =~= path@.subrange(
                    from as int,
                    k as int,
                ).push(path@[k as int]));
                k += 1;
            }
            proof {
                let cycle = node_numbers(found@);
                assert forall|j: int| 0 <= j < cycle.len() implies 0 <= #[trigger] cycle[j]
                    < graph.len() && graph[cycle[j]].contains(successor(cycle, j)) by {
                    assert(cycle[j] == path@[from + j]);
                    if j + 1 < cycle.len() {
                        assert(graph[path@[from + j] as int].contains(path@[from + j + 1] as int));
                        assert(cycle[j + 1] == path@[from + j + 1]);
                    } else {
                        assert(cycle[0] == next);
                        assert(path@[from + j] == current);
                    }
                }
            }
            return Some(found);
        }
        proof {
            lemma_count_after_set(on_path@, next as int);
        }
        let ghost path_before = path@;
        let ghost on_path_before = on_path@;
        path.push(next);
        on_path.set(next, true);
        current = next;
        proof {
            assert forall|x: int| 0 <= x < n && #[trigger] on_path@[x] implies node_numbers(
                path@,
            ).contains(x) by {
                if x == next {
                    assert(node_numbers(path@)[path@.len() - 1] == x);
                } else {
                    assert(on_path_before[x]);
                    let k = choose|k: int|
                        0 <= k < node_numbers(path_before).len() && node_numbers(path_before)[k]
                            == x;
                    assert(node_numbers(path@)[k] == x);
                }
            }
        }
    }
}

} // verus!
