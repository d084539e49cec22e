//! The order in which the packages of a workspace are published.
//!
//! A package may be uploaded only after every workspace package it depends
//! on has been published. The graph below records who depends on whom and
//! how far each package has come: waiting, handed out and in flight, or
//! complete. The orchestrator asks it for the packages that are ready,
//! starts their uploads, and reports each completion back.

use crate::cycle::{
    all_false, closed_graph, find_cycle, is_node_cycle, node_numbers, rankable, ranked, rows,
    successor,
};
use crate::package::pairs_view;
use crate::text::{join, joined, same_text, texts};
use vstd::prelude::*;
use vstd::string::*;

verus! {

/// The scheduler's state, as mathematics.
///
/// Nodes are numbered from 0. `deps[a]` lists the nodes that `a` depends
/// on. `order` lists the nodes that have been handed out, in the order in
/// which that happened.
pub struct GraphView {
    pub names: Seq<Seq<char>>,
    pub deps: Seq<Seq<int>>,
    pub started: Seq<bool>,
    pub complete: Seq<bool>,
    pub order: Seq<int>,
}

impl GraphView {
    /// Whether `a` is a node that depends on `b`.
    pub open spec fn depends(self, a: int, b: int) -> bool {
        0 <= a < self.deps.len() && self.deps[a].contains(b)
    }

    /// Not handed out yet.
    pub open spec fn is_waiting(self, i: int) -> bool {
        !self.started[i]
    }

    /// Handed out and not reported complete.
    pub open spec fn is_pending(self, i: int) -> bool {
        self.started[i] && !self.complete[i]
    }

    /// Waiting, with every dependency complete.
    pub open spec fn is_ready(self, i: int) -> bool {
        &&& !self.started[i]
        &&& forall|k: int| 0 <= k < self.deps[i].len() ==> self.complete[#[trigger] self.deps[i][k]]
    }

    /// The ready nodes among the first `upto`, in ascending order.
    pub open spec fn ready_upto(self, upto: int) -> Seq<int>
        decreases upto,
    {
        if upto <= 0 {
            Seq::empty()
        } else if self.is_ready(upto - 1) {
            self.ready_upto(upto - 1).push(upto - 1)
        } else {
            self.ready_upto(upto - 1)
        }
    }

    /// All ready nodes, in ascending order.
    pub open spec fn ready_nodes(self) -> Seq<int> {
        self.ready_upto(self.names.len() as int)
    }

    /// The nodes among the first `upto` that are neither complete nor ready,
    /// in ascending order.
    pub open spec fn stuck_upto(self, upto: int) -> Seq<int>
        decreases upto,
    {
        if upto <= 0 {
            Seq::empty()
        } else if !self.complete[upto - 1] && !self.is_ready(upto - 1) {
            self.stuck_upto(upto - 1).push(upto - 1)
        } else {
            self.stuck_upto(upto - 1)
        }
    }

    /// All nodes that are neither complete nor ready, in ascending order.
    pub open spec fn stuck_nodes(self) -> Seq<int> {
        self.stuck_upto(self.names.len() as int)
    }

    /// The names of the given nodes, in the same order.
    pub open spec fn names_of(self, nodes: Seq<int>) -> Seq<Seq<char>> {
        Seq::new(nodes.len(), |k: int| self.names[nodes[k]])
    }

    /// The state after every ready node has been handed out.
    pub open spec fn after_next(self) -> GraphView {
        GraphView {
            started: Seq::new(self.started.len(), |i: int| self.started[i] || self.is_ready(i)),
            order: self.order + self.ready_nodes(),
            ..self
        }
    }

    /// The state after the package `name` was reported complete: the pending
    /// node of that name is complete, everything else is as before.
    pub open spec fn after_finish(self, name: Seq<char>) -> GraphView {
        GraphView {
            complete: Seq::new(
                self.complete.len(),
                |i: int| self.complete[i] || (self.names[i] == name && self.started[i]),
            ),
            ..self
        }
    }

    /// What holds of every state the scheduler can reach.
    pub open spec fn well_formed(self) -> bool {
        let n = self.names.len();
        &&& self.deps.len() == n
        &&& rankable(self.deps)
        &&& self.started.len() == n
        &&& self.complete.len() == n
        &&& forall|i: int, j: int| 0 <= i < j < n ==> self.names[i] != self.names[j]
        &&& forall|i: int, k: int|
            0 <= i < n && 0 <= k < self.deps[i].len() ==> 0 <= #[trigger] self.deps[i][k] < n
        &&& forall|i: int, k: int, l: int|
            0 <= i < n && 0 <= k < l < self.deps[i].len() ==> self.deps[i][k] != self.deps[i][l]
        &&& forall|i: int| 0 <= i < n && self.complete[i] ==> self.started[i]
        &&& forall|p: int| 0 <= p < self.order.len() ==> 0 <= #[trigger] self.order[p] < n
        &&& forall|p: int, q: int|
            0 <= p < q < self.order.len() ==> self.order[p] != self.order[q]
        &&& forall|i: int| 0 <= i < n ==> (self.started[i] <==> self.order.contains(i))
        &&& forall|p: int, k: int|
            0 <= p < self.order.len() && 0 <= k < self.deps[self.order[p]].len()
                ==> self.order.take(p).contains(#[trigger] self.deps[self.order[p]][k])
    }
}

/// In every reachable state each node is in exactly one of three states:
/// waiting, pending, or complete.
pub proof fn lemma_states_partition(graph: GraphView, i: int)
    requires
        graph.well_formed(),
        0 <= i < graph.names.len(),
    ensures
        graph.is_waiting(i) || graph.is_pending(i) || graph.complete[i],
        !(graph.is_waiting(i) && graph.is_pending(i)),
        !(graph.is_waiting(i) && graph.complete[i]),
        !(graph.is_pending(i) && graph.complete[i]),
{
}

/// In every reachable state the nodes were handed out in a topological
/// order of the dependency graph: whenever one handed-out node depends on
/// another, the dependency was handed out strictly earlier.
pub proof fn lemma_order_is_topological(graph: GraphView, p: int, q: int)
    requires
        graph.well_formed(),
        0 <= p < graph.order.len(),
        0 <= q < graph.order.len(),
        graph.depends(graph.order[p], graph.order[q]),
    ensures
        q < p,
{
    let a = graph.order[p];
    let b = graph.order[q];
    let k = choose|k: int| 0 <= k < graph.deps[a].len() && graph.deps[a][k] == b;
    assert(graph.order.take(p).contains(graph.deps[a][k]));
    let r = choose|r: int| 0 <= r < graph.order.take(p).len() && graph.order.take(p)[r] == b;
    assert(graph.order[r] == b);
    if r != q {
        if r < q {
            assert(graph.order[r] != graph.order[q]);
        } else {
            assert(graph.order[q] != graph.order[r]);
        }
    }
}

/// In every reachable state, each dependency of a handed-out node was
/// handed out before it.
pub proof fn lemma_dependencies_come_first(graph: GraphView, p: int, b: int)
    requires
        graph.well_formed(),
        0 <= p < graph.order.len(),
        graph.depends(graph.order[p], b),
    ensures
        exists|q: int| 0 <= q < p && graph.order[q] == b,
{
    let a = graph.order[p];
    let k = choose|k: int| 0 <= k < graph.deps[a].len() && graph.deps[a][k] == b;
    assert(graph.order.take(p).contains(graph.deps[a][k]));
    let r = choose|r: int| 0 <= r < graph.order.take(p).len() && graph.order.take(p)[r] == b;
    assert(graph.order[r] == b);
}

proof fn lemma_complete_by_rank(graph: GraphView, rank: Seq<nat>, i: int)
    requires
        graph.well_formed(),
        ranked(graph.deps, rank),
        forall|j: int| 0 <= j < graph.names.len() ==> !graph.is_pending(j) && !graph.is_ready(j),
        0 <= i < graph.names.len(),
    ensures
        graph.complete[i],
    decreases rank[i],
{
    assert forall|k: int| 0 <= k < graph.deps[i].len() implies graph.complete[
        #[trigger] graph.deps[i][k]] by {
        let d = graph.deps[i][k];
        assert(rank[d] < rank[i]);
        lemma_complete_by_rank(graph, rank, d);
    }
    assert(!graph.is_ready(i));
    assert(!graph.is_pending(i));
}

/// Once nothing is in flight and nothing is ready, everything is complete:
/// a run that has drained has published every package.
pub proof fn lemma_drained_is_done(graph: GraphView)
    requires
        graph.well_formed(),
        forall|j: int| 0 <= j < graph.names.len() ==> !graph.is_pending(j) && !graph.is_ready(j),
    ensures
        forall|i: int| 0 <= i < graph.names.len() ==> graph.complete[i],
        graph.stuck_nodes().len() == 0,
{
    let rank = choose|rank: Seq<nat>| ranked(graph.deps, rank);
    assert forall|i: int| 0 <= i < graph.names.len() implies graph.complete[i] by {
        lemma_complete_by_rank(graph, rank, i);
    }
    lemma_nothing_stuck(graph, graph.names.len() as int);
}

proof fn lemma_nothing_stuck(graph: GraphView, upto: int)
    requires
        0 <= upto <= graph.names.len(),
        forall|i: int| 0 <= i < graph.names.len() ==> graph.complete[i],
    ensures
        graph.stuck_upto(upto).len() == 0,
    decreases upto,
{
    if upto > 0 {
        lemma_nothing_stuck(graph, upto - 1);
    }
}

/// The ready nodes are listed in ascending order, and a node is listed
/// exactly if it is ready.
pub proof fn lemma_ready_nodes(graph: GraphView, upto: int)
    requires
        0 <= upto <= graph.names.len(),
    ensures
        forall|l: int|
            0 <= l < graph.ready_upto(upto).len() ==> 0 <= #[trigger] graph.ready_upto(upto)[l]
                < upto && graph.is_ready(graph.ready_upto(upto)[l]),
        forall|a: int, b: int|
            0 <= a < b < graph.ready_upto(upto).len() ==> graph.ready_upto(upto)[a]
                < graph.ready_upto(upto)[b],
        forall|i: int| 0 <= i < upto && graph.is_ready(i) ==> graph.ready_upto(upto).contains(i),
    decreases upto,
{
    if upto > 0 {
        lemma_ready_nodes(graph, upto - 1);
        let before = graph.ready_upto(upto - 1);
        let now = graph.ready_upto(upto);
        assert forall|i: int| 0 <= i < upto && graph.is_ready(i) implies now.contains(i) by {
            if i < upto - 1 {
                let l = choose|l: int| 0 <= l < before.len() && before[l] == i;
                assert(now[l] == i);
            } else {
                assert(now[now.len() - 1] == i);
            }
        }
    }
}

/// Number of entries of `deps` that are not complete.
pub open spec fn unfinished(deps: Seq<int>, complete: Seq<bool>) -> nat
    decreases deps.len(),
{
    if deps.len() == 0 {
        0
    } else {
        unfinished(deps.drop_last(), complete) + if complete[deps.last()] {
            0nat
        } else {
            1nat
        }
    }
}

proof fn lemma_unfinished_zero(deps: Seq<int>, complete: Seq<bool>)
    requires
        unfinished(deps, complete) == 0,
    ensures
        forall|k: int| 0 <= k < deps.len() ==> complete[#[trigger] deps[k]],
    decreases deps.len(),
{
    if deps.len() > 0 {
        lemma_unfinished_zero(deps.drop_last(), complete);
        assert forall|k: int| 0 <= k < deps.len() implies complete[#[trigger] deps[k]] by {
            if k < deps.len() - 1 {
                assert(deps.drop_last()[k] == deps[k]);
            }
        }
    }
}

proof fn lemma_unfinished_after(deps: Seq<int>, complete: Seq<bool>, done: int)
    requires
        0 <= done < complete.len(),
        !complete[done],
        forall|k: int| 0 <= k < deps.len() ==> 0 <= #[trigger] deps[k] < complete.len(),
        forall|k: int, l: int| 0 <= k < l < deps.len() ==> deps[k] != deps[l],
    ensures
        unfinished(deps, complete.update(done, true)) + (if deps.contains(done) {
            1nat
        } else {
            0nat
        }) == unfinished(deps, complete),
    decreases deps.len(),
{
    if deps.len() > 0 {
        let rest = deps.drop_last();
        assert forall|k: int| 0 <= k < rest.len() implies 0 <= #[trigger] rest[k]
            < complete.len() by {
            assert(rest[k] == deps[k]);
        }
        lemma_unfinished_after(rest, complete, done);
        if deps.last() == done {
            if rest.contains(done) {
                let k = choose|k: int| 0 <= k < rest.len() && rest[k] == done;
                assert(deps[k] == deps[deps.len() - 1]);
            }
            assert(deps[deps.len() - 1] == done);
        } else {
            if deps.contains(done) {
                let k = choose|k: int| 0 <= k < deps.len() && deps[k] == done;
                assert(rest[k] == done);
            }
            if rest.contains(done) {
                let k = choose|k: int| 0 <= k < rest.len() && rest[k] == done;
                assert(deps[k] == done);
            }
        }
    }
}

/// The dependency graph of a workspace together with the progress of its
/// publication.
pub struct PublishOrderGraph {
    names: Vec<String>,
    deps: Vec<Vec<usize>>,
    in_degree: Vec<usize>,
    started: Vec<bool>,
    complete: Vec<bool>,
    order: Ghost<Seq<int>>,
}

/// The packages that keep a drained scheduler from being done.
pub struct PendingPackages {
    /// Every package that is neither complete nor ready, in node order.
    pub names: Vec<String>,
}

impl View for PublishOrderGraph {
    type V = GraphView;

    closed spec fn view(&self) -> GraphView {
        GraphView {
            names: texts(self.names@),
            deps: Seq::new(self.deps@.len(), |i: int| node_numbers(self.deps@[i]@)),
            started: self.started@,
            complete: self.complete@,
            order: self.order@,
        }
    }
}

impl PublishOrderGraph {
    /// The representation is consistent and stands for a reachable state.
    pub closed spec fn wf(&self) -> bool {
        &&& self@.well_formed()
        &&& self.in_degree@.len() == self.names@.len()
        &&& forall|i: int|
            0 <= i < self.names@.len() ==> #[trigger] self.in_degree@[i] == unfinished(
                self@.deps[i],
                self.complete@,
            )
    }

    /// A consistent graph stands for a well-formed state.
    pub proof fn lemma_wf_view(&self)
        requires
            self.wf(),
        ensures
            self@.well_formed(),
    {
    }

    /// Number of packages in the graph.
    pub fn len(&self) -> (n: usize)
        ensures
            n == self@.names.len(),
    {
        self.names.len()
    }

    /// The name of node `i`.
    pub fn name(&self, i: usize) -> (name: &String)
        requires
            i < self@.names.len(),
        ensures
            name@ == self@.names[i as int],
    {
        &self.names[i]
    }

    /// Hands out every package that is ready and marks it as in flight.
    ///
    /// The result names the ready packages in node order. It is empty when
    /// nothing is ready, which is no error: packages may be in flight.
    pub fn next(&mut self) -> (batch: Vec<String>)
        requires
            old(self).wf(),
        ensures
            final(self).wf(),
            final(self)@ == old(self)@.after_next(),
            texts(batch@) == old(self)@.names_of(old(self)@.ready_nodes()),
    {
        let ghost before = self@;
        let nodes = self.next_nodes();
        let mut batch: Vec<String> = Vec::new();
        let mut k: usize = 0;
        while k < nodes.len()
            invariant
                k <= nodes@.len(),
                self.wf(),
                self@ == before.after_next(),
                node_numbers(nodes@) == before.ready_nodes(),
                forall|l: int| 0 <= l < nodes@.len() ==> #[trigger] nodes@[l] < before.names.len(),
                batch@.len() == k,
                forall|l: int|
                    0 <= l < k ==> (#[trigger] batch@[l])@ == before.names[nodes@[l] as int],
            decreases nodes@.len() - k,
        {
            assert(nodes@[k as int] < before.names.len());
            batch.push(self.names[nodes[k]].clone());
            k += 1;
        }
        proof {
            assert forall|l: int| 0 <= l < nodes@.len() implies texts(batch@)[l]
                == before.names_of(before.ready_nodes())[l] by {
                assert(node_numbers(nodes@)[l] == nodes@[l]);
            }
            assert(texts(batch@) =~= before.names_of(before.ready_nodes()));
        }
        batch
    }

    /// Hands out every node that is ready and marks it as in flight.
    ///
    /// The result lists the ready nodes in ascending order.
    pub fn next_nodes(&mut self) -> (batch: Vec<usize>)
        requires
            old(self).wf(),
        ensures
            final(self).wf(),
            final(self)@ == old(self)@.after_next(),
            node_numbers(batch@) == old(self)@.ready_nodes(),
            forall|l: int| 0 <= l < batch@.len() ==> #[trigger] batch@[l] < old(self)@.names.len(),
    {
        let ghost before = self@;
        let n = self.names.len();
        let mut batch: Vec<usize> = Vec::new();
        let mut i: usize = 0;
        while i < n
            invariant
                i <= n,
                n == before.names.len(),
                before.well_formed(),
                before == old(self)@,
                self.names == old(self).names,
                self.deps == old(self).deps,
                self.in_degree == old(self).in_degree,
                self.complete == old(self).complete,
                self.started@.len() == n,
                forall|j: int|
                    0 <= j < n ==> #[trigger] self.started@[j] == (before.started[j] || (j < i
                        && before.is_ready(j))),
                self.order@ == before.order + before.ready_upto(i as int),
                node_numbers(batch@) == before.ready_upto(i as int),
                forall|l: int| 0 <= l < batch@.len() ==> #[trigger] batch@[l] < n,
                old(self).wf(),
                self@.well_formed(),
            decreases n - i,
        {
            let ghost ready_so_far = before.ready_upto(i as int);
            let ghost order_so_far = self.order@;
            let ghost now = self@;
            let ghost started_so_far = self.started@;
            assert(started_so_far[i as int] == before.started[i as int]);
            if !self.started[i] && self.in_degree[i] == 0 {
                proof {
                    lemma_unfinished_zero(before.deps[i as int], before.complete);
                    assert(before.is_ready(i as int));
                }
                let ghost batch_so_far = batch@;
                self.started.set(i, true);
                batch.push(i);
                self.order = Ghost(self.order@.push(i as int));
                proof {
                    let after = self@;
                    assert(before.ready_upto(i + 1) == ready_so_far.push(i as int));
                    assert(self.order@ =~= before.order + before.ready_upto(i + 1));
                    assert(node_numbers(batch@) =~= node_numbers(batch_so_far).push(i as int));
                    assert(!order_so_far.contains(i as int));
                    assert forall|p: int, q: int|
                        0 <= p < q < after.order.len() implies after.order[p] != after.order[q] by {
                        if q == order_so_far.len() {
                            assert(order_so_far[p] == after.order[p]);
                        } else {
                            assert(order_so_far[p] != order_so_far[q]);
                        }
                    }
                    assert forall|j: int| 0 <= j < n implies (after.started[j]
                        <==> after.order.contains(j)) by {
                        if j == i {
                            assert(after.order[order_so_far.len() as int] == j);
                        } else {
                            if now.order.contains(j) {
                                let p = choose|p: int|
                                    0 <= p < order_so_far.len() && order_so_far[p] == j;
                                assert(after.order[p] == j);
                            }
                            if after.order.contains(j) {
                                let p = choose|p: int|
                                    0 <= p < after.order.len() && after.order[p] == j;
                                assert(order_so_far[p] == j);
                            }
                        }
                    }
                    assert forall|p: int, k: int|
                        0 <= p < after.order.len() && 0 <= k < after.deps[after.order[p]].len() implies after.order.take(
                        p,
                    ).contains(#[trigger] after.deps[after.order[p]][k]) by {
                        let d = after.deps[after.order[p]][k];
                        if p < order_so_far.len() {
                            assert(order_so_far.take(p).contains(now.deps[now.order[p]][k]));
                            assert(after.order.take(p) =~= order_so_far.take(p));
                        } else {
                            assert(after.order.take(p) =~= order_so_far);
                            assert(before.complete[before.deps[i as int][k]]);
                            assert(now.started[d]);
                        }
                    }
                    assert(after.well_formed());
                    assert forall|j: int| 0 <= j < n implies #[trigger] self.started@[j] == (
                    before.started[j] || (j < i + 1 && before.is_ready(j))) by {
                        assert(started_so_far[j] == (before.started[j] || (j < i
                            && before.is_ready(j))));
                    }
                }
            } else {
                proof {
                    if before.is_ready(i as int) {
                        assert(self.in_degree@[i as int] == unfinished(
                            before.deps[i as int],
                            before.complete,
                        ));
                        if unfinished(before.deps[i as int], before.complete) > 0 {
                            lemma_ready_has_no_unfinished(before, i as int);
                        }
                    }
                    assert(!before.is_ready(i as int));
                    assert(before.ready_upto(i + 1) == ready_so_far);
                    assert forall|j: int| 0 <= j < n implies #[trigger] self.started@[j] == (
                    before.started[j] || (j < i + 1 && before.is_ready(j))) by {
                        assert(started_so_far[j] == (before.started[j] || (j < i
                            && before.is_ready(j))));
                    }
                }
            }
            i += 1;
        }
        proof {
            assert forall|j: int| 0 <= j < n implies self@.started[j]
                == before.after_next().started[j] by {
                assert(self.started@[j] == (before.started[j] || (j < n && before.is_ready(j))));
            }
            assert(self@.started =~= before.after_next().started);
            assert(self@.deps =~= before.deps);
            assert(self@ == before.after_next());
        }
        batch
    }

    /// Records that the upload of `name` has completed.
    ///
    /// Only a package that was handed out and is still in flight can
    /// complete; for every other name the state stays as it is.
    pub fn finish_package(&mut self, name: &str)
        requires
            old(self).wf(),
        ensures
            final(self).wf(),
            final(self)@ == old(self)@.after_finish(name@),
    {
        let ghost before = self@;
        let n = self.names.len();
        let mut at: usize = 0;
        while at < n
            invariant
                at <= n,
                n == self.names@.len(),
                forall|j: int| 0 <= j < at ==> self.names@[j]@ != name@,
            ensures
                at <= n,
                forall|j: int| 0 <= j < at ==> self.names@[j]@ != name@,
                at < n ==> self.names@[at as int]@ == name@,
            decreases n - at,
        {
            if same_text(self.names[at].as_str(), name) {
                break;
            }
            at += 1;
        }
        proof {
            assert forall|j: int| 0 <= j < n && j != at implies before.names[j] != name@ by {
                if j > at {
                    assert(before.names[at as int] != before.names[j]);
                }
            }
        }
        if at == n || !self.started[at] || self.complete[at] {
            proof {
                assert(self@.complete =~= before.after_finish(name@).complete);
            }
            return;
        }
        self.complete.set(at, true);
        let ghost done = before.complete.update(at as int, true);
        let mut j: usize = 0;
        while j < n
            invariant
                j <= n,
                at < n,
                n == before.names.len(),
                before == old(self)@,
                old(self).wf(),
                !before.complete[at as int],
                self.names == old(self).names,
                self.deps == old(self).deps,
                self.started == old(self).started,
                self.order == old(self).order,
                self.complete@ == done,
                done == before.complete.update(at as int, true),
                self.in_degree@.len() == n,
                forall|x: int|
                    0 <= x < j ==> #[trigger] self.in_degree@[x] == unfinished(before.deps[x], done),
                forall|x: int|
                    j <= x < n ==> #[trigger] self.in_degree@[x] == unfinished(
                        before.deps[x],
                        before.complete,
                    ),
            decreases n - j,
        {
            proof {
                assert(self.in_degree@[j as int] == unfinished(
                    before.deps[j as int],
                    before.complete,
                ));
                assert forall|k: int| 0 <= k < before.deps[j as int].len() implies 0
                    <= #[trigger] before.deps[j as int][k] < before.complete.len() by {}
                lemma_unfinished_after(before.deps[j as int], before.complete, at as int);
            }
            if holds(&self.deps[j], at) {
                let count = self.in_degree[j];
                self.in_degree.set(j, count - 1);
            }
            j += 1;
        }
        proof {
            assert(self@.complete =~= before.after_finish(name@).complete);
            assert(self@.deps =~= before.deps);
            assert(self@ == before.after_finish(name@));
            assert(self@.well_formed());
        }
    }

    /// Checks, once nothing is in flight and nothing is ready, that nothing
    /// is left behind.
    ///
    /// Fails exactly when some package is neither complete nor ready, and
    /// then names every such package.
    pub fn ensure_no_pending(&self) -> (result: Result<(), PendingPackages>)
        requires
            self.wf(),
        ensures
            result is Ok <==> self@.stuck_nodes().len() == 0,
            result matches Err(left) ==> texts(left.names@) == self@.names_of(self@.stuck_nodes()),
    {
        let ghost graph = self@;
        let n = self.names.len();
        let mut names: Vec<String> = Vec::new();
        let mut i: usize = 0;
        while i < n
            invariant
                i <= n,
                n == graph.names.len(),
                graph == self@,
                self.wf(),
                names@.len() == graph.stuck_upto(i as int).len(),
                texts(names@) == graph.names_of(graph.stuck_upto(i as int)),
            decreases n - i,
        {
            let ghost so_far = graph.stuck_upto(i as int);
            proof {
                assert(self.in_degree@[i as int] == unfinished(graph.deps[i as int], graph.complete));
                if self.in_degree@[i as int] == 0 {
                    lemma_unfinished_zero(graph.deps[i as int], graph.complete);
                } else if graph.is_ready(i as int) {
                    lemma_ready_has_no_unfinished(graph, i as int);
                }
            }
            let ready = !self.started[i] && self.in_degree[i] == 0;
            if !self.complete[i] && !ready {
                let ghost names_so_far = names@;
                names.push(self.names[i].clone());
                proof {
                    assert(graph.stuck_upto(i + 1) == so_far.push(i as int));
                    assert forall|k: int| 0 <= k < names@.len() implies texts(names@)[k]
                        == graph.names_of(graph.stuck_upto(i + 1))[k] by {
                        if k < names_so_far.len() {
                            assert(texts(names_so_far)[k] == graph.names_of(so_far)[k]);
                        }
                    }
                    assert(texts(names@) =~= graph.names_of(graph.stuck_upto(i + 1)));
                }
            } else {
                proof {
                    assert(graph.stuck_upto(i + 1) == so_far);
                }
            }
            i += 1;
        }
        if names.len() == 0 {
            Ok(())
        } else {
            Err(PendingPackages { names })
        }
    }
}

fn holds(deps: &Vec<usize>, node: usize) -> (found: bool)
    ensures
        found == node_numbers(deps@).contains(node as int),
{
    let mut k: usize = 0;
    while k < deps.len()
        invariant
            k <= deps@.len(),
            forall|l: int| 0 <= l < k ==> deps@[l] != node,
        decreases deps@.len() - k,
    {
        if deps[k] == node {
            assert(node_numbers(deps@)[k as int] == node as int);
            return true;
        }
        k += 1;
    }
    assert forall|l: int| 0 <= l < node_numbers(deps@).len() implies node_numbers(deps@)[l]
        != node as int by {
        assert(deps@[l] != node);
    }
    false
}

proof fn lemma_ready_has_no_unfinished(graph: GraphView, i: int)
    requires
        graph.is_ready(i),
    ensures
        unfinished(graph.deps[i], graph.complete) == 0,
{
    let deps = graph.deps[i];
    if unfinished(deps, graph.complete) > 0 {
        lemma_some_unfinished(deps, graph.complete);
    }
}

proof fn lemma_some_unfinished(deps: Seq<int>, complete: Seq<bool>)
    requires
        unfinished(deps, complete) > 0,
    ensures
        exists|k: int| 0 <= k < deps.len() && !complete[#[trigger] deps[k]],
    decreases deps.len(),
{
    if deps.len() > 0 {
        if !complete[deps.last()] {
            assert(!complete[deps[deps.len() - 1]]);
        } else {
            lemma_some_unfinished(deps.drop_last(), complete);
            let k = choose|k: int|
                0 <= k < deps.drop_last().len() && !complete[#[trigger] deps.drop_last()[k]];
            assert(deps[k] == deps.drop_last()[k]);
        }
    }
}

/// The items without repetitions, each at the place of its first
/// occurrence.
pub open spec fn distinct(items: Seq<Seq<char>>) -> Seq<Seq<char>>
    decreases items.len(),
{
    if items.len() == 0 {
        Seq::empty()
    } else if distinct(items.drop_last()).contains(items.last()) {
        distinct(items.drop_last())
    } else {
        distinct(items.drop_last()).push(items.last())
    }
}

/// `cycle` is a round trip through the workspace: a non-empty list of
/// member packages in which each depends on the next and the last on the
/// first.
pub open spec fn is_package_cycle(
    members: Seq<Seq<char>>,
    dependencies: Seq<(Seq<char>, Seq<char>)>,
    cycle: Seq<Seq<char>>,
) -> bool {
    &&& cycle.len() > 0
    &&& forall|k: int| 0 <= k < cycle.len() ==> members.contains(#[trigger] cycle[k])
    &&& forall|k: int|
        0 <= k < cycle.len() ==> dependencies.contains(
            (
                #[trigger] cycle[k],
                if k + 1 < cycle.len() {
                    cycle[k + 1]
                } else {
                    cycle[0]
                },
            ),
        )
}

/// The dependencies among the members of the workspace run in a circle
/// somewhere.
pub open spec fn has_package_cycle(
    members: Seq<Seq<char>>,
    dependencies: Seq<(Seq<char>, Seq<char>)>,
) -> bool {
    exists|cycle: Seq<Seq<char>>| is_package_cycle(members, dependencies, cycle)
}

/// A circle of dependencies that makes a workspace unpublishable.
pub struct CycleError {
    /// The packages on the circle: each depends on the next, the last on
    /// the first.
    pub names: Vec<String>,
}

impl CycleError {
    /// Renders the error for the user.
    pub fn message(&self) -> (text: String)
        ensures
            text@ == "Circular package dependency detected: "@ + joined(
                texts(self.names@),
                " -> "@,
            ),
    {
        let mut text = String::from_str("Circular package dependency detected: ");
        text.append(join(&self.names, " -> ").as_str());
        text
    }
}

impl PendingPackages {
    /// Renders the error for the user.
    pub fn message(&self) -> (text: String)
        ensures
            text@ == "Publishing ended with packages that could not be published: "@ + joined(
                texts(self.names@),
                ", "@,
            ),
    {
        let mut text = String::from_str(
            "Publishing ended with packages that could not be published: ",
        );
        text.append(join(&self.names, ", ").as_str());
        text
    }
}

fn index_of(names: &Vec<String>, name: &str) -> (at: Option<usize>)
    ensures
        match at {
            Some(i) => i < names@.len() && names@[i as int]@ == name@,
            None => !texts(names@).contains(name@),
        },
{
    let mut i: usize = 0;
    while i < names.len()
        invariant
            i <= names@.len(),
            forall|j: int| 0 <= j < i ==> names@[j]@ != name@,
        decreases names@.len() - i,
    {
        if same_text(names[i].as_str(), name) {
            return Some(i);
        }
        i += 1;
    }
    assert forall|j: int| 0 <= j < texts(names@).len() implies texts(names@)[j] != name@ by {
        assert(names@[j]@ != name@);
    }
    None
}

fn distinct_names(members: &Vec<String>) -> (names: Vec<String>)
    ensures
        texts(names@) == distinct(texts(members@)),
        forall|i: int, j: int| 0 <= i < j < names@.len() ==> names@[i]@ != names@[j]@,
        forall|x: Seq<char>| texts(names@).contains(x) <==> texts(members@).contains(x),
{
    let ghost all = texts(members@);
    let mut names: Vec<String> = Vec::new();
    let mut i: usize = 0;
    while i < members.len()
        invariant
            i <= members@.len(),
            all == texts(members@),
            texts(names@) == distinct(all.take(i as int)),
            forall|a: int, b: int| 0 <= a < b < names@.len() ==> names@[a]@ != names@[b]@,
            forall|x: Seq<char>| texts(names@).contains(x) <==> all.take(i as int).contains(x),
        decreases members@.len() - i,
    {
        let ghost seen = all.take(i as int);
        let ghost kept = texts(names@);
        let ghost item = members@[i as int]@;
        let ghost now = all.take(i + 1);
        proof {
            assert(now.drop_last() =~= seen);
            assert(now.last() == item);
            assert(now =~= seen.push(item));
        }
        match index_of(&names, members[i].as_str()) {
            Some(at) => {
                proof {
                    assert(kept[at as int] == item);
                    assert(kept.contains(item));
                    assert forall|x: Seq<char>| kept.contains(x) <==> now.contains(x) by {
                        if kept.contains(x) {
                            assert(seen.contains(x));
                            let l = choose|l: int| 0 <= l < seen.len() && seen[l] == x;
                            assert(now[l] == x);
                        }
                        if now.contains(x) {
                            let k = choose|k: int| 0 <= k < now.len() && now[k] == x;
                            if k < i {
                                assert(seen[k] == x);
                                assert(seen.contains(x));
                            }
                        }
                    }
                }
            },
            None => {
                names.push(members[i].clone());
                proof {
                    let grown = texts(names@);
                    assert(grown =~= kept.push(item));
                    assert forall|a: int, b: int| 0 <= a < b < names@.len() implies names@[a]@
                        != names@[b]@ by {
                        if b == names@.len() - 1 {
                            assert(kept[a] == names@[a]@);
                        } else {
                            assert(kept[a] == names@[a]@ && kept[b] == names@[b]@);
                        }
                    }
                    assert forall|x: Seq<char>| grown.contains(x) <==> now.contains(x) by {
                        if grown.contains(x) {
                            let k = choose|k: int| 0 <= k < grown.len() && grown[k] == x;
                            if k < kept.len() {
                                assert(kept[k] == x);
                                assert(kept.contains(x));
                                assert(seen.contains(x));
                                let l = choose|l: int| 0 <= l < seen.len() && seen[l] == x;
                                assert(now[l] == x);
                            } else {
                                assert(now[i as int] == x);
                            }
                        }
                        if now.contains(x) {
                            let k = choose|k: int| 0 <= k < now.len() && now[k] == x;
                            if k < i {
                                assert(seen[k] == x);
                                assert(seen.contains(x));
                                assert(kept.contains(x));
                                let l = choose|l: int| 0 <= l < kept.len() && kept[l] == x;
                                assert(grown[l] == x);
                            } else {
                                assert(grown[grown.len() - 1] == x);
                            }
                        }
                    }
                }
            },
        }
        i += 1;
    }
    assert(all.take(members@.len() as int) =~= all);
    names
}

fn dependencies_of(names: &Vec<String>, node: usize, dependencies: &Vec<(String, String)>) -> (row:
    Vec<usize>)
    requires
        node < names@.len(),
        forall|i: int, j: int| 0 <= i < j < names@.len() ==> names@[i]@ != names@[j]@,
    ensures
        forall|k: int| 0 <= k < row@.len() ==> #[trigger] row@[k] < names@.len(),
        forall|k: int, l: int| 0 <= k < l < row@.len() ==> row@[k] != row@[l],
        forall|b: int|
            0 <= b < names@.len() ==> (node_numbers(row@).contains(b) <==> pairs_view(
                dependencies@,
            ).contains((names@[node as int]@, #[trigger] names@[b]@))),
{
    let ghost pairs = pairs_view(dependencies@);
    let ghost own = names@[node as int]@;
    let mut row: Vec<usize> = Vec::new();
    let mut j: usize = 0;
    while j < dependencies.len()
        invariant
            j <= dependencies@.len(),
            node < names@.len(),
            pairs == pairs_view(dependencies@),
            own == names@[node as int]@,
            forall|a: int, b: int| 0 <= a < b < names@.len() ==> names@[a]@ != names@[b]@,
            forall|k: int| 0 <= k < row@.len() ==> #[trigger] row@[k] < names@.len(),
            forall|k: int, l: int| 0 <= k < l < row@.len() ==> row@[k] != row@[l],
            forall|b: int|
                0 <= b < names@.len() ==> (node_numbers(row@).contains(b) <==> pairs.take(
                    j as int,
                ).contains((own, #[trigger] names@[b]@))),
        decreases dependencies@.len() - j,
    {
        let ghost row_before = row@;
        let ghost seen = pairs.take(j as int);
        let ghost pair = pairs[j as int];
        proof {
            assert(pairs.take(j + 1) =~= seen.push(pair));
        }
        let mut added: Option<usize> = None;
        if same_text(dependencies[j].0.as_str(), names[node].as_str()) {
            match index_of(names, dependencies[j].1.as_str()) {
                Some(target) => {
                    if !holds(&row, target) {
                        row.push(target);
                        proof {
                            assert forall|k: int, l: int| 0 <= k < l < row@.len() implies row@[k]
                                != row@[l] by {
                                if l == row@.len() - 1 {
                                    assert(node_numbers(row_before)[k] == row@[k]);
                                }
                            }
                        }
                    }
                    added = Some(target);
                },
                None => {},
            }
        }
        proof {
            assert forall|b: int| 0 <= b < names@.len() implies (node_numbers(row@).contains(b)
                <==> pairs.take(j + 1).contains((own, #[trigger] names@[b]@))) by {
                let wanted = (own, names@[b]@);
                let was = node_numbers(row_before).contains(b);
                assert(was <==> seen.contains(wanted));
                // what the new pair contributes
                let hit = pair == wanted;
                if hit {
                    assert(dependencies@[j as int].0@ == own);
                    assert(texts(names@)[b] == dependencies@[j as int].1@);
                    assert(added is Some);
                    if added->0 != b {
                        if (added->0 as int) < b {
                            assert(names@[added->0 as int]@ != names@[b]@);
                        } else {
                            assert(names@[b]@ != names@[added->0 as int]@);
                        }
                    }
                }
                if seen.push(pair).contains(wanted) {
                    let k = choose|k: int|
                        0 <= k < seen.push(pair).len() && seen.push(pair)[k] == wanted;
                    if k < seen.len() {
                        assert(seen[k] == wanted);
                    }
                }
                if seen.contains(wanted) {
                    let k = choose|k: int| 0 <= k < seen.len() && seen[k] == wanted;
                    assert(seen.push(pair)[k] == wanted);
                }
                if hit {
                    assert(seen.push(pair)[seen.len() as int] == wanted);
                }
                if was {
                    let k = choose|k: int|
                        0 <= k < node_numbers(row_before).len() && node_numbers(row_before)[k] == b;
                    assert(node_numbers(row@)[k] == b);
                }
                if node_numbers(row@).contains(b) && !was {
                    let k = choose|k: int|
                        0 <= k < node_numbers(row@).len() && node_numbers(row@)[k] == b;
                    if k < row_before.len() {
                        assert(node_numbers(row_before)[k] == b);
                    }
                    assert(added == Some(b as usize));
                }
                if hit && !was {
                    assert(node_numbers(row@)[row@.len() - 1] == b);
                }
            }
        }
        j += 1;
    }
    assert(pairs.take(dependencies@.len() as int) =~= pairs);
    row
}

proof fn lemma_nothing_finished(deps: Seq<int>, complete: Seq<bool>)
    requires
        forall|k: int| 0 <= k < deps.len() ==> 0 <= #[trigger] deps[k] < complete.len(),
        forall|i: int| 0 <= i < complete.len() ==> !complete[i],
    ensures
        unfinished(deps, complete) == deps.len(),
    decreases deps.len(),
{
    if deps.len() > 0 {
        assert forall|k: int| 0 <= k < deps.drop_last().len() implies 0
            <= #[trigger] deps.drop_last()[k] < complete.len() by {
            assert(deps.drop_last()[k] == deps[k]);
        }
        lemma_nothing_finished(deps.drop_last(), complete);
        assert(0 <= deps[deps.len() - 1] < complete.len());
    }
}

/// Builds the publish order of a workspace.
///
/// `members` names the packages of the workspace; a name that occurs
/// several times counts once. Each entry of `dependencies` says that its
/// first package depends on its second; entries that lead out of the
/// workspace are ignored.
///
/// Fails exactly when the dependencies among the members run in a circle,
/// and then names the packages of one such circle. Otherwise every member
/// is a node of the graph, waiting to be handed out.
pub fn build_publish_order_graph(
    members: &Vec<String>,
    dependencies: &Vec<(String, String)>,
) -> (result: Result<PublishOrderGraph, CycleError>)
    ensures
        result is Err <==> has_package_cycle(texts(members@), pairs_view(dependencies@)),
        match result {
            Ok(graph) => {
                &&& graph.wf()
                &&& graph@.names == distinct(texts(members@))
                &&& forall|a: int, b: int|
                    0 <= a < graph@.names.len() && 0 <= b < graph@.names.len() ==> (
                    #[trigger] graph@.depends(a, b) <==> pairs_view(dependencies@).contains(
                        (graph@.names[a], graph@.names[b]),
                    ))
                &&& forall|i: int|
                    0 <= i < graph@.names.len() ==> !graph@.started[i] && !graph@.complete[i]
                &&& graph@.order.len() == 0
            },
            Err(cycle) => is_package_cycle(
                texts(members@),
                pairs_view(dependencies@),
                texts(cycle.names@),
            ),
        },
{
    let ghost member_names = texts(members@);
    let ghost pairs = pairs_view(dependencies@);
    let names = distinct_names(members);
    let n = names.len();
    let mut deps: Vec<Vec<usize>> = Vec::new();
    let mut a: usize = 0;
    while a < n
        invariant
            a <= n,
            n == names@.len(),
            pairs == pairs_view(dependencies@),
            deps@.len() == a,
            forall|i: int, j: int| 0 <= i < j < names@.len() ==> names@[i]@ != names@[j]@,
            forall|i: int, k: int|
                0 <= i < a && 0 <= k < deps@[i]@.len() ==> #[trigger] deps@[i]@[k] < n,
            forall|i: int, k: int, l: int|
                0 <= i < a && 0 <= k < l < deps@[i]@.len() ==> deps@[i]@[k] != deps@[i]@[l],
            forall|i: int, b: int|
                0 <= i < a && 0 <= b < n ==> (#[trigger] node_numbers(deps@[i]@).contains(b)
                    <==> pairs.contains((names@[i]@, names@[b]@))),
        decreases n - a,
    {
        let row = dependencies_of(&names, a, dependencies);
        deps.push(row);
        a += 1;
    }
    let ghost graph = rows(deps@);
    proof {
        assert forall|i: int, k: int| 0 <= i < graph.len() && 0 <= k < graph[i].len() implies 0
            <= #[trigger] graph[i][k] < graph.len() by {
            assert(deps@[i]@[k] < n);
        }
    }
    match find_cycle(&deps) {
        Some(found) => {
            let mut cycle: Vec<String> = Vec::new();
            let mut k: usize = 0;
            assert forall|l: int| 0 <= l < found@.len() implies #[trigger] found@[l] < n by {
                assert(0 <= node_numbers(found@)[l] < graph.len());
            }
            while k < found.len()
                invariant
                    k <= found@.len(),
                    n == names@.len(),
                    forall|l: int| 0 <= l < found@.len() ==> #[trigger] found@[l] < n,
                    cycle@.len() == k,
                    forall|l: int| 0 <= l < k ==> (#[trigger] cycle@[l])@ == names@[found@[l] as int]@,
                decreases found@.len() - k,
            {
                assert(found@[k as int] < n);
                cycle.push(names[found[k]].clone());
                k += 1;
            }
            proof {
                let nodes = node_numbers(found@);
                let round = texts(cycle@);
                assert forall|l: int| 0 <= l < round.len() implies member_names.contains(
                    #[trigger] round[l],
                ) by {
                    assert(round[l] == texts(names@)[nodes[l]]);
                    assert(texts(names@).contains(round[l]));
                }
                assert forall|l: int| 0 <= l < round.len() implies pairs.contains(
                    (
                        #[trigger] round[l],
                        if l + 1 < round.len() {
                            round[l + 1]
                        } else {
                            round[0]
                        },
                    ),
                ) by {
                    let from = nodes[l];
                    let to = successor(nodes, l);
                    assert(graph[from].contains(to));
                    assert(node_numbers(deps@[from]@).contains(to));
                    assert(0 <= nodes[0] < n);
                    if l + 1 < round.len() {
                        assert(0 <= nodes[l + 1] < n);
                    }
                }
                assert(is_package_cycle(member_names, pairs, round));
            }
            Err(CycleError { names: cycle })
        },
        None => {
            let mut in_degree: Vec<usize> = Vec::new();
            let started = all_false(n);
            let complete = all_false(n);
            let mut i: usize = 0;
            while i < n
                invariant
                    i <= n,
                    n == deps@.len(),
                    graph == rows(deps@),
                    closed_graph(graph),
                    complete@.len() == n,
                    forall|x: int| 0 <= x < n ==> !complete@[x],
                    in_degree@.len() == i,
                    forall|x: int|
                        0 <= x < i ==> #[trigger] in_degree@[x] == unfinished(graph[x], complete@),
                decreases n - i,
            {
                proof {
                    assert forall|k: int| 0 <= k < graph[i as int].len() implies 0
                        <= #[trigger] graph[i as int][k] < complete@.len() by {}
                    lemma_nothing_finished(graph[i as int], complete@);
                }
                in_degree.push(deps[i].len());
                i += 1;
            }
            let built = PublishOrderGraph {
                names,
                deps,
                in_degree,
                started,
                complete,
                order: Ghost(Seq::empty()),
            };
            proof {
                let view = built@;
                assert(view.deps =~= graph);
                assert forall|i: int, k: int, l: int|
                    0 <= i < n && 0 <= k < l < view.deps[i].len() implies view.deps[i][k]
                    != view.deps[i][l] by {
                    assert(built.deps@[i]@[k] != built.deps@[i]@[l]);
                }
                assert forall|i: int, k: int| 0 <= i < n && 0 <= k < view.deps[i].len() implies 0
                    <= #[trigger] view.deps[i][k] < n by {
                    assert(built.deps@[i]@[k] < n);
                }
                assert forall|i: int, j: int| 0 <= i < j < n implies view.names[i]
                    != view.names[j] by {
                    assert(built.names@[i]@ != built.names@[j]@);
                }
                assert(view.well_formed());
                assert forall|a: int, b: int|
                    0 <= a < view.names.len() && 0 <= b < view.names.len() implies (
                #[trigger] view.depends(a, b) <==> pairs.contains(
                    (view.names[a], view.names[b]),
                )) by {
                    assert(node_numbers(built.deps@[a]@).contains(b) <==> pairs.contains(
                        (built.names@[a]@, built.names@[b]@),
                    ));
                }
                if has_package_cycle(member_names, pairs) {
                    let round = choose|round: Seq<Seq<char>>|
                        is_package_cycle(member_names, pairs, round);
                    let nodes = Seq::new(
                        round.len(),
                        |k: int| choose|i: int| 0 <= i < n && view.names[i] == round[k],
                    );
                    assert forall|k: int| 0 <= k < round.len() implies 0 <= #[trigger] nodes[k] < n
                        && view.names[nodes[k]] == round[k] by {
                        assert(member_names.contains(round[k]));
                        assert(texts(built.names@).contains(round[k]));
                        let i = choose|i: int|
                            0 <= i < texts(built.names@).len() && texts(built.names@)[i]
                                == round[k];
                        assert(0 <= i < n && view.names[i] == round[k]);
                    }
                    assert forall|k: int| 0 <= k < nodes.len() implies 0 <= #[trigger] nodes[k]
                        < graph.len() && graph[nodes[k]].contains(successor(nodes, k)) by {
                        let to = successor(nodes, k);
                        assert(0 <= nodes[0] < n);
                        if k + 1 < nodes.len() {
                            assert(0 <= nodes[k + 1] < n);
                        }
                        assert(pairs.contains(
                            (
                                round[k],
                                if k + 1 < round.len() {
                                    round[k + 1]
                                } else {
                                    round[0]
                                },
                            ),
                        ));
                        assert(view.depends(nodes[k], to));
                    }
                    assert(is_node_cycle(graph, nodes));
                    assert(false);
                }
            }
            Ok(built)
        },
    }
}

} // verus!
