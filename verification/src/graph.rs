//! The node graph: an arena of nodes addressed by dense indices, a set of
//! directed edges, and one designated destination node.
//!
//! The destination node is created with the graph, at index zero, and never
//! has outgoing edges. After construction, `finalize` computes a single
//! static topological order over the edges; it fails with `CyclicGraph`
//! exactly when no such order exists. Once an order is cached, structure is
//! fixed.
use crate::node::{node_wf, DebugNode, Node};
use vstd::pervasive::VecAdditionalExecFns;
use vstd::prelude::*;
use vstd::set_lib::{lemma_int_range, lemma_len_subset, lemma_subset_equality, set_int_range};

verus! {

/// Index of the destination node in every graph.
pub const DEST_INDEX: usize = 0;

/// An opaque, stable reference to a node inside the graph that produced
/// it. It carries the graph's identity so a reference from another graph
/// is recognised and refused.
#[derive(Clone, Copy, PartialEq, Eq, Structural)]
pub struct NodeReference {
    pub graph_id: u64,
    pub index: usize,
}

/// A directed connection: the source's output block is part of the
/// destination's input on the next render.
#[derive(Clone, Copy, PartialEq, Eq, Structural)]
pub struct Edge {
    pub source: usize,
    pub dest: usize,
}

/// Structural graph-construction errors, fatal to stream startup.
#[derive(Clone, Copy, PartialEq, Eq, Structural, Debug)]
pub enum GraphError {
    /// An endpoint reference was not produced by this graph.
    UnknownNodeReference,
    /// The edge set admits no topological order.
    CyclicGraph,
}

/// The node arena, the edge set, and the cached topological order.
pub struct Graph {
    pub id: u64,
    pub nodes: Vec<Node>,
    pub edges: Vec<Edge>,
    pub order: Option<Vec<usize>>,
}

/// Every edge stays inside the arena, and none leaves the destination.
pub open spec fn edges_wf(edges: Seq<Edge>, n: nat) -> bool {
    forall|k: int|
        0 <= k < edges.len() ==> 1 <= (#[trigger] edges[k]).source < n && edges[k].dest < n
}

/// `ord` lists each node index below `n` exactly once.
pub open spec fn is_permutation(ord: Seq<usize>, n: nat) -> bool {
    &&& ord.len() == n
    &&& forall|i: int| 0 <= i < ord.len() ==> (#[trigger] ord[i]) < n
    &&& forall|i: int, j: int| 0 <= i < j < ord.len() ==> ord[i] != ord[j]
    &&& forall|v: usize| v < n ==> ord.contains(v)
}

/// Every edge's source appears before its destination in `ord`.
pub open spec fn respects_edges(ord: Seq<usize>, edges: Seq<Edge>) -> bool {
    forall|k: int, i: int, j: int|
        #![trigger edges[k], ord[i], ord[j]]
        0 <= k < edges.len() && 0 <= i < ord.len() && 0 <= j < ord.len() && ord[i]
            == edges[k].source && ord[j] == edges[k].dest ==> i < j
}

/// A topological order of the `n` nodes over the edge set.
pub open spec fn is_topo_order(ord: Seq<usize>, edges: Seq<Edge>, n: nat) -> bool {
    is_permutation(ord, n) && respects_edges(ord, edges)
}

/// A well-formed graph: a destination at index zero, well-formed nodes,
/// in-range edges, and, if cached, a genuine topological order.
pub open spec fn graph_wf(g: &Graph) -> bool {
    &&& 1 <= g.nodes@.len()
    &&& g.nodes@[DEST_INDEX as int] is Debug
    &&& forall|i: int| 0 <= i < g.nodes@.len() ==> node_wf(&(#[trigger] g.nodes@[i]))
    &&& edges_wf(g.edges@, g.nodes@.len() as nat)
    &&& (g.order is Some ==> is_topo_order(
        g.order->Some_0@,
        g.edges@,
        g.nodes@.len() as nat,
    ))
}

/// Whether a reference belongs to this graph.
pub open spec fn owns_ref(g: &Graph, r: NodeReference) -> bool {
    r.graph_id == g.id && r.index < g.nodes@.len()
}

/// The edges that `chain` adds for a sequence of references: one edge
/// between each consecutive pair, and one from the last to the
/// destination. An empty chain adds nothing.
pub open spec fn chain_edges(refs: Seq<NodeReference>) -> Seq<Edge> {
    if refs.len() == 0 {
        Seq::empty()
    } else {
        Seq::new(
            refs.len(),
            |i: int|
                Edge {
                    source: refs[i].index,
                    dest: if i + 1 < refs.len() {
                        refs[i + 1].index
                    } else {
                        DEST_INDEX
                    },
                },
        )
    }
}

impl Graph {
    /// An empty graph under the given identity: only the destination node,
    /// no edges, no cached order. Callers give each graph a distinct
    /// identity; references carry it.
    pub fn new(id: u64) -> (g: Graph)
        ensures
            graph_wf(&g),
            g.id == id,
            g.nodes@.len() == 1,
            g.edges@.len() == 0,
            g.order is None,
    {
        let mut nodes: Vec<Node> = Vec::new();
        nodes.push(Node::Debug(DebugNode));
        Graph { id, nodes, edges: Vec::new(), order: None }
    }

    /// The reference of the destination node.
    pub fn destination(&self) -> (r: NodeReference)
        requires
            graph_wf(self),
        ensures
            r.graph_id == self.id,
            r.index == DEST_INDEX,
            owns_ref(self, r),
    {
        NodeReference { graph_id: self.id, index: DEST_INDEX }
    }

    /// Insert a node and hand back a stable reference to it.
    pub fn add_node(&mut self, node: Node) -> (r: NodeReference)
        requires
            graph_wf(&*old(self)),
            node_wf(&node),
            old(self).order is None,
            old(self).nodes@.len() < usize::MAX,
        ensures
            graph_wf(&*final(self)),
            final(self).id == old(self).id,
            final(self).edges@ == old(self).edges@,
            final(self).order is None,
            final(self).nodes@ == old(self).nodes@.push(node),
            r.graph_id == old(self).id,
            r.index == old(self).nodes@.len(),
            owns_ref(&*final(self), r),
    {
        let index = self.nodes.len();
        self.nodes.push(node);
        NodeReference { graph_id: self.id, index }
    }

    /// Add one edge. Fails with `UnknownNodeReference` exactly when either
    /// endpoint was not produced by this graph. The source may not be the
    /// destination node, which never has outgoing edges.
    pub fn connect(&mut self, src: NodeReference, dst: NodeReference) -> (r: Result<
        (),
        GraphError,
    >)
        requires
            graph_wf(&*old(self)),
            old(self).order is None,
            src.index != DEST_INDEX,
        ensures
            graph_wf(&*final(self)),
            final(self).id == old(self).id,
            final(self).nodes@ == old(self).nodes@,
            final(self).order is None,
            match r {
                Ok(_) => {
                    &&& owns_ref(&*old(self), src)
                    &&& owns_ref(&*old(self), dst)
                    &&& final(self).edges@ == old(self).edges@.push(
                        Edge { source: src.index, dest: dst.index },
                    )
                },
                Err(e) => {
                    &&& e == GraphError::UnknownNodeReference
                    &&& !(owns_ref(&*old(self), src) && owns_ref(&*old(self), dst))
                    &&& final(self).edges@ == old(self).edges@
                },
            },
    {
        if src.graph_id != self.id || dst.graph_id != self.id || src.index >= self.nodes.len()
            || dst.index >= self.nodes.len() {
            return Err(GraphError::UnknownNodeReference);
        }
        self.edges.push(Edge { source: src.index, dest: dst.index });
        Ok(())
    }

    /// Create edges along a sequence of references, then one final edge
    /// from the last reference to the destination node. Fails with
    /// `UnknownNodeReference`, adding nothing, exactly when some reference
    /// was not produced by this graph.
    pub fn chain(&mut self, refs: &Vec<NodeReference>) -> (r: Result<(), GraphError>)
        requires
            graph_wf(&*old(self)),
            old(self).order is None,
            forall|i: int| 0 <= i < refs@.len() ==> (#[trigger] refs@[i]).index != DEST_INDEX,
        ensures
            graph_wf(&*final(self)),
            final(self).id == old(self).id,
            final(self).nodes@ == old(self).nodes@,
            final(self).order is None,
            match r {
                Ok(_) => {
                    &&& forall|i: int|
                        0 <= i < refs@.len() ==> owns_ref(&*old(self), #[trigger] refs@[i])
                    &&& final(self).edges@ == old(self).edges@ + chain_edges(refs@)
                },
                Err(e) => {
                    &&& e == GraphError::UnknownNodeReference
                    &&& exists|i: int|
                        0 <= i < refs@.len() && !owns_ref(&*old(self), #[trigger] refs@[i])
                    &&& final(self).edges@ == old(self).edges@
                },
            },
    {
        let ghost g0 = *self;
        let mut i: usize = 0;
        while i < refs.len()
            invariant
                i <= refs@.len(),
                *self == g0,
                g0 == *old(self),
                graph_wf(&g0),
                g0.order is None,
                forall|j: int| 0 <= j < i ==> owns_ref(&g0, #[trigger] refs@[j]),
            decreases refs@.len() - i,
        {
            let rf = refs[i];
            if rf.graph_id != self.id || rf.index >= self.nodes.len() {
                return Err(GraphError::UnknownNodeReference);
            }
            i += 1;
        }
        let mut k: usize = 0;
        while k < refs.len()
            invariant
                k <= refs@.len(),
                graph_wf(self),
                g0 == *old(self),
                forall|i: int| 0 <= i < refs@.len() ==> (#[trigger] refs@[i]).index != DEST_INDEX,
                self.id == g0.id,
                self.nodes@ == g0.nodes@,
                self.order is None,
                forall|j: int| 0 <= j < refs@.len() ==> owns_ref(&g0, #[trigger] refs@[j]),
                self.edges@ == g0.edges@ + chain_edges(refs@).take(k as int),
            decreases refs@.len() - k,
        {
            let src = refs[k].index;
            let dst = if k + 1 < refs.len() {
                refs[k + 1].index
            } else {
                DEST_INDEX
            };
            let ghost edges_pre = self.edges@;
            self.edges.push(Edge { source: src, dest: dst });
            proof {
                assert(self.edges@ =~= g0.edges@ + chain_edges(refs@).take(k + 1));
            }
            k += 1;
        }
        proof {
            assert(self.edges@ =~= g0.edges@ + chain_edges(refs@));
        }
        Ok(())
    }
}

// ---------------------------------------------------------------------------
// Topological ordering
// ---------------------------------------------------------------------------

/// Whether one edge into `d` still waits on a source that has not been
/// processed.
pub open spec fn edge_contrib(e: Edge, d: usize, popped: Seq<usize>) -> nat {
    if e.dest == d && !popped.contains(e.source) {
        1nat
    } else {
        0nat
    }
}

/// How many edges into `d` still have an unprocessed source.
pub open spec fn count_pending(edges: Seq<Edge>, d: usize, popped: Seq<usize>) -> nat
    decreases edges.len(),
{
    if edges.len() == 0 {
        0nat
    } else {
        edge_contrib(edges[0], d, popped) + count_pending(edges.drop_first(), d, popped)
    }
}

/// Every already-listed destination has its sources listed earlier.
pub open spec fn prefix_closed(edges: Seq<Edge>, ord: Seq<usize>) -> bool {
    forall|k: int, j: int|
        0 <= k < edges.len() && 0 <= j < ord.len() && (#[trigger] ord[j]) == (
        #[trigger] edges[k]).dest ==> exists|i: int| 0 <= i < j && ord[i] == edges[k].source
}

/// Every node outside `popped` still waits on an edge from another node
/// outside `popped`: the situation in which the ordering stalls.
pub open spec fn stalled(edges: Seq<Edge>, n: nat, popped: Seq<usize>) -> bool {
    forall|d: usize|
        d < n && !(#[trigger] popped.contains(d)) ==> exists|k: int|
            0 <= k < edges.len() && (#[trigger] edges[k]).dest == d && !popped.contains(
                edges[k].source,
            )
}

proof fn lemma_contains_push(s: Seq<usize>, v: usize, x: usize)
    ensures
        s.push(v).contains(x) <==> (s.contains(x) || x == v),
{
    if s.contains(x) {
        let i = choose|i: int| 0 <= i < s.len() && s[i] == x;
        assert(s.push(v)[i] == x);
    }
    assert(s.push(v)[s.len() as int] == v);
    if s.push(v).contains(x) && x != v {
        let i = choose|i: int| 0 <= i < s.push(v).len() && s.push(v)[i] == x;
        assert(i < s.len());
        assert(s[i] == x);
    }
}

proof fn lemma_count_le_len(edges: Seq<Edge>, d: usize, popped: Seq<usize>)
    ensures
        count_pending(edges, d, popped) <= edges.len(),
    decreases edges.len(),
{
    if edges.len() > 0 {
        lemma_count_le_len(edges.drop_first(), d, popped);
    }
}

proof fn lemma_count_push(edges: Seq<Edge>, e: Edge, d: usize, popped: Seq<usize>)
    ensures
        count_pending(edges.push(e), d, popped) == count_pending(edges, d, popped)
            + edge_contrib(e, d, popped),
    decreases edges.len(),
{
    assert(edges.push(e).len() == edges.len() + 1);
    if edges.len() == 0 {
        assert(edges.push(e)[0] == e);
        assert(edges.push(e).drop_first() =~= Seq::<Edge>::empty());
        assert(count_pending(edges.push(e), d, popped) == edge_contrib(e, d, popped)
            + count_pending(Seq::<Edge>::empty(), d, popped));
    } else {
        assert(edges.push(e)[0] == edges[0]);
        assert(edges.push(e).drop_first() =~= edges.drop_first().push(e));
        lemma_count_push(edges.drop_first(), e, d, popped);
        assert(count_pending(edges.push(e), d, popped) == edge_contrib(edges[0], d, popped)
            + count_pending(edges.drop_first().push(e), d, popped));
    }
}

proof fn lemma_count_skip_step(edges: Seq<Edge>, k: int, d: usize, popped: Seq<usize>)
    requires
        0 <= k < edges.len(),
    ensures
        count_pending(edges.skip(k), d, popped) == edge_contrib(edges[k], d, popped)
            + count_pending(edges.skip(k + 1), d, popped),
{
    assert(edges.skip(k)[0] == edges[k]);
    assert(edges.skip(k).drop_first() =~= edges.skip(k + 1));
}

proof fn lemma_count_zero_iff(edges: Seq<Edge>, d: usize, popped: Seq<usize>)
    ensures
        (count_pending(edges, d, popped) == 0) <==> (forall|k: int|
            0 <= k < edges.len() ==> edge_contrib(#[trigger] edges[k], d, popped) == 0),
    decreases edges.len(),
{
    if edges.len() == 0 {
    } else {
        lemma_count_zero_iff(edges.drop_first(), d, popped);
        if count_pending(edges, d, popped) == 0 {
            assert forall|k: int|
                0 <= k < edges.len() implies edge_contrib(#[trigger] edges[k], d, popped)
                == 0 by {
                if k > 0 {
                    assert(edges.drop_first()[k - 1] == edges[k]);
                    assert(edge_contrib(edges.drop_first()[k - 1], d, popped) == 0);
                }
            }
        }
        if forall|k: int| 0 <= k < edges.len() ==> edge_contrib(#[trigger] edges[k], d, popped)
            == 0 {
            assert(edge_contrib(edges[0], d, popped) == 0);
            assert forall|k: int|
                0 <= k < edges.drop_first().len() implies edge_contrib(
                #[trigger] edges.drop_first()[k],
                d,
                popped,
            ) == 0 by {
                assert(edges.drop_first()[k] == edges[k + 1]);
                assert(edge_contrib(edges[k + 1], d, popped) == 0);
            }
            assert(count_pending(edges.drop_first(), d, popped) == 0);
        }
    }
}

/// A sequence of distinct indices below `n` has at most `n` entries.
proof fn lemma_distinct_bound(s: Seq<usize>, n: nat)
    requires
        forall|i: int| 0 <= i < s.len() ==> (#[trigger] s[i]) < n,
        forall|i: int, j: int| 0 <= i < j < s.len() ==> s[i] != s[j],
    ensures
        s.len() <= n,
{
    let sm = s.map_values(|u: usize| u as int);
    assert(sm.no_duplicates()) by {
        assert forall|i: int, j: int|
            0 <= i < sm.len() && 0 <= j < sm.len() && i != j implies sm[i] != sm[j] by {
            if i < j {
                assert(s[i] != s[j]);
            } else {
                assert(s[j] != s[i]);
            }
        }
    }
    sm.unique_seq_to_set();
    assert(sm.to_set().subset_of(set_int_range(0, n as int))) by {
        assert forall|x: int| sm.to_set().contains(x) implies set_int_range(0, n as int).contains(
            x,
        ) by {
            let i = choose|i: int| 0 <= i < sm.len() && sm[i] == x;
            assert(s[i] < n);
        }
    }
    lemma_int_range(0, n as int);
    lemma_len_subset(sm.to_set(), set_int_range(0, n as int));
}

/// A sequence of `n` distinct indices below `n` lists every index.
proof fn lemma_full_perm_contains(s: Seq<usize>, n: nat)
    requires
        s.len() == n,
        forall|i: int| 0 <= i < s.len() ==> (#[trigger] s[i]) < n,
        forall|i: int, j: int| 0 <= i < j < s.len() ==> s[i] != s[j],
    ensures
        forall|v: usize| v < n ==> s.contains(v),
{
    let sm = s.map_values(|u: usize| u as int);
    assert(sm.no_duplicates()) by {
        assert forall|i: int, j: int|
            0 <= i < sm.len() && 0 <= j < sm.len() && i != j implies sm[i] != sm[j] by {
            if i < j {
                assert(s[i] != s[j]);
            } else {
                assert(s[j] != s[i]);
            }
        }
    }
    sm.unique_seq_to_set();
    assert(sm.to_set().subset_of(set_int_range(0, n as int))) by {
        assert forall|x: int| sm.to_set().contains(x) implies set_int_range(0, n as int).contains(
            x,
        ) by {
            let i = choose|i: int| 0 <= i < sm.len() && sm[i] == x;
            assert(s[i] < n);
        }
    }
    lemma_int_range(0, n as int);
    lemma_len_subset(sm.to_set(), set_int_range(0, n as int));
    lemma_subset_equality(sm.to_set(), set_int_range(0, n as int));
    assert forall|v: usize| v < n implies s.contains(v) by {
        assert(set_int_range(0, n as int).contains(v as int));
        assert(sm.to_set().contains(v as int));
        let i = choose|i: int| 0 <= i < sm.len() && sm[i] == v as int;
        assert(s[i] == v);
    }
}

/// In a stalled state some node is still unprocessed.
proof fn lemma_unpopped_exists(popped: Seq<usize>, n: nat) -> (v: usize)
    requires
        n <= usize::MAX,
        popped.len() < n,
        forall|i: int| 0 <= i < popped.len() ==> (#[trigger] popped[i]) < n,
        forall|i: int, j: int| 0 <= i < j < popped.len() ==> popped[i] != popped[j],
    ensures
        v < n,
        !popped.contains(v),
{
    if forall|u: usize| u < n ==> #[trigger] popped.contains(u) {
        let sm = popped.map_values(|u: usize| u as int);
        assert(sm.no_duplicates()) by {
            assert forall|i: int, j: int|
                0 <= i < sm.len() && 0 <= j < sm.len() && i != j implies sm[i] != sm[j] by {
                if i < j {
                    assert(popped[i] != popped[j]);
                } else {
                    assert(popped[j] != popped[i]);
                }
            }
        }
        sm.unique_seq_to_set();
        assert(set_int_range(0, n as int).subset_of(sm.to_set())) by {
            assert forall|x: int| set_int_range(0, n as int).contains(x) implies sm.to_set()
                .contains(x) by {
                assert(0 <= x < n as int);
                let u = x as usize;
                assert(popped.contains(u));
                let i = choose|i: int| 0 <= i < popped.len() && popped[i] == u;
                assert(sm[i] == x);
            }
        }
        lemma_int_range(0, n as int);
        lemma_len_subset(set_int_range(0, n as int), sm.to_set());
        assert(false);
    }
    choose|v: usize| v < n && !popped.contains(v)
}

/// The first position in `ord` holding an unprocessed node, at or before a
/// known unprocessed position.
proof fn lemma_first_unpopped(ord: Seq<usize>, popped: Seq<usize>, i: int) -> (i0: int)
    requires
        0 <= i < ord.len(),
        !popped.contains(ord[i]),
    ensures
        0 <= i0 <= i,
        !popped.contains(ord[i0]),
        forall|j: int| 0 <= j < i0 ==> popped.contains(#[trigger] ord[j]),
    decreases i,
{
    if forall|j: int| 0 <= j < i ==> popped.contains(#[trigger] ord[j]) {
        i
    } else {
        let j = choose|j: int| 0 <= j < i && !popped.contains(#[trigger] ord[j]);
        lemma_first_unpopped(ord, popped, j)
    }
}

/// Copy a vector of indices.
pub(crate) fn copy_usize_vec(src: &Vec<usize>) -> (out: Vec<usize>)
    ensures
        out@ == src@,
{
    let mut out: Vec<usize> = Vec::new();
    let mut i: usize = 0;
    while i < src.len()
        invariant
            i == out@.len(),
            i <= src@.len(),
            forall|j: int| 0 <= j < i ==> out@[j] == src@[j],
        decreases src@.len() - i,
    {
        out.push(src[i]);
        i += 1;
    }
    proof {
        assert(out@ =~= src@);
    }
    out
}

impl Graph {
    /// Compute and cache a topological order over the edge set. Succeeds
    /// with a valid order exactly when one exists; fails with
    /// `CyclicGraph` exactly when none does, leaving the graph open.
    pub fn finalize(&mut self) -> (r: Result<Vec<usize>, GraphError>)
        requires
            graph_wf(&*old(self)),
            old(self).order is None,
        ensures
            graph_wf(&*final(self)),
            final(self).id == old(self).id,
            final(self).nodes@ == old(self).nodes@,
            final(self).edges@ == old(self).edges@,
            match r {
                Ok(ord) => {
                    &&& is_topo_order(ord@, old(self).edges@, old(self).nodes@.len() as nat)
                    &&& final(self).order matches Some(cached) && cached@ == ord@
                },
                Err(e) => {
                    &&& e == GraphError::CyclicGraph
                    &&& final(self).order is None
                    &&& forall|ord: Seq<usize>|
                        !is_topo_order(ord, old(self).edges@, old(self).nodes@.len() as nat)
                },
            },
    {
        let n = self.nodes.len();
        let m = self.edges.len();
        let ghost es = self.edges@;
        let mut indeg: Vec<u64> = Vec::new();
        while indeg.len() < n
            invariant
                indeg@.len() <= n,
                forall|d: int| 0 <= d < indeg@.len() ==> indeg@[d] == 0u64,
            decreases n - indeg@.len(),
        {
            indeg.push(0);
        }
        let mut k: usize = 0;
        while k < m
            invariant
                k <= m,
                m == es.len(),
                es == self.edges@,
                *self == *old(self),
                edges_wf(es, n as nat),
                n == self.nodes@.len(),
                indeg@.len() == n,
                forall|d: usize|
                    d < n ==> (#[trigger] indeg@[d as int]) as nat == count_pending(
                        es.take(k as int),
                        d,
                        Seq::<usize>::empty(),
                    ),
            decreases m - k,
        {
            let e = self.edges[k];
            let cur = indeg[e.dest];
            proof {
                lemma_count_le_len(es.take(k as int), e.dest, Seq::<usize>::empty());
            }
            indeg.set(e.dest, cur + 1);
            proof {
                assert(es.take(k + 1) =~= es.take(k as int).push(e));
                assert forall|d: usize|
                    d < n implies (#[trigger] indeg@[d as int]) as nat == count_pending(
                    es.take(k + 1),
                    d,
                    Seq::<usize>::empty(),
                ) by {
                    lemma_count_push(es.take(k as int), e, d, Seq::<usize>::empty());
                }
            }
            k += 1;
        }
        proof {
            assert(es.take(m as int) =~= es);
        }
        let mut q: Vec<usize> = Vec::new();
        let mut v: usize = 0;
        while v < n
            invariant
                v <= n,
                indeg@.len() == n,
                forall|d: usize|
                    d < n ==> (#[trigger] indeg@[d as int]) as nat == count_pending(
                        es,
                        d,
                        Seq::<usize>::empty(),
                    ),
                forall|i: int| 0 <= i < q@.len() ==> (#[trigger] q@[i]) < v,
                forall|i: int, j: int| 0 <= i < j < q@.len() ==> q@[i] != q@[j],
                q@.len() <= n,
                forall|u: usize| u < v ==> ((indeg@[u as int] == 0u64) <==> q@.contains(u)),
            decreases n - v,
        {
            if indeg[v] == 0 {
                let ghost q_pre = q@;
                q.push(v);
                proof {
                    lemma_distinct_bound(q@, n as nat);
                    assert forall|u: usize|
                        u < v + 1 implies ((indeg@[u as int] == 0u64) <==> q@.contains(u)) by {
                        lemma_contains_push(q_pre, v, u);
                    }
                }
            } else {
                proof {
                    assert forall|u: usize|
                        u < v + 1 implies ((indeg@[u as int] == 0u64) <==> q@.contains(u)) by {
                        if u == v && q@.contains(u) {
                            let i = choose|i: int| 0 <= i < q@.len() && q@[i] == u;
                            assert(q@[i] < v);
                        }
                    }
                }
            }
            v += 1;
        }
        proof {
            assert(q@.take(0) =~= Seq::<usize>::empty());
        }
        let mut h: usize = 0;
        while h < q.len()
            invariant
                n == self.nodes@.len(),
                m == es.len(),
                es == self.edges@,
                *self == *old(self),
                edges_wf(es, n as nat),
                indeg@.len() == n,
                h <= q@.len(),
                q@.len() <= n,
                forall|i: int| 0 <= i < q@.len() ==> (#[trigger] q@[i]) < n,
                forall|i: int, j: int| 0 <= i < j < q@.len() ==> q@[i] != q@[j],
                forall|d: usize|
                    d < n ==> (#[trigger] indeg@[d as int]) as nat == count_pending(
                        es,
                        d,
                        q@.take(h as int),
                    ),
                forall|u: usize| u < n ==> ((indeg@[u as int] == 0u64) <==> q@.contains(u)),
                prefix_closed(es, q@.take(h as int)),
            decreases n - h,
        {
            let v = q[h];
            let ghost popped = q@.take(h as int);
            proof {
                assert(q@.contains(v)) by {
                    assert(q@[h as int] == v);
                }
                assert(!popped.contains(v)) by {
                    if popped.contains(v) {
                        let i = choose|i: int| 0 <= i < popped.len() && popped[i] == v;
                        assert(q@[i] == q@[h as int]);
                    }
                }
                assert(q@.take(h + 1) =~= popped.push(v));
                lemma_count_zero_iff(es, v, popped);
                assert(prefix_closed(es, q@.take(h + 1))) by {
                    assert forall|k2: int, j: int|
                        0 <= k2 < es.len() && 0 <= j < q@.take(h + 1).len() && (#[trigger] q@.take(
                            h + 1,
                        )[j]) == (#[trigger] es[k2]).dest implies exists|i: int|
                        0 <= i < j && #[trigger] q@.take(h + 1)[i] == es[k2].source by {
                        if j < h {
                            assert(popped[j] == es[k2].dest);
                            let i = choose|i: int| 0 <= i < j && popped[i] == es[k2].source;
                            assert(q@.take(h + 1)[i] == es[k2].source);
                        } else {
                            assert(q@.take(h + 1)[j] == v);
                            assert(edge_contrib(es[k2], v, popped) == 0);
                            assert(popped.contains(es[k2].source));
                            let i = choose|i: int|
                                0 <= i < popped.len() && popped[i] == es[k2].source;
                            assert(q@.take(h + 1)[i] == es[k2].source);
                        }
                    }
                }
            }
            proof {
                assert(es.take(0) =~= Seq::<Edge>::empty());
                assert(es.skip(0) =~= es);
            }
            let mut k2: usize = 0;
            while k2 < m
                invariant
                    n == self.nodes@.len(),
                    m == es.len(),
                    es == self.edges@,
                    *self == *old(self),
                    edges_wf(es, n as nat),
                    indeg@.len() == n,
                    h < q@.len(),
                    q@.len() <= n,
                    v == q@[h as int],
                    popped == q@.take(h as int),
                    !popped.contains(v),
                    k2 <= m,
                    forall|i: int| 0 <= i < q@.len() ==> (#[trigger] q@[i]) < n,
                    forall|i: int, j: int| 0 <= i < j < q@.len() ==> q@[i] != q@[j],
                    forall|d: usize|
                        d < n ==> (#[trigger] indeg@[d as int]) as nat == count_pending(
                            es.take(k2 as int),
                            d,
                            q@.take(h + 1),
                        ) + count_pending(es.skip(k2 as int), d, popped),
                    forall|u: usize| u < n ==> ((indeg@[u as int] == 0u64) <==> q@.contains(u)),
                    prefix_closed(es, q@.take(h + 1)),
                decreases m - k2,
            {
                let e = self.edges[k2];
                proof {
                    assert(q@.take(h + 1) =~= popped.push(v));
                    assert(q@.take(h + 1)[h as int] == v);
                    assert(q@.take(h + 1).contains(v));
                    assert(es.take(k2 + 1) =~= es.take(k2 as int).push(e));
                    lemma_count_skip_step(es, k2 as int, e.dest, popped);
                }
                if e.source == v {
                    let cur = indeg[e.dest];
                    proof {
                        assert(edge_contrib(e, e.dest, popped) == 1);
                        assert(cur >= 1);
                    }
                    indeg.set(e.dest, cur - 1);
                    let pushed: bool = cur - 1 == 0;
                    let ghost q_pre = q@;
                    if pushed {
                        q.push(e.dest);
                    }
                    proof {
                        if pushed {
                            assert(!q_pre.contains(e.dest));
                            lemma_distinct_bound(q@, n as nat);
                            assert(q@.take(h + 1) =~= q_pre.take(h + 1));
                            assert(q@.take(h as int) =~= q_pre.take(h as int));
                        }
                        assert forall|u: usize|
                            u < n implies ((indeg@[u as int] == 0u64) <==> q@.contains(u)) by {
                            if pushed {
                                lemma_contains_push(q_pre, e.dest, u);
                            }
                        }
                        assert forall|d: usize|
                            d < n implies (#[trigger] indeg@[d as int]) as nat == count_pending(
                            es.take(k2 + 1),
                            d,
                            q@.take(h + 1),
                        ) + count_pending(es.skip(k2 + 1), d, popped) by {
                            lemma_count_push(es.take(k2 as int), e, d, q@.take(h + 1));
                            lemma_count_skip_step(es, k2 as int, d, popped);
                            assert(edge_contrib(e, d, q@.take(h + 1)) == 0);
                            assert(edge_contrib(e, d, popped) == (if e.dest == d {
                                1nat
                            } else {
                                0nat
                            }));
                        }
                    }
                } else {
                    proof {
                        assert forall|d: usize|
                            d < n implies (#[trigger] indeg@[d as int]) as nat == count_pending(
                            es.take(k2 + 1),
                            d,
                            q@.take(h + 1),
                        ) + count_pending(es.skip(k2 + 1), d, popped) by {
                            lemma_count_push(es.take(k2 as int), e, d, q@.take(h + 1));
                            lemma_count_skip_step(es, k2 as int, d, popped);
                            lemma_contains_push(popped, v, e.source);
                            assert(edge_contrib(e, d, q@.take(h + 1)) == edge_contrib(
                                e,
                                d,
                                popped,
                            ));
                        }
                    }
                }
                k2 += 1;
            }
            proof {
                assert(es.take(m as int) =~= es);
                assert(es.skip(m as int) =~= Seq::<Edge>::empty());
                assert forall|d: usize|
                    d < n implies (#[trigger] indeg@[d as int]) as nat == count_pending(
                    es,
                    d,
                    q@.take(h + 1),
                ) by {
                    assert(count_pending(es.take(m as int), d, q@.take(h + 1)) == count_pending(
                        es,
                        d,
                        q@.take(h + 1),
                    ));
                }
            }
            h += 1;
        }
        if q.len() == n {
            proof {
                lemma_full_perm_contains(q@, n as nat);
                assert(q@.take(h as int) =~= q@);
                assert(respects_edges(q@, es)) by {
                    assert forall|k3: int, i: int, j: int|
                        0 <= k3 < es.len() && 0 <= i < q@.len() && 0 <= j < q@.len() && q@[i] == (
                        #[trigger] es[k3]).source && #[trigger] q@[j] == es[k3].dest
                            && #[trigger] q@[i] == es[k3].source implies i < j by {
                        let i2 = choose|i2: int| 0 <= i2 < j && q@[i2] == es[k3].source;
                        if i < i2 {
                            assert(q@[i] != q@[i2]);
                        } else if i2 < i {
                            assert(q@[i2] != q@[i]);
                        }
                    }
                }
            }
            let ord = copy_usize_vec(&q);
            self.order = Some(q);
            Ok(ord)
        } else {
            proof {
                assert(q@.take(h as int) =~= q@);
                assert(stalled(es, n as nat, q@)) by {
                    assert forall|d: usize|
                        d < n && !(#[trigger] q@.contains(d)) implies exists|k3: int|
                        0 <= k3 < es.len() && (#[trigger] es[k3]).dest == d && !q@.contains(
                            es[k3].source,
                        ) by {
                        assert(indeg@[d as int] != 0u64);
                        lemma_count_zero_iff(es, d, q@);
                        let k3 = choose|k3: int|
                            0 <= k3 < es.len() && edge_contrib(#[trigger] es[k3], d, q@) != 0;
                        assert(es[k3].dest == d && !q@.contains(es[k3].source));
                    }
                }
                lemma_stall_no_topo(es, n as nat, q@);
            }
            Err(GraphError::CyclicGraph)
        }
    }
}

/// When the ordering stalls, no topological order exists at all: any
/// purported order would have a first unprocessed entry, whose pending
/// source would have to appear both earlier and not earlier.
proof fn lemma_stall_no_topo(edges: Seq<Edge>, n: nat, popped: Seq<usize>)
    requires
        n <= usize::MAX,
        popped.len() < n,
        forall|i: int| 0 <= i < popped.len() ==> (#[trigger] popped[i]) < n,
        forall|i: int, j: int| 0 <= i < j < popped.len() ==> popped[i] != popped[j],
        stalled(edges, n, popped),
        edges_wf(edges, n),
    ensures
        forall|ord: Seq<usize>| !is_topo_order(ord, edges, n),
{
    let v = lemma_unpopped_exists(popped, n);
    assert forall|ord: Seq<usize>| !is_topo_order(ord, edges, n) by {
        if is_topo_order(ord, edges, n) {
            assert(ord.contains(v));
            let iv = choose|i: int| 0 <= i < ord.len() && ord[i] == v;
            let i0 = lemma_first_unpopped(ord, popped, iv);
            let d = ord[i0];
            assert(d < n && !popped.contains(d));
            let k = choose|k: int|
                0 <= k < edges.len() && (#[trigger] edges[k]).dest == d && !popped.contains(
                    edges[k].source,
                );
            let s = edges[k].source;
            assert(s < n);
            assert(ord.contains(s));
            let is = choose|i: int| 0 <= i < ord.len() && ord[i] == s;
            assert(is < i0);
            assert(popped.contains(ord[is]));
            assert(false);
        }
    }
}

} // verus!
