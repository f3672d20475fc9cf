//! The render engine: pulls one fixed-size block at a time from a
//! finalized graph.
//!
//! Before each block it drains the control channel completely and applies
//! every pending message in send order, so a block always sees one
//! consistent parameter snapshot. It then processes each node in the
//! cached topological order, feeding every node the combination of its
//! predecessors' outputs (a product for gain stages, a clamped sum for the
//! rest), and returns the destination node's block.
use crate::block::{block_wf, AudioBlock, BLOCK_LEN};
use crate::channel::{ControlChannel, ParameterMessage};
use crate::fixed::{add_amp, add_amp_spec, in_amp_range, mul_fp, mul_fp_spec};
use crate::graph::{copy_usize_vec, edges_wf, graph_wf, is_topo_order, Edge, Graph};
use crate::node::{
    combines_by_product, copy_block, node_block_rel, node_wf, receive_spec, Node,
};
use vstd::pervasive::VecAdditionalExecFns;
use vstd::prelude::*;

verus! {

/// The silent input handed to a node that no edges feed.
pub open spec fn zero_block_seq() -> Seq<i64> {
    Seq::new(BLOCK_LEN as nat, |i: int| 0i64)
}

/// Combining two samples flowing into one node.
pub open spec fn combine_sample(product: bool, a: i64, b: i64) -> i64 {
    (if product {
        mul_fp_spec(a as int, b as int)
    } else {
        add_amp_spec(a as int, b as int)
    }) as i64
}

/// Combining two blocks, sample by sample.
pub open spec fn combine_seq(product: bool, a: Seq<i64>, b: Seq<i64>) -> Seq<i64> {
    Seq::new(a.len(), |i: int| combine_sample(product, a[i], b[i]))
}

/// The fold of the first `k` edges' contributions into node `d`, reading
/// each source's output block; `None` while no edge feeds it.
pub open spec fn gathered(
    edges: Seq<Edge>,
    outs: Seq<Seq<i64>>,
    d: usize,
    product: bool,
    k: nat,
) -> Option<Seq<i64>>
    decreases k,
{
    if k == 0 {
        None
    } else {
        let prev = gathered(edges, outs, d, product, (k - 1) as nat);
        if edges[k - 1].dest == d {
            let src = outs[edges[k - 1].source as int];
            match prev {
                None => Some(src),
                Some(acc) => Some(combine_seq(product, acc, src)),
            }
        } else {
            prev
        }
    }
}

/// Whether any edge feeds node `d`.
pub open spec fn node_driven(edges: Seq<Edge>, outs: Seq<Seq<i64>>, d: usize, product: bool) -> bool {
    gathered(edges, outs, d, product, edges.len()) is Some
}

/// The block node `d` is fed: the fold of its predecessors' outputs, or
/// silence when nothing feeds it.
pub open spec fn input_of(edges: Seq<Edge>, outs: Seq<Seq<i64>>, d: usize, product: bool) -> Seq<
    i64,
> {
    match gathered(edges, outs, d, product, edges.len()) {
        Some(acc) => acc,
        None => zero_block_seq(),
    }
}

/// The per-node output blocks, viewed as sequences.
pub open spec fn outs_view(s: Seq<AudioBlock>) -> Seq<Seq<i64>> {
    s.map_values(|b: AudioBlock| b@)
}

/// What rendering one block does at position `p` of the order: the node
/// there steps by its own block relation, fed the combination of its
/// predecessors' final outputs.
pub open spec fn node_step_at(
    nodes0: Seq<Node>,
    nodes1: Seq<Node>,
    edges: Seq<Edge>,
    order: Seq<usize>,
    outs: Seq<Seq<i64>>,
    p: int,
) -> bool {
    let idx = order[p] as int;
    let product = combines_by_product(&nodes0[idx]);
    node_block_rel(
        nodes0[idx],
        nodes1[idx],
        node_driven(edges, outs, order[p], product),
        input_of(edges, outs, order[p], product),
        outs[idx],
    )
}

/// What rendering one block does to the whole graph: every node steps once,
/// in topological order, against the final table of output blocks.
pub open spec fn engine_run_rel(
    nodes0: Seq<Node>,
    nodes1: Seq<Node>,
    edges: Seq<Edge>,
    order: Seq<usize>,
    outs: Seq<Seq<i64>>,
) -> bool {
    &&& nodes1.len() == nodes0.len()
    &&& outs.len() == nodes0.len()
    &&& forall|p: int| 0 <= p < order.len() ==> node_step_at(nodes0, nodes1, edges, order, outs, p)
}

/// What one message does to the node table: the updated node, or the
/// delivery error that made the message undeliverable.
pub open spec fn message_result(
    nodes: Seq<Node>,
    g_id: u64,
    msg: ParameterMessage,
) -> Result<Node, crate::node::DeliveryError> {
    if msg.target.graph_id != g_id || msg.target.index >= nodes.len() {
        Err(crate::node::DeliveryError::UnknownNodeReference)
    } else {
        receive_spec(nodes[msg.target.index as int], msg.slot, msg.value)
    }
}

/// The node table after one message: updated on delivery, untouched on a
/// delivery error.
pub open spec fn apply_message(nodes: Seq<Node>, g_id: u64, msg: ParameterMessage) -> Seq<Node> {
    match message_result(nodes, g_id, msg) {
        Ok(nn) => nodes.update(msg.target.index as int, nn),
        Err(_) => nodes,
    }
}

/// The node table after a queue of messages, applied in send order.
pub open spec fn apply_messages(nodes: Seq<Node>, g_id: u64, msgs: Seq<ParameterMessage>) -> Seq<
    Node,
>
    decreases msgs.len(),
{
    if msgs.len() == 0 {
        nodes
    } else {
        apply_messages(apply_message(nodes, g_id, msgs[0]), g_id, msgs.drop_first())
    }
}

/// How many of the queued messages are undeliverable, in send order.
pub open spec fn count_errors(nodes: Seq<Node>, g_id: u64, msgs: Seq<ParameterMessage>) -> nat
    decreases msgs.len(),
{
    if msgs.len() == 0 {
        0nat
    } else {
        (if message_result(nodes, g_id, msgs[0]) is Err {
            1nat
        } else {
            0nat
        }) + count_errors(apply_message(nodes, g_id, msgs[0]), g_id, msgs.drop_first())
    }
}

proof fn lemma_apply_push(nodes: Seq<Node>, g_id: u64, msgs: Seq<ParameterMessage>, m: ParameterMessage)
    ensures
        apply_messages(nodes, g_id, msgs.push(m)) == apply_message(
            apply_messages(nodes, g_id, msgs),
            g_id,
            m,
        ),
        count_errors(nodes, g_id, msgs.push(m)) == count_errors(nodes, g_id, msgs) + (
        if message_result(apply_messages(nodes, g_id, msgs), g_id, m) is Err {
            1nat
        } else {
            0nat
        }),
    decreases msgs.len(),
{
    if msgs.len() == 0 {
        assert(msgs.push(m)[0] == m);
        assert(msgs.push(m).drop_first() =~= Seq::<ParameterMessage>::empty());
        assert(apply_messages(nodes, g_id, msgs) == nodes);
        assert(count_errors(nodes, g_id, msgs) == 0);
        assert(apply_messages(nodes, g_id, msgs.push(m)) == apply_messages(
            apply_message(nodes, g_id, m),
            g_id,
            Seq::<ParameterMessage>::empty(),
        ));
        assert(apply_messages(apply_message(nodes, g_id, m), g_id, Seq::<ParameterMessage>::empty())
            == apply_message(nodes, g_id, m));
        assert(count_errors(apply_message(nodes, g_id, m), g_id, Seq::<ParameterMessage>::empty())
            == 0);
    } else {
        assert(msgs.push(m)[0] == msgs[0]);
        assert(msgs.push(m).drop_first() =~= msgs.drop_first().push(m));
        lemma_apply_push(apply_message(nodes, g_id, msgs[0]), g_id, msgs.drop_first(), m);
        assert(apply_messages(nodes, g_id, msgs.push(m)) == apply_messages(
            apply_message(nodes, g_id, msgs[0]),
            g_id,
            msgs.drop_first().push(m),
        ));
        assert(apply_messages(nodes, g_id, msgs) == apply_messages(
            apply_message(nodes, g_id, msgs[0]),
            g_id,
            msgs.drop_first(),
        ));
        assert(count_errors(nodes, g_id, msgs) == (if message_result(nodes, g_id, msgs[0]) is Err {
            1nat
        } else {
            0nat
        }) + count_errors(apply_message(nodes, g_id, msgs[0]), g_id, msgs.drop_first()));
    }
}


/// Law: of two deliverable updates to the same node and slot within one
/// drain, the later one wins: delivering both leaves the node table
/// exactly as delivering only the later one (the earlier has no
/// observable effect, since no block is rendered in between).
pub proof fn lemma_queue_last_wins(
    nodes: Seq<Node>,
    g_id: u64,
    m1: ParameterMessage,
    m2: ParameterMessage,
)
    requires
        m1.target == m2.target,
        m1.slot == m2.slot,
        message_result(nodes, g_id, m1) is Ok,
        message_result(nodes, g_id, m2) is Ok,
    ensures
        apply_messages(nodes, g_id, seq![m1, m2]) == apply_messages(nodes, g_id, seq![m2]),
{
    let i = m1.target.index as int;
    let n1 = message_result(nodes, g_id, m1)->Ok_0;
    let nodes1 = apply_message(nodes, g_id, m1);
    assert(nodes1 == nodes.update(i, n1));
    assert(nodes1[i] == n1);
    crate::node::lemma_receive_last_wins(nodes[i], m1.slot, m1.value, m2.value);
    assert(message_result(nodes1, g_id, m2) == message_result(nodes, g_id, m2));
    match message_result(nodes, g_id, m2) {
        Ok(n2) => {
            assert(apply_message(nodes1, g_id, m2) == nodes1.update(i, n2));
            assert(nodes.update(i, n1).update(i, n2) =~= nodes.update(i, n2));
        },
        Err(_) => {},
    }
    assert(seq![m1, m2][0] == m1);
    assert(seq![m1, m2].drop_first() =~= seq![m2]);
    assert(seq![m2][0] == m2);
    assert(seq![m2].drop_first() =~= Seq::<ParameterMessage>::empty());
    assert(apply_messages(nodes, g_id, seq![m1, m2]) == apply_messages(nodes1, g_id, seq![m2]));
    assert(apply_messages(nodes1, g_id, seq![m2]) == apply_messages(
        apply_message(nodes1, g_id, m2),
        g_id,
        Seq::<ParameterMessage>::empty(),
    ));
    assert(apply_messages(nodes, g_id, seq![m2]) == apply_messages(
        apply_message(nodes, g_id, m2),
        g_id,
        Seq::<ParameterMessage>::empty(),
    ));
}

proof fn lemma_gathered_agrees(
    edges: Seq<Edge>,
    outs1: Seq<Seq<i64>>,
    outs2: Seq<Seq<i64>>,
    d: usize,
    product: bool,
    k: nat,
)
    requires
        k <= edges.len(),
        forall|k2: int|
            0 <= k2 < k && (#[trigger] edges[k2]).dest == d ==> outs1[edges[k2].source as int]
                == outs2[edges[k2].source as int],
    ensures
        gathered(edges, outs1, d, product, k) == gathered(edges, outs2, d, product, k),
    decreases k,
{
    if k > 0 {
        lemma_gathered_agrees(edges, outs1, outs2, d, product, (k - 1) as nat);
    }
}

/// Combine two blocks sample by sample.
fn combine_block(product: bool, a: &AudioBlock, b: &AudioBlock) -> (out: AudioBlock)
    requires
        block_wf(a),
        block_wf(b),
    ensures
        block_wf(&out),
        out@ == combine_seq(product, a@, b@),
{
    let mut samples: Vec<i64> = Vec::new();
    let mut i: usize = 0;
    while i < BLOCK_LEN
        invariant
            i == samples@.len(),
            i <= BLOCK_LEN,
            block_wf(a),
            block_wf(b),
            a@.len() == BLOCK_LEN,
            b@.len() == BLOCK_LEN,
            forall|j: int| 0 <= j < i ==> samples@[j] == combine_sample(product, a@[j], b@[j]),
            forall|j: int| 0 <= j < i ==> in_amp_range(#[trigger] samples@[j] as int),
        decreases BLOCK_LEN - i,
    {
        let v: i64 = if product {
            mul_fp(a.samples[i], b.samples[i])
        } else {
            add_amp(a.samples[i], b.samples[i])
        };
        samples.push(v);
        i += 1;
    }
    let out = AudioBlock { samples };
    proof {
        assert(out@ =~= combine_seq(product, a@, b@));
    }
    out
}

/// Fold the predecessor outputs flowing into node `d`, and say whether any
/// edge feeds it at all.
fn gather_input(edges: &Vec<Edge>, outs: &Vec<AudioBlock>, d: usize, product: bool) -> (r: (
    AudioBlock,
    bool,
))
    requires
        forall|k: int|
            0 <= k < edges@.len() ==> 0 <= (#[trigger] edges@[k]).source < outs@.len(),
        forall|i: int| 0 <= i < outs@.len() ==> block_wf(&(#[trigger] outs@[i])),
    ensures
        r.1 == node_driven(edges@, outs_view(outs@), d, product),
        r.0@ == input_of(edges@, outs_view(outs@), d, product),
        block_wf(&r.0),
{
    let mut acc = AudioBlock::zero();
    let mut driven = false;
    let mut k: usize = 0;
    proof {
        assert(acc@ =~= zero_block_seq());
    }
    while k < edges.len()
        invariant
            k <= edges@.len(),
            forall|k2: int|
                0 <= k2 < edges@.len() ==> 0 <= (#[trigger] edges@[k2]).source < outs@.len(),
            forall|i: int| 0 <= i < outs@.len() ==> block_wf(&(#[trigger] outs@[i])),
            block_wf(&acc),
            driven ==> gathered(edges@, outs_view(outs@), d, product, k as nat) == Some(acc@),
            !driven ==> gathered(edges@, outs_view(outs@), d, product, k as nat) is None && acc@
                == zero_block_seq(),
        decreases edges@.len() - k,
    {
        let e = edges[k];
        if e.dest == d {
            proof {
                assert(outs_view(outs@)[e.source as int] == outs@[e.source as int]@);
            }
            if !driven {
                acc = copy_block(&outs[e.source]);
                driven = true;
            } else {
                let combined = combine_block(product, &acc, &outs[e.source]);
                acc = combined;
            }
        }
        k += 1;
    }
    (acc, driven)
}

/// The render engine: a finalized graph plus a count of reported delivery
/// errors.
pub struct RenderEngine {
    pub graph: Graph,
    pub delivery_errors: u64,
}

/// A well-formed engine renders a well-formed, finalized graph.
pub open spec fn engine_wf(e: &RenderEngine) -> bool {
    &&& graph_wf(&e.graph)
    &&& e.graph.order is Some
}

impl RenderEngine {
    /// Take ownership of a finalized graph.
    pub fn new(graph: Graph) -> (e: RenderEngine)
        requires
            graph_wf(&graph),
            graph.order is Some,
        ensures
            engine_wf(&e),
            e.graph == graph,
            e.delivery_errors == 0u64,
    {
        RenderEngine { graph, delivery_errors: 0 }
    }

    /// Pop every queued message in send order and deliver each to its
    /// target node. Undeliverable messages are counted and dropped; they
    /// never panic the renderer and never touch an unrelated field.
    pub fn drain_and_apply(&mut self, channel: &mut ControlChannel) -> (errs: u64)
        requires
            engine_wf(&*old(self)),
            old(self).delivery_errors + old(channel).queue@.len() <= u64::MAX,
        ensures
            engine_wf(&*final(self)),
            final(self).graph.id == old(self).graph.id,
            final(self).graph.edges@ == old(self).graph.edges@,
            final(self).graph.order == old(self).graph.order,
            final(channel).queue@.len() == 0,
            final(self).graph.nodes@ == apply_messages(
                old(self).graph.nodes@,
                old(self).graph.id,
                old(channel).queue@,
            ),
            errs as nat == count_errors(
                old(self).graph.nodes@,
                old(self).graph.id,
                old(channel).queue@,
            ),
            final(self).delivery_errors == old(self).delivery_errors + errs,
    {
        let ghost nodes0 = self.graph.nodes@;
        let ghost q0 = channel.queue@;
        let ghost g_id = self.graph.id;
        let mut errs: u64 = 0;
        let mut i: usize = 0;
        while i < channel.queue.len()
            invariant
                i <= channel.queue@.len(),
                channel.queue@ == q0,
                engine_wf(self),
                self.graph.id == g_id,
                self.graph.id == old(self).graph.id,
                self.graph.edges@ == old(self).graph.edges@,
                self.graph.order == old(self).graph.order,
                self.delivery_errors == old(self).delivery_errors,
                nodes0 == old(self).graph.nodes@,
                q0 == old(channel).queue@,
                self.graph.nodes@ == apply_messages(nodes0, g_id, q0.take(i as int)),
                errs as nat == count_errors(nodes0, g_id, q0.take(i as int)),
                errs <= i,
                old(self).delivery_errors + q0.len() <= u64::MAX,
            decreases channel.queue@.len() - i,
        {
            let target = channel.queue[i].target;
            let slot = channel.queue[i].slot;
            let ghost msg = q0[i as int];
            let ghost nodes_pre = self.graph.nodes@;
            let mut delivered = false;
            if target.graph_id == self.graph.id && target.index < self.graph.nodes.len() {
                let mut node = self.graph.nodes[target.index];
                let res = node.receive(slot, &channel.queue[i].value);
                if res.is_ok() {
                    self.graph.nodes.set(target.index, node);
                    delivered = true;
                }
            }
            if !delivered {
                errs = errs + 1;
            }
            proof {
                assert(q0.take(i + 1) =~= q0.take(i as int).push(msg));
                lemma_apply_push(nodes0, g_id, q0.take(i as int), msg);
                if delivered {
                    assert(self.graph.nodes@ =~= apply_message(nodes_pre, g_id, msg));
                } else {
                    assert(self.graph.nodes@ == apply_message(nodes_pre, g_id, msg));
                }
                assert forall|ii: int|
                    0 <= ii < self.graph.nodes@.len() implies node_wf(
                    &(#[trigger] self.graph.nodes@[ii]),
                ) by {
                    assert(node_wf(&nodes_pre[ii]));
                }
            }
            i += 1;
        }
        proof {
            assert(q0.take(q0.len() as int) =~= q0);
        }
        channel.queue = Vec::new();
        self.delivery_errors = self.delivery_errors + errs;
        errs
    }

    /// Process every node once, in the cached topological order, and
    /// return the destination node's output block.
    pub fn process_graph(&mut self) -> (out: AudioBlock)
        requires
            engine_wf(&*old(self)),
        ensures
            engine_wf(&*final(self)),
            final(self).graph.id == old(self).graph.id,
            final(self).graph.edges@ == old(self).graph.edges@,
            final(self).graph.order == old(self).graph.order,
            final(self).delivery_errors == old(self).delivery_errors,
            block_wf(&out),
            exists|outs: Seq<Seq<i64>>|
                {
                    &&& engine_run_rel(
                        old(self).graph.nodes@,
                        final(self).graph.nodes@,
                        old(self).graph.edges@,
                        old(self).graph.order->Some_0@,
                        outs,
                    )
                    &&& out@ == outs[crate::graph::DEST_INDEX as int]
                },
    {
        let n = self.graph.nodes.len();
        let ghost nodes0 = self.graph.nodes@;
        let ghost es = self.graph.edges@;
        let ghost ordg = self.graph.order->Some_0@;
        let ord: Vec<usize> = match &self.graph.order {
            Some(o) => copy_usize_vec(o),
            None => {
                // A well-formed engine always holds a finalized graph.
                proof {
                    assert(false);
                }
                Vec::new()
            },
        };
        let mut outs: Vec<AudioBlock> = Vec::new();
        while outs.len() < n
            invariant
                outs@.len() <= n,
                forall|i: int| 0 <= i < outs@.len() ==> block_wf(&(#[trigger] outs@[i])),
            decreases n - outs@.len(),
        {
            outs.push(AudioBlock::zero());
        }
        let mut p: usize = 0;
        while p < ord.len()
            invariant
                p <= ord@.len(),
                ord@ == ordg,
                is_topo_order(ordg, es, n as nat),
                n == self.graph.nodes@.len(),
                es == self.graph.edges@,
                edges_wf(es, n as nat),
                graph_wf(&self.graph),
                self.graph.id == old(self).graph.id,
                self.graph.edges@ == old(self).graph.edges@,
                self.graph.order == old(self).graph.order,
                self.delivery_errors == old(self).delivery_errors,
                nodes0 == old(self).graph.nodes@,
                ordg == old(self).graph.order->Some_0@,
                outs@.len() == n,
                forall|i: int| 0 <= i < outs@.len() ==> block_wf(&(#[trigger] outs@[i])),
                forall|j: int|
                    0 <= j < p ==> node_step_at(
                        nodes0,
                        self.graph.nodes@,
                        es,
                        ordg,
                        outs_view(outs@),
                        j,
                    ),
                forall|j: int|
                    p <= j < ordg.len() ==> self.graph.nodes@[ordg[j] as int] == nodes0[ordg[j] as int],
            decreases ord@.len() - p,
        {
            let idx = ord[p];
            let product = match &self.graph.nodes[idx] {
                Node::Gain(_) => true,
                _ => false,
            };
            let (input, driven) = gather_input(&self.graph.edges, &outs, idx, product);
            let mut node = self.graph.nodes[idx];
            let ghost node_pre = node;
            let out_b = node.process_block(&input, driven);
            let ghost nodes_pre = self.graph.nodes@;
            self.graph.nodes.set(idx, node);
            let ghost outs_pre = outs@;
            outs.set(idx, out_b);
            proof {
                let pi = p as int;
                // The node written now is not the source of any edge into a
                // node at or before this position, so earlier gathers are
                // untouched and this node's own gather is untouched.
                assert forall|j: int|
                    0 <= j < pi + 1 implies node_step_at(
                    nodes0,
                    self.graph.nodes@,
                    es,
                    ordg,
                    outs_view(outs@),
                    j,
                ) by {
                    let d = ordg[j];
                    let prod_j = combines_by_product(&nodes0[d as int]);
                    assert forall|k2: int|
                        0 <= k2 < es.len() && (#[trigger] es[k2]).dest == d implies outs_view(
                        outs_pre,
                    )[es[k2].source as int] == outs_view(outs@)[es[k2].source as int] by {
                        if es[k2].source == idx {
                            assert(ordg[pi] == es[k2].source);
                            assert(ordg[j] == es[k2].dest);
                            assert(pi < j);
                        }
                        assert(outs@[es[k2].source as int] == outs_pre[es[k2].source as int]);
                    }
                    lemma_gathered_agrees(
                        es,
                        outs_view(outs_pre),
                        outs_view(outs@),
                        d,
                        prod_j,
                        es.len(),
                    );
                    if j < pi {
                        assert(node_step_at(nodes0, nodes_pre, es, ordg, outs_view(outs_pre), j));
                        assert(ordg[j] != ordg[pi]);
                        assert(self.graph.nodes@[d as int] == nodes_pre[d as int]);
                        assert(outs_view(outs@)[d as int] == outs_view(outs_pre)[d as int]);
                    } else {
                        assert(nodes_pre[idx as int] == nodes0[idx as int]);
                        assert(node_pre == nodes0[idx as int]);
                        assert(self.graph.nodes@[idx as int] == node);
                        assert(outs_view(outs@)[idx as int] == out_b@);
                        assert(input@ == input_of(es, outs_view(outs_pre), idx, product));
                        assert(driven == node_driven(es, outs_view(outs_pre), idx, product));
                        assert(node_block_rel(node_pre, node, driven, input@, out_b@));
                    }
                }
                assert forall|j: int|
                    pi + 1 <= j < ordg.len() implies self.graph.nodes@[ordg[j] as int]
                    == nodes0[ordg[j] as int] by {
                    assert(ordg[j] != ordg[pi]);
                }
            }
            p += 1;
        }
        let out = copy_block(&outs[crate::graph::DEST_INDEX]);
        proof {
            assert(engine_run_rel(nodes0, self.graph.nodes@, es, ordg, outs_view(outs@)));
            assert(out@ == outs_view(outs@)[crate::graph::DEST_INDEX as int]);
        }
        out
    }

    /// Render one block: drain and apply every pending message, then
    /// process the graph. The whole block is computed from the one
    /// parameter snapshot left after the drain.
    pub fn render_block(&mut self, channel: &mut ControlChannel) -> (out: AudioBlock)
        requires
            engine_wf(&*old(self)),
            old(self).delivery_errors + old(channel).queue@.len() <= u64::MAX,
        ensures
            engine_wf(&*final(self)),
            final(self).graph.id == old(self).graph.id,
            final(self).graph.edges@ == old(self).graph.edges@,
            final(self).graph.order == old(self).graph.order,
            final(channel).queue@.len() == 0,
            block_wf(&out),
            exists|outs: Seq<Seq<i64>>|
                {
                    &&& engine_run_rel(
                        apply_messages(
                            old(self).graph.nodes@,
                            old(self).graph.id,
                            old(channel).queue@,
                        ),
                        final(self).graph.nodes@,
                        old(self).graph.edges@,
                        old(self).graph.order->Some_0@,
                        outs,
                    )
                    &&& out@ == outs[crate::graph::DEST_INDEX as int]
                },
            final(self).delivery_errors as nat == old(self).delivery_errors + count_errors(
                old(self).graph.nodes@,
                old(self).graph.id,
                old(channel).queue@,
            ),
    {
        let _errs = self.drain_and_apply(channel);
        self.process_graph()
    }
}

} // verus!
