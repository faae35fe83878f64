//! Routing of events through a graph.
//!
//! An event enters at a node. The operator of the node takes it and gives out
//! zero or more events, each on one of its outputs. Every event that was
//! given out goes to the nodes that are connected to its output, in the order
//! in which the connections were declared, and is handled there in the same
//! way before the next one is looked at. An event on an output that nothing
//! is connected to is dropped.
//!
//! A connection always leads to a node of higher rank, which is why routing
//! comes to an end.

use crate::event::Event;
use crate::event::EventView;
use crate::event::Insight;
use crate::event::InsightView;
use crate::pipeline::graph::Edge;
use crate::pipeline::graph::Graph;
use crate::pipeline::graph::GraphView;
use vstd::prelude::*;

verus! {

/// What a node of the graph does with the events that reach it.
pub trait Operator: Sized {
    /// What a call of `on_event` may do: with the operator as it was `before`
    /// and `event` on the input `input`, it may become `after` and give out
    /// the events `out`, each with the id of its output. An operator that
    /// does not say what it does may do anything.
    open spec fn handles(
        before: Self,
        input: usize,
        event: EventView,
        after: Self,
        out: Seq<(usize, EventView)>,
    ) -> bool {
        true
    }

    /// Takes an event on the given input and gives out events on outputs.
    fn on_event(&mut self, input: usize, event: Event) -> (out: Vec<(usize, Event)>)
        ensures
            Self::handles(*old(self), input, event@, *final(self), emitted(out@)),
    ;

    /// What a call of `on_insight` may do: with the operator as it was
    /// `before`, the insight may make it `after`. An operator that does not
    /// say what it does may do anything.
    open spec fn learns(before: Self, insight: InsightView, after: Self) -> bool {
        true
    }

    /// Takes the feedback of a sink. An operator that has no use for it
    /// stays as it is.
    fn on_insight(&mut self, insight: &Insight)
        ensures
            Self::learns(*old(self), insight@, *final(self)),
    ;
}

/// The operator that hands every event on, unchanged, on its default output.
#[derive(Debug, Clone, Copy, PartialEq, Eq, Structural)]
pub struct Passthrough {}

impl Operator for Passthrough {
    open spec fn handles(
        before: Self,
        input: usize,
        event: EventView,
        after: Self,
        out: Seq<(usize, EventView)>,
    ) -> bool {
        out == seq![(0usize, event)]
    }

    fn on_event(&mut self, input: usize, event: Event) -> (out: Vec<(usize, Event)>) {
        let ghost view = event@;
        let mut out: Vec<(usize, Event)> = Vec::new();
        out.push((0, event));
        assert(emitted(out@) =~= seq![(0usize, view)]);
        out
    }

    open spec fn learns(before: Self, insight: InsightView, after: Self) -> bool {
        after == before
    }

    fn on_insight(&mut self, insight: &Insight) {
    }
}

/// The events that an operator gave out, as mathematical values.
pub open spec fn emitted(out: Seq<(usize, Event)>) -> Seq<(usize, EventView)> {
    Seq::new(out.len(), |i: int| (out[i].0, out[i].1@))
}

/// An input of a node that is to receive an event.
pub ghost struct Target {
    pub node: usize,
    pub input: usize,
    pub event: EventView,
}

/// Where an event on the output `output` of `node` goes, looking at the
/// first `upto` connections only: to the destination of each connection that
/// starts at that output, in the order of the connections.
pub open spec fn targets_of(
    edges: Seq<Edge>,
    node: usize,
    output: usize,
    event: EventView,
    upto: int,
) -> Seq<Target>
    decreases upto,
{
    if upto <= 0 {
        Seq::empty()
    } else {
        let before = targets_of(edges, node, output, event, upto - 1);
        let edge = edges[upto - 1];
        if edge.from == node && edge.output == output {
            before.push(Target { node: edge.to, input: edge.input, event })
        } else {
            before
        }
    }
}

/// Where the first `count` of the events that `node` gave out go.
pub open spec fn targets(
    edges: Seq<Edge>,
    node: usize,
    out: Seq<(usize, EventView)>,
    count: int,
) -> Seq<Target>
    decreases count,
{
    if count <= 0 {
        Seq::empty()
    } else {
        targets(edges, node, out, count - 1) + targets_of(
            edges,
            node,
            out[count - 1].0,
            out[count - 1].1,
            edges.len() as int,
        )
    }
}

/// Every target is a node of the graph that ranks higher than `from`.
pub open spec fn leads_forward(graph: GraphView, from: usize, work: Seq<Target>) -> bool {
    forall|k: int|
        0 <= k < work.len() ==> (#[trigger] work[k]).node < graph.nodes.len()
            && graph.rank[from as int] < graph.rank[work[k].node as int]
}

/// Routing `event` from the input `input` of `node` through the graph may
/// take the operators from `before` to `after`: the operator of the node
/// handles the event, and what it gives out is delivered.
pub open spec fn delivers<O: Operator>(
    graph: GraphView,
    before: Seq<O>,
    node: usize,
    input: usize,
    event: EventView,
    after: Seq<O>,
) -> bool
    decreases graph.nodes.len() - graph.rank[node as int], 1int, 0int,
    when graph.wf() && node < graph.nodes.len()
{
    exists|next: O, out: Seq<(usize, EventView)>|
        {
            &&& #[trigger] O::handles(before[node as int], input, event, next, out)
            &&& delivers_all(
                graph,
                before.update(node as int, next),
                node,
                targets(graph.edges, node, out, out.len() as int),
                after,
            )
        }
}

/// Delivering the events of `work`, which `from` gave out, one after the
/// other may take the operators from `before` to `after`.
pub open spec fn delivers_all<O: Operator>(
    graph: GraphView,
    before: Seq<O>,
    from: usize,
    work: Seq<Target>,
    after: Seq<O>,
) -> bool
    decreases graph.nodes.len() - graph.rank[from as int], 0int, work.len(),
    when graph.wf() && from < graph.nodes.len() && leads_forward(graph, from, work)
{
    if work.len() == 0 {
        after == before
    } else {
        exists|mid: Seq<O>|
            {
                &&& (#[trigger] mid.len()) == before.len()
                &&& delivers_all(graph, before, from, work.drop_last(), mid)
                &&& delivers(
                    graph,
                    mid,
                    work.last().node,
                    work.last().input,
                    work.last().event,
                    after,
                )
            }
    }
}

/// The targets of one event lie on connections that start at `node`, so
/// they rank higher than it.
proof fn lemma_targets_of_lead_forward(
    graph: GraphView,
    node: usize,
    output: usize,
    event: EventView,
    upto: int,
)
    requires
        graph.wf(),
        node < graph.nodes.len(),
        upto <= graph.edges.len(),
    ensures
        leads_forward(graph, node, targets_of(graph.edges, node, output, event, upto)),
    decreases upto,
{
    if upto > 0 {
        lemma_targets_of_lead_forward(graph, node, output, event, upto - 1);
        let edge = graph.edges[upto - 1];
        assert(graph.rank[edge.from as int] < graph.rank[edge.to as int]);
    }
}

/// The targets of all that a node gave out rank higher than the node.
proof fn lemma_targets_lead_forward(
    graph: GraphView,
    node: usize,
    out: Seq<(usize, EventView)>,
    count: int,
)
    requires
        graph.wf(),
        node < graph.nodes.len(),
    ensures
        leads_forward(graph, node, targets(graph.edges, node, out, count)),
    decreases count,
{
    if count > 0 {
        lemma_targets_lead_forward(graph, node, out, count - 1);
        lemma_targets_of_lead_forward(
            graph,
            node,
            out[count - 1].0,
            out[count - 1].1,
            graph.edges.len() as int,
        );
    }
}

/// Two lists of targets that lead forward do so when put together.
proof fn lemma_joined_lead_forward(
    graph: GraphView,
    from: usize,
    first: Seq<Target>,
    second: Seq<Target>,
)
    requires
        leads_forward(graph, from, first),
        leads_forward(graph, from, second),
    ensures
        leads_forward(graph, from, first + second),
{
    assert forall|k: int| 0 <= k < (first + second).len() implies (#[trigger] (first
        + second)[k]).node < graph.nodes.len() && graph.rank[from as int] < graph.rank[(first
        + second)[k].node as int] by {
        if k < first.len() {
            assert((first + second)[k] == first[k]);
        } else {
            assert((first + second)[k] == second[k - first.len()]);
        }
    }
}

/// One more delivery after a run of deliveries is a run of deliveries.
proof fn lemma_one_more_delivery<O: Operator>(
    graph: GraphView,
    before: Seq<O>,
    from: usize,
    work: Seq<Target>,
    mid: Seq<O>,
    after: Seq<O>,
)
    requires
        graph.wf(),
        from < graph.nodes.len(),
        leads_forward(graph, from, work),
        work.len() > 0,
        mid.len() == before.len(),
        delivers_all(graph, before, from, work.drop_last(), mid),
        delivers(graph, mid, work.last().node, work.last().input, work.last().event, after),
    ensures
        delivers_all(graph, before, from, work, after),
{
}

/// Routes an event that arrives at the input `input` of `node` through the
/// graph: the operator of the node handles it, and every event that it gives
/// out is routed on from each input that is connected to its output, in the
/// order of the connections and before the next event is looked at.
pub fn forward<O: Operator>(
    graph: &Graph,
    ops: &mut Vec<O>,
    node: usize,
    input: usize,
    event: Event,
)
    requires
        node < graph@.nodes.len(),
        old(ops)@.len() == graph@.nodes.len(),
    ensures
        final(ops)@.len() == old(ops)@.len(),
        delivers(graph@, old(ops)@, node, input, event@, final(ops)@),
    decreases graph@.nodes.len() - graph@.rank[node as int],
{
    let edges = graph.edges();
    let ghost before = ops@;
    let out = ops[node].on_event(input, event);
    let ghost started = ops@;
    let ghost given = emitted(out@);
    assert(started =~= before.update(node as int, started[node as int]));
    let mut k: usize = 0;
    while k < out.len()
        invariant
            graph@.wf(),
            edges@ == graph@.edges,
            node < graph@.nodes.len(),
            ops@.len() == graph@.nodes.len(),
            given == emitted(out@),
            k <= out@.len(),
            started.len() == graph@.nodes.len(),
            leads_forward(graph@, node, targets(edges@, node, given, k as int)),
            delivers_all(graph@, started, node, targets(edges@, node, given, k as int), ops@),
        decreases out@.len() - k,
    {
        let ghost done = targets(edges@, node, given, k as int);
        let ghost output = given[k as int].0;
        let ghost carried = given[k as int].1;
        let mut e: usize = 0;
        assert(done + targets_of(edges@, node, output, carried, 0) =~= done);
        while e < edges.len()
            invariant
                graph@.wf(),
                edges@ == graph@.edges,
                node < graph@.nodes.len(),
                ops@.len() == graph@.nodes.len(),
                given == emitted(out@),
                k < out@.len(),
                e <= edges@.len(),
                output == given[k as int].0,
                carried == given[k as int].1,
                started.len() == graph@.nodes.len(),
                leads_forward(graph@, node, done),
                leads_forward(
                    graph@,
                    node,
                    done + targets_of(edges@, node, output, carried, e as int),
                ),
                delivers_all(
                    graph@,
                    started,
                    node,
                    done + targets_of(edges@, node, output, carried, e as int),
                    ops@,
                ),
            decreases edges@.len() - e,
        {
            let edge = edges[e];
            let ghost so_far = done + targets_of(edges@, node, output, carried, e as int);
            if edge.from == node && edge.output == out[k].0 {
                let ghost mid = ops@;
                let copy = out[k].1.clone();
                forward(graph, ops, edge.to, edge.input, copy);
                proof {
                    let target = Target { node: edge.to, input: edge.input, event: carried };
                    let work = done + targets_of(edges@, node, output, carried, e + 1);
                    assert(work =~= so_far.push(target));
                    assert(work.drop_last() =~= so_far);
                    assert(work.last() == target);
                    lemma_targets_of_lead_forward(graph@, node, output, carried, e + 1);
                    lemma_joined_lead_forward(
                        graph@,
                        node,
                        done,
                        targets_of(edges@, node, output, carried, e + 1),
                    );
                    lemma_one_more_delivery(graph@, started, node, work, mid, ops@);
                }
            } else {
                assert(done + targets_of(edges@, node, output, carried, e + 1) =~= so_far);
            }
            e = e + 1;
        }
        k = k + 1;
    }
    proof {
        lemma_targets_lead_forward(graph@, node, given, given.len() as int);
        assert(O::handles(before[node as int], input, event@, started[node as int], given));
        assert(targets(edges@, node, given, k as int) == targets(
            graph@.edges,
            node,
            given,
            given.len() as int,
        ));
        assert(delivers_all(
            graph@,
            before.update(node as int, started[node as int]),
            node,
            targets(graph@.edges, node, given, given.len() as int),
            ops@,
        ));
    }
}

/// Handing an insight to the last `count` operators of the topological
/// order, the last one first, may take the operators from `before` to
/// `after`.
pub open spec fn informs<O: Operator>(
    graph: GraphView,
    before: Seq<O>,
    insight: InsightView,
    count: int,
    after: Seq<O>,
) -> bool
    decreases count,
{
    if count <= 0 {
        after == before
    } else {
        exists|mid: Seq<O>|
            {
                let node = graph.order[graph.order.len() - count] as int;
                &&& (#[trigger] mid.len()) == before.len()
                &&& informs(graph, before, insight, count - 1, mid)
                &&& after =~= mid.update(node, after[node])
                &&& O::learns(mid[node], insight, after[node])
            }
    }
}

/// Hands the feedback of a sink to every operator of the pipeline, against
/// the direction of the events: an operator hears of it before the operators
/// that come before it in the topological order.
pub fn contraflow<O: Operator>(graph: &Graph, ops: &mut Vec<O>, insight: &Insight)
    requires
        old(ops)@.len() == graph@.nodes.len(),
    ensures
        final(ops)@.len() == old(ops)@.len(),
        informs(graph@, old(ops)@, insight@, graph@.nodes.len() as int, final(ops)@),
{
    let order = graph.order();
    let ghost before = ops@;
    let mut left: usize = order.len();
    while left > 0
        invariant
            graph@.wf(),
            order@ == graph@.order,
            left <= order@.len(),
            ops@.len() == graph@.nodes.len(),
            before.len() == graph@.nodes.len(),
            informs(graph@, before, insight@, order@.len() - left, ops@),
        decreases left,
    {
        left = left - 1;
        let node = order[left];
        let ghost mid = ops@;
        ops[node].on_insight(insight);
        proof {
            assert(order@.len() - (order@.len() - left) == left);
            assert(ops@ =~= mid.update(node as int, ops@[node as int]));
            lemma_one_more_insight(graph@, before, insight@, order@.len() - left, mid, ops@);
        }
    }
}

proof fn lemma_one_more_insight<O: Operator>(
    graph: GraphView,
    before: Seq<O>,
    insight: InsightView,
    count: int,
    mid: Seq<O>,
    after: Seq<O>,
)
    requires
        count > 0,
        mid.len() == before.len(),
        informs(graph, before, insight, count - 1, mid),
        after =~= mid.update(
            graph.order[graph.order.len() - count] as int,
            after[graph.order[graph.order.len() - count] as int],
        ),
        O::learns(
            mid[graph.order[graph.order.len() - count] as int],
            insight,
            after[graph.order[graph.order.len() - count] as int],
        ),
    ensures
        informs(graph, before, insight, count, after),
{
}

/// Routes an event that enters the pipeline at the input `input` of the
/// node `node`, if there is such a node and there is an operator for every
/// node; says whether the event was taken. See [`forward`].
pub fn on_event<O: Operator>(
    graph: &Graph,
    ops: &mut Vec<O>,
    node: usize,
    input: usize,
    event: Event,
) -> (taken: bool)
    ensures
        final(ops)@.len() == old(ops)@.len(),
        taken == (node < graph@.nodes.len() && old(ops)@.len() == graph@.nodes.len()),
        taken ==> delivers(graph@, old(ops)@, node, input, event@, final(ops)@),
        !taken ==> final(ops)@ == old(ops)@,
{
    if node < graph.nodes().len() && ops.len() == graph.nodes().len() {
        forward(graph, ops, node, input, event);
        true
    } else {
        false
    }
}

/// Hands the feedback of a sink to every operator of the pipeline, if there
/// is an operator for every node; says whether it was taken. See
/// [`contraflow`].
pub fn on_insight<O: Operator>(graph: &Graph, ops: &mut Vec<O>, insight: &Insight) -> (taken: bool)
    ensures
        final(ops)@.len() == old(ops)@.len(),
        taken == (old(ops)@.len() == graph@.nodes.len()),
        taken ==> informs(
            graph@,
            old(ops)@,
            insight@,
            graph@.nodes.len() as int,
            final(ops)@,
        ),
        !taken ==> final(ops)@ == old(ops)@,
{
    if ops.len() == graph.nodes().len() {
        contraflow(graph, ops, insight);
        true
    } else {
        false
    }
}

/// Where nothing is connected to the outputs on which a node gives out its
/// events, they are dropped: routing changes the operator of that node and
/// no other.
pub proof fn lemma_unconnected_output_drops<O: Operator>(
    graph: GraphView,
    before: Seq<O>,
    node: usize,
    input: usize,
    event: EventView,
    after: Seq<O>,
)
    requires
        graph.wf(),
        node < graph.nodes.len(),
        before.len() == graph.nodes.len(),
        forall|e: int| 0 <= e < graph.edges.len() ==> (#[trigger] graph.edges[e]).from != node,
        delivers(graph, before, node, input, event, after),
    ensures
        after.len() == before.len(),
        forall|other: int| 0 <= other < before.len() && other != node ==> after[other] == before[other],
        exists|out: Seq<(usize, EventView)>| #[trigger]
            O::handles(before[node as int], input, event, after[node as int], out),
{
    assert forall|out: Seq<(usize, EventView)>| #[trigger]
        leads_forward(graph, node, targets(graph.edges, node, out, out.len() as int)) by {
        lemma_targets_lead_forward(graph, node, out, out.len() as int);
    }
    let (next, out) = choose|next: O, out: Seq<(usize, EventView)>|
        {
            &&& #[trigger] O::handles(before[node as int], input, event, next, out)
            &&& delivers_all(
                graph,
                before.update(node as int, next),
                node,
                targets(graph.edges, node, out, out.len() as int),
                after,
            )
        };
    lemma_no_connection_no_target(graph.edges, node, out, out.len() as int);
    assert(targets(graph.edges, node, out, out.len() as int).len() == 0);
    assert(after == before.update(node as int, next));
    assert(O::handles(before[node as int], input, event, after[node as int], out));
}

/// A node from which no connection starts has no targets.
proof fn lemma_no_connection_no_target(
    edges: Seq<Edge>,
    node: usize,
    out: Seq<(usize, EventView)>,
    count: int,
)
    requires
        forall|e: int| 0 <= e < edges.len() ==> (#[trigger] edges[e]).from != node,
    ensures
        targets(edges, node, out, count).len() == 0,
    decreases count,
{
    if count > 0 {
        lemma_no_connection_no_target(edges, node, out, count - 1);
        lemma_no_connection_no_target_of(
            edges,
            node,
            out[count - 1].0,
            out[count - 1].1,
            edges.len() as int,
        );
    }
}

proof fn lemma_no_connection_no_target_of(
    edges: Seq<Edge>,
    node: usize,
    output: usize,
    event: EventView,
    upto: int,
)
    requires
        upto <= edges.len(),
        forall|e: int| 0 <= e < edges.len() ==> (#[trigger] edges[e]).from != node,
    ensures
        targets_of(edges, node, output, event, upto).len() == 0,
    decreases upto,
{
    if upto > 0 {
        lemma_no_connection_no_target_of(edges, node, output, event, upto - 1);
        assert(edges[upto - 1].from != node);
    }
}

} // verus!
