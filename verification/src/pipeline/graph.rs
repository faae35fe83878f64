//! The checked graph of a pipeline and the builder that makes it from a
//! declaration.
//!
//! A declaration is checked in six steps. Each step goes through the nodes
//! or the connections in the order of the declaration and stops at the first
//! one that fails; a later step is only taken when the ones before it found
//! nothing. A graph is handed out only when every step has passed.

use crate::errors::ErrorKind;
use crate::errors::ErrorView;
use crate::errors::ValueType;
use crate::pipeline::config::find_kind;
use crate::pipeline::config::find_node;
use crate::pipeline::config::find_port;
use crate::pipeline::config::first_index;
use crate::pipeline::config::kind_position;
use crate::pipeline::config::lemma_first_index;
use crate::pipeline::config::lemma_first_index_is;
use crate::pipeline::config::node_position;
use crate::pipeline::config::port_position;
use crate::pipeline::config::ConfigRule;
use crate::pipeline::config::EdgeDecl;
use crate::pipeline::config::GraphDecl;
use crate::pipeline::config::NodeConfig;
use crate::pipeline::config::NodeDecl;
use crate::pipeline::config::OperatorKind;
use crate::pipeline::config::OutputRef;
use crate::pipeline::order::admits_topological_order;
use crate::pipeline::order::edges_in_range;
use crate::pipeline::order::has_cycle;
use crate::pipeline::order::is_rank_of;
use crate::pipeline::order::is_topological_order;
use crate::pipeline::order::lemma_order_or_cycle;
use crate::pipeline::order::topological_order;
use vstd::prelude::*;

verus! {

/// The error of the first of `count` items that has one.
pub open spec fn first_failure(
    count: int,
    check: spec_fn(int) -> Option<ErrorView>,
) -> Option<ErrorView> {
    match first_index(count, |i: int| check(i) is Some) {
        Some(i) => check(i),
        None => None,
    }
}

proof fn lemma_first_failure_is(count: int, check: spec_fn(int) -> Option<ErrorView>, at: int)
    requires
        0 <= at < count,
        check(at) is Some,
        forall|j: int| 0 <= j < at ==> (#[trigger] check(j)) is None,
    ensures
        first_failure(count, check) == check(at),
{
    lemma_first_index_is(count, |i: int| check(i) is Some, at);
}

proof fn lemma_no_failure(count: int, check: spec_fn(int) -> Option<ErrorView>)
    requires
        forall|j: int| 0 <= j < count ==> (#[trigger] check(j)) is None,
    ensures
        first_failure(count, check) is None,
{
    lemma_first_index(count, |i: int| check(i) is Some);
}

/// The operator kind that a node asks for, if it is known.
pub open spec fn kind_of(kinds: Seq<OperatorKind>, node: NodeDecl) -> Option<int> {
    find_kind(kinds, node.namespace@, node.operator@)
}

/// First step: the operator of every node must be known.
pub open spec fn resolution_check(kinds: Seq<OperatorKind>, nodes: Seq<NodeDecl>) -> spec_fn(
    int,
) -> Option<ErrorView> {
    |i: int|
        if kind_of(kinds, nodes[i]) is None {
            Some(ErrorView::UnknownOp(nodes[i].namespace@, nodes[i].operator@))
        } else {
            None
        }
}

/// What is wrong with the configuration of a node, given the rule of its
/// operator.
pub open spec fn config_error(rule: ConfigRule, node: NodeDecl) -> Option<ErrorView> {
    match node.config {
        NodeConfig::Absent => if rule == ConfigRule::Required {
            Some(ErrorView::MissingOpConfig(node.id@))
        } else {
            None
        },
        NodeConfig::Given(_) => if rule == ConfigRule::Forbidden {
            Some(ErrorView::ExtraOpConfig(node.id@))
        } else {
            None
        },
        NodeConfig::Malformed(reason) => if rule == ConfigRule::Forbidden {
            Some(ErrorView::ExtraOpConfig(node.id@))
        } else {
            Some(ErrorView::BadOpConfig(reason@))
        },
    }
}

/// Second step: every node must be configured as its operator demands.
pub open spec fn config_check(kinds: Seq<OperatorKind>, nodes: Seq<NodeDecl>) -> spec_fn(
    int,
) -> Option<ErrorView> {
    |i: int|
        match kind_of(kinds, nodes[i]) {
            Some(kind) => config_error(kinds[kind].config, nodes[i]),
            None => None,
        }
}

/// A connection of the graph, between nodes and ports that exist.
#[derive(Debug, Clone, Copy, PartialEq, Eq, Structural)]
pub struct Edge {
    /// Position of the source node.
    pub from: usize,
    /// Output id at the source.
    pub output: usize,
    /// Position of the destination node.
    pub to: usize,
    /// Position of the input port at the destination.
    pub input: usize,
}

/// How a connection is written in an error.
pub open spec fn edge_text(edge: EdgeDecl) -> Seq<char> {
    edge.from@ + " -> "@ + edge.to@
}

/// The nodes and ports that a declared connection refers to, if they exist.
/// An output that is given by its id is taken as it is.
pub open spec fn resolve_edge(
    kinds: Seq<OperatorKind>,
    nodes: Seq<NodeDecl>,
    edge: EdgeDecl,
) -> Option<Edge> {
    match (find_node(nodes, edge.from@), find_node(nodes, edge.to@)) {
        (Some(from), Some(to)) => match (kind_of(kinds, nodes[from]), kind_of(kinds, nodes[to])) {
            (Some(from_kind), Some(to_kind)) => {
                let output = match edge.output {
                    OutputRef::Name(name) => find_port(kinds[from_kind].outputs@, name@),
                    OutputRef::Id(id) => Some(id as int),
                };
                match (output, find_port(kinds[to_kind].inputs@, edge.input@)) {
                    (Some(output), Some(input)) => Some(
                        Edge {
                            from: from as usize,
                            output: output as usize,
                            to: to as usize,
                            input: input as usize,
                        },
                    ),
                    _ => None,
                }
            },
            _ => None,
        },
        _ => None,
    }
}

/// Third step: every connection must join nodes and ports that exist.
pub open spec fn reference_check(
    kinds: Seq<OperatorKind>,
    nodes: Seq<NodeDecl>,
    edges: Seq<EdgeDecl>,
) -> spec_fn(int) -> Option<ErrorView> {
    |j: int|
        if resolve_edge(kinds, nodes, edges[j]) is None {
            Some(ErrorView::MissingSteps(edge_text(edges[j])))
        } else {
            None
        }
}

/// The connections of a declaration that has passed the third step.
pub open spec fn resolved_edges(kinds: Seq<OperatorKind>, decl: GraphDecl) -> Seq<Edge> {
    Seq::new(
        decl.edges@.len(),
        |j: int| resolve_edge(kinds, decl.nodes@, decl.edges@[j]).unwrap(),
    )
}

/// Source and destination of every connection.
pub open spec fn endpoints(edges: Seq<Edge>) -> Seq<(usize, usize)> {
    Seq::new(edges.len(), |j: int| (edges[j].from, edges[j].to))
}

/// Whether a value of type `given` can go where `expected` is asked for.
pub open spec fn spec_compatible(expected: ValueType, given: ValueType) -> bool {
    expected == ValueType::Any || given == ValueType::Any || expected == given
}

/// Whether a value of type `given` can go where `expected` is asked for:
/// the two are the same, or one of them is `Any`.
pub fn compatible(expected: ValueType, given: ValueType) -> (fits: bool)
    ensures
        fits == spec_compatible(expected, given),
{
    expected == ValueType::Any || given == ValueType::Any || expected == given
}

/// Fifth step: the two ports of a connection must agree in their type. A
/// connection whose output id is out of range has no output type and is left
/// to the sixth step.
pub open spec fn type_check(
    kinds: Seq<OperatorKind>,
    nodes: Seq<NodeDecl>,
    edges: Seq<EdgeDecl>,
) -> spec_fn(int) -> Option<ErrorView> {
    |j: int|
        {
            let edge = resolve_edge(kinds, nodes, edges[j]).unwrap();
            let outputs = kinds[kind_of(kinds, nodes[edge.from as int]).unwrap()].outputs@;
            let inputs = kinds[kind_of(kinds, nodes[edge.to as int]).unwrap()].inputs@;
            if edge.output < outputs.len() && !spec_compatible(
                inputs[edge.input as int].value_type,
                outputs[edge.output as int].value_type,
            ) {
                Some(
                    ErrorView::TypeError(
                        edge_text(edges[j]),
                        inputs[edge.input as int].value_type,
                        outputs[edge.output as int].value_type,
                    ),
                )
            } else {
                None
            }
        }
}

/// Sixth step: an output id must be one that the source node has.
pub open spec fn output_check(
    kinds: Seq<OperatorKind>,
    nodes: Seq<NodeDecl>,
    edges: Seq<EdgeDecl>,
) -> spec_fn(int) -> Option<ErrorView> {
    |j: int|
        {
            let edge = resolve_edge(kinds, nodes, edges[j]).unwrap();
            let outputs = kinds[kind_of(kinds, nodes[edge.from as int]).unwrap()].outputs@;
            if edge.output >= outputs.len() {
                Some(ErrorView::BadOutputid(edge.output))
            } else {
                None
            }
        }
}

/// The error with which a declaration is refused: that of the first step
/// that fails. `None` for a declaration that is accepted.
pub open spec fn build_error(kinds: Seq<OperatorKind>, decl: GraphDecl) -> Option<ErrorView> {
    let nodes = decl.nodes@;
    let edges = decl.edges@;
    let n = nodes.len() as int;
    let m = edges.len() as int;
    if first_failure(n, resolution_check(kinds, nodes)) is Some {
        first_failure(n, resolution_check(kinds, nodes))
    } else if first_failure(n, config_check(kinds, nodes)) is Some {
        first_failure(n, config_check(kinds, nodes))
    } else if first_failure(m, reference_check(kinds, nodes, edges)) is Some {
        first_failure(m, reference_check(kinds, nodes, edges))
    } else if !admits_topological_order(n as nat, endpoints(resolved_edges(kinds, decl))) {
        Some(ErrorView::CyclicGraphError(decl.id@))
    } else if first_failure(m, type_check(kinds, nodes, edges)) is Some {
        first_failure(m, type_check(kinds, nodes, edges))
    } else {
        first_failure(m, output_check(kinds, nodes, edges))
    }
}

/// One node of a checked graph.
#[derive(Debug)]
pub struct Node {
    /// Name of the node.
    pub id: String,
    /// Position of its operator among the known kinds.
    pub kind: usize,
    /// Its configuration, which the engine does not look into.
    pub config: Option<String>,
}

/// Mathematical value of a [`Node`].
pub ghost struct NodeView {
    pub id: Seq<char>,
    pub kind: int,
    pub config: Option<Seq<char>>,
}

impl View for Node {
    type V = NodeView;

    open spec fn view(&self) -> NodeView {
        NodeView {
            id: self.id@,
            kind: self.kind as int,
            config: match self.config {
                Some(text) => Some(text@),
                None => None,
            },
        }
    }
}

/// The node that a declared node becomes.
pub open spec fn resolved_node(kinds: Seq<OperatorKind>, node: NodeDecl) -> NodeView {
    NodeView {
        id: node.id@,
        kind: kind_of(kinds, node).unwrap(),
        config: match node.config {
            NodeConfig::Given(text) => Some(text@),
            _ => None,
        },
    }
}

/// Mathematical value of a [`Graph`].
pub ghost struct GraphView {
    pub id: Seq<char>,
    pub nodes: Seq<NodeView>,
    pub edges: Seq<Edge>,
    /// The nodes in topological order.
    pub order: Seq<usize>,
    /// For every node its place in `order`.
    pub rank: Seq<usize>,
}

impl GraphView {
    /// The connections join nodes of the graph, and `order` holds every node
    /// once, each source before its destinations.
    pub open spec fn ordered(self) -> bool {
        &&& edges_in_range(self.nodes.len(), endpoints(self.edges))
        &&& is_topological_order(self.order, self.nodes.len(), endpoints(self.edges))
        &&& self.order.len() == self.nodes.len()
        &&& is_rank_of(self.rank, self.order)
    }

    /// What holds of every graph: it is ordered, and so every connection
    /// leads from a node to one of higher rank.
    pub open spec fn wf(self) -> bool {
        &&& self.ordered()
        &&& forall|node: int|
            0 <= node < self.nodes.len() ==> #[trigger] self.rank[node] < self.nodes.len()
        &&& forall|e: int|
            0 <= e < self.edges.len() ==> (#[trigger] self.edges[e]).from < self.nodes.len()
                && self.edges[e].to < self.nodes.len() && self.rank[self.edges[e].from as int]
                < self.rank[self.edges[e].to as int]
    }

    /// The graph has the nodes and connections of the declaration, in the
    /// same order.
    pub open spec fn declared_by(self, kinds: Seq<OperatorKind>, decl: GraphDecl) -> bool {
        &&& self.id == decl.id@
        &&& self.nodes.len() == decl.nodes@.len()
        &&& forall|i: int|
            0 <= i < self.nodes.len() ==> #[trigger] self.nodes[i] == resolved_node(
                kinds,
                decl.nodes@[i],
            )
        &&& self.edges == resolved_edges(kinds, decl)
    }
}

/// The checked graph of a pipeline. It does not change once it is built.
#[derive(Debug)]
pub struct Graph {
    id: String,
    nodes: Vec<Node>,
    edges: Vec<Edge>,
    order: Vec<usize>,
    rank: Vec<usize>,
}

impl View for Graph {
    type V = GraphView;

    closed spec fn view(&self) -> GraphView {
        GraphView {
            id: self.id@,
            nodes: Seq::new(self.nodes@.len(), |i: int| self.nodes@[i]@),
            edges: self.edges@,
            order: self.order@,
            rank: self.rank@,
        }
    }
}

impl Graph {
    #[verifier::type_invariant]
    spec fn valid(self) -> bool {
        self@.wf()
    }

    /// Name of the graph.
    pub fn id(&self) -> (id: &String)
        ensures
            id@ == self@.id,
    {
        &self.id
    }

    /// The nodes, in the order of their declaration.
    pub fn nodes(&self) -> (nodes: &Vec<Node>)
        ensures
            nodes@.len() == self@.nodes.len(),
            forall|i: int| 0 <= i < nodes@.len() ==> (#[trigger] nodes@[i])@ == self@.nodes[i],
            self@.wf(),
    {
        proof {
            use_type_invariant(self);
        }
        &self.nodes
    }

    /// The connections, in the order of their declaration.
    pub fn edges(&self) -> (edges: &Vec<Edge>)
        ensures
            edges@ == self@.edges,
            self@.wf(),
    {
        proof {
            use_type_invariant(self);
        }
        &self.edges
    }

    /// The nodes in topological order.
    pub fn order(&self) -> (order: &Vec<usize>)
        ensures
            order@ == self@.order,
            self@.wf(),
    {
        proof {
            use_type_invariant(self);
        }
        &self.order
    }

    /// The place of every node in the topological order.
    pub fn rank(&self) -> (rank: &Vec<usize>)
        ensures
            rank@ == self@.rank,
            self@.wf(),
    {
        proof {
            use_type_invariant(self);
        }
        &self.rank
    }
}

/// First step. Gives the position of the operator kind of every node.
fn resolve_nodes(kinds: &Vec<OperatorKind>, nodes: &Vec<NodeDecl>) -> (r: Result<
    Vec<usize>,
    ErrorKind,
>)
    ensures
        match r {
            Ok(found) => {
                &&& first_failure(nodes@.len() as int, resolution_check(kinds@, nodes@)) is None
                &&& found@.len() == nodes@.len()
                &&& forall|i: int|
                    0 <= i < nodes@.len() ==> kind_of(kinds@, nodes@[i]) == Some(
                        (#[trigger] found@[i]) as int,
                    )
            },
            Err(e) => first_failure(nodes@.len() as int, resolution_check(kinds@, nodes@))
                == Some(e@),
        },
{
    let ghost check = resolution_check(kinds@, nodes@);
    let mut found: Vec<usize> = Vec::new();
    let mut i: usize = 0;
    while i < nodes.len()
        invariant
            i <= nodes@.len(),
            check == resolution_check(kinds@, nodes@),
            found@.len() == i,
            forall|j: int| 0 <= j < i ==> (#[trigger] check(j)) is None,
            forall|j: int|
                0 <= j < i ==> kind_of(kinds@, nodes@[j]) == Some((#[trigger] found@[j]) as int),
        decreases nodes@.len() - i,
    {
        match kind_position(kinds, &nodes[i].namespace, &nodes[i].operator) {
            Some(kind) => {
                found.push(kind);
            },
            None => {
                proof {
                    lemma_first_failure_is(nodes@.len() as int, check, i as int);
                }
                return Err(
                    ErrorKind::UnknownOp(nodes[i].namespace.clone(), nodes[i].operator.clone()),
                );
            },
        }
        i = i + 1;
    }
    proof {
        lemma_no_failure(nodes@.len() as int, check);
    }
    Ok(found)
}

/// The error of one node's configuration, if it has one.
fn check_config(rule: ConfigRule, node: &NodeDecl) -> (r: Option<ErrorKind>)
    ensures
        match r {
            Some(e) => config_error(rule, *node) == Some(e@),
            None => config_error(rule, *node) is None,
        },
{
    match &node.config {
        NodeConfig::Absent => if rule == ConfigRule::Required {
            Some(ErrorKind::MissingOpConfig(node.id.clone()))
        } else {
            None
        },
        NodeConfig::Given(_) => if rule == ConfigRule::Forbidden {
            Some(ErrorKind::ExtraOpConfig(node.id.clone()))
        } else {
            None
        },
        NodeConfig::Malformed(reason) => if rule == ConfigRule::Forbidden {
            Some(ErrorKind::ExtraOpConfig(node.id.clone()))
        } else {
            Some(ErrorKind::BadOpConfig(reason.clone()))
        },
    }
}

/// Second step.
fn check_configs(kinds: &Vec<OperatorKind>, nodes: &Vec<NodeDecl>, found: &Vec<usize>) -> (r:
    Option<ErrorKind>)
    requires
        found@.len() == nodes@.len(),
        forall|i: int|
            0 <= i < nodes@.len() ==> kind_of(kinds@, nodes@[i]) == Some(
                (#[trigger] found@[i]) as int,
            ),
        forall|i: int| 0 <= i < found@.len() ==> (#[trigger] found@[i]) < kinds@.len(),
    ensures
        match r {
            Some(e) => first_failure(nodes@.len() as int, config_check(kinds@, nodes@)) == Some(
                e@,
            ),
            None => first_failure(nodes@.len() as int, config_check(kinds@, nodes@)) is None,
        },
{
    let ghost check = config_check(kinds@, nodes@);
    let mut i: usize = 0;
    while i < nodes.len()
        invariant
            i <= nodes@.len(),
            check == config_check(kinds@, nodes@),
            found@.len() == nodes@.len(),
            forall|j: int|
                0 <= j < nodes@.len() ==> kind_of(kinds@, nodes@[j]) == Some(
                    (#[trigger] found@[j]) as int,
                ),
            forall|j: int| 0 <= j < found@.len() ==> (#[trigger] found@[j]) < kinds@.len(),
            forall|j: int| 0 <= j < i ==> (#[trigger] check(j)) is None,
        decreases nodes@.len() - i,
    {
        assert(kind_of(kinds@, nodes@[i as int]) == Some(found@[i as int] as int));
        match check_config(kinds[found[i]].config, &nodes[i]) {
            Some(e) => {
                proof {
                    lemma_first_failure_is(nodes@.len() as int, check, i as int);
                }
                return Some(e);
            },
            None => {},
        }
        i = i + 1;
    }
    proof {
        lemma_no_failure(nodes@.len() as int, check);
    }
    None
}

/// The nodes and ports of one declared connection, if they exist.
fn resolve(
    kinds: &Vec<OperatorKind>,
    nodes: &Vec<NodeDecl>,
    found: &Vec<usize>,
    edge: &EdgeDecl,
) -> (r: Option<Edge>)
    requires
        found@.len() == nodes@.len(),
        forall|i: int|
            0 <= i < nodes@.len() ==> kind_of(kinds@, nodes@[i]) == Some(
                (#[trigger] found@[i]) as int,
            ),
        forall|i: int| 0 <= i < found@.len() ==> (#[trigger] found@[i]) < kinds@.len(),
    ensures
        r == resolve_edge(kinds@, nodes@, *edge),
        r matches Some(e) ==> e.from < nodes@.len() && e.to < nodes@.len() && e.input
            < kinds@[found@[e.to as int] as int].inputs@.len(),
{
    let from = match node_position(nodes, &edge.from) {
        Some(at) => at,
        None => {
            return None;
        },
    };
    let to = match node_position(nodes, &edge.to) {
        Some(at) => at,
        None => {
            return None;
        },
    };
    proof {
        lemma_first_index(nodes@.len() as int, |i: int| nodes@[i].id@ == edge.from@);
        lemma_first_index(nodes@.len() as int, |i: int| nodes@[i].id@ == edge.to@);
    }
    assert(kind_of(kinds@, nodes@[from as int]) == Some(found@[from as int] as int));
    assert(kind_of(kinds@, nodes@[to as int]) == Some(found@[to as int] as int));
    let output = match &edge.output {
        OutputRef::Name(name) => match port_position(&kinds[found[from]].outputs, name) {
            Some(at) => at,
            None => {
                return None;
            },
        },
        OutputRef::Id(id) => *id,
    };
    let input = match port_position(&kinds[found[to]].inputs, &edge.input) {
        Some(at) => at,
        None => {
            return None;
        },
    };
    proof {
        let inputs = kinds@[found@[to as int] as int].inputs@;
        lemma_first_index(inputs.len() as int, |i: int| inputs[i].name@ == edge.input@);
    }
    Some(Edge { from, output, to, input })
}

/// Writes a connection as it appears in an error.
fn edge_name(edge: &EdgeDecl) -> (text: String)
    ensures
        text@ == edge_text(*edge),
{
    let mut text = edge.from.clone();
    text.append(" -> ");
    text.append(edge.to.as_str());
    text
}

/// Third step. Gives the connections between the nodes.
fn resolve_edges(
    kinds: &Vec<OperatorKind>,
    nodes: &Vec<NodeDecl>,
    found: &Vec<usize>,
    edges: &Vec<EdgeDecl>,
) -> (r: Result<Vec<Edge>, ErrorKind>)
    requires
        found@.len() == nodes@.len(),
        forall|i: int|
            0 <= i < nodes@.len() ==> kind_of(kinds@, nodes@[i]) == Some(
                (#[trigger] found@[i]) as int,
            ),
        forall|i: int| 0 <= i < found@.len() ==> (#[trigger] found@[i]) < kinds@.len(),
    ensures
        match r {
            Ok(resolved) => {
                &&& first_failure(edges@.len() as int, reference_check(kinds@, nodes@, edges@))
                    is None
                &&& resolved@.len() == edges@.len()
                &&& forall|j: int|
                    0 <= j < edges@.len() ==> resolve_edge(kinds@, nodes@, edges@[j]) == Some(
                        #[trigger] resolved@[j],
                    )
                &&& forall|j: int|
                    0 <= j < edges@.len() ==> (#[trigger] resolved@[j]).from < nodes@.len()
                        && resolved@[j].to < nodes@.len() && resolved@[j].input
                        < kinds@[found@[resolved@[j].to as int] as int].inputs@.len()
            },
            Err(e) => first_failure(edges@.len() as int, reference_check(kinds@, nodes@, edges@))
                == Some(e@),
        },
{
    let ghost check = reference_check(kinds@, nodes@, edges@);
    let mut resolved: Vec<Edge> = Vec::new();
    let mut j: usize = 0;
    while j < edges.len()
        invariant
            j <= edges@.len(),
            check == reference_check(kinds@, nodes@, edges@),
            found@.len() == nodes@.len(),
            forall|i: int|
                0 <= i < nodes@.len() ==> kind_of(kinds@, nodes@[i]) == Some(
                    (#[trigger] found@[i]) as int,
                ),
            forall|i: int| 0 <= i < found@.len() ==> (#[trigger] found@[i]) < kinds@.len(),
            resolved@.len() == j,
            forall|k: int| 0 <= k < j ==> (#[trigger] check(k)) is None,
            forall|k: int|
                0 <= k < j ==> resolve_edge(kinds@, nodes@, edges@[k]) == Some(
                    #[trigger] resolved@[k],
                ),
            forall|k: int|
                0 <= k < j ==> (#[trigger] resolved@[k]).from < nodes@.len() && resolved@[k].to
                    < nodes@.len() && resolved@[k].input
                    < kinds@[found@[resolved@[k].to as int] as int].inputs@.len(),
        decreases edges@.len() - j,
    {
        match resolve(kinds, nodes, found, &edges[j]) {
            Some(edge) => {
                resolved.push(edge);
            },
            None => {
                proof {
                    lemma_first_failure_is(edges@.len() as int, check, j as int);
                }
                return Err(ErrorKind::MissingSteps(edge_name(&edges[j])));
            },
        }
        j = j + 1;
    }
    proof {
        lemma_no_failure(edges@.len() as int, check);
    }
    Ok(resolved)
}

/// Source and destination of every connection, for the search of an order.
fn endpoints_of(edges: &Vec<Edge>) -> (pairs: Vec<(usize, usize)>)
    ensures
        pairs@ == endpoints(edges@),
{
    let mut pairs: Vec<(usize, usize)> = Vec::new();
    let mut j: usize = 0;
    while j < edges.len()
        invariant
            j <= edges@.len(),
            pairs@.len() == j,
            forall|k: int| 0 <= k < j ==> #[trigger] pairs@[k] == (edges@[k].from, edges@[k].to),
        decreases edges@.len() - j,
    {
        pairs.push((edges[j].from, edges[j].to));
        j = j + 1;
    }
    assert(pairs@ =~= endpoints(edges@));
    pairs
}

/// What the later steps know of the connections: they are the ones that the
/// declaration resolves to.
spec fn resolved_as(
    kinds: Seq<OperatorKind>,
    nodes: Seq<NodeDecl>,
    found: Seq<usize>,
    edges: Seq<EdgeDecl>,
    resolved: Seq<Edge>,
) -> bool {
    &&& found.len() == nodes.len()
    &&& forall|i: int|
        0 <= i < nodes.len() ==> kind_of(kinds, nodes[i]) == Some((#[trigger] found[i]) as int)
    &&& forall|i: int| 0 <= i < found.len() ==> (#[trigger] found[i]) < kinds.len()
    &&& resolved.len() == edges.len()
    &&& forall|j: int|
        0 <= j < edges.len() ==> resolve_edge(kinds, nodes, edges[j]) == Some(
            #[trigger] resolved[j],
        )
    &&& forall|j: int|
        0 <= j < edges.len() ==> (#[trigger] resolved[j]).from < nodes.len() && resolved[j].to
            < nodes.len() && resolved[j].input
            < kinds[found[resolved[j].to as int] as int].inputs@.len()
}

/// Fifth step.
fn check_types(
    kinds: &Vec<OperatorKind>,
    nodes: &Vec<NodeDecl>,
    found: &Vec<usize>,
    edges: &Vec<EdgeDecl>,
    resolved: &Vec<Edge>,
) -> (r: Option<ErrorKind>)
    requires
        resolved_as(kinds@, nodes@, found@, edges@, resolved@),
    ensures
        match r {
            Some(e) => first_failure(edges@.len() as int, type_check(kinds@, nodes@, edges@))
                == Some(e@),
            None => first_failure(edges@.len() as int, type_check(kinds@, nodes@, edges@))
                is None,
        },
{
    let ghost check = type_check(kinds@, nodes@, edges@);
    let mut j: usize = 0;
    while j < edges.len()
        invariant
            j <= edges@.len(),
            check == type_check(kinds@, nodes@, edges@),
            resolved_as(kinds@, nodes@, found@, edges@, resolved@),
            forall|k: int| 0 <= k < j ==> (#[trigger] check(k)) is None,
        decreases edges@.len() - j,
    {
        let edge = resolved[j];
        assert(resolve_edge(kinds@, nodes@, edges@[j as int]) == Some(resolved@[j as int]));
        assert(kind_of(kinds@, nodes@[edge.from as int]) == Some(found@[edge.from as int] as int));
        assert(kind_of(kinds@, nodes@[edge.to as int]) == Some(found@[edge.to as int] as int));
        let outputs = &kinds[found[edge.from]].outputs;
        let inputs = &kinds[found[edge.to]].inputs;
        if edge.output < outputs.len() {
            let expected = inputs[edge.input].value_type;
            let given = outputs[edge.output].value_type;
            if !compatible(expected, given) {
                proof {
                    lemma_first_failure_is(edges@.len() as int, check, j as int);
                }
                return Some(ErrorKind::TypeError(edge_name(&edges[j]), expected, given));
            }
        }
        j = j + 1;
    }
    proof {
        lemma_no_failure(edges@.len() as int, check);
    }
    None
}

/// Sixth step.
fn check_outputs(
    kinds: &Vec<OperatorKind>,
    nodes: &Vec<NodeDecl>,
    found: &Vec<usize>,
    edges: &Vec<EdgeDecl>,
    resolved: &Vec<Edge>,
) -> (r: Option<ErrorKind>)
    requires
        resolved_as(kinds@, nodes@, found@, edges@, resolved@),
    ensures
        match r {
            Some(e) => first_failure(edges@.len() as int, output_check(kinds@, nodes@, edges@))
                == Some(e@),
            None => first_failure(edges@.len() as int, output_check(kinds@, nodes@, edges@))
                is None,
        },
{
    let ghost check = output_check(kinds@, nodes@, edges@);
    let mut j: usize = 0;
    while j < edges.len()
        invariant
            j <= edges@.len(),
            check == output_check(kinds@, nodes@, edges@),
            resolved_as(kinds@, nodes@, found@, edges@, resolved@),
            forall|k: int| 0 <= k < j ==> (#[trigger] check(k)) is None,
        decreases edges@.len() - j,
    {
        let edge = resolved[j];
        assert(resolve_edge(kinds@, nodes@, edges@[j as int]) == Some(resolved@[j as int]));
        assert(kind_of(kinds@, nodes@[edge.from as int]) == Some(found@[edge.from as int] as int));
        if edge.output >= kinds[found[edge.from]].outputs.len() {
            proof {
                lemma_first_failure_is(edges@.len() as int, check, j as int);
            }
            return Some(ErrorKind::BadOutputid(edge.output));
        }
        j = j + 1;
    }
    proof {
        lemma_no_failure(edges@.len() as int, check);
    }
    None
}

/// The nodes of the graph, made from the declared ones.
fn make_nodes(kinds: &Vec<OperatorKind>, nodes: &Vec<NodeDecl>, found: &Vec<usize>) -> (made: Vec<
    Node,
>)
    requires
        found@.len() == nodes@.len(),
        forall|i: int|
            0 <= i < nodes@.len() ==> kind_of(kinds@, nodes@[i]) == Some(
                (#[trigger] found@[i]) as int,
            ),
    ensures
        made@.len() == nodes@.len(),
        forall|i: int|
            0 <= i < nodes@.len() ==> (#[trigger] made@[i])@ == resolved_node(kinds@, nodes@[i]),
{
    let mut made: Vec<Node> = Vec::new();
    let mut i: usize = 0;
    while i < nodes.len()
        invariant
            i <= nodes@.len(),
            found@.len() == nodes@.len(),
            forall|k: int|
                0 <= k < nodes@.len() ==> kind_of(kinds@, nodes@[k]) == Some(
                    (#[trigger] found@[k]) as int,
                ),
            made@.len() == i,
            forall|k: int|
                0 <= k < i ==> (#[trigger] made@[k])@ == resolved_node(kinds@, nodes@[k]),
        decreases nodes@.len() - i,
    {
        let config = match &nodes[i].config {
            NodeConfig::Given(text) => Some(text.clone()),
            _ => None,
        };
        assert(kind_of(kinds@, nodes@[i as int]) == Some(found@[i as int] as int));
        made.push(Node { id: nodes[i].id.clone(), kind: found[i], config });
        i = i + 1;
    }
    made
}

/// Builds graphs from declarations, with the operator kinds that it knows.
#[derive(Debug)]
pub struct GraphBuilder {
    pub kinds: Vec<OperatorKind>,
}

impl GraphBuilder {
    /// A builder that knows the given operator kinds.
    pub fn new(kinds: Vec<OperatorKind>) -> (builder: Self)
        ensures
            builder.kinds == kinds,
    {
        GraphBuilder { kinds }
    }

    /// Checks a declaration and builds its graph. A declaration that fails a
    /// check is refused with the error of that check, and no graph is made.
    pub fn build(&self, decl: &GraphDecl) -> (r: Result<Graph, ErrorKind>)
        ensures
            match r {
                Ok(graph) => {
                    &&& build_error(self.kinds@, *decl) is None
                    &&& graph@.declared_by(self.kinds@, *decl)
                    &&& graph@.wf()
                },
                Err(e) => build_error(self.kinds@, *decl) == Some(e@),
            },
    {
        let found = match resolve_nodes(&self.kinds, &decl.nodes) {
            Ok(found) => found,
            Err(e) => {
                return Err(e);
            },
        };
        proof {
            assert forall|i: int| 0 <= i < found@.len() implies (#[trigger] found@[i])
                < self.kinds@.len() by {
                assert(kind_of(self.kinds@, decl.nodes@[i]) == Some(found@[i] as int));
                lemma_first_index(
                    self.kinds@.len() as int,
                    |k: int|
                        self.kinds@[k].namespace@ == decl.nodes@[i].namespace@
                            && self.kinds@[k].name@ == decl.nodes@[i].operator@,
                );
            }
        }
        match check_configs(&self.kinds, &decl.nodes, &found) {
            Some(e) => {
                return Err(e);
            },
            None => {},
        }
        let edges = match resolve_edges(&self.kinds, &decl.nodes, &found, &decl.edges) {
            Ok(edges) => edges,
            Err(e) => {
                return Err(e);
            },
        };
        assert(edges@ =~= resolved_edges(self.kinds@, *decl));
        let pairs = endpoints_of(&edges);
        let (order, rank) = match topological_order(decl.nodes.len(), &pairs) {
            Some(found) => found,
            None => {
                return Err(ErrorKind::CyclicGraphError(decl.id.clone()));
            },
        };
        match check_types(&self.kinds, &decl.nodes, &found, &decl.edges, &edges) {
            Some(e) => {
                return Err(e);
            },
            None => {},
        }
        match check_outputs(&self.kinds, &decl.nodes, &found, &decl.edges, &edges) {
            Some(e) => {
                return Err(e);
            },
            None => {},
        }
        let nodes = make_nodes(&self.kinds, &decl.nodes, &found);
        proof {
            let view = GraphView {
                id: decl.id@,
                nodes: Seq::new(nodes@.len(), |i: int| nodes@[i]@),
                edges: edges@,
                order: order@,
                rank: rank@,
            };
            lemma_connections_lead_forward(view);
        }
        let graph = Graph { id: decl.id.clone(), nodes, edges, order, rank };
        Ok(graph)
    }
}

/// Where no item has an error, none is the first.
proof fn lemma_all_pass(count: int, check: spec_fn(int) -> Option<ErrorView>)
    requires
        first_failure(count, check) is None,
    ensures
        forall|j: int| 0 <= j < count ==> (#[trigger] check(j)) is None,
{
    lemma_first_index(count, |i: int| check(i) is Some);
    assert forall|j: int| 0 <= j < count implies (#[trigger] check(j)) is None by {
        let holds = |i: int| check(i) is Some;
        assert(!holds(j));
    }
}

/// The first error is the error of one of the items.
proof fn lemma_failure_is_of_an_item(count: int, check: spec_fn(int) -> Option<ErrorView>)
    requires
        first_failure(count, check) is Some,
    ensures
        exists|j: int| 0 <= j < count && #[trigger] check(j) == first_failure(count, check),
{
    lemma_first_index(count, |i: int| check(i) is Some);
    let at = first_index(count, |i: int| check(i) is Some).unwrap();
    assert(check(at) == first_failure(count, check));
}

/// The connections of a declaration that has passed the third step join
/// nodes of the declaration.
proof fn lemma_resolved_edges_in_range(kinds: Seq<OperatorKind>, decl: GraphDecl)
    requires
        first_failure(
            decl.edges@.len() as int,
            reference_check(kinds, decl.nodes@, decl.edges@),
        ) is None,
    ensures
        edges_in_range(decl.nodes@.len(), endpoints(resolved_edges(kinds, decl))),
{
    let nodes = decl.nodes@;
    let edges = decl.edges@;
    let pairs = endpoints(resolved_edges(kinds, decl));
    lemma_all_pass(edges.len() as int, reference_check(kinds, nodes, edges));
    assert forall|j: int| 0 <= j < pairs.len() implies (#[trigger] pairs[j]).0 < nodes.len()
        && pairs[j].1 < nodes.len() by {
        assert(reference_check(kinds, nodes, edges)(j) is None);
        assert(resolve_edge(kinds, nodes, edges[j]) is Some);
        lemma_first_index(nodes.len() as int, |i: int| nodes[i].id@ == edges[j].from@);
        lemma_first_index(nodes.len() as int, |i: int| nodes[i].id@ == edges[j].to@);
    }
}

/// A declaration that has passed the checks of its nodes and references is
/// refused as cyclic exactly when its connections form a cycle.
pub proof fn lemma_cyclic_declaration_is_refused(kinds: Seq<OperatorKind>, decl: GraphDecl)
    requires
        first_failure(decl.nodes@.len() as int, resolution_check(kinds, decl.nodes@)) is None,
        first_failure(decl.nodes@.len() as int, config_check(kinds, decl.nodes@)) is None,
        first_failure(
            decl.edges@.len() as int,
            reference_check(kinds, decl.nodes@, decl.edges@),
        ) is None,
    ensures
        has_cycle(decl.nodes@.len(), endpoints(resolved_edges(kinds, decl))) <==> build_error(
            kinds,
            decl,
        ) == Some(ErrorView::CyclicGraphError(decl.id@)),
{
    let n = decl.nodes@.len();
    let m = decl.edges@.len() as int;
    let pairs = endpoints(resolved_edges(kinds, decl));
    lemma_resolved_edges_in_range(kinds, decl);
    lemma_order_or_cycle(n, pairs);
    if !has_cycle(n, pairs) {
        let types = type_check(kinds, decl.nodes@, decl.edges@);
        let outputs = output_check(kinds, decl.nodes@, decl.edges@);
        if first_failure(m, types) is Some {
            lemma_failure_is_of_an_item(m, types);
        } else if first_failure(m, outputs) is Some {
            lemma_failure_is_of_an_item(m, outputs);
        }
    }
}

/// A declaration that passes the checks of its nodes and connections, and
/// whose connections form no cycle, is accepted.
pub proof fn lemma_acyclic_declaration_is_accepted(kinds: Seq<OperatorKind>, decl: GraphDecl)
    requires
        first_failure(decl.nodes@.len() as int, resolution_check(kinds, decl.nodes@)) is None,
        first_failure(decl.nodes@.len() as int, config_check(kinds, decl.nodes@)) is None,
        first_failure(
            decl.edges@.len() as int,
            reference_check(kinds, decl.nodes@, decl.edges@),
        ) is None,
        first_failure(decl.edges@.len() as int, type_check(kinds, decl.nodes@, decl.edges@))
            is None,
        first_failure(decl.edges@.len() as int, output_check(kinds, decl.nodes@, decl.edges@))
            is None,
        !has_cycle(decl.nodes@.len(), endpoints(resolved_edges(kinds, decl))),
    ensures
        build_error(kinds, decl) is None,
{
    lemma_resolved_edges_in_range(kinds, decl);
    lemma_order_or_cycle(decl.nodes@.len(), endpoints(resolved_edges(kinds, decl)));
}

/// In an ordered graph every node has its place in the order, and every
/// connection leads from a node to one that comes later.
pub proof fn lemma_connections_lead_forward(graph: GraphView)
    requires
        graph.ordered(),
    ensures
        graph.wf(),
{
    let order = graph.order;
    let rank = graph.rank;
    let pairs = endpoints(graph.edges);
    assert forall|node: int| 0 <= node < graph.nodes.len() implies #[trigger] rank[node]
        < graph.nodes.len() by {
        assert(crate::pipeline::order::occurs(order, node as usize));
        let at = choose|i: int| 0 <= i < order.len() && order[i] == node as usize;
        assert(rank[order[at] as int] == at);
    }
    assert forall|e: int| 0 <= e < graph.edges.len() implies (#[trigger] graph.edges[e]).from
        < graph.nodes.len() && graph.edges[e].to < graph.nodes.len()
        && rank[graph.edges[e].from as int] < rank[graph.edges[e].to as int] by {
        let from = graph.edges[e].from;
        let to = graph.edges[e].to;
        assert(pairs[e] == (from, to));
        assert(crate::pipeline::order::occurs(order, from));
        assert(crate::pipeline::order::occurs(order, to));
        let i = choose|i: int| 0 <= i < order.len() && order[i] == from;
        let j = choose|j: int| 0 <= j < order.len() && order[j] == to;
        assert(rank[order[i] as int] == i);
        assert(rank[order[j] as int] == j);
        assert(order[i] == pairs[e].0 && order[j] == pairs[e].1);
    }
}

/// In the graph of a declaration that was accepted, the topological order
/// holds every node exactly once: each node has one place in it, and that
/// place is its rank.
pub proof fn lemma_order_holds_each_node_once(graph: GraphView, node: usize)
    requires
        graph.wf(),
        node < graph.nodes.len(),
    ensures
        graph.order.len() == graph.nodes.len(),
        graph.rank[node as int] < graph.order.len(),
        graph.order[graph.rank[node as int] as int] == node,
        forall|i: int|
            0 <= i < graph.order.len() && graph.order[i] == node ==> i == graph.rank[node as int],
{
    let order = graph.order;
    let rank = graph.rank;
    assert(crate::pipeline::order::occurs(order, node));
    let at = choose|i: int| 0 <= i < order.len() && order[i] == node;
    assert(rank[order[at] as int] == at);
}

} // verus!
