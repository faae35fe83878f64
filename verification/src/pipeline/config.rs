//! Declaration of a pipeline: the operators that are known, and the nodes
//! and connections of the graph as they are written down.

use crate::errors::ValueType;
use vstd::prelude::*;

verus! {

/// A named port of an operator with the kind of value it takes or gives.
#[derive(Debug)]
pub struct Port {
    pub name: String,
    pub value_type: ValueType,
}

/// Whether an operator can be configured.
#[derive(Debug, Clone, Copy, PartialEq, Eq, Structural)]
pub enum ConfigRule {
    /// The operator cannot work without a configuration.
    Required,
    /// The operator works with or without one.
    Optional,
    /// The operator has nothing to configure.
    Forbidden,
}

/// What is known of one kind of operator.
#[derive(Debug)]
pub struct OperatorKind {
    pub namespace: String,
    pub name: String,
    pub config: ConfigRule,
    /// Input ports in the order of their declaration.
    pub inputs: Vec<Port>,
    /// Output ports in the order of their declaration; the position of a
    /// port is its output id, and the first one is the default output.
    pub outputs: Vec<Port>,
}

/// Configuration of a node as it was found in the declaration.
#[derive(Debug)]
pub enum NodeConfig {
    /// The node has none.
    Absent,
    /// The node has one; the graph engine does not look into it.
    Given(String),
    /// The node has one that could not be read; the reason is kept.
    Malformed(String),
}

/// One node of the declared graph.
#[derive(Debug)]
pub struct NodeDecl {
    /// Name of the node.
    pub id: String,
    /// Namespace of its operator.
    pub namespace: String,
    /// Name of its operator in that namespace.
    pub operator: String,
    pub config: NodeConfig,
}

/// How a connection names the output it starts from.
#[derive(Debug)]
pub enum OutputRef {
    /// By the name of the port.
    Name(String),
    /// By the output id.
    Id(usize),
}

/// One connection of the declared graph, from an output of one node to an
/// input of another.
#[derive(Debug)]
pub struct EdgeDecl {
    pub from: String,
    pub output: OutputRef,
    pub to: String,
    pub input: String,
}

/// A pipeline as it is declared.
#[derive(Debug)]
pub struct GraphDecl {
    pub id: String,
    pub nodes: Vec<NodeDecl>,
    pub edges: Vec<EdgeDecl>,
}

/// The least number below `count` for which `holds`, if there is one.
pub open spec fn first_index(count: int, holds: spec_fn(int) -> bool) -> Option<int>
    decreases count,
{
    if count <= 0 {
        None
    } else {
        match first_index(count - 1, holds) {
            Some(i) => Some(i),
            None => if holds(count - 1) {
                Some(count - 1)
            } else {
                None
            },
        }
    }
}

/// `first_index` finds the least number for which the predicate holds.
pub proof fn lemma_first_index(count: int, holds: spec_fn(int) -> bool)
    ensures
        match first_index(count, holds) {
            Some(i) => 0 <= i < count && holds(i) && forall|j: int| 0 <= j < i ==> !#[trigger] holds(j),
            None => forall|j: int| 0 <= j < count ==> !#[trigger] holds(j),
        },
    decreases count,
{
    if count > 0 {
        lemma_first_index(count - 1, holds);
    }
}

/// Whoever holds the least number has found what `first_index` finds.
pub proof fn lemma_first_index_is(count: int, holds: spec_fn(int) -> bool, at: int)
    requires
        0 <= at < count,
        holds(at),
        forall|j: int| 0 <= j < at ==> !#[trigger] holds(j),
    ensures
        first_index(count, holds) == Some(at),
{
    lemma_first_index(count, holds);
}

/// Position of the first port with the given name.
pub open spec fn find_port(ports: Seq<Port>, name: Seq<char>) -> Option<int> {
    first_index(ports.len() as int, |i: int| ports[i].name@ == name)
}

/// Position of the first operator kind with the given namespace and name.
pub open spec fn find_kind(kinds: Seq<OperatorKind>, namespace: Seq<char>, name: Seq<char>) -> Option<
    int,
> {
    first_index(kinds.len() as int, |i: int| kinds[i].namespace@ == namespace && kinds[i].name@ == name)
}

/// Position of the first node with the given name.
pub open spec fn find_node(nodes: Seq<NodeDecl>, id: Seq<char>) -> Option<int> {
    first_index(nodes.len() as int, |i: int| nodes[i].id@ == id)
}

/// What a search has found, as a number of the specification.
pub open spec fn found(at: Option<usize>) -> Option<int> {
    match at {
        Some(i) => Some(i as int),
        None => None,
    }
}

/// Looks a port up by its name.
pub fn port_position(ports: &Vec<Port>, name: &String) -> (at: Option<usize>)
    ensures
        found(at) == find_port(ports@, name@),
{
    let ghost holds = |i: int| ports@[i].name@ == name@;
    let mut i: usize = 0;
    while i < ports.len()
        invariant
            i <= ports@.len(),
            holds == (|i: int| ports@[i].name@ == name@),
            forall|j: int| 0 <= j < i ==> !#[trigger] holds(j),
        decreases ports@.len() - i,
    {
        if ports[i].name == *name {
            proof {
                lemma_first_index_is(ports@.len() as int, holds, i as int);
            }
            return Some(i);
        }
        i = i + 1;
    }
    proof {
        lemma_first_index(ports@.len() as int, holds);
    }
    None
}

/// Looks an operator kind up by its namespace and name.
pub fn kind_position(kinds: &Vec<OperatorKind>, namespace: &String, name: &String) -> (at: Option<
    usize,
>)
    ensures
        found(at) == find_kind(kinds@, namespace@, name@),
{
    let ghost holds = |i: int| kinds@[i].namespace@ == namespace@ && kinds@[i].name@ == name@;
    let mut i: usize = 0;
    while i < kinds.len()
        invariant
            i <= kinds@.len(),
            holds == (|i: int| kinds@[i].namespace@ == namespace@ && kinds@[i].name@ == name@),
            forall|j: int| 0 <= j < i ==> !#[trigger] holds(j),
        decreases kinds@.len() - i,
    {
        if kinds[i].namespace == *namespace && kinds[i].name == *name {
            proof {
                lemma_first_index_is(kinds@.len() as int, holds, i as int);
            }
            return Some(i);
        }
        i = i + 1;
    }
    proof {
        lemma_first_index(kinds@.len() as int, holds);
    }
    None
}

/// Looks a node up by its name.
pub fn node_position(nodes: &Vec<NodeDecl>, id: &String) -> (at: Option<usize>)
    ensures
        found(at) == find_node(nodes@, id@),
{
    let ghost holds = |i: int| nodes@[i].id@ == id@;
    let mut i: usize = 0;
    while i < nodes.len()
        invariant
            i <= nodes@.len(),
            holds == (|i: int| nodes@[i].id@ == id@),
            forall|j: int| 0 <= j < i ==> !#[trigger] holds(j),
        decreases nodes@.len() - i,
    {
        if nodes[i].id == *id {
            proof {
                lemma_first_index_is(nodes@.len() as int, holds, i as int);
            }
            return Some(i);
        }
        i = i + 1;
    }
    proof {
        lemma_first_index(nodes@.len() as int, holds);
    }
    None
}

} // verus!
