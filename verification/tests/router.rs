use tremor_runtime::errors::ValueType;
use tremor_runtime::event::{Event, EventValue, Insight, MetaMap};
use tremor_runtime::pipeline::config::{
    ConfigRule, EdgeDecl, GraphDecl, NodeConfig, NodeDecl, OperatorKind, OutputRef, Port,
};
use tremor_runtime::pipeline::graph::{Graph, GraphBuilder};
use tremor_runtime::pipeline::router::{
    contraflow, forward, on_event, on_insight, Operator, Passthrough,
};

/// What the operators of the tests do.
enum Op {
    /// Hands the event on.
    Pass,
    /// Keeps the ids of the events it sees and gives nothing out.
    Collect(Vec<(usize, u64)>),
    /// Hands events with an even id on, and diverts the others to output 1.
    Split,
    /// Gives every event out twice.
    Twice,
    /// Counts the insights it hears of, and hands events on.
    Listen(Vec<u64>),
}

impl Operator for Op {
    fn on_event(&mut self, input: usize, event: Event) -> Vec<(usize, Event)> {
        match self {
            Op::Pass | Op::Listen(_) => vec![(0, event)],
            Op::Collect(seen) => {
                seen.push((input, event.id));
                vec![]
            }
            Op::Split => {
                if event.id % 2 == 0 {
                    vec![(0, event)]
                } else {
                    vec![(1, event)]
                }
            }
            Op::Twice => vec![(0, event.clone()), (0, event)],
        }
    }

    fn on_insight(&mut self, insight: &Insight) {
        if let Op::Listen(heard) = self {
            heard.push(insight.ingest_ns);
        }
    }
}

fn kinds() -> Vec<OperatorKind> {
    let port = |name: &str| Port { name: name.to_string(), value_type: ValueType::Any };
    vec![OperatorKind {
        namespace: "test".to_string(),
        name: "op".to_string(),
        config: ConfigRule::Optional,
        inputs: vec![port("in"), port("side")],
        outputs: vec![port("out"), port("overflow")],
    }]
}

fn graph(nodes: &[&str], edges: &[(&str, &str, &str, &str)]) -> Graph {
    let decl = GraphDecl {
        id: "test".to_string(),
        nodes: nodes
            .iter()
            .map(|id| NodeDecl {
                id: id.to_string(),
                namespace: "test".to_string(),
                operator: "op".to_string(),
                config: NodeConfig::Absent,
            })
            .collect(),
        edges: edges
            .iter()
            .map(|(from, output, to, input)| EdgeDecl {
                from: from.to_string(),
                output: OutputRef::Name(output.to_string()),
                to: to.to_string(),
                input: input.to_string(),
            })
            .collect(),
    };
    match GraphBuilder::new(kinds()).build(&decl) {
        Ok(graph) => graph,
        Err(e) => panic!("no graph: {}", e.message()),
    }
}

fn event(id: u64) -> Event {
    Event {
        id,
        meta: MetaMap::new(),
        value: EventValue::Absent,
        ingest_ns: 0,
        kind: None,
        is_batch: false,
    }
}

fn seen(op: &Op) -> Vec<(usize, u64)> {
    match op {
        Op::Collect(seen) => seen.clone(),
        _ => panic!("not a collector"),
    }
}

#[test]
fn event_travels_from_source_to_sink() {
    let g = graph(&["source", "sink"], &[("source", "out", "sink", "in")]);
    let mut ops = vec![Op::Pass, Op::Collect(vec![])];
    forward(&g, &mut ops, 0, 0, event(1));
    forward(&g, &mut ops, 0, 0, event(2));
    assert_eq!(seen(&ops[1]), vec![(0, 1), (0, 2)]);
}

#[test]
fn event_on_an_unconnected_output_is_dropped() {
    let g = graph(
        &["split", "main", "lost"],
        &[("split", "out", "main", "in")],
    );
    let mut ops = vec![Op::Split, Op::Collect(vec![]), Op::Collect(vec![])];
    for id in 1..=4 {
        forward(&g, &mut ops, 0, 0, event(id));
    }
    assert_eq!(seen(&ops[1]), vec![(0, 2), (0, 4)]);
    assert_eq!(seen(&ops[2]), vec![]);
}

#[test]
fn overflow_output_diverts() {
    let g = graph(
        &["split", "main", "spill"],
        &[("split", "out", "main", "in"), ("split", "overflow", "spill", "side")],
    );
    let mut ops = vec![Op::Split, Op::Collect(vec![]), Op::Collect(vec![])];
    for id in 1..=4 {
        forward(&g, &mut ops, 0, 0, event(id));
    }
    assert_eq!(seen(&ops[1]), vec![(0, 2), (0, 4)]);
    assert_eq!(seen(&ops[2]), vec![(1, 1), (1, 3)]);
}

#[test]
fn fan_out_follows_the_order_of_the_connections() {
    let g = graph(
        &["source", "log", "first", "second"],
        &[
            ("source", "out", "second", "in"),
            ("source", "out", "first", "in"),
            ("first", "out", "log", "in"),
            ("second", "out", "log", "side"),
        ],
    );
    let mut ops = vec![Op::Pass, Op::Collect(vec![]), Op::Pass, Op::Pass];
    forward(&g, &mut ops, 0, 0, event(5));
    // The connection to `second` was declared first, so its branch runs first.
    assert_eq!(seen(&ops[1]), vec![(1, 5), (0, 5)]);
}

#[test]
fn every_event_given_out_is_routed_before_the_next() {
    let g = graph(
        &["twice", "again", "sink"],
        &[("twice", "out", "again", "in"), ("again", "out", "sink", "in")],
    );
    let mut ops = vec![Op::Twice, Op::Twice, Op::Collect(vec![])];
    forward(&g, &mut ops, 0, 0, event(3));
    assert_eq!(seen(&ops[2]).len(), 4);
}

#[test]
fn event_can_enter_in_the_middle() {
    let g = graph(
        &["a", "b", "c"],
        &[("a", "out", "b", "in"), ("b", "out", "c", "in")],
    );
    let mut ops = vec![Op::Collect(vec![]), Op::Pass, Op::Collect(vec![])];
    forward(&g, &mut ops, 1, 1, event(8));
    assert_eq!(seen(&ops[0]), vec![]);
    assert_eq!(seen(&ops[2]), vec![(0, 8)]);
}

#[test]
fn entry_that_does_not_exist_takes_nothing() {
    let g = graph(&["a"], &[]);
    let mut ops = vec![Op::Collect(vec![])];
    assert!(!on_event(&g, &mut ops, 1, 0, event(1)));
    assert_eq!(seen(&ops[0]), vec![]);
    assert!(on_event(&g, &mut ops, 0, 0, event(2)));
    assert_eq!(seen(&ops[0]), vec![(0, 2)]);
    let mut too_few: Vec<Op> = vec![];
    assert!(!on_event(&g, &mut too_few, 0, 0, event(3)));
}

#[test]
fn insight_goes_against_the_flow() {
    let g = graph(&["late", "early"], &[("early", "out", "late", "in")]);
    let mut ops = vec![Op::Listen(vec![]), Op::Listen(vec![])];
    contraflow(&g, &mut ops, &Insight::delivered(0, 1, 77));
    assert!(on_insight(&g, &mut ops, &Insight::delivered(0, 1, 78)));
    for op in &ops {
        match op {
            Op::Listen(heard) => assert_eq!(heard, &vec![77, 78]),
            _ => panic!("not a listener"),
        }
    }
    let mut too_few = vec![Op::Listen(vec![])];
    assert!(!on_insight(&g, &mut too_few, &Insight::delivered(0, 1, 79)));
    match &too_few[0] {
        Op::Listen(heard) => assert!(heard.is_empty()),
        _ => panic!("not a listener"),
    }
}

#[test]
fn passthrough_hands_the_event_on() {
    let mut op = Passthrough {};
    let out = op.on_event(3, event(11));
    assert_eq!(out.len(), 1);
    assert_eq!(out[0].0, 0);
    assert_eq!(out[0].1.id, 11);
    op.on_insight(&Insight::failed(0, "x", 1));
    let g = graph(&["a", "b"], &[("a", "out", "b", "in")]);
    let mut ops = vec![Passthrough {}, Passthrough {}];
    forward(&g, &mut ops, 0, 0, event(1));
}
