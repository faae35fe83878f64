use std::sync::mpsc::{channel, Receiver};
use tremor_runtime::event::{Insight, MetaValue};
use tremor_runtime::system::{broadcast, deliver, PipelineAddr, PipelineMsg, PipelineTable};

fn pipeline() -> (PipelineAddr, Receiver<PipelineMsg>) {
    let (tx, rx) = channel();
    (PipelineAddr::new(tx), rx)
}

fn insights(rx: &Receiver<PipelineMsg>) -> Vec<Insight> {
    let mut got = Vec::new();
    while let Ok(msg) = rx.try_recv() {
        match msg {
            PipelineMsg::Insight(insight) => got.push(insight),
            _ => panic!("something other than an insight arrived"),
        }
    }
    got
}

#[test]
fn removing_the_last_pipeline_leaves_the_table_empty() {
    let mut table = PipelineTable::new();
    assert!(table.is_empty());
    let (a, _rx_a) = pipeline();
    let (b, _rx_b) = pipeline();
    table.add_pipeline("/pipeline/a".to_string(), a);
    table.add_pipeline("/pipeline/b".to_string(), b);
    assert!(!table.is_empty());
    assert!(!table.remove_pipeline("/pipeline/a".to_string()));
    assert!(table.remove_pipeline("/pipeline/b".to_string()));
    assert!(table.is_empty());
}

#[test]
fn add_then_remove_leaves_an_empty_table_empty() {
    let mut table = PipelineTable::new();
    let (a, _rx) = pipeline();
    table.add_pipeline("/pipeline/a".to_string(), a);
    assert!(table.remove_pipeline("/pipeline/a".to_string()));
}

#[test]
fn add_then_remove_keeps_the_other_pipelines() {
    let mut table = PipelineTable::new();
    let (a, _rx_a) = pipeline();
    let (b, _rx_b) = pipeline();
    table.add_pipeline("/pipeline/a".to_string(), a);
    table.add_pipeline("/pipeline/b".to_string(), b);
    assert!(!table.remove_pipeline("/pipeline/b".to_string()));
    let left = table.snapshot();
    assert_eq!(left.len(), 1);
    assert_eq!(left[0].0, "/pipeline/a");
}

#[test]
fn removing_an_unknown_pipeline_changes_nothing() {
    let mut table = PipelineTable::new();
    assert!(table.remove_pipeline("/pipeline/x".to_string()));
    let (a, _rx) = pipeline();
    table.add_pipeline("/pipeline/a".to_string(), a);
    assert!(!table.remove_pipeline("/pipeline/x".to_string()));
    assert_eq!(table.snapshot().len(), 1);
}

#[test]
fn adding_under_the_same_id_replaces_the_address() {
    let mut table = PipelineTable::new();
    let (old, rx_old) = pipeline();
    let (new, rx_new) = pipeline();
    table.add_pipeline("/pipeline/a".to_string(), old);
    table.add_pipeline("/pipeline/a".to_string(), new);
    let entries = table.snapshot();
    assert_eq!(entries.len(), 1);
    let outcomes = deliver(broadcast(&Insight::delivered(0, 1, 2), entries));
    assert_eq!(outcomes, vec![("/pipeline/a".to_string(), true)]);
    assert_eq!(insights(&rx_new).len(), 1);
    assert_eq!(insights(&rx_old).len(), 0);
}

#[test]
fn snapshot_holds_every_pipeline_once() {
    let mut table = PipelineTable::new();
    let mut keep = Vec::new();
    for i in 0..20 {
        let (addr, rx) = pipeline();
        keep.push(rx);
        table.add_pipeline(format!("/pipeline/{}", i), addr);
    }
    let mut ids: Vec<String> = table.snapshot().into_iter().map(|(id, _)| id).collect();
    ids.sort();
    let mut expected: Vec<String> = (0..20).map(|i| format!("/pipeline/{}", i)).collect();
    expected.sort();
    assert_eq!(ids, expected);
}

#[test]
fn broadcast_plans_one_delivery_for_each_pipeline() {
    let (a, rx_a) = pipeline();
    let (b, rx_b) = pipeline();
    let insight = Insight::delivered(0, 12, 99);
    let plan = broadcast(
        &insight,
        vec![("/pipeline/a".to_string(), a), ("/pipeline/b".to_string(), b)],
    );
    assert_eq!(plan.len(), 2);
    assert_eq!(plan[0].pipeline, "/pipeline/a");
    assert_eq!(plan[1].pipeline, "/pipeline/b");
    assert_eq!(plan[0].insight.ingest_ns, 99);
    assert_eq!(
        deliver(plan),
        vec![("/pipeline/a".to_string(), true), ("/pipeline/b".to_string(), true)]
    );
    for rx in [&rx_a, &rx_b] {
        let got = insights(rx);
        assert_eq!(got.len(), 1);
        assert!(matches!(got[0].meta.get("time"), Some(MetaValue::Number(12))));
    }
}

#[test]
fn closed_pipeline_does_not_stop_the_others() {
    let (a, rx_a) = pipeline();
    let (b, rx_b) = pipeline();
    let (c, rx_c) = pipeline();
    drop(rx_b);
    let plan = broadcast(
        &Insight::failed(0, "lost", 1),
        vec![
            ("/pipeline/a".to_string(), a),
            ("/pipeline/b".to_string(), b),
            ("/pipeline/c".to_string(), c),
        ],
    );
    assert_eq!(
        deliver(plan),
        vec![
            ("/pipeline/a".to_string(), true),
            ("/pipeline/b".to_string(), false),
            ("/pipeline/c".to_string(), true),
        ]
    );
    assert_eq!(insights(&rx_a).len(), 1);
    assert_eq!(insights(&rx_c).len(), 1);
}

#[test]
fn broadcast_to_no_one_plans_nothing() {
    assert_eq!(broadcast(&Insight::delivered(0, 1, 1), vec![]).len(), 0);
    assert_eq!(deliver(vec![]).len(), 0);
}
