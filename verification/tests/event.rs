use tremor_runtime::event::{Event, EventValue, Insight, MetaMap, MetaValue, SignalKind};

fn event(id: u64, value: EventValue, is_batch: bool) -> Event {
    Event { id, meta: MetaMap::new(), value, ingest_ns: 10 + id, kind: None, is_batch }
}

fn text_of<'a>(meta: &'a MetaMap, key: &str) -> Option<&'a str> {
    match meta.get(key) {
        Some(MetaValue::Text(t)) => Some(t.as_str()),
        _ => None,
    }
}

#[test]
fn single_event_unfolds_to_itself() {
    let mut e = event(4, EventValue::Json("{\"a\":1}".to_string()), false);
    e.meta.insert("index".to_string(), MetaValue::Text("logs".to_string()));
    e.kind = Some(SignalKind::Control);
    let out = e.into_iter();
    assert_eq!(out.len(), 1);
    assert_eq!(out[0].id, 4);
    assert_eq!(out[0].ingest_ns, 14);
    assert_eq!(out[0].kind, Some(SignalKind::Control));
    assert!(!out[0].is_batch);
    assert_eq!(text_of(&out[0].meta, "index"), Some("logs"));
    assert!(matches!(&out[0].value, EventValue::Json(t) if t == "{\"a\":1}"));
}

#[test]
fn single_event_with_batch_value_is_not_unfolded() {
    let inner = vec![event(1, EventValue::Absent, false)];
    let out = event(9, EventValue::Batch(inner), false).into_iter();
    assert_eq!(out.len(), 1);
    assert_eq!(out[0].id, 9);
}

#[test]
fn batch_unfolds_in_order() {
    let inner = vec![
        event(3, EventValue::Raw(vec![1]), false),
        event(1, EventValue::Absent, false),
        event(2, EventValue::Json("2".to_string()), false),
    ];
    let out = event(0, EventValue::Batch(inner), true).into_iter();
    assert_eq!(out.len(), 3);
    assert_eq!(out[0].id, 3);
    assert_eq!(out[1].id, 1);
    assert_eq!(out[2].id, 2);
    assert!(matches!(&out[0].value, EventValue::Raw(b) if b == &vec![1u8]));
}

#[test]
fn empty_batch_unfolds_to_nothing() {
    assert_eq!(event(0, EventValue::Batch(vec![]), true).into_iter().len(), 0);
    // A batch whose value holds no events stands for none.
    assert_eq!(event(0, EventValue::Json("[]".to_string()), true).into_iter().len(), 0);
}

#[test]
fn metadata_maps_keys_to_their_latest_value() {
    let mut meta = MetaMap::new();
    assert!(meta.get("index").is_none());
    meta.insert("index".to_string(), MetaValue::Text("a".to_string()));
    meta.insert("count".to_string(), MetaValue::Number(3));
    meta.insert("index".to_string(), MetaValue::Text("b".to_string()));
    assert_eq!(text_of(&meta, "index"), Some("b"));
    assert!(matches!(meta.get("count"), Some(MetaValue::Number(3))));
    assert!(meta.get("Index").is_none());
    let mixed = MetaValue::Json("[1]".to_string());
    assert!(mixed.as_text().is_none());
    assert_eq!(
        MetaValue::Text("x".to_string()).as_text().map(|t| t.as_str()),
        Some("x")
    );
}

#[test]
fn clone_copies_the_whole_event() {
    let mut first = event(1, EventValue::Json("1".to_string()), false);
    first.meta.insert("k".to_string(), MetaValue::Number(5));
    let batch = event(7, EventValue::Batch(vec![first, event(2, EventValue::Raw(vec![9]), false)]), true);
    let copy = batch.clone();
    assert_eq!(copy.id, 7);
    assert!(copy.is_batch);
    let inner = copy.into_iter();
    assert_eq!(inner.len(), 2);
    assert!(matches!(inner[0].meta.get("k"), Some(MetaValue::Number(5))));
    assert!(matches!(&inner[1].value, EventValue::Raw(b) if b == &vec![9u8]));
    // The event that was copied is still whole.
    assert_eq!(batch.into_iter().len(), 2);
}

#[test]
fn insight_of_a_delivery_carries_the_time() {
    let insight = Insight::delivered(3, 42, 1000);
    assert_eq!(insight.id, 3);
    assert_eq!(insight.ingest_ns, 1000);
    assert!(matches!(insight.meta.get("time"), Some(MetaValue::Number(42))));
    assert!(insight.meta.get("error").is_none());
}

#[test]
fn insight_of_a_failure_carries_the_reason() {
    let insight = Insight::failed(0, "no route", 5);
    assert_eq!(text_of(&insight.meta, "error"), Some("no route"));
    assert!(insight.meta.get("time").is_none());
    let copy = insight.clone();
    assert_eq!(copy.ingest_ns, 5);
    assert_eq!(text_of(&copy.meta, "error"), Some("no route"));
}
