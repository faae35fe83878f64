use std::sync::mpsc::{channel, Receiver};
use tremor_runtime::errors::ErrorKind;
use tremor_runtime::event::{Event, EventValue, Insight, MetaMap, MetaValue};
use tremor_runtime::offramp::elastic::{
    bulk_entry, bulk_header, bulk_payload, bulk_url, default_concurrency, duration_to_millis,
    outcome_insight, Config, Elastic, Submission,
};
use tremor_runtime::system::{PipelineAddr, PipelineMsg};

fn event(index: Option<&str>, doc_type: Option<&str>, value: EventValue) -> Event {
    let mut meta = MetaMap::new();
    if let Some(index) = index {
        meta.insert("index".to_string(), MetaValue::Text(index.to_string()));
    }
    if let Some(doc_type) = doc_type {
        meta.insert("doc_type".to_string(), MetaValue::Text(doc_type.to_string()));
    }
    Event { id: 1, meta, value, ingest_ns: 0, kind: None, is_batch: false }
}

fn doc(text: &str) -> EventValue {
    EventValue::Json(text.to_string())
}

fn sink(endpoints: &[&str], concurrency: usize) -> Elastic {
    let config = Config {
        endpoints: endpoints.iter().map(|s| s.to_string()).collect(),
        concurrency,
    };
    match Elastic::from_config(Some(config)) {
        Ok(sink) => sink,
        Err(e) => panic!("no sink: {:?}", e),
    }
}

fn pipeline() -> (PipelineAddr, Receiver<PipelineMsg>) {
    let (tx, rx) = channel();
    (PipelineAddr::new(tx), rx)
}

fn one_insight(rx: &Receiver<PipelineMsg>) -> Insight {
    let first = match rx.try_recv() {
        Ok(PipelineMsg::Insight(insight)) => insight,
        _ => panic!("no insight arrived"),
    };
    assert!(rx.try_recv().is_err(), "more than one insight arrived");
    first
}

fn message(e: &ErrorKind) -> String {
    e.message()
}

#[test]
fn durations_are_turned_into_milliseconds() {
    assert_eq!(duration_to_millis(0, 0), 0);
    assert_eq!(duration_to_millis(2, 345), 2345);
    assert_eq!(duration_to_millis(u64::MAX / 1000, 615), u64::MAX);
    assert_eq!(duration_to_millis(u64::MAX / 1000, 614), u64::MAX - 1);
    assert_eq!(duration_to_millis(u64::MAX / 1000 + 1, 0), u64::MAX);
    assert_eq!(duration_to_millis(u64::MAX, 999), u64::MAX);
}

#[test]
fn bulk_api_has_an_address() {
    assert_eq!(bulk_url("http://es:9200"), "http://es:9200/_bulk");
    assert_eq!(default_concurrency(), 4);
}

#[test]
fn default_concurrency_is_four() {
    let config = Config::new(vec!["http://a".to_string()]);
    assert_eq!(config.concurrency, 4);
    assert_eq!(config.endpoints, vec!["http://a".to_string()]);
}

#[test]
fn elastic_without_config_is_refused() {
    match Elastic::from_config(None) {
        Err(ErrorKind::Msg(m)) => assert_eq!(m, "Elastic offramp requires a configuration."),
        _ => panic!("a sink was built without settings"),
    }
}

#[test]
fn default_codec_is_pass() {
    assert_eq!(sink(&["http://a"], 1).default_codec(), "pass");
    let named = Elastic::assemble(Config::new(vec![]), Some("box".to_string()));
    assert_eq!(named.hostname(), "box");
    let unnamed = Elastic::assemble(Config::new(vec![]), None);
    assert_eq!(unnamed.hostname(), "tremor-host.local");
}

#[test]
fn header_names_index_and_type() {
    let line = bulk_header(&"logs".to_string(), &"doc".to_string(), None).expect("no header");
    assert_eq!(line, r#"{"index":{"_index":"logs","_type":"doc"}}"#);
}

#[test]
fn header_names_the_pipeline() {
    let pipeline = "enrich".to_string();
    let line = bulk_header(&"logs".to_string(), &"doc".to_string(), Some(&pipeline))
        .expect("no header");
    assert_eq!(line, r#"{"index":{"_index":"logs","_type":"doc","pipeline":"enrich"}}"#);
}

#[test]
fn header_escapes_what_it_names() {
    let line = bulk_header(&"lo\"gs".to_string(), &"d\\oc\n".to_string(), None)
        .expect("no header");
    assert_eq!(line, r#"{"index":{"_index":"lo\"gs","_type":"d\\oc\n"}}"#);
    let parsed: serde_json::Value = serde_json::from_str(&line).expect("not json");
    assert_eq!(parsed["index"]["_index"].as_str(), Some("lo\"gs"));
    assert_eq!(parsed["index"]["_type"].as_str(), Some("d\\oc\n"));
}

#[test]
fn entry_is_header_and_document() {
    let e = event(Some("logs"), Some("doc"), doc(r#"{"a":1}"#));
    assert_eq!(
        bulk_entry(&e).expect("no entry"),
        "{\"index\":{\"_index\":\"logs\",\"_type\":\"doc\"}}\n{\"a\":1}\n"
    );
}

#[test]
fn entry_uses_pipeline_of_metadata() {
    let mut e = event(Some("logs"), Some("doc"), doc("1"));
    e.meta.insert("pipeline".to_string(), MetaValue::Text("p".to_string()));
    assert_eq!(
        bulk_entry(&e).expect("no entry"),
        "{\"index\":{\"_index\":\"logs\",\"_type\":\"doc\",\"pipeline\":\"p\"}}\n1\n"
    );
    // A pipeline that is no string counts as none.
    e.meta.insert("pipeline".to_string(), MetaValue::Number(3));
    assert_eq!(
        bulk_entry(&e).expect("no entry"),
        "{\"index\":{\"_index\":\"logs\",\"_type\":\"doc\"}}\n1\n"
    );
}

#[test]
fn entry_needs_index_type_and_json() {
    let no_index = event(None, Some("doc"), doc("1"));
    assert_eq!(
        message(&bulk_entry(&no_index).expect_err("entry without index")),
        "'index' not set for elastic offramp!"
    );
    let no_type = event(Some("logs"), None, doc("1"));
    assert_eq!(
        message(&bulk_entry(&no_type).expect_err("entry without type")),
        "'doc-type' not set for elastic offramp!"
    );
    let mut wrong_index = event(None, Some("doc"), doc("1"));
    wrong_index.meta.insert("index".to_string(), MetaValue::Number(1));
    assert_eq!(
        message(&bulk_entry(&wrong_index).expect_err("entry with a number as index")),
        "'index' not set for elastic offramp!"
    );
    let raw = event(Some("logs"), Some("doc"), EventValue::Raw(vec![1]));
    assert_eq!(
        message(&bulk_entry(&raw).expect_err("entry of raw bytes")),
        "Event data needs to be json"
    );
}

#[test]
fn payload_leaves_out_what_cannot_be_written() {
    let events = vec![
        event(Some("a"), Some("t"), doc("1")),
        event(None, Some("t"), doc("2")),
        event(Some("b"), Some("t"), EventValue::Absent),
        event(Some("c"), Some("t"), doc("3")),
    ];
    let (payload, skipped) = bulk_payload(&events);
    assert_eq!(
        payload,
        "{\"index\":{\"_index\":\"a\",\"_type\":\"t\"}}\n1\n\
         {\"index\":{\"_index\":\"c\",\"_type\":\"t\"}}\n3\n"
    );
    assert_eq!(skipped.len(), 2);
    assert_eq!(message(&skipped[0]), "'index' not set for elastic offramp!");
    assert_eq!(message(&skipped[1]), "Event data needs to be json");
    let (nothing, none) = bulk_payload(&vec![]);
    assert_eq!(nothing, "");
    assert!(none.is_empty());
}

#[test]
fn second_event_is_refused_while_the_first_is_in_flight() {
    let mut sink = sink(&["http://es:9200"], 1);
    let (first, skipped) = sink.on_event(event(Some("logs"), Some("doc"), doc("1")));
    assert!(skipped.is_empty());
    let first = first.expect("the first event was refused");
    assert_eq!(first.destination, "http://es:9200");
    assert_eq!(first.payload, "{\"index\":{\"_index\":\"logs\",\"_type\":\"doc\"}}\n1\n");
    let (second, _) = sink.on_event(event(Some("logs"), Some("doc"), doc("2")));
    match second {
        Err(ErrorKind::Msg(m)) => assert_eq!(m, "Dropped data due to es overload"),
        _ => panic!("the second event was admitted"),
    }
    // Once the first batch has finished there is room for one more.
    assert_eq!(first.complete(Ok(3), 10).len(), 0);
    let (third, _) = sink.on_event(event(Some("logs"), Some("doc"), doc("3")));
    let _third = third.expect("the third event was refused");
    let (fourth, _) = sink.on_event(event(Some("logs"), Some("doc"), doc("4")));
    assert!(fourth.is_err());
}

#[test]
fn batch_becomes_one_request() {
    let mut sink = sink(&["http://es:9200"], 2);
    let batch = Event {
        id: 0,
        meta: MetaMap::new(),
        value: EventValue::Batch(vec![
            event(Some("a"), Some("t"), doc("1")),
            event(Some("b"), Some("t"), doc("2")),
        ]),
        ingest_ns: 0,
        kind: None,
        is_batch: true,
    };
    let (submission, skipped) = sink.on_event(batch);
    assert!(skipped.is_empty());
    assert_eq!(
        submission.expect("the batch was refused").payload,
        "{\"index\":{\"_index\":\"a\",\"_type\":\"t\"}}\n1\n\
         {\"index\":{\"_index\":\"b\",\"_type\":\"t\"}}\n2\n"
    );
}

#[test]
fn endpoints_take_turns() {
    let mut sink = sink(&["http://a", "http://b", "http://c"], 8);
    let mut seen = Vec::new();
    let mut held: Vec<Submission> = Vec::new();
    for _ in 0..7 {
        let submission = sink
            .enqueue_send_future("x".to_string())
            .expect("the payload was refused");
        seen.push(submission.destination.clone());
        held.push(submission);
    }
    assert_eq!(
        seen,
        vec!["http://b", "http://c", "http://a", "http://b", "http://c", "http://a", "http://b"]
    );
}

#[test]
fn sink_without_endpoint_or_room_admits_nothing() {
    let mut none = sink(&[], 2);
    match none.enqueue_send_future("x".to_string()) {
        Err(ErrorKind::Msg(m)) => assert_eq!(m, "Failed to enqueue send request to elastic"),
        _ => panic!("a payload was admitted without an endpoint"),
    }
    let mut full = sink(&["http://a"], 0);
    match full.maybe_enque("x".to_string()) {
        Err(ErrorKind::Msg(m)) => assert_eq!(m, "Dropped data due to es overload"),
        _ => panic!("a payload was admitted without room"),
    }
}

#[test]
fn submit_frees_the_room_of_a_finished_batch() {
    let mut sink = sink(&["http://a"], 1);
    let _first = sink.submit(None, "1".to_string()).expect("refused");
    assert!(sink.submit(None, "2".to_string()).is_err());
    let third = sink.submit(Some(Ok(5)), "3".to_string()).expect("refused");
    assert_eq!(third.payload, "3");
}

#[test]
fn success_is_reported_to_every_pipeline() {
    let mut sink = sink(&["http://es:9200"], 2);
    let (a, rx_a) = pipeline();
    let (b, rx_b) = pipeline();
    sink.add_pipeline("/pipeline/a".to_string(), a);
    sink.add_pipeline("/pipeline/b".to_string(), b);
    let (submission, _) = sink.on_event(event(Some("logs"), Some("doc"), doc("1")));
    let submission = submission.expect("refused");
    let mut ids: Vec<String> = submission.pipelines.iter().map(|(id, _)| id.clone()).collect();
    ids.sort();
    assert_eq!(ids, vec!["/pipeline/a", "/pipeline/b"]);
    let mut outcomes = submission.complete(Ok(17), 1234);
    outcomes.sort();
    assert_eq!(
        outcomes,
        vec![("/pipeline/a".to_string(), true), ("/pipeline/b".to_string(), true)]
    );
    for rx in [&rx_a, &rx_b] {
        let insight = one_insight(rx);
        assert_eq!(insight.id, 0);
        assert_eq!(insight.ingest_ns, 1234);
        assert!(matches!(insight.meta.get("time"), Some(MetaValue::Number(17))));
        assert!(insight.meta.get("error").is_none());
    }
}

#[test]
fn failure_is_reported_to_every_pipeline() {
    let mut sink = sink(&["http://es:9200"], 2);
    let (a, rx_a) = pipeline();
    let (b, rx_b) = pipeline();
    sink.add_pipeline("/pipeline/a".to_string(), a);
    sink.add_pipeline("/pipeline/b".to_string(), b);
    let (submission, _) = sink.on_event(event(Some("logs"), Some("doc"), doc("1")));
    let submission = submission.expect("refused");
    let outcomes = submission.complete(Err(ErrorKind::Msg("connection refused".to_string())), 5);
    assert_eq!(outcomes.len(), 2);
    assert!(outcomes.iter().all(|(_, taken)| *taken));
    for rx in [&rx_a, &rx_b] {
        let insight = one_insight(rx);
        assert!(
            matches!(insight.meta.get("error"), Some(MetaValue::Text(t)) if t == "Failed to send to ES")
        );
        assert!(insight.meta.get("time").is_none());
    }
}

#[test]
fn outcome_reaches_the_sink_through_the_queue() {
    let mut sink = sink(&["http://es:9200"], 1);
    let first = sink.maybe_enque("1".to_string()).expect("refused");
    first.complete(Ok(8), 0);
    // The finished batch is drained by the next call, which is admitted.
    let second = sink.maybe_enque("2".to_string()).expect("refused");
    assert_eq!(second.payload, "2");
}

#[test]
fn pipelines_of_a_submission_are_those_of_its_time() {
    let mut sink = sink(&["http://es:9200"], 4);
    let (a, rx_a) = pipeline();
    sink.add_pipeline("/pipeline/a".to_string(), a);
    let early = sink.maybe_enque("1".to_string()).expect("refused");
    assert!(sink.remove_pipeline("/pipeline/a".to_string()));
    let late = sink.maybe_enque("2".to_string()).expect("refused");
    assert_eq!(late.pipelines.len(), 0);
    assert_eq!(early.complete(Ok(1), 1), vec![("/pipeline/a".to_string(), true)]);
    let _ = one_insight(&rx_a);
    assert_eq!(late.complete(Ok(1), 1).len(), 0);
}

#[test]
fn insight_tells_time_or_error() {
    let ok = outcome_insight(&Ok(3), 9);
    assert!(matches!(ok.meta.get("time"), Some(MetaValue::Number(3))));
    assert_eq!(ok.ingest_ns, 9);
    let failed = outcome_insight(&Err(ErrorKind::Msg("x".to_string())), 9);
    assert!(matches!(failed.meta.get("error"), Some(MetaValue::Text(t)) if t == "Failed to send to ES"));
    let plan = Submission::report(vec![], &Ok(1), 1);
    assert!(plan.is_empty());
}
