use tremor_runtime::codec::{Codec, Pass};
use tremor_runtime::errors::ErrorKind;
use tremor_runtime::event::{Event, EventValue, MetaMap};
use tremor_runtime::offramp::file::{Config, File};
use tremor_runtime::system::PipelineAddr;

fn event(value: EventValue, is_batch: bool) -> Event {
    Event { id: 0, meta: MetaMap::new(), value, ingest_ns: 0, kind: None, is_batch }
}

fn sink() -> File {
    match File::from_config(Some(Config { file: "/tmp/out.log".to_string() })) {
        Ok(sink) => sink,
        Err(e) => panic!("no sink: {:?}", e),
    }
}

#[test]
fn file_without_config_is_refused() {
    match File::from_config(None) {
        Err(ErrorKind::Msg(m)) => assert_eq!(m, "Blackhole offramp requires a config"),
        _ => panic!("a sink was built without settings"),
    }
}

#[test]
fn sink_knows_its_file_and_codec() {
    let sink = sink();
    assert_eq!(sink.file(), "/tmp/out.log");
    assert_eq!(sink.default_codec(), "json");
}

#[test]
fn every_event_becomes_a_line() {
    let batch = event(
        EventValue::Batch(vec![
            event(EventValue::Raw(b"one".to_vec()), false),
            event(EventValue::Json("{}".to_string()), false),
            event(EventValue::Raw(vec![]), false),
            event(EventValue::Raw(b"two".to_vec()), false),
        ]),
        true,
    );
    assert_eq!(sink().on_event(&Pass {}, batch), b"one\n\ntwo\n".to_vec());
}

#[test]
fn single_event_becomes_one_line() {
    assert_eq!(
        sink().on_event(&Pass {}, event(EventValue::Raw(b"x".to_vec()), false)),
        b"x\n".to_vec()
    );
    assert!(sink().on_event(&Pass {}, event(EventValue::Absent, false)).is_empty());
}

#[test]
fn pass_codec_leaves_values_alone() {
    match (Pass {}).encode(EventValue::Raw(vec![1, 2])) {
        Ok(EventValue::Raw(bytes)) => assert_eq!(bytes, vec![1, 2]),
        _ => panic!("the value was changed"),
    }
    match (Pass {}).decode(EventValue::Json("1".to_string())) {
        Ok(EventValue::Json(text)) => assert_eq!(text, "1"),
        _ => panic!("the value was changed"),
    }
}

#[test]
fn file_pipelines_are_wired_and_unwired() {
    let mut sink = sink();
    let (tx, _rx) = std::sync::mpsc::channel();
    let (tx2, _rx2) = std::sync::mpsc::channel();
    sink.add_pipeline("/pipeline/a".to_string(), PipelineAddr::new(tx));
    sink.add_pipeline("/pipeline/b".to_string(), PipelineAddr::new(tx2));
    assert!(!sink.remove_pipeline("/pipeline/a".to_string()));
    assert!(sink.remove_pipeline("/pipeline/b".to_string()));
}
