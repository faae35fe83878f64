use tremor_runtime::errors::ErrorKind;
use tremor_runtime::event::{Event, EventValue, MetaMap};
use tremor_runtime::offramp::newrelic::{
    Config, Key, NewRelic, NewRelicLog, NewRelicPayload, Region,
};

fn json_event(id: u64, text: &str) -> Event {
    Event {
        id,
        meta: MetaMap::new(),
        value: EventValue::Json(text.to_string()),
        ingest_ns: 0,
        kind: None,
        is_batch: false,
    }
}

fn sink(compress_logs: bool, key: Key, region: Region) -> NewRelic {
    match NewRelic::from_config(Some(Config { key, compress_logs, region })) {
        Ok(sink) => sink,
        Err(e) => panic!("no sink: {:?}", e),
    }
}

#[test]
fn config_shape() {
    let config = Config {
        key: Key::LicenseKey("asdas".into()),
        compress_logs: true,
        region: Default::default(),
    };
    let config_output = config.to_json().expect("failed to dump config");
    assert_eq!(
        config_output,
        r#"{"license_key":"asdas","compress_logs":true,"region":"usa"}"#
    );
}

#[test]
fn config_shape_with_insert_key_and_escapes() {
    let config = Config {
        key: Key::InsertKey("a\"b\\c".into()),
        compress_logs: false,
        region: Region::Europe,
    };
    assert_eq!(
        config.to_json().expect("failed to dump config"),
        r#"{"insert_key":"a\"b\\c","compress_logs":false,"region":"europe"}"#
    );
}

#[test]
fn region_url() {
    assert_eq!(
        Region::default().logs_url(),
        "https://log-api.newrelic.com/log/v1"
    );
    assert_eq!(
        Region::Usa.logs_url(),
        "https://log-api.newrelic.com/log/v1"
    );
    assert_eq!(
        Region::Europe.logs_url(),
        "https://log-api.eu.newrelic.com/log/v1"
    );
}

#[test]
fn newrelic_without_config_is_refused() {
    match NewRelic::from_config(None) {
        Err(ErrorKind::Msg(m)) => assert_eq!(m, "Missing config for newrelic offramp"),
        _ => panic!("a sink was built without settings"),
    }
}

#[test]
fn auth_header_follows_the_kind_of_key() {
    let license = sink(false, Key::LicenseKey("abc".into()), Region::Usa);
    assert_eq!(license.auth_headers(), ("X-License-Key", "abc"));
    let insert = sink(false, Key::InsertKey("xyz".into()), Region::Usa);
    assert_eq!(insert.auth_headers(), ("X-Insert-Key", "xyz"));
}

#[test]
fn content_type_follows_compression() {
    assert_eq!(
        sink(true, Key::LicenseKey("k".into()), Region::Usa).content_type(),
        "application/gzip"
    );
    assert_eq!(
        sink(false, Key::LicenseKey("k".into()), Region::Usa).content_type(),
        "application/json"
    );
    assert_eq!(
        sink(false, Key::LicenseKey("k".into()), Region::Usa).default_codec(),
        "json"
    );
}

#[test]
fn log_takes_timestamp_of_value() {
    let value = EventValue::Json(r#"{"timestamp":1234,"a":"b"}"#.to_string());
    match NewRelic::value_to_newrelic_log(&value, 99) {
        Ok(log) => {
            assert_eq!(log.timestamp, 1234);
            assert_eq!(log.message, r#"{"timestamp":1234,"a":"b"}"#);
        }
        Err(e) => panic!("no log: {:?}", e),
    }
}

#[test]
fn log_without_timestamp_takes_the_time_given() {
    let value = EventValue::Json(r#"{"a":"b"}"#.to_string());
    match NewRelic::value_to_newrelic_log(&value, 99) {
        Ok(log) => assert_eq!(log.timestamp, 99),
        Err(e) => panic!("no log: {:?}", e),
    }
    let text = EventValue::Json(r#"{"timestamp":"soon"}"#.to_string());
    match NewRelic::value_to_newrelic_log(&text, -5) {
        Ok(log) => assert_eq!(log.timestamp, -5),
        Err(e) => panic!("no log: {:?}", e),
    }
}

#[test]
fn value_that_is_no_json_has_no_log() {
    match NewRelic::value_to_newrelic_log(&EventValue::Raw(vec![1, 2, 3]), 0) {
        Err(ErrorKind::Msg(m)) => assert_eq!(m, "Event data needs to be json"),
        _ => panic!("raw bytes became a log"),
    }
}

#[test]
fn payload_skips_events_without_log() {
    let raw = Event {
        id: 2,
        meta: MetaMap::new(),
        value: EventValue::Raw(vec![0]),
        ingest_ns: 0,
        kind: None,
        is_batch: false,
    };
    let events = vec![
        json_event(1, r#"{"timestamp":1}"#),
        raw,
        json_event(3, r#"{"x":2}"#),
    ];
    let (payload, skipped) = NewRelic::payload(&events, 50);
    assert_eq!(payload.logs.len(), 2);
    assert_eq!(payload.logs[0].timestamp, 1);
    assert_eq!(payload.logs[1].timestamp, 50);
    assert_eq!(payload.logs[1].message, r#"{"x":2}"#);
    assert_eq!(skipped.len(), 1);
    assert_eq!(skipped[0].message(), "Event data needs to be json");
}

#[test]
fn payload_json_is_exact() {
    let payload = NewRelicPayload {
        logs: vec![
            NewRelicLog { timestamp: 12, message: "say \"hi\"\n".to_string() },
            NewRelicLog { timestamp: -7, message: "b".to_string() },
        ],
    };
    assert_eq!(
        payload.to_json().expect("no json"),
        r#"{"logs":[{"timestamp":12,"message":"say \"hi\"\n"},{"timestamp":-7,"message":"b"}]}"#
    );
    let empty = NewRelicPayload { logs: vec![] };
    assert_eq!(empty.to_json().expect("no json"), r#"{"logs":[]}"#);
}

#[test]
fn payload_json_agrees_with_serde_json() {
    let payload = NewRelicPayload {
        logs: vec![NewRelicLog { timestamp: 5, message: "tab\there \u{1} é".to_string() }],
    };
    let text = payload.to_json().expect("no json");
    let parsed: serde_json::Value = serde_json::from_str(&text).expect("not json");
    assert_eq!(parsed["logs"][0]["timestamp"].as_i64(), Some(5));
    assert_eq!(parsed["logs"][0]["message"].as_str(), Some("tab\there \u{1} é"));
}

#[test]
fn plain_request_carries_the_json() {
    let sink = sink(false, Key::LicenseKey("secret".into()), Region::Europe);
    let (request, skipped) = sink.on_event(json_event(1, r#"{"timestamp":7,"m":1}"#));
    assert!(skipped.is_empty());
    let request = request.expect("no request");
    assert_eq!(request.url, "https://log-api.eu.newrelic.com/log/v1");
    assert_eq!(request.auth, ("X-License-Key".to_string(), "secret".to_string()));
    assert_eq!(request.content_type, "application/json");
    assert_eq!(
        String::from_utf8(request.body).expect("not utf8"),
        r#"{"logs":[{"timestamp":7,"message":"{\"timestamp\":7,\"m\":1}"}]}"#
    );
}

#[test]
fn compressed_request_unpacks_to_the_json() {
    let sink = sink(true, Key::InsertKey("secret".into()), Region::Usa);
    let (request, _) = sink.on_event(json_event(1, r#"{"timestamp":7}"#));
    let request = request.expect("no request");
    assert_eq!(request.content_type, "application/gzip");
    assert_eq!(request.auth.0, "X-Insert-Key");
    let mut decoder = libflate::gzip::Decoder::new(&request.body[..]).expect("no gzip");
    let mut plain = Vec::new();
    std::io::Read::read_to_end(&mut decoder, &mut plain).expect("cannot unpack");
    assert_eq!(
        String::from_utf8(plain).expect("not utf8"),
        r#"{"logs":[{"timestamp":7,"message":"{\"timestamp\":7}"}]}"#
    );
}

#[test]
fn request_needs_the_packed_body_when_compressing() {
    let sink = sink(true, Key::LicenseKey("k".into()), Region::Usa);
    match sink.request(Some("{}".to_string()), None) {
        Err(ErrorKind::Msg(m)) => assert_eq!(m, "failed to compress the logs"),
        _ => panic!("a request was made"),
    }
    match sink.request(Some("{}".to_string()), Some(vec![1, 2])) {
        Ok(request) => assert_eq!(request.body, vec![1, 2]),
        Err(e) => panic!("no request: {:?}", e),
    }
    match sink.request(None, None) {
        Err(ErrorKind::InvalidJsonData(_)) => {}
        _ => panic!("a request was made"),
    }
}

#[test]
fn response_is_judged() {
    assert!(NewRelic::sent(true, "200", "ok").is_ok());
    match NewRelic::sent(false, "Response(403)", "denied") {
        Err(e) => assert_eq!(
            e.message(),
            "error sending newrelic logs\nresponse: Response(403)\nreturned body: denied"
        ),
        Ok(()) => panic!("a failure was accepted"),
    }
}

#[test]
fn newrelic_pipelines_are_wired_and_unwired() {
    let mut sink = sink(false, Key::LicenseKey("k".into()), Region::Usa);
    let (tx, _rx) = std::sync::mpsc::channel();
    sink.add_pipeline("/pipeline/a".to_string(), tremor_runtime::system::PipelineAddr::new(tx));
    assert!(sink.remove_pipeline("/pipeline/a".to_string()));
    sink.start(vec!["lines".to_string()]);
}
