use tremor_runtime::api::{
    binding_url, created_status, found_status, resource_type, servant_url, ResourceType,
};
use tremor_runtime::errors::{ErrorKind, ValueType};
use tremor_runtime::text::{decimal, signed_decimal};

#[test]
fn messages_name_what_failed() {
    let s = |t: &str| t.to_string();
    let cases: Vec<(ErrorKind, &str, &str)> = vec![
        (ErrorKind::Msg(s("plain")), "plain", "plain"),
        (
            ErrorKind::CyclicGraphError(s("g")),
            "Cycle detected in graph: g",
            "Cycle detected in graph",
        ),
        (
            ErrorKind::MissingOpConfig(s("n")),
            "Operator config for n is missing",
            "Operator config is missing",
        ),
        (
            ErrorKind::ExtraOpConfig(s("n")),
            "Operator n has a config but can't be configured",
            "Operator has extra config",
        ),
        (
            ErrorKind::TypeError(s("a -> b"), ValueType::Json, ValueType::Raw),
            "expected type 'json' but found type 'raw' in a -> b",
            "Type error",
        ),
        (
            ErrorKind::TypeError(s("x"), ValueType::Any, ValueType::Absent),
            "expected type 'any' but found type 'none' in x",
            "Type error",
        ),
        (ErrorKind::UnknownOp(s("ns"), s("op")), "Unknown operator: ns::op", "Unknown operator"),
        (ErrorKind::MissingSteps(s("a -> b")), "missing steps in: 'a -> b'", "missing steps"),
        (
            ErrorKind::BadOpConfig(s("why")),
            "Operator config has a bad syntax: why",
            "Operator config has a bad syntax",
        ),
        (ErrorKind::UnknownNamespace(s("ns")), "Unknown namespace: ns", "Unknown namespace"),
        (
            ErrorKind::UnknownSubPipeline(s("p")),
            "The sub-pipelines 'p' is not defined",
            "Reference to unknown sub-pipeline",
        ),
        (
            ErrorKind::UnknownPipeline(s("p")),
            "The pipelines 'p' is not defined",
            "Reference to unknown pipeline",
        ),
        (
            ErrorKind::PipelineStartError(s("p")),
            "Failed to start pipeline 'p'",
            "Failed to start pipeline",
        ),
        (ErrorKind::OnrampError(42), "Error in onramp '42'", "Error in onramp"),
        (
            ErrorKind::OnrampMissingPipeline(s("o")),
            "The onramp 'o' is missing a pipeline",
            "Onramp is missing a pipeline",
        ),
        (
            ErrorKind::InvalidInfluxData(s("d")),
            "Invalid Influx Line Protocol data: d",
            "Invalid Influx Line Protocol data",
        ),
        (ErrorKind::InvalidJsonData(s("d")), "Invalid JSON data: d", "Invalid JSON"),
        (ErrorKind::BadOutputid(3), "Bad output pipeline id 3", "Bad output pipeline id."),
    ];
    for (error, message, description) in cases {
        assert_eq!(error.message(), message);
        assert_eq!(error.description(), description);
    }
}

#[test]
fn value_types_have_names() {
    assert_eq!(ValueType::Any.name(), "any");
    assert_eq!(ValueType::Raw.name(), "raw");
    assert_eq!(ValueType::Json.name(), "json");
    assert_eq!(ValueType::Absent.name(), "none");
}

#[test]
fn numbers_are_written_in_decimal() {
    assert_eq!(decimal(0), "0");
    assert_eq!(decimal(7), "7");
    assert_eq!(decimal(10), "10");
    assert_eq!(decimal(12345), "12345");
    assert_eq!(decimal(u64::MAX), "18446744073709551615");
    assert_eq!(signed_decimal(0), "0");
    assert_eq!(signed_decimal(-1), "-1");
    assert_eq!(signed_decimal(1577836800000), "1577836800000");
    assert_eq!(signed_decimal(i64::MAX), "9223372036854775807");
    assert_eq!(signed_decimal(i64::MIN), "-9223372036854775808");
    for n in [9u64, 99, 100, 101, 999_999, 1_000_000] {
        assert_eq!(decimal(n), n.to_string());
    }
}

#[test]
fn bindings_have_addresses() {
    assert_eq!(binding_url("main"), "/binding/main");
    assert_eq!(binding_url(""), "/binding/");
    assert_eq!(servant_url("main", "01"), "/binding/main/01");
}

#[test]
fn content_types_name_formats() {
    assert_eq!(resource_type("application/yaml"), Some(ResourceType::Yaml));
    assert_eq!(resource_type("application/json"), Some(ResourceType::Json));
    assert_eq!(resource_type("text/plain"), None);
    assert_eq!(resource_type(""), None);
}

#[test]
fn requests_have_statuses() {
    assert_eq!(created_status(Some(ResourceType::Json)), 201);
    assert_eq!(created_status(Some(ResourceType::Yaml)), 201);
    assert_eq!(created_status(None), 500);
    assert_eq!(found_status(true), 200);
    assert_eq!(found_status(false), 404);
}
