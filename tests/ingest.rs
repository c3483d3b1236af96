use opentelemetry_proto::tonic::collector::logs::v1::ExportLogsServiceRequest;
use opentelemetry_proto::tonic::collector::metrics::v1::ExportMetricsServiceRequest;
use opentelemetry_proto::tonic::common::v1::any_value::Value;
use opentelemetry_proto::tonic::common::v1::{AnyValue, InstrumentationScope, KeyValue};
use opentelemetry_proto::tonic::logs::v1::{LogRecord, ResourceLogs, ScopeLogs};
use opentelemetry_proto::tonic::resource::v1::Resource;
use otel_ingest::ingest::{
    decode_export, handle_otel_request, is_telemetry_path, route_of, BodyReader, ExportRequest,
    ReadEvent, Route, STATUS_BAD_REQUEST, STATUS_NOT_FOUND, STATUS_OK, STATUS_UNAVAILABLE,
    STATUS_UNPROCESSABLE,
};
use otel_ingest::project::{project_logs, LogRow};
use otel_ingest::render::ValueKind;
use prost::Message;

fn text(key: &str, value: &str) -> KeyValue {
    KeyValue {
        key: key.to_string(),
        value: Some(AnyValue { value: Some(Value::StringValue(value.to_string())) }),
        key_strindex: 0,
    }
}

fn body(s: &str) -> Option<AnyValue> {
    Some(AnyValue { value: Some(Value::StringValue(s.to_string())) })
}

fn two_record_request() -> ExportLogsServiceRequest {
    ExportLogsServiceRequest {
        resource_logs: vec![ResourceLogs {
            resource: Some(Resource {
                attributes: vec![text("service.name", "shop"), text("host", "h1")],
                ..Default::default()
            }),
            scope_logs: vec![ScopeLogs {
                scope: Some(InstrumentationScope {
                    name: "lib".to_string(),
                    attributes: vec![text("scope", "s")],
                    ..Default::default()
                }),
                log_records: vec![
                    LogRecord { attributes: vec![text("k", "v")], body: body("hello"), ..Default::default() },
                    LogRecord::default(),
                ],
                schema_url: String::new(),
            }],
            schema_url: String::new(),
        }],
    }
}

fn row(r: &str, s: &str, l: &str, b: &str) -> LogRow {
    LogRow {
        resource_labels: r.to_string(),
        scope_labels: s.to_string(),
        log_labels: l.to_string(),
        log: b.to_string(),
    }
}

#[test]
fn projection_of_two_records() {
    let rows = project_logs(two_record_request()).unwrap();
    assert_eq!(rows.len(), 2);
    assert_eq!(rows[0].resource_labels, rows[1].resource_labels);
    assert_eq!(rows[0].scope_labels, rows[1].scope_labels);
    assert_eq!(rows[0], row("host=h1,service.name=shop", "scope=s", "k=v", "hello"));
    assert_eq!(rows[1], row("host=h1,service.name=shop", "scope=s", "", ""));
}

#[test]
fn projection_without_resource_or_scope() {
    let request = ExportLogsServiceRequest {
        resource_logs: vec![
            ResourceLogs {
                resource: None,
                scope_logs: vec![
                    ScopeLogs {
                        scope: None,
                        log_records: vec![LogRecord { body: body("a"), ..Default::default() }],
                        schema_url: String::new(),
                    },
                    ScopeLogs { scope: None, log_records: vec![], schema_url: String::new() },
                ],
                schema_url: String::new(),
            },
            ResourceLogs {
                resource: Some(Resource { attributes: vec![text("r", "2")], ..Default::default() }),
                scope_logs: vec![ScopeLogs {
                    scope: None,
                    log_records: vec![
                        LogRecord { body: body("b"), ..Default::default() },
                        LogRecord { body: Some(AnyValue { value: None }), ..Default::default() },
                    ],
                    schema_url: String::new(),
                }],
                schema_url: String::new(),
            },
        ],
    };
    let rows = project_logs(request).unwrap();
    assert_eq!(rows, vec![row("", "", "", "a"), row("r=2", "", "", "b"), row("r=2", "", "", "")]);
}

#[test]
fn projection_of_empty_request() {
    assert_eq!(project_logs(ExportLogsServiceRequest::default()), Ok(vec![]));
}

#[test]
fn projection_refuses_unrendered_body() {
    let mut request = two_record_request();
    request.resource_logs[0].scope_logs[0].log_records[1].body =
        Some(AnyValue { value: Some(Value::IntValue(7)) });
    assert_eq!(project_logs(request), Err(ValueKind::Int));
}

#[test]
fn telemetry_paths() {
    assert!(is_telemetry_path("/v1/logs"));
    assert!(is_telemetry_path("/api/v1/x?y=1"));
    assert!(is_telemetry_path("/v1/"));
    assert!(!is_telemetry_path("/v1"));
    assert!(!is_telemetry_path("/"));
    assert!(!is_telemetry_path(""));
    assert!(!is_telemetry_path("/v2/logs"));
}

#[test]
fn routes_match_exactly() {
    assert_eq!(route_of("/v1/metrics"), Some(Route::Metrics));
    assert_eq!(route_of("/v1/traces"), Some(Route::Traces));
    assert_eq!(route_of("/v1/logs"), Some(Route::Logs));
    assert_eq!(route_of("/v1/logs?x=1"), None);
    assert_eq!(route_of("/v1/unknown"), None);
    assert_eq!(route_of("/v1/logs/"), None);
}

#[test]
fn empty_metrics_request_succeeds() {
    let bytes = ExportMetricsServiceRequest::default().encode_to_vec();
    let outcome = handle_otel_request(Some("/v1/metrics"), &bytes, false);
    assert_eq!(outcome.status, STATUS_OK);
    assert!(outcome.rows.is_empty());
}

#[test]
fn empty_traces_request_succeeds() {
    let outcome = handle_otel_request(Some("/v1/traces"), &[], false);
    assert_eq!(outcome.status, 200);
    assert!(outcome.rows.is_empty());
}

#[test]
fn unknown_telemetry_path_is_rejected() {
    let outcome = handle_otel_request(Some("/v1/unknown"), &[], false);
    assert_eq!(outcome.status, STATUS_NOT_FOUND);
    assert_eq!(outcome.status, 404);
    assert!(outcome.rows.is_empty());
}

#[test]
fn missing_path_is_rejected() {
    let outcome = handle_otel_request(None, &[], false);
    assert_eq!(outcome.status, STATUS_BAD_REQUEST);
    assert_eq!(outcome.status, 400);
}

#[test]
fn malformed_logs_body_is_rejected() {
    let outcome = handle_otel_request(Some("/v1/logs"), &[0xff, 0xff, 0xff], false);
    assert_eq!(outcome.status, STATUS_BAD_REQUEST);
    assert!(outcome.rows.is_empty());
    assert!(decode_export(Route::Logs, &[0xff, 0xff, 0xff]).is_err());
}

#[test]
fn logs_request_yields_rows() {
    let bytes = two_record_request().encode_to_vec();
    let outcome = handle_otel_request(Some("/v1/logs"), &bytes, false);
    assert_eq!(outcome.status, 200);
    assert_eq!(
        outcome.rows,
        vec![
            row("host=h1,service.name=shop", "scope=s", "k=v", "hello"),
            row("host=h1,service.name=shop", "scope=s", "", ""),
        ]
    );
}

#[test]
fn logs_request_with_unrendered_value_is_unprocessable() {
    let mut request = two_record_request();
    request.resource_logs[0].scope_logs[0].log_records[0].attributes.push(KeyValue {
        key: "n".to_string(),
        value: Some(AnyValue { value: Some(Value::DoubleValue(0.5)) }),
        key_strindex: 0,
    });
    let outcome = handle_otel_request(Some("/v1/logs"), &request.encode_to_vec(), false);
    assert_eq!(outcome.status, STATUS_UNPROCESSABLE);
    assert!(outcome.rows.is_empty());
}

#[test]
fn read_error_before_any_bytes_gives_failure_status() {
    let mut reader = BodyReader::new();
    assert!(reader.step(ReadEvent::Failed));
    assert!(!reader.step(ReadEvent::Closed));
    assert!(reader.finished);
    assert!(reader.bytes.is_empty());
    assert_eq!(reader.status(), STATUS_UNAVAILABLE);
    let outcome = handle_otel_request(Some("/v1/metrics"), &reader.bytes, reader.failed);
    assert_eq!(outcome.status, 503);
}

#[test]
fn second_read_error_ends_reading() {
    let mut reader = BodyReader::new();
    assert!(reader.step(ReadEvent::Data(vec![1, 2])));
    assert!(reader.step(ReadEvent::Failed));
    assert!(reader.step(ReadEvent::Data(vec![3])));
    assert!(!reader.step(ReadEvent::Failed));
    assert!(!reader.step(ReadEvent::Data(vec![4])));
    assert_eq!(reader.bytes, vec![1, 2, 3]);
    assert_eq!(reader.status(), 503);
}

#[test]
fn reader_gathers_chunks_until_closed() {
    let mut reader = BodyReader::new();
    assert!(reader.step(ReadEvent::Data(vec![10, 20])));
    assert!(reader.step(ReadEvent::Data(vec![])));
    assert!(reader.step(ReadEvent::Data(vec![30])));
    assert!(!reader.step(ReadEvent::Closed));
    assert_eq!(reader.bytes, vec![10, 20, 30]);
    assert!(!reader.failed);
    assert_eq!(reader.status(), 200);
}

#[test]
fn logs_round_trip_through_decode() {
    let original = two_record_request();
    let bytes = original.encode_to_vec();
    match decode_export(Route::Logs, &bytes) {
        Ok(ExportRequest::Logs(decoded)) => assert_eq!(decoded, original),
        other => panic!("unexpected decode result: {:?}", other),
    }
}

#[test]
fn decode_keeps_the_route() {
    assert!(matches!(decode_export(Route::Metrics, &[]), Ok(ExportRequest::Metrics(_))));
    assert!(matches!(decode_export(Route::Traces, &[]), Ok(ExportRequest::Traces(_))));
    assert!(matches!(decode_export(Route::Logs, &[]), Ok(ExportRequest::Logs(_))));
}
