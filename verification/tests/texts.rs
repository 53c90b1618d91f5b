//! Texts that other crates and the standard library make.

use ljx::commands::dedup::parse_bucket_by;
use ljx::commands::export::{any_value_to_json, export_ndjson_objects, format_timestamp, format_value};
use ljx::commands::view::detail::format_syslog_timestamp;
use ljx::commands::view::state::describe_scan;
use ljx::commands::view::types::ViewOrder;
use ljx::dedup::unpack::unpack;
use ljx::dedup::{dedup, DedupOpts};
use ljx::error::Error;
use ljx::exporter::push_unique_path;
use ljx::json::{sorted_json_string, JsonValue};
use ljx::otlp::AttrValue;
use ljx::record::{RecordType, StreamRecord};
use opentelemetry_proto::tonic::collector::logs::v1::ExportLogsServiceRequest;
use opentelemetry_proto::tonic::common::v1::any_value::Value;
use opentelemetry_proto::tonic::common::v1::{AnyValue, ArrayValue, KeyValue, KeyValueList};
use opentelemetry_proto::tonic::logs::v1::{LogRecord, ResourceLogs, ScopeLogs};
use prost::Message;

#[test]
fn queries_are_quoted_in_the_status() {
    let text = describe_scan(1, "say \"hi\"\n", ViewOrder::Concat, None);
    assert!(text.starts_with("Scanning \"say \\\"hi\\\"\\n\" ["), "{text}");
}

#[test]
fn unknown_bucket_extensions_are_quoted() {
    match parse_bucket_by(&Some("sco\"pe".to_string())) {
        Err(Error::Usage(message)) => assert!(message.contains("\"sco\\\"pe\""), "{message}"),
        _ => panic!("the extension was accepted"),
    }
}

#[test]
fn timestamps_are_dates() {
    assert_eq!(format_timestamp(1_700_000_000_123_456_789), "2023-11-14 22:13:20.123456789 UTC");
    assert_eq!(format_syslog_timestamp(1_700_000_000_000_000_000), "Nov 14 22:13:20");
}

#[test]
fn bytes_that_are_no_text_are_replaced() {
    let record = StreamRecord { record_type: RecordType::Metrics, seq: 1, ts_unix_ns: 0, payload: vec![b'a', 0xff, b'b'] };
    let rows = export_ndjson_objects(&record, &vec!["payload".to_string()]);
    assert_eq!(rows.len(), 1);
    assert_eq!(sorted_json_string(&rows[0]), "{\"payload\":\"a\u{fffd}b\"}");
}

#[test]
fn doubles_are_json_numbers() {
    assert!(matches!(any_value_to_json(&AttrValue::Double(2.0f64.to_bits()), None), Some(JsonValue::Float(t)) if t == "2.0"));
    assert!(any_value_to_json(&AttrValue::Double(f64::NAN.to_bits()), None).is_none());
    assert_eq!(format_value(&AttrValue::Double(2.0f64.to_bits())), "2");
    assert_eq!(format_value(&AttrValue::Double((-0.25f64).to_bits())), "-0.25");
}

#[test]
fn paths_are_compared_by_their_parts() {
    let mut paths = vec!["/opt/exporters".to_string()];
    push_unique_path(&mut paths, "/opt//exporters/".to_string());
    assert_eq!(paths.len(), 1);
    push_unique_path(&mut paths, "/opt/exporter".to_string());
    assert_eq!(paths, vec!["/opt/exporters".to_string(), "/opt/exporter".to_string()]);
}

/// The attributes of the one record of a run over a record with these.
fn attributes_after_a_run(attributes: &[KeyValue]) -> Vec<KeyValue> {
    let record = LogRecord {
        time_unix_nano: 5,
        body: Some(AnyValue { value: Some(Value::StringValue("hello".to_string())) }),
        attributes: attributes.to_vec(),
        ..LogRecord::default()
    };
    let batch = ExportLogsServiceRequest {
        resource_logs: vec![ResourceLogs {
            scope_logs: vec![ScopeLogs { log_records: vec![record], ..ScopeLogs::default() }],
            ..ResourceLogs::default()
        }],
    };
    let input = vec![StreamRecord { record_type: RecordType::Logs, seq: 0, ts_unix_ns: 5, payload: batch.encode_to_vec() }];
    let unpacked = unpack(input);
    assert_eq!(unpacked.records.len(), 1);
    let (out, _) = dedup(unpacked.records, unpacked.passthrough, &DedupOpts::default());
    let batch = ExportLogsServiceRequest::decode(out[0].payload.as_slice()).unwrap();
    batch.resource_logs[0].scope_logs[0].log_records[0].attributes[..attributes.len()].to_vec()
}

fn list_of(inner: AnyValue) -> AnyValue {
    AnyValue { value: Some(Value::ArrayValue(ArrayValue { values: vec![inner] })) }
}

fn map_of(inner: AnyValue) -> AnyValue {
    let member = KeyValue { key: "k".to_string(), value: Some(inner) };
    AnyValue { value: Some(Value::KvlistValue(KeyValueList { values: vec![member] })) }
}

#[test]
fn nested_attributes_survive_a_run() {
    let double = AnyValue { value: Some(Value::DoubleValue(2.5)) };
    let attributes = vec![
        KeyValue { key: "ratio".to_string(), value: Some(double.clone()) },
        KeyValue { key: "ratios".to_string(), value: Some(list_of(double.clone())) },
        KeyValue { key: "named".to_string(), value: Some(map_of(list_of(double))) },
    ];
    assert_eq!(attributes_after_a_run(&attributes), attributes);
}

#[test]
fn attributes_survive_as_deep_as_the_decoder_goes() {
    let mut lists = AnyValue { value: Some(Value::IntValue(7)) };
    for _ in 0..47 {
        lists = list_of(lists);
    }
    let mut maps = AnyValue { value: Some(Value::IntValue(7)) };
    for _ in 0..31 {
        maps = map_of(maps);
    }
    let attributes = vec![
        KeyValue { key: "lists".to_string(), value: Some(lists.clone()) },
        KeyValue { key: "maps".to_string(), value: Some(maps) },
    ];
    assert_eq!(attributes_after_a_run(&attributes), attributes);

    let deeper = vec![KeyValue { key: "lists".to_string(), value: Some(list_of(lists)) }];
    let record = LogRecord { attributes: deeper, ..LogRecord::default() };
    let batch = ExportLogsServiceRequest {
        resource_logs: vec![ResourceLogs {
            scope_logs: vec![ScopeLogs { log_records: vec![record], ..ScopeLogs::default() }],
            ..ResourceLogs::default()
        }],
    };
    let input = vec![StreamRecord { record_type: RecordType::Logs, seq: 0, ts_unix_ns: 0, payload: batch.encode_to_vec() }];
    assert_eq!(unpack(input).records.len(), 0);
}

#[test]
fn the_bits_of_a_nan_survive_a_run() {
    let bits = 0xfff8_0000_0000_1234;
    let value = AnyValue { value: Some(Value::DoubleValue(f64::from_bits(bits))) };
    let after = attributes_after_a_run(&[KeyValue { key: "nan".to_string(), value: Some(value) }]);
    match &after[0].value {
        Some(AnyValue { value: Some(Value::DoubleValue(d)) }) => assert_eq!(d.to_bits(), bits),
        _ => panic!("a double expected"),
    }
}
