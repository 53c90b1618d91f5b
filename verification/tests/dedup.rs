//! The dedup pipeline from batches to batches.

use ljx::dedup::flat_record::BucketKeyKind;
use ljx::dedup::unpack::unpack;
use ljx::dedup::{dedup, group_records, DedupMatchMode, DedupMode, DedupOpts, DedupStats, DrainOpts};
use ljx::record::{RecordType, StreamRecord};
use opentelemetry_proto::tonic::collector::logs::v1::ExportLogsServiceRequest;
use opentelemetry_proto::tonic::common::v1::any_value::Value;
use opentelemetry_proto::tonic::common::v1::{AnyValue, InstrumentationScope, KeyValue};
use opentelemetry_proto::tonic::logs::v1::{LogRecord, ResourceLogs, ScopeLogs};
use opentelemetry_proto::tonic::resource::v1::Resource;
use prost::Message;

fn make_log_record(body: &str, severity: i32, time_ns: u64) -> LogRecord {
    LogRecord {
        time_unix_nano: time_ns,
        observed_time_unix_nano: time_ns,
        severity_number: severity,
        severity_text: format!("SEV{severity}"),
        body: Some(AnyValue { value: Some(Value::StringValue(body.to_string())) }),
        attributes: Vec::new(),
        dropped_attributes_count: 0,
        flags: 0,
        trace_id: Vec::new(),
        span_id: Vec::new(),
        event_name: String::new(),
    }
}

fn make_batch(service: &str, records: Vec<LogRecord>) -> ExportLogsServiceRequest {
    ExportLogsServiceRequest {
        resource_logs: vec![ResourceLogs {
            resource: Some(Resource {
                attributes: vec![KeyValue {
                    key: "service.name".to_string(),
                    value: Some(AnyValue { value: Some(Value::StringValue(service.to_string())) }),
                }],
                dropped_attributes_count: 0,
                entity_refs: Vec::new(),
            }),
            scope_logs: vec![ScopeLogs {
                scope: Some(InstrumentationScope {
                    name: "test".to_string(),
                    version: String::new(),
                    attributes: Vec::new(),
                    dropped_attributes_count: 0,
                }),
                log_records: records,
                schema_url: String::new(),
            }],
            schema_url: String::new(),
        }],
    }
}

/// The batches as records of a stream.
fn stream(batches: &[ExportLogsServiceRequest]) -> Vec<StreamRecord> {
    batches
        .iter()
        .enumerate()
        .map(|(i, batch)| StreamRecord {
            record_type: RecordType::Logs,
            seq: i as u64,
            ts_unix_ns: 1000 + i as u64,
            payload: batch.encode_to_vec(),
        })
        .collect()
}

/// Dedup within buckets, with the given matching.
fn run_with_stats(input: Vec<StreamRecord>, match_mode: DedupMatchMode) -> (Vec<StreamRecord>, DedupStats) {
    let unpacked = unpack(input);
    let opts = DedupOpts {
        mode: DedupMode::Collapse,
        match_mode,
        bucket_key: BucketKeyKind::Default,
        drain: DrainOpts::default(),
    };
    dedup(unpacked.records, unpacked.passthrough, &opts)
}

fn run_dedup(input: Vec<StreamRecord>, match_mode: DedupMatchMode) -> Vec<StreamRecord> {
    run_with_stats(input, match_mode).0
}

/// Decode all log groups from records, returning (body, dedup.count) pairs.
fn read_groups(output: &[StreamRecord]) -> Vec<(String, i64)> {
    let mut groups = Vec::new();
    for rec in output.iter() {
        if rec.record_type != RecordType::Logs {
            continue;
        }
        let batch = ExportLogsServiceRequest::decode(rec.payload.as_slice()).unwrap();
        for rl in &batch.resource_logs {
            for sl in &rl.scope_logs {
                for lr in &sl.log_records {
                    let body = lr
                        .body
                        .as_ref()
                        .and_then(|b| match &b.value {
                            Some(Value::StringValue(s)) => Some(s.clone()),
                            _ => None,
                        })
                        .unwrap_or_default();
                    let count = lr
                        .attributes
                        .iter()
                        .find(|a| a.key == "dedup.count")
                        .and_then(|a| match &a.value {
                            Some(AnyValue { value: Some(Value::IntValue(n)) }) => Some(*n),
                            _ => None,
                        })
                        .unwrap_or(1);
                    groups.push((body, count));
                }
            }
        }
    }
    groups
}

#[test]
fn exact_collapses_identical_bodies() {
    let batch = make_batch(
        "svc-a",
        vec![
            make_log_record("placeholder event", 9, 100),
            make_log_record("placeholder event", 9, 200),
            make_log_record("placeholder event", 9, 300),
            make_log_record("different placeholder", 9, 400),
        ],
    );
    let input = stream(&[batch]);
    let output = run_dedup(input, DedupMatchMode::Exact);
    let groups = read_groups(&output);

    assert_eq!(groups.len(), 2);
    let hello = groups.iter().find(|(b, _)| b == "placeholder event").unwrap();
    assert_eq!(hello.1, 3);
    let diff = groups.iter().find(|(b, _)| b == "different placeholder").unwrap();
    assert_eq!(diff.1, 1);
}

#[test]
fn different_severity_stays_separate() {
    let batch1 = make_batch("svc-a", vec![make_log_record("same placeholder", 5, 100)]);
    let batch2 = make_batch("svc-a", vec![make_log_record("same placeholder", 9, 200)]);
    let input = stream(&[batch1, batch2]);
    let output = run_dedup(input, DedupMatchMode::Exact);
    let groups = read_groups(&output);

    // Same body but different severity → different buckets → 2 groups.
    assert_eq!(groups.len(), 2);
    assert!(groups.iter().all(|(_, c)| *c == 1));
}

#[test]
fn different_service_stays_separate() {
    let batch1 = make_batch("svc-a", vec![make_log_record("same placeholder", 9, 100)]);
    let batch2 = make_batch("svc-b", vec![make_log_record("same placeholder", 9, 200)]);
    let input = stream(&[batch1, batch2]);
    let output = run_dedup(input, DedupMatchMode::Exact);
    let groups = read_groups(&output);

    assert_eq!(groups.len(), 2);
    assert!(groups.iter().all(|(_, c)| *c == 1));
}

#[test]
fn timestamps_first_and_last_correct() {
    let batch = make_batch(
        "svc",
        vec![make_log_record("placeholder", 9, 500), make_log_record("placeholder", 9, 100), make_log_record("placeholder", 9, 900)],
    );
    let input = stream(&[batch]);
    let output = run_dedup(input, DedupMatchMode::Exact);

    let rec = &output[0];
    let batch = ExportLogsServiceRequest::decode(rec.payload.as_slice()).unwrap();
    let lr = &batch.resource_logs[0].scope_logs[0].log_records[0];

    // time_unix_nano = first_seen (min), observed = last_seen (max).
    assert_eq!(lr.time_unix_nano, 100);
    assert_eq!(lr.observed_time_unix_nano, 900);

    let first_ns = lr.attributes.iter().find(|a| a.key == "dedup.first_seen_ns").unwrap();
    let last_ns = lr.attributes.iter().find(|a| a.key == "dedup.last_seen_ns").unwrap();
    if let Some(AnyValue { value: Some(Value::IntValue(v)) }) = &first_ns.value {
        assert_eq!(*v, 100);
    }
    if let Some(AnyValue { value: Some(Value::IntValue(v)) }) = &last_ns.value {
        assert_eq!(*v, 900);
    }
}

#[test]
fn passthrough_non_log_records() {
    // Write a log batch + a metrics record.
    let batch = make_batch("svc", vec![make_log_record("placeholder", 9, 100)]);
    let mut input = stream(&[batch]);
    input.push(StreamRecord {
        record_type: RecordType::Metrics,
        seq: 1,
        ts_unix_ns: 1001,
        payload: b"fake-metrics-payload".to_vec(),
    });

    let output = run_dedup(input, DedupMatchMode::Exact);

    // Should have 2 records out: 1 deduped log + 1 passthrough metrics.
    let mut count = 0;
    let mut saw_metrics = false;
    for rec in output.iter() {
        count += 1;
        if rec.record_type == RecordType::Metrics {
            assert_eq!(rec.payload, b"fake-metrics-payload");
            saw_metrics = true;
        }
    }
    assert_eq!(count, 2);
    assert!(saw_metrics);
}

#[test]
fn empty_input_produces_empty_output() {
    let input = stream(&[]);
    let output = run_dedup(input, DedupMatchMode::Exact);
    let groups = read_groups(&output);
    assert!(groups.is_empty());
}

#[test]
fn full_mode_runs_drain3_for_small_residual_sets() {
    let batch = make_batch(
        "svc-a",
        vec![make_log_record("error in section alpha at line 42", 9, 100), make_log_record("error in section beta at line 99", 9, 200)],
    );
    let input = stream(&[batch]);
    let output = run_dedup(input, DedupMatchMode::Full);
    let groups = read_groups(&output);

    assert_eq!(groups.len(), 1);
    assert_eq!(groups[0].1, 2);
}

fn run_distinct(input: Vec<StreamRecord>, match_mode: DedupMatchMode) -> Vec<StreamRecord> {
    let unpacked = unpack(input);
    let opts = DedupOpts { match_mode, ..DedupOpts::default() };
    dedup(unpacked.records, unpacked.passthrough, &opts).0
}

#[test]
fn distinct_joins_what_is_far_apart_in_any_order() {
    let bodies = ["alpha", "beta", "gamma", "alpha", "beta", "alpha"];
    let in_order = |order: &[usize]| -> Vec<StreamRecord> {
        let records = order.iter().map(|i| make_log_record(bodies[*i], 9, 100 + *i as u64)).collect();
        stream(&[make_batch("svc", records)])
    };
    for match_mode in [DedupMatchMode::Exact, DedupMatchMode::Hash2] {
        let mut forward = read_groups(&run_distinct(in_order(&[0, 1, 2, 3, 4, 5]), match_mode));
        let mut backward = read_groups(&run_distinct(in_order(&[5, 4, 3, 2, 1, 0]), match_mode));
        forward.sort();
        backward.sort();
        let expected = vec![("alpha".to_string(), 3), ("beta".to_string(), 2), ("gamma".to_string(), 1)];
        assert_eq!(forward, expected);
        assert_eq!(backward, expected);
    }
}

#[test]
fn output_is_in_the_order_of_time_and_keeps_what_passes_through() {
    let mut input = stream(&[make_batch(
        "svc",
        vec![make_log_record("late", 9, 900), make_log_record("early", 9, 100), make_log_record("late", 9, 950)],
    )]);
    input.push(StreamRecord { record_type: RecordType::Metrics, seq: 77, ts_unix_ns: 500, payload: vec![1, 2, 3] });
    input.push(StreamRecord { record_type: RecordType::Traces, seq: 78, ts_unix_ns: 50, payload: vec![4] });
    let out = run_distinct(input, DedupMatchMode::Exact);
    let heads: Vec<(u64, u64, RecordType)> = out.iter().map(|r| (r.seq, r.ts_unix_ns, r.record_type)).collect();
    assert_eq!(
        heads,
        vec![
            (0, 50, RecordType::Traces),
            (1, 100, RecordType::Logs),
            (2, 500, RecordType::Metrics),
            (3, 900, RecordType::Logs),
        ]
    );
    assert_eq!(out[0].payload, vec![4]);
    assert_eq!(out[2].payload, vec![1, 2, 3]);
}

#[test]
fn emitted_groups_unpack_to_their_representatives() {
    let input = stream(&[make_batch("svc", vec![make_log_record("same", 9, 300), make_log_record("same", 9, 100)])]);
    let again = unpack(run_distinct(input, DedupMatchMode::Exact));
    assert!(again.passthrough.is_empty());
    assert_eq!(again.records.len(), 1);
    assert_eq!(again.records[0].body, "same");
    assert_eq!(again.records[0].service_name, "svc");
    assert_eq!(again.records[0].time_unix_nano, 100);
    assert_eq!(again.records[0].observed_time_unix_nano, 300);
}

#[test]
fn exemplars_stay_few() {
    let records = (1u8..=9)
        .map(|n| LogRecord { trace_id: vec![n; 16], span_id: vec![n; 8], ..make_log_record("same", 9, u64::from(n)) })
        .collect();
    let unpacked = unpack(stream(&[make_batch("svc", records)]));
    let groups = group_records(unpacked.records, &DedupOpts::default());
    assert_eq!(groups.len(), 1);
    assert_eq!(groups[0].count, 9);
    assert_eq!((groups[0].first_seen_ns, groups[0].last_seen_ns), (1, 9));
    assert_eq!(groups[0].exemplar_trace_ids, vec!["01".repeat(16), "02".repeat(16), "09".repeat(16)]);
    assert_eq!(groups[0].exemplar_span_ids, vec!["01".repeat(8), "02".repeat(8), "09".repeat(8)]);
}

#[test]
fn three_ids_are_all_listed() {
    let records = [0x0au8, 0x0b, 0x0c]
        .iter()
        .map(|n| LogRecord { trace_id: vec![*n; 16], span_id: vec![*n; 8], ..make_log_record("same", 9, 1) })
        .collect();
    let unpacked = unpack(stream(&[make_batch("svc", records)]));
    let groups = group_records(unpacked.records, &DedupOpts::default());
    assert_eq!(groups[0].exemplar_trace_ids, vec!["0a".repeat(16), "0b".repeat(16), "0c".repeat(16)]);
    assert_eq!(groups[0].exemplar_span_ids, vec!["0a".repeat(8), "0b".repeat(8), "0c".repeat(8)]);
}

#[test]
fn distinct_runs_look_at_bodies_only() {
    let bodies = ["user 1 in", "user 2 in", "other", "user 1 in", "lone line here", "lone line there"];
    let run_over = |bodies: &[&str], services: [&str; 2], severities: [i32; 2], match_mode: DedupMatchMode| {
        let batches: Vec<ExportLogsServiceRequest> = bodies
            .iter()
            .enumerate()
            .map(|(i, body)| make_batch(services[i % 2], vec![make_log_record(body, severities[i % 2], i as u64)]))
            .collect();
        let unpacked = unpack(stream(&batches));
        let opts = DedupOpts { match_mode, ..DedupOpts::default() };
        let groups = group_records(unpacked.records, &opts);
        groups.iter().map(|g| (g.signature, g.count)).collect::<Vec<_>>()
    };
    let run = |services: [&str; 2], severities: [i32; 2], match_mode: DedupMatchMode| run_over(&bodies, services, severities, match_mode);
    for match_mode in [DedupMatchMode::Exact, DedupMatchMode::Hash2, DedupMatchMode::Full] {
        let a = run(["svc", "svc"], [9, 9], match_mode);
        let b = run(["left", "right"], [9, 17], match_mode);
        assert_eq!(a, b);
        assert_eq!(a.iter().map(|t| t.1).sum::<u64>(), bodies.len() as u64);
    }
    let mut backward = bodies;
    backward.reverse();
    for match_mode in [DedupMatchMode::Exact, DedupMatchMode::Hash2] {
        let mut a = run(["svc", "svc"], [9, 9], match_mode);
        let mut b = run_over(&backward, ["left", "right"], [9, 17], match_mode);
        a.sort();
        b.sort();
        assert_eq!(a, b);
    }
    let mut signatures: Vec<u64> = run(["a", "b"], [1, 2], DedupMatchMode::Hash2).iter().map(|t| t.0).collect();
    let found = signatures.len();
    signatures.sort();
    signatures.dedup();
    assert_eq!(signatures.len(), found);
}

/// The `dedup.mode` attribute of each emitted group.
fn modes(output: &[StreamRecord]) -> Vec<String> {
    let mut out = Vec::new();
    for record in output {
        let batch = ExportLogsServiceRequest::decode(record.payload.as_slice()).unwrap();
        for attr in &batch.resource_logs[0].scope_logs[0].log_records[0].attributes {
            if attr.key == "dedup.mode" {
                match &attr.value {
                    Some(AnyValue { value: Some(Value::StringValue(s)) }) => out.push(s.clone()),
                    _ => panic!("a text expected"),
                }
            }
        }
    }
    out
}

#[test]
fn labels_show_behaviour_and_matcher() {
    let run = |mode: DedupMode, match_mode: DedupMatchMode, bodies: [&str; 2]| {
        let records = vec![make_log_record(bodies[0], 9, 100), make_log_record(bodies[1], 9, 200)];
        let unpacked = unpack(stream(&[make_batch("svc-a", records)]));
        let opts = DedupOpts { mode, match_mode, ..DedupOpts::default() };
        modes(&dedup(unpacked.records, unpacked.passthrough, &opts).0)
    };
    let mined = ["error in section alpha at line 42", "error in section beta at line 99"];
    assert_eq!(run(DedupMode::Distinct, DedupMatchMode::Full, mined), vec!["distinct/drain3"]);
    assert_eq!(run(DedupMode::Collapse, DedupMatchMode::Full, mined), vec!["collapse/drain3"]);
    let same = ["same", "same"];
    assert_eq!(run(DedupMode::Distinct, DedupMatchMode::Full, same), vec!["distinct/full"]);
    assert_eq!(run(DedupMode::Collapse, DedupMatchMode::Hash2, same), vec!["collapse/canon"]);
    assert_eq!(run(DedupMode::Distinct, DedupMatchMode::Exact, same), vec!["distinct/exact"]);
}
