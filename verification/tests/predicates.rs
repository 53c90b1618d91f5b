//! Predicates, queries and the commands that select records.

use ljx::cli::{CatArgs, CountArgs, FilterArgs, JoinArgs, OutputCodec, SplitArgs, StatsArgs};
use ljx::commands::{cat, count, filter, join, split, stats};
use ljx::error::Error;
use ljx::predicate::{
    parse_filter_query, parse_string_filter, query_args, FieldFilter, FilterMode, FilterQuery,
    PredicateArgs, RecordKind, RecordPredicate,
};
use ljx::record::{RecordType, StreamRecord};
use ljx::text::str_set::StrSet;
use opentelemetry_proto::tonic::collector::logs::v1::ExportLogsServiceRequest;
use opentelemetry_proto::tonic::common::v1::any_value::Value;
use opentelemetry_proto::tonic::common::v1::{AnyValue, KeyValue};
use opentelemetry_proto::tonic::logs::v1::{LogRecord, ResourceLogs, ScopeLogs};
use opentelemetry_proto::tonic::resource::v1::Resource;
use prost::Message;

fn record(record_type: RecordType, seq: u64, ts_unix_ns: u64, payload: &[u8]) -> StreamRecord {
    StreamRecord { record_type, seq, ts_unix_ns, payload: payload.to_vec() }
}

fn build(edit: fn(&mut PredicateArgs)) -> RecordPredicate {
    let mut args = PredicateArgs::new();
    edit(&mut args);
    args.build().unwrap()
}

fn log_payload(service: &str, severity: &str) -> Vec<u8> {
    ExportLogsServiceRequest {
        resource_logs: vec![ResourceLogs {
            resource: Some(Resource {
                attributes: vec![KeyValue {
                    key: "service.name".to_string(),
                    value: Some(AnyValue { value: Some(Value::StringValue(service.to_string())) }),
                }],
                ..Default::default()
            }),
            scope_logs: vec![ScopeLogs {
                log_records: vec![LogRecord { severity_text: severity.to_string(), ..Default::default() }],
                ..Default::default()
            }],
            ..Default::default()
        }],
    }
    .encode_to_vec()
}

fn set(values: &[&str]) -> Option<StrSet> {
    let mut s = StrSet::new();
    for v in values {
        s.insert(v);
    }
    Some(s)
}

#[test]
fn bounds_are_inclusive() {
    let p = build(|a| {
        a.seq_min = Some(2);
        a.seq_max = Some(4);
        a.ts_min = Some(10);
        a.ts_max = Some(20);
    });
    assert!(p.matches(&record(RecordType::Logs, 2, 10, b"")));
    assert!(p.matches(&record(RecordType::Logs, 4, 20, b"")));
    assert!(!p.matches(&record(RecordType::Logs, 1, 10, b"")));
    assert!(!p.matches(&record(RecordType::Logs, 5, 10, b"")));
    assert!(!p.matches(&record(RecordType::Logs, 3, 9, b"")));
    assert!(!p.matches(&record(RecordType::Logs, 3, 21, b"")));
}

#[test]
fn record_kind_selects() {
    let p = build(|a| a.record_type = Some(RecordKind::Metrics));
    assert!(p.matches(&record(RecordType::Metrics, 0, 0, b"")));
    assert!(!p.matches(&record(RecordType::Logs, 0, 0, b"")));
}

#[test]
fn patterns_match_anywhere_in_the_payload() {
    let p = build(|a| a.grep.push("er+or".to_string()));
    assert!(p.matches(&record(RecordType::Logs, 0, 0, b"an error here")));
    assert!(!p.matches(&record(RecordType::Logs, 0, 0, b"an ERROR here")));
    let q = build(|a| {
        a.grep.push("er+or".to_string());
        a.ignore_case = true;
    });
    assert!(q.matches(&record(RecordType::Logs, 0, 0, b"an ERROR here")));
}

#[test]
fn fixed_strings_are_taken_literally() {
    let p = build(|a| a.fixed_string.push("a.c".to_string()));
    assert!(p.matches(&record(RecordType::Logs, 0, 0, b"xa.cx")));
    assert!(!p.matches(&record(RecordType::Logs, 0, 0, b"xabcx")));
    const ODD: &str = "\\.+*?()|[]{}^$#&-~ /%é";
    let q = build(|a| a.fixed_string.push(ODD.to_string()));
    assert!(q.matches(&record(RecordType::Logs, 0, 0, format!("<{ODD}>").as_bytes())));
    assert!(!q.matches(&record(RecordType::Logs, 0, 0, b"anything")));
}

#[test]
fn a_broken_pattern_is_refused() {
    let mut args = PredicateArgs::new();
    args.grep.push("(".to_string());
    assert!(matches!(args.build(), Err(Error::Usage(_))));
}

#[test]
fn no_filters_unless_one_is_given() {
    assert!(!PredicateArgs::new().has_filters());
    let mut args = PredicateArgs::new();
    args.ts_min = Some(0);
    assert!(args.has_filters());
}

#[test]
fn field_filters_look_into_log_batches() {
    let payload = log_payload("svc-a", "ERROR");
    let by_service = FieldFilter { severities: None, services: set(&["svc-a"]) };
    let other_service = FieldFilter { severities: None, services: set(&["svc-b"]) };
    let by_severity = FieldFilter { severities: set(&["ERROR", "WARN"]), services: None };
    let other_severity = FieldFilter { severities: set(&["INFO"]), services: None };
    assert!(FieldFilter::new().is_empty());
    assert!(!by_service.is_empty());
    assert!(by_service.matches_payload(&payload));
    assert!(!other_service.matches_payload(&payload));
    assert!(by_severity.matches_payload(&payload));
    assert!(!other_severity.matches_payload(&payload));
}

#[test]
fn string_filters_refuse_empty_values() {
    assert_eq!(parse_string_filter(&Vec::new(), "service").unwrap().is_none(), true);
    let some = parse_string_filter(&vec!["a".to_string(), "b".to_string(), "a".to_string()], "service").unwrap().unwrap();
    assert_eq!(some.len(), 2);
    assert!(matches!(parse_string_filter(&vec![String::new()], "service"), Err(Error::Usage(_))));
}

#[test]
fn queries_are_read_by_the_active_mode() {
    assert!(matches!(parse_filter_query("", FilterMode::Strings), Ok(FilterQuery::All)));
    assert!(matches!(parse_filter_query("a.c", FilterMode::Strings), Ok(FilterQuery::Text(t)) if t == "a.c"));
    assert!(matches!(parse_filter_query("a.c", FilterMode::Regex), Ok(FilterQuery::Pattern(t)) if t == "a.c"));
}

#[test]
fn queries_that_start_with_a_dash_are_options() {
    match parse_filter_query("--grep 'two words' -i", FilterMode::Strings) {
        Ok(FilterQuery::Options(argv)) => {
            assert!(argv.iter().any(|a| a == "two words"));
            assert!(argv.iter().any(|a| a == "-i"));
        }
        _ => panic!("options expected"),
    }
    assert!(parse_filter_query("--grep 'open", FilterMode::Strings).is_err());
}

#[test]
fn bare_text_selects_what_holds_it() {
    let query = parse_filter_query("a.c", FilterMode::Strings).unwrap();
    let p = query_args(&query).unwrap().build().unwrap();
    assert!(p.matches(&record(RecordType::Logs, 0, 0, b"a.c")));
    assert!(!p.matches(&record(RecordType::Logs, 0, 0, b"abc")));
    let query = parse_filter_query("a.c", FilterMode::Regex).unwrap();
    let p = query_args(&query).unwrap().build().unwrap();
    assert!(p.matches(&record(RecordType::Logs, 0, 0, b"abc")));
}

#[test]
fn count_counts_what_filter_keeps() {
    let records = vec![
        record(RecordType::Logs, 1, 1, b"one"),
        record(RecordType::Metrics, 2, 2, b"two"),
        record(RecordType::Logs, 3, 3, b"three"),
    ];
    let mut predicate = PredicateArgs::new();
    predicate.record_type = Some(RecordKind::Logs);
    let args = CountArgs { input: "-".to_string(), predicate };
    assert_eq!(count::run(&args, &records).unwrap(), 2);

    let mut predicate = PredicateArgs::new();
    predicate.record_type = Some(RecordKind::Logs);
    let args = FilterArgs {
        input: "-".to_string(),
        output: "-".to_string(),
        codec: OutputCodec::Lz4,
        block_target_size: 4096,
        predicate,
    };
    let kept = filter::run(&args, records).unwrap();
    assert_eq!(kept.iter().map(|r| r.seq).collect::<Vec<u64>>(), vec![1, 3]);
    let again = filter::run(&args, kept).unwrap();
    assert_eq!(again.iter().map(|r| r.seq).collect::<Vec<u64>>(), vec![1, 3]);
}

#[test]
fn records_are_filtered_piece_by_piece() {
    let all = || -> Vec<StreamRecord> {
        [b"keep 1", b"drop 2", b"keep 3", b"keep 4"].iter().enumerate().map(|(i, p)| record(RecordType::Logs, i as u64, 0, *p)).collect()
    };
    let predicate = || {
        let mut args = PredicateArgs::new();
        args.fixed_string.push("keep".to_string());
        args
    };
    let args = FilterArgs {
        input: "-".to_string(),
        output: "-".to_string(),
        codec: OutputCodec::Lz4,
        block_target_size: 4096,
        predicate: predicate(),
    };
    let seqs = |records: Vec<StreamRecord>| filter::run(&args, records).unwrap().iter().map(|r| r.seq).collect::<Vec<u64>>();
    let whole = seqs(all());
    assert_eq!(whole, vec![0, 2, 3]);
    let mut head = all();
    let tail = head.split_off(2);
    let counted = CountArgs { input: "-".to_string(), predicate: predicate() };
    assert_eq!(count::run(&counted, &head).unwrap() + count::run(&counted, &tail).unwrap(), 3);
    let mut pieces = seqs(head);
    pieces.extend(seqs(tail));
    assert_eq!(pieces, whole);
}

#[test]
fn commands_to_come_say_so() {
    assert!(matches!(cat::run(CatArgs { input: String::new() }), Err(Error::Unimplemented(_))));
    assert!(matches!(
        join::run(JoinArgs { inputs: Vec::new(), output: String::new(), validate_sequence_continuity: false }),
        Err(Error::Unimplemented(_))
    ));
    assert!(matches!(
        split::run(SplitArgs {
            input: String::new(),
            output_prefix: String::new(),
            max_bytes: None,
            max_records: None,
            timestamp_range: None,
        }),
        Err(Error::Unimplemented(_))
    ));
    assert!(matches!(
        stats::run(StatsArgs { input: String::new(), field_stats: false }),
        Err(Error::Unimplemented(_))
    ));
}

#[test]
fn errors_show_their_text() {
    assert_eq!(Error::usage("bad").message(), "bad");
    let e = Error::JsonUsage { code: "c".to_string(), message: "m".to_string() };
    assert_eq!(e.message(), "m");
    assert!(e.is_machine_readable());
    assert!(!Error::usage("bad").is_machine_readable());
}
