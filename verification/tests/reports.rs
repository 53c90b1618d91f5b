//! Exporters, discovery, rows of JSON and canonical bodies.

use ljx::cli::{Cli, Command, CountArgs, DedupArgs, DedupBehaviorArg, DedupMatchArg, DiscoverArgs, Request};
use ljx::commands::dedup::{options, parse_bucket_by};
use ljx::commands::discover::{machine_error, next_offset, paged_entries, run, update_span, TimeSpan};
use ljx::commands::export::{
    export_ndjson_objects, flatten_key, format_timestamp, format_value, run_ndjson,
    run_query_ndjson_multi, truncate_preview, ExportRoute,
};
use ljx::commands::export;
use ljx::commands::view::detail::{
    extract_otlp_log_severity, extract_otlp_metrics_message, extract_otlp_metrics_summary,
    extract_otlp_traces_message, extract_otlp_traces_summary, format_span_kind,
    severity_number_label,
};
use ljx::commands::view::info::render_payload_info;
use ljx::dataset::{Dataset, DatasetEntry};
use ljx::dedup::canon_json::{canonicalise_json_to_string, normalise_key};
use ljx::dedup::drain3::Ratio;
use ljx::dedup::flat_record::BucketKeyKind;
use ljx::dedup::hex::encode;
use ljx::dedup::{DedupMatchMode, DedupMode};
use ljx::error::Error;
use ljx::exporter::{
    check_descriptor, collect_plugin_candidates, collect_search_roots, is_valid_format_name,
    Candidate, CapabilityBits, ConfiguredPath, DescriptorInfo, ExporterRegistry, HostAbi,
    ListedFile, PluginInfo, RootFact,
};
use ljx::otlp::AttrValue;
use ljx::predicate::{PredicateArgs, RecordKind};
use ljx::record::{RecordType, StreamRecord};
use opentelemetry_proto::tonic::collector::logs::v1::ExportLogsServiceRequest;
use opentelemetry_proto::tonic::collector::metrics::v1::ExportMetricsServiceRequest;
use opentelemetry_proto::tonic::collector::trace::v1::ExportTraceServiceRequest;
use opentelemetry_proto::tonic::common::v1::any_value::Value;
use opentelemetry_proto::tonic::common::v1::{AnyValue, InstrumentationScope, KeyValue};
use opentelemetry_proto::tonic::logs::v1::{LogRecord, ResourceLogs, ScopeLogs};
use opentelemetry_proto::tonic::metrics::v1::{
    metric, number_data_point, Gauge, Metric, NumberDataPoint, ResourceMetrics, ScopeMetrics,
};
use opentelemetry_proto::tonic::resource::v1::Resource;
use opentelemetry_proto::tonic::trace::v1::{ResourceSpans, ScopeSpans, Span};
use prost::Message;

fn text_value(s: &str) -> Option<AnyValue> {
    Some(AnyValue { value: Some(Value::StringValue(s.to_string())) })
}

fn log_payload(service: &str, severity: &str, bodies: &[&str]) -> Vec<u8> {
    ExportLogsServiceRequest {
        resource_logs: vec![ResourceLogs {
            resource: Some(Resource {
                attributes: vec![KeyValue { key: "service.name".to_string(), value: text_value(service) }],
                ..Default::default()
            }),
            scope_logs: vec![ScopeLogs {
                scope: Some(InstrumentationScope { name: "scope".to_string(), ..Default::default() }),
                log_records: bodies
                    .iter()
                    .map(|b| LogRecord {
                        time_unix_nano: 1_000_000_000,
                        severity_text: severity.to_string(),
                        body: text_value(b),
                        ..Default::default()
                    })
                    .collect(),
                ..Default::default()
            }],
            ..Default::default()
        }],
    }
    .encode_to_vec()
}

fn logs(seq: u64, ts_unix_ns: u64, payload: Vec<u8>) -> StreamRecord {
    StreamRecord { record_type: RecordType::Logs, seq, ts_unix_ns, payload }
}

fn metrics_payload() -> Vec<u8> {
    ExportMetricsServiceRequest {
        resource_metrics: vec![ResourceMetrics {
            scope_metrics: vec![ScopeMetrics {
                metrics: vec![Metric {
                    name: "cpu.load".to_string(),
                    data: Some(metric::Data::Gauge(Gauge {
                        data_points: vec![NumberDataPoint {
                            time_unix_nano: 5,
                            value: Some(number_data_point::Value::AsInt(42)),
                            ..Default::default()
                        }],
                    })),
                    ..Default::default()
                }],
                ..Default::default()
            }],
            ..Default::default()
        }],
    }
    .encode_to_vec()
}

fn traces_payload() -> Vec<u8> {
    ExportTraceServiceRequest {
        resource_spans: vec![ResourceSpans {
            scope_spans: vec![ScopeSpans {
                spans: vec![Span {
                    name: "GET /".to_string(),
                    kind: 2,
                    start_time_unix_nano: 10,
                    end_time_unix_nano: 30,
                    ..Default::default()
                }],
                ..Default::default()
            }],
            ..Default::default()
        }],
    }
    .encode_to_vec()
}

fn discover_args() -> DiscoverArgs {
    DiscoverArgs {
        inputs: Vec::new(),
        offset: 0,
        limit: None,
        services: Vec::new(),
        severities: Vec::new(),
        top_services: 10,
        ndjson: false,
        predicate: PredicateArgs::new(),
    }
}

fn dataset(paths: &[&str]) -> Dataset {
    Dataset::new(paths.iter().map(|p| DatasetEntry::new(p.to_string(), 1, None, None)).collect())
}

#[test]
fn discovery_counts_events() {
    let files = vec![
        vec![logs(1, 10, log_payload("a", "INFO", &["x", "y"])), logs(2, 30, log_payload("b", "ERROR", &["z"]))],
        vec![logs(3, 20, log_payload("b", "ERROR", &["w"]))],
    ];
    let r = run(&discover_args(), &dataset(&["1.logjet", "2.logjet"]), &files).unwrap();
    assert_eq!((r.records_scanned, r.records_matched, r.log_events), (3, 3, 4));
    assert_eq!((r.time_span_unix_ns.first, r.time_span_unix_ns.last), (Some(10), Some(30)));
    let rows: Vec<(String, u64)> = r.top_services.iter().map(|x| (x.value.clone(), x.count)).collect();
    assert_eq!(rows, vec![("a".to_string(), 2), ("b".to_string(), 2)]);
    assert_eq!(r.severity_breakdown.iter().map(|x| x.count).sum::<u64>(), 4);
    assert_eq!(r.files.len(), 2);
    assert_eq!(r.input.next_offset, None);

    let mut args = discover_args();
    args.services.push("b".to_string());
    args.limit = Some(1);
    let r = run(&args, &dataset(&["1.logjet", "2.logjet"]), &files[..1].iter().map(|f| f.iter().map(|x| logs(x.seq, x.ts_unix_ns, x.payload.clone())).collect()).collect()).unwrap();
    assert_eq!(r.log_events, 1);
    assert_eq!(r.input.next_offset, Some(1));
}

#[test]
fn pages_end_with_the_files() {
    let d = dataset(&["a", "b", "c"]);
    assert_eq!(paged_entries(&d, 1, Some(5)).unwrap(), (1, 2));
    assert_eq!(paged_entries(&d, 3, None).unwrap(), (3, 0));
    assert!(matches!(paged_entries(&d, 4, None), Err(Error::Usage(_))));
    assert_eq!(next_offset(1, 1, 3), Some(2));
    assert_eq!(next_offset(1, 2, 3), None);
    let mut span = TimeSpan { first: None, last: None };
    update_span(&mut span, 5);
    update_span(&mut span, 3);
    assert_eq!((span.first, span.last), (Some(3), Some(5)));
    match machine_error(Error::usage("bad")) {
        Error::JsonUsage { code, message } => assert_eq!((code.as_str(), message.as_str()), ("discover_failed", "bad")),
        _ => panic!("an error in JSON expected"),
    }
}

#[test]
fn rows_hold_the_fields_of_a_record() {
    let record = logs(1, 2_000_000_000, log_payload("svc", "INFO", &["hello"]));
    let text = run_ndjson(&vec![logs(1, 2_000_000_000, record.payload.clone())], &Vec::new());
    let row: serde_json::Value = serde_json::from_str(text.lines().next().unwrap()).unwrap();
    assert_eq!(row["body"], "hello");
    assert_eq!(row["severity_text"], "INFO");
    assert_eq!(export_ndjson_objects(&record, &Vec::new()).len(), 1);
    let some = run_ndjson(&vec![record], &vec!["body".to_string()]);
    assert_eq!(some, "{\"body\":\"hello\"}\n");
}

#[test]
fn lines_come_piece_by_piece() {
    let first = || logs(1, 1, log_payload("svc", "INFO", &["one", "two"]));
    let second = || logs(2, 2, log_payload("svc", "WARN", &["three"]));
    let fields = vec!["body".to_string()];
    let whole = run_ndjson(&vec![first(), second()], &fields);
    assert_eq!(whole.lines().count(), 3);
    let mut pieces = run_ndjson(&vec![first()], &fields);
    pieces.push_str(&run_ndjson(&vec![second()], &fields));
    assert_eq!(pieces, whole);
}

#[test]
fn queries_keep_matching_records() {
    let mut args = PredicateArgs::new();
    args.fixed_string.push("keep".to_string());
    let p = args.build().unwrap();
    let records = vec![
        logs(1, 1, log_payload("svc", "INFO", &["keep this"])),
        logs(2, 2, log_payload("svc", "INFO", &["drop this"])),
    ];
    let text = run_query_ndjson_multi(&records, &p, &vec!["body".to_string()], Some(4));
    assert_eq!(text.lines().count(), 1);
    assert!(text.contains("keep"));
    assert!(!text.contains("keep this"));
}

#[test]
fn previews_do_not_split_characters() {
    assert_eq!(truncate_preview("abc", None), "abc");
    assert_eq!(truncate_preview("abc", Some(3)), "abc");
    let cut = truncate_preview("a\u{e4}b", Some(2));
    assert!(cut.starts_with('a'));
    assert!(!cut.contains('\u{e4}'));
}

#[test]
fn values_are_shown_as_text() {
    assert_eq!(format_value(&AttrValue::Int(-3)), "-3");
    assert_eq!(format_value(&AttrValue::Str("x".to_string())), "x");
    assert_eq!(format_value(&AttrValue::Bool(true)), "true");
    assert!(format_timestamp(0).contains("1970"));
    assert!(!flatten_key("service.name").contains('.'));
    assert_eq!(encode(&[0x0f, 0xa0]), "0fa0");
}

#[test]
fn routes_of_an_export() {
    assert!(matches!(export::run("ndjson", &vec!["body".to_string()]), Ok(ExportRoute::Ndjson)));
    assert!(matches!(export::run("csv", &Vec::new()), Ok(ExportRoute::Plugin)));
    assert!(matches!(export::run("csv", &vec!["body".to_string()]), Err(Error::Usage(_))));
}

fn plugin(path: &str, name: &str) -> Candidate {
    Candidate {
        path: path.to_string(),
        loaded: Ok(PluginInfo {
            path: path.to_string(),
            format_name: name.to_string(),
            display_name: name.to_string(),
            capabilities: 0,
        }),
    }
}

#[test]
fn the_first_plugin_of_a_format_wins() {
    let r = ExporterRegistry::discover(
        vec!["/plugins".to_string()],
        Vec::new(),
        vec![
            plugin("a.so", "csv"),
            plugin("b.so", "csv"),
            plugin("c.so", "ndjson"),
            Candidate { path: "d.so".to_string(), loaded: Err("broken".to_string()) },
        ],
    );
    assert_eq!(r.plugin("csv").unwrap().path, "a.so");
    assert!(r.plugin("ndjson").is_none());
    assert_eq!(r.available_formats(), vec!["csv".to_string(), "ndjson".to_string()]);
    let text = r.unknown_format_error("xml").message();
    assert!(text.starts_with("unknown export format `xml`; available formats: csv, ndjson; searched: /plugins"));
    assert!(text.contains("broken"));
}

fn descriptor() -> DescriptorInfo {
    DescriptorInfo {
        struct_size: 64,
        abi_major: 1,
        abi_minor: 0,
        format_name: " CSV ".to_string(),
        display_name: " ".to_string(),
        capabilities: 1,
    }
}

#[test]
fn descriptors_are_checked() {
    let host = || HostAbi { descriptor_size: 64, major: 1, minor: 0 };
    let p = check_descriptor("a.so", descriptor(), host()).unwrap();
    assert_eq!(p.format_name, "csv");
    let mut d = descriptor();
    d.struct_size = 63;
    assert!(check_descriptor("a.so", d, host()).is_err());
    let mut d = descriptor();
    d.abi_major = 2;
    assert!(check_descriptor("a.so", d, host()).is_err());
    let mut d = descriptor();
    d.abi_minor = 1;
    assert!(check_descriptor("a.so", d, host()).is_err());
    let mut d = descriptor();
    d.format_name = "a b".to_string();
    assert!(check_descriptor("a.so", d, host()).is_err());
    assert!(is_valid_format_name("a-b_9"));
    assert!(!is_valid_format_name("A"));
    assert!(!is_valid_format_name(""));
}

#[test]
fn capabilities_decide_what_is_exported() {
    let bits = || CapabilityBits { logs: 1, metrics: 2, traces: 4, otlp_logs: 8 };
    let p = PluginInfo {
        path: "a.so".to_string(),
        format_name: "csv".to_string(),
        display_name: "CSV".to_string(),
        capabilities: 1,
    };
    assert!(p.validate_capabilities(RecordType::Logs, false, bits()).is_ok());
    assert!(p.validate_capabilities(RecordType::Metrics, false, bits()).is_err());
    assert!(p.validate_capabilities(RecordType::Logs, true, bits()).is_err());
}

#[test]
fn plugins_are_looked_for_in_their_roots() {
    let (roots, notes) = collect_search_roots(
        vec![
            ConfiguredPath { path: "/x".to_string(), exists: true },
            ConfiguredPath { path: "/gone".to_string(), exists: false },
        ],
        vec!["/x".to_string(), "/usr/lib".to_string()],
    );
    assert_eq!(roots, vec!["/x".to_string(), "/gone".to_string(), "/usr/lib".to_string()]);
    assert_eq!(notes.len(), 1);
    let mut diagnostics = Vec::new();
    let found = collect_plugin_candidates(
        &vec![
            RootFact::Directory(vec![
                ListedFile { path: "/x/b.so".to_string(), is_file: true },
                ListedFile { path: "/x/a.txt".to_string(), is_file: true },
                ListedFile { path: "/x/d.so".to_string(), is_file: false },
            ]),
            RootFact::Missing,
            RootFact::Unreadable { path: "/y".to_string(), error: "denied".to_string() },
        ],
        "so",
        &mut diagnostics,
    );
    assert_eq!(found, vec!["/x/b.so".to_string()]);
    assert_eq!(diagnostics.len(), 1);
}

#[test]
fn options_of_deduplication() {
    let args = DedupArgs {
        input: "a".to_string(),
        output: "b".to_string(),
        mode: DedupBehaviorArg::Collapse,
        matcher: DedupMatchArg::Full,
        bucket_by: Some("scope".to_string()),
        sim_th: Some(Ratio { num: 1, den: 2 }),
        drain_depth: Some(5),
        extra_delimiters: None,
    };
    let o = options(&args).unwrap();
    assert_eq!((o.mode, o.match_mode), (DedupMode::Collapse, DedupMatchMode::Full));
    assert_eq!(o.bucket_key, BucketKeyKind::Scope);
    assert_eq!(o.drain.depth, 5);
    assert_eq!(parse_bucket_by(&None).unwrap(), BucketKeyKind::Default);
    assert!(matches!(parse_bucket_by(&Some("colour".to_string())), Err(Error::Usage(_))));
}

#[test]
fn requests_of_the_command_line() {
    let cli = || Cli {
        export: None,
        input: None,
        output: None,
        force: false,
        fields: Vec::new(),
        format: None,
        predicate: PredicateArgs::new(),
        command: None,
    };
    assert!(matches!(cli().request(), Ok(Request::Help)));
    let mut c = cli();
    c.command = Some(Command::Count(CountArgs { input: "-".to_string(), predicate: PredicateArgs::new() }));
    assert!(matches!(c.request(), Ok(Request::Run(Command::Count(_)))));
    let mut c = cli();
    c.export = Some("csv".to_string());
    c.input = Some("a".to_string());
    c.output = Some("b".to_string());
    assert!(matches!(c.request(), Ok(Request::Export { .. })));
    let mut c = cli();
    c.export = Some("csv".to_string());
    assert!(matches!(c.request(), Err(Error::Usage(_))));
    let mut c = cli();
    c.input = Some("a".to_string());
    c.predicate.record_type = Some(RecordKind::Logs);
    assert!(matches!(c.request(), Ok(Request::Query { .. })));
}

#[test]
fn members_of_inner_objects_are_sorted_too() {
    let a = canonicalise_json_to_string(r#"{"b":{"z":"q","y":{"k":true,"j":null}},"a":[{"n":1,"m":2}]}"#).unwrap();
    let b = canonicalise_json_to_string(r#"{"a":[{"m":2,"n":1}],"b":{"y":{"j":null,"k":true},"z":"q"}}"#).unwrap();
    assert_eq!(a, b);
    assert!(a.find("\"j\"").unwrap() < a.find("\"k\"").unwrap());
    assert!(a.find("\"y\"").unwrap() < a.find("\"z\"").unwrap());
}

#[test]
fn canonical_json_sorts_its_keys() {
    let a = canonicalise_json_to_string("{\"b\":1,\"a\":\"x\"}").unwrap();
    let b = canonicalise_json_to_string("{\"a\":\"x\", \"b\":1}").unwrap();
    assert_eq!(a, b);
    assert!(a.find("\"a\"").unwrap() < a.find("\"b\"").unwrap());
    assert!(canonicalise_json_to_string("{broken").is_none());
    assert_eq!(normalise_key("Trace-ID_1"), "traceid1");
}

#[test]
fn metrics_and_traces_are_summarised() {
    let summary = extract_otlp_metrics_summary(&metrics_payload()).unwrap();
    assert!(summary.contains("cpu.load"));
    let message = extract_otlp_metrics_message(&metrics_payload()).unwrap();
    assert!(message.contains("42"));
    assert!(extract_otlp_metrics_summary(&[0xff]).is_none());
    let summary = extract_otlp_traces_summary(&traces_payload()).unwrap();
    assert!(summary.contains("GET /"));
    assert!(extract_otlp_traces_message(&traces_payload()).unwrap().contains("GET /"));
    assert!(extract_otlp_traces_summary(&[0xff]).is_none());
    assert!(render_payload_info(RecordType::Metrics, &metrics_payload()).len() > 1);
    assert!(render_payload_info(RecordType::Traces, &traces_payload()).len() > 1);
    assert_eq!(extract_otlp_log_severity(&log_payload("s", "WARN", &["x"])).as_deref(), Some("WARN"));
    assert_eq!(severity_number_label(9), Some("INFO"));
    assert_eq!(severity_number_label(0), None);
    assert!(!format_span_kind(2).is_empty());
}
