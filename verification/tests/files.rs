//! Files, indexes and blocks.

use ljx::block::{decode_varint, parse_block_payload, BlockError};
use ljx::dataset::{
    check_inputs, is_logjet_path, looks_like_glob, select_paths, Dataset, DatasetEntry, InputFact,
};
use ljx::dataset_index::{
    build_index, load_fresh, record_type_bit, sidecar_file_name, summarise_block, to_disk,
    INDEX_VERSION, SUMMARY_LIMIT,
};
use ljx::error::Error;
use ljx::predicate::PredicateArgs;
use ljx::record::{RecordType, StreamRecord};

fn record(seq: u64, ts_unix_ns: u64) -> StreamRecord {
    StreamRecord { record_type: RecordType::Logs, seq, ts_unix_ns, payload: Vec::new() }
}

fn entry(path: &str) -> DatasetEntry {
    DatasetEntry::new(path.to_string(), 0, None, None)
}

fn strings(v: &[&str]) -> Vec<String> {
    v.iter().map(|s| s.to_string()).collect()
}

#[test]
fn globs_and_extensions() {
    assert!(looks_like_glob("logs/*.logjet"));
    assert!(looks_like_glob("a?b"));
    assert!(!looks_like_glob("logs/a.logjet"));
    assert!(is_logjet_path("dir/a.logjet"));
    assert!(!is_logjet_path("dir/a.log"));
}

#[test]
fn standard_input_stands_alone() {
    assert!(check_inputs(&strings(&["-"])).unwrap());
    assert!(!check_inputs(&strings(&["a.logjet"])).unwrap());
    assert!(matches!(check_inputs(&strings(&["-", "a.logjet"])), Err(Error::Usage(_))));
    assert!(matches!(check_inputs(&Vec::new()), Err(Error::Usage(_))));
}

#[test]
fn paths_are_sorted_and_do_not_repeat() {
    let inputs = strings(&["b.logjet", "dir", "b.logjet"]);
    let facts = vec![
        InputFact::File,
        InputFact::Directory(strings(&["dir/z.logjet", "dir/a.logjet", "dir/note.txt"])),
        InputFact::File,
    ];
    let paths = select_paths(&inputs, &facts).unwrap();
    assert_eq!(paths, strings(&["b.logjet", "dir/a.logjet", "dir/z.logjet"]));
}

#[test]
fn a_missing_input_is_refused() {
    let r = select_paths(&strings(&["gone.logjet"]), &vec![InputFact::Missing]);
    assert!(matches!(r, Err(Error::Usage(_))));
    let r = select_paths(&strings(&["dir"]), &vec![InputFact::Directory(strings(&["dir/a.txt"]))]);
    assert!(matches!(r, Err(Error::Usage(_))));
}

#[test]
fn names_of_output_come_from_the_files() {
    let one = Dataset::new(vec![entry("logs/day.logjet")]);
    assert_eq!(one.default_stem("output"), "day");
    assert_eq!(one.output_dir(), "logs");
    assert_eq!(one.primary_path(), "logs/day.logjet");
    let same = Dataset::new(vec![entry("logs/a.logjet"), entry("logs/b.logjet")]);
    assert_eq!(same.default_stem("output"), "dataset");
    assert_eq!(same.output_dir(), "logs");
    let apart = Dataset::new(vec![entry("x/a.logjet"), entry("y/b.logjet")]);
    assert_eq!(apart.output_dir(), ".");
    assert!(Dataset::stdin().is_stdin());
    assert!(!one.is_stdin());
}

#[test]
fn sidecar_names_are_hashes() {
    let name = sidecar_file_name("logs/day.logjet");
    let hash = xxhash_rust::xxh3::xxh3_64(b"logs/day.logjet");
    assert_eq!(name, format!("{hash:016x}.ljxidx"));
}

#[test]
fn blocks_are_skipped_only_without_matches() {
    let block = summarise_block(0, 100, &vec![record(5, 50), record(9, 90)]);
    assert_eq!(block.first_seq, Some(5));
    assert_eq!(block.last_seq, Some(9));
    assert_eq!(block.first_ts_unix_ns, Some(50));
    assert_eq!(block.last_ts_unix_ns, Some(90));
    assert_eq!(block.record_types, record_type_bit(RecordType::Logs));

    let mut args = PredicateArgs::new();
    args.seq_min = Some(9);
    assert!(block.may_match(&args.build().unwrap()));
    args.seq_min = Some(10);
    assert!(!block.may_match(&args.build().unwrap()));
    let mut args = PredicateArgs::new();
    args.ts_max = Some(49);
    assert!(!block.may_match(&args.build().unwrap()));
}

#[test]
fn an_index_comes_back_from_its_file() {
    let first = summarise_block(0, 100, &vec![record(1, 10), record(2, 20)]);
    let second = summarise_block(100, 60, &vec![record(3, 30)]);
    let index = build_index(vec![first, second], 160, Some(7)).unwrap();
    assert_eq!(index.summary.first_seq, Some(1));
    assert_eq!(index.summary.last_seq, Some(3));
    let disk = to_disk("a.logjet", &index);
    assert_eq!(disk.version, INDEX_VERSION);
    let back = load_fresh(disk, "a.logjet", 160, Some(7)).unwrap();
    assert_eq!(back.blocks.len(), 2);
    assert_eq!(back.blocks[1].offset, 100);
    assert_eq!(back.summary.last_ts_unix_ns, Some(30));

    assert!(load_fresh(to_disk("a.logjet", &index), "a.logjet", 161, Some(7)).is_none());
    assert!(load_fresh(to_disk("a.logjet", &index), "a.logjet", 160, Some(8)).is_none());
    assert!(load_fresh(to_disk("a.logjet", &index), "b.logjet", 160, Some(7)).is_none());
    assert_eq!(SUMMARY_LIMIT, 16);
}

#[test]
fn numbers_of_variable_length() {
    assert_eq!(decode_varint(&[0x05], 0), Ok((5, 1)));
    assert_eq!(decode_varint(&[0xff, 0xac, 0x02], 1), Ok((300, 3)));
    assert_eq!(decode_varint(&[0x80], 0), Err(BlockError::TruncatedNumber));
    assert_eq!(decode_varint(&[0x80; 11], 0), Err(BlockError::LongNumber));
}

#[test]
fn blocks_hold_differences() {
    let kinds = vec![(1u8, RecordType::Logs), (2u8, RecordType::Metrics)];
    // Kind, difference in sequence, difference in time, length, payload.
    let payload = [1, 0, 0, 2, 0x61, 0x62, 2, 3, 5, 0];
    let records = parse_block_payload(&payload, 100, 1000, &kinds).unwrap();
    assert_eq!(records.len(), 2);
    assert_eq!((records[0].seq, records[0].ts_unix_ns), (100, 1000));
    assert_eq!(records[0].payload, b"ab".to_vec());
    assert_eq!(records[1].record_type, RecordType::Metrics);
    assert!(records[1].payload.is_empty());
}

#[test]
fn malformed_blocks_are_refused() {
    let kinds = vec![(1u8, RecordType::Logs)];
    assert!(matches!(parse_block_payload(&[9, 0, 0, 0], 0, 0, &kinds), Err(BlockError::UnknownKind(9))));
    assert!(matches!(parse_block_payload(&[1, 0, 0, 5, 0x61], 0, 0, &kinds), Err(BlockError::OutOfRange)));
    assert!(matches!(parse_block_payload(&[1, 0], 0, 0, &kinds), Err(BlockError::TruncatedNumber)));
}
