//! Requests as they are given on the command line.
use vstd::prelude::*;

use crate::dedup::drain3::Ratio;
use crate::error::{Error, ErrorModel};
use crate::predicate::{asked_predicate, build_error, PredicateArgs, RecordPredicate};

verus! {

/// How `dedup` behaves.
#[derive(Debug, Clone, Copy, PartialEq, Eq, Structural)]
pub enum DedupBehaviorArg {
    Distinct,
    Collapse,
}

/// Which records `dedup` takes for equal.
#[derive(Debug, Clone, Copy, PartialEq, Eq, Structural)]
pub enum DedupMatchArg {
    Exact,
    Canon,
    Full,
}

/// The compression of an output file.
#[derive(Debug, Clone, Copy, PartialEq, Eq, Structural)]
pub enum OutputCodec {
    /// No compression.
    Plain,
    Lz4,
}

/// The format of a query result.
#[derive(Debug, Clone, Copy, PartialEq, Eq, Structural)]
pub enum ExportFormat {
    Ndjson,
}

/// Arguments of `dedup`.
#[derive(Debug)]
pub struct DedupArgs {
    pub input: String,
    pub output: String,
    pub mode: DedupBehaviorArg,
    pub matcher: DedupMatchArg,
    pub bucket_by: Option<String>,
    pub sim_th: Option<Ratio>,
    pub drain_depth: Option<i64>,
    pub extra_delimiters: Option<String>,
}

/// Arguments of `count`.
#[derive(Debug)]
pub struct CountArgs {
    pub input: String,
    pub predicate: PredicateArgs,
}

/// Arguments of `filter`.
#[derive(Debug)]
pub struct FilterArgs {
    pub input: String,
    pub output: String,
    pub codec: OutputCodec,
    pub block_target_size: usize,
    pub predicate: PredicateArgs,
}

/// Arguments of `split`.
#[derive(Debug)]
pub struct SplitArgs {
    pub input: String,
    pub output_prefix: String,
    pub max_bytes: Option<u64>,
    pub max_records: Option<u64>,
    pub timestamp_range: Option<String>,
}

/// Arguments of `join`.
#[derive(Debug)]
pub struct JoinArgs {
    pub inputs: Vec<String>,
    pub output: String,
    pub validate_sequence_continuity: bool,
}

/// Arguments of `stats`.
#[derive(Debug)]
pub struct StatsArgs {
    pub input: String,
    pub field_stats: bool,
}

/// Arguments of `view`.
#[derive(Debug)]
pub struct ViewArgs {
    pub input: String,
    pub hex_payload: bool,
}

/// Arguments of `cat`.
#[derive(Debug)]
pub struct CatArgs {
    pub input: String,
}

/// Arguments of `discover`.
#[derive(Debug)]
pub struct DiscoverArgs {
    pub inputs: Vec<String>,
    pub offset: usize,
    pub limit: Option<usize>,
    pub services: Vec<String>,
    pub severities: Vec<String>,
    pub top_services: usize,
    pub ndjson: bool,
    pub predicate: PredicateArgs,
}

/// A subcommand.
#[derive(Debug)]
pub enum Command {
    Split(SplitArgs),
    Join(JoinArgs),
    Filter(FilterArgs),
    Count(CountArgs),
    Stats(StatsArgs),
    Discover(DiscoverArgs),
    View(ViewArgs),
    Dedup(DedupArgs),
}

/// The command line.
#[derive(Debug)]
pub struct Cli {
    pub export: Option<String>,
    pub input: Option<String>,
    pub output: Option<String>,
    pub force: bool,
    pub fields: Vec<String>,
    pub format: Option<ExportFormat>,
    pub predicate: PredicateArgs,
    pub command: Option<Command>,
}

/// What the command line asks for.
#[derive(Debug)]
pub enum Request {
    /// Export a file.
    Export { format: String, input: String, output: String, force: bool, fields: Vec<String> },
    /// Show the matching records of a file.
    Query { input: String, predicate: RecordPredicate, format: ExportFormat, fields: Vec<String> },
    /// Run a subcommand.
    Run(Command),
    /// Show the help text.
    Help,
}

/// Something is asked of the records.
pub open spec fn asks_filters(p: PredicateArgs) -> bool {
    p.record_type is Some || p.seq_min is Some || p.seq_max is Some || p.ts_min is Some
        || p.ts_max is Some || p.grep@.len() > 0 || p.fixed_string@.len() > 0 || p.ignore_case
}

impl Cli {
    /// What the command line asks for. An export comes before a query, and a
    /// query before a subcommand.
    pub fn request(self) -> (r: Result<Request, Error>)
        ensures
            match self.export {
                Some(format) => match (self.input, self.output) {
                    (Some(input), Some(output)) => r == Ok::<Request, Error>(
                        Request::Export {
                            format,
                            input,
                            output,
                            force: self.force,
                            fields: self.fields,
                        },
                    ),
                    (None, _) => r is Err && r->Err_0@ == ErrorModel::Usage(
                        "missing export input; use `ljx --export <format> <input> -o <output>`"@,
                    ),
                    (Some(_), None) => r is Err && r->Err_0@ == ErrorModel::Usage(
                        "missing export output; use `ljx --export <format> <input> -o <output>`"@,
                    ),
                },
                None => match self.input {
                    Some(input) => match build_error(self.predicate) {
                        Some(e) => r is Err && r->Err_0@ == e,
                        None => r matches Ok(
                            Request::Query { input: i, predicate, format, fields },
                        ) && i == input && predicate@ == asked_predicate(self.predicate) && fields
                            == self.fields && format == ExportFormat::Ndjson,
                    },
                    None => if self.format is Some || asks_filters(self.predicate) {
                        r is Err && r->Err_0@ == ErrorModel::Usage(
                            "missing query input; use `ljx <input> [--format ndjson] [FILTER OPTIONS]`"@,
                        )
                    } else {
                        match self.command {
                            Some(c) => r == Ok::<Request, Error>(Request::Run(c)),
                            None => r == Ok::<Request, Error>(Request::Help),
                        }
                    },
                },
            },
    {
        if let Some(format) = self.export {
            let input = match self.input {
                Some(input) => input,
                None => {
                    return Err(
                        Error::Usage(
                            "missing export input; use `ljx --export <format> <input> -o <output>`".to_owned(),
                        ),
                    );
                },
            };
            let output = match self.output {
                Some(output) => output,
                None => {
                    return Err(
                        Error::Usage(
                            "missing export output; use `ljx --export <format> <input> -o <output>`".to_owned(),
                        ),
                    );
                },
            };
            return Ok(
                Request::Export { format, input, output, force: self.force, fields: self.fields },
            );
        }
        if let Some(input) = self.input {
            return match self.predicate.build() {
                Ok(predicate) => Ok(
                    Request::Query {
                        input,
                        predicate,
                        format: match self.format {
                            Some(format) => format,
                            None => ExportFormat::Ndjson,
                        },
                        fields: self.fields,
                    },
                ),
                Err(e) => Err(e),
            };
        }
        if self.format.is_some() || self.predicate.has_filters() {
            return Err(
                Error::Usage(
                    "missing query input; use `ljx <input> [--format ndjson] [FILTER OPTIONS]`".to_owned(),
                ),
            );
        }
        match self.command {
            Some(command) => Ok(Request::Run(command)),
            None => Ok(Request::Help),
        }
    }
}

} // verus!
