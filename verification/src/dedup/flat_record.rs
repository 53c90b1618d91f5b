//! Flat representation of a single log record.
//!
//! All fields needed for bucketing, hashing and emission are captured here,
//! so that later stages never look at a batch again.
use vstd::prelude::*;

use crate::dedup::detect::text_option;
use crate::otlp::{attrs_view, copy_attrs, copy_bytes, Attribute, KvModel};
use crate::text::strings::{copy_text, str_eq};

verus! {

/// Selects which fields form the bucket key.
#[derive(Debug, Clone, Copy, PartialEq, Eq, Structural)]
pub enum BucketKeyKind {
    /// Ignore bucket boundaries entirely.
    Global,
    /// Service name and severity number.
    Default,
    /// Adds the instrumentation scope name.
    Scope,
    /// Adds the source file and line.
    SourceLine,
    /// Adds both scope and source line.
    ScopeAndSourceLine,
}

/// Hard partition key. Records with different keys never merge.
#[derive(Debug)]
pub struct BucketKey {
    pub service_name: String,
    pub severity_number: i32,
    pub scope_name: Option<String>,
    pub code_filepath: Option<String>,
    pub code_lineno: Option<i64>,
}

/// What a [`BucketKey`] holds.
pub struct KeyModel {
    pub service_name: Seq<char>,
    pub severity_number: i32,
    pub scope_name: Option<Seq<char>>,
    pub code_filepath: Option<Seq<char>>,
    pub code_lineno: Option<i64>,
}

impl View for BucketKey {
    type V = KeyModel;

    open spec fn view(&self) -> KeyModel {
        KeyModel {
            service_name: self.service_name@,
            severity_number: self.severity_number,
            scope_name: text_option(self.scope_name),
            code_filepath: text_option(self.code_filepath),
            code_lineno: self.code_lineno,
        }
    }
}

impl BucketKey {
    /// An equal value.
    pub fn copy(&self) -> (r: Self)
        ensures
            r@ == self@,
    {
        BucketKey {
            service_name: self.service_name.clone(),
            severity_number: self.severity_number,
            scope_name: copy_text(&self.scope_name),
            code_filepath: copy_text(&self.code_filepath),
            code_lineno: self.code_lineno,
        }
    }
}

/// One log record with the resource and scope it belongs to.
#[derive(Debug)]
pub struct FlatRecord {
    pub service_name: String,
    pub severity_number: i32,
    pub severity_text: String,
    pub scope_name: String,
    pub event_name: String,
    pub code_filepath: Option<String>,
    pub code_lineno: Option<i64>,
    pub trace_id: Vec<u8>,
    pub span_id: Vec<u8>,
    pub time_unix_nano: u64,
    pub observed_time_unix_nano: u64,
    pub body: String,
    pub resource_attrs: Vec<Attribute>,
    pub scope_attrs: Vec<Attribute>,
    pub record_attrs: Vec<Attribute>,
}

/// What a [`FlatRecord`] holds.
pub struct FlatModel {
    pub service_name: Seq<char>,
    pub severity_number: i32,
    pub severity_text: Seq<char>,
    pub scope_name: Seq<char>,
    pub event_name: Seq<char>,
    pub code_filepath: Option<Seq<char>>,
    pub code_lineno: Option<i64>,
    pub trace_id: Seq<u8>,
    pub span_id: Seq<u8>,
    pub time_unix_nano: u64,
    pub observed_time_unix_nano: u64,
    pub body: Seq<char>,
    pub resource_attrs: Seq<KvModel>,
    pub scope_attrs: Seq<KvModel>,
    pub record_attrs: Seq<KvModel>,
}

impl View for FlatRecord {
    type V = FlatModel;

    open spec fn view(&self) -> FlatModel {
        FlatModel {
            service_name: self.service_name@,
            severity_number: self.severity_number,
            severity_text: self.severity_text@,
            scope_name: self.scope_name@,
            event_name: self.event_name@,
            code_filepath: text_option(self.code_filepath),
            code_lineno: self.code_lineno,
            trace_id: self.trace_id@,
            span_id: self.span_id@,
            time_unix_nano: self.time_unix_nano,
            observed_time_unix_nano: self.observed_time_unix_nano,
            body: self.body@,
            resource_attrs: attrs_view(self.resource_attrs@),
            scope_attrs: attrs_view(self.scope_attrs@),
            record_attrs: attrs_view(self.record_attrs@),
        }
    }
}

impl FlatRecord {
    /// An equal value.
    pub fn copy(&self) -> (r: Self)
        ensures
            r@ == self@,
    {
        FlatRecord {
            service_name: self.service_name.clone(),
            severity_number: self.severity_number,
            severity_text: self.severity_text.clone(),
            scope_name: self.scope_name.clone(),
            event_name: self.event_name.clone(),
            code_filepath: copy_text(&self.code_filepath),
            code_lineno: self.code_lineno,
            trace_id: copy_bytes(&self.trace_id),
            span_id: copy_bytes(&self.span_id),
            time_unix_nano: self.time_unix_nano,
            observed_time_unix_nano: self.observed_time_unix_nano,
            body: self.body.clone(),
            resource_attrs: copy_attrs(&self.resource_attrs),
            scope_attrs: copy_attrs(&self.scope_attrs),
            record_attrs: copy_attrs(&self.record_attrs),
        }
    }
}

/// The bucket key of a record.
pub open spec fn key_of(rec: FlatModel, kind: BucketKeyKind) -> KeyModel {
    let scoped = kind == BucketKeyKind::Scope || kind == BucketKeyKind::ScopeAndSourceLine;
    let lined = kind == BucketKeyKind::SourceLine || kind == BucketKeyKind::ScopeAndSourceLine;
    if kind == BucketKeyKind::Global {
        KeyModel {
            service_name: Seq::empty(),
            severity_number: 0,
            scope_name: None,
            code_filepath: None,
            code_lineno: None,
        }
    } else {
        KeyModel {
            service_name: rec.service_name,
            severity_number: rec.severity_number,
            scope_name: if scoped {
                Some(rec.scope_name)
            } else {
                None
            },
            code_filepath: if lined {
                rec.code_filepath
            } else {
                None
            },
            code_lineno: if lined {
                rec.code_lineno
            } else {
                None
            },
        }
    }
}

impl BucketKey {
    /// The bucket key of a record.
    pub fn from_record(rec: &FlatRecord, kind: BucketKeyKind) -> (r: Self)
        ensures
            r@ == key_of(rec@, kind),
    {
        match kind {
            BucketKeyKind::Global => {
                let r = BucketKey {
                    service_name: String::new(),
                    severity_number: 0,
                    scope_name: None,
                    code_filepath: None,
                    code_lineno: None,
                };
                assert(r@.service_name =~= Seq::empty());
                r
            },
            _ => {
                let scope_name = match kind {
                    BucketKeyKind::Scope | BucketKeyKind::ScopeAndSourceLine => Some(
                        rec.scope_name.clone(),
                    ),
                    _ => None,
                };
                let (code_filepath, code_lineno) = match kind {
                    BucketKeyKind::SourceLine | BucketKeyKind::ScopeAndSourceLine => (
                        copy_text(&rec.code_filepath),
                        rec.code_lineno,
                    ),
                    _ => (None, None),
                };
                BucketKey {
                    service_name: rec.service_name.clone(),
                    severity_number: rec.severity_number,
                    scope_name,
                    code_filepath,
                    code_lineno,
                }
            },
        }
    }

    /// Whether two keys are equal.
    pub fn same(&self, other: &BucketKey) -> (r: bool)
        ensures
            r == (self@ == other@),
    {
        let lines = match (self.code_lineno, other.code_lineno) {
            (Some(a), Some(b)) => a == b,
            (None, None) => true,
            _ => false,
        };
        lines && self.severity_number == other.severity_number && str_eq(
            self.service_name.as_str(),
            other.service_name.as_str(),
        ) && same_text(&self.scope_name, &other.scope_name) && same_text(
            &self.code_filepath,
            &other.code_filepath,
        )
    }
}

/// Whether two optional strings are equal.
fn same_text(a: &Option<String>, b: &Option<String>) -> (r: bool)
    ensures
        r == (text_option(*a) == text_option(*b)),
{
    match (a, b) {
        (Some(x), Some(y)) => str_eq(x.as_str(), y.as_str()),
        (None, None) => true,
        _ => false,
    }
}

} // verus!
