//! Record predicates.
use vstd::prelude::*;

use crate::bridge::patterns::{
    bytes_regex_error, bytes_regex_found, bytes_regex_is_match, check_bytes_regex, regex_escape,
    regex_escaped,
};
use crate::bridge::protobuf::{decode_logs, logs_of};
use crate::bridge::shell::{shell_words, split_shell};
use crate::dedup::unpack::{attr_keys, resource_attrs_of, string_value};
use crate::error::{Error, ErrorModel};
use crate::otlp::{
    attrs_view, AttrValue, Attribute, KvModel, LogsModel, LogsRequest, ResourceLogSet,
    ResourceLogsModel, ScopeLogSet, ScopeLogsModel,
};
use crate::record::{RecordModel, RecordType, StreamRecord};
use crate::text::seqs::{first_index, lemma_first_index, trim, trimmed};
use crate::text::str_set::{distinct, StrSet};
use crate::text::strings::{chars_of, str_eq, texts};

verus! {

/// How bare text in a filter is read.
#[derive(Debug, Clone, Copy, PartialEq, Eq, Structural)]
pub enum FilterMode {
    Strings,
    Regex,
}

/// A record type that can be asked for.
#[derive(Debug, Clone, Copy, PartialEq, Eq, Structural)]
pub enum RecordKind {
    Logs,
    Metrics,
    Traces,
}

/// The record type of a kind.
pub open spec fn kind_type(k: RecordKind) -> RecordType {
    match k {
        RecordKind::Logs => RecordType::Logs,
        RecordKind::Metrics => RecordType::Metrics,
        RecordKind::Traces => RecordType::Traces,
    }
}

/// The record type of a kind.
pub fn record_type_of(k: RecordKind) -> (r: RecordType)
    ensures
        r == kind_type(k),
{
    match k {
        RecordKind::Logs => RecordType::Logs,
        RecordKind::Metrics => RecordType::Metrics,
        RecordKind::Traces => RecordType::Traces,
    }
}

/// Constrains records by severity text and service name.
#[derive(Debug, Clone)]
pub struct FieldFilter {
    pub severities: Option<StrSet>,
    pub services: Option<StrSet>,
}

/// What a [`FieldFilter`] holds.
pub struct FilterModel {
    pub severities: Option<Seq<Seq<char>>>,
    pub services: Option<Seq<Seq<char>>>,
}

/// The members of an optional set.
pub open spec fn set_option(s: Option<StrSet>) -> Option<Seq<Seq<char>>> {
    match s {
        Some(x) => Some(x@),
        None => None,
    }
}

impl View for FieldFilter {
    type V = FilterModel;

    open spec fn view(&self) -> FilterModel {
        FilterModel {
            severities: set_option(self.severities),
            services: set_option(self.services),
        }
    }
}

/// The first `service.name` among attributes, if it is a string.
pub open spec fn named_service(a: Seq<KvModel>) -> Option<Seq<char>> {
    let i = first_index(attr_keys(a), "service.name"@);
    if i < a.len() {
        string_value(a[i].value)
    } else {
        None
    }
}

/// No log record of a scope has a severity that is not allowed.
pub open spec fn severities_allowed(f: FilterModel, s: ScopeLogsModel) -> bool {
    f.severities matches Some(allowed) ==> forall|i: int|
        0 <= i < s.log_records.len() ==> allowed.contains(
            (#[trigger] s.log_records[i]).severity_text,
        )
}

/// A resource is allowed: its service, if it has one, and all severities are.
pub open spec fn resource_allowed(f: FilterModel, r: ResourceLogsModel) -> bool {
    &&& match (f.services, named_service(resource_attrs_of(r.resource))) {
        (Some(allowed), Some(service)) => allowed.contains(service),
        _ => true,
    }
    &&& forall|i: int|
        0 <= i < r.scope_logs.len() ==> severities_allowed(f, #[trigger] r.scope_logs[i])
}

/// A batch is allowed.
pub open spec fn batch_allowed(f: FilterModel, b: LogsModel) -> bool {
    forall|i: int|
        0 <= i < b.resource_logs.len() ==> resource_allowed(f, #[trigger] b.resource_logs[i])
}

/// A payload passes a field filter; one that is no log batch always does.
pub open spec fn payload_allowed(f: FilterModel, payload: Seq<u8>) -> bool {
    (f.severities is None && f.services is None) || match logs_of(payload) {
        Some(b) => batch_allowed(f, b),
        None => true,
    }
}

/// The service that a resource names.
pub fn find_service(attrs: &Vec<Attribute>) -> (r: Option<&String>)
    ensures
        match r {
            Some(s) => named_service(attrs_view(attrs@)) == Some(s@),
            None => named_service(attrs_view(attrs@)) is None,
        },
{
    let ghost a = attrs_view(attrs@);
    let ghost keys = attr_keys(a);
    let n = attrs.len();
    let mut i: usize = 0;
    while i < n && !str_eq(attrs[i].key.as_str(), "service.name")
        invariant
            i <= n,
            n == attrs@.len(),
            a == attrs_view(attrs@),
            keys == attr_keys(a),
            keys.len() == n,
            forall|j: int| 0 <= j < i ==> keys[j] != "service.name"@,
        decreases n - i,
    {
        assert(keys[i as int] == attrs@[i as int].key@);
        i = i + 1;
    }
    proof {
        if i < n {
            assert(keys[i as int] == attrs@[i as int].key@);
        }
        lemma_first_index(keys, "service.name"@, i as int);
    }
    if i < n {
        assert(a[i as int] == attrs@[i as int]@);
        if let Some(AttrValue::Str(s)) = &attrs[i].value {
            return Some(s);
        }
    }
    None
}

impl FieldFilter {
    /// A filter that lets everything pass.
    pub fn new() -> (r: Self)
        ensures
            r@ == (FilterModel { severities: None, services: None }),
    {
        FieldFilter { severities: None, services: None }
    }

    /// Whether the filter lets everything pass.
    pub fn is_empty(&self) -> (r: bool)
        ensures
            r == (self@.severities is None && self@.services is None),
    {
        self.severities.is_none() && self.services.is_none()
    }

    fn scope_passes(&self, s: &ScopeLogSet) -> (r: bool)
        ensures
            r == severities_allowed(self@, s@),
    {
        if let Some(allowed) = &self.severities {
            for i in 0..s.log_records.len()
                invariant
                    self@.severities == Some(allowed@),
                    forall|j: int|
                        0 <= j < i ==> allowed@.contains(
                            (#[trigger] s@.log_records[j]).severity_text,
                        ),
            {
                assert(s@.log_records[i as int] == s.log_records@[i as int]@);
                if !allowed.contains(s.log_records[i].severity_text.as_str()) {
                    return false;
                }
            }
        }
        true
    }

    fn resource_passes(&self, rl: &ResourceLogSet) -> (r: bool)
        ensures
            r == resource_allowed(self@, rl@),
    {
        if let Some(allowed) = &self.services {
            if let Some(resource) = &rl.resource {
                if let Some(service) = find_service(&resource.attributes) {
                    if !allowed.contains(service.as_str()) {
                        return false;
                    }
                }
            } else {
                assert(attr_keys(Seq::<KvModel>::empty()) =~= Seq::empty());
            }
        }
        for i in 0..rl.scope_logs.len()
            invariant
                forall|j: int|
                    0 <= j < i ==> severities_allowed(self@, #[trigger] rl@.scope_logs[j]),
        {
            assert(rl@.scope_logs[i as int] == rl.scope_logs@[i as int]@);
            if !self.scope_passes(&rl.scope_logs[i]) {
                return false;
            }
        }
        true
    }

    /// Whether a log batch passes.
    pub fn matches_batch(&self, batch: &LogsRequest) -> (r: bool)
        ensures
            r == batch_allowed(self@, batch@),
    {
        for i in 0..batch.resource_logs.len()
            invariant
                forall|j: int|
                    0 <= j < i ==> resource_allowed(self@, #[trigger] batch@.resource_logs[j]),
        {
            assert(batch@.resource_logs[i as int] == batch.resource_logs@[i as int]@);
            if !self.resource_passes(&batch.resource_logs[i]) {
                return false;
            }
        }
        true
    }

    /// Whether a payload passes.
    pub fn matches_payload(&self, payload: &[u8]) -> (r: bool)
        ensures
            r == payload_allowed(self@, payload@),
    {
        if self.is_empty() {
            return true;
        }
        match decode_logs(payload) {
            Some(batch) => self.matches_batch(&batch),
            None => true,
        }
    }
}

/// Whether a list holds an empty text.
pub open spec fn some_empty(v: Seq<Seq<char>>) -> bool {
    exists|i: int| 0 <= i < v.len() && (#[trigger] v[i]).len() == 0
}

/// Reads a list of filter values: no values mean no filter, and an empty
/// value is an error.
pub fn parse_string_filter(values: &Vec<String>, label: &str) -> (r: Result<Option<StrSet>, Error>)
    ensures
        match r {
            Ok(None) => values@.len() == 0,
            Ok(Some(s)) => values@.len() > 0 && !some_empty(texts(values@)) && s.wf() && s@
                == distinct(texts(values@)),
            Err(e) => some_empty(texts(values@)) && e@ == ErrorModel::Usage(
                "empty "@ + label@ + " filter values are not allowed"@,
            ),
        },
{
    if values.len() == 0 {
        return Ok(None);
    }
    let ghost all = texts(values@);
    let mut set = StrSet::new();
    assert(all.take(0) =~= Seq::empty());
    for i in 0..values.len()
        invariant
            all == texts(values@),
            set.wf(),
            set@ == distinct(all.take(i as int)),
            forall|j: int| 0 <= j < i ==> (#[trigger] all[j]).len() > 0,
    {
        assert(all[i as int] == values@[i as int]@);
        assert(all.take(i + 1).drop_last() =~= all.take(i as int));
        if values[i].as_str().is_empty() {
            let mut message = "empty ".to_owned();
            message.append(label);
            message.append(" filter values are not allowed");
            return Err(Error::Usage(message));
        }
        set.insert(values[i].as_str());
    }
    assert(all.take(values@.len() as int) =~= all);
    Ok(Some(set))
}

/// A predicate as it is asked for.
#[derive(Debug)]
pub struct PredicateArgs {
    pub record_type: Option<RecordKind>,
    pub seq_min: Option<u64>,
    pub seq_max: Option<u64>,
    pub ts_min: Option<u64>,
    pub ts_max: Option<u64>,
    pub grep: Vec<String>,
    pub fixed_string: Vec<String>,
    pub ignore_case: bool,
}

/// A pattern for payloads.
#[derive(Debug)]
struct PayloadMatcher {
    source: String,
    ignore_case: bool,
}

/// A pattern for payloads, over mathematical strings.
pub struct MatcherModel {
    pub source: Seq<char>,
    pub ignore_case: bool,
}

impl PayloadMatcher {
    spec fn model(self) -> MatcherModel {
        MatcherModel { source: self.source@, ignore_case: self.ignore_case }
    }
}

/// A compiled predicate.
#[derive(Debug)]
pub struct RecordPredicate {
    record_type: Option<RecordType>,
    seq_min: Option<u64>,
    seq_max: Option<u64>,
    ts_min: Option<u64>,
    ts_max: Option<u64>,
    payload_matchers: Vec<PayloadMatcher>,
    field_filter: FieldFilter,
}

/// What a [`RecordPredicate`] holds.
pub struct PredicateModel {
    pub record_type: Option<RecordType>,
    pub seq_min: Option<u64>,
    pub seq_max: Option<u64>,
    pub ts_min: Option<u64>,
    pub ts_max: Option<u64>,
    pub matchers: Seq<MatcherModel>,
    pub fields: FilterModel,
}

impl View for RecordPredicate {
    type V = PredicateModel;

    closed spec fn view(&self) -> PredicateModel {
        PredicateModel {
            record_type: self.record_type,
            seq_min: self.seq_min,
            seq_max: self.seq_max,
            ts_min: self.ts_min,
            ts_max: self.ts_max,
            matchers: self.payload_matchers@.map_values(|m: PayloadMatcher| m.model()),
            fields: self.field_filter@,
        }
    }
}

/// Everything but the payload is as the predicate asks for.
pub open spec fn header_matches(p: PredicateModel, r: RecordModel) -> bool {
    &&& p.record_type matches Some(t) ==> r.record_type == t
    &&& p.seq_min matches Some(min) ==> min <= r.seq
    &&& p.seq_max matches Some(max) ==> r.seq <= max
    &&& p.ts_min matches Some(min) ==> min <= r.ts_unix_ns
    &&& p.ts_max matches Some(max) ==> r.ts_unix_ns <= max
}

/// A record satisfies a predicate.
pub open spec fn predicate_matches(p: PredicateModel, r: RecordModel) -> bool {
    &&& header_matches(p, r)
    &&& forall|i: int|
        0 <= i < p.matchers.len() ==> bytes_regex_found(
            (#[trigger] p.matchers[i]).source,
            p.matchers[i].ignore_case,
            r.payload,
        )
    &&& payload_allowed(p.fields, r.payload)
}

/// The pattern of a text, taken literally or as a regular expression.
pub open spec fn matcher_source(text: Seq<char>, fixed: bool) -> Seq<char> {
    if fixed {
        regex_escaped(text)
    } else {
        text
    }
}

/// The patterns of a predicate as it is asked for: regular expressions, then
/// literal texts.
pub open spec fn args_matchers(grep: Seq<Seq<char>>, fixed: Seq<Seq<char>>, ignore_case: bool) -> Seq<
    MatcherModel,
> {
    grep.map_values(
        |t: Seq<char>| MatcherModel { source: matcher_source(t, false), ignore_case },
    ) + fixed.map_values(
        |t: Seq<char>| MatcherModel { source: matcher_source(t, true), ignore_case },
    )
}

/// The index of the first pattern that is refused, or the number of patterns.
pub open spec fn first_refused(m: Seq<MatcherModel>) -> int
    decreases m.len(),
{
    if m.len() == 0 || bytes_regex_error(m[0].source, m[0].ignore_case) is Some {
        0
    } else {
        1 + first_refused(m.drop_first())
    }
}

proof fn lemma_first_refused(m: Seq<MatcherModel>, i: int)
    requires
        0 <= i <= m.len(),
        forall|j: int|
            0 <= j < i ==> bytes_regex_error((#[trigger] m[j]).source, m[j].ignore_case) is None,
        i < m.len() ==> bytes_regex_error(m[i].source, m[i].ignore_case) is Some,
    ensures
        first_refused(m) == i,
    decreases i,
{
    if i > 0 {
        assert(bytes_regex_error(m[0].source, m[0].ignore_case) is None);
        assert forall|j: int| 0 <= j < i - 1 implies bytes_regex_error(
            (#[trigger] m.drop_first()[j]).source,
            m.drop_first()[j].ignore_case,
        ) is None by {
            assert(bytes_regex_error(m[j + 1].source, m[j + 1].ignore_case) is None);
        }
        lemma_first_refused(m.drop_first(), i - 1);
    }
}

/// The message for a refused pattern.
pub open spec fn refusal(m: MatcherModel) -> ErrorModel {
    ErrorModel::Usage(
        "invalid payload matcher: "@ + bytes_regex_error(m.source, m.ignore_case)->0,
    )
}

impl PayloadMatcher {
    fn new(pattern: &str, fixed_string: bool, ignore_case: bool) -> (r: Result<Self, Error>)
        ensures
            ({
                let m = MatcherModel {
                    source: matcher_source(pattern@, fixed_string),
                    ignore_case,
                };
                match r {
                    Ok(x) => x.model() == m && bytes_regex_error(m.source, m.ignore_case) is None,
                    Err(e) => e@ == refusal(m) && bytes_regex_error(
                        m.source,
                        m.ignore_case,
                    ) is Some,
                }
            }),
    {
        let source = if fixed_string {
            regex_escape(pattern)
        } else {
            pattern.to_owned()
        };
        match check_bytes_regex(source.as_str(), ignore_case) {
            Some(err) => {
                let mut message = "invalid payload matcher: ".to_owned();
                message.append(err.as_str());
                Err(Error::Usage(message))
            },
            None => Ok(PayloadMatcher { source, ignore_case }),
        }
    }

    fn is_match(&self, payload: &[u8]) -> (r: bool)
        ensures
            r == bytes_regex_found(self.model().source, self.model().ignore_case, payload@),
    {
        bytes_regex_is_match(self.source.as_str(), self.ignore_case, payload)
    }
}

/// The patterns that a predicate asks for.
pub open spec fn asked_matchers(a: PredicateArgs) -> Seq<MatcherModel> {
    args_matchers(texts(a.grep@), texts(a.fixed_string@), a.ignore_case)
}

/// The predicate that is asked for, if no pattern is refused.
pub open spec fn asked_predicate(a: PredicateArgs) -> PredicateModel {
    PredicateModel {
        record_type: match a.record_type {
            Some(k) => Some(kind_type(k)),
            None => None,
        },
        seq_min: a.seq_min,
        seq_max: a.seq_max,
        ts_min: a.ts_min,
        ts_max: a.ts_max,
        matchers: asked_matchers(a),
        fields: FilterModel { severities: None, services: None },
    }
}

/// Why a predicate cannot be compiled: its first pattern that is refused.
pub open spec fn build_error(a: PredicateArgs) -> Option<ErrorModel> {
    let all = asked_matchers(a);
    if first_refused(all) < all.len() {
        Some(refusal(all[first_refused(all)]))
    } else {
        None
    }
}

impl PredicateArgs {
    /// A predicate that every record satisfies.
    pub fn new() -> (r: Self)
        ensures
            r.record_type is None,
            r.seq_min is None,
            r.seq_max is None,
            r.ts_min is None,
            r.ts_max is None,
            r.grep@.len() == 0,
            r.fixed_string@.len() == 0,
            !r.ignore_case,
    {
        PredicateArgs {
            record_type: None,
            seq_min: None,
            seq_max: None,
            ts_min: None,
            ts_max: None,
            grep: Vec::new(),
            fixed_string: Vec::new(),
            ignore_case: false,
        }
    }

    /// Whether anything is asked for.
    pub fn has_filters(&self) -> (r: bool)
        ensures
            r == (self.record_type is Some || self.seq_min is Some || self.seq_max is Some
                || self.ts_min is Some || self.ts_max is Some || self.grep@.len() > 0
                || self.fixed_string@.len() > 0 || self.ignore_case),
    {
        self.record_type.is_some() || self.seq_min.is_some() || self.seq_max.is_some()
            || self.ts_min.is_some() || self.ts_max.is_some() || self.grep.len() > 0
            || self.fixed_string.len() > 0 || self.ignore_case
    }

    /// Compiles the predicate. The first pattern that is refused is an error.
    pub fn build(&self) -> (r: Result<RecordPredicate, Error>)
        ensures
            match r {
                Ok(p) => p@ == asked_predicate(*self) && build_error(*self) is None,
                Err(e) => build_error(*self) == Some(e@),
            },
    {
        let ghost all = asked_matchers(*self);
        let ghost split = self.grep@.len() as int;
        let mut matchers: Vec<PayloadMatcher> = Vec::new();
        for i in 0..self.grep.len()
            invariant
                all == asked_matchers(*self),
                split == self.grep@.len(),
                all.len() == split + self.fixed_string@.len(),
                matchers@.len() == i,
                forall|k: int| 0 <= k < i ==> (#[trigger] matchers@[k]).model() == all[k],
                forall|k: int|
                    0 <= k < i ==> bytes_regex_error(
                        (#[trigger] all[k]).source,
                        all[k].ignore_case,
                    ) is None,
        {
            assert(texts(self.grep@)[i as int] == self.grep@[i as int]@);
            match PayloadMatcher::new(self.grep[i].as_str(), false, self.ignore_case) {
                Ok(m) => {
                    matchers.push(m);
                },
                Err(e) => {
                    proof {
                        lemma_first_refused(all, i as int);
                    }
                    return Err(e);
                },
            }
        }
        for i in 0..self.fixed_string.len()
            invariant
                all == asked_matchers(*self),
                split == self.grep@.len(),
                all.len() == split + self.fixed_string@.len(),
                matchers@.len() == split + i,
                forall|k: int| 0 <= k < split + i ==> (#[trigger] matchers@[k]).model() == all[k],
                forall|k: int|
                    0 <= k < split + i ==> bytes_regex_error(
                        (#[trigger] all[k]).source,
                        all[k].ignore_case,
                    ) is None,
        {
            assert(texts(self.fixed_string@)[i as int] == self.fixed_string@[i as int]@);
            match PayloadMatcher::new(self.fixed_string[i].as_str(), true, self.ignore_case) {
                Ok(m) => {
                    matchers.push(m);
                },
                Err(e) => {
                    proof {
                        lemma_first_refused(all, split + i);
                    }
                    return Err(e);
                },
            }
        }
        proof {
            lemma_first_refused(all, all.len() as int);
        }
        let r = RecordPredicate {
            record_type: match self.record_type {
                Some(k) => Some(record_type_of(k)),
                None => None,
            },
            seq_min: self.seq_min,
            seq_max: self.seq_max,
            ts_min: self.ts_min,
            ts_max: self.ts_max,
            payload_matchers: matchers,
            field_filter: FieldFilter::new(),
        };
        assert(r@.matchers =~= all);
        Ok(r)
    }
}

impl RecordPredicate {
    /// Whether a record satisfies the predicate.
    pub fn matches(&self, record: &StreamRecord) -> (r: bool)
        ensures
            r == predicate_matches(self@, record@),
    {
        if !self.header_matches(record) {
            return false;
        }
        for i in 0..self.payload_matchers.len()
            invariant
                forall|k: int|
                    0 <= k < i ==> bytes_regex_found(
                        (#[trigger] self@.matchers[k]).source,
                        self@.matchers[k].ignore_case,
                        record@.payload,
                    ),
        {
            assert(self@.matchers[i as int] == self.payload_matchers@[i as int].model());
            if !self.payload_matchers[i].is_match(&record.payload) {
                return false;
            }
        }
        self.field_filter.matches_payload(&record.payload)
    }

    /// Whether everything but the payload is as the predicate asks for.
    pub fn header_matches(&self, record: &StreamRecord) -> (r: bool)
        ensures
            r == header_matches(self@, record@),
    {
        if let Some(expected) = self.record_type {
            if record.record_type != expected {
                return false;
            }
        }
        if let Some(min) = self.seq_min {
            if record.seq < min {
                return false;
            }
        }
        if let Some(max) = self.seq_max {
            if record.seq > max {
                return false;
            }
        }
        if let Some(min) = self.ts_min {
            if record.ts_unix_ns < min {
                return false;
            }
        }
        if let Some(max) = self.ts_max {
            if record.ts_unix_ns > max {
                return false;
            }
        }
        true
    }

    /// The predicate with another field filter.
    pub fn with_fields(self, field_filter: FieldFilter) -> (r: Self)
        ensures
            r@ == (PredicateModel { fields: field_filter@, ..self@ }),
    {
        let mut r = self;
        r.field_filter = field_filter;
        r
    }

    /// The field filter.
    pub fn fields(&self) -> (r: &FieldFilter)
        ensures
            r@ == self@.fields,
    {
        &self.field_filter
    }

    pub fn record_type_filter(&self) -> (r: Option<RecordType>)
        ensures
            r == self@.record_type,
    {
        self.record_type
    }

    pub fn seq_min_filter(&self) -> (r: Option<u64>)
        ensures
            r == self@.seq_min,
    {
        self.seq_min
    }

    pub fn seq_max_filter(&self) -> (r: Option<u64>)
        ensures
            r == self@.seq_max,
    {
        self.seq_max
    }

    pub fn ts_min_filter(&self) -> (r: Option<u64>)
        ensures
            r == self@.ts_min,
    {
        self.ts_min
    }

    pub fn ts_max_filter(&self) -> (r: Option<u64>)
        ensures
            r == self@.ts_max,
    {
        self.ts_max
    }

    pub fn service_filter(&self) -> (r: &Option<StrSet>)
        ensures
            set_option(*r) == self@.fields.services,
    {
        &self.field_filter.services
    }

    pub fn severity_filter(&self) -> (r: &Option<StrSet>)
        ensures
            set_option(*r) == self@.fields.severities,
    {
        &self.field_filter.severities
    }
}

/// A filter typed by the user.
#[derive(Debug, PartialEq, Eq)]
pub enum FilterQuery {
    /// Every record passes.
    All,
    /// Payloads that hold this text.
    Text(String),
    /// Payloads that match this regular expression.
    Pattern(String),
    /// Command-line options.
    Options(Vec<String>),
}

/// What a [`FilterQuery`] holds.
pub enum QueryModel {
    All,
    Text(Seq<char>),
    Pattern(Seq<char>),
    Options(Seq<Seq<char>>),
}

impl View for FilterQuery {
    type V = QueryModel;

    open spec fn view(&self) -> QueryModel {
        match *self {
            FilterQuery::All => QueryModel::All,
            FilterQuery::Text(s) => QueryModel::Text(s@),
            FilterQuery::Pattern(s) => QueryModel::Pattern(s@),
            FilterQuery::Options(v) => QueryModel::Options(texts(v@)),
        }
    }
}

/// A filter typed by the user, given the shell words of its text.
pub open spec fn query_of(query: Seq<char>, mode: FilterMode, argv: Option<Seq<Seq<char>>>) -> Result<
    QueryModel,
    ErrorModel,
> {
    let t = trim(query);
    if t.len() == 0 {
        Ok(QueryModel::All)
    } else if t[0] != '-' {
        match mode {
            FilterMode::Strings => Ok(QueryModel::Text(t)),
            FilterMode::Regex => Ok(QueryModel::Pattern(t)),
        }
    } else {
        match argv {
            Some(words) => Ok(QueryModel::Options(words)),
            None => Err(
                ErrorModel::Usage("invalid filter expression: unterminated quotes"@),
            ),
        }
    }
}

/// Result of reading a filter, over mathematical values.
pub open spec fn query_result(r: Result<FilterQuery, Error>) -> Result<QueryModel, ErrorModel> {
    match r {
        Ok(q) => Ok(q@),
        Err(e) => Err(e@),
    }
}

/// Reads a filter, given the shell words of its text.
pub fn read_filter_query(query: &str, mode: FilterMode, argv: Option<Vec<String>>) -> (r: Result<
    FilterQuery,
    Error,
>)
    ensures
        query_result(r) == query_of(
            query@,
            mode,
            match argv {
                Some(v) => Some(texts(v@)),
                None => None,
            },
        ),
{
    let text = trimmed(&chars_of(query));
    let chars = chars_of(text.as_str());
    if chars.len() == 0 {
        return Ok(FilterQuery::All);
    }
    if chars[0] != '-' {
        return match mode {
            FilterMode::Strings => Ok(FilterQuery::Text(text)),
            FilterMode::Regex => Ok(FilterQuery::Pattern(text)),
        };
    }
    match argv {
        Some(words) => Ok(FilterQuery::Options(words)),
        None => Err(Error::usage("invalid filter expression: unterminated quotes")),
    }
}

/// Reads a filter typed by the user: bare text by the active mode, text that
/// starts with a dash as command-line options.
pub fn parse_filter_query(query: &str, mode: FilterMode) -> (r: Result<FilterQuery, Error>)
    ensures
        query_result(r) == query_of(query@, mode, shell_words(trim(query@))),
{
    let text = trimmed(&chars_of(query));
    read_filter_query(query, mode, split_shell(text.as_str()))
}

/// The options that a bare filter stands for; `None` for command-line options.
pub fn query_args(query: &FilterQuery) -> (r: Option<PredicateArgs>)
    ensures
        match query@ {
            QueryModel::Options(_) => r is None,
            QueryModel::All => r is Some && asked_predicate(r->0) == all_records(Seq::empty()),
            QueryModel::Text(t) => r is Some && asked_predicate(r->0) == all_records(
                seq![MatcherModel { source: regex_escaped(t), ignore_case: false }],
            ),
            QueryModel::Pattern(t) => r is Some && asked_predicate(r->0) == all_records(
                seq![MatcherModel { source: t, ignore_case: false }],
            ),
        },
{
    let mut args = PredicateArgs::new();
    match query {
        FilterQuery::All => {
            assert(asked_matchers(args) =~= Seq::empty());
            Some(args)
        },
        FilterQuery::Text(t) => {
            args.fixed_string.push(t.clone());
            assert(asked_matchers(args) =~= seq![
                MatcherModel { source: regex_escaped(t@), ignore_case: false },
            ]);
            Some(args)
        },
        FilterQuery::Pattern(t) => {
            args.grep.push(t.clone());
            assert(asked_matchers(args) =~= seq![
                MatcherModel { source: t@, ignore_case: false },
            ]);
            Some(args)
        },
        FilterQuery::Options(_) => None,
    }
}

/// A predicate on payloads alone.
pub open spec fn all_records(matchers: Seq<MatcherModel>) -> PredicateModel {
    PredicateModel {
        record_type: None,
        seq_min: None,
        seq_max: None,
        ts_min: None,
        ts_max: None,
        matchers,
        fields: FilterModel { severities: None, services: None },
    }
}

/// The test of a predicate.
pub open spec fn passes_predicate(p: PredicateModel) -> spec_fn(RecordModel) -> bool {
    |r: RecordModel| predicate_matches(p, r)
}

/// The records that satisfy a predicate, in order.
pub open spec fn selected(records: Seq<RecordModel>, p: PredicateModel) -> Seq<RecordModel> {
    records.filter(passes_predicate(p))
}

} // verus!
