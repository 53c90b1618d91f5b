//! Detection of the shape of a log body. The first shape that applies wins.
use vstd::prelude::*;
use vstd::utf8::{decode_utf8, encode_utf8, encode_utf8_decode_utf8, is_char_boundary};

use crate::bridge::json_text::{json_of, parse_json};
use crate::bridge::patterns::{
    regex_count, regex_end, regex_find_end, regex_matches,
};
use crate::json::{json_option, Json, JsonValue};
use crate::text::seqs::{trim_start, trimmed_start};
use crate::text::strings::{chars_of, string_between};

verus! {

/// Body shape classification.
#[derive(Debug, Clone, Copy, PartialEq, Eq, Structural)]
pub enum BodyShape {
    /// A JSON object or array.
    Json,
    /// Two or more `key=value` pairs.
    KeyValue,
    /// A prefix before the real body.
    SourcePrefixed,
    /// Unstructured text.
    FreeText,
}

/// Detection result.
#[derive(Debug)]
pub struct Detected {
    pub shape: BodyShape,
    /// The parsed value of a JSON body.
    pub json_value: Option<JsonValue>,
    /// What follows the prefix of a prefixed body.
    pub stripped_suffix: Option<String>,
}

/// What a [`Detected`] holds.
pub struct DetectedModel {
    pub shape: BodyShape,
    pub json: Option<Json>,
    pub suffix: Option<Seq<char>>,
}

/// The text of an optional string.
pub open spec fn text_option(s: Option<String>) -> Option<Seq<char>> {
    match s {
        Some(t) => Some(t@),
        None => None,
    }
}

impl View for Detected {
    type V = DetectedModel;

    open spec fn view(&self) -> DetectedModel {
        DetectedModel {
            shape: self.shape,
            json: json_option(self.json_value),
            suffix: text_option(self.stripped_suffix),
        }
    }
}

/// The pattern of one `key=value` pair.
pub const PAIR: &'static str = "\\b\\w+=\\S+";

/// The pattern of a `[PID:TID:FLAGS] source.ext:lineno:` prefix.
pub const SOURCE_PREFIX: &'static str = "^\\[[\\d:]+\\]\\s+\\S+\\.\\w+:\\d+:?\\s*";

/// A text starts like a JSON object or array.
pub open spec fn opens_json(s: Seq<char>) -> bool {
    s.len() > 0 && (s[0] == '{' || s[0] == '[')
}

/// The value of a body that is JSON apart from leading white space.
pub open spec fn body_json(body: Seq<char>) -> Option<Json> {
    if opens_json(trim_start(body)) {
        json_of(trim_start(body))
    } else {
        None
    }
}

/// `i` is where a JSON object or array may start behind a prefix.
pub open spec fn json_start(body: Seq<char>, i: int) -> bool {
    0 <= i < body.len() && (body[i] == '{' || body[i] == '[') && i != body.len() - trim_start(
        body,
    ).len()
}

/// JSON behind a prefix, found at or after index `from`: the first start
/// whose rest is JSON.
pub open spec fn json_suffix_from(body: Seq<char>, from: int) -> Option<Seq<char>>
    decreases body.len() - from,
{
    if from < 0 || from >= body.len() {
        None
    } else if json_start(body, from) && json_of(body.skip(from)) is Some {
        Some(body.skip(from))
    } else {
        json_suffix_from(body, from + 1)
    }
}

/// What follows the prefix that ends at byte `end`; `None` where nothing
/// follows it, or where it is empty.
pub open spec fn suffix_at(body: Seq<char>, end: Option<usize>) -> Option<Seq<char>> {
    match end {
        Some(e) => {
            let suffix = decode_utf8(
                encode_utf8(body).subrange(e as int, encode_utf8(body).len() as int),
            );
            if suffix.len() == 0 || suffix.len() >= body.len() {
                None
            } else {
                Some(suffix)
            }
        },
        None => None,
    }
}

/// The shape of a body, from what is known of it.
pub open spec fn shape_from(
    json: Option<Json>,
    json_suffix: Option<Seq<char>>,
    pairs: Option<usize>,
    source_suffix: Option<Seq<char>>,
) -> DetectedModel {
    if json is Some {
        DetectedModel { shape: BodyShape::Json, json, suffix: None }
    } else if json_suffix is Some {
        DetectedModel { shape: BodyShape::SourcePrefixed, json: None, suffix: json_suffix }
    } else if pairs is Some && pairs->0 >= 2 {
        DetectedModel { shape: BodyShape::KeyValue, json: None, suffix: None }
    } else if source_suffix is Some {
        DetectedModel { shape: BodyShape::SourcePrefixed, json: None, suffix: source_suffix }
    } else {
        DetectedModel { shape: BodyShape::FreeText, json: None, suffix: None }
    }
}

/// The shape of a body.
pub open spec fn detected(body: Seq<char>) -> DetectedModel {
    shape_from(
        body_json(body),
        json_suffix_from(body, 0),
        regex_matches(PAIR@, body),
        suffix_at(body, regex_end(SOURCE_PREFIX@, body)),
    )
}

/// Decides the shape of a body from what is known of it.
pub fn choose_shape(
    json: Option<JsonValue>,
    json_suffix: Option<String>,
    pairs: Option<usize>,
    source_suffix: Option<String>,
) -> (r: Detected)
    ensures
        r@ == shape_from(
            json_option(json),
            text_option(json_suffix),
            pairs,
            text_option(source_suffix),
        ),
{
    if json.is_some() {
        return Detected { shape: BodyShape::Json, json_value: json, stripped_suffix: None };
    }
    if json_suffix.is_some() {
        return Detected {
            shape: BodyShape::SourcePrefixed,
            json_value: None,
            stripped_suffix: json_suffix,
        };
    }
    let many = match pairs {
        Some(n) => n >= 2,
        None => false,
    };
    if many {
        return Detected { shape: BodyShape::KeyValue, json_value: None, stripped_suffix: None };
    }
    if source_suffix.is_some() {
        return Detected {
            shape: BodyShape::SourcePrefixed,
            json_value: None,
            stripped_suffix: source_suffix,
        };
    }
    Detected { shape: BodyShape::FreeText, json_value: None, stripped_suffix: None }
}

/// The indices where a JSON object or array may start behind a prefix.
pub fn json_starts(body: &str) -> (r: Vec<usize>)
    ensures
        forall|k: int| 0 <= k < r@.len() ==> json_start(body@, #[trigger] r@[k] as int),
        forall|i: int| #[trigger] json_start(body@, i) ==> exists|k: int|
            0 <= k < r@.len() && #[trigger] r@[k] == i,
        forall|j: int, k: int| 0 <= j < k < r@.len() ==> #[trigger] r@[j] < #[trigger] r@[k],
{
    let chars = chars_of(body);
    let trimmed = trimmed_start(&chars);
    proof {
        lemma_trim_start_len(body@);
    }
    let rest = chars_of(trimmed.as_str());
    let lead = chars.len() - rest.len();
    let mut r: Vec<usize> = Vec::new();
    for i in 0..chars.len()
        invariant
            chars@ == body@,
            lead == body@.len() - trim_start(body@).len(),
            forall|k: int| 0 <= k < r@.len() ==> json_start(body@, #[trigger] r@[k] as int),
            forall|k: int| 0 <= k < r@.len() ==> #[trigger] r@[k] < i,
            forall|j: int|
                0 <= j < i && #[trigger] json_start(body@, j) ==> exists|k: int|
                    0 <= k < r@.len() && #[trigger] r@[k] == j,
            forall|j: int, k: int| 0 <= j < k < r@.len() ==> #[trigger] r@[j] < #[trigger] r@[k],
    {
        if (chars[i] == '{' || chars[i] == '[') && i != lead {
            let ghost before = r@;
            r.push(i);
            assert forall|j: int| 0 <= j < i + 1 && #[trigger] json_start(body@, j) implies exists|
                k: int,
            | 0 <= k < r@.len() && #[trigger] r@[k] == j by {
                if j < i {
                    let k = choose|k: int| 0 <= k < before.len() && #[trigger] before[k] == j;
                    assert(r@[k] == j);
                } else {
                    assert(r@[before.len() as int] == j);
                }
            }
        }
    }
    r
}

proof fn lemma_trim_start_len(s: Seq<char>)
    ensures
        trim_start(s).len() <= s.len(),
    decreases s.len(),
{
    let f = |c: char| crate::text::chars::is_whitespace(c);
    lemma_trim_start_where_len(s, f);
}

proof fn lemma_trim_start_where_len<A>(s: Seq<A>, f: spec_fn(A) -> bool)
    ensures
        crate::text::seqs::trim_start_where(s, f).len() <= s.len(),
    decreases s.len(),
{
    if s.len() > 0 && f(s.first()) {
        lemma_trim_start_where_len(s.drop_first(), f);
    }
}

/// JSON that is found behind a prefix is shorter than the body.
proof fn lemma_json_suffix_is_shorter(body: Seq<char>, from: int)
    requires
        0 <= from,
    ensures
        json_suffix_from(body, from) matches Some(s) ==> s.len() < body.len(),
    decreases body.len() - from,
{
    if from < body.len() {
        if json_start(body, from) && json_of(body.skip(from)) is Some {
            if from == 0 {
                assert(!crate::text::chars::is_whitespace(body[0]));
                assert(trim_start(body) == body);
            }
        } else {
            lemma_json_suffix_is_shorter(body, from + 1);
        }
    }
}

/// A prefix is never empty.
pub proof fn law_prefix_is_never_empty(body: Seq<char>)
    requires
        detected(body).shape == BodyShape::SourcePrefixed,
    ensures
        detected(body).suffix matches Some(s) && s.len() < body.len(),
{
    lemma_json_suffix_is_shorter(body, 0);
}

proof fn lemma_skip_to_start(body: Seq<char>, from: int, to: int)
    requires
        0 <= from <= to <= body.len(),
        forall|i: int|
            from <= i < to && json_start(body, i) ==> json_of(#[trigger] body.skip(i)) is None,
    ensures
        json_suffix_from(body, from) == json_suffix_from(body, to),
    decreases to - from,
{
    if from < to {
        assert(body.skip(from) == body.skip(from));
        lemma_skip_to_start(body, from + 1, to);
    }
}

/// The JSON object or array behind a prefix that is not JSON.
pub fn strip_json_prefix(body: &str) -> (r: Option<String>)
    ensures
        text_option(r) == json_suffix_from(body@, 0),
{
    let chars = chars_of(body);
    let starts = json_starts(body);
    for k in 0..starts.len()
        invariant
            chars@ == body@,
            forall|k: int| 0 <= k < starts@.len() ==> json_start(body@, #[trigger] starts@[k] as int),
            forall|i: int| #[trigger] json_start(body@, i) ==> exists|k: int|
                0 <= k < starts@.len() && #[trigger] starts@[k] == i,
            forall|j: int, k: int|
                0 <= j < k < starts@.len() ==> #[trigger] starts@[j] < #[trigger] starts@[k],
            forall|j: int|
                0 <= j < k ==> json_of(body@.skip(#[trigger] starts@[j] as int)) is None,
    {
        let i: usize = starts[k];
        assert(json_start(body@, starts@[k as int] as int));
        let suffix = string_between(&chars, i, chars.len());
        assert(suffix@ =~= body@.skip(i as int));
        if parse_json(suffix.as_str()).is_some() {
            assert forall|j: int| 0 <= j < i && json_start(body@, j) implies json_of(
                #[trigger] body@.skip(j),
            ) is None by {
                let q = choose|q: int| 0 <= q < starts@.len() && #[trigger] starts@[q] == j;
                if q > k {
                    assert(starts@[k as int] < starts@[q]);
                }
                if q == k {
                    assert(starts@[q] == i);
                }
                assert(json_of(body@.skip(starts@[q] as int)) is None);
            }
            proof {
                lemma_skip_to_start(body@, 0, i as int);
            }
            return Some(suffix);
        }
    }
    proof {
        assert forall|j: int| 0 <= j < body@.len() && json_start(body@, j) implies json_of(
            #[trigger] body@.skip(j),
        ) is None by {
            let q = choose|q: int| 0 <= q < starts@.len() && #[trigger] starts@[q] == j;
            assert(json_of(body@.skip(starts@[q] as int)) is None);
        }
        lemma_skip_to_start(body@, 0, body@.len() as int);
    }
    None
}

/// What follows the first `end` bytes of `body`; `None` where nothing follows
/// them, or where there are none.
pub fn suffix_after(body: &str, end: Option<usize>) -> (r: Option<String>)
    requires
        end matches Some(e) ==> e <= encode_utf8(body@).len() && is_char_boundary(
            encode_utf8(body@),
            e as int,
        ),
    ensures
        text_option(r) == suffix_at(body@, end),
{
    match end {
        Some(e) => {
            let (_, rest) = body.split_at(e);
            proof {
                encode_utf8_decode_utf8(rest@);
            }
            assert(encode_utf8(rest@) == encode_utf8(body@).subrange(
                e as int,
                encode_utf8(body@).len() as int,
            ));
            let len = chars_of(rest).len();
            if len == 0 || len >= chars_of(body).len() {
                None
            } else {
                Some(rest.to_owned())
            }
        },
        None => None,
    }
}

/// What follows a `[PID:TID:FLAGS] source.ext:lineno:` prefix.
pub fn strip_source_prefix(body: &str) -> (r: Option<String>)
    ensures
        text_option(r) == suffix_at(body@, regex_end(SOURCE_PREFIX@, body@)),
{
    let end = regex_find_end(SOURCE_PREFIX, body);
    suffix_after(body, end)
}

/// Detects the shape of a body.
pub fn detect(body: &str) -> (r: Detected)
    ensures
        r@ == detected(body@),
{
    let trimmed = trimmed_start(&chars_of(body));
    let start = chars_of(trimmed.as_str());
    if start.len() > 0 && (start[0] == '{' || start[0] == '[') {
        let json = parse_json(trimmed.as_str());
        if json.is_some() {
            return choose_shape(json, None, None, None);
        }
    }
    let json_suffix = strip_json_prefix(body);
    if json_suffix.is_some() {
        return choose_shape(None, json_suffix, None, None);
    }
    let pairs = regex_count(PAIR, body);
    let source_suffix = strip_source_prefix(body);
    choose_shape(None, None, pairs, source_suffix)
}

} // verus!
