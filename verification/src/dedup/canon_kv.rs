//! Key=value (logfmt) canonicalisation.
//!
//! A body is split at white space. In a token that holds `=`, the key before
//! the first `=` is kept and the value after it goes through the free-text
//! token classifier. Bare words are classified too.
use vstd::prelude::*;

use crate::dedup::canon_freetext::{
    class_text, classify_token_with, is_iso8601, starts_with_iso8601, token_class, verdict_text,
};
use crate::text::seqs::{first_index, index_of_char, join_strings, joined, words, words_of};
use crate::text::strings::{chars_of, string_between, texts};

verus! {

/// The canonical text of a token without regard to trailing punctuation.
pub open spec fn classified(token: Seq<char>, iso8601: bool) -> Seq<char> {
    verdict_text(token_class(token, iso8601), token)
}

/// A token splits into a key and a value: it holds an `=` that is not its
/// first character.
pub open spec fn is_pair(token: Seq<char>) -> bool {
    0 < first_index(token, '=') < token.len()
}

/// The part of a token that is classified: the value of a pair, else the
/// whole token.
pub open spec fn value_part(token: Seq<char>) -> Seq<char> {
    if is_pair(token) {
        token.skip(first_index(token, '=') + 1)
    } else {
        token
    }
}

/// The part of a token that is kept as it is: the key of a pair with its `=`.
pub open spec fn key_part(token: Seq<char>) -> Seq<char> {
    if is_pair(token) {
        token.take(first_index(token, '=') + 1)
    } else {
        Seq::empty()
    }
}

/// The canonical text of one token of a key=value body.
pub open spec fn kv_token(token: Seq<char>, iso8601: bool) -> Seq<char> {
    key_part(token) + classified(value_part(token), iso8601)
}

/// The canonical form of a key=value body.
pub open spec fn kv_canon(body: Seq<char>) -> Seq<char> {
    joined(
        words(body).map_values(|w: Seq<char>| kv_token(w, starts_with_iso8601(value_part(w)))),
        " "@,
    )
}

/// The canonical text of `token`, given whether it starts with an ISO 8601
/// timestamp.
pub fn classify_and_render_with(token: &str, iso8601: bool) -> (r: String)
    ensures
        r@ == classified(token@, iso8601),
{
    class_text(classify_token_with(token, iso8601), token)
}

/// The canonical text of `token`.
pub fn classify_and_render(token: &str) -> (r: String)
    ensures
        r@ == classified(token@, starts_with_iso8601(token@)),
{
    let iso8601 = is_iso8601(token);
    classify_and_render_with(token, iso8601)
}

/// The canonical text of one token of a key=value body.
fn render_kv_token(token: &str) -> (r: String)
    ensures
        r@ == kv_token(token@, starts_with_iso8601(value_part(token@))),
{
    let chars = chars_of(token);
    let at = index_of_char(&chars, '=');
    if at == 0 || at == chars.len() {
        let r = classify_and_render(token);
        assert(r@ =~= Seq::<char>::empty() + r@);
        return r;
    }
    let mut r = string_between(&chars, 0, at + 1);
    let value = string_between(&chars, at + 1, chars.len());
    assert(r@ =~= key_part(token@));
    assert(value@ =~= value_part(token@));
    r.append(classify_and_render(value.as_str()).as_str());
    r
}

/// Canonicalises a key=value body.
pub fn canonicalise_kv(body: &str) -> (r: String)
    ensures
        r@ == kv_canon(body@),
{
    let chars = chars_of(body);
    let tokens = words_of(&chars);
    let ghost render = |w: Seq<char>| kv_token(w, starts_with_iso8601(value_part(w)));
    let mut rendered: Vec<String> = Vec::new();
    for i in 0..tokens.len()
        invariant
            texts(tokens@) == words(body@),
            render == (|w: Seq<char>| kv_token(w, starts_with_iso8601(value_part(w)))),
            texts(rendered@) == words(body@).take(i as int).map_values(render),
    {
        assert(words(body@)[i as int] == tokens@[i as int]@);
        let ghost before = texts(rendered@);
        rendered.push(render_kv_token(tokens[i].as_str()));
        assert(texts(rendered@) =~= before.push(render(tokens@[i as int]@)));
        assert(texts(rendered@) =~= words(body@).take(i + 1).map_values(render));
    }
    assert(words(body@).take(tokens@.len() as int) =~= words(body@));
    join_strings(&rendered, " ")
}

/// The key of every pair survives canonicalisation, with its `=`.
pub proof fn law_keys_are_kept(token: Seq<char>, iso8601: bool)
    requires
        is_pair(token),
    ensures
        token.take(first_index(token, '=') + 1).is_prefix_of(kv_token(token, iso8601)),
{
    let key = key_part(token);
    assert(kv_token(token, iso8601).subrange(0, key.len() as int) =~= key);
}

} // verus!
