//! Which values of JSON bodies are kept and which are replaced.
use vstd::prelude::*;
use vstd::utf8::{encode_utf8, is_ascii_chars, is_ascii_chars_encode_utf8};

use crate::dedup::canon_json::{
    array_shape, canon_json, canon_members, is_scalar, keys_differ, lemma_same_members,
    normalised_key, sorted_keys,
};
use crate::json::{
    json_escaped, json_quoted, json_text, lemma_sorting_maps, member_text, member_texts, seconds,
    Json,
};
use crate::text::chars::{is_alpha, is_digit, is_hex};
use crate::text::encoding::{lemma_encoded_contains, lemma_encoded_ends};
use crate::text::order::{law_sorting, sorted_by_key};
use crate::text::seqs::joined;

verus! {

/// A letter of ASCII or an underscore.
pub open spec fn in_short_word(c: char) -> bool {
    'a' <= c <= 'z' || 'A' <= c <= 'Z' || c == '_'
}

/// At most twelve letters and underscores, as names of states and levels are.
pub open spec fn is_short_word(s: Seq<char>) -> bool {
    s.len() <= 12 && forall|i: int| 0 <= i < s.len() ==> in_short_word(#[trigger] s[i])
}

/// Short words are kept: a state or a level stays what it is.
pub proof fn law_short_words_are_kept(key: Seq<char>, s: Seq<char>)
    requires
        is_short_word(s),
    ensures
        canon_json(key, Json::Str(s)) == Json::Str(s),
{
    let b = encode_utf8(s);
    assert(is_ascii_chars(s)) by {
        assert forall|i: int| 0 <= i < s.len() implies '\0' <= #[trigger] s[i] <= '\u{7f}' by {
            assert(in_short_word(s[i]));
        }
    }
    is_ascii_chars_encode_utf8(s);
    assert forall|i: int| 0 <= i < b.len() implies is_alpha(#[trigger] b[i]) || b[i] == 0x5f by {
        assert(in_short_word(s[i]));
        assert(b[i] == s[i] as u8);
    }
    if s.len() > 0 {
        assert(in_short_word(s[0]));
    }
}

/// A digit occurs among the bytes exactly where it does among the characters.
proof fn lemma_digits(s: Seq<char>)
    ensures
        crate::text::bytes::some_digit(encode_utf8(s)) <==> exists|i: int|
            0 <= i < s.len() && '0' <= #[trigger] s[i] <= '9',
{
    let b = encode_utf8(s);
    if crate::text::bytes::some_digit(b) {
        let i = choose|i: int| 0 <= i < b.len() && is_digit(#[trigger] b[i]);
        let c = b[i] as char;
        lemma_encoded_contains(s, c);
        assert(b.contains(b[i]));
        assert(c as u8 == b[i]);
        let j = choose|j: int| 0 <= j < s.len() && s[j] == c;
        assert('0' <= s[j] <= '9');
    }
    if exists|i: int| 0 <= i < s.len() && '0' <= #[trigger] s[i] <= '9' {
        let i = choose|i: int| 0 <= i < s.len() && '0' <= #[trigger] s[i] <= '9';
        lemma_encoded_contains(s, s[i]);
        assert(s.contains(s[i]));
        let j = choose|j: int| 0 <= j < b.len() && b[j] == s[i] as u8;
        assert(is_digit(b[j]));
    }
}

/// A character that varying texts have: a digit, a dot, a dash or a slash.
pub open spec fn varies(c: char) -> bool {
    '0' <= c <= '9' || c == '.' || c == '-' || c == '/'
}

/// Texts of at most forty bytes without digits, dots, dashes and slashes are
/// kept.
pub proof fn law_plain_texts_are_kept(key: Seq<char>, s: Seq<char>)
    requires
        encode_utf8(s).len() <= 40,
        forall|i: int| 0 <= i < s.len() ==> !varies(#[trigger] s[i]),
    ensures
        canon_json(key, Json::Str(s)) == Json::Str(s),
{
    let b = encode_utf8(s);
    lemma_digits(s);
    lemma_encoded_contains(s, '.');
    lemma_encoded_contains(s, '-');
    lemma_encoded_contains(s, '/');
    assert(!s.contains('.') && !s.contains('-') && !s.contains('/'));
    if s.len() > 0 {
        assert(!varies(s[0]));
    }
    if crate::dedup::canon_freetext::uuid_form(b) {
        assert(b[8] == 0x2d);
        assert(b.contains(0x2d));
    }
}

/// Texts with a digit, a dot, a dash or a slash, and texts of more than forty
/// bytes, are all alike, unless they are paths or as long as a UUID.
pub proof fn law_varying_texts_look_alike(key: Seq<char>, s: Seq<char>)
    requires
        s.len() > 0,
        s[0] != '/',
        encode_utf8(s).len() != 36,
        encode_utf8(s).len() > 40 || exists|i: int| 0 <= i < s.len() && varies(#[trigger] s[i]),
    ensures
        canon_json(key, Json::Str(s)) == Json::Str("_"@),
{
    let b = encode_utf8(s);
    lemma_digits(s);
    lemma_encoded_contains(s, '.');
    lemma_encoded_contains(s, '-');
    lemma_encoded_contains(s, '/');
    if exists|i: int| 0 <= i < s.len() && varies(#[trigger] s[i]) {
        let i = choose|i: int| 0 <= i < s.len() && varies(#[trigger] s[i]);
        lemma_encoded_contains(s, s[i]);
        assert(s.contains(s[i]));
        let j = choose|j: int| 0 <= j < b.len() && b[j] == s[i] as u8;
        assert(!is_alpha(b[j]) && b[j] != 0x5f);
        if '0' <= s[i] <= '9' {
            assert(crate::text::bytes::some_digit(b));
        }
    }
}

/// Texts that start with a slash are all alike.
pub proof fn law_paths_look_alike(key: Seq<char>, s: Seq<char>)
    requires
        s.len() > 0,
        s[0] == '/',
    ensures
        canon_json(key, Json::Str(s)) == Json::Str("_PATH_"@),
{
    lemma_encoded_ends(s);
    assert(!is_hex(encode_utf8(s)[0]));
}

/// Thirty-six hexadecimal digits and dashes in the places of a UUID.
pub open spec fn is_uuid_text(s: Seq<char>) -> bool {
    s.len() == 36 && forall|i: int|
        0 <= i < 36 ==> if i == 8 || i == 13 || i == 18 || i == 23 {
            #[trigger] s[i] == '-'
        } else {
            '0' <= s[i] <= '9' || 'a' <= s[i] <= 'f' || 'A' <= s[i] <= 'F'
        }
}

/// UUIDs are all alike.
pub proof fn law_uuids_look_alike(key: Seq<char>, s: Seq<char>)
    requires
        is_uuid_text(s),
    ensures
        canon_json(key, Json::Str(s)) == Json::Str("_UUID_"@),
{
    let b = encode_utf8(s);
    assert(is_ascii_chars(s)) by {
        assert forall|i: int| 0 <= i < s.len() implies '\0' <= #[trigger] s[i] <= '\u{7f}' by {}
    }
    is_ascii_chars_encode_utf8(s);
    assert forall|i: int| 0 <= i < 36 implies if i == 8 || i == 13 || i == 18 || i == 23 {
        #[trigger] b[i] == 0x2d
    } else {
        is_hex(b[i])
    } by {
        assert(b[i] == s[i] as u8);
        assert('\0' <= s[i] <= '\u{7f}');
    }
}

/// A text is kept or replaced by one of three marks; nothing else is made up.
pub proof fn law_texts_are_kept_or_marked(key: Seq<char>, s: Seq<char>)
    ensures
        canon_json(key, Json::Str(s)) == Json::Str(s) || canon_json(key, Json::Str(s)) == Json::Str(
            "_"@,
        ) || canon_json(key, Json::Str(s)) == Json::Str("_PATH_"@) || canon_json(key, Json::Str(s))
            == Json::Str("_UUID_"@),
{
}

/// The names under which numbers always vary: identifiers, positions, sizes,
/// counts, times, and what the machine hands out.
pub open spec fn varying_names() -> Seq<Seq<char>> {
    seq![
        "requestid"@,
        "reqid"@,
        "pathid"@,
        "routeid"@,
        "sessionid"@,
        "correlationid"@,
        "traceid"@,
        "spanid"@,
        "messageid"@,
        "offset"@,
        "position"@,
        "cursor"@,
        "size"@,
        "length"@,
        "len"@,
        "task"@,
        "tasks"@,
        "count"@,
        "total"@,
        "num"@,
        "timestamp"@,
        "time"@,
        "epoch"@,
        "ts"@,
        "duration"@,
        "elapsed"@,
        "latency"@,
        "port"@,
        "pid"@,
        "tid"@,
        "threadid"@,
    ]
}

proof fn lemma_varying(k: Seq<char>)
    ensures
        varying_names().contains(k) <==> crate::dedup::canon_json::always_normalised(k),
{
    let n = varying_names();
    if crate::dedup::canon_json::always_normalised(k) {
        if k == "requestid"@ {
            assert(n[0] == k);
        } else if k == "reqid"@ {
            assert(n[1] == k);
        } else if k == "pathid"@ {
            assert(n[2] == k);
        } else if k == "routeid"@ {
            assert(n[3] == k);
        } else if k == "sessionid"@ {
            assert(n[4] == k);
        } else if k == "correlationid"@ {
            assert(n[5] == k);
        } else if k == "traceid"@ {
            assert(n[6] == k);
        } else if k == "spanid"@ {
            assert(n[7] == k);
        } else if k == "messageid"@ {
            assert(n[8] == k);
        } else if k == "offset"@ {
            assert(n[9] == k);
        } else if k == "position"@ {
            assert(n[10] == k);
        } else if k == "cursor"@ {
            assert(n[11] == k);
        } else if k == "size"@ {
            assert(n[12] == k);
        } else if k == "length"@ {
            assert(n[13] == k);
        } else if k == "len"@ {
            assert(n[14] == k);
        } else if k == "task"@ {
            assert(n[15] == k);
        } else if k == "tasks"@ {
            assert(n[16] == k);
        } else if k == "count"@ {
            assert(n[17] == k);
        } else if k == "total"@ {
            assert(n[18] == k);
        } else if k == "num"@ {
            assert(n[19] == k);
        } else if k == "timestamp"@ {
            assert(n[20] == k);
        } else if k == "time"@ {
            assert(n[21] == k);
        } else if k == "epoch"@ {
            assert(n[22] == k);
        } else if k == "ts"@ {
            assert(n[23] == k);
        } else if k == "duration"@ {
            assert(n[24] == k);
        } else if k == "elapsed"@ {
            assert(n[25] == k);
        } else if k == "latency"@ {
            assert(n[26] == k);
        } else if k == "port"@ {
            assert(n[27] == k);
        } else if k == "pid"@ {
            assert(n[28] == k);
        } else if k == "tid"@ {
            assert(n[29] == k);
        } else {
            assert(n[30] == k);
        }
    }
}

/// Numbers nearer to zero than a thousand are kept, unless their key names a
/// quantity that always varies; those become zero.
pub proof fn law_small_numbers_are_kept(key: Seq<char>, n: i64)
    requires
        -1000 < n < 1000,
    ensures
        ({
            let v = if n < 0 {
                Json::Negative(n)
            } else {
                Json::Unsigned(n as u64)
            };
            if varying_names().contains(normalised_key(key)) {
                canon_json(key, v) == Json::Unsigned(0)
            } else {
                canon_json(key, v) == v
            }
        }),
{
    lemma_varying(normalised_key(key));
}

/// Numbers at least a thousand away from zero become zero, whatever their sign.
pub proof fn law_large_numbers_become_zero(key: Seq<char>, n: i64, m: u64)
    requires
        n <= -1000,
        m >= 1000,
    ensures
        canon_json(key, Json::Negative(n)) == Json::Unsigned(0),
        canon_json(key, Json::Unsigned(m)) == Json::Unsigned(0),
{
}

/// Fractions are all alike, but for zero and one.
pub proof fn law_fractions_look_alike(key: Seq<char>, text: Seq<char>)
    requires
        !varying_names().contains(normalised_key(key)),
    ensures
        canon_json(key, Json::Float("0.0"@)) == Json::Float("0.0"@),
        canon_json(key, Json::Float("1.0"@)) == Json::Float("1.0"@),
        text != "0.0"@ && text != "-0.0"@ && text != "1.0"@ ==> canon_json(key, Json::Float(text))
            == Json::Float("0.0"@),
{
    lemma_varying(normalised_key(key));
}

/// Booleans and null are kept, whatever their key.
pub proof fn law_booleans_and_null_are_kept(key: Seq<char>, b: bool)
    ensures
        canon_json(key, Json::Bool(b)) == Json::Bool(b),
        canon_json(key, Json::Null) == Json::Null,
{
}

/// A key is read letter by letter: capitals count as small letters, digits
/// count, and every other character is passed over.
pub proof fn law_keys_are_read_without_case_and_marks(key: Seq<char>, c: char)
    ensures
        normalised_key(Seq::empty()) == Seq::<char>::empty(),
        'a' <= c <= 'z' || '0' <= c <= '9' ==> normalised_key(key.push(c)) == normalised_key(
            key,
        ).push(c),
        'A' <= c <= 'Z' ==> normalised_key(key.push(c)) == normalised_key(key).push(
            (c as u32 + ('a' as u32 - 'A' as u32)) as char,
        ),
        !('a' <= c <= 'z' || '0' <= c <= '9' || 'A' <= c <= 'Z') ==> normalised_key(key.push(c))
            == normalised_key(key),
{
    reveal(Seq::filter);
    let keep = |x: char|
        crate::text::chars::is_ascii_letter(x) || crate::text::chars::is_ascii_digit(x);
    let lower = |x: char| crate::text::chars::ascii_lower(x);
    assert(key.push(c).drop_last() =~= key);
    let before = key.filter(keep);
    if keep(c) {
        assert(key.push(c).filter(keep) == before.push(c));
        assert(before.push(c).map_values(lower) =~= before.map_values(lower).push(lower(c)));
    } else {
        assert(key.push(c).filter(keep) == before);
    }
    assert(normalised_key(Seq::empty()) =~= Seq::<char>::empty());
}

/// Neither how many plain values a list holds nor which ones they are matters.
pub proof fn law_lists_of_plain_values_look_alike(key: Seq<char>, a: Seq<Json>, b: Seq<Json>)
    requires
        a.len() > 0 && b.len() > 0,
        forall|i: int| 0 <= i < a.len() ==> !(#[trigger] a[i] is Object) && !(a[i] is Array),
        forall|i: int| 0 <= i < b.len() ==> !(#[trigger] b[i] is Object) && !(b[i] is Array),
    ensures
        canon_json(key, Json::Array(a)) == canon_json(key, Json::Array(b)),
        canon_json(key, Json::Array(a)) != canon_json(key, Json::Array(Seq::empty())),
{
    assert forall|i: int| 0 <= i < a.len() implies is_scalar(#[trigger] a[i]) by {}
    assert forall|i: int| 0 <= i < b.len() implies is_scalar(#[trigger] b[i]) by {}
}

/// Of a list of objects only the keys of the first matter.
pub proof fn law_lists_of_objects_show_their_keys(
    key: Seq<char>,
    a: Seq<Json>,
    b: Seq<Json>,
    x: Seq<(Seq<char>, Json)>,
    y: Seq<(Seq<char>, Json)>,
)
    requires
        a.len() > 0 && a[0] == Json::Object(x),
        b.len() > 0 && b[0] == Json::Object(y),
    ensures
        canon_json(key, Json::Array(a)) == canon_json(key, Json::Array(b)) <==> sorted_keys(x)
            == sorted_keys(y),
{
    assert(!is_scalar(a[0]) && !is_scalar(b[0]));
    let sa = array_shape(a)->Object_0;
    let sb = array_shape(b)->Object_0;
    assert(sa[1].1 == Json::Array(sorted_keys(x)));
    assert(sb[1].1 == Json::Array(sorted_keys(y)));
}

/// Joined texts differ where one of them does.
proof fn lemma_join_differs(a: Seq<Seq<char>>, b: Seq<Seq<char>>, p: int, sep: Seq<char>)
    requires
        a.len() == b.len(),
        0 <= p < a.len(),
        forall|k: int| 0 <= k < a.len() && k != p ==> #[trigger] a[k] == b[k],
        a[p] != b[p],
    ensures
        joined(a, sep) != joined(b, sep),
    decreases a.len(),
{
    let n = a.len() - 1;
    if a.len() > 1 {
        let ia = a.drop_last();
        let ib = b.drop_last();
        let ja = joined(ia, sep);
        let jb = joined(ib, sep);
        if p == n {
            assert(ia =~= ib);
            if joined(a, sep) == joined(b, sep) {
                let j = ja + sep;
                assert(joined(a, sep).skip(j.len() as int) =~= a[n]);
                assert(joined(b, sep).skip(j.len() as int) =~= b[n]);
            }
        } else {
            assert forall|k: int| 0 <= k < ia.len() && k != p implies #[trigger] ia[k]
                == ib[k] by {
                assert(a[k] == b[k]);
            }
            lemma_join_differs(ia, ib, p, sep);
            assert(a[n] == b[n]);
            assert(joined(a, sep) == ja + sep + a[n]);
            assert(joined(b, sep) == jb + sep + b[n]);
            if joined(a, sep) == joined(b, sep) {
                assert((ja + sep + a[n]).len() == ja.len() + sep.len() + a[n].len());
                assert((jb + sep + b[n]).len() == jb.len() + sep.len() + b[n].len());
                assert(ja.len() == jb.len());
                assert(joined(a, sep).take(ja.len() as int) =~= ja);
                assert(joined(b, sep).take(jb.len() as int) =~= jb);
            }
        }
    }
}

/// The place of a member, beside its key.
spec fn places(m: Seq<(Seq<char>, Json)>) -> Seq<(Seq<char>, int)> {
    Seq::new(m.len(), |i: int| (m[i].0, i))
}

/// Every member of an object counts: two objects that differ in the canonical
/// text of one value have different canonical texts.
pub proof fn law_every_member_counts(
    key: Seq<char>,
    m: Seq<(Seq<char>, Json)>,
    i: int,
    v: Json,
)
    requires
        0 <= i < m.len(),
        keys_differ(m),
        json_text(canon_json(m[i].0, m[i].1)) != json_text(canon_json(m[i].0, v)),
    ensures
        json_text(canon_json(key, Json::Object(m))) != json_text(
            canon_json(key, Json::Object(m.update(i, (m[i].0, v)))),
        ),
{
    let w = m.update(i, (m[i].0, v));
    let idx = places(m);
    let fa = |k: int| member_text(m[k].0, json_text(canon_json(m[k].0, m[k].1))).1;
    let fb = |k: int| member_text(w[k].0, json_text(canon_json(w[k].0, w[k].1))).1;
    let ga = |e: (Seq<char>, int)| (e.0, fa(e.1));
    let gb = |e: (Seq<char>, int)| (e.0, fb(e.1));
    let ta = member_texts(canon_members(m));
    let tb = member_texts(canon_members(w));
    assert(ta =~= idx.map_values(ga));
    assert(tb =~= idx.map_values(gb));
    lemma_sorting_maps(idx, fa);
    lemma_sorting_maps(idx, fb);
    let s = sorted_by_key(idx);
    law_sorting(idx);
    s.to_multiset_ensures();
    idx.to_multiset_ensures();
    assert(idx.no_duplicates());
    idx.lemma_multiset_has_no_duplicates();
    s.lemma_multiset_has_no_duplicates_conv();
    assert(idx.contains(idx[i]));
    lemma_same_members(idx, s, idx[i]);
    let p = choose|p: int| 0 <= p < s.len() && s[p] == idx[i];
    let xa = seconds(sorted_by_key(ta));
    let xb = seconds(sorted_by_key(tb));
    assert forall|k: int| 0 <= k < xa.len() && k != p implies #[trigger] xa[k] == xb[k] by {
        assert(s.contains(s[k]));
        lemma_same_members(s, idx, s[k]);
        let q = choose|q: int| 0 <= q < idx.len() && idx[q] == s[k];
        assert(s[k] != s[p]);
        assert(q != i);
        assert(w[q] == m[q]);
        assert(xa[k] == fa(q) && xb[k] == fb(q));
    }
    let head = json_quoted(m[i].0) + ":"@;
    let va = json_text(canon_json(m[i].0, m[i].1));
    let vb = json_text(canon_json(m[i].0, v));
    assert(xa[p] == head + va);
    assert(xb[p] == head + vb);
    if xa[p] == xb[p] {
        assert(xa[p].skip(head.len() as int) =~= va);
        assert(xb[p].skip(head.len() as int) =~= vb);
    }
    lemma_join_differs(xa, xb, p, ","@);
    let la = joined(xa, ","@);
    let lb = joined(xb, ","@);
    let oa = json_text(canon_json(key, Json::Object(m)));
    let ob = json_text(canon_json(key, Json::Object(w)));
    reveal_strlit("{");
    reveal_strlit("}");
    assert(oa == "{"@ + la + "}"@);
    assert(ob == "{"@ + lb + "}"@);
    if oa == ob {
        assert(la.len() == lb.len());
        assert(oa.subrange(1, la.len() + 1int) =~= la);
        assert(ob.subrange(1, lb.len() + 1int) =~= lb);
    }
}

/// A text of characters that need no escape is quoted as it is.
proof fn lemma_plain_quoted(s: Seq<char>)
    requires
        forall|i: int| 0 <= i < s.len() ==> in_short_word(#[trigger] s[i]),
    ensures
        s.map_values(|c: char| json_escaped(c)).flatten() == s,
    decreases s.len(),
{
    let f = |c: char| json_escaped(c);
    let e = s.map_values(f);
    if s.len() > 0 {
        let rest = s.drop_first();
        assert forall|i: int| 0 <= i < rest.len() implies in_short_word(#[trigger] rest[i]) by {
            assert(in_short_word(s[i + 1]));
        }
        lemma_plain_quoted(rest);
        assert(in_short_word(s[0]));
        assert(e.drop_first() =~= rest.map_values(f));
        assert(e.first() == seq![s[0]]);
        assert(e.flatten() =~= seq![s[0]] + rest);
        assert(seq![s[0]] + rest =~= s);
    } else {
        assert(e.flatten() =~= s);
    }
}

/// Bodies that differ in a short word never share a canonical text, whatever
/// else they hold: a success and a failure are never merged.
pub proof fn law_short_words_tell_bodies_apart(
    m: Seq<(Seq<char>, Json)>,
    i: int,
    a: Seq<char>,
    b: Seq<char>,
)
    requires
        0 <= i < m.len(),
        keys_differ(m),
        m[i].1 == Json::Str(a),
        is_short_word(a) && is_short_word(b),
        a != b,
    ensures
        json_text(canon_json(Seq::empty(), Json::Object(m))) != json_text(
            canon_json(Seq::empty(), Json::Object(m.update(i, (m[i].0, Json::Str(b))))),
        ),
{
    let key = m[i].0;
    law_short_words_are_kept(key, a);
    law_short_words_are_kept(key, b);
    lemma_plain_quoted(a);
    lemma_plain_quoted(b);
    let qa = json_quoted(a);
    let qb = json_quoted(b);
    assert(qa == seq!['"'] + a + seq!['"']);
    assert(qb == seq!['"'] + b + seq!['"']);
    if qa == qb {
        assert(a.len() == b.len());
        assert(qa.subrange(1, a.len() + 1int) =~= a);
        assert(qb.subrange(1, b.len() + 1int) =~= b);
    }
    law_every_member_counts(Seq::empty(), m, i, Json::Str(b));
}

} // verus!
